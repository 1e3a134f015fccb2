use petrify::errors::TranslationError;
use petrify::ir::{BasicBlock, Body, Operand, Place, Procedure, Program, Terminator, Ty};
use petrify::net::NetBuilder;
use petrify::net::TransKind;
use petrify::translator::Translator;

fn entry_with(blocks: Vec<BasicBlock>, local_tys: Vec<Ty>) -> Program {
    Program {
        procs: vec![Procedure {
            name: "crate::main".as_bytes().to_vec(),
            is_foreign: false,
            is_panic_entry: false,
            body: Some(Body { arg_count: 0, local_tys, blocks }),
        }],
    }
}

#[test]
fn false_edges_is_malformed() {
    let program = entry_with(
        vec![BasicBlock { stmt_count: 0, terminator: Terminator::FalseEdges }],
        vec![],
    );
    let mut t = Translator::new(program);
    assert_eq!(t.petrify(0), Err(TranslationError::MalformedIr));
}

#[test]
fn false_unwind_is_malformed() {
    let program = entry_with(
        vec![BasicBlock { stmt_count: 0, terminator: Terminator::FalseUnwind }],
        vec![],
    );
    let mut t = Translator::new(program);
    assert_eq!(t.petrify(0), Err(TranslationError::MalformedIr));
}

#[test]
fn goto_out_of_range_is_unknown_block() {
    let program = entry_with(
        vec![BasicBlock { stmt_count: 0, terminator: Terminator::Goto { target: 9 } }],
        vec![],
    );
    let mut t = Translator::new(program);
    assert_eq!(t.petrify(0), Err(TranslationError::UnknownBlock));
}

#[test]
fn function_pointer_call_is_unsupported_indirection() {
    let program = entry_with(
        vec![
            BasicBlock {
                stmt_count: 0,
                terminator: Terminator::Call {
                    func: Operand::Constant(Ty::FnPtr),
                    args: vec![],
                    destination: Some((Place::Local(0), 1)),
                },
            },
            BasicBlock { stmt_count: 0, terminator: Terminator::Return },
        ],
        vec![Ty::Other],
    );
    let mut t = Translator::new(program);
    assert_eq!(t.petrify(0), Err(TranslationError::UnsupportedIndirection));
}

#[test]
fn constant_argument_is_unsupported_const_arg() {
    let program = Program {
        procs: vec![
            Procedure {
                name: "crate::main".as_bytes().to_vec(),
                is_foreign: false,
                is_panic_entry: false,
                body: Some(Body {
                    arg_count: 0,
                    local_tys: vec![Ty::Other, Ty::Other],
                    blocks: vec![
                        BasicBlock {
                            stmt_count: 0,
                            terminator: Terminator::Call {
                                func: Operand::Constant(Ty::FnDef(1)),
                                args: vec![Operand::Constant(Ty::Other)],
                                destination: Some((Place::Local(0), 1)),
                            },
                        },
                        BasicBlock { stmt_count: 0, terminator: Terminator::Return },
                    ],
                }),
            },
            Procedure {
                name: "crate::callee".as_bytes().to_vec(),
                is_foreign: false,
                is_panic_entry: false,
                body: Some(Body {
                    arg_count: 1,
                    local_tys: vec![Ty::Other, Ty::Other],
                    blocks: vec![BasicBlock { stmt_count: 0, terminator: Terminator::Return }],
                }),
            },
        ],
    };
    let mut t = Translator::new(program);
    assert_eq!(t.petrify(0), Err(TranslationError::UnsupportedConstArg));
}

#[test]
fn static_place_is_unsupported_static() {
    let program = entry_with(
        vec![
            BasicBlock {
                stmt_count: 0,
                terminator: Terminator::Drop { place: Place::Static, target: 1 },
            },
            BasicBlock { stmt_count: 0, terminator: Terminator::Return },
        ],
        vec![Ty::Other],
    );
    let mut t = Translator::new(program);
    assert_eq!(t.petrify(0), Err(TranslationError::UnsupportedStatic));
}

#[test]
fn entry_out_of_range_is_malformed() {
    let program = entry_with(
        vec![BasicBlock { stmt_count: 0, terminator: Terminator::Return }],
        vec![],
    );
    let mut t = Translator::new(program);
    assert_eq!(t.petrify(7), Err(TranslationError::MalformedIr));
}

#[test]
fn forged_handle_is_invalid() {
    let mut net = NetBuilder::new();
    let t = net.add_transition(TransKind::Jump);
    assert_eq!(net.arc_pt(5, t), Err(TranslationError::InvalidHandle));
    assert_eq!(net.set_initial(3, 1), Err(TranslationError::InvalidHandle));
}

#[test]
fn second_arc_is_duplicate() {
    let mut net = NetBuilder::new();
    let p = net.add_entry_place();
    let t = net.add_transition(TransKind::Jump);
    assert_eq!(net.arc_pt(p, t), Ok(()));
    assert_eq!(net.arc_pt(p, t), Err(TranslationError::DuplicateArc));
    assert_eq!(net.arc_tp(t, p), Ok(()));
    assert_eq!(net.arc_tp(t, p), Err(TranslationError::DuplicateArc));
}
