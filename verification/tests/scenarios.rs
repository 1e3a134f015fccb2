use petrify::ir::{BasicBlock, Body, Operand, Place, Procedure, Program, Terminator, Ty};
use petrify::net::{PlaceKind, TransKind};
use petrify::translator::Translator;

fn named_proc(name: &str, body: Option<Body>) -> Procedure {
    Procedure {
        name: name.as_bytes().to_vec(),
        is_foreign: false,
        is_panic_entry: false,
        body,
    }
}

fn ret_block() -> BasicBlock {
    BasicBlock { stmt_count: 0, terminator: Terminator::Return }
}

#[test]
fn s1_empty_main() {
    let program = Program {
        procs: vec![named_proc(
            "crate::main",
            Some(Body { arg_count: 0, local_tys: vec![], blocks: vec![ret_block()] }),
        )],
    };
    let mut t = Translator::new(program);
    let xml = t.petrify(0).unwrap();
    assert!(!xml.is_empty());
    // one start place with initial marking 1, one return transition, one
    // sink place: 1 place -> 1 transition -> 1 place
    assert_eq!(t.net.kinds.len(), 2);
    assert_eq!(t.net.kinds[0], PlaceKind::Entry);
    assert_eq!(t.net.kinds[1], PlaceKind::Chain);
    assert_eq!(t.net.marking, vec![1, 0]);
    assert_eq!(t.net.tkinds, vec![TransKind::Jump]);
    assert_eq!(t.net.pt, vec![(0, 0)]);
    assert_eq!(t.net.tp, vec![(0, 1)]);
}

#[test]
fn s2_straight_line() {
    let program = Program {
        procs: vec![named_proc(
            "crate::main",
            Some(Body {
                arg_count: 0,
                local_tys: vec![],
                blocks: vec![BasicBlock { stmt_count: 3, terminator: Terminator::Return }],
            }),
        )],
    };
    let mut t = Translator::new(program);
    t.petrify(0).unwrap();
    // chain of 4 transitions and 5 places:
    // start -> t0 -> p2 -> t1 -> p3 -> t2 -> p4 -> t3 -> sink
    assert_eq!(t.net.kinds.len(), 5);
    assert_eq!(t.net.tkinds.len(), 4);
    assert_eq!(
        t.net.tkinds,
        vec![TransKind::Stmt, TransKind::Stmt, TransKind::Stmt, TransKind::Jump]
    );
    assert_eq!(t.net.pt, vec![(0, 0), (2, 1), (3, 2), (4, 3)]);
    assert_eq!(t.net.tp, vec![(0, 2), (1, 3), (2, 4), (3, 1)]);
    assert_eq!(t.net.marking, vec![1, 0, 0, 0, 0]);
}

#[test]
fn s3_branch() {
    let program = Program {
        procs: vec![named_proc(
            "crate::main",
            Some(Body {
                arg_count: 0,
                local_tys: vec![],
                blocks: vec![
                    BasicBlock {
                        stmt_count: 0,
                        terminator: Terminator::SwitchInt { targets: vec![1, 2] },
                    },
                    ret_block(),
                    ret_block(),
                ],
            }),
        )],
    };
    let mut t = Translator::new(program);
    t.petrify(0).unwrap();
    // start place 0, sink 1, entry of block 1 is 2, entry of block 2 is 3
    assert_eq!(t.net.kinds.len(), 4);
    assert_eq!(t.net.tkinds.len(), 4);
    // start place has two outgoing transitions, one per target
    let from_start: Vec<usize> =
        t.net.pt.iter().filter(|a| a.0 == 0).map(|a| a.1).collect();
    assert_eq!(from_start, vec![0, 1]);
    assert!(t.net.tp.contains(&(0, 2)));
    assert!(t.net.tp.contains(&(1, 3)));
    // each target block ends in a return transition; both share the sink
    assert!(t.net.pt.contains(&(2, 2)));
    assert!(t.net.pt.contains(&(3, 3)));
    assert!(t.net.tp.contains(&(2, 1)));
    assert!(t.net.tp.contains(&(3, 1)));
}

#[test]
fn s4_call() {
    let program = Program {
        procs: vec![
            named_proc(
                "crate::main",
                Some(Body {
                    arg_count: 0,
                    local_tys: vec![Ty::Other],
                    blocks: vec![
                        BasicBlock {
                            stmt_count: 0,
                            terminator: Terminator::Call {
                                func: Operand::Constant(Ty::FnDef(1)),
                                args: vec![],
                                destination: Some((Place::Local(0), 1)),
                            },
                        },
                        ret_block(),
                    ],
                }),
            ),
            named_proc(
                "crate::leaf",
                Some(Body { arg_count: 0, local_tys: vec![Ty::Other], blocks: vec![ret_block()] }),
            ),
        ],
    };
    let mut t = Translator::new(program);
    t.petrify(0).unwrap();
    // places: 0 start, 1 sink, (2,3) = caller local 0 pair, 4 = entry of
    // caller's continuation block, 5 = the callee's start place
    assert_eq!(t.net.kinds.len(), 6);
    assert_eq!(t.net.kinds[2], PlaceKind::Live { dead: 3 });
    assert_eq!(t.net.kinds[3], PlaceKind::Dead { live: 2 });
    assert_eq!(t.net.marking, vec![1, 0, 0, 1, 0, 0]);
    // caller's start place -> call-site transition -> callee's entry place
    assert_eq!(t.net.pt[0], (0, 0));
    assert_eq!(t.net.tp[0], (0, 5));
    // callee's return transition -> continuation block's entry place
    assert_eq!(t.net.pt[1], (5, 1));
    assert_eq!(t.net.tp[1], (1, 4));
    // continuation chain -> return into the sink
    assert_eq!(t.net.pt[2], (4, 2));
    assert_eq!(t.net.tp[2], (2, 1));
    assert_eq!(t.net.tkinds.len(), 3);
}

#[test]
fn s5_skipped_panic() {
    let program = Program {
        procs: vec![
            named_proc(
                "crate::main",
                Some(Body {
                    arg_count: 0,
                    local_tys: vec![],
                    blocks: vec![BasicBlock {
                        stmt_count: 0,
                        terminator: Terminator::Call {
                            func: Operand::Constant(Ty::FnDef(1)),
                            args: vec![],
                            destination: None,
                        },
                    }],
                }),
            ),
            Procedure {
                name: "core::panicking::panic".as_bytes().to_vec(),
                is_foreign: false,
                is_panic_entry: true,
                body: None,
            },
        ],
    };
    let mut t = Translator::new(program);
    t.petrify(0).unwrap();
    // one skip transition whose output place is a dead sink
    assert_eq!(t.net.tkinds.len(), 1);
    assert_eq!(t.net.pt, vec![(0, 0)]);
    assert_eq!(t.net.tp, vec![(0, 2)]);
    // the output place has no outgoing arcs
    assert!(t.net.pt.iter().all(|a| a.0 != 2));
}

#[test]
fn s6_direct_recursion() {
    let program = Program {
        procs: vec![named_proc(
            "crate::recurse",
            Some(Body {
                arg_count: 0,
                local_tys: vec![Ty::Other],
                blocks: vec![
                    BasicBlock {
                        stmt_count: 0,
                        terminator: Terminator::Call {
                            func: Operand::Constant(Ty::FnDef(0)),
                            args: vec![],
                            destination: Some((Place::Local(0), 1)),
                        },
                    },
                    ret_block(),
                ],
            }),
        )],
    };
    let mut t = Translator::new(program);
    t.petrify(0).unwrap();
    // a single summary transition at the inner call site, not a second
    // inlined copy: only the summary jump and the return exist
    assert_eq!(t.net.tkinds.len(), 2);
    // places: start, sink, local pair, continuation entry - nothing more
    assert_eq!(t.net.kinds.len(), 5);
    assert!(t.net.pt.contains(&(0, 0)));
    assert!(t.net.tp.contains(&(0, 4)));
    assert!(t.net.pt.contains(&(4, 1)));
    assert!(t.net.tp.contains(&(1, 1)));
}
