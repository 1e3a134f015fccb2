use petrify::ir::{BasicBlock, Body, Operand, Place, Procedure, Program, Terminator, Ty};
use petrify::net::{NetBuilder, PlaceKind, TransKind};
use petrify::skip::skip_function;
use petrify::translator::Translator;

fn plain(name: &str, body: Option<Body>) -> Procedure {
    Procedure {
        name: name.as_bytes().to_vec(),
        is_foreign: false,
        is_panic_entry: false,
        body,
    }
}

fn is_ctrl(k: &PlaceKind) -> bool {
    matches!(k, PlaceKind::Entry | PlaceKind::Chain)
}

/// A program exercising statements, a branch, a drop, a call and a return.
fn mixed_program() -> Program {
    Program {
        procs: vec![
            plain(
                "crate::main",
                Some(Body {
                    arg_count: 0,
                    local_tys: vec![Ty::Other, Ty::Other],
                    blocks: vec![
                        BasicBlock {
                            stmt_count: 2,
                            terminator: Terminator::SwitchInt { targets: vec![1, 2] },
                        },
                        BasicBlock {
                            stmt_count: 1,
                            terminator: Terminator::Call {
                                func: Operand::Constant(Ty::FnDef(1)),
                                args: vec![Operand::Move(Place::Local(1))],
                                destination: Some((Place::Local(0), 3)),
                            },
                        },
                        BasicBlock {
                            stmt_count: 0,
                            terminator: Terminator::Drop { place: Place::Local(1), target: 3 },
                        },
                        BasicBlock { stmt_count: 0, terminator: Terminator::Return },
                    ],
                }),
            ),
            plain(
                "crate::callee",
                Some(Body {
                    arg_count: 1,
                    local_tys: vec![Ty::Other, Ty::Other, Ty::Other],
                    blocks: vec![BasicBlock { stmt_count: 1, terminator: Terminator::Return }],
                }),
            ),
        ],
    }
}

fn check_discipline(net: &NetBuilder) {
    // each transition consumes at most one control place and produces at
    // most one, and never produces one without consuming one
    for t in 0..net.tkinds.len() {
        let cin: Vec<usize> = net
            .pt
            .iter()
            .filter(|a| a.1 == t && is_ctrl(&net.kinds[a.0]))
            .map(|a| a.0)
            .collect();
        let cout: Vec<usize> = net
            .tp
            .iter()
            .filter(|a| a.0 == t && is_ctrl(&net.kinds[a.1]))
            .map(|a| a.1)
            .collect();
        assert!(cin.len() <= 1, "transition {} has several control inputs", t);
        assert!(cout.len() <= 1, "transition {} has several control outputs", t);
        assert!(cout.is_empty() || !cin.is_empty());
        // a transition consumes a live place exactly when it produces the
        // partner dead place, and the other way round
        for p in 0..net.kinds.len() {
            if let PlaceKind::Live { dead } = net.kinds[p] {
                assert_eq!(net.pt.contains(&(p, t)), net.tp.contains(&(t, dead)));
                assert_eq!(net.pt.contains(&(dead, t)), net.tp.contains(&(t, p)));
            }
        }
    }
    // only jump transitions feed block entry places
    for a in net.tp.iter() {
        if net.kinds[a.1] == PlaceKind::Entry {
            assert_eq!(net.tkinds[a.0], TransKind::Jump);
        }
    }
    // the initial marking: live places empty, dead places exactly one
    // storage token, exactly one control token in all
    let mut ctrl_tokens = 0u64;
    for p in 0..net.kinds.len() {
        match net.kinds[p] {
            PlaceKind::Live { .. } => assert_eq!(net.marking[p], 0),
            PlaceKind::Dead { .. } => assert_eq!(net.marking[p], 1),
            _ => ctrl_tokens += net.marking[p],
        }
    }
    assert_eq!(ctrl_tokens, 1);
}

#[test]
fn mixed_net_obeys_discipline() {
    let mut t = Translator::new(mixed_program());
    t.petrify(0).unwrap();
    check_discipline(&t.net);
}

#[test]
fn recursion_net_obeys_discipline() {
    let program = Program {
        procs: vec![plain(
            "crate::recurse",
            Some(Body {
                arg_count: 0,
                local_tys: vec![Ty::Other],
                blocks: vec![
                    BasicBlock {
                        stmt_count: 1,
                        terminator: Terminator::Call {
                            func: Operand::Constant(Ty::FnDef(0)),
                            args: vec![],
                            destination: Some((Place::Local(0), 1)),
                        },
                    },
                    BasicBlock { stmt_count: 0, terminator: Terminator::Return },
                ],
            }),
        )],
    };
    let mut t = Translator::new(program);
    t.petrify(0).unwrap();
    check_discipline(&t.net);
}

/// A procedure whose body is only a call to a skip-listed procedure and a
/// return yields a three-transition chain, whatever the skipped callee's
/// body holds.
#[test]
fn skip_idempotence() {
    let skip_bodies = vec![
        None,
        Some(Body { arg_count: 0, local_tys: vec![], blocks: vec![] }),
        Some(Body {
            arg_count: 0,
            local_tys: vec![Ty::Other, Ty::Other, Ty::Other],
            blocks: vec![
                BasicBlock { stmt_count: 7, terminator: Terminator::Goto { target: 1 } },
                BasicBlock { stmt_count: 2, terminator: Terminator::Return },
            ],
        }),
    ];
    let mut shapes = Vec::new();
    for skip_body in skip_bodies {
        let program = Program {
            procs: vec![
                plain(
                    "crate::outer",
                    Some(Body {
                        arg_count: 0,
                        local_tys: vec![Ty::Other],
                        blocks: vec![
                            BasicBlock {
                                stmt_count: 0,
                                terminator: Terminator::Call {
                                    func: Operand::Constant(Ty::FnDef(1)),
                                    args: vec![],
                                    destination: Some((Place::Local(0), 1)),
                                },
                            },
                            BasicBlock { stmt_count: 0, terminator: Terminator::Return },
                        ],
                    }),
                ),
                Procedure {
                    name: "std::rt::begin_panic_fmt inner".as_bytes().to_vec(),
                    is_foreign: false,
                    is_panic_entry: false,
                    body: skip_body,
                },
            ],
        };
        let mut t = Translator::new(program);
        t.petrify(0).unwrap();
        shapes.push((t.net.kinds, t.net.tkinds, t.net.pt, t.net.tp, t.net.marking));
    }
    assert_eq!(shapes[0], shapes[1]);
    assert_eq!(shapes[0], shapes[2]);
    // the subnet is a plain chain: the skip transition and the return
    assert_eq!(shapes[0].1.len(), 2);
}

#[test]
fn skip_policy_matches_panic_machinery() {
    let p1 = Procedure {
        name: "anything".as_bytes().to_vec(),
        is_foreign: false,
        is_panic_entry: true,
        body: None,
    };
    assert!(skip_function(&p1));
    let p2 = plain("std::rt::begin_panic_fmt::<T>", None);
    assert!(skip_function(&p2));
    let p3 = plain("x::y::std::panicking::panicking::z", None);
    assert!(skip_function(&p3));
    let p4 = plain("crate::ordinary_function", None);
    assert!(!skip_function(&p4));
    let p5 = plain("std::rt::begin_panic", None);
    assert!(!skip_function(&p5));
}
