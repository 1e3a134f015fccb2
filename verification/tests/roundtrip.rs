use petrify::ir::{BasicBlock, Body, Operand, Place, Procedure, Program, Terminator, Ty};
use petrify::translator::Translator;

fn demo_program() -> Program {
    Program {
        procs: vec![
            Procedure {
                name: "crate::main".as_bytes().to_vec(),
                is_foreign: false,
                is_panic_entry: false,
                body: Some(Body {
                    arg_count: 0,
                    local_tys: vec![Ty::Other],
                    blocks: vec![
                        BasicBlock {
                            stmt_count: 2,
                            terminator: Terminator::Call {
                                func: Operand::Constant(Ty::FnDef(1)),
                                args: vec![],
                                destination: Some((Place::Local(0), 1)),
                            },
                        },
                        BasicBlock { stmt_count: 0, terminator: Terminator::Return },
                    ],
                }),
            },
            Procedure {
                name: "crate::leaf".as_bytes().to_vec(),
                is_foreign: false,
                is_panic_entry: false,
                body: Some(Body {
                    arg_count: 0,
                    local_tys: vec![Ty::Other],
                    blocks: vec![BasicBlock { stmt_count: 1, terminator: Terminator::Return }],
                }),
            },
        ],
    }
}

/// Serialize, parse with an independent PNML parser, and check that
/// places, transitions, arcs and the initial marking come back isomorphic
/// to the net that was serialized.
#[test]
fn round_trip_serialization() {
    let mut t = Translator::new(demo_program());
    let xml_bytes = t.petrify(0).unwrap();
    let xml = String::from_utf8(xml_bytes).unwrap();
    let doc = roxmltree::Document::parse(&xml).unwrap();

    let mut places = Vec::new();
    let mut transitions = Vec::new();
    let mut arcs = Vec::new();
    let mut markings = Vec::new();
    for node in doc.descendants() {
        match node.tag_name().name() {
            "place" => {
                let id = node.attribute("id").unwrap().to_string();
                let marking = node
                    .descendants()
                    .find(|c| c.tag_name().name() == "text")
                    .map(|c| c.text().unwrap().parse::<u64>().unwrap())
                    .unwrap_or(0);
                markings.push((id.clone(), marking));
                places.push(id);
            },
            "transition" => {
                transitions.push(node.attribute("id").unwrap().to_string());
            },
            "arc" => {
                arcs.push((
                    node.attribute("source").unwrap().to_string(),
                    node.attribute("target").unwrap().to_string(),
                ));
            },
            _ => {},
        }
    }

    assert_eq!(places.len(), t.net.kinds.len());
    assert_eq!(transitions.len(), t.net.tkinds.len());
    assert_eq!(arcs.len(), t.net.pt.len() + t.net.tp.len());

    // identify the parsed nodes with the net's indices through the id text
    // and check the arc relation is carried over exactly
    for (i, id) in places.iter().enumerate() {
        assert_eq!(*id, format!("p{}", i));
    }
    for (i, id) in transitions.iter().enumerate() {
        assert_eq!(*id, format!("t{}", i));
    }
    for (p, tr) in t.net.pt.iter() {
        assert!(arcs.contains(&(format!("p{}", p), format!("t{}", tr))));
    }
    for (tr, p) in t.net.tp.iter() {
        assert!(arcs.contains(&(format!("t{}", tr), format!("p{}", p))));
    }
    for (id, m) in markings.iter() {
        let idx: usize = id[1..].parse().unwrap();
        assert_eq!(*m, t.net.marking[idx]);
    }
}

/// The rendered document names the PNML grammar and carries the initial
/// token on the start place.
#[test]
fn document_shape() {
    let mut t = Translator::new(demo_program());
    let xml = String::from_utf8(t.petrify(0).unwrap()).unwrap();
    assert!(xml.starts_with("<?xml version=\"1.0\""));
    assert!(xml.contains("http://www.pnml.org/version-2009/grammar/ptnet"));
    assert!(xml.contains("<place id=\"p0\"><initialMarking><text>1</text></initialMarking>"));
}
