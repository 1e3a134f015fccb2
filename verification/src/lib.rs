//! Translation of a control-flow-graph intermediate representation (CFG-IR)
//! into a flat place/transition Petri net, serialized as a PNML document.
//!
//! The net models local-variable lifetimes as live/dead place pairs, control
//! flow as block entry places and transition chains, and inter-procedural
//! calls by bounded context-sensitive inlining.

pub mod errors;
pub mod ir;
pub mod net;
pub mod semantics;
pub mod skip;
pub mod subnet;
pub mod translator;
pub mod emit;
