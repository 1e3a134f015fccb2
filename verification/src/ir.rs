use vstd::prelude::*;

verus! {

/// A place in the IR: the storage a statement or operand refers to.
/// Only direct locals are supported; static globals are rejected.
#[derive(Clone, Copy, Debug, PartialEq, Eq, Structural)]
pub enum Place {
    Local(usize),
    Static,
}

/// The slice of type information the translator needs: whether a value is a
/// function definition (with its procedure index), a function pointer, or
/// anything else.
#[derive(Clone, Copy, Debug, PartialEq, Eq, Structural)]
pub enum Ty {
    FnDef(usize),
    FnPtr,
    Other,
}

/// An operand of a call: a copy or move out of a place, or a constant of the
/// given type.
#[derive(Clone, Copy, Debug, PartialEq, Eq, Structural)]
pub enum Operand {
    Copy(Place),
    Move(Place),
    Constant(Ty),
}

/// The terminator of a basic block. Block and local indices refer into the
/// enclosing body; procedure identity is resolved through operand types.
#[derive(Debug)]
pub enum Terminator {
    Goto { target: usize },
    SwitchInt { targets: Vec<usize> },
    Return,
    Call { func: Operand, args: Vec<Operand>, destination: Option<(Place, usize)> },
    Drop { place: Place, target: usize },
    DropAndReplace { place: Place, target: usize },
    Assert { target: usize },
    Yield { resume: usize },
    GeneratorDrop,
    Resume,
    Abort,
    Unreachable,
    FalseEdges,
    FalseUnwind,
}

/// A basic block: a straight-line run of statements and one terminator.
/// Statement data effects are not modeled; only their number matters, one
/// net transition per statement preserving step granularity.
#[derive(Debug)]
pub struct BasicBlock {
    pub stmt_count: usize,
    pub terminator: Terminator,
}

/// A procedure body: the typed local table and the basic blocks, block 0
/// being the entry. Local 0 is the return slot; locals 1..=arg_count are the
/// parameters.
#[derive(Debug)]
pub struct Body {
    pub arg_count: usize,
    pub local_tys: Vec<Ty>,
    pub blocks: Vec<BasicBlock>,
}

/// A procedure of the program under translation. `body` is `None` when no IR
/// is available (a foreign item). The descriptive module path feeds the skip
/// policy's substring checks.
#[derive(Debug)]
pub struct Procedure {
    pub name: Vec<u8>,
    pub is_foreign: bool,
    pub is_panic_entry: bool,
    pub body: Option<Body>,
}

/// The call graph input: all procedures, indexed by procedure id.
#[derive(Debug)]
pub struct Program {
    pub procs: Vec<Procedure>,
}

impl Body {
    pub open spec fn n_locals(self) -> nat {
        self.local_tys@.len()
    }

    pub open spec fn n_blocks(self) -> nat {
        self.blocks@.len()
    }
}

/// A place is a well-formed local reference within a body.
pub open spec fn place_ok(p: Place, n_locals: nat) -> bool {
    match p {
        Place::Local(l) => l < n_locals,
        Place::Static => false,
    }
}

/// A call operand binds a well-formed local (constants cannot be bound).
pub open spec fn operand_ok(o: Operand, n_locals: nat) -> bool {
    match o {
        Operand::Copy(p) => place_ok(p, n_locals),
        Operand::Move(p) => place_ok(p, n_locals),
        Operand::Constant(_) => false,
    }
}

/// The procedure a call's function operand statically resolves to, if any.
pub open spec fn callee_of(func: Operand, local_tys: Seq<Ty>) -> Option<usize> {
    let ty = match func {
        Operand::Copy(p) | Operand::Move(p) => match p {
            Place::Local(l) => if l < local_tys.len() { local_tys[l as int] } else { Ty::Other },
            Place::Static => Ty::Other,
        },
        Operand::Constant(t) => t,
    };
    match ty {
        Ty::FnDef(f) => Some(f),
        _ => None,
    }
}

/// A call terminator is statically translatable: its callee resolves to a
/// known procedure, its arguments are local operands matching the callee's
/// parameter count when a body is present, and its continuation is in range.
pub open spec fn call_ok(
    func: Operand,
    args: Seq<Operand>,
    destination: Option<(Place, usize)>,
    body: Body,
    procs: Seq<Procedure>,
) -> bool {
    &&& match func {
        Operand::Copy(p) | Operand::Move(p) => place_ok(p, body.n_locals()),
        Operand::Constant(_) => true,
    }
    &&& match callee_of(func, body.local_tys@) {
        Some(f) => {
            &&& f < procs.len()
            &&& forall|i: int| 0 <= i < args.len() ==> operand_ok(#[trigger] args[i], body.n_locals())
            &&& match procs[f as int].body {
                Some(callee_body) => args.len() == callee_body.arg_count && (destination.is_some()
                    ==> callee_body.local_tys@.len() >= 1),
                None => true,
            }
        },
        None => false,
    }
    &&& match destination {
        Some((p, bb)) => place_ok(p, body.n_locals()) && bb < body.n_blocks(),
        None => true,
    }
}

/// A terminator is statically translatable within its body.
pub open spec fn terminator_ok(t: Terminator, body: Body, procs: Seq<Procedure>) -> bool {
    match t {
        Terminator::Goto { target } => target < body.n_blocks(),
        Terminator::SwitchInt { targets } => forall|i: int|
            0 <= i < targets@.len() ==> #[trigger] targets@[i] < body.n_blocks(),
        Terminator::Return => true,
        Terminator::Call { func, args, destination } => call_ok(
            func,
            args@,
            destination,
            body,
            procs,
        ),
        Terminator::Drop { place, target } => place_ok(place, body.n_locals()) && target
            < body.n_blocks(),
        Terminator::DropAndReplace { place, target } => place_ok(place, body.n_locals()) && target
            < body.n_blocks(),
        Terminator::Assert { target } => target < body.n_blocks(),
        Terminator::Yield { resume } => resume < body.n_blocks(),
        Terminator::GeneratorDrop => true,
        Terminator::Resume => true,
        Terminator::Abort => true,
        Terminator::Unreachable => true,
        Terminator::FalseEdges => false,
        Terminator::FalseUnwind => false,
    }
}

/// A body is statically translatable: the local table covers the return slot
/// and the parameters, there is at least one block, and every terminator is
/// translatable.
pub open spec fn body_ok(body: Body, procs: Seq<Procedure>) -> bool {
    &&& (body.arg_count > 0 ==> body.arg_count < body.n_locals())
    &&& body.n_blocks() > 0
    &&& forall|b: int| 0 <= b < body.n_blocks() ==> terminator_ok(
        #[trigger] body.blocks@[b].terminator,
        body,
        procs,
    )
}

/// Every body the program offers is statically translatable. Under this
/// condition translation is owed to succeed.
pub open spec fn program_ok(program: Program) -> bool {
    forall|p: int| 0 <= p < program.procs@.len() ==> match #[trigger] program.procs@[p].body {
        Some(body) => body_ok(body, program.procs@),
        None => true,
    }
}

} // verus!
