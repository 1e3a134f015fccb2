use vstd::prelude::*;
use vstd::set_lib::lemma_int_range;
use vstd::set_lib::lemma_len_subset;
use vstd::set_lib::set_int_range;
use crate::errors::TranslationError;
use crate::ir::Body;
use crate::ir::Operand;
use crate::ir::Place;
use crate::ir::Program;
use crate::ir::Terminator;
use crate::ir::Ty;
use crate::ir::body_ok;
use crate::ir::call_ok;
use crate::ir::callee_of;
use crate::ir::program_ok;
use crate::ir::terminator_ok;
use crate::net::NetBuilder;
use crate::net::builds_on;
use crate::net::lemma_builds_on_trans;
use crate::skip::skip_function;
use crate::subnet::FunctionSubnet;
use crate::subnet::lemma_frame_wf_extended;

verus! {

/// The stack of active call frames; the top is the innermost call.
pub struct CallStack<T> {
    pub stack: Vec<T>,
}

impl<T> View for CallStack<T> {
    type V = Seq<T>;

    open spec fn view(&self) -> Seq<T> {
        self.stack@
    }
}

impl<T> CallStack<T> {
    pub fn new() -> (s: Self)
        ensures
            s@.len() == 0,
    {
        CallStack { stack: Vec::new() }
    }

    pub fn push(&mut self, item: T)
        ensures
            final(self)@ == old(self)@.push(item),
    {
        self.stack.push(item)
    }

    pub fn pop(&mut self) -> (r: Option<T>)
        ensures
            old(self)@.len() == 0 ==> r is None && final(self)@ == old(self)@,
            old(self)@.len() > 0 ==> r == Some(old(self)@.last()) && final(self)@ == old(
                self,
            )@.drop_last(),
    {
        self.stack.pop()
    }

    pub fn peek(&self) -> (r: Option<&T>)
        ensures
            match r {
                Some(x) => self@.len() > 0 && *x == self@.last(),
                None => self@.len() == 0,
            },
    {
        if self.stack.is_empty() {
            None
        } else {
            Some(&self.stack[self.stack.len() - 1])
        }
    }

    pub fn is_empty(&self) -> (r: bool)
        ensures
            r == (self@.len() == 0),
    {
        self.stack.is_empty()
    }
}

impl CallStack<usize> {
    /// Whether a procedure id is on the stack: the recursion check.
    pub fn contains(&self, id: usize) -> (r: bool)
        ensures
            r == self@.contains(id),
    {
        let mut i: usize = 0;
        while i < self.stack.len()
            invariant
                i <= self@.len(),
                forall|j: int| 0 <= j < i ==> self@[j] != id,
            decreases self@.len() - i,
        {
            if self.stack[i] == id {
                assert(self@[i as int] == id);
                return true;
            }
            i += 1;
        }
        false
    }
}

/// The stack holds pairwise distinct procedure ids below `n_procs`.
pub open spec fn stack_ok(stack: Seq<usize>, n_procs: nat) -> bool {
    &&& stack.no_duplicates()
    &&& forall|i: int| 0 <= i < stack.len() ==> stack[i] < n_procs
}

/// Distinct ids below `n` cannot number more than `n`.
pub proof fn lemma_stack_len(s: Seq<usize>, n: nat)
    requires
        stack_ok(s, n),
    ensures
        s.len() <= n,
{
    broadcast use vstd::set::group_set_axioms;

    let si = Seq::new(s.len(), |i: int| s[i] as int);
    assert(si.no_duplicates());
    si.unique_seq_to_set();
    assert forall|x: int| si.to_set().contains(x) implies set_int_range(
        0,
        n as int,
    ).contains(x) by {
        let i = choose|i: int| 0 <= i < si.len() && si[i] == x;
        assert(s[i] < n);
    }
    assert(si.to_set().subset_of(set_int_range(0, n as int)));
    lemma_int_range(0, n as int);
    lemma_len_subset(si.to_set(), set_int_range(0, n as int));
}

/// Some jump transition leads from place `a` to place `b`.
pub open spec fn jump_arc(net: NetBuilder, a: usize, b: usize) -> bool {
    exists|t: usize|
        #[trigger] net.has_pt(a, t) && t < net.n_trans() && net.tkinds@[t as int]
            == crate::net::TransKind::Jump && net.has_tp(t, b)
}

/// A chain of `k` statement-bead transitions leads from place `p` to place
/// `q`.
pub open spec fn bead_chain(net: NetBuilder, p: usize, k: nat, q: usize) -> bool
    decreases k,
{
    if k == 0 {
        q == p
    } else {
        exists|t: usize, p2: usize|
            #![trigger net.has_pt(p, t), net.has_tp(t, p2)]
            net.has_pt(p, t) && t < net.n_trans() && net.tkinds@[t as int]
                == crate::net::TransKind::Stmt && net.has_tp(t, p2) && bead_chain(
                net,
                p2,
                (k - 1) as nat,
                q,
            )
    }
}

/// Some jump transition consumes `q` and, when a return place is bound,
/// deposits the control token there: the return wiring.
pub open spec fn return_wired(net: NetBuilder, rp: Option<usize>, q: usize) -> bool {
    exists|t: usize|
        #[trigger] net.has_pt(q, t) && t < net.n_trans() && net.tkinds@[t as int]
            == crate::net::TransKind::Jump && (match rp {
            Some(r) => net.has_tp(t, r),
            None => true,
        })
}

/// The net structure one terminator leaves behind, starting from the place
/// `q` at the end of its block's bead chain: a goto jumps into the target's
/// entry place, a switch jumps into every target's entry place, a return
/// wires into the return place, a call leaves a jump out of the call site
/// (the summary or call-site transition), a drop jumps on to the target, an
/// assertion or yield adds one bead and jumps on, a resumption or abort
/// consumes the token, and an unreachable block adds nothing.
pub open spec fn terminator_wired(
    net: NetBuilder,
    entries: Seq<usize>,
    rp: Option<usize>,
    term: Terminator,
    q: usize,
) -> bool {
    match term {
        Terminator::Goto { target } => target < entries.len() && jump_arc(
            net,
            q,
            entries[target as int],
        ),
        Terminator::SwitchInt { targets } => forall|i: int|
            0 <= i < targets@.len() ==> #[trigger] targets@[i] < entries.len() && jump_arc(
                net,
                q,
                entries[targets@[i] as int],
            ),
        Terminator::Return => return_wired(net, rp, q),
        Terminator::GeneratorDrop => return_wired(net, rp, q),
        Terminator::Call { func, args, destination } => exists|t: usize, p2: usize|
            #![trigger net.has_pt(q, t), net.has_tp(t, p2)]
            net.has_pt(q, t) && t < net.n_trans() && net.tkinds@[t as int]
                == crate::net::TransKind::Jump && net.has_tp(t, p2),
        Terminator::Drop { place, target } => target < entries.len() && jump_arc(
            net,
            q,
            entries[target as int],
        ),
        Terminator::DropAndReplace { place, target } => target < entries.len() && jump_arc(
            net,
            q,
            entries[target as int],
        ),
        Terminator::Assert { target } => target < entries.len() && exists|p2: usize|
            #[trigger] bead_chain(net, q, 1, p2) && jump_arc(net, p2, entries[target as int]),
        Terminator::Yield { resume } => resume < entries.len() && exists|p2: usize|
            #[trigger] bead_chain(net, q, 1, p2) && jump_arc(net, p2, entries[resume as int]),
        Terminator::Resume => exists|t: usize|
            #[trigger] net.has_pt(q, t) && t < net.n_trans() && net.tkinds@[t as int]
                == crate::net::TransKind::Jump,
        Terminator::Abort => exists|t: usize|
            #[trigger] net.has_pt(q, t) && t < net.n_trans() && net.tkinds@[t as int]
                == crate::net::TransKind::Jump,
        Terminator::Unreachable => true,
        Terminator::FalseEdges => false,
        Terminator::FalseUnwind => false,
    }
}

/// Block `b`'s whole structure stands in the net: `stmt_count` bead
/// transitions chained from its entry place, then the terminator's wiring
/// from the chain's end.
pub open spec fn block_wired(
    net: NetBuilder,
    entries: Seq<usize>,
    rp: Option<usize>,
    body: Body,
    b: int,
) -> bool {
    exists|q: usize|
        #[trigger] bead_chain(net, entries[b], body.blocks@[b].stmt_count as nat, q)
            && terminator_wired(net, entries, rp, body.blocks@[b].terminator, q)
}

/// The whole subnet of one procedure body stands in the net: one entry
/// place per block, block 0 entered at the start place, and every block's
/// bead chain and terminator wiring emitted.
pub open spec fn subnet_emitted(
    net: NetBuilder,
    body: Body,
    start: usize,
    rp: Option<usize>,
    entries: Seq<usize>,
) -> bool {
    &&& entries.len() == body.n_blocks()
    &&& entries.len() > 0
    &&& entries[0] == start
    &&& forall|b: int| 0 <= b < body.n_blocks() ==> #[trigger] block_wired(
        net,
        entries,
        rp,
        body,
        b,
    )
}

/// A jump arc survives any extension of the net.
pub proof fn lemma_jump_arc_monotone(pre: NetBuilder, post: NetBuilder, a: usize, b: usize)
    requires
        pre.extended_by(post),
        jump_arc(pre, a, b),
    ensures
        jump_arc(post, a, b),
{
    crate::net::lemma_arcs_monotone(pre, post);
    let t = choose|t: usize|
        #[trigger] pre.has_pt(a, t) && t < pre.n_trans() && pre.tkinds@[t as int]
            == crate::net::TransKind::Jump && pre.has_tp(t, b);
    assert(pre.tkinds@[t as int] == post.tkinds@.subrange(0, pre.tkinds@.len() as int)[t as int]);
    assert(post.has_pt(a, t) && post.has_tp(t, b));
}

/// A bead chain survives any extension of the net.
pub proof fn lemma_bead_chain_monotone(
    pre: NetBuilder,
    post: NetBuilder,
    p: usize,
    k: nat,
    q: usize,
)
    requires
        pre.extended_by(post),
        bead_chain(pre, p, k, q),
    ensures
        bead_chain(post, p, k, q),
    decreases k,
{
    if k > 0 {
        crate::net::lemma_arcs_monotone(pre, post);
        let (t, p2) = choose|t: usize, p2: usize|
            #![trigger pre.has_pt(p, t), pre.has_tp(t, p2)]
            pre.has_pt(p, t) && t < pre.n_trans() && pre.tkinds@[t as int]
                == crate::net::TransKind::Stmt && pre.has_tp(t, p2) && bead_chain(
                pre,
                p2,
                (k - 1) as nat,
                q,
            );
        lemma_bead_chain_monotone(pre, post, p2, (k - 1) as nat, q);
        assert(pre.tkinds@[t as int] == post.tkinds@.subrange(
            0,
            pre.tkinds@.len() as int,
        )[t as int]);
        assert(post.has_pt(p, t) && post.has_tp(t, p2));
    }
}

/// A bead chain grows by one bead at its end.
pub proof fn lemma_bead_chain_extend(
    net: NetBuilder,
    p: usize,
    k: nat,
    mid: usize,
    t: usize,
    q: usize,
)
    requires
        bead_chain(net, p, k, mid),
        net.has_pt(mid, t),
        t < net.n_trans(),
        net.tkinds@[t as int] == crate::net::TransKind::Stmt,
        net.has_tp(t, q),
    ensures
        bead_chain(net, p, (k + 1) as nat, q),
    decreases k,
{
    if k == 0 {
        assert(mid == p);
        assert(net.has_pt(p, t) && net.has_tp(t, q) && bead_chain(net, q, 0, q));
    } else {
        let (t0, p2) = choose|t0: usize, p2: usize|
            #![trigger net.has_pt(p, t0), net.has_tp(t0, p2)]
            net.has_pt(p, t0) && t0 < net.n_trans() && net.tkinds@[t0 as int]
                == crate::net::TransKind::Stmt && net.has_tp(t0, p2) && bead_chain(
                net,
                p2,
                (k - 1) as nat,
                mid,
            );
        lemma_bead_chain_extend(net, p2, (k - 1) as nat, mid, t, q);
        assert(net.has_pt(p, t0) && net.has_tp(t0, p2) && bead_chain(net, p2, k, q));
    }
}

/// A terminator's wiring survives any extension of the net.
pub proof fn lemma_terminator_wired_monotone(
    pre: NetBuilder,
    post: NetBuilder,
    entries: Seq<usize>,
    rp: Option<usize>,
    term: Terminator,
    q: usize,
)
    requires
        pre.extended_by(post),
        terminator_wired(pre, entries, rp, term, q),
    ensures
        terminator_wired(post, entries, rp, term, q),
{
    crate::net::lemma_arcs_monotone(pre, post);
    assert forall|t: usize| t < pre.n_trans() implies post.tkinds@[t as int]
        == pre.tkinds@[t as int] by {
        assert(pre.tkinds@[t as int] == post.tkinds@.subrange(
            0,
            pre.tkinds@.len() as int,
        )[t as int]);
    }
    match term {
        Terminator::Goto { target } => {
            lemma_jump_arc_monotone(pre, post, q, entries[target as int]);
        },
        Terminator::SwitchInt { targets } => {
            assert forall|i: int| 0 <= i < targets@.len() implies #[trigger] targets@[i]
                < entries.len() && jump_arc(post, q, entries[targets@[i] as int]) by {
                lemma_jump_arc_monotone(pre, post, q, entries[targets@[i] as int]);
            }
        },
        Terminator::Return => {
            let t = choose|t: usize|
                #[trigger] pre.has_pt(q, t) && t < pre.n_trans() && pre.tkinds@[t as int]
                    == crate::net::TransKind::Jump && (match rp {
                    Some(r) => pre.has_tp(t, r),
                    None => true,
                });
            assert(post.has_pt(q, t));
            if let Some(r) = rp {
                assert(post.has_tp(t, r));
            }
        },
        Terminator::GeneratorDrop => {
            let t = choose|t: usize|
                #[trigger] pre.has_pt(q, t) && t < pre.n_trans() && pre.tkinds@[t as int]
                    == crate::net::TransKind::Jump && (match rp {
                    Some(r) => pre.has_tp(t, r),
                    None => true,
                });
            assert(post.has_pt(q, t));
            if let Some(r) = rp {
                assert(post.has_tp(t, r));
            }
        },
        Terminator::Call { func, args, destination } => {
            let (t, p2) = choose|t: usize, p2: usize|
                #![trigger pre.has_pt(q, t), pre.has_tp(t, p2)]
                pre.has_pt(q, t) && t < pre.n_trans() && pre.tkinds@[t as int]
                    == crate::net::TransKind::Jump && pre.has_tp(t, p2);
            assert(post.has_pt(q, t) && post.has_tp(t, p2));
        },
        Terminator::Drop { place, target } => {
            lemma_jump_arc_monotone(pre, post, q, entries[target as int]);
        },
        Terminator::DropAndReplace { place, target } => {
            lemma_jump_arc_monotone(pre, post, q, entries[target as int]);
        },
        Terminator::Assert { target } => {
            let p2 = choose|p2: usize|
                #[trigger] bead_chain(pre, q, 1, p2) && jump_arc(pre, p2, entries[target as int]);
            lemma_bead_chain_monotone(pre, post, q, 1, p2);
            lemma_jump_arc_monotone(pre, post, p2, entries[target as int]);
            assert(bead_chain(post, q, 1, p2) && jump_arc(post, p2, entries[target as int]));
        },
        Terminator::Yield { resume } => {
            let p2 = choose|p2: usize|
                #[trigger] bead_chain(pre, q, 1, p2) && jump_arc(pre, p2, entries[resume as int]);
            lemma_bead_chain_monotone(pre, post, q, 1, p2);
            lemma_jump_arc_monotone(pre, post, p2, entries[resume as int]);
            assert(bead_chain(post, q, 1, p2) && jump_arc(post, p2, entries[resume as int]));
        },
        Terminator::Resume => {
            let t = choose|t: usize|
                #[trigger] pre.has_pt(q, t) && t < pre.n_trans() && pre.tkinds@[t as int]
                    == crate::net::TransKind::Jump;
            assert(post.has_pt(q, t));
        },
        Terminator::Abort => {
            let t = choose|t: usize|
                #[trigger] pre.has_pt(q, t) && t < pre.n_trans() && pre.tkinds@[t as int]
                    == crate::net::TransKind::Jump;
            assert(post.has_pt(q, t));
        },
        Terminator::Unreachable => {},
        Terminator::FalseEdges => {},
        Terminator::FalseUnwind => {},
    }
}

/// A block's whole emitted structure survives any extension of the net.
pub proof fn lemma_block_wired_monotone(
    pre: NetBuilder,
    post: NetBuilder,
    entries: Seq<usize>,
    rp: Option<usize>,
    body: Body,
    b: int,
)
    requires
        pre.extended_by(post),
        block_wired(pre, entries, rp, body, b),
    ensures
        block_wired(post, entries, rp, body, b),
{
    let q = choose|q: usize|
        #[trigger] bead_chain(pre, entries[b], body.blocks@[b].stmt_count as nat, q)
            && terminator_wired(pre, entries, rp, body.blocks@[b].terminator, q);
    lemma_bead_chain_monotone(pre, post, entries[b], body.blocks@[b].stmt_count as nat, q);
    lemma_terminator_wired_monotone(pre, post, entries, rp, body.blocks@[b].terminator, q);
    assert(bead_chain(post, entries[b], body.blocks@[b].stmt_count as nat, q)
        && terminator_wired(post, entries, rp, body.blocks@[b].terminator, q));
}

/// Resolves a place to its local, as the net model requires.
pub fn place_to_local(place: &Place) -> (r: Result<usize, TranslationError>)
    ensures
        match *place {
            Place::Local(l) => r == Ok::<usize, TranslationError>(l),
            Place::Static => r == Err::<usize, TranslationError>(
                TranslationError::UnsupportedStatic,
            ),
        },
{
    match place {
        Place::Local(l) => Ok(*l),
        Place::Static => Err(TranslationError::UnsupportedStatic),
    }
}

/// Resolves a call argument operand to the caller local it copies or moves.
pub fn op_to_local(operand: &Operand) -> (r: Result<usize, TranslationError>)
    ensures
        match *operand {
            Operand::Copy(p) | Operand::Move(p) => match p {
                Place::Local(l) => r == Ok::<usize, TranslationError>(l),
                Place::Static => r == Err::<usize, TranslationError>(
                    TranslationError::UnsupportedStatic,
                ),
            },
            Operand::Constant(_) => r == Err::<usize, TranslationError>(
                TranslationError::UnsupportedConstArg,
            ),
        },
{
    match operand {
        Operand::Copy(p) | Operand::Move(p) => place_to_local(p),
        Operand::Constant(_) => Err(TranslationError::UnsupportedConstArg),
    }
}

/// Resolves the callee of a call terminator from its function operand's
/// static type: a function-pointer type is unsupported indirection, a
/// static place or non-function type is malformed.
fn resolve_callee(body: &Body, func: &Operand) -> (r: Result<usize, TranslationError>)
    ensures
        r == (match *func {
            Operand::Copy(p) | Operand::Move(p) => match p {
                Place::Static => Err::<usize, TranslationError>(
                    TranslationError::UnsupportedStatic,
                ),
                Place::Local(l) => if l >= body.local_tys@.len() {
                    Err::<usize, TranslationError>(TranslationError::MalformedIr)
                } else {
                    match body.local_tys@[l as int] {
                        Ty::FnDef(f) => Ok::<usize, TranslationError>(f),
                        Ty::FnPtr => Err::<usize, TranslationError>(
                            TranslationError::UnsupportedIndirection,
                        ),
                        Ty::Other => Err::<usize, TranslationError>(TranslationError::MalformedIr),
                    }
                },
            },
            Operand::Constant(t) => match t {
                Ty::FnDef(f) => Ok::<usize, TranslationError>(f),
                Ty::FnPtr => Err::<usize, TranslationError>(
                    TranslationError::UnsupportedIndirection,
                ),
                Ty::Other => Err::<usize, TranslationError>(TranslationError::MalformedIr),
            },
        }),
        match callee_of(*func, body.local_tys@) {
            Some(f) => r == Ok::<usize, TranslationError>(f),
            None => r.is_err(),
        },
{
    let ty = match func {
        Operand::Copy(p) | Operand::Move(p) => {
            match p {
                Place::Local(l) => {
                    if *l >= body.local_tys.len() {
                        return Err(TranslationError::MalformedIr);
                    }
                    body.local_tys[*l]
                },
                Place::Static => {
                    return Err(TranslationError::UnsupportedStatic);
                },
            }
        },
        Operand::Constant(t) => *t,
    };
    match ty {
        Ty::FnDef(f) => Ok(f),
        Ty::FnPtr => Err(TranslationError::UnsupportedIndirection),
        Ty::Other => Err(TranslationError::MalformedIr),
    }
}

/// The return place a call site binds for its callee: the caller's
/// continuation-block entry place, or none for a diverging call.
pub open spec fn call_rp(entries: Seq<usize>, destination: Option<(Place, usize)>) -> Option<
    usize,
> {
    match destination {
        Some((pl, bb)) => Some(entries[bb as int]),
        None => None,
    }
}

/// A callee is summarized as a single opaque transition rather than
/// inlined: it is skip-listed, foreign, has no body, or already sits on
/// the call stack (recursion).
pub open spec fn summarized(program: Program, stack: Seq<usize>, f: usize) -> bool {
    ||| crate::skip::skip_spec(program.procs@[f as int])
    ||| program.procs@[f as int].is_foreign
    ||| program.procs@[f as int].body is None
    ||| stack.contains(f)
}

/// The caller-side fit of one call: the callee body exists, takes as many
/// arguments as were bound, and has a return slot when a destination is
/// bound. Under `program_ok` and this fit, translation is owed to succeed.
pub open spec fn call_fits(program: Program, proc: usize, n_args: nat, dest_some: bool) -> bool {
    match program.procs@[proc as int].body {
        Some(b) => {
            &&& n_args == b.arg_count
            &&& (dest_some ==> b.local_tys@.len() >= 1)
        },
        None => false,
    }
}

/// The translation driver: owns the program under translation, the net
/// being grown, and the stack of active procedure ids used for recursion
/// detection.
pub struct Translator {
    pub program: Program,
    pub call_stack: CallStack<usize>,
    pub net: NetBuilder,
}

impl Translator {
    pub fn new(program: Program) -> (t: Translator)
        ensures
            t.program == program,
            t.call_stack@.len() == 0,
            t.net.kinds@.len() == 0,
            t.net.marking@.len() == 0,
            t.net.tkinds@.len() == 0,
            t.net.pt@.len() == 0,
            t.net.tp@.len() == 0,
    {
        Translator { program, call_stack: CallStack::new(), net: NetBuilder::new() }
    }

    /// Translates one procedure body into the net as a fresh function
    /// subnet at `start_place`, walking its blocks in order and recursing
    /// into non-skipped callees by context-sensitive inlining. A callee
    /// already on the stack is summarized by a single opaque transition
    /// instead of being inlined again. On success the whole subnet stands
    /// in the net: one entry place per block, each block's bead chain, and
    /// each terminator's wiring (`subnet_emitted`).
    #[verifier::rlimit(100)]
    #[verifier::spinoff_prover]
    fn translate(
        program: &Program,
        net: &mut NetBuilder,
        stack: &mut CallStack<usize>,
        proc: usize,
        start_place: usize,
        args: Vec<(usize, usize)>,
        dest: Option<(usize, usize)>,
        return_place: Option<usize>,
        fuel: Ghost<int>,
    ) -> (r: Result<(), TranslationError>)
        requires
            old(net).wf(),
            stack_ok(old(stack)@, program.procs@.len()),
            !old(stack)@.contains(proc),
            proc < program.procs@.len(),
            program.procs@[proc as int].body is Some,
            old(net).is_ctrl_place(start_place),
            match return_place {
                Some(rp) => old(net).is_ctrl_place(rp),
                None => true,
            },
            forall|i: int| 0 <= i < args@.len() ==> old(net).is_pair(
                (#[trigger] args@[i]).0,
                args@[i].1,
            ),
            match dest {
                Some(p) => old(net).is_pair(p.0, p.1),
                None => true,
            },
            fuel@ == program.procs@.len() - old(stack)@.len(),
        ensures
            final(stack)@ == old(stack)@,
            builds_on(*old(net), *final(net)),
            (program_ok(*program) && call_fits(*program, proc, args@.len(), dest.is_some()))
                ==> r.is_ok(),
            r.is_ok() ==> exists|entries: Seq<usize>| subnet_emitted(
                *final(net),
                program.procs@[proc as int].body->Some_0,
                start_place,
                return_place,
                entries,
            ),
        decreases fuel@, 2int,
    {
        let ghost net0 = *old(net);
        proof {
            crate::net::lemma_builds_on_refl(net0);
        }
        let body = match &program.procs[proc].body {
            Some(b) => b,
            None => {
                proof {
                    assert(false);
                }
                return Err(TranslationError::MalformedIr);
            },
        };
        let frame_res = FunctionSubnet::new(
            proc,
            body,
            net,
            &args,
            dest,
            start_place,
            return_place,
        );
        let mut frame = match frame_res {
            Ok(f) => f,
            Err(e) => {
                proof {
                    if program_ok(*program) && call_fits(
                        *program,
                        proc,
                        args@.len(),
                        dest.is_some(),
                    ) {
                        assert(body_ok(program.procs@[proc as int].body->Some_0, program.procs@));
                        assert(false);
                    }
                }
                return Err(e);
            },
        };
        stack.push(proc);
        proof {
            assert(stack@.no_duplicates()) by {
                assert(forall|i: int| 0 <= i < old(stack)@.len() ==> stack@[i] == old(
                    stack,
                )@[i]);
            }
            assert(stack_ok(stack@, program.procs@.len()));
        }
        let n_blocks = body.blocks.len();
        let mut b: usize = 0;
        let mut failed: Option<TranslationError> = None;
        while b < n_blocks && failed.is_none()
            invariant
                program.procs@[proc as int].body == Some(*body),
                proc < program.procs@.len(),
                n_blocks == body.blocks@.len(),
                n_blocks > 0,
                b <= n_blocks,
                net0.wf(),
                net.wf(),
                builds_on(net0, *net),
                frame.wf(*net),
                frame.block_entries@.len() == n_blocks,
                frame.block_entries@[0] == start_place,
                frame.return_place == return_place,
                frame.locals@.len() == body.local_tys@.len(),
                frame.proc_id == proc,
                failed is None ==> forall|bb: int| 0 <= bb < b ==> block_wired(
                    *net,
                    frame.block_entries@,
                    return_place,
                    *body,
                    bb,
                ),
                stack@ == old(stack)@.push(proc),
                stack_ok(stack@, program.procs@.len()),
                fuel@ == program.procs@.len() - old(stack)@.len(),
                failed is Some ==> !(program_ok(*program) && call_fits(
                    *program,
                    proc,
                    args@.len(),
                    dest.is_some(),
                )),
            decreases n_blocks - b,
        {
            let ghost net_b = *net;
            match frame.activate_block(b) {
                Ok(()) => {},
                Err(e) => {
                    failed = Some(e);
                    proof {
                        assert(false);
                    }
                },
            }
            let stmt_count = body.blocks[b].stmt_count;
            let ghost entries0 = frame.block_entries@;
            proof {
                assert(bead_chain(*net, frame.block_entries@[b as int], 0, frame.cursor));
                if failed is None {
                    assert(forall|bb: int| 0 <= bb < b ==> block_wired(
                        net_b,
                        entries0,
                        return_place,
                        *body,
                        bb,
                    ));
                }
            }
            let mut s: usize = 0;
            while s < stmt_count
                invariant
                    s <= stmt_count,
                    b < n_blocks,
                    n_blocks == frame.block_entries@.len(),
                    net.wf(),
                    builds_on(net_b, *net),
                    frame.wf(*net),
                    frame.block_entries@ == entries0,
                    frame.block_entries@.len() == n_blocks,
                    frame.block_entries@[0] == start_place,
                    frame.return_place == return_place,
                    frame.locals@.len() == body.local_tys@.len(),
                    frame.proc_id == proc,
                    bead_chain(*net, frame.block_entries@[b as int], s as nat, frame.cursor),
                decreases stmt_count - s,
            {
                let ghost pre = *net;
                let ghost prev_cursor = frame.cursor;
                let ghost eb = frame.block_entries@[b as int];
                let ts = net.tkinds.len();
                frame.add_statement(net);
                proof {
                    broadcast use crate::net::lemma_contains_push;

                    lemma_builds_on_trans(net_b, pre, *net);
                    lemma_bead_chain_monotone(pre, *net, eb, s as nat, prev_cursor);
                    assert(net.has_pt(prev_cursor, ts));
                    assert(net.tkinds@[ts as int] == crate::net::TransKind::Stmt);
                    assert(net.has_tp(ts, frame.cursor));
                    lemma_bead_chain_extend(*net, eb, s as nat, prev_cursor, ts, frame.cursor);
                }
                s += 1;
            }
            proof {
                lemma_builds_on_trans(net0, net_b, *net);
            }
            let ghost net_t = *net;
            let ghost qend = frame.cursor;
            let ghost entries_g = frame.block_entries@;
            proof {
                assert(stack@[stack@.len() - 1] == proc);
                assert(stack@.contains(proc));
            }
            match Self::visit_terminator(
                program,
                net,
                stack,
                &mut frame,
                body,
                proc,
                b,
                fuel,
            ) {
                Ok(()) => {
                    proof {
                        lemma_bead_chain_monotone(
                            net_t,
                            *net,
                            entries_g[b as int],
                            body.blocks@[b as int].stmt_count as nat,
                            qend,
                        );
                        assert(terminator_wired(
                            *net,
                            entries_g,
                            return_place,
                            body.blocks@[b as int].terminator,
                            qend,
                        ));
                        assert(block_wired(*net, entries_g, return_place, *body, b as int));
                        lemma_builds_on_trans(net_b, net_t, *net);
                        assert(entries_g == entries0);
                        if failed is None {
                            assert forall|bb: int| 0 <= bb < b + 1 implies block_wired(
                                *net,
                                entries_g,
                                return_place,
                                *body,
                                bb,
                            ) by {
                                if bb < b {
                                    assert(block_wired(net_b, entries0, return_place, *body, bb));
                                    lemma_block_wired_monotone(
                                        net_b,
                                        *net,
                                        entries_g,
                                        return_place,
                                        *body,
                                        bb,
                                    );
                                }
                            }
                        }
                    }
                },
                Err(e) => {
                    failed = Some(e);
                },
            }
            proof {
                lemma_builds_on_trans(net0, net_t, *net);
            }
            b += 1;
        }
        let popped = stack.pop();
        proof {
            assert(stack@ =~= old(stack)@);
        }
        match failed {
            Some(e) => Err(e),
            None => {
                proof {
                    assert(subnet_emitted(
                        *net,
                        program.procs@[proc as int].body->Some_0,
                        start_place,
                        return_place,
                        frame.block_entries@,
                    ));
                }
                Ok(())
            },
        }
    }

    /// Emits the branch transitions of a switch: one jump per target, each
    /// consuming the cursor and producing the target block's entry place.
    #[verifier::rlimit(100)]
    #[verifier::spinoff_prover]
    fn visit_switch(
        net: &mut NetBuilder,
        frame: &mut FunctionSubnet,
        targets: &Vec<usize>,
    ) -> (r: Result<(), TranslationError>)
        requires
            old(net).wf(),
            old(frame).wf(*old(net)),
        ensures
            builds_on(*old(net), *final(net)),
            final(frame).wf(*final(net)),
            *final(frame) == *old(frame),
            r.is_ok() <==> (forall|k: int| 0 <= k < targets@.len() ==> #[trigger] targets@[k]
                < old(frame).block_entries@.len()),
            r.is_err() ==> r == Err::<(), TranslationError>(TranslationError::UnknownBlock),
            r.is_ok() ==> forall|k: int| 0 <= k < targets@.len() ==> #[trigger] targets@[k]
                < old(frame).block_entries@.len() && jump_arc(
                *final(net),
                old(frame).cursor,
                old(frame).block_entries@[targets@[k] as int],
            ),
    {
        let ghost net0 = *old(net);
        proof {
            crate::net::lemma_builds_on_refl(net0);
        }
        let n = targets.len();
        let mut i: usize = 0;
        while i < n
            invariant
                net0 == *old(net),
                i <= n,
                n == targets@.len(),
                net.wf(),
                builds_on(net0, *net),
                frame.wf(*net),
                *frame == *old(frame),
                forall|k: int| 0 <= k < i ==> #[trigger] targets@[k]
                    < old(frame).block_entries@.len() && jump_arc(
                    *net,
                    old(frame).cursor,
                    old(frame).block_entries@[targets@[k] as int],
                ),
            decreases n - i,
        {
            let ghost pre = *net;
            let tg = net.tkinds.len();
            match frame.goto(net, targets[i]) {
                Ok(()) => {},
                Err(e) => {
                    proof {
                        crate::net::lemma_builds_on_refl(*net);
                        lemma_builds_on_trans(net0, pre, *net);
                    }
                    return Err(e);
                },
            }
            proof {
                broadcast use crate::net::lemma_contains_push;

                lemma_builds_on_trans(net0, pre, *net);
                assert(net.has_pt(old(frame).cursor, tg));
                assert(net.tkinds@[tg as int] == crate::net::TransKind::Jump);
                assert(net.has_tp(tg, old(frame).block_entries@[targets@[i as int] as int]));
                assert(jump_arc(
                    *net,
                    old(frame).cursor,
                    old(frame).block_entries@[targets@[i as int] as int],
                ));
                assert forall|k: int| 0 <= k < i + 1 implies #[trigger] targets@[k]
                    < old(frame).block_entries@.len() && jump_arc(
                    *net,
                    old(frame).cursor,
                    old(frame).block_entries@[targets@[k] as int],
                ) by {
                    if k < i {
                        lemma_jump_arc_monotone(
                            pre,
                            *net,
                            old(frame).cursor,
                            old(frame).block_entries@[targets@[k] as int],
                        );
                    }
                }
            }
            i += 1;
        }
        Ok(())
    }

    /// Emits the net structure of one terminator of the active block,
    /// dispatching on its kind; a call either recurses into the callee's
    /// inlined subnet or is abstracted as a single opaque transition.
    #[verifier::rlimit(100)]
    #[verifier::spinoff_prover]
    /// Emits the jump of a goto from the cursor into the target block's
    /// entry place.
    #[verifier::rlimit(60)]
    #[verifier::spinoff_prover]
    fn visit_goto(net: &mut NetBuilder, frame: &mut FunctionSubnet, target: usize) -> (r: Result<
        (),
        TranslationError,
    >)
        requires
            old(net).wf(),
            old(frame).wf(*old(net)),
        ensures
            builds_on(*old(net), *final(net)),
            *final(frame) == *old(frame),
            final(frame).wf(*final(net)),
            r.is_ok() <==> target < old(frame).block_entries@.len(),
            r.is_err() ==> r == Err::<(), TranslationError>(TranslationError::UnknownBlock)
                && *final(net) == *old(net),
            r.is_ok() ==> jump_arc(
                *final(net),
                old(frame).cursor,
                old(frame).block_entries@[target as int],
            ),
    {
        proof {
            crate::net::lemma_builds_on_refl(*old(net));
        }
        let tg = net.tkinds.len();
        let r = frame.goto(net, target);
        proof {
            broadcast use crate::net::lemma_contains_push;

            if r.is_ok() {
                assert(net.has_pt(old(frame).cursor, tg));
                assert(net.tkinds@[tg as int] == crate::net::TransKind::Jump);
                assert(net.has_tp(tg, old(frame).block_entries@[target as int]));
                assert(jump_arc(
                    *net,
                    old(frame).cursor,
                    old(frame).block_entries@[target as int],
                ));
            }
        }
        r
    }

    /// Emits the return wiring of the frame: the return transition with its
    /// storage-release arcs, the control token deposited at the return
    /// place when the frame has one.
    #[verifier::rlimit(60)]
    #[verifier::spinoff_prover]
    fn visit_return(net: &mut NetBuilder, frame: &FunctionSubnet)
        requires
            old(net).wf(),
            frame.wf(*old(net)),
        ensures
            builds_on(*old(net), *final(net)),
            frame.wf(*final(net)),
            return_wired(*final(net), frame.return_place, frame.cursor),
    {
        let tg = net.tkinds.len();
        frame.retorn(net);
        proof {
            broadcast use crate::net::lemma_contains_push;

            assert(net.has_pt(frame.cursor, tg));
            assert(net.tkinds@[tg as int] == crate::net::TransKind::Jump);
            if let Some(rp) = frame.return_place {
                assert(net.has_tp(tg, rp));
            }
            assert(return_wired(*net, frame.return_place, frame.cursor));
        }
    }

    /// Emits a drop terminator's structure: the live -> dead drop
    /// transition (and, when the dropped local is rewritten, the dead ->
    /// live write transition), then the jump on to the target block.
    #[verifier::rlimit(60)]
    #[verifier::spinoff_prover]
    fn visit_drop_seq(
        net: &mut NetBuilder,
        frame: &mut FunctionSubnet,
        l: usize,
        target: usize,
        replace: bool,
    ) -> (r: Result<(), TranslationError>)
        requires
            old(net).wf(),
            old(frame).wf(*old(net)),
        ensures
            builds_on(*old(net), *final(net)),
            *final(frame) == *old(frame),
            final(frame).wf(*final(net)),
            r.is_ok() <==> (l < old(frame).locals@.len() && target < old(
                frame,
            ).block_entries@.len()),
            r.is_ok() ==> jump_arc(
                *final(net),
                old(frame).cursor,
                old(frame).block_entries@[target as int],
            ),
    {
        let ghost net0 = *old(net);
        proof {
            crate::net::lemma_builds_on_refl(net0);
        }
        let ghost pre = *net;
        match frame.drop_local(net, l) {
            Ok(()) => {},
            Err(e) => {
                return Err(e);
            },
        }
        if replace {
            let ghost pre2 = *net;
            match frame.write_local(net, l) {
                Ok(()) => {},
                Err(e) => {
                    proof {
                        assert(false);
                    }
                    return Err(e);
                },
            }
            proof {
                lemma_builds_on_trans(net0, pre2, *net);
            }
        }
        proof {
            lemma_builds_on_trans(net0, pre, *net);
        }
        let ghost pre3 = *net;
        let tg = net.tkinds.len();
        let r = frame.goto(net, target);
        proof {
            broadcast use crate::net::lemma_contains_push;

            lemma_builds_on_trans(net0, pre3, *net);
            if r.is_ok() {
                assert(net.has_pt(old(frame).cursor, tg));
                assert(net.tkinds@[tg as int] == crate::net::TransKind::Jump);
                assert(net.has_tp(tg, old(frame).block_entries@[target as int]));
                assert(jump_arc(
                    *net,
                    old(frame).cursor,
                    old(frame).block_entries@[target as int],
                ));
            }
        }
        r
    }

    /// One bead and one jump, wired in sequence, form a one-bead chain
    /// followed by a jump arc.
    proof fn lemma_step_then_jump(
        net: NetBuilder,
        c: usize,
        ts: usize,
        q2: usize,
        tg: usize,
        e: usize,
    )
        requires
            net.has_pt(c, ts),
            ts < net.n_trans(),
            net.tkinds@[ts as int] == crate::net::TransKind::Stmt,
            net.has_tp(ts, q2),
            net.has_pt(q2, tg),
            tg < net.n_trans(),
            net.tkinds@[tg as int] == crate::net::TransKind::Jump,
            net.has_tp(tg, e),
        ensures
            bead_chain(net, c, 1, q2),
            jump_arc(net, q2, e),
    {
        assert(bead_chain(net, q2, 0, q2));
    }

    /// Emits one statement bead from the cursor, then the jump on to the
    /// target block: the structure of an assertion or a yield.
    #[verifier::rlimit(100)]
    #[verifier::spinoff_prover]
    fn visit_step_goto(net: &mut NetBuilder, frame: &mut FunctionSubnet, target: usize) -> (r:
        Result<(), TranslationError>)
        requires
            old(net).wf(),
            old(frame).wf(*old(net)),
        ensures
            builds_on(*old(net), *final(net)),
            final(frame).wf(*final(net)),
            final(frame).block_entries@ == old(frame).block_entries@,
            final(frame).locals@ == old(frame).locals@,
            final(frame).caller_owned@ == old(frame).caller_owned@,
            final(frame).proc_id == old(frame).proc_id,
            final(frame).return_place == old(frame).return_place,
            r.is_ok() <==> target < old(frame).block_entries@.len(),
            r.is_ok() ==> bead_chain(*final(net), old(frame).cursor, 1, final(frame).cursor)
                && jump_arc(
                *final(net),
                final(frame).cursor,
                old(frame).block_entries@[target as int],
            ),
    {
        let ghost net0 = *old(net);
        let ts = net.tkinds.len();
        frame.add_statement(net);
        let ghost pre = *net;
        let ghost q2 = frame.cursor;
        let tg = net.tkinds.len();
        let r = frame.goto(net, target);
        proof {
            broadcast use crate::net::lemma_contains_push;

            lemma_builds_on_trans(net0, pre, *net);
            if r.is_ok() {
                assert(net.has_pt(old(frame).cursor, ts));
                assert(net.tkinds@[ts as int] == crate::net::TransKind::Stmt);
                assert(net.has_tp(ts, q2));
                assert(net.has_pt(q2, tg));
                assert(net.tkinds@[tg as int] == crate::net::TransKind::Jump);
                assert(net.has_tp(tg, old(frame).block_entries@[target as int]));
                Self::lemma_step_then_jump(
                    *net,
                    old(frame).cursor,
                    ts,
                    q2,
                    tg,
                    old(frame).block_entries@[target as int],
                );
            }
        }
        r
    }

    /// Emits the control sink of a resumption or abort: the token is
    /// consumed at the cursor and nowhere deposited.
    #[verifier::rlimit(60)]
    #[verifier::spinoff_prover]
    fn visit_sink(net: &mut NetBuilder, frame: &FunctionSubnet)
        requires
            old(net).wf(),
            frame.wf(*old(net)),
        ensures
            builds_on(*old(net), *final(net)),
            frame.wf(*final(net)),
            exists|t: usize|
                #[trigger] final(net).has_pt(frame.cursor, t) && t < final(net).n_trans()
                    && final(net).tkinds@[t as int] == crate::net::TransKind::Jump,
    {
        let tg = net.tkinds.len();
        frame.sink(net);
        proof {
            broadcast use crate::net::lemma_contains_push;

            assert(net.has_pt(frame.cursor, tg));
            assert(net.tkinds@[tg as int] == crate::net::TransKind::Jump);
        }
    }

    /// Emits the net structure of one terminator of the active block,
    /// dispatching on its kind; a call either recurses into the callee's
    /// inlined subnet or is abstracted as a single opaque transition. On
    /// success the terminator's wiring stands in the net, starting at the
    /// cursor the block's bead chain ended on.
    #[verifier::rlimit(100)]
    #[verifier::spinoff_prover]
    fn visit_terminator(
        program: &Program,
        net: &mut NetBuilder,
        stack: &mut CallStack<usize>,
        frame: &mut FunctionSubnet,
        body: &Body,
        proc: usize,
        b: usize,
        fuel: Ghost<int>,
    ) -> (r: Result<(), TranslationError>)
        requires
            old(net).wf(),
            old(frame).wf(*old(net)),
            program.procs@[proc as int].body == Some(*body),
            proc < program.procs@.len(),
            b < body.blocks@.len(),
            old(frame).block_entries@.len() == body.blocks@.len(),
            old(frame).locals@.len() == body.local_tys@.len(),
            stack_ok(old(stack)@, program.procs@.len()),
            old(stack)@.contains(proc),
            fuel@ == program.procs@.len() - old(stack)@.len() + 1,
        ensures
            final(stack)@ == old(stack)@,
            builds_on(*old(net), *final(net)),
            final(net).wf(),
            final(frame).wf(*final(net)),
            final(frame).block_entries@ == old(frame).block_entries@,
            final(frame).locals@ == old(frame).locals@,
            final(frame).caller_owned@ == old(frame).caller_owned@,
            final(frame).proc_id == old(frame).proc_id,
            final(frame).return_place == old(frame).return_place,
            program_ok(*program) ==> r.is_ok(),
            r.is_ok() ==> terminator_wired(
                *final(net),
                old(frame).block_entries@,
                old(frame).return_place,
                body.blocks@[b as int].terminator,
                old(frame).cursor,
            ),
        decreases fuel@, 1int,
    {
        let ghost net0 = *old(net);
        proof {
            crate::net::lemma_builds_on_refl(net0);
        }
        let term = &body.blocks[b].terminator;
        proof {
            if program_ok(*program) {
                assert(body_ok(*body, program.procs@));
                assert(terminator_ok(body.blocks@[b as int].terminator, *body, program.procs@));
            }
        }
        match term {
            Terminator::Goto { target } => Self::visit_goto(net, frame, *target),
            Terminator::SwitchInt { targets } => Self::visit_switch(net, frame, targets),
            Terminator::Return => {
                Self::visit_return(net, frame);
                Ok(())
            },
            Terminator::Call { func, args: cargs, destination } => Self::visit_call(
                program,
                net,
                stack,
                frame,
                body,
                proc,
                b,
                func,
                cargs,
                destination,
                fuel,
            ),
            Terminator::Drop { place, target } => {
                let l = match place_to_local(place) {
                    Ok(l) => l,
                    Err(e) => {
                        return Err(e);
                    },
                };
                Self::visit_drop_seq(net, frame, l, *target, false)
            },
            Terminator::DropAndReplace { place, target } => {
                let l = match place_to_local(place) {
                    Ok(l) => l,
                    Err(e) => {
                        return Err(e);
                    },
                };
                Self::visit_drop_seq(net, frame, l, *target, true)
            },
            Terminator::Assert { target } => Self::visit_step_goto(net, frame, *target),
            Terminator::Yield { resume } => Self::visit_step_goto(net, frame, *resume),
            Terminator::GeneratorDrop => {
                Self::visit_return(net, frame);
                Ok(())
            },
            Terminator::Resume => {
                Self::visit_sink(net, frame);
                Ok(())
            },
            Terminator::Abort => {
                Self::visit_sink(net, frame);
                Ok(())
            },
            Terminator::Unreachable => Ok(()),
            Terminator::FalseEdges => Err(TranslationError::MalformedIr),
            Terminator::FalseUnwind => Err(TranslationError::MalformedIr),
        }
    }

    /// The inlining algorithm of one call site: resolve the callee, consult
    /// the skip policy, summarize foreign bodies and recursion, otherwise
    /// bind arguments and destination to the caller's pairs and descend.
    #[verifier::rlimit(100)]
    #[verifier::spinoff_prover]
    fn visit_call(
        program: &Program,
        net: &mut NetBuilder,
        stack: &mut CallStack<usize>,
        frame: &mut FunctionSubnet,
        body: &Body,
        proc: usize,
        b: usize,
        func: &Operand,
        cargs: &Vec<Operand>,
        destination: &Option<(Place, usize)>,
        fuel: Ghost<int>,
    ) -> (r: Result<(), TranslationError>)
        requires
            old(net).wf(),
            old(frame).wf(*old(net)),
            program.procs@[proc as int].body == Some(*body),
            proc < program.procs@.len(),
            b < body.blocks@.len(),
            body.blocks@[b as int].terminator == (Terminator::Call {
                func: *func,
                args: *cargs,
                destination: *destination,
            }),
            old(frame).block_entries@.len() == body.blocks@.len(),
            old(frame).locals@.len() == body.local_tys@.len(),
            stack_ok(old(stack)@, program.procs@.len()),
            old(stack)@.contains(proc),
            fuel@ == program.procs@.len() - old(stack)@.len() + 1,
        ensures
            final(stack)@ == old(stack)@,
            builds_on(*old(net), *final(net)),
            final(net).wf(),
            final(frame).wf(*final(net)),
            final(frame).block_entries@ == old(frame).block_entries@,
            final(frame).locals@ == old(frame).locals@,
            final(frame).caller_owned@ == old(frame).caller_owned@,
            final(frame).proc_id == old(frame).proc_id,
            final(frame).return_place == old(frame).return_place,
            program_ok(*program) ==> r.is_ok(),
            r.is_ok() ==> exists|t: usize, p2: usize|
                #![trigger final(net).has_pt(old(frame).cursor, t), final(net).has_tp(t, p2)]
                final(net).has_pt(old(frame).cursor, t) && t < final(net).n_trans()
                    && final(net).tkinds@[t as int] == crate::net::TransKind::Jump
                    && final(net).has_tp(t, p2),
            r.is_ok() ==> match callee_of(*func, body.local_tys@) {
                Some(f) => if summarized(*program, old(stack)@, f) {
                    &&& final(net).tkinds@ == old(net).tkinds@.push(crate::net::TransKind::Jump)
                    &&& final(net).pt@ == old(net).pt@.push(
                        (old(frame).cursor, (old(net).n_trans() as usize)),
                    )
                    &&& final(net).tp@ == old(net).tp@.push(
                        ((old(net).n_trans() as usize), (match *destination {
                            Some((pl, bb)) => old(frame).block_entries@[bb as int],
                            None => (old(net).n_places() as usize),
                        })),
                    )
                    &&& (match *destination {
                        Some(_) => final(net).kinds@ == old(net).kinds@ && final(net).marking@
                            == old(net).marking@,
                        None => final(net).kinds@ == old(net).kinds@.push(
                            crate::net::PlaceKind::Chain,
                        ) && final(net).marking@ == old(net).marking@.push(0),
                    })
                } else {
                    exists|q: usize|
                        #[trigger] final(net).has_tp((old(net).n_trans() as usize), q)
                            && final(net).has_pt(
                            old(frame).cursor,
                            (old(net).n_trans() as usize),
                        ) && (exists|entries: Seq<usize>| #[trigger] subnet_emitted(
                            *final(net),
                            program.procs@[f as int].body->Some_0,
                            q,
                            call_rp(old(frame).block_entries@, *destination),
                            entries,
                        ))
                },
                None => false,
            },
        decreases fuel@, 0int,
    {
        let ghost net0 = *old(net);
        proof {
            crate::net::lemma_builds_on_refl(net0);
        }
        proof {
            if program_ok(*program) {
                assert(body_ok(*body, program.procs@));
                assert(terminator_ok(body.blocks@[b as int].terminator, *body, program.procs@));
                assert(call_ok(*func, cargs@, *destination, *body, program.procs@));
            }
        }
        let f = match resolve_callee(body, func) {
            Ok(f) => f,
            Err(e) => {
                return Err(e);
            },
        };
        if f >= program.procs.len() {
            return Err(TranslationError::MalformedIr);
        }
        let dest_block: Option<usize> = match destination {
            Some((_, bb)) => Some(*bb),
            None => None,
        };
        let callee = &program.procs[f];
        let skipped = skip_function(callee);
        let summarize = skipped || callee.is_foreign || callee.body.is_none() || stack.contains(f);
        if summarize {
            let tg = net.tkinds.len();
            match frame.skip_call(net, dest_block) {
                Ok(()) => {
                    proof {
                        broadcast use crate::net::lemma_contains_push;

                        assert(tg == net0.n_trans());
                        assert(net.has_pt(old(frame).cursor, tg));
                        assert(net.tkinds@[tg as int] == crate::net::TransKind::Jump);
                        match dest_block {
                            Some(bb) => {
                                assert(net.has_tp(tg, old(frame).block_entries@[bb as int]));
                            },
                            None => {
                                assert(net.has_tp(tg, (net0.n_places() as usize)));
                            },
                        }
                        assert(summarized(*program, old(stack)@, f));
                    }
                    Ok(())
                },
                Err(e) => Err(e),
            }
        } else {
            let mut arg_pairs: Vec<(usize, usize)> = Vec::new();
            let n_args = cargs.len();
            let mut i: usize = 0;
            while i < n_args
                invariant
                    i <= n_args,
                    n_args == cargs@.len(),
                    arg_pairs@.len() == i,
                    net.wf(),
                    frame.wf(*net),
                    frame.locals@.len() == body.local_tys@.len(),
                    forall|k: int| 0 <= k < i ==> net.is_pair(
                        (#[trigger] arg_pairs@[k]).0,
                        arg_pairs@[k].1,
                    ),
                    program_ok(*program) ==> forall|k: int| 0 <= k < n_args
                        ==> crate::ir::operand_ok(#[trigger] cargs@[k], body.local_tys@.len()),
                decreases n_args - i,
            {
                let l = match op_to_local(&cargs[i]) {
                    Ok(l) => l,
                    Err(e) => {
                        return Err(e);
                    },
                };
                if l >= frame.locals.len() {
                    return Err(TranslationError::MalformedIr);
                }
                arg_pairs.push(frame.locals[l]);
                i += 1;
            }
            let (dest_pair, ret_place): (Option<(usize, usize)>, Option<usize>) =
                match destination {
                Some((pl, bb)) => {
                    let d = match place_to_local(pl) {
                        Ok(d) => d,
                        Err(e) => {
                            return Err(e);
                        },
                    };
                    if d >= frame.locals.len() {
                        return Err(TranslationError::MalformedIr);
                    }
                    if *bb >= frame.block_entries.len() {
                        return Err(TranslationError::UnknownBlock);
                    }
                    (Some(frame.locals[d]), Some(frame.block_entries[*bb]))
                },
                None => (None, None),
            };
            let ghost net_pre_site = *net;
            let tg = net.tkinds.len();
            let start = frame.call_site_start_place(net);
            let ghost net_site = *net;
            proof {
                broadcast use crate::net::lemma_contains_push;

                assert(net.has_pt(old(frame).cursor, tg));
                assert(net.tkinds@[tg as int] == crate::net::TransKind::Jump);
                assert(net.has_tp(tg, start));
            }
            proof {
                lemma_stack_len(old(stack)@.push(f), program.procs@.len());
                assert(old(stack)@.push(f).no_duplicates()) by {
                    assert(forall|j: int| 0 <= j < old(stack)@.len() ==> old(stack)@.push(f)[j]
                        == old(stack)@[j]);
                }
                assert forall|k: int| 0 <= k < arg_pairs@.len() implies net.is_pair(
                    (#[trigger] arg_pairs@[k]).0,
                    arg_pairs@[k].1,
                ) by {
                    crate::subnet::lemma_frame_pair_still(
                        net_pre_site,
                        *net,
                        arg_pairs@[k].0,
                        arg_pairs@[k].1,
                    );
                }
                if let Some(p) = dest_pair {
                    crate::subnet::lemma_frame_pair_still(net_pre_site, *net, p.0, p.1);
                }
                if let Some(rp) = ret_place {
                    crate::subnet::lemma_frame_ctrl_still(net_pre_site, *net, rp);
                }
            }
            let rec = Self::translate(
                program,
                net,
                stack,
                f,
                start,
                arg_pairs,
                dest_pair,
                ret_place,
                Ghost(fuel@ - 1),
            );
            proof {
                lemma_builds_on_trans(net0, net_pre_site, net_site);
                lemma_builds_on_trans(net0, net_site, *net);
                lemma_frame_wf_extended(*frame, net_site, *net);
                crate::net::lemma_arcs_monotone(net_site, *net);
                assert(net.has_pt(old(frame).cursor, tg));
                assert(net.has_tp(tg, start));
                assert(net.tkinds@[tg as int] == net_site.tkinds@[tg as int]) by {
                    assert(net_site.tkinds@[tg as int] == net.tkinds@.subrange(
                        0,
                        net_site.tkinds@.len() as int,
                    )[tg as int]);
                }
            }
            match rec {
                Ok(()) => {
                    proof {
                        assert(tg == net0.n_trans());
                        assert(!summarized(*program, old(stack)@, f));
                        assert(net.has_pt(old(frame).cursor, (net0.n_trans() as usize)));
                        assert(net.has_tp((net0.n_trans() as usize), start));
                        assert(exists|entries: Seq<usize>| subnet_emitted(
                            *net,
                            program.procs@[f as int].body->Some_0,
                            start,
                            ret_place,
                            entries,
                        ));
                    }
                    Ok(())
                },
                Err(e) => {
                    proof {
                        if program_ok(*program) {
                            assert(body_ok(
                                program.procs@[f as int].body->Some_0,
                                program.procs@,
                            ));
                            assert(call_fits(*program, f, arg_pairs@.len(), dest_pair.is_some()));
                            assert(false);
                        }
                    }
                    Err(e)
                },
            }
        }
    }

    /// Locates the entry procedure's body, creates the start place (place
    /// 0) carrying the single initial control token and the sink place
    /// (place 1) its return transitions deposit into, translates the whole
    /// call graph, and serializes the finished net as a PNML document. On
    /// success the entry subnet stands in the net starting at place 0 and
    /// returning into place 1, and the returned bytes are exactly the
    /// net's rendering.
    pub fn petrify(&mut self, entry: usize) -> (r: Result<Vec<u8>, TranslationError>)
        requires
            old(self).call_stack@.len() == 0,
            old(self).net.kinds@.len() == 0,
            old(self).net.marking@.len() == 0,
            old(self).net.tkinds@.len() == 0,
            old(self).net.pt@.len() == 0,
            old(self).net.tp@.len() == 0,
        ensures
            final(self).program == old(self).program,
            r.is_ok() ==> final(self).net.wf(),
            r.is_ok() ==> final(self).net.init_pairs_ok(),
            r.is_ok() ==> final(self).net.single_ctrl_token(0),
            r matches Ok(bytes) ==> bytes@ == crate::emit::pnml_bytes(final(self).net),
            r.is_ok() ==> exists|entries: Seq<usize>| subnet_emitted(
                final(self).net,
                old(self).program.procs@[entry as int].body->Some_0,
                0,
                Some(1),
                entries,
            ),
            (program_ok(old(self).program) && entry < old(self).program.procs@.len() && match old(
                self,
            ).program.procs@[entry as int].body {
                Some(b) => b.arg_count == 0,
                None => false,
            }) ==> r.is_ok(),
    {
        if entry >= self.program.procs.len() {
            return Err(TranslationError::MalformedIr);
        }
        let has_body = match &self.program.procs[entry].body {
            Some(_) => true,
            None => false,
        };
        if !has_body {
            return Err(TranslationError::MalformedIr);
        }
        let start = self.net.add_entry_place();
        let sink = self.net.add_chain_place();
        let ghost n_procs = self.program.procs@.len();
        match self.net.set_initial(start, 1) {
            Ok(()) => {},
            Err(e) => {
                proof {
                    assert(false);
                }
                return Err(e);
            },
        }
        proof {
            assert(self.net.wf());
            assert(self.net.init_pairs_ok());
        }
        let ghost net1 = self.net;
        let rec = Self::translate(
            &self.program,
            &mut self.net,
            &mut self.call_stack,
            entry,
            start,
            Vec::new(),
            None,
            Some(sink),
            Ghost(n_procs as int),
        );
        match rec {
            Ok(()) => {},
            Err(e) => {
                return Err(e);
            },
        }
        proof {
            assert(self.net.single_ctrl_token(0)) by {
                assert(net1.marking@[0] == 1 && net1.marking@[1] == 0);
                assert(forall|i: int| 0 <= i < net1.marking@.len()
                    ==> self.net.marking@[i] == net1.marking@[i]);
                assert forall|p: usize| self.net.is_ctrl_place(p) && p != 0 implies
                    self.net.marking@[p as int] == 0 by {
                    if p < 2 {
                        assert(self.net.marking@[p as int] == net1.marking@[p as int]);
                    }
                }
            }
        }
        let bytes = crate::emit::emit_pnml(&self.net);
        Ok(bytes)
    }
}

} // verus!
