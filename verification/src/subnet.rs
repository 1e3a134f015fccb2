use vstd::prelude::*;
use crate::errors::TranslationError;
use crate::ir::Body;
use crate::net::NetBuilder;
use crate::net::PlaceKind;
use crate::net::TransKind;
use crate::net::builds_on;
use crate::net::lemma_builds_on_trans;
use crate::net::lemma_builds_on_after_arcs;
use crate::net::lemma_prefix_push;
use crate::net::lemma_has_pt_after_push;
use crate::net::lemma_has_tp_after_push;
use crate::net::lemma_fresh_trans_no_arcs;

verus! {

/// One call-site instantiation of a procedure: its live/dead place pair per
/// local, its entry place per basic block, the cursor the next transition
/// attaches to, and the caller's return deposit place (`None` when the
/// frame has nowhere to send its control token on return).
pub struct FunctionSubnet {
    pub proc_id: usize,
    /// `(live, dead)` place pair of each local.
    pub locals: Vec<(usize, usize)>,
    /// Whether the local reuses the caller's pair (arguments and the return
    /// destination); such locals are not released on return.
    pub caller_owned: Vec<bool>,
    /// The entry place of each basic block; index 0 is the start place the
    /// caller supplied.
    pub block_entries: Vec<usize>,
    pub active_block: usize,
    pub cursor: usize,
    pub return_place: Option<usize>,
}

impl FunctionSubnet {
    /// The frame's handles are all valid in `net` and of the right kind,
    /// and the pairs of the locals it owns itself are pairwise distinct.
    pub open spec fn wf(self, net: NetBuilder) -> bool {
        &&& self.caller_owned@.len() == self.locals@.len()
        &&& forall|i: int| 0 <= i < self.locals@.len() ==> net.is_pair(
            (#[trigger] self.locals@[i]).0,
            self.locals@[i].1,
        )
        &&& forall|i: int, j: int|
            0 <= i < j < self.locals@.len() && !self.caller_owned@[i] && !self.caller_owned@[j]
                ==> (#[trigger] self.locals@[i]).0 != (#[trigger] self.locals@[j]).0
        &&& forall|b: int| 0 <= b < self.block_entries@.len() ==> net.is_ctrl_place(
            #[trigger] self.block_entries@[b],
        )
        &&& net.is_ctrl_place(self.cursor)
        &&& match self.return_place {
            Some(rp) => net.is_ctrl_place(rp),
            None => true,
        }
        &&& self.block_entries@.len() > 0
        &&& self.active_block < self.block_entries@.len()
    }

    /// `p` is the live place of a local this frame releases on return.
    pub open spec fn releases_live(self, p: usize) -> bool {
        exists|j: int|
            1 <= j < self.locals@.len() && !self.caller_owned@[j] && (#[trigger] self.locals@[j]).0
                == p
    }

    /// `p` is the dead place of a local this frame releases on return.
    pub open spec fn releases_dead(self, p: usize) -> bool {
        exists|j: int|
            1 <= j < self.locals@.len() && !self.caller_owned@[j] && (#[trigger] self.locals@[j]).1
                == p
    }

    /// As `releases_live`, restricted to the locals before `l`.
    pub open spec fn releases_live_upto(self, p: usize, l: int) -> bool {
        exists|j: int|
            1 <= j < l && j < self.locals@.len() && !self.caller_owned@[j] && (
            #[trigger] self.locals@[j]).0 == p
    }

    /// As `releases_dead`, restricted to the locals before `l`.
    pub open spec fn releases_dead_upto(self, p: usize, l: int) -> bool {
        exists|j: int|
            1 <= j < l && j < self.locals@.len() && !self.caller_owned@[j] && (
            #[trigger] self.locals@[j]).1 == p
    }
}

/// A control place keeps its kind when the net grows.
pub proof fn lemma_frame_ctrl_still(pre: NetBuilder, post: NetBuilder, p: usize)
    requires
        pre.is_ctrl_place(p),
        pre.kinds@.is_prefix_of(post.kinds@),
    ensures
        post.is_ctrl_place(p),
{
    assert(pre.kinds@[p as int] == post.kinds@.subrange(0, pre.kinds@.len() as int)[p as int]);
}

/// A live/dead pair keeps its kinds when the net grows.
pub proof fn lemma_frame_pair_still(pre: NetBuilder, post: NetBuilder, l: usize, d: usize)
    requires
        pre.is_pair(l, d),
        pre.kinds@.is_prefix_of(post.kinds@),
    ensures
        post.is_pair(l, d),
{
    assert(pre.kinds@[l as int] == post.kinds@.subrange(0, pre.kinds@.len() as int)[l as int]);
}

/// The frame's well-formedness only mentions existing places, so it
/// survives any extension of the net.
pub proof fn lemma_frame_wf_extended(f: FunctionSubnet, pre: NetBuilder, post: NetBuilder)
    requires
        f.wf(pre),
        pre.extended_by(post),
    ensures
        f.wf(post),
{
    assert forall|i: int| 0 <= i < f.locals@.len() implies post.is_pair(
        (#[trigger] f.locals@[i]).0,
        f.locals@[i].1,
    ) by {
        lemma_frame_pair_still(pre, post, f.locals@[i].0, f.locals@[i].1);
    }
    assert forall|b: int| 0 <= b < f.block_entries@.len() implies post.is_ctrl_place(
        #[trigger] f.block_entries@[b],
    ) by {
        lemma_frame_ctrl_still(pre, post, f.block_entries@[b]);
    }
    lemma_frame_ctrl_still(pre, post, f.cursor);
    if let Some(rp) = f.return_place {
        lemma_frame_ctrl_still(pre, post, rp);
    }
}

impl FunctionSubnet {
    /// Builds the frame for one call of `body`: argument locals and the
    /// return destination reuse the caller's pairs, every other local gets
    /// a fresh pair, block 0 is entered at `start_place` and every other
    /// block gets a fresh entry place. With `premark` (the entry frame) each
    /// fresh dead place starts with one token, modeling allocated storage.
    #[verifier::rlimit(100)]
    #[verifier::spinoff_prover]
    pub fn new(
        proc_id: usize,
        body: &Body,
        net: &mut NetBuilder,
        args: &Vec<(usize, usize)>,
        dest: Option<(usize, usize)>,
        start_place: usize,
        return_place: Option<usize>,
    ) -> (r: Result<FunctionSubnet, TranslationError>)
        requires
            old(net).wf(),
            old(net).is_ctrl_place(start_place),
            match return_place {
                Some(rp) => old(net).is_ctrl_place(rp),
                None => true,
            },
            forall|i: int| 0 <= i < args@.len() ==> old(net).is_pair(
                (#[trigger] args@[i]).0,
                args@[i].1,
            ),
            match dest {
                Some(p) => old(net).is_pair(p.0, p.1),
                None => true,
            },
        ensures
            r.is_ok() <==> (args@.len() == body.arg_count && (body.arg_count > 0
                ==> body.arg_count < body.local_tys@.len()) && (dest.is_some()
                ==> body.local_tys@.len() >= 1) && body.blocks@.len() > 0),
            r.is_err() ==> *final(net) == *old(net) && r == Err::<FunctionSubnet,
                TranslationError,
            >(TranslationError::MalformedIr),
            r.is_ok() ==> builds_on(*old(net), *final(net)) && final(net).tkinds@ == old(net).tkinds@ && final(net).pt@ == old(net).pt@ && final(net).tp@ == old(net).tp@,
            r matches Ok(f) ==> f.wf(*final(net)),
            r matches Ok(f) ==> f.proc_id == proc_id && f.return_place == return_place,
            r matches Ok(f) ==> f.cursor == start_place && f.active_block == 0,
            r matches Ok(f) ==> f.block_entries@.len() == body.blocks@.len()
                && f.block_entries@[0] == start_place,
            r matches Ok(f) ==> f.locals@.len() == body.local_tys@.len(),
            r matches Ok(f) ==> match dest {
                Some(p) => f.locals@.len() >= 1 && f.locals@[0] == p && f.caller_owned@[0],
                None => true,
            },
            r matches Ok(f) ==> forall|i: int|
                1 <= i <= body.arg_count ==> f.locals@[i] == args@[i - 1]
                    && #[trigger] f.caller_owned@[i],
    {
        if args.len() != body.arg_count {
            return Err(TranslationError::MalformedIr);
        }
        if body.arg_count > 0 && body.arg_count >= body.local_tys.len() {
            return Err(TranslationError::MalformedIr);
        }
        if dest.is_some() && body.local_tys.len() == 0 {
            return Err(TranslationError::MalformedIr);
        }
        if body.blocks.len() == 0 {
            return Err(TranslationError::MalformedIr);
        }
        let ghost net0 = *old(net);
        proof {
            crate::net::lemma_prefix_refl(net0.kinds@);
            crate::net::lemma_prefix_refl(net0.marking@);
            crate::net::lemma_prefix_refl(net0.tkinds@);
            crate::net::lemma_prefix_refl(net0.pt@);
            crate::net::lemma_prefix_refl(net0.tp@);
        }
        let mut locals: Vec<(usize, usize)> = Vec::new();
        let mut caller_owned: Vec<bool> = Vec::new();
        let n_locals = body.local_tys.len();
        let mut l: usize = 0;
        while l < n_locals
            invariant
                net0.wf(),
                net.wf(),
                builds_on(net0, *net),
                l <= n_locals,
                n_locals == body.local_tys@.len(),
                args@.len() == body.arg_count,
                body.arg_count > 0 ==> body.arg_count < n_locals,
                dest.is_some() ==> n_locals >= 1,
                locals@.len() == l,
                caller_owned@.len() == l,
                forall|i: int| 0 <= i < l ==> net.is_pair((#[trigger] locals@[i]).0, locals@[i].1),
                forall|i: int, j: int|
                    0 <= i < j < l && !caller_owned@[i] && !caller_owned@[j] ==> (
                    #[trigger] locals@[i]).0 != (#[trigger] locals@[j]).0,
                match dest {
                    Some(p) => l >= 1 ==> locals@[0] == p && caller_owned@[0],
                    None => true,
                },
                forall|i: int| 1 <= i <= body.arg_count && i < l ==> #[trigger] locals@[i]
                    == args@[i - 1] && caller_owned@[i],
                forall|i: int| 0 <= i < args@.len() ==> net0.is_pair(
                    (#[trigger] args@[i]).0,
                    args@[i].1,
                ),
                match dest {
                    Some(p) => net0.is_pair(p.0, p.1),
                    None => true,
                },
                net.tkinds@ == net0.tkinds@,
                net.pt@ == net0.pt@,
                net.tp@ == net0.tp@,
            decreases n_locals - l,
        {
            let ghost pre = *net;
            let mut fresh = true;
            if l == 0 {
                if let Some(p) = dest {
                    locals.push(p);
                    caller_owned.push(true);
                    fresh = false;
                    proof {
                        lemma_frame_pair_still(net0, *net, p.0, p.1);
                    }
                }
            } else if l <= body.arg_count {
                let p = args[l - 1];
                locals.push(p);
                caller_owned.push(true);
                fresh = false;
                proof {
                    lemma_frame_pair_still(net0, *net, p.0, p.1);
                }
            }
            if fresh {
                let (live, dead) = net.add_local_pair();
                locals.push((live, dead));
                caller_owned.push(false);
                proof {
                    assert(pre.kinds@.is_prefix_of(net.kinds@)) by {
                        assert(pre.kinds@ =~= net.kinds@.subrange(0, pre.kinds@.len() as int));
                    }
                    assert(pre.marking@.is_prefix_of(net.marking@)) by {
                        assert(pre.marking@ =~= net.marking@.subrange(
                            0,
                            pre.marking@.len() as int,
                        ));
                    }
                    assert(net.wf_basic());
                    NetBuilder::lemma_builds_on_after_places(pre, *net);
                    lemma_builds_on_trans(net0, pre, *net);
                    assert forall|i: int| 0 <= i < l + 1 implies net.is_pair(
                        (#[trigger] locals@[i]).0,
                        locals@[i].1,
                    ) by {
                        if i < l {
                            lemma_frame_pair_still(pre, *net, locals@[i].0, locals@[i].1);
                        }
                    }
                }
            }
            l += 1;
        }
        let ghost net1 = *net;
        let mut block_entries: Vec<usize> = Vec::new();
        block_entries.push(start_place);
        proof {
            lemma_frame_ctrl_still(net0, *net, start_place);
        }
        let n_blocks = body.blocks.len();
        let mut b: usize = 1;
        while b < n_blocks
            invariant
                net1.wf(),
                net.wf(),
                builds_on(net1, *net),
                1 <= b <= n_blocks,
                block_entries@.len() == b,
                block_entries@[0] == start_place,
                forall|i: int| 0 <= i < b ==> net.is_ctrl_place(#[trigger] block_entries@[i]),
                net.tkinds@ == net1.tkinds@,
                net.pt@ == net1.pt@,
                net.tp@ == net1.tp@,
            decreases n_blocks - b,
        {
            let ghost pre = *net;
            let e = net.add_entry_place();
            block_entries.push(e);
            proof {
                assert(pre.kinds@.is_prefix_of(net.kinds@)) by {
                    assert(pre.kinds@ =~= net.kinds@.subrange(0, pre.kinds@.len() as int));
                }
                assert(pre.marking@.is_prefix_of(net.marking@)) by {
                    assert(pre.marking@ =~= net.marking@.subrange(0, pre.marking@.len() as int));
                }
                assert(net.wf_basic());
                NetBuilder::lemma_builds_on_after_places(pre, *net);
                lemma_builds_on_trans(net1, pre, *net);
                assert forall|i: int| 0 <= i < b + 1 implies net.is_ctrl_place(
                    #[trigger] block_entries@[i],
                ) by {
                    if i < b {
                        lemma_frame_ctrl_still(pre, *net, block_entries@[i]);
                    }
                }
            }
            b += 1;
        }
        let frame = FunctionSubnet {
            proc_id,
            locals,
            caller_owned,
            block_entries,
            active_block: 0,
            cursor: start_place,
            return_place,
        };
        proof {
            lemma_builds_on_trans(net0, net1, *net);
            assert forall|i: int| 0 <= i < frame.locals@.len() implies net.is_pair(
                (#[trigger] frame.locals@[i]).0,
                frame.locals@[i].1,
            ) by {
                lemma_frame_pair_still(net1, *net, frame.locals@[i].0, frame.locals@[i].1);
            }
            lemma_frame_ctrl_still(net0, *net, start_place);
            if let Some(rp) = return_place {
                lemma_frame_ctrl_still(net0, *net, rp);
            }
            assert(frame.wf(*net));
            assert(builds_on(net0, *net));
            assert(net.tkinds@ == net0.tkinds@);
            assert(net.pt@ == net0.pt@);
            assert(net.tp@ == net0.tp@);
            assert(match dest {
                Some(p) => frame.locals@.len() >= 1 && frame.locals@[0] == p
                    && frame.caller_owned@[0],
                None => true,
            });
            assert forall|i: int| 1 <= i <= body.arg_count implies frame.locals@[i]
                == args@[i - 1] && #[trigger] frame.caller_owned@[i] by {
                assert(frame.locals@[i] == args@[i - 1] && frame.caller_owned@[i]);
            }
        }
        Ok(frame)
    }

    /// Emits one transition of `kind` from the cursor into a fresh chain
    /// place and moves the cursor there: the step of one statement bead, or
    /// the call-site step whose fresh place the callee starts at.
    fn emit_chain_step(&mut self, net: &mut NetBuilder, kind: TransKind) -> (q: usize)
        requires
            old(self).wf(*old(net)),
            old(net).wf(),
        ensures
            final(self).wf(*final(net)),
            builds_on(*old(net), *final(net)),
            q == old(net).n_places(),
            final(net).kinds@ == old(net).kinds@.push(PlaceKind::Chain),
            final(net).marking@ == old(net).marking@.push(0),
            final(net).tkinds@ == old(net).tkinds@.push(kind),
            final(net).pt@ == old(net).pt@.push((old(self).cursor, (old(net).n_trans() as usize))),
            final(net).tp@ == old(net).tp@.push(((old(net).n_trans() as usize), q)),
            final(self).cursor == q,
            final(self).locals@ == old(self).locals@,
            final(self).caller_owned@ == old(self).caller_owned@,
            final(self).block_entries@ == old(self).block_entries@,
            final(self).active_block == old(self).active_block,
            final(self).return_place == old(self).return_place,
            final(self).proc_id == old(self).proc_id,
    {
        let ghost net0 = *old(net);
        let q = net.add_chain_place();
        proof {
            assert(net0.kinds@.is_prefix_of(net.kinds@)) by {
                assert(net0.kinds@ =~= net.kinds@.subrange(0, net0.kinds@.len() as int));
            }
            assert(net0.marking@.is_prefix_of(net.marking@)) by {
                assert(net0.marking@ =~= net.marking@.subrange(0, net0.marking@.len() as int));
            }
            assert(net.wf_basic());
            NetBuilder::lemma_builds_on_after_places(net0, *net);
            lemma_frame_ctrl_still(net0, *net, self.cursor);
            assert(net.is_ctrl_place(q));
        }
        let ghost net1 = *net;
        let t = net.add_ctrl_transition(kind, self.cursor, Some(q));
        self.cursor = q;
        proof {
            lemma_prefix_push(net1.tkinds@, kind);
            lemma_prefix_push(net1.pt@, (old(self).cursor, t));
            lemma_prefix_push(net1.tp@, (t, q));
            lemma_builds_on_after_arcs(net1, *net);
            lemma_builds_on_trans(net0, net1, *net);
            lemma_frame_wf_extended(*old(self), net0, *net);
            assert(self.wf(*net));
        }
        q
    }

    /// Appends the bead-chain transition of one statement to the active
    /// block: cursor -> t -> fresh chain place, which becomes the cursor.
    pub fn add_statement(&mut self, net: &mut NetBuilder)
        requires
            old(self).wf(*old(net)),
            old(net).wf(),
        ensures
            final(self).wf(*final(net)),
            builds_on(*old(net), *final(net)),
            final(net).kinds@ == old(net).kinds@.push(PlaceKind::Chain),
            final(net).marking@ == old(net).marking@.push(0),
            final(net).tkinds@ == old(net).tkinds@.push(TransKind::Stmt),
            final(net).pt@ == old(net).pt@.push((old(self).cursor, (old(net).n_trans() as usize))),
            final(net).tp@ == old(net).tp@.push(
                ((old(net).n_trans() as usize), (old(net).n_places() as usize)),
            ),
            final(self).cursor == old(net).n_places(),
            final(self).locals@ == old(self).locals@,
            final(self).caller_owned@ == old(self).caller_owned@,
            final(self).block_entries@ == old(self).block_entries@,
            final(self).active_block == old(self).active_block,
            final(self).return_place == old(self).return_place,
            final(self).proc_id == old(self).proc_id,
    {
        let _q = self.emit_chain_step(net, TransKind::Stmt);
    }

    /// The place at which a nested call's subnet starts: emits the
    /// call-site transition, parks the cursor at its fresh output place and
    /// hands that place to the callee.
    pub fn call_site_start_place(&mut self, net: &mut NetBuilder) -> (q: usize)
        requires
            old(self).wf(*old(net)),
            old(net).wf(),
        ensures
            final(self).wf(*final(net)),
            builds_on(*old(net), *final(net)),
            q == old(net).n_places(),
            final(net).kinds@ == old(net).kinds@.push(PlaceKind::Chain),
            final(net).marking@ == old(net).marking@.push(0),
            final(net).tkinds@ == old(net).tkinds@.push(TransKind::Jump),
            final(net).pt@ == old(net).pt@.push((old(self).cursor, (old(net).n_trans() as usize))),
            final(net).tp@ == old(net).tp@.push(((old(net).n_trans() as usize), q)),
            final(self).cursor == q,
            final(net).is_ctrl_place(q),
            final(self).locals@ == old(self).locals@,
            final(self).caller_owned@ == old(self).caller_owned@,
            final(self).block_entries@ == old(self).block_entries@,
            final(self).active_block == old(self).active_block,
            final(self).return_place == old(self).return_place,
            final(self).proc_id == old(self).proc_id,
    {
        self.emit_chain_step(net, TransKind::Jump)
    }

    /// Makes `b` the active block; the cursor becomes its entry place.
    pub fn activate_block(&mut self, b: usize) -> (r: Result<(), TranslationError>)
        ensures
            r.is_ok() <==> b < old(self).block_entries@.len(),
            r.is_err() ==> *final(self) == *old(self) && r == Err::<(), TranslationError>(
                TranslationError::UnknownBlock,
            ),
            r.is_ok() ==> final(self).active_block == b && final(self).cursor == old(self).block_entries@[b as int],
            r.is_ok() ==> final(self).locals@ == old(self).locals@ && final(self).caller_owned@
                == old(self).caller_owned@ && final(self).block_entries@ == old(self).block_entries@ && final(self).return_place == old(self).return_place && final(self).proc_id == old(self).proc_id,
    {
        if b >= self.block_entries.len() {
            return Err(TranslationError::UnknownBlock);
        }
        self.active_block = b;
        self.cursor = self.block_entries[b];
        Ok(())
    }

    /// Emits the jump transition of a goto: cursor -> t -> the target
    /// block's entry place.
    pub fn goto(&mut self, net: &mut NetBuilder, target: usize) -> (r: Result<(
        ),
        TranslationError,
    >)
        requires
            old(self).wf(*old(net)),
            old(net).wf(),
        ensures
            r.is_ok() <==> target < old(self).block_entries@.len(),
            r.is_err() ==> *final(net) == *old(net) && *final(self) == *old(self) && r == Err::<(
                ),
                TranslationError,
            >(TranslationError::UnknownBlock),
            r.is_ok() ==> {
                &&& final(self).wf(*final(net))
                &&& builds_on(*old(net), *final(net))
                &&& final(net).kinds@ == old(net).kinds@
                &&& final(net).marking@ == old(net).marking@
                &&& final(net).tkinds@ == old(net).tkinds@.push(TransKind::Jump)
                &&& final(net).pt@ == old(net).pt@.push(
                    (old(self).cursor, (old(net).n_trans() as usize)),
                )
                &&& final(net).tp@ == old(net).tp@.push(
                    ((old(net).n_trans() as usize), old(self).block_entries@[target as int]),
                )
                &&& *final(self) == *old(self)
            },
    {
        if target >= self.block_entries.len() {
            return Err(TranslationError::UnknownBlock);
        }
        let ghost net0 = *old(net);
        let e = self.block_entries[target];
        let t = net.add_ctrl_transition(TransKind::Jump, self.cursor, Some(e));
        proof {
            lemma_prefix_push(net0.tkinds@, TransKind::Jump);
            lemma_prefix_push(net0.pt@, (self.cursor, t));
            lemma_prefix_push(net0.tp@, (t, e));
            lemma_builds_on_after_arcs(net0, *net);
            lemma_frame_wf_extended(*old(self), net0, *net);
        }
        Ok(())
    }

    /// Emits the single opaque transition of a skipped, foreign or
    /// recursive (summarized) call: the control token moves from the call
    /// site to the continuation block's entry place, or into a fresh dead
    /// sink when the continuation is unreachable. Nothing of the callee is
    /// read, so the result does not depend on the callee's body.
    pub fn skip_call(&mut self, net: &mut NetBuilder, dest_block: Option<usize>) -> (r: Result<
        (),
        TranslationError,
    >)
        requires
            old(self).wf(*old(net)),
            old(net).wf(),
        ensures
            r.is_ok() <==> match dest_block {
                Some(b) => b < old(self).block_entries@.len(),
                None => true,
            },
            r.is_err() ==> *final(net) == *old(net) && *final(self) == *old(self) && r == Err::<(
                ),
                TranslationError,
            >(TranslationError::UnknownBlock),
            r.is_ok() ==> {
                &&& final(self).wf(*final(net))
                &&& builds_on(*old(net), *final(net))
                &&& final(net).tkinds@ == old(net).tkinds@.push(TransKind::Jump)
                &&& final(self).locals@ == old(self).locals@
                &&& final(self).caller_owned@ == old(self).caller_owned@
                &&& final(self).block_entries@ == old(self).block_entries@
                &&& final(self).return_place == old(self).return_place
                &&& final(self).proc_id == old(self).proc_id
            },
            r.is_ok() ==> match dest_block {
                Some(b) => {
                    &&& final(net).kinds@ == old(net).kinds@
                    &&& final(net).marking@ == old(net).marking@
                    &&& final(net).pt@ == old(net).pt@.push(
                        (old(self).cursor, (old(net).n_trans() as usize)),
                    )
                    &&& final(net).tp@ == old(net).tp@.push(
                        ((old(net).n_trans() as usize), old(self).block_entries@[b as int]),
                    )
                    &&& final(self).cursor == old(self).block_entries@[b as int]
                },
                None => {
                    &&& final(net).kinds@ == old(net).kinds@.push(PlaceKind::Chain)
                    &&& final(net).marking@ == old(net).marking@.push(0)
                    &&& final(net).pt@ == old(net).pt@.push(
                        (old(self).cursor, (old(net).n_trans() as usize)),
                    )
                    &&& final(net).tp@ == old(net).tp@.push(
                        ((old(net).n_trans() as usize), (old(net).n_places() as usize)),
                    )
                    &&& final(self).cursor == old(net).n_places()
                },
            },
    {
        match dest_block {
            Some(b) => {
                if b >= self.block_entries.len() {
                    return Err(TranslationError::UnknownBlock);
                }
                let ghost net0 = *old(net);
                let e = self.block_entries[b];
                let t = net.add_ctrl_transition(TransKind::Jump, self.cursor, Some(e));
                self.cursor = e;
                proof {
                    lemma_prefix_push(net0.tkinds@, TransKind::Jump);
                    lemma_prefix_push(net0.pt@, (old(self).cursor, t));
                    lemma_prefix_push(net0.tp@, (t, e));
                    lemma_builds_on_after_arcs(net0, *net);
                    lemma_frame_wf_extended(*old(self), net0, *net);
                    assert(self.wf(*net));
                }
                Ok(())
            },
            None => {
                let _q = self.emit_chain_step(net, TransKind::Jump);
                Ok(())
            },
        }
    }

    /// Emits the return transition: the control token leaves the cursor
    /// and, when the frame has a return place, is deposited there — a frame
    /// without one terminates the computation, its transition having no
    /// outgoing control arc. The storage of every local the frame owns
    /// itself, other than the return local, is released: live -> t -> dead
    /// arcs model the drop of in-scope locals on return. Locals bound to
    /// the caller are excluded, since the caller still owns them.
    ///
    /// The last clause is the return wiring law: the return transition's
    /// outgoing control arcs are exactly the return place, and none when
    /// the frame has no return place.
    #[verifier::rlimit(60)]
    pub fn retorn(&self, net: &mut NetBuilder)
        requires
            self.wf(*old(net)),
            old(net).wf(),
        ensures
            self.wf(*final(net)),
            builds_on(*old(net), *final(net)),
            final(net).kinds@ == old(net).kinds@,
            final(net).marking@ == old(net).marking@,
            final(net).tkinds@ == old(net).tkinds@.push(TransKind::Jump),
            forall|p: usize, t2: usize| #[trigger] final(net).has_pt(p, t2) <==> (old(net).has_pt(
                p,
                t2,
            ) || (t2 == old(net).n_trans() && (p == self.cursor || self.releases_live(p)))),
            forall|t2: usize, p: usize| #[trigger] final(net).has_tp(t2, p) <==> (old(net).has_tp(
                t2,
                p,
            ) || (t2 == old(net).n_trans() && (Some(p) == self.return_place
                || self.releases_dead(p)))),
            forall|p: usize|
                (final(net).has_tp((old(net).n_trans() as usize), p) && final(net).is_ctrl_place(
                    p,
                )) <==> Some(p) == self.return_place,
    {
        let ghost net0 = *old(net);
        let t = net.add_ctrl_transition(TransKind::Jump, self.cursor, self.return_place);
        proof {
            lemma_fresh_trans_no_arcs(net0, t);
            lemma_has_pt_after_push(net0, *net, self.cursor, t);
            if let Some(rp) = self.return_place {
                lemma_has_tp_after_push(net0, *net, t, rp);
            }
            lemma_prefix_push(net0.tkinds@, TransKind::Jump);
            lemma_prefix_push(net0.pt@, (self.cursor, t));
            if let Some(rp) = self.return_place {
                lemma_prefix_push(net0.tp@, (t, rp));
            } else {
                crate::net::lemma_prefix_refl(net0.tp@);
            }
        }
        let n_locals = self.locals.len();
        let mut l: usize = 1;
        while l < n_locals
            invariant
                self.wf(net0),
                net0.wf(),
                net.wf(),
                n_locals == self.locals@.len(),
                1 <= l,
                l <= n_locals || n_locals == 0,
                t == net0.n_trans(),
                net.kinds@ == net0.kinds@,
                net.marking@ == net0.marking@,
                net.tkinds@ == net0.tkinds@.push(TransKind::Jump),
                net0.pt@.is_prefix_of(net.pt@),
                net0.tp@.is_prefix_of(net.tp@),
                forall|p: usize, t2: usize| #[trigger] net.has_pt(p, t2) <==> (net0.has_pt(p, t2)
                    || (t2 == t && (p == self.cursor || self.releases_live_upto(p, l as int)))),
                forall|t2: usize, p: usize| #[trigger] net.has_tp(t2, p) <==> (net0.has_tp(t2, p)
                    || (t2 == t && (Some(p) == self.return_place || self.releases_dead_upto(
                        p,
                        l as int,
                    )))),
            decreases n_locals - l,
        {
            let ghost pre = *net;
            if !self.caller_owned[l] {
                let (live, dead) = self.locals[l];
                proof {
                    lemma_fresh_trans_no_arcs(net0, t);
                    assert(net.is_pair(live, dead));
                    assert(!net0.has_pt(live, t));
                    assert(live != self.cursor) by {
                        assert(net0.is_ctrl_place(self.cursor));
                        assert(net0.is_pair(live, dead));
                    }
                    assert(!self.releases_live_upto(live, l as int)) by {
                        if self.releases_live_upto(live, l as int) {
                            let j = choose|j: int|
                                1 <= j < l && j < self.locals@.len() && !self.caller_owned@[j] && (
                                #[trigger] self.locals@[j]).0 == live;
                            assert(self.locals@[j].0 != self.locals@[l as int].0);
                        }
                    }
                    assert(!net.has_pt(live, t));
                    assert(!net0.has_tp(t, dead));
                    assert(Some(dead) != self.return_place) by {
                        if let Some(rp) = self.return_place {
                            assert(net0.is_ctrl_place(rp));
                            assert(net0.kinds@[dead as int] == (PlaceKind::Dead { live }));
                        }
                    }
                    assert(!self.releases_dead_upto(dead, l as int)) by {
                        if self.releases_dead_upto(dead, l as int) {
                            let j = choose|j: int|
                                1 <= j < l && j < self.locals@.len() && !self.caller_owned@[j] && (
                                #[trigger] self.locals@[j]).1 == dead;
                            assert(net.is_pair(self.locals@[j].0, self.locals@[j].1));
                            assert(net.kinds@[dead as int] == (PlaceKind::Dead {
                                live: self.locals@[j].0,
                            }));
                            assert(net.kinds@[dead as int] == (PlaceKind::Dead { live }));
                            assert(self.locals@[j].0 == live);
                            assert(self.locals@[j].0 != self.locals@[l as int].0);
                        }
                    }
                    assert(!net.has_tp(t, dead));
                }
                net.add_release_arcs(t, live, dead);
                proof {
                    lemma_has_pt_after_push(pre, *net, live, t);
                    lemma_has_tp_after_push(pre, *net, t, dead);
                    crate::net::lemma_prefix_push_trans(net0.pt@, pre.pt@, (live, t));
                    crate::net::lemma_prefix_push_trans(net0.tp@, pre.tp@, (t, dead));
                    assert forall|p: usize, t2: usize| #[trigger] net.has_pt(p, t2) implies (
                    net0.has_pt(p, t2) || (t2 == t && (p == self.cursor
                        || self.releases_live_upto(p, l + 1)))) by {
                        if !pre.has_pt(p, t2) {
                            assert(p == live && t2 == t);
                            assert(1 <= l < self.locals@.len() && !self.caller_owned@[l as int]
                                && self.locals@[l as int].0 == p);
                        }
                    }
                    assert forall|p: usize, t2: usize| (net0.has_pt(p, t2) || (t2 == t && (p
                        == self.cursor || self.releases_live_upto(p, l + 1)))) implies #[trigger] net.has_pt(
                        p,
                        t2,
                    ) by {
                        if t2 == t && self.releases_live_upto(p, l + 1) && !self.releases_live_upto(
                            p,
                            l as int,
                        ) {
                            let j = choose|j: int|
                                1 <= j < l + 1 && j < self.locals@.len()
                                    && !self.caller_owned@[j] && (#[trigger] self.locals@[j]).0
                                    == p;
                            assert(j == l);
                            assert(p == live);
                        }
                    }
                    assert forall|t2: usize, p: usize| #[trigger] net.has_tp(t2, p) implies (
                    net0.has_tp(t2, p) || (t2 == t && (Some(p) == self.return_place
                        || self.releases_dead_upto(p, l + 1)))) by {
                        if !pre.has_tp(t2, p) {
                            assert(p == dead && t2 == t);
                            assert(1 <= l < self.locals@.len() && !self.caller_owned@[l as int]
                                && self.locals@[l as int].1 == p);
                        }
                    }
                    assert forall|t2: usize, p: usize| (net0.has_tp(t2, p) || (t2 == t && (Some(p)
                        == self.return_place || self.releases_dead_upto(p, l + 1)))) implies #[trigger] net.has_tp(
                        t2,
                        p,
                    ) by {
                        if t2 == t && self.releases_dead_upto(p, l + 1) && !self.releases_dead_upto(
                            p,
                            l as int,
                        ) {
                            let j = choose|j: int|
                                1 <= j < l + 1 && j < self.locals@.len()
                                    && !self.caller_owned@[j] && (#[trigger] self.locals@[j]).1
                                    == p;
                            assert(j == l);
                            assert(p == dead);
                        }
                    }
                }
            } else {
                proof {
                    assert forall|p: usize| self.releases_live_upto(p, l + 1)
                        == self.releases_live_upto(p, l as int) by {
                        if self.releases_live_upto(p, l + 1) && !self.releases_live_upto(
                            p,
                            l as int,
                        ) {
                            let j = choose|j: int|
                                1 <= j < l + 1 && j < self.locals@.len()
                                    && !self.caller_owned@[j] && (#[trigger] self.locals@[j]).0
                                    == p;
                            assert(j == l);
                        }
                        if self.releases_live_upto(p, l as int) {
                            let j = choose|j: int|
                                1 <= j < l && j < self.locals@.len() && !self.caller_owned@[j] && (
                                #[trigger] self.locals@[j]).0 == p;
                            assert(1 <= j < l + 1 && j < self.locals@.len()
                                && !self.caller_owned@[j] && self.locals@[j].0 == p);
                        }
                    }
                    assert forall|p: usize| self.releases_dead_upto(p, l + 1)
                        == self.releases_dead_upto(p, l as int) by {
                        if self.releases_dead_upto(p, l + 1) && !self.releases_dead_upto(
                            p,
                            l as int,
                        ) {
                            let j = choose|j: int|
                                1 <= j < l + 1 && j < self.locals@.len()
                                    && !self.caller_owned@[j] && (#[trigger] self.locals@[j]).1
                                    == p;
                            assert(j == l);
                        }
                        if self.releases_dead_upto(p, l as int) {
                            let j = choose|j: int|
                                1 <= j < l && j < self.locals@.len() && !self.caller_owned@[j] && (
                                #[trigger] self.locals@[j]).1 == p;
                            assert(1 <= j < l + 1 && j < self.locals@.len()
                                && !self.caller_owned@[j] && self.locals@[j].1 == p);
                        }
                    }
                }
            }
            l += 1;
        }
        proof {
            assert forall|p: usize| self.releases_live_upto(p, n_locals as int)
                == self.releases_live(p) by {}
            assert forall|p: usize| self.releases_dead_upto(p, n_locals as int)
                == self.releases_dead(p) by {}
            lemma_builds_on_after_arcs(net0, *net);
            lemma_frame_wf_extended(*self, net0, *net);
            assert forall|p: usize|
                (net.has_tp(t, p) && net.is_ctrl_place(p)) <==> Some(p)
                    == self.return_place by {
                if net.has_tp(t, p) && net.is_ctrl_place(p) && Some(p) != self.return_place {
                    assert(self.releases_dead(p));
                    let j = choose|j: int|
                        1 <= j < self.locals@.len() && !self.caller_owned@[j] && (
                        #[trigger] self.locals@[j]).1 == p;
                    assert(net0.is_pair(self.locals@[j].0, self.locals@[j].1));
                    assert(net0.kinds@[p as int] == (PlaceKind::Dead {
                        live: self.locals@[j].0,
                    }));
                }
                if Some(p) == self.return_place {
                    assert(net.has_tp(t, p));
                    assert(net0.is_ctrl_place(p));
                }
            }
        }
    }

    /// Emits a sink transition: the control token is consumed at the
    /// cursor and nowhere deposited (resumption or abort of unwinding,
    /// which this model does not follow further).
    pub fn sink(&self, net: &mut NetBuilder)
        requires
            self.wf(*old(net)),
            old(net).wf(),
        ensures
            self.wf(*final(net)),
            builds_on(*old(net), *final(net)),
            final(net).kinds@ == old(net).kinds@,
            final(net).marking@ == old(net).marking@,
            final(net).tkinds@ == old(net).tkinds@.push(TransKind::Jump),
            final(net).pt@ == old(net).pt@.push((self.cursor, (old(net).n_trans() as usize))),
            final(net).tp@ == old(net).tp@,
    {
        let ghost net0 = *old(net);
        let t = net.add_ctrl_transition(TransKind::Jump, self.cursor, None);
        proof {
            lemma_prefix_push(net0.tkinds@, TransKind::Jump);
            lemma_prefix_push(net0.pt@, (self.cursor, t));
            crate::net::lemma_prefix_refl(net0.tp@);
            lemma_builds_on_after_arcs(net0, *net);
            lemma_frame_wf_extended(*self, net0, *net);
        }
    }

    /// Emits the drop transition of one local: its token moves live ->
    /// dead. No control arcs are involved.
    pub fn drop_local(&mut self, net: &mut NetBuilder, l: usize) -> (r: Result<(
        ),
        TranslationError,
    >)
        requires
            old(self).wf(*old(net)),
            old(net).wf(),
        ensures
            r.is_ok() <==> l < old(self).locals@.len(),
            r.is_err() ==> *final(net) == *old(net) && *final(self) == *old(self) && r == Err::<(
                ),
                TranslationError,
            >(TranslationError::MalformedIr),
            r.is_ok() ==> {
                &&& final(self).wf(*final(net))
                &&& builds_on(*old(net), *final(net))
                &&& final(net).kinds@ == old(net).kinds@
                &&& final(net).marking@ == old(net).marking@
                &&& final(net).tkinds@ == old(net).tkinds@.push(TransKind::Stmt)
                &&& final(net).pt@ == old(net).pt@.push(
                    ((old(self).locals@[l as int].0), (old(net).n_trans() as usize)),
                )
                &&& final(net).tp@ == old(net).tp@.push(
                    ((old(net).n_trans() as usize), (old(self).locals@[l as int].1)),
                )
                &&& *final(self) == *old(self)
            },
    {
        if l >= self.locals.len() {
            return Err(TranslationError::MalformedIr);
        }
        let ghost net0 = *old(net);
        let (live, dead) = self.locals[l];
        let t = net.add_pair_transition(TransKind::Stmt, live, dead);
        proof {
            lemma_prefix_push(net0.tkinds@, TransKind::Stmt);
            lemma_prefix_push(net0.pt@, (live, t));
            lemma_prefix_push(net0.tp@, (t, dead));
            lemma_builds_on_after_arcs(net0, *net);
            lemma_frame_wf_extended(*old(self), net0, *net);
        }
        Ok(())
    }

    /// Emits the write transition of one local (a replacement value being
    /// stored): its token moves dead -> live.
    pub fn write_local(&mut self, net: &mut NetBuilder, l: usize) -> (r: Result<(
        ),
        TranslationError,
    >)
        requires
            old(self).wf(*old(net)),
            old(net).wf(),
        ensures
            r.is_ok() <==> l < old(self).locals@.len(),
            r.is_err() ==> *final(net) == *old(net) && *final(self) == *old(self) && r == Err::<(
                ),
                TranslationError,
            >(TranslationError::MalformedIr),
            r.is_ok() ==> {
                &&& final(self).wf(*final(net))
                &&& builds_on(*old(net), *final(net))
                &&& final(net).kinds@ == old(net).kinds@
                &&& final(net).marking@ == old(net).marking@
                &&& final(net).tkinds@ == old(net).tkinds@.push(TransKind::Stmt)
                &&& final(net).pt@ == old(net).pt@.push(
                    ((old(self).locals@[l as int].1), (old(net).n_trans() as usize)),
                )
                &&& final(net).tp@ == old(net).tp@.push(
                    ((old(net).n_trans() as usize), (old(self).locals@[l as int].0)),
                )
                &&& *final(self) == *old(self)
            },
    {
        if l >= self.locals.len() {
            return Err(TranslationError::MalformedIr);
        }
        let ghost net0 = *old(net);
        let (live, dead) = self.locals[l];
        let t = net.add_pair_transition(TransKind::Stmt, dead, live);
        proof {
            lemma_prefix_push(net0.tkinds@, TransKind::Stmt);
            lemma_prefix_push(net0.pt@, (dead, t));
            lemma_prefix_push(net0.tp@, (t, live));
            lemma_builds_on_after_arcs(net0, *net);
            lemma_frame_wf_extended(*old(self), net0, *net);
        }
        Ok(())
    }
}

} // verus!
