use vstd::prelude::*;
use crate::errors::TranslationError;

verus! {

/// A transition index at or past the end has no arcs.
pub proof fn lemma_fresh_trans_no_arcs(n: NetBuilder, t: usize)
    requires
        forall|i: int| 0 <= i < n.pt@.len() ==> (#[trigger] n.pt@[i]).1 < n.n_trans(),
        forall|i: int| 0 <= i < n.tp@.len() ==> (#[trigger] n.tp@[i]).0 < n.n_trans(),
        t >= n.n_trans(),
    ensures
        forall|p: usize| !n.has_pt(p, t),
        forall|p: usize| !n.has_tp(t, p),
{
    assert forall|p: usize| !n.has_pt(p, t) by {
        if n.pt@.contains((p, t)) {
            let i = choose|i: int| 0 <= i < n.pt@.len() && n.pt@[i] == (p, t);
            assert(n.pt@[i].1 < n.n_trans());
        }
    }
    assert forall|p: usize| !n.has_tp(t, p) by {
        if n.tp@.contains((t, p)) {
            let i = choose|i: int| 0 <= i < n.tp@.len() && n.tp@[i] == (t, p);
            assert(n.tp@[i].0 < n.n_trans());
        }
    }
}

/// After pushing one place-to-transition arc, the arc relation grows by
/// exactly that arc.
pub proof fn lemma_has_pt_after_push(pre: NetBuilder, post: NetBuilder, a: usize, b: usize)
    requires
        post.pt@ == pre.pt@.push((a, b)),
    ensures
        forall|p: usize, t: usize| #[trigger] post.has_pt(p, t) <==> (pre.has_pt(p, t) || (p == a
            && t == b)),
{
    assert forall|p: usize, t: usize| #[trigger] post.has_pt(p, t) <==> (pre.has_pt(p, t) || (p
        == a && t == b)) by {
        lemma_contains_push(pre.pt@, (a, b), (p, t));
    }
}

/// After pushing one transition-to-place arc, the arc relation grows by
/// exactly that arc.
pub proof fn lemma_has_tp_after_push(pre: NetBuilder, post: NetBuilder, a: usize, b: usize)
    requires
        post.tp@ == pre.tp@.push((a, b)),
    ensures
        forall|t: usize, p: usize| #[trigger] post.has_tp(t, p) <==> (pre.has_tp(t, p) || (t == a
            && p == b)),
{
    assert forall|t: usize, p: usize| #[trigger] post.has_tp(t, p) <==> (pre.has_tp(t, p) || (t
        == a && p == b)) by {
        lemma_contains_push(pre.tp@, (a, b), (t, p));
    }
}

/// The net discipline is kept by adding one fresh transition together with
/// one incoming control arc and at most one outgoing control arc.
pub proof fn lemma_wf_after_ctrl_transition(
    pre: NetBuilder,
    post: NetBuilder,
    kind: TransKind,
    cin: usize,
    cout: Option<usize>,
    t: usize,
)
    requires
        pre.wf(),
        pre.is_ctrl_place(cin),
        match cout {
            Some(co) => pre.is_ctrl_place(co) && (pre.kinds@[co as int] == PlaceKind::Entry
                ==> kind == TransKind::Jump),
            None => true,
        },
        t == pre.n_trans(),
        post.kinds@ == pre.kinds@,
        post.marking@ == pre.marking@,
        post.tkinds@ == pre.tkinds@.push(kind),
        post.pt@ == pre.pt@.push((cin, t)),
        post.tp@ == (match cout {
            Some(co) => pre.tp@.push((t, co)),
            None => pre.tp@,
        }),
    ensures
        post.wf(),
{
    lemma_fresh_trans_no_arcs(pre, t);
    lemma_has_pt_after_push(pre, post, cin, t);
    if let Some(co) = cout {
        lemma_has_tp_after_push(pre, post, t, co);
    }
    assert forall|p1: usize, p2: usize, t2: usize|
        post.has_pt(p1, t2) && post.has_pt(p2, t2) && post.is_ctrl_place(p1)
            && post.is_ctrl_place(p2) implies p1 == p2 by {
        if t2 == t {
            assert(p1 == cin && p2 == cin);
        } else {
            assert(pre.has_pt(p1, t2) && pre.has_pt(p2, t2));
            assert(pre.is_ctrl_place(p1) && pre.is_ctrl_place(p2));
        }
    }
    assert forall|p1: usize, p2: usize, t2: usize|
        post.has_tp(t2, p1) && post.has_tp(t2, p2) && post.is_ctrl_place(p1)
            && post.is_ctrl_place(p2) implies p1 == p2 by {
        if t2 != t {
            assert(pre.has_tp(t2, p1) && pre.has_tp(t2, p2));
            assert(pre.is_ctrl_place(p1) && pre.is_ctrl_place(p2));
        }
    }
    assert forall|t2: usize, p: usize| post.has_tp(t2, p) && post.is_ctrl_place(p) implies exists|
        q: usize,
    | post.has_pt(q, t2) && post.is_ctrl_place(q) by {
        if t2 == t {
            assert(post.has_pt(cin, t2) && post.is_ctrl_place(cin));
        } else {
            assert(pre.has_tp(t2, p));
            let q = choose|q: usize| pre.has_pt(q, t2) && pre.is_ctrl_place(q);
            assert(post.has_pt(q, t2) && post.is_ctrl_place(q));
        }
    }
    assert forall|t2: usize, l: usize, d: usize| t2 < post.n_trans() && post.is_pair(l, d) implies
        (post.has_pt(l, t2) <==> post.has_tp(t2, d)) by {
        assert(post.kinds@[d as int] == (PlaceKind::Dead { live: l }));
        if t2 == t {
            assert(!post.has_pt(l, t2));
            assert(!post.has_tp(t2, d));
        } else {
            assert(t2 < pre.n_trans() && pre.is_pair(l, d));
        }
    }
    assert forall|t2: usize, l: usize, d: usize| t2 < post.n_trans() && post.is_pair(l, d) implies
        (post.has_pt(d, t2) <==> post.has_tp(t2, l)) by {
        assert(post.kinds@[d as int] == (PlaceKind::Dead { live: l }));
        if t2 == t {
            assert(!post.has_pt(d, t2));
            assert(!post.has_tp(t2, l));
        } else {
            assert(t2 < pre.n_trans() && pre.is_pair(l, d));
        }
    }
    assert forall|t2: usize, p: usize|
        post.has_tp(t2, p) && p < post.n_places() && post.kinds@[p as int] == PlaceKind::Entry
            implies t2 < post.n_trans() && post.tkinds@[t2 as int] == TransKind::Jump by {
        if t2 != t {
            assert(pre.has_tp(t2, p));
            assert(pre.tkinds@[t2 as int] == TransKind::Jump);
        }
    }
}

/// The net discipline is kept by adding one fresh transition that moves a
/// token between the two halves of one local pair.
pub proof fn lemma_wf_after_pair_transition(
    pre: NetBuilder,
    post: NetBuilder,
    kind: TransKind,
    consume: usize,
    produce: usize,
    t: usize,
)
    requires
        pre.wf(),
        pre.is_pair(consume, produce) || pre.is_pair(produce, consume),
        t == pre.n_trans(),
        post.kinds@ == pre.kinds@,
        post.marking@ == pre.marking@,
        post.tkinds@ == pre.tkinds@.push(kind),
        post.pt@ == pre.pt@.push((consume, t)),
        post.tp@ == pre.tp@.push((t, produce)),
    ensures
        post.wf(),
{
    lemma_fresh_trans_no_arcs(pre, t);
    lemma_has_pt_after_push(pre, post, consume, t);
    lemma_has_tp_after_push(pre, post, t, produce);
    assert forall|p1: usize, p2: usize, t2: usize|
        post.has_pt(p1, t2) && post.has_pt(p2, t2) && post.is_ctrl_place(p1)
            && post.is_ctrl_place(p2) implies p1 == p2 by {
        if t2 == t {
            assert(false);
        } else {
            assert(pre.has_pt(p1, t2) && pre.has_pt(p2, t2));
            assert(pre.is_ctrl_place(p1) && pre.is_ctrl_place(p2));
        }
    }
    assert forall|p1: usize, p2: usize, t2: usize|
        post.has_tp(t2, p1) && post.has_tp(t2, p2) && post.is_ctrl_place(p1)
            && post.is_ctrl_place(p2) implies p1 == p2 by {
        if t2 == t {
            assert(false);
        } else {
            assert(pre.has_tp(t2, p1) && pre.has_tp(t2, p2));
            assert(pre.is_ctrl_place(p1) && pre.is_ctrl_place(p2));
        }
    }
    assert forall|t2: usize, p: usize| post.has_tp(t2, p) && post.is_ctrl_place(p) implies exists|
        q: usize,
    | post.has_pt(q, t2) && post.is_ctrl_place(q) by {
        if t2 == t {
            assert(false);
        } else {
            assert(pre.has_tp(t2, p));
            let q = choose|q: usize| pre.has_pt(q, t2) && pre.is_ctrl_place(q);
            assert(post.has_pt(q, t2) && post.is_ctrl_place(q));
        }
    }
    assert forall|t2: usize, l: usize, d: usize| t2 < post.n_trans() && post.is_pair(l, d) implies
        (post.has_pt(l, t2) <==> post.has_tp(t2, d)) by {
        assert(post.kinds@[d as int] == (PlaceKind::Dead { live: l }));
        if pre.is_pair(consume, produce) {
            assert(pre.kinds@[produce as int] == (PlaceKind::Dead { live: consume }));
        } else {
            assert(pre.kinds@[consume as int] == (PlaceKind::Dead { live: produce }));
        }
        if t2 != t {
            assert(t2 < pre.n_trans() && pre.is_pair(l, d));
        }
    }
    assert forall|t2: usize, l: usize, d: usize| t2 < post.n_trans() && post.is_pair(l, d) implies
        (post.has_pt(d, t2) <==> post.has_tp(t2, l)) by {
        assert(post.kinds@[d as int] == (PlaceKind::Dead { live: l }));
        if pre.is_pair(consume, produce) {
            assert(pre.kinds@[produce as int] == (PlaceKind::Dead { live: consume }));
        } else {
            assert(pre.kinds@[consume as int] == (PlaceKind::Dead { live: produce }));
        }
        if t2 != t {
            assert(t2 < pre.n_trans() && pre.is_pair(l, d));
        }
    }
    assert forall|t2: usize, p: usize|
        post.has_tp(t2, p) && p < post.n_places() && post.kinds@[p as int] == PlaceKind::Entry
            implies t2 < post.n_trans() && post.tkinds@[t2 as int] == TransKind::Jump by {
        if t2 == t {
            assert(false);
        } else {
            assert(pre.has_tp(t2, p));
            assert(pre.tkinds@[t2 as int] == TransKind::Jump);
        }
    }
}

/// The net discipline is kept by adding the release arcs of one pair to an
/// existing transition that had none for that pair.
pub proof fn lemma_wf_after_release_arcs(
    pre: NetBuilder,
    post: NetBuilder,
    t: usize,
    l: usize,
    d: usize,
)
    requires
        pre.wf(),
        t < pre.n_trans(),
        pre.is_pair(l, d),
        !pre.has_pt(l, t),
        !pre.has_tp(t, d),
        post.kinds@ == pre.kinds@,
        post.marking@ == pre.marking@,
        post.tkinds@ == pre.tkinds@,
        post.pt@ == pre.pt@.push((l, t)),
        post.tp@ == pre.tp@.push((t, d)),
    ensures
        post.wf(),
{
    lemma_has_pt_after_push(pre, post, l, t);
    lemma_has_tp_after_push(pre, post, t, d);
    assert(pre.kinds@[d as int] == (PlaceKind::Dead { live: l }));
    assert forall|p1: usize, p2: usize, t2: usize|
        post.has_pt(p1, t2) && post.has_pt(p2, t2) && post.is_ctrl_place(p1)
            && post.is_ctrl_place(p2) implies p1 == p2 by {
        assert(pre.has_pt(p1, t2) && pre.has_pt(p2, t2));
        assert(pre.is_ctrl_place(p1) && pre.is_ctrl_place(p2));
    }
    assert forall|p1: usize, p2: usize, t2: usize|
        post.has_tp(t2, p1) && post.has_tp(t2, p2) && post.is_ctrl_place(p1)
            && post.is_ctrl_place(p2) implies p1 == p2 by {
        assert(pre.has_tp(t2, p1) && pre.has_tp(t2, p2));
        assert(pre.is_ctrl_place(p1) && pre.is_ctrl_place(p2));
    }
    assert forall|t2: usize, p: usize| post.has_tp(t2, p) && post.is_ctrl_place(p) implies exists|
        q: usize,
    | post.has_pt(q, t2) && post.is_ctrl_place(q) by {
        assert(pre.has_tp(t2, p));
        let q = choose|q: usize| pre.has_pt(q, t2) && pre.is_ctrl_place(q);
        assert(post.has_pt(q, t2) && post.is_ctrl_place(q));
    }
    assert forall|t2: usize, l2: usize, d2: usize| t2 < post.n_trans() && post.is_pair(l2, d2)
        implies (post.has_pt(l2, t2) <==> post.has_tp(t2, d2)) by {
        assert(post.kinds@[d2 as int] == (PlaceKind::Dead { live: l2 }));
        if l2 == l {
            assert(d2 == d);
        }
        if d2 == d {
            assert(l2 == l);
        }
    }
    assert forall|t2: usize, l2: usize, d2: usize| t2 < post.n_trans() && post.is_pair(l2, d2)
        implies (post.has_pt(d2, t2) <==> post.has_tp(t2, l2)) by {
        assert(post.kinds@[d2 as int] == (PlaceKind::Dead { live: l2 }));
        assert(post.kinds@[l as int] == (PlaceKind::Live { dead: d }));
        assert(d2 != l);
        assert(l2 != d);
    }
    assert forall|t2: usize, p: usize|
        post.has_tp(t2, p) && p < post.n_places() && post.kinds@[p as int] == PlaceKind::Entry
            implies t2 < post.n_trans() && post.tkinds@[t2 as int] == TransKind::Jump by {
        assert(pre.has_tp(t2, p));
    }
}

/// A place index at or past the end has no arcs.
pub proof fn lemma_fresh_place_no_arcs(n: NetBuilder, p: usize)
    requires
        forall|i: int| 0 <= i < n.pt@.len() ==> (#[trigger] n.pt@[i]).0 < n.n_places(),
        forall|i: int| 0 <= i < n.tp@.len() ==> (#[trigger] n.tp@[i]).1 < n.n_places(),
        p >= n.n_places(),
    ensures
        forall|t: usize| !n.has_pt(p, t),
        forall|t: usize| !n.has_tp(t, p),
{
    assert forall|t: usize| !n.has_pt(p, t) by {
        if n.pt@.contains((p, t)) {
            let i = choose|i: int| 0 <= i < n.pt@.len() && n.pt@[i] == (p, t);
            assert(n.pt@[i].0 < n.n_places());
        }
    }
    assert forall|t: usize| !n.has_tp(t, p) by {
        if n.tp@.contains((t, p)) {
            let i = choose|i: int| 0 <= i < n.tp@.len() && n.tp@[i] == (t, p);
            assert(n.tp@[i].1 < n.n_places());
        }
    }
}

/// The net discipline is kept by adding places, as long as the new places'
/// pair pointers are mutual and stay among the new places.
pub proof fn lemma_wf_after_new_places(pre: NetBuilder, post: NetBuilder)
    requires
        pre.wf(),
        post.wf_basic(),
        pre.kinds@.is_prefix_of(post.kinds@),
        post.tkinds@ == pre.tkinds@,
        post.pt@ == pre.pt@,
        post.tp@ == pre.tp@,
    ensures
        post.wf(),
{
    assert forall|i: int| 0 <= i < pre.kinds@.len() implies post.kinds@[i] == pre.kinds@[i] by {
        assert(pre.kinds@[i] == post.kinds@.subrange(0, pre.kinds@.len() as int)[i]);
    }
    assert forall|p: usize, t: usize| #[trigger] post.has_pt(p, t) implies p < pre.n_places()
        && pre.has_pt(p, t) by {
        let i = choose|i: int| 0 <= i < post.pt@.len() && post.pt@[i] == (p, t);
        assert(pre.pt@[i].0 < pre.n_places());
    }
    assert forall|t: usize, p: usize| #[trigger] post.has_tp(t, p) implies p < pre.n_places()
        && pre.has_tp(t, p) by {
        let i = choose|i: int| 0 <= i < post.tp@.len() && post.tp@[i] == (t, p);
        assert(pre.tp@[i].1 < pre.n_places());
    }
    assert forall|p1: usize, p2: usize, t: usize|
        post.has_pt(p1, t) && post.has_pt(p2, t) && post.is_ctrl_place(p1)
            && post.is_ctrl_place(p2) implies p1 == p2 by {
        assert(pre.is_ctrl_place(p1) && pre.is_ctrl_place(p2));
    }
    assert forall|p1: usize, p2: usize, t: usize|
        post.has_tp(t, p1) && post.has_tp(t, p2) && post.is_ctrl_place(p1)
            && post.is_ctrl_place(p2) implies p1 == p2 by {
        assert(pre.is_ctrl_place(p1) && pre.is_ctrl_place(p2));
    }
    assert forall|t: usize, p: usize| post.has_tp(t, p) && post.is_ctrl_place(p) implies exists|
        q: usize,
    | post.has_pt(q, t) && post.is_ctrl_place(q) by {
        assert(pre.has_tp(t, p) && pre.is_ctrl_place(p));
        let q = choose|q: usize| pre.has_pt(q, t) && pre.is_ctrl_place(q);
        assert(post.has_pt(q, t) && post.is_ctrl_place(q));
    }
    assert forall|t: usize, l: usize, d: usize| t < post.n_trans() && post.is_pair(l, d) implies
        (post.has_pt(l, t) <==> post.has_tp(t, d)) by {
        assert(post.kinds@[d as int] == (PlaceKind::Dead { live: l }));
        if l < pre.n_places() {
            assert(pre.is_pair(l, d));
        } else {
            lemma_fresh_place_no_arcs(pre, l);
            if d < pre.n_places() {
                assert(pre.kinds@[d as int] == (PlaceKind::Dead { live: l }));
                assert(pre.kinds@[l as int] is Live);
            }
            lemma_fresh_place_no_arcs(pre, d);
        }
    }
    assert forall|t: usize, l: usize, d: usize| t < post.n_trans() && post.is_pair(l, d) implies
        (post.has_pt(d, t) <==> post.has_tp(t, l)) by {
        assert(post.kinds@[d as int] == (PlaceKind::Dead { live: l }));
        if l < pre.n_places() {
            assert(pre.is_pair(l, d));
        } else {
            lemma_fresh_place_no_arcs(pre, l);
            if d < pre.n_places() {
                assert(pre.kinds@[d as int] == (PlaceKind::Dead { live: l }));
                assert(pre.kinds@[l as int] is Live);
            }
            lemma_fresh_place_no_arcs(pre, d);
        }
    }
    assert forall|t: usize, p: usize|
        post.has_tp(t, p) && p < post.n_places() && post.kinds@[p as int] == PlaceKind::Entry
            implies t < post.n_trans() && post.tkinds@[t as int] == TransKind::Jump by {
        assert(pre.has_tp(t, p));
        assert(pre.kinds@[p as int] == PlaceKind::Entry);
    }
}

/// One translation step's effect on the net: it only grows, the discipline
/// holds afterwards, new control places start unmarked, and the bound on
/// the pairs' initial tokens is kept.
pub open spec fn builds_on(pre: NetBuilder, post: NetBuilder) -> bool {
    &&& pre.extended_by(post)
    &&& post.wf()
    &&& forall|p: usize| pre.n_places() <= p < post.n_places() && #[trigger] post.is_ctrl_place(p)
        ==> post.marking@[p as int] == 0
    &&& (pre.init_pairs_ok() ==> post.init_pairs_ok())
}

/// `builds_on` composes across consecutive steps.
pub proof fn lemma_builds_on_trans(a: NetBuilder, b: NetBuilder, c: NetBuilder)
    requires
        builds_on(a, b),
        builds_on(b, c),
    ensures
        builds_on(a, c),
{
    lemma_extended_by_trans(a, b, c);
    assert forall|p: usize| a.n_places() <= p < c.n_places() && #[trigger] c.is_ctrl_place(p)
        implies c.marking@[p as int] == 0 by {
        if p < b.n_places() {
            assert(b.is_ctrl_place(p)) by {
                assert(b.kinds@[p as int] == b.kinds@.subrange(0, b.kinds@.len() as int)[p as int]);
                assert(c.kinds@.subrange(0, b.kinds@.len() as int) =~= b.kinds@);
            }
            assert(b.marking@[p as int] == 0);
            assert(c.marking@.subrange(0, b.marking@.len() as int) =~= b.marking@);
            assert(c.marking@[p as int] == b.marking@[p as int]);
        }
    }
}

/// `extended_by` composes across consecutive steps.
pub proof fn lemma_extended_by_trans(a: NetBuilder, b: NetBuilder, c: NetBuilder)
    requires
        a.extended_by(b),
        b.extended_by(c),
    ensures
        a.extended_by(c),
{
    assert(a.kinds@.is_prefix_of(c.kinds@)) by {
        assert(a.kinds@ =~= c.kinds@.subrange(0, a.kinds@.len() as int)) by {
            assert(b.kinds@ =~= c.kinds@.subrange(0, b.kinds@.len() as int));
            assert(a.kinds@ =~= b.kinds@.subrange(0, a.kinds@.len() as int));
        }
    }
    assert(a.marking@.is_prefix_of(c.marking@)) by {
        assert(a.marking@ =~= c.marking@.subrange(0, a.marking@.len() as int)) by {
            assert(b.marking@ =~= c.marking@.subrange(0, b.marking@.len() as int));
            assert(a.marking@ =~= b.marking@.subrange(0, a.marking@.len() as int));
        }
    }
    assert(a.tkinds@.is_prefix_of(c.tkinds@)) by {
        assert(a.tkinds@ =~= c.tkinds@.subrange(0, a.tkinds@.len() as int)) by {
            assert(b.tkinds@ =~= c.tkinds@.subrange(0, b.tkinds@.len() as int));
            assert(a.tkinds@ =~= b.tkinds@.subrange(0, a.tkinds@.len() as int));
        }
    }
    assert(a.pt@.is_prefix_of(c.pt@)) by {
        assert(a.pt@ =~= c.pt@.subrange(0, a.pt@.len() as int)) by {
            assert(b.pt@ =~= c.pt@.subrange(0, b.pt@.len() as int));
            assert(a.pt@ =~= b.pt@.subrange(0, a.pt@.len() as int));
        }
    }
    assert(a.tp@.is_prefix_of(c.tp@)) by {
        assert(a.tp@ =~= c.tp@.subrange(0, a.tp@.len() as int)) by {
            assert(b.tp@ =~= c.tp@.subrange(0, b.tp@.len() as int));
            assert(a.tp@ =~= b.tp@.subrange(0, a.tp@.len() as int));
        }
    }
}

/// Growing the net by transitions and arcs alone, places and marking
/// untouched, is a disciplined translation step once the discipline holds
/// again.
pub proof fn lemma_builds_on_after_arcs(pre: NetBuilder, post: NetBuilder)
    requires
        post.wf(),
        post.kinds@ == pre.kinds@,
        post.marking@ == pre.marking@,
        pre.tkinds@.is_prefix_of(post.tkinds@),
        pre.pt@.is_prefix_of(post.pt@),
        pre.tp@.is_prefix_of(post.tp@),
    ensures
        builds_on(pre, post),
{
    assert(pre.kinds@.is_prefix_of(post.kinds@)) by {
        assert(pre.kinds@ =~= post.kinds@.subrange(0, pre.kinds@.len() as int));
    }
    assert(pre.marking@.is_prefix_of(post.marking@)) by {
        assert(pre.marking@ =~= post.marking@.subrange(0, pre.marking@.len() as int));
    }
}

/// A sequence is a prefix of itself extended by one element.
pub proof fn lemma_prefix_push<A>(s: Seq<A>, x: A)
    ensures
        s.is_prefix_of(s.push(x)),
{
    assert(s =~= s.push(x).subrange(0, s.len() as int));
}

/// A prefix stays a prefix when the longer sequence grows.
pub proof fn lemma_prefix_push_trans<A>(a: Seq<A>, b: Seq<A>, x: A)
    requires
        a.is_prefix_of(b),
    ensures
        a.is_prefix_of(b.push(x)),
{
    assert forall|i: int| 0 <= i < a.len() implies b.push(x)[i] == a[i] by {
        assert(a[i] == b.subrange(0, a.len() as int)[i]);
    }
    assert(a =~= b.push(x).subrange(0, a.len() as int));
}

/// A sequence is a prefix of itself.
pub proof fn lemma_prefix_refl<A>(s: Seq<A>)
    ensures
        s.is_prefix_of(s),
{
    assert(s =~= s.subrange(0, s.len() as int));
}

/// A disciplined net is a disciplined translation step from itself.
pub proof fn lemma_builds_on_refl(n: NetBuilder)
    requires
        n.wf(),
    ensures
        builds_on(n, n),
{
    lemma_prefix_refl(n.kinds@);
    lemma_prefix_refl(n.marking@);
    lemma_prefix_refl(n.tkinds@);
    lemma_prefix_refl(n.pt@);
    lemma_prefix_refl(n.tp@);
}

/// Arcs persist as the net grows: the arc lists only ever gain entries.
pub proof fn lemma_arcs_monotone(pre: NetBuilder, post: NetBuilder)
    requires
        pre.pt@.is_prefix_of(post.pt@),
        pre.tp@.is_prefix_of(post.tp@),
    ensures
        forall|p: usize, t: usize| pre.has_pt(p, t) ==> #[trigger] post.has_pt(p, t),
        forall|t: usize, p: usize| pre.has_tp(t, p) ==> #[trigger] post.has_tp(t, p),
{
    assert forall|p: usize, t: usize| pre.has_pt(p, t) implies #[trigger] post.has_pt(p, t) by {
        let i = choose|i: int| 0 <= i < pre.pt@.len() && pre.pt@[i] == (p, t);
        assert(pre.pt@[i] == post.pt@.subrange(0, pre.pt@.len() as int)[i]);
        assert(post.pt@[i] == (p, t));
    }
    assert forall|t: usize, p: usize| pre.has_tp(t, p) implies #[trigger] post.has_tp(t, p) by {
        let i = choose|i: int| 0 <= i < pre.tp@.len() && pre.tp@[i] == (t, p);
        assert(pre.tp@[i] == post.tp@.subrange(0, pre.tp@.len() as int)[i]);
        assert(post.tp@[i] == (t, p));
    }
}

/// A pushed sequence contains exactly the old elements and the new one.
pub broadcast proof fn lemma_contains_push<A>(s: Seq<A>, x: A, y: A)
    ensures
        #![trigger s.push(x).contains(y)]
        s.push(x).contains(y) <==> (s.contains(y) || y == x),
{
    if s.contains(y) {
        let i = choose|i: int| 0 <= i < s.len() && s[i] == y;
        assert(s.push(x)[i] == y);
    }
    if y == x {
        assert(s.push(x)[s.len() as int] == y);
    }
    if s.push(x).contains(y) {
        let i = choose|i: int| 0 <= i < s.push(x).len() && s.push(x)[i] == y;
        if i < s.len() {
            assert(s[i] == y);
        }
    }
}

/// What a place stands for. Control places carry the control token: block
/// entry places and the fresh chain places statement beads produce. The two
/// halves of a local's pair point at each other.
#[derive(Clone, Copy, Debug, PartialEq, Eq, Structural)]
pub enum PlaceKind {
    /// The entry place of a basic block.
    Entry,
    /// A chain place inside a block's statement bead chain (or a sink).
    Chain,
    /// The live half of a local's pair; `dead` is its partner.
    Live { dead: usize },
    /// The dead half of a local's pair; `live` is its partner.
    Dead { live: usize },
}

/// Whether a transition is a statement bead or a jump emitted for a
/// terminator (goto, switch, return, call or summary).
#[derive(Clone, Copy, Debug, PartialEq, Eq, Structural)]
pub enum TransKind {
    Stmt,
    Jump,
}

impl PlaceKind {
    /// Control places are the ones the single control token moves through.
    pub open spec fn is_ctrl(self) -> bool {
        self is Entry || self is Chain
    }
}

/// The net under construction: places and transitions are dense indices,
/// arcs are unweighted and unduplicated, and the initial marking maps each
/// place to its token count.
pub struct NetBuilder {
    pub kinds: Vec<PlaceKind>,
    pub marking: Vec<u64>,
    pub tkinds: Vec<TransKind>,
    /// Arcs from a place to a transition.
    pub pt: Vec<(usize, usize)>,
    /// Arcs from a transition to a place.
    pub tp: Vec<(usize, usize)>,
}

impl NetBuilder {
    pub open spec fn n_places(self) -> nat {
        self.kinds@.len()
    }

    pub open spec fn n_trans(self) -> nat {
        self.tkinds@.len()
    }

    pub open spec fn has_pt(self, p: usize, t: usize) -> bool {
        self.pt@.contains((p, t))
    }

    pub open spec fn has_tp(self, t: usize, p: usize) -> bool {
        self.tp@.contains((t, p))
    }

    pub open spec fn is_ctrl_place(self, p: usize) -> bool {
        p < self.n_places() && self.kinds@[p as int].is_ctrl()
    }

    /// `l` and `d` form a registered live/dead pair.
    pub open spec fn is_pair(self, l: usize, d: usize) -> bool {
        &&& l < self.n_places()
        &&& self.kinds@[l as int] == (PlaceKind::Live { dead: d })
    }

    /// Sizes agree, partners are mutual, and every arc endpoint is in range.
    pub open spec fn wf_basic(self) -> bool {
        &&& self.marking@.len() == self.kinds@.len()
        &&& forall|p: int| 0 <= p < self.kinds@.len() ==> match #[trigger] self.kinds@[p] {
            PlaceKind::Live { dead } => dead < self.kinds@.len() && self.kinds@[dead as int]
                == (PlaceKind::Dead { live: p as usize }),
            PlaceKind::Dead { live } => live < self.kinds@.len() && self.kinds@[live as int]
                == (PlaceKind::Live { dead: p as usize }),
            _ => true,
        }
        &&& forall|i: int| 0 <= i < self.pt@.len() ==> (#[trigger] self.pt@[i]).0
            < self.n_places() && self.pt@[i].1 < self.n_trans()
        &&& forall|i: int| 0 <= i < self.tp@.len() ==> (#[trigger] self.tp@[i]).0 < self.n_trans()
            && self.tp@[i].1 < self.n_places()
    }

    /// The discipline every net the translator emits obeys.
    ///
    /// - a transition consumes at most one control place and produces at
    ///   most one, and only produces one if it also consumes one;
    /// - a transition consumes a live place exactly when it produces the
    ///   partner dead place, and consumes a dead place exactly when it
    ///   produces the partner live place (so each pair's token sum is
    ///   conserved by every firing);
    /// - only jump transitions feed block entry places (statement beads
    ///   never write an entry place).
    pub open spec fn wf(self) -> bool {
        &&& self.wf_basic()
        &&& forall|p1: usize, p2: usize, t: usize|
            self.has_pt(p1, t) && self.has_pt(p2, t) && self.is_ctrl_place(p1)
                && self.is_ctrl_place(p2) ==> p1 == p2
        &&& forall|p1: usize, p2: usize, t: usize|
            self.has_tp(t, p1) && self.has_tp(t, p2) && self.is_ctrl_place(p1)
                && self.is_ctrl_place(p2) ==> p1 == p2
        &&& forall|t: usize, p: usize| self.has_tp(t, p) && self.is_ctrl_place(p)
            ==> exists|q: usize| self.has_pt(q, t) && self.is_ctrl_place(q)
        &&& forall|t: usize, l: usize, d: usize| t < self.n_trans() && self.is_pair(l, d)
            ==> (self.has_pt(l, t) <==> self.has_tp(t, d))
        &&& forall|t: usize, l: usize, d: usize| t < self.n_trans() && self.is_pair(l, d)
            ==> (self.has_pt(d, t) <==> self.has_tp(t, l))
        &&& forall|t: usize, p: usize| self.has_tp(t, p) && p < self.n_places()
            && self.kinds@[p as int] == PlaceKind::Entry ==> t < self.n_trans()
            && self.tkinds@[t as int] == TransKind::Jump
    }

    /// Live places start unmarked and dead places carry exactly the one
    /// storage token: the initial sum of every pair is exactly one.
    pub open spec fn init_pairs_ok(self) -> bool {
        forall|p: int| 0 <= p < self.kinds@.len() ==> match #[trigger] self.kinds@[p] {
            PlaceKind::Live { dead } => self.marking@[p] == 0,
            PlaceKind::Dead { live } => self.marking@[p] == 1,
            _ => true,
        }
    }

    /// Exactly one control token is initially present, on `start`.
    pub open spec fn single_ctrl_token(self, start: usize) -> bool {
        &&& self.is_ctrl_place(start)
        &&& self.marking@[start as int] == 1
        &&& forall|p: usize| #[trigger] self.is_ctrl_place(p) && p != start
            ==> self.marking@[p as int] == 0
    }

    /// `other` extends `self`: all existing places, transitions, arcs and
    /// marks are kept, and nothing about them changes.
    pub open spec fn extended_by(self, other: NetBuilder) -> bool {
        &&& self.kinds@.is_prefix_of(other.kinds@)
        &&& self.marking@.is_prefix_of(other.marking@)
        &&& self.tkinds@.is_prefix_of(other.tkinds@)
        &&& self.pt@.is_prefix_of(other.pt@)
        &&& self.tp@.is_prefix_of(other.tp@)
    }

    pub fn new() -> (n: NetBuilder)
        ensures
            n.kinds@ =~= Seq::<PlaceKind>::empty(),
            n.marking@ =~= Seq::<u64>::empty(),
            n.tkinds@ =~= Seq::<TransKind>::empty(),
            n.pt@ =~= Seq::<(usize, usize)>::empty(),
            n.tp@ =~= Seq::<(usize, usize)>::empty(),
    {
        NetBuilder {
            kinds: Vec::new(),
            marking: Vec::new(),
            tkinds: Vec::new(),
            pt: Vec::new(),
            tp: Vec::new(),
        }
    }

    /// Adds an unmarked block entry place and returns its handle.
    pub fn add_entry_place(&mut self) -> (p: usize)
        ensures
            p == old(self).n_places(),
            final(self).kinds@ =~= old(self).kinds@.push(PlaceKind::Entry),
            final(self).marking@ =~= old(self).marking@.push(0),
            final(self).tkinds@ == old(self).tkinds@,
            final(self).pt@ == old(self).pt@,
            final(self).tp@ == old(self).tp@,
    {
        let p = self.kinds.len();
        self.kinds.push(PlaceKind::Entry);
        self.marking.push(0);
        p
    }

    /// Adds an unmarked chain place and returns its handle.
    pub fn add_chain_place(&mut self) -> (p: usize)
        ensures
            p == old(self).n_places(),
            final(self).kinds@ =~= old(self).kinds@.push(PlaceKind::Chain),
            final(self).marking@ =~= old(self).marking@.push(0),
            final(self).tkinds@ == old(self).tkinds@,
            final(self).pt@ == old(self).pt@,
            final(self).tp@ == old(self).tp@,
    {
        let p = self.kinds.len();
        self.kinds.push(PlaceKind::Chain);
        self.marking.push(0);
        p
    }

    /// Adds a live/dead pair of places for one local and returns
    /// `(live, dead)`. The live place starts unmarked; the dead place
    /// starts with the one token that models the local's allocated
    /// storage (the per-subnet allocation step folded into the initial
    /// marking).
    pub fn add_local_pair(&mut self) -> (r: (usize, usize))
        ensures
            r.0 == old(self).n_places(),
            r.1 == old(self).n_places() + 1,
            final(self).kinds@ =~= old(self).kinds@.push(PlaceKind::Live { dead: r.1 }).push(
                PlaceKind::Dead { live: r.0 },
            ),
            final(self).marking@ =~= old(self).marking@.push(0).push(1),
            final(self).tkinds@ == old(self).tkinds@,
            final(self).pt@ == old(self).pt@,
            final(self).tp@ == old(self).tp@,
    {
        let l = self.kinds.len();
        self.kinds.push(PlaceKind::Chain);
        let d = self.kinds.len();
        self.kinds.set(l, PlaceKind::Live { dead: d });
        self.kinds.push(PlaceKind::Dead { live: l });
        self.marking.push(0);
        self.marking.push(1);
        assert(self.kinds@ =~= old(self).kinds@.push(PlaceKind::Live { dead: d }).push(
            PlaceKind::Dead { live: l },
        ));
        (l, d)
    }

    /// Growing the net by places alone, with every new control or live
    /// place unmarked and every new dead place carrying at most one token,
    /// is a disciplined translation step.
    pub proof fn lemma_builds_on_after_places(pre: NetBuilder, post: NetBuilder)
        requires
            pre.wf(),
            post.wf_basic(),
            pre.kinds@.is_prefix_of(post.kinds@),
            pre.marking@.is_prefix_of(post.marking@),
            post.tkinds@ == pre.tkinds@,
            post.pt@ == pre.pt@,
            post.tp@ == pre.tp@,
            forall|p: int| pre.kinds@.len() <= p < post.kinds@.len() ==> match #[trigger] post.kinds@[p] {
                PlaceKind::Entry => post.marking@[p] == 0,
                PlaceKind::Chain => post.marking@[p] == 0,
                PlaceKind::Live { dead } => post.marking@[p] == 0,
                PlaceKind::Dead { live } => post.marking@[p] == 1,
            },
        ensures
            builds_on(pre, post),
    {
        lemma_wf_after_new_places(pre, post);
        assert forall|i: int| 0 <= i < pre.kinds@.len() implies post.kinds@[i]
            == pre.kinds@[i] by {
            assert(pre.kinds@[i] == post.kinds@.subrange(0, pre.kinds@.len() as int)[i]);
        }
        assert forall|i: int| 0 <= i < pre.marking@.len() implies post.marking@[i]
            == pre.marking@[i] by {
            assert(pre.marking@[i] == post.marking@.subrange(0, pre.marking@.len() as int)[i]);
        }
        assert(pre.tkinds@.is_prefix_of(post.tkinds@)) by {
            assert(pre.tkinds@ =~= post.tkinds@.subrange(0, pre.tkinds@.len() as int));
        }
        assert(pre.pt@.is_prefix_of(post.pt@)) by {
            assert(pre.pt@ =~= post.pt@.subrange(0, pre.pt@.len() as int));
        }
        assert(pre.tp@.is_prefix_of(post.tp@)) by {
            assert(pre.tp@ =~= post.tp@.subrange(0, pre.tp@.len() as int));
        }
        if pre.init_pairs_ok() {
            assert forall|p: int| 0 <= p < post.kinds@.len() implies match #[trigger] post.kinds@[p] {
                PlaceKind::Live { dead } => post.marking@[p] == 0,
                PlaceKind::Dead { live } => post.marking@[p] == 1,
                _ => true,
            } by {
                if p < pre.kinds@.len() {
                    assert(pre.kinds@[p] == post.kinds@[p]);
                    assert(pre.marking@[p] == post.marking@[p]);
                }
            }
        }
    }

    /// Adds a transition of the given kind and returns its handle.
    pub fn add_transition(&mut self, kind: TransKind) -> (t: usize)
        ensures
            t == old(self).n_trans(),
            final(self).tkinds@ =~= old(self).tkinds@.push(kind),
            final(self).kinds@ == old(self).kinds@,
            final(self).marking@ == old(self).marking@,
            final(self).pt@ == old(self).pt@,
            final(self).tp@ == old(self).tp@,
    {
        let t = self.tkinds.len();
        self.tkinds.push(kind);
        t
    }

    /// Adds the arc place `p` -> transition `t`. Fails with `InvalidHandle`
    /// on a handle out of range and with `DuplicateArc` when the arc already
    /// exists; on failure nothing changes.
    pub fn arc_pt(&mut self, p: usize, t: usize) -> (r: Result<(), TranslationError>)
        ensures
            r.is_ok() <==> (p < old(self).n_places() && t < old(self).n_trans() && !old(
                self,
            ).has_pt(p, t)),
            r.is_ok() ==> final(self).pt@ =~= old(self).pt@.push((p, t)),
            r.is_err() ==> *final(self) == *old(self),
            r == Err::<(), TranslationError>(TranslationError::InvalidHandle) <==> !(p < old(
                self,
            ).n_places() && t < old(self).n_trans()),
            r == Err::<(), TranslationError>(TranslationError::DuplicateArc) <==> (p < old(
                self,
            ).n_places() && t < old(self).n_trans() && old(self).has_pt(p, t)),
            final(self).kinds@ == old(self).kinds@,
            final(self).marking@ == old(self).marking@,
            final(self).tkinds@ == old(self).tkinds@,
            final(self).tp@ == old(self).tp@,
    {
        if p >= self.kinds.len() || t >= self.tkinds.len() {
            return Err(TranslationError::InvalidHandle);
        }
        if Self::arc_listed(&self.pt, p, t) {
            return Err(TranslationError::DuplicateArc);
        }
        self.pt.push((p, t));
        Ok(())
    }

    /// Adds the arc transition `t` -> place `p`, with the same failure
    /// contract as `arc_pt`.
    pub fn arc_tp(&mut self, t: usize, p: usize) -> (r: Result<(), TranslationError>)
        ensures
            r.is_ok() <==> (p < old(self).n_places() && t < old(self).n_trans() && !old(
                self,
            ).has_tp(t, p)),
            r.is_ok() ==> final(self).tp@ =~= old(self).tp@.push((t, p)),
            r.is_err() ==> *final(self) == *old(self),
            r == Err::<(), TranslationError>(TranslationError::InvalidHandle) <==> !(p < old(
                self,
            ).n_places() && t < old(self).n_trans()),
            r == Err::<(), TranslationError>(TranslationError::DuplicateArc) <==> (p < old(
                self,
            ).n_places() && t < old(self).n_trans() && old(self).has_tp(t, p)),
            final(self).kinds@ == old(self).kinds@,
            final(self).marking@ == old(self).marking@,
            final(self).tkinds@ == old(self).tkinds@,
            final(self).pt@ == old(self).pt@,
    {
        if p >= self.kinds.len() || t >= self.tkinds.len() {
            return Err(TranslationError::InvalidHandle);
        }
        if Self::arc_listed(&self.tp, t, p) {
            return Err(TranslationError::DuplicateArc);
        }
        self.tp.push((t, p));
        Ok(())
    }

    /// Whether `(a, b)` is already listed among the arcs.
    fn arc_listed(arcs: &Vec<(usize, usize)>, a: usize, b: usize) -> (r: bool)
        ensures
            r == arcs@.contains((a, b)),
    {
        let mut i: usize = 0;
        while i < arcs.len()
            invariant
                i <= arcs@.len(),
                forall|j: int| 0 <= j < i ==> arcs@[j] != (a, b),
            decreases arcs@.len() - i,
        {
            let (x, y) = arcs[i];
            if x == a && y == b {
                assert(arcs@[i as int] == (a, b));
                return true;
            }
            i += 1;
        }
        false
    }

    /// Sets the initial marking of `p` to `k` tokens. Fails with
    /// `InvalidHandle` on a handle out of range.
    pub fn set_initial(&mut self, p: usize, k: u64) -> (r: Result<(), TranslationError>)
        requires
            old(self).marking@.len() == old(self).kinds@.len(),
        ensures
            r.is_ok() <==> p < old(self).n_places(),
            r.is_ok() ==> final(self).marking@ =~= old(self).marking@.update(p as int, k),
            r.is_err() ==> *final(self) == *old(self) && r == Err::<(), TranslationError>(
                TranslationError::InvalidHandle,
            ),
            final(self).kinds@ == old(self).kinds@,
            final(self).tkinds@ == old(self).tkinds@,
            final(self).pt@ == old(self).pt@,
            final(self).tp@ == old(self).tp@,
    {
        if p >= self.marking.len() {
            return Err(TranslationError::InvalidHandle);
        }
        self.marking.set(p, k);
        Ok(())
    }

    /// Adds a transition that consumes the control token at `cin` and, when
    /// `cout` is given, produces it there; otherwise the transition is a
    /// control sink. Keeps the net discipline.
    pub fn add_ctrl_transition(&mut self, kind: TransKind, cin: usize, cout: Option<usize>) -> (t:
        usize)
        requires
            old(self).wf(),
            old(self).is_ctrl_place(cin),
            match cout {
                Some(co) => old(self).is_ctrl_place(co) && (old(self).kinds@[co as int]
                    == PlaceKind::Entry ==> kind == TransKind::Jump),
                None => true,
            },
        ensures
            final(self).wf(),
            t == old(self).n_trans(),
            final(self).tkinds@ =~= old(self).tkinds@.push(kind),
            final(self).pt@ =~= old(self).pt@.push((cin, t)),
            final(self).tp@ =~= match cout {
                Some(co) => old(self).tp@.push((t, co)),
                None => old(self).tp@,
            },
            final(self).kinds@ == old(self).kinds@,
            final(self).marking@ == old(self).marking@,
    {
        broadcast use lemma_contains_push;

        let t = self.add_transition(kind);
        proof {
            lemma_fresh_trans_no_arcs(*old(self), t);
        }
        let r1 = self.arc_pt(cin, t);
        if let Some(co) = cout {
            let r2 = self.arc_tp(t, co);
        }
        proof {
            lemma_wf_after_ctrl_transition(*old(self), *self, kind, cin, cout, t);
        }
        t
    }

    /// Adds a transition that moves one local's token between its two
    /// places: `consume` -> t -> `produce`, where the two places are the
    /// halves of one pair (in either order). Keeps the net discipline.
    pub fn add_pair_transition(&mut self, kind: TransKind, consume: usize, produce: usize) -> (t:
        usize)
        requires
            old(self).wf(),
            old(self).is_pair(consume, produce) || old(self).is_pair(produce, consume),
        ensures
            final(self).wf(),
            t == old(self).n_trans(),
            final(self).tkinds@ =~= old(self).tkinds@.push(kind),
            final(self).pt@ =~= old(self).pt@.push((consume, t)),
            final(self).tp@ =~= old(self).tp@.push((t, produce)),
            final(self).kinds@ == old(self).kinds@,
            final(self).marking@ == old(self).marking@,
    {
        let t = self.add_transition(kind);
        proof {
            lemma_fresh_trans_no_arcs(*old(self), t);
        }
        let r1 = self.arc_pt(consume, t);
        let r2 = self.arc_tp(t, produce);
        proof {
            lemma_wf_after_pair_transition(*old(self), *self, kind, consume, produce, t);
        }
        t
    }

    /// Adds the storage-release arcs live -> `t` -> dead of one pair to an
    /// existing transition. Keeps the net discipline.
    pub fn add_release_arcs(&mut self, t: usize, l: usize, d: usize)
        requires
            old(self).wf(),
            t < old(self).n_trans(),
            old(self).is_pair(l, d),
            !old(self).has_pt(l, t),
            !old(self).has_tp(t, d),
        ensures
            final(self).wf(),
            final(self).pt@ =~= old(self).pt@.push((l, t)),
            final(self).tp@ =~= old(self).tp@.push((t, d)),
            final(self).kinds@ == old(self).kinds@,
            final(self).marking@ == old(self).marking@,
            final(self).tkinds@ == old(self).tkinds@,
    {
        let r1 = self.arc_pt(l, t);
        let r2 = self.arc_tp(t, d);
        proof {
            lemma_wf_after_release_arcs(*old(self), *self, t, l, d);
        }
    }
}

} // verus!
