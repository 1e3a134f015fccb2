use vstd::prelude::*;
use crate::net::NetBuilder;

verus! {

/// The initial marking of the net as a mathematical token count per place.
pub open spec fn init_marking(n: NetBuilder) -> Seq<nat> {
    Seq::new(n.marking@.len(), |p: int| n.marking@[p] as nat)
}

/// `t` may fire at `m`: every input place holds a token.
pub open spec fn enabled(n: NetBuilder, m: Seq<nat>, t: usize) -> bool {
    &&& t < n.n_trans()
    &&& m.len() == n.n_places()
    &&& forall|p: usize| p < n.n_places() && #[trigger] n.has_pt(p, t) ==> m[p as int] >= 1
}

/// The marking after `t` fires at `m`: one token leaves every input place
/// and one arrives on every output place.
pub open spec fn fired(n: NetBuilder, m: Seq<nat>, t: usize) -> Seq<nat> {
    Seq::new(
        m.len(),
        |p: int| (((m[p] as int) - (if n.has_pt(p as usize, t) {
            1int
        } else {
            0int
        }) + (if n.has_tp(t, p as usize) {
            1int
        } else {
            0int
        })) as nat),
    )
}

/// One firing step between markings.
pub open spec fn step(n: NetBuilder, m1: Seq<nat>, m2: Seq<nat>) -> bool {
    exists|t: usize| #[trigger] enabled(n, m1, t) && m2 == fired(n, m1, t)
}

/// A run of the net: a nonempty sequence of markings, each following from
/// the one before by one firing. Every reachable marking is the last
/// marking of some run from the initial marking.
pub open spec fn is_run(n: NetBuilder, tr: Seq<Seq<nat>>) -> bool {
    &&& tr.len() > 0
    &&& forall|i: int| 0 <= i < tr.len() - 1 ==> step(n, #[trigger] tr[i], tr[i + 1])
}

/// One firing conserves the token sum of every live/dead pair: under the
/// net discipline a transition consumes the live half exactly when it
/// produces the dead half and vice versa.
pub proof fn lemma_pair_sum_step(n: NetBuilder, m1: Seq<nat>, m2: Seq<nat>, l: usize, d: usize)
    requires
        n.wf(),
        n.is_pair(l, d),
        step(n, m1, m2),
        m1.len() == n.n_places(),
    ensures
        m2.len() == m1.len(),
        m2[l as int] + m2[d as int] == m1[l as int] + m1[d as int],
{
    let t = choose|t: usize| #[trigger] enabled(n, m1, t) && m2 == fired(n, m1, t);
    assert(n.kinds@[d as int] == (crate::net::PlaceKind::Dead { live: l }));
    assert(l != d);
    assert(n.has_pt(l, t) <==> n.has_tp(t, d));
    assert(n.has_pt(d, t) <==> n.has_tp(t, l));
    assert(m2[l as int] == (((m1[l as int] as int) - (if n.has_pt(l, t) {
        1int
    } else {
        0int
    }) + (if n.has_tp(t, l) {
        1int
    } else {
        0int
    })) as nat));
    assert(m2[d as int] == (((m1[d as int] as int) - (if n.has_pt(d, t) {
        1int
    } else {
        0int
    }) + (if n.has_tp(t, d) {
        1int
    } else {
        0int
    })) as nat));
}

/// Token conservation per local, along any run: every marking of the run
/// gives a local's live and dead places together exactly the sum they had
/// at the start of the run.
pub proof fn lemma_pair_sum_run(
    n: NetBuilder,
    tr: Seq<Seq<nat>>,
    j: int,
    l: usize,
    d: usize,
)
    requires
        n.wf(),
        n.is_pair(l, d),
        is_run(n, tr),
        tr[0].len() == n.n_places(),
        0 <= j < tr.len(),
    ensures
        tr[j].len() == n.n_places(),
        tr[j][l as int] + tr[j][d as int] == tr[0][l as int] + tr[0][d as int],
    decreases j,
{
    if j > 0 {
        lemma_pair_sum_run(n, tr, j - 1, l, d);
        assert(step(n, tr[j - 1], tr[j]));
        lemma_pair_sum_step(n, tr[j - 1], tr[j], l, d);
    }
}

/// Token conservation per local, from the initial marking the translator
/// leaves behind: in every marking of every run starting there, the tokens
/// on a local's live and dead places sum to exactly one — the storage
/// token moves between the two places and is never created or lost.
pub proof fn lemma_local_token_conservation(
    n: NetBuilder,
    tr: Seq<Seq<nat>>,
    j: int,
    l: usize,
    d: usize,
)
    requires
        n.wf(),
        n.init_pairs_ok(),
        n.is_pair(l, d),
        is_run(n, tr),
        tr[0] == init_marking(n),
        0 <= j < tr.len(),
    ensures
        tr[j][l as int] + tr[j][d as int] == 1,
{
    assert(n.kinds@[d as int] == (crate::net::PlaceKind::Dead { live: l }));
    assert(n.marking@[l as int] == 0);
    assert(n.marking@[d as int] == 1);
    lemma_pair_sum_run(n, tr, j, l, d);
}

/// The control tokens among the first `upto` places.
pub open spec fn csum(n: NetBuilder, m: Seq<nat>, upto: int) -> int
    decreases upto,
{
    if upto <= 0 {
        0
    } else {
        csum(n, m, upto - 1) + (if n.is_ctrl_place((upto - 1) as usize) {
            m[upto - 1] as int
        } else {
            0int
        })
    }
}

/// The control tokens of the whole marking.
pub open spec fn ctrl_tokens(n: NetBuilder, m: Seq<nat>) -> int {
    csum(n, m, n.n_places() as int)
}

/// Every transition that consumes a control token also produces one: the
/// net has no control sinks.
pub open spec fn no_ctrl_sinks(n: NetBuilder) -> bool {
    forall|t: usize, p: usize| #[trigger] n.has_pt(p, t) && n.is_ctrl_place(p) ==> exists|q: usize|
        #[trigger] n.has_tp(t, q) && n.is_ctrl_place(q)
}

/// How a control sum shifts when every control place keeps its count
/// except one consumed and one produced (either may be absent or both may
/// coincide).
proof fn lemma_csum_shift(
    n: NetBuilder,
    m1: Seq<nat>,
    m2: Seq<nat>,
    upto: int,
    pin: Option<usize>,
    pout: Option<usize>,
)
    requires
        m1.len() == m2.len(),
        m1.len() <= usize::MAX,
        upto <= m1.len(),
        forall|p: int| 0 <= p < m1.len() && n.is_ctrl_place(p as usize) ==> (m2[p] as int) == (
        m1[p] as int) + (if pout == Some(p as usize) {
            1int
        } else {
            0int
        }) - (if pin == Some(p as usize) {
            1int
        } else {
            0int
        }),
        match pin {
            Some(a) => n.is_ctrl_place(a),
            None => true,
        },
        match pout {
            Some(a) => n.is_ctrl_place(a),
            None => true,
        },
    ensures
        csum(n, m2, upto) == csum(n, m1, upto) + (match pout {
            Some(a) => if 0 <= a < upto {
                1int
            } else {
                0int
            },
            None => 0int,
        }) - (match pin {
            Some(a) => if 0 <= a < upto {
                1int
            } else {
                0int
            },
            None => 0int,
        }),
    decreases upto,
{
    if upto > 0 {
        lemma_csum_shift(n, m1, m2, upto - 1, pin, pout);
        if n.is_ctrl_place((upto - 1) as usize) {
            assert((m2[upto - 1] as int) == (m1[upto - 1] as int) + (if pout == Some(
                (upto - 1) as usize,
            ) {
                1int
            } else {
                0int
            }) - (if pin == Some((upto - 1) as usize) {
                1int
            } else {
                0int
            }));
        }
    }
}

/// One firing never increases the control tokens, and keeps them unchanged
/// exactly when the fired transition produces a control token or consumes
/// none.
pub proof fn lemma_ctrl_step(n: NetBuilder, m1: Seq<nat>, m2: Seq<nat>)
    requires
        n.wf(),
        n.n_places() <= usize::MAX,
        step(n, m1, m2),
        m1.len() == n.n_places(),
    ensures
        m2.len() == m1.len(),
        ctrl_tokens(n, m2) <= ctrl_tokens(n, m1),
        no_ctrl_sinks(n) ==> ctrl_tokens(n, m2) == ctrl_tokens(n, m1),
{
    let t = choose|t: usize| #[trigger] enabled(n, m1, t) && m2 == fired(n, m1, t);
    if exists|p: usize| #[trigger] n.has_pt(p, t) && n.is_ctrl_place(p) {
        let pin = choose|p: usize| #[trigger] n.has_pt(p, t) && n.is_ctrl_place(p);
        if exists|q: usize| #[trigger] n.has_tp(t, q) && n.is_ctrl_place(q) {
            let pout = choose|q: usize| #[trigger] n.has_tp(t, q) && n.is_ctrl_place(q);
            assert forall|p: int|
                0 <= p < m1.len() && n.is_ctrl_place(p as usize) implies (m2[p] as int) == (
            m1[p] as int) + (if Some(p as usize) == Some(pout) {
                1int
            } else {
                0int
            }) - (if Some(p as usize) == Some(pin) {
                1int
            } else {
                0int
            }) by {
                assert(m2[p] == fired(n, m1, t)[p]);
                if n.has_pt(p as usize, t) {
                    assert(p as usize == pin);
                    assert(m1[p] >= 1);
                }
                if n.has_tp(t, p as usize) {
                    assert(p as usize == pout);
                }
            }
            lemma_csum_shift(n, m1, m2, n.n_places() as int, Some(pin), Some(pout));
        } else {
            assert forall|p: int|
                0 <= p < m1.len() && n.is_ctrl_place(p as usize) implies (m2[p] as int) == (
            m1[p] as int) - (if Some(p as usize) == Some(pin) {
                1int
            } else {
                0int
            }) by {
                assert(n.has_pt(p as usize, t) ==> p as usize == pin);
                assert(!(n.has_tp(t, p as usize) && n.is_ctrl_place(p as usize)));
            }
            lemma_csum_shift(n, m1, m2, n.n_places() as int, Some(pin), None);
        }
    } else {
        assert forall|p: int| 0 <= p < m1.len() && n.is_ctrl_place(p as usize) implies (
        m2[p] as int) == (m1[p] as int) by {
            assert(m2[p] == fired(n, m1, t)[p]);
            assert(!(n.has_pt(p as usize, t) && n.is_ctrl_place(p as usize)));
            if n.has_tp(t, p as usize) && n.is_ctrl_place(p as usize) {
                let q = choose|q: usize| #[trigger] n.has_pt(q, t) && n.is_ctrl_place(q);
            }
        }
        lemma_csum_shift(n, m1, m2, n.n_places() as int, None, None);
    }
}

/// The control sum of a marking with exactly one marked control place.
proof fn lemma_csum_single(n: NetBuilder, m: Seq<nat>, upto: int, a: usize)
    requires
        upto <= m.len(),
        m.len() <= usize::MAX,
        n.is_ctrl_place(a),
        a < m.len(),
        m[a as int] == 1,
        forall|p: usize| #[trigger] n.is_ctrl_place(p) && p != a && p < m.len() ==> m[p as int]
            == 0,
    ensures
        csum(n, m, upto) == if a < upto {
            1int
        } else {
            0int
        },
    decreases upto,
{
    if upto > 0 {
        lemma_csum_single(n, m, upto - 1, a);
        if n.is_ctrl_place((upto - 1) as usize) && (upto - 1) as usize != a {
            assert(m[upto - 1] == 0);
        }
    }
}

/// Along any run, the control tokens never increase, and stay constant
/// while the net has no control sinks.
pub proof fn lemma_ctrl_tokens_run(n: NetBuilder, tr: Seq<Seq<nat>>, j: int)
    requires
        n.wf(),
        n.n_places() <= usize::MAX,
        is_run(n, tr),
        tr[0].len() == n.n_places(),
        0 <= j < tr.len(),
    ensures
        tr[j].len() == n.n_places(),
        ctrl_tokens(n, tr[j]) <= ctrl_tokens(n, tr[0]),
        no_ctrl_sinks(n) ==> ctrl_tokens(n, tr[j]) == ctrl_tokens(n, tr[0]),
    decreases j,
{
    if j > 0 {
        lemma_ctrl_tokens_run(n, tr, j - 1);
        assert(step(n, tr[j - 1], tr[j]));
        lemma_ctrl_step(n, tr[j - 1], tr[j]);
    }
}

/// The unique control token: starting from the single initial control
/// token the translator leaves behind, every marking of every run carries
/// at most one control token in all, and exactly one while the net has no
/// control sinks.
pub proof fn lemma_unique_control_token(n: NetBuilder, start: usize, tr: Seq<Seq<nat>>, j: int)
    requires
        n.wf(),
        n.n_places() <= usize::MAX,
        n.single_ctrl_token(start),
        is_run(n, tr),
        tr[0] == init_marking(n),
        0 <= j < tr.len(),
    ensures
        ctrl_tokens(n, tr[j]) <= 1,
        no_ctrl_sinks(n) ==> ctrl_tokens(n, tr[j]) == 1,
{
    assert forall|p: usize| #[trigger] n.is_ctrl_place(p) && p != start && p
        < init_marking(n).len() implies init_marking(n)[p as int] == 0 by {
        assert(n.marking@[p as int] == 0);
    }
    lemma_csum_single(n, init_marking(n), n.n_places() as int, start);
    lemma_ctrl_tokens_run(n, tr, j);
}

/// Block-entry single-ingress, the structural half the net discipline
/// enforces globally: no statement-bead transition ever writes a block
/// entry place — every arc into one comes from a jump transition emitted
/// for a terminator.
pub proof fn lemma_entry_written_by_jumps_only(n: NetBuilder, t: usize, p: usize)
    requires
        n.wf(),
        n.has_tp(t, p),
        p < n.n_places(),
        n.kinds@[p as int] == crate::net::PlaceKind::Entry,
    ensures
        t < n.n_trans(),
        n.tkinds@[t as int] == crate::net::TransKind::Jump,
{
}

} // verus!


