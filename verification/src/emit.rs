use vstd::prelude::*;
use vstd::string::StringSliceAdditionalSpecFns;
use crate::net::NetBuilder;

verus! {

/// The bytes every rendered document begins with.
pub open spec fn xml_header() -> Seq<u8> {
    "<?xml version=\"1.0\" encoding=\"UTF-8\"?>\n".spec_bytes()
}

/// A prefix survives appending more bytes.
proof fn lemma_prefix_append<A>(a: Seq<A>, b: Seq<A>, c: Seq<A>)
    requires
        a.is_prefix_of(b),
    ensures
        a.is_prefix_of(b + c),
{
    assert forall|i: int| 0 <= i < a.len() implies (b + c)[i] == a[i] by {
        assert(a[i] == b.subrange(0, a.len() as int)[i]);
    }
    assert(a =~= (b + c).subrange(0, a.len() as int));
}

/// Appends all bytes of `s` to `out`.
fn push_bytes(out: &mut Vec<u8>, s: &[u8])
    ensures
        final(out)@ == old(out)@ + s@,
{
    let mut i: usize = 0;
    while i < s.len()
        invariant
            i <= s@.len(),
            out@ == old(out)@ + s@.subrange(0, i as int),
        decreases s@.len() - i,
    {
        out.push(s[i]);
        proof {
            assert(out@ =~= old(out)@ + s@.subrange(0, i + 1));
        }
        i += 1;
    }
    proof {
        assert(out@ =~= old(out)@ + s@);
    }
}

/// Appends all bytes of `s` to `out`.
fn push_vec(out: &mut Vec<u8>, s: &Vec<u8>)
    ensures
        final(out)@ == old(out)@ + s@,
{
    let mut i: usize = 0;
    while i < s.len()
        invariant
            i <= s@.len(),
            out@ == old(out)@ + s@.subrange(0, i as int),
        decreases s@.len() - i,
    {
        out.push(s[i]);
        proof {
            assert(out@ =~= old(out)@ + s@.subrange(0, i + 1));
        }
        i += 1;
    }
    proof {
        assert(out@ =~= old(out)@ + s@);
    }
}

/// The decimal digits of `n`, most significant first.
pub open spec fn spec_dec(n: nat) -> Seq<u8>
    decreases n,
{
    if n < 10 {
        seq![(48 + n) as u8]
    } else {
        spec_dec(n / 10).push((48 + n % 10) as u8)
    }
}

/// Appends the decimal rendering of `n` to `out`.
fn push_dec(out: &mut Vec<u8>, n: u64)
    ensures
        final(out)@ == old(out)@ + spec_dec(n as nat),
    decreases n,
{
    if n < 10 {
        out.push((48 + n) as u8);
        proof {
            assert(out@ =~= old(out)@ + spec_dec(n as nat));
        }
    } else {
        push_dec(out, n / 10);
        out.push((48 + (n % 10)) as u8);
        proof {
            assert(out@ =~= old(out)@ + spec_dec(n as nat));
        }
    }
}

/// The rendering of place `p`, with its initial marking where nonzero.
pub open spec fn place_bytes(net: NetBuilder, p: int) -> Seq<u8> {
    "<place id=\"p".spec_bytes() + spec_dec(p as nat) + "\">".spec_bytes() + (if net.marking@[p]
        > 0 {
        "<initialMarking><text>".spec_bytes() + spec_dec(net.marking@[p] as nat)
            + "</text></initialMarking>".spec_bytes()
    } else {
        Seq::<u8>::empty()
    }) + "</place>\n".spec_bytes()
}

/// The renderings of the first `upto` places, in order.
pub open spec fn places_bytes(net: NetBuilder, upto: int) -> Seq<u8>
    decreases upto,
{
    if upto <= 0 {
        Seq::<u8>::empty()
    } else {
        places_bytes(net, upto - 1) + place_bytes(net, upto - 1)
    }
}

/// The rendering of transition `t`.
pub open spec fn trans_bytes(t: int) -> Seq<u8> {
    "<transition id=\"t".spec_bytes() + spec_dec(t as nat) + "\"/>\n".spec_bytes()
}

/// The renderings of the first `upto` transitions, in order.
pub open spec fn transs_bytes(net: NetBuilder, upto: int) -> Seq<u8>
    decreases upto,
{
    if upto <= 0 {
        Seq::<u8>::empty()
    } else {
        transs_bytes(net, upto - 1) + trans_bytes(upto - 1)
    }
}

/// The rendering of the `k`-th place-to-transition arc.
pub open spec fn pt_arc_bytes(net: NetBuilder, k: int) -> Seq<u8> {
    "<arc id=\"a".spec_bytes() + spec_dec(k as nat) + "\" source=\"p".spec_bytes() + spec_dec(
        net.pt@[k].0 as nat,
    ) + "\" target=\"t".spec_bytes() + spec_dec(net.pt@[k].1 as nat) + "\"/>\n".spec_bytes()
}

/// The renderings of the first `upto` place-to-transition arcs, in order.
pub open spec fn pt_arcs_bytes(net: NetBuilder, upto: int) -> Seq<u8>
    decreases upto,
{
    if upto <= 0 {
        Seq::<u8>::empty()
    } else {
        pt_arcs_bytes(net, upto - 1) + pt_arc_bytes(net, upto - 1)
    }
}

/// The rendering of the `k`-th transition-to-place arc.
pub open spec fn tp_arc_bytes(net: NetBuilder, k: int) -> Seq<u8> {
    "<arc id=\"b".spec_bytes() + spec_dec(k as nat) + "\" source=\"t".spec_bytes() + spec_dec(
        net.tp@[k].0 as nat,
    ) + "\" target=\"p".spec_bytes() + spec_dec(net.tp@[k].1 as nat) + "\"/>\n".spec_bytes()
}

/// The renderings of the first `upto` transition-to-place arcs, in order.
pub open spec fn tp_arcs_bytes(net: NetBuilder, upto: int) -> Seq<u8>
    decreases upto,
{
    if upto <= 0 {
        Seq::<u8>::empty()
    } else {
        tp_arcs_bytes(net, upto - 1) + tp_arc_bytes(net, upto - 1)
    }
}

/// The whole document: header, opening tags, every place, every
/// transition, every arc, closing tags.
pub open spec fn pnml_bytes(net: NetBuilder) -> Seq<u8> {
    xml_header() + "<pnml xmlns=\"http://www.pnml.org/version-2009/grammar/pnml\">\n".spec_bytes()
        + "<net id=\"net0\" type=\"http://www.pnml.org/version-2009/grammar/ptnet\">\n".spec_bytes()
        + "<page id=\"page0\">\n".spec_bytes() + places_bytes(net, net.n_places() as int)
        + transs_bytes(net, net.n_trans() as int) + pt_arcs_bytes(net, net.pt@.len() as int)
        + tp_arcs_bytes(net, net.tp@.len() as int) + "</page>\n</net>\n</pnml>\n".spec_bytes()
}

/// Appends the renderings of all places to `body`.
fn emit_places(net: &NetBuilder, body: &mut Vec<u8>)
    requires
        net.marking@.len() == net.kinds@.len(),
    ensures
        final(body)@ == old(body)@ + places_bytes(*net, net.n_places() as int),
{
    let ghost head = body@;
    proof {
        assert(body@ =~= head + places_bytes(*net, 0));
    }
    let mut p: usize = 0;
    while p < net.kinds.len()
        invariant
            net.marking@.len() == net.kinds@.len(),
            p <= net.kinds@.len(),
            body@ == head + places_bytes(*net, p as int),
        decreases net.kinds@.len() - p,
    {
        let ghost pre = body@;
        push_bytes(body, "<place id=\"p".as_bytes());
        push_dec(body, p as u64);
        push_bytes(body, "\">".as_bytes());
        let m = net.marking[p];
        if m > 0 {
            push_bytes(body, "<initialMarking><text>".as_bytes());
            push_dec(body, m);
            push_bytes(body, "</text></initialMarking>".as_bytes());
        }
        push_bytes(body, "</place>\n".as_bytes());
        proof {
            assert(body@ =~= pre + place_bytes(*net, p as int));
            assert(body@ =~= head + places_bytes(*net, p + 1));
        }
        p += 1;
    }
}

/// Appends the renderings of all transitions to `body`.
fn emit_transitions(net: &NetBuilder, body: &mut Vec<u8>)
    ensures
        final(body)@ == old(body)@ + transs_bytes(*net, net.n_trans() as int),
{
    let ghost head = body@;
    proof {
        assert(body@ =~= head + transs_bytes(*net, 0));
    }
    let mut t: usize = 0;
    while t < net.tkinds.len()
        invariant
            t <= net.tkinds@.len(),
            body@ == head + transs_bytes(*net, t as int),
        decreases net.tkinds@.len() - t,
    {
        let ghost pre = body@;
        push_bytes(body, "<transition id=\"t".as_bytes());
        push_dec(body, t as u64);
        push_bytes(body, "\"/>\n".as_bytes());
        proof {
            assert(body@ =~= pre + trans_bytes(t as int));
            assert(body@ =~= head + transs_bytes(*net, t + 1));
        }
        t += 1;
    }
}

/// Appends the renderings of all place-to-transition arcs to `body`.
fn emit_pt_arcs(net: &NetBuilder, body: &mut Vec<u8>)
    ensures
        final(body)@ == old(body)@ + pt_arcs_bytes(*net, net.pt@.len() as int),
{
    let ghost head = body@;
    proof {
        assert(body@ =~= head + pt_arcs_bytes(*net, 0));
    }
    let mut k: usize = 0;
    while k < net.pt.len()
        invariant
            k <= net.pt@.len(),
            body@ == head + pt_arcs_bytes(*net, k as int),
        decreases net.pt@.len() - k,
    {
        let ghost pre = body@;
        let (from, to) = net.pt[k];
        push_bytes(body, "<arc id=\"a".as_bytes());
        push_dec(body, k as u64);
        push_bytes(body, "\" source=\"p".as_bytes());
        push_dec(body, from as u64);
        push_bytes(body, "\" target=\"t".as_bytes());
        push_dec(body, to as u64);
        push_bytes(body, "\"/>\n".as_bytes());
        proof {
            assert(body@ =~= pre + pt_arc_bytes(*net, k as int));
            assert(body@ =~= head + pt_arcs_bytes(*net, k + 1));
        }
        k += 1;
    }
}

/// Appends the renderings of all transition-to-place arcs to `body`.
fn emit_tp_arcs(net: &NetBuilder, body: &mut Vec<u8>)
    ensures
        final(body)@ == old(body)@ + tp_arcs_bytes(*net, net.tp@.len() as int),
{
    let ghost head = body@;
    proof {
        assert(body@ =~= head + tp_arcs_bytes(*net, 0));
    }
    let mut k2: usize = 0;
    while k2 < net.tp.len()
        invariant
            k2 <= net.tp@.len(),
            body@ == head + tp_arcs_bytes(*net, k2 as int),
        decreases net.tp@.len() - k2,
    {
        let ghost pre = body@;
        let (from, to) = net.tp[k2];
        push_bytes(body, "<arc id=\"b".as_bytes());
        push_dec(body, k2 as u64);
        push_bytes(body, "\" source=\"t".as_bytes());
        push_dec(body, from as u64);
        push_bytes(body, "\" target=\"p".as_bytes());
        push_dec(body, to as u64);
        push_bytes(body, "\"/>\n".as_bytes());
        proof {
            assert(body@ =~= pre + tp_arc_bytes(*net, k2 as int));
            assert(body@ =~= head + tp_arcs_bytes(*net, k2 + 1));
        }
        k2 += 1;
    }
}

/// Serializes the finished net as a PNML document: one net with one page
/// holding every place (with its initial marking where nonzero), every
/// transition, and every arc. Place `i` is identified as `p<i>`, transition
/// `i` as `t<i>`, place-to-transition arcs as `a<k>` and the reverse arcs
/// as `b<k>`. The result is exactly the rendering `pnml_bytes` gives the
/// net, opening with the XML declaration.
#[verifier::rlimit(100)]
#[verifier::spinoff_prover]
pub fn emit_pnml(net: &NetBuilder) -> (r: Vec<u8>)
    requires
        net.marking@.len() == net.kinds@.len(),
    ensures
        r@ == pnml_bytes(*net),
        xml_header().is_prefix_of(r@),
{
    let mut body: Vec<u8> = Vec::new();
    push_bytes(
        &mut body,
        "<pnml xmlns=\"http://www.pnml.org/version-2009/grammar/pnml\">\n".as_bytes(),
    );
    push_bytes(
        &mut body,
        "<net id=\"net0\" type=\"http://www.pnml.org/version-2009/grammar/ptnet\">\n".as_bytes(),
    );
    push_bytes(&mut body, "<page id=\"page0\">\n".as_bytes());
    emit_places(net, &mut body);
    emit_transitions(net, &mut body);
    emit_pt_arcs(net, &mut body);
    emit_tp_arcs(net, &mut body);
    push_bytes(&mut body, "</page>\n</net>\n</pnml>\n".as_bytes());
    let mut out: Vec<u8> = Vec::new();
    push_bytes(&mut out, "<?xml version=\"1.0\" encoding=\"UTF-8\"?>\n".as_bytes());
    let ghost header_only = out@;
    push_vec(&mut out, &body);
    proof {
        crate::net::lemma_prefix_refl(header_only);
        assert(header_only =~= xml_header());
        lemma_prefix_append(xml_header(), header_only, body@);
        assert(out@ =~= pnml_bytes(*net));
    }
    out
}

} // verus!
