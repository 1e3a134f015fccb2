use vstd::prelude::*;
use vstd::string::StringSliceAdditionalSpecFns;
use crate::ir::Procedure;

verus! {

/// `needle` occurs contiguously somewhere in `hay`.
pub open spec fn contains_seq(hay: Seq<u8>, needle: Seq<u8>) -> bool {
    exists|i: int|
        0 <= i && i + needle.len() <= hay.len() && #[trigger] hay.subrange(i, i + needle.len())
            == needle
}

/// Plain substring search over bytes.
pub fn contains_sub(hay: &Vec<u8>, needle: &[u8]) -> (r: bool)
    ensures
        r == contains_seq(hay@, needle@),
{
    let n = hay.len();
    let m = needle.len();
    if m > n {
        proof {
            if contains_seq(hay@, needle@) {
                let i = choose|i: int|
                    0 <= i && i + needle@.len() <= hay@.len() && #[trigger] hay@.subrange(
                        i,
                        i + needle@.len(),
                    ) == needle@;
            }
        }
        return false;
    }
    if m == 0 {
        proof {
            assert(hay@.subrange(0, 0 + needle@.len() as int) =~= needle@);
        }
        return true;
    }
    let mut i: usize = 0;
    while i <= n - m
        invariant
            1 <= m <= n,
            n == hay@.len(),
            m == needle@.len(),
            i <= n - m + 1,
            forall|k: int| 0 <= k < i ==> #[trigger] hay@.subrange(k, k + needle@.len()) != needle@,
        decreases n - m + 1 - i,
    {
        let mut j: usize = 0;
        let mut ok = true;
        while j < m && ok
            invariant
                m <= n,
                n == hay@.len(),
                m == needle@.len(),
                i + m <= n,
                j <= m,
                ok ==> forall|k: int| 0 <= k < j ==> hay@[i + k] == needle@[k],
                !ok ==> hay@.subrange(i as int, i + needle@.len()) != needle@,
            decreases m - j + (if ok {
                1int
            } else {
                0int
            }),
        {
            if hay[i + j] != needle[j] {
                proof {
                    assert(hay@.subrange(i as int, i + needle@.len())[j as int] != needle@[j as int]);
                }
                ok = false;
            } else {
                j += 1;
            }
        }
        if ok {
            proof {
                assert(hay@.subrange(i as int, i + needle@.len()) =~= needle@);
            }
            return true;
        }
        i += 1;
    }
    proof {
        if contains_seq(hay@, needle@) {
            let k = choose|k: int|
                0 <= k && k + needle@.len() <= hay@.len() && #[trigger] hay@.subrange(
                    k,
                    k + needle@.len(),
                ) == needle@;
            assert(k < i);
        }
    }
    false
}

/// Whether a callee is abstracted (skipped) rather than inlined: the
/// language's designated panic entry point, or panic machinery recognized
/// by a known substring of its descriptive module path.
pub open spec fn skip_spec(p: Procedure) -> bool {
    ||| p.is_panic_entry
    ||| contains_seq(p.name@, "std::rt::begin_panic_fmt".spec_bytes())
    ||| contains_seq(p.name@, "std::panicking::panicking".spec_bytes())
}

/// The skip policy: decides which callees are abstracted as single opaque
/// transitions instead of being inlined.
pub fn skip_function(proc: &Procedure) -> (r: bool)
    ensures
        r == skip_spec(*proc),
{
    if proc.is_panic_entry {
        return true;
    }
    if contains_sub(&proc.name, "std::rt::begin_panic_fmt".as_bytes()) {
        return true;
    }
    contains_sub(&proc.name, "std::panicking::panicking".as_bytes())
}

} // verus!
