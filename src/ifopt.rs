//! IFOPT references: `de:<area>:<stop>[:<subnode>...]`.
use vstd::prelude::*;

verus! {

/// Number of `:` in `s`.
pub open spec fn count_colons(s: Seq<char>) -> nat
    decreases s.len(),
{
    if s.len() == 0 {
        0
    } else {
        count_colons(s.drop_last()) + if s.last() == ':' {
            1nat
        } else {
            0nat
        }
    }
}

/// `k` is the position of the third `:` of `s`.
pub open spec fn is_third_colon(s: Seq<char>, k: int) -> bool {
    0 <= k < s.len() && s[k] == ':' && count_colons(s.subrange(0, k)) == 2
}

/// The parent station of an IFOPT reference: its first three
/// colon-separated parts, or the whole text where it has fewer than four.
pub open spec fn station_id_of(s: Seq<char>) -> Seq<char> {
    if exists|k: int| is_third_colon(s, k) {
        s.subrange(0, choose|k: int| is_third_colon(s, k))
    } else {
        s
    }
}

proof fn lemma_count_colons_monotone(s: Seq<char>, a: int, b: int)
    requires
        0 <= a <= b <= s.len(),
    ensures
        count_colons(s.subrange(0, a)) <= count_colons(s.subrange(0, b)),
    decreases b - a,
{
    if a < b {
        lemma_count_colons_monotone(s, a, b - 1);
        assert(s.subrange(0, b).drop_last() =~= s.subrange(0, b - 1));
    }
}

proof fn lemma_third_colon_unique(s: Seq<char>, k1: int, k2: int)
    requires
        is_third_colon(s, k1),
        is_third_colon(s, k2),
    ensures
        k1 == k2,
{
    if k1 < k2 {
        lemma_count_colons_monotone(s, k1 + 1, k2);
        assert(s.subrange(0, k1 + 1).drop_last() =~= s.subrange(0, k1));
    } else if k2 < k1 {
        lemma_count_colons_monotone(s, k2 + 1, k1);
        assert(s.subrange(0, k2 + 1).drop_last() =~= s.subrange(0, k2));
    }
}

/// The station part of an IFOPT reference:
/// `"de:09761:692:31:a"` gives `"de:09761:692"`, `"x:y"` stays `"x:y"`.
pub fn extract_station_id(ifopt_ref: &str) -> (r: String)
    ensures
        r@ == station_id_of(ifopt_ref@),
{
    let n = ifopt_ref.unicode_len();
    let mut i: usize = 0;
    let mut colons: usize = 0;
    while i < n
        invariant
            n == ifopt_ref@.len(),
            i <= n,
            colons == count_colons(ifopt_ref@.subrange(0, i as int)),
            colons <= 2,
            forall|j: int| 0 <= j < i ==> !is_third_colon(ifopt_ref@, j),
        decreases n - i,
    {
        let c = ifopt_ref.get_char(i);
        proof {
            assert(ifopt_ref@.subrange(0, i + 1).drop_last() =~= ifopt_ref@.subrange(0, i as int));
        }
        if c == ':' {
            if colons == 2 {
                proof {
                    let s = ifopt_ref@;
                    assert(is_third_colon(s, i as int));
                    let k = choose|k: int| is_third_colon(s, k);
                    lemma_third_colon_unique(s, k, i as int);
                }
                return ifopt_ref.substring_char(0, i).to_owned();
            }
            colons = colons + 1;
        }
        i = i + 1;
    }
    proof {
        assert(ifopt_ref@.subrange(0, n as int) =~= ifopt_ref@);
        assert(!exists|k: int| is_third_colon(ifopt_ref@, k));
    }
    ifopt_ref.to_owned()
}

} // verus!
