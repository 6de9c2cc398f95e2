//! Substring search over character sequences, used by the name-search
//! queries. The empty pattern occurs in every string.

#![verifier::loop_isolation(false)]

use vstd::prelude::*;
use vstd::string::StrSliceExecFns;

verus! {

/// Whether `pat` occurs contiguously inside `s`.
pub open spec fn is_substring(pat: Seq<char>, s: Seq<char>) -> bool {
    exists|i: int| 0 <= i <= s.len() - pat.len() && #[trigger] s.subrange(i, i + pat.len()) == pat
}

/// Whether `pat` occurs in `s`, by scanning every starting position.
pub fn str_contains(s: &String, pat: &String) -> (r: bool)
    ensures
        r == is_substring(pat@, s@),
{
    let n = s.as_str().unicode_len();
    let m = pat.as_str().unicode_len();
    if m > n {
        return false;
    }
    let mut i: usize = 0;
    while i <= n - m
        invariant
            i <= n - m + 1,
            forall|k: int| 0 <= k < i ==> #[trigger] s@.subrange(k, k + pat@.len() as int) != pat@,
        decreases n - m - i + 1,
    {
        let mut j: usize = 0;
        let mut all_eq = true;
        while j < m
            invariant
                j <= m,
                i + m <= n,
                all_eq == (forall|k: int| 0 <= k < j ==> s@[i + k] == #[trigger] pat@[k]),
            decreases m - j,
        {
            let sc = s.as_str().get_char(i + j);
            let pc = pat.as_str().get_char(j);
            if sc != pc {
                all_eq = false;
            }
            j = j + 1;
        }
        if all_eq {
            proof {
                assert(s@.subrange(i as int, i as int + pat@.len() as int) =~= pat@);
            }
            return true;
        }
        proof {
            assert(s@.subrange(i as int, i as int + pat@.len() as int) != pat@) by {
                if s@.subrange(i as int, i as int + pat@.len() as int) == pat@ {
                    assert forall|k: int| 0 <= k < m implies s@[i + k] == #[trigger] pat@[k] by {
                        assert(pat@[k] == s@.subrange(i as int, i as int + pat@.len() as int)[k]);
                    }
                    assert(false);
                }
            }
        }
        i = i + 1;
    }
    false
}

} // verus!
