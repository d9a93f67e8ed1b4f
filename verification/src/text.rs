//! Plain string utilities: equality, pattern matching at a position, and
//! literal substring substitution, each specified over `Seq<char>`.

use vstd::prelude::*;
use vstd::string::StrSliceExecFns;
use vstd::string::StringExecFns;

verus! {

/// The pattern occurs in `s` at position `i`.
pub open spec fn match_at(s: Seq<char>, pat: Seq<char>, i: int) -> bool {
    &&& 0 <= i
    &&& i + pat.len() <= s.len()
    &&& s.subrange(i, i + pat.len()) == pat
}

/// Left-to-right, non-overlapping substitution of every occurrence of
/// `pat` by `rep`; the replacement text is not rescanned.  An empty
/// pattern is never substituted.
pub open spec fn replace_all(s: Seq<char>, pat: Seq<char>, rep: Seq<char>) -> Seq<char>
    decreases s.len(),
{
    if pat.len() == 0 || s.len() < pat.len() {
        s
    } else if s.subrange(0, pat.len() as int) == pat {
        rep + replace_all(s.subrange(pat.len() as int, s.len() as int), pat, rep)
    } else {
        seq![s[0]] + replace_all(s.subrange(1, s.len() as int), pat, rep)
    }
}

/// Character-for-character equality of two string slices.
pub fn str_eq(a: &str, b: &str) -> (r: bool)
    ensures
        r == (a@ == b@),
{
    let alen = a.unicode_len();
    let blen = b.unicode_len();
    if alen != blen {
        proof {
            assert(a@.len() != b@.len());
        }
        return false;
    }
    let mut i: usize = 0;
    while i < alen
        invariant
            i <= alen,
            alen == a@.len(),
            alen == b@.len(),
            forall|j: int| 0 <= j < i ==> a@[j] == b@[j],
        decreases alen - i,
    {
        if a.get_char(i) != b.get_char(i) {
            proof {
                assert(a@[i as int] != b@[i as int]);
            }
            return false;
        }
        i = i + 1;
    }
    proof {
        assert(a@ =~= b@);
    }
    true
}

/// Whether `pat` occurs in `s` at position `i`.
fn matches_at(s: &str, pat: &str, i: usize) -> (r: bool)
    requires
        i + pat@.len() <= s@.len(),
    ensures
        r == match_at(s@, pat@, i as int),
{
    let slen = s.unicode_len();
    let plen = pat.unicode_len();
    let mut j: usize = 0;
    while j < plen
        invariant
            j <= plen,
            plen == pat@.len(),
            slen == s@.len(),
            i + plen <= slen,
            forall|k: int| 0 <= k < j ==> s@[i + k] == pat@[k],
        decreases plen - j,
    {
        if s.get_char(i + j) != pat.get_char(j) {
            proof {
                assert(s@.subrange(i as int, i + pat@.len())[j as int] != pat@[j as int]);
            }
            return false;
        }
        j = j + 1;
    }
    proof {
        assert(s@.subrange(i as int, i + pat@.len()) =~= pat@);
    }
    true
}

/// Every occurrence of `pat` in `s` replaced by `rep`, as `replace_all`
/// describes.
pub fn replace(s: &str, pat: &str, rep: &str) -> (r: String)
    requires
        pat@.len() > 0,
    ensures
        r@ == replace_all(s@, pat@, rep@),
{
    let slen = s.unicode_len();
    let plen = pat.unicode_len();
    let mut out = String::new();
    let mut i: usize = 0;
    proof {
        assert(s@.subrange(0, slen as int) =~= s@);
        assert(out@ + replace_all(s@, pat@, rep@) =~= replace_all(s@, pat@, rep@));
    }
    while plen <= slen && i <= slen - plen
        invariant
            i <= slen,
            slen == s@.len(),
            plen == pat@.len(),
            plen > 0,
            replace_all(s@, pat@, rep@) == out@ + replace_all(
                s@.subrange(i as int, slen as int),
                pat@,
                rep@,
            ),
        decreases slen - i,
    {
        let ghost tail = s@.subrange(i as int, slen as int);
        if matches_at(s, pat, i) {
            out.append(rep);
            proof {
                assert(tail.subrange(0, plen as int) =~= s@.subrange(i as int, i + plen));
                assert(tail.subrange(plen as int, tail.len() as int) =~= s@.subrange(
                    (i + plen) as int,
                    slen as int,
                ));
                assert(replace_all(tail, pat@, rep@) == rep@ + replace_all(
                    s@.subrange((i + plen) as int, slen as int),
                    pat@,
                    rep@,
                ));
                assert(out@ + replace_all(s@.subrange((i + plen) as int, slen as int), pat@, rep@)
                    =~= replace_all(s@, pat@, rep@));
            }
            i = i + plen;
        } else {
            let c = s.substring_char(i, i + 1);
            out.append(c);
            proof {
                assert(tail.subrange(0, plen as int) =~= s@.subrange(i as int, i + plen));
                assert(tail.subrange(0, plen as int) != pat@);
                assert(c@ =~= seq![s@[i as int]]);
                assert(tail.subrange(1, tail.len() as int) =~= s@.subrange(
                    (i + 1) as int,
                    slen as int,
                ));
                assert(replace_all(tail, pat@, rep@) == seq![tail[0]] + replace_all(
                    s@.subrange((i + 1) as int, slen as int),
                    pat@,
                    rep@,
                ));
                assert(seq![tail[0]] =~= c@);
                assert(out@ + replace_all(s@.subrange((i + 1) as int, slen as int), pat@, rep@)
                    =~= replace_all(s@, pat@, rep@));
            }
            i = i + 1;
        }
    }
    let rest = s.substring_char(i, slen);
    out.append(rest);
    proof {
        let tail = s@.subrange(i as int, slen as int);
        assert(replace_all(tail, pat@, rep@) == tail);
        assert(out@ =~= replace_all(s@, pat@, rep@));
    }
    out
}

} // verus!
