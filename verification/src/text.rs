//! Character-sequence helpers: conversions between `String` and
//! `Vec<char>`, case folding, and verified substring search.

use vstd::prelude::*;

verus! {

/// The Unicode lowercasing of a character sequence, as `str::to_lowercase`
/// computes it. The result depends on the characters alone.
pub uninterp spec fn lower_of(s: Seq<char>) -> Seq<char>;

/// Relies on `str::to_lowercase`: the Unicode lowercase of the string,
/// a function of its characters alone; an empty string stays empty.
#[verifier::external_body]
pub(crate) fn lowercase(s: &str) -> (r: String)
    ensures
        r@ == lower_of(s@),
        s@.len() == 0 ==> r@.len() == 0,
{
    s.to_lowercase()
}

/// Relies on `String::push`: appends exactly the given character.
#[verifier::external_body]
pub(crate) fn push_char(s: &mut String, c: char)
    ensures
        final(s)@ == old(s)@.push(c),
{
    s.push(c)
}

/// Collects the characters of a string slice into a vector.
pub fn chars_of(s: &str) -> (r: Vec<char>)
    ensures
        r@ == s@,
{
    let n = s.unicode_len();
    let mut r: Vec<char> = Vec::new();
    let mut i: usize = 0;
    while i < n
        invariant
            n == s@.len(),
            i <= n,
            r@ == s@.take(i as int),
        decreases n - i,
    {
        let c = s.get_char(i);
        r.push(c);
        i = i + 1;
        proof {
            assert(r@ =~= s@.take(i as int));
        }
    }
    proof {
        assert(r@ =~= s@);
    }
    r
}

/// Builds a string from a vector of characters.
pub fn chars_to_string(v: &Vec<char>) -> (s: String)
    ensures
        s@ == v@,
{
    let mut s = String::new();
    let mut i: usize = 0;
    while i < v.len()
        invariant
            i <= v@.len(),
            s@ == v@.take(i as int),
        decreases v@.len() - i,
    {
        push_char(&mut s, v[i]);
        i = i + 1;
        proof {
            assert(s@ =~= v@.take(i as int));
        }
    }
    proof {
        assert(s@ =~= v@);
    }
    s
}

/// Whether `p` occurs in `t` starting at position `i`.
pub open spec fn occurs_at(t: Seq<char>, p: Seq<char>, i: int) -> bool {
    0 <= i && i + p.len() <= t.len() && t.subrange(i, i + p.len()) =~= p
}

/// Whether `p` occurs as a contiguous subsequence of `t`.
pub open spec fn seq_contains(t: Seq<char>, p: Seq<char>) -> bool {
    exists|i: int| #[trigger] occurs_at(t, p, i)
}

/// Verified substring search: does `p` occur anywhere in `t`?
pub fn contains_chars(t: &Vec<char>, p: &Vec<char>) -> (r: bool)
    ensures
        r == seq_contains(t@, p@),
{
    if p.len() > t.len() {
        proof {
            assert(forall|i: int| !occurs_at(t@, p@, i));
        }
        return false;
    }
    if p.len() == 0 {
        proof {
            assert(t@.subrange(0, 0) =~= p@);
            assert(occurs_at(t@, p@, 0));
        }
        return true;
    }
    let tl = t.len();
    let pl = p.len();
    let bound = tl - pl;
    let mut i: usize = 0;
    while i <= bound
        invariant
            tl == t@.len(),
            pl == p@.len(),
            bound == tl - pl,
            1 <= pl <= tl,
            i <= bound + 1,
            forall|k: int| 0 <= k < i ==> !occurs_at(t@, p@, k),
        decreases bound + 1 - i,
    {
        let mut j: usize = 0;
        let mut all_eq = true;
        while j < pl
            invariant
                tl == t@.len(),
                pl == p@.len(),
                bound == tl - pl,
                i <= bound,
                j <= pl,
                all_eq == (t@.subrange(i as int, i + j) =~= p@.take(j as int)),
            decreases pl - j,
        {
            if t[i + j] != p[j] {
                all_eq = false;
                proof {
                    assert(t@.subrange(i as int, i + j + 1)[j as int] != p@.take(j as int + 1)[j as int]);
                }
            } else {
                proof {
                    if all_eq {
                        assert(t@.subrange(i as int, i + j + 1) =~= p@.take(j as int + 1));
                    } else {
                        let jj = choose|jj: int|
                            0 <= jj < j && t@.subrange(i as int, i + j)[jj] != p@.take(j as int)[jj];
                        assert(t@.subrange(i as int, i + j + 1)[jj] != p@.take(j as int + 1)[jj]);
                    }
                }
            }
            j = j + 1;
        }
        if all_eq {
            proof {
                assert(p@.take(p@.len() as int) =~= p@);
                assert(occurs_at(t@, p@, i as int));
            }
            return true;
        }
        proof {
            assert(!occurs_at(t@, p@, i as int)) by {
                if occurs_at(t@, p@, i as int) {
                    assert(t@.subrange(i as int, i + p@.len()) =~= p@.take(p@.len() as int));
                }
            }
        }
        i = i + 1;
    }
    proof {
        assert(forall|k: int| occurs_at(t@, p@, k) ==> 0 <= k < i);
    }
    false
}

/// Case-folded containment, as the rule matcher uses it: whether the
/// lowercase form of `needle` occurs in the lowercase form of `hay`.
pub fn fold_contains(hay: &str, needle: &str) -> (r: bool)
    ensures
        r == seq_contains(lower_of(hay@), lower_of(needle@)),
{
    let h = lowercase(hay);
    let n = lowercase(needle);
    let hv = chars_of(h.as_str());
    let nv = chars_of(n.as_str());
    contains_chars(&hv, &nv)
}

/// Exact (case-sensitive) containment on string slices.
pub fn str_contains(hay: &str, needle: &str) -> (r: bool)
    ensures
        r == seq_contains(hay@, needle@),
{
    let hv = chars_of(hay);
    let nv = chars_of(needle);
    contains_chars(&hv, &nv)
}

/// Whether two character sequences are equal up to ASCII letter case.
pub open spec fn eq_ascii_nocase(a: Seq<char>, b: Seq<char>) -> bool {
    a.map_values(|c: char| crate::color::ascii_lower(c))
        =~= b.map_values(|c: char| crate::color::ascii_lower(c))
}

/// Compares two character vectors ignoring ASCII letter case.
pub fn chars_eq_nocase(a: &Vec<char>, b: &Vec<char>) -> (r: bool)
    ensures
        r == eq_ascii_nocase(a@, b@),
{
    let ghost la = a@.map_values(|c: char| crate::color::ascii_lower(c));
    let ghost lb = b@.map_values(|c: char| crate::color::ascii_lower(c));
    if a.len() != b.len() {
        return false;
    }
    let mut i: usize = 0;
    while i < a.len()
        invariant
            a@.len() == b@.len(),
            i <= a@.len(),
            la == a@.map_values(|c: char| crate::color::ascii_lower(c)),
            lb == b@.map_values(|c: char| crate::color::ascii_lower(c)),
            forall|k: int| 0 <= k < i ==> la[k] == lb[k],
        decreases a@.len() - i,
    {
        let ca = a[i];
        let cb = b[i];
        let la_i = if 'A' <= ca && ca <= 'Z' { (((ca as u8) + 32) as char) } else { ca };
        let lb_i = if 'A' <= cb && cb <= 'Z' { (((cb as u8) + 32) as char) } else { cb };
        if la_i != lb_i {
            proof {
                assert(la[i as int] != lb[i as int]);
            }
            return false;
        }
        i = i + 1;
    }
    proof {
        assert(la =~= lb);
    }
    true
}

} // verus!
