//! Verified text matching for the command dispatcher: equality, prefix and
//! suffix tests, substring extraction, and first-occurrence search.
use vstd::prelude::*;
use vstd::string::StrSliceExecFns;
use vstd::string::StringExecFns;

verus! {

pub open spec fn spec_prefix(s: Seq<char>, p: Seq<char>) -> bool {
    p.len() <= s.len() && s.subrange(0, p.len() as int) == p
}

pub open spec fn spec_suffix(s: Seq<char>, p: Seq<char>) -> bool {
    p.len() <= s.len() && s.subrange(s.len() - p.len(), s.len() as int) == p
}

/// The first position at or after `i` where `p` occurs in `s`, or `-1`.
pub open spec fn spec_find(s: Seq<char>, p: Seq<char>, i: int) -> int
    decreases s.len() + 1 - i,
{
    if i < 0 || i + p.len() > s.len() {
        -1
    } else if s.subrange(i, i + p.len()) == p {
        i
    } else {
        spec_find(s, p, i + 1)
    }
}

/// Whether two pieces of text are equal.
pub fn str_eq_str(a: &str, b: &str) -> (r: bool)
    ensures
        r == (a@ == b@),
{
    let sa = a.to_owned();
    let sb = b.to_owned();
    sa == sb
}

/// Whether `p` begins `s`.
pub fn str_prefix(s: &str, p: &str) -> (r: bool)
    ensures
        r == spec_prefix(s@, p@),
{
    let n = p.unicode_len();
    if s.unicode_len() < n {
        return false;
    }
    let head = s.substring_char(0, n);
    str_eq_str(head, p)
}

/// Whether `p` ends `s`.
pub fn str_suffix(s: &str, p: &str) -> (r: bool)
    ensures
        r == spec_suffix(s@, p@),
{
    let n = p.unicode_len();
    let m = s.unicode_len();
    if m < n {
        return false;
    }
    let tail = s.substring_char(m - n, m);
    str_eq_str(tail, p)
}

/// The text between two character positions, owned.
pub fn substr_string(s: &str, from: usize, to: usize) -> (r: String)
    requires
        from <= to <= s@.len(),
    ensures
        r@ == s@.subrange(from as int, to as int),
{
    s.substring_char(from, to).to_owned()
}

/// The first occurrence of `p` in `s`.
pub fn find_first(s: &str, p: &str) -> (r: Option<usize>)
    ensures
        r is Some <==> spec_find(s@, p@, 0) >= 0,
        r is Some ==> r->0 as int == spec_find(s@, p@, 0) && r->0 + p@.len() <= s@.len(),
{
    let n = p.unicode_len();
    let m = s.unicode_len();
    if m < n {
        proof {
            lemma_spec_find_none(s@, p@, 0);
        }
        return None;
    }
    if n == 0 {
        proof {
            assert(s@.subrange(0, 0) =~= p@);
        }
        return Some(0);
    }
    let mut i: usize = 0;
    while i <= m - n
        invariant
            i as int <= m - n + 1,
            1 <= n,
            n == p@.len(),
            m == s@.len(),
            n <= m,
            spec_find(s@, p@, 0) == spec_find(s@, p@, i as int),
        decreases m - i,
    {
        let piece = s.substring_char(i, i + n);
        if str_eq_str(piece, p) {
            return Some(i);
        }
        i += 1;
    }
    proof {
        assert(spec_find(s@, p@, i as int) == -1);
    }
    None
}

proof fn lemma_spec_find_none(s: Seq<char>, p: Seq<char>, i: int)
    requires
        s.len() < p.len(),
        i >= 0,
    ensures
        spec_find(s, p, i) == -1,
{
}

} // verus!
