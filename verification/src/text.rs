//! Character and string helpers: trimming, equality, ASCII lowercasing.

use vstd::prelude::*;

verus! {

/// Whitespace characters stripped from the ends of an input line.
pub open spec fn is_space_char(c: char) -> bool {
    c == ' ' || c == '\t' || c == '\n' || c == '\r' || c == '\u{c}'
}

/// ASCII lowercasing of a single character; other characters are unchanged.
pub open spec fn lower_char(c: char) -> char {
    if 65 <= c as u32 && c as u32 <= 90 {
        (c as u32 + 32) as char
    } else {
        c
    }
}

/// ASCII lowercasing of a character sequence.
pub open spec fn lower(s: Seq<char>) -> Seq<char> {
    s.map_values(|c: char| lower_char(c))
}

/// `s` with leading whitespace removed.
pub open spec fn trim_front(s: Seq<char>) -> Seq<char>
    decreases s.len(),
{
    if s.len() > 0 && is_space_char(s[0]) {
        trim_front(s.drop_first())
    } else {
        s
    }
}

/// `s` with trailing whitespace removed.
pub open spec fn trim_back(s: Seq<char>) -> Seq<char>
    decreases s.len(),
{
    if s.len() > 0 && is_space_char(s.last()) {
        trim_back(s.drop_last())
    } else {
        s
    }
}

/// `s` with whitespace removed from both ends.
pub open spec fn trimmed(s: Seq<char>) -> Seq<char> {
    trim_back(trim_front(s))
}

/// Whether `c` is one of the whitespace characters trimmed from line ends.
fn is_space(c: char) -> (r: bool)
    ensures
        r == is_space_char(c),
{
    c == ' ' || c == '\t' || c == '\n' || c == '\r' || c == '\u{c}'
}

/// The slice of `s` with whitespace removed from both ends.
pub fn trim(s: &str) -> (r: &str)
    ensures
        r@ == trimmed(s@),
{
    let len = s.unicode_len();
    let mut start: usize = 0;
    proof {
        assert(s@.skip(0) =~= s@);
    }
    while start < len && is_space(s.get_char(start))
        invariant
            start <= len == s@.len(),
            trim_front(s@) == trim_front(s@.skip(start as int)),
        decreases len - start,
    {
        proof {
            let u = s@.skip(start as int);
            assert(u[0] == s@[start as int]);
            assert(u.drop_first() =~= s@.skip(start + 1));
        }
        start = start + 1;
    }
    proof {
        let u = s@.skip(start as int);
        if start < len {
            assert(u[0] == s@[start as int]);
        }
        assert(trim_front(s@) == u);
        assert(u =~= s@.subrange(start as int, len as int));
    }
    let mut end: usize = len;
    while end > start && is_space(s.get_char(end - 1))
        invariant
            start <= end <= len == s@.len(),
            trim_front(s@) == s@.subrange(start as int, len as int),
            trim_back(s@.subrange(start as int, len as int)) == trim_back(
                s@.subrange(start as int, end as int),
            ),
        decreases end,
    {
        proof {
            let v = s@.subrange(start as int, end as int);
            assert(v.last() == s@[end - 1]);
            assert(v.drop_last() =~= s@.subrange(start as int, end - 1));
        }
        end = end - 1;
    }
    proof {
        let v = s@.subrange(start as int, end as int);
        if end > start {
            assert(v.last() == s@[end - 1]);
        }
        assert(trim_back(v) == v);
    }
    s.substring_char(start, end)
}

/// Whether two string slices hold the same characters.
pub fn str_eq(a: &str, b: &str) -> (r: bool)
    ensures
        r == (a@ == b@),
{
    let la = a.unicode_len();
    let lb = b.unicode_len();
    if la != lb {
        return false;
    }
    let mut i: usize = 0;
    while i < la
        invariant
            i <= la == a@.len(),
            la == lb == b@.len(),
            forall|j: int| 0 <= j < i ==> a@[j] == b@[j],
        decreases la - i,
    {
        if a.get_char(i) != b.get_char(i) {
            return false;
        }
        i = i + 1;
    }
    proof {
        assert(a@ =~= b@);
    }
    true
}

/// Whether `lower_char(a) == b`.
fn char_eq_lower(a: char, b: char) -> (r: bool)
    ensures
        r == (lower_char(a) == b),
{
    let ua = a as u32;
    let ub = b as u32;
    if 65 <= ua && ua <= 90 {
        ua + 32 == ub
    } else {
        a == b
    }
}

/// Whether `a`, lowercased ASCII-wise, equals `b` exactly.
pub fn eq_lowercase(a: &str, b: &str) -> (r: bool)
    ensures
        r == (lower(a@) == b@),
{
    let la = a.unicode_len();
    let lb = b.unicode_len();
    if la != lb {
        proof {
            assert(lower(a@).len() == a@.len());
        }
        return false;
    }
    let mut i: usize = 0;
    while i < la
        invariant
            i <= la == a@.len(),
            la == lb == b@.len(),
            forall|j: int| 0 <= j < i ==> lower_char(a@[j]) == b@[j],
        decreases la - i,
    {
        if !char_eq_lower(a.get_char(i), b.get_char(i)) {
            proof {
                assert(lower(a@)[i as int] == lower_char(a@[i as int]));
            }
            return false;
        }
        i = i + 1;
    }
    proof {
        assert(lower(a@) =~= b@);
    }
    true
}

} // verus!
