//! Character-level helpers shared by the enrichment and filtering code.
use vstd::prelude::*;
use vstd::string::StrSliceExecFns;

verus! {

/// Unicode `White_Space` characters, the set that `char::is_whitespace` uses.
pub open spec fn is_space(c: char) -> bool {
    ('\u{9}' <= c && c <= '\u{d}') || c == ' ' || c == '\u{85}' || c == '\u{a0}'
        || c == '\u{1680}' || ('\u{2000}' <= c && c <= '\u{200a}') || c == '\u{2028}'
        || c == '\u{2029}' || c == '\u{202f}' || c == '\u{205f}' || c == '\u{3000}'
}

/// Index of the first non-space character at or after `i` (or `s.len()`).
pub open spec fn trim_start_from(s: Seq<char>, i: int) -> int
    decreases s.len() - i,
{
    if i >= s.len() || i < 0 {
        i
    } else if is_space(s[i]) {
        trim_start_from(s, i + 1)
    } else {
        i
    }
}

/// One past the last non-space character at or before `j - 1`, not below `lo`.
pub open spec fn trim_end_from(s: Seq<char>, lo: int, j: int) -> int
    decreases j - lo,
{
    if j <= lo {
        lo
    } else if is_space(s[j - 1]) {
        trim_end_from(s, lo, j - 1)
    } else {
        j
    }
}

/// `s` without its leading and trailing whitespace.
pub open spec fn trim(s: Seq<char>) -> Seq<char> {
    let a = trim_start_from(s, 0);
    s.subrange(a, trim_end_from(s, a, s.len() as int))
}

/// `t` occurs in `s` at position `i`.
pub open spec fn occurs_at(s: Seq<char>, t: Seq<char>, i: int) -> bool {
    0 <= i && i + t.len() <= s.len() && s.subrange(i, i + t.len()) == t
}

/// `t` occurs somewhere in `s`.
pub open spec fn contains(s: Seq<char>, t: Seq<char>) -> bool {
    exists|i: int| occurs_at(s, t, i)
}

pub fn is_space_char(c: char) -> (r: bool)
    ensures
        r == is_space(c),
{
    ('\u{9}' <= c && c <= '\u{d}') || c == ' ' || c == '\u{85}' || c == '\u{a0}'
        || c == '\u{1680}' || ('\u{2000}' <= c && c <= '\u{200a}') || c == '\u{2028}'
        || c == '\u{2029}' || c == '\u{202f}' || c == '\u{205f}' || c == '\u{3000}'
}

/// The characters of `s`, in order.
pub fn chars_of(s: &str) -> (r: Vec<char>)
    ensures
        r@ == s@,
{
    let n = s.unicode_len();
    let mut r: Vec<char> = Vec::new();
    let mut i: usize = 0;
    while i < n
        invariant
            n == s@.len(),
            i <= n,
            r@ == s@.subrange(0, i as int),
        decreases n - i,
    {
        r.push(s.get_char(i));
        i = i + 1;
    }
    assert(r@ == s@);
    r
}

/// Bounds `(a, b)` of the trimmed part of the first `hi` characters of `s`.
pub fn trim_bounds(s: &Vec<char>, hi: usize) -> (r: (usize, usize))
    requires
        hi <= s@.len(),
    ensures
        r.0 <= r.1 <= hi,
        s@.subrange(r.0 as int, r.1 as int) == trim(s@.subrange(0, hi as int)),
{
    let ghost t = s@.subrange(0, hi as int);
    let mut a: usize = 0;
    while a < hi && is_space_char(s[a])
        invariant
            a <= hi <= s@.len(),
            t == s@.subrange(0, hi as int),
            trim_start_from(t, a as int) == trim_start_from(t, 0),
        decreases hi - a,
    {
        a = a + 1;
    }
    let mut b: usize = hi;
    while b > a && is_space_char(s[b - 1])
        invariant
            a <= b <= hi <= s@.len(),
            t == s@.subrange(0, hi as int),
            trim_start_from(t, 0) == a,
            trim_end_from(t, a as int, b as int) == trim_end_from(t, a as int, hi as int),
        decreases b - a,
    {
        b = b - 1;
    }
    assert(s@.subrange(a as int, b as int) == t.subrange(a as int, b as int));
    (a, b)
}

/// Whether `t` occurs at position `i` of `s`.
fn occurs_at_exec(s: &Vec<char>, t: &Vec<char>, i: usize) -> (r: bool)
    requires
        i + t@.len() <= s@.len(),
    ensures
        r == occurs_at(s@, t@, i as int),
{
    let n = s.len();
    let mut k: usize = 0;
    while k < t.len()
        invariant
            n == s@.len(),
            i + t@.len() <= s@.len(),
            k <= t@.len(),
            forall|j: int| 0 <= j < k ==> s@[i + j] == t@[j],
        decreases t@.len() - k,
    {
        assert(i + k < s@.len());
        if s[i + k] != t[k] {
            assert(s@.subrange(i as int, i + t@.len())[k as int] != t@[k as int]);
            return false;
        }
        k = k + 1;
    }
    assert(s@.subrange(i as int, i + t@.len()) =~= t@);
    true
}

/// Whether `t` occurs anywhere in `s`.
pub fn contains_exec(s: &Vec<char>, t: &Vec<char>) -> (r: bool)
    ensures
        r == contains(s@, t@),
{
    if t.len() > s.len() {
        return false;
    }
    if t.len() == 0 {
        assert(s@.subrange(0, 0) =~= t@);
        assert(occurs_at(s@, t@, 0));
        return true;
    }
    let n = s.len();
    let last = n - t.len();
    let mut i: usize = 0;
    while i <= last
        invariant
            n == s@.len(),
            last == s@.len() - t@.len(),
            0 < t@.len() <= s@.len(),
            i <= last + 1,
            forall|j: int| 0 <= j < i ==> !occurs_at(s@, t@, j),
        decreases last + 1 - i,
    {
        if occurs_at_exec(s, t, i) {
            return true;
        }
        i = i + 1;
    }
    false
}

/// Builds a `String` from the characters of `v`.
pub fn string_of(v: &Vec<char>) -> (r: String)
    ensures
        r@ == v@,
{
    let mut r = String::new();
    let mut i: usize = 0;
    while i < v.len()
        invariant
            i <= v@.len(),
            r@ == v@.subrange(0, i as int),
        decreases v@.len() - i,
    {
        push_char(&mut r, v[i]);
        i = i + 1;
    }
    assert(r@ == v@);
    r
}

/// Relies on `String::push`: appends one character.
#[verifier::external_body]
fn push_char(s: &mut String, c: char)
    ensures
        final(s)@ == old(s)@.push(c),
{
    s.push(c)
}

} // verus!
