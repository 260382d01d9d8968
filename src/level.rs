//! Severity detection from a fixed, ordered vocabulary.
use vstd::prelude::*;

use crate::text::{chars_of, contains, contains_exec, occurs_at, string_of};

verus! {

/// The severity tokens, in the order in which they are looked for.
pub open spec fn vocabulary() -> Seq<Seq<char>> {
    seq![
        seq!['D', 'E', 'B', 'U', 'G'],
        seq!['I', 'N', 'F', 'O'],
        seq!['W', 'A', 'R', 'N'],
        seq!['W', 'A', 'R', 'N', 'I', 'N', 'G'],
        seq!['E', 'R', 'R', 'O', 'R'],
        seq!['C', 'R', 'I', 'T', 'I', 'C', 'A', 'L'],
    ]
}

/// ASCII upper-casing of one character; others are left alone.
pub open spec fn upper_char(c: char) -> char {
    match c {
        'a' => 'A', 'b' => 'B', 'c' => 'C', 'd' => 'D', 'e' => 'E', 'f' => 'F', 'g' => 'G', 'h' => 'H', 'i' => 'I', 'j' => 'J', 'k' => 'K', 'l' => 'L', 'm' => 'M', 'n' => 'N', 'o' => 'O', 'p' => 'P', 'q' => 'Q', 'r' => 'R', 's' => 'S', 't' => 'T', 'u' => 'U', 'v' => 'V', 'w' => 'W', 'x' => 'X', 'y' => 'Y', 'z' => 'Z',
        _ => c,
    }
}

pub open spec fn upper(s: Seq<char>) -> Seq<char> {
    s.map_values(|c: char| upper_char(c))
}

/// Index of the first token, from `k` on, that occurs in `u`.
pub open spec fn first_token_from(u: Seq<char>, k: int) -> Option<int>
    decreases 6 - k,
{
    if k >= 6 || k < 0 {
        None
    } else if contains(u, vocabulary()[k]) {
        Some(k)
    } else {
        first_token_from(u, k + 1)
    }
}

/// The severity token detected in `line`, if any.
pub open spec fn detected_level(line: Seq<char>) -> Option<Seq<char>> {
    match first_token_from(upper(line), 0) {
        Some(k) => Some(vocabulary()[k]),
        None => None,
    }
}

fn upper_char_exec(c: char) -> (r: char)
    ensures
        r == upper_char(c),
{
    match c {
        'a' => 'A', 'b' => 'B', 'c' => 'C', 'd' => 'D', 'e' => 'E', 'f' => 'F', 'g' => 'G', 'h' => 'H', 'i' => 'I', 'j' => 'J', 'k' => 'K', 'l' => 'L', 'm' => 'M', 'n' => 'N', 'o' => 'O', 'p' => 'P', 'q' => 'Q', 'r' => 'R', 's' => 'S', 't' => 'T', 'u' => 'U', 'v' => 'V', 'w' => 'W', 'x' => 'X', 'y' => 'Y', 'z' => 'Z',
        _ => c,
    }
}

/// The upper-cased characters of `s`.
fn upper_chars(s: &str) -> (r: Vec<char>)
    ensures
        r@ == upper(s@),
{
    let cs = chars_of(s);
    let mut r: Vec<char> = Vec::new();
    let mut i: usize = 0;
    while i < cs.len()
        invariant
            cs@ == s@,
            i <= cs@.len(),
            r@ == upper(s@).subrange(0, i as int),
        decreases cs@.len() - i,
    {
        r.push(upper_char_exec(cs[i]));
        i = i + 1;
    }
    assert(r@ == upper(s@));
    r
}

fn token(k: usize) -> (r: Vec<char>)
    requires
        k < 6,
    ensures
        r@ == vocabulary()[k as int],
{
    let r = if k == 0 {
        vec!['D', 'E', 'B', 'U', 'G']
    } else if k == 1 {
        vec!['I', 'N', 'F', 'O']
    } else if k == 2 {
        vec!['W', 'A', 'R', 'N']
    } else if k == 3 {
        vec!['W', 'A', 'R', 'N', 'I', 'N', 'G']
    } else if k == 4 {
        vec!['E', 'R', 'R', 'O', 'R']
    } else {
        vec!['C', 'R', 'I', 'T', 'I', 'C', 'A', 'L']
    };
    assert(r@ =~= vocabulary()[k as int]);
    r
}

/// The first token of the vocabulary, in its fixed order, that occurs in the
/// ASCII upper-cased line; a line with `WARNING` in it therefore gives `WARN`.
pub fn detect_level(line: &str) -> (r: Option<String>)
    ensures
        r matches Some(t) ==> detected_level(line@) == Some(t@),
        r is None ==> detected_level(line@) is None,
{
    let u = upper_chars(line);
    let mut k: usize = 0;
    while k < 6
        invariant
            u@ == upper(line@),
            k <= 6,
            first_token_from(u@, 0) == first_token_from(u@, k as int),
        decreases 6 - k,
    {
        let t = token(k);
        if contains_exec(&u, &t) {
            return Some(string_of(&t));
        }
        k = k + 1;
    }
    None
}

/// Detection gives one of the six tokens of the vocabulary, or nothing.
pub proof fn lemma_detected_in_vocabulary(line: Seq<char>)
    ensures
        detected_level(line) is None || vocabulary().contains(detected_level(line)->0),
{
    let u = upper(line);
    if let Some(k) = first_token_from(u, 0) {
        lemma_first_token_range(u, 0);
        assert(vocabulary()[k] == detected_level(line)->0);
    }
}

proof fn lemma_first_token_range(u: Seq<char>, k: int)
    ensures
        first_token_from(u, k) matches Some(j) ==> 0 <= j < 6 && j >= k,
    decreases 6 - k,
{
    if 0 <= k < 6 {
        lemma_first_token_range(u, k + 1);
    }
}

/// A line holding `WARNING` but neither `DEBUG` nor `INFO` (in any case) is
/// reported as `WARN`: the shorter token comes first in the scan.
pub proof fn lemma_warning_reads_as_warn(line: Seq<char>)
    requires
        contains(upper(line), vocabulary()[3]),
        !contains(upper(line), vocabulary()[0]),
        !contains(upper(line), vocabulary()[1]),
    ensures
        detected_level(line) == Some(vocabulary()[2]),
{
    let u = upper(line);
    let i = choose|i: int| occurs_at(u, vocabulary()[3], i);
    assert(u.subrange(i, i + 4) =~= u.subrange(i, i + 7).subrange(0, 4));
    assert(vocabulary()[3].subrange(0, 4) =~= vocabulary()[2]);
    assert(occurs_at(u, vocabulary()[2], i));
    assert(contains(u, vocabulary()[2]));
    assert(first_token_from(u, 2) == Some(2int));
    assert(first_token_from(u, 1) == first_token_from(u, 2));
    assert(first_token_from(u, 0) == first_token_from(u, 1));
}

} // verus!
