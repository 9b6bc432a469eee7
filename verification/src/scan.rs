//! Scanning arbitrary text for dice-notation tokens: non-overlapping
//! occurrences of `<digits>d<digits>`, leftmost first, each digit run greedy,
//! and the model of substituting roll values back into the surrounding text.

use vstd::prelude::*;

use crate::digits::dec_rep;
use crate::digits::is_digit;
use crate::digits::is_digit_char;

verus! {

/// The end of the digit run beginning at `i`: the first position at or after
/// `i` that is past the end of `s` or holds a non-digit.
pub open spec fn run_end(s: Seq<char>, i: int) -> int
    recommends
        0 <= i <= s.len(),
    decreases s.len() - i,
{
    if i < s.len() && is_digit(s[i]) {
        run_end(s, i + 1)
    } else {
        i
    }
}

/// The digit run beginning at `i` stays inside `s`, holds only digits, and is
/// maximal: the character right after it, if any, is not a digit.
pub proof fn lemma_run_end(s: Seq<char>, i: int)
    requires
        0 <= i <= s.len(),
    ensures
        i <= run_end(s, i) <= s.len(),
        forall|p: int| i <= p < run_end(s, i) ==> is_digit(s[p]),
        run_end(s, i) < s.len() ==> !is_digit(s[run_end(s, i)]),
    decreases s.len() - i,
{
    if i < s.len() && is_digit(s[i]) {
        lemma_run_end(s, i + 1);
    }
}

/// A dice token occurs at position `i` of `s`: a digit run, then `'d'`, then
/// at least one more digit.
pub open spec fn match_at(s: Seq<char>, i: int) -> bool {
    &&& 0 <= i < s.len()
    &&& is_digit(s[i])
    &&& run_end(s, i) < s.len()
    &&& s[run_end(s, i)] == 'd'
    &&& run_end(s, i) + 1 < s.len()
    &&& is_digit(s[run_end(s, i) + 1])
}

/// Where the token at `i` ends: the end of the greedy digit run after the
/// `'d'`.
pub open spec fn match_end(s: Seq<char>, i: int) -> int
    recommends
        match_at(s, i),
{
    run_end(s, run_end(s, i) + 1)
}

/// A token starting at `i` ends strictly after `i` and inside `s`.
pub proof fn lemma_match_end_bounds(s: Seq<char>, i: int)
    requires
        match_at(s, i),
    ensures
        i < match_end(s, i) <= s.len(),
{
    lemma_run_end(s, i);
    lemma_run_end(s, run_end(s, i) + 1);
}

/// The texts of the dice tokens found in `s` from position `i` on, leftmost
/// first and non-overlapping: after a token is found, scanning resumes at its
/// end; everywhere else it advances one character at a time.
pub open spec fn matches_from(s: Seq<char>, i: int) -> Seq<Seq<char>>
    recommends
        0 <= i <= s.len(),
    decreases s.len() - i,
{
    if i >= s.len() {
        Seq::empty()
    } else if match_at(s, i) {
        proof {
            lemma_match_end_bounds(s, i);
        }
        seq![s.subrange(i, match_end(s, i))] + matches_from(s, match_end(s, i))
    } else {
        matches_from(s, i + 1)
    }
}

/// The text of `s` from position `i` on after substitution: each dice token
/// is replaced by the decimal representation of the corresponding element of
/// `draws`, in scan order; all other characters are kept.
pub open spec fn substituted_from(s: Seq<char>, i: int, draws: Seq<u32>) -> Seq<char>
    recommends
        0 <= i <= s.len(),
    decreases s.len() - i,
{
    if i >= s.len() {
        Seq::empty()
    } else if match_at(s, i) {
        proof {
            lemma_match_end_bounds(s, i);
        }
        dec_rep(draws.first() as nat) + substituted_from(s, match_end(s, i), draws.drop_first())
    } else {
        seq![s[i]] + substituted_from(s, i + 1, draws)
    }
}

/// Text in which the scan finds no dice token passes through substitution
/// unchanged: from any position `i` on, substituting with no draws yields the
/// text itself.
pub proof fn lemma_no_matches_passthrough(s: Seq<char>, i: int)
    requires
        0 <= i <= s.len(),
        matches_from(s, i).len() == 0,
    ensures
        substituted_from(s, i, Seq::empty()) == s.skip(i),
    decreases s.len() - i,
{
    if i >= s.len() {
        assert(s.skip(i) =~= Seq::<char>::empty());
    } else if match_at(s, i) {
        lemma_match_end_bounds(s, i);
        assert(matches_from(s, i).len() > 0);
    } else {
        lemma_no_matches_passthrough(s, i + 1);
        assert(substituted_from(s, i, Seq::empty()) =~= s.skip(i));
    }
}

/// Walks to the end of the digit run that begins at position `i`.
pub fn scan_run_end(s: &str, i: usize, len: usize) -> (j: usize)
    requires
        len == s@.len(),
        i <= len,
    ensures
        i <= j <= len,
        j == run_end(s@, i as int),
{
    let mut j = i;
    while j < len && is_digit_char(s.get_char(j))
        invariant
            i <= j <= len,
            len == s@.len(),
            run_end(s@, i as int) == run_end(s@, j as int),
        decreases len - j,
    {
        j = j + 1;
    }
    j
}

} // verus!
