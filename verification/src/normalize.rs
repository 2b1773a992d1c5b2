//! Replacing runs of non-word characters, as the pattern `[\W_]+` of the `regex` crate does.
use vstd::prelude::*;
use regex::Regex;

verus! {

/// Whether a character is in the `\w` class of the `regex` crate (Unicode `Alphabetic`,
/// marks, decimal digits, connector punctuation and `Join_Control`).
pub uninterp spec fn regex_word_char(c: char) -> bool;

/// The pattern whose matches the styles replace by one space.
pub const NON_WORD_RUNS: &'static str = "[\\W_]+";

/// A character of the class `[\W_]`: not a word character, or the underscore.
pub open spec fn non_word(c: char) -> bool {
    !regex_word_char(c) || c == '_'
}

/// `s` without its leading run of non-word characters.
pub open spec fn skip_non_word(s: Seq<char>) -> Seq<char>
    decreases s.len(),
{
    if s.len() > 0 && non_word(s[0]) {
        skip_non_word(s.drop_first())
    } else {
        s
    }
}

pub proof fn lemma_skip_non_word_len(s: Seq<char>)
    ensures
        skip_non_word(s).len() <= s.len(),
        s.len() > 0 && non_word(s[0]) ==> skip_non_word(s).len() < s.len(),
        skip_non_word(s).len() > 0 ==> !non_word(skip_non_word(s)[0]),
    decreases s.len(),
{
    if s.len() > 0 && non_word(s[0]) {
        lemma_skip_non_word_len(s.drop_first());
    }
}

/// Every maximal run of non-word characters replaced by one space (`replace_all`).
pub open spec fn replace_non_word_runs(s: Seq<char>) -> Seq<char>
    decreases s.len(),
{
    if s.len() == 0 {
        s
    } else if non_word(s[0]) {
        proof {
            lemma_skip_non_word_len(s);
        }
        seq![' '] + replace_non_word_runs(skip_non_word(s))
    } else {
        seq![s[0]] + replace_non_word_runs(s.drop_first())
    }
}

/// The first maximal run of non-word characters replaced by one space (`replace`).
pub open spec fn replace_first_non_word_run(s: Seq<char>) -> Seq<char>
    decreases s.len(),
{
    if s.len() == 0 {
        s
    } else if non_word(s[0]) {
        seq![' '] + skip_non_word(s)
    } else {
        seq![s[0]] + replace_first_non_word_run(s.drop_first())
    }
}

/// `Regex::new(pattern).unwrap().replace_all(text, rep)` for the pattern `[\W_]+` and the
/// replacement `" "`: the pattern is valid, so `unwrap` does not panic; each leftmost, greedy
/// match is a maximal run of `[\W_]` characters and is replaced by one space, so what is left
/// is spaces and word characters other than `_`.
#[verifier::external_body]
pub(crate) fn regex_replace_all(pattern: &str, text: &str, rep: &str) -> (r: String)
    requires
        pattern@ == NON_WORD_RUNS@,
        rep@ == " "@,
    ensures
        r@ == replace_non_word_runs(text@),
        forall|i: int| 0 <= i < r@.len() ==> r@[i] == ' ' || (regex_word_char(r@[i]) && r@[i] != '_'),
{
    Regex::new(pattern).unwrap().replace_all(text, rep).to_string()
}

/// `Regex::new(pattern).unwrap().replace(text, rep)` for the pattern `[\W_]+` and the
/// replacement `" "`: only the leftmost match, the first maximal run of `[\W_]` characters,
/// is replaced by one space.
#[verifier::external_body]
pub(crate) fn regex_replace_first(pattern: &str, text: &str, rep: &str) -> (r: String)
    requires
        pattern@ == NON_WORD_RUNS@,
        rep@ == " "@,
    ensures
        r@ == replace_first_non_word_run(text@),
{
    Regex::new(pattern).unwrap().replace(text, rep).to_string()
}

/// Replaces every run of non-word characters of `text` by one space.
pub fn replace_non_word(text: &str) -> (r: String)
    ensures
        r@ == replace_non_word_runs(text@),
{
    regex_replace_all(NON_WORD_RUNS, text, " ")
}

/// Replaces the first run of non-word characters of `text` by one space.
pub fn replace_first_non_word(text: &str) -> (r: String)
    ensures
        r@ == replace_first_non_word_run(text@),
{
    regex_replace_first(NON_WORD_RUNS, text, " ")
}

} // verus!
