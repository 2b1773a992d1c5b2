//! Closed maps: the text manager is a map of named closures over shared state; its two
//! operations are these functions.
use vstd::prelude::*;
use crate::normalize::{replace_non_word, replace_non_word_runs};
use crate::text::{Separator, lowercase, runs, split_runs, to_lowercase};

verus! {

/// What `read_text` stores: the file's text, lower-cased.
pub fn read_text(text: &String) -> (r: String)
    ensures
        r@ == lowercase(text@),
{
    to_lowercase(text.as_str())
}

/// What `extract_words` gives for the stored text: lower-cased once more, runs of non-word
/// characters replaced by a space, split at white space.
pub fn extract_words(stored: &String) -> (r: Vec<String>)
    ensures
        r.deep_view() == runs(replace_non_word_runs(lowercase(stored@)), Separator::Whitespace),
{
    let text = to_lowercase(stored.as_str());
    let replaced = replace_non_word(text.as_str());
    split_runs(replaced.as_str(), Separator::Whitespace)
}

} // verus!
