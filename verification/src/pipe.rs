//! Pipeline: the program as a chain of functions, each taking the previous one's result.
use vstd::prelude::*;
use crate::freq::{FreqTable, countable, pairs_view, tally};
use crate::normalize::{replace_non_word, replace_non_word_runs};
use crate::order::sort_entries;
use crate::report::{LineStyle, report, report_string};
use crate::text::{Separator, runs, split_runs};
use crate::tf::sorted_pairs;
use crate::words::{StopWords, WordFilter, lower_each, lowercase_each, select, select_words, stop_word_pieces, usual_filter};

verus! {

/// The text with each run of non-word characters replaced by a space.
pub fn filter_chars_and_normalize(text: &String) -> (r: String)
    ensures
        r@ == replace_non_word_runs(text@),
{
    replace_non_word(text.as_str())
}

/// The white-space separated words of the text, each lower-cased.
pub fn scan_str(text: &String) -> (v: Vec<String>)
    ensures
        v.deep_view() == lower_each(runs(text@, Separator::Whitespace)),
{
    let split = split_runs(text.as_str(), Separator::Whitespace);
    lowercase_each(&split)
}

/// The words that are no stop words of the stop-word file's text and have two bytes or more.
pub fn remove_stop_words(v_str: &Vec<String>, stop_text: &String) -> (v: Vec<String>)
    ensures
        v.deep_view() == select(v_str.deep_view(), stop_word_pieces(stop_text@), usual_filter()),
{
    let stop_w = StopWords::from_text(stop_text.as_str());
    select_words(v_str, &stop_w, WordFilter { drop_stop_words: true, min_bytes: 2 })
}

/// The frequency table of the words.
pub fn frequencies(word_list: &Vec<String>) -> (t: FreqTable)
    requires
        countable(word_list.deep_view()),
    ensures
        t@ == tally(word_list.deep_view()),
{
    FreqTable::from_words(word_list)
}

/// The entries by descending count; words of equal count keep their order.
pub fn sort_wf(word_freq: &FreqTable) -> (v: Vec<(String, i32)>)
    ensures
        pairs_view(v@) == sort_entries(word_freq@, false),
{
    sorted_pairs(word_freq, false)
}

/// A `"{:.<20}{}\n"` line (the word padded with dots to twenty characters) for each entry
/// counted more than four times, in order.
pub fn print_all(word_freq: &Vec<(String, i32)>) -> (s: String)
    ensures
        s@ == report(pairs_view(word_freq@), 4, LineStyle::Dotted),
{
    report_string(word_freq, 4, LineStyle::Dotted)
}

} // verus!
