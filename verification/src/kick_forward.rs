//! Kick forward: each step hands its result to the next; here each step computes the value it
//! hands on.
use vstd::prelude::*;
use crate::freq::{FreqTable, countable, pairs_view, tally};
use crate::order::sort_entries;
use crate::report::{LineStyle, report, report_string};
use crate::text::{Separator, runs, split_runs};
use crate::tf::{sorted_pairs, stop_only_filter};
use crate::words::{StopWords, WordFilter, normalize_text, normalized, select, select_words, stop_word_pieces};

verus! {

/// The filter of the scanning step: words of two bytes or more.
pub open spec fn scan_filter() -> WordFilter {
    WordFilter { drop_stop_words: false, min_bytes: 2 }
}

/// The text lower-cased, with runs of non-word characters replaced by a space.
pub fn filter_chars_and_normalize_kf(text: &String) -> (r: String)
    ensures
        r@ == normalized(text@),
{
    normalize_text(text.as_str())
}

/// The white-space separated words of the text that have two bytes or more.
pub fn scan_string_kf(text: &String) -> (v: Vec<String>)
    ensures
        v.deep_view() == select(runs(text@, Separator::Whitespace), Seq::empty(), scan_filter()),
{
    let all = split_runs(text.as_str(), Separator::Whitespace);
    let none = StopWords::new();
    select_words(&all, &none, WordFilter { drop_stop_words: false, min_bytes: 2 })
}

/// The words that are no stop words of the stop-word file's text.
pub fn remove_stop_words_kf(v_str: &Vec<String>, stop_text: &String) -> (v: Vec<String>)
    ensures
        v.deep_view() == select(v_str.deep_view(), stop_word_pieces(stop_text@), stop_only_filter()),
{
    let stop_w = StopWords::from_text(stop_text.as_str());
    select_words(v_str, &stop_w, WordFilter { drop_stop_words: true, min_bytes: 0 })
}

/// The frequency table of the words.
pub fn frequencies_kf(v_str: &Vec<String>) -> (t: FreqTable)
    requires
        countable(v_str.deep_view()),
    ensures
        t@ == tally(v_str.deep_view()),
{
    FreqTable::from_words(v_str)
}

/// The entries by descending count; words of equal count keep their order.
pub fn sort_kf(words_f: &FreqTable) -> (v: Vec<(String, i32)>)
    ensures
        pairs_view(v@) == sort_entries(words_f@, false),
{
    sorted_pairs(words_f, false)
}

/// A `"{} - {}\n"` line for each entry counted more than four times, in order.
pub fn print_kf(sort_v: &Vec<(String, i32)>) -> (s: String)
    ensures
        s@ == report(pairs_view(sort_v@), 4, LineStyle::Dash),
{
    report_string(sort_v, 4, LineStyle::Dash)
}

/// The last step, which does nothing.
pub fn do_nothing_kf() {
}

/// The words that reach the counting step for an input text and a stop-word file's text.
pub open spec fn kick_forward_words(text: Seq<char>, stop_text: Seq<char>) -> Seq<Seq<char>> {
    select(
        select(runs(normalized(text), Separator::Whitespace), Seq::empty(), scan_filter()),
        stop_word_pieces(stop_text),
        stop_only_filter(),
    )
}

/// Kick forward counts each word of two bytes or more of the normalized text as often as it
/// occurs among them, and never a stop word.
pub proof fn lemma_kick_forward_counts(text: Seq<char>, stop_text: Seq<char>, w: Seq<char>)
    ensures
        crate::freq::count_of(crate::freq::tally(kick_forward_words(text, stop_text)), w) == if crate::words::stop_word_pieces(stop_text).contains(w) {
            0
        } else {
            crate::freq::occurrences(crate::words::select(crate::text::runs(crate::words::normalized(text), crate::text::Separator::Whitespace), Seq::empty(), scan_filter()), w)
        },
{
    crate::freq::lemma_tally(kick_forward_words(text, stop_text));
    crate::tf::lemma_select_occurrences_exact(crate::words::select(crate::text::runs(crate::words::normalized(text), crate::text::Separator::Whitespace), Seq::empty(), scan_filter()), crate::words::stop_word_pieces(stop_text), crate::tf::stop_only_filter(), w);
}

/// The steps one after the other, from the input text to the printed report.
pub fn kick_forward_test(text: &String, stop_text: &String) -> (s: String)
    requires
        countable(kick_forward_words(text@, stop_text@)),
    ensures
        s@ == report(sort_entries(tally(kick_forward_words(text@, stop_text@)), false), 4, LineStyle::Dash),
{
    let norm = filter_chars_and_normalize_kf(text);
    let scanned = scan_string_kf(&norm);
    let kept = remove_stop_words_kf(&scanned, stop_text);
    let freq = frequencies_kf(&kept);
    let sorted = sort_kf(&freq);
    let s = print_kf(&sorted);
    do_nothing_kf();
    s
}

/// Kick forward when no count can overflow: `None` when a word it counts occurs `i32::MAX`
/// times or more, else what `kick_forward_test` gives.
pub fn kick_forward_checked(text: &String, stop_text: &String) -> (r: Option<String>)
    ensures
        r is None <==> !countable(kick_forward_words(text@, stop_text@)),
        r matches Some(s) ==> s@ == report(sort_entries(tally(kick_forward_words(text@, stop_text@)), false), 4, LineStyle::Dash),
{
    let kept = remove_stop_words_kf(&scan_string_kf(&filter_chars_and_normalize_kf(text)), stop_text);
    if crate::freq::countable_words(&kept) {
        Some(kick_forward_test(text, stop_text))
    } else {
        None
    }
}

} // verus!
