//! Golf: the whole program as one chain of expressions.
use vstd::prelude::*;
use crate::freq::{FreqTable, count_of, countable, occurrences, tally};
use crate::order::{sort_entries, sort_pairs};
use crate::report::{LineStyle, report, report_string};
use crate::tf::{above, pairs_above, stop_only_filter};
use crate::words::{StopWords, select, select_words, stop_word_pieces, text_words, words_of_text, WordFilter};

verus! {

/// The words of the text that are no stop words (of any length).
pub open spec fn golf_words(text: Seq<char>, stop_text: Seq<char>) -> Seq<Seq<char>> {
    select(text_words(text), stop_word_pieces(stop_text), stop_only_filter())
}

/// Golf counts each word of the lower-cased text as often as it occurs there, and never a stop
/// word.
pub proof fn lemma_golf_counts(text: Seq<char>, stop_text: Seq<char>, w: Seq<char>)
    ensures
        count_of(tally(golf_words(text, stop_text)), w) == if stop_word_pieces(stop_text).contains(w) {
            0
        } else {
            occurrences(text_words(text), w)
        },
{
    crate::freq::lemma_tally(golf_words(text, stop_text));
    crate::tf::lemma_select_occurrences_exact(text_words(text), stop_word_pieces(stop_text), stop_only_filter(), w);
}

/// A `"{} - {}\n"` line for each word that is no stop word and occurs more than four times,
/// by descending count and, for equal counts, by descending word.
pub fn golf_test(text: &String, stop_text: &String) -> (s: String)
    requires
        countable(golf_words(text@, stop_text@)),
    ensures
        s@ == report(sort_entries(above(tally(golf_words(text@, stop_text@)), 4), true), 4, LineStyle::Dash),
{
    let stop = StopWords::from_text(stop_text.as_str());
    let words = words_of_text(text.as_str());
    let kept = select_words(&words, &stop, WordFilter { drop_stop_words: true, min_bytes: 0 });
    let freq = FreqTable::from_words(&kept);
    let all = freq.entries();
    let frequent = pairs_above(&all, 4);
    let ordered = sort_pairs(&frequent, true);
    report_string(&ordered, 4, LineStyle::Dash)
}

/// Golf when no count can overflow: `None` when a word it counts occurs `i32::MAX` times or
/// more, else what `golf_test` gives.
pub fn golf_checked(text: &String, stop_text: &String) -> (r: Option<String>)
    ensures
        r is None <==> !countable(golf_words(text@, stop_text@)),
        r matches Some(s) ==> s@ == report(sort_entries(above(tally(golf_words(text@, stop_text@)), 4), true), 4, LineStyle::Dash),
{
    let stop = StopWords::from_text(stop_text.as_str());
    let kept = select_words(&words_of_text(text.as_str()), &stop, WordFilter { drop_stop_words: true, min_bytes: 0 });
    if crate::freq::countable_words(&kept) {
        Some(golf_test(text, stop_text))
    } else {
        None
    }
}

} // verus!
