//! Trinity: the model of model, view and controller.
use vstd::prelude::*;
use crate::freq::{FreqTable, Table, countable, tally};
use crate::normalize::{replace_first_non_word, replace_first_non_word_run};
use crate::text::{Separator, lowercase, pieces, split_pieces, to_lowercase};
use crate::tf::stop_only_filter;
use crate::words::{StopWords, WordFilter, select, select_words, stop_word_pieces};

verus! {

/// The words the model counts: the text lower-cased, its first run of non-word characters
/// replaced by a space, lower-cased again, split at single spaces.
pub open spec fn model_words(text: Seq<char>) -> Seq<Seq<char>> {
    pieces(lowercase(replace_first_non_word_run(lowercase(text))), Separator::Char(' '))
}

/// The word frequencies of the last text given.
pub struct WordFrequenciesModel {
    freq: FreqTable,
}

impl WordFrequenciesModel {
    pub closed spec fn freq(&self) -> Table {
        self.freq@
    }

    /// A model with no counts.
    pub fn new() -> (m: WordFrequenciesModel)
        ensures
            m.freq() == Seq::<(Seq<char>, int)>::empty(),
    {
        WordFrequenciesModel { freq: FreqTable::new() }
    }

    /// Counts the words of the text that are no stop words of the stop-word file's text.
    pub fn update(&mut self, text: &String, stop_text: &String)
        requires
            countable(select(model_words(text@), stop_word_pieces(stop_text@), stop_only_filter())),
        ensures
            final(self).freq() == tally(select(model_words(text@), stop_word_pieces(stop_text@), stop_only_filter())),
    {
        let stop_words = StopWords::from_text(stop_text.as_str());
        let lower = to_lowercase(text.as_str());
        let replaced = replace_first_non_word(lower.as_str());
        let lower_again = to_lowercase(replaced.as_str());
        let words = split_pieces(lower_again.as_str(), Separator::Char(' '));
        let kept = select_words(&words, &stop_words, WordFilter { drop_stop_words: true, min_bytes: 0 });
        self.freq = FreqTable::from_words(&kept);
    }

    /// Counts as `update` does when no count can overflow, and gives `true`; gives `false`, with
    /// nothing changed, when a word it would count occurs `i32::MAX` times or more.
    pub fn update_checked(&mut self, text: &String, stop_text: &String) -> (b: bool)
        ensures
            b == countable(select(model_words(text@), stop_word_pieces(stop_text@), stop_only_filter())),
            b ==> final(self).freq() == tally(select(model_words(text@), stop_word_pieces(stop_text@), stop_only_filter())),
            !b ==> final(self).freq() == old(self).freq(),
    {
        let lower = to_lowercase(text.as_str());
        let replaced = replace_first_non_word(lower.as_str());
        let lower_again = to_lowercase(replaced.as_str());
        let words = split_pieces(lower_again.as_str(), Separator::Char(' '));
        let stop_words = StopWords::from_text(stop_text.as_str());
        let kept = select_words(&words, &stop_words, WordFilter { drop_stop_words: true, min_bytes: 0 });
        if crate::freq::countable_words(&kept) {
            self.update(text, stop_text);
            true
        } else {
            false
        }
    }
}

} // verus!
