//! Lazy rivers: characters flow into words, words into the filter, and the filter into the
//! counter.
use vstd::prelude::*;
use crate::freq::{FreqTable, Table, countable, pairs_view, tally};
use crate::order::sort_entries;
use crate::text::{Separator, chars_of, closed_runs};
use crate::tf::sorted_pairs;
use crate::lazy_rivers_mp::words_of_chars;
use crate::words::{StopWords, WordFilter, lower_each, select, select_words, stop_word_pieces, usual_filter};

verus! {

/// The words of a text: each run of alphabetic characters that a non-alphabetic character
/// closes, lower-cased (a run still open at the end of the text is left out).
pub open spec fn river_words(text: Seq<char>) -> Seq<Seq<char>> {
    lower_each(closed_runs(text, Separator::NonAlphabetic))
}

/// Holds the text of the input file.
pub struct Characters {
    text: String,
}

impl Characters {
    pub closed spec fn text(&self) -> Seq<char> {
        self.text@
    }

    /// No text yet.
    pub fn new() -> (c: Self)
        ensures
            c.text() == Seq::<char>::empty(),
    {
        Characters { text: String::new() }
    }

    /// Takes the file's text and gives its characters.
    pub fn from_file(&mut self, text: &String) -> (cs: Vec<char>)
        ensures
            final(self).text() == text@,
            cs@ == text@,
    {
        self.text = text.clone();
        chars_of(self.text.as_str())
    }
}

/// Collects the words of texts.
pub struct AllWords {
    words: Vec<String>,
}

impl AllWords {
    pub closed spec fn words(&self) -> Seq<Seq<char>> {
        self.words.deep_view()
    }

    /// No words yet.
    pub fn new() -> (a: Self)
        ensures
            a.words() == Seq::<Seq<char>>::empty(),
    {
        let a = AllWords { words: Vec::new() };
        assert(a.words() =~= Seq::<Seq<char>>::empty());
        a
    }

    /// Adds the words of the file's text and gives all words collected.
    pub fn all_words(&mut self, text: &String) -> (r: Vec<String>)
        ensures
            final(self).words() == old(self).words() + river_words(text@),
            r.deep_view() == final(self).words(),
    {
        let mut mi = Characters::new();
        let cs = mi.from_file(text);
        let lower = words_of_chars(&cs);
        let mut i: usize = 0;
        while i < lower.len()
            invariant
                i <= lower.len(),
                self.words() == old(self).words() + lower.deep_view().take(i as int),
            decreases lower.len() - i,
        {
            let ghost before = self.words();
            self.words.push(lower[i].clone());
            assert(self.words() =~= before.push(lower[i as int]@));
            assert(old(self).words() + lower.deep_view().take(i + 1) =~= (old(self).words()
                + lower.deep_view().take(i as int)).push(lower[i as int]@));
            i = i + 1;
        }
        assert(lower.deep_view().take(i as int) =~= lower.deep_view());
        self.words.clone()
    }
}

/// Collects the words of texts that are no stop words and have two bytes or more.
pub struct FilterSW {
    words: Vec<String>,
    stop_w: StopWords,
}

impl FilterSW {
    pub closed spec fn words(&self) -> Seq<Seq<char>> {
        self.words.deep_view()
    }

    pub closed spec fn stop_words(&self) -> Seq<Seq<char>> {
        self.stop_w@
    }

    /// No words yet; the stop words of the stop-word file's text.
    pub fn new(stop_text: &String) -> (f: Self)
        ensures
            f.words() == Seq::<Seq<char>>::empty(),
            f.stop_words() == stop_word_pieces(stop_text@),
    {
        let f = FilterSW { words: Vec::new(), stop_w: StopWords::from_text(stop_text.as_str()) };
        assert(f.words() =~= Seq::<Seq<char>>::empty());
        f
    }

    /// Adds the words of the file's text that are no stop words and have two bytes or more,
    /// and gives all words collected.
    pub fn filter_sw(&mut self, text: &String) -> (r: Vec<String>)
        ensures
            final(self).stop_words() == old(self).stop_words(),
            final(self).words() == old(self).words() + select(river_words(text@), old(self).stop_words(), usual_filter()),
            r.deep_view() == final(self).words(),
    {
        let mut aw = AllWords::new();
        let all = aw.all_words(text);
        assert(all.deep_view() =~= river_words(text@));
        let kept = select_words(&all, &self.stop_w, WordFilter { drop_stop_words: true, min_bytes: 2 });
        let mut i: usize = 0;
        while i < kept.len()
            invariant
                i <= kept.len(),
                self.stop_words() == old(self).stop_words(),
                self.words() == old(self).words() + kept.deep_view().take(i as int),
            decreases kept.len() - i,
        {
            let ghost before = self.words();
            self.words.push(kept[i].clone());
            assert(self.words() =~= before.push(kept[i as int]@));
            assert(old(self).words() + kept.deep_view().take(i + 1) =~= (old(self).words()
                + kept.deep_view().take(i as int)).push(kept[i as int]@));
            i = i + 1;
        }
        assert(kept.deep_view().take(i as int) =~= kept.deep_view());
        self.words.clone()
    }
}

/// The counts of the filtered words, by descending count.
pub struct Frequencies {
    freqs: Vec<(String, i32)>,
}

impl Frequencies {
    pub closed spec fn freqs(&self) -> Table {
        pairs_view(self.freqs@)
    }

    /// No counts yet.
    pub fn new() -> (f: Self)
        ensures
            f.freqs() == Seq::<(Seq<char>, int)>::empty(),
    {
        let f = Frequencies { freqs: Vec::new() };
        assert(f.freqs() =~= Seq::<(Seq<char>, int)>::empty());
        f
    }

    /// Counts the words of the file's text that are no stop words of the stop-word file's
    /// text and have two bytes or more, and gives the counts by descending count.
    pub fn frequencies(&mut self, text: &String, stop_text: &String) -> (r: Vec<(String, i32)>)
        requires
            countable(select(river_words(text@), stop_word_pieces(stop_text@), usual_filter())),
        ensures
            final(self).freqs() == sort_entries(
                tally(select(river_words(text@), stop_word_pieces(stop_text@), usual_filter())),
                false,
            ),
            pairs_view(r@) == final(self).freqs(),
    {
        let mut fsw = FilterSW::new(stop_text);
        let words = fsw.filter_sw(text);
        proof {
            assert(Seq::<Seq<char>>::empty() + select(river_words(text@), stop_word_pieces(stop_text@), usual_filter())
                =~= select(river_words(text@), stop_word_pieces(stop_text@), usual_filter()));
        }
        let freqs = FreqTable::from_words(&words);
        self.freqs = sorted_pairs(&freqs, false);
        let e = &self.freqs;
        let mut r: Vec<(String, i32)> = Vec::new();
        let mut i: usize = 0;
        while i < e.len()
            invariant
                i <= e.len(),
                pairs_view(r@) == pairs_view(e@).take(i as int),
            decreases e.len() - i,
        {
            let ghost before = r@;
            r.push((e[i].0.clone(), e[i].1));
            assert(pairs_view(r@) =~= pairs_view(before).push((e@[i as int].0@, e@[i as int].1 as int)));
            assert(pairs_view(e@).take(i + 1) =~= pairs_view(e@).take(i as int).push((e@[i as int].0@, e@[i as int].1 as int)));
            i = i + 1;
        }
        assert(pairs_view(e@).take(i as int) =~= pairs_view(e@));
        r
    }

    /// The counts when none can overflow: `None`, with nothing changed, when a word it counts
    /// occurs `i32::MAX` times or more, else what `frequencies` gives.
    pub fn frequencies_checked(&mut self, text: &String, stop_text: &String) -> (r: Option<Vec<(String, i32)>>)
        ensures
            r is None <==> !countable(select(river_words(text@), stop_word_pieces(stop_text@), usual_filter())),
            r is None ==> final(self).freqs() == old(self).freqs(),
            r matches Some(v) ==> final(self).freqs() == sort_entries(
                tally(select(river_words(text@), stop_word_pieces(stop_text@), usual_filter())),
                false,
            ) && pairs_view(v@) == final(self).freqs(),
    {
        let mut aw = AllWords::new();
        let all = aw.all_words(text);
        assert(all.deep_view() =~= river_words(text@));
        let stop = StopWords::from_text(stop_text.as_str());
        let kept = select_words(&all, &stop, WordFilter { drop_stop_words: true, min_bytes: 2 });
        if crate::freq::countable_words(&kept) {
            Some(self.frequencies(text, stop_text))
        } else {
            None
        }
    }
}

} // verus!
