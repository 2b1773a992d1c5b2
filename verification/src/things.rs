//! Things: the program as objects that each own a part of the data.
use vstd::prelude::*;
use vstd::string::StringExecFns;
use crate::freq::{FreqTable, Table, add_count, count_into, count_of, doubled, occurrences, room_for, room_for_words, tally, lemma_count_into, lemma_count_again};
use crate::order::{sort_entries, lemma_sort_doubled};
use crate::report::{LineStyle, report, report_string};
use crate::tf::{sorted_pairs, usual_report, lemma_select_step, lemma_select_len, lemma_room_before};
use crate::words::{StopWords, WordFilter, byte_len, has_min_bytes, passes, select, select_words, stop_word_pieces, text_words, usual_filter, words_of_text};
use crate::freq::pairs_view;

verus! {

/// An object that can say what it is.
pub trait TFExercise {
    /// What the object says it is; an object that does not tell says so.
    fn info(&self) -> (s: String)
        default_ensures
            s@ == "trait TFExercise - not implemented;"@,
    {
        String::from_str("trait TFExercise - not implemented;")
    }
}

/// Holds the text of the input file.
pub struct DataStorageManager {
    data: String,
}

impl DataStorageManager {
    /// The text the manager holds.
    pub closed spec fn data(&self) -> Seq<char> {
        self.data@
    }

    /// A manager holding `text`, the content of the input file.
    pub fn new(text: &String) -> (m: Self)
        ensures
            m.data() == text@,
    {
        DataStorageManager { data: text.clone() }
    }

    /// The words of the text: lower-cased, runs of non-word characters replaced by a space,
    /// split at white space.
    pub fn words(&self) -> (r: Vec<String>)
        ensures
            r.deep_view() == text_words(self.data()),
    {
        words_of_text(self.data.as_str())
    }
}

impl TFExercise for DataStorageManager {
    fn info(&self) -> (s: String)
        ensures
            s@ == "I'm DataStorageManager"@,
    {
        String::from_str("I'm DataStorageManager")
    }
}

/// Holds the stop words.
pub struct StopWordManager {
    stop_words: StopWords,
}

impl StopWordManager {
    /// The stop words the manager holds.
    pub closed spec fn stop_words(&self) -> Seq<Seq<char>> {
        self.stop_words@
    }

    /// A manager holding the stop words of `text`, the content of the stop-word file.
    pub fn new(text: &String) -> (m: Self)
        ensures
            m.stop_words() == stop_word_pieces(text@),
    {
        StopWordManager { stop_words: StopWords::from_text(text.as_str()) }
    }

    /// Whether `w` is a stop word.
    pub fn is_stop_word(&self, w: &String) -> (b: bool)
        ensures
            b == self.stop_words().contains(w@),
    {
        self.stop_words.contains(w)
    }
}

impl TFExercise for StopWordManager {
    fn info(&self) -> (s: String)
        ensures
            s@ == "I'm StopWordManager"@,
    {
        String::from_str("I'm StopWordManager")
    }
}

/// Counts words.
pub struct WordFrequencyManager {
    word_freqs: FreqTable,
}

impl WordFrequencyManager {
    /// The counts so far.
    pub closed spec fn table(&self) -> Table {
        self.word_freqs@
    }

    /// A manager with no counts.
    pub fn new() -> (m: Self)
        ensures
            m.table() == Seq::<(Seq<char>, int)>::empty(),
    {
        WordFrequencyManager { word_freqs: FreqTable::new() }
    }

    /// Counts `word` once more, unless it has fewer than two bytes.
    pub fn increment_count(&mut self, word: &String)
        requires
            byte_len(word@) >= 2 ==> count_of(old(self).table(), word@) < i32::MAX,
        ensures
            final(self).table() == if byte_len(word@) >= 2 {
                add_count(old(self).table(), word@, 1)
            } else {
                old(self).table()
            },
    {
        if has_min_bytes(word, 2) {
            self.word_freqs.increment(word);
        }
    }

    /// The counts by descending count; words of equal count keep their order.
    pub fn sorted(&mut self) -> (r: Vec<(String, i32)>)
        ensures
            final(self).table() == old(self).table(),
            pairs_view(r@) == sort_entries(old(self).table(), false),
    {
        sorted_pairs(&self.word_freqs, false)
    }
}

impl TFExercise for WordFrequencyManager {
    fn info(&self) -> (s: String)
        ensures
            s@ == "I'm WordFrequencyManager"@,
    {
        String::from_str("I'm WordFrequencyManager")
    }
}

/// Runs the managers together.
pub struct WordFrequencyController {
    storage_manager: DataStorageManager,
    stop_word_manager: StopWordManager,
    word_freq_manager: WordFrequencyManager,
}

impl WordFrequencyController {
    /// The input text.
    pub closed spec fn data(&self) -> Seq<char> {
        self.storage_manager.data()
    }

    /// The stop words.
    pub closed spec fn stop_words(&self) -> Seq<Seq<char>> {
        self.stop_word_manager.stop_words()
    }

    /// The counts so far.
    pub closed spec fn table(&self) -> Table {
        self.word_freq_manager.table()
    }

    /// A controller for the text `text` and the stop-word file content `stop_text`.
    pub fn new(text: &String, stop_text: &String) -> (c: Self)
        ensures
            c.data() == text@,
            c.stop_words() == stop_word_pieces(stop_text@),
            c.table() == Seq::<(Seq<char>, int)>::empty(),
    {
        WordFrequencyController {
            storage_manager: DataStorageManager::new(text),
            stop_word_manager: StopWordManager::new(stop_text),
            word_freq_manager: WordFrequencyManager::new(),
        }
    }

    /// Counts every word of the text that is no stop word and has two bytes or more, then
    /// gives a `"{} - {}\n"` line for each word counted more than four times, by
    /// descending count.
    pub fn run(&mut self) -> (s: String)
        requires
            room_for(old(self).table(), select(text_words(old(self).data()), old(self).stop_words(), usual_filter())),
        ensures
            final(self).data() == old(self).data(),
            final(self).stop_words() == old(self).stop_words(),
            final(self).table() == count_into(
                old(self).table(),
                select(text_words(old(self).data()), old(self).stop_words(), usual_filter()),
            ),
            s@ == usual_report(final(self).table()),
    {
        let bw = self.storage_manager.words();
        let ghost ws = bw.deep_view();
        let ghost stop = self.stop_words();
        let ghost t0 = self.table();
        let mut i: usize = 0;
        while i < bw.len()
            invariant
                i <= bw.len(),
                ws == bw.deep_view(),
                ws == text_words(self.data()),
                self.data() == old(self).data(),
                stop == self.stop_words(),
                t0 == old(self).table(),
                room_for(t0, select(ws, stop, usual_filter())),
                self.table() == count_into(t0, select(ws.take(i as int), stop, usual_filter())),
            decreases bw.len() - i,
        {
            let w = &bw[i];
            proof {
                lemma_select_step(ws, stop, usual_filter(), i as int);
                lemma_select_len(ws.take(i as int), stop, usual_filter());
                if passes(ws[i as int], stop, usual_filter()) {
                    lemma_room_before(t0, ws, i as int, stop, usual_filter());
                }
                let sel = select(ws.take(i as int), stop, usual_filter());
                assert(sel.push(w@).drop_last() =~= sel);
                assert(ws[i as int] == w@);
            }
            if !self.stop_word_manager.is_stop_word(w) {
                self.word_freq_manager.increment_count(w);
            }
            i = i + 1;
        }
        assert(ws.take(i as int) =~= ws);
        let word_freq = self.word_freq_manager.sorted();
        report_string(&word_freq, 4, LineStyle::Dash)
    }

    /// Runs the controller when no count can overflow: `None`, with nothing changed, when a
    /// word the run would count would reach `i32::MAX`; else what `run` gives.
    pub fn run_checked(&mut self) -> (r: Option<String>)
        ensures
            r is None <==> !room_for(old(self).table(), counted_words(*old(self))),
            final(self).data() == old(self).data(),
            final(self).stop_words() == old(self).stop_words(),
            r is None ==> final(self).table() == old(self).table(),
            r matches Some(s) ==> final(self).table() == count_into(old(self).table(), counted_words(*old(self)))
                && s@ == usual_report(final(self).table()),
    {
        let bw = self.storage_manager.words();
        let sel = select_words(&bw, &self.stop_word_manager.stop_words, WordFilter { drop_stop_words: true, min_bytes: 2 });
        if room_for_words(&self.word_freq_manager.word_freqs, &sel) {
            Some(self.run())
        } else {
            None
        }
    }
}

/// The words that a run of the controller counts.
pub open spec fn counted_words(c: WordFrequencyController) -> Seq<Seq<char>> {
    select(text_words(c.data()), c.stop_words(), usual_filter())
}

/// A run counts each word of the controller's lower-cased text with two bytes or more as often
/// as it occurs there; a stop word, or a word of one byte, is not counted.
pub proof fn lemma_counted_words_counts(c: WordFrequencyController, w: Seq<char>)
    ensures
        count_of(tally(counted_words(c)), w) == if c.stop_words().contains(w) || byte_len(w) < 2 {
            0
        } else {
            occurrences(text_words(c.data()), w)
        },
{
    crate::freq::lemma_tally(counted_words(c));
    crate::tf::lemma_select_occurrences_exact(text_words(c.data()), c.stop_words(), usual_filter(), w);
}

/// Runs add up: when a controller runs twice (`c1` after the first run from `c0`, `c2` after
/// the second), each word's count is its count before plus twice its occurrences among the
/// words a run counts; from a new controller, twice those occurrences.
pub proof fn lemma_two_runs(c0: WordFrequencyController, c1: WordFrequencyController, c2: WordFrequencyController)
    requires
        c1.data() == c0.data(),
        c1.stop_words() == c0.stop_words(),
        c1.table() == count_into(c0.table(), counted_words(c0)),
        c2.table() == count_into(c1.table(), counted_words(c1)),
    ensures
        forall|w: Seq<char>| #[trigger] count_of(c2.table(), w) == count_of(c0.table(), w) + 2 * occurrences(
            counted_words(c0),
            w,
        ),
{
    let ws = counted_words(c0);
    lemma_count_into(c0.table(), ws);
    lemma_count_into(c1.table(), ws);
}

/// Two runs of a new controller: the first leaves each counted word with its number of
/// occurrences, in order of first occurrence; the second doubles every count and keeps every
/// word in place. So the second report lists the first run's words in the first run's order
/// by count, each counted `n` times by the first run with `2 * n`, exactly those where
/// `2 * n` is above four: a run is not idempotent, the counts add up.
pub proof fn lemma_two_runs_from_new(c0: WordFrequencyController, c1: WordFrequencyController, c2: WordFrequencyController)
    requires
        c0.table() == Seq::<(Seq<char>, int)>::empty(),
        c1.data() == c0.data(),
        c1.stop_words() == c0.stop_words(),
        c1.table() == count_into(c0.table(), counted_words(c0)),
        c2.table() == count_into(c1.table(), counted_words(c1)),
    ensures
        c1.table() == tally(counted_words(c0)),
        c2.table() == doubled(c1.table()),
        usual_report(c2.table()) == report(doubled(sort_entries(c1.table(), false)), 4, LineStyle::Dash),
{
    lemma_count_into(c0.table(), counted_words(c0));
    lemma_count_again(counted_words(c0));
    lemma_sort_doubled(c1.table());
}

} // verus!
