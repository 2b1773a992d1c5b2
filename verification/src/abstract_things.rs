//! Abstract things: the managers are seen through traits, and the controller works with any
//! managers that keep the traits' contracts.
use vstd::prelude::*;
use vstd::string::StringExecFns;
use crate::freq::{FreqTable, Table, add_count, count_into, count_of, countable, doubled, occurrences, room_for, room_for_words, tally, lemma_count_again, lemma_count_into};
use crate::freq::pairs_view as pairs_of;
use crate::order::{sort_entries, lemma_sort_doubled};
use crate::report::{LineStyle, report, report_string};
use crate::tf::{sorted_pairs, usual_output, usual_report, usual_words, lemma_select_step, lemma_select_len, lemma_room_before};
use crate::words::{StopWords, WordFilter, byte_len, has_min_bytes, passes, select, select_words, stop_word_pieces, text_words, usual_filter, words_of_text};

verus! {

/// An object that can say what it is.
pub trait TFExercise {
    /// What the object says it is; an object that does not tell says so.
    fn info(&self) -> (s: String)
        default_ensures
            s@ == "trait TFExercise - not implemented;"@,
    {
        String::from_str("trait TFExercise - not implemented;")
    }
}

/// Gives the words of a text.
pub trait DataStorageManagerTrait {
    spec fn spec_words(&self) -> Seq<Seq<char>>;

    fn words(&self) -> (r: Vec<String>)
        ensures
            r.deep_view() == self.spec_words(),
    ;
}

/// Tells stop words apart.
pub trait StopWordManagerTrait {
    spec fn spec_stop_words(&self) -> Seq<Seq<char>>;

    fn is_stop_word(&self, w: &String) -> (b: bool)
        ensures
            b == self.spec_stop_words().contains(w@),
    ;
}

/// Counts words of two bytes or more and lists the counts by descending count.
pub trait WordFrequencyManagerTrait {
    spec fn spec_table(&self) -> Table;

    fn increment_count(&mut self, word: &String)
        requires
            byte_len(word@) >= 2 ==> count_of(old(self).spec_table(), word@) < i32::MAX,
        ensures
            final(self).spec_table() == if byte_len(word@) >= 2 {
                add_count(old(self).spec_table(), word@, 1)
            } else {
                old(self).spec_table()
            },
    ;

    fn sorted(&mut self) -> (r: Vec<(String, i32)>)
        ensures
            final(self).spec_table() == old(self).spec_table(),
            pairs_of(r@) == sort_entries(old(self).spec_table(), false),
    ;
}

/// Holds the text of the input file.
pub struct DataStorageManager {
    data: String,
}

impl DataStorageManager {
    /// The text the manager holds.
    pub closed spec fn data(&self) -> Seq<char> {
        self.data@
    }

    /// A manager holding `text`, the content of the input file.
    pub fn new(text: &String) -> (m: Self)
        ensures
            m.data() == text@,
    {
        DataStorageManager { data: text.clone() }
    }
}

impl DataStorageManagerTrait for DataStorageManager {
    /// The words of the text: lower-cased, runs of non-word characters replaced by a space,
    /// split at white space.
    open spec fn spec_words(&self) -> Seq<Seq<char>> {
        text_words(self.data())
    }

    fn words(&self) -> (r: Vec<String>) {
        words_of_text(self.data.as_str())
    }
}

impl TFExercise for DataStorageManager {
    fn info(&self) -> (s: String)
        ensures
            s@ == "I'm DataStorageManager"@,
    {
        String::from_str("I'm DataStorageManager")
    }
}

/// Holds the stop words.
pub struct StopWordManager {
    stop_words: StopWords,
}

impl StopWordManager {
    /// The stop words the manager holds.
    pub closed spec fn stop_words(&self) -> Seq<Seq<char>> {
        self.stop_words@
    }

    /// A manager holding the stop words of `text`, the content of the stop-word file.
    pub fn new(text: &String) -> (m: Self)
        ensures
            m.stop_words() == stop_word_pieces(text@),
    {
        StopWordManager { stop_words: StopWords::from_text(text.as_str()) }
    }
}

impl StopWordManagerTrait for StopWordManager {
    open spec fn spec_stop_words(&self) -> Seq<Seq<char>> {
        self.stop_words()
    }

    /// Whether `w` is a stop word.
    fn is_stop_word(&self, w: &String) -> (b: bool) {
        self.stop_words.contains(w)
    }
}

impl TFExercise for StopWordManager {
    fn info(&self) -> (s: String)
        ensures
            s@ == "I'm StopWordManager"@,
    {
        String::from_str("I'm StopWordManager")
    }
}

/// Counts words.
pub struct WordFrequencyManager {
    word_freqs: FreqTable,
}

impl WordFrequencyManager {
    /// The counts so far.
    pub closed spec fn table(&self) -> Table {
        self.word_freqs@
    }

    /// A manager with no counts.
    pub fn new() -> (m: Self)
        ensures
            m.table() == Seq::<(Seq<char>, int)>::empty(),
    {
        WordFrequencyManager { word_freqs: FreqTable::new() }
    }
}

impl WordFrequencyManagerTrait for WordFrequencyManager {
    open spec fn spec_table(&self) -> Table {
        self.table()
    }

    /// Counts `word` once more, unless it has fewer than two bytes.
    fn increment_count(&mut self, word: &String) {
        if has_min_bytes(word, 2) {
            self.word_freqs.increment(word);
        }
    }

    /// The counts by descending count; words of equal count keep their order.
    fn sorted(&mut self) -> (r: Vec<(String, i32)>) {
        sorted_pairs(&self.word_freqs, false)
    }
}

impl TFExercise for WordFrequencyManager {
    fn info(&self) -> (s: String)
        ensures
            s@ == "I'm WordFrequencyManager"@,
    {
        String::from_str("I'm WordFrequencyManager")
    }
}

/// Runs any managers that keep the traits' contracts together.
pub struct WordFrequencyController<D: DataStorageManagerTrait, S: StopWordManagerTrait, W: WordFrequencyManagerTrait> {
    storage_manager: D,
    stop_word_manager: S,
    word_freq_manager: W,
}

impl<D: DataStorageManagerTrait, S: StopWordManagerTrait, W: WordFrequencyManagerTrait> WordFrequencyController<D, S, W> {
    /// The words of the storage manager.
    pub closed spec fn words(&self) -> Seq<Seq<char>> {
        self.storage_manager.spec_words()
    }

    /// The stop words of the stop-word manager.
    pub closed spec fn stop_words(&self) -> Seq<Seq<char>> {
        self.stop_word_manager.spec_stop_words()
    }

    /// The counts of the frequency manager.
    pub closed spec fn table(&self) -> Table {
        self.word_freq_manager.spec_table()
    }

    /// A controller over the three managers.
    pub fn new(box_sm: D, box_swm: S, box_wfm: W) -> (c: Self)
        ensures
            c.words() == box_sm.spec_words(),
            c.stop_words() == box_swm.spec_stop_words(),
            c.table() == box_wfm.spec_table(),
    {
        WordFrequencyController { storage_manager: box_sm, stop_word_manager: box_swm, word_freq_manager: box_wfm }
    }

    /// Counts every word that is no stop word (the frequency manager drops words of fewer
    /// than two bytes), then gives a `"{} - {}\n"` line for each word counted more than four
    /// times, by descending count.
    pub fn run(&mut self) -> (s: String)
        requires
            room_for(old(self).table(), select(old(self).words(), old(self).stop_words(), usual_filter())),
        ensures
            final(self).words() == old(self).words(),
            final(self).stop_words() == old(self).stop_words(),
            final(self).table() == count_into(
                old(self).table(),
                select(old(self).words(), old(self).stop_words(), usual_filter()),
            ),
            s@ == usual_report(final(self).table()),
    {
        let bw = self.storage_manager.words();
        let ghost ws = bw.deep_view();
        let ghost stop = self.stop_words();
        let ghost t0 = self.table();
        let mut i: usize = 0;
        while i < bw.len()
            invariant
                i <= bw.len(),
                ws == bw.deep_view(),
                ws == self.words(),
                self.words() == old(self).words(),
                stop == self.stop_words(),
                t0 == old(self).table(),
                room_for(t0, select(ws, stop, usual_filter())),
                self.table() == count_into(t0, select(ws.take(i as int), stop, usual_filter())),
            decreases bw.len() - i,
        {
            let w = &bw[i];
            proof {
                lemma_select_step(ws, stop, usual_filter(), i as int);
                lemma_select_len(ws.take(i as int), stop, usual_filter());
                if passes(ws[i as int], stop, usual_filter()) {
                    lemma_room_before(t0, ws, i as int, stop, usual_filter());
                }
                let sel = select(ws.take(i as int), stop, usual_filter());
                assert(sel.push(w@).drop_last() =~= sel);
                assert(ws[i as int] == w@);
            }
            if !self.stop_word_manager.is_stop_word(w) {
                self.word_freq_manager.increment_count(w);
            }
            i = i + 1;
        }
        assert(ws.take(i as int) =~= ws);
        let word_freq = self.word_freq_manager.sorted();
        report_string(&word_freq, 4, LineStyle::Dash)
    }
}

/// Two runs of a controller that starts with no counts: the first leaves each counted word
/// with its number of occurrences, the second doubles every count and keeps every word in
/// place, so the second report lists the first run's words in the first run's order by count,
/// each counted `n` times by the first run with `2 * n`, exactly those where `2 * n` is above
/// four.
pub proof fn lemma_two_runs_from_new<D: DataStorageManagerTrait, S: StopWordManagerTrait, W: WordFrequencyManagerTrait>(
    c0: WordFrequencyController<D, S, W>,
    c1: WordFrequencyController<D, S, W>,
    c2: WordFrequencyController<D, S, W>,
)
    requires
        c0.table() == Seq::<(Seq<char>, int)>::empty(),
        c1.words() == c0.words(),
        c1.stop_words() == c0.stop_words(),
        c1.table() == count_into(c0.table(), select(c0.words(), c0.stop_words(), usual_filter())),
        c2.table() == count_into(c1.table(), select(c1.words(), c1.stop_words(), usual_filter())),
    ensures
        c1.table() == tally(select(c0.words(), c0.stop_words(), usual_filter())),
        c2.table() == doubled(c1.table()),
        usual_report(c2.table()) == report(doubled(sort_entries(c1.table(), false)), 4, LineStyle::Dash),
{
    let ws = select(c0.words(), c0.stop_words(), usual_filter());
    lemma_count_into(c0.table(), ws);
    lemma_count_again(ws);
    lemma_sort_doubled(c1.table());
}

/// Builds the three managers for the text `text` and the stop-word file content `stop_text`,
/// runs a controller over them and gives its report; `None` when a word it would count
/// occurs `i32::MAX` times or more.
pub fn abstract_things_checked(text: &String, stop_text: &String) -> (r: Option<String>)
    ensures
        r is None <==> !countable(usual_words(text@, stop_text@)),
        r matches Some(s) ==> s@ == usual_output(text@, stop_text@),
{
    let sm = DataStorageManager::new(text);
    let swm = StopWordManager::new(stop_text);
    let wfm = WordFrequencyManager::new();
    let sel = select_words(&sm.words(), &swm.stop_words, WordFilter { drop_stop_words: true, min_bytes: 2 });
    let ghost e = Seq::<(Seq<char>, int)>::empty();
    proof {
        assert(room_for(e, sel.deep_view()) <==> countable(sel.deep_view())) by {
            assert forall|w: Seq<char>| #[trigger] occurrences(sel.deep_view(), w) < i32::MAX <==> (occurrences(sel.deep_view(), w) > 0 ==> count_of(e, w) + occurrences(sel.deep_view(), w) < i32::MAX) by {
                crate::freq::lemma_occurrences_bound(sel.deep_view(), w);
            }
        }
        lemma_count_into(e, sel.deep_view());
    }
    if room_for_words(&wfm.word_freqs, &sel) {
        let mut wfc = WordFrequencyController::new(sm, swm, wfm);
        Some(wfc.run())
    } else {
        None
    }
}

} // verus!
