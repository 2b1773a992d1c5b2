//! Hollywood: components register handlers with a framework, which calls them back in
//! phases: load the data, produce the words, report. Handlers are known by number.
use vstd::prelude::*;
use crate::freq::{FreqTable, Table, add_count, count_of, countable, tally};
use crate::map_reduce::{frequent_lines, frequent_report};
use crate::text::{Separator, runs, split_runs};
use crate::tf::{stop_only_filter, lemma_room_in_tally};
use crate::words::{StopWords, WordFilter, normalize_text, normalized, select, select_words, stop_word_pieces,
    text_words};

verus! {

/// The words of a text that the hollywood style counts: all but the stop words.
pub open spec fn hollywood_words(text: Seq<char>, stop_text: Seq<char>) -> Seq<Seq<char>> {
    select(text_words(text), stop_word_pieces(stop_text), stop_only_filter())
}

/// The hollywood style counts each word of the lower-cased text as often as it occurs there,
/// and never a stop word.
pub proof fn lemma_hollywood_counts(text: Seq<char>, stop_text: Seq<char>, w: Seq<char>)
    ensures
        crate::freq::count_of(crate::freq::tally(hollywood_words(text, stop_text)), w) == if crate::words::stop_word_pieces(stop_text).contains(w) {
            0
        } else {
            crate::freq::occurrences(crate::words::text_words(text), w)
        },
{
    crate::freq::lemma_tally(hollywood_words(text, stop_text));
    crate::tf::lemma_select_occurrences_exact(crate::words::text_words(text), crate::words::stop_word_pieces(stop_text), crate::tf::stop_only_filter(), w);
}

/// The component that knows the stop words.
pub struct StopWordsFilter {
    stop_words: StopWords,
}

impl View for StopWordsFilter {
    type V = Seq<Seq<char>>;

    closed spec fn view(&self) -> Seq<Seq<char>> {
        self.stop_words@
    }
}

impl StopWordsFilter {
    /// A filter with no stop words.
    pub fn new() -> (f: StopWordsFilter)
        ensures
            f@ == Seq::<Seq<char>>::empty(),
    {
        StopWordsFilter { stop_words: StopWords::new() }
    }

    /// Loads the stop words from the text of the stop-word file.
    pub fn load_data(&mut self, stop_text: &str)
        ensures
            final(self)@ == stop_word_pieces(stop_text@),
    {
        self.stop_words = StopWords::from_text(stop_text);
    }

    /// Whether `w` is a stop word (and is to be filtered out).
    pub fn filter(&self, w: &String) -> (b: bool)
        ensures
            b == self@.contains(w@),
    {
        self.stop_words.contains(w)
    }

    /// The stop words.
    pub fn stop_words(&self) -> (s: &StopWords)
        ensures
            s@ == self@,
    {
        &self.stop_words
    }
}

/// The component that holds the text and produces its words.
pub struct DataStorage {
    data: String,
    word_events: Vec<usize>,
}

impl DataStorage {
    /// Storage with no text and no word handlers.
    pub fn new() -> (d: DataStorage)
        ensures
            d.data() == Seq::<char>::empty(),
            d.word_handlers() == Seq::<usize>::empty(),
    {
        DataStorage { data: String::new(), word_events: Vec::new() }
    }

    /// The stored (normalized) text.
    pub closed spec fn data(&self) -> Seq<char> {
        self.data@
    }

    /// The handlers that are told of each word, in order of registration.
    pub closed spec fn word_handlers(&self) -> Seq<usize> {
        self.word_events@
    }

    /// Registers handler `h` to be told of each word.
    pub fn register_word_event(&mut self, h: usize)
        ensures
            final(self).word_handlers() == old(self).word_handlers().push(h),
            final(self).data() == old(self).data(),
    {
        self.word_events.push(h);
    }

    /// The handlers to tell of each word, in order of registration.
    pub fn word_events(&self) -> (v: Vec<usize>)
        ensures
            v@ == self.word_handlers(),
    {
        self.word_events.clone()
    }

    /// Loads a text: it is lower-cased and every run of non-word characters becomes a space.
    pub fn load_data(&mut self, text: &str)
        ensures
            final(self).data() == normalized(text@),
            final(self).word_handlers() == old(self).word_handlers(),
    {
        self.data = normalize_text(text);
    }

    /// The words of the text that the filter does not reject, in order: each is to be told to
    /// every word handler.
    pub fn produce_words(&self, filter: &StopWordsFilter) -> (r: Vec<String>)
        ensures
            r.deep_view() == select(runs(self.data(), Separator::Whitespace), filter@, stop_only_filter()),
    {
        let words = split_runs(self.data.as_str(), Separator::Whitespace);
        select_words(&words, filter.stop_words(), WordFilter { drop_stop_words: true, min_bytes: 0 })
    }
}

/// The component that counts the words it is told of.
pub struct WordFrequencyCounter {
    words_freq: FreqTable,
}

impl View for WordFrequencyCounter {
    type V = Table;

    closed spec fn view(&self) -> Table {
        self.words_freq@
    }
}

impl WordFrequencyCounter {
    /// A counter that has counted nothing.
    pub fn new() -> (c: WordFrequencyCounter)
        ensures
            c@ == Seq::<(Seq<char>, int)>::empty(),
    {
        WordFrequencyCounter { words_freq: FreqTable::new() }
    }

    /// Counts one occurrence of `w`.
    pub fn word(&mut self, w: &String)
        requires
            count_of(old(self)@, w@) < i32::MAX,
        ensures
            final(self)@ == add_count(old(self)@, w@, 1),
    {
        self.words_freq.increment(w);
    }

    /// A `"{} - {}\n"` line for each word counted more than four times, by descending count.
    pub fn to_string(&self) -> (s: String)
        ensures
            s@ == frequent_lines(self@),
    {
        frequent_report(&self.words_freq)
    }
}

/// A call that the framework makes on a registered handler.
pub enum FrameworkAction {
    /// Load the data of the named file.
    LoadData { handler: usize, file_name: String },
    /// Produce the words.
    ProduceWords { handler: usize },
    /// Write the report.
    ToString { handler: usize },
}

/// The framework: the handlers of each phase, in order of registration.
pub struct WordFrequencyFramework {
    load_event_handlers: Vec<(usize, String)>,
    produce_words_handlers: Vec<usize>,
    to_string_handlers: Vec<usize>,
}

impl WordFrequencyFramework {
    /// The load handlers with their file names.
    pub closed spec fn loads(&self) -> Seq<(usize, Seq<char>)> {
        self.load_event_handlers@.map_values(|e: (usize, String)| (e.0, e.1@))
    }

    /// The word-producing handlers.
    pub closed spec fn producers(&self) -> Seq<usize> {
        self.produce_words_handlers@
    }

    /// The reporting handlers.
    pub closed spec fn reporters(&self) -> Seq<usize> {
        self.to_string_handlers@
    }

    /// A framework with no handlers.
    pub fn new() -> (f: WordFrequencyFramework)
        ensures
            f.loads() == Seq::<(usize, Seq<char>)>::empty(),
            f.producers() == Seq::<usize>::empty(),
            f.reporters() == Seq::<usize>::empty(),
    {
        let f = WordFrequencyFramework {
            load_event_handlers: Vec::new(),
            produce_words_handlers: Vec::new(),
            to_string_handlers: Vec::new(),
        };
        assert(f.loads() =~= Seq::<(usize, Seq<char>)>::empty());
        f
    }

    /// Registers handler `h` to load the file `file_name`.
    pub fn register_load_data_ev(&mut self, h: usize, file_name: &String)
        ensures
            final(self).loads() == old(self).loads().push((h, file_name@)),
            final(self).producers() == old(self).producers(),
            final(self).reporters() == old(self).reporters(),
    {
        let ghost before = self.load_event_handlers@;
        self.load_event_handlers.push((h, file_name.clone()));
        assert(self.loads() =~= before.map_values(|e: (usize, String)| (e.0, e.1@)).push((h, file_name@)));
    }

    /// Registers handler `h` to produce the words.
    pub fn register_produce_words_event(&mut self, h: usize)
        ensures
            final(self).loads() == old(self).loads(),
            final(self).producers() == old(self).producers().push(h),
            final(self).reporters() == old(self).reporters(),
    {
        self.produce_words_handlers.push(h);
    }

    /// Registers handler `h` to write the report.
    pub fn register_to_string_event(&mut self, h: usize)
        ensures
            final(self).loads() == old(self).loads(),
            final(self).producers() == old(self).producers(),
            final(self).reporters() == old(self).reporters().push(h),
    {
        self.to_string_handlers.push(h);
    }

    /// The calls of a run, in order: every load, then every word production, then every
    /// report, each phase in order of registration.
    pub fn run(&self) -> (r: Vec<FrameworkAction>)
        ensures
            r.len() == self.loads().len() + self.producers().len() + self.reporters().len(),
            forall|i: int| 0 <= i < self.loads().len() ==> (#[trigger] r@[i] matches FrameworkAction::LoadData {
                handler,
                file_name,
            } && handler == self.loads()[i].0 && file_name@ == self.loads()[i].1),
            forall|i: int| 0 <= i < self.producers().len() ==> (#[trigger] r@[self.loads().len() + i] matches FrameworkAction::ProduceWords {
                handler,
            } && handler == self.producers()[i]),
            forall|i: int| 0 <= i < self.reporters().len() ==> (#[trigger] r@[self.loads().len() + self.producers().len() + i] matches FrameworkAction::ToString {
                handler,
            } && handler == self.reporters()[i]),
    {
        let mut r: Vec<FrameworkAction> = Vec::new();
        let nl = self.load_event_handlers.len();
        let np = self.produce_words_handlers.len();
        let mut i: usize = 0;
        while i < nl
            invariant
                i <= nl,
                nl == self.loads().len(),
                r.len() == i,
                forall|j: int| 0 <= j < i ==> (#[trigger] r@[j] matches FrameworkAction::LoadData {
                    handler,
                    file_name,
                } && handler == self.loads()[j].0 && file_name@ == self.loads()[j].1),
            decreases nl - i,
        {
            let e = &self.load_event_handlers[i];
            r.push(FrameworkAction::LoadData { handler: e.0, file_name: e.1.clone() });
            i = i + 1;
        }
        let mut k: usize = 0;
        while k < np
            invariant
                k <= np,
                nl == self.loads().len(),
                np == self.producers().len(),
                r.len() == nl + k,
                forall|j: int| 0 <= j < nl ==> (#[trigger] r@[j] matches FrameworkAction::LoadData {
                    handler,
                    file_name,
                } && handler == self.loads()[j].0 && file_name@ == self.loads()[j].1),
                forall|j: int| 0 <= j < k ==> (#[trigger] r@[nl + j] matches FrameworkAction::ProduceWords {
                    handler,
                } && handler == self.producers()[j]),
            decreases np - k,
        {
            r.push(FrameworkAction::ProduceWords { handler: self.produce_words_handlers[k] });
            k = k + 1;
        }
        let mut m: usize = 0;
        while m < self.to_string_handlers.len()
            invariant
                m <= self.reporters().len(),
                nl == self.loads().len(),
                np == self.producers().len(),
                r.len() == nl + np + m,
                forall|j: int| 0 <= j < nl ==> (#[trigger] r@[j] matches FrameworkAction::LoadData {
                    handler,
                    file_name,
                } && handler == self.loads()[j].0 && file_name@ == self.loads()[j].1),
                forall|j: int| 0 <= j < np ==> (#[trigger] r@[nl + j] matches FrameworkAction::ProduceWords {
                    handler,
                } && handler == self.producers()[j]),
                forall|j: int| 0 <= j < m ==> (#[trigger] r@[nl + np + j] matches FrameworkAction::ToString {
                    handler,
                } && handler == self.reporters()[j]),
            decreases self.reporters().len() - m,
        {
            r.push(FrameworkAction::ToString { handler: self.to_string_handlers[m] });
            m = m + 1;
        }
        r
    }
}

/// The hollywood style run through: the filter and the storage load their texts, the storage
/// produces the words that are no stop words, the counter counts them and writes the report.
pub fn hollywood_test(text: &str, stop_text: &str) -> (s: String)
    requires
        countable(hollywood_words(text@, stop_text@)),
    ensures
        s@ == frequent_lines(tally(hollywood_words(text@, stop_text@))),
{
    let mut filter = StopWordsFilter::new();
    filter.load_data(stop_text);
    let mut storage = DataStorage::new();
    storage.load_data(text);
    let words = storage.produce_words(&filter);
    let mut counter = WordFrequencyCounter::new();
    let mut i: usize = 0;
    while i < words.len()
        invariant
            i <= words.len(),
            countable(words.deep_view()),
            counter@ == tally(words.deep_view().take(i as int)),
        decreases words.len() - i,
    {
        proof {
            lemma_room_in_tally(words.deep_view(), i as int);
            assert(words.deep_view().take(i + 1).drop_last() =~= words.deep_view().take(i as int));
        }
        counter.word(&words[i]);
        i = i + 1;
    }
    assert(words.deep_view().take(i as int) =~= words.deep_view());
    counter.to_string()
}

/// The hollywood style when no count can overflow: `None` when a word it counts occurs
/// `i32::MAX` times or more, else what `hollywood_test` gives.
pub fn hollywood_checked(text: &str, stop_text: &str) -> (r: Option<String>)
    ensures
        r is None <==> !countable(hollywood_words(text@, stop_text@)),
        r matches Some(s) ==> s@ == frequent_lines(tally(hollywood_words(text@, stop_text@))),
{
    let stop = StopWords::from_text(stop_text);
    let kept = select_words(&crate::words::words_of_text(text), &stop, WordFilter { drop_stop_words: true, min_bytes: 0 });
    if crate::freq::countable_words(&kept) {
        Some(hollywood_test(text, stop_text))
    } else {
        None
    }
}

} // verus!
