//! Bulletin board: components subscribe handlers to events, and an event manager tells every
//! subscriber of an event when the event is published. Handlers are known by number.
use vstd::prelude::*;
use crate::freq::{FreqTable, Table, add_count, count_of, countable, countable_words, tally};
use crate::order::sort_entries;
use crate::report::{LineStyle, report, report_string};
use crate::text::{lowercase, to_lowercase};
use crate::tf::{sorted_pairs, stop_only_filter, lemma_room_in_kept};
use crate::words::{passes, select, stop_word_pieces, text_words, words_of_text};

verus! {

/// The events of the board.
#[derive(PartialEq, Eq, Structural, Clone, Copy, Hash)]
pub enum MyEvent {
    OnLoad,
    OnLoadStopWords,
    OnStart,
    OnWord,
    OnEof,
    OnValidWord,
    OnPrint,
}

/// The handlers subscribed to `ev`, in order of subscription.
pub open spec fn handlers_of(subs: Seq<(MyEvent, usize)>, ev: MyEvent) -> Seq<usize>
    decreases subs.len(),
{
    if subs.len() == 0 {
        Seq::empty()
    } else if subs.last().0 == ev {
        handlers_of(subs.drop_last(), ev).push(subs.last().1)
    } else {
        handlers_of(subs.drop_last(), ev)
    }
}

/// The event manager: every subscription, in order.
pub struct EventManager {
    events_map: Vec<(MyEvent, usize)>,
}

impl View for EventManager {
    type V = Seq<(MyEvent, usize)>;

    closed spec fn view(&self) -> Seq<(MyEvent, usize)> {
        self.events_map@
    }
}

impl EventManager {
    /// A manager without subscriptions.
    pub fn new() -> (m: EventManager)
        ensures
            m@ == Seq::<(MyEvent, usize)>::empty(),
    {
        EventManager { events_map: Vec::new() }
    }

    /// Subscribes handler `h` to event `ev`.
    pub fn register_event(&mut self, ev: MyEvent, h: usize)
        ensures
            final(self)@ == old(self)@.push((ev, h)),
    {
        self.events_map.push((ev, h));
    }

    /// The handlers to call when `ev` is published, in order of subscription.
    pub fn emit(&self, ev: MyEvent) -> (r: Vec<usize>)
        ensures
            r@ == handlers_of(self@, ev),
    {
        let mut r: Vec<usize> = Vec::new();
        let mut i: usize = 0;
        while i < self.events_map.len()
            invariant
                i <= self@.len(),
                r@ == handlers_of(self@.take(i as int), ev),
            decreases self@.len() - i,
        {
            assert(self@.take(i + 1).drop_last() =~= self@.take(i as int));
            assert(self@.take(i + 1).last() == self@[i as int]);
            let e = self.events_map[i];
            if e.0 == ev {
                r.push(e.1);
            }
            i = i + 1;
        }
        assert(self@.take(i as int) =~= self@);
        r
    }
}

/// Publishing an event after a subscription calls the handlers called before, and the new
/// handler last when it was subscribed to that event; other events are not affected.
pub proof fn lemma_subscribe_then_publish(subs: Seq<(MyEvent, usize)>, ev: MyEvent, h: usize, e: MyEvent)
    ensures
        handlers_of(subs.push((ev, h)), e) == if e == ev {
            handlers_of(subs, e).push(h)
        } else {
            handlers_of(subs, e)
        },
{
    assert(subs.push((ev, h)).drop_last() =~= subs);
}

/// The component that holds the text.
pub struct DataStorage {
    text: String,
}

impl DataStorage {
    /// Storage with no text.
    pub fn new() -> (d: DataStorage)
        ensures
            d.text() == Seq::<char>::empty(),
    {
        DataStorage { text: String::new() }
    }

    /// The stored text.
    pub closed spec fn text(&self) -> Seq<char> {
        self.text@
    }

    /// Loads a text, lower-cased.
    pub fn load_data(&mut self, text: &str)
        ensures
            final(self).text() == lowercase(text@),
    {
        self.text = to_lowercase(text);
    }

    /// The words of the stored text, in order: each is published as a word event.
    pub fn produce_words(&self) -> (r: Vec<String>)
        ensures
            r.deep_view() == text_words(self.text()),
    {
        words_of_text(self.text.as_str())
    }
}

/// The component that knows the stop words.
pub struct StopWords {
    stop_words: crate::words::StopWords,
}

impl View for StopWords {
    type V = Seq<Seq<char>>;

    closed spec fn view(&self) -> Seq<Seq<char>> {
        self.stop_words@
    }
}

impl StopWords {
    /// No stop words.
    pub fn new() -> (s: StopWords)
        ensures
            s@ == Seq::<Seq<char>>::empty(),
    {
        StopWords { stop_words: crate::words::StopWords::new() }
    }

    /// Loads the stop words from the text of the stop-word file: the pieces between commas.
    pub fn load_stop_words(&mut self, stop_text: &str)
        ensures
            final(self)@ == stop_word_pieces(stop_text@),
    {
        self.stop_words = crate::words::StopWords::from_text(stop_text);
    }

    /// Whether `word` is a stop word; a word that is not is published as a valid word.
    pub fn is_stop_word(&self, word: &String) -> (b: bool)
        ensures
            b == self@.contains(word@),
    {
        self.stop_words.contains(word)
    }
}

/// The component that counts the valid words.
pub struct WordsFrequencies {
    words_frequencies: FreqTable,
}

impl View for WordsFrequencies {
    type V = Table;

    closed spec fn view(&self) -> Table {
        self.words_frequencies@
    }
}

impl WordsFrequencies {
    /// Nothing counted.
    pub fn new() -> (f: WordsFrequencies)
        ensures
            f@ == Seq::<(Seq<char>, int)>::empty(),
    {
        WordsFrequencies { words_frequencies: FreqTable::new() }
    }

    /// Counts one occurrence of `word`.
    pub fn insert_word(&mut self, word: &String)
        requires
            count_of(old(self)@, word@) < i32::MAX,
        ensures
            final(self)@ == add_count(old(self)@, word@, 1),
    {
        self.words_frequencies.increment(word);
    }

    /// Replaces `target_str` with a `"{} - {}\n"` line for each word counted at least
    /// `min_freq` times, by descending count.
    pub fn print_to_string(&self, min_freq: i32, target_str: &mut String)
        ensures
            final(target_str)@ == report(sort_entries(self@, false), min_freq - 1, LineStyle::Dash),
    {
        let sorted = sorted_pairs(&self.words_frequencies, false);
        *target_str = report_string(&sorted, min_freq as i64 - 1, LineStyle::Dash);
    }
}

/// What a published event carries.
pub enum EventArg {
    /// A text: a file's content.
    Text(String),
    /// A word.
    Word(String),
    /// The fewest times a word must be counted to be printed.
    Print(i32),
    Nothing,
}

/// What an event carries, as values.
pub enum ArgView {
    Text(Seq<char>),
    Word(Seq<char>),
    Print(int),
    Nothing,
}

impl View for EventArg {
    type V = ArgView;

    open spec fn view(&self) -> ArgView {
        match self {
            EventArg::Text(t) => ArgView::Text(t@),
            EventArg::Word(w) => ArgView::Word(w@),
            EventArg::Print(m) => ArgView::Print(*m as int),
            EventArg::Nothing => ArgView::Nothing,
        }
    }
}

/// A list of events to publish, as values.
pub open spec fn events_view(v: Seq<(MyEvent, EventArg)>) -> Seq<(MyEvent, ArgView)> {
    v.map_values(|e: (MyEvent, EventArg)| (e.0, e.1@))
}

/// One word event per word, in order.
pub open spec fn word_events(ws: Seq<Seq<char>>) -> Seq<(MyEvent, ArgView)> {
    ws.map_values(|w: Seq<char>| (MyEvent::OnWord, ArgView::Word(w)))
}

/// The handler that loads the text.
pub const LOAD_DATA: usize = 0;
/// The handler that publishes the words of the text.
pub const PRODUCE_WORDS: usize = 1;
/// The handler that loads the stop words.
pub const LOAD_STOP_WORDS: usize = 2;
/// The handler that passes on the words that are no stop words.
pub const VALIDATE_WORD: usize = 3;
/// The handler that counts a word.
pub const INSERT_WORD: usize = 4;
/// The handler that prints the frequencies.
pub const PRINT_FREQUENCIES: usize = 5;

/// The subscriptions that the components make: the storage loads on `OnLoad` and publishes
/// the words on `OnStart`; the stop words load on `OnLoadStopWords` and check each `OnWord`;
/// the counter counts each `OnValidWord` and prints on `OnPrint`.
pub open spec fn board_subscriptions() -> Seq<(MyEvent, usize)> {
    seq![
        (MyEvent::OnLoad, LOAD_DATA),
        (MyEvent::OnStart, PRODUCE_WORDS),
        (MyEvent::OnLoadStopWords, LOAD_STOP_WORDS),
        (MyEvent::OnWord, VALIDATE_WORD),
        (MyEvent::OnValidWord, INSERT_WORD),
        (MyEvent::OnPrint, PRINT_FREQUENCIES),
    ]
}

/// The board: the event manager and the components whose handlers it calls.
pub struct Board {
    manager: EventManager,
    data_storage: DataStorage,
    stop_words: StopWords,
    words_frequencies: WordsFrequencies,
    result: String,
}

impl Board {
    pub closed spec fn subscriptions(&self) -> Seq<(MyEvent, usize)> {
        self.manager@
    }

    pub closed spec fn text(&self) -> Seq<char> {
        self.data_storage.text()
    }

    pub closed spec fn stop_words(&self) -> Seq<Seq<char>> {
        self.stop_words@
    }

    pub closed spec fn table(&self) -> Table {
        self.words_frequencies@
    }

    pub closed spec fn printed(&self) -> Seq<char> {
        self.result@
    }

    /// The components with nothing loaded, each with its handlers subscribed.
    pub fn new() -> (b: Board)
        ensures
            b.subscriptions() == board_subscriptions(),
            b.text() == Seq::<char>::empty(),
            b.stop_words() == Seq::<Seq<char>>::empty(),
            b.table() == Seq::<(Seq<char>, int)>::empty(),
            b.printed() == Seq::<char>::empty(),
    {
        let mut manager = EventManager::new();
        manager.register_event(MyEvent::OnLoad, LOAD_DATA);
        manager.register_event(MyEvent::OnStart, PRODUCE_WORDS);
        manager.register_event(MyEvent::OnLoadStopWords, LOAD_STOP_WORDS);
        manager.register_event(MyEvent::OnWord, VALIDATE_WORD);
        manager.register_event(MyEvent::OnValidWord, INSERT_WORD);
        manager.register_event(MyEvent::OnPrint, PRINT_FREQUENCIES);
        assert(manager@ =~= board_subscriptions());
        Board {
            manager,
            data_storage: DataStorage::new(),
            stop_words: StopWords::new(),
            words_frequencies: WordsFrequencies::new(),
            result: String::new(),
        }
    }

    /// The handlers to call when `ev` is published, in order of subscription.
    pub fn subscribers(&self, ev: MyEvent) -> (r: Vec<usize>)
        ensures
            r@ == handlers_of(self.subscriptions(), ev),
    {
        self.manager.emit(ev)
    }

    /// The printed frequencies.
    pub fn result(&self) -> (s: String)
        ensures
            s@ == self.printed(),
    {
        self.result.clone()
    }

    /// The arguments each handler takes.
    pub open spec fn accepts(h: usize, arg: ArgView) -> bool {
        if h == LOAD_DATA || h == LOAD_STOP_WORDS {
            arg is Text
        } else if h == PRODUCE_WORDS {
            true
        } else if h == VALIDATE_WORD || h == INSERT_WORD {
            arg is Word
        } else if h == PRINT_FREQUENCIES {
            arg is Print
        } else {
            false
        }
    }

    /// Calls handler `h` with `arg`, and gives the events it publishes, in order.
    pub fn handle(&mut self, h: usize, arg: &EventArg) -> (out: Vec<(MyEvent, EventArg)>)
        requires
            Self::accepts(h, arg@),
            h == INSERT_WORD ==> (arg@ matches ArgView::Word(w) && count_of(old(self).table(), w) < i32::MAX),
        ensures
            final(self).subscriptions() == old(self).subscriptions(),
            h == LOAD_DATA ==> (arg@ matches ArgView::Text(t) && final(self).text() == lowercase(t)),
            h != LOAD_DATA ==> final(self).text() == old(self).text(),
            h == LOAD_STOP_WORDS ==> (arg@ matches ArgView::Text(t) && final(self).stop_words() == stop_word_pieces(t)),
            h != LOAD_STOP_WORDS ==> final(self).stop_words() == old(self).stop_words(),
            h == INSERT_WORD ==> (arg@ matches ArgView::Word(w) && final(self).table() == add_count(old(self).table(), w, 1)),
            h != INSERT_WORD ==> final(self).table() == old(self).table(),
            h == PRINT_FREQUENCIES ==> (arg@ matches ArgView::Print(m) && final(self).printed() == report(
                sort_entries(old(self).table(), false),
                m - 1,
                LineStyle::Dash,
            )),
            h != PRINT_FREQUENCIES ==> final(self).printed() == old(self).printed(),
            h == PRODUCE_WORDS ==> events_view(out@) == word_events(text_words(old(self).text())).push(
                (MyEvent::OnEof, ArgView::Nothing),
            ),
            h == VALIDATE_WORD ==> (arg@ matches ArgView::Word(w) && events_view(out@) == if old(self).stop_words().contains(w) {
                Seq::<(MyEvent, ArgView)>::empty()
            } else {
                seq![(MyEvent::OnValidWord, ArgView::Word(w))]
            }),
            h != PRODUCE_WORDS && h != VALIDATE_WORD ==> out@.len() == 0,
    {
        let mut out: Vec<(MyEvent, EventArg)> = Vec::new();
        if h == LOAD_DATA {
            if let EventArg::Text(t) = arg {
                self.data_storage.load_data(t.as_str());
            }
        } else if h == PRODUCE_WORDS {
            let words = self.data_storage.produce_words();
            let mut i: usize = 0;
            while i < words.len()
                invariant
                    i <= words.len(),
                    events_view(out@) == word_events(words.deep_view().take(i as int)),
                decreases words.len() - i,
            {
                let ghost before = events_view(out@);
                out.push((MyEvent::OnWord, EventArg::Word(words[i].clone())));
                assert(events_view(out@) =~= before.push((MyEvent::OnWord, ArgView::Word(words[i as int]@))));
                assert(word_events(words.deep_view().take(i + 1)) =~= word_events(words.deep_view().take(i as int)).push(
                    (MyEvent::OnWord, ArgView::Word(words[i as int]@)),
                ));
                i = i + 1;
            }
            assert(words.deep_view().take(i as int) =~= words.deep_view());
            let ghost before = events_view(out@);
            out.push((MyEvent::OnEof, EventArg::Nothing));
            assert(events_view(out@) =~= before.push((MyEvent::OnEof, ArgView::Nothing)));
        } else if h == LOAD_STOP_WORDS {
            if let EventArg::Text(t) = arg {
                self.stop_words.load_stop_words(t.as_str());
            }
        } else if h == VALIDATE_WORD {
            if let EventArg::Word(w) = arg {
                if !self.stop_words.is_stop_word(w) {
                    out.push((MyEvent::OnValidWord, EventArg::Word(w.clone())));
                    assert(events_view(out@) =~= seq![(MyEvent::OnValidWord, ArgView::Word(w@))]);
                } else {
                    assert(events_view(out@) =~= Seq::<(MyEvent, ArgView)>::empty());
                }
            }
        } else if h == INSERT_WORD {
            if let EventArg::Word(w) = arg {
                self.words_frequencies.insert_word(w);
            }
        } else {
            if let EventArg::Print(m) = arg {
                let mut target = String::new();
                self.words_frequencies.print_to_string(*m, &mut target);
                self.result = target;
            }
        }
        out
    }
}

/// The words of a text that the bulletin board counts: all but the stop words.
pub open spec fn board_words(text: Seq<char>, stop_text: Seq<char>) -> Seq<Seq<char>> {
    select(text_words(lowercase(text)), stop_word_pieces(stop_text), stop_only_filter())
}

/// The bulletin board counts each word of the lower-cased text as often as it occurs there, and
/// never a stop word.
pub proof fn lemma_board_counts(text: Seq<char>, stop_text: Seq<char>, w: Seq<char>)
    ensures
        crate::freq::count_of(crate::freq::tally(board_words(text, stop_text)), w) == if crate::words::stop_word_pieces(stop_text).contains(w) {
            0
        } else {
            crate::freq::occurrences(crate::words::text_words(crate::text::lowercase(text)), w)
        },
{
    crate::freq::lemma_tally(board_words(text, stop_text));
    crate::tf::lemma_select_occurrences_exact(crate::words::text_words(crate::text::lowercase(text)), crate::words::stop_word_pieces(stop_text), crate::tf::stop_only_filter(), w);
}

/// The bulletin board run through: the text and the stop words are loaded, every word is
/// published, each one that is no stop word is counted, and the words counted at least five
/// times are reported.
pub fn bulletin_board_test(text: &str, stop_text: &str) -> (s: String)
    requires
        countable(board_words(text@, stop_text@)),
    ensures
        s@ == report(sort_entries(tally(board_words(text@, stop_text@)), false), 4, LineStyle::Dash),
{
    let mut data_storage = DataStorage::new();
    data_storage.load_data(text);
    let mut stop_words = StopWords::new();
    stop_words.load_stop_words(stop_text);
    let mut words_frequencies = WordsFrequencies::new();
    let words = data_storage.produce_words();
    let ghost stop = stop_words@;
    let mut i: usize = 0;
    while i < words.len()
        invariant
            i <= words.len(),
            countable(select(words.deep_view(), stop, stop_only_filter())),
            stop_words@ == stop,
            words_frequencies@ == tally(select(words.deep_view().take(i as int), stop, stop_only_filter())),
        decreases words.len() - i,
    {
        let ghost taken = words.deep_view().take(i as int);
        proof {
            crate::tf::lemma_select_step(words.deep_view(), stop, stop_only_filter(), i as int);
            if passes(words[i as int]@, stop, stop_only_filter()) {
                lemma_room_in_kept(words.deep_view(), i as int, stop, stop_only_filter());
            }
        }
        if !stop_words.is_stop_word(&words[i]) {
            let ghost kept = select(taken, stop, stop_only_filter());
            words_frequencies.insert_word(&words[i]);
            assert(kept.push(words[i as int]@).drop_last() =~= kept);
        }
        i = i + 1;
    }
    assert(words.deep_view().take(i as int) =~= words.deep_view());
    let mut result_string = String::new();
    words_frequencies.print_to_string(5, &mut result_string);
    result_string
}

/// The bulletin board run through when the counts cannot overflow: `None` when a word it
/// counts occurs `i32::MAX` times or more, else what `bulletin_board_test` gives.
pub fn bulletin_board_checked(text: &str, stop_text: &str) -> (r: Option<String>)
    ensures
        r is None <==> !countable(board_words(text@, stop_text@)),
        r matches Some(s) ==> s@ == report(sort_entries(tally(board_words(text@, stop_text@)), false), 4, LineStyle::Dash),
{
    let lower = to_lowercase(text);
    let words = words_of_text(lower.as_str());
    let stop = crate::words::StopWords::from_text(stop_text);
    let kept = crate::words::select_words(&words, &stop, crate::words::WordFilter { drop_stop_words: true, min_bytes: 0 });
    if !countable_words(&kept) {
        None
    } else {
        Some(bulletin_board_test(text, stop_text))
    }
}

} // verus!
