//! Letterbox: objects that only answer messages, each naming what is asked.
use vstd::prelude::*;
use vstd::string::StringExecFns;
use crate::freq::{FreqTable, Table, add_count, count_into, count_of, pairs_view, room_for, room_for_words};
use crate::order::sort_entries;
use crate::report::{LineStyle, report, report_string};
use crate::text::{Separator, runs, split_runs};
use crate::tf::{above, pairs_above, stop_only_filter, lemma_select_step, lemma_select_len, lemma_room_before};
use crate::words::{StopWords, WordFilter, normalize_text, normalized, passes, select, select_words, stop_word_pieces};

verus! {

/// What a message carries.
pub enum LetterData {
    /// A text: a file's content or a word.
    Text(String),
    /// Several texts.
    Texts(Vec<String>),
    /// A flag.
    Flag(bool),
}

/// A message: what is asked, and what it carries.
pub struct MessageLB {
    pub message: String,
    pub msg_data: LetterData,
}

/// What a dispatch answers.
pub enum LetterReply {
    Text(String),
    Words(Vec<String>),
    Flag(bool),
    Pairs(Vec<(String, i32)>),
}

impl MessageLB {
    /// A message asking `msg` and carrying `data`.
    pub fn new(msg: &String, data: LetterData) -> (m: Self)
        ensures
            m.message@ == msg@,
            m.msg_data == data,
    {
        MessageLB { message: msg.clone(), msg_data: data }
    }
}

/// The names of the messages differ from each other.
pub proof fn lemma_names_differ()
    ensures
        "init"@.len() == 4,
        "words"@.len() == 5,
        "sorted"@.len() == 6,
        "run"@.len() == 3,
        "is_stop_word"@.len() == 12,
        "increment_count"@.len() == 15,
{
    reveal_strlit("init");
    reveal_strlit("words");
    reveal_strlit("sorted");
    reveal_strlit("run");
    reveal_strlit("is_stop_word");
    reveal_strlit("increment_count");
}

/// The message asks `name`.
pub open spec fn asks(m: &MessageLB, name: Seq<char>) -> bool {
    m.message@ == name
}

/// Whether the message asks `name`.
fn is_asked(m: &MessageLB, name: &str) -> (b: bool)
    ensures
        b == asks(m, name@),
{
    m.message == String::from_str(name)
}

/// The text a message carries, when it carries one.
pub open spec fn text_of(m: &MessageLB) -> Option<Seq<char>> {
    match m.msg_data {
        LetterData::Text(s) => Some(s@),
        _ => None,
    }
}

/// Holds the normalized text.
pub struct DataStorageManager {
    data: String,
}

impl DataStorageManager {
    pub closed spec fn data(&self) -> Seq<char> {
        self.data@
    }

    /// A manager holding no text yet.
    pub fn new() -> (m: Self)
        ensures
            m.data() == Seq::<char>::empty(),
    {
        DataStorageManager { data: String::new() }
    }

    /// Takes the input text, normalized, and gives it back.
    pub fn init(&mut self, text: &String) -> (r: String)
        ensures
            final(self).data() == normalized(text@),
            r@ == normalized(text@),
    {
        self.data = normalize_text(text.as_str());
        self.data.clone()
    }

    /// The white-space separated words of the held text.
    pub fn words(&mut self) -> (r: Vec<String>)
        ensures
            final(self).data() == old(self).data(),
            r.deep_view() == runs(old(self).data(), Separator::Whitespace),
    {
        split_runs(self.data.as_str(), Separator::Whitespace)
    }

    /// The messages the manager answers: `init` with a text, and `words`.
    pub open spec fn accepts(m: &MessageLB) -> bool {
        (asks(m, "init"@) && text_of(m) is Some) || asks(m, "words"@)
    }

    /// Answers `init` (with the normalized text) and `words` (with the words).
    pub fn dispatch(&mut self, message: &MessageLB) -> (r: LetterReply)
        requires
            Self::accepts(message),
        ensures
            asks(message, "init"@) ==> final(self).data() == normalized(text_of(message)->0) && (r
                matches LetterReply::Text(s) && s@ == normalized(text_of(message)->0)),
            !asks(message, "init"@) ==> final(self).data() == old(self).data() && (r
                matches LetterReply::Words(ws) && ws.deep_view() == runs(old(self).data(), Separator::Whitespace)),
    {
        proof {
            lemma_names_differ();
        }
        if is_asked(message, "init") {
            match &message.msg_data {
                LetterData::Text(file_text) => LetterReply::Text(self.init(file_text)),
                _ => LetterReply::Flag(false),
            }
        } else {
            LetterReply::Words(self.words())
        }
    }
}

/// Holds the stop words.
pub struct StopWordManager {
    stop_words: StopWords,
}

impl StopWordManager {
    pub closed spec fn stop_words(&self) -> Seq<Seq<char>> {
        self.stop_words@
    }

    /// A manager with no stop words yet.
    pub fn new() -> (m: Self)
        ensures
            m.stop_words() == Seq::<Seq<char>>::empty(),
    {
        StopWordManager { stop_words: StopWords::new() }
    }

    /// Takes the stop words of a stop-word file's text.
    pub fn init(&mut self, stop_text: &String) -> (r: bool)
        ensures
            final(self).stop_words() == stop_word_pieces(stop_text@),
            r,
    {
        self.stop_words = StopWords::from_text(stop_text.as_str());
        true
    }

    /// Whether `word` is a stop word.
    pub fn is_stop_word(&mut self, word: &String) -> (b: bool)
        ensures
            final(self).stop_words() == old(self).stop_words(),
            b == old(self).stop_words().contains(word@),
    {
        self.stop_words.contains(word)
    }

    /// The messages the manager answers: `init` and `is_stop_word`, each with a text.
    pub open spec fn accepts(m: &MessageLB) -> bool {
        text_of(m) is Some && (asks(m, "init"@) || asks(m, "is_stop_word"@))
    }

    /// Answers `init` (taking the stop words) and `is_stop_word`.
    pub fn dispatch(&mut self, message: &MessageLB) -> (r: LetterReply)
        requires
            Self::accepts(message),
        ensures
            asks(message, "init"@) ==> final(self).stop_words() == stop_word_pieces(text_of(message)->0)
                && r == LetterReply::Flag(true),
            !asks(message, "init"@) ==> final(self).stop_words() == old(self).stop_words() && r
                == LetterReply::Flag(old(self).stop_words().contains(text_of(message)->0)),
    {
        proof {
            lemma_names_differ();
        }
        match &message.msg_data {
            LetterData::Text(msg_data) => {
                if is_asked(message, "init") {
                    LetterReply::Flag(self.init(msg_data))
                } else {
                    LetterReply::Flag(self.is_stop_word(msg_data))
                }
            },
            _ => LetterReply::Flag(false),
        }
    }
}

/// Counts words.
pub struct WordFrequencyManager {
    word_freqs: FreqTable,
}

impl WordFrequencyManager {
    pub closed spec fn table(&self) -> Table {
        self.word_freqs@
    }

    /// A manager with no counts.
    pub fn new() -> (m: Self)
        ensures
            m.table() == Seq::<(Seq<char>, int)>::empty(),
    {
        WordFrequencyManager { word_freqs: FreqTable::new() }
    }

    /// Counts `word` once more.
    pub fn increment_count(&mut self, word: &String)
        requires
            count_of(old(self).table(), word@) < i32::MAX,
        ensures
            final(self).table() == add_count(old(self).table(), word@, 1),
    {
        self.word_freqs.increment(word);
    }

    /// The entries counted more than four times, by descending count.
    pub fn sorted(&mut self) -> (r: Vec<(String, i32)>)
        ensures
            final(self).table() == old(self).table(),
            pairs_view(r@) == sort_entries(above(old(self).table(), 4), false),
    {
        let all = self.word_freqs.entries();
        let ves = pairs_above(&all, 4);
        crate::order::sort_pairs(&ves, false)
    }

    /// The messages the manager answers: `increment_count` with a text, and `sorted`.
    pub open spec fn accepts(m: &MessageLB) -> bool {
        (asks(m, "increment_count"@) && text_of(m) is Some) || asks(m, "sorted"@)
    }

    /// Answers `increment_count` (counting the word) and `sorted`.
    pub fn dispatch(&mut self, message: &MessageLB) -> (r: LetterReply)
        requires
            Self::accepts(message),
            asks(message, "increment_count"@) ==> count_of(old(self).table(), text_of(message)->0) < i32::MAX,
        ensures
            asks(message, "increment_count"@) ==> final(self).table() == add_count(
                old(self).table(),
                text_of(message)->0,
                1,
            ) && r == LetterReply::Flag(true),
            !asks(message, "increment_count"@) ==> final(self).table() == old(self).table() && (r
                matches LetterReply::Pairs(v) && pairs_view(v@) == sort_entries(above(old(self).table(), 4), false)),
    {
        proof {
            lemma_names_differ();
        }
        if is_asked(message, "increment_count") {
            match &message.msg_data {
                LetterData::Text(msg_data) => {
                    self.increment_count(msg_data);
                    LetterReply::Flag(true)
                },
                _ => LetterReply::Flag(false),
            }
        } else {
            LetterReply::Pairs(self.sorted())
        }
    }
}

/// Runs the managers by sending them messages.
pub struct WordFrequencyController {
    storage_manager: DataStorageManager,
    stop_word_manager: StopWordManager,
    word_freq_manager: WordFrequencyManager,
}

impl WordFrequencyController {
    pub closed spec fn data(&self) -> Seq<char> {
        self.storage_manager.data()
    }

    pub closed spec fn stop_words(&self) -> Seq<Seq<char>> {
        self.stop_word_manager.stop_words()
    }

    pub closed spec fn table(&self) -> Table {
        self.word_freq_manager.table()
    }

    /// A controller whose managers hold nothing yet.
    pub fn new() -> (c: Self)
        ensures
            c.data() == Seq::<char>::empty(),
            c.stop_words() == Seq::<Seq<char>>::empty(),
            c.table() == Seq::<(Seq<char>, int)>::empty(),
    {
        WordFrequencyController {
            stop_word_manager: StopWordManager::new(),
            storage_manager: DataStorageManager::new(),
            word_freq_manager: WordFrequencyManager::new(),
        }
    }

    /// Sends `init` to the storage manager with the input text and to the stop-word manager
    /// with the stop-word file's text.
    pub fn init(&mut self, text: &String, stop_text: &String)
        ensures
            final(self).data() == normalized(text@),
            final(self).stop_words() == stop_word_pieces(stop_text@),
            final(self).table() == old(self).table(),
    {
        let msg_sm = MessageLB::new(&String::from_str("init"), LetterData::Text(text.clone()));
        proof {
            lemma_names_differ();
        }
        let _ = self.storage_manager.dispatch(&msg_sm);
        let msg_sw = MessageLB::new(&String::from_str("init"), LetterData::Text(stop_text.clone()));
        let _ = self.stop_word_manager.dispatch(&msg_sw);
    }

    /// Asks for the words, counts each that is no stop word, and gives a `"{} - {}\n"` line
    /// for each word counted more than four times, by descending count.
    pub fn run(&mut self) -> (r: String)
        requires
            room_for(old(self).table(), select(runs(old(self).data(), Separator::Whitespace), old(self).stop_words(), stop_only_filter())),
        ensures
            final(self).data() == old(self).data(),
            final(self).stop_words() == old(self).stop_words(),
            final(self).table() == count_into(
                old(self).table(),
                select(runs(old(self).data(), Separator::Whitespace), old(self).stop_words(), stop_only_filter()),
            ),
            r@ == report(sort_entries(above(final(self).table(), 4), false), 4, LineStyle::Dash),
    {
        proof {
            lemma_names_differ();
        }
        let msg_words = MessageLB::new(&String::from_str("words"), LetterData::Flag(false));
        let box_vs = self.storage_manager.dispatch(&msg_words);
        let words = match box_vs {
            LetterReply::Words(ws) => ws,
            _ => Vec::new(),
        };
        let ghost ws = words.deep_view();
        let ghost stop = self.stop_words();
        let ghost t0 = self.table();
        assert(t0 == old(self).table());
        assert(ws.len() == runs(old(self).data(), Separator::Whitespace).len());
        let mut i: usize = 0;
        while i < words.len()
            invariant
                i <= words.len(),
                ws == words.deep_view(),
                ws == runs(self.data(), Separator::Whitespace),
                self.data() == old(self).data(),
                stop == self.stop_words(),
                t0 == old(self).table(),
                room_for(t0, select(ws, stop, stop_only_filter())),
                self.table() == count_into(t0, select(ws.take(i as int), stop, stop_only_filter())),
            decreases words.len() - i,
        {
            let w = &words[i];
            proof {
                lemma_names_differ();
                lemma_select_step(ws, stop, stop_only_filter(), i as int);
                lemma_select_len(ws.take(i as int), stop, stop_only_filter());
                if passes(ws[i as int], stop, stop_only_filter()) {
                    lemma_room_before(t0, ws, i as int, stop, stop_only_filter());
                }
                let sel = select(ws.take(i as int), stop, stop_only_filter());
                assert(sel.push(w@).drop_last() =~= sel);
                assert(ws[i as int] == w@);
            }
            let msg_stop_w = MessageLB::new(&String::from_str("is_stop_word"), LetterData::Text(w.clone()));
            let is_stop = match self.stop_word_manager.dispatch(&msg_stop_w) {
                LetterReply::Flag(b) => b,
                _ => true,
            };
            if !is_stop {
                let msg_freq_manager = MessageLB::new(
                    &String::from_str("increment_count"),
                    LetterData::Text(w.clone()),
                );
                let _ = self.word_freq_manager.dispatch(&msg_freq_manager);
            }
            i = i + 1;
        }
        assert(ws.take(i as int) =~= ws);
        let msg_sorted = MessageLB::new(&String::from_str("sorted"), LetterData::Flag(true));
        let sorted = match self.word_freq_manager.dispatch(&msg_sorted) {
            LetterReply::Pairs(v) => v,
            _ => Vec::new(),
        };
        report_string(&sorted, 4, LineStyle::Dash)
    }

    /// Runs the controller when no count can overflow: `None`, with nothing changed, when a
    /// word the run would count would reach `i32::MAX`; else what `run` gives.
    pub fn run_checked(&mut self) -> (r: Option<String>)
        ensures
            r is None <==> !room_for(
                old(self).table(),
                select(runs(old(self).data(), Separator::Whitespace), old(self).stop_words(), stop_only_filter()),
            ),
            final(self).data() == old(self).data(),
            final(self).stop_words() == old(self).stop_words(),
            r is None ==> final(self).table() == old(self).table(),
            r matches Some(s) ==> final(self).table() == count_into(
                old(self).table(),
                select(runs(old(self).data(), Separator::Whitespace), old(self).stop_words(), stop_only_filter()),
            ) && s@ == report(sort_entries(above(final(self).table(), 4), false), 4, LineStyle::Dash),
    {
        let ws = self.storage_manager.words();
        let sel = select_words(&ws, &self.stop_word_manager.stop_words, WordFilter { drop_stop_words: true, min_bytes: 0 });
        if room_for_words(&self.word_freq_manager.word_freqs, &sel) {
            Some(self.run())
        } else {
            None
        }
    }

    /// The messages the controller answers: `init` with two or more texts (the input text,
    /// then the stop-word file's text), and `run`.
    pub open spec fn accepts(m: &MessageLB) -> bool {
        (asks(m, "init"@) && (m.msg_data matches LetterData::Texts(v) && v.len() >= 2)) || asks(m, "run"@)
    }

    /// Answers `init` and `run` (with the report).
    pub fn dispatch(&mut self, message: &MessageLB) -> (r: LetterReply)
        requires
            Self::accepts(message),
            asks(message, "run"@) ==> room_for(
                old(self).table(),
                select(runs(old(self).data(), Separator::Whitespace), old(self).stop_words(), stop_only_filter()),
            ),
        ensures
            asks(message, "init"@) ==> (message.msg_data matches LetterData::Texts(v) && final(self).data()
                == normalized(v@[0]@) && final(self).stop_words() == stop_word_pieces(v@[1]@)
                && final(self).table() == old(self).table()) && r == LetterReply::Flag(true),
            !asks(message, "init"@) ==> final(self).table() == count_into(
                old(self).table(),
                select(runs(old(self).data(), Separator::Whitespace), old(self).stop_words(), stop_only_filter()),
            ) && (r matches LetterReply::Text(s) && s@ == report(
                sort_entries(above(final(self).table(), 4), false),
                4,
                LineStyle::Dash,
            )),
    {
        proof {
            lemma_names_differ();
        }
        if is_asked(message, "init") {
            match &message.msg_data {
                LetterData::Texts(v) => {
                    self.init(&v[0], &v[1]);
                    LetterReply::Flag(true)
                },
                _ => LetterReply::Flag(false),
            }
        } else {
            LetterReply::Text(self.run())
        }
    }
}

} // verus!
