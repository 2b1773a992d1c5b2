//! Actors: each part of the program runs on its own and only reacts to the messages it
//! receives. Here each actor is the step it takes on one message: its new state, whether it
//! keeps running, and the messages it sends on, in order. The threads and channels that carry
//! the messages are the application's.
use vstd::prelude::*;
use vstd::string::StringExecFns;
use crate::freq::{FreqTable, Table, add_count, count_of, pairs_view};
use crate::order::{sort_entries, sort_pairs};
use crate::report::{line, push_line, LineStyle};
use crate::text::{Separator, pieces, split_pieces};
use crate::tf::{above, pairs_above};
use crate::words::{StopWords, byte_len, has_min_bytes, normalize_text, normalized, stop_word_pieces};

verus! {

/// What a message carries.
pub enum MessageData {
    TextData(String),
    WordData(String),
    FreqData((String, i32)),
    Eof,
    Empty,
    Kill,
}

/// What a message carries, as values.
pub enum DataView {
    Text(Seq<char>),
    Word(Seq<char>),
    Freq(Seq<char>, int),
    Eof,
    Empty,
    Kill,
}

impl View for MessageData {
    type V = DataView;

    open spec fn view(&self) -> DataView {
        match self {
            MessageData::TextData(s) => DataView::Text(s@),
            MessageData::WordData(s) => DataView::Word(s@),
            MessageData::FreqData(p) => DataView::Freq(p.0@, p.1 as int),
            MessageData::Eof => DataView::Eof,
            MessageData::Empty => DataView::Empty,
            MessageData::Kill => DataView::Kill,
        }
    }
}

/// A message: the name of what it asks, and what it carries.
pub struct MessageAct {
    pub message: String,
    pub msg_data: MessageData,
}

impl View for MessageAct {
    type V = (Seq<char>, DataView);

    open spec fn view(&self) -> (Seq<char>, DataView) {
        (self.message@, self.msg_data@)
    }
}

/// A list of messages, as values.
pub open spec fn msgs_view(v: Seq<MessageAct>) -> Seq<(Seq<char>, DataView)> {
    v.map_values(|m: MessageAct| m@)
}

/// The message asks `name`.
pub open spec fn asks(m: &MessageAct, name: Seq<char>) -> bool {
    m.message@ == name
}

/// Whether the message asks `name`.
fn is_asked(m: &MessageAct, name: &str) -> (b: bool)
    ensures
        b == asks(m, name@),
{
    m.message == String::from_str(name)
}

/// A message named `name` carrying `data`.
fn message(name: &str, data: MessageData) -> (m: MessageAct)
    ensures
        m@ == (name@, data@),
{
    MessageAct { message: String::from_str(name), msg_data: data }
}

/// One `name` message carrying each word, in order.
pub open spec fn word_msgs(name: Seq<char>, ws: Seq<Seq<char>>) -> Seq<(Seq<char>, DataView)> {
    ws.map_values(|w: Seq<char>| (name, DataView::Word(w)))
}

/// One `name` message carrying each entry, in order.
pub open spec fn freq_msgs(name: Seq<char>, t: Table) -> Seq<(Seq<char>, DataView)> {
    t.map_values(|e: (Seq<char>, int)| (name, DataView::Freq(e.0, e.1)))
}

/// Appends a message to a list.
fn send(out: &mut Vec<MessageAct>, m: MessageAct)
    ensures
        msgs_view(final(out)@) == msgs_view(old(out)@).push(m@),
{
    out.push(m);
    assert(msgs_view(out@) =~= msgs_view(old(out)@).push(m@));
}

/// Appends one `name` message per entry, in order.
fn send_pairs(out: &mut Vec<MessageAct>, name: &str, pairs: &Vec<(String, i32)>)
    ensures
        msgs_view(final(out)@) == msgs_view(old(out)@) + freq_msgs(name@, pairs_view(pairs@)),
{
    let mut i: usize = 0;
    while i < pairs.len()
        invariant
            i <= pairs.len(),
            msgs_view(out@) == msgs_view(old(out)@) + freq_msgs(name@, pairs_view(pairs@).take(i as int)),
        decreases pairs.len() - i,
    {
        let p = (pairs[i].0.clone(), pairs[i].1);
        send(out, message(name, MessageData::FreqData(p)));
        assert(freq_msgs(name@, pairs_view(pairs@).take(i + 1)) =~= freq_msgs(
            name@,
            pairs_view(pairs@).take(i as int),
        ).push((name@, DataView::Freq(pairs@[i as int].0@, pairs@[i as int].1 as int))));
        i = i + 1;
    }
    assert(pairs_view(pairs@).take(i as int) =~= pairs_view(pairs@));
}

///////////////////////////////////////////////////////////////////////////////////////////

/// Holds the normalized text and sends its words on to the stop-word filter.
pub struct DataStorageManager {
    data: String,
}

impl DataStorageManager {
    pub closed spec fn data(&self) -> Seq<char> {
        self.data@
    }

    /// A manager holding no text yet.
    pub fn new() -> (m: Self)
        ensures
            m.data() == Seq::<char>::empty(),
    {
        DataStorageManager { data: String::new() }
    }

    /// Takes the input text, lower-cased and with runs of non-word characters replaced by a
    /// space.
    pub fn init(&mut self, text: &String)
        ensures
            final(self).data() == normalized(text@),
    {
        self.data = normalize_text(text.as_str());
    }

    /// One `filter` message for each piece of the text between single spaces (empty pieces
    /// included), then an end-of-file `filter` message.
    pub fn send_words(&self) -> (out: Vec<MessageAct>)
        ensures
            msgs_view(out@) == word_msgs("filter"@, pieces(self.data(), Separator::Char(' '))).push(
                ("filter"@, DataView::Eof),
            ),
    {
        let words = split_pieces(self.data.as_str(), Separator::Char(' '));
        let mut out: Vec<MessageAct> = Vec::new();
        let mut i: usize = 0;
        while i < words.len()
            invariant
                i <= words.len(),
                msgs_view(out@) == word_msgs("filter"@, words.deep_view().take(i as int)),
            decreases words.len() - i,
        {
            send(&mut out, message("filter", MessageData::WordData(words[i].clone())));
            assert(word_msgs("filter"@, words.deep_view().take(i + 1)) =~= word_msgs(
                "filter"@,
                words.deep_view().take(i as int),
            ).push(("filter"@, DataView::Word(words[i as int]@))));
            i = i + 1;
        }
        assert(words.deep_view().take(i as int) =~= words.deep_view());
        send(&mut out, message("filter", MessageData::Eof));
        out
    }

    /// The messages the manager takes without failing: an `init` must carry a text.
    pub open spec fn accepts(m: &MessageAct) -> bool {
        asks(m, "kill"@) || !asks(m, "init"@) || m.msg_data is TextData
    }

    /// Reacts to one message: `kill` stops the manager; `init` takes the text; `send_words`
    /// sends the words on; any other message is ignored.
    pub fn dispatch(&mut self, msg: &MessageAct) -> (r: (bool, Vec<MessageAct>))
        requires
            Self::accepts(msg),
        ensures
            if asks(msg, "kill"@) {
                !r.0 && r.1@.len() == 0 && final(self).data() == old(self).data()
            } else if asks(msg, "init"@) {
                r.0 && r.1@.len() == 0 && (msg.msg_data@ matches DataView::Text(t) && final(self).data()
                    == normalized(t))
            } else if asks(msg, "send_words"@) {
                r.0 && final(self).data() == old(self).data() && msgs_view(r.1@) == word_msgs(
                    "filter"@,
                    pieces(old(self).data(), Separator::Char(' ')),
                ).push(("filter"@, DataView::Eof))
            } else {
                r.0 && r.1@.len() == 0 && final(self).data() == old(self).data()
            },
    {
        if is_asked(msg, "kill") {
            (false, Vec::new())
        } else if is_asked(msg, "init") {
            match &msg.msg_data {
                MessageData::TextData(file_text) => {
                    self.init(file_text);
                },
                _ => {},
            }
            (true, Vec::new())
        } else if is_asked(msg, "send_words") {
            (true, self.send_words())
        } else {
            (true, Vec::new())
        }
    }
}

///////////////////////////////////////////////////////////////////////////////////////////

/// Drops stop words and one-byte words, and sends the others on to the counter.
pub struct StopWordsManager {
    stop_words: StopWords,
}

impl StopWordsManager {
    pub closed spec fn stop_words(&self) -> Seq<Seq<char>> {
        self.stop_words@
    }

    /// A manager with no stop words yet.
    pub fn new() -> (m: Self)
        ensures
            m.stop_words() == Seq::<Seq<char>>::empty(),
    {
        StopWordsManager { stop_words: StopWords::new() }
    }

    /// Takes the stop words of a stop-word file's text.
    pub fn init(&mut self, stop_text: &String)
        ensures
            final(self).stop_words() == stop_word_pieces(stop_text@),
    {
        self.stop_words = StopWords::from_text(stop_text.as_str());
    }

    /// A `word` message for `word` when it is no stop word and has two bytes or more.
    pub fn filter(&self, word: &String) -> (out: Vec<MessageAct>)
        ensures
            msgs_view(out@) == if !self.stop_words().contains(word@) && byte_len(word@) >= 2 {
                seq![("word"@, DataView::Word(word@))]
            } else {
                Seq::empty()
            },
    {
        let mut out: Vec<MessageAct> = Vec::new();
        if !self.stop_words.contains(word) && has_min_bytes(word, 2) {
            send(&mut out, message("word", MessageData::WordData(word.clone())));
        }
        assert(msgs_view(out@) =~= (if !self.stop_words().contains(word@) && byte_len(word@) >= 2 {
            seq![("word"@, DataView::Word(word@))]
        } else {
            Seq::empty()
        }));
        out
    }

    /// The messages the manager takes without failing: an `init` must carry a text and a
    /// `filter` a word or the end of file.
    pub open spec fn accepts(m: &MessageAct) -> bool {
        asks(m, "kill"@) || (if asks(m, "init"@) {
            m.msg_data is TextData
        } else if asks(m, "filter"@) {
            m.msg_data is WordData || m.msg_data is Eof
        } else {
            true
        })
    }

    /// Reacts to one message: `kill` stops; `init` takes the stop words; `filter` passes a
    /// word on (or the end of file); any other message is ignored.
    pub fn dispatch(&mut self, msg: &MessageAct) -> (r: (bool, Vec<MessageAct>))
        requires
            Self::accepts(msg),
        ensures
            if asks(msg, "kill"@) {
                !r.0 && r.1@.len() == 0 && final(self).stop_words() == old(self).stop_words()
            } else if asks(msg, "init"@) {
                r.0 && r.1@.len() == 0 && (msg.msg_data@ matches DataView::Text(t)
                    && final(self).stop_words() == stop_word_pieces(t))
            } else if asks(msg, "filter"@) {
                r.0 && final(self).stop_words() == old(self).stop_words() && match msg.msg_data@ {
                    DataView::Word(w) => msgs_view(r.1@) == if !old(self).stop_words().contains(w)
                        && byte_len(w) >= 2 {
                        seq![("word"@, DataView::Word(w))]
                    } else {
                        Seq::empty()
                    },
                    _ => msgs_view(r.1@) == seq![("word"@, DataView::Eof)],
                }
            } else {
                r.0 && r.1@.len() == 0 && final(self).stop_words() == old(self).stop_words()
            },
    {
        if is_asked(msg, "kill") {
            (false, Vec::new())
        } else if is_asked(msg, "init") {
            match &msg.msg_data {
                MessageData::TextData(file_text) => {
                    self.init(file_text);
                },
                _ => {},
            }
            (true, Vec::new())
        } else if is_asked(msg, "filter") {
            match &msg.msg_data {
                MessageData::WordData(word) => (true, self.filter(word)),
                _ => {
                    let mut out: Vec<MessageAct> = Vec::new();
                    send(&mut out, message("word", MessageData::Eof));
                    assert(msgs_view(out@) =~= seq![("word"@, DataView::Eof)]);
                    (true, out)
                },
            }
        } else {
            (true, Vec::new())
        }
    }
}

///////////////////////////////////////////////////////////////////////////////////////////

/// Counts the words it receives and, at the end of file, sends the counts on.
pub struct FrequenciesManager {
    frequencies: FreqTable,
}

impl FrequenciesManager {
    pub closed spec fn table(&self) -> Table {
        self.frequencies@
    }

    /// A manager with no counts.
    pub fn new() -> (m: Self)
        ensures
            m.table() == Seq::<(Seq<char>, int)>::empty(),
    {
        FrequenciesManager { frequencies: FreqTable::new() }
    }

    /// Counts `word` once more.
    pub fn update_freq(&mut self, word: &String)
        requires
            count_of(old(self).table(), word@) < i32::MAX,
        ensures
            final(self).table() == add_count(old(self).table(), word@, 1),
    {
        self.frequencies.increment(word);
    }

    /// One `freq` message per entry, in the table's order, then an end-of-file `freq` message.
    pub fn send_frequencies(&self) -> (out: Vec<MessageAct>)
        ensures
            msgs_view(out@) == freq_msgs("freq"@, self.table()).push(("freq"@, DataView::Eof)),
    {
        let pairs = self.frequencies.entries();
        let mut out: Vec<MessageAct> = Vec::new();
        send_pairs(&mut out, "freq", &pairs);
        send(&mut out, message("freq", MessageData::Eof));
        assert(msgs_view(Seq::<MessageAct>::empty()) + freq_msgs("freq"@, self.table()) =~= freq_msgs(
            "freq"@,
            self.table(),
        ));
        out
    }

    /// The messages the manager takes without failing: a `word` must carry a word or the end
    /// of file.
    pub open spec fn accepts(m: &MessageAct) -> bool {
        asks(m, "kill"@) || !asks(m, "word"@) || m.msg_data is WordData || m.msg_data is Eof
    }

    /// Reacts to one message: `kill` stops; `word` counts the word, or at the end of file
    /// sends the counts on; any other message is ignored.
    pub fn dispatch(&mut self, msg: &MessageAct) -> (r: (bool, Vec<MessageAct>))
        requires
            Self::accepts(msg),
            msg.msg_data@ matches DataView::Word(w) ==> count_of(old(self).table(), w) < i32::MAX,
        ensures
            if asks(msg, "kill"@) {
                !r.0 && r.1@.len() == 0 && final(self).table() == old(self).table()
            } else if asks(msg, "word"@) {
                r.0 && match msg.msg_data@ {
                    DataView::Word(w) => r.1@.len() == 0 && final(self).table() == add_count(
                        old(self).table(),
                        w,
                        1,
                    ),
                    _ => final(self).table() == old(self).table() && msgs_view(r.1@) == freq_msgs(
                        "freq"@,
                        old(self).table(),
                    ).push(("freq"@, DataView::Eof)),
                }
            } else {
                r.0 && r.1@.len() == 0 && final(self).table() == old(self).table()
            },
    {
        if is_asked(msg, "kill") {
            (false, Vec::new())
        } else if is_asked(msg, "word") {
            match &msg.msg_data {
                MessageData::WordData(word) => {
                    self.update_freq(word);
                    (true, Vec::new())
                },
                _ => (true, self.send_frequencies()),
            }
        } else {
            (true, Vec::new())
        }
    }
}

///////////////////////////////////////////////////////////////////////////////////////////

/// The list with `p` added when it is not there yet: a set of pairs in insertion order.
pub open spec fn insert_new(s: Table, p: (Seq<char>, int)) -> Table {
    if s.contains(p) {
        s
    } else {
        s.push(p)
    }
}

/// Collects the counts it receives and, at the end of file, sends on those above the limit,
/// by descending count and, for equal counts, by descending word.
pub struct SortFrequencies {
    frequencies: Vec<(String, i32)>,
    min_freq: i32,
}

impl SortFrequencies {
    /// The pairs received, each once.
    pub closed spec fn pairs(&self) -> Table {
        pairs_view(self.frequencies@)
    }

    /// The count a pair must exceed to be sent on.
    pub closed spec fn min_freq(&self) -> i32 {
        self.min_freq
    }

    /// A sorter with no pairs, whose limit is `min_freq`, or 4 when none is given.
    pub fn new(min_freq: &Option<i32>) -> (s: Self)
        ensures
            s.pairs() == Seq::<(Seq<char>, int)>::empty(),
            s.min_freq() == match min_freq {
                Some(m) => *m,
                None => 4,
            },
    {
        let m = match min_freq {
            Some(m) => *m,
            None => 4,
        };
        let s = SortFrequencies { frequencies: Vec::new(), min_freq: m };
        assert(s.pairs() =~= Seq::<(Seq<char>, int)>::empty());
        s
    }

    /// Adds a pair, unless it is already there.
    pub fn insert_pair(&mut self, pair: &(String, i32))
        ensures
            final(self).pairs() == insert_new(old(self).pairs(), (pair.0@, pair.1 as int)),
            final(self).min_freq() == old(self).min_freq(),
    {
        let ghost pv = (pair.0@, pair.1 as int);
        let mut i: usize = 0;
        while i < self.frequencies.len()
            invariant
                i <= self.frequencies.len(),
                pv == (pair.0@, pair.1 as int),
                forall|j: int| 0 <= j < i ==> self.pairs()[j] != pv,
            decreases self.frequencies.len() - i,
        {
            assert(self.pairs()[i as int] == (self.frequencies@[i as int].0@, self.frequencies@[i as int].1 as int));
            let same_count = self.frequencies[i].1 == pair.1;
            let same_word = self.frequencies[i].0 == pair.0;
            if same_count && same_word {
                assert(self.pairs()[i as int] == pv);
                return;
            }
            i = i + 1;
        }
        let ghost before = self.pairs();
        self.frequencies.push((pair.0.clone(), pair.1));
        assert(self.pairs() =~= before.push(pv));
    }

    /// One `sorted` message per pair above the limit, by descending count and word, then an
    /// end-of-file `sorted` message.
    pub fn send_sorted_freqs(&self) -> (out: Vec<MessageAct>)
        ensures
            msgs_view(out@) == freq_msgs(
                "sorted"@,
                above(sort_entries(self.pairs(), true), self.min_freq() as int),
            ).push(("sorted"@, DataView::Eof)),
    {
        let sorted = sort_pairs(&self.frequencies, true);
        let kept = pairs_above(&sorted, self.min_freq);
        let mut out: Vec<MessageAct> = Vec::new();
        send_pairs(&mut out, "sorted", &kept);
        send(&mut out, message("sorted", MessageData::Eof));
        assert(msgs_view(Seq::<MessageAct>::empty()) + freq_msgs("sorted"@, pairs_view(kept@)) =~= freq_msgs(
            "sorted"@,
            pairs_view(kept@),
        ));
        out
    }

    /// The messages the sorter takes without failing: a `freq` must carry a pair or the end
    /// of file.
    pub open spec fn accepts(m: &MessageAct) -> bool {
        asks(m, "kill"@) || !asks(m, "freq"@) || m.msg_data is FreqData || m.msg_data is Eof
    }

    /// Reacts to one message: `kill` stops; `freq` adds the pair, or at the end of file sends
    /// the sorted pairs on; any other message is ignored.
    pub fn dispatch(&mut self, msg: &MessageAct) -> (r: (bool, Vec<MessageAct>))
        requires
            Self::accepts(msg),
        ensures
            final(self).min_freq() == old(self).min_freq(),
            if asks(msg, "kill"@) {
                !r.0 && r.1@.len() == 0 && final(self).pairs() == old(self).pairs()
            } else if asks(msg, "freq"@) {
                r.0 && match msg.msg_data@ {
                    DataView::Freq(w, c) => r.1@.len() == 0 && final(self).pairs() == insert_new(
                        old(self).pairs(),
                        (w, c),
                    ),
                    _ => final(self).pairs() == old(self).pairs() && msgs_view(r.1@) == freq_msgs(
                        "sorted"@,
                        above(sort_entries(old(self).pairs(), true), old(self).min_freq() as int),
                    ).push(("sorted"@, DataView::Eof)),
                }
            } else {
                r.0 && r.1@.len() == 0 && final(self).pairs() == old(self).pairs()
            },
    {
        if is_asked(msg, "kill") {
            (false, Vec::new())
        } else if is_asked(msg, "freq") {
            match &msg.msg_data {
                MessageData::FreqData(freq_pair) => {
                    self.insert_pair(freq_pair);
                    (true, Vec::new())
                },
                _ => (true, self.send_sorted_freqs()),
            }
        } else {
            (true, Vec::new())
        }
    }
}

///////////////////////////////////////////////////////////////////////////////////////////

/// Writes the pairs it receives as report lines and, at the end of file, sends the text on.
pub struct StringAccumulator {
    accum: String,
}

impl StringAccumulator {
    pub closed spec fn accum(&self) -> Seq<char> {
        self.accum@
    }

    /// An accumulator with no text.
    pub fn new() -> (s: Self)
        ensures
            s.accum() == Seq::<char>::empty(),
    {
        StringAccumulator { accum: String::new() }
    }

    /// Appends the `"{} - {}\n"` line of a pair.
    pub fn append_pair(&mut self, pair: &(String, i32))
        ensures
            final(self).accum() == old(self).accum() + line(LineStyle::Dash, pair.0@, pair.1 as int),
    {
        push_line(&mut self.accum, LineStyle::Dash, &pair.0, pair.1 as i64);
    }

    /// The messages the accumulator takes without failing: a `sorted` must carry a pair or the
    /// end of file.
    pub open spec fn accepts(m: &MessageAct) -> bool {
        asks(m, "kill"@) || !asks(m, "sorted"@) || m.msg_data is FreqData || m.msg_data is Eof
    }

    /// Reacts to one message: `kill` stops; `sorted` appends the pair's line, or at the end of
    /// file sends the text and an end of file on and starts a new text; any other message is
    /// ignored.
    pub fn dispatch(&mut self, msg: &MessageAct) -> (r: (bool, Vec<MessageAct>))
        requires
            Self::accepts(msg),
        ensures
            if asks(msg, "kill"@) {
                !r.0 && r.1@.len() == 0 && final(self).accum() == old(self).accum()
            } else if asks(msg, "sorted"@) {
                r.0 && match msg.msg_data@ {
                    DataView::Freq(w, c) => r.1@.len() == 0 && final(self).accum() == old(self).accum()
                        + line(LineStyle::Dash, w, c),
                    _ => final(self).accum() == Seq::<char>::empty() && msgs_view(r.1@) == seq![
                        ("text"@, DataView::Text(old(self).accum())),
                        ("text"@, DataView::Eof),
                    ],
                }
            } else {
                r.0 && r.1@.len() == 0 && final(self).accum() == old(self).accum()
            },
    {
        if is_asked(msg, "kill") {
            (false, Vec::new())
        } else if is_asked(msg, "sorted") {
            match &msg.msg_data {
                MessageData::FreqData(freq_pair) => {
                    self.append_pair(freq_pair);
                    (true, Vec::new())
                },
                _ => {
                    let mut out: Vec<MessageAct> = Vec::new();
                    send(&mut out, message("text", MessageData::TextData(self.accum.clone())));
                    self.accum = String::new();
                    send(&mut out, message("text", MessageData::Eof));
                    assert(msgs_view(out@) =~= seq![
                        ("text"@, DataView::Text(old(self).accum())),
                        ("text"@, DataView::Eof),
                    ]);
                    (true, out)
                },
            }
        } else {
            (true, Vec::new())
        }
    }
}

} // verus!
