//! Stop words, the words of a text, and the filtering of word lists.
use vstd::prelude::*;
use crate::text::{Separator, pieces, runs, lowercase, split_pieces, split_runs, to_lowercase};
use crate::normalize::{replace_non_word_runs, replace_non_word};

verus! {

/// The stop words parsed from the text of a stop-word file: the pieces between commas.
pub open spec fn stop_word_pieces(text: Seq<char>) -> Seq<Seq<char>> {
    pieces(text, Separator::Char(','))
}

/// The pieces between commas that a buffered reader split on `b','` yields: as
/// `stop_word_pieces`, but without the final piece when it is empty.
pub open spec fn buffered_pieces(text: Seq<char>) -> Seq<Seq<char>> {
    let p = pieces(text, Separator::Char(','));
    if p.len() > 0 && p.last().len() == 0 {
        p.drop_last()
    } else {
        p
    }
}

/// A list of stop words.
pub struct StopWords {
    words: Vec<String>,
}

impl View for StopWords {
    type V = Seq<Seq<char>>;

    closed spec fn view(&self) -> Seq<Seq<char>> {
        self.words.deep_view()
    }
}

impl StopWords {
    /// No stop words.
    pub fn new() -> (s: StopWords)
        ensures
            s@ == Seq::<Seq<char>>::empty(),
    {
        let s = StopWords { words: Vec::new() };
        assert(s@ =~= Seq::<Seq<char>>::empty());
        s
    }

    /// The stop words of a stop-word file's text: its pieces between commas.
    pub fn from_text(text: &str) -> (s: StopWords)
        ensures
            s@ == stop_word_pieces(text@),
    {
        StopWords { words: split_pieces(text, Separator::Char(',')) }
    }

    /// The stop words that a buffered reader split on commas gives.
    pub fn from_buffered_text(text: &str) -> (s: StopWords)
        ensures
            s@ == buffered_pieces(text@),
    {
        let mut words = split_pieces(text, Separator::Char(','));
        let n = words.len();
        if n > 0 && words[n - 1].as_str().is_empty() {
            let ghost before = words.deep_view();
            words.pop();
            assert(words.deep_view() =~= before.drop_last());
        }
        StopWords { words }
    }

    /// Whether `w` is a stop word.
    pub fn contains(&self, w: &String) -> (b: bool)
        ensures
            b == self@.contains(w@),
    {
        let mut i: usize = 0;
        while i < self.words.len()
            invariant
                i <= self.words.len(),
                forall|j: int| 0 <= j < i ==> self@[j] != w@,
            decreases self.words.len() - i,
        {
            if self.words[i] == *w {
                assert(self@[i as int] == w@);
                return true;
            }
            i = i + 1;
        }
        false
    }
}

/// The number of bytes of the UTF-8 encoding of a character.
pub open spec fn char_width(c: char) -> nat {
    let u = c as u32;
    if u <= 0x7F {
        1
    } else if u <= 0x7FF {
        2
    } else if u <= 0xFFFF {
        3
    } else {
        4
    }
}

/// The length of a word in bytes of UTF-8, as `str::len` gives it.
pub open spec fn byte_len(w: Seq<char>) -> nat
    decreases w.len(),
{
    if w.len() == 0 {
        0
    } else {
        byte_len(w.drop_last()) + char_width(w.last())
    }
}

/// Whether the UTF-8 encoding of `w` has at least `k` bytes.
pub fn has_min_bytes(w: &String, k: usize) -> (b: bool)
    ensures
        b == (byte_len(w@) >= k),
{
    let cs = crate::text::chars_of(w.as_str());
    let mut acc: u128 = 0;
    let mut i: usize = 0;
    while i < cs.len()
        invariant
            i <= cs.len(),
            cs@ == w@,
            acc == byte_len(w@.take(i as int)),
            acc < k + 4,
        decreases cs.len() - i,
    {
        if acc >= k as u128 {
            proof {
                lemma_byte_len_prefix(w@, i as int);
            }
            return true;
        }
        let u = cs[i] as u32;
        let width: u128 = if u <= 0x7F {
            1
        } else if u <= 0x7FF {
            2
        } else if u <= 0xFFFF {
            3
        } else {
            4
        };
        assert(w@.take(i + 1).drop_last() =~= w@.take(i as int));
        acc = acc + width;
        i = i + 1;
    }
    assert(w@.take(i as int) =~= w@);
    acc >= k as u128
}

/// A prefix of a word has no more bytes than the word.
pub proof fn lemma_byte_len_prefix(s: Seq<char>, i: int)
    requires
        0 <= i <= s.len(),
    ensures
        byte_len(s.take(i)) <= byte_len(s),
    decreases s.len(),
{
    if i < s.len() {
        assert(s.take(i) =~= s.drop_last().take(i));
        lemma_byte_len_prefix(s.drop_last(), i);
    } else {
        assert(s.take(i) =~= s);
    }
}

/// How a style filters words: whether stop words are dropped, and the fewest bytes a word
/// must have to stay.
#[derive(Clone, Copy)]
pub struct WordFilter {
    pub drop_stop_words: bool,
    pub min_bytes: usize,
}

/// Whether word `w` passes the filter.
pub open spec fn passes(w: Seq<char>, stop: Seq<Seq<char>>, f: WordFilter) -> bool {
    (!f.drop_stop_words || !stop.contains(w)) && byte_len(w) >= f.min_bytes
}

/// The words of `ws` that pass the filter, in order.
pub open spec fn select(ws: Seq<Seq<char>>, stop: Seq<Seq<char>>, f: WordFilter) -> Seq<Seq<char>>
    decreases ws.len(),
{
    if ws.len() == 0 {
        ws
    } else if passes(ws.last(), stop, f) {
        select(ws.drop_last(), stop, f).push(ws.last())
    } else {
        select(ws.drop_last(), stop, f)
    }
}

/// The filter of most styles: stop words and one-byte words are dropped.
pub open spec fn usual_filter() -> WordFilter {
    WordFilter { drop_stop_words: true, min_bytes: 2 }
}

/// Whether word `w` passes the filter.
pub fn word_passes(w: &String, stop: &StopWords, f: WordFilter) -> (b: bool)
    ensures
        b == passes(w@, stop@, f),
{
    if !has_min_bytes(w, f.min_bytes) {
        false
    } else if f.drop_stop_words {
        !stop.contains(w)
    } else {
        true
    }
}

/// The words that pass the filter, in order.
pub fn select_words(ws: &Vec<String>, stop: &StopWords, f: WordFilter) -> (r: Vec<String>)
    ensures
        r.deep_view() == select(ws.deep_view(), stop@, f),
{
    let mut r: Vec<String> = Vec::new();
    let mut i: usize = 0;
    while i < ws.len()
        invariant
            i <= ws.len(),
            r.deep_view() == select(ws.deep_view().take(i as int), stop@, f),
        decreases ws.len() - i,
    {
        let ghost t = ws.deep_view().take(i + 1);
        assert(t.drop_last() =~= ws.deep_view().take(i as int));
        assert(t.last() == ws[i as int]@);
        if word_passes(&ws[i], stop, f) {
            let ghost before = r.deep_view();
            r.push(ws[i].clone());
            assert(r.deep_view() =~= before.push(ws[i as int]@));
        }
        i = i + 1;
    }
    assert(ws.deep_view().take(i as int) =~= ws.deep_view());
    r
}

/// Each word of a list lower-cased.
pub open spec fn lower_each(ws: Seq<Seq<char>>) -> Seq<Seq<char>> {
    ws.map_values(|w: Seq<char>| lowercase(w))
}

/// Each word lower-cased, in order.
pub fn lowercase_each(ws: &Vec<String>) -> (r: Vec<String>)
    ensures
        r.deep_view() == lower_each(ws.deep_view()),
{
    let mut r: Vec<String> = Vec::new();
    let mut i: usize = 0;
    while i < ws.len()
        invariant
            i <= ws.len(),
            r.deep_view() == lower_each(ws.deep_view().take(i as int)),
        decreases ws.len() - i,
    {
        let ghost before = r.deep_view();
        let lw = to_lowercase(ws[i].as_str());
        r.push(lw);
        assert(r.deep_view() =~= before.push(lowercase(ws[i as int]@)));
        assert(lower_each(ws.deep_view().take(i + 1)) =~= lower_each(ws.deep_view().take(i as int)).push(lowercase(ws[i as int]@)));
        i = i + 1;
    }
    assert(ws.deep_view().take(i as int) =~= ws.deep_view());
    r
}

/// The text as most styles normalize it: lower-cased, then every run of non-word characters
/// replaced by one space.
pub open spec fn normalized(text: Seq<char>) -> Seq<char> {
    replace_non_word_runs(lowercase(text))
}

/// The words of a text as most styles find them: the white-space separated runs of the
/// normalized text.
pub open spec fn text_words(text: Seq<char>) -> Seq<Seq<char>> {
    runs(normalized(text), Separator::Whitespace)
}

/// The normalized text: lower-cased, runs of non-word characters replaced by a space.
pub fn normalize_text(text: &str) -> (r: String)
    ensures
        r@ == normalized(text@),
{
    let lower = to_lowercase(text);
    replace_non_word(lower.as_str())
}

/// The words of a text: the normalized text split at white space.
pub fn words_of_text(text: &str) -> (r: Vec<String>)
    ensures
        r.deep_view() == text_words(text@),
{
    let norm = normalize_text(text);
    split_runs(norm.as_str(), Separator::Whitespace)
}

} // verus!
