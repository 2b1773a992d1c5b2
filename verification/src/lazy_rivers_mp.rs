//! Lazy rivers over channels: each stage of the pipeline takes one item at a time. These are
//! the stages' decisions; a stage's thread and channels stay outside.
use vstd::prelude::*;
use crate::freq::{FreqTable, add_count, count_of, countable, pairs_view, tally};
use crate::order::{sort_entries, sort_pairs};
use crate::report::{LineStyle, line, push_line, report, report_string};
use crate::text::{Separator, chars_of, closed_runs, lowercase, push_char, runs, to_lowercase};
use crate::tf::{above, pairs_above, stop_only_filter, lemma_room_in_kept};
use crate::words::{StopWords, lower_each, passes, select, stop_word_pieces};

verus! {

/// The words of the channel pipeline: each run of alphabetic characters that a
/// non-alphabetic character closes, lower-cased.
pub open spec fn stream_words_of(text: Seq<char>) -> Seq<Seq<char>> {
    lower_each(closed_runs(text, Separator::NonAlphabetic))
}

/// The words that reach the counter: all but the stop words.
pub open spec fn counted_words(text: Seq<char>, stop_text: Seq<char>) -> Seq<Seq<char>> {
    select(stream_words_of(text), stop_word_pieces(stop_text), stop_only_filter())
}

/// What the pipeline prints: a `"{} - {}\n"` line for each word counted more than four
/// times, by descending count and, for equal counts, by descending word.
pub open spec fn stream_lines(text: Seq<char>, stop_text: Seq<char>) -> Seq<char> {
    report(above(sort_entries(tally(counted_words(text, stop_text)), true), 4), 4, LineStyle::Dash)
}

/// The counter counts each lower-cased word of the stream as often as it occurs there, and never
/// a stop word.
pub proof fn lemma_stream_counts(text: Seq<char>, stop_text: Seq<char>, w: Seq<char>)
    ensures
        crate::freq::count_of(crate::freq::tally(counted_words(text, stop_text)), w) == if crate::words::stop_word_pieces(stop_text).contains(w) {
            0
        } else {
            crate::freq::occurrences(stream_words_of(text), w)
        },
{
    crate::freq::lemma_tally(counted_words(text, stop_text));
    crate::tf::lemma_select_occurrences_exact(stream_words_of(text), crate::words::stop_word_pieces(stop_text), crate::tf::stop_only_filter(), w);
}

/// The pipeline prints a line for every counted word whose count is above four, each once, by
/// descending count and then by descending word: the report of all the counts in that order.
pub proof fn lemma_stream_lines_all(text: Seq<char>, stop_text: Seq<char>)
    ensures
        stream_lines(text, stop_text) == report(sort_entries(tally(counted_words(text, stop_text)), true), 4, LineStyle::Dash),
{
    crate::tf::lemma_report_above(sort_entries(tally(counted_words(text, stop_text)), true), 4, LineStyle::Dash);
}

/// The words stage on one character: an alphabetic character extends the current word; any
/// other character ends the current word, which is sent on lower-cased when it is not empty.
pub fn word_step(word: &mut String, c: char) -> (sent: Option<String>)
    ensures
        !Separator::NonAlphabetic.spec_is_sep(c) ==> final(word)@ == old(word)@.push(c) && sent is None,
        Separator::NonAlphabetic.spec_is_sep(c) ==> final(word)@.len() == 0,
        Separator::NonAlphabetic.spec_is_sep(c) && old(word)@.len() > 0 ==> (sent matches Some(w) && w@
            == lowercase(old(word)@)),
        Separator::NonAlphabetic.spec_is_sep(c) && old(word)@.len() == 0 ==> sent is None,
{
    if !Separator::NonAlphabetic.is_sep(c) {
        push_char(word, c);
        None
    } else if word.as_str().is_empty() {
        None
    } else {
        let w = to_lowercase(word.as_str());
        *word = String::new();
        Some(w)
    }
}

/// The words stage over a whole text: the words that `word_step` sends, in order.
pub fn stream_words(text: &str) -> (r: Vec<String>)
    ensures
        r.deep_view() == stream_words_of(text@),
{
    let cs = chars_of(text);
    words_of_chars(&cs)
}

/// The words that `word_step` sends for the characters `cs`, in order: each run of
/// alphabetic characters that a non-alphabetic character closes, lower-cased.
pub fn words_of_chars(cs: &Vec<char>) -> (r: Vec<String>)
    ensures
        r.deep_view() == stream_words_of(cs@),
{
    let mut word = String::new();
    let mut r: Vec<String> = Vec::new();
    let ghost mut closed: Seq<Seq<char>> = Seq::empty();
    let mut i: usize = 0;
    while i < cs.len()
        invariant
            i <= cs.len(),
            word@.len() > 0 <==> (i > 0 && !Separator::NonAlphabetic.spec_is_sep(cs@[i - 1])),
            runs(cs@.take(i as int), Separator::NonAlphabetic) == if word@.len() > 0 {
                closed.push(word@)
            } else {
                closed
            },
            r.deep_view() == lower_each(closed),
        decreases cs.len() - i,
    {
        let c = cs[i];
        let ghost old_word = word@;
        let ghost old_r = r.deep_view();
        proof {
            let t = cs@.take(i + 1);
            assert(t.drop_last() =~= cs@.take(i as int));
            assert(t.last() == c);
            if i > 0 {
                assert(t[t.len() - 2] == cs@[i - 1]);
            }
        }
        let sent = word_step(&mut word, c);
        match sent {
            Some(w) => {
                r.push(w);
                proof {
                    closed = closed.push(old_word);
                    assert(r.deep_view() =~= old_r.push(lowercase(old_word)));
                    assert(lower_each(closed) =~= lower_each(closed.drop_last()).push(lowercase(old_word)));
                    assert(closed.drop_last() =~= closed.drop_last());
                }
            },
            None => {
                proof {
                    if !Separator::NonAlphabetic.spec_is_sep(c) && old_word.len() == 0 {
                        assert(word@ =~= seq![c]);
                    }
                    if !Separator::NonAlphabetic.spec_is_sep(c) && old_word.len() > 0 {
                        assert(closed.push(old_word).drop_last() =~= closed);
                    }
                }
            },
        }
        i = i + 1;
    }
    assert(cs@.take(i as int) =~= cs@);
    proof {
        if word@.len() > 0 {
            assert(closed.push(word@).drop_last() =~= closed);
        }
    }
    r
}

/// The filter stage on one word: it goes on unless it is a stop word.
pub fn filter_step(stop: &StopWords, word: &String) -> (pass: bool)
    ensures
        pass == passes(word@, stop@, stop_only_filter()),
{
    !stop.contains(word)
}

/// The counting stage on one word: its count goes up by one; `false`, with the table
/// unchanged, when the count is already `i32::MAX`.
pub fn count_step(freqs: &mut FreqTable, word: &String) -> (counted: bool)
    ensures
        counted <==> count_of(old(freqs)@, word@) < i32::MAX,
        counted ==> final(freqs)@ == add_count(old(freqs)@, word@, 1),
        !counted ==> final(freqs)@ == old(freqs)@,
{
    if freqs.count(word) < i32::MAX {
        freqs.increment(word);
        true
    } else {
        false
    }
}

/// The sort stage: the pairs counted more than `top` times, by descending count and, for
/// equal counts, by descending word.
pub fn sort_words(pairs: &Vec<(String, i32)>, top: i32) -> (r: Vec<(String, i32)>)
    ensures
        pairs_view(r@) == above(sort_entries(pairs_view(pairs@), true), top as int),
{
    let sorted = sort_pairs(pairs, true);
    pairs_above(&sorted, top)
}

/// The string accumulator stage on one pair: its `"{} - {}\n"` line is appended.
pub fn append_pair(acc: &mut String, pair: &(String, i32))
    ensures
        final(acc)@ == old(acc)@ + line(LineStyle::Dash, pair.0@, pair.1 as int),
{
    push_line(acc, LineStyle::Dash, &pair.0, pair.1 as i64);
}

/// The pipeline run through, one stage after the other: the words of the text, without stop
/// words, counted, sorted, and written out.
pub fn lazy_rivers_mp_test(text: &str, stop_text: &str) -> (s: String)
    requires
        countable(counted_words(text@, stop_text@)),
    ensures
        s@ == stream_lines(text@, stop_text@),
{
    let stop = StopWords::from_text(stop_text);
    let words = stream_words(text);
    let mut freqs = FreqTable::new();
    let ghost mut kept: Seq<Seq<char>> = Seq::empty();
    let mut i: usize = 0;
    while i < words.len()
        invariant
            i <= words.len(),
            countable(select(words.deep_view(), stop@, stop_only_filter())),
            kept == select(words.deep_view().take(i as int), stop@, stop_only_filter()),
            freqs@ == tally(kept),
        decreases words.len() - i,
    {
        proof {
            crate::tf::lemma_select_step(words.deep_view(), stop@, stop_only_filter(), i as int);
            if passes(words[i as int]@, stop@, stop_only_filter()) {
                lemma_room_in_kept(words.deep_view(), i as int, stop@, stop_only_filter());
            }
        }
        if filter_step(&stop, &words[i]) {
            freqs.increment(&words[i]);
            proof {
                assert(kept.push(words[i as int]@).drop_last() =~= kept);
                kept = kept.push(words[i as int]@);
            }
        }
        i = i + 1;
    }
    assert(words.deep_view().take(i as int) =~= words.deep_view());
    let pairs = freqs.entries();
    let sorted = sort_words(&pairs, 4);
    report_string(&sorted, 4, LineStyle::Dash)
}

/// The pipeline when no count can overflow: `None` when a word that reaches the counter
/// occurs `i32::MAX` times or more, else what `lazy_rivers_mp_test` gives.
pub fn lazy_rivers_mp_checked(text: &str, stop_text: &str) -> (r: Option<String>)
    ensures
        r is None <==> !countable(counted_words(text@, stop_text@)),
        r matches Some(s) ==> s@ == stream_lines(text@, stop_text@),
{
    let stop = StopWords::from_text(stop_text);
    let kept = crate::words::select_words(&stream_words(text), &stop, crate::words::WordFilter { drop_stop_words: true, min_bytes: 0 });
    if crate::freq::countable_words(&kept) {
        Some(lazy_rivers_mp_test(text, stop_text))
    } else {
        None
    }
}

} // verus!
