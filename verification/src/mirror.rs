//! Infinite mirror: the words are counted by a function that calls itself on the rest of
//! the list.
use vstd::prelude::*;
use std::collections::VecDeque;
use crate::freq::{FreqTable, add_count, count_into, count_of, occurrences, room_for, lemma_count_into, lemma_occurrences_append, lemma_occurrences_bound};
use crate::normalize::{replace_non_word, replace_non_word_runs};
use crate::order::sort_entries;
use crate::report::{LineStyle, report, report_string};
use crate::text::{Separator, lowercase, pieces, split_pieces, to_lowercase};
use crate::tf::{sorted_pairs, lemma_select_append, lemma_count_into_append};
use crate::words::{StopWords, has_min_bytes, select, usual_filter};

verus! {

/// The values of a list of strings.
pub open spec fn strings_view(s: Seq<String>) -> Seq<Seq<char>> {
    s.map_values(|x: String| x@)
}

/// The words of a file's text: runs of non-word characters replaced by a space, lower-cased,
/// then the pieces between characters that are not alphanumeric, empty pieces included.
pub open spec fn file_words_of(text: Seq<char>) -> Seq<Seq<char>> {
    pieces(lowercase(replace_non_word_runs(text)), Separator::NonAlphanumeric)
}

/// The words of a file's text, in a queue.
pub fn read_file(text: &String) -> (q: VecDeque<String>)
    ensures
        strings_view(q@) == file_words_of(text@),
{
    let replaced = replace_non_word(text.as_str());
    let lower = to_lowercase(replaced.as_str());
    let words = split_pieces(lower.as_str(), Separator::NonAlphanumeric);
    let mut q: VecDeque<String> = VecDeque::new();
    let mut i: usize = 0;
    while i < words.len()
        invariant
            i <= words.len(),
            strings_view(q@) == words.deep_view().take(i as int),
        decreases words.len() - i,
    {
        let ghost before = q@;
        q.push_back(words[i].clone());
        assert(strings_view(q@) =~= strings_view(before).push(words[i as int]@));
        assert(words.deep_view().take(i + 1) =~= words.deep_view().take(i as int).push(words[i as int]@));
        i = i + 1;
    }
    assert(words.deep_view().take(i as int) =~= words.deep_view());
    q
}

/// Takes the first word off the list, counts it when it is no stop word and has two bytes or
/// more, and counts the rest the same way; the list ends empty.
pub fn count(stop_words: &StopWords, word_list: &mut VecDeque<String>, word_freqs: &mut FreqTable)
    requires
        room_for(old(word_freqs)@, select(strings_view(old(word_list)@), stop_words@, usual_filter())),
    ensures
        final(word_list)@.len() == 0,
        final(word_freqs)@ == count_into(old(word_freqs)@, select(strings_view(old(word_list)@), stop_words@, usual_filter())),
    decreases old(word_list)@.len(),
{
    if word_list.len() == 0 {
        assert(strings_view(old(word_list)@) =~= Seq::<Seq<char>>::empty());
        return;
    }
    let ghost l = strings_view(word_list@);
    let ghost t = word_freqs@;
    let word = match word_list.pop_front() {
        Some(w) => w,
        None => {
            return;
        },
    };
    let ghost rest = strings_view(word_list@);
    let ghost first = select(seq![word@], stop_words@, usual_filter());
    let ghost kept_rest = select(rest, stop_words@, usual_filter());
    proof {
        assert(l =~= seq![word@] + rest);
        lemma_select_append(seq![word@], rest, stop_words@, usual_filter());
        assert(seq![word@].drop_last() =~= Seq::<Seq<char>>::empty());
        assert(seq![word@].last() == word@);
        assert(select(Seq::<Seq<char>>::empty(), stop_words@, usual_filter()) == Seq::<Seq<char>>::empty());
        assert(select(l, stop_words@, usual_filter()) == first + kept_rest);
    }
    if !stop_words.contains(&word) && has_min_bytes(&word, 2) {
        proof {
            assert(Seq::<Seq<char>>::empty().push(word@) =~= seq![word@]);
            assert(first =~= seq![word@]);
            assert(first.drop_last() =~= Seq::<Seq<char>>::empty());
            assert(first.last() == word@);
            assert(occurrences(Seq::<Seq<char>>::empty(), word@) == 0);
            assert(occurrences(first, word@) == 1);
            lemma_occurrences_append(first, kept_rest, word@);
            lemma_occurrences_bound(kept_rest, word@);
            assert(occurrences(select(l, stop_words@, usual_filter()), word@) > 0);
        }
        word_freqs.increment(&word);
        proof {
            assert(count_into(t, seq![word@]) == add_count(count_into(t, Seq::<Seq<char>>::empty()), word@, 1));
        }
    } else {
        proof {
            assert(first =~= Seq::<Seq<char>>::empty());
        }
    }
    proof {
        assert(count_into(t, first) == word_freqs@);
        lemma_count_into(t, first);
        assert forall|w: Seq<char>| #[trigger] occurrences(kept_rest, w) > 0 implies count_of(word_freqs@, w)
            + occurrences(kept_rest, w) < i32::MAX by {
            lemma_occurrences_append(first, kept_rest, w);
            lemma_occurrences_bound(first, w);
            assert(occurrences(select(l, stop_words@, usual_filter()), w) > 0);
        }
        lemma_count_into_append(t, first, kept_rest);
    }
    count(stop_words, word_list, word_freqs);
}

/// A `"{}   -  {}\n"` line for each word counted more than four times, by descending count.
pub fn print_freqs(word_freqs: &FreqTable) -> (s: String)
    ensures
        s@ == report(sort_entries(word_freqs@, false), 4, LineStyle::Spaced),
{
    let vp = sorted_pairs(word_freqs, false);
    report_string(&vp, 4, LineStyle::Spaced)
}

} // verus!
