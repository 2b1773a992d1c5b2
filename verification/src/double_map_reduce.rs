//! Double map-reduce: each chunk of lines is counted by map-reduce, then the chunk tables are
//! merged again.
use vstd::prelude::*;
use crate::freq::{FreqTable, Table, count_of, countable, merge_all, same_counts, tally, lemma_merge_all_singletons, lemma_merge_count, lemma_occurrences_append, lemma_tally};
use crate::map_reduce::{map_reduce_filter, map_words, reduce_freqs, tables_view, lemma_singletons_fit};
use crate::words::{StopWords, WordFilter, select, select_words, text_words, words_of_text};

verus! {

/// The words of a chunk that the map-reduce styles count.
pub open spec fn chunk_words(chunk: Seq<char>, stop: Seq<Seq<char>>) -> Seq<Seq<char>> {
    select(text_words(chunk), stop, map_reduce_filter())
}

/// A chunk's count: each word of the lower-cased chunk with three bytes or more is counted as
/// often as it occurs there; a stop word, or a shorter word, is not counted.
pub proof fn lemma_chunk_counts(chunk: Seq<char>, stop: Seq<Seq<char>>, w: Seq<char>)
    ensures
        count_of(tally(chunk_words(chunk, stop)), w) == if stop.contains(w) || crate::words::byte_len(w) < 3 {
            0
        } else {
            crate::freq::occurrences(text_words(chunk), w)
        },
{
    lemma_tally(chunk_words(chunk, stop));
    crate::tf::lemma_select_occurrences_exact(text_words(chunk), stop, map_reduce_filter(), w);
}

/// The table of one chunk of text: `None` when no word of the chunk is kept, else the count
/// of each kept word, obtained by merging the one-word tables from left to right.
pub fn chunk_frequencies(chunk: &str, stop: &StopWords) -> (r: Option<FreqTable>)
    requires
        countable(chunk_words(chunk@, stop@)),
    ensures
        r is None <==> chunk_words(chunk@, stop@).len() == 0,
        r matches Some(t) ==> t@ == tally(chunk_words(chunk@, stop@)),
{
    let words = words_of_text(chunk);
    let ghost kept = select(words.deep_view(), stop@, map_reduce_filter());
    let tables = map_words(&words, stop, WordFilter { drop_stop_words: true, min_bytes: 3 });
    proof {
        lemma_singletons_fit(kept);
        lemma_merge_all_singletons(kept);
        assert(tables_view(tables@).len() == tables@.len());
        assert forall|k: int| 0 <= k < tables@.len() implies #[trigger] tables@[k]@ == crate::freq::singletons(kept)[k] by {
            assert(tables_view(tables@)[k] == tables@[k]@);
        }
    }
    reduce_freqs(&tables)
}

/// The table of one chunk when no count can overflow: `None` when a word of the chunk that is
/// counted occurs `i32::MAX` times or more, else `Some` of what `chunk_frequencies` gives.
pub fn chunk_frequencies_checked(chunk: &str, stop: &StopWords) -> (r: Option<Option<FreqTable>>)
    ensures
        r is None <==> !countable(chunk_words(chunk@, stop@)),
        r matches Some(c) ==> (c is None <==> chunk_words(chunk@, stop@).len() == 0),
        r matches Some(c) ==> (c matches Some(t) ==> t@ == tally(chunk_words(chunk@, stop@))),
{
    let kept = select_words(&words_of_text(chunk), stop, WordFilter { drop_stop_words: true, min_bytes: 3 });
    if crate::freq::countable_words(&kept) {
        Some(chunk_frequencies(chunk, stop))
    } else {
        None
    }
}

/// The words that the map-reduce styles count in each chunk, chunk after chunk.
pub open spec fn words_of_chunks(chunks: Seq<Seq<char>>, stop: Seq<Seq<char>>) -> Seq<Seq<char>>
    decreases chunks.len(),
{
    if chunks.len() == 0 {
        Seq::empty()
    } else {
        words_of_chunks(chunks.drop_last(), stop) + chunk_words(chunks.last(), stop)
    }
}

/// The table of each chunk, in the order of the chunks.
pub open spec fn chunk_tables(chunks: Seq<Seq<char>>, stop: Seq<Seq<char>>) -> Seq<Table> {
    chunks.map_values(|c: Seq<char>| tally(chunk_words(c, stop)))
}

/// Merging the tables of the chunks gives every word the count that counting the words of
/// all the chunks together gives: no chunk is lost or counted twice. A word's count is the
/// sum of its counts in the chunks, so the order in which the chunk tables come does not
/// change it.
pub proof fn lemma_chunks_merge(chunks: Seq<Seq<char>>, stop: Seq<Seq<char>>)
    ensures
        same_counts(merge_all(chunk_tables(chunks, stop)), tally(words_of_chunks(chunks, stop))),
    decreases chunks.len(),
{
    let all = words_of_chunks(chunks, stop);
    lemma_tally(all);
    if chunks.len() == 0 {
        assert forall|w: Seq<char>| #[trigger] count_of(merge_all(chunk_tables(chunks, stop)), w) == count_of(tally(all), w) by {
            assert(chunk_tables(chunks, stop) =~= Seq::<Table>::empty());
        }
    } else {
        let p = chunks.drop_last();
        let last = chunk_words(chunks.last(), stop);
        lemma_chunks_merge(p, stop);
        lemma_tally(words_of_chunks(p, stop));
        lemma_tally(last);
        assert(chunk_tables(chunks, stop).drop_last() =~= chunk_tables(p, stop));
        assert(chunk_tables(chunks, stop).last() == tally(last));
        assert forall|w: Seq<char>| #[trigger] count_of(merge_all(chunk_tables(chunks, stop)), w) == count_of(tally(all), w) by {
            lemma_merge_count(merge_all(chunk_tables(p, stop)), tally(last), w);
            lemma_occurrences_append(words_of_chunks(p, stop), last, w);
        }
    }
}

} // verus!
