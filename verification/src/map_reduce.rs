//! Map-reduce: each kept word becomes a one-word table, and the tables are merged pairwise.
use vstd::prelude::*;
use crate::freq::{FreqTable, Table, count_of, countable, occurrences, merge_tables, merge_all, singletons, tally,
    lemma_merge_all_singletons, lemma_occurrences_bound};
use crate::order::{sort_entries, sort_pairs};
use crate::report::{LineStyle, report, report_string};
use crate::tf::{above, pairs_above};
use crate::words::{StopWords, WordFilter, byte_len, select, select_words, stop_word_pieces, text_words, words_of_text};

verus! {

/// The filter of the map-reduce styles: stop words and words of fewer than three bytes go.
pub open spec fn map_reduce_filter() -> WordFilter {
    WordFilter { drop_stop_words: true, min_bytes: 3 }
}

/// The words that the map-reduce styles count in a text.
pub open spec fn map_reduce_words(text: Seq<char>, stop_text: Seq<char>) -> Seq<Seq<char>> {
    select(text_words(text), stop_word_pieces(stop_text), map_reduce_filter())
}

/// The tables of a list of frequency tables.
pub open spec fn tables_view(v: Seq<FreqTable>) -> Seq<Table> {
    v.map_values(|t: FreqTable| t@)
}

/// The report of the map-reduce styles: a `"{} - {}\n"` line for each word counted more than
/// four times, by descending count.
pub open spec fn frequent_lines(t: Table) -> Seq<char> {
    report(sort_entries(above(t, 4), false), 4, LineStyle::Dash)
}

/// The map-reduce report holds a line for every entry counted more than four times, each once,
/// by descending count: it is the report of the whole table sorted by count, with the entries
/// counted four times or fewer left out.
pub proof fn lemma_frequent_lines_all(t: Table)
    ensures
        frequent_lines(t) == report(sort_entries(t, false), 4, LineStyle::Dash),
{
    crate::tf::lemma_filter_then_sort(t, 4, false, LineStyle::Dash);
}

/// A word that passes the map-reduce filter is counted as often as it occurs among the text's
/// words; a stop word, or a word of fewer than three bytes, is not counted.
pub proof fn lemma_map_reduce_counts(text: Seq<char>, stop_text: Seq<char>, w: Seq<char>)
    ensures
        count_of(tally(map_reduce_words(text, stop_text)), w) == if stop_word_pieces(stop_text).contains(w)
            || byte_len(w) < 3 {
            0
        } else {
            occurrences(text_words(text), w)
        },
{
    crate::freq::lemma_tally(map_reduce_words(text, stop_text));
    crate::tf::lemma_select_occurrences_exact(text_words(text), stop_word_pieces(stop_text), map_reduce_filter(), w);
}

/// The merge of two tables: each word's count is the sum of its counts in `a` and `b`.
pub fn merge_freq(a: &FreqTable, b: &FreqTable) -> (t: FreqTable)
    requires
        forall|w: Seq<char>| i32::MIN <= #[trigger] count_of(a@, w) + count_of(b@, w) <= i32::MAX,
    ensures
        t@ == merge_tables(a@, b@),
{
    a.merged(b)
}

/// The table that counts `w` once.
pub fn single_word(w: &String) -> (t: FreqTable)
    ensures
        t@ == seq![(w@, 1int)],
{
    let mut t = FreqTable::new();
    t.increment(w);
    assert(t@ =~= seq![(w@, 1int)]);
    t
}

/// The map step: a one-word table for each word that passes the filter, in order.
pub fn map_words(words: &Vec<String>, stop: &StopWords, f: WordFilter) -> (r: Vec<FreqTable>)
    ensures
        tables_view(r@) == singletons(select(words.deep_view(), stop@, f)),
{
    let kept = select_words(words, stop, f);
    let mut r: Vec<FreqTable> = Vec::new();
    let mut i: usize = 0;
    while i < kept.len()
        invariant
            i <= kept.len(),
            kept.deep_view() == select(words.deep_view(), stop@, f),
            tables_view(r@) == singletons(kept.deep_view().take(i as int)),
        decreases kept.len() - i,
    {
        let t = single_word(&kept[i]);
        let ghost before = r@;
        r.push(t);
        assert(tables_view(r@) =~= tables_view(before).push(seq![(kept[i as int]@, 1int)]));
        assert(singletons(kept.deep_view().take(i + 1)) =~= singletons(kept.deep_view().take(i as int)).push(
            seq![(kept[i as int]@, 1int)],
        ));
        i = i + 1;
    }
    assert(kept.deep_view().take(i as int) =~= kept.deep_view());
    r
}

/// The reduce step, from left to right: `None` for no tables, else their merge.
pub fn reduce_freqs(ts: &Vec<FreqTable>) -> (r: Option<FreqTable>)
    requires
        forall|k: int, w: Seq<char>|
            0 <= k < ts.len() ==> i32::MIN <= #[trigger] count_of(merge_all(tables_view(ts@).take(k)), w)
                + count_of(ts@[k]@, w) <= i32::MAX,
    ensures
        r is None <==> ts.len() == 0,
        r matches Some(t) ==> t@ == merge_all(tables_view(ts@)),
{
    if ts.len() == 0 {
        return None;
    }
    let mut acc = FreqTable::new();
    let mut i: usize = 0;
    while i < ts.len()
        invariant
            i <= ts.len(),
            forall|k: int, w: Seq<char>|
                0 <= k < ts.len() ==> i32::MIN <= #[trigger] count_of(merge_all(tables_view(ts@).take(k)), w)
                    + count_of(ts@[k]@, w) <= i32::MAX,
            acc@ == merge_all(tables_view(ts@).take(i as int)),
        decreases ts.len() - i,
    {
        assert(tables_view(ts@).take(i + 1).drop_last() =~= tables_view(ts@).take(i as int));
        assert(forall|w: Seq<char>| i32::MIN <= #[trigger] count_of(acc@, w) + count_of(ts@[i as int]@, w) <= i32::MAX) by {
            assert forall|w: Seq<char>| i32::MIN <= #[trigger] count_of(acc@, w) + count_of(ts@[i as int]@, w) <= i32::MAX by {
                assert(i32::MIN <= count_of(merge_all(tables_view(ts@).take(i as int)), w) + count_of(ts@[i as int]@, w) <= i32::MAX);
            }
        }
        acc = merge_freq(&acc, &ts[i]);
        i = i + 1;
    }
    assert(tables_view(ts@).take(i as int) =~= tables_view(ts@));
    Some(acc)
}

/// Merging the one-word tables of a countable list from left to right never overflows.
pub proof fn lemma_singletons_fit(ws: Seq<Seq<char>>)
    requires
        countable(ws),
    ensures
        forall|k: int, w: Seq<char>|
            0 <= k < ws.len() ==> i32::MIN <= #[trigger] count_of(merge_all(singletons(ws).take(k)), w)
                + count_of(singletons(ws)[k], w) <= i32::MAX,
{
    assert forall|k: int, w: Seq<char>|
        0 <= k < ws.len() implies i32::MIN <= #[trigger] count_of(merge_all(singletons(ws).take(k)), w)
            + count_of(singletons(ws)[k], w) <= i32::MAX by {
        assert(singletons(ws).take(k) =~= singletons(ws.take(k)));
        lemma_merge_all_singletons(ws.take(k));
        crate::freq::lemma_tally(ws.take(k));
        lemma_occurrences_bound(ws.take(k), w);
        crate::freq::lemma_occurrences_prefix(ws, k + 1, w);
        assert(ws.take(k + 1).drop_last() =~= ws.take(k));
        assert(ws.take(k + 1).last() == ws[k]);
        assert(occurrences(ws, w) < i32::MAX);
        let one = singletons(ws)[k];
        assert(one == seq![(ws[k], 1int)]);
        assert(one.drop_last() =~= Seq::<(Seq<char>, int)>::empty());
        assert(one.last() == (ws[k], 1int));
        assert(count_of(one.drop_last(), w) == 0);
        assert(0 <= count_of(one, w) <= 1);
    }
}

/// The report of the entries counted more than four times, by descending count.
pub fn frequent_report(t: &FreqTable) -> (s: String)
    ensures
        s@ == frequent_lines(t@),
{
    let all = t.entries();
    let frequent = pairs_above(&all, 4);
    let ordered = sort_pairs(&frequent, false);
    report_string(&ordered, 4, LineStyle::Dash)
}

/// Map-reduce on a text: the words without stop words and without words of fewer than three
/// bytes, mapped to one-word tables, merged, and reported.
pub fn map_reduce_test(text: &str, stop_text: &str) -> (s: String)
    requires
        countable(map_reduce_words(text@, stop_text@)),
    ensures
        s@ == frequent_lines(tally(map_reduce_words(text@, stop_text@))),
{
    let stop = StopWords::from_text(stop_text);
    let words = words_of_text(text);
    let ghost kept = select(words.deep_view(), stop@, map_reduce_filter());
    let tables = map_words(&words, &stop, WordFilter { drop_stop_words: true, min_bytes: 3 });
    proof {
        lemma_singletons_fit(kept);
        lemma_merge_all_singletons(kept);
        assert(tables_view(tables@).len() == tables@.len());
        assert forall|k: int| 0 <= k < tables@.len() implies #[trigger] tables@[k]@ == singletons(kept)[k] by {
            assert(tables_view(tables@)[k] == tables@[k]@);
        }
    }
    match reduce_freqs(&tables) {
        Some(t) => frequent_report(&t),
        None => {
            assert(tally(kept) =~= Seq::<(Seq<char>, int)>::empty());
            assert(above(Seq::<(Seq<char>, int)>::empty(), 4) =~= Seq::<(Seq<char>, int)>::empty());
            String::new()
        },
    }
}

/// Map-reduce when no count can overflow: `None` when a word it counts occurs `i32::MAX`
/// times or more, else what `map_reduce_test` gives.
pub fn map_reduce_checked(text: &str, stop_text: &str) -> (r: Option<String>)
    ensures
        r is None <==> !countable(map_reduce_words(text@, stop_text@)),
        r matches Some(s) ==> s@ == frequent_lines(tally(map_reduce_words(text@, stop_text@))),
{
    let stop = StopWords::from_text(stop_text);
    let kept = select_words(&words_of_text(text), &stop, WordFilter { drop_stop_words: true, min_bytes: 3 });
    if crate::freq::countable_words(&kept) {
        Some(map_reduce_test(text, stop_text))
    } else {
        None
    }
}

} // verus!
