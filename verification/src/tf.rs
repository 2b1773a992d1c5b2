//! What the styles share: sorted frequency lists and the usual report.
use vstd::prelude::*;
use crate::freq::{FreqTable, Table, pairs_view, tally, count_of, count_into, countable, occurrences, room_for, has_key, keys_distinct, counts_positive, same_counts, lemma_count_into};
use crate::order::{sort_entries, sort_pairs, insert_sorted, goes_before};
use crate::report::{report, LineStyle};
use crate::words::{select, text_words, stop_word_pieces, usual_filter, passes, WordFilter};

verus! {

/// The usual report of a table: a `"{} - {}\n"` line for each word counted more than four
/// times, by descending count.
pub open spec fn usual_report(t: Table) -> Seq<char> {
    report(sort_entries(t, false), 4, LineStyle::Dash)
}

/// The usual count: each word of the lower-cased text with two bytes or more is counted as
/// often as it occurs there; a stop word, or a word of one byte, is not counted.
pub proof fn lemma_usual_counts(text: Seq<char>, stop_text: Seq<char>, w: Seq<char>)
    ensures
        count_of(tally(usual_words(text, stop_text)), w) == if stop_word_pieces(stop_text).contains(w)
            || crate::words::byte_len(w) < 2 {
            0
        } else {
            occurrences(text_words(text), w)
        },
{
    crate::freq::lemma_tally(usual_words(text, stop_text));
    lemma_select_occurrences_exact(text_words(text), stop_word_pieces(stop_text), usual_filter(), w);
}

/// The words of a text that most styles count: the text's words without stop words and
/// without one-byte words.
pub open spec fn usual_words(text: Seq<char>, stop_text: Seq<char>) -> Seq<Seq<char>> {
    select(text_words(text), stop_word_pieces(stop_text), usual_filter())
}

/// What most styles print for a text and a stop-word file.
pub open spec fn usual_output(text: Seq<char>, stop_text: Seq<char>) -> Seq<char> {
    usual_report(tally(usual_words(text, stop_text)))
}

/// The entries of a table whose count is above `n`, in order.
pub open spec fn above(t: Table, n: int) -> Table
    decreases t.len(),
{
    if t.len() == 0 {
        t
    } else if t.last().1 > n {
        above(t.drop_last(), n).push(t.last())
    } else {
        above(t.drop_last(), n)
    }
}

/// The pairs whose count is above `n`, in order.
pub fn pairs_above(v: &Vec<(String, i32)>, n: i32) -> (r: Vec<(String, i32)>)
    ensures
        pairs_view(r@) == above(pairs_view(v@), n as int),
{
    let mut r: Vec<(String, i32)> = Vec::new();
    let mut i: usize = 0;
    while i < v.len()
        invariant
            i <= v.len(),
            pairs_view(r@) == above(pairs_view(v@).take(i as int), n as int),
        decreases v.len() - i,
    {
        let ghost t = pairs_view(v@).take(i + 1);
        assert(t.drop_last() =~= pairs_view(v@).take(i as int));
        assert(t.last() == (v@[i as int].0@, v@[i as int].1 as int));
        if v[i].1 > n {
            let ghost before = r@;
            r.push((v[i].0.clone(), v[i].1));
            assert(pairs_view(r@) =~= pairs_view(before).push((v@[i as int].0@, v@[i as int].1 as int)));
        }
        i = i + 1;
    }
    assert(pairs_view(v@).take(i as int) =~= pairs_view(v@));
    r
}

/// The filter that drops only stop words.
pub open spec fn stop_only_filter() -> WordFilter {
    WordFilter { drop_stop_words: true, min_bytes: 0 }
}

/// The entries of a table in the stable sorted order.
pub fn sorted_pairs(t: &FreqTable, by_word: bool) -> (r: Vec<(String, i32)>)
    ensures
        pairs_view(r@) == sort_entries(t@, by_word),
{
    let e = t.entries();
    sort_pairs(&e, by_word)
}

/// The frequency table of a word list, sorted by descending count (stable).
pub fn count_and_sort(ws: &Vec<String>) -> (r: Vec<(String, i32)>)
    requires
        countable(ws.deep_view()),
    ensures
        pairs_view(r@) == sort_entries(tally(ws.deep_view()), false),
{
    let t = FreqTable::from_words(ws);
    sorted_pairs(&t, false)
}

/// Dropping the entries counted `n` times or fewer commutes with inserting an entry in order.
pub proof fn lemma_above_insert_sorted(r: Table, x: (Seq<char>, int), n: int, by_word: bool)
    ensures
        above(insert_sorted(r, x, by_word), n) == if x.1 > n {
            insert_sorted(above(r, n), x, by_word)
        } else {
            above(r, n)
        },
    decreases r.len(),
{
    if r.len() == 0 {
        assert(insert_sorted(r, x, by_word) == seq![x]);
        assert(seq![x].drop_last() =~= Seq::<(Seq<char>, int)>::empty());
        assert(seq![x].last() == x);
        assert(r =~= Seq::<(Seq<char>, int)>::empty());
        assert(above(r, n) == r);
        if x.1 > n {
            assert(above(seq![x], n) =~= seq![x]);
            assert(insert_sorted(above(r, n), x, by_word) == seq![x]);
        } else {
            assert(above(seq![x], n) =~= r);
        }
    } else {
        let p = r.drop_last();
        let y = r.last();
        assert(r == p.push(y));
        if goes_before(x, y, by_word) {
            lemma_above_insert_sorted(p, x, n, by_word);
            let l = insert_sorted(r, x, by_word);
            assert(l == insert_sorted(p, x, by_word).push(y));
            assert(l.drop_last() =~= insert_sorted(p, x, by_word));
            assert(l.last() == y);
            if y.1 > n {
                assert(above(r, n) == above(p, n).push(y));
                assert(above(l, n) == above(insert_sorted(p, x, by_word), n).push(y));
                if x.1 > n {
                    let q = above(p, n).push(y);
                    assert(q.drop_last() =~= above(p, n));
                    assert(q.last() == y);
                    assert(insert_sorted(q, x, by_word) == insert_sorted(above(p, n), x, by_word).push(y));
                }
            } else {
                assert(above(r, n) == above(p, n));
                assert(above(l, n) == above(insert_sorted(p, x, by_word), n));
            }
        } else {
            let l = r.push(x);
            assert(insert_sorted(r, x, by_word) == l);
            assert(l.drop_last() =~= r);
            assert(l.last() == x);
            if x.1 > n {
                assert(above(l, n) == above(r, n).push(x));
                assert(y.1 > n);
                assert(above(r, n) == above(p, n).push(y));
                let q = above(r, n);
                assert(q.last() == y);
                assert(q.len() > 0);
                assert(insert_sorted(q, x, by_word) == q.push(x));
            } else {
                assert(above(l, n) == above(r, n));
            }
        }
    }
}

/// Dropping the entries counted `n` times or fewer and sorting, in either order, gives the
/// same entries.
pub proof fn lemma_above_sort(t: Table, n: int, by_word: bool)
    ensures
        sort_entries(above(t, n), by_word) == above(sort_entries(t, by_word), n),
    decreases t.len(),
{
    if t.len() > 0 {
        let p = t.drop_last();
        lemma_above_sort(p, n, by_word);
        lemma_above_insert_sorted(sort_entries(p, by_word), t.last(), n, by_word);
        if t.last().1 > n {
            assert(above(t, n).drop_last() =~= above(p, n));
            assert(above(t, n).last() == t.last());
        }
    }
}

/// A report prints only the entries counted more than `n` times, so dropping the others first
/// changes nothing.
pub proof fn lemma_report_above(t: Table, n: int, style: LineStyle)
    ensures
        report(above(t, n), n, style) == report(t, n, style),
    decreases t.len(),
{
    if t.len() > 0 {
        lemma_report_above(t.drop_last(), n, style);
        if t.last().1 > n {
            assert(above(t, n).drop_last() =~= above(t.drop_last(), n));
            assert(above(t, n).last() == t.last());
        }
    }
}

/// Reporting the frequent entries of a table gives the same text whether the infrequent
/// entries are dropped before sorting or skipped while printing.
pub proof fn lemma_filter_then_sort(t: Table, n: int, by_word: bool, style: LineStyle)
    ensures
        report(sort_entries(above(t, n), by_word), n, style) == report(sort_entries(t, by_word), n, style),
{
    lemma_above_sort(t, n, by_word);
    lemma_report_above(sort_entries(t, by_word), n, style);
}

/// In a table of distinct words, an entry occurs once when it is the word's entry, and not at
/// all otherwise.
pub proof fn lemma_entry_multiplicity(t: Table, e: (Seq<char>, int))
    requires
        keys_distinct(t),
    ensures
        t.to_multiset().count(e) == if has_key(t, e.0) && count_of(t, e.0) == e.1 {
            1nat
        } else {
            0nat
        },
    decreases t.len(),
{
    broadcast use vstd::multiset::group_multiset_axioms;

    if t.len() == 0 {
        t.to_multiset_ensures();
        assert(t.to_multiset() =~= vstd::multiset::Multiset::<(Seq<char>, int)>::empty());
    } else {
        let p = t.drop_last();
        let l = t.last();
        assert(l == t[t.len() - 1]);
        assert(keys_distinct(p)) by {
            assert forall|i: int, j: int| 0 <= i < p.len() && 0 <= j < p.len() && i != j implies #[trigger] p[i].0 != #[trigger] p[j].0 by {
                assert(p[i] == t[i] && p[j] == t[j]);
            }
        }
        lemma_entry_multiplicity(p, e);
        assert(p.push(l) =~= t);
        vstd::seq_lib::to_multiset_build(p, l);
        assert(t.to_multiset() == p.to_multiset().insert(l));
        assert(has_key(t, e.0) == (has_key(p, e.0) || l.0 == e.0)) by {
            if has_key(p, e.0) {
                let i = choose|i: int| 0 <= i < p.len() && #[trigger] p[i].0 == e.0;
                assert(t[i].0 == e.0);
            }
            if has_key(t, e.0) && l.0 != e.0 {
                let i = choose|i: int| 0 <= i < t.len() && #[trigger] t[i].0 == e.0;
                assert(p[i].0 == e.0);
            }
        }
        if l.0 == e.0 {
            assert(!has_key(p, e.0)) by {
                if has_key(p, e.0) {
                    let i = choose|i: int| 0 <= i < p.len() && #[trigger] p[i].0 == e.0;
                    assert(t[i].0 == t[t.len() - 1].0);
                }
            }
            if l == e {
                assert(p.to_multiset().insert(l).count(e) == p.to_multiset().count(e) + 1);
            } else {
                assert(p.to_multiset().insert(l).count(e) == p.to_multiset().count(e));
            }
        } else {
            assert(p.to_multiset().insert(l).count(e) == p.to_multiset().count(e));
        }
    }
}

/// Tables of distinct words that give every word the same count hold the same entries.
pub proof fn lemma_same_counts_same_entries(a: Table, b: Table)
    requires
        keys_distinct(a),
        keys_distinct(b),
        counts_positive(a),
        counts_positive(b),
        same_counts(a, b),
    ensures
        a.to_multiset() == b.to_multiset(),
{
    assert forall|w: Seq<char>| #[trigger] has_key(a, w) == has_key(b, w) by {
        lemma_key_count(a, w);
        lemma_key_count(b, w);
        assert(count_of(a, w) == count_of(b, w));
    }
    assert forall|e: (Seq<char>, int)| #[trigger] a.to_multiset().count(e) == b.to_multiset().count(e) by {
        lemma_entry_multiplicity(a, e);
        lemma_entry_multiplicity(b, e);
        assert(has_key(a, e.0) == has_key(b, e.0));
        assert(count_of(a, e.0) == count_of(b, e.0));
    }
    assert(a.to_multiset() =~= b.to_multiset());
}

/// In a table of positive counts, a word is present exactly when its count is positive.
proof fn lemma_key_count(t: Table, w: Seq<char>)
    requires
        keys_distinct(t),
        counts_positive(t),
    ensures
        has_key(t, w) <==> count_of(t, w) > 0,
{
    if has_key(t, w) {
        let i = choose|i: int| 0 <= i < t.len() && #[trigger] t[i].0 == w;
        crate::freq::lemma_count_of_at(t, i);
    } else {
        crate::freq::lemma_count_of_absent(t, w);
    }
}

/// Ordering the counts by count and then by word gives the same list whatever the order of
/// the words counted: lists with the same words, each as often, give the same sorted counts.
pub proof fn lemma_sorted_counts_order_free(a: Seq<Seq<char>>, b: Seq<Seq<char>>)
    requires
        a.to_multiset() == b.to_multiset(),
    ensures
        sort_entries(tally(a), true) == sort_entries(tally(b), true),
{
    crate::freq::lemma_tally(a);
    crate::freq::lemma_tally(b);
    crate::freq::lemma_tally_order_free(a, b);
    lemma_same_counts_same_entries(tally(a), tally(b));
    crate::order::lemma_sort_by_word_order_free(tally(a), tally(b));
}

/// Selecting keeps at most all the words, and selecting a prefix one word longer adds that
/// word exactly when it passes.
pub proof fn lemma_select_step(ws: Seq<Seq<char>>, stop: Seq<Seq<char>>, f: WordFilter, i: int)
    requires
        0 <= i < ws.len(),
    ensures
        select(ws.take(i + 1), stop, f) == if passes(ws[i], stop, f) {
            select(ws.take(i), stop, f).push(ws[i])
        } else {
            select(ws.take(i), stop, f)
        },
{
    assert(ws.take(i + 1).drop_last() =~= ws.take(i));
    assert(ws.take(i + 1).last() == ws[i]);
}

/// Selecting keeps no more words than there are.
pub proof fn lemma_select_len(ws: Seq<Seq<char>>, stop: Seq<Seq<char>>, f: WordFilter)
    ensures
        select(ws, stop, f).len() <= ws.len(),
    decreases ws.len(),
{
    if ws.len() > 0 {
        lemma_select_len(ws.drop_last(), stop, f);
    }
}

/// A word that passes the filter occurs among the selected words as often as in the list; any
/// other word not at all.
pub proof fn lemma_select_occurrences_exact(ws: Seq<Seq<char>>, stop: Seq<Seq<char>>, f: WordFilter, w: Seq<char>)
    ensures
        occurrences(select(ws, stop, f), w) == if passes(w, stop, f) {
            occurrences(ws, w)
        } else {
            0
        },
    decreases ws.len(),
{
    if ws.len() > 0 {
        lemma_select_occurrences_exact(ws.drop_last(), stop, f, w);
        if passes(ws.last(), stop, f) {
            assert(select(ws, stop, f).drop_last() =~= select(ws.drop_last(), stop, f));
            assert(select(ws, stop, f).last() == ws.last());
        }
    }
}

/// Before the `i`-th word of a list is counted, when it passes the filter and counting all the
/// words that pass leaves room, the count of those before it leaves room for one more.
pub proof fn lemma_room_before(t: Table, all: Seq<Seq<char>>, i: int, stop: Seq<Seq<char>>, f: WordFilter)
    requires
        0 <= i < all.len(),
        passes(all[i], stop, f),
        room_for(t, select(all, stop, f)),
    ensures
        count_of(count_into(t, select(all.take(i), stop, f)), all[i]) < i32::MAX,
{
    let w = all[i];
    let before = select(all.take(i), stop, f);
    let rest = select(all.skip(i + 1), stop, f);
    lemma_count_into(t, before);
    lemma_select_step(all, stop, f, i);
    assert(all.take(i + 1) + all.skip(i + 1) =~= all);
    lemma_select_append(all.take(i + 1), all.skip(i + 1), stop, f);
    assert(before.push(w).drop_last() =~= before);
    crate::freq::lemma_occurrences_append(before.push(w), rest, w);
    crate::freq::lemma_occurrences_bound(rest, w);
    crate::freq::lemma_occurrences_bound(before, w);
    assert(occurrences(select(all, stop, f), w) > 0);
}

/// Before the `i`-th word of a countable list is counted, the count of the words before it
/// leaves room for one more.
pub proof fn lemma_room_in_tally(ws: Seq<Seq<char>>, i: int)
    requires
        countable(ws),
        0 <= i < ws.len(),
    ensures
        count_of(tally(ws.take(i)), ws[i]) < i32::MAX,
{
    crate::freq::lemma_tally(ws.take(i));
    crate::freq::lemma_occurrences_prefix(ws, i + 1, ws[i]);
    assert(ws.take(i + 1).drop_last() =~= ws.take(i));
    assert(ws.take(i + 1).last() == ws[i]);
    assert(occurrences(ws, ws[i]) < i32::MAX);
}

/// Before the `i`-th word of a list is counted, when it passes the filter and no word that
/// passes occurs `i32::MAX` times, the count of the words that passed before it leaves room
/// for one more.
pub proof fn lemma_room_in_kept(ws: Seq<Seq<char>>, i: int, stop: Seq<Seq<char>>, f: WordFilter)
    requires
        countable(select(ws, stop, f)),
        0 <= i < ws.len(),
        passes(ws[i], stop, f),
    ensures
        count_of(tally(select(ws.take(i), stop, f)), ws[i]) < i32::MAX,
{
    let e: Table = Seq::empty();
    assert forall|w: Seq<char>| #[trigger] occurrences(select(ws, stop, f), w) > 0 implies count_of(e, w)
        + occurrences(select(ws, stop, f), w) < i32::MAX by {
        assert(occurrences(select(ws, stop, f), w) < i32::MAX);
    }
    lemma_room_before(e, ws, i, stop, f);
    lemma_count_into(e, select(ws.take(i), stop, f));
}

/// Selecting from two lists one after the other is selecting from each.
pub proof fn lemma_select_append(a: Seq<Seq<char>>, b: Seq<Seq<char>>, stop: Seq<Seq<char>>, f: WordFilter)
    ensures
        select(a + b, stop, f) == select(a, stop, f) + select(b, stop, f),
    decreases b.len(),
{
    if b.len() == 0 {
        assert(a + b =~= a);
        assert(select(a, stop, f) + select(b, stop, f) =~= select(a, stop, f));
    } else {
        lemma_select_append(a, b.drop_last(), stop, f);
        assert((a + b).drop_last() =~= a + b.drop_last());
        assert((a + b).last() == b.last());
        if passes(b.last(), stop, f) {
            assert(select(a, stop, f) + select(b.drop_last(), stop, f).push(b.last()) =~= (select(a, stop, f)
                + select(b.drop_last(), stop, f)).push(b.last()));
        }
    }
}

/// Counting two lists one after the other is counting their concatenation.
pub proof fn lemma_count_into_append(t: Table, a: Seq<Seq<char>>, b: Seq<Seq<char>>)
    ensures
        count_into(t, a + b) == count_into(count_into(t, a), b),
    decreases b.len(),
{
    if b.len() == 0 {
        assert(a + b =~= a);
    } else {
        lemma_count_into_append(t, a, b.drop_last());
        assert((a + b).drop_last() =~= a + b.drop_last());
        assert((a + b).last() == b.last());
    }
}

} // verus!
