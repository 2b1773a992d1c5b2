//! Dataspaces: workers take words from a shared word space and count them into a shared
//! frequency space; these are the decisions of a worker and of the final report.
use vstd::prelude::*;
use crate::freq::{FreqTable, Table, add_count, count_of, countable, pairs_view, same_counts, tally, lemma_tally, lemma_occurrences_multiset};
use crate::order::{is_sorted, sort_entries, sort_pairs, lemma_sort_entries};
use crate::report::{LineStyle, report, report_string};
use crate::tf::{above, pairs_above, usual_words, lemma_room_in_kept, lemma_select_occurrences_exact, lemma_same_counts_same_entries};
use crate::words::{StopWords, byte_len, passes, has_min_bytes, stop_word_pieces, usual_filter,
    word_passes, words_of_text, select};

verus! {

/// The entries of a table whose word has at least `k` bytes, in order.
pub open spec fn long_entries(t: Table, k: nat) -> Table
    decreases t.len(),
{
    if t.len() == 0 {
        t
    } else if byte_len(t.last().0) >= k {
        long_entries(t.drop_last(), k).push(t.last())
    } else {
        long_entries(t.drop_last(), k)
    }
}

/// What the dataspaces style prints for a table: a `"{} {}\n"` line for each word of three
/// bytes or more counted more than five times, by descending count.
pub open spec fn dataspace_lines(t: Table) -> Seq<char> {
    report(sort_entries(long_entries(above(t, 5), 3), false), 5, LineStyle::Plain)
}

/// A worker's step on one word taken from the word space: the word is counted unless it is a
/// stop word or has fewer than two bytes.
pub fn count_word(freq: &mut FreqTable, stop: &StopWords, word: &String)
    requires
        passes(word@, stop@, usual_filter()) ==> count_of(old(freq)@, word@) < i32::MAX,
    ensures
        final(freq)@ == if passes(word@, stop@, usual_filter()) {
            add_count(old(freq)@, word@, 1)
        } else {
            old(freq)@
        },
{
    if word_passes(word, stop, crate::words::WordFilter { drop_stop_words: true, min_bytes: 2 }) {
        freq.increment(word);
    }
}

/// The pairs whose word has at least `k` bytes, in order.
pub fn pairs_long(v: &Vec<(String, i32)>, k: usize) -> (r: Vec<(String, i32)>)
    ensures
        pairs_view(r@) == long_entries(pairs_view(v@), k as nat),
{
    let mut r: Vec<(String, i32)> = Vec::new();
    let mut i: usize = 0;
    while i < v.len()
        invariant
            i <= v.len(),
            pairs_view(r@) == long_entries(pairs_view(v@).take(i as int), k as nat),
        decreases v.len() - i,
    {
        let ghost t = pairs_view(v@).take(i + 1);
        assert(t.drop_last() =~= pairs_view(v@).take(i as int));
        assert(t.last() == (v@[i as int].0@, v@[i as int].1 as int));
        if has_min_bytes(&v[i].0, k) {
            let ghost before = r@;
            r.push((v[i].0.clone(), v[i].1));
            assert(pairs_view(r@) =~= pairs_view(before).push((v@[i as int].0@, v@[i as int].1 as int)));
        }
        i = i + 1;
    }
    assert(pairs_view(v@).take(i as int) =~= pairs_view(v@));
    r
}

/// The final report of the frequency space.
pub fn dataspace_report(t: &FreqTable) -> (s: String)
    ensures
        s@ == dataspace_lines(t@),
{
    let all = t.entries();
    let frequent = pairs_above(&all, 5);
    let long = pairs_long(&frequent, 3);
    let ordered = sort_pairs(&long, false);
    report_string(&ordered, 5, LineStyle::Plain)
}

/// Whatever order the workers take the words of the word space in, each word taken once, the
/// frequency space ends with the same count for every word, and so with the same entries: the
/// report differs at most in the order of words of equal count.
pub proof fn lemma_any_schedule(space: Seq<Seq<char>>, taken: Seq<Seq<char>>, stop: Seq<Seq<char>>)
    requires
        taken.to_multiset() == space.to_multiset(),
    ensures
        same_counts(tally(select(taken, stop, usual_filter())), tally(select(space, stop, usual_filter()))),
        tally(select(taken, stop, usual_filter())).to_multiset() == tally(select(space, stop, usual_filter())).to_multiset(),
{
    let a = select(taken, stop, usual_filter());
    let b = select(space, stop, usual_filter());
    lemma_tally(a);
    lemma_tally(b);
    assert forall|w: Seq<char>| #[trigger] count_of(tally(a), w) == count_of(tally(b), w) by {
        lemma_select_occurrences_exact(taken, stop, usual_filter(), w);
        lemma_select_occurrences_exact(space, stop, usual_filter(), w);
        lemma_occurrences_multiset(taken, w);
        lemma_occurrences_multiset(space, w);
    }
    lemma_same_counts_same_entries(tally(a), tally(b));
}

/// An entry occurs among the entries counted more than `n` times as often as in the table when
/// its count is above `n`, and not at all otherwise.
pub proof fn lemma_above_count(t: Table, n: int, e: (Seq<char>, int))
    ensures
        above(t, n).to_multiset().count(e) == if e.1 > n {
            t.to_multiset().count(e)
        } else {
            0
        },
    decreases t.len(),
{
    broadcast use vstd::multiset::group_multiset_axioms;

    if t.len() == 0 {
        t.to_multiset_ensures();
        above(t, n).to_multiset_ensures();
        assert(t.to_multiset() =~= vstd::multiset::Multiset::<(Seq<char>, int)>::empty());
    } else {
        let p = t.drop_last();
        let l = t.last();
        lemma_above_count(p, n, e);
        assert(p.push(l) =~= t);
        vstd::seq_lib::to_multiset_build(p, l);
        if l.1 > n {
            vstd::seq_lib::to_multiset_build(above(p, n), l);
        }
    }
}

/// An entry occurs among the entries whose word has `k` bytes or more as often as in the table
/// when its word is that long, and not at all otherwise.
pub proof fn lemma_long_count(t: Table, k: nat, e: (Seq<char>, int))
    ensures
        long_entries(t, k).to_multiset().count(e) == if byte_len(e.0) >= k {
            t.to_multiset().count(e)
        } else {
            0
        },
    decreases t.len(),
{
    broadcast use vstd::multiset::group_multiset_axioms;

    if t.len() == 0 {
        t.to_multiset_ensures();
        long_entries(t, k).to_multiset_ensures();
        assert(t.to_multiset() =~= vstd::multiset::Multiset::<(Seq<char>, int)>::empty());
    } else {
        let p = t.drop_last();
        let l = t.last();
        lemma_long_count(p, k, e);
        assert(p.push(l) =~= t);
        vstd::seq_lib::to_multiset_build(p, l);
        if byte_len(l.0) >= k {
            vstd::seq_lib::to_multiset_build(long_entries(p, k), l);
        }
    }
}

/// The entries that the dataspaces report prints, in order.
pub open spec fn reported_entries(t: Table) -> Table {
    sort_entries(long_entries(above(t, 5), 3), false)
}

/// Two runs on the same word space, whose workers take its words in two orders `first` and
/// `second` (each word taken once, so either order holds the same words), print the same
/// lines: the printed entries are the same, each as often, and each run prints them by
/// descending count, so the two reports differ at most in the order of lines of equal count.
pub proof fn lemma_any_schedule_lines(first: Seq<Seq<char>>, second: Seq<Seq<char>>, stop: Seq<Seq<char>>)
    requires
        first.to_multiset() == second.to_multiset(),
    ensures
        reported_entries(tally(select(first, stop, usual_filter()))).to_multiset() == reported_entries(
            tally(select(second, stop, usual_filter())),
        ).to_multiset(),
        is_sorted(reported_entries(tally(select(first, stop, usual_filter()))), false),
        is_sorted(reported_entries(tally(select(second, stop, usual_filter()))), false),
        dataspace_lines(tally(select(first, stop, usual_filter()))) == report(
            reported_entries(tally(select(first, stop, usual_filter()))),
            5,
            LineStyle::Plain,
        ),
        dataspace_lines(tally(select(second, stop, usual_filter()))) == report(
            reported_entries(tally(select(second, stop, usual_filter()))),
            5,
            LineStyle::Plain,
        ),
{
    let ta = tally(select(first, stop, usual_filter()));
    let tb = tally(select(second, stop, usual_filter()));
    lemma_any_schedule(second, first, stop);
    let la = long_entries(above(ta, 5), 3);
    let lb = long_entries(above(tb, 5), 3);
    assert(la.to_multiset() =~= lb.to_multiset()) by {
        assert forall|e: (Seq<char>, int)| #[trigger] la.to_multiset().count(e) == lb.to_multiset().count(e) by {
            lemma_long_count(above(ta, 5), 3, e);
            lemma_long_count(above(tb, 5), 3, e);
            lemma_above_count(ta, 5, e);
            lemma_above_count(tb, 5, e);
        }
    }
    lemma_sort_entries(la, false);
    lemma_sort_entries(lb, false);
}

/// The dataspaces style with one worker: every word of the word space is taken in turn and
/// counted, then the frequency space is reported.
pub fn dataspaces_test(text: &str, stop_text: &str) -> (s: String)
    requires
        countable(usual_words(text@, stop_text@)),
    ensures
        s@ == dataspace_lines(tally(usual_words(text@, stop_text@))),
{
    let stop = StopWords::from_text(stop_text);
    let word_space = words_of_text(text);
    let mut freq = FreqTable::new();
    let mut i: usize = 0;
    while i < word_space.len()
        invariant
            i <= word_space.len(),
            countable(select(word_space.deep_view(), stop@, usual_filter())),
            freq@ == tally(select(word_space.deep_view().take(i as int), stop@, usual_filter())),
        decreases word_space.len() - i,
    {
        let ghost taken = word_space.deep_view().take(i as int);
        proof {
            crate::tf::lemma_select_step(word_space.deep_view(), stop@, usual_filter(), i as int);
            if passes(word_space[i as int]@, stop@, usual_filter()) {
                lemma_room_in_kept(word_space.deep_view(), i as int, stop@, usual_filter());
            }
        }
        count_word(&mut freq, &stop, &word_space[i]);
        proof {
            let kept = select(taken, stop@, usual_filter());
            if passes(word_space[i as int]@, stop@, usual_filter()) {
                assert(kept.push(word_space[i as int]@).drop_last() =~= kept);
            }
        }
        i = i + 1;
    }
    assert(word_space.deep_view().take(i as int) =~= word_space.deep_view());
    assert(stop@ == stop_word_pieces(stop_text@));
    dataspace_report(&freq)
}

/// The dataspaces style with one worker when no count can overflow: `None` when a word it
/// counts occurs `i32::MAX` times or more, else what `dataspaces_test` gives.
pub fn dataspaces_checked(text: &str, stop_text: &str) -> (r: Option<String>)
    ensures
        r is None <==> !countable(usual_words(text@, stop_text@)),
        r matches Some(s) ==> s@ == dataspace_lines(tally(usual_words(text@, stop_text@))),
{
    let stop = StopWords::from_text(stop_text);
    let kept = crate::words::select_words(&words_of_text(text), &stop, crate::words::WordFilter { drop_stop_words: true, min_bytes: 2 });
    if crate::freq::countable_words(&kept) {
        Some(dataspaces_test(text, stop_text))
    } else {
        None
    }
}

} // verus!
