//! Word-frequency tables: counting, merging, and what these keep.
use vstd::prelude::*;

verus! {

/// A frequency table seen as its entries: each word with its count, in insertion order.
pub type Table = Seq<(Seq<char>, int)>;

/// The words of a table, in order.
pub open spec fn keys(t: Table) -> Seq<Seq<char>> {
    t.map_values(|e: (Seq<char>, int)| e.0)
}

/// No word occurs twice in the table.
pub open spec fn keys_distinct(t: Table) -> bool {
    forall|i: int, j: int| 0 <= i < t.len() && 0 <= j < t.len() && i != j ==> #[trigger] t[i].0 != #[trigger] t[j].0
}

/// Every count of the table is positive.
pub open spec fn counts_positive(t: Table) -> bool {
    forall|i: int| 0 <= i < t.len() ==> #[trigger] t[i].1 >= 1
}

/// Whether `w` is a word of the table.
pub open spec fn has_key(t: Table, w: Seq<char>) -> bool {
    exists|i: int| 0 <= i < t.len() && #[trigger] t[i].0 == w
}

/// The count of `w` in the table (the last entry for `w`), or 0 when `w` is absent.
pub open spec fn count_of(t: Table, w: Seq<char>) -> int
    decreases t.len(),
{
    if t.len() == 0 {
        0
    } else if t.last().0 == w {
        t.last().1
    } else {
        count_of(t.drop_last(), w)
    }
}

/// The table with `n` added to the count of the last entry for `w` (unchanged when `w` is absent).
pub open spec fn bump_last(t: Table, w: Seq<char>, n: int) -> Table
    decreases t.len(),
{
    if t.len() == 0 {
        t
    } else if t.last().0 == w {
        t.drop_last().push((w, t.last().1 + n))
    } else {
        bump_last(t.drop_last(), w, n).push(t.last())
    }
}

/// The table after adding `n` to the count of `w`: the entry for `w` is updated in place,
/// or a new entry `(w, n)` is appended at the end when `w` is absent.
pub open spec fn add_count(t: Table, w: Seq<char>, n: int) -> Table {
    if has_key(t, w) {
        bump_last(t, w, n)
    } else {
        t.push((w, n))
    }
}

/// The frequency table of a word list: each distinct word, in order of first occurrence,
/// with its number of occurrences.
pub open spec fn tally(ws: Seq<Seq<char>>) -> Table
    decreases ws.len(),
{
    if ws.len() == 0 {
        Seq::empty()
    } else {
        add_count(tally(ws.drop_last()), ws.last(), 1)
    }
}

/// The table `t` with one more occurrence counted for each word of `ws`, in order.
pub open spec fn count_into(t: Table, ws: Seq<Seq<char>>) -> Table
    decreases ws.len(),
{
    if ws.len() == 0 {
        t
    } else {
        add_count(count_into(t, ws.drop_last()), ws.last(), 1)
    }
}

/// The number of occurrences of `w` in a word list.
pub open spec fn occurrences(ws: Seq<Seq<char>>, w: Seq<char>) -> int
    decreases ws.len(),
{
    if ws.len() == 0 {
        0
    } else {
        occurrences(ws.drop_last(), w) + if ws.last() == w {
            1int
        } else {
            0int
        }
    }
}

/// The sum of the counts of a table.
pub open spec fn total(t: Table) -> int
    decreases t.len(),
{
    if t.len() == 0 {
        0
    } else {
        total(t.drop_last()) + t.last().1
    }
}

/// The table `a` with every entry of `b` added to it, in the order of `b`.
pub open spec fn merge_tables(a: Table, b: Table) -> Table
    decreases b.len(),
{
    if b.len() == 0 {
        a
    } else {
        add_count(merge_tables(a, b.drop_last()), b.last().0, b.last().1)
    }
}

/// The tables of a list merged from left to right, starting from the empty table.
pub open spec fn merge_all(ts: Seq<Table>) -> Table
    decreases ts.len(),
{
    if ts.len() == 0 {
        Seq::empty()
    } else {
        merge_tables(merge_all(ts.drop_last()), ts.last())
    }
}

/// The one-entry table of each word of a list, each word counted once.
pub open spec fn singletons(ws: Seq<Seq<char>>) -> Seq<Table> {
    ws.map_values(|w: Seq<char>| seq![(w, 1int)])
}

/// Two tables give every word the same count.
pub open spec fn same_counts(a: Table, b: Table) -> bool {
    forall|w: Seq<char>| #[trigger] count_of(a, w) == count_of(b, w)
}

// ---------------------------------------------------------------------------------------
// Facts about `count_of` and `add_count`.

pub proof fn lemma_count_of_absent(t: Table, w: Seq<char>)
    requires
        !has_key(t, w),
    ensures
        count_of(t, w) == 0,
    decreases t.len(),
{
    if t.len() > 0 {
        assert(t.last() == t[t.len() - 1]);
        if !has_key(t.drop_last(), w) {
            lemma_count_of_absent(t.drop_last(), w);
        } else {
            let i = choose|i: int| 0 <= i < t.drop_last().len() && #[trigger] t.drop_last()[i].0 == w;
            assert(t[i].0 == w);
        }
    }
}

pub proof fn lemma_count_of_at(t: Table, i: int)
    requires
        0 <= i < t.len(),
        keys_distinct(t),
    ensures
        count_of(t, t[i].0) == t[i].1,
    decreases t.len(),
{
    if i < t.len() - 1 {
        assert(t.last() == t[t.len() - 1]);
        assert(t[t.len() - 1].0 != t[i].0);
        assert(t.drop_last()[i] == t[i]);
        lemma_count_of_at(t.drop_last(), i);
    }
}

/// Bumping keeps every word in place and changes only counts of `w`.
pub proof fn lemma_bump_last_shape(t: Table, w: Seq<char>, n: int)
    ensures
        bump_last(t, w, n).len() == t.len(),
        forall|i: int| 0 <= i < t.len() ==> (#[trigger] bump_last(t, w, n)[i]).0 == t[i].0 && (
        bump_last(t, w, n)[i].1 == t[i].1 || (t[i].0 == w && bump_last(t, w, n)[i].1 == t[i].1 + n)),
    decreases t.len(),
{
    if t.len() > 0 {
        lemma_bump_last_shape(t.drop_last(), w, n);
        let r = bump_last(t, w, n);
        assert forall|i: int| 0 <= i < t.len() implies (#[trigger] r[i]).0 == t[i].0 && (r[i].1 == t[i].1
            || (t[i].0 == w && r[i].1 == t[i].1 + n)) by {
            if i < t.len() - 1 {
                assert(t.drop_last()[i] == t[i]);
                if t.last().0 != w {
                    assert(r[i] == bump_last(t.drop_last(), w, n)[i]);
                }
            }
        }
    }
}

/// Adding `n` to `w` adds `n` to the count of `w` and changes no other count.
pub proof fn lemma_add_count_count(t: Table, w: Seq<char>, n: int, v: Seq<char>)
    ensures
        count_of(add_count(t, w, n), v) == count_of(t, v) + if v == w {
            n
        } else {
            0
        },
{
    if has_key(t, w) {
        lemma_bump_last_count(t, w, n, v);
    } else {
        lemma_count_of_absent(t, w);
        assert(t.push((w, n)).drop_last() =~= t);
    }
}

proof fn lemma_bump_last_count(t: Table, w: Seq<char>, n: int, v: Seq<char>)
    requires
        has_key(t, w),
    ensures
        count_of(bump_last(t, w, n), v) == count_of(t, v) + if v == w {
            n
        } else {
            0
        },
    decreases t.len(),
{
    let r = bump_last(t, w, n);
    assert(t.last() == t[t.len() - 1]);
    if t.last().0 == w {
        assert(r.drop_last() =~= t.drop_last());
    } else {
        let i = choose|i: int| 0 <= i < t.len() && #[trigger] t[i].0 == w;
        assert(t.drop_last()[i] == t[i]);
        lemma_bump_last_count(t.drop_last(), w, n, v);
        assert(r.drop_last() =~= bump_last(t.drop_last(), w, n));
    }
}

/// Adding to a word keeps the words of the table and adds `w` when it was absent.
pub proof fn lemma_add_count_keys(t: Table, w: Seq<char>, n: int)
    ensures
        forall|v: Seq<char>| #[trigger] has_key(add_count(t, w, n), v) <==> (has_key(t, v) || v == w),
        add_count(t, w, n).len() == if has_key(t, w) {
            t.len()
        } else {
            t.len() + 1
        },
{
    let r = add_count(t, w, n);
    if has_key(t, w) {
        lemma_bump_last_shape(t, w, n);
        assert forall|v: Seq<char>| #[trigger] has_key(r, v) <==> (has_key(t, v) || v == w) by {
            if has_key(r, v) {
                let i = choose|i: int| 0 <= i < r.len() && #[trigger] r[i].0 == v;
                assert(t[i].0 == v);
            }
            if has_key(t, v) {
                let i = choose|i: int| 0 <= i < t.len() && #[trigger] t[i].0 == v;
                assert(r[i].0 == v);
            }
            if v == w {
                let i = choose|i: int| 0 <= i < t.len() && #[trigger] t[i].0 == w;
                assert(r[i].0 == v);
            }
        }
    } else {
        assert forall|v: Seq<char>| #[trigger] has_key(r, v) <==> (has_key(t, v) || v == w) by {
            if has_key(r, v) {
                let i = choose|i: int| 0 <= i < r.len() && #[trigger] r[i].0 == v;
                if i < t.len() {
                    assert(t[i].0 == v);
                }
            }
            if has_key(t, v) {
                let i = choose|i: int| 0 <= i < t.len() && #[trigger] t[i].0 == v;
                assert(r[i].0 == v);
            }
            if v == w {
                assert(r[t.len() as int].0 == v);
            }
        }
    }
}

/// Adding to a word keeps the words distinct.
pub proof fn lemma_add_count_distinct(t: Table, w: Seq<char>, n: int)
    requires
        keys_distinct(t),
    ensures
        keys_distinct(add_count(t, w, n)),
{
    let r = add_count(t, w, n);
    if has_key(t, w) {
        lemma_bump_last_shape(t, w, n);
        assert forall|i: int, j: int| 0 <= i < r.len() && 0 <= j < r.len() && i != j implies #[trigger] r[i].0 != #[trigger] r[j].0 by {
            assert(r[i].0 == t[i].0 && r[j].0 == t[j].0);
        }
    } else {
        assert forall|i: int, j: int| 0 <= i < r.len() && 0 <= j < r.len() && i != j implies #[trigger] r[i].0 != #[trigger] r[j].0 by {
            if i < t.len() && j < t.len() {
                assert(r[i] == t[i] && r[j] == t[j]);
            } else if i < t.len() {
                assert(r[i] == t[i]);
            } else {
                assert(r[j] == t[j]);
            }
        }
    }
}

/// Adding a positive amount keeps every count positive.
pub proof fn lemma_add_count_positive(t: Table, w: Seq<char>, n: int)
    requires
        counts_positive(t),
        n >= 1,
    ensures
        counts_positive(add_count(t, w, n)),
{
    let r = add_count(t, w, n);
    if has_key(t, w) {
        lemma_bump_last_shape(t, w, n);
        assert forall|i: int| 0 <= i < r.len() implies #[trigger] r[i].1 >= 1 by {
            assert(t[i].1 >= 1);
        }
    } else {
        assert forall|i: int| 0 <= i < r.len() implies #[trigger] r[i].1 >= 1 by {
            if i < t.len() {
                assert(r[i] == t[i]);
            }
        }
    }
}

/// Adding `n` adds `n` to the total.
pub proof fn lemma_add_count_total(t: Table, w: Seq<char>, n: int)
    ensures
        total(add_count(t, w, n)) == total(t) + n,
{
    if has_key(t, w) {
        lemma_bump_last_total(t, w, n);
    } else {
        assert(t.push((w, n)).drop_last() =~= t);
    }
}

proof fn lemma_bump_last_total(t: Table, w: Seq<char>, n: int)
    requires
        has_key(t, w),
    ensures
        total(bump_last(t, w, n)) == total(t) + n,
    decreases t.len(),
{
    let r = bump_last(t, w, n);
    assert(t.last() == t[t.len() - 1]);
    if t.last().0 == w {
        assert(r.drop_last() =~= t.drop_last());
    } else {
        let i = choose|i: int| 0 <= i < t.len() && #[trigger] t[i].0 == w;
        assert(t.drop_last()[i] == t[i]);
        lemma_bump_last_total(t.drop_last(), w, n);
        assert(r.drop_last() =~= bump_last(t.drop_last(), w, n));
    }
}

// ---------------------------------------------------------------------------------------
// The laws of counting.

/// Counting a word list gives each word its number of occurrences, lists each word once,
/// lists exactly the words of the list, gives every listed word a positive count, and the
/// counts add up to the length of the list.
pub proof fn lemma_tally(ws: Seq<Seq<char>>)
    ensures
        forall|w: Seq<char>| #[trigger] count_of(tally(ws), w) == occurrences(ws, w),
        keys_distinct(tally(ws)),
        counts_positive(tally(ws)),
        forall|w: Seq<char>| #[trigger] has_key(tally(ws), w) <==> ws.contains(w),
        total(tally(ws)) == ws.len(),
    decreases ws.len(),
{
    if ws.len() > 0 {
        let p = ws.drop_last();
        lemma_tally(p);
        lemma_add_count_distinct(tally(p), ws.last(), 1);
        lemma_add_count_positive(tally(p), ws.last(), 1);
        lemma_add_count_keys(tally(p), ws.last(), 1);
        lemma_add_count_total(tally(p), ws.last(), 1);
        assert forall|w: Seq<char>| #[trigger] count_of(tally(ws), w) == occurrences(ws, w) by {
            lemma_add_count_count(tally(p), ws.last(), 1, w);
        }
        assert forall|w: Seq<char>| #[trigger] has_key(tally(ws), w) <==> ws.contains(w) by {
            assert(ws[ws.len() - 1] == ws.last());
            assert(tally(ws) == add_count(tally(p), ws.last(), 1));
            assert(has_key(tally(ws), w) == (has_key(tally(p), w) || w == ws.last()));
            assert(has_key(tally(p), w) == p.contains(w));
            if ws.contains(w) {
                let i = choose|i: int| 0 <= i < ws.len() && ws[i] == w;
                if i < ws.len() - 1 {
                    assert(p[i] == w);
                }
            }
            if p.contains(w) {
                let i = choose|i: int| 0 <= i < p.len() && p[i] == w;
                assert(ws[i] == w);
            }
        }
    }
}

/// Counting into a table adds each word's occurrences to its count; counting into the empty
/// table is counting the list.
pub proof fn lemma_count_into(t: Table, ws: Seq<Seq<char>>)
    ensures
        forall|w: Seq<char>| #[trigger] count_of(count_into(t, ws), w) == count_of(t, w) + occurrences(ws, w),
        keys_distinct(t) ==> keys_distinct(count_into(t, ws)),
        count_into(Seq::empty(), ws) == tally(ws),
    decreases ws.len(),
{
    if ws.len() > 0 {
        lemma_count_into(t, ws.drop_last());
        assert forall|w: Seq<char>| #[trigger] count_of(count_into(t, ws), w) == count_of(t, w) + occurrences(ws, w) by {
            lemma_add_count_count(count_into(t, ws.drop_last()), ws.last(), 1, w);
        }
        if keys_distinct(t) {
            lemma_add_count_distinct(count_into(t, ws.drop_last()), ws.last(), 1);
        }
    }
}

// ---------------------------------------------------------------------------------------
// The laws of merging.

/// Merging adds the counts of the two tables.
pub proof fn lemma_merge_count(a: Table, b: Table, w: Seq<char>)
    requires
        keys_distinct(b),
    ensures
        count_of(merge_tables(a, b), w) == count_of(a, w) + count_of(b, w),
    decreases b.len(),
{
    if b.len() > 0 {
        let p = b.drop_last();
        assert(b.last() == b[b.len() - 1]);
        assert(keys_distinct(p)) by {
            assert forall|i: int, j: int| 0 <= i < p.len() && 0 <= j < p.len() && i != j implies #[trigger] p[i].0 != #[trigger] p[j].0 by {
                assert(p[i] == b[i] && p[j] == b[j]);
            }
        }
        lemma_merge_count(a, p, w);
        lemma_add_count_count(merge_tables(a, p), b.last().0, b.last().1, w);
        if b.last().0 == w {
            assert(!has_key(p, w)) by {
                if has_key(p, w) {
                    let i = choose|i: int| 0 <= i < p.len() && #[trigger] p[i].0 == w;
                    assert(b[i].0 == b[b.len() - 1].0);
                }
            }
            lemma_count_of_absent(p, w);
        }
    }
}

/// Merging keeps the words of `a` distinct.
pub proof fn lemma_merge_distinct(a: Table, b: Table)
    requires
        keys_distinct(a),
    ensures
        keys_distinct(merge_tables(a, b)),
    decreases b.len(),
{
    if b.len() > 0 {
        lemma_merge_distinct(a, b.drop_last());
        lemma_add_count_distinct(merge_tables(a, b.drop_last()), b.last().0, b.last().1);
    }
}

/// Merging tables of positive counts gives positive counts.
pub proof fn lemma_merge_positive(a: Table, b: Table)
    requires
        counts_positive(a),
        counts_positive(b),
    ensures
        counts_positive(merge_tables(a, b)),
    decreases b.len(),
{
    if b.len() > 0 {
        let p = b.drop_last();
        assert(b.last() == b[b.len() - 1]);
        assert(counts_positive(p)) by {
            assert forall|i: int| 0 <= i < p.len() implies #[trigger] p[i].1 >= 1 by {
                assert(p[i] == b[i]);
            }
        }
        lemma_merge_positive(a, p);
        lemma_add_count_positive(merge_tables(a, p), b.last().0, b.last().1);
    }
}

/// Merging is commutative: the order of the two tables does not change any count.
pub proof fn lemma_merge_commutative(a: Table, b: Table)
    requires
        keys_distinct(a),
        keys_distinct(b),
    ensures
        same_counts(merge_tables(a, b), merge_tables(b, a)),
{
    assert forall|w: Seq<char>| #[trigger] count_of(merge_tables(a, b), w) == count_of(merge_tables(b, a), w) by {
        lemma_merge_count(a, b, w);
        lemma_merge_count(b, a, w);
    }
}

/// Merging is associative: how the merges are grouped does not change any count.
pub proof fn lemma_merge_associative(a: Table, b: Table, c: Table)
    requires
        keys_distinct(b),
        keys_distinct(c),
    ensures
        same_counts(merge_tables(merge_tables(a, b), c), merge_tables(a, merge_tables(b, c))),
{
    lemma_merge_distinct(b, c);
    assert forall|w: Seq<char>| #[trigger] count_of(merge_tables(merge_tables(a, b), c), w) == count_of(merge_tables(a, merge_tables(b, c)), w) by {
        lemma_merge_count(merge_tables(a, b), c, w);
        lemma_merge_count(a, b, w);
        lemma_merge_count(a, merge_tables(b, c), w);
        lemma_merge_count(b, c, w);
    }
}

/// The empty table is the identity of merging, on either side.
pub proof fn lemma_merge_identity(a: Table)
    requires
        keys_distinct(a),
    ensures
        merge_tables(a, Seq::empty()) == a,
        same_counts(merge_tables(Seq::empty(), a), a),
{
    assert forall|w: Seq<char>| #[trigger] count_of(merge_tables(Seq::empty(), a), w) == count_of(a, w) by {
        lemma_merge_count(Seq::empty(), a, w);
    }
}

/// Merging a table of distinct words into the empty table gives the table back.
pub proof fn lemma_merge_into_empty(t: Table)
    requires
        keys_distinct(t),
    ensures
        merge_tables(Seq::empty(), t) == t,
    decreases t.len(),
{
    if t.len() > 0 {
        let p = t.drop_last();
        assert(t.last() == t[t.len() - 1]);
        assert(keys_distinct(p)) by {
            assert forall|i: int, j: int| 0 <= i < p.len() && 0 <= j < p.len() && i != j implies #[trigger] p[i].0 != #[trigger] p[j].0 by {
                assert(p[i] == t[i] && p[j] == t[j]);
            }
        }
        lemma_merge_into_empty(p);
        assert(!has_key(p, t.last().0)) by {
            if has_key(p, t.last().0) {
                let i = choose|i: int| 0 <= i < p.len() && #[trigger] p[i].0 == t.last().0;
                assert(t[i].0 == t[t.len() - 1].0);
            }
        }
        assert(p.push(t.last()) =~= t);
    }
}

/// Merging the one-word tables of a word list from left to right is counting the list.
pub proof fn lemma_merge_all_singletons(ws: Seq<Seq<char>>)
    ensures
        merge_all(singletons(ws)) == tally(ws),
    decreases ws.len(),
{
    if ws.len() > 0 {
        let p = ws.drop_last();
        assert(singletons(ws).drop_last() =~= singletons(p));
        lemma_merge_all_singletons(p);
        let one: Table = seq![(ws.last(), 1int)];
        assert(singletons(ws).last() == one);
        assert(one.drop_last() =~= Seq::<(Seq<char>, int)>::empty());
        assert(one.last() == (ws.last(), 1int));
        assert(merge_tables(tally(p), one) == add_count(merge_tables(tally(p), one.drop_last()), ws.last(), 1));
    }
}

/// The occurrences of a word in a list are its multiplicity in the list's multiset.
pub proof fn lemma_occurrences_multiset(ws: Seq<Seq<char>>, w: Seq<char>)
    ensures
        occurrences(ws, w) == ws.to_multiset().count(w),
    decreases ws.len(),
{
    broadcast use vstd::multiset::group_multiset_axioms;

    if ws.len() == 0 {
        ws.to_multiset_ensures();
        assert(ws.to_multiset().len() == 0);
        assert(ws.to_multiset() =~= vstd::multiset::Multiset::<Seq<char>>::empty());
    } else {
        let p = ws.drop_last();
        lemma_occurrences_multiset(p, w);
        vstd::seq_lib::to_multiset_build(p, ws.last());
        assert(p.push(ws.last()) =~= ws);
    }
}

/// Counting does not depend on the order of the words: two lists with the same words, each
/// as often, give every word the same count (as when workers take the words in any order).
pub proof fn lemma_tally_order_free(a: Seq<Seq<char>>, b: Seq<Seq<char>>)
    requires
        a.to_multiset() == b.to_multiset(),
    ensures
        same_counts(tally(a), tally(b)),
{
    lemma_tally(a);
    lemma_tally(b);
    assert forall|w: Seq<char>| #[trigger] count_of(tally(a), w) == count_of(tally(b), w) by {
        lemma_occurrences_multiset(a, w);
        lemma_occurrences_multiset(b, w);
    }
}

/// The occurrences in two lists one after the other add up.
pub proof fn lemma_occurrences_append(a: Seq<Seq<char>>, b: Seq<Seq<char>>, w: Seq<char>)
    ensures
        occurrences(a + b, w) == occurrences(a, w) + occurrences(b, w),
    decreases b.len(),
{
    if b.len() == 0 {
        assert(a + b =~= a);
    } else {
        lemma_occurrences_append(a, b.drop_last(), w);
        assert((a + b).drop_last() =~= a + b.drop_last());
        assert((a + b).last() == b.last());
    }
}

/// Counting two parts of a word list apart and merging the two tables gives every word the
/// count that counting the whole list gives: the law that lets the work be split.
pub proof fn lemma_merge_tallies(a: Seq<Seq<char>>, b: Seq<Seq<char>>)
    ensures
        same_counts(merge_tables(tally(a), tally(b)), tally(a + b)),
        keys_distinct(merge_tables(tally(a), tally(b))),
{
    lemma_tally(a);
    lemma_tally(b);
    lemma_tally(a + b);
    lemma_merge_distinct(tally(a), tally(b));
    assert forall|w: Seq<char>| #[trigger] count_of(merge_tables(tally(a), tally(b)), w) == count_of(tally(a + b), w) by {
        lemma_merge_count(tally(a), tally(b), w);
        lemma_occurrences_append(a, b, w);
    }
}

/// The number of occurrences of a word is at most the length of the list.
pub proof fn lemma_occurrences_bound(ws: Seq<Seq<char>>, w: Seq<char>)
    ensures
        0 <= occurrences(ws, w) <= ws.len(),
    decreases ws.len(),
{
    if ws.len() > 0 {
        lemma_occurrences_bound(ws.drop_last(), w);
    }
}

/// No word occurs `i32::MAX` times or more in the list, so every count of it fits in `i32`.
pub open spec fn countable(ws: Seq<Seq<char>>) -> bool {
    forall|w: Seq<char>| #[trigger] occurrences(ws, w) < i32::MAX
}

/// A word occurs in a prefix of a list at most as often as in the list.
pub proof fn lemma_occurrences_prefix(ws: Seq<Seq<char>>, k: int, w: Seq<char>)
    requires
        0 <= k <= ws.len(),
    ensures
        occurrences(ws.take(k), w) <= occurrences(ws, w),
{
    assert(ws.take(k) + ws.skip(k) =~= ws);
    lemma_occurrences_append(ws.take(k), ws.skip(k), w);
    lemma_occurrences_bound(ws.skip(k), w);
}

/// A word that occurs in a list is one of its words.
pub proof fn lemma_occurrences_contains(ws: Seq<Seq<char>>, w: Seq<char>)
    requires
        occurrences(ws, w) > 0,
    ensures
        ws.contains(w),
    decreases ws.len(),
{
    if ws.last() == w {
        assert(ws[ws.len() - 1] == w);
    } else {
        lemma_occurrences_contains(ws.drop_last(), w);
        let i = choose|i: int| 0 <= i < ws.drop_last().len() && ws.drop_last()[i] == w;
        assert(ws[i] == w);
    }
}

/// The number of occurrences of `w` in the list, counted up to the end.
fn occurrences_of(words: &Vec<String>, w: &String) -> (n: usize)
    ensures
        n == occurrences(words.deep_view(), w@),
{
    let mut n: usize = 0;
    let mut j: usize = 0;
    while j < words.len()
        invariant
            j <= words.len(),
            n == occurrences(words.deep_view().take(j as int), w@),
            n <= j,
        decreases words.len() - j,
    {
        assert(words.deep_view().take(j + 1).drop_last() =~= words.deep_view().take(j as int));
        assert(words.deep_view().take(j + 1).last() == words[j as int]@);
        if words[j] == *w {
            n = n + 1;
        }
        j = j + 1;
    }
    assert(words.deep_view().take(j as int) =~= words.deep_view());
    n
}

/// Whether every word of the list occurs fewer than `i32::MAX` times, so that counting the
/// list cannot overflow.
pub fn countable_words(words: &Vec<String>) -> (b: bool)
    ensures
        b == countable(words.deep_view()),
{
    if words.len() < i32::MAX as usize {
        proof {
            assert forall|w: Seq<char>| #[trigger] occurrences(words.deep_view(), w) < i32::MAX by {
                lemma_occurrences_bound(words.deep_view(), w);
            }
        }
        return true;
    }
    let mut i: usize = 0;
    while i < words.len()
        invariant
            i <= words.len(),
            forall|k: int| 0 <= k < i ==> occurrences(words.deep_view(), #[trigger] words.deep_view()[k]) < i32::MAX,
        decreases words.len() - i,
    {
        let n = occurrences_of(words, &words[i]);
        if n >= i32::MAX as usize {
            return false;
        }
        i = i + 1;
    }
    proof {
        assert forall|w: Seq<char>| #[trigger] occurrences(words.deep_view(), w) < i32::MAX by {
            if occurrences(words.deep_view(), w) > 0 {
                lemma_occurrences_contains(words.deep_view(), w);
                let k = choose|k: int| 0 <= k < words.deep_view().len() && words.deep_view()[k] == w;
                assert(occurrences(words.deep_view(), words.deep_view()[k]) < i32::MAX);
            }
        }
    }
    true
}

/// A word of a list occurs in it.
pub proof fn lemma_occurrences_at(ws: Seq<Seq<char>>, k: int)
    requires
        0 <= k < ws.len(),
    ensures
        occurrences(ws, ws[k]) > 0,
{
    lemma_occurrences_prefix(ws, k + 1, ws[k]);
    assert(ws.take(k + 1).drop_last() =~= ws.take(k));
    assert(ws.take(k + 1).last() == ws[k]);
    lemma_occurrences_bound(ws.take(k), ws[k]);
}

/// Counting the words `sel` into the table `t` overflows no count: each word among them keeps
/// its count in `t` plus its number of occurrences below `i32::MAX`.
pub open spec fn room_for(t: Table, sel: Seq<Seq<char>>) -> bool {
    forall|w: Seq<char>| #[trigger] occurrences(sel, w) > 0 ==> count_of(t, w) + occurrences(sel, w) < i32::MAX
}

/// Whether counting the words `sel` into the table `t` leaves every count below `i32::MAX`.
pub fn room_for_words(t: &FreqTable, sel: &Vec<String>) -> (b: bool)
    ensures
        b == room_for(t@, sel.deep_view()),
{
    let mut i: usize = 0;
    while i < sel.len()
        invariant
            i <= sel.len(),
            forall|k: int| 0 <= k < i ==> count_of(t@, #[trigger] sel.deep_view()[k]) + occurrences(sel.deep_view(), sel.deep_view()[k]) < i32::MAX,
        decreases sel.len() - i,
    {
        let n = occurrences_of(sel, &sel[i]);
        let c = t.count(&sel[i]);
        if (c as i128) + (n as i128) >= i32::MAX as i128 {
            proof {
                lemma_occurrences_at(sel.deep_view(), i as int);
            }
            return false;
        }
        i = i + 1;
    }
    proof {
        assert forall|w: Seq<char>| #[trigger] occurrences(sel.deep_view(), w) > 0 implies count_of(t@, w) + occurrences(sel.deep_view(), w) < i32::MAX by {
            lemma_occurrences_contains(sel.deep_view(), w);
            let k = choose|k: int| 0 <= k < sel.deep_view().len() && sel.deep_view()[k] == w;
            assert(count_of(t@, sel.deep_view()[k]) + occurrences(sel.deep_view(), sel.deep_view()[k]) < i32::MAX);
        }
    }
    true
}

// ---------------------------------------------------------------------------------------
// The executable table.

/// The table that a list of `(word, count)` pairs stands for.
pub open spec fn pairs_view(v: Seq<(String, i32)>) -> Table {
    v.map_values(|e: (String, i32)| (e.0@, e.1 as int))
}

/// A word-frequency table: each word once, with its count, in the order words came in.
pub struct FreqTable {
    entries: Vec<(String, i32)>,
}

impl View for FreqTable {
    type V = Table;

    closed spec fn view(&self) -> Table {
        pairs_view(self.entries@)
    }
}

impl FreqTable {
    #[verifier::type_invariant]
    closed spec fn words_distinct(&self) -> bool {
        keys_distinct(self@)
    }

    /// The empty table.
    pub fn new() -> (t: FreqTable)
        ensures
            t@ == Seq::<(Seq<char>, int)>::empty(),
    {
        let t = FreqTable { entries: Vec::new() };
        assert(t@ =~= Seq::<(Seq<char>, int)>::empty());
        t
    }

    /// The number of distinct words.
    pub fn len(&self) -> (n: usize)
        ensures
            n == self@.len(),
    {
        self.entries.len()
    }

    /// The entry at position `i`.
    pub fn entry(&self, i: usize) -> (e: (String, i32))
        requires
            i < self@.len(),
        ensures
            e.0@ == self@[i as int].0,
            e.1 == self@[i as int].1,
    {
        let e = &self.entries[i];
        (e.0.clone(), e.1)
    }

    /// The entries as `(word, count)` pairs, in order.
    pub fn entries(&self) -> (v: Vec<(String, i32)>)
        ensures
            pairs_view(v@) == self@,
    {
        let mut v: Vec<(String, i32)> = Vec::new();
        let mut i: usize = 0;
        while i < self.entries.len()
            invariant
                i <= self.entries.len(),
                pairs_view(v@) == pairs_view(self.entries@).take(i as int),
            decreases self.entries.len() - i,
        {
            let e = &self.entries[i];
            let w = e.0.clone();
            let c = e.1;
            let ghost old_v = v@;
            v.push((w, c));
            assert(pairs_view(v@) =~= pairs_view(old_v).push((self.entries@[i as int].0@, c as int)));
            assert(pairs_view(v@) =~= pairs_view(self.entries@).take(i + 1));
            i = i + 1;
        }
        assert(pairs_view(self.entries@).take(i as int) =~= pairs_view(self.entries@));
        v
    }

    /// The position of the last entry for `w`, if any.
    fn find_last(&self, w: &String) -> (r: Option<usize>)
        ensures
            match r {
                Some(i) => i < self@.len() && self@[i as int].0 == w@ && forall|j: int|
                    i < j < self@.len() ==> #[trigger] self@[j].0 != w@,
                None => !has_key(self@, w@),
            },
    {
        let mut i = self.entries.len();
        while i > 0
            invariant
                i <= self.entries.len(),
                forall|j: int| i <= j < self@.len() ==> #[trigger] self@[j].0 != w@,
            decreases i,
        {
            i = i - 1;
            if self.entries[i].0 == *w {
                return Some(i);
            }
        }
        None
    }

    /// The count of `w`; 0 when `w` is absent.
    pub fn count(&self, w: &String) -> (c: i32)
        ensures
            c == count_of(self@, w@),
    {
        match self.find_last(w) {
            Some(i) => {
                proof {
                    lemma_count_of_last(self@, i as int);
                }
                self.entries[i].1
            },
            None => {
                proof {
                    lemma_count_of_absent(self@, w@);
                }
                0
            },
        }
    }

    /// Adds `n` to the count of `w`, appending `w` when it is absent.
    pub fn add(&mut self, w: &String, n: i32)
        requires
            i32::MIN <= count_of(old(self)@, w@) + n <= i32::MAX,
        ensures
            final(self)@ == add_count(old(self)@, w@, n as int),
    {
        proof {
            use_type_invariant(&*self);
            lemma_add_count_distinct(self@, w@, n as int);
        }
        match self.find_last(w) {
            Some(i) => {
                proof {
                    lemma_count_of_last(self@, i as int);
                    lemma_add_count_at(self@, i as int, n as int);
                }
                let c = self.entries[i].1;
                let mut v: Vec<(String, i32)> = Vec::new();
                std::mem::swap(&mut v, &mut self.entries);
                let ghost before = v@;
                v.set(i, (w.clone(), c + n));
                assert(pairs_view(v@) =~= pairs_view(before).update(i as int, (w@, c + n)));
                self.entries = v;
            },
            None => {
                let mut v: Vec<(String, i32)> = Vec::new();
                std::mem::swap(&mut v, &mut self.entries);
                let ghost before = v@;
                v.push((w.clone(), n));
                assert(pairs_view(v@) =~= pairs_view(before).push((w@, n as int)));
                self.entries = v;
            },
        }
    }

    /// Counts one more occurrence of `w`.
    pub fn increment(&mut self, w: &String)
        requires
            count_of(old(self)@, w@) < i32::MAX,
        ensures
            final(self)@ == add_count(old(self)@, w@, 1),
    {
        proof {
            lemma_pairs_fit(self.entries@);
            lemma_count_of_range(self@, w@);
        }
        self.add(w, 1);
    }

    /// The frequency table of a word list.
    pub fn from_words(words: &Vec<String>) -> (t: FreqTable)
        requires
            countable(words.deep_view()),
        ensures
            t@ == tally(words.deep_view()),
    {
        let mut t = FreqTable::new();
        let mut i: usize = 0;
        while i < words.len()
            invariant
                i <= words.len(),
                countable(words.deep_view()),
                t@ == tally(words.deep_view().take(i as int)),
            decreases words.len() - i,
        {
            let ghost ws = words.deep_view().take(i + 1);
            proof {
                assert(ws.drop_last() =~= words.deep_view().take(i as int));
                assert(ws.last() == words[i as int]@);
                lemma_tally(words.deep_view().take(i as int));
                lemma_occurrences_prefix(words.deep_view(), i + 1, words[i as int]@);
                assert(occurrences(words.deep_view(), words[i as int]@) < i32::MAX);
            }
            t.increment(&words[i]);
            i = i + 1;
        }
        assert(words.deep_view().take(i as int) =~= words.deep_view());
        t
    }

    /// The table with the counts of `other` added: each word's count is the sum of its counts
    /// in the two tables; words of `other` that `self` lacks are appended in their order.
    pub fn merged(&self, other: &FreqTable) -> (t: FreqTable)
        requires
            forall|w: Seq<char>| i32::MIN <= #[trigger] count_of(self@, w) + count_of(other@, w) <= i32::MAX,
        ensures
            t@ == merge_tables(self@, other@),
    {
        proof {
            use_type_invariant(other);
        }
        let mut t = self.duplicate();
        let mut i: usize = 0;
        while i < other.entries.len()
            invariant
                i <= other@.len(),
                other@.len() == other.entries@.len(),
                keys_distinct(other@),
                forall|w: Seq<char>| i32::MIN <= #[trigger] count_of(self@, w) + count_of(other@, w) <= i32::MAX,
                t@ == merge_tables(self@, other@.take(i as int)),
            decreases other.entries.len() - i,
        {
            let e = &other.entries[i];
            let ghost prefix = other@.take(i as int);
            let ghost w = other@[i as int].0;
            proof {
                assert(keys_distinct(prefix)) by {
                    assert forall|a: int, b: int| 0 <= a < prefix.len() && 0 <= b < prefix.len() && a != b implies #[trigger] prefix[a].0 != #[trigger] prefix[b].0 by {
                        assert(prefix[a] == other@[a] && prefix[b] == other@[b]);
                    }
                }
                assert(!has_key(prefix, w)) by {
                    if has_key(prefix, w) {
                        let j = choose|j: int| 0 <= j < prefix.len() && #[trigger] prefix[j].0 == w;
                        assert(other@[j].0 == w);
                    }
                }
                lemma_count_of_absent(prefix, w);
                lemma_merge_count(self@, prefix, w);
                lemma_count_of_at(other@, i as int);
                assert(other@.take(i + 1).drop_last() =~= prefix);
                assert(other@.take(i + 1).last() == other@[i as int]);
            }
            t.add(&e.0, e.1);
            i = i + 1;
        }
        assert(other@.take(i as int) =~= other@);
        t
    }

    /// Whether adding the counts of `other` to those of this table keeps every count within
    /// `i32`.
    pub fn can_merge(&self, other: &FreqTable) -> (ok: bool)
        ensures
            ok == forall|w: Seq<char>| i32::MIN <= #[trigger] count_of(self@, w) + count_of(other@, w) <= i32::MAX,
    {
        proof {
            use_type_invariant(other);
            lemma_pairs_fit(self.entries@);
            lemma_pairs_fit(other.entries@);
        }
        let mut i: usize = 0;
        while i < other.entries.len()
            invariant
                i <= other@.len(),
                other@.len() == other.entries@.len(),
                keys_distinct(other@),
                counts_fit(self@),
                counts_fit(other@),
                forall|j: int| 0 <= j < i ==> i32::MIN <= count_of(self@, #[trigger] other@[j].0) + other@[j].1 <= i32::MAX,
            decreases other.entries.len() - i,
        {
            let c = self.count(&other.entries[i].0);
            let d = other.entries[i].1;
            let s: i64 = c as i64 + d as i64;
            if s < i32::MIN as i64 || s > i32::MAX as i64 {
                proof {
                    lemma_count_of_at(other@, i as int);
                }
                return false;
            }
            i = i + 1;
        }
        proof {
            assert forall|w: Seq<char>| i32::MIN <= #[trigger] count_of(self@, w) + count_of(other@, w) <= i32::MAX by {
                if has_key(other@, w) {
                    let j = choose|j: int| 0 <= j < other@.len() && #[trigger] other@[j].0 == w;
                    lemma_count_of_at(other@, j);
                } else {
                    lemma_count_of_absent(other@, w);
                    lemma_count_of_range(self@, w);
                }
            }
        }
        true
    }

    /// A copy of the table.
    pub fn duplicate(&self) -> (t: FreqTable)
        ensures
            t@ == self@,
    {
        proof {
            use_type_invariant(self);
        }
        FreqTable { entries: self.entries() }
    }
}

/// Each entry's count raised by the word's occurrences in `ws`; the words stay in place.
pub open spec fn add_to_counts(t: Table, ws: Seq<Seq<char>>) -> Table {
    t.map_values(|e: (Seq<char>, int)| (e.0, e.1 + occurrences(ws, e.0)))
}

/// Each entry's count doubled; the words stay in place.
pub open spec fn doubled(t: Table) -> Table {
    t.map_values(|e: (Seq<char>, int)| (e.0, 2 * e.1))
}

/// Counting words that all have entries already raises their counts in place.
pub proof fn lemma_count_into_present(t: Table, ws: Seq<Seq<char>>)
    requires
        keys_distinct(t),
        forall|i: int| 0 <= i < ws.len() ==> has_key(t, #[trigger] ws[i]),
    ensures
        count_into(t, ws) == add_to_counts(t, ws),
    decreases ws.len(),
{
    if ws.len() == 0 {
        assert(add_to_counts(t, ws) =~= t);
    } else {
        let p = ws.drop_last();
        let x = ws.last();
        assert forall|i: int| 0 <= i < p.len() implies has_key(t, #[trigger] p[i]) by {
            assert(p[i] == ws[i]);
        }
        lemma_count_into_present(t, p);
        let tp = add_to_counts(t, p);
        assert(has_key(t, x)) by {
            assert(ws[ws.len() - 1] == x);
        }
        let i = choose|i: int| 0 <= i < t.len() && #[trigger] t[i].0 == x;
        assert(tp[i].0 == x);
        assert forall|j: int| i < j < tp.len() implies #[trigger] tp[j].0 != tp[i].0 by {
            assert(tp[j].0 == t[j].0);
        }
        lemma_add_count_at(tp, i, 1);
        assert forall|j: int| 0 <= j < t.len() implies #[trigger] add_to_counts(t, ws)[j] == tp.update(
            i,
            (tp[i].0, tp[i].1 + 1),
        )[j] by {
            if t[j].0 == x {
                assert(j == i);
            }
        }
        assert(add_to_counts(t, ws) =~= tp.update(i, (tp[i].0, tp[i].1 + 1)));
    }
}

/// Counting a word list again into its own table doubles every count, each word in place: a
/// second run over the same words finds each count twice as high.
pub proof fn lemma_count_again(ws: Seq<Seq<char>>)
    ensures
        count_into(tally(ws), ws) == doubled(tally(ws)),
{
    let t = tally(ws);
    lemma_tally(ws);
    assert forall|i: int| 0 <= i < ws.len() implies has_key(t, #[trigger] ws[i]) by {
        assert(ws.contains(ws[i]));
    }
    lemma_count_into_present(t, ws);
    assert forall|j: int| 0 <= j < t.len() implies #[trigger] add_to_counts(t, ws)[j] == doubled(t)[j] by {
        lemma_count_of_at(t, j);
    }
    assert(add_to_counts(t, ws) =~= doubled(t));
}

/// A table of counts that fit in `i32`.
pub open spec fn counts_fit(t: Table) -> bool {
    forall|i: int| 0 <= i < t.len() ==> i32::MIN <= #[trigger] t[i].1 <= i32::MAX
}

/// The counts of `i32` pairs fit in `i32`.
proof fn lemma_pairs_fit(v: Seq<(String, i32)>)
    ensures
        counts_fit(pairs_view(v)),
{
    assert forall|i: int| 0 <= i < pairs_view(v).len() implies i32::MIN <= #[trigger] pairs_view(v)[i].1 <= i32::MAX by {
        assert(pairs_view(v)[i].1 == v[i].1 as int);
    }
}

/// The count of the last entry for a word is its count.
proof fn lemma_count_of_last(t: Table, i: int)
    requires
        0 <= i < t.len(),
        forall|j: int| i < j < t.len() ==> #[trigger] t[j].0 != t[i].0,
    ensures
        count_of(t, t[i].0) == t[i].1,
    decreases t.len(),
{
    if i < t.len() - 1 {
        assert(t.last() == t[t.len() - 1]);
        assert(t.drop_last()[i] == t[i]);
        lemma_count_of_last(t.drop_last(), i);
    }
}

/// Adding to a word present at its last position `i` updates position `i`.
proof fn lemma_add_count_at(t: Table, i: int, n: int)
    requires
        0 <= i < t.len(),
        forall|j: int| i < j < t.len() ==> #[trigger] t[j].0 != t[i].0,
    ensures
        add_count(t, t[i].0, n) == t.update(i, (t[i].0, t[i].1 + n)),
{
    assert(has_key(t, t[i].0));
    lemma_bump_last_at(t, i, n);
}

proof fn lemma_bump_last_at(t: Table, i: int, n: int)
    requires
        0 <= i < t.len(),
        forall|j: int| i < j < t.len() ==> #[trigger] t[j].0 != t[i].0,
    ensures
        bump_last(t, t[i].0, n) == t.update(i, (t[i].0, t[i].1 + n)),
    decreases t.len(),
{
    if i == t.len() - 1 {
        assert(t.drop_last().push((t[i].0, t[i].1 + n)) =~= t.update(i, (t[i].0, t[i].1 + n)));
    } else {
        assert(t.last() == t[t.len() - 1]);
        assert(t.drop_last()[i] == t[i]);
        lemma_bump_last_at(t.drop_last(), i, n);
        assert(t.drop_last().update(i, (t[i].0, t[i].1 + n)).push(t.last()) =~= t.update(
            i,
            (t[i].0, t[i].1 + n),
        ));
    }
}

/// A count of an `i32` table is an `i32`.
proof fn lemma_count_of_range(t: Table, w: Seq<char>)
    requires
        counts_fit(t),
    ensures
        i32::MIN <= count_of(t, w) <= i32::MAX,
    decreases t.len(),
{
    if t.len() > 0 {
        assert(t.last() == t[t.len() - 1]);
        assert(counts_fit(t.drop_last())) by {
            assert forall|i: int| 0 <= i < t.drop_last().len() implies i32::MIN <= #[trigger] t.drop_last()[i].1 <= i32::MAX by {
                assert(t.drop_last()[i] == t[i]);
            }
        }
        lemma_count_of_range(t.drop_last(), w);
    }
}

} // verus!
