//! Ordering frequency entries: by descending count, and by descending count then word.
use vstd::prelude::*;
use crate::freq::{Table, doubled, pairs_view};
use crate::text::chars_of;

verus! {

/// `a` is lexicographically smaller than `b`, character by character.
pub open spec fn chars_less(a: Seq<char>, b: Seq<char>) -> bool
    decreases a.len(),
{
    if a.len() == 0 {
        b.len() > 0
    } else if b.len() == 0 {
        false
    } else if a[0] < b[0] {
        true
    } else if a[0] == b[0] {
        chars_less(a.drop_first(), b.drop_first())
    } else {
        false
    }
}

/// Entry `a` goes before entry `b`: its count is larger, or, when `by_word` holds, the counts
/// are equal and its word is larger.
pub open spec fn goes_before(a: (Seq<char>, int), b: (Seq<char>, int), by_word: bool) -> bool {
    a.1 > b.1 || (by_word && a.1 == b.1 && chars_less(b.0, a.0))
}

/// `r` with `x` inserted after every entry that `x` does not go before.
pub open spec fn insert_sorted(r: Table, x: (Seq<char>, int), by_word: bool) -> Table
    decreases r.len(),
{
    if r.len() == 0 {
        seq![x]
    } else if goes_before(x, r.last(), by_word) {
        insert_sorted(r.drop_last(), x, by_word).push(r.last())
    } else {
        r.push(x)
    }
}

/// The entries of `s` in the stable sorted order: each entry is inserted in turn.
pub open spec fn sort_entries(s: Table, by_word: bool) -> Table
    decreases s.len(),
{
    if s.len() == 0 {
        s
    } else {
        insert_sorted(sort_entries(s.drop_last(), by_word), s.last(), by_word)
    }
}

/// No entry goes before an entry that precedes it.
pub open spec fn is_sorted(r: Table, by_word: bool) -> bool {
    forall|i: int, j: int| 0 <= i < j < r.len() ==> !goes_before(#[trigger] r[j], #[trigger] r[i], by_word)
}

/// The entries of `s` whose count is `c`, in order.
pub open spec fn with_count(s: Table, c: int) -> Table
    decreases s.len(),
{
    if s.len() == 0 {
        s
    } else if s.last().1 == c {
        with_count(s.drop_last(), c).push(s.last())
    } else {
        with_count(s.drop_last(), c)
    }
}

// ---------------------------------------------------------------------------------------
// The order of words.

pub proof fn lemma_chars_less_irreflexive(a: Seq<char>)
    ensures
        !chars_less(a, a),
    decreases a.len(),
{
    if a.len() > 0 {
        lemma_chars_less_irreflexive(a.drop_first());
    }
}

pub proof fn lemma_chars_less_asymmetric(a: Seq<char>, b: Seq<char>)
    ensures
        !(chars_less(a, b) && chars_less(b, a)),
    decreases a.len(),
{
    if a.len() > 0 && b.len() > 0 && a[0] == b[0] {
        lemma_chars_less_asymmetric(a.drop_first(), b.drop_first());
    }
}

pub proof fn lemma_chars_less_transitive(a: Seq<char>, b: Seq<char>, c: Seq<char>)
    requires
        chars_less(a, b),
        chars_less(b, c),
    ensures
        chars_less(a, c),
    decreases a.len(),
{
    if a.len() > 0 && b.len() > 0 && c.len() > 0 && a[0] == b[0] && b[0] == c[0] {
        lemma_chars_less_transitive(a.drop_first(), b.drop_first(), c.drop_first());
    }
}

pub proof fn lemma_chars_less_total(a: Seq<char>, b: Seq<char>)
    ensures
        a == b || chars_less(a, b) || chars_less(b, a),
    decreases a.len(),
{
    if a.len() > 0 && b.len() > 0 {
        if a[0] == b[0] {
            lemma_chars_less_total(a.drop_first(), b.drop_first());
            if a.drop_first() == b.drop_first() {
                assert(a =~= seq![a[0]] + a.drop_first());
                assert(b =~= seq![b[0]] + b.drop_first());
            }
        }
    } else if a.len() == 0 && b.len() == 0 {
        assert(a =~= b);
    }
}

/// Not going before is transitive.
pub proof fn lemma_not_before_transitive(a: (Seq<char>, int), b: (Seq<char>, int), c: (Seq<char>, int), by_word: bool)
    requires
        !goes_before(a, b, by_word),
        !goes_before(b, c, by_word),
    ensures
        !goes_before(a, c, by_word),
{
    if by_word && a.1 == b.1 && b.1 == c.1 && chars_less(c.0, a.0) {
        lemma_chars_less_total(a.0, b.0);
        lemma_chars_less_total(b.0, c.0);
        if a.0 == b.0 {
        } else if chars_less(b.0, a.0) {
        } else if b.0 == c.0 {
        } else {
            lemma_chars_less_transitive(c.0, a.0, b.0);
        }
    }
}

/// Going before is asymmetric.
pub proof fn lemma_before_asymmetric(a: (Seq<char>, int), b: (Seq<char>, int), by_word: bool)
    ensures
        !(goes_before(a, b, by_word) && goes_before(b, a, by_word)),
{
    lemma_chars_less_asymmetric(a.0, b.0);
}

// ---------------------------------------------------------------------------------------
// The laws of sorting.

/// Inserting adds exactly the new entry.
pub proof fn lemma_insert_sorted_multiset(r: Table, x: (Seq<char>, int), by_word: bool)
    ensures
        insert_sorted(r, x, by_word).to_multiset() == r.to_multiset().insert(x),
        insert_sorted(r, x, by_word).len() == r.len() + 1,
    decreases r.len(),
{
    r.to_multiset_ensures();
    if r.len() == 0 {
        assert(seq![x] =~= r.push(x));
    } else if goes_before(x, r.last(), by_word) {
        let p = r.drop_last();
        lemma_insert_sorted_multiset(p, x, by_word);
        p.to_multiset_ensures();
        insert_sorted(p, x, by_word).to_multiset_ensures();
        assert(p.push(r.last()) =~= r);
    }
}

/// Inserting into a sorted list keeps it sorted.
pub proof fn lemma_insert_sorted_sorted(r: Table, x: (Seq<char>, int), by_word: bool)
    requires
        is_sorted(r, by_word),
    ensures
        is_sorted(insert_sorted(r, x, by_word), by_word),
    decreases r.len(),
{
    let res = insert_sorted(r, x, by_word);
    if r.len() > 0 {
        let last = r.last();
        assert(last == r[r.len() - 1]);
        if goes_before(x, last, by_word) {
            let p = r.drop_last();
            assert(is_sorted(p, by_word)) by {
                assert forall|i: int, j: int| 0 <= i < j < p.len() implies !goes_before(#[trigger] p[j], #[trigger] p[i], by_word) by {
                    assert(p[i] == r[i] && p[j] == r[j]);
                }
            }
            lemma_insert_sorted_sorted(p, x, by_word);
            lemma_insert_sorted_multiset(p, x, by_word);
            let q = insert_sorted(p, x, by_word);
            assert forall|i: int, j: int| 0 <= i < j < res.len() implies !goes_before(#[trigger] res[j], #[trigger] res[i], by_word) by {
                if j < q.len() {
                    assert(res[i] == q[i] && res[j] == q[j]);
                } else {
                    assert(res[j] == last);
                    assert(res[i] == q[i]);
                    // q[i] is an entry of p or x.
                    p.to_multiset_ensures();
                    q.to_multiset_ensures();
                    assert(q.contains(q[i]));
                    assert(q.to_multiset().count(q[i]) > 0);
                    if q[i] == x {
                        lemma_before_asymmetric(x, last, by_word);
                    } else {
                        assert(p.to_multiset().count(q[i]) > 0);
                        assert(p.contains(q[i]));
                        let k = choose|k: int| 0 <= k < p.len() && p[k] == q[i];
                        assert(p[k] == r[k]);
                        assert(!goes_before(r[r.len() - 1], r[k], by_word));
                    }
                }
            }
        } else {
            assert forall|i: int, j: int| 0 <= i < j < res.len() implies !goes_before(#[trigger] res[j], #[trigger] res[i], by_word) by {
                if j < r.len() {
                    assert(res[i] == r[i] && res[j] == r[j]);
                } else {
                    assert(res[j] == x);
                    assert(res[i] == r[i]);
                    if i < r.len() - 1 {
                        assert(!goes_before(r[r.len() - 1], r[i], by_word));
                        lemma_not_before_transitive(x, last, r[i], by_word);
                    }
                }
            }
        }
    }
}

/// Inserting an entry keeps the entries of each other count and appends the new entry to
/// those of its count, when counts alone order the entries.
pub proof fn lemma_insert_sorted_stable(r: Table, x: (Seq<char>, int), c: int)
    ensures
        with_count(insert_sorted(r, x, false), c) == if x.1 == c {
            with_count(r, c).push(x)
        } else {
            with_count(r, c)
        },
    decreases r.len(),
{
    let res = insert_sorted(r, x, false);
    if r.len() == 0 {
        assert(res.drop_last() =~= r);
    } else if goes_before(x, r.last(), false) {
        let p = r.drop_last();
        lemma_insert_sorted_stable(p, x, c);
        assert(res.drop_last() =~= insert_sorted(p, x, false));
    } else {
        assert(res.drop_last() =~= r);
    }
}

/// Sorting gives a sorted list with exactly the entries of the input; when counts alone
/// order the entries the sort is stable: the entries of each count keep their order.
pub proof fn lemma_sort_entries(s: Table, by_word: bool)
    ensures
        is_sorted(sort_entries(s, by_word), by_word),
        sort_entries(s, by_word).to_multiset() == s.to_multiset(),
        sort_entries(s, by_word).len() == s.len(),
        !by_word ==> forall|c: int| #[trigger] with_count(sort_entries(s, by_word), c) == with_count(s, c),
    decreases s.len(),
{
    s.to_multiset_ensures();
    if s.len() > 0 {
        let p = s.drop_last();
        lemma_sort_entries(p, by_word);
        lemma_insert_sorted_sorted(sort_entries(p, by_word), s.last(), by_word);
        lemma_insert_sorted_multiset(sort_entries(p, by_word), s.last(), by_word);
        p.to_multiset_ensures();
        assert(p.push(s.last()) =~= s);
        if !by_word {
            assert forall|c: int| #[trigger] with_count(sort_entries(s, by_word), c) == with_count(s, c) by {
                lemma_insert_sorted_stable(sort_entries(p, by_word), s.last(), c);
            }
        }
    }
}

/// Doubling every count of a table and appending a doubled entry is appending and doubling.
proof fn lemma_doubled_push(r: Table, x: (Seq<char>, int))
    ensures
        doubled(r.push(x)) == doubled(r).push((x.0, 2 * x.1)),
        doubled(r).len() == r.len(),
{
    assert(doubled(r.push(x)) =~= doubled(r).push((x.0, 2 * x.1)));
}

/// Inserting by count commutes with doubling every count: doubling keeps the order of counts.
proof fn lemma_insert_sorted_doubled(r: Table, x: (Seq<char>, int))
    ensures
        insert_sorted(doubled(r), (x.0, 2 * x.1), false) == doubled(insert_sorted(r, x, false)),
    decreases r.len(),
{
    let dx = (x.0, 2 * x.1);
    if r.len() == 0 {
        assert(doubled(r) =~= r);
        assert(doubled(seq![x]) =~= seq![dx]);
    } else {
        let p = r.drop_last();
        assert(p.push(r.last()) =~= r);
        lemma_doubled_push(p, r.last());
        assert(doubled(r).drop_last() =~= doubled(p));
        assert(doubled(r).last() == (r.last().0, 2 * r.last().1));
        if goes_before(x, r.last(), false) {
            lemma_insert_sorted_doubled(p, x);
            lemma_doubled_push(insert_sorted(p, x, false), r.last());
        } else {
            lemma_doubled_push(r, x);
        }
    }
}

/// Sorting by count commutes with doubling every count: the doubled table sorts into the
/// same order of words, each with its count doubled.
pub proof fn lemma_sort_doubled(s: Table)
    ensures
        sort_entries(doubled(s), false) == doubled(sort_entries(s, false)),
    decreases s.len(),
{
    if s.len() == 0 {
        assert(doubled(s) =~= s);
    } else {
        let p = s.drop_last();
        assert(p.push(s.last()) =~= s);
        lemma_doubled_push(p, s.last());
        assert(doubled(s).drop_last() =~= doubled(p));
        lemma_sort_doubled(p);
        lemma_insert_sorted_doubled(sort_entries(p, false), s.last());
    }
}

/// Ordering by count and then by word leaves no two different entries unordered.
pub proof fn lemma_before_total(a: (Seq<char>, int), b: (Seq<char>, int))
    ensures
        a != b ==> goes_before(a, b, true) || goes_before(b, a, true),
{
    if a.1 == b.1 {
        lemma_chars_less_total(a.0, b.0);
    }
}

/// Two tables sorted by count and then by word that hold the same entries are equal.
pub proof fn lemma_sorted_unique(x: Table, y: Table)
    requires
        is_sorted(x, true),
        is_sorted(y, true),
        x.to_multiset() == y.to_multiset(),
    ensures
        x == y,
    decreases x.len(),
{
    broadcast use vstd::multiset::group_multiset_axioms;

    x.to_multiset_ensures();
    y.to_multiset_ensures();
    if x.len() == 0 {
        assert(y.len() == 0);
        assert(x =~= y);
    } else {
        let n = x.len() - 1;
        let l = x[n];
        let m = y[n];
        assert(y.len() == x.len());
        assert(x.contains(l));
        assert(y.contains(m));
        assert(x.to_multiset().count(l) > 0);
        assert(y.to_multiset().count(m) > 0);
        assert(y.to_multiset().count(l) > 0);
        assert(x.to_multiset().count(m) > 0);
        assert(y.contains(l));
        assert(x.contains(m));
        if l != m {
            let k = choose|k: int| 0 <= k < y.len() && y[k] == l;
            let j = choose|j: int| 0 <= j < x.len() && x[j] == m;
            assert(k < n);
            assert(j < n);
            assert(!goes_before(m, l, true));
            assert(!goes_before(l, m, true));
            lemma_before_total(l, m);
        }
        let xd = x.drop_last();
        let yd = y.drop_last();
        assert(xd.push(l) =~= x);
        assert(yd.push(l) =~= y);
        vstd::seq_lib::to_multiset_build(xd, l);
        vstd::seq_lib::to_multiset_build(yd, l);
        assert(xd.to_multiset() =~= yd.to_multiset()) by {
            assert(x.to_multiset() == xd.to_multiset().insert(l));
            assert(y.to_multiset() == yd.to_multiset().insert(l));
            assert forall|v: (Seq<char>, int)| #[trigger] xd.to_multiset().count(v) == yd.to_multiset().count(v) by {
                assert(x.to_multiset().count(v) == y.to_multiset().count(v));
                if v == l {
                    assert(xd.to_multiset().insert(l).count(v) == xd.to_multiset().count(v) + 1);
                    assert(yd.to_multiset().insert(l).count(v) == yd.to_multiset().count(v) + 1);
                } else {
                    assert(xd.to_multiset().insert(l).count(v) == xd.to_multiset().count(v));
                    assert(yd.to_multiset().insert(l).count(v) == yd.to_multiset().count(v));
                }
            }
        }
        assert(is_sorted(xd, true)) by {
            assert forall|i: int, j: int| 0 <= i < j < xd.len() implies !goes_before(#[trigger] xd[j], #[trigger] xd[i], true) by {
                assert(xd[i] == x[i] && xd[j] == x[j]);
            }
        }
        assert(is_sorted(yd, true)) by {
            assert forall|i: int, j: int| 0 <= i < j < yd.len() implies !goes_before(#[trigger] yd[j], #[trigger] yd[i], true) by {
                assert(yd[i] == y[i] && yd[j] == y[j]);
            }
        }
        lemma_sorted_unique(xd, yd);
    }
}

/// Ordering by count and then by word does not depend on the order the entries come in:
/// tables with the same entries sort to the same list.
pub proof fn lemma_sort_by_word_order_free(a: Table, b: Table)
    requires
        a.to_multiset() == b.to_multiset(),
    ensures
        sort_entries(a, true) == sort_entries(b, true),
{
    lemma_sort_entries(a, true);
    lemma_sort_entries(b, true);
    lemma_sorted_unique(sort_entries(a, true), sort_entries(b, true));
}

// ---------------------------------------------------------------------------------------
// Executable sorting.

/// Whether `a` is lexicographically smaller than `b`.
pub fn word_less(a: &String, b: &String) -> (r: bool)
    ensures
        r == chars_less(a@, b@),
{
    let ca = chars_of(a.as_str());
    let cb = chars_of(b.as_str());
    let mut k: usize = 0;
    assert(a@.skip(0) =~= a@);
    assert(b@.skip(0) =~= b@);
    while k < ca.len() && k < cb.len()
        invariant
            k <= ca@.len(),
            k <= cb@.len(),
            ca@ == a@,
            cb@ == b@,
            chars_less(a@, b@) == chars_less(a@.skip(k as int), b@.skip(k as int)),
        decreases ca.len() - k,
    {
        let x = ca[k];
        let y = cb[k];
        proof {
            assert(a@.skip(k as int)[0] == x);
            assert(b@.skip(k as int)[0] == y);
            assert(a@.skip(k as int).drop_first() =~= a@.skip(k + 1));
            assert(b@.skip(k as int).drop_first() =~= b@.skip(k + 1));
        }
        if x < y {
            return true;
        }
        if x != y {
            return false;
        }
        k = k + 1;
    }
    k < cb.len()
}

/// Whether entry `a` goes before entry `b`.
pub fn before(a: &(String, i32), b: &(String, i32), by_word: bool) -> (r: bool)
    ensures
        r == goes_before((a.0@, a.1 as int), (b.0@, b.1 as int), by_word),
{
    if a.1 > b.1 {
        true
    } else if by_word && a.1 == b.1 {
        word_less(&b.0, &a.0)
    } else {
        false
    }
}

/// Inserting at the position found by the scan is what `insert_sorted` does.
proof fn lemma_insert_at(r: Table, x: (Seq<char>, int), pos: int, by_word: bool)
    requires
        0 <= pos <= r.len(),
        forall|j: int| pos <= j < r.len() ==> goes_before(x, #[trigger] r[j], by_word),
        pos == 0 || !goes_before(x, r[pos - 1], by_word),
    ensures
        insert_sorted(r, x, by_word) == r.insert(pos, x),
    decreases r.len(),
{
    if r.len() == 0 {
        assert(r.insert(pos, x) =~= seq![x]);
    } else if pos == r.len() {
        assert(r.last() == r[r.len() - 1]);
        assert(r.insert(pos, x) =~= r.push(x));
    } else {
        assert(r.last() == r[r.len() - 1]);
        let p = r.drop_last();
        assert forall|j: int| pos <= j < p.len() implies goes_before(x, #[trigger] p[j], by_word) by {
            assert(p[j] == r[j]);
        }
        if pos > 0 {
            assert(p[pos - 1] == r[pos - 1]);
        }
        lemma_insert_at(p, x, pos, by_word);
        assert(p.insert(pos, x).push(r.last()) =~= r.insert(pos, x));
    }
}

/// The entries in the stable sorted order: by descending count, and when `by_word` holds,
/// entries of equal count by descending word.
pub fn sort_pairs(v: &Vec<(String, i32)>, by_word: bool) -> (r: Vec<(String, i32)>)
    ensures
        pairs_view(r@) == sort_entries(pairs_view(v@), by_word),
{
    let mut r: Vec<(String, i32)> = Vec::new();
    let mut i: usize = 0;
    while i < v.len()
        invariant
            i <= v.len(),
            pairs_view(r@) == sort_entries(pairs_view(v@).take(i as int), by_word),
        decreases v.len() - i,
    {
        let x = (v[i].0.clone(), v[i].1);
        let ghost xv = (x.0@, x.1 as int);
        let mut pos = r.len();
        while pos > 0
            invariant
                pos <= r.len(),
                xv == (x.0@, x.1 as int),
                forall|j: int| pos <= j < r.len() ==> goes_before(xv, #[trigger] pairs_view(r@)[j], by_word),
            ensures
                pos <= r.len(),
                forall|j: int| pos <= j < r.len() ==> goes_before(xv, #[trigger] pairs_view(r@)[j], by_word),
                pos == 0 || !goes_before(xv, pairs_view(r@)[pos - 1], by_word),
            decreases pos,
        {
            assert(pairs_view(r@)[pos - 1] == (r@[pos - 1].0@, r@[pos - 1].1 as int));
            if !before(&x, &r[pos - 1], by_word) {
                break;
            }
            pos = pos - 1;
        }
        proof {
            assert(pairs_view(v@).take(i + 1).drop_last() =~= pairs_view(v@).take(i as int));
            assert(pairs_view(v@).take(i + 1).last() == xv);
            if pos > 0 {
                assert(pairs_view(r@)[pos - 1] == (r@[pos - 1].0@, r@[pos - 1].1 as int));
            }
            lemma_insert_at(pairs_view(r@), xv, pos as int, by_word);
        }
        let ghost before_r = r@;
        r.insert(pos, x);
        assert(pairs_view(r@) =~= pairs_view(before_r).insert(pos as int, xv));
        i = i + 1;
    }
    assert(pairs_view(v@).take(i as int) =~= pairs_view(v@));
    r
}

} // verus!
