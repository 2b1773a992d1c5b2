//! Decimal numbers and the text reports of word frequencies.
use vstd::prelude::*;
use vstd::string::{StringExecFns, StrSliceExecFns};
use crate::freq::{Table, pairs_view};
use crate::text::push_char;

verus! {

/// The character of a decimal digit.
pub open spec fn digit_char(d: int) -> char {
    if d == 0 {
        '0'
    } else if d == 1 {
        '1'
    } else if d == 2 {
        '2'
    } else if d == 3 {
        '3'
    } else if d == 4 {
        '4'
    } else if d == 5 {
        '5'
    } else if d == 6 {
        '6'
    } else if d == 7 {
        '7'
    } else if d == 8 {
        '8'
    } else {
        '9'
    }
}

/// The decimal digits of a natural number, most significant first, without leading zeros.
pub open spec fn nat_digits(n: nat) -> Seq<char>
    decreases n,
{
    if n < 10 {
        seq![digit_char(n as int)]
    } else {
        nat_digits(n / 10).push(digit_char((n % 10) as int))
    }
}

/// The decimal form of an integer, as `{}` writes it.
pub open spec fn decimal(n: int) -> Seq<char> {
    if n < 0 {
        seq!['-'] + nat_digits((-n) as nat)
    } else {
        nat_digits(n as nat)
    }
}

/// The layouts of one report line.
#[derive(Clone, Copy)]
pub enum LineStyle {
    /// `"{} - {}\n"`
    Dash,
    /// `"{}   -  {}\n"`
    Spaced,
    /// `"{:.<20}{}\n"`: the word padded with dots to twenty characters.
    Dotted,
    /// `"{} {}\n"`
    Plain,
}

/// `n` copies of `c`.
pub open spec fn repeat(c: char, n: int) -> Seq<char>
    decreases n,
{
    if n <= 0 {
        Seq::empty()
    } else {
        repeat(c, n - 1).push(c)
    }
}

/// One report line for word `w` with count `n`.
pub open spec fn line(style: LineStyle, w: Seq<char>, n: int) -> Seq<char> {
    match style {
        LineStyle::Dash => w + seq![' ', '-', ' '] + decimal(n) + seq!['\n'],
        LineStyle::Spaced => w + seq![' ', ' ', ' ', '-', ' ', ' '] + decimal(n) + seq!['\n'],
        LineStyle::Dotted => w + repeat('.', 20 - w.len()) + decimal(n) + seq!['\n'],
        LineStyle::Plain => w + seq![' '] + decimal(n) + seq!['\n'],
    }
}

/// The lines of the entries whose count is above `above`, in order.
pub open spec fn report(t: Table, above: int, style: LineStyle) -> Seq<char>
    decreases t.len(),
{
    if t.len() == 0 {
        Seq::empty()
    } else {
        report(t.drop_last(), above, style) + if t.last().1 > above {
            line(style, t.last().0, t.last().1)
        } else {
            Seq::empty()
        }
    }
}

/// The digit character of `d`.
fn digit(d: u64) -> (c: char)
    requires
        d < 10,
    ensures
        c == digit_char(d as int),
{
    if d == 0 {
        '0'
    } else if d == 1 {
        '1'
    } else if d == 2 {
        '2'
    } else if d == 3 {
        '3'
    } else if d == 4 {
        '4'
    } else if d == 5 {
        '5'
    } else if d == 6 {
        '6'
    } else if d == 7 {
        '7'
    } else if d == 8 {
        '8'
    } else {
        '9'
    }
}

/// Appends the decimal digits of `n`.
fn push_nat(s: &mut String, n: u64)
    ensures
        final(s)@ == old(s)@ + nat_digits(n as nat),
    decreases n,
{
    if n < 10 {
        push_char(s, digit(n));
        assert(old(s)@.push(digit_char(n as int)) =~= old(s)@ + seq![digit_char(n as int)]);
    } else {
        push_nat(s, n / 10);
        push_char(s, digit(n % 10));
        assert(old(s)@ + nat_digits((n / 10) as nat).push(digit_char((n % 10) as int)) =~= (old(
            s,
        )@ + nat_digits((n / 10) as nat)).push(digit_char((n % 10) as int)));
    }
}

/// Appends the decimal form of `n`.
pub fn push_decimal(s: &mut String, n: i64)
    ensures
        final(s)@ == old(s)@ + decimal(n as int),
{
    if n < 0 {
        push_char(s, '-');
        let m: i128 = n as i128;
        push_nat(s, (-m) as u64);
        assert(old(s)@.push('-') + nat_digits((-m) as nat) =~= old(s)@ + (seq!['-'] + nat_digits(
            (-n) as nat,
        )));
    } else {
        push_nat(s, n as u64);
    }
}

/// The decimal form of `n`.
pub fn decimal_string(n: i32) -> (s: String)
    ensures
        s@ == decimal(n as int),
{
    let mut s = String::new();
    push_decimal(&mut s, n as i64);
    assert(Seq::<char>::empty() + decimal(n as int) =~= decimal(n as int));
    s
}

/// Appends `n` copies of `c`.
fn push_repeat(s: &mut String, c: char, n: usize)
    ensures
        final(s)@ == old(s)@ + repeat(c, n as int),
{
    let mut i: usize = 0;
    while i < n
        invariant
            i <= n,
            s@ == old(s)@ + repeat(c, i as int),
        decreases n - i,
    {
        push_char(s, c);
        assert(old(s)@ + repeat(c, i as int).push(c) =~= (old(s)@ + repeat(c, i as int)).push(c));
        i = i + 1;
    }
}

/// Appends the characters of `cs`, in order.
fn push_chars(s: &mut String, cs: &Vec<char>)
    ensures
        final(s)@ == old(s)@ + cs@,
{
    let mut i: usize = 0;
    while i < cs.len()
        invariant
            i <= cs.len(),
            s@ == old(s)@ + cs@.take(i as int),
        decreases cs.len() - i,
    {
        push_char(s, cs[i]);
        assert(old(s)@ + cs@.take(i + 1) =~= (old(s)@ + cs@.take(i as int)).push(cs@[i as int]));
        i = i + 1;
    }
    assert(cs@.take(cs.len() as int) =~= cs@);
}

/// Appends one report line for word `w` with count `n`.
pub fn push_line(s: &mut String, style: LineStyle, w: &String, n: i64)
    ensures
        final(s)@ == old(s)@ + line(style, w@, n as int),
{
    s.append(w.as_str());
    match style {
        LineStyle::Dash => {
            push_chars(s, &vec![' ', '-', ' ']);
        },
        LineStyle::Spaced => {
            push_chars(s, &vec![' ', ' ', ' ', '-', ' ', ' ']);
        },
        LineStyle::Dotted => {
            let len = w.as_str().unicode_len();
            if len < 20 {
                push_repeat(s, '.', 20 - len);
            } else {
                push_repeat(s, '.', 0);
            }
        },
        LineStyle::Plain => {
            push_chars(s, &vec![' ']);
        },
    }
    push_decimal(s, n);
    push_char(s, '\n');
    proof {
        let mid = match style {
            LineStyle::Dash => seq![' ', '-', ' '],
            LineStyle::Spaced => seq![' ', ' ', ' ', '-', ' ', ' '],
            LineStyle::Dotted => repeat('.', 20 - w@.len()),
            LineStyle::Plain => seq![' '],
        };
        assert(repeat('.', 0) =~= Seq::<char>::empty());
        assert(line(style, w@, n as int) == w@ + mid + decimal(n as int) + seq!['\n']);
        assert(old(s)@ + w@ + mid + decimal(n as int) + seq!['\n'] =~= old(s)@ + line(
            style,
            w@,
            n as int,
        ));
    }
}

/// One report line for word `w` with count `n`.
pub fn line_string(style: LineStyle, w: &String, n: i32) -> (s: String)
    ensures
        s@ == line(style, w@, n as int),
{
    let mut s = String::new();
    push_line(&mut s, style, w, n as i64);
    assert(Seq::<char>::empty() + line(style, w@, n as int) =~= line(style, w@, n as int));
    s
}

/// The report of the entries whose count is above `above`: one line each, in order.
pub fn report_string(pairs: &Vec<(String, i32)>, above: i64, style: LineStyle) -> (s: String)
    ensures
        s@ == report(pairs_view(pairs@), above as int, style),
{
    let mut s = String::new();
    let mut i: usize = 0;
    while i < pairs.len()
        invariant
            i <= pairs.len(),
            s@ == report(pairs_view(pairs@).take(i as int), above as int, style),
        decreases pairs.len() - i,
    {
        let ghost t = pairs_view(pairs@).take(i + 1);
        assert(t.drop_last() =~= pairs_view(pairs@).take(i as int));
        assert(t.last() == (pairs@[i as int].0@, pairs@[i as int].1 as int));
        if pairs[i].1 as i64 > above {
            push_line(&mut s, style, &pairs[i].0, pairs[i].1 as i64);
        } else {
            assert(s@ + Seq::<char>::empty() =~= s@);
        }
        i = i + 1;
    }
    assert(pairs_view(pairs@).take(i as int) =~= pairs_view(pairs@));
    s
}

/// A report of two tables one after the other is the report of the first followed by the
/// report of the second: no entry's line is lost, added or moved.
pub proof fn lemma_report_append(a: Table, b: Table, above: int, style: LineStyle)
    ensures
        report(a + b, above, style) == report(a, above, style) + report(b, above, style),
    decreases b.len(),
{
    if b.len() == 0 {
        assert(a + b =~= a);
        assert(report(a, above, style) + report(b, above, style) =~= report(a, above, style));
    } else {
        lemma_report_append(a, b.drop_last(), above, style);
        assert((a + b).drop_last() =~= a + b.drop_last());
        assert((a + b).last() == b.last());
        let tail = if b.last().1 > above {
            line(style, b.last().0, b.last().1)
        } else {
            Seq::empty()
        };
        assert(report(a, above, style) + report(b.drop_last(), above, style) + tail =~= report(a, above, style) + (
        report(b.drop_last(), above, style) + tail));
    }
}

/// The report of one entry is its line when its count is above the threshold, and nothing
/// otherwise.
pub proof fn lemma_report_one(e: (Seq<char>, int), above: int, style: LineStyle)
    ensures
        report(seq![e], above, style) == if e.1 > above {
            line(style, e.0, e.1)
        } else {
            Seq::<char>::empty()
        },
{
    let t = seq![e];
    assert(t.drop_last() =~= Seq::<(Seq<char>, int)>::empty());
    assert(t.last() == e);
    assert(report(Seq::<(Seq<char>, int)>::empty(), above, style) == Seq::<char>::empty());
    assert(Seq::<char>::empty() + line(style, e.0, e.1) =~= line(style, e.0, e.1));
    assert(Seq::<char>::empty() + Seq::<char>::empty() =~= Seq::<char>::empty());
}

} // verus!
