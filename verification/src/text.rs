//! Characters, strings and the splitting of text into pieces and words.
use vstd::prelude::*;

verus! {

/// Whether a character has the Unicode `White_Space` property, which `char::is_whitespace`
/// tests: the controls tab to carriage return, space, next line, no-break space, Ogham space
/// mark, the spaces from en quad to hair space, line and paragraph separator, narrow no-break
/// space, medium mathematical space and ideographic space.
pub open spec fn unicode_whitespace(c: char) -> bool {
    let u = c as u32;
    (0x9 <= u && u <= 0xD) || u == 0x20 || u == 0x85 || u == 0xA0 || u == 0x1680 || (0x2000 <= u && u
        <= 0x200A) || u == 0x2028 || u == 0x2029 || u == 0x202F || u == 0x205F || u == 0x3000
}

/// Whether a character has the Unicode `Alphabetic` property, as `char::is_alphabetic` decides.
pub uninterp spec fn unicode_alphabetic(c: char) -> bool;

/// Whether a character is alphabetic or numeric in the sense of `char::is_alphanumeric`.
pub uninterp spec fn unicode_alphanumeric(c: char) -> bool;

/// The lower-case mapping of a string, as `str::to_lowercase` computes it.
pub uninterp spec fn lowercase(s: Seq<char>) -> Seq<char>;

/// Whether a character has the Unicode `White_Space` property.
fn is_whitespace(c: char) -> (b: bool)
    ensures
        b == unicode_whitespace(c),
{
    let u = c as u32;
    (0x9 <= u && u <= 0xD) || u == 0x20 || u == 0x85 || u == 0xA0 || u == 0x1680 || (0x2000 <= u && u
        <= 0x200A) || u == 0x2028 || u == 0x2029 || u == 0x202F || u == 0x205F || u == 0x3000
}

/// `char::is_alphabetic`: the result is the character's `Alphabetic` property.
#[verifier::external_body]
fn is_alphabetic(c: char) -> (b: bool)
    ensures
        b == unicode_alphabetic(c),
{
    c.is_alphabetic()
}

/// `char::is_alphanumeric`: the result is whether the character is alphabetic or numeric.
#[verifier::external_body]
fn is_alphanumeric(c: char) -> (b: bool)
    ensures
        b == unicode_alphanumeric(c),
{
    c.is_alphanumeric()
}

/// `str::to_lowercase`: the result is the lower-case mapping of the whole string.
#[verifier::external_body]
pub(crate) fn to_lowercase(s: &str) -> (r: String)
    ensures
        r@ == lowercase(s@),
{
    s.to_lowercase()
}

/// `String::push`: appends one character.
#[verifier::external_body]
pub(crate) fn push_char(s: &mut String, c: char)
    ensures
        final(s)@ == old(s)@.push(c),
{
    s.push(c)
}

/// The characters of a string, in order.
pub fn chars_of(s: &str) -> (v: Vec<char>)
    ensures
        v@ == s@,
{
    let mut v: Vec<char> = Vec::new();
    for c in it: s.chars()
        invariant
            v@ == it.seq().take(it.index() as int),
            it.seq() == s@,
    {
        v.push(c);
    }
    v
}

/// The kinds of separator that the styles split text on.
#[derive(Clone, Copy)]
pub enum Separator {
    /// Unicode white space, as `split_whitespace` uses.
    Whitespace,
    /// One given character, as `split(',')` or `split(' ')` uses.
    Char(char),
    /// Every character that is not alphabetic.
    NonAlphabetic,
    /// Every character that is not alphanumeric.
    NonAlphanumeric,
}

impl Separator {
    pub open spec fn spec_is_sep(self, c: char) -> bool {
        match self {
            Separator::Whitespace => unicode_whitespace(c),
            Separator::Char(d) => c == d,
            Separator::NonAlphabetic => !unicode_alphabetic(c),
            Separator::NonAlphanumeric => !unicode_alphanumeric(c),
        }
    }

    pub fn is_sep(&self, c: char) -> (b: bool)
        ensures
            b == self.spec_is_sep(c),
    {
        match self {
            Separator::Whitespace => is_whitespace(c),
            Separator::Char(d) => c == *d,
            Separator::NonAlphabetic => !is_alphabetic(c),
            Separator::NonAlphanumeric => !is_alphanumeric(c),
        }
    }
}

/// The maximal runs of non-separator characters of `s`, in order; no run is empty.
/// This is what `split_whitespace` gives for `Separator::Whitespace`.
pub open spec fn runs(s: Seq<char>, sep: Separator) -> Seq<Seq<char>>
    decreases s.len(),
{
    if s.len() == 0 {
        Seq::empty()
    } else {
        let prev = runs(s.drop_last(), sep);
        let c = s.last();
        if sep.spec_is_sep(c) {
            prev
        } else if s.len() > 1 && !sep.spec_is_sep(s[s.len() - 2]) {
            prev.drop_last().push(prev.last().push(c))
        } else {
            prev.push(seq![c])
        }
    }
}

/// The runs of `s` that a separator closes: the last run is left out when
/// `s` does not end with a separator.
pub open spec fn closed_runs(s: Seq<char>, sep: Separator) -> Seq<Seq<char>> {
    if s.len() > 0 && !sep.spec_is_sep(s.last()) {
        runs(s, sep).drop_last()
    } else {
        runs(s, sep)
    }
}

/// The pieces between separators, empty ones included: `n` separators give `n + 1` pieces.
/// This is what `str::split` gives for `Separator::Char`.
pub open spec fn pieces(s: Seq<char>, sep: Separator) -> Seq<Seq<char>>
    decreases s.len(),
{
    if s.len() == 0 {
        seq![Seq::empty()]
    } else {
        let prev = pieces(s.drop_last(), sep);
        if sep.spec_is_sep(s.last()) {
            prev.push(Seq::empty())
        } else {
            prev.drop_last().push(prev.last().push(s.last()))
        }
    }
}

/// Every run is non-empty and holds no separator.
pub proof fn lemma_runs_well_formed(s: Seq<char>, sep: Separator)
    ensures
        forall|k: int|
            0 <= k < runs(s, sep).len() ==> #[trigger] runs(s, sep)[k].len() > 0 && forall|j: int|
                0 <= j < runs(s, sep)[k].len() ==> !sep.spec_is_sep(runs(s, sep)[k][j]),
        s.len() > 0 && !sep.spec_is_sep(s.last()) ==> runs(s, sep).len() > 0,
    decreases s.len(),
{
    if s.len() > 0 {
        lemma_runs_well_formed(s.drop_last(), sep);
        let prev = runs(s.drop_last(), sep);
        let c = s.last();
        if !sep.spec_is_sep(c) && s.len() > 1 && !sep.spec_is_sep(s[s.len() - 2]) {
            assert(s.drop_last().last() == s[s.len() - 2]);
            let r = runs(s, sep);
            assert forall|k: int| 0 <= k < r.len() implies #[trigger] r[k].len() > 0 && forall|j: int|
                0 <= j < r[k].len() ==> !sep.spec_is_sep(r[k][j]) by {
                if k < r.len() - 1 {
                    assert(r[k] == prev[k]);
                }
            }
        }
    }
}

/// Scans characters into the finished runs and the run that is still open.
fn scan_runs(cs: &Vec<char>, sep: Separator) -> (res: (Vec<String>, String, bool))
    ensures
        res.2 <==> res.1@.len() > 0,
        res.2 <==> (cs@.len() > 0 && !sep.spec_is_sep(cs@.last())),
        runs(cs@, sep) == if res.2 {
            res.0.deep_view().push(res.1@)
        } else {
            res.0.deep_view()
        },
{
    let mut words: Vec<String> = Vec::new();
    let mut cur = String::new();
    let mut in_run = false;
    let mut i: usize = 0;
    while i < cs.len()
        invariant
            i <= cs.len(),
            in_run <==> cur@.len() > 0,
            in_run <==> (i > 0 && !sep.spec_is_sep(cs@[i - 1])),
            runs(cs@.take(i as int), sep) == if in_run {
                words.deep_view().push(cur@)
            } else {
                words.deep_view()
            },
        decreases cs.len() - i,
    {
        let c = cs[i];
        let ghost before_words = words.deep_view();
        let ghost before_cur = cur@;
        proof {
            let t = cs@.take(i + 1);
            assert(t.drop_last() =~= cs@.take(i as int));
            assert(t.last() == c);
            if i > 0 {
                assert(t[t.len() - 2] == cs@[i - 1]);
            }
        }
        if sep.is_sep(c) {
            if in_run {
                words.push(cur);
                cur = String::new();
                in_run = false;
                assert(words.deep_view() =~= before_words.push(before_cur));
            }
        } else {
            push_char(&mut cur, c);
            if in_run {
                assert(before_words.push(before_cur).drop_last() =~= before_words);
            } else {
                assert(cur@ =~= seq![c]);
            }
            in_run = true;
        }
        i = i + 1;
    }
    assert(cs@.take(cs.len() as int) =~= cs@);
    (words, cur, in_run)
}

/// The maximal runs of non-separator characters of `s` (`split_whitespace` for white space).
pub fn split_runs(s: &str, sep: Separator) -> (words: Vec<String>)
    ensures
        words.deep_view() == runs(s@, sep),
{
    let cs = chars_of(s);
    let (mut words, cur, open) = scan_runs(&cs, sep);
    if open {
        let ghost w = words.deep_view();
        words.push(cur);
        assert(words.deep_view() =~= w.push(cur@));
    }
    words
}

/// The runs that a separator closes; a run still open at the end of `s` is dropped.
pub fn split_closed_runs(s: &str, sep: Separator) -> (words: Vec<String>)
    ensures
        words.deep_view() == closed_runs(s@, sep),
{
    let cs = chars_of(s);
    let (words, _cur, open) = scan_runs(&cs, sep);
    if open {
        assert(runs(s@, sep).drop_last() =~= words.deep_view());
    }
    words
}

/// The pieces of `s` between separators, empty pieces included (`str::split` on one character).
pub fn split_pieces(s: &str, sep: Separator) -> (parts: Vec<String>)
    ensures
        parts.deep_view() == pieces(s@, sep),
{
    let cs = chars_of(s);
    let mut parts: Vec<String> = Vec::new();
    let mut cur = String::new();
    let mut i: usize = 0;
    assert(cs@.take(0) =~= Seq::<char>::empty());
    assert(parts.deep_view().push(cur@) =~= seq![Seq::<char>::empty()]);
    while i < cs.len()
        invariant
            i <= cs.len(),
            cs@ == s@,
            pieces(cs@.take(i as int), sep) == parts.deep_view().push(cur@),
        decreases cs.len() - i,
    {
        let c = cs[i];
        let ghost before_parts = parts.deep_view();
        let ghost before_cur = cur@;
        proof {
            let t = cs@.take(i + 1);
            assert(t.drop_last() =~= cs@.take(i as int));
            assert(t.last() == c);
        }
        if sep.is_sep(c) {
            parts.push(cur);
            cur = String::new();
            assert(parts.deep_view() =~= before_parts.push(before_cur));
        } else {
            push_char(&mut cur, c);
            assert(before_parts.push(before_cur).drop_last() =~= before_parts);
        }
        i = i + 1;
    }
    assert(cs@.take(cs.len() as int) =~= cs@);
    let ghost p = parts.deep_view();
    parts.push(cur);
    assert(parts.deep_view() =~= p.push(cur@));
    parts
}

} // verus!
