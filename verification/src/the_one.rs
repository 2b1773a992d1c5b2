//! The one: a wrapper holds one value and binds functions to it, one after the other.
use vstd::prelude::*;
use vstd::string::StringExecFns;
use crate::freq::{FreqTable, Table, countable, pairs_view, tally};
use crate::kick_forward::{filter_chars_and_normalize_kf, kick_forward_words, remove_stop_words_kf, scan_filter, scan_string_kf};
use crate::order::sort_entries;
use crate::report::{LineStyle, report, report_string};
use crate::text::{Separator, runs, split_runs};
use crate::tf::{sorted_pairs, stop_only_filter};
use crate::words::{StopWords, WordFilter, normalize_text, normalized, select, select_words, stop_word_pieces};

verus! {

/// The value the wrapper holds.
pub enum TheOneValue {
    Text(String),
    Words(Vec<String>),
    Freqs(Vec<(String, i32)>),
}

/// The value the wrapper holds, as values.
pub enum OneView {
    Text(Seq<char>),
    Words(Seq<Seq<char>>),
    Freqs(Table),
}

impl View for TheOneValue {
    type V = OneView;

    open spec fn view(&self) -> OneView {
        match self {
            TheOneValue::Text(s) => OneView::Text(s@),
            TheOneValue::Words(v) => OneView::Words(v.deep_view()),
            TheOneValue::Freqs(v) => OneView::Freqs(pairs_view(v@)),
        }
    }
}

/// The value a step gives back when it is handed a value of the wrong kind.
pub open spec fn error_value() -> OneView {
    OneView::Text("Error"@)
}

fn error() -> (r: TheOneValue)
    ensures
        r@ == error_value(),
{
    TheOneValue::Text(String::from_str("Error"))
}

/// Holds one value.
pub struct TFTheOne {
    value: TheOneValue,
}

impl TFTheOne {
    pub closed spec fn value(&self) -> OneView {
        self.value@
    }

    /// A wrapper holding the input text.
    pub fn new(text: &String) -> (t: Self)
        ensures
            t.value() == OneView::Text(text@),
    {
        TFTheOne { value: TheOneValue::Text(text.clone()) }
    }

    /// Applies `fun` to the value held and holds its result.
    pub fn bind<F: Fn(&TheOneValue) -> TheOneValue>(self, fun: F) -> (t: Self)
        requires
            forall|v: &TheOneValue| v@ == self.value() ==> #[trigger] fun.requires((v,)),
        ensures
            exists|v: &TheOneValue, r: TheOneValue| v@ == self.value() && #[trigger] fun.ensures((v,), r) && t.value() == r@,
    {
        let v = fun(&self.value);
        TFTheOne { value: v }
    }

    /// A `"{} - {}\n"` line for each entry counted more than four times, when the value is a
    /// list of counts; `"Error - print_me"` otherwise.
    pub fn print_me(&self) -> (s: String)
        ensures
            s@ == match self.value() {
                OneView::Freqs(t) => report(t, 4, LineStyle::Dash),
                _ => "Error - print_me"@,
            },
    {
        match &self.value {
            TheOneValue::Freqs(val) => report_string(val, 4, LineStyle::Dash),
            _ => String::from_str("Error - print_me"),
        }
    }
}

/// The text lower-cased, with runs of non-word characters replaced by a space.
pub fn filter_chars_and_normalize(val: &TheOneValue) -> (r: TheOneValue)
    ensures
        r@ == match val@ {
            OneView::Text(t) => OneView::Text(normalized(t)),
            _ => error_value(),
        },
{
    match val {
        TheOneValue::Text(in_text) => TheOneValue::Text(normalize_text(in_text.as_str())),
        _ => error(),
    }
}

/// The white-space separated words of the text that have two bytes or more.
pub fn scan_str(val: &TheOneValue) -> (r: TheOneValue)
    ensures
        r@ == match val@ {
            OneView::Text(t) => OneView::Words(select(runs(t, Separator::Whitespace), Seq::empty(), scan_filter())),
            _ => error_value(),
        },
{
    match val {
        TheOneValue::Text(in_text) => {
            let all = split_runs(in_text.as_str(), Separator::Whitespace);
            let none = StopWords::new();
            TheOneValue::Words(select_words(&all, &none, WordFilter { drop_stop_words: false, min_bytes: 2 }))
        },
        _ => error(),
    }
}

/// The words that are no stop words of the stop-word file's text.
pub fn remove_stop_words(val: &TheOneValue, stop_text: &String) -> (r: TheOneValue)
    ensures
        r@ == match val@ {
            OneView::Words(ws) => OneView::Words(select(ws, stop_word_pieces(stop_text@), stop_only_filter())),
            _ => error_value(),
        },
{
    let stop_w = StopWords::from_text(stop_text.as_str());
    match val {
        TheOneValue::Words(in_vect_text) => TheOneValue::Words(
            select_words(in_vect_text, &stop_w, WordFilter { drop_stop_words: true, min_bytes: 0 }),
        ),
        _ => error(),
    }
}

/// The counts of the words by descending count; words of equal count keep the order of
/// their first occurrence.
pub fn frequencies_and_sort(val: &TheOneValue) -> (r: TheOneValue)
    requires
        val@ matches OneView::Words(ws) ==> countable(ws),
    ensures
        r@ == match val@ {
            OneView::Words(ws) => OneView::Freqs(sort_entries(tally(ws), false)),
            _ => error_value(),
        },
{
    match val {
        TheOneValue::Words(in_vec_words) => {
            let freq = FreqTable::from_words(in_vec_words);
            TheOneValue::Freqs(sorted_pairs(&freq, false))
        },
        _ => error(),
    }
}

/// The steps bound one after the other, from the input text to the printed report.
pub fn the_one_test(text: &String, stop_text: &String) -> (s: String)
    requires
        countable(kick_forward_words(text@, stop_text@)),
    ensures
        s@ == report(sort_entries(tally(kick_forward_words(text@, stop_text@)), false), 4, LineStyle::Dash),
{
    let the_one = TFTheOne::new(text);
    let stop = stop_text.clone();
    let t1 = the_one.bind(|v: &TheOneValue| -> (r: TheOneValue)
        ensures
            r@ == match v@ {
                OneView::Text(t) => OneView::Text(normalized(t)),
                _ => error_value(),
            },
        { filter_chars_and_normalize(v) });
    let t2 = t1.bind(|v: &TheOneValue| -> (r: TheOneValue)
        ensures
            r@ == match v@ {
                OneView::Text(t) => OneView::Words(select(runs(t, Separator::Whitespace), Seq::empty(), scan_filter())),
                _ => error_value(),
            },
        { scan_str(v) });
    let t3 = t2.bind(move |v: &TheOneValue| -> (r: TheOneValue)
        ensures
            r@ == match v@ {
                OneView::Words(ws) => OneView::Words(select(ws, stop_word_pieces(stop@), stop_only_filter())),
                _ => error_value(),
            },
        { remove_stop_words(v, &stop) });
    let t4 = t3.bind(|v: &TheOneValue| -> (r: TheOneValue)
        requires
            v@ matches OneView::Words(ws) ==> countable(ws),
        ensures
            r@ == match v@ {
                OneView::Words(ws) => OneView::Freqs(sort_entries(tally(ws), false)),
                _ => error_value(),
            },
        { frequencies_and_sort(v) });
    t4.print_me()
}

/// The one when no count can overflow: `None` when a word it counts occurs `i32::MAX` times
/// or more, else what `the_one_test` gives.
pub fn the_one_checked(text: &String, stop_text: &String) -> (r: Option<String>)
    ensures
        r is None <==> !countable(kick_forward_words(text@, stop_text@)),
        r matches Some(s) ==> s@ == report(sort_entries(tally(kick_forward_words(text@, stop_text@)), false), 4, LineStyle::Dash),
{
    let kept = remove_stop_words_kf(&scan_string_kf(&filter_chars_and_normalize_kf(text)), stop_text);
    if crate::freq::countable_words(&kept) {
        Some(the_one_test(text, stop_text))
    } else {
        None
    }
}

} // verus!
