//! Aspects: the two steps of the program, each of which the application may time.
use vstd::prelude::*;
use crate::freq::{countable, tally};
use crate::tf::{count_and_sort, usual_report, usual_words};
use crate::report::{LineStyle, report_string};
use crate::words::{StopWords, select_words, words_of_text};

verus! {

/// The words of the input text (`in_files.0`, the file's content) that are no stop words of
/// the stop-word file's content (`in_files.1`) and have two bytes or more.
pub fn read_and_filter_words(in_files: (&String, &String)) -> (r: Vec<String>)
    ensures
        r.deep_view() == usual_words(in_files.0@, in_files.1@),
{
    let stop_words = StopWords::from_text(in_files.1.as_str());
    let words = words_of_text(in_files.0.as_str());
    select_words(&words, &stop_words, crate::words::WordFilter { drop_stop_words: true, min_bytes: 2 })
}

/// A `"{} - {}\n"` line for each word that occurs more than four times, by descending count.
pub fn frequencies_to_string(vec_str: &Vec<String>) -> (s: String)
    requires
        countable(vec_str.deep_view()),
    ensures
        s@ == usual_report(tally(vec_str.deep_view())),
{
    let vs = count_and_sort(vec_str);
    report_string(&vs, 4, LineStyle::Dash)
}

} // verus!
