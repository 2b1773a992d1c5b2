//! Constructivist: a failure to read either file is reported as an error, not a crash.
use vstd::prelude::*;
use vstd::string::StringExecFns;
use crate::freq::{countable, tally};
use crate::tf::{count_and_sort, usual_report, usual_words};
use crate::report::{LineStyle, report_string};
use crate::words::{StopWords, select_words, words_of_text, WordFilter};

verus! {

/// The words of the input text that are no stop words and have two bytes or more; a file that
/// could not be read (`None`) gives the error naming it, the stop-word file first.
pub fn read_and_filter_words(
    stop_w_file: &String,
    stop_text: &Option<String>,
    path_to_file: &String,
    text: &Option<String>,
) -> (r: Result<Vec<String>, String>)
    ensures
        match stop_text {
            None => r is Err && r->Err_0@ == "Error in reading SW file: "@ + stop_w_file@,
            Some(st) => match text {
                None => r is Err && r->Err_0@ == "Error in reading data file: "@ + path_to_file@,
                Some(t) => r is Ok && r->Ok_0.deep_view() == usual_words(t@, st@),
            },
        },
{
    let st = match stop_text {
        Some(s) => s,
        None => {
            let mut msg = String::from_str("Error in reading SW file: ");
            msg.append(stop_w_file.as_str());
            return Err(msg);
        },
    };
    let hs = StopWords::from_text(st.as_str());
    let t = match text {
        Some(t) => t,
        None => {
            let mut msg = String::from_str("Error in reading data file: ");
            msg.append(path_to_file.as_str());
            return Err(msg);
        },
    };
    let word_vec = words_of_text(t.as_str());
    Ok(select_words(&word_vec, &hs, WordFilter { drop_stop_words: true, min_bytes: 2 }))
}

/// A `"{} - {}\n"` line for each word that occurs more than four times, by descending count.
pub fn frequencies_to_string(vec_str: &Vec<String>) -> (s: String)
    requires
        countable(vec_str.deep_view()),
    ensures
        s@ == usual_report(tally(vec_str.deep_view())),
{
    let vs = count_and_sort(vec_str);
    report_string(&vs, 4, LineStyle::Dash)
}

} // verus!
