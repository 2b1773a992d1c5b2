//! Quarantine: the functions that do input are not run where they stand; each returns a call
//! to make later, and the runner makes it. The runner here is a machine that asks for a file
//! when a step needs one.
use vstd::prelude::*;
use crate::freq::{FreqTable, countable, pairs_view, tally};
use crate::order::sort_entries;
use crate::report::{LineStyle, report, report_string};
use crate::text::{Separator, pieces, split_pieces};
use crate::tf::sorted_pairs;
use crate::words::{StopWords, WordFilter, normalize_text, normalized, select, select_words, stop_word_pieces, usual_filter};
use crate::freq::Table;

verus! {

/// The pieces between single spaces of the normalized text, empty pieces included.
pub fn extract_words(text: &String) -> (v: Vec<String>)
    ensures
        v.deep_view() == pieces(normalized(text@), Separator::Char(' ')),
{
    let norm = normalize_text(text.as_str());
    split_pieces(norm.as_str(), Separator::Char(' '))
}

/// The words that are no stop words of the stop-word file's text and have two bytes or more.
pub fn remove_stop_words(vs: &Vec<String>, stop_text: &String) -> (v: Vec<String>)
    ensures
        v.deep_view() == select(vs.deep_view(), stop_word_pieces(stop_text@), usual_filter()),
{
    let stop_words = StopWords::from_text(stop_text.as_str());
    select_words(vs, &stop_words, WordFilter { drop_stop_words: true, min_bytes: 2 })
}

/// The frequency table of the words.
pub fn frequencies(words_vec: &Vec<String>) -> (t: FreqTable)
    requires
        countable(words_vec.deep_view()),
    ensures
        t@ == tally(words_vec.deep_view()),
{
    FreqTable::from_words(words_vec)
}

/// The entries by descending count; words of equal count keep their order.
pub fn sort(hm: &FreqTable) -> (v: Vec<(String, i32)>)
    ensures
        pairs_view(v@) == sort_entries(hm@, false),
{
    sorted_pairs(hm, false)
}

/// A `"{} - {}\n"` line for each entry counted more than `top` times, in order.
pub fn print_top_to_string(vf: &Vec<(String, i32)>, top: i32) -> (s: String)
    ensures
        s@ == report(pairs_view(vf@), top as int, LineStyle::Dash),
{
    report_string(vf, top as i64, LineStyle::Dash)
}

/// A call that a step leaves to be made later.
pub enum DeferredCall {
    /// Read the named file.
    ReadFile(String),
    /// Extract the words of a text.
    ExtractWords(String),
}

/// A value that flows from step to step.
pub enum QuarantineValue {
    /// No value yet.
    Unset,
    Text(String),
    Words(Vec<String>),
    Table(FreqTable),
    Pairs(Vec<(String, i32)>),
    /// A call not made yet.
    Deferred(DeferredCall),
}

/// A value that flows from step to step, as values.
pub enum QView {
    Unset,
    Text(Seq<char>),
    Words(Seq<Seq<char>>),
    Table(Table),
    Pairs(Table),
    ReadFile(Seq<char>),
    ExtractWords(Seq<char>),
}

impl View for QuarantineValue {
    type V = QView;

    open spec fn view(&self) -> QView {
        match self {
            QuarantineValue::Unset => QView::Unset,
            QuarantineValue::Text(s) => QView::Text(s@),
            QuarantineValue::Words(ws) => QView::Words(ws.deep_view()),
            QuarantineValue::Table(t) => QView::Table(t@),
            QuarantineValue::Pairs(p) => QView::Pairs(pairs_view(p@)),
            QuarantineValue::Deferred(DeferredCall::ReadFile(n)) => QView::ReadFile(n@),
            QuarantineValue::Deferred(DeferredCall::ExtractWords(t)) => QView::ExtractWords(t@),
        }
    }
}

/// A step of the quarantine pipeline.
pub enum QuarantineStep {
    /// From a file name, the call that reads the file.
    GetInput,
    /// From a text, the call that extracts its words.
    ExtractWords,
    /// From words, those that are no stop words and have two bytes or more.
    RemoveStopWords(StopWords),
    /// From words, their counts.
    Frequencies,
    /// From counts, the entries by descending count.
    Sort,
    /// From entries, the lines of those counted more than the given number of times.
    PrintTop(i32),
}

/// A step, as values.
pub enum StepView {
    GetInput,
    ExtractWords,
    RemoveStopWords(Seq<Seq<char>>),
    Frequencies,
    Sort,
    PrintTop(int),
}

impl View for QuarantineStep {
    type V = StepView;

    open spec fn view(&self) -> StepView {
        match self {
            QuarantineStep::GetInput => StepView::GetInput,
            QuarantineStep::ExtractWords => StepView::ExtractWords,
            QuarantineStep::RemoveStopWords(stop) => StepView::RemoveStopWords(stop@),
            QuarantineStep::Frequencies => StepView::Frequencies,
            QuarantineStep::Sort => StepView::Sort,
            QuarantineStep::PrintTop(top) => StepView::PrintTop(*top as int),
        }
    }
}

/// The values a step takes: each step takes one kind of value.
pub open spec fn step_accepts(s: StepView, v: QView) -> bool {
    match s {
        StepView::GetInput => v is Text,
        StepView::ExtractWords => v is Text,
        StepView::RemoveStopWords(_) => v is Words,
        StepView::Frequencies => v matches QView::Words(ws) && countable(ws),
        StepView::Sort => v is Table,
        StepView::PrintTop(_) => v is Pairs,
    }
}

/// What a step gives for a value it takes.
pub open spec fn apply_view(s: StepView, v: QView) -> QView {
    match s {
        StepView::GetInput => match v {
            QView::Text(name) => QView::ReadFile(name),
            _ => QView::Unset,
        },
        StepView::ExtractWords => match v {
            QView::Text(t) => QView::ExtractWords(t),
            _ => QView::Unset,
        },
        StepView::RemoveStopWords(stop) => match v {
            QView::Words(ws) => QView::Words(select(ws, stop, usual_filter())),
            _ => QView::Unset,
        },
        StepView::Frequencies => match v {
            QView::Words(ws) => QView::Table(tally(ws)),
            _ => QView::Unset,
        },
        StepView::Sort => match v {
            QView::Table(t) => QView::Pairs(sort_entries(t, false)),
            _ => QView::Unset,
        },
        StepView::PrintTop(top) => match v {
            QView::Pairs(p) => QView::Text(report(p, top, LineStyle::Dash)),
            _ => QView::Unset,
        },
    }
}

/// The value after the deferred call of `v` is made, when reading a file gives `input`.
pub open spec fn guard_view(v: QView, input: Seq<char>) -> QView {
    match v {
        QView::ReadFile(_) => QView::Text(input),
        QView::ExtractWords(t) => QView::Words(pieces(normalized(t), Separator::Char(' '))),
        _ => v,
    }
}

/// Each step takes the value the steps before it give.
pub open spec fn chain_ok(steps: Seq<StepView>, v: QView, input: Seq<char>) -> bool
    decreases steps.len(),
{
    steps.len() == 0 || (step_accepts(steps[0], v) && chain_ok(
        steps.drop_first(),
        guard_view(apply_view(steps[0], v), input),
        input,
    ))
}

/// The value after all the steps, each one's deferred call made.
pub open spec fn run_view(steps: Seq<StepView>, v: QView, input: Seq<char>) -> QView
    decreases steps.len(),
{
    if steps.len() == 0 {
        v
    } else {
        run_view(steps.drop_first(), guard_view(apply_view(steps[0], v), input), input)
    }
}

/// A step applied to a value it takes.
pub fn apply_step(step: &QuarantineStep, v: &QuarantineValue) -> (r: QuarantineValue)
    requires
        step_accepts(step@, v@),
    ensures
        r@ == apply_view(step@, v@),
{
    match step {
        QuarantineStep::GetInput => match v {
            QuarantineValue::Text(name) => QuarantineValue::Deferred(DeferredCall::ReadFile(name.clone())),
            _ => QuarantineValue::Unset,
        },
        QuarantineStep::ExtractWords => match v {
            QuarantineValue::Text(t) => QuarantineValue::Deferred(DeferredCall::ExtractWords(t.clone())),
            _ => QuarantineValue::Unset,
        },
        QuarantineStep::RemoveStopWords(stop) => match v {
            QuarantineValue::Words(ws) => QuarantineValue::Words(
                select_words(ws, stop, WordFilter { drop_stop_words: true, min_bytes: 2 }),
            ),
            _ => QuarantineValue::Unset,
        },
        QuarantineStep::Frequencies => match v {
            QuarantineValue::Words(ws) => QuarantineValue::Table(FreqTable::from_words(ws)),
            _ => QuarantineValue::Unset,
        },
        QuarantineStep::Sort => match v {
            QuarantineValue::Table(t) => QuarantineValue::Pairs(sorted_pairs(t, false)),
            _ => QuarantineValue::Unset,
        },
        QuarantineStep::PrintTop(top) => match v {
            QuarantineValue::Pairs(p) => QuarantineValue::Text(report_string(p, *top as i64, LineStyle::Dash)),
            _ => QuarantineValue::Unset,
        },
    }
}

/// Makes the deferred call of a value when it needs no input: the words of a text are
/// extracted; a file to read is handed back (`Err` with its name); any other value stays.
pub fn guard_callable(v: QuarantineValue) -> (r: Result<QuarantineValue, String>)
    ensures
        match v@ {
            QView::ReadFile(name) => r matches Err(n) && n@ == name,
            QView::ExtractWords(t) => r matches Ok(w) && w@ == QView::Words(pieces(normalized(t), Separator::Char(' '))),
            _ => r matches Ok(w) && w@ == v@,
        },
{
    match v {
        QuarantineValue::Deferred(DeferredCall::ReadFile(name)) => Err(name),
        QuarantineValue::Deferred(DeferredCall::ExtractWords(t)) => Ok(QuarantineValue::Words(extract_words(&t))),
        other => Ok(other),
    }
}

/// A copy of a list of words.
fn copy_words(ws: &Vec<String>) -> (r: Vec<String>)
    ensures
        r.deep_view() == ws.deep_view(),
{
    let mut r: Vec<String> = Vec::new();
    let mut i: usize = 0;
    while i < ws.len()
        invariant
            i <= ws.len(),
            r.deep_view() == ws.deep_view().take(i as int),
        decreases ws.len() - i,
    {
        let ghost before = r.deep_view();
        r.push(ws[i].clone());
        assert(r.deep_view() =~= before.push(ws[i as int]@));
        assert(ws.deep_view().take(i + 1) =~= ws.deep_view().take(i as int).push(ws[i as int]@));
        i = i + 1;
    }
    assert(ws.deep_view().take(i as int) =~= ws.deep_view());
    r
}

/// A copy of a list of pairs.
fn copy_pairs(p: &Vec<(String, i32)>) -> (r: Vec<(String, i32)>)
    ensures
        pairs_view(r@) == pairs_view(p@),
{
    let mut r: Vec<(String, i32)> = Vec::new();
    let mut i: usize = 0;
    while i < p.len()
        invariant
            i <= p.len(),
            pairs_view(r@) == pairs_view(p@).take(i as int),
        decreases p.len() - i,
    {
        let ghost before = r@;
        r.push((p[i].0.clone(), p[i].1));
        assert(pairs_view(r@) =~= pairs_view(before).push((p@[i as int].0@, p@[i as int].1 as int)));
        assert(pairs_view(p@).take(i + 1) =~= pairs_view(p@).take(i as int).push((p@[i as int].0@, p@[i as int].1 as int)));
        i = i + 1;
    }
    assert(pairs_view(p@).take(i as int) =~= pairs_view(p@));
    r
}

/// A copy of a value.
fn copy_value(v: &QuarantineValue) -> (r: QuarantineValue)
    ensures
        r@ == v@,
{
    match v {
        QuarantineValue::Unset => QuarantineValue::Unset,
        QuarantineValue::Text(s) => QuarantineValue::Text(s.clone()),
        QuarantineValue::Words(ws) => QuarantineValue::Words(copy_words(ws)),
        QuarantineValue::Table(t) => QuarantineValue::Table(t.duplicate()),
        QuarantineValue::Pairs(p) => QuarantineValue::Pairs(copy_pairs(p)),
        QuarantineValue::Deferred(DeferredCall::ReadFile(n)) => QuarantineValue::Deferred(DeferredCall::ReadFile(n.clone())),
        QuarantineValue::Deferred(DeferredCall::ExtractWords(t)) => QuarantineValue::Deferred(
            DeferredCall::ExtractWords(t.clone()),
        ),
    }
}

/// What a step of the machine leads to.
pub enum QuarantineEvent {
    /// A step was taken.
    Continue,
    /// The named file is to be read, and its text handed back with `resume`.
    ReadFile(String),
    /// All steps are taken.
    Done,
}

/// The quarantine runner: its steps, the value so far, how many steps are taken, and whether
/// it waits for the text of a file.
pub struct TFQuarantine {
    list_q: Vec<QuarantineStep>,
    value_c: QuarantineValue,
    next: usize,
    waiting: bool,
}

impl TFQuarantine {
    pub closed spec fn steps(&self) -> Seq<StepView> {
        self.list_q@.map_values(|s: QuarantineStep| s@)
    }

    pub closed spec fn value(&self) -> QView {
        self.value_c@
    }

    pub closed spec fn position(&self) -> nat {
        self.next as nat
    }

    pub closed spec fn waiting(&self) -> bool {
        self.waiting
    }

    /// A runner with no steps.
    pub fn new() -> (q: Self)
        ensures
            q.steps() == Seq::<StepView>::empty(),
            q.value() == QView::Unset,
            q.position() == 0,
            !q.waiting(),
    {
        let q = TFQuarantine { list_q: Vec::new(), value_c: QuarantineValue::Unset, next: 0, waiting: false };
        assert(q.steps() =~= Seq::<StepView>::empty());
        q
    }

    /// Adds a step at the end.
    pub fn push_fun(&mut self, fun: QuarantineStep)
        ensures
            final(self).steps() == old(self).steps().push(fun@),
            final(self).value() == old(self).value(),
            final(self).position() == old(self).position(),
            final(self).waiting() == old(self).waiting(),
    {
        let ghost f = fun@;
        self.list_q.push(fun);
        assert(self.steps() =~= old(self).steps().push(f));
    }

    /// Starts a run on `start_arg`.
    pub fn start(&mut self, start_arg: QuarantineValue)
        ensures
            final(self).steps() == old(self).steps(),
            final(self).value() == start_arg@,
            final(self).position() == 0,
            !final(self).waiting(),
    {
        self.value_c = start_arg;
        self.next = 0;
        self.waiting = false;
    }

    /// Takes the next step: the step is applied to the value, and its deferred call is made
    /// unless it reads a file, in which case the machine waits for the file's text.
    pub fn advance(&mut self) -> (e: QuarantineEvent)
        requires
            !old(self).waiting(),
            old(self).position() <= old(self).steps().len(),
            old(self).position() < old(self).steps().len() ==> step_accepts(
                old(self).steps()[old(self).position() as int],
                old(self).value(),
            ),
        ensures
            final(self).steps() == old(self).steps(),
            final(self).position() <= final(self).steps().len(),
            old(self).position() == old(self).steps().len() ==> e is Done && final(self).value() == old(self).value()
                && final(self).position() == old(self).position() && !final(self).waiting(),
            old(self).position() < old(self).steps().len() ==> ({
                let a = apply_view(old(self).steps()[old(self).position() as int], old(self).value());
                if a is ReadFile {
                    (e matches QuarantineEvent::ReadFile(n) && n@ == a->ReadFile_0) && final(self).waiting()
                        && final(self).position() == old(self).position()
                } else {
                    e is Continue && !final(self).waiting() && final(self).position() == old(self).position() + 1
                        && final(self).value() == guard_view(a, Seq::empty())
                }
            }),
    {
        if self.next >= self.list_q.len() {
            return QuarantineEvent::Done;
        }
        let r = apply_step(&self.list_q[self.next], &self.value_c);
        match guard_callable(r) {
            Ok(v) => {
                self.value_c = v;
                self.next = self.next + 1;
                QuarantineEvent::Continue
            },
            Err(name) => {
                self.waiting = true;
                QuarantineEvent::ReadFile(name)
            },
        }
    }

    /// Hands back the text of the file the machine waits for; the step is then taken.
    pub fn resume(&mut self, text: String)
        requires
            old(self).waiting(),
            old(self).position() < old(self).steps().len(),
        ensures
            final(self).steps() == old(self).steps(),
            final(self).value() == QView::Text(text@),
            final(self).position() == old(self).position() + 1,
            !final(self).waiting(),
    {
        assert(self.steps().len() == self.list_q@.len());
        let n = self.list_q.len();
        self.value_c = QuarantineValue::Text(text);
        if self.next < n {
            self.next = self.next + 1;
        }
        self.waiting = false;
    }

    /// The value so far.
    pub fn result(&self) -> (r: QuarantineValue)
        ensures
            r@ == self.value(),
    {
        copy_value(&self.value_c)
    }

    /// Runs all steps on `start_arg`, handing back `input` as the text of every file read, and
    /// gives the last value.
    pub fn run(&mut self, start_arg: QuarantineValue, input: &String) -> (r: QuarantineValue)
        requires
            chain_ok(old(self).steps(), start_arg@, input@),
        ensures
            r@ == run_view(old(self).steps(), start_arg@, input@),
            final(self).value() == r@,
            final(self).steps() == old(self).steps(),
    {
        let ghost steps = self.steps();
        self.start(start_arg);
        assert(steps.skip(0) =~= steps);
        loop
            invariant
                self.steps() == steps,
                !self.waiting(),
                self.position() <= steps.len(),
                chain_ok(steps.skip(self.position() as int), self.value(), input@),
                run_view(steps.skip(self.position() as int), self.value(), input@) == run_view(
                    steps,
                    start_arg@,
                    input@,
                ),
            ensures
                self.steps() == steps,
                self.position() == steps.len(),
                run_view(steps.skip(self.position() as int), self.value(), input@) == run_view(
                    steps,
                    start_arg@,
                    input@,
                ),
            decreases steps.len() - self.position(),
        {
            let ghost p = self.position() as int;
            let ghost rest = steps.skip(p);
            let ghost v0 = self.value();
            proof {
                assert(steps.skip(0) =~= steps);
                if p < steps.len() {
                    assert(rest[0] == steps[p]);
                    assert(rest.drop_first() =~= steps.skip(p + 1));
                }
            }
            match self.advance() {
                QuarantineEvent::Done => {
                    assert(rest =~= Seq::<StepView>::empty());
                    break;
                },
                QuarantineEvent::ReadFile(_) => {
                    self.resume(input.clone());
                },
                QuarantineEvent::Continue => {},
            }
        }
        assert(steps.skip(steps.len() as int) =~= Seq::<StepView>::empty());
        copy_value(&self.value_c)
    }
}

/// The quarantine pipeline on a file whose text is `input`: the file is read, its words
/// extracted, the stop words and one-byte words dropped, the rest counted, sorted, and the
/// words counted more than four times written out.
pub fn quarantine_pipeline(file_name: &String, stop_text: &String, input: &String) -> (s: String)
    requires
        countable(select(pieces(normalized(input@), Separator::Char(' ')), stop_word_pieces(stop_text@), usual_filter())),
    ensures
        s@ == report(
            sort_entries(
                tally(select(pieces(normalized(input@), Separator::Char(' ')), stop_word_pieces(stop_text@), usual_filter())),
                false,
            ),
            4,
            LineStyle::Dash,
        ),
{
    let mut q = TFQuarantine::new();
    q.push_fun(QuarantineStep::GetInput);
    q.push_fun(QuarantineStep::ExtractWords);
    q.push_fun(QuarantineStep::RemoveStopWords(StopWords::from_text(stop_text.as_str())));
    q.push_fun(QuarantineStep::Frequencies);
    q.push_fun(QuarantineStep::Sort);
    q.push_fun(QuarantineStep::PrintTop(4));
    let ghost steps = q.steps();
    let ghost ws = pieces(normalized(input@), Separator::Char(' '));
    let ghost kept = select(ws, stop_word_pieces(stop_text@), usual_filter());
    proof {
        let v0 = QView::Text(file_name@);
        let v1 = QView::Text(input@);
        let v2 = QView::Words(ws);
        let v3 = QView::Words(kept);
        let v4 = QView::Table(tally(kept));
        let v5 = QView::Pairs(sort_entries(tally(kept), false));
        let v6 = QView::Text(report(sort_entries(tally(kept), false), 4, LineStyle::Dash));
        assert(steps.drop_first().drop_first().drop_first().drop_first().drop_first().drop_first() =~= Seq::<StepView>::empty());
        assert(steps.len() == 6);
        assert(steps[0] == StepView::GetInput);
        assert(steps[1] == StepView::ExtractWords);
        assert(steps[2] == StepView::RemoveStopWords(stop_word_pieces(stop_text@)));
        assert(steps[3] == StepView::Frequencies);
        assert(steps[4] == StepView::Sort);
        assert(steps[5] == StepView::PrintTop(4));
        assert(steps.skip(5)[0] == steps[5]);
        assert(steps.skip(4)[0] == steps[4]);
        assert(steps.skip(3)[0] == steps[3]);
        assert(steps.skip(2)[0] == steps[2]);
        assert(steps.skip(1)[0] == steps[1]);
        let s5 = steps.skip(5);
        assert(s5.drop_first() =~= Seq::<StepView>::empty());
        assert(step_accepts(s5[0], v5));
        assert(apply_view(s5[0], v5) == v6);
        assert(guard_view(v6, input@) == v6);
        assert(chain_ok(s5.drop_first(), v6, input@));
        assert(run_view(s5.drop_first(), v6, input@) == v6);
        assert(chain_ok(s5, v5, input@));
        assert(run_view(s5, v5, input@) == v6);
        assert(steps.skip(4).drop_first() =~= steps.skip(5));
        assert(steps.skip(3).drop_first() =~= steps.skip(4));
        assert(steps.skip(2).drop_first() =~= steps.skip(3));
        assert(steps.skip(1).drop_first() =~= steps.skip(2));
        assert(steps.drop_first() =~= steps.skip(1));
        assert(chain_ok(steps.skip(4), v4, input@) && run_view(steps.skip(4), v4, input@) == v6);
        assert(chain_ok(steps.skip(3), v3, input@) && run_view(steps.skip(3), v3, input@) == v6);
        assert(chain_ok(steps.skip(2), v2, input@) && run_view(steps.skip(2), v2, input@) == v6);
        assert(chain_ok(steps.skip(1), v1, input@) && run_view(steps.skip(1), v1, input@) == v6);
        assert(chain_ok(steps, v0, input@) && run_view(steps, v0, input@) == v6);
    }
    let r = q.run(QuarantineValue::Text(file_name.clone()), input);
    match r {
        QuarantineValue::Text(s) => s,
        _ => String::new(),
    }
}

/// The quarantine pipeline when no count can overflow: `None` when a word it counts occurs
/// `i32::MAX` times or more, else what `quarantine_pipeline` gives.
pub fn quarantine_pipeline_checked(file_name: &String, stop_text: &String, input: &String) -> (r: Option<String>)
    ensures
        r is None <==> !countable(select(pieces(normalized(input@), Separator::Char(' ')), stop_word_pieces(stop_text@), usual_filter())),
        r matches Some(s) ==> s@ == report(
            sort_entries(
                tally(select(pieces(normalized(input@), Separator::Char(' ')), stop_word_pieces(stop_text@), usual_filter())),
                false,
            ),
            4,
            LineStyle::Dash,
        ),
{
    let kept = remove_stop_words(&extract_words(input), stop_text);
    if crate::freq::countable_words(&kept) {
        Some(quarantine_pipeline(file_name, stop_text, input))
    } else {
        None
    }
}

} // verus!
