//! Runs of adjacent lines with the same content, and the filter that finds
//! them one line at a time.

use vstd::prelude::*;
use vstd::string::*;
use crate::field::{field_text, format_field};
use crate::laws::{
    first_lines, lemma_counts_conserved, lemma_no_adjacent_match, lemma_texts_are_first_lines,
    no_adjacent_match, run_texts, total_count,
};
use crate::trim::{lines_match, same_content};

verus! {

/// A closed run: the first of its lines as it was read, and how many lines
/// it holds.
#[derive(Debug, PartialEq, Eq)]
pub struct Run {
    pub text: String,
    pub count: usize,
}

/// What a run is in contracts.
pub struct RunView {
    pub text: Seq<char>,
    pub count: nat,
}

impl View for Run {
    type V = RunView;

    open spec fn view(&self) -> RunView {
        RunView { text: self.text@, count: self.count as nat }
    }
}

/// The runs of `lines` with one more line behind them: the line joins the
/// last run where it has the content of that run's text, and else opens a
/// run of its own.
pub open spec fn extend(runs: Seq<RunView>, line: Seq<char>) -> Seq<RunView> {
    if runs.len() > 0 && same_content(runs.last().text, line) {
        runs.drop_last().push(RunView { text: runs.last().text, count: runs.last().count + 1 })
    } else {
        runs.push(RunView { text: line, count: 1 })
    }
}

/// The runs of `lines`, in the order of the input.
pub open spec fn runs(lines: Seq<Seq<char>>) -> Seq<RunView>
    decreases lines.len(),
{
    if lines.len() == 0 {
        Seq::empty()
    } else {
        extend(runs(lines.drop_last()), lines.last())
    }
}

/// Whether `line` goes on the run that is open.
pub open spec fn continues(open: Option<RunView>, line: Seq<char>) -> bool {
    open matches Some(r) && same_content(r.text, line)
}

/// The run that is open once `line` has been fed.
pub open spec fn after_feed(open: Option<RunView>, line: Seq<char>) -> RunView {
    if continues(open, line) {
        RunView { text: open.unwrap().text, count: open.unwrap().count + 1 }
    } else {
        RunView { text: line, count: 1 }
    }
}

/// The run that feeding `line` closes, if it closes one.
pub open spec fn closed_by_feed(open: Option<RunView>, line: Seq<char>) -> Option<RunView> {
    if continues(open, line) {
        None
    } else {
        open
    }
}

/// What a closed run is in contracts, where there is one.
pub open spec fn closed_view(closed: Option<Run>) -> Option<RunView> {
    match closed {
        Some(r) => Some(r@),
        None => None,
    }
}

/// The views of `runs`, one for one.
pub open spec fn run_views(runs: Seq<Run>) -> Seq<RunView> {
    runs.map_values(|r: Run| r@)
}

/// The characters of each of `lines`, one for one.
pub open spec fn line_texts(lines: Seq<&str>) -> Seq<Seq<char>> {
    lines.map_values(|l: &str| l@)
}

/// What is written for a run: the count field, then the run's text as it
/// was read.
pub open spec fn record_text(run: RunView, show_count: bool) -> Seq<char> {
    field_text(run.count, show_count) + run.text
}

/// What is written for `runs`: their records, one after the other.
pub open spec fn output_text(runs: Seq<RunView>, show_count: bool) -> Seq<char>
    decreases runs.len(),
{
    if runs.len() == 0 {
        Seq::empty()
    } else {
        output_text(runs.drop_last(), show_count) + record_text(runs.last(), show_count)
    }
}

/// The zero or one runs that are open.
pub open spec fn open_runs(open: Option<RunView>) -> Seq<RunView> {
    match open {
        Some(r) => seq![r],
        None => Seq::empty(),
    }
}

/// Feeding a line does to the closed runs and the open one what `extend`
/// does to the runs as a whole. No run is closed before one was opened, and
/// once a line has been fed a run stays open.
pub proof fn lemma_feed_extends(closed: Seq<RunView>, open: Option<RunView>, line: Seq<char>)
    requires
        open is None ==> closed.len() == 0,
    ensures
        extend(closed + open_runs(open), line) == closed + open_runs(closed_by_feed(open, line))
            + seq![after_feed(open, line)],
{
    let all = closed + open_runs(open);
    let next = closed + open_runs(closed_by_feed(open, line)) + seq![after_feed(open, line)];
    match open {
        Some(r) => {
            assert(all.last() == r);
            assert(all.drop_last() =~= closed);
            assert(extend(all, line) =~= next);
        },
        None => {
            assert(all =~= closed);
            assert(extend(all, line) =~= next);
        },
    }
}

impl Run {
    /// The record of this run as it is written out.
    pub fn record(&self, show_count: bool) -> (r: String)
        ensures
            r@ == record_text(self@, show_count),
    {
        let mut s = format_field(self.count, show_count);
        s.append(self.text.as_str());
        s
    }
}

/// The state of the filter between two lines: the run that is open, if any.
pub struct Filter {
    text: String,
    count: usize,
}

impl View for Filter {
    type V = Option<RunView>;

    /// The run that is open.
    closed spec fn view(&self) -> Option<RunView> {
        if self.count == 0 {
            None
        } else {
            Some(RunView { text: self.text@, count: self.count as nat })
        }
    }
}

impl Filter {
    /// A filter that has read nothing.
    pub fn new() -> (r: Filter)
        ensures
            r@ is None,
    {
        Filter { text: String::new(), count: 0 }
    }

    /// Whether the open run has room for one more line.
    pub open spec fn has_room(&self) -> bool {
        self@ matches Some(r) ==> r.count < usize::MAX
    }

    /// Whether the open run holds as many lines as can be counted, so that
    /// no further line can be fed.
    pub fn is_full(&self) -> (r: bool)
        ensures
            r == !self.has_room(),
    {
        self.count == usize::MAX
    }

    /// Takes the next line. The line joins the open run if it has that
    /// run's content; otherwise the open run, if any, is closed and handed
    /// back, and the line opens a new one.
    pub fn feed(&mut self, line: &str) -> (closed: Option<Run>)
        requires
            old(self).has_room(),
        ensures
            final(self)@ == Some(after_feed(old(self)@, line@)),
            closed_view(closed) == closed_by_feed(old(self)@, line@),
            closed matches Some(run) ==> run.count >= 1,
    {
        if self.count == 0 {
            self.text = line.to_owned();
            self.count = 1;
            None
        } else if lines_match(line, self.text.as_str()) {
            self.count = self.count + 1;
            None
        } else {
            let run = Run { text: self.text.clone(), count: self.count };
            self.text = line.to_owned();
            self.count = 1;
            Some(run)
        }
    }

    /// Ends the input: hands back the run that is still open, if any.
    pub fn finish(self) -> (closed: Option<Run>)
        ensures
            closed_view(closed) == self@,
            closed matches Some(run) ==> run.count >= 1,
    {
        if self.count == 0 {
            None
        } else {
            Some(Run { text: self.text, count: self.count })
        }
    }
}

/// The runs of `lines`, each with the first of its lines as text. Their
/// counts add up to the number of lines, their texts are the lines at which
/// a run begins, and no run has the content of the run before it.
pub fn collapse(lines: &[&str]) -> (out: Vec<Run>)
    ensures
        run_views(out@) == runs(line_texts(lines@)),
        total_count(run_views(out@)) == lines@.len(),
        run_texts(run_views(out@)) == first_lines(line_texts(lines@)),
        no_adjacent_match(run_texts(run_views(out@))),
{
    let ghost texts = line_texts(lines@);
    let mut out: Vec<Run> = Vec::new();
    let mut filter = Filter::new();
    let mut i: usize = 0;
    assert(run_views(out@) + open_runs(filter@) =~= runs(texts.take(0)));
    while i < lines.len()
        invariant
            i <= lines.len(),
            texts == line_texts(lines@),
            run_views(out@) + open_runs(filter@) == runs(texts.take(i as int)),
            filter@ is None ==> out@.len() == 0,
            filter@ matches Some(r) ==> r.count <= i,
        decreases lines.len() - i,
    {
        let ghost before = filter@;
        let ghost closed_before = run_views(out@);
        let closed = filter.feed(lines[i]);
        proof {
            lemma_feed_extends(closed_before, before, lines[i as int]@);
            assert(texts.take(i + 1).drop_last() =~= texts.take(i as int));
            assert(texts.take(i + 1).last() == lines[i as int]@);
        }
        match closed {
            Some(run) => {
                out.push(run);
                assert(run_views(out@) =~= closed_before + open_runs(Some(run@)));
            },
            None => {
                assert(closed_before + open_runs(None) =~= closed_before);
            },
        }
        i = i + 1;
    }
    assert(texts.take(i as int) =~= texts);
    let ghost closed_before = run_views(out@);
    match filter.finish() {
        Some(run) => {
            out.push(run);
            assert(run_views(out@) =~= closed_before + open_runs(Some(run@)));
        },
        None => {
            assert(closed_before + open_runs(None) =~= closed_before);
        },
    }
    proof {
        lemma_counts_conserved(texts);
        lemma_texts_are_first_lines(texts);
        lemma_no_adjacent_match(texts);
    }
    out
}

/// What the filter writes for `lines`: the record of each run, in order.
pub fn filter_lines(lines: &[&str], show_count: bool) -> (out: String)
    ensures
        out@ == output_text(runs(line_texts(lines@)), show_count),
{
    let found = collapse(lines);
    let ghost views = run_views(found@);
    let mut out = String::new();
    let mut j: usize = 0;
    while j < found.len()
        invariant
            j <= found.len(),
            views == run_views(found@),
            out@ == output_text(views.take(j as int), show_count),
        decreases found.len() - j,
    {
        let record = found[j].record(show_count);
        out.append(record.as_str());
        proof {
            assert(views.take(j + 1).drop_last() =~= views.take(j as int));
            assert(views.take(j + 1).last() == found[j as int]@);
        }
        j = j + 1;
    }
    assert(views.take(j as int) =~= views);
    out
}

} // verus!
