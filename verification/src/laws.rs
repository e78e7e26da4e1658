//! What holds of the runs of every input.

use vstd::prelude::*;
use crate::runs::{extend, output_text, record_text, runs, RunView};
use crate::trim::same_content;

verus! {

/// The number of lines that `runs` hold together.
pub open spec fn total_count(runs: Seq<RunView>) -> nat
    decreases runs.len(),
{
    if runs.len() == 0 {
        0
    } else {
        total_count(runs.drop_last()) + runs.last().count
    }
}

/// The texts of `runs`, one for one.
pub open spec fn run_texts(runs: Seq<RunView>) -> Seq<Seq<char>> {
    runs.map_values(|r: RunView| r.text)
}

/// A run of one line for each of `lines`.
pub open spec fn single_runs(lines: Seq<Seq<char>>) -> Seq<RunView> {
    lines.map_values(|l: Seq<char>| RunView { text: l, count: 1 })
}

/// Whether no line of `lines` has the content of the line before it.
pub open spec fn no_adjacent_match(lines: Seq<Seq<char>>) -> bool {
    forall|i: int| 0 < i < lines.len() ==> !same_content(#[trigger] lines[i - 1], lines[i])
}

/// Whether a run begins at line `i`: at the first line, and at each line
/// whose content is not that of the line before it.
pub open spec fn starts_run(lines: Seq<Seq<char>>, i: int) -> bool {
    i == 0 || !same_content(lines[i - 1], lines[i])
}

/// The lines at which a run begins, in the order of the input.
pub open spec fn first_lines(lines: Seq<Seq<char>>) -> Seq<Seq<char>>
    decreases lines.len(),
{
    if lines.len() == 0 {
        Seq::empty()
    } else if starts_run(lines, lines.len() - 1) {
        first_lines(lines.drop_last()).push(lines.last())
    } else {
        first_lines(lines.drop_last())
    }
}

/// One more line adds one to the number of lines that the runs hold.
pub proof fn lemma_extend_total(found: Seq<RunView>, line: Seq<char>)
    ensures
        total_count(extend(found, line)) == total_count(found) + 1,
{
    let next = extend(found, line);
    if found.len() > 0 && same_content(found.last().text, line) {
        assert(next.drop_last() =~= found.drop_last());
    } else {
        assert(next.drop_last() =~= found);
        assert(total_count(found.push(RunView { text: line, count: 1 })) == total_count(found) + 1);
    }
}

/// Counts are conserved: the counts of the runs of an input add up to the
/// number of its lines, and no run is empty.
pub proof fn lemma_counts_conserved(lines: Seq<Seq<char>>)
    ensures
        total_count(runs(lines)) == lines.len(),
        forall|j: int| 0 <= j < runs(lines).len() ==> (#[trigger] runs(lines)[j]).count >= 1,
    decreases lines.len(),
{
    if lines.len() > 0 {
        lemma_counts_conserved(lines.drop_last());
        lemma_extend_total(runs(lines.drop_last()), lines.last());
    }
}

/// The last run of a nonempty input has the content of the last line.
pub proof fn lemma_last_run_matches(lines: Seq<Seq<char>>)
    requires
        lines.len() > 0,
    ensures
        runs(lines).len() > 0,
        same_content(runs(lines).last().text, lines.last()),
    decreases lines.len(),
{
    if lines.len() > 1 {
        lemma_last_run_matches(lines.drop_last());
    }
}

/// No two runs that follow each other have the same content.
pub proof fn lemma_no_adjacent_match(lines: Seq<Seq<char>>)
    ensures
        no_adjacent_match(run_texts(runs(lines))),
    decreases lines.len(),
{
    if lines.len() > 0 {
        lemma_no_adjacent_match(lines.drop_last());
        let before = run_texts(runs(lines.drop_last()));
        let after = run_texts(runs(lines));
        assert forall|i: int| 0 < i < after.len() implies !same_content(
            #[trigger] after[i - 1],
            after[i],
        ) by {
            if i < before.len() {
                assert(after[i - 1] == before[i - 1]);
                assert(after[i] == before[i]);
            }
        }
    }
}

/// Order is kept: the texts of the runs are the lines at which a run begins,
/// each as it was read and in the order of the input.
pub proof fn lemma_texts_are_first_lines(lines: Seq<Seq<char>>)
    ensures
        run_texts(runs(lines)) == first_lines(lines),
    decreases lines.len(),
{
    if lines.len() > 0 {
        let rest = lines.drop_last();
        lemma_texts_are_first_lines(rest);
        if rest.len() > 0 {
            lemma_last_run_matches(rest);
            assert(rest.last() == lines[lines.len() - 2]);
        }
        assert(run_texts(runs(lines)) =~= first_lines(lines));
    }
}

/// The number of lines that stand before run `j` of `runs`.
pub open spec fn run_start(runs: Seq<RunView>, j: int) -> nat {
    total_count(runs.take(j))
}

/// Whether run `j` of `found` is a stretch of `lines`: it begins where the
/// runs before it end, its text is the first line of the stretch, and each
/// line of the stretch has the content of that text.
pub open spec fn run_spans(lines: Seq<Seq<char>>, found: Seq<RunView>, j: int) -> bool {
    let start = run_start(found, j);
    let run = found[j];
    &&& run.count >= 1
    &&& start + run.count <= lines.len()
    &&& run.text == lines[start as int]
    &&& forall|k: int| start <= k < start + run.count ==> same_content(#[trigger] lines[k], run.text)
}

/// Each run is a stretch of the input that begins where the run before it
/// ends: its text is the first line of the stretch, its count the length of
/// the stretch, and every line of the stretch has the content of its text.
pub proof fn lemma_runs_span(lines: Seq<Seq<char>>)
    ensures
        forall|j: int| 0 <= j < runs(lines).len() ==> #[trigger] run_spans(lines, runs(lines), j),
    decreases lines.len(),
{
    if lines.len() > 0 {
        let rest = lines.drop_last();
        let before = runs(rest);
        let after = runs(lines);
        lemma_runs_span(rest);
        lemma_counts_conserved(rest);
        assert forall|j: int| 0 <= j < after.len() implies #[trigger] run_spans(lines, after, j) by {
            let start = run_start(after, j);
            let run = after[j];
            if j < after.len() - 1 {
                assert(run_spans(rest, before, j));
                assert(after.take(j) =~= before.take(j));
                assert(run == before[j]);
                assert forall|k: int| start <= k < start + run.count implies same_content(
                    #[trigger] lines[k],
                    run.text,
                ) by {
                    assert(lines[k] == rest[k]);
                }
                assert(lines[start as int] == rest[start as int]);
            } else if before.len() > 0 && same_content(before.last().text, lines.last()) {
                assert(run_spans(rest, before, j));
                assert(after.take(j) =~= before.take(j));
                assert(before.take(j) =~= before.drop_last());
                assert(start + before[j].count == rest.len());
                assert forall|k: int| start <= k < start + run.count implies same_content(
                    #[trigger] lines[k],
                    run.text,
                ) by {
                    if k < rest.len() {
                        assert(lines[k] == rest[k]);
                    }
                }
                assert(lines[start as int] == rest[start as int]);
            } else {
                assert(after.take(j) =~= before);
                assert(start == rest.len());
            }
        }
    }
}

/// Lines of which none has the content of the line before it are each a run
/// of their own.
pub proof fn lemma_runs_of_distinct(lines: Seq<Seq<char>>)
    requires
        no_adjacent_match(lines),
    ensures
        runs(lines) == single_runs(lines),
    decreases lines.len(),
{
    if lines.len() > 0 {
        let rest = lines.drop_last();
        assert forall|i: int| 0 < i < rest.len() implies !same_content(
            #[trigger] rest[i - 1],
            rest[i],
        ) by {
            assert(rest[i - 1] == lines[i - 1]);
        }
        lemma_runs_of_distinct(rest);
        if rest.len() > 0 {
            assert(rest.last() == lines[lines.len() - 1 - 1]);
        }
        assert(runs(lines) =~= single_runs(lines));
    }
}

/// Without counts, what is written for runs is their texts one after the
/// other, whatever their counts.
pub proof fn lemma_output_without_counts(a: Seq<RunView>, b: Seq<RunView>)
    requires
        run_texts(a) == run_texts(b),
    ensures
        output_text(a, false) == output_text(b, false),
    decreases a.len(),
{
    assert(a.len() == run_texts(a).len());
    assert(b.len() == run_texts(b).len());
    if a.len() > 0 {
        assert(run_texts(a.drop_last()) =~= run_texts(a).drop_last());
        assert(run_texts(b.drop_last()) =~= run_texts(b).drop_last());
        lemma_output_without_counts(a.drop_last(), b.drop_last());
        assert(a.last().text == run_texts(a).last());
        assert(b.last().text == run_texts(b).last());
        assert(record_text(a.last(), false) =~= a.last().text);
        assert(record_text(b.last(), false) =~= b.last().text);
    }
}

/// The filter is idempotent: fed with the lines that it wrote without
/// counts, it finds each of them to be a run of one line, and writes them
/// again as they are.
pub proof fn lemma_idempotent(lines: Seq<Seq<char>>)
    ensures
        runs(run_texts(runs(lines))) == single_runs(run_texts(runs(lines))),
        run_texts(runs(run_texts(runs(lines)))) == run_texts(runs(lines)),
        output_text(runs(run_texts(runs(lines))), false) == output_text(runs(lines), false),
{
    let written = run_texts(runs(lines));
    lemma_no_adjacent_match(lines);
    lemma_runs_of_distinct(written);
    assert(run_texts(single_runs(written)) =~= written);
    lemma_output_without_counts(runs(written), runs(lines));
}

} // verus!
