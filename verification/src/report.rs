//! The outcome of a scan as the two lists that are shown to the user.

use crate::engine::{outcomes_view, MoveOutcome, OutcomeView};
use vstd::prelude::*;

verus! {

/// What a scan did, as lines of text: the entries that were moved and the
/// failures, each list in the order in which the entries were found.
#[derive(Debug, PartialEq, Eq)]
pub struct SortResult {
    pub moved_files: Vec<String>,
    pub errors: Vec<String>,
}

/// The texts of a list of strings.
pub open spec fn lines(list: Seq<String>) -> Seq<Seq<char>> {
    list.map_values(|line: String| line@)
}

/// The line that reports a move.
pub open spec fn moved_message(source: Seq<char>, destination: Seq<char>) -> Seq<char> {
    "Moved "@ + source + " to "@ + destination
}

/// The lines for the entries of `report` that were moved, in order.
pub open spec fn moved_lines(report: Seq<OutcomeView>) -> Seq<Seq<char>>
    decreases report.len(),
{
    if report.len() == 0 {
        Seq::empty()
    } else {
        let earlier = moved_lines(report.drop_last());
        match report.last() {
            OutcomeView::Moved { source, destination } => earlier.push(
                moved_message(source, destination),
            ),
            OutcomeView::Failed { source, reason } => earlier,
        }
    }
}

/// The lines for the entries of `report` that failed, in order.
pub open spec fn error_lines(report: Seq<OutcomeView>) -> Seq<Seq<char>>
    decreases report.len(),
{
    if report.len() == 0 {
        Seq::empty()
    } else {
        let earlier = error_lines(report.drop_last());
        match report.last() {
            OutcomeView::Moved { source, destination } => earlier,
            OutcomeView::Failed { source, reason } => earlier.push(reason.message()),
        }
    }
}

/// Every outcome gives one line, in one list or the other.
pub proof fn lemma_lines_partition(report: Seq<OutcomeView>)
    ensures
        moved_lines(report).len() + error_lines(report).len() == report.len(),
    decreases report.len(),
{
    if report.len() > 0 {
        lemma_lines_partition(report.drop_last());
    }
}

/// Writes a report as the two lists of lines.
pub fn summarize(report: &Vec<MoveOutcome>) -> (result: SortResult)
    ensures
        lines(result.moved_files@) == moved_lines(outcomes_view(report@)),
        lines(result.errors@) == error_lines(outcomes_view(report@)),
{
    let mut moved_files: Vec<String> = Vec::new();
    let mut errors: Vec<String> = Vec::new();
    let mut index: usize = 0;
    assert(lines(moved_files@) =~= Seq::empty());
    assert(lines(errors@) =~= Seq::empty());
    while index < report.len()
        invariant
            index <= report.len(),
            lines(moved_files@) == moved_lines(outcomes_view(report@).take(index as int)),
            lines(errors@) == error_lines(outcomes_view(report@).take(index as int)),
        decreases report.len() - index,
    {
        let ghost moved_before = lines(moved_files@);
        let ghost errors_before = lines(errors@);
        proof {
            let next = outcomes_view(report@).take(index + 1);
            assert(next.drop_last() == outcomes_view(report@).take(index as int));
            assert(next.last() == report@[index as int]@);
        }
        match &report[index] {
            MoveOutcome::Moved { source, destination } => {
                let line = "Moved ".to_owned().concat(source.as_str()).concat(" to ").concat(
                    destination.as_str(),
                );
                moved_files.push(line);
                assert(lines(moved_files@) =~= moved_before.push(line@));
            },
            MoveOutcome::Failed { source, reason } => {
                let line = reason.message();
                errors.push(line);
                assert(lines(errors@) =~= errors_before.push(line@));
            },
        }
        index = index + 1;
    }
    assert(outcomes_view(report@).take(index as int) == outcomes_view(report@));
    SortResult { moved_files, errors }
}

} // verus!
