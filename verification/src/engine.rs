//! The protocol of one scan: what to ask of the file system next, and what
//! each answer leads to.

use crate::error::{Error, ErrorView};
use crate::plan::{tasks_view, Job, JobView, TaskView};
use crate::report::{error_lines, lines, moved_lines, summarize, SortResult};
use crate::resolve::{candidate_path, candidate_target};
use vstd::prelude::*;

verus! {

/// What became of one entry that was to be moved.
#[derive(Debug, PartialEq, Eq)]
pub enum MoveOutcome {
    Moved { source: String, destination: String },
    Failed { source: String, reason: Error },
}

/// A `MoveOutcome` with its texts as character sequences.
pub enum OutcomeView {
    Moved { source: Seq<char>, destination: Seq<char> },
    Failed { source: Seq<char>, reason: ErrorView },
}

impl OutcomeView {
    /// A failure that is recorded for an entry is one of that entry alone:
    /// none that would end a whole call.
    pub open spec fn is_entry_level(self) -> bool {
        match self {
            OutcomeView::Moved { source, destination } => true,
            OutcomeView::Failed { source, reason } => !reason.is_fatal(),
        }
    }

    /// This outcome says that an entry could not be read.
    pub open spec fn is_unreadable(self) -> bool {
        self matches OutcomeView::Failed { source, reason } && reason is EntryUnreadable
    }

    /// Where the entry was before the scan.
    pub open spec fn source(self) -> Seq<char> {
        match self {
            OutcomeView::Moved { source, destination } => source,
            OutcomeView::Failed { source, reason } => source,
        }
    }
}

impl View for MoveOutcome {
    type V = OutcomeView;

    open spec fn view(&self) -> OutcomeView {
        match self {
            MoveOutcome::Moved { source, destination } => OutcomeView::Moved {
                source: source@,
                destination: destination@,
            },
            MoveOutcome::Failed { source, reason } => OutcomeView::Failed {
                source: source@,
                reason: reason@,
            },
        }
    }
}

/// The outcomes of a list, in order.
pub open spec fn outcomes_view(report: Seq<MoveOutcome>) -> Seq<OutcomeView> {
    report.map_values(|outcome: MoveOutcome| outcome@)
}

/// What the caller is to do next on the file system.
#[derive(Debug, PartialEq, Eq)]
pub enum Action {
    /// Make sure that the directory `path` exists, creating it and its
    /// missing ancestors.
    CreateDir { path: String },
    /// Find out whether anything exists at `path`.
    Probe { path: String },
    /// Rename `source` to `destination`.
    Move { source: String, destination: String },
    /// Nothing: the scan is over.
    Done,
}

/// An `Action` with its texts as character sequences.
pub enum ActionView {
    CreateDir { path: Seq<char> },
    Probe { path: Seq<char> },
    Move { source: Seq<char>, destination: Seq<char> },
    Done,
}

impl View for Action {
    type V = ActionView;

    open spec fn view(&self) -> ActionView {
        match self {
            Action::CreateDir { path } => ActionView::CreateDir { path: path@ },
            Action::Probe { path } => ActionView::Probe { path: path@ },
            Action::Move { source, destination } => ActionView::Move {
                source: source@,
                destination: destination@,
            },
            Action::Done => ActionView::Done,
        }
    }
}

/// What the file system answered to the last action.
#[derive(Debug, PartialEq, Eq)]
pub enum Event {
    /// The directory exists now.
    DirectoryReady,
    /// The directory could not be created.
    DirectoryFailed(String),
    /// Something exists at the probed path.
    PathTaken,
    /// Nothing exists at the probed path.
    PathFree,
    /// The entry was renamed.
    Moved,
    /// The entry could not be renamed.
    MoveFailed(String),
}

/// An `Event` with its texts as character sequences.
pub enum EventView {
    DirectoryReady,
    DirectoryFailed(Seq<char>),
    PathTaken,
    PathFree,
    Moved,
    MoveFailed(Seq<char>),
}

impl View for Event {
    type V = EventView;

    open spec fn view(&self) -> EventView {
        match self {
            Event::DirectoryReady => EventView::DirectoryReady,
            Event::DirectoryFailed(reason) => EventView::DirectoryFailed(reason@),
            Event::PathTaken => EventView::PathTaken,
            Event::PathFree => EventView::PathFree,
            Event::Moved => EventView::Moved,
            Event::MoveFailed(reason) => EventView::MoveFailed(reason@),
        }
    }
}

/// How far the handling of the current job has come.
#[derive(Clone, Copy, Debug, PartialEq, Eq, Structural)]
pub enum Phase {
    /// The destination directory is being made ready.
    Preparing,
    /// A free name is being looked for.
    Probing,
    /// The entry is being renamed.
    Moving,
}

/// The largest counter that is tried for one entry.
pub const COUNTER_LIMIT: u64 = 0xffff_ffff_ffff_ffff;

/// What is reported when every counter up to the limit gave a taken name.
pub open spec fn names_exhausted() -> Seq<char> {
    "no free name is left"@
}

/// The outcome of an entry that could not be read.
pub open spec fn unreadable(reason: Seq<char>) -> OutcomeView {
    OutcomeView::Failed { source: Seq::empty(), reason: ErrorView::EntryUnreadable(reason) }
}

/// The state of a scan as a mathematical value.
pub struct EngineView {
    /// What the scan has to settle, in the order of the listing.
    pub jobs: Seq<TaskView>,
    /// How many tasks are settled.
    pub cursor: nat,
    pub phase: Phase,
    /// The counter of the name that is tried for the current job.
    pub counter: nat,
    /// The outcomes of the settled tasks.
    pub report: Seq<OutcomeView>,
}

impl EngineView {
    /// The state before the first action: the entries that could not be
    /// read before the first job are reported already.
    pub open spec fn start(jobs: Seq<TaskView>) -> EngineView {
        (EngineView {
            jobs,
            cursor: 0,
            phase: Phase::Preparing,
            counter: 0,
            report: Seq::empty(),
        }).settle()
    }

    /// Every task has its outcome.
    pub open spec fn done(self) -> bool {
        self.cursor >= self.jobs.len()
    }

    /// The job that is being handled.
    pub open spec fn job(self) -> JobView
        recommends
            !self.done(),
            self.jobs[self.cursor as int] is Ok,
    {
        self.jobs[self.cursor as int]->Ok_0
    }

    /// The path that is tried for the current job.
    pub open spec fn target(self) -> Seq<char>
        recommends
            !self.done(),
    {
        candidate_path(self.job().dest_dir, self.job().name, self.counter)
    }

    /// One settled task has one outcome, in the order of the tasks: for a
    /// job an outcome for the source of that job, which holds no failure
    /// of the whole call, and for an entry that could not be read the
    /// failure that says so.
    pub open spec fn consistent(self) -> bool {
        &&& self.cursor <= self.jobs.len()
        &&& self.report.len() == self.cursor
        &&& forall|i: int|
            0 <= i < self.cursor ==> match self.jobs[i] {
                Ok(job) => (#[trigger] self.report[i]).source() == job.source
                    && self.report[i].is_entry_level(),
                Err(reason) => self.report[i] == unreadable(reason),
            }
        &&& self.counter <= COUNTER_LIMIT
        &&& self.phase == Phase::Preparing ==> self.counter == 0
    }

    /// The state is consistent, and the task at the cursor is a job: an
    /// entry that could not be read never waits for an answer.
    pub open spec fn wf(self) -> bool {
        &&& self.consistent()
        &&& !self.done() ==> self.jobs[self.cursor as int] is Ok
    }

    /// What the caller is asked to do in this state.
    pub open spec fn action(self) -> ActionView {
        if self.done() {
            ActionView::Done
        } else {
            match self.phase {
                Phase::Preparing => ActionView::CreateDir { path: self.job().dest_dir },
                Phase::Probing => ActionView::Probe { path: self.target() },
                Phase::Moving => ActionView::Move {
                    source: self.job().source,
                    destination: self.target(),
                },
            }
        }
    }

    /// The state after the current task ended with `outcome`.
    pub open spec fn record(self, outcome: OutcomeView) -> EngineView {
        EngineView {
            jobs: self.jobs,
            cursor: self.cursor + 1,
            phase: Phase::Preparing,
            counter: 0,
            report: self.report.push(outcome),
        }
    }

    /// The state once the entries at the cursor that could not be read are
    /// reported, each as a failure of its own: the cursor then stands at
    /// the next job, or at the end.
    pub open spec fn settle(self) -> EngineView
        decreases self.jobs.len() - self.cursor,
    {
        if self.cursor < self.jobs.len() {
            match self.jobs[self.cursor as int] {
                Ok(job) => self,
                Err(reason) => self.record(unreadable(reason)).settle(),
            }
        } else {
            self
        }
    }

    /// The state after the current job ended with `outcome`: the next job
    /// starts afresh.
    pub open spec fn conclude(self, outcome: OutcomeView) -> EngineView {
        self.record(outcome).settle()
    }

    /// The outcome of a job that failed for `reason`.
    pub open spec fn failure(self, reason: ErrorView) -> OutcomeView {
        OutcomeView::Failed { source: self.job().source, reason }
    }

    /// The state after `event` was the answer to `self.action()`. An answer
    /// that does not fit the action leaves the state as it is.
    pub open spec fn step(self, event: EventView) -> EngineView {
        if self.done() {
            self
        } else {
            match (self.phase, event) {
                (Phase::Preparing, EventView::DirectoryReady) => EngineView {
                    phase: Phase::Probing,
                    counter: 0,
                    ..self
                },
                (Phase::Preparing, EventView::DirectoryFailed(reason)) => self.conclude(
                    self.failure(
                        ErrorView::DirectoryCreateFailed { path: self.job().dest_dir, reason },
                    ),
                ),
                (Phase::Probing, EventView::PathFree) => EngineView {
                    phase: Phase::Moving,
                    ..self
                },
                (Phase::Probing, EventView::PathTaken) => if self.counter < COUNTER_LIMIT {
                    EngineView { counter: self.counter + 1, ..self }
                } else {
                    self.conclude(
                        self.failure(
                            ErrorView::MoveFailed {
                                source: self.job().source,
                                reason: names_exhausted(),
                            },
                        ),
                    )
                },
                (Phase::Moving, EventView::Moved) => self.conclude(
                    OutcomeView::Moved { source: self.job().source, destination: self.target() },
                ),
                (Phase::Moving, EventView::MoveFailed(reason)) => self.conclude(
                    self.failure(ErrorView::MoveFailed { source: self.job().source, reason }),
                ),
                _ => self,
            }
        }
    }

    /// The state after the events of `events`, one after the other.
    pub open spec fn run(self, events: Seq<EventView>) -> EngineView
        decreases events.len(),
    {
        if events.len() == 0 {
            self
        } else {
            self.run(events.drop_last()).step(events.last())
        }
    }
}

/// A scan in progress: the tasks, how far they have come, and the outcomes
/// so far.
pub struct SortEngine {
    jobs: Vec<Result<Job, String>>,
    cursor: usize,
    phase: Phase,
    counter: u64,
    report: Vec<MoveOutcome>,
}

impl View for SortEngine {
    type V = EngineView;

    closed spec fn view(&self) -> EngineView {
        EngineView {
            jobs: tasks_view(self.jobs@),
            cursor: self.cursor as nat,
            phase: self.phase,
            counter: self.counter as nat,
            report: outcomes_view(self.report@),
        }
    }
}

/// The state between two jobs, from its parts.
spec fn between(
    jobs: Seq<Result<Job, String>>,
    cursor: usize,
    report: Seq<MoveOutcome>,
) -> EngineView {
    EngineView {
        jobs: tasks_view(jobs),
        cursor: cursor as nat,
        phase: Phase::Preparing,
        counter: 0,
        report: outcomes_view(report),
    }
}

/// Reports the entries at the cursor that could not be read.
fn settle(jobs: Vec<Result<Job, String>>, cursor: usize, report: Vec<MoveOutcome>) -> (engine:
    SortEngine)
    requires
        between(jobs@, cursor, report@).consistent(),
    ensures
        engine@ == between(jobs@, cursor, report@).settle(),
{
    let ghost first = between(jobs@, cursor, report@);
    let mut cursor = cursor;
    let mut report = report;
    while cursor < jobs.len() && jobs[cursor].is_err()
        invariant
            between(jobs@, cursor, report@).consistent(),
            between(jobs@, cursor, report@).settle() == first.settle(),
        decreases jobs.len() - cursor,
    {
        let ghost before = outcomes_view(report@);
        assert(tasks_view(jobs@)[cursor as int] is Err);
        match &jobs[cursor] {
            Err(reason) => {
                let outcome = MoveOutcome::Failed {
                    source: String::new(),
                    reason: Error::EntryUnreadable(reason.clone()),
                };
                report.push(outcome);
                assert(outcomes_view(report@) =~= before.push(unreadable(reason@)));
            },
            Ok(_) => {},
        }
        cursor = cursor + 1;
    }
    proof {
        lemma_settle(first);
        if cursor < jobs.len() {
            assert(tasks_view(jobs@)[cursor as int] is Ok);
        }
    }
    SortEngine { jobs, cursor, phase: Phase::Preparing, counter: 0, report }
}

impl SortEngine {
    #[verifier::type_invariant]
    spec fn valid(self) -> bool {
        self@.wf()
    }

    /// Starts the handling of `jobs`.
    pub fn new(jobs: Vec<Result<Job, String>>) -> (engine: SortEngine)
        ensures
            engine@ == EngineView::start(tasks_view(jobs@)),
            engine@.wf(),
    {
        let report: Vec<MoveOutcome> = Vec::new();
        assert(outcomes_view(report@) =~= Seq::empty());
        let engine = settle(jobs, 0, report);
        proof {
            lemma_start_wf(tasks_view(jobs@));
        }
        engine
    }

    /// Tells whether every task has its outcome.
    pub fn is_done(&self) -> (done: bool)
        ensures
            done == self@.done(),
            self@.wf(),
    {
        proof {
            use_type_invariant(self);
        }
        self.cursor >= self.jobs.len()
    }

    fn current(&self) -> (job: &Job)
        requires
            !self@.done(),
        ensures
            job@ == self@.job(),
    {
        proof {
            use_type_invariant(self);
            assert(tasks_view(self.jobs@)[self.cursor as int] is Ok);
        }
        match &self.jobs[self.cursor] {
            Ok(job) => job,
            Err(_) => vstd::pervasive::unreached(),
        }
    }

    /// What the caller is to do next.
    pub fn action(&self) -> (action: Action)
        ensures
            action@ == self@.action(),
            self@.wf(),
    {
        proof {
            use_type_invariant(self);
        }
        if self.cursor >= self.jobs.len() {
            return Action::Done;
        }
        let job = self.current();
        match self.phase {
            Phase::Preparing => Action::CreateDir { path: job.dest_dir.clone() },
            Phase::Probing => Action::Probe {
                path: candidate_target(job.dest_dir.as_str(), job.name.as_str(), self.counter),
            },
            Phase::Moving => Action::Move {
                source: job.source.clone(),
                destination: candidate_target(
                    job.dest_dir.as_str(),
                    job.name.as_str(),
                    self.counter,
                ),
            },
        }
    }

    fn conclude(self, outcome: MoveOutcome) -> (next: SortEngine)
        requires
            !self@.done(),
            outcome@.source() == self@.job().source,
            outcome@.is_entry_level(),
        ensures
            next@ == self@.conclude(outcome@),
    {
        proof {
            use_type_invariant(&self);
            assert(self.cursor < self.jobs.len());
        }
        let SortEngine { jobs, cursor, phase, counter, report } = self;
        let mut report = report;
        let ghost before = outcomes_view(report@);
        report.push(outcome);
        assert(outcomes_view(report@) =~= before.push(outcome@));
        settle(jobs, cursor + 1, report)
    }

    /// Takes the answer to the last action and gives the state that it
    /// leads to, with the action to do next.
    pub fn step(self, event: Event) -> (next: (SortEngine, Action))
        ensures
            self@.wf(),
            next.0@ == self@.step(event@),
            next.0@.wf(),
            next.1@ == next.0@.action(),
    {
        proof {
            use_type_invariant(&self);
        }
        let engine = self.advance(event);
        let action = engine.action();
        (engine, action)
    }

    fn advance(self, event: Event) -> (next: SortEngine)
        ensures
            next@ == self@.step(event@),
    {
        proof {
            use_type_invariant(&self);
        }
        if self.cursor >= self.jobs.len() {
            return self;
        }
        let source = self.current().source.clone();
        match (self.phase, event) {
            (Phase::Preparing, Event::DirectoryReady) => {
                let SortEngine { jobs, cursor, phase, counter, report } = self;
                SortEngine { jobs, cursor, phase: Phase::Probing, counter: 0, report }
            },
            (Phase::Preparing, Event::DirectoryFailed(reason)) => {
                let path = self.current().dest_dir.clone();
                self.conclude(
                    MoveOutcome::Failed {
                        source,
                        reason: Error::DirectoryCreateFailed { path, reason },
                    },
                )
            },
            (Phase::Probing, Event::PathFree) => {
                let SortEngine { jobs, cursor, phase, counter, report } = self;
                SortEngine { jobs, cursor, phase: Phase::Moving, counter, report }
            },
            (Phase::Probing, Event::PathTaken) => {
                if self.counter < COUNTER_LIMIT {
                    let SortEngine { jobs, cursor, phase, counter, report } = self;
                    SortEngine { jobs, cursor, phase, counter: counter + 1, report }
                } else {
                    let reason = "no free name is left".to_owned();
                    self.conclude(
                        MoveOutcome::Failed {
                            source: source.clone(),
                            reason: Error::MoveFailed { source, reason },
                        },
                    )
                }
            },
            (Phase::Moving, Event::Moved) => {
                let job = self.current();
                let destination = candidate_target(
                    job.dest_dir.as_str(),
                    job.name.as_str(),
                    self.counter,
                );
                self.conclude(MoveOutcome::Moved { source, destination })
            },
            (Phase::Moving, Event::MoveFailed(reason)) => {
                self.conclude(
                    MoveOutcome::Failed {
                        source: source.clone(),
                        reason: Error::MoveFailed { source, reason },
                    },
                )
            },
            _ => self,
        }
    }

    /// Ends the scan and gives what it did so far as lines of text.
    pub fn finish(self) -> (result: SortResult)
        ensures
            self@.wf(),
            lines(result.moved_files@) == moved_lines(self@.report),
            lines(result.errors@) == error_lines(self@.report),
    {
        proof {
            use_type_invariant(&self);
        }
        summarize(&self.report)
    }

    /// The outcomes so far, one for each settled task.
    pub fn report(&self) -> (report: &Vec<MoveOutcome>)
        ensures
            outcomes_view(report@) == self@.report,
            self@.wf(),
    {
        proof {
            use_type_invariant(self);
        }
        &self.report
    }
}

/// `count` answers that the probed path is taken.
pub open spec fn taken(count: nat) -> Seq<EventView> {
    Seq::new(count, |i: int| EventView::PathTaken)
}

/// Settling reports the entries that could not be read and nothing else:
/// it keeps a state consistent, leaves the tasks and the outcomes so far as
/// they are, and ends at a job or at the end.
pub proof fn lemma_settle(state: EngineView)
    requires
        state.consistent(),
        state.phase == Phase::Preparing,
    ensures
        state.settle().wf(),
        state.settle().jobs == state.jobs,
        state.settle().cursor >= state.cursor,
        state.settle().phase == Phase::Preparing,
        state.settle().counter == 0,
        state.settle().report.take(state.cursor as int) == state.report,
    decreases state.jobs.len() - state.cursor,
{
    if state.cursor < state.jobs.len() {
        match state.jobs[state.cursor as int] {
            Ok(job) => {
                assert(state.report.take(state.cursor as int) =~= state.report);
            },
            Err(reason) => {
                let next = state.record(unreadable(reason));
                lemma_settle(next);
                assert(next.report.take(state.cursor as int) =~= state.report);
                assert(state.settle().report.take(state.cursor as int)
                    =~= state.settle().report.take(next.cursor as int).take(
                    state.cursor as int,
                ));
            },
        }
    } else {
        assert(state.report.take(state.cursor as int) =~= state.report);
    }
}

/// What settling adds does not depend on the outcomes so far.
pub proof fn lemma_settle_ignores_earlier_outcomes(a: EngineView, b: EngineView)
    requires
        a.consistent(),
        b.consistent(),
        a.jobs == b.jobs,
        a.cursor == b.cursor,
    ensures
        a.settle().cursor == b.settle().cursor,
        a.settle().report.skip(a.cursor as int) == b.settle().report.skip(b.cursor as int),
    decreases a.jobs.len() - a.cursor,
{
    if a.cursor < a.jobs.len() {
        match a.jobs[a.cursor as int] {
            Ok(job) => {
                assert(a.report.skip(a.cursor as int) =~= b.report.skip(b.cursor as int));
            },
            Err(reason) => {
                let next_a = a.record(unreadable(reason));
                let next_b = b.record(unreadable(reason));
                lemma_settle_ignores_earlier_outcomes(next_a, next_b);
                lemma_settle(next_a);
                lemma_settle(next_b);
                let end_a = a.settle().report;
                let end_b = b.settle().report;
                assert(end_a.take(next_a.cursor as int) == next_a.report);
                assert(end_b.take(next_b.cursor as int) == next_b.report);
                assert(end_a[a.cursor as int] == end_a.take(next_a.cursor as int)[a.cursor as int]);
                assert(end_b[b.cursor as int] == end_b.take(next_b.cursor as int)[b.cursor as int]);
                assert(end_a.skip(a.cursor as int) =~= seq![unreadable(reason)] + end_a.skip(
                    next_a.cursor as int,
                ));
                assert(end_b.skip(b.cursor as int) =~= seq![unreadable(reason)] + end_b.skip(
                    next_b.cursor as int,
                ));
            },
        }
    } else {
        assert(a.report.skip(a.cursor as int) =~= b.report.skip(b.cursor as int));
    }
}

/// Ending a job keeps the state well formed, leaves the outcomes so far as
/// they are, and puts the outcome of the job right behind them.
pub proof fn lemma_conclude(state: EngineView, outcome: OutcomeView)
    requires
        state.wf(),
        !state.done(),
        outcome.source() == state.job().source,
        outcome.is_entry_level(),
    ensures
        state.conclude(outcome).wf(),
        state.conclude(outcome).jobs == state.jobs,
        state.conclude(outcome).cursor > state.cursor,
        state.conclude(outcome).phase == Phase::Preparing,
        state.conclude(outcome).report.take(state.cursor as int) == state.report,
        state.conclude(outcome).report[state.cursor as int] == outcome,
{
    let next = state.record(outcome);
    lemma_settle(next);
    let end = state.conclude(outcome).report;
    assert(end.take(next.cursor as int) == next.report);
    assert(end.take(state.cursor as int) =~= end.take(next.cursor as int).take(
        state.cursor as int,
    ));
    assert(next.report.take(state.cursor as int) =~= state.report);
    assert(end[state.cursor as int] == end.take(next.cursor as int)[state.cursor as int]);
}

/// The outcome that a step records for the current job, if it ends the job.
pub open spec fn recorded(state: EngineView, event: EventView) -> Option<OutcomeView> {
    if state.done() {
        None
    } else {
        match (state.phase, event) {
            (Phase::Preparing, EventView::DirectoryFailed(reason)) => Some(
                state.failure(
                    ErrorView::DirectoryCreateFailed { path: state.job().dest_dir, reason },
                ),
            ),
            (Phase::Probing, EventView::PathTaken) => if state.counter < COUNTER_LIMIT {
                None
            } else {
                Some(
                    state.failure(
                        ErrorView::MoveFailed {
                            source: state.job().source,
                            reason: names_exhausted(),
                        },
                    ),
                )
            },
            (Phase::Moving, EventView::Moved) => Some(
                OutcomeView::Moved { source: state.job().source, destination: state.target() },
            ),
            (Phase::Moving, EventView::MoveFailed(reason)) => Some(
                state.failure(ErrorView::MoveFailed { source: state.job().source, reason }),
            ),
            _ => None,
        }
    }
}

/// A step either ends the current job with the outcome that `recorded`
/// gives, or leaves the cursor and the outcomes as they are.
pub proof fn lemma_step_records(state: EngineView, event: EventView)
    requires
        state.wf(),
    ensures
        match recorded(state, event) {
            Some(outcome) => state.step(event) == state.conclude(outcome) && outcome.source()
                == state.job().source && outcome.is_entry_level(),
            None => state.step(event).cursor == state.cursor && state.step(event).report
                == state.report && state.step(event).jobs == state.jobs,
        },
{
}

/// A scan starts well formed, with nothing to do where there is no task.
pub proof fn lemma_start_wf(jobs: Seq<TaskView>)
    ensures
        EngineView::start(jobs).wf(),
        EngineView::start(jobs).jobs == jobs,
        jobs.len() == 0 ==> EngineView::start(jobs).done(),
{
    lemma_settle(
        EngineView {
            jobs,
            cursor: 0,
            phase: Phase::Preparing,
            counter: 0,
            report: Seq::empty(),
        },
    );
}

/// A step keeps a state well formed.
pub proof fn lemma_step_wf(state: EngineView, event: EventView)
    requires
        state.wf(),
    ensures
        state.step(event).wf(),
{
    lemma_step_records(state, event);
    match recorded(state, event) {
        Some(outcome) => {
            lemma_conclude(state, outcome);
        },
        None => {},
    }
}

/// A step leaves the tasks and the outcomes so far as they are. Where it
/// ends the current job, the outcome of that job comes next in the report.
pub proof fn lemma_step_extends_report(state: EngineView, event: EventView)
    requires
        state.wf(),
    ensures
        state.step(event).jobs == state.jobs,
        state.step(event).cursor >= state.cursor,
        state.step(event).report.take(state.cursor as int) == state.report,
        state.step(event).cursor > state.cursor ==> state.step(event).report[state.cursor as int].source()
            == state.job().source,
{
    lemma_step_records(state, event);
    match recorded(state, event) {
        Some(outcome) => {
            lemma_conclude(state, outcome);
        },
        None => {
            assert(state.report.take(state.cursor as int) =~= state.report);
        },
    }
}

/// What a step does to the current job does not depend on what became of
/// the jobs before it: two states that differ in their outcomes only take
/// the same step, ask for the same action, and add the same outcomes.
pub proof fn lemma_step_ignores_earlier_outcomes(a: EngineView, b: EngineView, event: EventView)
    requires
        a.wf(),
        b.wf(),
        a.jobs == b.jobs,
        a.cursor == b.cursor,
        a.phase == b.phase,
        a.counter == b.counter,
    ensures
        a.action() == b.action(),
        a.step(event).cursor == b.step(event).cursor,
        a.step(event).phase == b.step(event).phase,
        a.step(event).counter == b.step(event).counter,
        a.step(event).report.skip(a.cursor as int) == b.step(event).report.skip(b.cursor as int),
{
    lemma_step_records(a, event);
    lemma_step_records(b, event);
    match recorded(a, event) {
        Some(outcome) => {
            assert(recorded(b, event) == Some(outcome));
            let next_a = a.record(outcome);
            let next_b = b.record(outcome);
            lemma_conclude(a, outcome);
            lemma_conclude(b, outcome);
            lemma_settle(next_a);
            lemma_settle(next_b);
            lemma_settle_ignores_earlier_outcomes(next_a, next_b);
            let end_a = a.step(event).report;
            let end_b = b.step(event).report;
            assert(end_a.skip(a.cursor as int) =~= seq![outcome] + end_a.skip(
                next_a.cursor as int,
            ));
            assert(end_b.skip(b.cursor as int) =~= seq![outcome] + end_b.skip(
                next_b.cursor as int,
            ));
        },
        None => {
            assert(a.report.skip(a.cursor as int) =~= b.report.skip(b.cursor as int));
        },
    }
}

/// A run over one event is one step.
pub proof fn lemma_run_one(state: EngineView, event: EventView)
    ensures
        state.run(seq![event]) == state.step(event),
{
    let events = seq![event];
    assert(events.drop_last() =~= Seq::empty());
    assert(state.run(events.drop_last()) == state);
}

/// Running over two lists of events in turn is running over both at once.
pub proof fn lemma_run_append(state: EngineView, first: Seq<EventView>, second: Seq<EventView>)
    ensures
        state.run(first + second) == state.run(first).run(second),
    decreases second.len(),
{
    if second.len() == 0 {
        assert(first + second =~= first);
    } else {
        assert((first + second).drop_last() =~= first + second.drop_last());
        lemma_run_append(state, first, second.drop_last());
    }
}

/// A run keeps a state well formed and leaves the tasks as they are.
pub proof fn lemma_run_wf(state: EngineView, events: Seq<EventView>)
    requires
        state.wf(),
    ensures
        state.run(events).wf(),
        state.run(events).jobs == state.jobs,
        state.run(events).cursor >= state.cursor,
    decreases events.len(),
{
    if events.len() > 0 {
        lemma_run_wf(state, events.drop_last());
        lemma_step_wf(state.run(events.drop_last()), events.last());
        lemma_step_extends_report(state.run(events.drop_last()), events.last());
    }
}

/// While a free name is looked for, each answer that the path is taken
/// moves on to the next counter.
pub proof fn lemma_probing_counts(state: EngineView, count: nat)
    requires
        state.wf(),
        !state.done(),
        state.phase == Phase::Probing,
        state.counter + count <= COUNTER_LIMIT,
    ensures
        state.run(taken(count)) == (EngineView { counter: state.counter + count, ..state }),
    decreases count,
{
    if count > 0 {
        assert(taken(count).drop_last() =~= taken((count - 1) as nat));
        lemma_probing_counts(state, (count - 1) as nat);
    }
}

/// An entry lands on the first name that is free. Where the directory is
/// ready, the first `count` names tried are taken, the next one is free and
/// the move succeeds, the entry is reported as moved to the path of counter
/// `count`, and the next job starts.
pub proof fn lemma_moves_to_first_free_name(state: EngineView, count: nat)
    requires
        state.wf(),
        !state.done(),
        state.phase == Phase::Preparing,
        count <= COUNTER_LIMIT,
    ensures
        state.run(
            seq![EventView::DirectoryReady] + taken(count) + seq![
                EventView::PathFree,
                EventView::Moved,
            ],
        ) == state.conclude(
            OutcomeView::Moved {
                source: state.job().source,
                destination: candidate_path(state.job().dest_dir, state.job().name, count),
            },
        ),
{
    let ready = seq![EventView::DirectoryReady];
    let free = seq![EventView::PathFree];
    let moved = seq![EventView::Moved];
    let probing = EngineView { phase: Phase::Probing, counter: 0, ..state };
    lemma_run_one(state, EventView::DirectoryReady);
    lemma_probing_counts(probing, count);
    lemma_run_append(state, ready, taken(count));
    let found = state.run(ready + taken(count));
    lemma_run_one(found, EventView::PathFree);
    lemma_run_one(found.step(EventView::PathFree), EventView::Moved);
    lemma_run_append(state, ready + taken(count), free);
    lemma_run_append(state, ready + taken(count) + free, moved);
    assert(ready + taken(count) + free + moved =~= ready + taken(count) + seq![
        EventView::PathFree,
        EventView::Moved,
    ]);
}

/// The path that an entry is moved to is the path that was just found
/// free: after that answer the action is the move of the current entry to
/// the very path that was probed.
pub proof fn lemma_move_follows_free_probe(state: EngineView)
    requires
        state.wf(),
        !state.done(),
        state.phase == Phase::Probing,
    ensures
        state.action() == (ActionView::Probe { path: state.target() }),
        state.step(EventView::PathFree).action() == (ActionView::Move {
            source: state.job().source,
            destination: state.target(),
        }),
{
}

/// When every task is settled, the report holds one outcome for each task,
/// in the order of the tasks.
pub proof fn lemma_finished_report(state: EngineView)
    requires
        state.wf(),
        state.done(),
    ensures
        state.action() == ActionView::Done,
        state.report.len() == state.jobs.len(),
        forall|i: int|
            0 <= i < state.jobs.len() ==> match state.jobs[i] {
                Ok(job) => (#[trigger] state.report[i]).source() == job.source,
                Err(reason) => state.report[i] == unreadable(reason),
            },
{
}

/// One failure does not end the batch. Whatever ends a job, a failure as
/// much as a move, the scan goes on with the same job after it, from the
/// beginning, and the outcomes before it stay as they were.
pub proof fn lemma_failure_is_isolated(state: EngineView, reason: Seq<char>)
    requires
        state.wf(),
        !state.done(),
        state.phase == Phase::Moving,
    ensures
        state.step(EventView::MoveFailed(reason)).cursor == state.step(EventView::Moved).cursor,
        state.step(EventView::MoveFailed(reason)).cursor > state.cursor,
        state.step(EventView::MoveFailed(reason)).phase == Phase::Preparing,
        state.step(EventView::MoveFailed(reason)).counter == 0,
        state.step(EventView::MoveFailed(reason)).action() == state.step(
            EventView::Moved,
        ).action(),
        state.step(EventView::MoveFailed(reason)).report.take(state.cursor as int)
            == state.report,
{
    let failed = state.failure(ErrorView::MoveFailed { source: state.job().source, reason });
    let moved = OutcomeView::Moved { source: state.job().source, destination: state.target() };
    lemma_conclude(state, failed);
    lemma_conclude(state, moved);
    lemma_settle(state.record(failed));
    lemma_settle(state.record(moved));
    lemma_settle_ignores_earlier_outcomes(state.record(failed), state.record(moved));
}

} // verus!
