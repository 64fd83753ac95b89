//! Execution of a run: its attempts one after another, what is recorded of each, when an
//! attempt is made again, and when a process is stopped.
//!
//! The rules are a state machine. [`run_job`] starts a run; [`run_attempt`] is told what became
//! of an attempt; [`finalize`] closes the run. Each gives the actions to carry out, in order.

use crate::config;
use crate::config::EffectiveJob;
use crate::config_hash;
use crate::config_hash::job_config_hash;
use crate::events;
use crate::events::{emit, utc, EventKind, EventRow};
use crate::state::Stamp;
use crate::text;
use crate::text::{push_decimal, signed_decimal_text};
use vstd::prelude::*;
use vstd::string::*;

verus! {

/// How long a process group is given between the request to stop and being killed, in seconds.
pub const KILL_GRACE_SECS: u64 = 5;

/// The exit code that stands for a command that could not be started.
pub const SPAWN_FAILED: i32 = 127;

/// The exit code that stands for a process without one.
pub const NO_EXIT_CODE: i32 = -1;

/// The signal that a process group is asked to stop with.
pub const TERMINATE: i32 = 15;

/// How a run ended.
#[derive(Debug, Clone, Copy, PartialEq, Eq, Structural)]
pub enum RunStatus {
    Success,
    Failed,
    Timeout,
    Cancelled,
}

impl RunStatus {
    pub open spec fn name(self) -> Seq<char> {
        match self {
            RunStatus::Success => "success"@,
            RunStatus::Failed => "failed"@,
            RunStatus::Timeout => "timeout"@,
            RunStatus::Cancelled => "cancelled"@,
        }
    }

    /// The kind of the event that closes the run.
    pub open spec fn closing_kind(self) -> EventKind {
        match self {
            RunStatus::Success => EventKind::RunSucceeded,
            RunStatus::Failed => EventKind::RunFailed,
            RunStatus::Timeout => EventKind::RunTimeout,
            RunStatus::Cancelled => EventKind::RunCancelled,
        }
    }

    pub fn as_str(self) -> (r: &'static str)
        ensures
            r@ == self.name(),
    {
        match self {
            RunStatus::Success => "success",
            RunStatus::Failed => "failed",
            RunStatus::Timeout => "timeout",
            RunStatus::Cancelled => "cancelled",
        }
    }
}

/// How one attempt ended.
#[derive(Debug, Clone, Copy, PartialEq, Eq, Structural)]
pub enum AttemptResult {
    Exited(i32),
    Timeout,
    Cancelled,
}

impl AttemptResult {
    /// The status of the attempt, and of the run where it is the last.
    pub open spec fn status(self) -> RunStatus {
        match self {
            AttemptResult::Exited(c) => if c == 0 {
                RunStatus::Success
            } else {
                RunStatus::Failed
            },
            AttemptResult::Timeout => RunStatus::Timeout,
            AttemptResult::Cancelled => RunStatus::Cancelled,
        }
    }

    pub open spec fn exit_code(self) -> Option<i32> {
        match self {
            AttemptResult::Exited(c) => Some(c),
            _ => None,
        }
    }

    /// The signal that ended the attempt.
    pub open spec fn signal(self) -> Option<i32> {
        match self {
            AttemptResult::Exited(_) => None,
            _ => Some(TERMINATE),
        }
    }

    fn run_status(self) -> (r: RunStatus)
        ensures
            r == self.status(),
    {
        match self {
            AttemptResult::Exited(c) => if c == 0 {
                RunStatus::Success
            } else {
                RunStatus::Failed
            },
            AttemptResult::Timeout => RunStatus::Timeout,
            AttemptResult::Cancelled => RunStatus::Cancelled,
        }
    }

    fn code(self) -> (r: Option<i32>)
        ensures
            r == self.exit_code(),
    {
        match self {
            AttemptResult::Exited(c) => Some(c),
            _ => None,
        }
    }
}

/// What a run comes to.
#[derive(Debug)]
pub struct RunOutcome {
    pub id: String,
    pub job_id: String,
    pub status: RunStatus,
    pub started_at: String,
    pub finished_at: String,
    pub exit_code: Option<i32>,
    pub attempts: u32,
}

// -------------------------------------------------------------------------- the actions

/// Something to carry out for a run.
#[derive(Debug)]
pub enum RunAction {
    /// Record the run as created.
    CreateRun { run_id: String, job_id: String, config_hash: String, trigger: &'static str, at: Stamp },
    /// Record the run as running.
    MarkRunning { run_id: String, at: Stamp },
    /// Record an event.
    Record(EventRow),
    /// Record an attempt as started.
    StartAttempt { attempt_id: String, run_id: String, number: u32, at: Stamp },
    /// Start the process of the attempt.
    Spawn { number: u32 },
    /// Record the process of the attempt.
    RecordPid { attempt_id: String, pid: i32 },
    /// Wait for the process of the attempt.
    Wait,
    /// Record an attempt as finished.
    FinishAttempt {
        attempt_id: String,
        status: &'static str,
        exit_code: Option<i32>,
        signal: Option<i32>,
        error: Option<String>,
        at: Stamp,
    },
    /// Read the clock and close the run.
    Close,
    /// Record the run as finished.
    FinishRun { run_id: String, status: &'static str, exit_code: Option<i32>, at: Stamp },
    /// Record the outcome with the job.
    UpdateOutcome { job_id: String, run_id: String, success: bool, at: Stamp },
    /// Hand the outcome out.
    Report(RunOutcome),
}

/// A [`RunAction`] with its texts taken as characters.
pub enum ActionView {
    CreateRun {
        run_id: Seq<char>,
        job_id: Seq<char>,
        config_hash: Seq<char>,
        trigger: Seq<char>,
        at: Stamp,
    },
    MarkRunning { run_id: Seq<char>, at: Stamp },
    Record(events::EventRowView),
    StartAttempt { attempt_id: Seq<char>, run_id: Seq<char>, number: u32, at: Stamp },
    Spawn { number: u32 },
    RecordPid { attempt_id: Seq<char>, pid: i32 },
    Wait,
    FinishAttempt {
        attempt_id: Seq<char>,
        status: Seq<char>,
        exit_code: Option<i32>,
        signal: Option<i32>,
        error: Option<Seq<char>>,
        at: Stamp,
    },
    Close,
    FinishRun { run_id: Seq<char>, status: Seq<char>, exit_code: Option<i32>, at: Stamp },
    UpdateOutcome { job_id: Seq<char>, run_id: Seq<char>, success: bool, at: Stamp },
    Report {
        id: Seq<char>,
        job_id: Seq<char>,
        status: RunStatus,
        started_at: Seq<char>,
        finished_at: Seq<char>,
        exit_code: Option<i32>,
        attempts: u32,
    },
}

impl View for RunAction {
    type V = ActionView;

    open spec fn view(&self) -> ActionView {
        match *self {
            RunAction::CreateRun { run_id, job_id, config_hash, trigger, at } => {
                ActionView::CreateRun {
                    run_id: run_id@,
                    job_id: job_id@,
                    config_hash: config_hash@,
                    trigger: trigger@,
                    at,
                }
            },
            RunAction::MarkRunning { run_id, at } => ActionView::MarkRunning {
                run_id: run_id@,
                at,
            },
            RunAction::Record(row) => ActionView::Record(row@),
            RunAction::StartAttempt { attempt_id, run_id, number, at } => {
                ActionView::StartAttempt {
                    attempt_id: attempt_id@,
                    run_id: run_id@,
                    number,
                    at,
                }
            },
            RunAction::Spawn { number } => ActionView::Spawn { number },
            RunAction::RecordPid { attempt_id, pid } => ActionView::RecordPid {
                attempt_id: attempt_id@,
                pid,
            },
            RunAction::Wait => ActionView::Wait,
            RunAction::FinishAttempt { attempt_id, status, exit_code, signal, error, at } => {
                ActionView::FinishAttempt {
                    attempt_id: attempt_id@,
                    status: status@,
                    exit_code,
                    signal,
                    error: text::opt_view(error),
                    at,
                }
            },
            RunAction::Close => ActionView::Close,
            RunAction::FinishRun { run_id, status, exit_code, at } => ActionView::FinishRun {
                run_id: run_id@,
                status: status@,
                exit_code,
                at,
            },
            RunAction::UpdateOutcome { job_id, run_id, success, at } => {
                ActionView::UpdateOutcome { job_id: job_id@, run_id: run_id@, success, at }
            },
            RunAction::Report(o) => ActionView::Report {
                id: o.id@,
                job_id: o.job_id@,
                status: o.status,
                started_at: o.started_at@,
                finished_at: o.finished_at@,
                exit_code: o.exit_code,
                attempts: o.attempts,
            },
        }
    }
}

pub open spec fn action_views(v: Seq<RunAction>) -> Seq<ActionView> {
    v.map_values(|a: RunAction| a@)
}

// ----------------------------------------------------------------------- the run's state

/// A run under way: which attempt it is at, and how its last attempt ended.
#[derive(Debug)]
pub struct RunState {
    pub job_id: String,
    pub run_id: String,
    pub started: Stamp,
    pub max_retries: u32,
    pub attempt: u32,
    pub last: Option<AttemptResult>,
}

impl RunState {
    /// The attempts are counted from one and never exceed the retries by more than one.
    pub open spec fn valid(&self) -> bool {
        &&& self.started.valid()
        &&& 1 <= self.attempt
        &&& self.attempt <= self.max_retries + 1
        &&& self.max_retries < u32::MAX
    }
}

/// What the run is told of its current attempt.
#[derive(Debug)]
pub enum AttemptEvent {
    /// The process could not be started.
    SpawnFailed { error: String, at: Stamp },
    /// The process runs.
    Spawned { pid: i32 },
    /// The process ended, or was made to.
    Ended { result: AttemptResult, at: Stamp },
}

/// The id of a run: the job's, and when it was started.
pub open spec fn run_id_text(job_id: Seq<char>, at: Stamp) -> Seq<char> {
    job_id + "-"@ + text::signed_decimal(at.in_micros())
}

/// The id of an attempt: the run's, and the number of the attempt.
pub open spec fn attempt_id_text(run_id: Seq<char>, number: int) -> Seq<char> {
    run_id + "-"@ + text::decimal(number as nat)
}

/// A run's attempts have distinct ids.
pub proof fn lemma_attempt_ids_distinct(run_id: Seq<char>, a: nat, b: nat)
    requires
        attempt_id_text(run_id, a as int) == attempt_id_text(run_id, b as int),
    ensures
        a == b,
{
    let head = run_id + "-"@;
    assert((head + text::decimal(a)).skip(head.len() as int) =~= text::decimal(a));
    assert((head + text::decimal(b)).skip(head.len() as int) =~= text::decimal(b));
    text::lemma_decimal_injective(a, b);
}

/// Whether an attempt is made again: it exited with a failure, and retries are left. A timeout
/// or a cancellation is final.
pub open spec fn is_retried(result: AttemptResult, attempt: int, max_retries: int) -> bool {
    (result matches AttemptResult::Exited(c) && c != 0) && attempt <= max_retries
}

/// The actions that start an attempt.
pub open spec fn start_actions(
    job_id: Seq<char>,
    run_id: Seq<char>,
    number: u32,
    at: Stamp,
) -> Seq<ActionView> {
    let id = attempt_id_text(run_id, number as int);
    seq![
        ActionView::StartAttempt { attempt_id: id, run_id, number, at },
        ActionView::Record(
            events::event_row(
                EventKind::AttemptStarted,
                job_id,
                run_id,
                Some(id),
                "attempt "@ + text::decimal(number as nat),
                at,
            ),
        ),
        ActionView::Spawn { number },
    ]
}

/// The actions that record the end of an attempt. `error` says why it could not be started.
pub open spec fn end_actions(
    state: RunState,
    result: AttemptResult,
    error: Option<Seq<char>>,
    at: Stamp,
) -> Seq<ActionView> {
    let id = attempt_id_text(state.run_id@, state.attempt as int);
    let status = result.status().name();
    seq![
        ActionView::FinishAttempt {
            attempt_id: id,
            status,
            exit_code: result.exit_code(),
            signal: result.signal(),
            error,
            at,
        },
        ActionView::Record(
            events::event_row(
                if result == AttemptResult::Exited(0) {
                    EventKind::AttemptSucceeded
                } else {
                    EventKind::AttemptFailed
                },
                state.job_id@,
                state.run_id@,
                Some(id),
                match error {
                    Some(e) => e,
                    None => status,
                },
                at,
            ),
        ),
    ]
}

/// What follows the end of an attempt: the next attempt, or the end of the run.
pub open spec fn following_actions(state: RunState, result: AttemptResult) -> Seq<ActionView> {
    if is_retried(result, state.attempt as int, state.max_retries as int) {
        start_actions(
            state.job_id@,
            state.run_id@,
            (state.attempt + 1) as u32,
            state.started,
        )
    } else {
        seq![ActionView::Close]
    }
}

/// The state after an attempt ended.
pub open spec fn is_state_after(before: RunState, result: AttemptResult, after: RunState) -> bool {
    &&& after.job_id@ == before.job_id@
    &&& after.run_id@ == before.run_id@
    &&& after.started == before.started
    &&& after.max_retries == before.max_retries
    &&& after.last == Some(result)
    &&& after.attempt == if is_retried(result, before.attempt as int, before.max_retries as int) {
        before.attempt + 1
    } else {
        before.attempt as int
    }
}

/// The actions that execute a run that is already recorded as created.
pub open spec fn execute_actions(job_id: Seq<char>, run_id: Seq<char>, at: Stamp) -> Seq<
    ActionView,
> {
    seq![
        ActionView::MarkRunning { run_id, at },
        ActionView::Record(
            events::event_row(
                EventKind::RunStarted,
                job_id,
                run_id,
                None,
                "run started"@,
                at,
            ),
        ),
    ] + start_actions(job_id, run_id, 1, at)
}

/// The id of the job, or nothing.
pub open spec fn job_name(job: config::JobView) -> Seq<char> {
    match job.id {
        Some(id) => id,
        None => Seq::empty(),
    }
}

// ------------------------------------------------------------------------ running a job

fn attempt_id(run_id: &str, number: u32) -> (r: String)
    ensures
        r@ == attempt_id_text(run_id@, number as int),
{
    let mut r = run_id.to_owned();
    r.append("-");
    push_decimal(&mut r, number as u64);
    assert(r@ =~= attempt_id_text(run_id@, number as int));
    r
}

fn put_start(out: &mut Vec<RunAction>, job_id: &str, run_id: &str, number: u32, at: Stamp)
    requires
        at.valid(),
    ensures
        action_views(final(out)@) == action_views(old(out)@) + start_actions(
            job_id@,
            run_id@,
            number,
            at,
        ),
{
    let ghost before = action_views(out@);
    let id = attempt_id(run_id, number);
    let mut message = "attempt ".to_owned();
    push_decimal(&mut message, number as u64);
    let row = emit(
        EventKind::AttemptStarted,
        job_id,
        run_id,
        Some(id.as_str()),
        message.as_str(),
        at,
    );
    out.push(
        RunAction::StartAttempt { attempt_id: id, run_id: run_id.to_owned(), number, at },
    );
    out.push(RunAction::Record(row));
    out.push(RunAction::Spawn { number });
    assert(action_views(out@) =~= before + start_actions(job_id@, run_id@, number, at));
}

/// Executes a run that is already recorded as created: the state it starts in, and the first
/// actions.
pub fn execute_run(job: &EffectiveJob, run_id: &str, now: Stamp) -> (r: (
    RunState,
    Vec<RunAction>,
))
    requires
        now.valid(),
        job.max_retries < u32::MAX,
    ensures
        r.0.valid(),
        r.0.job_id@ == job_name(job@),
        r.0.run_id@ == run_id@,
        r.0.started == now,
        r.0.max_retries == job.max_retries,
        r.0.attempt == 1,
        r.0.last is None,
        action_views(r.1@) == execute_actions(job_name(job@), run_id@, now),
{
    let job_id = match &job.id {
        Some(id) => id.clone(),
        None => String::new(),
    };
    let mut actions: Vec<RunAction> = Vec::new();
    let row = emit(EventKind::RunStarted, job_id.as_str(), run_id, None, "run started", now);
    actions.push(RunAction::MarkRunning { run_id: run_id.to_owned(), at: now });
    actions.push(RunAction::Record(row));
    let ghost opened = action_views(actions@);
    assert(opened =~= seq![
        ActionView::MarkRunning { run_id: run_id@, at: now },
        ActionView::Record(
            events::event_row(
                EventKind::RunStarted,
                job_name(job@),
                run_id@,
                None,
                "run started"@,
                now,
            ),
        ),
    ]);
    put_start(&mut actions, job_id.as_str(), run_id, 1, now);
    let state = RunState {
        job_id,
        run_id: run_id.to_owned(),
        started: now,
        max_retries: job.max_retries,
        attempt: 1,
        last: None,
    };
    (state, actions)
}

/// Starts a run on request: records it, and makes the first attempt.
pub fn run_job(job: &EffectiveJob, now: Stamp) -> (r: (RunState, Vec<RunAction>))
    requires
        now.valid(),
        job.max_retries < u32::MAX,
    ensures
        r.0.valid(),
        r.0.job_id@ == job_name(job@),
        r.0.run_id@ == run_id_text(job_name(job@), now),
        r.0.started == now,
        r.0.max_retries == job.max_retries,
        r.0.attempt == 1,
        r.0.last is None,
        action_views(r.1@) == seq![
            ActionView::CreateRun {
                run_id: run_id_text(job_name(job@), now),
                job_id: job_name(job@),
                config_hash: config_hash::config_hash(job@),
                trigger: "manual"@,
                at: now,
            },
        ] + execute_actions(job_name(job@), run_id_text(job_name(job@), now), now),
{
    let job_id = match &job.id {
        Some(id) => id.clone(),
        None => String::new(),
    };
    let run_id = new_run_id(job_id.as_str(), now);
    let mut actions: Vec<RunAction> = Vec::new();
    let ghost job_text = job_id@;
    actions.push(
        RunAction::CreateRun {
            run_id: run_id.clone(),
            job_id,
            config_hash: job_config_hash(job),
            trigger: "manual",
            at: now,
        },
    );
    let ghost first = action_views(actions@);
    assert(first =~= seq![
        ActionView::CreateRun {
            run_id: run_id_text(job_text, now),
            job_id: job_text,
            config_hash: config_hash::config_hash(job@),
            trigger: "manual"@,
            at: now,
        },
    ]);
    let (state, mut rest) = execute_run(job, run_id.as_str(), now);
    let ghost tail = action_views(rest@);
    let ghost rest_before = rest@;
    let ghost actions_before = actions@;
    actions.append(&mut rest);
    assert(actions@ == actions_before + rest_before);
    assert(action_views(actions@) =~= first + tail);
    (state, actions)
}

/// The id of a run that starts now.
pub fn new_run_id(job_id: &str, now: Stamp) -> (r: String)
    requires
        now.valid(),
    ensures
        r@ == run_id_text(job_id@, now),
{
    let mut r = job_id.to_owned();
    r.append("-");
    r.append(signed_decimal_text(now.micros()).as_str());
    r
}

/// Tells a run what became of its attempt, and gives what is to be done next.
pub fn run_attempt(state: RunState, event: AttemptEvent) -> (r: (RunState, Vec<RunAction>))
    requires
        state.valid(),
        event matches AttemptEvent::SpawnFailed { at, .. } ==> at.valid(),
        event matches AttemptEvent::Ended { at, .. } ==> at.valid(),
    ensures
        r.0.valid(),
        (match event {
            AttemptEvent::Spawned { pid } => r.0 == state && action_views(r.1@) == seq![
                ActionView::RecordPid {
                    attempt_id: attempt_id_text(state.run_id@, state.attempt as int),
                    pid,
                },
                ActionView::Wait,
            ],
            AttemptEvent::SpawnFailed { error, at } => is_state_after(
                state,
                AttemptResult::Exited(SPAWN_FAILED),
                r.0,
            ) && action_views(r.1@) == end_actions(
                state,
                AttemptResult::Exited(SPAWN_FAILED),
                Some(error@),
                at,
            ) + following_actions(state, AttemptResult::Exited(SPAWN_FAILED)),
            AttemptEvent::Ended { result, at } => is_state_after(state, result, r.0)
                && action_views(r.1@) == end_actions(state, result, None, at) + following_actions(
                state,
                result,
            ),
        }),
{
    match event {
        AttemptEvent::Spawned { pid } => {
            let mut actions: Vec<RunAction> = Vec::new();
            let id = attempt_id(state.run_id.as_str(), state.attempt);
            actions.push(RunAction::RecordPid { attempt_id: id, pid });
            actions.push(RunAction::Wait);
            assert(action_views(actions@) =~= seq![
                ActionView::RecordPid {
                    attempt_id: attempt_id_text(state.run_id@, state.attempt as int),
                    pid,
                },
                ActionView::Wait,
            ]);
            (state, actions)
        },
        AttemptEvent::SpawnFailed { error, at } => attempt_over(
            state,
            AttemptResult::Exited(SPAWN_FAILED),
            Some(error),
            at,
        ),
        AttemptEvent::Ended { result, at } => attempt_over(state, result, None, at),
    }
}

fn attempt_over(state: RunState, result: AttemptResult, error: Option<String>, at: Stamp) -> (r: (
    RunState,
    Vec<RunAction>,
))
    requires
        state.valid(),
        at.valid(),
    ensures
        r.0.valid(),
        is_state_after(state, result, r.0),
        action_views(r.1@) == end_actions(state, result, text::opt_view(error), at)
            + following_actions(state, result),
{
    let id = attempt_id(state.run_id.as_str(), state.attempt);
    let status = result.run_status().as_str();
    let kind = match result {
        AttemptResult::Exited(c) => if c == 0 {
            EventKind::AttemptSucceeded
        } else {
            EventKind::AttemptFailed
        },
        _ => EventKind::AttemptFailed,
    };
    let message = match &error {
        Some(e) => e.as_str(),
        None => status,
    };
    let row = emit(
        kind,
        state.job_id.as_str(),
        state.run_id.as_str(),
        Some(id.as_str()),
        message,
        at,
    );
    let signal: Option<i32> = match result {
        AttemptResult::Exited(_) => None,
        _ => Some(TERMINATE),
    };
    let mut actions: Vec<RunAction> = Vec::new();
    actions.push(
        RunAction::FinishAttempt {
            attempt_id: id,
            status,
            exit_code: result.code(),
            signal,
            error,
            at,
        },
    );
    actions.push(RunAction::Record(row));
    let ghost ended = action_views(actions@);
    assert(ended =~= end_actions(state, result, text::opt_view(error), at));
    let retry = match result {
        AttemptResult::Exited(c) => c != 0 && state.attempt <= state.max_retries,
        _ => false,
    };
    let mut number: u32 = state.attempt;
    if retry {
        number += 1;
        put_start(
            &mut actions,
            state.job_id.as_str(),
            state.run_id.as_str(),
            number,
            state.started,
        );
    } else {
        actions.push(RunAction::Close);
        assert(action_views(actions@) =~= ended + seq![ActionView::Close]);
    }
    let next = RunState {
        job_id: state.job_id,
        run_id: state.run_id,
        started: state.started,
        max_retries: state.max_retries,
        attempt: number,
        last: Some(result),
    };
    (next, actions)
}

/// The actions that close a run whose last attempt ended with `result`.
pub open spec fn closing_actions(state: RunState, result: AttemptResult, at: Stamp) -> Seq<
    ActionView,
> {
    let status = result.status();
    seq![
        ActionView::FinishRun {
            run_id: state.run_id@,
            status: status.name(),
            exit_code: result.exit_code(),
            at,
        },
        ActionView::UpdateOutcome {
            job_id: state.job_id@,
            run_id: state.run_id@,
            success: status == RunStatus::Success,
            at,
        },
        ActionView::Record(
            events::event_row(
                status.closing_kind(),
                state.job_id@,
                state.run_id@,
                None,
                status.name(),
                at,
            ),
        ),
        ActionView::Report {
            id: state.run_id@,
            job_id: state.job_id@,
            status,
            started_at: events::utc_text(state.started),
            finished_at: events::utc_text(at),
            exit_code: result.exit_code(),
            attempts: state.attempt,
        },
    ]
}

/// Closes a run whose last attempt has ended; before that there is nothing to do.
pub fn finalize(state: &RunState, at: Stamp) -> (r: Vec<RunAction>)
    requires
        state.valid(),
        at.valid(),
    ensures
        (match state.last {
            Some(result) => action_views(r@) == closing_actions(*state, result, at),
            None => r@.len() == 0,
        }),
{
    let result = match state.last {
        Some(result) => result,
        None => {
            return Vec::new();
        },
    };
    let status = result.run_status();
    let kind = match status {
        RunStatus::Success => EventKind::RunSucceeded,
        RunStatus::Failed => EventKind::RunFailed,
        RunStatus::Timeout => EventKind::RunTimeout,
        RunStatus::Cancelled => EventKind::RunCancelled,
    };
    let row = emit(
        kind,
        state.job_id.as_str(),
        state.run_id.as_str(),
        None,
        status.as_str(),
        at,
    );
    let mut actions: Vec<RunAction> = Vec::new();
    actions.push(
        RunAction::FinishRun {
            run_id: state.run_id.clone(),
            status: status.as_str(),
            exit_code: result.code(),
            at,
        },
    );
    actions.push(
        RunAction::UpdateOutcome {
            job_id: state.job_id.clone(),
            run_id: state.run_id.clone(),
            success: status == RunStatus::Success,
            at,
        },
    );
    actions.push(RunAction::Record(row));
    actions.push(
        RunAction::Report(
            RunOutcome {
                id: state.run_id.clone(),
                job_id: state.job_id.clone(),
                status,
                started_at: utc(state.started),
                finished_at: utc(at),
                exit_code: result.code(),
                attempts: state.attempt,
            },
        ),
    );
    assert(action_views(actions@) =~= closing_actions(*state, result, at));
    actions
}

// --------------------------------------------------------------------- waiting for a process

/// What came of waiting for the process for a while.
#[derive(Debug, Clone, Copy, PartialEq, Eq, Structural)]
pub enum Received {
    /// It exited; without a code it was ended by a signal.
    Exit(Option<i32>),
    /// Waiting for it failed.
    WaitFailed,
    /// The one who waits for it is gone.
    Disconnected,
    /// It still runs.
    Nothing,
}

/// Whether the process is only watched, or was asked to stop.
#[derive(Debug, Clone, Copy, PartialEq, Eq, Structural)]
pub enum Watch {
    Running,
    Stopping(AttemptResult),
}

/// What to do about the process next.
#[derive(Debug, Clone, Copy, PartialEq, Eq, Structural)]
pub enum WaitAction {
    /// Go on waiting.
    Wait,
    /// Ask the process group to stop, and wait for the grace period.
    Terminate(AttemptResult),
    /// Kill the process group and wait for it; the attempt ended so.
    Kill(AttemptResult),
    /// The attempt ended so.
    Done(AttemptResult),
}

/// What to do about a process. An exit ends the attempt. A cancellation, and then a passed
/// deadline, has the group asked to stop; the attempt has ended by that, and where the group
/// does not stop within the grace period it is killed.
pub fn wait_loop(watch: Watch, received: Received, cancelled: bool, past_deadline: bool) -> (r:
    WaitAction)
    ensures
        r == (match watch {
            Watch::Running => match received {
                Received::Exit(Some(code)) => WaitAction::Done(AttemptResult::Exited(code)),
                Received::Exit(None) => WaitAction::Done(AttemptResult::Exited(NO_EXIT_CODE)),
                Received::WaitFailed => WaitAction::Done(AttemptResult::Exited(NO_EXIT_CODE)),
                Received::Disconnected => WaitAction::Done(AttemptResult::Exited(NO_EXIT_CODE)),
                Received::Nothing => if cancelled {
                    WaitAction::Terminate(AttemptResult::Cancelled)
                } else if past_deadline {
                    WaitAction::Terminate(AttemptResult::Timeout)
                } else {
                    WaitAction::Wait
                },
            },
            Watch::Stopping(result) => match received {
                Received::Exit(_) => WaitAction::Done(result),
                Received::WaitFailed => WaitAction::Done(result),
                _ => WaitAction::Kill(result),
            },
        }),
{
    match watch {
        Watch::Running => match received {
            Received::Exit(Some(code)) => WaitAction::Done(AttemptResult::Exited(code)),
            Received::Exit(None) => WaitAction::Done(AttemptResult::Exited(NO_EXIT_CODE)),
            Received::WaitFailed => WaitAction::Done(AttemptResult::Exited(NO_EXIT_CODE)),
            Received::Disconnected => WaitAction::Done(AttemptResult::Exited(NO_EXIT_CODE)),
            Received::Nothing => if cancelled {
                WaitAction::Terminate(AttemptResult::Cancelled)
            } else if past_deadline {
                WaitAction::Terminate(AttemptResult::Timeout)
            } else {
                WaitAction::Wait
            },
        },
        Watch::Stopping(result) => drain_after_kill(received, result),
    }
}

/// What to do about a process that was asked to stop.
pub fn drain_after_kill(received: Received, result: AttemptResult) -> (r: WaitAction)
    ensures
        r == (match received {
            Received::Exit(_) => WaitAction::Done(result),
            Received::WaitFailed => WaitAction::Done(result),
            _ => WaitAction::Kill(result),
        }),
{
    match received {
        Received::Exit(_) | Received::WaitFailed => WaitAction::Done(result),
        _ => WaitAction::Kill(result),
    }
}

// -------------------------------------------------------------------------------- laws

/// How many attempts a run makes, given how each of them would end.
pub open spec fn attempts_made(results: Seq<AttemptResult>, attempt: int, max_retries: int) -> int
    decreases results.len(),
{
    if results.len() == 0 {
        0
    } else if is_retried(results[0], attempt, max_retries) {
        1 + attempts_made(results.drop_first(), attempt + 1, max_retries)
    } else {
        1
    }
}

/// A run makes no more attempts than its retries and one.
pub proof fn lemma_attempts_are_bounded(
    results: Seq<AttemptResult>,
    attempt: int,
    max_retries: int,
)
    requires
        1 <= attempt <= max_retries + 1,
    ensures
        attempts_made(results, attempt, max_retries) <= max_retries + 2 - attempt,
    decreases results.len(),
{
    if results.len() > 0 && is_retried(results[0], attempt, max_retries) {
        lemma_attempts_are_bounded(results.drop_first(), attempt + 1, max_retries);
    }
}

/// A success, a timeout or a cancellation is the last attempt, whatever retries are left.
pub proof fn lemma_only_failures_are_retried(
    result: AttemptResult,
    attempt: int,
    max_retries: int,
)
    requires
        result.status() != RunStatus::Failed,
    ensures
        !is_retried(result, attempt, max_retries),
{
}

/// A command that fails every time is attempted once and then as often as retries are allowed.
pub proof fn lemma_failures_use_all_retries(
    results: Seq<AttemptResult>,
    attempt: int,
    max_retries: int,
)
    requires
        1 <= attempt <= max_retries + 1,
        results.len() >= max_retries + 2 - attempt,
        forall|i: int|
            0 <= i < results.len() ==> (#[trigger] results[i]).status() == RunStatus::Failed,
    ensures
        attempts_made(results, attempt, max_retries) == max_retries + 2 - attempt,
    decreases results.len(),
{
    assert(results[0].status() == RunStatus::Failed);
    if attempt <= max_retries {
        let rest = results.drop_first();
        assert forall|i: int| 0 <= i < rest.len() implies (#[trigger] rest[i]).status()
            == RunStatus::Failed by {
            assert(rest[i] == results[i + 1]);
        }
        lemma_failures_use_all_retries(rest, attempt + 1, max_retries);
    }
}

} // verus!
