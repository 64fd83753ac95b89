//! What holds of every run: which exit codes fail it, when an attempt is made again, what is
//! recorded of it, and how its process is stopped.

use crate::config::EffectiveJob;
use crate::executor;
use crate::executor::{
    ActionView, AttemptEvent, AttemptResult, Received, RunAction, RunState, RunStatus, WaitAction,
    Watch,
};
use crate::state::Stamp;
use crate::text;
use crate::zone;
use vstd::prelude::*;

verus! {

/// An attempt that exits with zero has succeeded, and with any other code it has failed; it is
/// made again exactly where it failed and retries are left.
pub proof fn lemma_exit_code_decides(code: i32, attempt: int, max_retries: int)
    ensures
        (AttemptResult::Exited(code).status() == RunStatus::Success) <==> code == 0,
        (AttemptResult::Exited(code).status() == RunStatus::Failed) <==> code != 0,
        executor::is_retried(AttemptResult::Exited(code), attempt, max_retries) <==> (code != 0
            && attempt <= max_retries),
        AttemptResult::Exited(code).exit_code() == Some(code),
        AttemptResult::Exited(code).signal() is None,
{
}

/// An attempt that was stopped is neither a success nor a failure, has no exit code but the
/// signal to terminate, and is never made again.
pub proof fn lemma_stopped_attempt_is_final(attempt: int, max_retries: int)
    ensures
        AttemptResult::Timeout.status() == RunStatus::Timeout,
        AttemptResult::Cancelled.status() == RunStatus::Cancelled,
        !executor::is_retried(AttemptResult::Timeout, attempt, max_retries),
        !executor::is_retried(AttemptResult::Cancelled, attempt, max_retries),
        AttemptResult::Timeout.exit_code() is None,
        AttemptResult::Cancelled.exit_code() is None,
        AttemptResult::Timeout.signal() == Some(15i32),
        AttemptResult::Cancelled.signal() == Some(15i32),
{
}

/// A run ends with the first attempt that does not fail, and after as many attempts as there
/// are retries and one where all fail.
pub proof fn lemma_run_ends_with_first_success(results: Seq<AttemptResult>, max_retries: int)
    requires
        max_retries >= 0,
        results.len() > max_retries,
    ensures
        ({
            let n = executor::attempts_made(results, 1, max_retries);
            &&& 1 <= n <= max_retries + 1
            &&& forall|i: int|
                0 <= i < n - 1 ==> (#[trigger] results[i] matches AttemptResult::Exited(c) && c
                    != 0)
            &&& (results[n - 1] matches AttemptResult::Exited(c) && c != 0) ==> n == max_retries + 1
        }),
{
    lemma_attempts_from(results, 1, max_retries);
}

proof fn lemma_attempts_from(results: Seq<AttemptResult>, attempt: int, max_retries: int)
    requires
        1 <= attempt <= max_retries + 1,
        results.len() >= max_retries + 2 - attempt,
    ensures
        ({
            let n = executor::attempts_made(results, attempt, max_retries);
            &&& 1 <= n <= max_retries + 2 - attempt
            &&& forall|i: int|
                0 <= i < n - 1 ==> (#[trigger] results[i] matches AttemptResult::Exited(c) && c
                    != 0)
            &&& (results[n - 1] matches AttemptResult::Exited(c) && c != 0) ==> n == max_retries + 2
                - attempt
        }),
    decreases results.len(),
{
    if (results[0] matches AttemptResult::Exited(c) && c != 0) && attempt <= max_retries {
        let rest = results.drop_first();
        lemma_attempts_from(rest, attempt + 1, max_retries);
        let n = executor::attempts_made(results, attempt, max_retries);
        assert forall|i: int| 0 <= i < n - 1 implies (#[trigger] results[i] matches AttemptResult::Exited(
            c,
        ) && c != 0) by {
            if i > 0 {
                assert(rest[i - 1] == results[i]);
            }
        }
        assert(rest[n - 2] == results[n - 1]);
    }
}

/// A failed attempt with retries left is followed by the next one, under the next number; any
/// other by the close of the run.
pub proof fn lemma_failed_attempt_is_followed(
    state: RunState,
    result: AttemptResult,
    after: RunState,
)
    requires
        state.valid(),
        executor::is_state_after(state, result, after),
    ensures
        ({
            let again = (result matches AttemptResult::Exited(c) && c != 0) && state.attempt
                <= state.max_retries;
            let actions = executor::following_actions(state, result);
            &&& again ==> after.attempt == state.attempt + 1 && actions.len() == 3 && (
            actions[0] matches ActionView::StartAttempt { attempt_id, run_id, number, .. }
                && attempt_id == state.run_id@ + "-"@ + text::decimal((state.attempt + 1) as nat)
                && run_id == state.run_id@ && number == state.attempt + 1) && (
            actions[1] matches ActionView::Record(row) && row.event_type == "attempt_started"@) && (
            actions[2] matches ActionView::Spawn { number } && number == state.attempt + 1)
            &&& !again ==> after.attempt == state.attempt && actions == seq![ActionView::Close]
            &&& after.last == Some(result)
            &&& after.max_retries == state.max_retries
            &&& after.run_id@ == state.run_id@
            &&& after.job_id@ == state.job_id@
            &&& after.started == state.started
        }),
{
}

/// What is recorded of an attempt tells how it ended: a success is what exited with zero.
pub proof fn lemma_attempt_is_recorded(
    state: RunState,
    result: AttemptResult,
    error: Option<Seq<char>>,
    at: Stamp,
)
    ensures
        ({
            let actions = executor::end_actions(state, result, error, at);
            let id = state.run_id@ + "-"@ + text::decimal(state.attempt as nat);
            &&& actions.len() == 2
            &&& actions[0] matches ActionView::FinishAttempt {
                attempt_id,
                status,
                exit_code,
                signal,
                error: e,
                at: t,
            } && {
                &&& attempt_id == id
                &&& (status == "success"@) <==> result == AttemptResult::Exited(0)
                &&& (status == "failed"@) <==> (result matches AttemptResult::Exited(c) && c != 0)
                &&& (status == "timeout"@) <==> result == AttemptResult::Timeout
                &&& (status == "cancelled"@) <==> result == AttemptResult::Cancelled
                &&& exit_code == (match result {
                    AttemptResult::Exited(c) => Some(c),
                    _ => None,
                })
                &&& (signal == Some(15i32)) <==> !(result is Exited)
                &&& (signal is None) <==> result is Exited
                &&& e == error
                &&& t == at
            }
            &&& actions[1] matches ActionView::Record(row) && {
                &&& (row.event_type == "attempt_succeeded"@) <==> result == AttemptResult::Exited(0)
                &&& (row.event_type == "attempt_failed"@) <==> result != AttemptResult::Exited(0)
                &&& (row.level == "error"@) <==> result != AttemptResult::Exited(0)
                &&& (row.level == "info"@) <==> result == AttemptResult::Exited(0)
                &&& row.job_id == state.job_id@
                &&& row.run_id == state.run_id@
                &&& row.attempt_id == Some(id)
                &&& (error matches Some(m) ==> row.message == m)
                &&& row.created_at == zone::rfc3339_text(at.secs as int, at.nanos as int, 0)
            }
        }),
{
    lemma_words();
}

/// What is recorded of a run is what its last attempt came to: the job's outcome is a success
/// exactly where that one exited with zero.
pub proof fn lemma_run_is_closed(state: RunState, result: AttemptResult, at: Stamp)
    ensures
        ({
            let actions = executor::closing_actions(state, result, at);
            let won = result == AttemptResult::Exited(0);
            let lost = result matches AttemptResult::Exited(c) && c != 0;
            &&& actions.len() == 4
            &&& actions[0] matches ActionView::FinishRun { run_id, status, exit_code, at: t } && {
                &&& run_id == state.run_id@
                &&& (status == "success"@) <==> won
                &&& (status == "failed"@) <==> lost
                &&& (status == "timeout"@) <==> result == AttemptResult::Timeout
                &&& (status == "cancelled"@) <==> result == AttemptResult::Cancelled
                &&& exit_code == (match result {
                    AttemptResult::Exited(c) => Some(c),
                    _ => None,
                })
                &&& t == at
            }
            &&& actions[1] matches ActionView::UpdateOutcome { job_id, run_id, success, at: t } && {
                &&& job_id == state.job_id@
                &&& run_id == state.run_id@
                &&& success <==> won
                &&& t == at
            }
            &&& actions[2] matches ActionView::Record(row) && {
                &&& (row.event_type == "run_succeeded"@) <==> won
                &&& (row.event_type == "run_failed"@) <==> lost
                &&& (row.event_type == "run_timeout"@) <==> result == AttemptResult::Timeout
                &&& (row.event_type == "run_cancelled"@) <==> result == AttemptResult::Cancelled
                &&& (row.level == "info"@) <==> won
                &&& (row.level == "error"@) <==> !won
                &&& row.job_id == state.job_id@
                &&& row.run_id == state.run_id@
                &&& row.attempt_id is None
            }
            &&& actions[3] matches ActionView::Report {
                id,
                job_id,
                status,
                started_at,
                finished_at,
                exit_code,
                attempts,
            } && {
                &&& id == state.run_id@
                &&& job_id == state.job_id@
                &&& (status == RunStatus::Success) <==> won
                &&& (status == RunStatus::Failed) <==> lost
                &&& (status == RunStatus::Timeout) <==> result == AttemptResult::Timeout
                &&& started_at == zone::rfc3339_text(
                    state.started.secs as int,
                    state.started.nanos as int,
                    0,
                )
                &&& finished_at == zone::rfc3339_text(at.secs as int, at.nanos as int, 0)
                &&& exit_code == (match result {
                    AttemptResult::Exited(c) => Some(c),
                    _ => None,
                })
                &&& attempts == state.attempt
            }
        }),
{
    lemma_words();
}

/// A run begins at its first attempt, with the retries that the job allows, and is recorded as
/// running before that attempt is started.
pub proof fn lemma_run_begins(
    job: &EffectiveJob,
    run_id: &str,
    at: Stamp,
    r: (RunState, Vec<RunAction>),
)
    requires
        call_ensures(executor::execute_run, (job, run_id, at), r),
    ensures
        r.0.attempt == 1,
        r.0.max_retries == job.max_retries,
        r.0.run_id@ == run_id@,
        job.id matches Some(id) ==> r.0.job_id@ == id@,
        r.0.started == at,
        r.0.last is None,
        ({
            let actions = executor::action_views(r.1@);
            &&& actions.len() == 5
            &&& actions[0] matches ActionView::MarkRunning { run_id: i, at: t } && i == run_id@ && t
                == at
            &&& actions[1] matches ActionView::Record(row) && row.event_type == "run_started"@
                && row.level == "info"@ && row.run_id == run_id@
            &&& actions[2] matches ActionView::StartAttempt { attempt_id, run_id: i, number, at: t }
                && attempt_id == run_id@ + "-"@ + seq!['1'] && i == run_id@ && number == 1 && t
                == at
            &&& actions[3] matches ActionView::Record(row) && row.event_type == "attempt_started"@
                && row.level == "info"@ && row.run_id == run_id@
            &&& actions[4] matches ActionView::Spawn { number } && number == 1
        }),
{
    reveal_with_fuel(text::decimal, 2);
    assert(text::decimal(1) =~= seq!['1']);
}

/// A run on request is recorded first, as a manual one under the job's name and the instant in
/// microseconds, and then begins like any other.
pub proof fn lemma_requested_run_is_created(
    job: &EffectiveJob,
    now: Stamp,
    r: (RunState, Vec<RunAction>),
)
    requires
        call_ensures(executor::run_job, (job, now), r),
    ensures
        r.0.attempt == 1,
        r.0.max_retries == job.max_retries,
        r.0.started == now,
        r.0.last is None,
        job.id matches Some(id) ==> r.0.job_id@ == id@,
        r.0.run_id@ == r.0.job_id@ + "-"@ + text::signed_decimal(
            (now.secs * 1000000000 + now.nanos) / 1000,
        ),
        ({
            let actions = executor::action_views(r.1@);
            &&& actions.len() == 6
            &&& actions[0] matches ActionView::CreateRun { run_id, job_id, trigger, at, .. } && {
                &&& trigger == "manual"@
                &&& at == now
                &&& job_id == r.0.job_id@
                &&& run_id == r.0.run_id@
            }
            &&& actions[1] matches ActionView::MarkRunning { run_id, .. } && run_id == r.0.run_id@
            &&& actions[3] matches ActionView::StartAttempt { run_id, number, .. } && run_id
                == r.0.run_id@ && number == 1
            &&& actions[5] is Spawn
        }),
{
}

/// Two runs of a job on request have distinct ids, unless they start in the same microsecond.
pub proof fn lemma_run_ids_distinct(
    job_id: &str,
    a: Stamp,
    b: Stamp,
    ra: String,
    rb: String,
)
    requires
        call_ensures(executor::new_run_id, (job_id, a), ra),
        call_ensures(executor::new_run_id, (job_id, b), rb),
        ra@ == rb@,
    ensures
        (a.secs * 1000000000 + a.nanos) / 1000 == (b.secs * 1000000000 + b.nanos) / 1000,
{
    let lead = job_id@ + "-"@;
    assert(ra@.skip(lead.len() as int) =~= text::signed_decimal(a.in_micros()));
    assert(rb@.skip(lead.len() as int) =~= text::signed_decimal(b.in_micros()));
    text::lemma_signed_decimal_injective(a.in_micros(), b.in_micros());
}

/// An attempt that ends is recorded under its number with how it ended, and is made again, under
/// the next number, exactly where it exited with another code than zero and retries are left;
/// otherwise the run is closed.
pub proof fn lemma_attempt_ends(
    state: RunState,
    result: AttemptResult,
    at: Stamp,
    r: (RunState, Vec<RunAction>),
)
    requires
        state.valid(),
        call_ensures(executor::run_attempt, (state, AttemptEvent::Ended { result, at }), r),
    ensures
        ({
            let actions = executor::action_views(r.1@);
            let again = (result matches AttemptResult::Exited(c) && c != 0) && state.attempt
                <= state.max_retries;
            &&& actions[0] matches ActionView::FinishAttempt { status, exit_code, signal, .. } && {
                &&& (status == "success"@) <==> result == AttemptResult::Exited(0)
                &&& (status == "failed"@) <==> (result matches AttemptResult::Exited(c) && c != 0)
                &&& (status == "timeout"@) <==> result == AttemptResult::Timeout
                &&& (status == "cancelled"@) <==> result == AttemptResult::Cancelled
                &&& (exit_code matches Some(c) && result == AttemptResult::Exited(c)) || (exit_code
                    is None && !(result is Exited))
                &&& (signal == Some(15i32)) <==> !(result is Exited)
            }
            &&& actions[1] is Record
            &&& again ==> actions.len() == 5 && r.0.attempt == state.attempt + 1 && (
            actions[2] matches ActionView::StartAttempt { number, .. } && number == state.attempt
                + 1) && (actions[4] matches ActionView::Spawn { number } && number == state.attempt
                + 1)
            &&& !again ==> actions.len() == 3 && r.0.attempt == state.attempt && actions[2] is Close
            &&& r.0.last == Some(result)
            &&& r.0.max_retries == state.max_retries
            &&& r.0.run_id@ == state.run_id@
            &&& r.0.job_id@ == state.job_id@
            &&& r.0.started == state.started
        }),
{
    lemma_attempt_is_recorded(state, result, None, at);
    lemma_failed_attempt_is_followed(state, result, r.0);
    let ended = executor::end_actions(state, result, None, at);
    let following = executor::following_actions(state, result);
    let actions = executor::action_views(r.1@);
    assert(actions == ended + following);
    assert(actions[0] == ended[0] && actions[1] == ended[1]);
    assert(actions[2] == following[0]);
}

/// A command that cannot be started is an attempt that failed with 127, with the reason recorded,
/// and is made again like any other that failed.
pub proof fn lemma_spawn_failure_counts(
    state: RunState,
    error: String,
    at: Stamp,
    r: (RunState, Vec<RunAction>),
)
    requires
        state.valid(),
        call_ensures(executor::run_attempt, (state, AttemptEvent::SpawnFailed { error, at }), r),
    ensures
        ({
            let actions = executor::action_views(r.1@);
            &&& actions[0] matches ActionView::FinishAttempt { status, exit_code, error: e, .. }
                && status == "failed"@ && exit_code == Some(127i32) && e == Some(error@)
            &&& actions[1] matches ActionView::Record(row) && row.message == error@
                && row.event_type == "attempt_failed"@
            &&& r.0.last == Some(AttemptResult::Exited(127))
            &&& (r.0.attempt == state.attempt + 1) <==> state.attempt <= state.max_retries
        }),
{
    let result = AttemptResult::Exited(127);
    lemma_attempt_is_recorded(state, result, Some(error@), at);
    let ended = executor::end_actions(state, result, Some(error@), at);
    let actions = executor::action_views(r.1@);
    assert(actions[0] == ended[0] && actions[1] == ended[1]);
}

/// A process that runs has its id recorded with its attempt, and is waited for; nothing else
/// changes.
pub proof fn lemma_spawned_is_waited_for(
    state: RunState,
    pid: i32,
    r: (RunState, Vec<RunAction>),
)
    requires
        call_ensures(executor::run_attempt, (state, AttemptEvent::Spawned { pid }), r),
    ensures
        r.0 == state,
        ({
            let actions = executor::action_views(r.1@);
            &&& actions.len() == 2
            &&& actions[0] matches ActionView::RecordPid { attempt_id, pid: p } && p == pid
                && attempt_id == state.run_id@ + "-"@ + text::decimal(state.attempt as nat)
            &&& actions[1] is Wait
        }),
{
}

/// A run is closed as its last attempt ended: the job's outcome is a success exactly where that
/// one exited with zero. Before an attempt has ended there is nothing to close.
pub proof fn lemma_run_closes(state: &RunState, at: Stamp, r: Vec<RunAction>)
    requires
        call_ensures(executor::finalize, (state, at), r),
    ensures
        state.last is None ==> r@.len() == 0,
        state.last matches Some(result) ==> {
            let actions = executor::action_views(r@);
            let won = result == AttemptResult::Exited(0);
            &&& actions.len() == 4
            &&& actions[0] matches ActionView::FinishRun { status, exit_code, .. } && ((status
                == "success"@) <==> won) && (exit_code matches Some(c) ==> result
                == AttemptResult::Exited(c)) && ((status == "failed"@) <==> (
            result matches AttemptResult::Exited(c) && c != 0))
            &&& actions[1] matches ActionView::UpdateOutcome { success, .. } && (success <==> won)
            &&& actions[3] matches ActionView::Report { status, attempts, .. } && ((status
                == RunStatus::Success) <==> won) && attempts == state.attempt
        },
{
    if let Some(result) = state.last {
        lemma_run_is_closed(*state, result, at);
    }
}

/// An exit ends an attempt with its code, whatever else has come up; otherwise a cancellation
/// goes before a passed deadline, and only these have the process asked to stop.
pub proof fn lemma_exit_goes_first(
    received: Received,
    cancelled: bool,
    past_deadline: bool,
    r: WaitAction,
)
    requires
        call_ensures(
            executor::wait_loop,
            (Watch::Running, received, cancelled, past_deadline),
            r,
        ),
    ensures
        received matches Received::Exit(Some(c)) ==> r == WaitAction::Done(
            AttemptResult::Exited(c),
        ),
        received != Received::Nothing && !(received matches Received::Exit(Some(_))) ==> r
            == WaitAction::Done(AttemptResult::Exited(-1i32)),
        received == Received::Nothing ==> {
            &&& (r == WaitAction::Terminate(AttemptResult::Cancelled)) <==> cancelled
            &&& (r == WaitAction::Terminate(AttemptResult::Timeout)) <==> !cancelled
                && past_deadline
            &&& (r == WaitAction::Wait) <==> !cancelled && !past_deadline
        },
{
}

/// A process that was asked to stop ends its attempt as it was asked, however it exits; it is
/// killed exactly where it was not heard of.
pub proof fn lemma_stopping_keeps_result(
    result: AttemptResult,
    received: Received,
    cancelled: bool,
    past_deadline: bool,
    a: WaitAction,
    b: WaitAction,
)
    requires
        call_ensures(
            executor::wait_loop,
            (Watch::Stopping(result), received, cancelled, past_deadline),
            a,
        ),
        call_ensures(executor::drain_after_kill, (received, result), b),
    ensures
        a == b,
        a == WaitAction::Done(result) || a == WaitAction::Kill(result),
        (a == WaitAction::Kill(result)) <==> (received == Received::Nothing || received
            == Received::Disconnected),
{
}

/// A process is given five seconds to stop, with the signal that asks it to; one that could not
/// be started counts as one that exited with 127.
pub proof fn lemma_run_constants()
    ensures
        executor::KILL_GRACE_SECS == 5,
        executor::TERMINATE == 15,
        executor::SPAWN_FAILED == 127,
        executor::NO_EXIT_CODE == -1,
{
}

/// The words for statuses, kinds and levels differ from one another.
proof fn lemma_words()
    ensures
        "success"@ != "failed"@,
        "success"@ != "timeout"@,
        "success"@ != "cancelled"@,
        "failed"@ != "timeout"@,
        "failed"@ != "cancelled"@,
        "timeout"@ != "cancelled"@,
        "attempt_succeeded"@ != "attempt_failed"@,
        "run_succeeded"@ != "run_failed"@,
        "run_succeeded"@ != "run_timeout"@,
        "run_succeeded"@ != "run_cancelled"@,
        "run_failed"@ != "run_timeout"@,
        "run_failed"@ != "run_cancelled"@,
        "run_timeout"@ != "run_cancelled"@,
        "error"@ != "info"@,
{
    reveal_strlit("success");
    reveal_strlit("failed");
    reveal_strlit("timeout");
    reveal_strlit("cancelled");
    reveal_strlit("attempt_succeeded");
    reveal_strlit("attempt_failed");
    reveal_strlit("run_succeeded");
    reveal_strlit("run_failed");
    reveal_strlit("run_timeout");
    reveal_strlit("run_cancelled");
    reveal_strlit("error");
    reveal_strlit("info");
    assert("success"@[0] != "timeout"@[0]);
    assert("success"@.len() != "failed"@.len());
    assert("success"@.len() != "cancelled"@.len());
    assert("failed"@.len() != "timeout"@.len());
    assert("failed"@.len() != "cancelled"@.len());
    assert("timeout"@.len() != "cancelled"@.len());
    assert("attempt_succeeded"@.len() != "attempt_failed"@.len());
    assert("run_succeeded"@.len() != "run_failed"@.len());
    assert("run_succeeded"@.len() != "run_timeout"@.len());
    assert("run_succeeded"@[4] != "run_cancelled"@[4]);
    assert("run_failed"@.len() != "run_timeout"@.len());
    assert("run_failed"@.len() != "run_cancelled"@.len());
    assert("run_timeout"@.len() != "run_cancelled"@.len());
    assert("error"@.len() != "info"@.len());
}

} // verus!
