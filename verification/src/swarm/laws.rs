//! What holds of every run of a swarm.

use crate::swarm::model;
use crate::swarm::model::{RunPhaseView, RunView, SwarmActionView, SwarmEventView};
use crate::swarm::outcome;
use crate::swarm::task;
use crate::swarm::types;
use crate::swarm::types::{
    SubAgentResultView, SwarmStatus, SwarmTaskStateView, SwarmTaskStatus,
};
use crate::swarm::validate;
use crate::text;
use vstd::prelude::*;

verus! {

/// A task is started at most once more than it may be retried; it may not be retried at all where
/// the first failure stops the run.
pub proof fn attempts_are_bounded(run: RunView, id: Seq<char>)
    requires
        run.inv(),
        run.ids().contains(id),
    ensures
        run.attempts_of(id) <= task::retries(run.task(id)) + 1,
        run.plan.fail_fast ==> run.attempts_of(id) <= 1,
{
}

/// Never more tasks run at once than the plan allows.
pub proof fn parallelism_is_bounded(run: RunView)
    requires
        run.inv(),
    ensures
        run.running_ids().len() <= run.plan.max_parallel,
{
}

/// An agent is asked for only when every task that its task depends on completed.
pub proof fn agents_start_after_dependencies(run: RunView, event: SwarmEventView, now_ms: u64)
    requires
        run.inv(),
        run.accepts(event),
    ensures
        run.step(event, now_ms).1 matches SwarmActionView::Spawn(request) ==> run.ids().contains(
            request.task_id,
        ) && model::satisfied(run.task(request.task_id), run.step(event, now_ms).0.states),
{
    let (after, action) = run.step(event, now_ms);
    model::every_step_keeps_the_run_sound(run, event, now_ms);
    lemma_plan_stays(run, event, now_ms);
    if action is Spawn {
        let queue = after.phase->queue;
        assert(after.phase is Spawning);
        assert(queue[0] == action->Spawn_0.task_id);
        assert(after.is_pending(queue[0]));
        assert(after.states.contains_key(queue[0]));
    }
}

/// A step never changes what the run was asked to do.
pub proof fn lemma_plan_stays(run: RunView, event: SwarmEventView, now_ms: u64)
    ensures
        run.step(event, now_ms).0.plan == run.plan,
{
    if let SwarmEventView::Agents(snapshots) = event {
        lemma_observed_plan(run, run.ids().len(), snapshots, now_ms);
    }
}

proof fn lemma_observed_plan(
    run: RunView,
    n: nat,
    snapshots: Seq<SubAgentResultView>,
    now_ms: u64,
)
    ensures
        run.observed(n, snapshots, now_ms).plan == run.plan,
        run.observed(n, snapshots, now_ms).attempts == run.attempts,
    decreases n,
{
    if n > 0 {
        lemma_observed_plan(run, (n - 1) as nat, snapshots, now_ms);
    }
}

/// Whether an event answers an action.
pub open spec fn answers(event: SwarmEventView, action: SwarmActionView) -> bool {
    match action {
        SwarmActionView::ListAgents => event is Agents,
        SwarmActionView::CancelAgents(agents) => event matches SwarmEventView::Cancelled(replies)
            && replies.len() == agents.len(),
        SwarmActionView::CountSlots => event is Slots,
        SwarmActionView::Spawn(_) => event is Spawned || event is SpawnFailed,
        SwarmActionView::Publish(_) => event is Resumed,
        SwarmActionView::Pause(_) => event is Resumed,
        SwarmActionView::Finish(_) => false,
        SwarmActionView::Abort(_) => false,
    }
}

/// The run accepts every answer to what it asks for.
spec fn takes_answers(next: (RunView, SwarmActionView)) -> bool {
    forall|answer: SwarmEventView| #[trigger] answers(answer, next.1) ==> next.0.accepts(answer)
}

/// Tasks that run in one phase run in any other.
proof fn lemma_running_in_phase(run: RunView, phase: RunPhaseView)
    ensures
        run.in_phase(phase).running_ids() == run.running_ids(),
{
    assert(run.in_phase(phase).running_test() =~= run.running_test());
}

proof fn lemma_answers_to_stop(run: RunView, now_ms: u64)
    ensures
        takes_answers(run.stop(now_ms)),
{
    lemma_running_in_phase(run, RunPhaseView::Stopping);
}

proof fn lemma_answers_after_launch(run: RunView, now_ms: u64)
    ensures
        takes_answers(run.after_launch(now_ms)),
{
    lemma_answers_to_stop(run, now_ms);
    let late = RunView { timed_out: true, ..run };
    assert(late.in_phase(RunPhaseView::Expiring).running_test() =~= run.running_test());
}

proof fn lemma_answers_after_observation(run: RunView, now_ms: u64)
    ensures
        takes_answers(run.after_observation(now_ms)),
{
    lemma_answers_to_stop(run, now_ms);
    lemma_answers_after_launch(run.without_blocked(), now_ms);
}

proof fn lemma_answers_to_launch(run: RunView, queue: Seq<Seq<char>>, now_ms: u64)
    ensures
        takes_answers(run.launch(queue, now_ms)),
{
    lemma_answers_after_launch(run, now_ms);
}

/// Whatever the run asked for, it accepts every answer to it.
pub proof fn every_answer_is_accepted(
    run: RunView,
    event: SwarmEventView,
    now_ms: u64,
    answer: SwarmEventView,
)
    requires
        run.accepts(event),
        answers(answer, run.step(event, now_ms).1),
    ensures
        run.step(event, now_ms).0.accepts(answer),
{
    match (run.phase, event) {
        (RunPhaseView::Idle, SwarmEventView::Resumed) => {
            lemma_answers_after_observation(RunView { changed: false, ..run }, now_ms);
        },
        (RunPhaseView::Listing, SwarmEventView::Agents(snapshots)) => {
            lemma_answers_after_observation(
                run.observed(run.ids().len(), snapshots, now_ms),
                now_ms,
            );
        },
        (RunPhaseView::Dropping, SwarmEventView::Cancelled(_)) => {
            lemma_answers_after_observation(run, now_ms);
        },
        (RunPhaseView::Counting { ready }, SwarmEventView::Slots(free)) => {
            let n: int = if run.slots(free) < ready.len() {
                run.slots(free)
            } else {
                ready.len() as int
            };
            lemma_answers_to_launch(run, ready.take(n), now_ms);
        },
        (RunPhaseView::Spawning { queue }, SwarmEventView::Spawned(agent_id)) => {
            lemma_answers_to_launch(
                run.spawned(queue[0], agent_id, now_ms),
                queue.drop_first(),
                now_ms,
            );
        },
        (RunPhaseView::Spawning { queue }, SwarmEventView::SpawnFailed(message)) => {
            lemma_answers_after_launch(run.taken_back(queue[0]), now_ms);
            lemma_answers_to_launch(
                run.lost(queue[0], SwarmTaskStateView::Failed(message), now_ms),
                queue.drop_first(),
                now_ms,
            );
        },
        _ => {},
    }
}

/// A run of valid tasks never aborts.
pub proof fn valid_tasks_never_abort(run: RunView, event: SwarmEventView, now_ms: u64)
    requires
        run.inv(),
        run.accepts(event),
        validate::valid_tasks(run.plan.tasks),
    ensures
        run.step(event, now_ms).1 !is Abort,
{
    let tasks = run.plan.tasks;
    let ids = run.ids();
    assert forall|id: Seq<char>| ids.contains(id) implies task::assignment(
        #[trigger] run.task(id),
    ) is Ok by {
        let i = ids.index_of(id);
        assert(0 <= i < ids.len() && ids[i] == id);
        assert(validate::acceptable(tasks[i]));
    }
    match (run.phase, event) {
        (RunPhaseView::Counting { ready }, SwarmEventView::Slots(free)) => {
            if ready.len() > 0 {
                assert(run.is_pending(ready[0]));
                assert(run.states.contains_key(ready[0]));
                let n: int = if run.slots(free) < ready.len() {
                    run.slots(free)
                } else {
                    ready.len() as int
                };
                assert(n > 0 ==> ready.take(n)[0] == ready[0]);
            }
        },
        (RunPhaseView::Spawning { queue }, _) => {
            if queue.len() > 1 {
                let rest = queue.drop_first();
                assert(rest[0] == queue[1]);
                assert(run.is_pending(queue[1]));
                assert(run.states.contains_key(queue[1]));
                let agent_id = event->Spawned_0;
                let spawned = run.spawned(queue[0], agent_id, now_ms);
                assert(spawned.task(rest[0]) == run.task(rest[0]));
                let failed = run.lost(
                    queue[0],
                    SwarmTaskStateView::Failed(event->SpawnFailed_0),
                    now_ms,
                );
                assert(failed.task(rest[0]) == run.task(rest[0]));
            }
        },
        _ => {},
    }
}

/// While no agent works and tasks are left, at least one of these can start (at once or once its
/// retry is due) or can no longer start: a run of valid tasks is never stuck.
pub proof fn valid_tasks_never_deadlock(run: RunView) -> (id: Seq<char>)
    requires
        run.inv(),
        run.phase !is Closing,
        run.phase !is Finished,
        validate::valid_tasks(run.plan.tasks),
        run.running_ids().len() == 0,
        run.pending_ids().len() > 0,
    ensures
        run.is_pending(id),
        model::satisfied(run.task(id), run.states) || model::blocked(run.task(id), run.states),
{
    let tasks = run.plan.tasks;
    let ids = run.ids();
    let pending = run.pending_ids();
    let deps = validate::dependency_map(tasks);
    model::lemma_filter_members(ids, run.pending_test());
    model::lemma_filter_members(ids, run.running_test());
    assert(pending.to_set().contains(pending[0]));
    pending.unique_seq_to_set();
    let id = validate::acyclic_set_has_a_source(deps, pending.to_set());
    let k = choose|k: int| 0 <= k < pending.len() && pending[k] == id;
    assert(run.pending_test()(pending[k]));
    assert(ids.contains(id));
    let i = ids.index_of(id);
    assert(0 <= i < ids.len() && ids[i] == id);
    assert(tasks[i].id == id);
    validate::lemma_dependency_map(tasks);
    assert(run.task(id) == tasks[i]);
    if !model::blocked(run.task(id), run.states) {
        assert forall|dep: Seq<char>| #[trigger] run.task(id).depends_on.contains(
            dep,
        ) implies model::is_completed(run.states, dep) by {
            assert(tasks[i].depends_on.contains(dep));
            assert(ids.contains(dep));
            assert(run.states.contains_key(dep));
            assert(validate::depends(deps, id, dep));
            assert(!pending.to_set().contains(dep));
            if run.pending_test()(dep) {
                assert(pending.contains(dep));
            }
            if run.running_test()(dep) {
                assert(run.running_ids().contains(dep));
            }
            assert(!model::is_lost(run.states, dep));
        }
    }
    id
}

/// Past its deadline a run starts no further pass.
pub proof fn no_pass_starts_after_the_deadline(run: RunView, event: SwarmEventView, now_ms: u64)
    requires
        run.accepts(event),
        run.phase !is Reporting,
        now_ms >= run.plan.timeout_ms,
    ensures
        run.step(event, now_ms).1 !is Pause,
{
    if let SwarmEventView::Agents(snapshots) = event {
        lemma_observed_plan(run, run.ids().len(), snapshots, now_ms);
    }
}

/// A run that a failure stops leaves no task pending or running, and it is reported as failed.
pub proof fn stopping_leaves_no_task_open(
    run: RunView,
    replies: Seq<Result<SubAgentResultView, Seq<char>>>,
    now_ms: u64,
    id: Seq<char>,
)
    requires
        run.tasks_inv(None),
        run.fail_fast_triggered,
    ensures
        !run.stopped(replies, now_ms).0.is_pending(id),
        !run.stopped(replies, now_ms).0.is_running(id),
        match run.stopped(replies, now_ms).1 {
            SwarmActionView::Publish(report) => report.status == SwarmStatus::Failed,
            SwarmActionView::Finish(report) => report.status == SwarmStatus::Failed,
            _ => false,
        },
{
    let mid = run.cancelled(replies);
    model::lemma_cancelled(run, replies);
    let after = mid.abandoned();
    model::lemma_filter_members(mid.ids(), mid.pending_test());
    model::lemma_filter_members(mid.ids(), mid.running_test());
    let state = SwarmTaskStateView::Skipped("Skipped due to fail_fast"@);
    model::lemma_with_all(mid.states, mid.pending_ids(), state);
    if after.states.contains_key(id) {
        assert(mid.states.contains_key(id) || mid.pending_ids().contains(id));
        if mid.pending_ids().contains(id) {
            let k = choose|k: int| 0 <= k < mid.pending_ids().len() && mid.pending_ids()[k] == id;
            assert(mid.pending_test()(mid.pending_ids()[k]));
        } else {
            assert(mid.ids().contains(id));
            assert(after.states[id] == mid.states[id]);
            if mid.pending_test()(id) {
                assert(mid.pending_ids().contains(id));
            }
            if mid.running_test()(id) {
                assert(mid.running_ids().contains(id));
            }
        }
    }
}

/// Whether what a run reports is what it came to: a final report tells of the tasks as they are,
/// and tasks are left open in it only after a failure that stopped the run or at the deadline; a
/// progress report says that the swarm runs, or that a failure stopped it.
spec fn reports_truly(next: (RunView, SwarmActionView), now_ms: u64) -> bool {
    match next.1 {
        SwarmActionView::Finish(report) => {
            &&& next.0.phase is Finished
            &&& report == outcome::final_report(
                next.0.plan.swarm_id,
                now_ms,
                next.0.ids(),
                next.0.states,
                next.0.fail_fast_triggered,
                next.0.timed_out,
            )
            &&& next.0.fail_fast_triggered || next.0.timed_out || (next.0.pending_ids().len() == 0
                && next.0.running_ids().len() == 0)
        },
        SwarmActionView::Publish(report) => {
            &&& next.0.plan.publish_progress
            &&& report == outcome::progress_report(
                next.0.plan.swarm_id,
                now_ms,
                next.0.ids(),
                next.0.states,
                report.status,
            )
            &&& report.status == SwarmStatus::Running || (report.status == SwarmStatus::Failed
                && next.0.phase is Closing)
        },
        _ => true,
    }
}

proof fn lemma_reports_after_launch(run: RunView, now_ms: u64)
    ensures
        reports_truly(run.after_launch(now_ms), now_ms),
{
    let over = run.in_phase(RunPhaseView::Finished);
    assert(over.pending_test() =~= run.pending_test());
    assert(over.running_test() =~= run.running_test());
}

proof fn lemma_reports_after_observation(run: RunView, now_ms: u64)
    ensures
        reports_truly(run.after_observation(now_ms), now_ms),
{
    lemma_reports_after_launch(run.without_blocked(), now_ms);
}

proof fn lemma_reports_to_launch(run: RunView, queue: Seq<Seq<char>>, now_ms: u64)
    ensures
        reports_truly(run.launch(queue, now_ms), now_ms),
{
    lemma_reports_after_launch(run, now_ms);
}

proof fn lemma_step_reports_truly(run: RunView, event: SwarmEventView, now_ms: u64)
    requires
        run.inv(),
        run.accepts(event),
    ensures
        reports_truly(run.step(event, now_ms), now_ms),
{
    match (run.phase, event) {
        (RunPhaseView::Idle, SwarmEventView::Resumed) => {
            lemma_reports_after_observation(RunView { changed: false, ..run }, now_ms);
        },
        (RunPhaseView::Listing, SwarmEventView::Agents(snapshots)) => {
            lemma_reports_after_observation(
                run.observed(run.ids().len(), snapshots, now_ms),
                now_ms,
            );
        },
        (RunPhaseView::Dropping, SwarmEventView::Cancelled(_)) => {
            lemma_reports_after_observation(run, now_ms);
        },
        (RunPhaseView::Counting { ready }, SwarmEventView::Slots(free)) => {
            let n: int = if run.slots(free) < ready.len() {
                run.slots(free)
            } else {
                ready.len() as int
            };
            lemma_reports_to_launch(run, ready.take(n), now_ms);
        },
        (RunPhaseView::Spawning { queue }, SwarmEventView::Spawned(agent_id)) => {
            lemma_reports_to_launch(
                run.spawned(queue[0], agent_id, now_ms),
                queue.drop_first(),
                now_ms,
            );
        },
        (RunPhaseView::Spawning { queue }, SwarmEventView::SpawnFailed(message)) => {
            lemma_reports_after_launch(run.taken_back(queue[0]), now_ms);
            lemma_reports_to_launch(
                run.lost(queue[0], SwarmTaskStateView::Failed(message), now_ms),
                queue.drop_first(),
                now_ms,
            );
        },
        _ => {},
    }
}

/// A swarm is reported as failed only if it was asked to stop at the first failure.
pub proof fn failed_only_under_fail_fast(run: RunView, event: SwarmEventView, now_ms: u64)
    requires
        run.inv(),
        run.accepts(event),
    ensures
        match run.step(event, now_ms).1 {
            SwarmActionView::Finish(report) => report.status == SwarmStatus::Failed
                ==> run.plan.fail_fast,
            SwarmActionView::Publish(report) => report.status == SwarmStatus::Failed
                ==> run.plan.fail_fast,
            _ => true,
        },
{
    lemma_step_reports_truly(run, event, now_ms);
    model::every_step_keeps_the_run_sound(run, event, now_ms);
    lemma_plan_stays(run, event, now_ms);
}

/// Whether a report tells of a swarm that came to its end by itself.
pub open spec fn is_natural_end(status: SwarmStatus) -> bool {
    status == SwarmStatus::Completed || status == SwarmStatus::Partial
}

/// A task in a run that came to its end by itself is not open, and it was skipped exactly if a task
/// that it depends on was lost.
proof fn lemma_natural_end(run: RunView, event: SwarmEventView, now_ms: u64, k: int)
    requires
        run.inv(),
        run.accepts(event),
        run.step(event, now_ms).1 is Finish,
        is_natural_end(run.step(event, now_ms).1->Finish_0.status),
        0 <= k < run.ids().len(),
    ensures
        ({
            let after = run.step(event, now_ms).0;
            let report = run.step(event, now_ms).1->Finish_0;
            let id = run.ids()[k];
            &&& report.tasks.len() == run.ids().len()
            &&& report.tasks[k].task_id == id
            &&& report.tasks[k].status != SwarmTaskStatus::Pending
            &&& report.tasks[k].status != SwarmTaskStatus::Running
            &&& report.tasks[k].status == SwarmTaskStatus::Skipped <==> model::blocked(
                run.task(id),
                after.states,
            )
            &&& report.tasks[k].status == SwarmTaskStatus::Skipped ==> report.tasks[k].error
                == Some("Dependency failed"@)
        }),
{
    lemma_step_reports_truly(run, event, now_ms);
    model::every_step_keeps_the_run_sound(run, event, now_ms);
    lemma_plan_stays(run, event, now_ms);
    let after = run.step(event, now_ms).0;
    let id = run.ids()[k];
    assert(after.ids().contains(id));
    assert(after.states.contains_key(id));
    model::lemma_filter_members(after.ids(), after.pending_test());
    model::lemma_filter_members(after.ids(), after.running_test());
    assert(!after.is_pending(id)) by {
        if after.pending_test()(id) {
            assert(after.pending_ids().contains(id));
        }
    }
    assert(!after.is_running(id)) by {
        if after.running_test()(id) {
            assert(after.running_ids().contains(id));
        }
    }
    assert(after.task(id) == run.task(id));
    if after.is_skipped(id) {
        assert(model::blocked(after.task(id), after.states));
    } else {
        assert(after.was_tried(id));
        assert(model::satisfied(after.task(id), after.states));
        if model::blocked(after.task(id), after.states) {
            let dep = choose|dep: Seq<char>| #[trigger]
                after.task(id).depends_on.contains(dep) && model::is_lost(after.states, dep);
            assert(model::is_completed(after.states, dep));
        }
    }
}

/// In a report that tells of a completed swarm, or of one of which a part completed, no task is
/// pending or running.
pub proof fn naturally_ended_swarms_are_settled(
    run: RunView,
    event: SwarmEventView,
    now_ms: u64,
    k: int,
)
    requires
        run.inv(),
        run.accepts(event),
    ensures
        run.step(event, now_ms).1 matches SwarmActionView::Finish(report) ==> is_natural_end(
            report.status,
        ) && 0 <= k < report.tasks.len() ==> report.tasks[k].status != SwarmTaskStatus::Pending
            && report.tasks[k].status != SwarmTaskStatus::Running,
{
    if let SwarmActionView::Finish(report) = run.step(event, now_ms).1 {
        if is_natural_end(report.status) && 0 <= k < report.tasks.len() {
            lemma_step_reports_truly(run, event, now_ms);
            lemma_plan_stays(run, event, now_ms);
            lemma_natural_end(run, event, now_ms, k);
        }
    }
}

/// In a report that tells of a completed swarm, or of one of which a part completed, the skipped
/// tasks are exactly those that depend on a task that ended without success, and this is the reason
/// that is given for each of them.
pub proof fn skipped_tasks_lost_a_dependency(
    run: RunView,
    event: SwarmEventView,
    now_ms: u64,
    k: int,
)
    requires
        run.inv(),
        run.accepts(event),
        0 <= k < run.ids().len(),
    ensures
        run.step(event, now_ms).1 matches SwarmActionView::Finish(report) ==> is_natural_end(
            report.status,
        ) ==> report.tasks.len() == run.ids().len() && report.tasks[k].task_id == run.ids()[k] && (
        report.tasks[k].status == SwarmTaskStatus::Skipped <==> model::blocked(
            run.task(run.ids()[k]),
            run.step(event, now_ms).0.states,
        )) && (report.tasks[k].status == SwarmTaskStatus::Skipped ==> report.tasks[k].error == Some(
            "Dependency failed"@,
        )),
{
    if let SwarmActionView::Finish(report) = run.step(event, now_ms).1 {
        if is_natural_end(report.status) {
            lemma_natural_end(run, event, now_ms, k);
        }
    }
}

/// A swarm is reported as completed only if every one of its tasks completed.
pub proof fn completed_means_every_task_completed(
    swarm_id: Seq<char>,
    duration_ms: u64,
    order: Seq<Seq<char>>,
    states: Map<Seq<char>, SwarmTaskStateView>,
    fail_fast_triggered: bool,
    timed_out: bool,
    id: Seq<char>,
)
    requires
        order.len() <= usize::MAX,
        order.contains(id),
        outcome::final_report(
            swarm_id,
            duration_ms,
            order,
            states,
            fail_fast_triggered,
            timed_out,
        ).status == SwarmStatus::Completed,
    ensures
        model::is_completed(states, id),
{
    let outcomes = outcome::task_outcomes(order, states);
    outcome::lemma_count_with(outcomes, SwarmTaskStatus::Completed);
    let k = choose|k: int| 0 <= k < order.len() && order[k] == id;
    assert(outcomes[k].status == SwarmTaskStatus::Completed);
}

/// A pass over the running tasks treats each on its own: what becomes of a task does not depend
/// on the other tasks, nor on the order of the pass.
pub proof fn tasks_are_judged_on_their_own(
    run: RunView,
    n: nat,
    snapshots: Seq<SubAgentResultView>,
    now_ms: u64,
    k: int,
)
    requires
        run.ids().no_duplicates(),
        0 <= k < n <= run.ids().len(),
        run.states.contains_key(run.ids()[k]),
    ensures
        ({
            let id = run.ids()[k];
            let pass = run.observed(n, snapshots, now_ms);
            let alone = run.observed_one(id, snapshots, now_ms);
            &&& pass.states.contains_key(id)
            &&& pass.states[id] == alone.states[id]
            &&& pass.started_at.contains_key(id) == alone.started_at.contains_key(id)
            &&& pass.retry_ready_at.contains_key(id) == alone.retry_ready_at.contains_key(id)
            &&& pass.retry_ready_at.contains_key(id) ==> pass.retry_ready_at[id]
                == alone.retry_ready_at[id]
        }),
    decreases n,
{
    let id = run.ids()[k];
    let mid = run.observed((n - 1) as nat, snapshots, now_ms);
    lemma_observed_plan(run, (n - 1) as nat, snapshots, now_ms);
    if k < n - 1 {
        tasks_are_judged_on_their_own(run, (n - 1) as nat, snapshots, now_ms, k);
        assert(run.ids()[n - 1] != id);
    } else {
        lemma_later_tasks_untouched(run, (n - 1) as nat, snapshots, now_ms, k);
    }
}

proof fn lemma_later_tasks_untouched(
    run: RunView,
    n: nat,
    snapshots: Seq<SubAgentResultView>,
    now_ms: u64,
    k: int,
)
    requires
        run.ids().no_duplicates(),
        n <= k < run.ids().len(),
    ensures
        ({
            let id = run.ids()[k];
            let pass = run.observed(n, snapshots, now_ms);
            &&& pass.states.contains_key(id) == run.states.contains_key(id)
            &&& pass.states[id] == run.states[id]
            &&& pass.started_at.contains_key(id) == run.started_at.contains_key(id)
            &&& pass.started_at[id] == run.started_at[id]
            &&& pass.retry_ready_at.contains_key(id) == run.retry_ready_at.contains_key(id)
            &&& pass.retry_ready_at[id] == run.retry_ready_at[id]
        }),
    decreases n,
{
    if n > 0 {
        lemma_later_tasks_untouched(run, (n - 1) as nat, snapshots, now_ms, k);
        lemma_observed_plan(run, (n - 1) as nat, snapshots, now_ms);
        assert(run.ids()[n - 1] != run.ids()[k]);
    }
}

/// Whether entry `k` of a list of agents is the last one about an agent.
pub open spec fn is_last_word(
    snapshots: Seq<SubAgentResultView>,
    agent_id: Seq<char>,
    k: int,
) -> bool {
    &&& 0 <= k < snapshots.len()
    &&& snapshots[k].agent_id == agent_id
    &&& forall|j: int| k < j < snapshots.len() ==> (#[trigger] snapshots[j]).agent_id != agent_id
}

/// Whether an agent is missing from a list.
pub open spec fn is_missing(snapshots: Seq<SubAgentResultView>, agent_id: Seq<char>) -> bool {
    forall|j: int| 0 <= j < snapshots.len() ==> (#[trigger] snapshots[j]).agent_id != agent_id
}

/// Whether the agent of a running task has worked for as long as its task allows: a limit of zero
/// counts as one millisecond, and no limit is longer than ten minutes.
pub open spec fn has_had_its_time(run: RunView, id: Seq<char>, now_ms: u64) -> bool {
    run.started_at.contains_key(id) && run.task(id).task_timeout_ms is Some && {
        let limit = run.task(id).task_timeout_ms->0;
        let worked = now_ms - run.started_at[id];
        worked >= 1 && (worked >= limit || worked >= 600_000)
    }
}

proof fn lemma_latest(snapshots: Seq<SubAgentResultView>, agent_id: Seq<char>)
    ensures
        is_missing(snapshots, agent_id) ==> model::latest(snapshots, agent_id) is None,
        forall|k: int| #[trigger]
            is_last_word(snapshots, agent_id, k) ==> model::latest(snapshots, agent_id) == Some(
                snapshots[k],
            ),
    decreases snapshots.len(),
{
    if snapshots.len() > 0 {
        let front = snapshots.drop_last();
        lemma_latest(front, agent_id);
        assert(snapshots[snapshots.len() - 1] == snapshots.last());
        if is_missing(snapshots, agent_id) {
            assert forall|j: int| 0 <= j < front.len() implies (#[trigger] front[j]).agent_id
                != agent_id by {
                assert(snapshots[j].agent_id != agent_id);
            }
        }
        assert forall|k: int| #[trigger] is_last_word(snapshots, agent_id, k) implies model::latest(
            snapshots,
            agent_id,
        ) == Some(snapshots[k]) by {
            if k < front.len() {
                assert(snapshots[snapshots.len() - 1].agent_id != agent_id);
                assert forall|j: int| k < j < front.len() implies (#[trigger] front[j]).agent_id
                    != agent_id by {
                    assert(snapshots[j].agent_id != agent_id);
                }
                assert(is_last_word(front, agent_id, k));
            }
        }
    }
}

/// What follows an observation leaves a task alone that cannot be skipped, unless the run stops.
proof fn lemma_kept_after_observation(run: RunView, now_ms: u64, id: Seq<char>)
    requires
        run.tasks_inv(None),
        !run.fail_fast_triggered,
        run.states.contains_key(id),
        !run.is_pending(id) || !model::blocked(run.task(id), run.states),
    ensures
        run.after_observation(now_ms).0.states.contains_key(id),
        run.after_observation(now_ms).0.states[id] == run.states[id],
        run.after_observation(now_ms).0.retry_ready_at == run.retry_ready_at,
        run.after_observation(now_ms).0.started_at == run.started_at,
        run.after_observation(now_ms).0.attempts == run.attempts,
{
    let state = SwarmTaskStateView::Skipped("Dependency failed"@);
    model::lemma_with_all(run.states, run.blocked_ids(), state);
    model::lemma_filter_members(run.ids(), run.blocked_test());
    let after = run.without_blocked();
    if run.blocked_ids().contains(id) {
        let i = choose|i: int| 0 <= i < run.blocked_ids().len() && run.blocked_ids()[i] == id;
        assert(run.blocked_test()(run.blocked_ids()[i]));
    }
    assert(after.states.contains_key(id));
    assert(after.states[id] == run.states[id]);
}

/// What listing the agents makes of one running task.
proof fn lemma_listed_task(
    run: RunView,
    snapshots: Seq<SubAgentResultView>,
    now_ms: u64,
    id: Seq<char>,
)
    requires
        run.inv(),
        run.phase is Listing,
        !run.plan.fail_fast,
        run.is_running(id),
    ensures
        ({
            let after = run.step(SwarmEventView::Agents(snapshots), now_ms).0;
            let alone = run.observed_one(id, snapshots, now_ms);
            &&& after.states.contains_key(id)
            &&& after.states[id] == alone.states[id]
            &&& after.retry_ready_at.contains_key(id) == alone.retry_ready_at.contains_key(id)
            &&& after.retry_ready_at.contains_key(id) ==> after.retry_ready_at[id]
                == alone.retry_ready_at[id]
            &&& after.attempts == run.attempts
        }),
{
    let n = run.ids().len();
    let mid = run.observed(n, snapshots, now_ms);
    model::lemma_observed(run, n, snapshots, now_ms);
    lemma_observed_plan(run, n, snapshots, now_ms);
    assert(run.states.contains_key(id));
    assert(run.ids().contains(id));
    let k = run.ids().index_of(id);
    assert(0 <= k < n && run.ids()[k] == id);
    tasks_are_judged_on_their_own(run, n, snapshots, now_ms, k);
    assert(run.was_tried(id));
    assert(model::satisfied(run.task(id), run.states));
    assert(mid.task(id) == run.task(id));
    assert(!model::blocked(mid.task(id), mid.states)) by {
        if model::blocked(mid.task(id), mid.states) {
            let dep = choose|dep: Seq<char>| #[trigger]
                mid.task(id).depends_on.contains(dep) && model::is_lost(mid.states, dep);
            assert(model::is_completed(run.states, dep));
            assert(run.states.contains_key(dep));
            assert(run.ids().contains(dep));
            let d = run.ids().index_of(dep);
            assert(0 <= d < n && run.ids()[d] == dep);
            tasks_are_judged_on_their_own(run, n, snapshots, now_ms, d);
            assert(run.observed_one(dep, snapshots, now_ms) == run);
        }
    }
    lemma_kept_after_observation(mid, now_ms, id);
}

proof fn lemma_time_limit(run: RunView, id: Seq<char>, now_ms: u64)
    requires
        run.is_running(id),
        run.started_at.contains_key(id),
    ensures
        has_had_its_time(run, id, now_ms) == run.is_overdue(id, now_ms),
{
}

/// A lost attempt is not the end of a task while it may be retried. A running task whose agent was
/// interrupted, failed or was cancelled, is missing from the list, or has had its time, goes back
/// to wait for its next attempt as long as no more attempts were made than it has retries. It is
/// due again once the delay that belongs to the number of attempts is over.
pub proof fn lost_attempts_are_retried(
    run: RunView,
    snapshots: Seq<SubAgentResultView>,
    now_ms: u64,
    id: Seq<char>,
    k: int,
)
    requires
        run.inv(),
        run.phase is Listing,
        !run.plan.fail_fast,
        run.is_running(id),
        run.attempts_of(id) <= task::retries(run.task(id)),
        now_ms <= u64::MAX - 60_000,
        has_had_its_time(run, id, now_ms) || is_missing(snapshots, run.states[id]->agent_id) || (
        is_last_word(snapshots, run.states[id]->agent_id, k) && (snapshots[k].status is Interrupted
            || snapshots[k].status is Failed || snapshots[k].status is Cancelled)),
    ensures
        ({
            let after = run.step(SwarmEventView::Agents(snapshots), now_ms).0;
            &&& after.is_pending(id)
            &&& after.retry_ready_at.contains_key(id)
            &&& after.retry_ready_at[id] == now_ms + task::retry_delay(
                run.task(id),
                run.attempts_of(id) as nat,
            )
            &&& after.attempts_of(id) == run.attempts_of(id)
        }),
{
    lemma_latest(snapshots, run.states[id]->agent_id);
    lemma_listed_task(run, snapshots, now_ms, id);
    task::retry_delay_is_bounded_and_monotone(
        run.task(id),
        run.attempts_of(id) as nat,
        run.attempts_of(id) as nat,
    );
    lemma_time_limit(run, id, now_ms);
}

/// A task ends by a lost attempt only when its retries are used up, and it ends with what was lost:
/// the report of an agent that stopped without success, or why there is none.
pub proof fn used_up_tasks_end_with_the_loss(
    run: RunView,
    snapshots: Seq<SubAgentResultView>,
    now_ms: u64,
    id: Seq<char>,
    k: int,
)
    requires
        run.inv(),
        run.phase is Listing,
        !run.plan.fail_fast,
        run.is_running(id),
        run.attempts_of(id) > task::retries(run.task(id)),
    ensures
        ({
            let after = run.step(SwarmEventView::Agents(snapshots), now_ms).0;
            let agent = run.states[id]->agent_id;
            let in_time = !has_had_its_time(run, id, now_ms);
            &&& !in_time ==> after.states[id] is Failed
            &&& in_time && is_missing(snapshots, agent) ==> after.states[id]
                == SwarmTaskStateView::Failed("Agent result not found"@)
            &&& in_time && is_last_word(snapshots, agent, k) && (snapshots[k].status is Interrupted
                || snapshots[k].status is Failed || snapshots[k].status is Cancelled)
                ==> after.states[id] == SwarmTaskStateView::Done(snapshots[k])
            &&& !after.is_pending(id)
        }),
{
    lemma_latest(snapshots, run.states[id]->agent_id);
    lemma_listed_task(run, snapshots, now_ms, id);
    lemma_time_limit(run, id, now_ms);
}

/// A task whose agent completed is done with that agent's report, however often it was tried, and a
/// task whose agent still works goes on.
pub proof fn finished_agents_are_believed(
    run: RunView,
    snapshots: Seq<SubAgentResultView>,
    now_ms: u64,
    id: Seq<char>,
    k: int,
)
    requires
        run.inv(),
        run.phase is Listing,
        !run.plan.fail_fast,
        run.is_running(id),
        !has_had_its_time(run, id, now_ms),
        is_last_word(snapshots, run.states[id]->agent_id, k),
    ensures
        ({
            let after = run.step(SwarmEventView::Agents(snapshots), now_ms).0;
            &&& snapshots[k].status is Completed ==> after.states[id]
                == SwarmTaskStateView::Done(snapshots[k])
            &&& snapshots[k].status is Running ==> after.states[id] == run.states[id]
        }),
{
    lemma_latest(snapshots, run.states[id]->agent_id);
    lemma_listed_task(run, snapshots, now_ms, id);
    lemma_time_limit(run, id, now_ms);
}

/// Where the first failure stops the run, a lost attempt stops it: the agents that still work are
/// cancelled, or the swarm is reported as failed. Nothing is retried and nothing more is started.
pub proof fn losses_stop_a_fail_fast_run(
    run: RunView,
    snapshots: Seq<SubAgentResultView>,
    now_ms: u64,
    id: Seq<char>,
    k: int,
)
    requires
        run.inv(),
        run.phase is Listing,
        run.plan.fail_fast,
        run.is_running(id),
        has_had_its_time(run, id, now_ms) || is_missing(snapshots, run.states[id]->agent_id) || (
        is_last_word(snapshots, run.states[id]->agent_id, k) && (snapshots[k].status is Interrupted
            || snapshots[k].status is Failed || snapshots[k].status is Cancelled)),
    ensures
        ({
            let (after, action) = run.step(SwarmEventView::Agents(snapshots), now_ms);
            &&& after.fail_fast_triggered
            &&& !after.is_pending(id)
            &&& match action {
                SwarmActionView::CancelAgents(_) => true,
                SwarmActionView::Publish(report) => report.status == SwarmStatus::Failed,
                SwarmActionView::Finish(report) => report.status == SwarmStatus::Failed,
                _ => false,
            }
        }),
{
    lemma_latest(snapshots, run.states[id]->agent_id);
    lemma_time_limit(run, id, now_ms);
    let n = run.ids().len();
    let mid = run.observed(n, snapshots, now_ms);
    assert(run.states.contains_key(id));
    assert(run.ids().contains(id));
    let at = run.ids().index_of(id);
    assert(0 <= at < n && run.ids()[at] == id);
    lemma_loss_is_noted(run, n, snapshots, now_ms, at);
    model::lemma_observed(run, n, snapshots, now_ms);
    tasks_are_judged_on_their_own(run, n, snapshots, now_ms, at);
    assert(!mid.is_pending(id));
    lemma_triggered_stops(mid, now_ms);
    stopping_leaves_no_task_open(mid, seq![], now_ms, id);
}

proof fn lemma_triggered_stops(run: RunView, now_ms: u64)
    requires
        run.tasks_inv(None),
        run.fail_fast_triggered,
    ensures
        run.stop(now_ms).0.fail_fast_triggered,
        match run.stop(now_ms).1 {
            SwarmActionView::CancelAgents(_) => true,
            SwarmActionView::Publish(report) => report.status == SwarmStatus::Failed,
            SwarmActionView::Finish(report) => report.status == SwarmStatus::Failed,
            _ => false,
        },
{
}

/// A loss that a pass over the running tasks meets is noted, and stays noted.
proof fn lemma_loss_is_noted(
    run: RunView,
    n: nat,
    snapshots: Seq<SubAgentResultView>,
    now_ms: u64,
    k: int,
)
    requires
        run.ids().no_duplicates(),
        run.plan.fail_fast,
        0 <= k < run.ids().len(),
        n <= run.ids().len(),
        run.observed_one(run.ids()[k], snapshots, now_ms).fail_fast_triggered,
        run.is_running(run.ids()[k]),
    ensures
        run.fail_fast_triggered ==> run.observed(n, snapshots, now_ms).fail_fast_triggered,
        k < n ==> run.observed(n, snapshots, now_ms).fail_fast_triggered,
    decreases n,
{
    if n > 0 {
        lemma_loss_is_noted(run, (n - 1) as nat, snapshots, now_ms, k);
        lemma_observed_plan(run, (n - 1) as nat, snapshots, now_ms);
        if k == n - 1 {
            lemma_later_tasks_untouched(run, (n - 1) as nat, snapshots, now_ms, k);
        }
    }
}

/// Each agent that is cancelled at the deadline or after a failure is that of a running task: the
/// run asks for the agents of all running tasks, one for each, in the order of the tasks.
pub proof fn running_agents_are_cancelled(
    run: RunView,
    event: SwarmEventView,
    now_ms: u64,
    k: int,
)
    requires
        run.inv(),
        run.accepts(event),
        run.step(event, now_ms).0.phase is Stopping || run.step(event, now_ms).0.phase is Expiring,
        0 <= k < run.step(event, now_ms).0.running_ids().len(),
    ensures
        ({
            let (after, action) = run.step(event, now_ms);
            &&& action is CancelAgents
            &&& action->CancelAgents_0.len() == after.running_ids().len()
            &&& after.is_running(after.running_ids()[k])
            &&& after.states[after.running_ids()[k]] == (SwarmTaskStateView::Running {
                agent_id: action->CancelAgents_0[k],
            })
        }),
{
    let (after, action) = run.step(event, now_ms);
    model::every_step_keeps_the_run_sound(run, event, now_ms);
    model::lemma_filter_members(after.ids(), after.running_test());
    assert(after.running_test()(after.running_ids()[k]));
    lemma_step_asks_for_running(run, event, now_ms);
}

/// Whether a run that waits for its running agents to be cancelled asked for just these.
spec fn asks_for_running(next: (RunView, SwarmActionView)) -> bool {
    next.0.phase is Stopping || next.0.phase is Expiring ==> next.1
        == SwarmActionView::CancelAgents(next.0.agents_of(next.0.running_ids()))
}

proof fn lemma_asks_after_launch(run: RunView, now_ms: u64)
    ensures
        asks_for_running(run.after_launch(now_ms)),
        asks_for_running(run.stop(now_ms)),
{
    lemma_running_in_phase(run, RunPhaseView::Stopping);
    let late = RunView { timed_out: true, ..run };
    assert(late.in_phase(RunPhaseView::Expiring).running_test() =~= run.running_test());
    assert(run.in_phase(RunPhaseView::Stopping).agents_of(run.running_ids()) =~= run.agents_of(
        run.running_ids(),
    ));
    assert(late.in_phase(RunPhaseView::Expiring).agents_of(run.running_ids()) =~= run.agents_of(
        run.running_ids(),
    ));
}

proof fn lemma_step_asks_for_running(run: RunView, event: SwarmEventView, now_ms: u64)
    requires
        run.accepts(event),
    ensures
        asks_for_running(run.step(event, now_ms)),
{
    match (run.phase, event) {
        (RunPhaseView::Idle, SwarmEventView::Resumed) => {
            let next = RunView { changed: false, ..run };
            lemma_asks_after_launch(next, now_ms);
            lemma_asks_after_launch(next.without_blocked(), now_ms);
        },
        (RunPhaseView::Listing, SwarmEventView::Agents(snapshots)) => {
            let next = run.observed(run.ids().len(), snapshots, now_ms);
            lemma_asks_after_launch(next, now_ms);
            lemma_asks_after_launch(next.without_blocked(), now_ms);
        },
        (RunPhaseView::Dropping, SwarmEventView::Cancelled(_)) => {
            lemma_asks_after_launch(run, now_ms);
            lemma_asks_after_launch(run.without_blocked(), now_ms);
        },
        (RunPhaseView::Counting { ready }, SwarmEventView::Slots(_)) => {
            lemma_asks_after_launch(run, now_ms);
        },
        (RunPhaseView::Spawning { queue }, SwarmEventView::Spawned(agent_id)) => {
            lemma_asks_after_launch(run.spawned(queue[0], agent_id, now_ms), now_ms);
        },
        (RunPhaseView::Spawning { queue }, SwarmEventView::SpawnFailed(message)) => {
            lemma_asks_after_launch(run.taken_back(queue[0]), now_ms);
            lemma_asks_after_launch(
                run.lost(queue[0], SwarmTaskStateView::Failed(message), now_ms),
                now_ms,
            );
        },
        _ => {},
    }
}

/// What became of a cancelled task is what the reply about its own agent says: the report of the
/// agent, or that it could not be cancelled and why.
pub proof fn cancelled_tasks_get_their_own_reply(
    run: RunView,
    replies: Seq<Result<SubAgentResultView, Seq<char>>>,
    now_ms: u64,
    k: int,
)
    requires
        run.inv(),
        run.phase is Stopping || run.phase is Expiring,
        replies.len() == run.running_ids().len(),
        0 <= k < replies.len(),
    ensures
        ({
            let after = run.step(SwarmEventView::Cancelled(replies), now_ms).0;
            let id = run.running_ids()[k];
            match replies[k] {
                Ok(snapshot) => after.states[id] == SwarmTaskStateView::Done(snapshot),
                Err(message) => after.states[id] == SwarmTaskStateView::Failed(
                    "Failed to cancel agent: "@ + message,
                ),
            }
        }),
{
    let ids = run.running_ids();
    let id = ids[k];
    model::lemma_filter_members(run.ids(), run.running_test());
    lemma_replies_in_order(run.states, ids, replies, k);
    let mid = run.cancelled(replies);
    model::lemma_filter_members(mid.ids(), mid.pending_test());
    let state = SwarmTaskStateView::Skipped("Skipped due to fail_fast"@);
    model::lemma_with_all(mid.states, mid.pending_ids(), state);
    if mid.pending_ids().contains(id) {
        let i = choose|i: int| 0 <= i < mid.pending_ids().len() && mid.pending_ids()[i] == id;
        assert(mid.pending_test()(mid.pending_ids()[i]));
    }
    assert(mid.abandoned().states.contains_key(id));
    assert(mid.abandoned().states[id] == mid.states[id]);
}

proof fn lemma_replies_in_order(
    states: Map<Seq<char>, SwarmTaskStateView>,
    ids: Seq<Seq<char>>,
    replies: Seq<Result<SubAgentResultView, Seq<char>>>,
    k: int,
)
    requires
        ids.no_duplicates(),
        0 <= k < ids.len(),
    ensures
        model::cancelled_states(states, ids, replies).contains_key(ids[k]),
        model::cancelled_states(states, ids, replies)[ids[k]] == (match replies[k] {
            Ok(snapshot) => SwarmTaskStateView::Done(snapshot),
            Err(message) => SwarmTaskStateView::Failed("Failed to cancel agent: "@ + message),
        }),
    decreases ids.len(),
{
    if k < ids.len() - 1 {
        let front = ids.drop_last();
        assert(front.no_duplicates());
        lemma_replies_in_order(states, front, replies, k);
        assert(ids[k] != ids[ids.len() - 1]);
    }
}

/// A swarm that ends at its deadline reports each task that was running with the agent that ran it,
/// where the replies are about the agents that were asked for.
pub proof fn expired_tasks_are_reported_with_their_agents(
    run: RunView,
    replies: Seq<Result<SubAgentResultView, Seq<char>>>,
    now_ms: u64,
    i: int,
    k: int,
)
    requires
        run.inv(),
        run.phase is Expiring,
        replies.len() == run.running_ids().len(),
        0 <= k < replies.len(),
        0 <= i < run.ids().len(),
        run.ids()[i] == run.running_ids()[k],
        replies[k] is Ok,
        replies[k]->Ok_0.agent_id == run.states[run.ids()[i]]->agent_id,
    ensures
        ({
            let action = run.step(SwarmEventView::Cancelled(replies), now_ms).1;
            &&& action is Finish
            &&& action->Finish_0.status != SwarmStatus::Completed
            &&& action->Finish_0.tasks[i].task_id == run.ids()[i]
            &&& action->Finish_0.tasks[i].agent_id == Some(run.states[run.ids()[i]]->agent_id)
            &&& action->Finish_0.tasks[i].result == replies[k]->Ok_0.result
        }),
{
    cancelled_tasks_get_their_own_reply(run, replies, now_ms, k);
    let after = run.step(SwarmEventView::Cancelled(replies), now_ms).0;
    model::lemma_filter_members(run.ids(), run.running_test());
    lemma_replies_in_order(run.states, run.running_ids(), replies, k);
    assert(after.states.contains_key(run.ids()[i]));
}

/// When the agents are listed, the agents of exactly those tasks are cancelled that have had their
/// time.
pub proof fn slow_agents_are_cancelled(
    run: RunView,
    snapshots: Seq<SubAgentResultView>,
    now_ms: u64,
    id: Seq<char>,
)
    requires
        run.inv(),
        run.phase is Listing,
        run.is_running(id),
        has_had_its_time(run, id, now_ms),
    ensures
        ({
            let (after, action) = run.step(SwarmEventView::Agents(snapshots), now_ms);
            &&& after.phase is Dropping
            &&& action is CancelAgents
            &&& action->CancelAgents_0.contains(run.states[id]->agent_id)
            &&& forall|agent: Seq<char>| #[trigger]
                action->CancelAgents_0.contains(agent) ==> exists|other: Seq<char>| #[trigger]
                    run.is_running(other) && has_had_its_time(run, other, now_ms)
                        && run.states[other]->agent_id == agent
        }),
{
    lemma_time_limit(run, id, now_ms);
    let slow = run.overdue_ids(now_ms);
    model::lemma_filter_members(run.ids(), run.overdue_test(now_ms));
    assert(run.states.contains_key(id));
    assert(run.overdue_test(now_ms)(id));
    assert(slow.contains(id));
    let k = choose|k: int| 0 <= k < slow.len() && slow[k] == id;
    let agents = run.agents_of(slow);
    assert(agents[k] == run.states[id]->agent_id);
    assert forall|agent: Seq<char>| #[trigger] agents.contains(agent) implies exists|
        other: Seq<char>,
    | #[trigger]
        run.is_running(other) && has_had_its_time(run, other, now_ms)
            && run.states[other]->agent_id == agent by {
        let j = choose|j: int| 0 <= j < agents.len() && agents[j] == agent;
        let other = slow[j];
        assert(run.overdue_test(now_ms)(other));
        assert(run.is_running(other));
        lemma_time_limit(run, other, now_ms);
    }
}

/// The run counts free slots just when some task can start: one that waits, that waits for no
/// retry any more, and of which every dependency completed. It counts all of these in.
pub proof fn startable_tasks_are_found(run: RunView, now_ms: u64, id: Seq<char>)
    requires
        run.tasks_inv(None),
        !run.fail_fast_triggered,
        run.is_pending(id),
        forall|dep: Seq<char>| #[trigger]
            run.task(id).depends_on.contains(dep) ==> model::is_completed(run.states, dep),
        !run.retry_ready_at.contains_key(id) || run.retry_ready_at[id] <= now_ms,
    ensures
        ({
            let (after, action) = run.after_observation(now_ms);
            &&& action is CountSlots
            &&& after.phase is Counting
            &&& after.phase->ready.contains(id)
        }),
{
    let after = run.without_blocked();
    let state = SwarmTaskStateView::Skipped("Dependency failed"@);
    model::lemma_with_all(run.states, run.blocked_ids(), state);
    model::lemma_filter_members(run.ids(), run.blocked_test());
    assert forall|x: Seq<char>| run.blocked_ids().contains(x) implies run.blocked_test()(x) by {
        let i = choose|i: int| 0 <= i < run.blocked_ids().len() && run.blocked_ids()[i] == x;
        assert(run.blocked_test()(run.blocked_ids()[i]));
    }
    assert(!run.blocked_ids().contains(id)) by {
        if run.blocked_test()(id) {
            let dep = choose|dep: Seq<char>| #[trigger]
                run.task(id).depends_on.contains(dep) && model::is_lost(run.states, dep);
            assert(model::is_completed(run.states, dep));
        }
    }
    assert(run.states.contains_key(id));
    assert(after.states.contains_key(id));
    assert(after.states[id] == run.states[id]);
    assert(after.task(id) == run.task(id));
    assert forall|dep: Seq<char>| #[trigger] after.task(id).depends_on.contains(
        dep,
    ) implies model::is_completed(after.states, dep) by {
        assert(model::is_completed(run.states, dep));
        if run.blocked_ids().contains(dep) {
            assert(run.blocked_test()(dep));
        }
        assert(after.states.contains_key(dep));
        assert(after.states[dep] == run.states[dep]);
    }
    assert(after.ready_test(now_ms)(id));
    model::lemma_filter_members(after.ids(), after.ready_test(now_ms));
    assert(after.ids().contains(id));
    assert(after.ready_ids(now_ms).contains(id));
}

/// As many of the tasks that can start are started as there are free slots and as the plan allows,
/// the first ones first.
pub proof fn free_slots_are_used(run: RunView, free: usize, now_ms: u64)
    requires
        run.inv(),
        run.phase is Counting,
        validate::valid_tasks(run.plan.tasks),
        run.phase->ready.len() > 0,
        free > 0,
        run.running_ids().len() < run.plan.max_parallel,
    ensures
        ({
            let (after, action) = run.step(SwarmEventView::Slots(free), now_ms);
            let ready = run.phase->ready;
            let queue = after.phase->queue;
            &&& action is Spawn
            &&& action->Spawn_0.task_id == ready[0]
            &&& after.phase is Spawning
            &&& queue == ready.take(queue.len() as int)
            &&& queue.len() <= ready.len()
            &&& queue.len() <= free
            &&& queue.len() + run.running_ids().len() <= run.plan.max_parallel
            &&& queue.len() == ready.len() || queue.len() == free || queue.len()
                + run.running_ids().len() == run.plan.max_parallel
        }),
{
    valid_tasks_never_abort(run, SwarmEventView::Slots(free), now_ms);
    let ready = run.phase->ready;
    let n: int = if run.slots(free) < ready.len() {
        run.slots(free)
    } else {
        ready.len() as int
    };
    assert(ready.take(n)[0] == ready[0]);
    assert(ready.take(ready.take(n).len() as int) =~= ready.take(n));
}

/// Without a free slot no agent is asked for.
pub proof fn no_slot_no_agent(run: RunView, free: usize, now_ms: u64)
    requires
        run.phase is Counting,
        free == 0 || run.running_ids().len() >= run.plan.max_parallel,
    ensures
        run.step(SwarmEventView::Slots(free), now_ms).1 !is Spawn,
{
}

/// A request for an agent carries the kind, the role and the objective that the named entry resolves
/// to, its tools, and the text made of the shared context and the entry's prompt. It counts as one
/// more attempt at that entry, and at no other.
pub proof fn agents_are_asked_for_their_task(run: RunView, event: SwarmEventView, now_ms: u64)
    requires
        run.inv(),
        run.accepts(event),
        run.step(event, now_ms).1 is Spawn,
    ensures
        ({
            let (after, action) = run.step(event, now_ms);
            let request = action->Spawn_0;
            let task = run.task(request.task_id);
            &&& task::assignment(task) is Ok
            &&& request.agent_type == task::assignment(task)->Ok_0.agent_type
            &&& request.role == task::assignment(task)->Ok_0.role
            &&& request.objective == task::assignment(task)->Ok_0.objective
            &&& request.allowed_tools == task.allowed_tools
            &&& request.prompt == task::prompt_text(run.plan.shared_context, task.prompt)
            &&& after.is_pending(request.task_id)
            &&& after.attempts_of(request.task_id) > 0
        }),
{
    model::every_step_keeps_the_run_sound(run, event, now_ms);
    lemma_plan_stays(run, event, now_ms);
    let (after, action) = run.step(event, now_ms);
    assert(after.phase->queue[0] == action->Spawn_0.task_id);
}

/// Asking for an agent counts as one more attempt at its task, and at no other.
pub proof fn each_agent_is_one_attempt(
    run: RunView,
    queue: Seq<Seq<char>>,
    now_ms: u64,
    id: Seq<char>,
)
    requires
        run.tasks_inv(None),
        run.can_start(queue),
        queue.len() > 0,
    ensures
        run.launch(queue, now_ms).0.attempts_of(queue[0]) == run.attempts_of(queue[0]) + 1,
        id != queue[0] ==> run.launch(queue, now_ms).0.attempts_of(id) == run.attempts_of(id),
        run.launch(queue, now_ms).0.states == run.states,
{
    assert(run.is_pending(queue[0]));
    assert(run.states.contains_key(queue[0]));
    assert(run.ids().contains(queue[0]));
}

/// A task for which an agent was started runs with that agent from that moment on.
pub proof fn started_agents_run_their_task(
    run: RunView,
    agent_id: Seq<char>,
    now_ms: u64,
)
    requires
        run.inv(),
        run.phase is Spawning,
        !run.fail_fast_triggered,
    ensures
        ({
            let id = run.phase->queue[0];
            let after = run.step(SwarmEventView::Spawned(agent_id), now_ms).0;
            &&& after.states.contains_key(id)
            &&& after.states[id] == (SwarmTaskStateView::Running { agent_id })
            &&& after.started_at.contains_key(id)
            &&& after.started_at[id] == now_ms
            &&& !after.retry_ready_at.contains_key(id)
            &&& after.attempts_of(id) == run.attempts_of(id)
        }),
{
    let queue = run.phase->queue;
    let next = run.spawned(queue[0], agent_id, now_ms);
    let rest = queue.drop_first();
    if rest.len() > 0 {
        assert(rest[0] == queue[1]);
        assert(queue[0] != queue[1]);
    }
}

/// A task for which no agent could be started waits for its next attempt while it may be retried,
/// and fails with the reason else. Where the limit of agents was reached nothing is lost: the attempt
/// does not count, and no further agent is asked for in this pass.
pub proof fn refusals_count_as_lost_attempts(run: RunView, message: Seq<char>, now_ms: u64)
    requires
        run.inv(),
        run.phase is Spawning,
        !run.plan.fail_fast,
        now_ms <= u64::MAX - 60_000,
    ensures
        ({
            let id = run.phase->queue[0];
            let (after, action) = run.step(SwarmEventView::SpawnFailed(message), now_ms);
            let full = text::has_text(message, "Sub-agent limit reached"@);
            &&& full ==> after.is_pending(id) && action !is Spawn && after.attempts_of(id)
                == run.attempts_of(id) - 1 && after.retry_ready_at == run.retry_ready_at
            &&& !full && run.attempts_of(id) <= task::retries(run.task(id)) ==> after.is_pending(id)
                && after.retry_ready_at.contains_key(id) && after.retry_ready_at[id] == now_ms
                + task::retry_delay(run.task(id), run.attempts_of(id) as nat)
            &&& !full && run.attempts_of(id) > task::retries(run.task(id)) ==> after.states[id]
                == SwarmTaskStateView::Failed(message)
        }),
{
    let queue = run.phase->queue;
    let id = queue[0];
    assert(run.is_pending(id));
    task::retry_delay_is_bounded_and_monotone(
        run.task(id),
        run.attempts_of(id) as nat,
        run.attempts_of(id) as nat,
    );
    let rest = queue.drop_first();
    if rest.len() > 0 {
        assert(rest[0] == queue[1]);
        assert(queue[0] != queue[1]);
    }
}

/// Progress is published only where the plan asks for it, and what is published, like the final
/// report, lists every task in order, with the time that has passed.
pub proof fn reports_list_every_task(run: RunView, event: SwarmEventView, now_ms: u64, i: int)
    requires
        run.inv(),
        run.accepts(event),
        0 <= i < run.ids().len(),
    ensures
        match run.step(event, now_ms).1 {
            SwarmActionView::Publish(report) => run.plan.publish_progress && tells_of(
                report,
                run,
                run.step(event, now_ms).0,
                now_ms,
                i,
            ),
            SwarmActionView::Finish(report) => report.status != SwarmStatus::Running && tells_of(
                report,
                run,
                run.step(event, now_ms).0,
                now_ms,
                i,
            ),
            _ => true,
        },
{
    lemma_step_reports_truly(run, event, now_ms);
    lemma_plan_stays(run, event, now_ms);
    model::every_step_keeps_the_run_sound(run, event, now_ms);
    let after = run.step(event, now_ms).0;
    assert(after.ids().contains(run.ids()[i]));
    assert(after.states.contains_key(run.ids()[i]));
}

/// Whether a report tells of task `i` as it is.
pub open spec fn tells_of(
    report: types::SwarmOutcomeView,
    run: RunView,
    after: RunView,
    now_ms: u64,
    i: int,
) -> bool {
    let id = run.ids()[i];
    &&& report.swarm_id == run.plan.swarm_id
    &&& report.duration_ms == now_ms
    &&& report.tasks.len() == run.ids().len()
    &&& report.tasks[i].task_id == id
    &&& match after.states[id] {
        SwarmTaskStateView::Pending => report.tasks[i].status == SwarmTaskStatus::Pending,
        SwarmTaskStateView::Running { agent_id } => report.tasks[i].status
            == SwarmTaskStatus::Running && report.tasks[i].agent_id == Some(agent_id),
        SwarmTaskStateView::Done(result) => report.tasks[i].agent_id == Some(result.agent_id)
            && report.tasks[i].result == result.result,
        SwarmTaskStateView::Failed(message) => report.tasks[i].status == SwarmTaskStatus::Failed
            && report.tasks[i].error == Some(message),
        SwarmTaskStateView::Skipped(message) => report.tasks[i].status == SwarmTaskStatus::Skipped
            && report.tasks[i].error == Some(message),
    }
}

/// A swarm times out only once its time is over.
pub proof fn time_runs_out_at_the_deadline(run: RunView, event: SwarmEventView, now_ms: u64)
    requires
        run.inv(),
        run.accepts(event),
        !run.timed_out,
        run.step(event, now_ms).0.timed_out,
    ensures
        now_ms >= run.plan.timeout_ms,
{
    if let SwarmEventView::Agents(snapshots) = event {
        lemma_observed_plan(run, run.ids().len(), snapshots, now_ms);
        lemma_observed_flags(run, run.ids().len(), snapshots, now_ms);
    }
}

proof fn lemma_observed_flags(
    run: RunView,
    n: nat,
    snapshots: Seq<SubAgentResultView>,
    now_ms: u64,
)
    ensures
        run.observed(n, snapshots, now_ms).timed_out == run.timed_out,
    decreases n,
{
    if n > 0 {
        lemma_observed_flags(run, (n - 1) as nat, snapshots, now_ms);
    }
}

/// A task is held up for good by a dependency that was interrupted, failed, was cancelled or was
/// skipped, and by nothing else; it can start once every dependency completed.
pub proof fn lost_dependencies_hold_up_a_task(
    task: types::SwarmTaskView,
    states: Map<Seq<char>, SwarmTaskStateView>,
    dep: Seq<char>,
)
    requires
        task.depends_on.contains(dep),
        states.contains_key(dep),
    ensures
        ({
            let unsuccessful = match states[dep] {
                SwarmTaskStateView::Done(result) => result.status is Interrupted
                    || result.status is Failed || result.status is Cancelled,
                SwarmTaskStateView::Failed(_) => true,
                SwarmTaskStateView::Skipped(_) => true,
                SwarmTaskStateView::Pending => false,
                SwarmTaskStateView::Running { .. } => false,
            };
            let completed = states[dep] is Done && states[dep]->Done_0.status is Completed;
            &&& unsuccessful ==> model::blocked(task, states) && !model::satisfied(task, states)
            &&& !completed ==> !model::satisfied(task, states)
            &&& (forall|other: Seq<char>| #[trigger]
                task.depends_on.contains(other) ==> other == dep) ==> (model::blocked(task, states)
                <==> unsuccessful) && (model::satisfied(task, states) <==> completed)
        }),
{
    assert(model::is_lost(states, dep) || !model::is_lost(states, dep));
}

/// A task without dependencies can start at once, and is never held up.
pub proof fn independent_tasks_can_start(
    task: types::SwarmTaskView,
    states: Map<Seq<char>, SwarmTaskStateView>,
)
    requires
        task.depends_on.len() == 0,
    ensures
        model::satisfied(task, states),
        !model::blocked(task, states),
{
}

/// No task starts before its retry is due.
pub proof fn retries_wait_until_they_are_due(run: RunView, now_ms: u64, id: Seq<char>)
    requires
        run.after_observation(now_ms).0.phase is Counting,
        run.after_observation(now_ms).1 is CountSlots,
        run.after_observation(now_ms).0.phase->ready.contains(id),
        run.retry_ready_at.contains_key(id),
    ensures
        run.retry_ready_at[id] <= now_ms,
{
    let after = run.without_blocked();
    let ready = after.ready_ids(now_ms);
    model::lemma_filter_members(after.ids(), after.ready_test(now_ms));
    let k = choose|k: int| 0 <= k < ready.len() && ready[k] == id;
    assert(after.ready_test(now_ms)(ready[k]));
}

/// A pass that leaves tasks open before the deadline ends with a progress report where the plan asks
/// for reports and the pass changed anything, and with a pause else; the next pass follows at once
/// after a change, and after a quarter of a second without one. At the deadline the run ends: its
/// agents are cancelled, or it is reported as timed out.
pub proof fn passes_end_in_a_report_or_a_pause(run: RunView, now_ms: u64)
    requires
        !run.fail_fast_triggered,
        run.pending_ids().len() > 0 || run.running_ids().len() > 0,
    ensures
        ({
            let (after, action) = run.after_launch(now_ms);
            let late = now_ms >= run.plan.timeout_ms;
            &&& !late && run.plan.publish_progress && run.changed ==> action is Publish
                && action->Publish_0.status == SwarmStatus::Running && after.pause().1
                == SwarmActionView::Pause(0)
            &&& !late && !run.plan.publish_progress && run.changed ==> action
                == SwarmActionView::Pause(0)
            &&& !late && !run.changed ==> action == SwarmActionView::Pause(250)
            &&& late && run.running_ids().len() > 0 ==> action is CancelAgents
            &&& late && run.running_ids().len() == 0 ==> action is Finish
                && action->Finish_0.status == SwarmStatus::Timeout
            &&& after.timed_out == (run.timed_out || late)
            &&& after.states == run.states
        }),
{
}

/// A pass begins with a look at the agents where any task runs, and every pass starts without
/// changes.
pub proof fn passes_begin_with_a_look_at_the_agents(run: RunView, now_ms: u64)
    requires
        run.phase is Idle,
        run.running_ids().len() > 0,
    ensures
        ({
            let (after, action) = run.step(SwarmEventView::Resumed, now_ms);
            &&& action is ListAgents
            &&& after.phase is Listing
            &&& !after.changed
            &&& after.states == run.states
            &&& after.attempts == run.attempts
        }),
{
    let after = RunView { changed: false, ..run };
    assert(after.running_test() =~= run.running_test());
}

} // verus!
