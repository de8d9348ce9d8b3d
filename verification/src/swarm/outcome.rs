//! What is reported of a swarm and its tasks.

use crate::swarm::types;
use crate::swarm::types::{
    SubAgentResult, SubAgentStatus, SubAgentStatusView, SwarmCounts, SwarmOutcome,
    SwarmOutcomeView, SwarmStatus, SwarmTaskOutcome, SwarmTaskOutcomeView, SwarmTaskSpec,
    SwarmTaskState, SwarmTaskStateView, SwarmTaskStatus,
};
use crate::text;
use vstd::hash_map::StringHashMap;
use vstd::prelude::*;
use vstd::string::*;

verus! {

/// The state of each task, by task id.
pub type TaskStates = StringHashMap<SwarmTaskState>;

/// The states that a table holds.
pub open spec fn states_view(states: Map<Seq<char>, SwarmTaskState>) -> Map<
    Seq<char>,
    SwarmTaskStateView,
> {
    states.map_values(|state: SwarmTaskState| state@)
}

/// The state of one task; a task without an entry is pending.
pub open spec fn state_of(
    states: Map<Seq<char>, SwarmTaskStateView>,
    id: Seq<char>,
) -> SwarmTaskStateView {
    if states.contains_key(id) {
        states[id]
    } else {
        SwarmTaskStateView::Pending
    }
}

/// The status that an agent's status is reported as.
pub open spec fn reported_status(status: SubAgentStatusView) -> SwarmTaskStatus {
    match status {
        SubAgentStatusView::Completed => SwarmTaskStatus::Completed,
        SubAgentStatusView::Interrupted(_) => SwarmTaskStatus::Interrupted,
        SubAgentStatusView::Failed(_) => SwarmTaskStatus::Failed,
        SubAgentStatusView::Cancelled => SwarmTaskStatus::Cancelled,
        SubAgentStatusView::Running => SwarmTaskStatus::Running,
    }
}

/// The error that is reported for an agent's status.
pub open spec fn reported_error(status: SubAgentStatusView) -> Option<Seq<char>> {
    match status {
        SubAgentStatusView::Completed => None,
        SubAgentStatusView::Interrupted(message) => Some(message),
        SubAgentStatusView::Failed(message) => Some(message),
        SubAgentStatusView::Cancelled => Some("Cancelled"@),
        SubAgentStatusView::Running => None,
    }
}

/// What is reported of a task that no agent has finished.
pub open spec fn agentless_outcome(
    task_id: Seq<char>,
    agent_id: Option<Seq<char>>,
    status: SwarmTaskStatus,
    error: Option<Seq<char>>,
) -> SwarmTaskOutcomeView {
    SwarmTaskOutcomeView {
        task_id,
        agent_id,
        status,
        result: None,
        error,
        steps_taken: 0,
        duration_ms: 0,
    }
}

/// What is reported of a task in a given state.
pub open spec fn task_outcome(
    task_id: Seq<char>,
    state: SwarmTaskStateView,
) -> SwarmTaskOutcomeView {
    match state {
        SwarmTaskStateView::Running { agent_id } => agentless_outcome(
            task_id,
            Some(agent_id),
            SwarmTaskStatus::Running,
            None,
        ),
        SwarmTaskStateView::Done(result) => SwarmTaskOutcomeView {
            task_id,
            agent_id: Some(result.agent_id),
            status: reported_status(result.status),
            result: result.result,
            error: reported_error(result.status),
            steps_taken: result.steps_taken,
            duration_ms: result.duration_ms,
        },
        SwarmTaskStateView::Failed(message) => agentless_outcome(
            task_id,
            None,
            SwarmTaskStatus::Failed,
            Some(message),
        ),
        SwarmTaskStateView::Skipped(message) => agentless_outcome(
            task_id,
            None,
            SwarmTaskStatus::Skipped,
            Some(message),
        ),
        SwarmTaskStateView::Pending => agentless_outcome(
            task_id,
            None,
            SwarmTaskStatus::Pending,
            None,
        ),
    }
}

/// What is reported of each task, in order.
pub open spec fn task_outcomes(
    order: Seq<Seq<char>>,
    states: Map<Seq<char>, SwarmTaskStateView>,
) -> Seq<SwarmTaskOutcomeView> {
    order.map_values(|id: Seq<char>| task_outcome(id, state_of(states, id)))
}

fn agentless(
    task_id: &str,
    agent_id: Option<String>,
    status: SwarmTaskStatus,
    error: Option<String>,
) -> (r: SwarmTaskOutcome)
    ensures
        r@ == agentless_outcome(
            task_id@,
            types::optional_text(agent_id),
            status,
            types::optional_text(error),
        ),
{
    SwarmTaskOutcome {
        task_id: task_id.to_string(),
        agent_id,
        status,
        result: None,
        error,
        steps_taken: 0,
        duration_ms: 0,
    }
}

fn finished(task_id: &str, result: &SubAgentResult) -> (r: SwarmTaskOutcome)
    ensures
        r@ == task_outcome(task_id@, SwarmTaskStateView::Done(result@)),
{
    let (status, error): (SwarmTaskStatus, Option<String>) = match &result.status {
        SubAgentStatus::Completed => (SwarmTaskStatus::Completed, None),
        SubAgentStatus::Interrupted(message) => (
            SwarmTaskStatus::Interrupted,
            Some(message.clone()),
        ),
        SubAgentStatus::Failed(message) => (SwarmTaskStatus::Failed, Some(message.clone())),
        SubAgentStatus::Cancelled => (SwarmTaskStatus::Cancelled, Some("Cancelled".to_string())),
        SubAgentStatus::Running => (SwarmTaskStatus::Running, None),
    };
    SwarmTaskOutcome {
        task_id: task_id.to_string(),
        agent_id: Some(result.agent_id.clone()),
        status,
        result: types::clone_optional(&result.result),
        error,
        steps_taken: result.steps_taken,
        duration_ms: result.duration_ms,
    }
}

/// What is reported of each task, in order.
pub fn build_task_outcomes(order: &[String], states: &TaskStates) -> (r: Vec<SwarmTaskOutcome>)
    ensures
        types::outcome_views(r@) == task_outcomes(text::texts(order@), states_view(states@)),
{
    let ghost ids = text::texts(order@);
    let ghost known = states_view(states@);
    let mut out: Vec<SwarmTaskOutcome> = Vec::new();
    let mut i: usize = 0;
    while i < order.len()
        invariant
            i <= order@.len(),
            ids == text::texts(order@),
            known == states_view(states@),
            out@.len() == i,
            forall|j: int| 0 <= j < i ==> #[trigger] out@[j]@ == task_outcomes(ids, known)[j],
        decreases order@.len() - i,
    {
        let task_id: &str = order[i].as_str();
        let outcome: SwarmTaskOutcome = match states.get(task_id) {
            Some(SwarmTaskState::Running { agent_id }) => agentless(
                task_id,
                Some(agent_id.clone()),
                SwarmTaskStatus::Running,
                None,
            ),
            Some(SwarmTaskState::Done(result)) => finished(task_id, result),
            Some(SwarmTaskState::Failed(message)) => agentless(
                task_id,
                None,
                SwarmTaskStatus::Failed,
                Some(message.clone()),
            ),
            Some(SwarmTaskState::Skipped(message)) => agentless(
                task_id,
                None,
                SwarmTaskStatus::Skipped,
                Some(message.clone()),
            ),
            _ => agentless(task_id, None, SwarmTaskStatus::Pending, None),
        };
        assert(ids[i as int] == task_id@);
        assert(outcome@ == task_outcome(task_id@, state_of(known, task_id@)));
        out.push(outcome);
        i += 1;
    }
    assert(types::outcome_views(out@) =~= task_outcomes(ids, known));
    out
}

/// How many of the outcomes have a status.
pub open spec fn count_with(outcomes: Seq<SwarmTaskOutcomeView>, status: SwarmTaskStatus) -> nat
    decreases outcomes.len(),
{
    if outcomes.len() == 0 {
        0
    } else {
        count_with(outcomes.drop_last(), status) + (if outcomes.last().status == status {
            1nat
        } else {
            0nat
        })
    }
}

/// The counts hold, for each status, how many outcomes have it.
pub open spec fn counts_match(
    counts: SwarmCounts,
    outcomes: Seq<SwarmTaskOutcomeView>,
) -> bool {
    &&& counts.total == outcomes.len()
    &&& counts.completed == count_with(outcomes, SwarmTaskStatus::Completed)
    &&& counts.interrupted == count_with(outcomes, SwarmTaskStatus::Interrupted)
    &&& counts.failed == count_with(outcomes, SwarmTaskStatus::Failed)
    &&& counts.cancelled == count_with(outcomes, SwarmTaskStatus::Cancelled)
    &&& counts.skipped == count_with(outcomes, SwarmTaskStatus::Skipped)
    &&& counts.running == count_with(outcomes, SwarmTaskStatus::Running)
    &&& counts.pending == count_with(outcomes, SwarmTaskStatus::Pending)
}

/// The seven statuses cover every task once: the counts by status add up to the total.
pub proof fn counts_add_up(counts: SwarmCounts, outcomes: Seq<SwarmTaskOutcomeView>)
    requires
        counts_match(counts, outcomes),
    ensures
        counts.completed + counts.interrupted + counts.failed + counts.cancelled + counts.skipped
            + counts.running + counts.pending == counts.total,
{
    lemma_statuses_partition(outcomes);
}

proof fn lemma_statuses_partition(outcomes: Seq<SwarmTaskOutcomeView>)
    ensures
        count_with(outcomes, SwarmTaskStatus::Completed) + count_with(
            outcomes,
            SwarmTaskStatus::Interrupted,
        ) + count_with(outcomes, SwarmTaskStatus::Failed) + count_with(
            outcomes,
            SwarmTaskStatus::Cancelled,
        ) + count_with(outcomes, SwarmTaskStatus::Skipped) + count_with(
            outcomes,
            SwarmTaskStatus::Running,
        ) + count_with(outcomes, SwarmTaskStatus::Pending) == outcomes.len(),
    decreases outcomes.len(),
{
    if outcomes.len() > 0 {
        lemma_statuses_partition(outcomes.drop_last());
    }
}

/// A status is counted exactly when some task has it.
pub proof fn lemma_count_with(outcomes: Seq<SwarmTaskOutcomeView>, status: SwarmTaskStatus)
    ensures
        count_with(outcomes, status) <= outcomes.len(),
        count_with(outcomes, status) > 0 <==> exists|i: int|
            0 <= i < outcomes.len() && #[trigger] outcomes[i].status == status,
        count_with(outcomes, status) == outcomes.len() <==> forall|i: int|
            0 <= i < outcomes.len() ==> #[trigger] outcomes[i].status == status,
    decreases outcomes.len(),
{
    if outcomes.len() > 0 {
        let front = outcomes.drop_last();
        lemma_count_with(front, status);
        if count_with(front, status) > 0 {
            let i = choose|i: int| 0 <= i < front.len() && #[trigger] front[i].status == status;
            assert(outcomes[i].status == status);
        }
        if outcomes.last().status == status {
            assert(outcomes[outcomes.len() - 1].status == status);
        }
        assert forall|i: int| 0 <= i < front.len() implies front[i] == outcomes[i] by {}
        if exists|i: int| 0 <= i < outcomes.len() && #[trigger] outcomes[i].status == status {
            let i = choose|i: int|
                0 <= i < outcomes.len() && #[trigger] outcomes[i].status == status;
            if i < front.len() {
                assert(front[i].status == status);
            }
        }
        if forall|i: int| 0 <= i < outcomes.len() ==> #[trigger] outcomes[i].status == status {
            assert forall|i: int| 0 <= i < front.len() implies #[trigger] front[i].status
                == status by {
                assert(outcomes[i].status == status);
            }
            assert(outcomes[outcomes.len() - 1].status == status);
        }
        if count_with(outcomes, status) == outcomes.len() {
            assert forall|i: int| 0 <= i < outcomes.len() implies #[trigger] outcomes[i].status
                == status by {
                if i < front.len() {
                    assert(front[i].status == status);
                }
            }
        }
    }
}

/// How many tasks have each status.
pub fn build_counts(outcomes: &[SwarmTaskOutcome]) -> (counts: SwarmCounts)
    ensures
        counts == counts_of(types::outcome_views(outcomes@)),
        counts_match(counts, types::outcome_views(outcomes@)),
{
    let ghost views = types::outcome_views(outcomes@);
    let mut counts: SwarmCounts = SwarmCounts {
        total: outcomes.len(),
        completed: 0,
        interrupted: 0,
        failed: 0,
        cancelled: 0,
        skipped: 0,
        running: 0,
        pending: 0,
    };
    let mut i: usize = 0;
    while i < outcomes.len()
        invariant
            i <= outcomes@.len(),
            views == types::outcome_views(outcomes@),
            counts.total == outcomes@.len(),
            counts.completed == count_with(views.take(i as int), SwarmTaskStatus::Completed) <= i,
            counts.interrupted == count_with(views.take(i as int), SwarmTaskStatus::Interrupted)
                <= i,
            counts.failed == count_with(views.take(i as int), SwarmTaskStatus::Failed) <= i,
            counts.cancelled == count_with(views.take(i as int), SwarmTaskStatus::Cancelled) <= i,
            counts.skipped == count_with(views.take(i as int), SwarmTaskStatus::Skipped) <= i,
            counts.running == count_with(views.take(i as int), SwarmTaskStatus::Running) <= i,
            counts.pending == count_with(views.take(i as int), SwarmTaskStatus::Pending) <= i,
        decreases outcomes@.len() - i,
    {
        assert(views.take(i + 1).drop_last() =~= views.take(i as int));
        assert(views.take(i + 1).last() == outcomes@[i as int]@);
        match outcomes[i].status {
            SwarmTaskStatus::Completed => counts.completed += 1,
            SwarmTaskStatus::Interrupted => counts.interrupted += 1,
            SwarmTaskStatus::Failed => counts.failed += 1,
            SwarmTaskStatus::Cancelled => counts.cancelled += 1,
            SwarmTaskStatus::Skipped => counts.skipped += 1,
            SwarmTaskStatus::Running => counts.running += 1,
            SwarmTaskStatus::Pending => counts.pending += 1,
        }
        i += 1;
    }
    assert(views.take(i as int) =~= views);
    counts
}

/// How many tasks have each status.
pub open spec fn counts_of(outcomes: Seq<SwarmTaskOutcomeView>) -> SwarmCounts {
    SwarmCounts {
        total: outcomes.len() as usize,
        completed: count_with(outcomes, SwarmTaskStatus::Completed) as usize,
        interrupted: count_with(outcomes, SwarmTaskStatus::Interrupted) as usize,
        failed: count_with(outcomes, SwarmTaskStatus::Failed) as usize,
        cancelled: count_with(outcomes, SwarmTaskStatus::Cancelled) as usize,
        skipped: count_with(outcomes, SwarmTaskStatus::Skipped) as usize,
        running: count_with(outcomes, SwarmTaskStatus::Running) as usize,
        pending: count_with(outcomes, SwarmTaskStatus::Pending) as usize,
    }
}

/// A report on a swarm: its tasks in order, and the counts by status.
pub open spec fn progress_report(
    swarm_id: Seq<char>,
    duration_ms: u64,
    order: Seq<Seq<char>>,
    states: Map<Seq<char>, SwarmTaskStateView>,
    status: SwarmStatus,
) -> SwarmOutcomeView {
    let tasks = task_outcomes(order, states);
    SwarmOutcomeView { swarm_id, status, duration_ms, counts: counts_of(tasks), tasks }
}

/// A report on a swarm `duration_ms` after its start.
pub fn build_progress_outcome(
    swarm_id: &str,
    duration_ms: u64,
    order: &[String],
    states: &TaskStates,
    status: SwarmStatus,
) -> (r: SwarmOutcome)
    ensures
        r@ == progress_report(
            swarm_id@,
            duration_ms,
            text::texts(order@),
            states_view(states@),
            status,
        ),
        counts_match(r@.counts, r@.tasks),
{
    let tasks: Vec<SwarmTaskOutcome> = build_task_outcomes(order, states);
    let counts: SwarmCounts = build_counts(&tasks);
    SwarmOutcome { swarm_id: swarm_id.to_string(), status, duration_ms, counts, tasks }
}

/// The report on a swarm that has not started: every task is pending.
pub fn build_initial_outcome(swarm_id: &str, tasks: &[SwarmTaskSpec]) -> (r: SwarmOutcome)
    ensures
        r@ == progress_report(
            swarm_id@,
            0,
            types::task_ids(types::task_views(tasks@)),
            Map::empty(),
            SwarmStatus::Running,
        ),
        r@.counts.pending == tasks@.len(),
{
    let ghost ids = types::task_ids(types::task_views(tasks@));
    let mut order: Vec<String> = Vec::new();
    let mut states: TaskStates = StringHashMap::new();
    let mut i: usize = 0;
    while i < tasks.len()
        invariant
            i <= tasks@.len(),
            ids == types::task_ids(types::task_views(tasks@)),
            order@.len() == i,
            forall|j: int| 0 <= j < i ==> #[trigger] order@[j]@ == ids[j],
            forall|id: Seq<char>| states@.contains_key(id) ==> #[trigger] states@[id]@ is Pending,
        decreases tasks@.len() - i,
    {
        order.push(tasks[i].id.clone());
        states.insert(tasks[i].id.clone(), SwarmTaskState::Pending);
        i += 1;
    }
    assert(text::texts(order@) =~= ids);
    let outcome: SwarmOutcome = build_progress_outcome(
        swarm_id,
        0,
        &order,
        &states,
        SwarmStatus::Running,
    );
    proof {
        let known = states_view(states@);
        let blank: Map<Seq<char>, SwarmTaskStateView> = Map::empty();
        assert forall|j: int| 0 <= j < ids.len() implies task_outcomes(ids, known)[j]
            == task_outcomes(ids, blank)[j] by {
            if known.contains_key(ids[j]) {
                assert(states@[ids[j]]@ is Pending);
            }
        }
        assert(task_outcomes(ids, known) =~= task_outcomes(ids, blank));
        lemma_count_with(outcome@.tasks, SwarmTaskStatus::Pending);
    }
    outcome
}

/// The report on a swarm that could not be run.
pub open spec fn failed_outcome(swarm_id: Seq<char>, error: Seq<char>) -> SwarmOutcomeView {
    SwarmOutcomeView {
        swarm_id,
        status: SwarmStatus::Failed,
        duration_ms: 0,
        counts: SwarmCounts {
            total: 0,
            completed: 0,
            interrupted: 0,
            failed: 1,
            cancelled: 0,
            skipped: 0,
            running: 0,
            pending: 0,
        },
        tasks: seq![
            agentless_outcome("swarm_runtime"@, None, SwarmTaskStatus::Failed, Some(error)),
        ],
    }
}

/// The report on a swarm that could not be run.
pub fn build_failed_outcome(swarm_id: &str, error: String) -> (r: SwarmOutcome)
    ensures
        r@ == failed_outcome(swarm_id@, error@),
{
    let ghost message = error@;
    let mut tasks: Vec<SwarmTaskOutcome> = Vec::new();
    tasks.push(agentless("swarm_runtime", None, SwarmTaskStatus::Failed, Some(error)));
    assert(types::outcome_views(tasks@) =~= failed_outcome(swarm_id@, message).tasks);
    SwarmOutcome {
        swarm_id: swarm_id.to_string(),
        status: SwarmStatus::Failed,
        duration_ms: 0,
        counts: SwarmCounts {
            total: 0,
            completed: 0,
            interrupted: 0,
            failed: 1,
            cancelled: 0,
            skipped: 0,
            running: 0,
            pending: 0,
        },
        tasks,
    }
}

/// The status of a swarm that has come to its end.
pub open spec fn closing_status(
    fail_fast_triggered: bool,
    timed_out: bool,
    counts: SwarmCounts,
) -> SwarmStatus {
    if fail_fast_triggered {
        SwarmStatus::Failed
    } else if timed_out {
        SwarmStatus::Timeout
    } else if counts.completed == counts.total {
        SwarmStatus::Completed
    } else {
        SwarmStatus::Partial
    }
}

/// The report on a swarm that has come to its end.
pub open spec fn final_report(
    swarm_id: Seq<char>,
    duration_ms: u64,
    order: Seq<Seq<char>>,
    states: Map<Seq<char>, SwarmTaskStateView>,
    fail_fast_triggered: bool,
    timed_out: bool,
) -> SwarmOutcomeView {
    progress_report(
        swarm_id,
        duration_ms,
        order,
        states,
        closing_status(
            fail_fast_triggered,
            timed_out,
            counts_of(task_outcomes(order, states)),
        ),
    )
}

/// The report on a swarm that has come to its end.
pub fn build_final_outcome(
    swarm_id: &str,
    duration_ms: u64,
    order: &[String],
    states: &TaskStates,
    fail_fast_triggered: bool,
    timed_out: bool,
) -> (r: SwarmOutcome)
    ensures
        r@ == final_report(
            swarm_id@,
            duration_ms,
            text::texts(order@),
            states_view(states@),
            fail_fast_triggered,
            timed_out,
        ),
        counts_match(r@.counts, r@.tasks),
{
    let tasks: Vec<SwarmTaskOutcome> = build_task_outcomes(order, states);
    let counts: SwarmCounts = build_counts(&tasks);
    proof {
        counts_add_up(counts, types::outcome_views(tasks@));
    }
    let status: SwarmStatus = if fail_fast_triggered {
        SwarmStatus::Failed
    } else if timed_out {
        SwarmStatus::Timeout
    } else if counts.failed > 0 || counts.interrupted > 0 || counts.cancelled > 0 || counts.skipped
        > 0 || counts.pending > 0 || counts.running > 0 {
        SwarmStatus::Partial
    } else {
        SwarmStatus::Completed
    };
    SwarmOutcome { swarm_id: swarm_id.to_string(), status, duration_ms, counts, tasks }
}

/// The line that announces where a swarm stands.
pub open spec fn status_line(outcome: SwarmOutcomeView) -> Seq<char> {
    "Swarm "@ + outcome.swarm_id + ": status="@ + outcome.status.text() + " completed="@
        + text::decimal_text(outcome.counts.completed as nat) + "/"@ + text::decimal_text(
        outcome.counts.total as nat,
    ) + " running="@ + text::decimal_text(outcome.counts.running as nat) + " interrupted="@
        + text::decimal_text(outcome.counts.interrupted as nat) + " failed="@ + text::decimal_text(
        outcome.counts.failed as nat,
    ) + " skipped="@ + text::decimal_text(outcome.counts.skipped as nat) + " cancelled="@
        + text::decimal_text(outcome.counts.cancelled as nat)
}

fn append_count(line: &mut String, label: &str, count: usize)
    ensures
        final(line)@ == old(line)@ + label@ + text::decimal_text(count as nat),
{
    line.append(label);
    line.append(text::decimal(count as u64).as_str());
}

/// The line that announces where a swarm stands.
pub fn swarm_status_message(outcome: &SwarmOutcome) -> (line: String)
    ensures
        line@ == status_line(outcome@),
{
    let mut line: String = "Swarm ".to_string();
    line.append(outcome.swarm_id.as_str());
    line.append(": status=");
    line.append(outcome.status.as_str());
    append_count(&mut line, " completed=", outcome.counts.completed);
    append_count(&mut line, "/", outcome.counts.total);
    append_count(&mut line, " running=", outcome.counts.running);
    append_count(&mut line, " interrupted=", outcome.counts.interrupted);
    append_count(&mut line, " failed=", outcome.counts.failed);
    append_count(&mut line, " skipped=", outcome.counts.skipped);
    append_count(&mut line, " cancelled=", outcome.counts.cancelled);
    line
}

/// What an agent reported of its work is reported unchanged, under the status in which the agent
/// stopped; a message that came with this status is the error.
pub proof fn agents_are_reported_as_they_ended(task_id: Seq<char>, result: types::SubAgentResultView)
    ensures
        ({
            let told = task_outcome(task_id, SwarmTaskStateView::Done(result));
            &&& told.task_id == task_id
            &&& told.agent_id == Some(result.agent_id)
            &&& told.result == result.result
            &&& told.steps_taken == result.steps_taken
            &&& told.duration_ms == result.duration_ms
            &&& told.status == SwarmTaskStatus::Completed <==> result.status is Completed
            &&& told.status == SwarmTaskStatus::Interrupted <==> result.status is Interrupted
            &&& told.status == SwarmTaskStatus::Failed <==> result.status is Failed
            &&& told.status == SwarmTaskStatus::Cancelled <==> result.status is Cancelled
            &&& told.status == SwarmTaskStatus::Running <==> result.status is Running
            &&& told.error is None <==> result.status is Completed || result.status is Running
            &&& result.status matches SubAgentStatusView::Interrupted(message) ==> told.error
                == Some(message)
            &&& result.status matches SubAgentStatusView::Failed(message) ==> told.error == Some(
                message,
            )
            &&& result.status is Cancelled ==> told.error == Some("Cancelled"@)
        }),
{
}

/// A task without a finished agent is reported with nothing but its status, the agent that works on
/// it, and the reason why it failed or was skipped.
pub proof fn unfinished_tasks_claim_no_work(task_id: Seq<char>, state: SwarmTaskStateView)
    requires
        state !is Done,
    ensures
        ({
            let told = task_outcome(task_id, state);
            &&& told.task_id == task_id
            &&& told.result is None && told.steps_taken == 0 && told.duration_ms == 0
            &&& told.status == SwarmTaskStatus::Running <==> state is Running
            &&& told.status == SwarmTaskStatus::Pending <==> state is Pending
            &&& told.status == SwarmTaskStatus::Failed <==> state is Failed
            &&& told.status == SwarmTaskStatus::Skipped <==> state is Skipped
            &&& told.agent_id is Some <==> state is Running
            &&& told.error is Some <==> state is Failed || state is Skipped
        }),
{
}

/// One more task raises the total and the count of its own status by one, and no other count.
pub proof fn each_task_counts_once(outcomes: Seq<SwarmTaskOutcomeView>, more: SwarmTaskOutcomeView)
    requires
        outcomes.len() < usize::MAX,
    ensures
        ({
            let before = counts_of(outcomes);
            let after = counts_of(outcomes.push(more));
            let one = |status: SwarmTaskStatus| -> int {
                if more.status == status {
                    1
                } else {
                    0
                }
            };
            &&& after.total == before.total + 1
            &&& after.completed == before.completed + one(SwarmTaskStatus::Completed)
            &&& after.interrupted == before.interrupted + one(SwarmTaskStatus::Interrupted)
            &&& after.failed == before.failed + one(SwarmTaskStatus::Failed)
            &&& after.cancelled == before.cancelled + one(SwarmTaskStatus::Cancelled)
            &&& after.skipped == before.skipped + one(SwarmTaskStatus::Skipped)
            &&& after.running == before.running + one(SwarmTaskStatus::Running)
            &&& after.pending == before.pending + one(SwarmTaskStatus::Pending)
        }),
        counts_of(seq![]).total == 0,
        counts_of(seq![]).completed == 0 && counts_of(seq![]).interrupted == 0,
        counts_of(seq![]).failed == 0 && counts_of(seq![]).cancelled == 0,
        counts_of(seq![]).skipped == 0 && counts_of(seq![]).running == 0,
        counts_of(seq![]).pending == 0,
{
    let all = outcomes.push(more);
    assert(all.drop_last() =~= outcomes);
    lemma_count_with(outcomes, SwarmTaskStatus::Completed);
    lemma_count_with(outcomes, SwarmTaskStatus::Interrupted);
    lemma_count_with(outcomes, SwarmTaskStatus::Failed);
    lemma_count_with(outcomes, SwarmTaskStatus::Cancelled);
    lemma_count_with(outcomes, SwarmTaskStatus::Skipped);
    lemma_count_with(outcomes, SwarmTaskStatus::Running);
    lemma_count_with(outcomes, SwarmTaskStatus::Pending);
}

/// A swarm that ended is reported as failed where a failure stopped it, else as timed out where its
/// time ran out, else as completed where every task completed, and else as completed in part.
pub proof fn final_status_tells_how_it_ended(
    swarm_id: Seq<char>,
    duration_ms: u64,
    order: Seq<Seq<char>>,
    states: Map<Seq<char>, SwarmTaskStateView>,
    fail_fast_triggered: bool,
    timed_out: bool,
)
    requires
        order.len() <= usize::MAX,
    ensures
        ({
            let report = final_report(
                swarm_id,
                duration_ms,
                order,
                states,
                fail_fast_triggered,
                timed_out,
            );
            let all_done = forall|i: int|
                0 <= i < order.len() ==> states.contains_key(#[trigger] order[i])
                    && states[order[i]] is Done && states[order[i]]->Done_0.status is Completed;
            &&& report.swarm_id == swarm_id
            &&& report.duration_ms == duration_ms
            &&& report.status == SwarmStatus::Failed <==> fail_fast_triggered
            &&& report.status == SwarmStatus::Timeout <==> !fail_fast_triggered && timed_out
            &&& report.status == SwarmStatus::Completed <==> !fail_fast_triggered && !timed_out
                && all_done
            &&& report.status == SwarmStatus::Partial <==> !fail_fast_triggered && !timed_out
                && !all_done
        }),
{
    let outcomes = task_outcomes(order, states);
    lemma_count_with(outcomes, SwarmTaskStatus::Completed);
    assert forall|i: int| 0 <= i < order.len() implies (#[trigger] outcomes[i].status
        == SwarmTaskStatus::Completed <==> states.contains_key(order[i]) && states[order[i]] is Done
        && states[order[i]]->Done_0.status is Completed) by {}
    if forall|i: int|
        0 <= i < order.len() ==> states.contains_key(#[trigger] order[i]) && states[order[i]] is Done
            && states[order[i]]->Done_0.status is Completed {
        assert forall|i: int| 0 <= i < outcomes.len() implies #[trigger] outcomes[i].status
            == SwarmTaskStatus::Completed by {
            assert(states.contains_key(order[i]));
        }
    } else {
        let i = choose|i: int|
            0 <= i < order.len() && !(states.contains_key(#[trigger] order[i])
                && states[order[i]] is Done && states[order[i]]->Done_0.status is Completed);
        assert(outcomes[i].status != SwarmTaskStatus::Completed);
    }
}

/// A swarm that could not be run is reported as failed, with one failed task that gives the reason.
pub proof fn broken_swarms_are_reported_as_failed(swarm_id: Seq<char>, error: Seq<char>)
    ensures
        ({
            let report = failed_outcome(swarm_id, error);
            &&& report.swarm_id == swarm_id
            &&& report.status == SwarmStatus::Failed
            &&& report.tasks.len() == 1
            &&& report.tasks[0].status == SwarmTaskStatus::Failed
            &&& report.tasks[0].error == Some(error)
            &&& report.tasks[0].result is None
            &&& report.counts.failed == 1
            &&& report.counts.completed == 0
        }),
{
}

} // verus!
