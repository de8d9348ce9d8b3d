//! The run of a swarm as a state machine: what each event makes of the run, and what the run asks
//! for next. Times are milliseconds since the start of the run.

use crate::swarm::outcome;
use crate::swarm::task;
use crate::swarm::types;
use crate::swarm::types::{
    SubAgentResultView, SubAgentType, SwarmOutcomeView, SwarmStatus, SwarmTaskStateView,
    SwarmTaskView, ToolErrorView, SWARM_POLL_INTERVAL_MS,
};
use crate::text;
use vstd::prelude::*;

verus! {

/// What a run was asked to do.
#[verifier::ext_equal]
pub struct RunPlanView {
    pub swarm_id: Seq<char>,
    pub tasks: Seq<SwarmTaskView>,
    pub shared_context: Option<Seq<char>>,
    pub timeout_ms: u64,
    pub max_parallel: usize,
    pub fail_fast: bool,
    pub publish_progress: bool,
}

/// What a run is waiting for.
#[verifier::ext_equal]
pub enum RunPhaseView {
    /// To be resumed with the next pass over the tasks.
    Idle,
    /// For the list of agents.
    Listing,
    /// For agents that ran out of time to be cancelled.
    Dropping,
    /// For the number of free agent slots; the tasks in `ready` can start.
    Counting { ready: Seq<Seq<char>> },
    /// For an agent for the first task in `queue`.
    Spawning { queue: Seq<Seq<char>> },
    /// For the running agents to be cancelled after a failure.
    Stopping,
    /// For the running agents to be cancelled at the deadline.
    Expiring,
    /// For a progress report to be taken.
    Reporting,
    /// For the progress report after a failure to be taken.
    Closing,
    /// For nothing: the run is over.
    Finished,
}

/// What happened outside the run.
#[verifier::ext_equal]
pub enum SwarmEventView {
    /// The run may go on.
    Resumed,
    /// What is known of the agents.
    Agents(Seq<SubAgentResultView>),
    /// What cancelling each of the agents gave.
    Cancelled(Seq<Result<SubAgentResultView, Seq<char>>>),
    /// How many more agents may be started.
    Slots(usize),
    /// An agent was started.
    Spawned(Seq<char>),
    /// No agent could be started.
    SpawnFailed(Seq<char>),
}

/// The agent that a run asks for.
#[verifier::ext_equal]
pub struct SpawnRequestView {
    pub task_id: Seq<char>,
    pub agent_type: SubAgentType,
    pub role: Option<Seq<char>>,
    pub objective: Seq<char>,
    pub prompt: Seq<char>,
    pub allowed_tools: Option<Seq<Seq<char>>>,
}

/// What a run asks for.
#[verifier::ext_equal]
pub enum SwarmActionView {
    ListAgents,
    CancelAgents(Seq<Seq<char>>),
    CountSlots,
    Spawn(SpawnRequestView),
    Publish(SwarmOutcomeView),
    /// Wait this many milliseconds.
    Pause(u64),
    Finish(SwarmOutcomeView),
    Abort(ToolErrorView),
}

/// A run of a swarm.
#[verifier::ext_equal]
pub struct RunView {
    pub plan: RunPlanView,
    pub states: Map<Seq<char>, SwarmTaskStateView>,
    /// When the agent of each running task was started.
    pub started_at: Map<Seq<char>, u64>,
    /// How often each task was started.
    pub attempts: Map<Seq<char>, u32>,
    /// When each task that waits for a retry may start.
    pub retry_ready_at: Map<Seq<char>, u64>,
    pub fail_fast_triggered: bool,
    pub timed_out: bool,
    /// Whether the current pass changed the state of a task.
    pub changed: bool,
    pub phase: RunPhaseView,
}

/// Whether a task completed successfully.
pub open spec fn is_completed(
    states: Map<Seq<char>, SwarmTaskStateView>,
    id: Seq<char>,
) -> bool {
    states.contains_key(id) && (states[id] matches SwarmTaskStateView::Done(result)
        && result.status is Completed)
}

/// Whether a task ended without success.
pub open spec fn is_lost(states: Map<Seq<char>, SwarmTaskStateView>, id: Seq<char>) -> bool {
    states.contains_key(id) && match states[id] {
        SwarmTaskStateView::Done(result) => result.status.unsuccessful(),
        SwarmTaskStateView::Failed(_) => true,
        SwarmTaskStateView::Skipped(_) => true,
        _ => false,
    }
}

/// Every task that `task` depends on completed.
pub open spec fn satisfied(
    task: SwarmTaskView,
    states: Map<Seq<char>, SwarmTaskStateView>,
) -> bool {
    forall|dep: Seq<char>| #[trigger] task.depends_on.contains(dep) ==> is_completed(states, dep)
}

/// Some task that `task` depends on ended without success.
pub open spec fn blocked(task: SwarmTaskView, states: Map<Seq<char>, SwarmTaskStateView>) -> bool {
    exists|dep: Seq<char>| #[trigger] task.depends_on.contains(dep) && is_lost(states, dep)
}

/// The last of the snapshots of one agent.
pub open spec fn latest(
    snapshots: Seq<SubAgentResultView>,
    agent_id: Seq<char>,
) -> Option<SubAgentResultView>
    decreases snapshots.len(),
{
    if snapshots.len() == 0 {
        None
    } else if snapshots.last().agent_id == agent_id {
        Some(snapshots.last())
    } else {
        latest(snapshots.drop_last(), agent_id)
    }
}

/// The state of a task whose agent was cancelled.
pub open spec fn cancelled_state(
    reply: Result<SubAgentResultView, Seq<char>>,
) -> SwarmTaskStateView {
    match reply {
        Ok(snapshot) => SwarmTaskStateView::Done(snapshot),
        Err(message) => SwarmTaskStateView::Failed("Failed to cancel agent: "@ + message),
    }
}

/// The states after the tasks in `ids` got the replies to their cancellation.
pub open spec fn cancelled_states(
    states: Map<Seq<char>, SwarmTaskStateView>,
    ids: Seq<Seq<char>>,
    replies: Seq<Result<SubAgentResultView, Seq<char>>>,
) -> Map<Seq<char>, SwarmTaskStateView>
    decreases ids.len(),
{
    if ids.len() == 0 {
        states
    } else {
        cancelled_states(states, ids.drop_last(), replies).insert(
            ids.last(),
            cancelled_state(replies[ids.len() - 1]),
        )
    }
}

/// The states after all tasks in `ids` got one new state.
pub open spec fn with_all(
    states: Map<Seq<char>, SwarmTaskStateView>,
    ids: Seq<Seq<char>>,
    state: SwarmTaskStateView,
) -> Map<Seq<char>, SwarmTaskStateView>
    decreases ids.len(),
{
    if ids.len() == 0 {
        states
    } else {
        with_all(states, ids.drop_last(), state).insert(ids.last(), state)
    }
}

/// What passes a test stands in the selected list, and nothing else; without duplicates there are
/// none in the selection either.
pub proof fn lemma_filter_members(ids: Seq<Seq<char>>, test: spec_fn(Seq<char>) -> bool)
    ensures
        ids.filter(test).len() <= ids.len(),
        forall|i: int|
            0 <= i < ids.filter(test).len() ==> test(#[trigger] ids.filter(test)[i])
                && ids.contains(ids.filter(test)[i]),
        forall|id: Seq<char>|
            ids.contains(id) && test(id) ==> #[trigger] ids.filter(test).contains(id),
        ids.no_duplicates() ==> ids.filter(test).no_duplicates(),
    decreases ids.len(),
{
    reveal(Seq::filter);
    if ids.len() > 0 {
        let front = ids.drop_last();
        lemma_filter_members(front, test);
        let kept = front.filter(test);
        assert forall|i: int| 0 <= i < ids.filter(test).len() implies test(
            #[trigger] ids.filter(test)[i],
        ) && ids.contains(ids.filter(test)[i]) by {
            if i < kept.len() {
                assert(ids.filter(test)[i] == kept[i]);
                let j = choose|j: int| 0 <= j < front.len() && front[j] == kept[i];
                assert(ids[j] == kept[i]);
            } else {
                assert(ids[ids.len() - 1] == ids.last());
            }
        }
        assert forall|id: Seq<char>| ids.contains(id) && test(id) implies #[trigger] ids.filter(
            test,
        ).contains(id) by {
            let j = choose|j: int| 0 <= j < ids.len() && ids[j] == id;
            if j < front.len() {
                assert(front[j] == id);
                assert(front.contains(id));
                assert(kept.contains(id));
                let k = choose|k: int| 0 <= k < kept.len() && kept[k] == id;
                assert(ids.filter(test)[k] == id);
            } else {
                assert(ids.filter(test)[kept.len() as int] == id);
            }
        }
        if ids.no_duplicates() {
            assert(front.no_duplicates());
            assert forall|a: int, b: int|
                0 <= a < b < ids.filter(test).len() implies ids.filter(test)[a] != ids.filter(
                test,
            )[b] by {
                if b == kept.len() {
                    assert(front.contains(kept[a]));
                    let j = choose|j: int| 0 <= j < front.len() && front[j] == kept[a];
                    assert(ids[j] != ids[ids.len() - 1]);
                }
            }
        }
    }
}

/// The state of a task that was skipped because a task that it depends on was lost.
pub open spec fn dependency_failed() -> SwarmTaskStateView {
    SwarmTaskStateView::Skipped("Dependency failed"@)
}

/// A task that is done has an agent that stopped.
pub open spec fn ends_are_final(states: Map<Seq<char>, SwarmTaskStateView>) -> bool {
    forall|id: Seq<char>| #[trigger]
        states.contains_key(id) && states[id] is Done ==> states[id]->Done_0.status !is Running
}

impl RunView {
    /// The run before its first event.
    pub open spec fn initial(plan: RunPlanView) -> RunView {
        RunView {
            plan,
            states: Map::new(
                |id: Seq<char>| types::task_ids(plan.tasks).contains(id),
                |id: Seq<char>| SwarmTaskStateView::Pending,
            ),
            started_at: Map::empty(),
            attempts: Map::empty(),
            retry_ready_at: Map::empty(),
            fail_fast_triggered: false,
            timed_out: false,
            changed: false,
            phase: RunPhaseView::Idle,
        }
    }

    /// The ids of the tasks, in order.
    pub open spec fn ids(self) -> Seq<Seq<char>> {
        types::task_ids(self.plan.tasks)
    }

    /// The task with an id.
    pub open spec fn task(self, id: Seq<char>) -> SwarmTaskView {
        self.plan.tasks[self.ids().index_of(id)]
    }

    pub open spec fn is_pending(self, id: Seq<char>) -> bool {
        self.states.contains_key(id) && self.states[id] is Pending
    }

    pub open spec fn is_running(self, id: Seq<char>) -> bool {
        self.states.contains_key(id) && self.states[id] is Running
    }

    pub open spec fn is_skipped(self, id: Seq<char>) -> bool {
        self.states.contains_key(id) && self.states[id] is Skipped
    }

    /// Whether a task runs, or ended otherwise than by being skipped.
    pub open spec fn was_tried(self, id: Seq<char>) -> bool {
        self.states.contains_key(id) && match self.states[id] {
            SwarmTaskStateView::Running { .. } => true,
            SwarmTaskStateView::Done(_) => true,
            SwarmTaskStateView::Failed(_) => true,
            _ => false,
        }
    }

    pub open spec fn pending_test(self) -> spec_fn(Seq<char>) -> bool {
        |id: Seq<char>| self.is_pending(id)
    }

    pub open spec fn running_test(self) -> spec_fn(Seq<char>) -> bool {
        |id: Seq<char>| self.is_running(id)
    }

    /// The tasks that have not started or wait for a retry, in order.
    pub open spec fn pending_ids(self) -> Seq<Seq<char>> {
        self.ids().filter(self.pending_test())
    }

    /// The tasks that an agent works on, in order.
    pub open spec fn running_ids(self) -> Seq<Seq<char>> {
        self.ids().filter(self.running_test())
    }

    /// The agents of some running tasks.
    pub open spec fn agents_of(self, ids: Seq<Seq<char>>) -> Seq<Seq<char>> {
        ids.map_values(|id: Seq<char>| self.states[id]->agent_id)
    }

    /// How often a task was started.
    pub open spec fn attempts_of(self, id: Seq<char>) -> u32 {
        if self.attempts.contains_key(id) {
            self.attempts[id]
        } else {
            0
        }
    }

    /// How often a task may be tried again: not at all where the first failure stops the run.
    pub open spec fn retries_of(self, id: Seq<char>) -> nat {
        if self.plan.fail_fast {
            0
        } else {
            task::retries(self.task(id))
        }
    }

    /// Whether a task that was started may be started again.
    pub open spec fn can_retry(self, id: Seq<char>) -> bool {
        !self.plan.fail_fast && 0 < self.attempts_of(id) <= task::retries(self.task(id))
    }

    /// The run after a task was put back to wait for its next attempt.
    pub open spec fn retried(self, id: Seq<char>, now_ms: u64) -> RunView {
        RunView {
            states: self.states.insert(id, SwarmTaskStateView::Pending),
            started_at: self.started_at.remove(id),
            retry_ready_at: self.retry_ready_at.insert(
                id,
                (now_ms + task::retry_delay(self.task(id), self.attempts_of(id) as nat)) as u64,
            ),
            changed: true,
            ..self
        }
    }

    /// The run after a task came to its end.
    pub open spec fn concluded(self, id: Seq<char>, state: SwarmTaskStateView, lost: bool) -> RunView {
        RunView {
            states: self.states.insert(id, state),
            started_at: self.started_at.remove(id),
            retry_ready_at: self.retry_ready_at.remove(id),
            fail_fast_triggered: self.fail_fast_triggered || (self.plan.fail_fast && lost),
            changed: true,
            ..self
        }
    }

    /// The run after an attempt at a task was lost: the task is tried again or ends in `state`.
    pub open spec fn lost(self, id: Seq<char>, state: SwarmTaskStateView, now_ms: u64) -> RunView {
        if self.can_retry(id) {
            self.retried(id, now_ms)
        } else {
            self.concluded(id, state, true)
        }
    }

    /// Whether the agent of a running task has had its time.
    pub open spec fn is_overdue(self, id: Seq<char>, now_ms: u64) -> bool {
        let started: u64 = if self.started_at.contains_key(id) {
            self.started_at[id]
        } else {
            0
        };
        self.is_running(id) && match task::time_limit(self.task(id)) {
            Some(limit) => started + limit <= now_ms,
            None => false,
        }
    }

    pub open spec fn overdue_test(self, now_ms: u64) -> spec_fn(Seq<char>) -> bool {
        |id: Seq<char>| self.is_overdue(id, now_ms)
    }

    /// The tasks whose agents have had their time, in order.
    pub open spec fn overdue_ids(self, now_ms: u64) -> Seq<Seq<char>> {
        self.ids().filter(self.overdue_test(now_ms))
    }

    /// The run after one task was held against the snapshots of the agents.
    pub open spec fn observed_one(
        self,
        id: Seq<char>,
        snapshots: Seq<SubAgentResultView>,
        now_ms: u64,
    ) -> RunView {
        if !self.is_running(id) {
            self
        } else if self.is_overdue(id, now_ms) {
            self.lost(
                id,
                SwarmTaskStateView::Failed(
                    "Timed out after "@ + text::decimal_text(
                        task::time_limit(self.task(id))->0 as nat,
                    ) + "ms"@,
                ),
                now_ms,
            )
        } else {
            match latest(snapshots, self.states[id]->agent_id) {
                Some(snapshot) => if snapshot.status is Running {
                    self
                } else if snapshot.status.unsuccessful() {
                    self.lost(id, SwarmTaskStateView::Done(snapshot), now_ms)
                } else {
                    self.concluded(id, SwarmTaskStateView::Done(snapshot), false)
                },
                None => self.lost(
                    id,
                    SwarmTaskStateView::Failed("Agent result not found"@),
                    now_ms,
                ),
            }
        }
    }

    /// The run after the first `n` tasks were held against the snapshots of the agents.
    pub open spec fn observed(
        self,
        n: nat,
        snapshots: Seq<SubAgentResultView>,
        now_ms: u64,
    ) -> RunView
        decreases n,
    {
        if n == 0 {
            self
        } else {
            self.observed((n - 1) as nat, snapshots, now_ms).observed_one(
                self.ids()[n - 1],
                snapshots,
                now_ms,
            )
        }
    }

    pub open spec fn blocked_test(self) -> spec_fn(Seq<char>) -> bool {
        |id: Seq<char>| self.is_pending(id) && blocked(self.task(id), self.states)
    }

    /// The pending tasks that can no longer start, in order.
    pub open spec fn blocked_ids(self) -> Seq<Seq<char>> {
        self.ids().filter(self.blocked_test())
    }

    /// The run after the pending tasks that can no longer start were skipped.
    pub open spec fn without_blocked(self) -> RunView {
        RunView {
            states: with_all(
                self.states,
                self.blocked_ids(),
                SwarmTaskStateView::Skipped("Dependency failed"@),
            ),
            changed: self.changed || self.blocked_ids().len() > 0,
            ..self
        }
    }

    /// Whether a pending task can start.
    pub open spec fn is_ready(self, id: Seq<char>, now_ms: u64) -> bool {
        &&& self.is_pending(id)
        &&& satisfied(self.task(id), self.states)
        &&& self.retry_ready_at.contains_key(id) ==> self.retry_ready_at[id] <= now_ms
    }

    pub open spec fn ready_test(self, now_ms: u64) -> spec_fn(Seq<char>) -> bool {
        |id: Seq<char>| self.is_ready(id, now_ms)
    }

    /// The tasks that can start, in order.
    pub open spec fn ready_ids(self, now_ms: u64) -> Seq<Seq<char>> {
        self.ids().filter(self.ready_test(now_ms))
    }

    /// How many agents may be started when `free` more are allowed in all.
    pub open spec fn slots(self, free: usize) -> int {
        let own: int = if self.plan.max_parallel <= self.running_ids().len() {
            0
        } else {
            self.plan.max_parallel - self.running_ids().len()
        };
        if free < own {
            free as int
        } else {
            own
        }
    }

    /// The run after one more attempt at a task was begun.
    pub open spec fn begun(self, id: Seq<char>) -> RunView {
        RunView {
            attempts: self.attempts.insert(id, (self.attempts_of(id) + 1) as u32),
            ..self
        }
    }

    /// The run after the attempt at a task was taken back.
    pub open spec fn taken_back(self, id: Seq<char>) -> RunView {
        RunView {
            attempts: self.attempts.insert(
                id,
                if self.attempts_of(id) == 0 {
                    0
                } else {
                    (self.attempts_of(id) - 1) as u32
                },
            ),
            ..self
        }
    }

    /// The run after an agent was started for a task.
    pub open spec fn spawned(self, id: Seq<char>, agent_id: Seq<char>, now_ms: u64) -> RunView {
        RunView {
            states: self.states.insert(id, SwarmTaskStateView::Running { agent_id }),
            started_at: self.started_at.insert(id, now_ms),
            retry_ready_at: self.retry_ready_at.remove(id),
            changed: true,
            ..self
        }
    }

    /// The run after its agents were cancelled.
    pub open spec fn cancelled(
        self,
        replies: Seq<Result<SubAgentResultView, Seq<char>>>,
    ) -> RunView {
        RunView {
            states: cancelled_states(self.states, self.running_ids(), replies),
            started_at: Map::empty(),
            ..self
        }
    }

    /// The run after its pending tasks were given up.
    pub open spec fn abandoned(self) -> RunView {
        RunView {
            states: with_all(
                self.states,
                self.pending_ids(),
                SwarmTaskStateView::Skipped("Skipped due to fail_fast"@),
            ),
            retry_ready_at: Map::empty(),
            ..self
        }
    }

    pub open spec fn in_phase(self, phase: RunPhaseView) -> RunView {
        RunView { phase, ..self }
    }

    /// A report on the run.
    pub open spec fn progress(self, now_ms: u64, status: SwarmStatus) -> SwarmOutcomeView {
        outcome::progress_report(self.plan.swarm_id, now_ms, self.ids(), self.states, status)
    }

    /// The end of the run.
    pub open spec fn finish(self, now_ms: u64) -> (RunView, SwarmActionView) {
        (
            self.in_phase(RunPhaseView::Finished),
            SwarmActionView::Finish(
                outcome::final_report(
                    self.plan.swarm_id,
                    now_ms,
                    self.ids(),
                    self.states,
                    self.fail_fast_triggered,
                    self.timed_out,
                ),
            ),
        )
    }

    /// What follows a failure that stops the run, once its agents were cancelled.
    pub open spec fn stopped(
        self,
        replies: Seq<Result<SubAgentResultView, Seq<char>>>,
        now_ms: u64,
    ) -> (RunView, SwarmActionView) {
        let after = self.cancelled(replies).abandoned();
        if self.plan.publish_progress {
            (
                after.in_phase(RunPhaseView::Closing),
                SwarmActionView::Publish(after.progress(now_ms, SwarmStatus::Failed)),
            )
        } else {
            after.finish(now_ms)
        }
    }

    /// What follows a failure that stops the run.
    pub open spec fn stop(self, now_ms: u64) -> (RunView, SwarmActionView) {
        if self.running_ids().len() > 0 {
            (
                self.in_phase(RunPhaseView::Stopping),
                SwarmActionView::CancelAgents(self.agents_of(self.running_ids())),
            )
        } else {
            self.stopped(seq![], now_ms)
        }
    }

    /// What follows when no further agents are started in this pass.
    pub open spec fn after_launch(self, now_ms: u64) -> (RunView, SwarmActionView) {
        if self.fail_fast_triggered {
            self.stop(now_ms)
        } else if self.pending_ids().len() == 0 && self.running_ids().len() == 0 {
            self.finish(now_ms)
        } else if now_ms >= self.plan.timeout_ms {
            let after = RunView { timed_out: true, ..self };
            if self.running_ids().len() > 0 {
                (
                    after.in_phase(RunPhaseView::Expiring),
                    SwarmActionView::CancelAgents(self.agents_of(self.running_ids())),
                )
            } else {
                after.finish(now_ms)
            }
        } else if self.plan.publish_progress && self.changed {
            (
                self.in_phase(RunPhaseView::Reporting),
                SwarmActionView::Publish(self.progress(now_ms, SwarmStatus::Running)),
            )
        } else {
            self.pause()
        }
    }

    /// The end of a pass: the next one follows at once if this one changed anything.
    pub open spec fn pause(self) -> (RunView, SwarmActionView) {
        (
            self.in_phase(RunPhaseView::Idle),
            SwarmActionView::Pause(
                if self.changed {
                    0
                } else {
                    SWARM_POLL_INTERVAL_MS
                },
            ),
        )
    }

    /// What follows when the running tasks were held against the agents.
    pub open spec fn after_observation(self, now_ms: u64) -> (RunView, SwarmActionView) {
        if self.fail_fast_triggered {
            self.stop(now_ms)
        } else {
            let after = self.without_blocked();
            if after.ready_ids(now_ms).len() > 0 {
                (
                    after.in_phase(RunPhaseView::Counting { ready: after.ready_ids(now_ms) }),
                    SwarmActionView::CountSlots,
                )
            } else {
                after.after_launch(now_ms)
            }
        }
    }

    /// The start of a pass over the tasks.
    pub open spec fn next_pass(self, now_ms: u64) -> (RunView, SwarmActionView) {
        let after = RunView { changed: false, ..self };
        if after.running_ids().len() > 0 {
            (after.in_phase(RunPhaseView::Listing), SwarmActionView::ListAgents)
        } else {
            after.after_observation(now_ms)
        }
    }

    /// What follows when the agents were listed.
    pub open spec fn listed(self, snapshots: Seq<SubAgentResultView>, now_ms: u64) -> (
        RunView,
        SwarmActionView,
    ) {
        let after = self.observed(self.ids().len(), snapshots, now_ms);
        if self.overdue_ids(now_ms).len() > 0 {
            (
                after.in_phase(RunPhaseView::Dropping),
                SwarmActionView::CancelAgents(self.agents_of(self.overdue_ids(now_ms))),
            )
        } else {
            after.after_observation(now_ms)
        }
    }

    /// What follows when the tasks in `queue` are to be started.
    pub open spec fn launch(self, queue: Seq<Seq<char>>, now_ms: u64) -> (RunView, SwarmActionView) {
        if queue.len() == 0 {
            self.after_launch(now_ms)
        } else {
            let id = queue[0];
            let after = self.begun(id);
            match task::assignment(self.task(id)) {
                Ok(assignment) => (
                    after.in_phase(RunPhaseView::Spawning { queue }),
                    SwarmActionView::Spawn(
                        SpawnRequestView {
                            task_id: id,
                            agent_type: assignment.agent_type,
                            role: assignment.role,
                            objective: assignment.objective,
                            prompt: task::prompt_text(
                                self.plan.shared_context,
                                self.task(id).prompt,
                            ),
                            allowed_tools: self.task(id).allowed_tools,
                        },
                    ),
                ),
                Err(error) => (
                    after.in_phase(RunPhaseView::Finished),
                    SwarmActionView::Abort(error),
                ),
            }
        }
    }

    /// What follows when no agent could be started for the first task in `queue`.
    pub open spec fn refused(
        self,
        queue: Seq<Seq<char>>,
        message: Seq<char>,
        now_ms: u64,
    ) -> (RunView, SwarmActionView) {
        let id = queue[0];
        if text::has_text(message, "Sub-agent limit reached"@) {
            self.taken_back(id).after_launch(now_ms)
        } else {
            self.lost(id, SwarmTaskStateView::Failed(message), now_ms).launch(
                queue.drop_first(),
                now_ms,
            )
        }
    }

    /// What holds of the tasks at every moment; an attempt at the task `flight` has begun.
    pub open spec fn tasks_inv(self, flight: Option<Seq<char>>) -> bool {
        &&& self.ids().no_duplicates()
        &&& forall|id: Seq<char>| #[trigger]
            self.states.contains_key(id) <==> self.ids().contains(id)
        &&& forall|id: Seq<char>| #[trigger]
            self.ids().contains(id) ==> self.attempts_of(id) <= self.retries_of(id) + (
            if self.is_pending(id) && flight != Some(id) {
                0int
            } else {
                1int
            })
        &&& forall|id: Seq<char>| #[trigger]
            self.was_tried(id) ==> satisfied(self.task(id), self.states)
        &&& forall|id: Seq<char>| #[trigger]
            self.is_running(id) ==> self.started_at.contains_key(id) && self.attempts_of(id) > 0
        &&& self.running_ids().len() <= self.plan.max_parallel
        &&& self.fail_fast_triggered ==> self.plan.fail_fast
        &&& !self.fail_fast_triggered ==> forall|id: Seq<char>| #[trigger]
            self.is_skipped(id) ==> blocked(self.task(id), self.states) && self.states[id]
                == dependency_failed()
    }

    /// The tasks in a list are distinct and can start.
    pub open spec fn can_start(self, list: Seq<Seq<char>>) -> bool {
        &&& list.no_duplicates()
        &&& forall|i: int|
            0 <= i < list.len() ==> self.is_pending(#[trigger] list[i]) && satisfied(
                self.task(list[i]),
                self.states,
            )
    }

    /// What holds of a run between two events.
    pub open spec fn inv(self) -> bool {
        &&& self.phase is Closing || (self.phase is Finished && (self.fail_fast_triggered
            || self.timed_out)) || ends_are_final(self.states)
        &&& match self.phase {
            RunPhaseView::Counting { ready } => self.tasks_inv(None) && self.can_start(ready),
            RunPhaseView::Spawning { queue } => {
                &&& queue.len() > 0
                &&& self.tasks_inv(Some(queue[0]))
                &&& self.can_start(queue)
                &&& self.attempts_of(queue[0]) > 0
                &&& self.running_ids().len() + queue.len() <= self.plan.max_parallel
            },
            RunPhaseView::Stopping => self.tasks_inv(None) && self.fail_fast_triggered,
            RunPhaseView::Closing => self.tasks_inv(None) && self.fail_fast_triggered,
            RunPhaseView::Expiring => self.tasks_inv(None) && self.timed_out,
            RunPhaseView::Finished => exists|flight: Option<Seq<char>>| self.tasks_inv(flight),
            _ => self.tasks_inv(None),
        }
    }

    /// Whether the run waits for an event of this kind.
    pub open spec fn accepts(self, event: SwarmEventView) -> bool {
        match (self.phase, event) {
            (RunPhaseView::Idle, SwarmEventView::Resumed) => true,
            (RunPhaseView::Listing, SwarmEventView::Agents(_)) => true,
            (RunPhaseView::Dropping, SwarmEventView::Cancelled(_)) => true,
            (RunPhaseView::Counting { .. }, SwarmEventView::Slots(_)) => true,
            (RunPhaseView::Spawning { .. }, SwarmEventView::Spawned(_)) => true,
            (RunPhaseView::Spawning { .. }, SwarmEventView::SpawnFailed(_)) => true,
            (RunPhaseView::Stopping, SwarmEventView::Cancelled(replies)) => replies.len()
                == self.running_ids().len(),
            (RunPhaseView::Expiring, SwarmEventView::Cancelled(replies)) => replies.len()
                == self.running_ids().len(),
            (RunPhaseView::Reporting, SwarmEventView::Resumed) => true,
            (RunPhaseView::Closing, SwarmEventView::Resumed) => true,
            _ => false,
        }
    }

    /// What an event makes of the run, and what the run asks for next.
    pub open spec fn step(self, event: SwarmEventView, now_ms: u64) -> (RunView, SwarmActionView) {
        match (self.phase, event) {
            (RunPhaseView::Idle, SwarmEventView::Resumed) => self.next_pass(now_ms),
            (RunPhaseView::Listing, SwarmEventView::Agents(snapshots)) => self.listed(
                snapshots,
                now_ms,
            ),
            (RunPhaseView::Dropping, SwarmEventView::Cancelled(_)) => self.after_observation(
                now_ms,
            ),
            (RunPhaseView::Counting { ready }, SwarmEventView::Slots(free)) => self.launch(
                ready.take(
                    if self.slots(free) < ready.len() {
                        self.slots(free)
                    } else {
                        ready.len() as int
                    },
                ),
                now_ms,
            ),
            (RunPhaseView::Spawning { queue }, SwarmEventView::Spawned(agent_id)) => self.spawned(
                queue[0],
                agent_id,
                now_ms,
            ).launch(queue.drop_first(), now_ms),
            (RunPhaseView::Spawning { queue }, SwarmEventView::SpawnFailed(message)) =>
            self.refused(queue, message, now_ms),
            (RunPhaseView::Stopping, SwarmEventView::Cancelled(replies)) => self.stopped(
                replies,
                now_ms,
            ),
            (RunPhaseView::Expiring, SwarmEventView::Cancelled(replies)) => self.cancelled(
                replies,
            ).finish(now_ms),
            (RunPhaseView::Reporting, SwarmEventView::Resumed) => self.pause(),
            (RunPhaseView::Closing, SwarmEventView::Resumed) => self.finish(now_ms),
            _ => (self, SwarmActionView::Pause(0)),
        }
    }
}

/// A run starts sound.
pub proof fn run_starts_sound(plan: RunPlanView)
    requires
        types::task_ids(plan.tasks).no_duplicates(),
    ensures
        RunView::initial(plan).inv(),
{
    let run = RunView::initial(plan);
    lemma_filter_members(run.ids(), run.running_test());
    if run.running_ids().len() > 0 {
        assert(run.running_test()(run.running_ids()[0]));
    }
}

/// A selection by a test that admits no more holds no more.
proof fn lemma_filter_narrows(
    ids: Seq<Seq<char>>,
    narrow: spec_fn(Seq<char>) -> bool,
    wide: spec_fn(Seq<char>) -> bool,
)
    requires
        forall|id: Seq<char>| #[trigger] ids.contains(id) && narrow(id) ==> wide(id),
    ensures
        ids.filter(narrow).len() <= ids.filter(wide).len(),
    decreases ids.len(),
{
    reveal(Seq::filter);
    if ids.len() > 0 {
        let front = ids.drop_last();
        assert forall|id: Seq<char>| #[trigger] front.contains(id) && narrow(id) implies wide(
            id,
        ) by {
            let k = choose|k: int| 0 <= k < front.len() && front[k] == id;
            assert(ids[k] == id);
            assert(ids.contains(id));
        }
        lemma_filter_narrows(front, narrow, wide);
        assert(ids[ids.len() - 1] == ids.last());
        assert(ids.contains(ids.last()));
    }
}

/// A selection by a test that admits one more id holds at most one more.
proof fn lemma_filter_grows_by_one(
    ids: Seq<Seq<char>>,
    after: spec_fn(Seq<char>) -> bool,
    before: spec_fn(Seq<char>) -> bool,
    new: Seq<char>,
)
    requires
        ids.no_duplicates(),
        forall|id: Seq<char>| #[trigger]
            ids.contains(id) && after(id) ==> before(id) || id == new,
    ensures
        ids.filter(after).len() <= ids.filter(before).len() + 1,
    decreases ids.len(),
{
    reveal(Seq::filter);
    if ids.len() > 0 {
        let front = ids.drop_last();
        assert(ids[ids.len() - 1] == ids.last());
        assert(ids.contains(ids.last()));
        assert forall|id: Seq<char>| #[trigger] front.contains(id) && after(id) implies before(id)
            || id == new by {
            let k = choose|k: int| 0 <= k < front.len() && front[k] == id;
            assert(ids[k] == id);
            assert(ids.contains(id));
        }
        if ids.last() == new {
            assert forall|id: Seq<char>| #[trigger] front.contains(id) && after(id) implies before(
                id,
            ) by {
                let k = choose|k: int| 0 <= k < front.len() && front[k] == id;
                assert(ids[k] != ids[ids.len() - 1]);
            }
            lemma_filter_narrows(front, after, before);
        } else {
            lemma_filter_grows_by_one(front, after, before, new);
        }
    }
}

/// A change that starts no agent and keeps the bounds on the attempts keeps the tasks sound.
proof fn lemma_narrowed(
    before: RunView,
    after: RunView,
    flight: Option<Seq<char>>,
    new_flight: Option<Seq<char>>,
)
    requires
        before.tasks_inv(flight),
        after.plan == before.plan,
        forall|id: Seq<char>| #[trigger]
            after.states.contains_key(id) <==> before.states.contains_key(id),
        forall|id: Seq<char>| #[trigger]
            before.ids().contains(id) ==> after.attempts_of(id) <= before.retries_of(id)
                + (if after.is_pending(id) && new_flight != Some(id) {
                0int
            } else {
                1int
            }),
        forall|id: Seq<char>| #[trigger]
            after.is_running(id) ==> before.is_running(id) && after.started_at.contains_key(id)
                == before.started_at.contains_key(id) && after.attempts_of(id)
                == before.attempts_of(id),
        forall|id: Seq<char>| #[trigger]
            is_completed(before.states, id) ==> is_completed(after.states, id),
        forall|id: Seq<char>| #[trigger] is_lost(before.states, id) ==> is_lost(after.states, id),
        forall|id: Seq<char>| #[trigger]
            after.was_tried(id) ==> before.was_tried(id) || satisfied(
                before.task(id),
                before.states,
            ),
        before.fail_fast_triggered ==> after.fail_fast_triggered,
        after.fail_fast_triggered ==> after.plan.fail_fast,
        !after.fail_fast_triggered ==> forall|id: Seq<char>| #[trigger]
            after.is_skipped(id) ==> (before.is_skipped(id) && after.states[id]
                == before.states[id]) || (blocked(before.task(id), before.states)
                && after.states[id] == dependency_failed()),
    ensures
        after.tasks_inv(new_flight),
        after.running_ids().len() <= before.running_ids().len(),
{
    let ids = before.ids();
    assert(after.ids() == ids);
    assert forall|id: Seq<char>| #[trigger] ids.contains(id) && after.running_test()(
        id,
    ) implies before.running_test()(id) by {
        assert(after.is_running(id));
    }
    lemma_filter_narrows(ids, after.running_test(), before.running_test());
    assert forall|id: Seq<char>| #[trigger] after.was_tried(id) implies satisfied(
        after.task(id),
        after.states,
    ) by {
        assert(satisfied(before.task(id), before.states));
        assert(after.task(id) == before.task(id));
    }
    if !after.fail_fast_triggered {
        assert forall|id: Seq<char>| #[trigger] after.is_skipped(id) implies blocked(
            after.task(id),
            after.states,
        ) && after.states[id] == dependency_failed() by {
            assert(blocked(before.task(id), before.states));
            assert(after.task(id) == before.task(id));
            let dep = choose|dep: Seq<char>| #[trigger]
                before.task(id).depends_on.contains(dep) && is_lost(before.states, dep);
            assert(is_lost(after.states, dep));
        }
    }
    assert forall|id: Seq<char>| #[trigger] after.ids().contains(id) implies after.attempts_of(id)
        <= after.retries_of(id) + (if after.is_pending(id) && new_flight != Some(id) {
        0int
    } else {
        1int
    }) by {
        assert(after.task(id) == before.task(id));
    }
}

/// What is not part of the tasks does not matter to their soundness.
proof fn lemma_same_tasks(before: RunView, after: RunView, flight: Option<Seq<char>>)
    requires
        before.tasks_inv(flight),
        after.plan == before.plan,
        after.states == before.states,
        after.attempts == before.attempts,
        after.started_at == before.started_at,
        after.fail_fast_triggered == before.fail_fast_triggered,
    ensures
        after.tasks_inv(flight),
        after.running_ids() == before.running_ids(),
        after.pending_ids() == before.pending_ids(),
{
    assert forall|id: Seq<char>| #[trigger] before.ids().contains(id) implies after.attempts_of(id)
        <= before.retries_of(id) + (if after.is_pending(id) && flight != Some(id) {
        0int
    } else {
        1int
    }) by {
        assert(after.attempts_of(id) == before.attempts_of(id));
        assert(after.is_pending(id) == before.is_pending(id));
    }
    assert forall|id: Seq<char>| #[trigger] after.was_tried(id) implies before.was_tried(id) by {}
    assert forall|id: Seq<char>| #[trigger] after.is_skipped(id) implies before.is_skipped(id) by {}
    lemma_narrowed(before, after, flight, flight);
    assert(after.running_test() =~= before.running_test());
    assert(after.pending_test() =~= before.pending_test());
}

/// Giving all tasks in a list one state changes these tasks and no others.
pub proof fn lemma_with_all(
    states: Map<Seq<char>, SwarmTaskStateView>,
    ids: Seq<Seq<char>>,
    state: SwarmTaskStateView,
)
    ensures
        forall|id: Seq<char>| #[trigger]
            with_all(states, ids, state).contains_key(id) <==> states.contains_key(id)
                || ids.contains(id),
        forall|id: Seq<char>|
            with_all(states, ids, state).contains_key(id) ==> #[trigger] with_all(
                states,
                ids,
                state,
            )[id] == (if ids.contains(id) {
                state
            } else {
                states[id]
            }),
    decreases ids.len(),
{
    if ids.len() > 0 {
        let front = ids.drop_last();
        lemma_with_all(states, front, state);
        assert forall|id: Seq<char>| ids.contains(id) <==> front.contains(id) || id
            == ids.last() by {
            lemma_contains_last(ids, id);
        }
    }
}

/// A list holds what its front holds and its last element.
proof fn lemma_contains_last(ids: Seq<Seq<char>>, id: Seq<char>)
    requires
        ids.len() > 0,
    ensures
        ids.contains(id) <==> ids.drop_last().contains(id) || id == ids.last(),
{
    let front = ids.drop_last();
    if front.contains(id) {
        let k = choose|k: int| 0 <= k < front.len() && front[k] == id;
        assert(ids[k] == id);
    }
    if id == ids.last() {
        assert(ids[ids.len() - 1] == id);
    }
    if ids.contains(id) && id != ids.last() {
        let k = choose|k: int| 0 <= k < ids.len() && ids[k] == id;
        assert(front[k] == id);
    }
}

proof fn lemma_cancelled_states(
    states: Map<Seq<char>, SwarmTaskStateView>,
    ids: Seq<Seq<char>>,
    replies: Seq<Result<SubAgentResultView, Seq<char>>>,
)
    ensures
        forall|id: Seq<char>| #[trigger]
            cancelled_states(states, ids, replies).contains_key(id) <==> states.contains_key(id)
                || ids.contains(id),
        forall|id: Seq<char>|
            ids.contains(id) ==> {
                let state = #[trigger] cancelled_states(states, ids, replies)[id];
                state is Done || state is Failed
            },
        forall|id: Seq<char>|
            states.contains_key(id) && !ids.contains(id) ==> #[trigger] cancelled_states(
                states,
                ids,
                replies,
            )[id] == states[id],
    decreases ids.len(),
{
    if ids.len() > 0 {
        let front = ids.drop_last();
        lemma_cancelled_states(states, front, replies);
        assert forall|id: Seq<char>| ids.contains(id) <==> front.contains(id) || id
            == ids.last() by {
            lemma_contains_last(ids, id);
        }
    }
}

/// A task that ends or goes back to wait changes nothing of the other tasks.
proof fn lemma_one_task_changes(before: RunView, after: RunView, id: Seq<char>)
    requires
        before.is_pending(id) || before.is_running(id),
        before.was_tried(id) || satisfied(before.task(id), before.states),
        after.states == before.states.insert(id, after.states[id]),
        after.states[id] !is Skipped,
    ensures
        forall|x: Seq<char>| #[trigger] is_lost(before.states, x) ==> is_lost(after.states, x),
        forall|x: Seq<char>| #[trigger]
            after.was_tried(x) ==> before.was_tried(x) || satisfied(before.task(x), before.states),
        forall|x: Seq<char>| #[trigger]
            after.is_skipped(x) ==> before.is_skipped(x) && after.states[x] == before.states[x],
{
    assert forall|x: Seq<char>| #[trigger] after.was_tried(x) implies before.was_tried(x)
        || satisfied(before.task(x), before.states) by {
        if x != id {
            assert(before.was_tried(x));
        }
    }
    assert forall|x: Seq<char>| #[trigger] after.is_skipped(x) implies before.is_skipped(x)
        && after.states[x] == before.states[x] by {
        if x != id {
            assert(before.states[x] == after.states[x]);
        }
    }
}

/// A lost attempt leaves the tasks sound.
proof fn lemma_lost(
    run: RunView,
    id: Seq<char>,
    state: SwarmTaskStateView,
    now_ms: u64,
    flight: Option<Seq<char>>,
)
    requires
        run.tasks_inv(flight),
        run.is_pending(id) || run.is_running(id),
        run.is_pending(id) ==> satisfied(run.task(id), run.states),
        state is Done || state is Failed,
        flight is Some ==> flight == Some(id),
    ensures
        run.lost(id, state, now_ms).tasks_inv(None),
        run.lost(id, state, now_ms).running_ids().len() <= run.running_ids().len(),
{
    let after = run.lost(id, state, now_ms);
    assert(run.states.contains_key(id));
    assert forall|x: Seq<char>| #[trigger] run.ids().contains(x) implies after.attempts_of(x)
        <= run.retries_of(x) + (if after.is_pending(x) {
        0int
    } else {
        1int
    }) by {
        assert(after.attempts_of(x) == run.attempts_of(x));
        if x != id {
            assert(after.is_pending(x) == run.is_pending(x));
        }
    }
    lemma_one_task_changes(run, after, id);
    lemma_narrowed(run, after, flight, None);
}

/// A task that ended leaves the tasks sound.
proof fn lemma_concluded(run: RunView, id: Seq<char>, state: SwarmTaskStateView, lost: bool)
    requires
        run.tasks_inv(None),
        run.is_running(id),
        state is Done || state is Failed,
    ensures
        run.concluded(id, state, lost).tasks_inv(None),
{
    let after = run.concluded(id, state, lost);
    assert(run.states.contains_key(id));
    assert forall|x: Seq<char>| #[trigger] run.ids().contains(x) implies after.attempts_of(x)
        <= run.retries_of(x) + (if after.is_pending(x) {
        0int
    } else {
        1int
    }) by {
        assert(after.attempts_of(x) == run.attempts_of(x));
        if x != id {
            assert(after.is_pending(x) == run.is_pending(x));
        }
    }
    lemma_one_task_changes(run, after, id);
    lemma_narrowed(run, after, None, None);
}

pub proof fn lemma_observed(
    run: RunView,
    n: nat,
    snapshots: Seq<SubAgentResultView>,
    now_ms: u64,
)
    requires
        run.tasks_inv(None),
        ends_are_final(run.states),
        n <= run.ids().len(),
    ensures
        run.observed(n, snapshots, now_ms).plan == run.plan,
        run.observed(n, snapshots, now_ms).tasks_inv(None),
        ends_are_final(run.observed(n, snapshots, now_ms).states),
    decreases n,
{
    if n > 0 {
        lemma_observed(run, (n - 1) as nat, snapshots, now_ms);
        let mid = run.observed((n - 1) as nat, snapshots, now_ms);
        let id = run.ids()[n - 1];
        assert(mid.ids().contains(id));
        if mid.is_running(id) {
            if mid.is_overdue(id, now_ms) {
                lemma_lost(
                    mid,
                    id,
                    SwarmTaskStateView::Failed(
                        "Timed out after "@ + text::decimal_text(
                            task::time_limit(mid.task(id))->0 as nat,
                        ) + "ms"@,
                    ),
                    now_ms,
                    None,
                );
            } else {
                match latest(snapshots, mid.states[id]->agent_id) {
                    Some(snapshot) => {
                        lemma_lost(mid, id, SwarmTaskStateView::Done(snapshot), now_ms, None);
                        lemma_concluded(mid, id, SwarmTaskStateView::Done(snapshot), false);
                    },
                    None => {
                        lemma_lost(
                            mid,
                            id,
                            SwarmTaskStateView::Failed("Agent result not found"@),
                            now_ms,
                            None,
                        );
                    },
                }
            }
        }
    }
}

/// Skipping pending tasks leaves the tasks sound.
proof fn lemma_skipped(run: RunView, skipped: Seq<Seq<char>>, reason: Seq<char>, after: RunView)
    requires
        run.tasks_inv(None),
        forall|i: int| 0 <= i < skipped.len() ==> run.is_pending(#[trigger] skipped[i]),
        after.plan == run.plan,
        after.attempts == run.attempts,
        after.started_at == run.started_at,
        after.fail_fast_triggered == run.fail_fast_triggered,
        run.fail_fast_triggered || forall|i: int|
            0 <= i < skipped.len() ==> blocked(run.task(#[trigger] skipped[i]), run.states),
        run.fail_fast_triggered || reason == "Dependency failed"@,
        after.states == with_all(run.states, skipped, SwarmTaskStateView::Skipped(reason)),
    ensures
        after.tasks_inv(None),
{
    let state = SwarmTaskStateView::Skipped(reason);
    lemma_with_all(run.states, skipped, state);
    assert forall|id: Seq<char>| #[trigger] after.states.contains_key(id) <==>
        run.states.contains_key(id) by {
        if skipped.contains(id) {
            let i = choose|i: int| 0 <= i < skipped.len() && skipped[i] == id;
            assert(run.is_pending(skipped[i]));
        }
    }
    assert forall|x: Seq<char>| #[trigger] run.ids().contains(x) implies after.attempts_of(x)
        <= run.retries_of(x) + (if after.is_pending(x) {
        0int
    } else {
        1int
    }) by {
        assert(run.states.contains_key(x));
        assert(after.states.contains_key(x));
        assert(after.states[x] == if skipped.contains(x) {
            state
        } else {
            run.states[x]
        });
    }
    assert forall|x: Seq<char>| #[trigger] is_completed(run.states, x) implies is_completed(
        after.states,
        x,
    ) by {
        assert(after.states.contains_key(x));
        if skipped.contains(x) {
            let i = choose|i: int| 0 <= i < skipped.len() && skipped[i] == x;
            assert(run.is_pending(skipped[i]));
        }
    }
    assert forall|x: Seq<char>| #[trigger] after.is_running(x) implies run.is_running(x) by {
        assert(after.states.contains_key(x));
        assert(after.states[x] == if skipped.contains(x) {
            state
        } else {
            run.states[x]
        });
    }
    assert forall|x: Seq<char>| #[trigger] is_lost(run.states, x) implies is_lost(
        after.states,
        x,
    ) by {
        assert(after.states.contains_key(x));
        assert(after.states[x] == if skipped.contains(x) {
            state
        } else {
            run.states[x]
        });
    }
    assert forall|x: Seq<char>| #[trigger] after.was_tried(x) implies run.was_tried(x) by {
        assert(after.states.contains_key(x));
        assert(after.states[x] == if skipped.contains(x) {
            state
        } else {
            run.states[x]
        });
    }
    if !after.fail_fast_triggered {
        assert forall|x: Seq<char>| #[trigger] after.is_skipped(x) implies (run.is_skipped(x)
            && after.states[x] == run.states[x]) || (blocked(run.task(x), run.states)
            && after.states[x] == dependency_failed()) by {
            assert(after.states.contains_key(x));
            assert(after.states[x] == if skipped.contains(x) {
                state
            } else {
                run.states[x]
            });
            if skipped.contains(x) {
                let i = choose|i: int| 0 <= i < skipped.len() && skipped[i] == x;
                assert(blocked(run.task(skipped[i]), run.states));
            }
        }
    }
    lemma_narrowed(run, after, None, None);
}

/// Cancelling the running agents leaves the tasks sound and none of them running.
pub proof fn lemma_cancelled(run: RunView, replies: Seq<Result<SubAgentResultView, Seq<char>>>)
    requires
        run.tasks_inv(None),
    ensures
        run.cancelled(replies).tasks_inv(None),
        run.cancelled(replies).running_ids().len() == 0,
{
    let after = run.cancelled(replies);
    let stopped = run.running_ids();
    lemma_cancelled_states(run.states, stopped, replies);
    lemma_filter_members(run.ids(), run.running_test());
    assert forall|id: Seq<char>| stopped.contains(id) implies run.ids().contains(id)
        && run.is_running(id) by {
        let i = choose|i: int| 0 <= i < stopped.len() && stopped[i] == id;
        assert(run.running_test()(stopped[i]));
    }
    assert forall|id: Seq<char>| #[trigger] after.states.contains_key(id) <==>
        run.states.contains_key(id) by {
        if stopped.contains(id) {
            assert(run.ids().contains(id));
        }
    }
    assert forall|x: Seq<char>| #[trigger] run.ids().contains(x) implies after.attempts_of(x)
        <= run.retries_of(x) + (if after.is_pending(x) {
        0int
    } else {
        1int
    }) by {
        assert(run.states.contains_key(x));
        assert(after.states[x] == after.states[x]);
    }
    assert forall|x: Seq<char>| #[trigger] after.is_running(x) implies run.is_running(x)
        && false by {
        assert(run.states.contains_key(x));
        if run.running_test()(x) {
            assert(stopped.contains(x));
        }
        assert(after.states[x] == after.states[x]);
    }
    assert forall|x: Seq<char>| #[trigger] is_lost(run.states, x) implies is_lost(
        after.states,
        x,
    ) by {
        assert(!stopped.contains(x));
        assert(after.states[x] == run.states[x]);
    }
    assert forall|x: Seq<char>| #[trigger] after.was_tried(x) implies run.was_tried(x) by {
        assert(run.states.contains_key(x));
        if !stopped.contains(x) {
            assert(after.states[x] == run.states[x]);
        }
    }
    assert forall|x: Seq<char>| #[trigger] after.is_skipped(x) implies run.is_skipped(x)
        && after.states[x] == run.states[x] by {
        assert(run.states.contains_key(x));
        if !stopped.contains(x) {
            assert(after.states[x] == run.states[x]);
        } else {
            assert(after.states[x] is Done || after.states[x] is Failed);
        }
    }
    lemma_narrowed(run, after, None, None);
    lemma_filter_members(after.ids(), after.running_test());
    if after.running_ids().len() > 0 {
        assert(after.running_test()(after.running_ids()[0]));
    }
}

proof fn lemma_stopped(
    run: RunView,
    replies: Seq<Result<SubAgentResultView, Seq<char>>>,
    now_ms: u64,
)
    requires
        run.tasks_inv(None),
        run.fail_fast_triggered,
    ensures
        run.stopped(replies, now_ms).0.inv(),
{
    lemma_cancelled(run, replies);
    let mid = run.cancelled(replies);
    lemma_filter_members(mid.ids(), mid.pending_test());
    assert forall|i: int| 0 <= i < mid.pending_ids().len() implies mid.is_pending(
        #[trigger] mid.pending_ids()[i],
    ) by {
        assert(mid.pending_test()(mid.pending_ids()[i]));
    }
    let after = mid.abandoned();
    lemma_skipped(mid, mid.pending_ids(), "Skipped due to fail_fast"@, after);
    lemma_same_tasks(after, after.in_phase(RunPhaseView::Closing), None);
    lemma_same_tasks(after, after.in_phase(RunPhaseView::Finished), None);
}

proof fn lemma_stop(run: RunView, now_ms: u64)
    requires
        run.tasks_inv(None),
        run.fail_fast_triggered,
        ends_are_final(run.states),
    ensures
        run.stop(now_ms).0.inv(),
{
    lemma_same_tasks(run, run.in_phase(RunPhaseView::Stopping), None);
    lemma_stopped(run, seq![], now_ms);
}

proof fn lemma_after_launch(run: RunView, now_ms: u64)
    requires
        run.tasks_inv(None),
        ends_are_final(run.states),
    ensures
        run.after_launch(now_ms).0.inv(),
{
    if run.fail_fast_triggered {
        lemma_stop(run, now_ms);
    }
    lemma_same_tasks(run, run.in_phase(RunPhaseView::Finished), None);
    lemma_same_tasks(run, run.in_phase(RunPhaseView::Reporting), None);
    lemma_same_tasks(run, run.in_phase(RunPhaseView::Idle), None);
    let late = RunView { timed_out: true, ..run };
    lemma_same_tasks(run, late.in_phase(RunPhaseView::Expiring), None);
    lemma_same_tasks(run, late.in_phase(RunPhaseView::Finished), None);
}

proof fn lemma_after_observation(run: RunView, now_ms: u64)
    requires
        run.tasks_inv(None),
        ends_are_final(run.states),
    ensures
        run.after_observation(now_ms).0.inv(),
{
    if run.fail_fast_triggered {
        lemma_stop(run, now_ms);
    }
    let after = run.without_blocked();
    lemma_filter_members(run.ids(), run.blocked_test());
    assert forall|i: int| 0 <= i < run.blocked_ids().len() implies run.is_pending(
        #[trigger] run.blocked_ids()[i],
    ) && blocked(run.task(run.blocked_ids()[i]), run.states) by {
        assert(run.blocked_test()(run.blocked_ids()[i]));
    }
    lemma_skipped(run, run.blocked_ids(), "Dependency failed"@, after);
    lemma_with_all(
        run.states,
        run.blocked_ids(),
        SwarmTaskStateView::Skipped("Dependency failed"@),
    );
    assert forall|id: Seq<char>| #[trigger]
        after.states.contains_key(id) && after.states[id] is Done implies
        after.states[id]->Done_0.status !is Running by {
        assert(run.states.contains_key(id) || run.blocked_ids().contains(id));
    }
    lemma_after_launch(after, now_ms);
    let ready = after.ready_ids(now_ms);
    lemma_filter_members(after.ids(), after.ready_test(now_ms));
    let waiting = after.in_phase(RunPhaseView::Counting { ready });
    lemma_same_tasks(after, waiting, None);
    assert forall|i: int| 0 <= i < ready.len() implies waiting.is_pending(#[trigger] ready[i])
        && satisfied(waiting.task(ready[i]), waiting.states) by {
        assert(after.ready_test(now_ms)(ready[i]));
        assert(waiting.task(ready[i]) == after.task(ready[i]));
    }
}

/// Starting what can start leaves the run sound.
proof fn lemma_launch(run: RunView, queue: Seq<Seq<char>>, now_ms: u64)
    requires
        run.tasks_inv(None),
        ends_are_final(run.states),
        run.can_start(queue),
        queue.len() > 0 ==> run.running_ids().len() + queue.len() <= run.plan.max_parallel,
    ensures
        run.launch(queue, now_ms).0.inv(),
{
    lemma_after_launch(run, now_ms);
    if queue.len() > 0 {
        let id = queue[0];
        let after = run.begun(id);
        assert(run.is_pending(id));
        assert forall|x: Seq<char>| #[trigger] run.ids().contains(x) implies after.attempts_of(x)
            <= run.retries_of(x) + (if after.is_pending(x) && Some(id) != Some(x) {
            0int
        } else {
            1int
        }) by {
            assert(after.is_pending(x) == run.is_pending(x));
        }
        assert forall|x: Seq<char>| #[trigger] after.was_tried(x) implies run.was_tried(x) by {}
        assert forall|x: Seq<char>| #[trigger] after.is_skipped(x) implies run.is_skipped(x) by {}
        lemma_narrowed(run, after, None, Some(id));
        let waiting = after.in_phase(RunPhaseView::Spawning { queue });
        lemma_same_tasks(after, waiting, Some(id));
        assert(after.running_test() =~= run.running_test());
        assert forall|i: int| 0 <= i < queue.len() implies waiting.is_pending(#[trigger] queue[i])
            && satisfied(waiting.task(queue[i]), waiting.states) by {
            assert(waiting.task(queue[i]) == run.task(queue[i]));
        }
        lemma_same_tasks(after, after.in_phase(RunPhaseView::Finished), Some(id));
    }
}

/// Every event that a sound run waits for leaves it sound.
pub proof fn every_step_keeps_the_run_sound(run: RunView, event: SwarmEventView, now_ms: u64)
    requires
        run.inv(),
        run.accepts(event),
    ensures
        run.step(event, now_ms).0.inv(),
{
    match (run.phase, event) {
        (RunPhaseView::Idle, SwarmEventView::Resumed) => {
            let after = RunView { changed: false, ..run };
            lemma_same_tasks(run, after, None);
            lemma_same_tasks(run, after.in_phase(RunPhaseView::Listing), None);
            lemma_after_observation(after, now_ms);
        },
        (RunPhaseView::Listing, SwarmEventView::Agents(snapshots)) => {
            let after = run.observed(run.ids().len(), snapshots, now_ms);
            lemma_observed(run, run.ids().len(), snapshots, now_ms);
            lemma_same_tasks(after, after.in_phase(RunPhaseView::Dropping), None);
            lemma_after_observation(after, now_ms);
        },
        (RunPhaseView::Dropping, SwarmEventView::Cancelled(_)) => {
            lemma_after_observation(run, now_ms);
        },
        (RunPhaseView::Counting { ready }, SwarmEventView::Slots(free)) => {
            let n: int = if run.slots(free) < ready.len() {
                run.slots(free)
            } else {
                ready.len() as int
            };
            let queue = ready.take(n);
            assert forall|i: int| 0 <= i < queue.len() implies run.is_pending(#[trigger] queue[i])
                && satisfied(run.task(queue[i]), run.states) by {
                assert(queue[i] == ready[i]);
            }
            lemma_launch(run, queue, now_ms);
        },
        (RunPhaseView::Spawning { queue }, SwarmEventView::Spawned(agent_id)) => {
            lemma_spawned(run, queue, agent_id, now_ms);
        },
        (RunPhaseView::Spawning { queue }, SwarmEventView::SpawnFailed(message)) => {
            lemma_refused(run, queue, message, now_ms);
        },
        (RunPhaseView::Stopping, SwarmEventView::Cancelled(replies)) => {
            lemma_stopped(run, replies, now_ms);
        },
        (RunPhaseView::Expiring, SwarmEventView::Cancelled(replies)) => {
            lemma_cancelled(run, replies);
            let after = run.cancelled(replies);
            lemma_same_tasks(after, after.in_phase(RunPhaseView::Finished), None);
        },
        (RunPhaseView::Reporting, SwarmEventView::Resumed) => {
            lemma_same_tasks(run, run.in_phase(RunPhaseView::Idle), None);
        },
        (RunPhaseView::Closing, SwarmEventView::Resumed) => {
            lemma_same_tasks(run, run.in_phase(RunPhaseView::Finished), None);
        },
        _ => {},
    }
}

/// What can start goes on to be so when a task that had not completed changes its state.
proof fn lemma_others_can_start(before: RunView, after: RunView, queue: Seq<Seq<char>>)
    requires
        before.can_start(queue),
        queue.len() > 0,
        after.plan == before.plan,
        forall|id: Seq<char>|
            id != queue[0] && before.states.contains_key(id) ==> after.states.contains_key(id)
                && #[trigger] after.states[id] == before.states[id],
    ensures
        after.can_start(queue.drop_first()),
{
    let rest = queue.drop_first();
    assert(before.is_pending(queue[0]));
    assert forall|i: int| 0 <= i < rest.len() implies after.is_pending(#[trigger] rest[i])
        && satisfied(after.task(rest[i]), after.states) by {
        assert(rest[i] == queue[i + 1]);
        assert(queue[0] != queue[i + 1]);
        assert(before.is_pending(queue[i + 1]));
        assert(after.states[rest[i]] == before.states[rest[i]]);
        assert(after.task(rest[i]) == before.task(rest[i]));
        assert forall|dep: Seq<char>| #[trigger] after.task(rest[i]).depends_on.contains(
            dep,
        ) implies is_completed(after.states, dep) by {
            assert(is_completed(before.states, dep));
            assert(after.states[dep] == before.states[dep]);
        }
    }
}

proof fn lemma_spawned(run: RunView, queue: Seq<Seq<char>>, agent_id: Seq<char>, now_ms: u64)
    requires
        run.inv(),
        run.phase == (RunPhaseView::Spawning { queue }),
    ensures
        run.spawned(queue[0], agent_id, now_ms).launch(queue.drop_first(), now_ms).0.inv(),
{
    let id = queue[0];
    let after = run.spawned(id, agent_id, now_ms);
    assert(run.is_pending(id));
    let ids = run.ids();
    assert(ids.contains(id)) by {
        assert(run.states.contains_key(id));
    }
    assert forall|x: Seq<char>| #[trigger] ids.contains(x) && after.running_test()(x) implies
        run.running_test()(x) || x == id by {}
    lemma_filter_grows_by_one(ids, after.running_test(), run.running_test(), id);
    assert(after.tasks_inv(None)) by {
        assert forall|x: Seq<char>| #[trigger] after.states.contains_key(x) <==>
            after.ids().contains(x) by {
            assert(run.states.contains_key(x) <==> ids.contains(x));
        }
        assert forall|x: Seq<char>| #[trigger] after.ids().contains(x) implies after.attempts_of(x)
            <= after.retries_of(x) + (if after.is_pending(x) {
            0int
        } else {
            1int
        }) by {
            assert(ids.contains(x));
            assert(after.attempts_of(x) == run.attempts_of(x));
            if x != id {
                assert(after.is_pending(x) == run.is_pending(x));
            }
        }
        if !after.fail_fast_triggered {
            assert forall|x: Seq<char>| #[trigger] after.is_skipped(x) implies blocked(
                after.task(x),
                after.states,
            ) && after.states[x] == dependency_failed() by {
                assert(run.is_skipped(x));
                assert(after.task(x) == run.task(x));
                let dep = choose|dep: Seq<char>| #[trigger]
                    run.task(x).depends_on.contains(dep) && is_lost(run.states, dep);
                assert(is_lost(after.states, dep));
            }
        }
        assert forall|x: Seq<char>| #[trigger] after.was_tried(x) implies satisfied(
            after.task(x),
            after.states,
        ) by {
            if x == id {
                assert(run.is_pending(queue[0]));
                assert(satisfied(run.task(id), run.states));
            } else {
                assert(run.was_tried(x));
            }
            assert(after.task(x) == run.task(x));
            assert forall|dep: Seq<char>| #[trigger] after.task(x).depends_on.contains(
                dep,
            ) implies is_completed(after.states, dep) by {
                assert(is_completed(run.states, dep));
            }
        }
    }
    lemma_others_can_start(run, after, queue);
    lemma_launch(after, queue.drop_first(), now_ms);
}

proof fn lemma_refused(run: RunView, queue: Seq<Seq<char>>, message: Seq<char>, now_ms: u64)
    requires
        run.inv(),
        run.phase == (RunPhaseView::Spawning { queue }),
    ensures
        run.refused(queue, message, now_ms).0.inv(),
{
    let id = queue[0];
    assert(run.is_pending(id));
    let back = run.taken_back(id);
    assert forall|x: Seq<char>| #[trigger] run.ids().contains(x) implies back.attempts_of(x)
        <= run.retries_of(x) + (if back.is_pending(x) {
        0int
    } else {
        1int
    }) by {
        assert(back.is_pending(x) == run.is_pending(x));
    }
    assert forall|x: Seq<char>| #[trigger] back.was_tried(x) implies run.was_tried(x) by {}
    assert forall|x: Seq<char>| #[trigger] back.is_skipped(x) implies run.is_skipped(x) by {}
    lemma_narrowed(run, back, Some(id), None);
    lemma_after_launch(back, now_ms);
    let state = SwarmTaskStateView::Failed(message);
    let after = run.lost(id, state, now_ms);
    lemma_lost(run, id, state, now_ms, Some(id));
    lemma_others_can_start(run, after, queue);
    lemma_launch(after, queue.drop_first(), now_ms);
}

} // verus!
