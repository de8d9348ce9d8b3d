//! The execution of a swarm. A [`SwarmRun`] decides, after each event, what is to be done next; it
//! starts no agent and reads no clock itself.

use crate::swarm::model;
use crate::swarm::model::{
    RunPhaseView, RunPlanView, RunView, SpawnRequestView, SwarmActionView, SwarmEventView,
};
use crate::swarm::outcome;
use crate::swarm::outcome::TaskStates;
use crate::swarm::task;
use crate::swarm::types;
use crate::swarm::types::{
    SubAgentResult, SubAgentResultView, SubAgentType, SwarmOutcome, SwarmStatus, SwarmTaskSpec,
    SwarmTaskState, SwarmTaskStateView, ToolError, MAX_TASK_RETRY_DELAY_MS, SWARM_POLL_INTERVAL_MS,
};
use crate::text;
use vstd::hash_map::StringHashMap;
use vstd::prelude::*;
use vstd::string::*;

verus! {

/// Whether every task that `task` depends on completed.
pub fn dependencies_satisfied(task: &SwarmTaskSpec, states: &TaskStates) -> (r: bool)
    ensures
        r == model::satisfied(task@, outcome::states_view(states@)),
{
    let ghost known = outcome::states_view(states@);
    let mut i: usize = 0;
    while i < task.depends_on.len()
        invariant
            i <= task.depends_on@.len(),
            known == outcome::states_view(states@),
            forall|j: int|
                0 <= j < i ==> model::is_completed(known, #[trigger] task@.depends_on[j]),
        decreases task.depends_on@.len() - i,
    {
        let completed: bool = match states.get(task.depends_on[i].as_str()) {
            Some(SwarmTaskState::Done(result)) => result.status.is_completed(),
            _ => false,
        };
        assert(task@.depends_on[i as int] == task.depends_on@[i as int]@);
        assert(completed == model::is_completed(known, task@.depends_on[i as int]));
        if !completed {
            assert(task@.depends_on.contains(task@.depends_on[i as int]));
            return false;
        }
        i += 1;
    }
    true
}

/// Whether some task that `task` depends on ended without success.
pub fn dependencies_failed(task: &SwarmTaskSpec, states: &TaskStates) -> (r: bool)
    ensures
        r == model::blocked(task@, outcome::states_view(states@)),
{
    let ghost known = outcome::states_view(states@);
    let mut i: usize = 0;
    while i < task.depends_on.len()
        invariant
            i <= task.depends_on@.len(),
            known == outcome::states_view(states@),
            forall|j: int| 0 <= j < i ==> !model::is_lost(known, #[trigger] task@.depends_on[j]),
        decreases task.depends_on@.len() - i,
    {
        let lost: bool = match states.get(task.depends_on[i].as_str()) {
            Some(SwarmTaskState::Done(result)) => result.status.is_unsuccessful(),
            Some(SwarmTaskState::Failed(_)) => true,
            Some(SwarmTaskState::Skipped(_)) => true,
            _ => false,
        };
        assert(task@.depends_on[i as int] == task.depends_on@[i as int]@);
        assert(lost == model::is_lost(known, task@.depends_on[i as int]));
        if lost {
            assert(task@.depends_on.contains(task@.depends_on[i as int]));
            return true;
        }
        i += 1;
    }
    false
}

/// What a run is asked to do.
#[derive(Debug)]
pub struct RunPlan {
    pub swarm_id: String,
    pub tasks: Vec<SwarmTaskSpec>,
    pub shared_context: Option<String>,
    pub timeout_ms: u64,
    pub max_parallel: usize,
    pub fail_fast: bool,
    pub publish_progress: bool,
}

impl View for RunPlan {
    type V = RunPlanView;

    open spec fn view(&self) -> RunPlanView {
        RunPlanView {
            swarm_id: self.swarm_id@,
            tasks: types::task_views(self.tasks@),
            shared_context: types::optional_text(self.shared_context),
            timeout_ms: self.timeout_ms,
            max_parallel: self.max_parallel,
            fail_fast: self.fail_fast,
            publish_progress: self.publish_progress,
        }
    }
}

/// What happened outside a run.
#[derive(Debug)]
pub enum SwarmEvent {
    /// The run may go on.
    Resumed,
    /// What is known of the agents.
    Agents(Vec<SubAgentResult>),
    /// What cancelling each of the agents gave, in the order in which they were named.
    Cancelled(Vec<Result<SubAgentResult, String>>),
    /// How many more agents may be started.
    Slots(usize),
    /// An agent with this id was started.
    Spawned(String),
    /// No agent could be started, for this reason.
    SpawnFailed(String),
}

/// The values of a list of snapshots.
pub open spec fn snapshot_views(snapshots: Seq<SubAgentResult>) -> Seq<SubAgentResultView> {
    snapshots.map_values(|snapshot: SubAgentResult| snapshot@)
}

/// The value of a reply to a cancellation.
pub open spec fn reply_view(reply: Result<SubAgentResult, String>) -> Result<
    SubAgentResultView,
    Seq<char>,
> {
    match reply {
        Ok(snapshot) => Ok(snapshot@),
        Err(message) => Err(message@),
    }
}

/// The values of a list of replies to cancellations.
pub open spec fn reply_views(replies: Seq<Result<SubAgentResult, String>>) -> Seq<
    Result<SubAgentResultView, Seq<char>>,
> {
    replies.map_values(|reply: Result<SubAgentResult, String>| reply_view(reply))
}

impl View for SwarmEvent {
    type V = SwarmEventView;

    open spec fn view(&self) -> SwarmEventView {
        match self {
            SwarmEvent::Resumed => SwarmEventView::Resumed,
            SwarmEvent::Agents(snapshots) => SwarmEventView::Agents(snapshot_views(snapshots@)),
            SwarmEvent::Cancelled(replies) => SwarmEventView::Cancelled(reply_views(replies@)),
            SwarmEvent::Slots(free) => SwarmEventView::Slots(*free),
            SwarmEvent::Spawned(agent_id) => SwarmEventView::Spawned(agent_id@),
            SwarmEvent::SpawnFailed(message) => SwarmEventView::SpawnFailed(message@),
        }
    }
}

/// The agent that a run asks for.
#[derive(Debug)]
pub struct SpawnRequest {
    pub task_id: String,
    pub agent_type: SubAgentType,
    pub role: Option<String>,
    pub objective: String,
    pub prompt: String,
    pub allowed_tools: Option<Vec<String>>,
}

impl View for SpawnRequest {
    type V = SpawnRequestView;

    open spec fn view(&self) -> SpawnRequestView {
        SpawnRequestView {
            task_id: self.task_id@,
            agent_type: self.agent_type,
            role: types::optional_text(self.role),
            objective: self.objective@,
            prompt: self.prompt@,
            allowed_tools: match self.allowed_tools {
                Some(tools) => Some(text::texts(tools@)),
                None => None,
            },
        }
    }
}

/// What a run asks for.
#[derive(Debug)]
pub enum SwarmAction {
    /// List all agents, and answer with [`SwarmEvent::Agents`].
    ListAgents,
    /// Cancel these agents, and answer with [`SwarmEvent::Cancelled`].
    CancelAgents(Vec<String>),
    /// Count the free agent slots, and answer with [`SwarmEvent::Slots`].
    CountSlots,
    /// Start an agent, and answer with [`SwarmEvent::Spawned`] or [`SwarmEvent::SpawnFailed`].
    Spawn(SpawnRequest),
    /// Store and announce a report, and answer with [`SwarmEvent::Resumed`].
    Publish(SwarmOutcome),
    /// Wait this many milliseconds, and answer with [`SwarmEvent::Resumed`].
    Pause(u64),
    /// The run ended with this report.
    Finish(SwarmOutcome),
    /// The run could not go on.
    Abort(ToolError),
}

impl View for SwarmAction {
    type V = SwarmActionView;

    open spec fn view(&self) -> SwarmActionView {
        match self {
            SwarmAction::ListAgents => SwarmActionView::ListAgents,
            SwarmAction::CancelAgents(agents) => SwarmActionView::CancelAgents(
                text::texts(agents@),
            ),
            SwarmAction::CountSlots => SwarmActionView::CountSlots,
            SwarmAction::Spawn(request) => SwarmActionView::Spawn(request@),
            SwarmAction::Publish(report) => SwarmActionView::Publish(report@),
            SwarmAction::Pause(wait_ms) => SwarmActionView::Pause(*wait_ms),
            SwarmAction::Finish(report) => SwarmActionView::Finish(report@),
            SwarmAction::Abort(error) => SwarmActionView::Abort(error@),
        }
    }
}

/// What a run is waiting for. The tasks in `ready` and `queue` are given by their positions.
enum RunPhase {
    Idle,
    Listing,
    Dropping,
    Counting { ready: Vec<usize> },
    Spawning { queue: Vec<usize>, next: usize },
    Stopping,
    Expiring,
    Reporting,
    Closing,
    Finished,
}

/// The ids of the tasks at some positions.
spec fn ids_at(ids: Seq<Seq<char>>, positions: Seq<usize>) -> Seq<Seq<char>> {
    positions.map_values(|i: usize| ids[i as int])
}

/// All positions are those of a list of `len` tasks.
spec fn in_range(positions: Seq<usize>, len: nat) -> bool {
    forall|k: int| 0 <= k < positions.len() ==> (#[trigger] positions[k]) < len
}

impl RunPhase {
    spec fn view_with(self, ids: Seq<Seq<char>>) -> RunPhaseView {
        match self {
            RunPhase::Idle => RunPhaseView::Idle,
            RunPhase::Listing => RunPhaseView::Listing,
            RunPhase::Dropping => RunPhaseView::Dropping,
            RunPhase::Counting { ready } => RunPhaseView::Counting { ready: ids_at(ids, ready@) },
            RunPhase::Spawning { queue, next } => RunPhaseView::Spawning {
                queue: ids_at(ids, queue@).skip(next as int),
            },
            RunPhase::Stopping => RunPhaseView::Stopping,
            RunPhase::Expiring => RunPhaseView::Expiring,
            RunPhase::Reporting => RunPhaseView::Reporting,
            RunPhase::Closing => RunPhaseView::Closing,
            RunPhase::Finished => RunPhaseView::Finished,
        }
    }

    spec fn fits(self, len: nat) -> bool {
        match self {
            RunPhase::Counting { ready } => in_range(ready@, len),
            RunPhase::Spawning { queue, next } => in_range(queue@, len) && next <= queue@.len(),
            _ => true,
        }
    }
}

/// The classes that a pass sorts the tasks into.
#[derive(Clone, Copy)]
enum TaskClass {
    Pending,
    Running,
    Overdue,
    Blocked,
    Ready,
}

impl TaskClass {
    spec fn test(self, run: RunView, now_ms: u64) -> spec_fn(Seq<char>) -> bool {
        match self {
            TaskClass::Pending => run.pending_test(),
            TaskClass::Running => run.running_test(),
            TaskClass::Overdue => run.overdue_test(now_ms),
            TaskClass::Blocked => run.blocked_test(),
            TaskClass::Ready => run.ready_test(now_ms),
        }
    }
}

/// A run of a swarm.
pub struct SwarmRun {
    plan: RunPlan,
    /// The ids of the tasks, in order.
    order: Vec<String>,
    states: TaskStates,
    /// When the agent of each running task was started.
    started_at: StringHashMap<u64>,
    /// How often each task was started.
    attempts: StringHashMap<u32>,
    /// When each task that waits for a retry may start.
    retry_ready_at: StringHashMap<u64>,
    fail_fast_triggered: bool,
    timed_out: bool,
    changed: bool,
    phase: RunPhase,
}

impl View for SwarmRun {
    type V = RunView;

    closed spec fn view(&self) -> RunView {
        RunView {
            plan: self.plan@,
            states: outcome::states_view(self.states@),
            started_at: self.started_at@,
            attempts: self.attempts@,
            retry_ready_at: self.retry_ready_at@,
            fail_fast_triggered: self.fail_fast_triggered,
            timed_out: self.timed_out,
            changed: self.changed,
            phase: self.phase.view_with(types::task_ids(self.plan@.tasks)),
        }
    }
}

impl SwarmRun {
    /// The tables agree with the plan.
    spec fn consistent(self) -> bool {
        &&& self@.ids().no_duplicates()
        &&& text::texts(self.order@) == self@.ids()
        &&& self.order@.len() == self.plan.tasks@.len()
        &&& forall|id: Seq<char>| #[trigger]
            self@.states.contains_key(id) <==> self@.ids().contains(id)
    }

    /// The invariant of a run.
    pub closed spec fn wf(self) -> bool {
        &&& self.consistent()
        &&& self.phase.fits(self.plan.tasks@.len())
        &&& self@.inv()
    }

    /// The id at a position is that of the task there.
    proof fn lemma_position(self, i: int)
        requires
            self.consistent(),
            0 <= i < self.plan.tasks@.len(),
        ensures
            self@.ids().len() == self.plan.tasks@.len(),
            self@.ids()[i] == self.order@[i]@,
            self@.ids()[i] == self.plan.tasks@[i]@.id,
            self@.ids().contains(self@.ids()[i]),
            self@.states.contains_key(self@.ids()[i]),
            self@.task(self@.ids()[i]) == self.plan.tasks@[i]@,
    {
        let ids = self@.ids();
        assert(text::texts(self.order@)[i] == self.order@[i]@);
        assert(ids.contains(ids[i]));
        let k = ids.index_of(ids[i]);
        assert(0 <= k < ids.len() && ids[k] == ids[i]);
        assert(k == i);
    }

    /// Gives the task at a position a new state.
    fn set_state(&mut self, i: usize, state: SwarmTaskState)
        requires
            old(self).consistent(),
            i < old(self).plan.tasks@.len(),
        ensures
            final(self).consistent(),
            final(self)@ == (RunView {
                states: old(self)@.states.insert(old(self)@.ids()[i as int], state@),
                ..old(self)@
            }),
    {
        proof {
            self.lemma_position(i as int);
        }
        let ghost value = state@;
        self.states.insert(self.order[i].clone(), state);
        assert(self@.states =~= old(self)@.states.insert(old(self)@.ids()[i as int], value));
        assert(self@.ids() == old(self)@.ids());
    }

    /// Puts the task at a position back to wait for its next attempt, if it has one left.
    fn schedule_retry_if_possible(&mut self, i: usize, now_ms: u64) -> (scheduled: bool)
        requires
            old(self).consistent(),
            i < old(self).plan.tasks@.len(),
            now_ms <= u64::MAX - MAX_TASK_RETRY_DELAY_MS,
        ensures
            final(self).consistent(),
            scheduled == old(self)@.can_retry(old(self)@.ids()[i as int]),
            scheduled ==> final(self)@ == old(self)@.retried(old(self)@.ids()[i as int], now_ms),
            !scheduled ==> *final(self) == *old(self),
    {
        proof {
            self.lemma_position(i as int);
        }
        let ghost id = self@.ids()[i as int];
        if self.plan.fail_fast {
            return false;
        }
        let attempts: u32 = self.attempts_at(i);
        if attempts == 0 || attempts > task::task_retry_count(&self.plan.tasks[i]) {
            return false;
        }
        let delay: u64 = task::retry_delay_for_attempt(&self.plan.tasks[i], attempts);
        proof {
            task::retry_delay_is_bounded_and_monotone(
                self@.task(id),
                attempts as nat,
                attempts as nat,
            );
        }
        self.set_state(i, SwarmTaskState::Pending);
        let key: String = self.order[i].clone();
        proof {
            self.lemma_position(i as int);
        }
        self.started_at.remove(key.as_str());
        self.retry_ready_at.insert(key, now_ms + delay);
        self.changed = true;
        assert(self@ =~= old(self)@.retried(id, now_ms));
        true
    }

    /// How often the task at a position was started.
    fn attempts_at(&self, i: usize) -> (r: u32)
        requires
            self.consistent(),
            i < self.plan.tasks@.len(),
        ensures
            r == self@.attempts_of(self@.ids()[i as int]),
    {
        proof {
            self.lemma_position(i as int);
        }
        match self.attempts.get(self.order[i].as_str()) {
            Some(count) => *count,
            None => 0,
        }
    }

    /// Ends the task at a position.
    fn conclude(&mut self, i: usize, state: SwarmTaskState, lost: bool)
        requires
            old(self).consistent(),
            i < old(self).plan.tasks@.len(),
        ensures
            final(self).consistent(),
            final(self)@ == old(self)@.concluded(old(self)@.ids()[i as int], state@, lost),
    {
        let ghost value = state@;
        self.set_state(i, state);
        proof {
            self.lemma_position(i as int);
        }
        self.started_at.remove(self.order[i].as_str());
        self.retry_ready_at.remove(self.order[i].as_str());
        if self.plan.fail_fast && lost {
            self.fail_fast_triggered = true;
        }
        self.changed = true;
        assert(self@ =~= old(self)@.concluded(old(self)@.ids()[i as int], value, lost));
    }

    /// Tries the task at a position again, or ends it.
    fn lose(&mut self, i: usize, state: SwarmTaskState, now_ms: u64)
        requires
            old(self).consistent(),
            i < old(self).plan.tasks@.len(),
            now_ms <= u64::MAX - MAX_TASK_RETRY_DELAY_MS,
        ensures
            final(self).consistent(),
            final(self)@ == old(self)@.lost(old(self)@.ids()[i as int], state@, now_ms),
    {
        if !self.schedule_retry_if_possible(i, now_ms) {
            self.conclude(i, state, true);
        }
    }

    /// The agent that works on the task at a position.
    fn agent_at(&self, i: usize) -> (r: Option<String>)
        requires
            self.consistent(),
            i < self.plan.tasks@.len(),
        ensures
            r is Some == self@.is_running(self@.ids()[i as int]),
            r matches Some(agent) ==> agent@ == self@.states[self@.ids()[i as int]]->agent_id,
    {
        proof {
            self.lemma_position(i as int);
        }
        match self.states.get(self.order[i].as_str()) {
            Some(SwarmTaskState::Running { agent_id }) => Some(agent_id.clone()),
            _ => None,
        }
    }

    /// The time limit of the task at a position, if its agent has had that time.
    fn exceeded_limit(&self, i: usize, now_ms: u64) -> (r: Option<u64>)
        requires
            self.consistent(),
            i < self.plan.tasks@.len(),
            self@.is_running(self@.ids()[i as int]),
        ensures
            r is Some == self@.is_overdue(self@.ids()[i as int], now_ms),
            r matches Some(limit) ==> task::time_limit(self@.task(self@.ids()[i as int])) == Some(
                limit,
            ),
    {
        proof {
            self.lemma_position(i as int);
        }
        match task::task_timeout(&self.plan.tasks[i]) {
            Some(limit) => {
                let started: u64 = match self.started_at.get(self.order[i].as_str()) {
                    Some(at) => *at,
                    None => 0,
                };
                if now_ms >= started && now_ms - started >= limit {
                    Some(limit)
                } else {
                    None
                }
            },
            None => None,
        }
    }

    /// Holds the task at a position, on which `agent` works, against the snapshots of the agents.
    fn observe_one(&mut self, i: usize, agent: &str, snapshots: &[SubAgentResult], now_ms: u64)
        requires
            old(self).consistent(),
            i < old(self).plan.tasks@.len(),
            now_ms <= u64::MAX - MAX_TASK_RETRY_DELAY_MS,
            old(self)@.is_running(old(self)@.ids()[i as int]),
            agent@ == old(self)@.states[old(self)@.ids()[i as int]]->agent_id,
        ensures
            final(self).consistent(),
            final(self)@ == old(self)@.observed_one(
                old(self)@.ids()[i as int],
                snapshot_views(snapshots@),
                now_ms,
            ),
    {
        if let Some(limit) = self.exceeded_limit(i, now_ms) {
            let mut message: String = "Timed out after ".to_string();
            message.append(text::decimal(limit).as_str());
            message.append("ms");
            self.lose(i, SwarmTaskState::Failed(message), now_ms);
            return;
        }
        match latest_of(snapshots, agent) {
            Some(snapshot) => {
                if snapshot.status.is_running() {
                    return;
                }
                let lost: bool = snapshot.status.is_unsuccessful();
                let state: SwarmTaskState = SwarmTaskState::Done(snapshot.clone());
                if lost {
                    self.lose(i, state, now_ms);
                } else {
                    self.conclude(i, state, false);
                }
            },
            None => {
                self.lose(i, SwarmTaskState::Failed("Agent result not found".to_string()), now_ms);
            },
        }
    }

    /// Holds the running tasks against the snapshots of the agents.
    fn observe(&mut self, snapshots: &[SubAgentResult], now_ms: u64)
        requires
            old(self).consistent(),
            now_ms <= u64::MAX - MAX_TASK_RETRY_DELAY_MS,
        ensures
            final(self).consistent(),
            final(self)@ == old(self)@.observed(
                old(self)@.ids().len(),
                snapshot_views(snapshots@),
                now_ms,
            ),
    {
        let ghost before = self@;
        let ghost views = snapshot_views(snapshots@);
        let len: usize = self.plan.tasks.len();
        let mut i: usize = 0;
        while i < len
            invariant
                i <= len,
                len == before.ids().len(),
                before.plan == self@.plan,
                views == snapshot_views(snapshots@),
                now_ms <= u64::MAX - MAX_TASK_RETRY_DELAY_MS,
                self.consistent(),
                self@ == before.observed(i as nat, views, now_ms),
            decreases len - i,
        {
            if let Some(agent) = self.agent_at(i) {
                self.observe_one(i, agent.as_str(), snapshots, now_ms);
            }
            i += 1;
        }
    }

    /// Whether the task at a position is in a class.
    fn is_in(&self, i: usize, class: TaskClass, now_ms: u64) -> (r: bool)
        requires
            self.consistent(),
            i < self.plan.tasks@.len(),
        ensures
            r == class.test(self@, now_ms)(self@.ids()[i as int]),
    {
        proof {
            self.lemma_position(i as int);
        }
        let id: &str = self.order[i].as_str();
        let pending: bool = match self.states.get(id) {
            Some(SwarmTaskState::Pending) => true,
            _ => false,
        };
        let running: bool = match self.states.get(id) {
            Some(SwarmTaskState::Running { .. }) => true,
            _ => false,
        };
        match class {
            TaskClass::Pending => pending,
            TaskClass::Running => running,
            TaskClass::Overdue => running && self.exceeded_limit(i, now_ms).is_some(),
            TaskClass::Blocked => pending && dependencies_failed(
                &self.plan.tasks[i],
                &self.states,
            ),
            TaskClass::Ready => pending && dependencies_satisfied(
                &self.plan.tasks[i],
                &self.states,
            ) && match self.retry_ready_at.get(id) {
                Some(ready_at) => now_ms >= *ready_at,
                None => true,
            },
        }
    }

    /// The positions of the tasks in a class, in order.
    fn select(&self, class: TaskClass, now_ms: u64) -> (r: Vec<usize>)
        requires
            self.consistent(),
        ensures
            in_range(r@, self.plan.tasks@.len()),
            ids_at(self@.ids(), r@) == self@.ids().filter(class.test(self@, now_ms)),
            r@.len() <= self.plan.tasks@.len(),
    {
        let ghost ids = self@.ids();
        let ghost test = class.test(self@, now_ms);
        let mut out: Vec<usize> = Vec::new();
        let mut i: usize = 0;
        assert(ids.take(0).filter(test) =~= Seq::<Seq<char>>::empty()) by {
            reveal(Seq::filter);
        }
        while i < self.plan.tasks.len()
            invariant
                i <= self.plan.tasks@.len(),
                ids.len() == self.plan.tasks@.len(),
                ids == self@.ids(),
                test == class.test(self@, now_ms),
                self.consistent(),
                in_range(out@, self.plan.tasks@.len()),
                out@.len() <= i,
                ids_at(ids, out@) == ids.take(i as int).filter(test),
            decreases self.plan.tasks@.len() - i,
        {
            let chosen: bool = self.is_in(i, class, now_ms);
            proof {
                assert(ids.take(i + 1).drop_last() =~= ids.take(i as int));
                reveal(Seq::filter);
            }
            let ghost before = out@;
            if chosen {
                out.push(i);
                assert(ids_at(ids, out@) =~= ids_at(ids, before).push(ids[i as int]));
            }
            i += 1;
        }
        assert(ids.take(i as int) =~= ids);
        out
    }

    /// The agents that work on the tasks at some positions.
    fn agents_at(&self, positions: &Vec<usize>) -> (r: Vec<String>)
        requires
            self.consistent(),
            in_range(positions@, self.plan.tasks@.len()),
            forall|k: int|
                0 <= k < positions@.len() ==> self@.is_running(
                    #[trigger] ids_at(self@.ids(), positions@)[k],
                ),
        ensures
            text::texts(r@) == self@.agents_of(ids_at(self@.ids(), positions@)),
    {
        let ghost listed = ids_at(self@.ids(), positions@);
        let mut out: Vec<String> = Vec::new();
        let mut k: usize = 0;
        while k < positions.len()
            invariant
                k <= positions@.len(),
                out@.len() == k,
                self.consistent(),
                in_range(positions@, self.plan.tasks@.len()),
                listed == ids_at(self@.ids(), positions@),
                forall|j: int| 0 <= j < positions@.len() ==> self@.is_running(#[trigger] listed[j]),
                forall|j: int|
                    0 <= j < k ==> #[trigger] out@[j]@ == self@.states[listed[j]]->agent_id,
            decreases positions@.len() - k,
        {
            assert(self@.is_running(listed[k as int]));
            match self.agent_at(positions[k]) {
                Some(agent) => out.push(agent),
                None => {
                    assert(false);
                },
            }
            k += 1;
        }
        assert(text::texts(out@) =~= self@.agents_of(listed));
        out
    }

    /// Skips the tasks at some positions.
    fn skip_all(&mut self, positions: &Vec<usize>, reason: &str)
        requires
            old(self).consistent(),
            in_range(positions@, old(self).plan.tasks@.len()),
        ensures
            final(self).consistent(),
            final(self)@ == (RunView {
                states: model::with_all(
                    old(self)@.states,
                    ids_at(old(self)@.ids(), positions@),
                    SwarmTaskStateView::Skipped(reason@),
                ),
                ..old(self)@
            }),
    {
        let ghost before = self@;
        let ghost listed = ids_at(self@.ids(), positions@);
        let ghost state = SwarmTaskStateView::Skipped(reason@);
        let mut k: usize = 0;
        assert(listed.take(0) =~= Seq::<Seq<char>>::empty());
        while k < positions.len()
            invariant
                k <= positions@.len(),
                self.consistent(),
                in_range(positions@, self.plan.tasks@.len()),
                listed == ids_at(before.ids(), positions@),
                state == SwarmTaskStateView::Skipped(reason@),
                self@ == (RunView {
                    states: model::with_all(before.states, listed.take(k as int), state),
                    ..before
                }),
            decreases positions@.len() - k,
        {
            assert(listed.take(k + 1).drop_last() =~= listed.take(k as int));
            assert(self@.plan == before.plan);
            self.set_state(positions[k], SwarmTaskState::Skipped(reason.to_string()));
            k += 1;
        }
        assert(listed.take(k as int) =~= listed);
    }

    /// Takes the replies to the cancellation of the running agents.
    fn cancel_running_tasks(&mut self, replies: &Vec<Result<SubAgentResult, String>>)
        requires
            old(self).consistent(),
            replies@.len() == old(self)@.running_ids().len(),
        ensures
            final(self).consistent(),
            final(self)@ == old(self)@.cancelled(reply_views(replies@)),
    {
        let ghost before = self@;
        let positions: Vec<usize> = self.select(TaskClass::Running, 0);
        let ghost listed = ids_at(self@.ids(), positions@);
        let ghost views = reply_views(replies@);
        assert(listed.len() == positions@.len());
        let mut k: usize = 0;
        assert(listed.take(0) =~= Seq::<Seq<char>>::empty());
        while k < positions.len()
            invariant
                k <= positions@.len(),
                positions@.len() == replies@.len(),
                self.consistent(),
                in_range(positions@, self.plan.tasks@.len()),
                listed == ids_at(before.ids(), positions@),
                views == reply_views(replies@),
                self@ == (RunView {
                    states: model::cancelled_states(before.states, listed.take(k as int), views),
                    ..before
                }),
            decreases positions@.len() - k,
        {
            assert(listed.take(k + 1).drop_last() =~= listed.take(k as int));
            assert(self@.plan == before.plan);
            let state: SwarmTaskState = match &replies[k] {
                Ok(snapshot) => SwarmTaskState::Done(snapshot.clone()),
                Err(message) => {
                    let mut text: String = "Failed to cancel agent: ".to_string();
                    text.append(message.as_str());
                    SwarmTaskState::Failed(text)
                },
            };
            assert(state@ == model::cancelled_state(views[k as int]));
            self.set_state(positions[k], state);
            k += 1;
        }
        assert(listed.take(k as int) =~= listed);
        let ghost mid = self@;
        self.started_at.clear();
        assert(self@.ids() == mid.ids() && self@.states == mid.states);
        assert(self@ =~= before.cancelled(views));
    }

    /// Takes the replies to the cancellation of the running agents, and gives up what is pending.
    fn apply_fail_fast(&mut self, replies: &Vec<Result<SubAgentResult, String>>)
        requires
            old(self).consistent(),
            replies@.len() == old(self)@.running_ids().len(),
        ensures
            final(self).consistent(),
            final(self)@ == old(self)@.cancelled(reply_views(replies@)).abandoned(),
    {
        self.cancel_running_tasks(replies);
        let pending: Vec<usize> = self.select(TaskClass::Pending, 0);
        self.skip_all(&pending, "Skipped due to fail_fast");
        let ghost mid = self@;
        self.retry_ready_at.clear();
        assert(self@.ids() == mid.ids() && self@.states == mid.states);
        assert(self@ =~= old(self)@.cancelled(reply_views(replies@)).abandoned());
    }

    /// Sets what the run waits for.
    fn enter(&mut self, phase: RunPhase)
        requires
            old(self).consistent(),
            phase.fits(old(self).plan.tasks@.len()),
        ensures
            final(self).consistent(),
            final(self).phase.fits(final(self).plan.tasks@.len()),
            final(self)@ == old(self)@.in_phase(phase.view_with(old(self)@.ids())),
    {
        let ghost before = self@;
        self.phase = phase;
        assert(self@.ids() == before.ids() && self@.states == before.states);
    }

    /// A report on the run.
    fn progress(&self, now_ms: u64, status: SwarmStatus) -> (r: SwarmOutcome)
        requires
            self.consistent(),
        ensures
            r@ == self@.progress(now_ms, status),
    {
        outcome::build_progress_outcome(
            self.plan.swarm_id.as_str(),
            now_ms,
            &self.order,
            &self.states,
            status,
        )
    }

    /// Ends the run.
    fn finish(&mut self, now_ms: u64) -> (action: SwarmAction)
        requires
            old(self).consistent(),
        ensures
            final(self).consistent(),
            final(self).phase.fits(final(self).plan.tasks@.len()),
            (final(self)@, action@) == old(self)@.finish(now_ms),
    {
        let report: SwarmOutcome = outcome::build_final_outcome(
            self.plan.swarm_id.as_str(),
            now_ms,
            &self.order,
            &self.states,
            self.fail_fast_triggered,
            self.timed_out,
        );
        self.enter(RunPhase::Finished);
        SwarmAction::Finish(report)
    }

    /// Goes on after a failure that stops the run, once its agents were cancelled.
    fn stopped(&mut self, replies: &Vec<Result<SubAgentResult, String>>, now_ms: u64) -> (action:
        SwarmAction)
        requires
            old(self).consistent(),
            replies@.len() == old(self)@.running_ids().len(),
        ensures
            final(self).consistent(),
            final(self).phase.fits(final(self).plan.tasks@.len()),
            (final(self)@, action@) == old(self)@.stopped(reply_views(replies@), now_ms),
    {
        self.apply_fail_fast(replies);
        if self.plan.publish_progress {
            let report: SwarmOutcome = self.progress(now_ms, SwarmStatus::Failed);
            self.enter(RunPhase::Closing);
            SwarmAction::Publish(report)
        } else {
            self.finish(now_ms)
        }
    }

    /// Stops the run after a failure.
    fn stop(&mut self, now_ms: u64) -> (action: SwarmAction)
        requires
            old(self).consistent(),
        ensures
            final(self).consistent(),
            final(self).phase.fits(final(self).plan.tasks@.len()),
            (final(self)@, action@) == old(self)@.stop(now_ms),
    {
        let running: Vec<usize> = self.running();
        if running.len() > 0 {
            let agents: Vec<String> = self.agents_at(&running);
            self.enter(RunPhase::Stopping);
            SwarmAction::CancelAgents(agents)
        } else {
            let replies: Vec<Result<SubAgentResult, String>> = Vec::new();
            assert(reply_views(replies@) =~= seq![]);
            self.stopped(&replies, now_ms)
        }
    }

    /// The positions of the running tasks, in order.
    fn running(&self) -> (r: Vec<usize>)
        requires
            self.consistent(),
        ensures
            in_range(r@, self.plan.tasks@.len()),
            ids_at(self@.ids(), r@) == self@.running_ids(),
            r@.len() == self@.running_ids().len(),
            forall|k: int|
                0 <= k < r@.len() ==> self@.is_running(#[trigger] ids_at(self@.ids(), r@)[k]),
    {
        let r: Vec<usize> = self.select(TaskClass::Running, 0);
        proof {
            model::lemma_filter_members(self@.ids(), self@.running_test());
            assert forall|k: int| 0 <= k < r@.len() implies self@.is_running(
                #[trigger] ids_at(self@.ids(), r@)[k],
            ) by {
                assert(self@.running_test()(self@.running_ids()[k]));
            }
        }
        r
    }

    /// Goes on when no further agents are started in this pass.
    fn after_launch(&mut self, now_ms: u64) -> (action: SwarmAction)
        requires
            old(self).consistent(),
        ensures
            final(self).consistent(),
            final(self).phase.fits(final(self).plan.tasks@.len()),
            (final(self)@, action@) == old(self)@.after_launch(now_ms),
    {
        if self.fail_fast_triggered {
            return self.stop(now_ms);
        }
        let pending: Vec<usize> = self.select(TaskClass::Pending, now_ms);
        let running: Vec<usize> = self.running();
        assert(pending@.len() == self@.pending_ids().len()) by {
            assert(ids_at(self@.ids(), pending@).len() == pending@.len());
        }
        if pending.len() == 0 && running.len() == 0 {
            return self.finish(now_ms);
        }
        if now_ms >= self.plan.timeout_ms {
            let agents: Vec<String> = self.agents_at(&running);
            let ghost before = self@;
            self.timed_out = true;
            assert(self@.ids() == before.ids() && self@.states == before.states);
            assert(self@ =~= RunView { timed_out: true, ..before });
            if running.len() > 0 {
                self.enter(RunPhase::Expiring);
                return SwarmAction::CancelAgents(agents);
            }
            return self.finish(now_ms);
        }
        if self.plan.publish_progress && self.changed {
            let report: SwarmOutcome = self.progress(now_ms, SwarmStatus::Running);
            self.enter(RunPhase::Reporting);
            return SwarmAction::Publish(report);
        }
        self.pause()
    }

    /// Ends a pass.
    fn pause(&mut self) -> (action: SwarmAction)
        requires
            old(self).consistent(),
        ensures
            final(self).consistent(),
            final(self).phase.fits(final(self).plan.tasks@.len()),
            (final(self)@, action@) == old(self)@.pause(),
    {
        let wait_ms: u64 = if self.changed {
            0
        } else {
            SWARM_POLL_INTERVAL_MS
        };
        self.enter(RunPhase::Idle);
        SwarmAction::Pause(wait_ms)
    }

    /// Goes on when the running tasks were held against the agents.
    fn after_observation(&mut self, now_ms: u64) -> (action: SwarmAction)
        requires
            old(self).consistent(),
        ensures
            final(self).consistent(),
            final(self).phase.fits(final(self).plan.tasks@.len()),
            (final(self)@, action@) == old(self)@.after_observation(now_ms),
    {
        if self.fail_fast_triggered {
            return self.stop(now_ms);
        }
        let ghost before = self@;
        let blocked: Vec<usize> = self.select(TaskClass::Blocked, now_ms);
        assert(blocked@.len() == before.blocked_ids().len()) by {
            assert(ids_at(self@.ids(), blocked@).len() == blocked@.len());
        }
        self.skip_all(&blocked, "Dependency failed");
        let ghost mid = self@;
        if blocked.len() > 0 {
            self.changed = true;
        }
        assert(self@.ids() == mid.ids() && self@.states == mid.states);
        assert(self@ =~= before.without_blocked());
        let ready: Vec<usize> = self.select(TaskClass::Ready, now_ms);
        assert(ready@.len() == self@.ready_ids(now_ms).len()) by {
            assert(ids_at(self@.ids(), ready@).len() == ready@.len());
        }
        if ready.len() > 0 {
            self.enter(RunPhase::Counting { ready });
            SwarmAction::CountSlots
        } else {
            self.after_launch(now_ms)
        }
    }

    /// Starts a pass over the tasks.
    fn next_pass(&mut self, now_ms: u64) -> (action: SwarmAction)
        requires
            old(self).consistent(),
        ensures
            final(self).consistent(),
            final(self).phase.fits(final(self).plan.tasks@.len()),
            (final(self)@, action@) == old(self)@.next_pass(now_ms),
    {
        let ghost before = self@;
        self.changed = false;
        assert(self@.ids() == before.ids() && self@.states == before.states);
        assert(self@ =~= RunView { changed: false, ..before });
        let running: Vec<usize> = self.running();
        if running.len() > 0 {
            self.enter(RunPhase::Listing);
            SwarmAction::ListAgents
        } else {
            self.after_observation(now_ms)
        }
    }

    /// Goes on when the agents were listed.
    fn listed(&mut self, snapshots: &[SubAgentResult], now_ms: u64) -> (action: SwarmAction)
        requires
            old(self).consistent(),
            now_ms <= u64::MAX - MAX_TASK_RETRY_DELAY_MS,
        ensures
            final(self).consistent(),
            final(self).phase.fits(final(self).plan.tasks@.len()),
            (final(self)@, action@) == old(self)@.listed(snapshot_views(snapshots@), now_ms),
    {
        let overdue: Vec<usize> = self.select(TaskClass::Overdue, now_ms);
        proof {
            assert(ids_at(self@.ids(), overdue@).len() == overdue@.len());
            model::lemma_filter_members(self@.ids(), self@.overdue_test(now_ms));
            assert forall|k: int| 0 <= k < overdue@.len() implies self@.is_running(
                #[trigger] ids_at(self@.ids(), overdue@)[k],
            ) by {
                assert(self@.overdue_test(now_ms)(self@.overdue_ids(now_ms)[k]));
            }
        }
        let agents: Vec<String> = self.agents_at(&overdue);
        self.observe(snapshots, now_ms);
        if overdue.len() > 0 {
            self.enter(RunPhase::Dropping);
            SwarmAction::CancelAgents(agents)
        } else {
            self.after_observation(now_ms)
        }
    }

    /// Counts one more attempt at the task at a position.
    fn begin(&mut self, i: usize)
        requires
            old(self).consistent(),
            i < old(self).plan.tasks@.len(),
            old(self)@.attempts_of(old(self)@.ids()[i as int]) < u32::MAX,
        ensures
            final(self).consistent(),
            final(self)@ == old(self)@.begun(old(self)@.ids()[i as int]),
    {
        proof {
            self.lemma_position(i as int);
        }
        let ghost before = self@;
        let attempts: u32 = self.attempts_at(i);
        self.attempts.insert(self.order[i].clone(), attempts + 1);
        assert(self@.ids() == before.ids() && self@.states == before.states);
        assert(self@ =~= before.begun(before.ids()[i as int]));
    }

    /// Takes the attempt at the task at a position back.
    fn take_back(&mut self, i: usize)
        requires
            old(self).consistent(),
            i < old(self).plan.tasks@.len(),
        ensures
            final(self).consistent(),
            final(self)@ == old(self)@.taken_back(old(self)@.ids()[i as int]),
    {
        proof {
            self.lemma_position(i as int);
        }
        let ghost before = self@;
        let attempts: u32 = self.attempts_at(i);
        self.attempts.insert(self.order[i].clone(), attempts.saturating_sub(1));
        assert(self@.ids() == before.ids() && self@.states == before.states);
        assert(self@ =~= before.taken_back(before.ids()[i as int]));
    }

    /// Takes note of the agent that was started for the task at a position.
    fn take_agent(&mut self, i: usize, agent_id: String, now_ms: u64)
        requires
            old(self).consistent(),
            i < old(self).plan.tasks@.len(),
        ensures
            final(self).consistent(),
            final(self)@ == old(self)@.spawned(old(self)@.ids()[i as int], agent_id@, now_ms),
    {
        let ghost before = self@;
        let ghost agent = agent_id@;
        self.set_state(i, SwarmTaskState::Running { agent_id });
        proof {
            self.lemma_position(i as int);
        }
        let ghost mid = self@;
        let key: String = self.order[i].clone();
        self.retry_ready_at.remove(key.as_str());
        self.started_at.insert(key, now_ms);
        self.changed = true;
        assert(self@.ids() == mid.ids() && self@.states == mid.states);
        assert(self@ =~= before.spawned(before.ids()[i as int], agent, now_ms));
    }

    /// Asks for an agent for the task at `queue[next]`, or goes on when there is none left.
    fn launch(&mut self, queue: Vec<usize>, next: usize, now_ms: u64) -> (action: SwarmAction)
        requires
            old(self).consistent(),
            in_range(queue@, old(self).plan.tasks@.len()),
            next <= queue@.len(),
            next < queue@.len() ==> old(self)@.attempts_of(
                ids_at(old(self)@.ids(), queue@)[next as int],
            ) < u32::MAX,
        ensures
            final(self).consistent(),
            final(self).phase.fits(final(self).plan.tasks@.len()),
            (final(self)@, action@) == old(self)@.launch(
                ids_at(old(self)@.ids(), queue@).skip(next as int),
                now_ms,
            ),
    {
        let ghost before = self@;
        let ghost rest = ids_at(before.ids(), queue@).skip(next as int);
        if next >= queue.len() {
            assert(rest =~= seq![]);
            return self.after_launch(now_ms);
        }
        let i: usize = queue[next];
        assert(rest[0] == before.ids()[i as int]);
        self.begin(i);
        proof {
            self.lemma_position(i as int);
        }
        let ghost mid = self@;
        match task::resolve_task_assignment(&self.plan.tasks[i]) {
            Ok((agent_type, role, objective)) => {
                let context: Option<&str> = match &self.plan.shared_context {
                    Some(context) => Some(context.as_str()),
                    None => None,
                };
                let prompt: String = task::format_prompt(
                    context,
                    self.plan.tasks[i].prompt.as_str(),
                );
                let allowed_tools: Option<Vec<String>> = match &self.plan.tasks[i].allowed_tools {
                    Some(tools) => {
                        let copy: Vec<String> = tools.clone();
                        assert(text::texts(copy@) =~= text::texts(tools@));
                        Some(copy)
                    },
                    None => None,
                };
                let request: SpawnRequest = SpawnRequest {
                    task_id: self.order[i].clone(),
                    agent_type,
                    role,
                    objective,
                    prompt,
                    allowed_tools,
                };
                self.enter(RunPhase::Spawning { queue, next });
                SwarmAction::Spawn(request)
            },
            Err(error) => {
                self.enter(RunPhase::Finished);
                SwarmAction::Abort(error)
            },
        }
    }

    /// A run that waits to be resumed for its first pass.
    pub fn new(plan: RunPlan) -> (run: SwarmRun)
        requires
            types::task_ids(plan@.tasks).no_duplicates(),
        ensures
            run.wf(),
            run@ == RunView::initial(plan@),
            run@.inv(),
    {
        let ghost ids = types::task_ids(plan@.tasks);
        let mut order: Vec<String> = Vec::new();
        let mut states: TaskStates = StringHashMap::new();
        let mut i: usize = 0;
        while i < plan.tasks.len()
            invariant
                i <= plan.tasks@.len(),
                ids == types::task_ids(plan@.tasks),
                ids.len() == plan.tasks@.len(),
                order@.len() == i,
                forall|j: int| 0 <= j < i ==> #[trigger] order@[j]@ == ids[j],
                forall|id: Seq<char>| #[trigger]
                    states@.contains_key(id) <==> ids.take(i as int).contains(id),
                forall|id: Seq<char>| #[trigger]
                    states@.contains_key(id) ==> states@[id]@ is Pending,
            decreases plan.tasks@.len() - i,
        {
            assert(ids[i as int] == plan.tasks@[i as int].id@);
            order.push(plan.tasks[i].id.clone());
            let ghost before = states@;
            states.insert(plan.tasks[i].id.clone(), SwarmTaskState::Pending);
            proof {
                let front = ids.take(i as int);
                let longer = ids.take(i + 1);
                assert(longer =~= front.push(ids[i as int]));
                assert forall|id: Seq<char>| #[trigger]
                    states@.contains_key(id) <==> longer.contains(id) by {
                    if before.contains_key(id) {
                        let k = choose|k: int| 0 <= k < front.len() && front[k] == id;
                        assert(longer[k] == id);
                    }
                    if id == ids[i as int] {
                        assert(longer[i as int] == id);
                    }
                    if longer.contains(id) && id != ids[i as int] {
                        let k = choose|k: int| 0 <= k < longer.len() && longer[k] == id;
                        assert(front[k] == id);
                    }
                }
            }
            i += 1;
        }
        assert(ids.take(i as int) =~= ids);
        assert(text::texts(order@) =~= ids);
        let run: SwarmRun = SwarmRun {
            plan,
            order,
            states,
            started_at: StringHashMap::new(),
            attempts: StringHashMap::new(),
            retry_ready_at: StringHashMap::new(),
            fail_fast_triggered: false,
            timed_out: false,
            changed: false,
            phase: RunPhase::Idle,
        };
        proof {
            assert(run@.states =~= RunView::initial(run.plan@).states);
            assert(run@ =~= RunView::initial(run.plan@));
            model::run_starts_sound(run.plan@);
        }
        run
    }

    /// Takes an event, and says what is to be done next.
    pub fn step(&mut self, event: SwarmEvent, now_ms: u64) -> (action: SwarmAction)
        requires
            old(self).wf(),
            old(self)@.accepts(event@),
            now_ms <= u64::MAX - MAX_TASK_RETRY_DELAY_MS,
        ensures
            final(self).wf(),
            (final(self)@, action@) == old(self)@.step(event@, now_ms),
            final(self)@.inv(),
    {
        proof {
            model::every_step_keeps_the_run_sound(self@, event@, now_ms);
        }
        let ghost before = self@;
        match (&self.phase, event) {
            (RunPhase::Idle, SwarmEvent::Resumed) => self.next_pass(now_ms),
            (RunPhase::Listing, SwarmEvent::Agents(snapshots)) => self.listed(&snapshots, now_ms),
            (RunPhase::Dropping, SwarmEvent::Cancelled(_)) => self.after_observation(now_ms),
            (RunPhase::Counting { ready }, SwarmEvent::Slots(free)) => {
                assert(before.phase == RunPhaseView::Counting { ready: ids_at(before.ids(), ready@) });
                let running: Vec<usize> = self.running();
                let own: usize = self.plan.max_parallel.saturating_sub(running.len());
                let slots: usize = if free < own {
                    free
                } else {
                    own
                };
                let mut queue: Vec<usize> = ready.clone();
                let ghost all = queue@;
                if slots < queue.len() {
                    queue.truncate(slots);
                }
                proof {
                    let listed = ids_at(before.ids(), all);
                    let n = if slots < all.len() {
                        slots as int
                    } else {
                        all.len() as int
                    };
                    assert(ids_at(before.ids(), queue@) =~= listed.take(n));
                    assert(listed.take(n).skip(0) =~= listed.take(n));
                    if n > 0 {
                        assert(before.is_pending(listed[0]));
                    }
                }
                self.launch(queue, 0, now_ms)
            },
            (RunPhase::Spawning { queue, next }, SwarmEvent::Spawned(agent_id)) => {
                let queue: Vec<usize> = queue.clone();
                let next: usize = *next;
                let ghost waiting = ids_at(before.ids(), queue@).skip(next as int);
                let i: usize = queue[next];
                assert(waiting[0] == before.ids()[i as int]);
                self.take_agent(i, agent_id, now_ms);
                proof {
                    assert(ids_at(before.ids(), queue@).skip(next + 1) =~= waiting.drop_first());
                    if next + 1 < queue@.len() {
                        assert(before.is_pending(waiting[1]));
                    }
                }
                self.launch(queue, next + 1, now_ms)
            },
            (RunPhase::Spawning { queue, next }, SwarmEvent::SpawnFailed(message)) => {
                let queue: Vec<usize> = queue.clone();
                let next: usize = *next;
                let ghost waiting = ids_at(before.ids(), queue@).skip(next as int);
                let i: usize = queue[next];
                assert(waiting[0] == before.ids()[i as int]);
                if text::contains(message.as_str(), "Sub-agent limit reached") {
                    self.take_back(i);
                    self.after_launch(now_ms)
                } else {
                    self.lose(i, SwarmTaskState::Failed(message), now_ms);
                    proof {
                        assert(ids_at(before.ids(), queue@).skip(next + 1)
                            =~= waiting.drop_first());
                        if next + 1 < queue@.len() {
                            assert(before.is_pending(waiting[1]));
                        }
                    }
                    self.launch(queue, next + 1, now_ms)
                }
            },
            (RunPhase::Stopping, SwarmEvent::Cancelled(replies)) => {
                self.stopped(&replies, now_ms)
            },
            (RunPhase::Expiring, SwarmEvent::Cancelled(replies)) => {
                self.cancel_running_tasks(&replies);
                self.finish(now_ms)
            },
            (RunPhase::Reporting, SwarmEvent::Resumed) => self.pause(),
            (RunPhase::Closing, SwarmEvent::Resumed) => self.finish(now_ms),
            _ => {
                assert(false);
                SwarmAction::Pause(0)
            },
        }
    }
}

/// The last of the snapshots of one agent.
fn latest_of<'a>(snapshots: &'a [SubAgentResult], agent: &str) -> (r: Option<&'a SubAgentResult>)
    ensures
        match r {
            Some(snapshot) => model::latest(snapshot_views(snapshots@), agent@) == Some(snapshot@),
            None => model::latest(snapshot_views(snapshots@), agent@) is None,
        },
{
    let ghost views = snapshot_views(snapshots@);
    let mut i: usize = snapshots.len();
    assert(views.take(i as int) =~= views);
    while i > 0
        invariant
            i <= snapshots@.len(),
            views == snapshot_views(snapshots@),
            model::latest(views, agent@) == model::latest(views.take(i as int), agent@),
        decreases i,
    {
        i -= 1;
        assert(views.take(i + 1).drop_last() =~= views.take(i as int));
        assert(views.take(i + 1).last() == snapshots@[i as int]@);
        if text::same_text(snapshots[i].agent_id.as_str(), agent) {
            return Some(&snapshots[i]);
        }
    }
    None
}

} // verus!
