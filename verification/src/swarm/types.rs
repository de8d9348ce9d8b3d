//! The data that a swarm is made of, and the mathematical value that each type stands for.

use crate::text;
use vstd::prelude::*;

verus! {

pub const DEFAULT_SWARM_TIMEOUT_MS: u64 = 600_000;

pub const DEFAULT_SWARM_TIMEOUT_NONBLOCK_MS: u64 = 600_000;

pub const MIN_SWARM_TIMEOUT_MS: u64 = 1_000;

pub const MAX_SWARM_TIMEOUT_MS: u64 = 3_600_000;

pub const DEFAULT_SWARM_RESULT_TIMEOUT_MS: u64 = 30_000;

pub const SWARM_POLL_INTERVAL_MS: u64 = 250;

pub const MAX_SWARM_HISTORY: usize = 256;

pub const SWARM_STATE_SCHEMA_VERSION: u32 = 1;

pub const DEFAULT_TASK_RETRY_DELAY_MS: u64 = 1_000;

pub const MAX_TASK_RETRY_DELAY_MS: u64 = 60_000;

pub const MAX_TASK_TIMEOUT_MS: u64 = 600_000;

pub const MAX_TASK_RETRIES: u32 = 10;

/// The text that an optional string holds.
pub open spec fn optional_text(s: Option<String>) -> Option<Seq<char>> {
    match s {
        Some(text) => Some(text@),
        None => None,
    }
}

/// A copy of an optional string.
pub fn clone_optional(s: &Option<String>) -> (r: Option<String>)
    ensures
        optional_text(r) == optional_text(*s),
{
    match s {
        Some(text) => Some(text.clone()),
        None => None,
    }
}

/// Why a tool call was refused or failed.
#[derive(Debug)]
pub enum ToolError {
    /// A field of the input has a value that is not accepted.
    InvalidInput { message: String },
    /// A field that the tool needs is not there.
    MissingField { field: String },
    /// The tool ran and could not finish.
    ExecutionFailed { message: String },
}

/// The value of a [`ToolError`].
pub enum ToolErrorView {
    InvalidInput { message: Seq<char> },
    MissingField { field: Seq<char> },
    ExecutionFailed { message: Seq<char> },
}

impl View for ToolError {
    type V = ToolErrorView;

    open spec fn view(&self) -> ToolErrorView {
        match self {
            ToolError::InvalidInput { message } => ToolErrorView::InvalidInput { message: message@ },
            ToolError::MissingField { field } => ToolErrorView::MissingField { field: field@ },
            ToolError::ExecutionFailed { message } => ToolErrorView::ExecutionFailed {
                message: message@,
            },
        }
    }
}

/// The kinds of sub-agent.
#[derive(Clone, Copy, Debug, PartialEq, Eq, Structural)]
pub enum SubAgentType {
    General,
    Explore,
    Plan,
    Review,
    Custom,
}

/// Where a sub-agent stands.
#[derive(Debug)]
pub enum SubAgentStatus {
    Running,
    Completed,
    Interrupted(String),
    Failed(String),
    Cancelled,
}

/// The value of a [`SubAgentStatus`].
pub enum SubAgentStatusView {
    Running,
    Completed,
    Interrupted(Seq<char>),
    Failed(Seq<char>),
    Cancelled,
}

impl View for SubAgentStatus {
    type V = SubAgentStatusView;

    open spec fn view(&self) -> SubAgentStatusView {
        match self {
            SubAgentStatus::Running => SubAgentStatusView::Running,
            SubAgentStatus::Completed => SubAgentStatusView::Completed,
            SubAgentStatus::Interrupted(message) => SubAgentStatusView::Interrupted(message@),
            SubAgentStatus::Failed(message) => SubAgentStatusView::Failed(message@),
            SubAgentStatus::Cancelled => SubAgentStatusView::Cancelled,
        }
    }
}

impl SubAgentStatusView {
    /// The agent stopped without completing its work.
    pub open spec fn unsuccessful(self) -> bool {
        self is Interrupted || self is Failed || self is Cancelled
    }
}

impl SubAgentStatus {
    /// Whether the agent stopped without completing its work.
    pub fn is_unsuccessful(&self) -> (r: bool)
        ensures
            r == self@.unsuccessful(),
    {
        match self {
            SubAgentStatus::Interrupted(_) => true,
            SubAgentStatus::Failed(_) => true,
            SubAgentStatus::Cancelled => true,
            SubAgentStatus::Running => false,
            SubAgentStatus::Completed => false,
        }
    }

    /// Whether the agent is still at work.
    pub fn is_running(&self) -> (r: bool)
        ensures
            r == (self@ is Running),
    {
        match self {
            SubAgentStatus::Running => true,
            _ => false,
        }
    }

    /// Whether the agent completed its work.
    pub fn is_completed(&self) -> (r: bool)
        ensures
            r == (self@ is Completed),
    {
        match self {
            SubAgentStatus::Completed => true,
            _ => false,
        }
    }
}

impl Clone for SubAgentStatus {
    fn clone(&self) -> (r: Self)
        ensures
            r@ == self@,
    {
        match self {
            SubAgentStatus::Running => SubAgentStatus::Running,
            SubAgentStatus::Completed => SubAgentStatus::Completed,
            SubAgentStatus::Interrupted(message) => SubAgentStatus::Interrupted(message.clone()),
            SubAgentStatus::Failed(message) => SubAgentStatus::Failed(message.clone()),
            SubAgentStatus::Cancelled => SubAgentStatus::Cancelled,
        }
    }
}

/// What is known of a sub-agent at one moment.
#[derive(Debug)]
pub struct SubAgentResult {
    pub agent_id: String,
    pub status: SubAgentStatus,
    pub result: Option<String>,
    pub steps_taken: u32,
    pub duration_ms: u64,
}

/// The value of a [`SubAgentResult`].
pub struct SubAgentResultView {
    pub agent_id: Seq<char>,
    pub status: SubAgentStatusView,
    pub result: Option<Seq<char>>,
    pub steps_taken: u32,
    pub duration_ms: u64,
}

impl View for SubAgentResult {
    type V = SubAgentResultView;

    open spec fn view(&self) -> SubAgentResultView {
        SubAgentResultView {
            agent_id: self.agent_id@,
            status: self.status@,
            result: optional_text(self.result),
            steps_taken: self.steps_taken,
            duration_ms: self.duration_ms,
        }
    }
}

impl Clone for SubAgentResult {
    fn clone(&self) -> (r: Self)
        ensures
            r@ == self@,
    {
        SubAgentResult {
            agent_id: self.agent_id.clone(),
            status: self.status.clone(),
            result: clone_optional(&self.result),
            steps_taken: self.steps_taken,
            duration_ms: self.duration_ms,
        }
    }
}

/// One task of a swarm, as it was asked for.
#[derive(Debug)]
pub struct SwarmTaskSpec {
    pub id: String,
    pub prompt: String,
    pub agent_type: Option<SubAgentType>,
    pub role: Option<String>,
    pub objective: Option<String>,
    pub retry_count: Option<u32>,
    pub retry_delay_ms: Option<u64>,
    pub task_timeout_ms: Option<u64>,
    pub allowed_tools: Option<Vec<String>>,
    pub depends_on: Vec<String>,
}

/// The value of a [`SwarmTaskSpec`].
pub struct SwarmTaskView {
    pub id: Seq<char>,
    pub prompt: Seq<char>,
    pub agent_type: Option<SubAgentType>,
    pub role: Option<Seq<char>>,
    pub objective: Option<Seq<char>>,
    pub retry_count: Option<u32>,
    pub retry_delay_ms: Option<u64>,
    pub task_timeout_ms: Option<u64>,
    pub allowed_tools: Option<Seq<Seq<char>>>,
    pub depends_on: Seq<Seq<char>>,
}

impl View for SwarmTaskSpec {
    type V = SwarmTaskView;

    open spec fn view(&self) -> SwarmTaskView {
        SwarmTaskView {
            id: self.id@,
            prompt: self.prompt@,
            agent_type: self.agent_type,
            role: optional_text(self.role),
            objective: optional_text(self.objective),
            retry_count: self.retry_count,
            retry_delay_ms: self.retry_delay_ms,
            task_timeout_ms: self.task_timeout_ms,
            allowed_tools: match self.allowed_tools {
                Some(tools) => Some(text::texts(tools@)),
                None => None,
            },
            depends_on: text::texts(self.depends_on@),
        }
    }
}

impl Clone for SwarmTaskSpec {
    fn clone(&self) -> (r: Self)
        ensures
            r@ == self@,
    {
        let allowed_tools: Option<Vec<String>> = match &self.allowed_tools {
            Some(tools) => {
                let copy: Vec<String> = tools.clone();
                assert(text::texts(copy@) =~= text::texts(tools@));
                Some(copy)
            },
            None => None,
        };
        let depends_on: Vec<String> = self.depends_on.clone();
        assert(text::texts(depends_on@) =~= text::texts(self.depends_on@));
        SwarmTaskSpec {
            id: self.id.clone(),
            prompt: self.prompt.clone(),
            agent_type: self.agent_type,
            role: clone_optional(&self.role),
            objective: clone_optional(&self.objective),
            retry_count: self.retry_count,
            retry_delay_ms: self.retry_delay_ms,
            task_timeout_ms: self.task_timeout_ms,
            allowed_tools,
            depends_on,
        }
    }
}

/// The values of a list of tasks.
pub open spec fn task_views(tasks: Seq<SwarmTaskSpec>) -> Seq<SwarmTaskView> {
    tasks.map_values(|task: SwarmTaskSpec| task@)
}

/// The ids of a list of tasks, in order.
pub open spec fn task_ids(tasks: Seq<SwarmTaskView>) -> Seq<Seq<char>> {
    tasks.map_values(|task: SwarmTaskView| task.id)
}

/// Where a task stands while its swarm runs.
#[derive(Debug)]
pub enum SwarmTaskState {
    Pending,
    Running { agent_id: String },
    Done(SubAgentResult),
    Failed(String),
    Skipped(String),
}

/// The value of a [`SwarmTaskState`].
pub enum SwarmTaskStateView {
    Pending,
    Running { agent_id: Seq<char> },
    Done(SubAgentResultView),
    Failed(Seq<char>),
    Skipped(Seq<char>),
}

impl View for SwarmTaskState {
    type V = SwarmTaskStateView;

    open spec fn view(&self) -> SwarmTaskStateView {
        match self {
            SwarmTaskState::Pending => SwarmTaskStateView::Pending,
            SwarmTaskState::Running { agent_id } => SwarmTaskStateView::Running {
                agent_id: agent_id@,
            },
            SwarmTaskState::Done(result) => SwarmTaskStateView::Done(result@),
            SwarmTaskState::Failed(message) => SwarmTaskStateView::Failed(message@),
            SwarmTaskState::Skipped(message) => SwarmTaskStateView::Skipped(message@),
        }
    }
}

impl Clone for SwarmTaskState {
    fn clone(&self) -> (r: Self)
        ensures
            r@ == self@,
    {
        match self {
            SwarmTaskState::Pending => SwarmTaskState::Pending,
            SwarmTaskState::Running { agent_id } => SwarmTaskState::Running {
                agent_id: agent_id.clone(),
            },
            SwarmTaskState::Done(result) => SwarmTaskState::Done(result.clone()),
            SwarmTaskState::Failed(message) => SwarmTaskState::Failed(message.clone()),
            SwarmTaskState::Skipped(message) => SwarmTaskState::Skipped(message.clone()),
        }
    }
}

/// The status that is reported of a task.
#[derive(Clone, Copy, Debug, PartialEq, Eq, Structural)]
pub enum SwarmTaskStatus {
    Pending,
    Running,
    Completed,
    Interrupted,
    Failed,
    Cancelled,
    Skipped,
}

/// What is reported of a task.
#[derive(Debug)]
pub struct SwarmTaskOutcome {
    pub task_id: String,
    pub agent_id: Option<String>,
    pub status: SwarmTaskStatus,
    pub result: Option<String>,
    pub error: Option<String>,
    pub steps_taken: u32,
    pub duration_ms: u64,
}

/// The value of a [`SwarmTaskOutcome`].
pub struct SwarmTaskOutcomeView {
    pub task_id: Seq<char>,
    pub agent_id: Option<Seq<char>>,
    pub status: SwarmTaskStatus,
    pub result: Option<Seq<char>>,
    pub error: Option<Seq<char>>,
    pub steps_taken: u32,
    pub duration_ms: u64,
}

impl View for SwarmTaskOutcome {
    type V = SwarmTaskOutcomeView;

    open spec fn view(&self) -> SwarmTaskOutcomeView {
        SwarmTaskOutcomeView {
            task_id: self.task_id@,
            agent_id: optional_text(self.agent_id),
            status: self.status,
            result: optional_text(self.result),
            error: optional_text(self.error),
            steps_taken: self.steps_taken,
            duration_ms: self.duration_ms,
        }
    }
}

impl Clone for SwarmTaskOutcome {
    fn clone(&self) -> (r: Self)
        ensures
            r@ == self@,
    {
        SwarmTaskOutcome {
            task_id: self.task_id.clone(),
            agent_id: clone_optional(&self.agent_id),
            status: self.status,
            result: clone_optional(&self.result),
            error: clone_optional(&self.error),
            steps_taken: self.steps_taken,
            duration_ms: self.duration_ms,
        }
    }
}

/// The values of a list of task outcomes.
pub open spec fn outcome_views(outcomes: Seq<SwarmTaskOutcome>) -> Seq<SwarmTaskOutcomeView> {
    outcomes.map_values(|outcome: SwarmTaskOutcome| outcome@)
}

/// The status of a whole swarm.
#[derive(Clone, Copy, Debug, PartialEq, Eq, Structural)]
pub enum SwarmStatus {
    Running,
    Completed,
    Partial,
    Timeout,
    Failed,
}

impl SwarmStatus {
    /// No further progress will be made.
    pub open spec fn terminal(self) -> bool {
        self != SwarmStatus::Running
    }

    /// The name of the status.
    pub open spec fn text(self) -> Seq<char> {
        match self {
            SwarmStatus::Running => "running"@,
            SwarmStatus::Completed => "completed"@,
            SwarmStatus::Partial => "partial"@,
            SwarmStatus::Timeout => "timeout"@,
            SwarmStatus::Failed => "failed"@,
        }
    }

    /// Whether no further progress will be made.
    pub fn is_terminal(&self) -> (r: bool)
        ensures
            r == self.terminal(),
    {
        match self {
            SwarmStatus::Running => false,
            _ => true,
        }
    }

    /// The name of the status.
    pub fn as_str(&self) -> (r: &'static str)
        ensures
            r@ == self.text(),
    {
        match self {
            SwarmStatus::Running => "running",
            SwarmStatus::Completed => "completed",
            SwarmStatus::Partial => "partial",
            SwarmStatus::Timeout => "timeout",
            SwarmStatus::Failed => "failed",
        }
    }
}

/// How many tasks of a swarm have each status.
#[derive(Clone, Copy, Debug, PartialEq, Eq, Structural)]
pub struct SwarmCounts {
    pub total: usize,
    pub completed: usize,
    pub interrupted: usize,
    pub failed: usize,
    pub cancelled: usize,
    pub skipped: usize,
    pub running: usize,
    pub pending: usize,
}

/// What is reported of a swarm.
#[derive(Debug)]
pub struct SwarmOutcome {
    pub swarm_id: String,
    pub status: SwarmStatus,
    pub duration_ms: u64,
    pub counts: SwarmCounts,
    pub tasks: Vec<SwarmTaskOutcome>,
}

/// The value of a [`SwarmOutcome`].
pub struct SwarmOutcomeView {
    pub swarm_id: Seq<char>,
    pub status: SwarmStatus,
    pub duration_ms: u64,
    pub counts: SwarmCounts,
    pub tasks: Seq<SwarmTaskOutcomeView>,
}

impl View for SwarmOutcome {
    type V = SwarmOutcomeView;

    open spec fn view(&self) -> SwarmOutcomeView {
        SwarmOutcomeView {
            swarm_id: self.swarm_id@,
            status: self.status,
            duration_ms: self.duration_ms,
            counts: self.counts,
            tasks: outcome_views(self.tasks@),
        }
    }
}

impl Clone for SwarmOutcome {
    fn clone(&self) -> (r: Self)
        ensures
            r@ == self@,
    {
        let tasks: Vec<SwarmTaskOutcome> = self.tasks.clone();
        assert(outcome_views(tasks@) =~= outcome_views(self.tasks@));
        SwarmOutcome {
            swarm_id: self.swarm_id.clone(),
            status: self.status,
            duration_ms: self.duration_ms,
            counts: self.counts,
            tasks,
        }
    }
}

/// A swarm has ended in every status but one, and no two statuses have one name.
pub proof fn statuses_are_told_apart(a: SwarmStatus, b: SwarmStatus)
    ensures
        a.terminal() <==> a is Completed || a is Partial || a is Timeout || a is Failed,
        !SwarmStatus::Running.terminal(),
        a.text() == b.text() ==> a == b,
        SwarmStatus::Running.text() == "running"@,
        SwarmStatus::Completed.text() == "completed"@,
        SwarmStatus::Partial.text() == "partial"@,
        SwarmStatus::Timeout.text() == "timeout"@,
        SwarmStatus::Failed.text() == "failed"@,
{
    reveal_strlit("running");
    reveal_strlit("completed");
    reveal_strlit("partial");
    reveal_strlit("timeout");
    reveal_strlit("failed");
    assert("running"@.len() == 7 && "partial"@.len() == 7 && "timeout"@.len() == 7);
    assert("completed"@.len() == 9 && "failed"@.len() == 6);
    assert("running"@[0] == 'r' && "partial"@[0] == 'p' && "timeout"@[0] == 't');
    if a.text() == b.text() {
        assert(a.text().len() == b.text().len());
        assert(a.text()[0] == b.text()[0]);
    }
}

} // verus!
