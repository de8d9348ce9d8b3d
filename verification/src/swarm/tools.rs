//! The three tools that start a swarm and look at it.

use crate::swarm::types::{
    SwarmCounts, SwarmOutcome, SwarmOutcomeView, SwarmStatus, ToolError, ToolErrorView,
};
use vstd::prelude::*;
use vstd::string::*;

verus! {

/// What a tool may do.
#[derive(Clone, Copy, Debug, PartialEq, Eq, Structural)]
pub enum ToolCapability {
    ReadOnly,
    ExecutesCode,
    RequiresApproval,
}

/// Whether a tool call has to be approved.
#[derive(Clone, Copy, Debug, PartialEq, Eq, Structural)]
pub enum ApprovalRequirement {
    Auto,
    Required,
}

/// A path with one more component. The separator is `/`.
pub open spec fn joined(base: Seq<char>, component: Seq<char>) -> Seq<char> {
    if base.len() == 0 || base.last() == '/' {
        base + component
    } else {
        base + "/"@ + component
    }
}

/// A path with one more relative component. The separator is `/`.
pub fn join_path(base: &str, component: &str) -> (r: String)
    ensures
        r@ == joined(base@, component@),
{
    let len: usize = base.unicode_len();
    let mut path: String = base.to_string();
    if len > 0 && base.get_char(len - 1) != '/' {
        path.append("/");
    }
    path.append(component);
    path
}

/// The file that holds the outcomes of the swarms of a workspace.
pub open spec fn state_path(workspace: Seq<char>) -> Seq<char> {
    joined(joined(joined(workspace, ".deepseek"@), "state"@), "swarm_outcomes.v1.json"@)
}

/// The file that holds the outcomes of the swarms of a workspace.
pub fn swarm_state_path(workspace: &str) -> (r: String)
    ensures
        r@ == state_path(workspace@),
{
    let directory: String = join_path(workspace, ".deepseek");
    let state: String = join_path(directory.as_str(), "state");
    join_path(state.as_str(), "swarm_outcomes.v1.json")
}

/// A digit of a hexadecimal number in lower case.
pub open spec fn is_hex_digit(c: char) -> bool {
    '0' <= c <= '9' || 'a' <= c <= 'f'
}

/// A text in the form of a UUID: groups of 8, 4, 4, 4 and 12 lower-case hexadecimal digits with
/// hyphens between them.
pub open spec fn is_uuid_text(s: Seq<char>) -> bool {
    &&& s.len() == 36
    &&& forall|i: int|
        0 <= i < 36 ==> if i == 8 || i == 13 || i == 18 || i == 23 {
            #[trigger] s[i] == '-'
        } else {
            is_hex_digit(s[i])
        }
}

/// `uuid::Uuid::new_v4`, as text: a random UUID in the hyphenated form with lower-case digits. Of
/// the digits themselves nothing is said.
#[verifier::external_body]
fn new_uuid_text() -> (r: String)
    ensures
        is_uuid_text(r@),
{
    uuid::Uuid::new_v4().to_string()
}

/// The id of a swarm, made from the text of a UUID.
pub open spec fn swarm_id_of(uuid: Seq<char>) -> Seq<char> {
    "swarm_"@ + uuid.take(8)
}

/// The id of a swarm, made from the text of a UUID.
pub fn swarm_id_from(uuid: &str) -> (r: String)
    requires
        uuid@.len() >= 8,
    ensures
        r@ == swarm_id_of(uuid@),
{
    let mut id: String = "swarm_".to_string();
    id.append(uuid.substring_char(0, 8));
    assert(uuid@.subrange(0, 8) =~= uuid@.take(8));
    id
}

/// The id of a new swarm: eight random hexadecimal digits behind a fixed prefix.
pub fn new_swarm_id() -> (r: String)
    ensures
        r@.len() == 14,
        r@.take(6) == "swarm_"@,
        forall|i: int| 6 <= i < 14 ==> is_hex_digit(#[trigger] r@[i]),
{
    let uuid: String = new_uuid_text();
    let id: String = swarm_id_from(uuid.as_str());
    proof {
        reveal_strlit("swarm_");
        assert(id@.take(6) =~= "swarm_"@);
        assert forall|i: int| 6 <= i < 14 implies is_hex_digit(#[trigger] id@[i]) by {
            assert(id@[i] == uuid@[i - 6]);
        }
    }
    id
}

/// The error for a swarm that is not known.
pub open spec fn not_found(swarm_id: Seq<char>) -> ToolErrorView {
    ToolErrorView::ExecutionFailed { message: "Swarm '"@ + swarm_id + "' not found"@ }
}

/// The error for a swarm that is not known.
pub fn swarm_not_found(swarm_id: &str) -> (e: ToolError)
    ensures
        e@ == not_found(swarm_id@),
{
    let mut message: String = "Swarm '".to_string();
    message.append(swarm_id);
    message.append("' not found");
    ToolError::ExecutionFailed { message }
}

/// Launches a swarm of sub-agents. `manager` and `runtime` are the host's means of starting them.
pub struct AgentSwarmTool<M, R> {
    pub manager: M,
    pub runtime: R,
}

impl<M, R> AgentSwarmTool<M, R> {
    /// A tool that starts its agents with `manager` and `runtime`.
    #[must_use]
    pub fn new(manager: M, runtime: R) -> (tool: Self)
        ensures
            tool.manager == manager,
            tool.runtime == runtime,
    {
        AgentSwarmTool { manager, runtime }
    }

    pub fn name(&self) -> (r: &'static str)
        ensures
            r@ == "agent_swarm"@,
    {
        "agent_swarm"
    }

    pub fn description(&self) -> (r: &'static str)
        ensures
            r@
                == "Spawn multiple sub-agents in parallel, each with their own tools and optional task dependencies, and aggregate their results. Returns a swarm_id; results come back via swarm_result or wait."@,
    {
        "Spawn multiple sub-agents in parallel, each with their own tools and optional task dependencies, and aggregate their results. Returns a swarm_id; results come back via swarm_result or wait."
    }

    pub fn capabilities(&self) -> (r: Vec<ToolCapability>)
        ensures
            r@ == seq![ToolCapability::ExecutesCode, ToolCapability::RequiresApproval],
    {
        vec![ToolCapability::ExecutesCode, ToolCapability::RequiresApproval]
    }

    pub fn approval_requirement(&self) -> (r: ApprovalRequirement)
        ensures
            r == ApprovalRequirement::Required,
    {
        ApprovalRequirement::Required
    }
}

/// The status of a launched swarm, for the metadata of the tool result.
pub fn launched_status() -> (r: &'static str)
    ensures
        r@ == "Running"@,
{
    "Running"
}

/// Gives the latest status of a swarm, without the results of its tasks.
pub struct SwarmStatusTool {
    pub persistence_path: String,
}

/// What a status request is answered with.
#[derive(Debug)]
pub struct SwarmSnapshot {
    pub swarm_id: String,
    pub status: SwarmStatus,
    pub counts: SwarmCounts,
    pub duration_ms: u64,
}

/// The status part of an outcome.
pub fn snapshot_of(outcome: &SwarmOutcome) -> (r: SwarmSnapshot)
    ensures
        r.swarm_id@ == outcome@.swarm_id,
        r.status == outcome@.status,
        r.counts == outcome@.counts,
        r.duration_ms == outcome@.duration_ms,
{
    SwarmSnapshot {
        swarm_id: outcome.swarm_id.clone(),
        status: outcome.status,
        counts: outcome.counts,
        duration_ms: outcome.duration_ms,
    }
}

impl SwarmStatusTool {
    /// A tool for the swarms of a workspace.
    #[must_use]
    pub fn new(workspace: String) -> (tool: Self)
        ensures
            tool.persistence_path@ == state_path(workspace@),
    {
        SwarmStatusTool { persistence_path: swarm_state_path(workspace.as_str()) }
    }

    pub fn name(&self) -> (r: &'static str)
        ensures
            r@ == "swarm_status"@,
    {
        "swarm_status"
    }

    pub fn description(&self) -> (r: &'static str)
        ensures
            r@
                == "Get the latest status snapshot for a previously spawned swarm — status, task counts, and elapsed duration, without pulling full per-task results."@,
    {
        "Get the latest status snapshot for a previously spawned swarm — status, task counts, and elapsed duration, without pulling full per-task results."
    }

    pub fn capabilities(&self) -> (r: Vec<ToolCapability>)
        ensures
            r@ == seq![ToolCapability::ReadOnly],
    {
        vec![ToolCapability::ReadOnly]
    }
}

/// What a status request for `swarm_id` is answered with, where `found` is the stored outcome.
pub fn answer_status(swarm_id: &str, found: Option<SwarmOutcome>) -> (r: Result<
    SwarmSnapshot,
    ToolError,
>)
    ensures
        match r {
            Ok(snapshot) => found is Some && snapshot.swarm_id@ == found->0@.swarm_id
                && snapshot.status == found->0@.status && snapshot.counts == found->0@.counts
                && snapshot.duration_ms == found->0@.duration_ms,
            Err(e) => found is None && e@ == not_found(swarm_id@),
        },
{
    match found {
        Some(outcome) => Ok(snapshot_of(&outcome)),
        None => Err(swarm_not_found(swarm_id)),
    }
}

/// Gives the full outcome of a swarm, waiting for its end if asked to.
pub struct SwarmResultTool {
    pub persistence_path: String,
}

impl SwarmResultTool {
    /// A tool for the swarms of a workspace.
    #[must_use]
    pub fn new(workspace: String) -> (tool: Self)
        ensures
            tool.persistence_path@ == state_path(workspace@),
    {
        SwarmResultTool { persistence_path: swarm_state_path(workspace.as_str()) }
    }

    pub fn name(&self) -> (r: &'static str)
        ensures
            r@ == "swarm_result"@,
    {
        "swarm_result"
    }

    pub fn description(&self) -> (r: &'static str)
        ensures
            r@
                == "Get full outcomes for a previously spawned swarm. Use `block: true` to wait for completion; returns task-level results, durations, errors, and aggregated counts."@,
    {
        "Get full outcomes for a previously spawned swarm. Use `block: true` to wait for completion; returns task-level results, durations, errors, and aggregated counts."
    }

    pub fn capabilities(&self) -> (r: Vec<ToolCapability>)
        ensures
            r@ == seq![ToolCapability::ReadOnly],
    {
        vec![ToolCapability::ReadOnly]
    }
}

/// What one look at a swarm leads to.
#[derive(Debug)]
pub enum PollStep {
    /// Answer with this outcome.
    Answer { outcome: SwarmOutcome, timed_out: bool },
    /// Answer with this error.
    Refuse(ToolError),
    /// Look again after a pause.
    Wait,
}

/// The value of a [`PollStep`].
pub enum PollStepView {
    Answer { outcome: SwarmOutcomeView, timed_out: bool },
    Refuse(ToolErrorView),
    Wait,
}

impl View for PollStep {
    type V = PollStepView;

    open spec fn view(&self) -> PollStepView {
        match self {
            PollStep::Answer { outcome, timed_out } => PollStepView::Answer {
                outcome: outcome@,
                timed_out: *timed_out,
            },
            PollStep::Refuse(error) => PollStepView::Refuse(error@),
            PollStep::Wait => PollStepView::Wait,
        }
    }
}

/// What one look at a swarm leads to: `found` is the stored outcome, `expired` says whether the
/// time to wait is over.
pub open spec fn poll_step(
    swarm_id: Seq<char>,
    found: Option<SwarmOutcomeView>,
    block: bool,
    expired: bool,
) -> PollStepView {
    match found {
        Some(outcome) => if !block || outcome.status.terminal() {
            PollStepView::Answer { outcome, timed_out: false }
        } else if expired {
            PollStepView::Answer { outcome, timed_out: true }
        } else {
            PollStepView::Wait
        },
        None => if !block || expired {
            PollStepView::Refuse(not_found(swarm_id))
        } else {
            PollStepView::Wait
        },
    }
}

/// What one look at a swarm leads to.
pub fn poll_swarm(swarm_id: &str, found: Option<SwarmOutcome>, block: bool, expired: bool) -> (r:
    PollStep)
    ensures
        r@ == poll_step(
            swarm_id@,
            match found {
                Some(outcome) => Some(outcome@),
                None => None,
            },
            block,
            expired,
        ),
{
    match found {
        Some(outcome) => {
            if !block || outcome.status.is_terminal() {
                PollStep::Answer { outcome, timed_out: false }
            } else if expired {
                PollStep::Answer { outcome, timed_out: true }
            } else {
                PollStep::Wait
            }
        },
        None => {
            if !block || expired {
                PollStep::Refuse(swarm_not_found(swarm_id))
            } else {
                PollStep::Wait
            }
        },
    }
}

/// The status in the metadata of an answer, if it has any.
pub fn answer_metadata_status(status: SwarmStatus, timed_out: bool) -> (r: Option<&'static str>)
    ensures
        match r {
            Some(label) => if timed_out {
                label@ == "TimedOut"@
            } else {
                !status.terminal() && label@ == "Running"@
            },
            None => !timed_out && status.terminal(),
        },
{
    if timed_out {
        Some("TimedOut")
    } else if !status.is_terminal() {
        Some("Running")
    } else {
        None
    }
}

/// Once the time to wait is over, a look at a swarm never leads to further waiting.
pub proof fn waiting_ends(swarm_id: Seq<char>, found: Option<SwarmOutcomeView>, block: bool)
    ensures
        poll_step(swarm_id, found, block, true) !is Wait,
{
}

/// Who waits for a swarm within the time gets its final outcome, and is not told of a timeout.
pub proof fn ended_swarms_are_answered(
    swarm_id: Seq<char>,
    outcome: SwarmOutcomeView,
    block: bool,
    expired: bool,
)
    requires
        outcome.status.terminal(),
    ensures
        poll_step(swarm_id, Some(outcome), block, expired) == (PollStepView::Answer {
            outcome,
            timed_out: false,
        }),
{
}

/// Who does not wait is answered at once: with what is stored of the swarm as it is, or that there is
/// no such swarm. Who waits is kept waiting just while the time is not over and the swarm has not
/// ended; at the end of the time the answer says so.
pub proof fn looks_lead_to_the_stored_outcome(
    swarm_id: Seq<char>,
    found: Option<SwarmOutcomeView>,
    block: bool,
    expired: bool,
)
    ensures
        ({
            let step = poll_step(swarm_id, found, block, expired);
            let ended = found is Some && found->0.status != SwarmStatus::Running;
            &&& step is Wait <==> block && !expired && !ended
            &&& step is Answer <==> found is Some && (!block || expired || ended)
            &&& step is Refuse <==> found is None && (!block || expired)
            &&& step is Answer ==> step->outcome == found->0 && (step->timed_out <==> block
                && expired && !ended)
            &&& step is Refuse ==> step->Refuse_0 == (ToolErrorView::ExecutionFailed {
                message: "Swarm '"@ + swarm_id + "' not found"@,
            })
        }),
{
}

/// The outcomes of a workspace are kept in a file below it, however the path of the workspace ends.
pub proof fn outcomes_are_kept_below_the_workspace(workspace: Seq<char>)
    requires
        workspace.len() > 0,
        workspace.last() != '/',
    ensures
        state_path(workspace) == workspace + "/"@ + ".deepseek"@ + "/"@ + "state"@ + "/"@
            + "swarm_outcomes.v1.json"@,
        state_path(workspace.push('/')) == state_path(workspace),
{
    reveal_strlit("/");
    reveal_strlit(".deepseek");
    reveal_strlit("state");
    let slashed = workspace.push('/');
    assert(slashed + ".deepseek"@ =~= workspace + "/"@ + ".deepseek"@);
    let below = joined(workspace, ".deepseek"@);
    assert(below.last() == 'k');
    let state = joined(below, "state"@);
    assert(state.last() == 'e');
}

/// The id of a swarm is the first eight characters of a UUID behind a fixed word.
pub proof fn swarm_ids_start_alike(uuid: Seq<char>, other: Seq<char>)
    requires
        uuid.len() >= 8,
        other.len() >= 8,
    ensures
        swarm_id_of(uuid).take(6) == "swarm_"@,
        swarm_id_of(uuid).skip(6) == uuid.take(8),
        swarm_id_of(uuid) == swarm_id_of(other) <==> uuid.take(8) == other.take(8),
{
    reveal_strlit("swarm_");
    assert(swarm_id_of(uuid).take(6) =~= "swarm_"@);
    assert(swarm_id_of(uuid).skip(6) =~= uuid.take(8));
    assert(swarm_id_of(other).skip(6) =~= other.take(8));
}

} // verus!
