//! What one task asks for: its agent, its role, its prompt, its retries and its time limit.

use crate::swarm::types::{
    SubAgentType, SwarmTaskSpec, SwarmTaskView, ToolError, ToolErrorView, DEFAULT_TASK_RETRY_DELAY_MS,
    MAX_TASK_RETRIES, MAX_TASK_RETRY_DELAY_MS, MAX_TASK_TIMEOUT_MS,
};
use crate::text;
use vstd::arithmetic::power2::*;
use vstd::prelude::*;
use vstd::string::*;

verus! {

/// The sections that every prompt asks the agent to return.
pub open spec fn return_sections() -> Seq<char> {
    "\n\nReturn sections:\nSUMMARY\nEVIDENCE\nCHANGES\nRISKS"@
}

/// The prompt that an agent is given: the shared context, if there is one, then the task.
pub open spec fn prompt_text(shared_context: Option<Seq<char>>, prompt: Seq<char>) -> Seq<char> {
    match shared_context {
        Some(context) => "Shared context (authoritative):\n"@ + context + "\n\nTask:\n"@ + prompt
            + return_sections(),
        None => prompt + return_sections(),
    }
}

/// The prompt that an agent is given.
pub fn format_prompt(shared_context: Option<&str>, prompt: &str) -> (r: String)
    ensures
        r@ == prompt_text(
            match shared_context {
                Some(context) => Some(context@),
                None => None,
            },
            prompt@,
        ),
{
    let mut out: String = String::new();
    if let Some(context) = shared_context {
        out.append("Shared context (authoritative):\n");
        out.append(context);
        out.append("\n\nTask:\n");
    }
    out.append(prompt);
    out.append("\n\nReturn sections:\nSUMMARY\nEVIDENCE\nCHANGES\nRISKS");
    assert(shared_context is None ==> out@ =~= prompt@ + return_sections());
    assert(shared_context matches Some(context) ==> out@ =~= "Shared context (authoritative):\n"@
        + context@ + "\n\nTask:\n"@ + prompt@ + return_sections());
    out
}

/// The role that an alias stands for; ASCII letter case does not matter.
pub open spec fn role_alias(input: Seq<char>) -> Option<Seq<char>> {
    let name = text::lower_ascii(input);
    if name == "default"@ {
        Some("default"@)
    } else if name == "worker"@ || name == "general"@ {
        Some("worker"@)
    } else if name == "explorer"@ || name == "explore"@ {
        Some("explorer"@)
    } else if name == "awaiter"@ || name == "plan"@ || name == "planner"@ {
        Some("awaiter"@)
    } else {
        None
    }
}

/// The role that an alias stands for.
pub fn normalize_role_alias(input: &str) -> (r: Option<&'static str>)
    ensures
        match r {
            Some(role) => role_alias(input@) == Some(role@),
            None => role_alias(input@) is None,
        },
{
    let lower: String = text::to_ascii_lowercase(input);
    let name: &str = lower.as_str();
    if text::same_text(name, "default") {
        Some("default")
    } else if text::same_text(name, "worker") || text::same_text(name, "general") {
        Some("worker")
    } else if text::same_text(name, "explorer") || text::same_text(name, "explore") {
        Some("explorer")
    } else if text::same_text(name, "awaiter") || text::same_text(name, "plan") || text::same_text(
        name,
        "planner",
    ) {
        Some("awaiter")
    } else {
        None
    }
}

/// The role of an agent whose task names none.
pub open spec fn default_role(agent_type: SubAgentType) -> Option<Seq<char>> {
    match agent_type {
        SubAgentType::General => Some("worker"@),
        SubAgentType::Explore => Some("explorer"@),
        SubAgentType::Plan => Some("awaiter"@),
        SubAgentType::Review => None,
        SubAgentType::Custom => None,
    }
}

/// The role of an agent whose task names none.
pub fn default_role_for_type(agent_type: &SubAgentType) -> (r: Option<&'static str>)
    ensures
        match r {
            Some(role) => default_role(*agent_type) == Some(role@),
            None => default_role(*agent_type) is None,
        },
{
    match agent_type {
        SubAgentType::General => Some("worker"),
        SubAgentType::Explore => Some("explorer"),
        SubAgentType::Plan => Some("awaiter"),
        SubAgentType::Review => None,
        SubAgentType::Custom => None,
    }
}

impl SubAgentType {
    /// The kind of agent that a name stands for: the name of the kind, or an alias of the role
    /// that the kind has by default. ASCII letter case does not matter. Which names count is
    /// settled by this table alone; "default" stands for the general kind.
    pub open spec fn named(name: Seq<char>) -> Option<SubAgentType> {
        let low = text::lower_ascii(name);
        if low == "general"@ || low == "worker"@ || low == "default"@ {
            Some(SubAgentType::General)
        } else if low == "explore"@ || low == "explorer"@ {
            Some(SubAgentType::Explore)
        } else if low == "plan"@ || low == "planner"@ || low == "awaiter"@ {
            Some(SubAgentType::Plan)
        } else if low == "review"@ {
            Some(SubAgentType::Review)
        } else if low == "custom"@ {
            Some(SubAgentType::Custom)
        } else {
            None
        }
    }

    /// The kind of agent that a name stands for.
    pub fn from_str(name: &str) -> (r: Option<SubAgentType>)
        ensures
            r == SubAgentType::named(name@),
    {
        let lower: String = text::to_ascii_lowercase(name);
        let low: &str = lower.as_str();
        if text::same_text(low, "general") || text::same_text(low, "worker") || text::same_text(
            low,
            "default",
        ) {
            Some(SubAgentType::General)
        } else if text::same_text(low, "explore") || text::same_text(low, "explorer") {
            Some(SubAgentType::Explore)
        } else if text::same_text(low, "plan") || text::same_text(low, "planner")
            || text::same_text(low, "awaiter") {
            Some(SubAgentType::Plan)
        } else if text::same_text(low, "review") {
            Some(SubAgentType::Review)
        } else if text::same_text(low, "custom") {
            Some(SubAgentType::Custom)
        } else {
            None
        }
    }
}

/// The agent, the role and the objective that a task resolves to.
pub struct AssignmentView {
    pub agent_type: SubAgentType,
    pub role: Option<Seq<char>>,
    pub objective: Seq<char>,
}

/// The role that a task names: its role without outer whitespace, if anything is left.
pub open spec fn named_role(task: SwarmTaskView) -> Option<Seq<char>> {
    match task.role {
        Some(role) => if text::trimmed(role).len() > 0 {
            Some(text::trimmed(role))
        } else {
            None
        },
        None => None,
    }
}

/// The kind of agent that the role of a task stands for.
pub open spec fn role_type(task: SwarmTaskView) -> Option<SubAgentType> {
    match named_role(task) {
        Some(role) => SubAgentType::named(role),
        None => None,
    }
}

/// A message about one task: `task '<id>'` and what follows.
pub open spec fn about_task(id: Seq<char>, rest: Seq<char>) -> Seq<char> {
    "task '"@ + id + rest
}

/// What a task resolves to, where its role stands for the kind `inferred`.
pub open spec fn assignment_with(
    task: SwarmTaskView,
    inferred: Option<SubAgentType>,
) -> Result<AssignmentView, ToolErrorView> {
    let prompt = text::trimmed(task.prompt);
    let objective = text::trimmed(
        match task.objective {
            Some(objective) => objective,
            None => prompt,
        },
    );
    let role = named_role(task);
    if prompt.len() == 0 {
        Err(
            ToolErrorView::InvalidInput {
                message: about_task(task.id, "' prompt cannot be empty"@),
            },
        )
    } else if objective.len() == 0 {
        Err(
            ToolErrorView::InvalidInput {
                message: about_task(task.id, "' objective cannot be empty"@),
            },
        )
    } else if role is Some && role_alias(role->0) is None {
        Err(
            ToolErrorView::InvalidInput {
                message: about_task(
                    task.id,
                    "' has invalid role '"@ + role->0
                        + "'. Use: worker, explorer, awaiter, default"@,
                ),
            },
        )
    } else if task.agent_type is Some && inferred is Some && task.agent_type != inferred {
        Err(
            ToolErrorView::InvalidInput {
                message: about_task(task.id, "' has conflicting type and role values"@),
            },
        )
    } else {
        let agent_type = match task.agent_type {
            Some(explicit) => explicit,
            None => match inferred {
                Some(kind) => kind,
                None => SubAgentType::General,
            },
        };
        Ok(
            AssignmentView {
                agent_type,
                role: match role {
                    Some(name) => role_alias(name),
                    None => default_role(agent_type),
                },
                objective,
            },
        )
    }
}

/// What a task resolves to.
pub open spec fn assignment(task: SwarmTaskView) -> Result<AssignmentView, ToolErrorView> {
    assignment_with(task, role_type(task))
}

/// The value of an assignment.
pub open spec fn assignment_view(
    r: Result<(SubAgentType, Option<String>, String), ToolError>,
) -> Result<AssignmentView, ToolErrorView> {
    match r {
        Ok((agent_type, role, objective)) => Ok(
            AssignmentView {
                agent_type,
                role: match role {
                    Some(name) => Some(name@),
                    None => None,
                },
                objective: objective@,
            },
        ),
        Err(e) => Err(e@),
    }
}

/// An invalid-input error about one task.
pub fn task_error(id: &str, rest: &str) -> (e: ToolError)
    ensures
        e@ == (ToolErrorView::InvalidInput { message: about_task(id@, rest@) }),
{
    let mut message: String = String::new();
    message.append("task '");
    message.append(id);
    message.append(rest);
    assert(message@ =~= about_task(id@, rest@));
    ToolError::InvalidInput { message }
}

/// The role that a task names.
pub fn task_role<'a>(task: &'a SwarmTaskSpec) -> (r: Option<&'a str>)
    ensures
        match r {
            Some(role) => named_role(task@) == Some(role@),
            None => named_role(task@) is None,
        },
{
    match &task.role {
        Some(role) => {
            let name: &str = text::trim(role.as_str());
            if name.is_empty() {
                None
            } else {
                Some(name)
            }
        },
        None => None,
    }
}

/// Resolves a task whose role stands for the kind `inferred`.
pub fn resolve_with_role_type(task: &SwarmTaskSpec, inferred: Option<SubAgentType>) -> (r: Result<
    (SubAgentType, Option<String>, String),
    ToolError,
>)
    ensures
        assignment_view(r) == assignment_with(task@, inferred),
{
    let prompt: &str = text::trim(task.prompt.as_str());
    if prompt.is_empty() {
        return Err(task_error(task.id.as_str(), "' prompt cannot be empty"));
    }
    let objective: &str = match &task.objective {
        Some(given) => text::trim(given.as_str()),
        None => text::trim(prompt),
    };
    if objective.is_empty() {
        return Err(task_error(task.id.as_str(), "' objective cannot be empty"));
    }
    let role: Option<&str> = task_role(task);
    let normalized: Option<&'static str> = match role {
        Some(name) => match normalize_role_alias(name) {
            Some(alias) => Some(alias),
            None => {
                let mut rest: String = String::new();
                rest.append("' has invalid role '");
                rest.append(name);
                rest.append("'. Use: worker, explorer, awaiter, default");
                assert(rest@ =~= "' has invalid role '"@ + name@
                    + "'. Use: worker, explorer, awaiter, default"@);
                return Err(task_error(task.id.as_str(), rest.as_str()));
            },
        },
        None => None,
    };
    if let (Some(explicit), Some(kind)) = (task.agent_type, inferred) {
        if explicit != kind {
            return Err(task_error(task.id.as_str(), "' has conflicting type and role values"));
        }
    }
    let agent_type: SubAgentType = match task.agent_type {
        Some(explicit) => explicit,
        None => match inferred {
            Some(kind) => kind,
            None => SubAgentType::General,
        },
    };
    let role_name: Option<&'static str> = match normalized {
        Some(alias) => Some(alias),
        None => default_role_for_type(&agent_type),
    };
    let role_text: Option<String> = match role_name {
        Some(name) => Some(name.to_string()),
        None => None,
    };
    Ok((agent_type, role_text, objective.to_string()))
}

/// The agent, the role and the objective of a task.
pub fn resolve_task_assignment(task: &SwarmTaskSpec) -> (r: Result<
    (SubAgentType, Option<String>, String),
    ToolError,
>)
    ensures
        assignment_view(r) == assignment(task@),
{
    let inferred: Option<SubAgentType> = match task_role(task) {
        Some(role) => SubAgentType::from_str(role),
        None => None,
    };
    resolve_with_role_type(task, inferred)
}

/// How often a task is tried again after its first attempt.
pub open spec fn retries(task: SwarmTaskView) -> nat {
    match task.retry_count {
        Some(count) => if count <= MAX_TASK_RETRIES {
            count as nat
        } else {
            MAX_TASK_RETRIES as nat
        },
        None => 0,
    }
}

/// How often a task is tried again after its first attempt.
pub fn task_retry_count(task: &SwarmTaskSpec) -> (r: u32)
    ensures
        r == retries(task@),
{
    let count: u32 = task.retry_count.unwrap_or(0);
    if count <= MAX_TASK_RETRIES {
        count
    } else {
        MAX_TASK_RETRIES
    }
}

/// A number brought into a range.
pub open spec fn clamped(n: int, low: int, high: int) -> int {
    if n < low {
        low
    } else if n > high {
        high
    } else {
        n
    }
}

/// A number brought into a range.
pub fn clamp(n: u64, low: u64, high: u64) -> (r: u64)
    requires
        low <= high,
    ensures
        r == clamped(n as int, low as int, high as int),
{
    if n < low {
        low
    } else if n > high {
        high
    } else {
        n
    }
}

/// The delay before the first retry of a task, in milliseconds.
pub open spec fn base_delay(task: SwarmTaskView) -> int {
    clamped(
        match task.retry_delay_ms {
            Some(delay) => delay as int,
            None => DEFAULT_TASK_RETRY_DELAY_MS as int,
        },
        1,
        MAX_TASK_RETRY_DELAY_MS as int,
    )
}

/// The delay before the first retry of a task, in milliseconds.
pub fn task_retry_delay_ms(task: &SwarmTaskSpec) -> (r: u64)
    ensures
        r == base_delay(task@),
{
    clamp(task.retry_delay_ms.unwrap_or(DEFAULT_TASK_RETRY_DELAY_MS), 1, MAX_TASK_RETRY_DELAY_MS)
}

/// The time that one attempt at a task may take, in milliseconds, if it is limited.
pub open spec fn time_limit(task: SwarmTaskView) -> Option<u64> {
    match task.task_timeout_ms {
        Some(limit) => Some(clamped(limit as int, 1, MAX_TASK_TIMEOUT_MS as int) as u64),
        None => None,
    }
}

/// The time that one attempt at a task may take, in milliseconds, if it is limited.
pub fn task_timeout(task: &SwarmTaskSpec) -> (r: Option<u64>)
    ensures
        r == time_limit(task@),
{
    match task.task_timeout_ms {
        Some(limit) => Some(clamp(limit, 1, MAX_TASK_TIMEOUT_MS)),
        None => None,
    }
}

/// How often the delay has doubled once `attempts` attempts were made.
pub open spec fn doublings(attempts: nat) -> nat {
    if attempts <= 1 {
        0
    } else if attempts <= 9 {
        (attempts - 1) as nat
    } else {
        8
    }
}

/// The delay before the next attempt once `attempts` attempts were made, in milliseconds: the
/// delay doubles with each attempt and is capped.
pub open spec fn retry_delay(task: SwarmTaskView, attempts: nat) -> int {
    let delay = base_delay(task) * pow2(doublings(attempts));
    if delay <= MAX_TASK_RETRY_DELAY_MS {
        delay
    } else {
        MAX_TASK_RETRY_DELAY_MS as int
    }
}

/// The delay before the next attempt once `attempts_made` attempts were made, in milliseconds.
pub fn retry_delay_for_attempt(task: &SwarmTaskSpec, attempts_made: u32) -> (r: u64)
    ensures
        r == retry_delay(task@, attempts_made as nat),
{
    let base: u64 = task_retry_delay_ms(task);
    let earlier: u32 = attempts_made.saturating_sub(1);
    let exponent: u32 = if earlier < 8 {
        earlier
    } else {
        8
    };
    proof {
        lemma2_to64();
        vstd::bits::lemma_u64_shl_is_mul(1, exponent as u64);
        if exponent < 8 {
            lemma_pow2_strictly_increases(exponent as nat, 8);
        }
    }
    let factor: u64 = 1u64 << exponent;
    assert(base * factor <= 60_000 * 256) by (nonlinear_arith)
        requires
            base <= 60_000,
            factor <= 256,
    ;
    let delay: u64 = base * factor;
    if delay <= MAX_TASK_RETRY_DELAY_MS {
        delay
    } else {
        MAX_TASK_RETRY_DELAY_MS
    }
}

/// The delay before a retry is at least one millisecond and at most the cap, and never shrinks
/// from one attempt to the next.
pub proof fn retry_delay_is_bounded_and_monotone(task: SwarmTaskView, earlier: nat, later: nat)
    requires
        earlier <= later,
    ensures
        1 <= retry_delay(task, earlier) <= retry_delay(task, later) <= MAX_TASK_RETRY_DELAY_MS,
{
    let low = doublings(earlier);
    let high = doublings(later);
    lemma2_to64();
    if low < high {
        lemma_pow2_strictly_increases(low, high);
    }
    if 0 < low {
        lemma_pow2_strictly_increases(0, low);
    }
    let base = base_delay(task);
    let small = pow2(low);
    let large = pow2(high);
    assert(1 <= base * small <= base * large) by (nonlinear_arith)
        requires
            1 <= base,
            1 <= small <= large,
    ;
}

/// The roles that a task can name.
pub open spec fn is_documented_role(role: Seq<char>) -> bool {
    role == "worker"@ || role == "explorer"@ || role == "awaiter"@ || role == "default"@
}

/// Letter case apart, each of the documented roles stands for itself, each name of a kind that has a
/// role by default stands for that role, and nothing else is a role.
pub proof fn roles_stand_for_themselves(input: Seq<char>)
    ensures
        is_documented_role(text::lower_ascii(input)) ==> role_alias(input) == Some(
            text::lower_ascii(input),
        ),
        role_alias(input) matches Some(role) ==> is_documented_role(role) && role_alias(role)
            == Some(role),
        text::lower_ascii(input) == "general"@ ==> role_alias(input) == default_role(
            SubAgentType::General,
        ),
        text::lower_ascii(input) == "explore"@ ==> role_alias(input) == default_role(
            SubAgentType::Explore,
        ),
        text::lower_ascii(input) == "plan"@ || text::lower_ascii(input) == "planner"@
            ==> role_alias(input) == default_role(SubAgentType::Plan),
        role_alias(input) is Some ==> is_documented_role(text::lower_ascii(input))
            || text::lower_ascii(input) == "general"@ || text::lower_ascii(input) == "explore"@
            || text::lower_ascii(input) == "plan"@ || text::lower_ascii(input) == "planner"@,
{
    lemma_names_differ();
}

/// Of the names in the tables each is in lower case, and no two are equal.
proof fn lemma_names_differ()
    ensures
        text::lower_ascii("worker"@) == "worker"@,
        text::lower_ascii("explorer"@) == "explorer"@,
        text::lower_ascii("awaiter"@) == "awaiter"@,
        text::lower_ascii("default"@) == "default"@,
        "default"@.len() == 7,
        "worker"@.len() == 6,
        "general"@.len() == 7,
        "explorer"@.len() == 8,
        "explore"@.len() == 7,
        "awaiter"@.len() == 7,
        "plan"@.len() == 4,
        "planner"@.len() == 7,
        "review"@.len() == 6,
        "custom"@.len() == 6,
        "default"@[0] == 'd',
        "worker"@[0] == 'w',
        "general"@[0] == 'g',
        "explore"@[0] == 'e',
        "awaiter"@[0] == 'a',
        "planner"@[0] == 'p',
        "review"@[0] == 'r',
        "custom"@[0] == 'c',
{
    reveal_strlit("worker");
    reveal_strlit("explorer");
    reveal_strlit("awaiter");
    reveal_strlit("default");
    reveal_strlit("general");
    reveal_strlit("explore");
    reveal_strlit("plan");
    reveal_strlit("planner");
    reveal_strlit("review");
    reveal_strlit("custom");
    assert(text::lower_ascii("worker"@) =~= "worker"@);
    assert(text::lower_ascii("explorer"@) =~= "explorer"@);
    assert(text::lower_ascii("awaiter"@) =~= "awaiter"@);
    assert(text::lower_ascii("default"@) =~= "default"@);
}

/// The role that a kind of agent has by default is a documented role, stands for itself, and stands
/// for that kind.
pub proof fn default_roles_are_roles(agent_type: SubAgentType)
    ensures
        default_role(agent_type) matches Some(role) ==> is_documented_role(role) && role_alias(role)
            == Some(role) && SubAgentType::named(role) == Some(agent_type),
        default_role(agent_type) is None <==> agent_type == SubAgentType::Review || agent_type
            == SubAgentType::Custom,
{
    lemma_names_differ();
}

/// The name of each kind of agent stands for that kind.
pub proof fn kinds_have_names(name: Seq<char>)
    ensures
        text::lower_ascii(name) == "general"@ ==> SubAgentType::named(name) == Some(
            SubAgentType::General,
        ),
        text::lower_ascii(name) == "explore"@ ==> SubAgentType::named(name) == Some(
            SubAgentType::Explore,
        ),
        text::lower_ascii(name) == "plan"@ ==> SubAgentType::named(name) == Some(SubAgentType::Plan),
        text::lower_ascii(name) == "review"@ ==> SubAgentType::named(name) == Some(
            SubAgentType::Review,
        ),
        text::lower_ascii(name) == "custom"@ ==> SubAgentType::named(name) == Some(
            SubAgentType::Custom,
        ),
        role_alias(name) is Some ==> SubAgentType::named(name) is Some,
{
    lemma_names_differ();
}

/// A task with a prompt and a documented role, and with neither an objective nor a kind of its own,
/// resolves to that role, to the kind that has this role by default, and to its prompt as the
/// objective. Whitespace around the role and the prompt does not matter.
pub proof fn tasks_with_a_role_resolve_to_it(task: SwarmTaskView, role: Seq<char>)
    requires
        text::trimmed(task.prompt).len() > 0,
        task.objective is None,
        task.agent_type is None,
        task.role is Some,
        text::trimmed(task.role->0) == role,
        is_documented_role(role),
    ensures
        assignment(task) is Ok,
        assignment(task)->Ok_0.role == Some(role),
        assignment(task)->Ok_0.objective == text::trimmed(task.prompt),
        role != "default"@ ==> default_role(assignment(task)->Ok_0.agent_type) == Some(role),
        role == "default"@ ==> assignment(task)->Ok_0.agent_type == SubAgentType::General,
{
    lemma_names_differ();
    text::trimming_is_idempotent(task.prompt);
}

/// A task without a role resolves to the role that its kind has by default; without a kind it is a
/// general one. Its objective is the one that it gives, or its prompt.
pub proof fn tasks_without_a_role_get_the_default(task: SwarmTaskView)
    requires
        text::trimmed(task.prompt).len() > 0,
        task.objective is Some ==> text::trimmed(task.objective->0).len() > 0,
        task.role is None || text::trimmed(task.role->0).len() == 0,
    ensures
        assignment(task) is Ok,
        assignment(task)->Ok_0.agent_type == (if task.agent_type is Some {
            task.agent_type->0
        } else {
            SubAgentType::General
        }),
        assignment(task)->Ok_0.role == default_role(assignment(task)->Ok_0.agent_type),
        task.objective is Some ==> assignment(task)->Ok_0.objective == text::trimmed(
            task.objective->0,
        ),
        task.objective is None ==> assignment(task)->Ok_0.objective == text::trimmed(task.prompt),
{
    text::trimming_is_idempotent(task.prompt);
}

/// A task is refused exactly if its prompt or its objective is blank, if it names something that is
/// no role, or if its kind and its role do not go together; and the refusal says which, of which
/// task, by the first of these that holds.
pub proof fn refusals_name_the_fault(task: SwarmTaskView)
    ensures
        ({
            let no_prompt = text::trimmed(task.prompt).len() == 0;
            let no_objective = task.objective is Some && text::trimmed(task.objective->0).len()
                == 0;
            let role = text::trimmed(task.role->0);
            let has_role = task.role is Some && role.len() > 0;
            let no_role = has_role && role_alias(role) is None;
            let conflict = has_role && task.agent_type is Some && SubAgentType::named(role) is Some
                && task.agent_type != SubAgentType::named(role);
            &&& assignment(task) is Err <==> no_prompt || no_objective || no_role || conflict
            &&& no_prompt ==> assignment(task) == Err::<AssignmentView, _>(
                ToolErrorView::InvalidInput {
                    message: "task '"@ + task.id + "' prompt cannot be empty"@,
                },
            )
            &&& !no_prompt && no_objective ==> assignment(task) == Err::<AssignmentView, _>(
                ToolErrorView::InvalidInput {
                    message: "task '"@ + task.id + "' objective cannot be empty"@,
                },
            )
            &&& !no_prompt && !no_objective && no_role ==> assignment(task)
                == Err::<AssignmentView, _>(
                ToolErrorView::InvalidInput {
                    message: "task '"@ + task.id + ("' has invalid role '"@ + role
                        + "'. Use: worker, explorer, awaiter, default"@),
                },
            )
            &&& !no_prompt && !no_objective && !no_role && conflict ==> assignment(task)
                == Err::<AssignmentView, _>(
                ToolErrorView::InvalidInput {
                    message: "task '"@ + task.id + "' has conflicting type and role values"@,
                },
            )
        }),
{
    text::trimming_is_idempotent(task.prompt);
}

/// A task is tried again as often as it asks for, and at most ten times.
pub proof fn retries_are_those_asked_for(task: SwarmTaskView)
    ensures
        task.retry_count is None ==> retries(task) == 0,
        task.retry_count matches Some(count) ==> retries(task) <= count && retries(task) <= 10 && (
        retries(task) == count || retries(task) == 10),
{
}

/// The first retry waits for the delay that the task asks for, a second where it asks for none, and
/// each later one twice as long as the one before, up to the ninth attempt and up to a minute.
pub proof fn delays_double(task: SwarmTaskView, attempts: nat)
    requires
        1 <= attempts <= 8,
    ensures
        task.retry_delay_ms is None ==> retry_delay(task, 1) == 1_000,
        task.retry_delay_ms matches Some(delay) ==> 1 <= delay <= 60_000 ==> retry_delay(task, 1)
            == delay,
        task.retry_delay_ms == Some(0u64) ==> retry_delay(task, 1) == 1,
        2 * retry_delay(task, attempts) <= 60_000 ==> retry_delay(task, attempts + 1) == 2
            * retry_delay(task, attempts),
        2 * retry_delay(task, attempts) > 60_000 ==> retry_delay(task, attempts + 1) == 60_000,
        retry_delay(task, 10) == retry_delay(task, 9),
{
    lemma2_to64();
    lemma_pow2_unfold(doublings(attempts + 1));
    let base = base_delay(task);
    let small = pow2(doublings(attempts));
    let large = pow2(doublings(attempts + 1));
    assert(base * large == 2 * (base * small)) by (nonlinear_arith)
        requires
            large == 2 * small,
    ;
    assert(base * 1 == base);
}

/// A prompt holds the task as it was given, behind the shared context where there is one, and asks
/// for the same sections in either case.
pub proof fn prompts_hold_the_task(context: Seq<char>, prompt: Seq<char>, other: Seq<char>)
    ensures
        prompt_text(None, prompt).take(prompt.len() as int) == prompt,
        prompt_text(None, prompt).skip(prompt.len() as int) == prompt_text(None, other).skip(
            other.len() as int,
        ),
        text::has_text(prompt_text(None, prompt), "SUMMARY\nEVIDENCE\nCHANGES\nRISKS"@),
        prompt_text(Some(context), prompt) == "Shared context (authoritative):\n"@ + context
            + "\n\nTask:\n"@ + prompt_text(None, prompt),
{
    assert(prompt_text(None, prompt).take(prompt.len() as int) =~= prompt);
    assert(prompt_text(None, prompt).skip(prompt.len() as int) =~= return_sections());
    assert(prompt_text(None, other).skip(other.len() as int) =~= return_sections());
    assert(prompt_text(Some(context), prompt) =~= "Shared context (authoritative):\n"@ + context
        + "\n\nTask:\n"@ + prompt_text(None, prompt));
    reveal_strlit("\n\nReturn sections:\nSUMMARY\nEVIDENCE\nCHANGES\nRISKS");
    reveal_strlit("SUMMARY\nEVIDENCE\nCHANGES\nRISKS");
    let full = prompt_text(None, prompt);
    let wanted = "SUMMARY\nEVIDENCE\nCHANGES\nRISKS"@;
    let at = full.len() - wanted.len();
    assert(full.subrange(at, full.len() as int) =~= wanted);
    assert(text::occurs_at(full, wanted, at));
}

} // verus!
