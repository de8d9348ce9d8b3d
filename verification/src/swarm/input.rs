//! The JSON input of the swarm tools.

use crate::swarm::run::RunPlan;
use crate::swarm::task;
use crate::swarm::types;
use crate::swarm::types::{
    SwarmTaskSpec, ToolError, ToolErrorView, DEFAULT_SWARM_RESULT_TIMEOUT_MS,
    DEFAULT_SWARM_TIMEOUT_MS, DEFAULT_SWARM_TIMEOUT_NONBLOCK_MS, MAX_SWARM_TIMEOUT_MS,
    MIN_SWARM_TIMEOUT_MS,
};
use crate::swarm::validate;
use crate::text;
use vstd::prelude::*;
use vstd::string::*;

verus! {

/// A JSON value.
#[verifier::external_type_specification]
#[verifier::external_body]
pub struct ExJsonValue(serde_json::Value);

/// The members of a JSON object, by key; a value of another kind has none.
pub uninterp spec fn json_members(value: serde_json::Value) -> Map<Seq<char>, serde_json::Value>;

/// The text that a JSON value holds, if it is a string.
pub uninterp spec fn json_text(value: serde_json::Value) -> Option<Seq<char>>;

/// The truth value that a JSON value holds, if it is one.
pub uninterp spec fn json_bool(value: serde_json::Value) -> Option<bool>;

/// The number that a JSON value holds, if it is an integer that fits.
pub uninterp spec fn json_u64(value: serde_json::Value) -> Option<u64>;

/// `serde_json::Value::get` with a text as the index: the member of an object with that key, and
/// nothing where the value is no object or has no such member.
#[verifier::external_body]
fn json_get<'a>(value: &'a serde_json::Value, key: &str) -> (r: Option<&'a serde_json::Value>)
    ensures
        match r {
            Some(member) => json_members(*value).contains_key(key@) && json_members(*value)[key@]
                == *member,
            None => !json_members(*value).contains_key(key@),
        },
{
    value.get(key)
}

/// `serde_json::Value::as_str` gives the text of a string, and nothing for any other value.
pub assume_specification[ serde_json::Value::as_str ](value: &serde_json::Value) -> (r: Option<
    &str,
>)
    ensures
        match r {
            Some(content) => json_text(*value) == Some(content@),
            None => json_text(*value) is None,
        },
;

/// `serde_json::Value::as_bool` gives the truth value of a boolean, and nothing for any other
/// value.
pub assume_specification[ serde_json::Value::as_bool ](value: &serde_json::Value) -> (r: Option<
    bool,
>)
    ensures
        r == json_bool(*value),
;

/// `serde_json::Value::as_u64` gives the value of a number that is an integer in the range of
/// `u64`, and nothing for any other value.
pub assume_specification[ serde_json::Value::as_u64 ](value: &serde_json::Value) -> (r: Option<
    u64,
>)
    ensures
        r == json_u64(*value),
;

/// The text of a member, if there is such a member and it is a string.
pub open spec fn text_member(input: serde_json::Value, key: Seq<char>) -> Option<Seq<char>> {
    if json_members(input).contains_key(key) {
        json_text(json_members(input)[key])
    } else {
        None
    }
}

/// The truth value of a member, if there is such a member and it is a boolean.
pub open spec fn bool_member(input: serde_json::Value, key: Seq<char>) -> Option<bool> {
    if json_members(input).contains_key(key) {
        json_bool(json_members(input)[key])
    } else {
        None
    }
}

/// The number in a member, if there is such a member and it is an integer that fits.
pub open spec fn u64_member(input: serde_json::Value, key: Seq<char>) -> Option<u64> {
    if json_members(input).contains_key(key) {
        json_u64(json_members(input)[key])
    } else {
        None
    }
}

/// The text of a member, if there is such a member and it is a string.
pub fn optional_str<'a>(input: &'a serde_json::Value, key: &str) -> (r: Option<&'a str>)
    ensures
        match r {
            Some(content) => text_member(*input, key@) == Some(content@),
            None => text_member(*input, key@) is None,
        },
{
    match json_get(input, key) {
        Some(member) => member.as_str(),
        None => None,
    }
}

/// The truth value of a member, or `default` where there is none.
pub fn optional_bool(input: &serde_json::Value, key: &str, default: bool) -> (r: bool)
    ensures
        r == (match bool_member(*input, key@) {
            Some(flag) => flag,
            None => default,
        }),
{
    match json_get(input, key) {
        Some(member) => member.as_bool().unwrap_or(default),
        None => default,
    }
}

/// The number in a member, or `default` where there is none.
pub fn optional_u64(input: &serde_json::Value, key: &str, default: u64) -> (r: u64)
    ensures
        r == (match u64_member(*input, key@) {
            Some(number) => number,
            None => default,
        }),
{
    match json_get(input, key) {
        Some(member) => member.as_u64().unwrap_or(default),
        None => default,
    }
}

/// The text that names a swarm: that of the member `swarm_id`, or of `id` where there is no member
/// `swarm_id`.
pub open spec fn given_swarm_id(input: serde_json::Value) -> Option<Seq<char>> {
    if json_members(input).contains_key("swarm_id"@) {
        text_member(input, "swarm_id"@)
    } else {
        text_member(input, "id"@)
    }
}

/// The swarm id in a text: what is left without outer whitespace, if anything is left.
pub open spec fn accepted_swarm_id(given: Option<Seq<char>>) -> Result<Seq<char>, ToolErrorView> {
    match given {
        Some(content) => if text::trimmed(content).len() > 0 {
            Ok(text::trimmed(content))
        } else {
            Err(ToolErrorView::MissingField { field: "swarm_id"@ })
        },
        None => Err(ToolErrorView::MissingField { field: "swarm_id"@ }),
    }
}

/// The value of a swarm id that was read.
pub open spec fn id_result(r: Result<&str, ToolError>) -> Result<Seq<char>, ToolErrorView> {
    match r {
        Ok(id) => Ok(id@),
        Err(e) => Err(e@),
    }
}

/// The swarm id in a text.
pub fn accept_swarm_id<'a>(given: Option<&'a str>) -> (r: Result<&'a str, ToolError>)
    ensures
        id_result(r) == accepted_swarm_id(
            match given {
                Some(content) => Some(content@),
                None => None,
            },
        ),
{
    if let Some(content) = given {
        let id: &str = text::trim(content);
        if !id.is_empty() {
            return Ok(id);
        }
    }
    Err(ToolError::MissingField { field: "swarm_id".to_string() })
}

/// The swarm id that the input of a tool names.
pub fn parse_swarm_id<'a>(input: &'a serde_json::Value) -> (r: Result<&'a str, ToolError>)
    ensures
        id_result(r) == accepted_swarm_id(given_swarm_id(*input)),
{
    let given: Option<&str> = match json_get(input, "swarm_id") {
        Some(member) => member.as_str(),
        None => optional_str(input, "id"),
    };
    accept_swarm_id(given)
}

/// The list of tasks in the input of a swarm.
pub fn tasks_value<'a>(input: &'a serde_json::Value) -> (r: Result<&'a serde_json::Value, ToolError>)
    ensures
        match r {
            Ok(tasks) => json_members(*input).contains_key("tasks"@) && *tasks == json_members(
                *input,
            )["tasks"@],
            Err(e) => !json_members(*input).contains_key("tasks"@) && e@
                == (ToolErrorView::MissingField { field: "tasks"@ }),
        },
{
    match json_get(input, "tasks") {
        Some(tasks) => Ok(tasks),
        None => Err(ToolError::MissingField { field: "tasks".to_string() }),
    }
}

/// The error for a list of tasks that cannot be read, for the given reason.
pub fn invalid_tasks_payload(reason: &str) -> (e: ToolError)
    ensures
        e@ == (ToolErrorView::InvalidInput { message: "Invalid tasks payload: "@ + reason@ }),
{
    let mut message: String = "Invalid tasks payload: ".to_string();
    message.append(reason);
    ToolError::InvalidInput { message }
}

/// How a swarm is to be run.
#[derive(Debug)]
pub struct SwarmSettings {
    /// Whether the caller waits for the swarm to end.
    pub block: bool,
    pub timeout_ms: u64,
    pub fail_fast: bool,
    pub shared_context: Option<String>,
    pub max_parallel: usize,
}

/// The value of [`SwarmSettings`].
pub struct SwarmSettingsView {
    pub block: bool,
    pub timeout_ms: int,
    pub fail_fast: bool,
    pub shared_context: Option<Seq<char>>,
    pub max_parallel: int,
}

impl View for SwarmSettings {
    type V = SwarmSettingsView;

    open spec fn view(&self) -> SwarmSettingsView {
        SwarmSettingsView {
            block: self.block,
            timeout_ms: self.timeout_ms as int,
            fail_fast: self.fail_fast,
            shared_context: types::optional_text(self.shared_context),
            max_parallel: self.max_parallel as int,
        }
    }
}

/// What is given of the settings of a swarm.
pub struct GivenSettings<'a> {
    pub block: Option<bool>,
    pub timeout_ms: Option<u64>,
    pub fail_fast: Option<bool>,
    pub shared_context: Option<&'a str>,
    pub max_parallel: Option<u64>,
}

/// The settings of a swarm of which some are given, where `max_agents` agents may run at once.
pub open spec fn settings(
    block: Option<bool>,
    timeout_ms: Option<u64>,
    fail_fast: Option<bool>,
    shared_context: Option<Seq<char>>,
    max_parallel: Option<u64>,
    max_agents: int,
) -> SwarmSettingsView {
    let waits = match block {
        Some(flag) => flag,
        None => true,
    };
    SwarmSettingsView {
        block: waits,
        timeout_ms: task::clamped(
            match timeout_ms {
                Some(given) => given as int,
                None => if waits {
                    DEFAULT_SWARM_TIMEOUT_MS as int
                } else {
                    DEFAULT_SWARM_TIMEOUT_NONBLOCK_MS as int
                },
            },
            MIN_SWARM_TIMEOUT_MS as int,
            MAX_SWARM_TIMEOUT_MS as int,
        ),
        fail_fast: match fail_fast {
            Some(flag) => flag,
            None => false,
        },
        shared_context: match shared_context {
            Some(context) => if text::trimmed(context).len() > 0 {
                Some(text::trimmed(context))
            } else {
                None
            },
            None => None,
        },
        max_parallel: task::clamped(
            match max_parallel {
                Some(given) => given as int,
                None => max_agents,
            },
            1,
            max_agents,
        ),
    }
}

/// The settings of a swarm of which some are given.
pub fn settings_from(given: GivenSettings, max_agents: usize) -> (r: SwarmSettings)
    requires
        max_agents >= 1,
    ensures
        r@ == settings(
            given.block,
            given.timeout_ms,
            given.fail_fast,
            match given.shared_context {
                Some(context) => Some(context@),
                None => None,
            },
            given.max_parallel,
            max_agents as int,
        ),
{
    let block: bool = given.block.unwrap_or(true);
    let default_timeout: u64 = if block {
        DEFAULT_SWARM_TIMEOUT_MS
    } else {
        DEFAULT_SWARM_TIMEOUT_NONBLOCK_MS
    };
    let timeout_ms: u64 = task::clamp(
        given.timeout_ms.unwrap_or(default_timeout),
        MIN_SWARM_TIMEOUT_MS,
        MAX_SWARM_TIMEOUT_MS,
    );
    let shared_context: Option<String> = match given.shared_context {
        Some(context) => {
            let trimmed: &str = text::trim(context);
            if trimmed.is_empty() {
                None
            } else {
                Some(trimmed.to_string())
            }
        },
        None => None,
    };
    let limit: u64 = max_agents as u64;
    let max_parallel: u64 = task::clamp(given.max_parallel.unwrap_or(limit), 1, limit);
    SwarmSettings {
        block,
        timeout_ms,
        fail_fast: given.fail_fast.unwrap_or(false),
        shared_context,
        max_parallel: max_parallel as usize,
    }
}

/// The settings in the input of a swarm.
pub fn swarm_settings(input: &serde_json::Value, max_agents: usize) -> (r: SwarmSettings)
    requires
        max_agents >= 1,
    ensures
        r@ == settings(
            bool_member(*input, "block"@),
            u64_member(*input, "timeout_ms"@),
            bool_member(*input, "fail_fast"@),
            text_member(*input, "shared_context"@),
            u64_member(*input, "max_parallel"@),
            max_agents as int,
        ),
{
    let given: GivenSettings = GivenSettings {
        block: given_bool(input, "block"),
        timeout_ms: given_u64(input, "timeout_ms"),
        fail_fast: given_bool(input, "fail_fast"),
        shared_context: optional_str(input, "shared_context"),
        max_parallel: given_u64(input, "max_parallel"),
    };
    settings_from(given, max_agents)
}

fn given_bool(input: &serde_json::Value, key: &str) -> (r: Option<bool>)
    ensures
        r == bool_member(*input, key@),
{
    match json_get(input, key) {
        Some(member) => member.as_bool(),
        None => None,
    }
}

fn given_u64(input: &serde_json::Value, key: &str) -> (r: Option<u64>)
    ensures
        r == u64_member(*input, key@),
{
    match json_get(input, key) {
        Some(member) => member.as_u64(),
        None => None,
    }
}

/// What the input of a tool says about waiting for a swarm.
#[derive(Clone, Copy, Debug, PartialEq, Eq, Structural)]
pub struct WaitSettings {
    pub block: bool,
    pub timeout_ms: u64,
}

/// What the input of a tool says about waiting for a swarm: by default there is no waiting.
pub fn wait_settings(input: &serde_json::Value) -> (r: WaitSettings)
    ensures
        r.block == (match bool_member(*input, "block"@) {
            Some(flag) => flag,
            None => false,
        }),
        r.timeout_ms == task::clamped(
            match u64_member(*input, "timeout_ms"@) {
                Some(given) => given as int,
                None => DEFAULT_SWARM_RESULT_TIMEOUT_MS as int,
            },
            MIN_SWARM_TIMEOUT_MS as int,
            MAX_SWARM_TIMEOUT_MS as int,
        ),
{
    WaitSettings {
        block: optional_bool(input, "block", false),
        timeout_ms: task::clamp(
            optional_u64(input, "timeout_ms", DEFAULT_SWARM_RESULT_TIMEOUT_MS),
            MIN_SWARM_TIMEOUT_MS,
            MAX_SWARM_TIMEOUT_MS,
        ),
    }
}

/// A run of the given tasks, if they make a swarm. Progress is published where nobody waits.
pub fn plan_swarm(swarm_id: String, tasks: Vec<SwarmTaskSpec>, settings: SwarmSettings) -> (r:
    Result<RunPlan, ToolError>)
    ensures
        match r {
            Ok(plan) => {
                &&& validate::valid_tasks(types::task_views(tasks@))
                &&& plan@.swarm_id == swarm_id@
                &&& plan@.tasks == types::task_views(tasks@)
                &&& plan@.shared_context == settings@.shared_context
                &&& plan@.timeout_ms == settings@.timeout_ms
                &&& plan@.max_parallel == settings@.max_parallel
                &&& plan@.fail_fast == settings@.fail_fast
                &&& plan@.publish_progress == !settings@.block
            },
            Err(e) => validate::validation_error(types::task_views(tasks@)) == Some(e@),
        },
{
    proof {
        validate::validation_accepts_exactly_valid_tasks(types::task_views(tasks@));
    }
    match validate::validate_swarm_tasks(&tasks) {
        Ok(_) => Ok(
            RunPlan {
                swarm_id,
                tasks,
                shared_context: settings.shared_context,
                timeout_ms: settings.timeout_ms,
                max_parallel: settings.max_parallel,
                fail_fast: settings.fail_fast,
                publish_progress: !settings.block,
            },
        ),
        Err(e) => Err(e),
    }
}

/// A swarm is given what it asks for where that is in range: from a second to an hour, and from one
/// agent to as many as may run. What is out of range is brought to the nearer end, and what is not
/// given is: to wait, ten minutes, no stop at the first failure, and as many agents as may run.
pub proof fn settings_are_those_given(
    block: Option<bool>,
    timeout_ms: Option<u64>,
    fail_fast: Option<bool>,
    shared_context: Option<Seq<char>>,
    max_parallel: Option<u64>,
    max_agents: int,
)
    requires
        max_agents >= 1,
    ensures
        ({
            let s = settings(block, timeout_ms, fail_fast, shared_context, max_parallel, max_agents);
            &&& s.block == (block != Some(false))
            &&& s.fail_fast == (fail_fast == Some(true))
            &&& 1_000 <= s.timeout_ms <= 3_600_000
            &&& timeout_ms is None ==> s.timeout_ms == 600_000
            &&& timeout_ms matches Some(given) ==> {
                &&& 1_000 <= given <= 3_600_000 ==> s.timeout_ms == given
                &&& given < 1_000 ==> s.timeout_ms == 1_000
                &&& given > 3_600_000 ==> s.timeout_ms == 3_600_000
            }
            &&& 1 <= s.max_parallel <= max_agents
            &&& max_parallel is None ==> s.max_parallel == max_agents
            &&& max_parallel matches Some(given) ==> {
                &&& 1 <= given <= max_agents ==> s.max_parallel == given
                &&& given < 1 ==> s.max_parallel == 1
                &&& given > max_agents ==> s.max_parallel == max_agents
            }
            &&& shared_context is None ==> s.shared_context is None
            &&& shared_context matches Some(given) ==> {
                &&& text::trimmed(given).len() == 0 ==> s.shared_context is None
                &&& text::trimmed(given).len() > 0 ==> s.shared_context == Some(text::trimmed(given))
            }
        }),
{
}

/// A swarm is named by `swarm_id`, or by `id` where there is no `swarm_id`; whitespace around the
/// name does not matter, and a blank name is none.
pub proof fn swarms_are_named_by_either_member(input: serde_json::Value, name: Seq<char>)
    ensures
        json_members(input).contains_key("swarm_id"@) && json_text(
            json_members(input)["swarm_id"@],
        ) == Some(name) ==> given_swarm_id(input) == Some(name),
        !json_members(input).contains_key("swarm_id"@) && json_members(input).contains_key("id"@)
            && json_text(json_members(input)["id"@]) == Some(name) ==> given_swarm_id(input)
            == Some(name),
        !json_members(input).contains_key("swarm_id"@) && !json_members(input).contains_key("id"@)
            ==> given_swarm_id(input) is None,
        text::trimmed(name).len() > 0 ==> accepted_swarm_id(Some(name)) == Ok::<_, ToolErrorView>(
            text::trimmed(name),
        ),
        text::trimmed(name).len() == 0 ==> accepted_swarm_id(Some(name)) is Err,
        accepted_swarm_id(None) == Err::<Seq<char>, _>(
            ToolErrorView::MissingField { field: "swarm_id"@ },
        ),
{
}

} // verus!
