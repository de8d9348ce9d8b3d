//! The swarm tools and their input.

use deepseek_swarm::swarm::input::{
    accept_swarm_id, invalid_tasks_payload, optional_bool, optional_str, optional_u64,
    parse_swarm_id, plan_swarm, settings_from, swarm_settings, tasks_value, wait_settings,
    GivenSettings,
};
use deepseek_swarm::swarm::outcome::build_failed_outcome;
use deepseek_swarm::swarm::tools::{
    answer_metadata_status, answer_status, join_path, launched_status, new_swarm_id, poll_swarm,
    swarm_id_from, swarm_state_path, AgentSwarmTool, ApprovalRequirement, PollStep,
    SwarmResultTool, SwarmStatusTool, ToolCapability,
};
use deepseek_swarm::swarm::types::{SwarmStatus, SwarmTaskSpec, ToolError};
use serde_json::Value;

fn object(members: Vec<(&str, Value)>) -> Value {
    let mut map = serde_json::Map::new();
    for (key, value) in members {
        map.insert(key.to_string(), value);
    }
    Value::Object(map)
}

fn missing(result: Result<&str, ToolError>) -> String {
    match result {
        Err(ToolError::MissingField { field }) => field,
        other => panic!("expected a missing field, got {other:?}"),
    }
}

#[test]
fn parse_swarm_id_supports_alias() {
    let input = object(vec![("id", Value::from("swarm_1234"))]);
    assert_eq!(parse_swarm_id(&input).unwrap(), "swarm_1234");
}

#[test]
fn swarm_ids_are_trimmed_and_needed() {
    let input = object(vec![
        ("swarm_id", Value::from("  swarm_a\n")),
        ("id", Value::from("other")),
    ]);
    assert_eq!(parse_swarm_id(&input).unwrap(), "swarm_a");
    // A member that is no text does not fall back to the alias.
    let input = object(vec![("swarm_id", Value::from(7)), ("id", Value::from("other"))]);
    assert_eq!(missing(parse_swarm_id(&input)), "swarm_id");
    assert_eq!(missing(parse_swarm_id(&object(vec![]))), "swarm_id");
    assert_eq!(missing(parse_swarm_id(&Value::from("text"))), "swarm_id");
    assert_eq!(missing(accept_swarm_id(Some(" \t"))), "swarm_id");
    assert_eq!(missing(accept_swarm_id(None)), "swarm_id");
    assert_eq!(accept_swarm_id(Some(" x ")).unwrap(), "x");
}

#[test]
fn members_are_read_by_kind() {
    let input = object(vec![
        ("text", Value::from("t")),
        ("flag", Value::from(true)),
        ("number", Value::from(64u64)),
        ("negative", Value::from(-64)),
    ]);
    assert_eq!(optional_str(&input, "text"), Some("t"));
    assert_eq!(optional_str(&input, "flag"), None);
    assert!(optional_bool(&input, "flag", false));
    assert!(optional_bool(&input, "text", true));
    assert_eq!(optional_u64(&input, "number", 1), 64);
    assert_eq!(optional_u64(&input, "negative", 1), 1);
    assert_eq!(optional_u64(&input, "absent", 2), 2);
}

#[test]
fn swarm_settings_have_defaults_and_bounds() {
    let none = swarm_settings(&object(vec![]), 4);
    assert!(none.block);
    assert_eq!(none.timeout_ms, 600_000);
    assert!(!none.fail_fast);
    assert_eq!(none.shared_context, None);
    assert_eq!(none.max_parallel, 4);

    let input = object(vec![
        ("block", Value::from(false)),
        ("timeout_ms", Value::from(1)),
        ("fail_fast", Value::from(true)),
        ("shared_context", Value::from("  ctx ")),
        ("max_parallel", Value::from(0)),
    ]);
    let some = swarm_settings(&input, 4);
    assert!(!some.block);
    assert_eq!(some.timeout_ms, 1_000);
    assert!(some.fail_fast);
    assert_eq!(some.shared_context.as_deref(), Some("ctx"));
    assert_eq!(some.max_parallel, 1);

    let given = GivenSettings {
        block: None,
        timeout_ms: Some(u64::MAX),
        fail_fast: None,
        shared_context: Some("   "),
        max_parallel: Some(99),
    };
    let bounded = settings_from(given, 3);
    assert_eq!(bounded.timeout_ms, 3_600_000);
    assert_eq!(bounded.shared_context, None);
    assert_eq!(bounded.max_parallel, 3);
}

#[test]
fn waiting_is_off_by_default() {
    let wait = wait_settings(&object(vec![]));
    assert!(!wait.block);
    assert_eq!(wait.timeout_ms, 30_000);
    let input = object(vec![
        ("block", Value::from(true)),
        ("timeout_ms", Value::from(5_000)),
    ]);
    let wait = wait_settings(&input);
    assert!(wait.block);
    assert_eq!(wait.timeout_ms, 5_000);
}

#[test]
fn the_task_list_is_needed() {
    let input = object(vec![("tasks", Value::Array(vec![]))]);
    assert_eq!(tasks_value(&input).unwrap(), &Value::Array(vec![]));
    assert!(matches!(
        tasks_value(&object(vec![])),
        Err(ToolError::MissingField { field }) if field == "tasks"
    ));
    assert!(matches!(
        invalid_tasks_payload("bad"),
        ToolError::InvalidInput { message } if message == "Invalid tasks payload: bad"
    ));
}

fn task(id: &str) -> SwarmTaskSpec {
    SwarmTaskSpec {
        id: id.to_string(),
        prompt: "p".to_string(),
        agent_type: None,
        role: None,
        objective: None,
        retry_count: None,
        retry_delay_ms: None,
        task_timeout_ms: None,
        allowed_tools: None,
        depends_on: vec![],
    }
}

#[test]
fn plans_are_made_of_valid_tasks() {
    let settings = swarm_settings(&object(vec![("block", Value::from(false))]), 2);
    let plan = plan_swarm("s".to_string(), vec![task("a")], settings).unwrap();
    assert_eq!(plan.swarm_id, "s");
    assert_eq!(plan.tasks.len(), 1);
    assert_eq!(plan.max_parallel, 2);
    assert!(plan.publish_progress);
    let settings = swarm_settings(&object(vec![]), 2);
    assert!(plan_swarm("s".to_string(), vec![task("a"), task("a")], settings).is_err());
}

#[test]
fn swarm_ids_are_short_and_random() {
    assert_eq!(swarm_id_from("67e55044-10b1"), "swarm_67e55044");
    let first = new_swarm_id();
    let second = new_swarm_id();
    for id in [&first, &second] {
        assert_eq!(id.len(), 14);
        assert!(id.starts_with("swarm_"));
        assert!(id[6..]
            .chars()
            .all(|c| c.is_ascii_digit() || ('a'..='f').contains(&c)));
    }
    assert_ne!(first, second);
}

#[test]
fn state_files_lie_in_the_workspace() {
    assert_eq!(
        swarm_state_path("/work"),
        "/work/.deepseek/state/swarm_outcomes.v1.json"
    );
    for base in ["", "/", "a", "a/", "/a/b"] {
        assert_eq!(
            join_path(base, "c"),
            std::path::Path::new(base).join("c").to_str().unwrap()
        );
    }
    assert_eq!(
        SwarmStatusTool::new("/w".to_string()).persistence_path,
        "/w/.deepseek/state/swarm_outcomes.v1.json"
    );
    assert_eq!(
        SwarmResultTool::new("/w".to_string()).persistence_path,
        "/w/.deepseek/state/swarm_outcomes.v1.json"
    );
}

#[test]
fn tools_describe_themselves() {
    let launch = AgentSwarmTool::new(1u8, "runtime");
    assert_eq!((launch.manager, launch.runtime), (1, "runtime"));
    assert_eq!(launch.name(), "agent_swarm");
    assert!(launch.description().contains("optional task dependencies"));
    assert_eq!(
        launch.capabilities(),
        vec![ToolCapability::ExecutesCode, ToolCapability::RequiresApproval]
    );
    assert_eq!(launch.approval_requirement(), ApprovalRequirement::Required);
    let status = SwarmStatusTool::new(String::new());
    assert_eq!(status.name(), "swarm_status");
    assert!(status.description().contains("status snapshot"));
    assert_eq!(status.capabilities(), vec![ToolCapability::ReadOnly]);
    let result = SwarmResultTool::new(String::new());
    assert_eq!(result.name(), "swarm_result");
    assert!(result.description().contains("full outcomes"));
    assert_eq!(result.capabilities(), vec![ToolCapability::ReadOnly]);
    assert_eq!(launched_status(), "Running");
}

fn running(id: &str) -> deepseek_swarm::swarm::types::SwarmOutcome {
    let mut outcome = build_failed_outcome(id, String::new());
    outcome.status = SwarmStatus::Running;
    outcome
}

#[test]
fn status_requests_answer_with_the_counts() {
    let snapshot = answer_status("s", Some(build_failed_outcome("s", "e".to_string()))).unwrap();
    assert_eq!(snapshot.swarm_id, "s");
    assert_eq!(snapshot.status, SwarmStatus::Failed);
    assert_eq!(snapshot.counts.failed, 1);
    assert_eq!(snapshot.duration_ms, 0);
    assert!(matches!(
        answer_status("s", None),
        Err(ToolError::ExecutionFailed { message }) if message == "Swarm 's' not found"
    ));
}

#[test]
fn polling_waits_only_as_long_as_asked() {
    let ended = || Some(build_failed_outcome("s", "e".to_string()));
    let open = || Some(running("s"));
    assert!(matches!(
        poll_swarm("s", ended(), true, true),
        PollStep::Answer { timed_out: false, .. }
    ));
    assert!(matches!(
        poll_swarm("s", open(), false, false),
        PollStep::Answer { timed_out: false, .. }
    ));
    assert!(matches!(poll_swarm("s", open(), true, false), PollStep::Wait));
    assert!(matches!(
        poll_swarm("s", open(), true, true),
        PollStep::Answer { timed_out: true, .. }
    ));
    assert!(matches!(poll_swarm("s", None, true, false), PollStep::Wait));
    assert!(matches!(poll_swarm("s", None, true, true), PollStep::Refuse(_)));
    assert!(matches!(poll_swarm("s", None, false, false), PollStep::Refuse(_)));
    assert_eq!(answer_metadata_status(SwarmStatus::Running, true), Some("TimedOut"));
    assert_eq!(answer_metadata_status(SwarmStatus::Running, false), Some("Running"));
    assert_eq!(answer_metadata_status(SwarmStatus::Partial, false), None);
}
