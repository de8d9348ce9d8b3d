//! Tasks, validation, reports and the store.

use deepseek_swarm::swarm::outcome::{
    build_counts, build_failed_outcome, build_final_outcome, build_initial_outcome,
    build_progress_outcome, build_task_outcomes, swarm_status_message, TaskStates,
};
use deepseek_swarm::swarm::store::{PersistedSwarmStore, SwarmStore};
use deepseek_swarm::swarm::task::{
    default_role_for_type, format_prompt, normalize_role_alias, resolve_task_assignment,
    resolve_with_role_type, retry_delay_for_attempt, task_retry_count, task_retry_delay_ms,
    task_timeout,
};
use deepseek_swarm::swarm::types::{
    SubAgentResult, SubAgentStatus, SubAgentType, SwarmOutcome, SwarmStatus, SwarmTaskSpec,
    SwarmTaskState, SwarmTaskStatus, ToolError, MAX_SWARM_HISTORY, MAX_TASK_RETRIES,
    MAX_TASK_TIMEOUT_MS,
};
use deepseek_swarm::swarm::validate::{has_dependency_cycle, validate_swarm_tasks};
use std::time::Duration;

fn task(id: &str, deps: &[&str]) -> SwarmTaskSpec {
    SwarmTaskSpec {
        id: id.to_string(),
        prompt: "do work".to_string(),
        agent_type: None,
        role: None,
        objective: None,
        retry_count: None,
        retry_delay_ms: None,
        task_timeout_ms: None,
        allowed_tools: None,
        depends_on: deps.iter().map(|dep| dep.to_string()).collect(),
    }
}

fn message_of(result: Result<(), ToolError>) -> String {
    match result {
        Err(ToolError::InvalidInput { message }) => message,
        other => panic!("expected invalid input, got {other:?}"),
    }
}

#[test]
fn validate_swarm_tasks_accepts_valid_graph() {
    let tasks = vec![task("a", &[]), task("b", &["a"])];
    assert!(validate_swarm_tasks(&tasks).is_ok());
}

#[test]
fn validate_swarm_tasks_rejects_unknown_dependency() {
    let tasks = vec![task("a", &["missing"])];
    assert!(validate_swarm_tasks(&tasks).is_err());
}

#[test]
fn validate_swarm_tasks_rejects_cycle() {
    let tasks = vec![task("a", &["b"]), task("b", &["a"])];
    assert!(validate_swarm_tasks(&tasks).is_err());
}

#[test]
fn validate_swarm_tasks_rejects_invalid_role_alias() {
    let mut tasks = vec![task("a", &[])];
    tasks[0].role = Some("invalid".to_string());
    assert!(validate_swarm_tasks(&tasks).is_err());
}

#[test]
fn validate_swarm_tasks_rejects_conflicting_role_and_type() {
    let mut tasks = vec![task("a", &[])];
    tasks[0].agent_type = Some(SubAgentType::Explore);
    tasks[0].role = Some("worker".to_string());
    assert!(validate_swarm_tasks(&tasks).is_err());
}

#[test]
fn validate_swarm_tasks_rejects_zero_task_timeout() {
    let mut tasks = vec![task("a", &[])];
    tasks[0].task_timeout_ms = Some(0);
    assert!(validate_swarm_tasks(&tasks).is_err());
}

#[test]
fn retry_helpers_apply_caps_and_backoff() {
    let mut t = task("a", &[]);
    t.retry_count = Some(MAX_TASK_RETRIES + 5);
    t.retry_delay_ms = Some(250);
    t.task_timeout_ms = Some(MAX_TASK_TIMEOUT_MS + 5_000);

    assert_eq!(task_retry_count(&t), MAX_TASK_RETRIES);
    assert_eq!(
        Duration::from_millis(task_timeout(&t).expect("timeout should exist")),
        Duration::from_millis(MAX_TASK_TIMEOUT_MS)
    );
    assert_eq!(
        Duration::from_millis(retry_delay_for_attempt(&t, 1)),
        Duration::from_millis(250)
    );
    assert_eq!(
        Duration::from_millis(retry_delay_for_attempt(&t, 2)),
        Duration::from_millis(500)
    );
}

#[test]
fn resolve_task_assignment_infers_role_and_objective_defaults() {
    let mut task = task("a", &[]);
    task.prompt = "scan files".to_string();
    task.role = Some("explorer".to_string());
    let (agent_type, role, objective) =
        resolve_task_assignment(&task).expect("assignment should resolve");
    assert!(matches!(agent_type, SubAgentType::Explore));
    assert_eq!(role.as_deref(), Some("explorer"));
    assert_eq!(objective, "scan files");
}

#[test]
fn build_initial_outcome_marks_swarm_running() {
    let tasks = vec![task("a", &[]), task("b", &["a"])];
    let outcome = build_initial_outcome("swarm_test", &tasks);
    assert!(matches!(outcome.status, SwarmStatus::Running));
    assert_eq!(outcome.counts.total, 2);
    assert_eq!(outcome.counts.pending, 2);
}

#[test]
fn every_refusal_names_its_cause() {
    assert_eq!(message_of(validate_swarm_tasks(&[])), "tasks cannot be empty");

    assert_eq!(
        message_of(validate_swarm_tasks(&[task("  ", &[])])),
        "task id cannot be empty"
    );

    let mut t = task("a", &[]);
    t.prompt = " \n".to_string();
    assert_eq!(
        message_of(validate_swarm_tasks(&[t])),
        "task 'a' prompt cannot be empty"
    );

    let mut t = task("a", &[]);
    t.objective = Some("  ".to_string());
    assert_eq!(
        message_of(validate_swarm_tasks(&[t])),
        "task 'a' objective cannot be empty"
    );

    let mut t = task("a", &[]);
    t.retry_count = Some(11);
    assert_eq!(
        message_of(validate_swarm_tasks(&[t])),
        "task 'a' retry_count must be <= 10"
    );

    let mut t = task("a", &[]);
    t.task_timeout_ms = Some(0);
    assert_eq!(
        message_of(validate_swarm_tasks(&[t])),
        "task 'a' task_timeout_ms must be > 0"
    );

    let mut t = task("a", &[]);
    t.role = Some(" boss ".to_string());
    assert_eq!(
        message_of(validate_swarm_tasks(&[t])),
        "task 'a' has invalid role 'boss'. Use: worker, explorer, awaiter, default"
    );

    let mut t = task("a", &[]);
    t.agent_type = Some(SubAgentType::Plan);
    t.role = Some("explorer".to_string());
    assert_eq!(
        message_of(validate_swarm_tasks(&[t])),
        "task 'a' has conflicting type and role values"
    );

    let mut t = task("a", &[]);
    t.agent_type = Some(SubAgentType::Custom);
    assert_eq!(
        message_of(validate_swarm_tasks(&[t])),
        "task 'a' requires allowed_tools for custom type"
    );

    assert_eq!(
        message_of(validate_swarm_tasks(&[task("a", &[]), task("a", &[])])),
        "duplicate task id 'a'"
    );
    assert_eq!(
        message_of(validate_swarm_tasks(&[task("a", &["a"])])),
        "task 'a' cannot depend on itself"
    );
    assert_eq!(
        message_of(validate_swarm_tasks(&[task("a", &["b"])])),
        "task 'a' depends on unknown task 'b'"
    );
    assert_eq!(
        message_of(validate_swarm_tasks(&[
            task("a", &["c"]),
            task("b", &["a"]),
            task("c", &["b"]),
        ])),
        "task dependencies contain a cycle"
    );
}

#[test]
fn custom_tasks_with_tools_are_accepted() {
    let mut t = task("a", &[]);
    t.agent_type = Some(SubAgentType::Custom);
    t.allowed_tools = Some(vec!["read_file".to_string()]);
    assert!(validate_swarm_tasks(&[t]).is_ok());
}

#[test]
fn diamonds_are_no_cycles() {
    let tasks = vec![
        task("top", &["left", "right"]),
        task("left", &["base"]),
        task("right", &["base"]),
        task("base", &[]),
    ];
    assert!(!has_dependency_cycle(&tasks));
    assert!(validate_swarm_tasks(&tasks).is_ok());
    assert!(has_dependency_cycle(&[task("x", &["x"])]));
}

#[test]
fn role_aliases_ignore_case() {
    assert_eq!(normalize_role_alias("DEFAULT"), Some("default"));
    assert_eq!(normalize_role_alias("General"), Some("worker"));
    assert_eq!(normalize_role_alias("worker"), Some("worker"));
    assert_eq!(normalize_role_alias("explore"), Some("explorer"));
    assert_eq!(normalize_role_alias("Planner"), Some("awaiter"));
    assert_eq!(normalize_role_alias("plan"), Some("awaiter"));
    assert_eq!(normalize_role_alias("review"), None);
}

#[test]
fn default_roles_follow_the_kind_of_agent() {
    assert_eq!(default_role_for_type(&SubAgentType::General), Some("worker"));
    assert_eq!(default_role_for_type(&SubAgentType::Explore), Some("explorer"));
    assert_eq!(default_role_for_type(&SubAgentType::Plan), Some("awaiter"));
    assert_eq!(default_role_for_type(&SubAgentType::Review), None);
    assert_eq!(default_role_for_type(&SubAgentType::Custom), None);
}

#[test]
fn kinds_of_agent_are_found_by_name() {
    assert_eq!(SubAgentType::from_str("General"), Some(SubAgentType::General));
    assert_eq!(SubAgentType::from_str("explorer"), Some(SubAgentType::Explore));
    assert_eq!(SubAgentType::from_str("awaiter"), Some(SubAgentType::Plan));
    assert_eq!(SubAgentType::from_str("REVIEW"), Some(SubAgentType::Review));
    assert_eq!(SubAgentType::from_str("custom"), Some(SubAgentType::Custom));
    assert_eq!(SubAgentType::from_str("boss"), None);
}

#[test]
fn an_explicit_kind_keeps_its_default_role() {
    let mut t = task("a", &[]);
    t.agent_type = Some(SubAgentType::Review);
    t.objective = Some("  look at it ".to_string());
    let (kind, role, objective) = resolve_task_assignment(&t).expect("resolves");
    assert_eq!(kind, SubAgentType::Review);
    assert_eq!(role, None);
    assert_eq!(objective, "look at it");
}

#[test]
fn the_inferred_kind_is_only_a_default() {
    let t = task("a", &[]);
    let (kind, role, _) = resolve_with_role_type(&t, Some(SubAgentType::Plan)).expect("resolves");
    assert_eq!(kind, SubAgentType::Plan);
    assert_eq!(role.as_deref(), Some("awaiter"));
    let (kind, _, _) = resolve_with_role_type(&t, None).expect("resolves");
    assert_eq!(kind, SubAgentType::General);
}

#[test]
fn prompts_ask_for_their_sections() {
    assert_eq!(
        format_prompt(None, "P"),
        "P\n\nReturn sections:\nSUMMARY\nEVIDENCE\nCHANGES\nRISKS"
    );
    assert_eq!(
        format_prompt(Some("C"), "P"),
        "Shared context (authoritative):\nC\n\nTask:\nP\n\nReturn sections:\nSUMMARY\nEVIDENCE\nCHANGES\nRISKS"
    );
}

#[test]
fn retry_delays_double_up_to_the_cap() {
    let mut t = task("a", &[]);
    assert_eq!(task_retry_delay_ms(&t), 1_000);
    assert_eq!(retry_delay_for_attempt(&t, 0), 1_000);
    assert_eq!(retry_delay_for_attempt(&t, 6), 32_000);
    assert_eq!(retry_delay_for_attempt(&t, 7), 60_000);
    t.retry_delay_ms = Some(0);
    assert_eq!(task_retry_delay_ms(&t), 1);
    assert_eq!(retry_delay_for_attempt(&t, 9), 256);
    assert_eq!(retry_delay_for_attempt(&t, u32::MAX), 256);
    t.retry_delay_ms = Some(1_000_000);
    assert_eq!(task_retry_delay_ms(&t), 60_000);
    assert_eq!(task_timeout(&t), None);
}

fn result_with(status: SubAgentStatus) -> SubAgentResult {
    SubAgentResult {
        agent_id: "agent".to_string(),
        status,
        result: Some("done".to_string()),
        steps_taken: 3,
        duration_ms: 40,
    }
}

fn all_states() -> (Vec<String>, TaskStates) {
    let mut states: TaskStates = TaskStates::new();
    let entries = vec![
        ("completed", SwarmTaskState::Done(result_with(SubAgentStatus::Completed))),
        (
            "interrupted",
            SwarmTaskState::Done(result_with(SubAgentStatus::Interrupted("i".to_string()))),
        ),
        (
            "failed",
            SwarmTaskState::Done(result_with(SubAgentStatus::Failed("f".to_string()))),
        ),
        ("cancelled", SwarmTaskState::Done(result_with(SubAgentStatus::Cancelled))),
        ("open", SwarmTaskState::Done(result_with(SubAgentStatus::Running))),
        ("lost", SwarmTaskState::Failed("lost".to_string())),
        ("skipped", SwarmTaskState::Skipped("why".to_string())),
        ("running", SwarmTaskState::Running { agent_id: "r".to_string() }),
        ("pending", SwarmTaskState::Pending),
    ];
    let mut order = Vec::new();
    for (id, state) in entries {
        order.push(id.to_string());
        states.insert(id.to_string(), state);
    }
    order.push("unknown".to_string());
    (order, states)
}

#[test]
fn outcomes_report_every_state() {
    let (order, states) = all_states();
    let outcomes = build_task_outcomes(&order, &states);
    let seen: Vec<(SwarmTaskStatus, Option<String>, Option<String>, Option<String>, u32)> =
        outcomes
            .iter()
            .map(|o| {
                (
                    o.status,
                    o.agent_id.clone(),
                    o.result.clone(),
                    o.error.clone(),
                    o.steps_taken,
                )
            })
            .collect();
    let agent = Some("agent".to_string());
    let done = Some("done".to_string());
    assert_eq!(
        seen,
        vec![
            (SwarmTaskStatus::Completed, agent.clone(), done.clone(), None, 3),
            (
                SwarmTaskStatus::Interrupted,
                agent.clone(),
                done.clone(),
                Some("i".to_string()),
                3
            ),
            (
                SwarmTaskStatus::Failed,
                agent.clone(),
                done.clone(),
                Some("f".to_string()),
                3
            ),
            (
                SwarmTaskStatus::Cancelled,
                agent.clone(),
                done.clone(),
                Some("Cancelled".to_string()),
                3
            ),
            (SwarmTaskStatus::Running, agent, done, None, 3),
            (SwarmTaskStatus::Failed, None, None, Some("lost".to_string()), 0),
            (SwarmTaskStatus::Skipped, None, None, Some("why".to_string()), 0),
            (SwarmTaskStatus::Running, Some("r".to_string()), None, None, 0),
            (SwarmTaskStatus::Pending, None, None, None, 0),
            (SwarmTaskStatus::Pending, None, None, None, 0),
        ]
    );
    let counts = build_counts(&outcomes);
    assert_eq!(counts.total, 10);
    assert_eq!(
        (counts.completed, counts.interrupted, counts.failed, counts.cancelled),
        (1, 1, 2, 1)
    );
    assert_eq!((counts.skipped, counts.running, counts.pending), (1, 2, 2));
}

#[test]
fn final_status_reflects_what_happened() {
    let mut states: TaskStates = TaskStates::new();
    states.insert(
        "a".to_string(),
        SwarmTaskState::Done(result_with(SubAgentStatus::Completed)),
    );
    let order = vec!["a".to_string()];
    let status = |fail: bool, late: bool| build_final_outcome("s", 5, &order, &states, fail, late).status;
    assert_eq!(status(false, false), SwarmStatus::Completed);
    assert_eq!(status(false, true), SwarmStatus::Timeout);
    assert_eq!(status(true, true), SwarmStatus::Failed);
    let (order, states) = all_states();
    assert_eq!(
        build_final_outcome("s", 5, &order, &states, false, false).status,
        SwarmStatus::Partial
    );
}

#[test]
fn status_lines_show_the_counts() {
    let (order, states) = all_states();
    let outcome = build_progress_outcome("swarm_1", 77, &order, &states, SwarmStatus::Running);
    assert_eq!(outcome.duration_ms, 77);
    assert_eq!(
        swarm_status_message(&outcome),
        "Swarm swarm_1: status=running completed=1/10 running=2 interrupted=1 failed=2 skipped=1 cancelled=1"
    );
}

#[test]
fn failed_outcomes_blame_the_runtime() {
    let outcome = build_failed_outcome("s", "boom".to_string());
    assert_eq!(outcome.status, SwarmStatus::Failed);
    assert_eq!((outcome.counts.total, outcome.counts.failed), (0, 1));
    assert_eq!(outcome.tasks.len(), 1);
    assert_eq!(outcome.tasks[0].task_id, "swarm_runtime");
    assert_eq!(outcome.tasks[0].error.as_deref(), Some("boom"));
}

#[test]
fn statuses_have_names() {
    assert_eq!(SwarmStatus::Running.as_str(), "running");
    assert_eq!(SwarmStatus::Completed.as_str(), "completed");
    assert_eq!(SwarmStatus::Partial.as_str(), "partial");
    assert_eq!(SwarmStatus::Timeout.as_str(), "timeout");
    assert_eq!(SwarmStatus::Failed.as_str(), "failed");
    assert!(!SwarmStatus::Running.is_terminal());
    assert!(SwarmStatus::Partial.is_terminal());
}

fn outcome(id: &str) -> SwarmOutcome {
    build_failed_outcome(id, format!("error of {id}"))
}

fn stored_error(store: &SwarmStore, id: &str) -> Option<String> {
    store
        .load_swarm_outcome(id)
        .and_then(|found| found.tasks[0].error.clone())
}

#[test]
fn stored_outcomes_are_read_back() {
    let mut store = SwarmStore::new();
    assert!(store.load_swarm_outcome("a").is_none());
    store.store_swarm_outcome(&outcome("a"));
    store.store_swarm_outcome(&outcome("b"));
    assert_eq!(stored_error(&store, "a").as_deref(), Some("error of a"));
    assert_eq!(stored_error(&store, "b").as_deref(), Some("error of b"));
}

#[test]
fn the_oldest_outcome_leaves_first() {
    let mut store = SwarmStore::new();
    for i in 0..MAX_SWARM_HISTORY {
        store.store_swarm_outcome(&outcome(&format!("s{i}")));
    }
    // Storing an outcome again makes it the newest.
    store.store_swarm_outcome(&outcome("s0"));
    store.store_swarm_outcome(&outcome("new"));
    assert!(store.load_swarm_outcome("s0").is_some());
    assert!(store.load_swarm_outcome("s1").is_none());
    assert!(store.load_swarm_outcome("s2").is_some());
    assert!(store.load_swarm_outcome("new").is_some());
}

#[test]
fn merging_keeps_what_is_there() {
    let mut saved = PersistedSwarmStore::default();
    saved.insert("a".to_string(), build_failed_outcome("a", "old".to_string()));
    saved.insert("b".to_string(), build_failed_outcome("b", "old".to_string()));
    saved.push_id("a".to_string());
    saved.push_id("b".to_string());
    saved.push_id("gone".to_string());

    let mut store = SwarmStore::new();
    store.store_swarm_outcome(&outcome("a"));
    store.merge(&saved);
    assert_eq!(stored_error(&store, "a").as_deref(), Some("error of a"));
    assert_eq!(stored_error(&store, "b").as_deref(), Some("old"));
    assert!(store.load_swarm_outcome("gone").is_none());
}

#[test]
fn a_saved_store_is_restored() {
    let mut store = SwarmStore::new();
    store.store_swarm_outcome(&outcome("a"));
    store.store_swarm_outcome(&outcome("b"));
    let saved = store.snapshot();
    let mut restored = SwarmStore::new();
    restored.merge(&saved);
    assert_eq!(stored_error(&restored, "a").as_deref(), Some("error of a"));
    assert_eq!(stored_error(&restored, "b").as_deref(), Some("error of b"));
}
