//! Runs of swarms, driven event by event.

use deepseek_swarm::swarm::run::{RunPlan, SpawnRequest, SwarmAction, SwarmEvent, SwarmRun};
use deepseek_swarm::swarm::types::{
    SubAgentResult, SubAgentStatus, SwarmOutcome, SwarmStatus, SwarmTaskSpec, SwarmTaskStatus,
};

fn task(id: &str, deps: &[&str]) -> SwarmTaskSpec {
    SwarmTaskSpec {
        id: id.to_string(),
        prompt: format!("work on {id}"),
        agent_type: None,
        role: None,
        objective: None,
        retry_count: None,
        retry_delay_ms: None,
        task_timeout_ms: None,
        allowed_tools: None,
        depends_on: deps.iter().map(|dep| dep.to_string()).collect(),
    }
}

fn plan(tasks: Vec<SwarmTaskSpec>) -> RunPlan {
    RunPlan {
        swarm_id: "swarm_t".to_string(),
        tasks,
        shared_context: None,
        timeout_ms: 10_000,
        max_parallel: 2,
        fail_fast: false,
        publish_progress: false,
    }
}

fn snapshot(agent: &str, status: SubAgentStatus) -> SubAgentResult {
    SubAgentResult {
        agent_id: agent.to_string(),
        status,
        result: Some(format!("result of {agent}")),
        steps_taken: 1,
        duration_ms: 2,
    }
}

fn spawned(action: SwarmAction) -> SpawnRequest {
    match action {
        SwarmAction::Spawn(request) => request,
        other => panic!("expected a spawn, got {other:?}"),
    }
}

fn finished(action: SwarmAction) -> SwarmOutcome {
    match action {
        SwarmAction::Finish(outcome) => outcome,
        other => panic!("expected the end, got {other:?}"),
    }
}

fn published(action: SwarmAction) -> SwarmOutcome {
    match action {
        SwarmAction::Publish(outcome) => outcome,
        other => panic!("expected a report, got {other:?}"),
    }
}

fn cancelled(action: SwarmAction) -> Vec<String> {
    match action {
        SwarmAction::CancelAgents(agents) => agents,
        other => panic!("expected a cancellation, got {other:?}"),
    }
}

fn paused(action: SwarmAction) -> u64 {
    match action {
        SwarmAction::Pause(wait) => wait,
        other => panic!("expected a pause, got {other:?}"),
    }
}

fn statuses(outcome: &SwarmOutcome) -> Vec<SwarmTaskStatus> {
    outcome.tasks.iter().map(|task| task.status).collect()
}

#[test]
fn dependent_tasks_run_one_after_the_other() {
    let mut run = SwarmRun::new(plan(vec![task("a", &[]), task("b", &["a"])]));
    assert!(matches!(run.step(SwarmEvent::Resumed, 0), SwarmAction::CountSlots));
    let request = spawned(run.step(SwarmEvent::Slots(5), 0));
    assert_eq!(request.task_id, "a");
    assert_eq!(request.objective, "work on a");
    assert_eq!(request.role.as_deref(), Some("worker"));
    assert!(request.prompt.starts_with("work on a\n\nReturn sections:"));
    // b waits for a, so the pass ends.
    assert_eq!(paused(run.step(SwarmEvent::Spawned("x".to_string()), 1)), 0);
    assert!(matches!(run.step(SwarmEvent::Resumed, 1), SwarmAction::ListAgents));
    let still = vec![snapshot("x", SubAgentStatus::Running)];
    assert_eq!(paused(run.step(SwarmEvent::Agents(still), 2)), 250);
    assert!(matches!(run.step(SwarmEvent::Resumed, 252), SwarmAction::ListAgents));
    let done = vec![snapshot("x", SubAgentStatus::Completed)];
    assert!(matches!(run.step(SwarmEvent::Agents(done), 253), SwarmAction::CountSlots));
    assert_eq!(spawned(run.step(SwarmEvent::Slots(1), 253)).task_id, "b");
    assert_eq!(paused(run.step(SwarmEvent::Spawned("y".to_string()), 254)), 0);
    assert!(matches!(run.step(SwarmEvent::Resumed, 254), SwarmAction::ListAgents));
    let done = vec![
        snapshot("x", SubAgentStatus::Completed),
        snapshot("y", SubAgentStatus::Completed),
    ];
    let outcome = finished(run.step(SwarmEvent::Agents(done), 300));
    assert_eq!(outcome.status, SwarmStatus::Completed);
    assert_eq!(outcome.duration_ms, 300);
    assert_eq!(outcome.swarm_id, "swarm_t");
    assert_eq!(
        statuses(&outcome),
        vec![SwarmTaskStatus::Completed, SwarmTaskStatus::Completed]
    );
    assert_eq!(outcome.tasks[1].result.as_deref(), Some("result of y"));
}

#[test]
fn no_more_agents_start_than_allowed() {
    let tasks = vec![task("a", &[]), task("b", &[]), task("c", &[])];
    let mut run = SwarmRun::new(plan(tasks));
    run.step(SwarmEvent::Resumed, 0);
    assert_eq!(spawned(run.step(SwarmEvent::Slots(9), 0)).task_id, "a");
    let next = spawned(run.step(SwarmEvent::Spawned("x".to_string()), 0));
    assert_eq!(next.task_id, "b");
    // Two run already, so c has to wait although it is ready.
    assert_eq!(paused(run.step(SwarmEvent::Spawned("y".to_string()), 0)), 0);
    run.step(SwarmEvent::Resumed, 1);
    let still = vec![
        snapshot("x", SubAgentStatus::Running),
        snapshot("y", SubAgentStatus::Running),
    ];
    assert!(matches!(run.step(SwarmEvent::Agents(still), 1), SwarmAction::CountSlots));
    assert_eq!(paused(run.step(SwarmEvent::Slots(9), 1)), 250);
}

#[test]
fn no_agent_starts_without_a_free_slot() {
    let mut run = SwarmRun::new(plan(vec![task("a", &[])]));
    run.step(SwarmEvent::Resumed, 0);
    assert_eq!(paused(run.step(SwarmEvent::Slots(0), 0)), 250);
}

#[test]
fn failed_dependencies_skip_their_dependents() {
    let tasks = vec![task("a", &[]), task("b", &["a"]), task("c", &["b"])];
    let mut run = SwarmRun::new(plan(tasks));
    run.step(SwarmEvent::Resumed, 0);
    run.step(SwarmEvent::Slots(1), 0);
    run.step(SwarmEvent::Spawned("x".to_string()), 0);
    run.step(SwarmEvent::Resumed, 0);
    let failed = vec![snapshot("x", SubAgentStatus::Failed("bad".to_string()))];
    // One pass skips b, the next one c.
    assert_eq!(paused(run.step(SwarmEvent::Agents(failed), 5)), 0);
    let outcome = finished(run.step(SwarmEvent::Resumed, 6));
    assert_eq!(outcome.status, SwarmStatus::Partial);
    assert_eq!(
        statuses(&outcome),
        vec![
            SwarmTaskStatus::Failed,
            SwarmTaskStatus::Skipped,
            SwarmTaskStatus::Skipped
        ]
    );
    assert_eq!(outcome.tasks[0].error.as_deref(), Some("bad"));
    assert_eq!(outcome.tasks[2].error.as_deref(), Some("Dependency failed"));
}

#[test]
fn lost_attempts_are_retried_after_a_delay() {
    let mut a = task("a", &[]);
    a.retry_count = Some(1);
    a.retry_delay_ms = Some(100);
    let mut run = SwarmRun::new(plan(vec![a]));
    run.step(SwarmEvent::Resumed, 0);
    run.step(SwarmEvent::Slots(1), 0);
    run.step(SwarmEvent::Spawned("x".to_string()), 0);
    run.step(SwarmEvent::Resumed, 0);
    let failed = vec![snapshot("x", SubAgentStatus::Cancelled)];
    assert_eq!(paused(run.step(SwarmEvent::Agents(failed), 10)), 0);
    assert_eq!(paused(run.step(SwarmEvent::Resumed, 109)), 250);
    assert!(matches!(run.step(SwarmEvent::Resumed, 110), SwarmAction::CountSlots));
    assert_eq!(spawned(run.step(SwarmEvent::Slots(1), 110)).task_id, "a");
    run.step(SwarmEvent::Spawned("y".to_string()), 110);
    run.step(SwarmEvent::Resumed, 110);
    // The agent vanished, and no attempt is left.
    let outcome = finished(run.step(SwarmEvent::Agents(Vec::new()), 120));
    assert_eq!(statuses(&outcome), vec![SwarmTaskStatus::Failed]);
    assert_eq!(outcome.tasks[0].error.as_deref(), Some("Agent result not found"));
}

#[test]
fn slow_tasks_are_cancelled() {
    let mut a = task("a", &[]);
    a.task_timeout_ms = Some(50);
    let mut run = SwarmRun::new(plan(vec![a]));
    run.step(SwarmEvent::Resumed, 0);
    run.step(SwarmEvent::Slots(1), 0);
    run.step(SwarmEvent::Spawned("x".to_string()), 10);
    run.step(SwarmEvent::Resumed, 59);
    let still = vec![snapshot("x", SubAgentStatus::Running)];
    assert_eq!(paused(run.step(SwarmEvent::Agents(still), 59)), 250);
    run.step(SwarmEvent::Resumed, 60);
    let still = vec![snapshot("x", SubAgentStatus::Running)];
    assert_eq!(cancelled(run.step(SwarmEvent::Agents(still), 60)), vec!["x"]);
    let reply = vec![Ok(snapshot("x", SubAgentStatus::Cancelled))];
    let outcome = finished(run.step(SwarmEvent::Cancelled(reply), 61));
    assert_eq!(outcome.tasks[0].error.as_deref(), Some("Timed out after 50ms"));
    assert_eq!(outcome.tasks[0].agent_id, None);
}

#[test]
fn fail_fast_stops_everything() {
    let tasks = vec![task("a", &[]), task("b", &[]), task("c", &["b"])];
    let mut plan = plan(tasks);
    plan.fail_fast = true;
    plan.publish_progress = true;
    plan.tasks[0].retry_count = Some(5);
    let mut run = SwarmRun::new(plan);
    run.step(SwarmEvent::Resumed, 0);
    run.step(SwarmEvent::Slots(2), 0);
    run.step(SwarmEvent::Spawned("x".to_string()), 0);
    let progress = published(run.step(SwarmEvent::Spawned("y".to_string()), 0));
    assert_eq!(progress.status, SwarmStatus::Running);
    assert_eq!(progress.counts.running, 2);
    assert_eq!(paused(run.step(SwarmEvent::Resumed, 0)), 0);
    run.step(SwarmEvent::Resumed, 1);
    let seen = vec![
        snapshot("x", SubAgentStatus::Interrupted("stop".to_string())),
        snapshot("y", SubAgentStatus::Running),
    ];
    assert_eq!(cancelled(run.step(SwarmEvent::Agents(seen), 2)), vec!["y"]);
    let replies = vec![Err("gone".to_string())];
    let report = published(run.step(SwarmEvent::Cancelled(replies), 3));
    assert_eq!(report.status, SwarmStatus::Failed);
    let outcome = finished(run.step(SwarmEvent::Resumed, 4));
    assert_eq!(outcome.status, SwarmStatus::Failed);
    assert_eq!(
        statuses(&outcome),
        vec![
            SwarmTaskStatus::Interrupted,
            SwarmTaskStatus::Failed,
            SwarmTaskStatus::Skipped
        ]
    );
    assert_eq!(
        outcome.tasks[1].error.as_deref(),
        Some("Failed to cancel agent: gone")
    );
    assert_eq!(
        outcome.tasks[2].error.as_deref(),
        Some("Skipped due to fail_fast")
    );
}

#[test]
fn the_deadline_ends_the_run() {
    let mut run = SwarmRun::new(plan(vec![task("a", &[]), task("b", &["a"])]));
    run.step(SwarmEvent::Resumed, 0);
    run.step(SwarmEvent::Slots(1), 0);
    run.step(SwarmEvent::Spawned("x".to_string()), 0);
    run.step(SwarmEvent::Resumed, 9_999);
    let still = vec![snapshot("x", SubAgentStatus::Running)];
    assert_eq!(cancelled(run.step(SwarmEvent::Agents(still), 10_000)), vec!["x"]);
    let reply = vec![Ok(snapshot("x", SubAgentStatus::Cancelled))];
    let outcome = finished(run.step(SwarmEvent::Cancelled(reply), 10_001));
    assert_eq!(outcome.status, SwarmStatus::Timeout);
    assert_eq!(
        statuses(&outcome),
        vec![SwarmTaskStatus::Cancelled, SwarmTaskStatus::Pending]
    );
}

#[test]
fn a_full_house_gives_the_attempt_back() {
    let mut a = task("a", &[]);
    a.retry_count = Some(0);
    let mut run = SwarmRun::new(plan(vec![a, task("b", &[])]));
    for round in 0..3 {
        assert!(matches!(
            run.step(SwarmEvent::Resumed, round),
            SwarmAction::CountSlots
        ));
        assert_eq!(spawned(run.step(SwarmEvent::Slots(2), round)).task_id, "a");
        let refusal = "Sub-agent limit reached (max 2)".to_string();
        assert_eq!(paused(run.step(SwarmEvent::SpawnFailed(refusal), round)), 250);
    }
}

#[test]
fn refused_agents_fail_their_task() {
    let mut run = SwarmRun::new(plan(vec![task("a", &[]), task("b", &[])]));
    run.step(SwarmEvent::Resumed, 0);
    run.step(SwarmEvent::Slots(2), 0);
    let next = spawned(run.step(SwarmEvent::SpawnFailed("no".to_string()), 0));
    assert_eq!(next.task_id, "b");
    let outcome = finished(run.step(SwarmEvent::SpawnFailed("no again".to_string()), 7));
    assert_eq!(outcome.status, SwarmStatus::Partial);
    assert_eq!(outcome.tasks[0].error.as_deref(), Some("no"));
    assert_eq!(outcome.tasks[1].error.as_deref(), Some("no again"));
}

#[test]
fn unresolvable_tasks_abort_the_run() {
    let mut a = task("a", &[]);
    a.role = Some("boss".to_string());
    let mut run = SwarmRun::new(plan(vec![a]));
    run.step(SwarmEvent::Resumed, 0);
    assert!(matches!(run.step(SwarmEvent::Slots(1), 0), SwarmAction::Abort(_)));
}

#[test]
fn the_shared_context_reaches_the_agent() {
    let mut plan = plan(vec![task("a", &[])]);
    plan.shared_context = Some("C".to_string());
    plan.tasks[0].allowed_tools = Some(vec!["read".to_string()]);
    let mut run = SwarmRun::new(plan);
    run.step(SwarmEvent::Resumed, 0);
    let request = spawned(run.step(SwarmEvent::Slots(1), 0));
    assert!(request
        .prompt
        .starts_with("Shared context (authoritative):\nC\n\nTask:\nwork on a"));
    assert_eq!(request.allowed_tools, Some(vec!["read".to_string()]));
}
