//! Whole runs: retries, restarts, resumes and iterations.

use serde_json::Value;
use workflow_run::attempts::Stage;
use workflow_run::document::parse_graph;
use workflow_run::drive::complete_running_fix;
use workflow_run::drive::next_action;
use workflow_run::drive::worker_payload;
use workflow_run::drive::Action;
use workflow_run::failure::structured_output_failure;
use workflow_run::failure::NodeFailure;
use workflow_run::failure::NodeFailureKind;
use workflow_run::graph::RetryPolicy;
use workflow_run::json::Json;
use workflow_run::model::WorkflowRunStatus;
use workflow_run::run::ResumeWorkflowRunResult;
use workflow_run::run::Run;
use workflow_run::samples::loop_with_checker;
use workflow_run::samples::single_agent_graph;
use workflow_run::sessions::prompted_sessions;

const FOREACH_PROMPT_GRAPH: &str = r#"{"nodes":[
    {"id":"start","data":{"kind":"start","inputVariables":[
        {"name":"modules","valueType":"array[string]"}
    ]}},
    {"id":"iter","data":{"kind":"iteration","iterationConfig":{
        "iteratorSelector":["start","modules"],
        "collectSelector":["fix","output"],
        "errorStrategy":"fail"
    }}},
    {"id":"fix","parentId":"iter","data":{"kind":"agent","agentConfig":{
        "executor":{"agentCli":"open_code","modelId":"m"},
        "prompt":"item={{#iter.item#}} index={{#iter.index#}}"
    }}},
    {"id":"output","data":{"kind":"output","outputs":[
        {"name":"collected","variableSelector":["iter","output"]}
    ]}}
],"edges":[
    {"source":"start","target":"iter"},
    {"source":"iter","target":"fix"},
    {"source":"iter","target":"output"}
]}"#;

const LINEAR: &str = r#"{"nodes":[
    {"id":"start","data":{"kind":"start"}},
    {"id":"a","data":{"kind":"agent","agentConfig":{
        "executor":{"agentCli":"open_code","modelId":"m"},"prompt":"do a"}}},
    {"id":"output","data":{"kind":"output"}}
],"edges":[{"source":"start","target":"a"},{"source":"a","target":"output"}]}"#;

fn pending(graph: &str) -> Run {
    match parse_graph(graph) {
        Ok(graph) => Run::new(graph),
        Err(error) => panic!("{error:?}"),
    }
}

fn begun(graph: &str) -> Run {
    let mut run = pending(graph);
    assert!(run.start());
    run
}

/// The single open attempt at a node.
fn running(run: &Run, id: &str) -> usize {
    let node = run.node_index(id).unwrap();
    let open: Vec<usize> = run
        .list_node_runs()
        .iter()
        .enumerate()
        .filter(|(_, row)| {
            row.node == node && matches!(row.stage, Stage::Waiting(_) | Stage::Running)
        })
        .map(|(i, _)| i)
        .collect();
    assert_eq!(open.len(), 1);
    open[0]
}

/// The prompt of the latest attempt at a node.
fn prompt_for(run: &Run, id: &str) -> String {
    let node = run.node_index(id).unwrap();
    let rows = run.list_node_runs();
    let row = rows.iter().rev().find(|row| row.node == node).unwrap();
    row.prompt.clone().unwrap()
}

/// Drives a run until it rests, asking `agent` for each prompt; returns the log of its calls.
fn driven(run: &mut Run, mut agent: impl FnMut(&str) -> Result<String, NodeFailure>) -> String {
    let mut calls = String::new();
    loop {
        match next_action(run) {
            Action::Ask(row) => {
                let prompt = run.list_node_runs()[row].prompt.clone().unwrap();
                let session = run.list_node_runs()[row].session_id.unwrap();
                calls.push_str(&format!("session/new {session}\nsession/prompt {session}\n"));
                match agent(&prompt) {
                    Ok(output) => assert!(run.complete_node(row, output)),
                    Err(failure) => assert!(run.fail_node(row, failure, 5)),
                }
            }
            Action::WakeAt(row, at) => assert!(run.wake(row, at)),
            Action::Rest => return calls,
        }
    }
}

fn texts(value: Option<&Json>) -> Vec<String> {
    match value {
        Some(Json::Array(items)) => items
            .iter()
            .map(|item| match item {
                Json::Text(text) => text.clone(),
                _ => panic!("a text was expected"),
            })
            .collect(),
        _ => panic!("a list was expected"),
    }
}

fn list(items: &[&str]) -> Json {
    Json::Array(items.iter().map(|s| Json::Text(s.to_string())).collect())
}

fn object(fields: Vec<(&str, Value)>) -> Value {
    Value::Object(fields.into_iter().map(|(k, v)| (k.to_string(), v)).collect())
}

fn text(s: &str) -> Value {
    Value::String(s.to_string())
}

fn agent_config(prompt: &str, max_retries: u64) -> Vec<(&'static str, Value)> {
    vec![
        (
            "executor",
            object(vec![
                ("agentCli", text("open_code")),
                ("modelId", text("m")),
            ]),
        ),
        ("prompt", text(prompt)),
        (
            "retry",
            object(vec![
                ("enabled", Value::Bool(true)),
                ("maxRetries", Value::from(max_retries)),
                ("initialDelaySeconds", Value::from(0u64)),
            ]),
        ),
    ]
}

#[test]
fn a_failure_a_retry_fixed_is_not_injected_again_after_a_resume_clears_the_fix() {
    let mut run = begun(&loop_with_checker());
    let first = running(&run, "writer");
    assert!(run.fail_node(first, structured_output_failure("reply is not JSON"), 1_000));
    let fixed = running(&run, "writer");
    assert!(run.wake(fixed, 11_000));
    assert!(prompt_for(&run, "writer").contains("Previous attempt (1) failed"));
    assert!(run.complete_node(fixed, "draft".to_string()));
    let checker = running(&run, "checker");
    assert!(run.fail_node(
        checker,
        structured_output_failure("checker reply is not JSON"),
        13_000
    ));
    assert_eq!(run.status(), WorkflowRunStatus::Failed);

    assert_eq!(run.resume_from_failure(), ResumeWorkflowRunResult::Resumed);
    let rerun = running(&run, "writer");
    assert_ne!(rerun, fixed);
    let iteration = run.list_node_runs()[rerun].iteration;
    assert_eq!(run.find_last_failed_attempt("writer", iteration), None);
    let prompt = prompt_for(&run, "writer");
    assert!(!prompt.contains("Previous attempt"), "{prompt}");

    assert!(run.complete_node(rerun, "draft".to_string()));
    let prompt = prompt_for(&run, "checker");
    assert!(prompt.contains("Previous attempt (1) failed"), "{prompt}");
    assert!(prompt.contains("checker reply is not JSON"), "{prompt}");
}

#[test]
fn a_restart_during_the_wait_keeps_the_real_failure_for_the_resumed_attempt() {
    let mut run = begun(LINEAR);
    let first = running(&run, "a");
    assert!(run.fail_node(first, structured_output_failure("reply is not JSON"), 1_000));
    let waiting = running(&run, "a");
    assert!(run.sweep_one_run());
    assert_eq!(
        (run.rows_of("a")[0], run.status()),
        (waiting, WorkflowRunStatus::Failed)
    );

    assert_eq!(run.resume_from_failure(), ResumeWorkflowRunResult::Resumed);
    let prompt = prompt_for(&run, "a");
    assert_eq!(prompt.matches("Previous attempt").count(), 1, "{prompt}");
    assert!(prompt.contains("Previous attempt (1) failed"), "{prompt}");
    assert!(prompt.contains("reply is not JSON"), "{prompt}");
}

#[test]
fn foreach_member_prompt_renders_item_and_index_from_the_dispatched_context() {
    let mut run = pending(FOREACH_PROMPT_GRAPH);
    assert!(run.update_run_input(vec![("modules".to_string(), list(&["a", "b"]))]));
    assert!(run.start());
    complete_running_fix(&mut run);
    complete_running_fix(&mut run);

    let prompts: Vec<String> = run
        .list_node_runs()
        .iter()
        .map(|row| row.prompt.clone().unwrap())
        .collect();
    assert_eq!(
        prompts,
        vec!["item=a index=0".to_string(), "item=b index=1".to_string()]
    );
    assert_eq!(run.status(), WorkflowRunStatus::Succeeded);
    assert_eq!(texts(run.variable("iter.output")), vec!["out-0", "out-1"]);
    assert_eq!(texts(run.variable("output.collected")), vec!["out-0", "out-1"]);
}

#[test]
fn a_failed_session_is_retried_automatically_and_the_run_succeeds() {
    let graph = single_agent_graph(object(agent_config("[fail-times:1] build it", 2)));
    let mut run = begun(&graph);
    let mut failures = String::new();
    let calls = driven(&mut run, |prompt| {
        if prompt.starts_with("[fail-times:1]") && failures.is_empty() {
            failures.push_str("[fail-times:1]\n");
            Err(NodeFailure::new(NodeFailureKind::Session, "planned"))
        } else {
            Ok("built".to_string())
        }
    });
    assert_eq!(run.status(), WorkflowRunStatus::Succeeded);

    let rows = run.list_node_runs();
    let failed = run.failed_attempts();
    let described: Vec<(usize, u64, &str)> = failed
        .iter()
        .map(|&i| match &rows[i].stage {
            Stage::Failed(failure) => (rows[i].node, rows[i].attempt, failure.kind.as_str()),
            _ => unreachable!(),
        })
        .collect();
    assert_eq!(
        described,
        vec![(run.node_index("worker").unwrap(), 1, "session")]
    );
    assert_eq!(failures, "[fail-times:1]\n");
    let payload = worker_payload(&run).unwrap();
    assert_eq!(payload.auto_retry, Some((1, 2)));
    assert_eq!(payload.injected_failure_context, None);
    let sessions = prompted_sessions(&calls);
    assert_eq!(sessions.len(), 2, "{sessions:?}");
    assert_ne!(sessions[0], sessions[1]);
    let live = rows[run.rows_of("worker")[0]].session_id;
    assert!(rows[failed[0]].session_id.is_some() && live.is_some());
    assert_ne!(rows[failed[0]].session_id, live);
}

#[test]
fn a_structured_output_failure_is_retried_with_the_failure_injected() {
    let mut config = agent_config("answer in JSON", 1);
    config.push((
        "outputContract",
        object(vec![
            ("type", text("structured")),
            ("textExposure", text("includeFinalText")),
            (
                "schema",
                object(vec![
                    ("type", text("object")),
                    (
                        "properties",
                        object(vec![("ok", object(vec![("type", text("boolean"))]))]),
                    ),
                    ("required", Value::Array(vec![text("ok")])),
                ]),
            ),
        ]),
    ));
    let mut run = begun(&single_agent_graph(object(config)));
    let calls = driven(&mut run, |prompt| {
        if prompt.contains("Previous attempt") {
            Ok("{\"ok\":true}".to_string())
        } else {
            Err(structured_output_failure("reply is not JSON"))
        }
    });
    assert_eq!(run.status(), WorkflowRunStatus::Succeeded);

    let rows = run.list_node_runs();
    let failed: Vec<(u64, &str)> = run
        .failed_attempts()
        .iter()
        .map(|&i| match &rows[i].stage {
            Stage::Failed(failure) => (rows[i].attempt, failure.kind.as_str()),
            _ => unreachable!(),
        })
        .collect();
    assert_eq!(failed, vec![(1, "structured_output")]);
    let injected = worker_payload(&run).unwrap().injected_failure_context.unwrap();
    assert_eq!(injected.matches("Previous attempt").count(), 1, "{injected}");
    assert_eq!(prompted_sessions(&calls).len(), 2);
}

#[test]
fn a_told_prompt_is_exact() {
    let mut run = begun(LINEAR);
    assert_eq!(prompt_for(&run, "a"), "do a");
    assert!(run.fail_node(0, structured_output_failure("bad"), 1_000));
    assert!(run.wake(1, 11_000));
    assert_eq!(
        prompt_for(&run, "a"),
        "do a\n\nPrevious attempt (1) failed: bad\nIt answered:\nplain text"
    );
}

#[test]
fn by_default_a_failure_is_retried() {
    let policy = RetryPolicy::default();
    assert_eq!(
        (policy.enabled, policy.max_retries, policy.initial_delay_seconds),
        (true, 3, 10)
    );
    let mut run = begun(LINEAR);
    assert!(run.fail_node(0, structured_output_failure("bad"), 1_000));
    assert!(!run.wake(1, 5_000));
    assert!(run.wake(1, 11_000));
}

#[test]
fn a_failure_elsewhere_changes_no_verdict() {
    let graph = |retry: &str| {
        format!(
            "{{\"nodes\":[{{\"id\":\"start\",\"data\":{{\"kind\":\"start\"}}}},\
             {{\"id\":\"a\",\"data\":{{\"kind\":\"agent\",\"agentConfig\":{{\"prompt\":\"do a\"}}}}}},\
             {{\"id\":\"b\",\"data\":{{\"kind\":\"agent\",\"agentConfig\":{{\"prompt\":\"do b\"{retry}}}}}}}],\
             \"edges\":[{{\"source\":\"start\",\"target\":\"a\"}},\
             {{\"source\":\"start\",\"target\":\"b\"}}]}}"
        )
    };
    let never = ",\"retry\":{\"enabled\":false,\"maxRetries\":0,\"initialDelaySeconds\":0}";
    for (retry, status) in [("", WorkflowRunStatus::Running), (never, WorkflowRunStatus::Failed)] {
        let mut run = begun(&graph(retry));
        let a = running(&run, "a");
        let b = running(&run, "b");
        assert!(run.fail_node(a, structured_output_failure("bad a"), 0));
        assert!(run.fail_node(b, structured_output_failure("bad b"), 0));
        assert_eq!(run.status(), status);
        assert_eq!(run.find_last_failed_attempt("a", None), Some(a));
        assert_eq!(run.find_last_failed_attempt("b", None), Some(b));
    }
}

#[test]
fn an_answer_makes_good_though_the_run_fails_over_it() {
    let graph = "{\"nodes\":[{\"id\":\"start\",\"data\":{\"kind\":\"start\"}},\
        {\"id\":\"a\",\"data\":{\"kind\":\"agent\",\"agentConfig\":{\"prompt\":\"do a\"}}},\
        {\"id\":\"b\",\"data\":{\"kind\":\"agent\",\"agentConfig\":{\"prompt\":\"{{#start.what#}}\"}}}],\
        \"edges\":[{\"source\":\"start\",\"target\":\"a\"},{\"source\":\"a\",\"target\":\"b\"}]}";
    let mut run = begun(graph);
    assert!(run.fail_node(0, structured_output_failure("bad"), 0));
    assert!(run.wake(1, 10_000));
    assert_eq!(run.find_last_failed_attempt("a", None), Some(0));
    assert!(run.complete_node(1, "fine".to_string()));
    assert_eq!(run.status(), WorkflowRunStatus::Failed);
    assert_eq!(run.find_last_failed_attempt("a", None), None);
}

#[test]
fn a_retry_waits_for_its_delay() {
    let mut run = begun(LINEAR);
    assert!(run.fail_node(0, structured_output_failure("bad"), 1_000));
    assert_eq!(next_action(&run), Action::WakeAt(1, 11_000));
    assert!(!run.wake(1, 10_999));
    assert!(run.wake(1, 11_000));
    assert_eq!(next_action(&run), Action::Ask(1));
    assert!(!run.wake(1, 12_000));
}

#[test]
fn a_late_retry_is_due_at_the_end_of_time() {
    let mut run = begun(LINEAR);
    assert!(run.fail_node(0, structured_output_failure("bad"), u64::MAX));
    assert_eq!(next_action(&run), Action::WakeAt(1, u64::MAX));
}

#[test]
fn retries_are_used_up() {
    let mut run = begun(LINEAR);
    for attempt in 0..4 {
        assert_eq!(run.status(), WorkflowRunStatus::Running);
        assert!(run.fail_node(attempt, structured_output_failure("bad"), 0));
        if attempt < 3 {
            assert!(run.wake(attempt + 1, 10_000));
        }
    }
    assert_eq!(run.status(), WorkflowRunStatus::Failed);
    assert_eq!(run.failure().unwrap().message, "bad");
    assert_eq!(run.failed_attempts(), vec![0, 1, 2, 3]);
    assert_eq!(run.list_node_runs()[3].attempt, 4);
    assert_eq!(run.rows_of("a"), vec![3]);
}

#[test]
fn an_interruption_is_not_retried_and_not_told() {
    let mut run = begun(LINEAR);
    assert!(run.sweep_one_run());
    assert!(!run.sweep_one_run());
    assert_eq!(run.failure().unwrap().kind, NodeFailureKind::Interrupted);
    assert_eq!(run.failure().unwrap().kind.as_str(), "interrupted");
    assert_eq!(run.find_last_failed_attempt("a", None), Some(0));
    assert_eq!(run.resume_from_failure(), ResumeWorkflowRunResult::Resumed);
    assert_eq!(prompt_for(&run, "a"), "do a");
    assert_eq!(run.rows_of("a"), vec![1]);
}

#[test]
fn events_out_of_turn_change_nothing() {
    let mut run = pending(LINEAR);
    assert_eq!(run.status(), WorkflowRunStatus::Pending);
    assert!(!run.complete_node(0, "x".to_string()));
    assert!(!run.fail_node(0, structured_output_failure("x"), 0));
    assert!(!run.sweep_one_run());
    assert_eq!(run.resume_from_failure(), ResumeWorkflowRunResult::NotFailed);
    assert_eq!(next_action(&run), Action::Rest);
    assert!(run.start());
    assert!(!run.start());
    assert!(!run.update_run_input(vec![]));
    assert!(run.complete_node(0, "x".to_string()));
    assert!(!run.complete_node(0, "y".to_string()));
    assert_eq!(run.status(), WorkflowRunStatus::Succeeded);
    assert!(worker_payload(&run).is_none());
    match run.variable("a.output") {
        Some(Json::Text(s)) => assert_eq!(s, "x"),
        _ => panic!("the answer was expected"),
    }
}

#[test]
fn a_loop_feeds_back_until_its_condition_holds() {
    let mut run = begun(&loop_with_checker());
    assert!(matches!(run.variable("loop.draft"), Some(Json::Text(s)) if s == "seed"));
    assert!(run.complete_node(running(&run, "writer"), "first".to_string()));
    assert!(run.complete_node(running(&run, "checker"), "fine".to_string()));
    assert!(matches!(run.variable("loop.draft"), Some(Json::Text(s)) if s == "first"));
    let writer = running(&run, "writer");
    assert_eq!(run.list_node_runs()[writer].iteration, Some(1));
    assert!(run.complete_node(writer, "done".to_string()));
    assert!(run.complete_node(running(&run, "checker"), "fine".to_string()));
    assert_eq!(run.status(), WorkflowRunStatus::Succeeded);
    assert!(matches!(run.variable("loop.result"), Some(Json::Text(s)) if s == "done"));
}

#[test]
fn a_loop_ends_after_its_last_round() {
    let mut run = begun(&loop_with_checker());
    for round in 0..3 {
        assert_eq!(run.status(), WorkflowRunStatus::Running);
        assert!(run.complete_node(running(&run, "writer"), format!("draft {round}")));
        assert!(run.complete_node(running(&run, "checker"), "fine".to_string()));
    }
    assert_eq!(run.status(), WorkflowRunStatus::Succeeded);
    assert!(matches!(run.variable("loop.result"), Some(Json::Text(s)) if s == "draft 2"));
    assert_eq!(run.rows_of("writer").len(), 3);
}

#[test]
fn an_iteration_over_nothing_collects_nothing() {
    let mut run = pending(FOREACH_PROMPT_GRAPH);
    assert!(run.update_run_input(vec![("modules".to_string(), list(&[]))]));
    assert!(run.start());
    assert_eq!(run.status(), WorkflowRunStatus::Succeeded);
    assert!(texts(run.variable("iter.output")).is_empty());
    assert!(run.list_node_runs().is_empty());
}

#[test]
fn an_iteration_over_an_unset_variable_fails_the_run() {
    let mut run = begun(FOREACH_PROMPT_GRAPH);
    assert_eq!(run.status(), WorkflowRunStatus::Failed);
    let failure = run.failure().unwrap();
    assert_eq!(failure.kind, NodeFailureKind::Variables);
    assert_eq!(failure.kind.as_str(), "variables");
    assert_eq!(failure.message, "start.modules");
    assert_eq!(run.resume_from_failure(), ResumeWorkflowRunResult::Resumed);
    assert_eq!(run.status(), WorkflowRunStatus::Failed);
}

#[test]
fn a_prompt_with_an_unset_variable_fails_the_run() {
    let graph = LINEAR.replace("do a", "do {{#start.what#}}");
    let run = begun(&graph);
    assert_eq!(run.status(), WorkflowRunStatus::Failed);
    assert_eq!(run.failure().unwrap().message, "start.what");
    assert!(matches!(run.list_node_runs()[0].stage, Stage::Abandoned(_)));
    assert_eq!(run.list_node_runs()[0].session_id, None);
    assert!(run.failed_attempts().is_empty());
}
