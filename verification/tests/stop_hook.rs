use codex_taskloop::config::ConfigDefaults;
use codex_taskloop::stop_hook::{build_system_message, decide_task, write_failed_plan, EventKind, HookOutcome, StateFile};
use codex_taskloop::task_state::{collect_extras, parse_bool, parse_state, parse_u32, read_state, write_state, Frontmatter, TaskState};

fn defaults() -> ConfigDefaults {
    ConfigDefaults { max_iterations: 0, completion_matcher: "exact".to_string(), history_limit: 200 }
}

fn state_text(extra: &str, body: &str) -> String {
    format!(
        "---\nschema_version: 1\ntask_name: Fix tests\nproject_path: /abs/project\n{extra}started_at: \"2026-01-05T00:00:00Z\"\nupdated_at: \"2026-01-05T00:00:00Z\"\n---\n\n{body}\n"
    )
}

fn sample_task_state() -> TaskState {
    TaskState {
        schema_version: 1,
        task_name: "Fix tests".to_string(),
        project_path: "/abs/project".to_string(),
        active: true,
        iteration: 2,
        max_iterations: 10,
        completion_promise: Some("DONE".to_string()),
        completion_matcher: Some("exact".to_string()),
        history_limit: 200,
        started_at: "S".to_string(),
        updated_at: "U".to_string(),
    }
}

#[test]
fn system_message_with_promise() {
    assert_eq!(
        build_system_message(&sample_task_state()),
        "Taskloop task 'Fix tests' | iteration 2/10 (remaining 8) | To stop: output <promise>DONE</promise> (matcher: exact). Only when true."
    );
}

#[test]
fn system_message_without_promise_or_max() {
    let mut s = sample_task_state();
    s.max_iterations = 0;
    s.completion_promise = None;
    assert_eq!(
        build_system_message(&s),
        "Taskloop task 'Fix tests' | iteration 2 (no max) | No completion promise set."
    );
    let mut t = sample_task_state();
    t.iteration = 12;
    t.completion_matcher = None;
    assert_eq!(
        build_system_message(&t),
        "Taskloop task 'Fix tests' | iteration 12/10 (remaining 0) | To stop: output <promise>DONE</promise> (matcher: exact). Only when true."
    );
}

#[test]
fn absent_state_looks_further() {
    let plan = decide_task(&StateFile::Absent, "t", "/p", &defaults(), "", "NOW");
    assert!(matches!(plan.outcome, HookOutcome::Next));
    assert!(!plan.remove_state);
    assert!(plan.history.is_none());
}

#[test]
fn unreadable_or_malformed_state_is_invalid() {
    for file in [
        StateFile::Unreadable,
        StateFile::Contents("no front matter".to_string()),
        StateFile::Contents(state_text("iteration: x\n", "go")),
    ] {
        let plan = decide_task(&file, "t", "/p", &defaults(), "", "NOW");
        assert!(matches!(plan.outcome, HookOutcome::Next));
        assert!(plan.remove_state);
        let h = plan.history.unwrap();
        assert_eq!(h.event, EventKind::InvalidState);
        assert_eq!(h.history_limit, 200);
        let m = plan.meta.unwrap();
        assert_eq!(m.status.as_deref(), Some("error"));
        assert_eq!(m.last_event.as_deref(), Some("invalid_state"));
    }
}

#[test]
fn malformed_state_keeps_prompt_preview() {
    let plan = decide_task(&StateFile::Contents(state_text("iteration: x\n", "go on")), "t", "/p", &defaults(), "", "NOW");
    assert_eq!(plan.history.unwrap().prompt_preview.as_deref(), Some("go on\n"));
    let plan = decide_task(&StateFile::Contents("no front matter".to_string()), "t", "/p", &defaults(), "", "NOW");
    assert_eq!(plan.history.unwrap().prompt_preview, None);
}

#[test]
fn paused_task_is_skipped() {
    let text = state_text("active: false\niteration: 3\n", "go");
    let plan = decide_task(&StateFile::Contents(text), "t", "/p", &defaults(), "", "NOW");
    assert!(matches!(plan.outcome, HookOutcome::Next));
    assert!(!plan.remove_state);
    assert_eq!(plan.history.unwrap().event, EventKind::Paused);
    assert_eq!(plan.meta.unwrap().status.as_deref(), Some("paused"));
}

#[test]
fn max_iterations_reached_approves() {
    let text = state_text("iteration: 5\nmax_iterations: 5\n", "go");
    let plan = decide_task(&StateFile::Contents(text), "t", "/p", &defaults(), "", "NOW");
    assert!(matches!(plan.outcome, HookOutcome::Approve));
    assert!(plan.remove_state);
    assert_eq!(plan.history.unwrap().event, EventKind::MaxIterations);
    let m = plan.meta.unwrap();
    assert_eq!(m.status.as_deref(), Some("completed"));
    assert_eq!(m.iteration, Some(5));
}

#[test]
fn promise_matched_approves() {
    let text = state_text("iteration: 1\ncompletion_promise: \"all  done\"\n", "go");
    let plan = decide_task(
        &StateFile::Contents(text),
        "t",
        "/p",
        &defaults(),
        "work finished <PROMISE> all\n done </promise>",
        "NOW",
    );
    assert!(matches!(plan.outcome, HookOutcome::Approve));
    let h = plan.history.unwrap();
    assert_eq!(h.event, EventKind::PromiseMatched);
    assert_eq!(h.promise_text.as_deref(), Some("all done"));
    assert_eq!(plan.meta.unwrap().status.as_deref(), Some("completed"));
}

#[test]
fn exact_matcher_is_case_sensitive() {
    let text = state_text("iteration: 1\ncompletion_promise: \"All done\"\n", "go");
    let plan = decide_task(&StateFile::Contents(text), "t", "/p", &defaults(), "<promise>all done</promise>", "NOW");
    assert!(matches!(plan.outcome, HookOutcome::Block { .. }));
}

#[test]
fn invalid_regex_matcher_ends_task() {
    let text = state_text("iteration: 1\ncompletion_promise: \"(\"\ncompletion_matcher: regex\n", "go");
    let plan = decide_task(&StateFile::Contents(text), "t", "/p", &defaults(), "<promise>x</promise>", "NOW");
    assert!(matches!(plan.outcome, HookOutcome::Approve));
    assert_eq!(plan.history.unwrap().event, EventKind::InvalidMatcher);
}

#[test]
fn regex_matcher_matches() {
    let text = state_text("iteration: 1\ncompletion_promise: \"^do.e$\"\ncompletion_matcher: regex\n", "go");
    let plan = decide_task(&StateFile::Contents(text), "t", "/p", &defaults(), "<promise>done</promise>", "NOW");
    assert!(matches!(plan.outcome, HookOutcome::Approve));
    assert_eq!(plan.history.unwrap().event, EventKind::PromiseMatched);
}

#[test]
fn empty_prompt_ends_task() {
    let text = state_text("iteration: 1\n", "   ");
    let plan = decide_task(&StateFile::Contents(text), "t", "/p", &defaults(), "", "NOW");
    assert!(matches!(plan.outcome, HookOutcome::Approve));
    assert_eq!(plan.history.unwrap().event, EventKind::EmptyPrompt);
}

#[test]
fn loop_blocks_with_prompt_and_advances() {
    let text = state_text("iteration: 1\nmax_iterations: 3\nowner: me\n", "Fix the build");
    let plan = decide_task(&StateFile::Contents(text), "fallback", "/p", &defaults(), "still working", "NOW");
    match &plan.outcome {
        HookOutcome::Block { reason, system_message } => {
            assert_eq!(reason, "Fix the build\n");
            assert_eq!(
                system_message,
                "Taskloop task 'Fix tests' | iteration 2/3 (remaining 1) | No completion promise set."
            );
        }
        _ => panic!("expected a block"),
    }
    assert!(!plan.remove_state);
    let st = plan.state.clone().unwrap();
    assert_eq!(st.iteration, 2);
    assert_eq!(st.updated_at, "NOW");
    assert_eq!(st.started_at, "2026-01-05T00:00:00Z");
    let text = plan.new_state_text.unwrap();
    assert!(text.contains("iteration: 2\n"));
    assert!(text.contains("updated_at: \"NOW\"\n"));
    assert!(text.contains("owner: me\n"));
    let h = plan.history.unwrap();
    assert_eq!(h.event, EventKind::Loop);
    assert!(h.block);
    assert_eq!(h.last_message_excerpt.as_deref(), Some("still working"));
    let m = plan.meta.unwrap();
    assert_eq!(m.status.as_deref(), Some("in_progress"));
    assert_eq!(m.last_event.as_deref(), Some("loop"));
}

#[test]
fn missing_start_time_is_set_on_loop() {
    let text = "---\niteration: 1\n---\nwork\n".to_string();
    let plan = decide_task(&StateFile::Contents(text), "fallback", "/p", &defaults(), "", "NOW");
    let st = plan.state.unwrap();
    assert_eq!(st.task_name, "fallback");
    assert_eq!(st.project_path, "/p");
    assert_eq!(st.started_at, "NOW");
}

#[test]
fn write_failure_plan_approves() {
    let plan = write_failed_plan(&sample_task_state(), "go", "msg");
    assert!(matches!(plan.outcome, HookOutcome::Approve));
    assert!(plan.remove_state);
    assert_eq!(plan.history.unwrap().event, EventKind::WriteFailed);
    assert_eq!(plan.meta.unwrap().status.as_deref(), Some("error"));
}

#[test]
fn write_state_format() {
    let mut extras = Frontmatter::new();
    extras.insert("owner".to_string(), "me".to_string());
    let text = write_state(&sample_task_state(), &extras, "Do it\n\n").unwrap();
    assert_eq!(
        text,
        "---\nschema_version: 1\ntask_name: Fix tests\nproject_path: /abs/project\nactive: true\niteration: 2\nmax_iterations: 10\ncompletion_promise: \"DONE\"\ncompletion_matcher: \"exact\"\nhistory_limit: 200\nstarted_at: \"S\"\nupdated_at: \"U\"\nowner: me\n---\n\nDo it\n"
    );
    let mut s = sample_task_state();
    s.completion_promise = None;
    s.completion_matcher = None;
    let text = write_state(&s, &Frontmatter::new(), "x").unwrap();
    assert!(text.contains("completion_promise: null\n"));
    assert!(!text.contains("completion_matcher"));
}

#[test]
fn read_state_and_extras() {
    let (fm, body) = read_state("---\ntask_name:  \"Fix\" \nowner: me\nnot a pair\niteration: 4\n---\n\nbody\n").unwrap();
    assert_eq!(fm.get("task_name").as_deref(), Some("Fix"));
    assert_eq!(fm.get("iteration").as_deref(), Some("4"));
    assert_eq!(body, "body\n");
    let extras = collect_extras(&fm);
    assert_eq!(extras.get("owner").as_deref(), Some("me"));
    assert_eq!(extras.get("iteration"), None);
    assert!(read_state("nothing").is_err());
}

#[test]
fn parse_fields() {
    let four = "4".to_string();
    let empty = String::new();
    let bad = "x".to_string();
    assert_eq!(parse_u32(Some(&four), 7, "iteration"), Ok(4));
    assert_eq!(parse_u32(Some(&empty), 7, "iteration"), Ok(7));
    assert_eq!(parse_u32(None, 7, "iteration"), Ok(7));
    assert_eq!(parse_u32(Some(&bad), 7, "iteration"), Err("invalid iteration value".to_string()));
    let yes = " YES ".to_string();
    let zero = "0".to_string();
    assert!(parse_bool(Some(&yes), false));
    assert!(!parse_bool(Some(&zero), true));
    assert!(parse_bool(Some(&bad), true));
    assert!(!parse_bool(None, false));
}

#[test]
fn parse_state_uses_defaults() {
    let (fm, _) = read_state("---\ncompletion_promise: done\ncompletion_matcher: weird\n---\n").unwrap();
    let d = ConfigDefaults { max_iterations: 9, completion_matcher: "regex".to_string(), history_limit: 5 };
    let s = parse_state(&fm, "name", "/p", &d, "NOW").unwrap();
    assert_eq!(s.max_iterations, 9);
    assert_eq!(s.history_limit, 5);
    assert_eq!(s.iteration, 0);
    assert!(s.active);
    assert_eq!(s.completion_promise.as_deref(), Some("done"));
    assert_eq!(s.completion_matcher.as_deref(), Some("regex"));
    assert_eq!(s.started_at, "NOW");
    assert_eq!(s.updated_at, "NOW");
    let (fm, _) = read_state("---\nschema_version: v2\n---\n").unwrap();
    assert_eq!(parse_state(&fm, "n", "/p", &d, "NOW").err(), Some("invalid schema value".to_string()));
}

#[test]
fn hook_state_round_trip() {
    let mut extras = Frontmatter::new();
    extras.insert("owner".to_string(), "me".to_string());
    let mut s = sample_task_state();
    s.completion_matcher = None;
    s.started_at = "2026-01-05T00:00:00Z".to_string();
    let text = write_state(&s, &extras, "Do it  \n").unwrap();
    let (fm, body) = read_state(&text).unwrap();
    assert_eq!(body, "Do it\n");
    let d = ConfigDefaults { max_iterations: 3, completion_matcher: "regex".to_string(), history_limit: 7 };
    let back = parse_state(&fm, "other", "/other", &d, "NOW").unwrap();
    assert_eq!(back.schema_version, 1);
    assert_eq!(back.task_name, "Fix tests");
    assert_eq!(back.project_path, "/abs/project");
    assert!(back.active);
    assert_eq!(back.iteration, 2);
    assert_eq!(back.max_iterations, 10);
    assert_eq!(back.completion_promise.as_deref(), Some("DONE"));
    assert_eq!(back.completion_matcher.as_deref(), Some("regex"));
    assert_eq!(back.history_limit, 200);
    assert_eq!(back.started_at, "2026-01-05T00:00:00Z");
    assert_eq!(back.updated_at, "NOW");
    assert_eq!(collect_extras(&fm).get("owner").as_deref(), Some("me"));
}

#[test]
fn hook_state_round_trip_with_empty_times() {
    let mut s = sample_task_state();
    s.started_at = String::new();
    s.updated_at = String::new();
    let text = write_state(&s, &Frontmatter::new(), "go").unwrap();
    let (fm, body) = read_state(&text).unwrap();
    assert_eq!(body, "go\n");
    let back = parse_state(&fm, "x", "/x", &defaults(), "NOW").unwrap();
    assert_eq!(back.started_at, "");
    assert_eq!(back.updated_at, "NOW");
    assert_eq!(back.completion_matcher.as_deref(), Some("exact"));
    assert!(collect_extras(&fm).entries.is_empty());
}
