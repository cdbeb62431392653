use codex_taskloop::config::ConfigDefaults;
use codex_taskloop::listing::{derive_status, list_limit, list_message, list_needs_project, list_page, listed_in, summarize_task, EventInfo, TaskSummary};
use codex_taskloop::meta::{TaskMeta, ToolError};
use codex_taskloop::paths::{StorageMode, StorageScope};
use codex_taskloop::state_data::StateData;
use codex_taskloop::text::normalize_space;
use codex_taskloop::tools::{
    check_prompt, deleted_message, enforce_storage_mode, fallback_task_dir, generate_task_name, history_limit_of,
    new_task_state, no_state_error, normalize_matcher, normalize_task_name, parse_storage_mode, plan_task_loop,
    random_task_dir, rename_state, renamed_message, require_project_for_user, resume_state, resumed_message,
    started_message, storage_scope_from_env, task_dir_from_draw, tool_kind, LoopArgs, ToolKind,
};

fn invalid(msg: &str) -> ToolError {
    ToolError::InvalidParams(msg.to_string())
}

fn is_invalid(r: &ToolError, msg: &str) -> bool {
    matches!(r, ToolError::InvalidParams(m) if m == msg)
}

fn defaults() -> ConfigDefaults {
    ConfigDefaults { max_iterations: 0, completion_matcher: "exact".to_string(), history_limit: 200 }
}

fn args(prompt: &str) -> LoopArgs {
    LoopArgs {
        prompt: prompt.to_string(),
        task_name: None,
        max_iterations: None,
        completion_promise: None,
        completion_matcher: None,
        history_limit: None,
        storage: None,
        project_dir: None,
    }
}

#[test]
fn storage_modes() {
    assert_eq!(parse_storage_mode(None).unwrap(), StorageMode::Project);
    assert_eq!(parse_storage_mode(Some("  ")).unwrap(), StorageMode::Project);
    assert_eq!(parse_storage_mode(Some("Local")).unwrap(), StorageMode::Project);
    assert_eq!(parse_storage_mode(Some(" USER ")).unwrap(), StorageMode::User);
    assert_eq!(parse_storage_mode(Some("global")).unwrap(), StorageMode::User);
    assert!(is_invalid(&parse_storage_mode(Some("disk")).unwrap_err(), "storage must be project or user"));
}

#[test]
fn storage_scopes() {
    assert_eq!(storage_scope_from_env(None), StorageScope::Both);
    assert_eq!(storage_scope_from_env(Some("project-only")), StorageScope::ProjectOnly);
    assert_eq!(storage_scope_from_env(Some(" Local-Only ")), StorageScope::ProjectOnly);
    assert_eq!(storage_scope_from_env(Some("both")), StorageScope::Both);
    assert_eq!(storage_scope_from_env(Some("anything")), StorageScope::Both);
    assert_eq!(enforce_storage_mode(StorageScope::Both, StorageMode::User).unwrap(), StorageMode::User);
    assert_eq!(enforce_storage_mode(StorageScope::ProjectOnly, StorageMode::Project).unwrap(), StorageMode::Project);
    assert!(is_invalid(
        &enforce_storage_mode(StorageScope::ProjectOnly, StorageMode::User).unwrap_err(),
        "storage=user is not allowed for project-level install; use storage=project"
    ));
    assert!(require_project_for_user(StorageMode::User, true).is_ok());
    assert!(require_project_for_user(StorageMode::Project, false).is_ok());
    assert!(is_invalid(
        &require_project_for_user(StorageMode::User, false).unwrap_err(),
        "project_dir is required for user storage"
    ));
}

#[test]
fn matchers() {
    assert_eq!(normalize_matcher(None, Some("x")).unwrap(), None);
    assert_eq!(normalize_matcher(Some("CI".to_string()), None).unwrap(), None);
    assert_eq!(normalize_matcher(Some(" Insensitive ".to_string()), Some("x")).unwrap().as_deref(), Some("case_insensitive"));
    assert_eq!(normalize_matcher(Some("regex".to_string()), Some("x")).unwrap().as_deref(), Some("regex"));
    assert!(is_invalid(
        &normalize_matcher(Some("fuzzy".to_string()), Some("x")).unwrap_err(),
        "completion_matcher must be exact, case_insensitive, or regex"
    ));
}

#[test]
fn task_names() {
    assert_eq!(generate_task_name("\n  \n  Fix   the\ttests  \nmore"), "Fix the tests");
    assert_eq!(generate_task_name(" \n\t"), "task");
    assert_eq!(generate_task_name(""), "task");
    assert_eq!(
        generate_task_name("abcdefghij abcdefghij abcdefghij abcdefghij"),
        "abcdefghij abcdefghij abcdefgh"
    );
    assert_eq!(normalize_task_name(None, "Fix tests").unwrap(), "Fix tests");
    assert_eq!(normalize_task_name(Some("  My   task ".to_string()), "").unwrap(), "My task");
    assert!(is_invalid(&normalize_task_name(Some("   ".to_string()), "").unwrap_err(), "task_name cannot be empty"));
    assert!(is_invalid(
        &normalize_task_name(Some("a".repeat(31)), "").unwrap_err(),
        "task_name must be <= 30 characters"
    ));
    assert_eq!(normalize_task_name(Some("a".repeat(30)), "").unwrap(), "a".repeat(30));
    assert_eq!(normalize_task_name(Some("two\nlines".to_string()), "").unwrap(), "two lines");
}

#[test]
fn generated_name_is_always_accepted() {
    for prompt in ["", "   ", "x", "  lots   of   words here that go on and on and on", "\n\nsecond line"] {
        let name = generate_task_name(prompt);
        assert_eq!(normalize_task_name(None, prompt).unwrap(), normalize_space(&name));
    }
}

#[test]
fn normalising_a_name_twice_changes_nothing() {
    let once = normalize_task_name(Some("  a  b\tc ".to_string()), "").unwrap();
    let twice = normalize_task_name(Some(once.clone()), "").unwrap();
    assert_eq!(once, twice);
}

#[test]
fn loop_plans() {
    let p = plan_task_loop(&args("Fix the build\nthen test"), StorageScope::Both, &defaults()).unwrap();
    assert_eq!(p.storage_mode, StorageMode::Project);
    assert_eq!(p.task_name, "Fix the build");
    assert_eq!(p.completion_promise, None);
    assert_eq!(p.completion_matcher, None);
    assert_eq!(p.max_iterations, 0);
    assert_eq!(p.history_limit, 200);

    let mut a = args("go");
    a.completion_promise = Some("DONE".to_string());
    a.max_iterations = Some(10);
    a.history_limit = Some(0);
    a.storage = Some("user".to_string());
    a.task_name = Some("Named".to_string());
    let d = ConfigDefaults { max_iterations: 3, completion_matcher: "case_insensitive".to_string(), history_limit: 50 };
    let p = plan_task_loop(&a, StorageScope::Both, &d).unwrap();
    assert_eq!(p.storage_mode, StorageMode::User);
    assert_eq!(p.task_name, "Named");
    assert_eq!(p.completion_promise.as_deref(), Some("DONE"));
    assert_eq!(p.completion_matcher.as_deref(), Some("case_insensitive"));
    assert_eq!(p.max_iterations, 10);
    assert_eq!(p.history_limit, 0);

    let mut b = args("go");
    b.completion_promise = Some("  ".to_string());
    b.completion_matcher = Some("bogus".to_string());
    let p = plan_task_loop(&b, StorageScope::Both, &defaults()).unwrap();
    assert_eq!(p.completion_promise, None);
    assert_eq!(p.completion_matcher, None);
}

#[test]
fn loop_plan_errors_in_order() {
    assert!(is_invalid(&plan_task_loop(&args("  "), StorageScope::Both, &defaults()).unwrap_err(), "prompt cannot be empty"));
    let mut a = args("go");
    a.storage = Some("disk".to_string());
    a.task_name = Some("".to_string());
    assert!(is_invalid(&plan_task_loop(&a, StorageScope::Both, &defaults()).unwrap_err(), "storage must be project or user"));
    a.storage = Some("user".to_string());
    assert!(is_invalid(
        &plan_task_loop(&a, StorageScope::ProjectOnly, &defaults()).unwrap_err(),
        "storage=user is not allowed for project-level install; use storage=project"
    ));
    assert!(is_invalid(&plan_task_loop(&a, StorageScope::Both, &defaults()).unwrap_err(), "task_name cannot be empty"));
    a.task_name = None;
    a.completion_promise = Some("done".to_string());
    a.completion_matcher = Some("fuzzy".to_string());
    assert!(is_invalid(
        &plan_task_loop(&a, StorageScope::Both, &defaults()).unwrap_err(),
        "completion_matcher must be exact, case_insensitive, or regex"
    ));
    assert!(check_prompt("x").is_ok());
    assert_eq!(format!("{:?}", check_prompt("\n")), format!("{:?}", Err::<(), ToolError>(invalid("prompt cannot be empty"))));
}

#[test]
fn new_task_state_values() {
    let mut a = args("Do it");
    a.completion_promise = Some("DONE".to_string());
    let p = plan_task_loop(&a, StorageScope::Both, &defaults()).unwrap();
    let s = new_task_state(&p, "/abs/project", "Do it", "NOW");
    assert_eq!(s.schema_version, 1);
    assert_eq!(s.task_name, "Do it");
    assert_eq!(s.project_path.as_deref(), Some("/abs/project"));
    assert!(s.active);
    assert_eq!(s.iteration, 1);
    assert_eq!(s.completion_promise.as_deref(), Some("DONE"));
    assert_eq!(s.completion_matcher.as_deref(), Some("exact"));
    assert_eq!(s.history_limit, Some(200));
    assert_eq!(s.started_at.as_deref(), Some("NOW"));
    assert_eq!(s.updated_at.as_deref(), Some("NOW"));
    assert_eq!(s.prompt, "Do it");
    assert!(s.extras.is_empty());
}

fn state(active: bool) -> StateData {
    StateData {
        schema_version: 1,
        task_name: "t".to_string(),
        project_path: None,
        active,
        iteration: 4,
        max_iterations: 9,
        completion_promise: None,
        completion_matcher: None,
        history_limit: None,
        started_at: None,
        updated_at: Some("2026-01-05T00:00:10Z".to_string()),
        prompt: "p".to_string(),
        extras: Vec::new(),
    }
}

#[test]
fn resume_and_rename() {
    let mut s = state(false);
    resume_state(&mut s, "LATER");
    assert!(s.active);
    assert_eq!(s.updated_at.as_deref(), Some("LATER"));
    assert_eq!(s.iteration, 4);
    rename_state(&mut s, "new", "LATEST");
    assert_eq!(s.task_name, "new");
    assert_eq!(s.updated_at.as_deref(), Some("LATEST"));
    assert_eq!(history_limit_of(&s, &defaults()), 200);
    s.history_limit = Some(7);
    assert_eq!(history_limit_of(&s, &defaults()), 7);
}

#[test]
fn messages() {
    assert_eq!(
        started_message("Fix", StorageMode::Project, "abc123"),
        "Taskloop task started: 'Fix' (storage: project, dir: abc123)"
    );
    assert_eq!(resumed_message("Fix", StorageMode::User), "Resumed Taskloop task 'Fix' (storage: user)");
    assert_eq!(renamed_message("New", StorageMode::Project), "Renamed Taskloop task to 'New' (storage: project)");
    assert_eq!(deleted_message("Old", StorageMode::Project), "Deleted Taskloop task 'Old' (storage: project)");
    assert!(matches!(no_state_error(), ToolError::Internal(m) if m == "no task state file found"));
    assert_eq!(no_state_error().message(), "no task state file found");
}

#[test]
fn tool_names() {
    assert_eq!(tool_kind("task_loop").unwrap(), ToolKind::Loop);
    assert_eq!(tool_kind("task_list").unwrap(), ToolKind::List);
    assert_eq!(tool_kind("task_resume").unwrap(), ToolKind::Resume);
    assert_eq!(tool_kind("task_rename").unwrap(), ToolKind::Rename);
    assert_eq!(tool_kind("task_delete").unwrap(), ToolKind::Delete);
    assert!(is_invalid(&tool_kind("task_stop").unwrap_err(), "unknown tool: task_stop"));
}

#[test]
fn task_dirs() {
    let d = random_task_dir();
    assert_eq!(d.chars().count(), 12);
    assert!(d.chars().all(|c| c.is_ascii_lowercase() || c.is_ascii_digit()));
    let e = random_task_dir();
    assert_eq!(e.len(), 12);
    assert_eq!(fallback_task_dir(1767571200123), "task-1767571200123");
    assert_eq!(fallback_task_dir(-5), "task--5");
    assert_eq!(task_dir_from_draw("aB3xYZ09qRst"), "ab3xyz09qrst");
}

fn event(name: Option<&str>) -> EventInfo {
    EventInfo {
        event: name.map(|s| s.to_string()),
        iteration: Some(3),
        max_iterations: Some(5_000_000_000),
        ts: Some("2026-01-05T00:00:05Z".to_string()),
    }
}

#[test]
fn statuses() {
    assert_eq!(derive_status(Some(&state(true)), Some(&event(Some("cancel")))), "in_progress");
    assert_eq!(derive_status(Some(&state(false)), None), "paused");
    assert_eq!(derive_status(None, Some(&event(Some("promise_matched")))), "completed");
    assert_eq!(derive_status(None, Some(&event(Some("max_iterations")))), "completed");
    assert_eq!(derive_status(None, Some(&event(Some("delete")))), "cancelled");
    assert_eq!(derive_status(None, Some(&event(Some("write_failed")))), "error");
    assert_eq!(derive_status(None, Some(&event(Some("loop")))), "completed");
    assert_eq!(derive_status(None, Some(&event(None))), "error");
    assert_eq!(derive_status(None, None), "error");
}

fn meta_task(name: &str, project: Option<&str>, updated: Option<&str>) -> TaskMeta {
    TaskMeta {
        task_name: name.to_string(),
        task_dir: format!("dir-{name}"),
        project_path: project.map(|s| s.to_string()),
        status: None,
        iteration: None,
        max_iterations: None,
        last_event: None,
        started_at: None,
        updated_at: updated.map(|s| s.to_string()),
    }
}

#[test]
fn summaries() {
    let t = meta_task("a", Some("/p"), Some("2026-01-05T00:00:01Z"));
    let s = summarize_task(&t, Some(&state(true)), Some(&event(Some("loop"))));
    assert_eq!(s.status, "in_progress");
    assert_eq!(s.iteration, Some(4));
    assert_eq!(s.max_iterations, Some(9));
    assert_eq!(s.last_event.as_deref(), Some("loop"));
    assert_eq!(s.last_updated.as_deref(), Some("2026-01-05T00:00:10Z"));
    assert_eq!(s.sort_ts, 1767571210);

    let s = summarize_task(&t, None, Some(&event(Some("promise_matched"))));
    assert_eq!(s.status, "completed");
    assert_eq!(s.iteration, Some(3));
    assert_eq!(s.max_iterations, Some(5_000_000_000u64 as u32));
    assert_eq!(s.last_updated.as_deref(), Some("2026-01-05T00:00:05Z"));
    assert_eq!(s.sort_ts, 1767571205);

    let s = summarize_task(&t, None, None);
    assert_eq!(s.status, "error");
    assert_eq!(s.iteration, None);
    assert_eq!(s.last_updated.as_deref(), Some("2026-01-05T00:00:01Z"));
    assert_eq!(s.sort_ts, 1767571201);

    let u = meta_task("b", None, Some("not a time"));
    let s = summarize_task(&u, None, None);
    assert_eq!(s.sort_ts, 0);
}

#[test]
fn list_filters_and_limits() {
    let t = meta_task("a", Some("/p"), None);
    assert!(listed_in(&t, None));
    assert!(listed_in(&t, Some("/p")));
    assert!(!listed_in(&t, Some("/q")));
    assert!(!listed_in(&meta_task("b", None, None), Some("/p")));
    assert!(list_needs_project(StorageMode::Project, false));
    assert!(list_needs_project(StorageMode::User, true));
    assert!(!list_needs_project(StorageMode::User, false));
    assert_eq!(list_limit(None), 50);
    assert_eq!(list_limit(Some(0)), 1);
    assert_eq!(list_limit(Some(10)), 10);
    assert_eq!(list_limit(Some(5000)), 2000);
    assert_eq!(list_message(3, 1, 2), "Found 3 task(s) (showing 1..3)");
    assert_eq!(list_message(0, 10, 0), "Found 0 task(s) (showing 10..10)");
}

fn summary(name: &str, ts: i64) -> TaskSummary {
    TaskSummary {
        task_name: name.to_string(),
        task_dir: name.to_string(),
        project_path: None,
        status: "error".to_string(),
        iteration: None,
        max_iterations: None,
        last_event: None,
        last_updated: None,
        sort_ts: ts,
    }
}

#[test]
fn list_pages_newest_first() {
    let all = vec![summary("a", 10), summary("b", 30), summary("c", 20), summary("d", 30), summary("e", 0)];
    let names = |v: Vec<TaskSummary>| v.into_iter().map(|s| s.task_name).collect::<Vec<_>>();
    assert_eq!(names(list_page(&all, 0, 50)), vec!["b", "d", "c", "a", "e"]);
    assert_eq!(names(list_page(&all, 1, 2)), vec!["d", "c"]);
    assert_eq!(names(list_page(&all, 4, 10)), vec!["e"]);
    assert!(list_page(&all, 5, 10).is_empty());
    assert!(list_page(&all, 99, 10).is_empty());
}
