use codex_taskloop::frontmatter::{escape_yaml, is_known_key, StateError};
use codex_taskloop::state_data::{parse_state_data, render_state_data, StateData};

fn sample_state() -> StateData {
    StateData {
        schema_version: 1,
        task_name: "Fix tests".to_string(),
        project_path: Some("/abs/project".to_string()),
        active: true,
        iteration: 1,
        max_iterations: 0,
        completion_promise: Some("DONE".to_string()),
        completion_matcher: Some("exact".to_string()),
        history_limit: Some(200),
        started_at: Some("2026-01-05T00:00:00Z".to_string()),
        updated_at: Some("2026-01-05T00:00:00Z".to_string()),
        prompt: "Fix failing tests. Output <promise>DONE</promise> when all tests pass.".to_string(),
        extras: Vec::new(),
    }
}

const SAMPLE_TEXT: &str = "---\nschema_version: 1\ntask_name: Fix tests\nproject_path: /abs/project\nactive: true\niteration: 1\nmax_iterations: 0\ncompletion_promise: \"DONE\"\ncompletion_matcher: \"exact\"\nhistory_limit: 200\nstarted_at: \"2026-01-05T00:00:00Z\"\nupdated_at: \"2026-01-05T00:00:00Z\"\n---\n\nFix failing tests. Output <promise>DONE</promise> when all tests pass.\n";

#[test]
fn render_matches_documented_format() {
    let text = render_state_data(&sample_state(), "2030-01-01T00:00:00Z").unwrap();
    assert_eq!(text, SAMPLE_TEXT);
}

#[test]
fn render_uses_now_for_missing_times_and_null_promise() {
    let mut s = sample_state();
    s.started_at = None;
    s.updated_at = None;
    s.completion_promise = Some("   ".to_string());
    s.completion_matcher = None;
    s.history_limit = None;
    s.project_path = None;
    s.prompt = "go on  \n\n".to_string();
    s.extras = vec![("owner".to_string(), "me".to_string()), ("iteration".to_string(), "9".to_string())];
    let text = render_state_data(&s, "NOW").unwrap();
    assert_eq!(
        text,
        "---\nschema_version: 1\ntask_name: Fix tests\nactive: true\niteration: 1\nmax_iterations: 0\ncompletion_promise: null\nstarted_at: \"NOW\"\nupdated_at: \"NOW\"\nowner: me\n---\n\ngo on\n"
    );
}

#[test]
fn render_refuses_multiline_promise() {
    let mut s = sample_state();
    s.completion_promise = Some("a\nb".to_string());
    assert_eq!(render_state_data(&s, "NOW"), Err(StateError::MultilineValue));
}

#[test]
fn parse_reads_documented_format() {
    let d = parse_state_data(SAMPLE_TEXT).unwrap();
    assert_eq!(d.schema_version, 1);
    assert_eq!(d.task_name, "Fix tests");
    assert_eq!(d.project_path.as_deref(), Some("/abs/project"));
    assert!(d.active);
    assert_eq!(d.iteration, 1);
    assert_eq!(d.max_iterations, 0);
    assert_eq!(d.completion_promise.as_deref(), Some("DONE"));
    assert_eq!(d.completion_matcher.as_deref(), Some("exact"));
    assert_eq!(d.history_limit, Some(200));
    assert_eq!(d.started_at.as_deref(), Some("2026-01-05T00:00:00Z"));
    assert_eq!(d.updated_at.as_deref(), Some("2026-01-05T00:00:00Z"));
    assert_eq!(d.prompt, "Fix failing tests. Output <promise>DONE</promise> when all tests pass.\n");
    assert!(d.extras.is_empty());
}

#[test]
fn state_round_trip_keeps_fields() {
    let s = sample_state();
    let text = render_state_data(&s, "NOW").unwrap();
    let d = parse_state_data(&text).unwrap();
    assert_eq!(d.task_name, s.task_name);
    assert_eq!(d.project_path, s.project_path);
    assert_eq!(d.active, s.active);
    assert_eq!(d.iteration, s.iteration);
    assert_eq!(d.max_iterations, s.max_iterations);
    assert_eq!(d.completion_promise, s.completion_promise);
    assert_eq!(d.completion_matcher, s.completion_matcher);
    assert_eq!(d.history_limit, s.history_limit);
    assert_eq!(d.started_at, s.started_at);
    assert_eq!(d.updated_at, s.updated_at);
    assert_eq!(d.prompt, format!("{}\n", s.prompt));
}

#[test]
fn parse_errors() {
    assert_eq!(parse_state_data("no front matter").err(), Some(StateError::MissingFrontmatter));
    assert_eq!(
        parse_state_data("---\ntask_name: x\n").err(),
        Some(StateError::MissingClosingFrontmatter)
    );
    assert_eq!(
        parse_state_data("---\niteration: many\n---\nbody").err(),
        Some(StateError::InvalidIteration)
    );
    assert_eq!(
        parse_state_data("---\nmax_iterations: -1\n---\nbody").err(),
        Some(StateError::InvalidMaxIterations)
    );
    assert_eq!(StateError::MissingFrontmatter.message(), "state file missing frontmatter");
}

#[test]
fn parse_defaults_and_extras() {
    let d = parse_state_data("---\nactive: nope\nschema_version: x\nhistory_limit: lots\nowner: \"me\"\ncompletion_promise: NULL\ncompletion_matcher: CI\n---\n\n\nbody").unwrap();
    assert_eq!(d.schema_version, 1);
    assert!(!d.active);
    assert_eq!(d.iteration, 0);
    assert_eq!(d.history_limit, None);
    assert_eq!(d.completion_promise, None);
    assert_eq!(d.completion_matcher.as_deref(), Some("case_insensitive"));
    assert_eq!(d.extras, vec![("owner".to_string(), "me".to_string())]);
    assert_eq!(d.prompt, "body");
}

#[test]
fn escape_yaml_cases() {
    assert_eq!(escape_yaml("say \"hi\" \\ now").unwrap(), "say \\\"hi\\\" \\\\ now");
    assert_eq!(escape_yaml("two\nlines"), Err(StateError::MultilineValue));
    assert_eq!(escape_yaml("cr\r"), Err(StateError::MultilineValue));
}

#[test]
fn known_keys() {
    assert!(is_known_key("schema_version"));
    assert!(is_known_key("updated_at"));
    assert!(!is_known_key("prompt"));
    assert!(!is_known_key("owner"));
}
