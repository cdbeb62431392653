use codex_taskloop::candidates::{list_candidates, make_candidate, order_candidates, task_belongs, Candidate, StateProbe, StoreScan};
use codex_taskloop::meta::MetaIndex;
use codex_taskloop::config::{normalize_matcher_name, ConfigDefaults, TaskloopConfigFile};
use codex_taskloop::history::prune_lines;
use codex_taskloop::matching::{extract_promise_text, promise_matches};
use codex_taskloop::meta::TaskMeta;
use codex_taskloop::order::newest_first;
use codex_taskloop::paths::{
    codex_home_dir, config_file_path, expand_tilde, global_store_root, history_file_path, hooks_file_path,
    local_store_root, lock_file_path, meta_file_path, meta_lock_path, path_join, project_store_root,
    state_file_path, storage_label, storage_root_for_mode, storage_roots_for_hook, task_root, user_store_root,
    StorageMode,
};
use codex_taskloop::rollout::{last_assistant_text, message_source, rollout_lines, ContentItem, HookInput, MessageSource, RolloutPayload};
use codex_taskloop::text::{normalize_space, snippet};
use codex_taskloop::timestamps::parse_timestamp;

#[test]
fn whitespace_and_snippets() {
    assert_eq!(normalize_space("  a \t b\n\nc  "), "a b c");
    assert_eq!(normalize_space(" \u{3000} "), "");
    assert_eq!(snippet("short"), "short");
    let long = "x".repeat(250);
    assert_eq!(snippet(&long), format!("{}...", "x".repeat(200)));
    let wide = "é".repeat(150);
    assert_eq!(snippet(&wide), format!("{}...", "é".repeat(150)));
    assert_eq!(snippet(&"é".repeat(100)), "é".repeat(100));
}

#[test]
fn paths() {
    assert_eq!(path_join("/a", "b"), "/a/b");
    assert_eq!(path_join("/a/", "b"), "/a/b");
    assert_eq!(path_join("", "b"), "b");
    assert_eq!(path_join("/a", "/b"), "/b");
    assert_eq!(project_store_root("/p"), "/p/.codex/task_loop");
    assert_eq!(local_store_root("/p"), "/p/.codex/task_loop");
    assert_eq!(user_store_root("/h/.codex"), "/h/.codex/task_loop");
    assert_eq!(global_store_root("/h/.codex"), "/h/.codex/task_loop");
    assert_eq!(storage_root_for_mode("/p", StorageMode::User, "/c"), "/c/task_loop");
    assert_eq!(storage_root_for_mode("/p", StorageMode::Project, "/c"), "/p/.codex/task_loop");
    assert_eq!(storage_label(StorageMode::Project), "project");
    assert_eq!(storage_label(StorageMode::User), "user");
    let root = task_root("/p/.codex/task_loop", "abc");
    assert_eq!(root, "/p/.codex/task_loop/abc");
    assert_eq!(state_file_path(&root), "/p/.codex/task_loop/abc/state.md");
    assert_eq!(history_file_path(&root), "/p/.codex/task_loop/abc/history.jsonl");
    assert_eq!(lock_file_path(&root), "/p/.codex/task_loop/abc/task.lock");
    assert_eq!(meta_file_path("/r"), "/r/meta.json");
    assert_eq!(meta_lock_path("/r"), "/r/meta.lock");
    assert_eq!(config_file_path("/p"), "/p/.codex/task-loop.config.toml");
    assert_eq!(hooks_file_path("/p"), "/p/.codex/hooks/hooks.json");
    assert_eq!(codex_home_dir(Some("/c"), Some("/h")), "/c");
    assert_eq!(codex_home_dir(Some("  "), Some("/h")), "/h/.codex");
    assert_eq!(codex_home_dir(None, None), ".codex");
    assert_eq!(expand_tilde("~", Some("/h")), "/h");
    assert_eq!(expand_tilde("~/x/y", Some("/h")), "/h/x/y");
    assert_eq!(expand_tilde("~x", Some("/h")), "~x");
    assert_eq!(expand_tilde("~/x", None), "~/x");
    let roots = storage_roots_for_hook("/p", "/p", "/c");
    assert_eq!(roots.len(), 2);
    assert_eq!(roots[0].root, "/p/.codex/task_loop");
    assert_eq!(roots[1].root, "/c/task_loop");
    assert_eq!(roots[1].project_path, "/p");
}

#[test]
fn timestamps() {
    assert_eq!(parse_timestamp("2026-01-05T00:00:00Z"), Some(1767571200));
    assert_eq!(parse_timestamp("  2026-01-05T01:00:00+01:00 "), Some(1767571200));
    assert_eq!(parse_timestamp("   "), None);
    assert_eq!(parse_timestamp("yesterday"), None);
}

#[test]
fn promises() {
    assert_eq!(extract_promise_text("done <promise>  All\n set </promise> x").as_deref(), Some("All set"));
    assert_eq!(extract_promise_text("<Promise>a</PROMISE><promise>b</promise>").as_deref(), Some("a"));
    assert_eq!(extract_promise_text("no promise"), None);
    assert_eq!(promise_matches("All  set", "All set", "exact"), Some(true));
    assert_eq!(promise_matches("all set", "All set", "exact"), Some(false));
    assert_eq!(promise_matches("all set", "ALL   SET", "case_insensitive"), Some(true));
    assert_eq!(promise_matches("build 42 ok", "^build \\d+ ok$", "regex"), Some(true));
    assert_eq!(promise_matches("build x ok", "^build \\d+ ok$", "regex"), Some(false));
    assert_eq!(promise_matches("x", "(", "regex"), None);
    assert_eq!(promise_matches("a", "a", "anything"), Some(true));
}

#[test]
fn config_defaults() {
    let d = ConfigDefaults::from_config(TaskloopConfigFile::unset());
    assert_eq!(d.max_iterations, 0);
    assert_eq!(d.history_limit, 200);
    assert_eq!(d.completion_matcher, "exact");
    let d = ConfigDefaults::from_config(TaskloopConfigFile {
        default_max_iterations: Some(10),
        default_completion_matcher: Some("CI".to_string()),
        history_limit: Some(0),
    });
    assert_eq!(d.max_iterations, 10);
    assert_eq!(d.history_limit, 0);
    assert_eq!(d.completion_matcher, "case_insensitive");
    let d = ConfigDefaults::from_config(TaskloopConfigFile {
        default_max_iterations: None,
        default_completion_matcher: Some("glob".to_string()),
        history_limit: None,
    });
    assert_eq!(d.completion_matcher, "exact");
    assert_eq!(ConfigDefaults::builtin().history_limit, 200);
    assert_eq!(normalize_matcher_name(" Regex ".to_string()).as_deref(), Some("regex"));
    assert_eq!(normalize_matcher_name("x".to_string()), None);
}

#[test]
fn ordering_is_newest_first_and_stable() {
    assert_eq!(newest_first(&vec![5, 9, 5, 1, 9]), vec![1, 4, 0, 2, 3]);
    assert_eq!(newest_first(&vec![]), Vec::<usize>::new());
    assert_eq!(newest_first(&vec![-1, 0]), vec![1, 0]);
}

fn meta_task(name: &str, project: Option<&str>) -> TaskMeta {
    TaskMeta {
        task_name: name.to_string(),
        task_dir: format!("d-{name}"),
        project_path: project.map(|s| s.to_string()),
        status: None,
        iteration: None,
        max_iterations: None,
        last_event: None,
        started_at: None,
        updated_at: None,
    }
}

#[test]
fn candidates() {
    let roots = storage_roots_for_hook("/p", "/p", "/c");
    let mine = meta_task("a", Some("/p"));
    let theirs = meta_task("b", Some("/q"));
    assert!(task_belongs(&mine, &roots[0]));
    assert!(!task_belongs(&theirs, &roots[0]));
    assert!(!task_belongs(&meta_task("c", None), &roots[0]));
    assert!(make_candidate(&roots[0], &theirs, &StateProbe::Present { text: None, mtime: 3 }).is_none());
    assert!(make_candidate(&roots[0], &mine, &StateProbe::Missing).is_none());

    let c = make_candidate(&roots[0], &mine, &StateProbe::Present { text: None, mtime: 7 }).unwrap();
    assert_eq!(c.state_path, "/p/.codex/task_loop/d-a/state.md");
    assert_eq!(c.history_path, "/p/.codex/task_loop/d-a/history.jsonl");
    assert_eq!(c.root, "/p/.codex/task_loop");
    assert!(c.active_hint);
    assert_eq!(c.sort_ts, 7);

    let text = "---\nactive: no\nupdated_at: \"2026-01-05T00:00:00Z\"\n---\nbody".to_string();
    let c = make_candidate(&roots[0], &mine, &StateProbe::Present { text: Some(text), mtime: 7 }).unwrap();
    assert!(!c.active_hint);
    assert_eq!(c.sort_ts, 1767571200);
    let text = "---\nupdated_at: bad\nstarted_at: 2026-01-05T00:00:01Z\n---\n".to_string();
    let c = make_candidate(&roots[1], &mine, &StateProbe::Present { text: Some(text), mtime: 7 }).unwrap();
    assert_eq!(c.sort_ts, 1767571201);
    assert_eq!(c.state_path, "/c/task_loop/d-a/state.md");
    let c = make_candidate(&roots[1], &mine, &StateProbe::Present { text: Some("garbage".to_string()), mtime: 9 }).unwrap();
    assert!(c.active_hint);
    assert_eq!(c.sort_ts, 9);
}

fn cand(name: &str, ts: i64) -> Candidate {
    Candidate {
        task_name: name.to_string(),
        task_dir: name.to_string(),
        state_path: String::new(),
        history_path: String::new(),
        root: String::new(),
        active_hint: true,
        sort_ts: ts,
    }
}

#[test]
fn candidate_order() {
    let v = vec![cand("a", 1), cand("b", 3), cand("c", 3), cand("d", 2)];
    let names: Vec<String> = order_candidates(&v).into_iter().map(|c| c.task_name).collect();
    assert_eq!(names, vec!["b", "c", "d", "a"]);
}

#[test]
fn history_pruning() {
    assert_eq!(prune_lines("a\nb\n", 2), None);
    assert_eq!(prune_lines("a\nb\nc\n", 2).as_deref(), Some("b\nc\n"));
    assert_eq!(prune_lines("a\r\nb\r\nc", 1).as_deref(), Some("c\n"));
    assert_eq!(prune_lines("a\nb\n", 0).as_deref(), Some(""));
    let pruned = prune_lines("1\n2\n3\n4\n5\n", 3).unwrap();
    assert_eq!(pruned.lines().collect::<Vec<_>>(), vec!["3", "4", "5"]);
}

#[test]
fn message_sources() {
    let i = HookInput { last_agent_message: Some("hi".to_string()), rollout_path: Some("/r".to_string()) };
    assert!(matches!(message_source(&i), MessageSource::Direct(m) if m == "hi"));
    let i = HookInput { last_agent_message: Some("  ".to_string()), rollout_path: Some("/r".to_string()) };
    assert!(matches!(message_source(&i), MessageSource::Rollout(p) if p == "/r"));
    let i = HookInput { last_agent_message: None, rollout_path: Some(" ".to_string()) };
    assert!(matches!(message_source(&i), MessageSource::Nothing));
}

#[test]
fn rollout_lines_last_first() {
    assert_eq!(rollout_lines("a\n  \n b \nc\n"), vec!["c", "b", "a"]);
    assert!(rollout_lines("").is_empty());
}

fn item(kind: &str, text: &str) -> Option<ContentItem> {
    Some(ContentItem { kind: Some(kind.to_string()), text: Some(text.to_string()) })
}

fn payload(kind: &str, role: &str, content: Option<Vec<Option<ContentItem>>>) -> Option<RolloutPayload> {
    Some(RolloutPayload { kind: Some(kind.to_string()), role: Some(role.to_string()), content })
}

#[test]
fn assistant_text() {
    let ps = vec![
        None,
        payload("message", "user", Some(vec![item("text", "question")])),
        payload("message", "assistant", Some(vec![item("text", "")])),
        payload("reasoning", "assistant", Some(vec![item("text", "hmm")])),
        payload("message", "assistant", Some(vec![item("output_text", "first"), None, item("image", "x"), item("text", "second")])),
        payload("message", "assistant", Some(vec![item("text", "older")])),
    ];
    assert_eq!(last_assistant_text(&ps), "first\nsecond");
    assert_eq!(last_assistant_text(&vec![None, payload("message", "assistant", None)]), "");
}

#[test]
fn candidates_across_stores() {
    let roots = storage_roots_for_hook("/p", "/p", "/c");
    let local = MetaIndex { schema_version: 1, tasks: vec![meta_task("a", Some("/p")), meta_task("b", Some("/q")), meta_task("c", Some("/p"))] };
    let scans = vec![
        StoreScan {
            meta: Some(local),
            probes: vec![
                StateProbe::Present { text: None, mtime: 5 },
                StateProbe::Present { text: None, mtime: 6 },
                StateProbe::Missing,
            ],
        },
        StoreScan { meta: None, probes: Vec::new() },
    ];
    let found = list_candidates(&roots, &scans);
    assert_eq!(found.len(), 1);
    assert_eq!(found[0].task_name, "a");
    assert_eq!(found[0].sort_ts, 5);
    let user = MetaIndex { schema_version: 1, tasks: vec![meta_task("d", Some("/p"))] };
    let scans = vec![
        StoreScan { meta: Some(MetaIndex::empty()), probes: Vec::new() },
        StoreScan { meta: Some(user), probes: vec![StateProbe::Present { text: None, mtime: 1 }] },
    ];
    let found = list_candidates(&roots, &scans);
    assert_eq!(found.len(), 1);
    assert_eq!(found[0].root, "/c/task_loop");
}
