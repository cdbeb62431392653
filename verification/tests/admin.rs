use codex_taskloop::admin::{
    admin_command, codex_config_path, handle_hooks, handle_mcp, handle_stop_hooks, hook_action, nonblank, parse_flags,
    update_mcp_config, update_stop_hooks_config, AdminCommand, HookAction,
};
use codex_taskloop::config_text::{append_block, append_stop_hook_block, remove_block, remove_stop_hook_block};
use codex_taskloop::hooks_json::{add_hook, filter_items, hook_matches, remove_hook, HookEntry, HooksDoc, HooksField, StopField, StopItem};

fn strings(v: &[&str]) -> Vec<String> {
    v.iter().map(|s| s.to_string()).collect()
}

#[test]
fn flags() {
    let f = parse_flags(&strings(&["--name", "x", "----project", "/p", "--name", "y"])).unwrap();
    assert_eq!(f.get("name").map(|s| s.as_str()), Some("y"));
    assert_eq!(f.get("project").map(|s| s.as_str()), Some("/p"));
    assert_eq!(f.get("command"), None);
    let e = parse_flags(&strings(&["name", "x"])).unwrap_err();
    assert_eq!(e.message, "expected flag starting with --, got: name");
    assert!(!e.usage);
    let e = parse_flags(&strings(&["--name"])).unwrap_err();
    assert_eq!(e.message, "missing value for flag: --name");
    assert!(parse_flags(&[]).unwrap().pairs.is_empty());
}

#[test]
fn commands() {
    assert_eq!(admin_command(&[]).unwrap(), AdminCommand::Help);
    assert_eq!(admin_command(&strings(&["-h"])).unwrap(), AdminCommand::Help);
    assert_eq!(admin_command(&strings(&["--help", "x"])).unwrap(), AdminCommand::Help);
    assert_eq!(admin_command(&strings(&["hooks"])).unwrap(), AdminCommand::Hooks);
    assert_eq!(admin_command(&strings(&["mcp"])).unwrap(), AdminCommand::Mcp);
    assert_eq!(admin_command(&strings(&["stop-hooks"])).unwrap(), AdminCommand::StopHooks);
    let e = admin_command(&strings(&["install"])).unwrap_err();
    assert_eq!(e.message, "unknown command: install");
    assert!(e.usage);
}

#[test]
fn hooks_requests() {
    let r = handle_hooks(&strings(&["add", "--project", "/p", "--command", "/bin/hook"])).unwrap();
    assert_eq!(r.sub, "add");
    assert_eq!(r.path, "/p/.codex/hooks/hooks.json");
    assert_eq!(r.command, "/bin/hook");
    let e = handle_hooks(&[]).unwrap_err();
    assert_eq!(e.message, "missing hooks subcommand");
    assert!(e.usage);
    assert_eq!(handle_hooks(&strings(&["add", "--command", "c"])).unwrap_err().message, "--project required");
    assert_eq!(handle_hooks(&strings(&["add", "--project", "p"])).unwrap_err().message, "--command required");
    assert_eq!(hook_action("add").unwrap(), HookAction::Add);
    assert_eq!(hook_action("remove").unwrap(), HookAction::Remove);
    let e = hook_action("list").unwrap_err();
    assert_eq!(e.message, "unknown hooks subcommand: list");
    assert!(e.usage);
}

#[test]
fn mcp_requests_and_config() {
    assert_eq!(handle_mcp(&[]).unwrap_err().message, "missing mcp subcommand");
    assert_eq!(handle_mcp(&strings(&["add"])).unwrap_err().message, "--name required");
    let req = handle_mcp(&strings(&["add", "--name", "taskloop", "--command", "/bin/srv", "--project", "/p"])).unwrap();
    let out = update_mcp_config("[other]\nx = 1\n\n\n", &req, Some("/home/me/.codex")).unwrap();
    assert_eq!(
        out,
        "[other]\nx = 1\n\n[mcp_servers.taskloop]\ncommand = \"/bin/srv\"\nargs = []\nenabled = true\nenv = { CODEX_CWD = \"/p\", CODEX_HOME = \"/home/me/.codex\", TASKLOOP_STORAGE_SCOPE = \"local-only\" }\n\n"
    );
    let again = update_mcp_config(&out, &req, Some("/home/me/.codex")).unwrap();
    assert_eq!(again, out);
    let rm = handle_mcp(&strings(&["remove", "--name", "taskloop"])).unwrap();
    assert_eq!(update_mcp_config(&out, &rm, None).unwrap(), "[other]\nx = 1\n");
    let bare = handle_mcp(&strings(&["add", "--name", "n", "--command", "c"])).unwrap();
    assert_eq!(
        update_mcp_config("", &bare, None).unwrap(),
        "\n\n[mcp_servers.n]\ncommand = \"c\"\nargs = []\nenabled = true\n\n"
    );
    let nocmd = handle_mcp(&strings(&["add", "--name", "n"])).unwrap();
    assert_eq!(update_mcp_config("", &nocmd, None).unwrap_err().message, "--command required");
    let bad = handle_mcp(&strings(&["list", "--name", "n"])).unwrap();
    let e = update_mcp_config("", &bad, None).unwrap_err();
    assert_eq!(e.message, "unknown mcp subcommand: list");
    assert!(e.usage);
}

#[test]
fn stop_hook_config() {
    let req = handle_stop_hooks(&strings(&[
        "add", "--name", "tl", "--command", "/bin/hook", "--order", "-3", "--timeout", "x", "--timeout-ms", "+500",
    ]))
    .unwrap();
    let out = update_stop_hooks_config("a = 1", &req).unwrap();
    assert_eq!(
        out,
        "a = 1\n\n[stop_hooks.sources.tl]\ntype = \"command\"\ncommand = \"/bin/hook\"\nenabled = true\norder = -3\ntimeout_ms = 500\n\n"
    );
    let rm = handle_stop_hooks(&strings(&["remove", "--name", "tl"])).unwrap();
    assert_eq!(update_stop_hooks_config(&out, &rm).unwrap(), "a = 1\n");
    let bad = handle_stop_hooks(&strings(&["purge", "--name", "tl"])).unwrap();
    assert_eq!(update_stop_hooks_config("", &bad).unwrap_err().message, "unknown stop-hooks subcommand: purge");
    assert_eq!(handle_stop_hooks(&[]).unwrap_err().message, "missing stop-hooks subcommand");
}

#[test]
fn section_editing() {
    let text = "top = 1\n[mcp_servers.tl]\ncommand = \"x\"\n[mcp_servers.tl.env]\nA = \"1\"\n  [mcp_servers.other]  \nb = 2\n";
    assert_eq!(remove_block(text, "tl"), "top = 1\n  [mcp_servers.other]  \nb = 2\n");
    assert_eq!(remove_block("", "tl"), "\n");
    assert_eq!(remove_block("a\r\nb", "tl"), "a\nb\n");
    assert_eq!(remove_stop_hook_block("[stop_hooks.sources.a]\nx=1\n[z]\n", "a"), "[z]\n");
    assert_eq!(
        append_block("x\n", "n", "c", None, None, Some("both")),
        "x\n\n[mcp_servers.n]\ncommand = \"c\"\nargs = []\nenabled = true\nenv = { TASKLOOP_STORAGE_SCOPE = \"both\" }\n\n"
    );
    assert_eq!(
        append_stop_hook_block("", "n", "c", None, Some(30), None),
        "\n\n[stop_hooks.sources.n]\ntype = \"command\"\ncommand = \"c\"\nenabled = true\ntimeout = 30\n\n"
    );
}

#[test]
fn removing_an_appended_section_restores_the_text() {
    for base in ["", "a = 1", "a = 1\n\n\n", "[s]\nk = \"v\"\n"] {
        let added = append_block(base, "tl", "/bin/x", Some("/p"), None, None);
        let trimmed = format!("{}\n", base.trim_end());
        assert_eq!(remove_block(&added, "tl"), remove_block(&trimmed, "tl"));
        assert_eq!(remove_block(&added, "tl"), remove_block(base.trim_end(), "tl"));
        let added = append_stop_hook_block(base, "tl", "/bin/x", Some(-2), Some(30), None);
        assert_eq!(remove_stop_hook_block(&added, "tl"), remove_stop_hook_block(base.trim_end(), "tl"));
    }
}

#[test]
fn config_paths() {
    assert_eq!(codex_config_path(Some("/c"), Some("/h")).unwrap(), "/c/config.toml");
    assert_eq!(codex_config_path(Some(""), Some("/h")).unwrap(), "config.toml");
    assert_eq!(codex_config_path(None, Some("/h")).unwrap(), "/h/.codex/config.toml");
    assert_eq!(codex_config_path(None, None).unwrap_err().message, "HOME not set");
    assert_eq!(nonblank(Some(" ")), None);
    assert_eq!(nonblank(Some("/c")).as_deref(), Some("/c"));
    assert_eq!(nonblank(None), None);
}

fn entry(cmd: Option<&str>) -> HookEntry {
    HookEntry { command: cmd.map(|s| s.to_string()), json: format!("{{\"command\":{:?}}}", cmd.unwrap_or("")) }
}

fn single(cmd: &str) -> StopItem {
    StopItem { command: Some(cmd.to_string()), json: Some(format!("{{\"command\":{cmd:?}}}")), hooks: None }
}

fn group(cmds: &[&str]) -> StopItem {
    StopItem { command: None, json: Some("{\"hooks\":[]}".to_string()), hooks: Some(cmds.iter().map(|c| entry(Some(c))).collect()) }
}

fn stop_list(doc: &HooksDoc) -> Vec<String> {
    match &doc.hooks {
        HooksField::Table { stop: StopField::List(items), .. } => items
            .iter()
            .map(|i| match &i.hooks {
                Some(h) => format!("group:{}", h.iter().map(|e| e.command.clone().unwrap_or_default()).collect::<Vec<_>>().join(",")),
                None => i.command.clone().unwrap_or_default(),
            })
            .collect(),
        _ => panic!("no hooks.Stop list"),
    }
}

#[test]
fn filtering_stop_items() {
    let items = vec![single("a"), group(&["a", "b"]), group(&["a"]), single("c"), group(&[])];
    let (out, changed) = filter_items(&items, "a");
    assert!(changed);
    assert_eq!(out.len(), 2);
    assert_eq!(out[0].hooks.as_ref().unwrap().len(), 1);
    assert_eq!(out[1].command.as_deref(), Some("c"));
    let (same, changed) = filter_items(&vec![single("b"), group(&["c"])], "a");
    assert!(!changed);
    assert_eq!(same.len(), 2);
    assert!(hook_matches(&entry(Some("x")), "x"));
    assert!(!hook_matches(&entry(None), "x"));
}

#[test]
fn adding_and_removing_hooks() {
    let mut doc = HooksDoc { object: false, json: Some("[1]".to_string()), hooks: HooksField::Absent, stop: StopField::Absent };
    assert!(add_hook(&mut doc, "/bin/hook"));
    assert!(doc.object);
    assert_eq!(stop_list(&doc), vec!["/bin/hook"]);
    assert!(!add_hook(&mut doc, "/bin/hook"));
    assert_eq!(stop_list(&doc), vec!["/bin/hook"]);
    assert!(remove_hook(&mut doc, "/bin/hook"));
    assert!(matches!(doc.hooks, HooksField::Absent));
    assert!(!remove_hook(&mut doc, "/bin/hook"));
}

#[test]
fn older_layout_moves_under_hooks() {
    let mut doc = HooksDoc {
        object: true,
        json: Some("{}".to_string()),
        hooks: HooksField::Absent,
        stop: StopField::List(vec![single("old"), group(&["x", "new"])]),
    };
    assert!(!add_hook(&mut doc, "new"));
    assert!(matches!(doc.stop, StopField::Absent));
    assert_eq!(stop_list(&doc), vec!["old", "group:x,new"]);
    assert!(remove_hook(&mut doc, "new"));
    assert_eq!(stop_list(&doc), vec!["old", "group:x"]);
}

#[test]
fn removal_keeps_tables_with_other_keys() {
    let mut doc = HooksDoc {
        object: true,
        json: Some("{}".to_string()),
        hooks: HooksField::Table { json: Some("{}".to_string()), stop: StopField::List(vec![single("a")]), others: true },
        stop: StopField::List(vec![single("a"), single("b")]),
    };
    assert!(remove_hook(&mut doc, "a"));
    assert!(matches!(&doc.hooks, HooksField::Table { stop: StopField::Absent, others: true, .. }));
    assert!(matches!(&doc.stop, StopField::List(v) if v.len() == 1));
}
