use codex_taskloop::meta::{
    delete_task, find_task_dir, find_task_index, register_task, rename_task, task_exists, update_meta_status,
    update_meta_task, MetaIndex, TaskMeta, ToolError,
};
use codex_taskloop::paths::StorageMode;

fn entry(name: &str, dir: &str, project: &str) -> TaskMeta {
    TaskMeta {
        task_name: name.to_string(),
        task_dir: dir.to_string(),
        project_path: Some(project.to_string()),
        status: Some("in_progress".to_string()),
        iteration: Some(1),
        max_iterations: Some(0),
        last_event: Some("start".to_string()),
        started_at: Some("S".to_string()),
        updated_at: Some("S".to_string()),
    }
}

fn index() -> MetaIndex {
    MetaIndex { schema_version: 1, tasks: vec![entry("a", "d1", "/p"), entry("b", "d2", "/p"), entry("a", "d3", "/q")] }
}

fn internal(e: &ToolError, msg: &str) -> bool {
    matches!(e, ToolError::Internal(m) if m == msg)
}

#[test]
fn empty_index() {
    let m = MetaIndex::empty();
    assert_eq!(m.schema_version, 1);
    assert!(m.tasks.is_empty());
    let mut z = MetaIndex { schema_version: 0, tasks: Vec::new() };
    z.normalize_loaded();
    assert_eq!(z.schema_version, 1);
    let mut old = MetaIndex { schema_version: 7, tasks: Vec::new() };
    old.normalize_loaded();
    assert_eq!(old.schema_version, 7);
    old.prepare_for_write();
    assert_eq!(old.schema_version, 1);
}

#[test]
fn identity_depends_on_storage() {
    let m = index();
    assert_eq!(find_task_index(&m, "a", Some("/q"), StorageMode::Project), Some(0));
    assert_eq!(find_task_index(&m, "a", Some("/q"), StorageMode::User), Some(2));
    assert_eq!(find_task_index(&m, "b", Some("/q"), StorageMode::User), None);
    assert!(task_exists(&m, "b", None, StorageMode::Project));
    assert!(!task_exists(&m, "b", None, StorageMode::User));
    assert_eq!(find_task_dir(&m, "a", "/q", StorageMode::User).unwrap(), "d3");
    assert!(internal(&find_task_dir(&m, "c", "/q", StorageMode::User).unwrap_err(), "task not found"));
}

#[test]
fn register_adds_once() {
    let mut m = index();
    register_task(&mut m, "c", "d4", "/p", StorageMode::Project, 5, "NOW").unwrap();
    assert_eq!(m.tasks.len(), 4);
    let t = &m.tasks[3];
    assert_eq!(t.task_name, "c");
    assert_eq!(t.task_dir, "d4");
    assert_eq!(t.status.as_deref(), Some("in_progress"));
    assert_eq!(t.iteration, Some(1));
    assert_eq!(t.max_iterations, Some(5));
    assert_eq!(t.last_event.as_deref(), Some("start"));
    assert_eq!(t.started_at.as_deref(), Some("NOW"));
    let e = register_task(&mut m, "c", "d5", "/p", StorageMode::Project, 5, "NOW").unwrap_err();
    assert!(internal(&e, "task already exists"));
    assert_eq!(m.tasks.len(), 4);
    // the same name for another project is a different task in user storage
    register_task(&mut m, "b", "d6", "/q", StorageMode::User, 0, "NOW").unwrap();
    assert_eq!(m.tasks.len(), 5);
}

#[test]
fn rename_moves_the_name() {
    let mut m = index();
    let dir = rename_task(&mut m, "b", "c", "/p", StorageMode::Project, "NOW").unwrap();
    assert_eq!(dir, "d2");
    assert_eq!(m.tasks[1].task_name, "c");
    assert_eq!(m.tasks[1].last_event.as_deref(), Some("rename"));
    assert_eq!(m.tasks[1].updated_at.as_deref(), Some("NOW"));
    assert!(!task_exists(&m, "b", None, StorageMode::Project));
    assert!(internal(&rename_task(&mut m, "c", "a", "/p", StorageMode::Project, "NOW").unwrap_err(), "task name already exists"));
    assert!(internal(&rename_task(&mut m, "zz", "y", "/p", StorageMode::Project, "NOW").unwrap_err(), "task not found"));
}

#[test]
fn delete_removes_the_task() {
    let mut m = index();
    assert_eq!(delete_task(&mut m, "a", "/q", StorageMode::User).unwrap(), "d3");
    assert_eq!(m.tasks.len(), 2);
    assert!(!task_exists(&m, "a", Some("/q"), StorageMode::User));
    assert!(internal(&delete_task(&mut m, "a", "/q", StorageMode::User).unwrap_err(), "task not found"));
}

#[test]
fn delete_removes_the_first_match() {
    let mut m = MetaIndex { schema_version: 1, tasks: vec![entry("x", "d7", "/p"), entry("a", "d8", "/p"), entry("a", "d9", "/p")] };
    assert_eq!(delete_task(&mut m, "a", "/p", StorageMode::Project).unwrap(), "d8");
    assert_eq!(m.tasks.len(), 2);
    assert_eq!(m.tasks[0].task_dir, "d7");
    assert_eq!(m.tasks[1].task_dir, "d9");
}

#[test]
fn updates_by_directory() {
    let mut m = index();
    assert!(update_meta_task(&mut m, "d2", Some("completed"), Some("max_iterations"), Some(5), Some(5), "NOW"));
    let t = &m.tasks[1];
    assert_eq!(t.status.as_deref(), Some("completed"));
    assert_eq!(t.last_event.as_deref(), Some("max_iterations"));
    assert_eq!(t.iteration, Some(5));
    assert_eq!(t.max_iterations, Some(5));
    assert_eq!(t.updated_at.as_deref(), Some("NOW"));
    assert!(update_meta_status(&mut m, "d1", None, Some("resume"), "LATER"));
    assert_eq!(m.tasks[0].status.as_deref(), Some("in_progress"));
    assert_eq!(m.tasks[0].last_event.as_deref(), Some("resume"));
    assert!(!update_meta_task(&mut m, "missing", Some("x"), None, None, None, "NOW"));
}
