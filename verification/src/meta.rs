//! The task index (`meta.json`) of a store: which tasks exist, under which
//! directory, and what was last seen of them.
use vstd::prelude::*;
use crate::paths::StorageMode;
use crate::state_data::{opt_view, SCHEMA_VERSION};
use crate::text::{chars_eq, chars_of};

verus! {

/// An error of an MCP tool: bad arguments, or a failure while carrying it out.
#[derive(Clone, Debug)]
pub enum ToolError {
    InvalidParams(String),
    Internal(String),
}

impl ToolError {
    /// The message of the error.
    pub fn message(&self) -> (r: String)
        ensures
            r@ == match self {
                ToolError::InvalidParams(m) => m@,
                ToolError::Internal(m) => m@,
            },
    {
        match self {
            ToolError::InvalidParams(m) => m.clone(),
            ToolError::Internal(m) => m.clone(),
        }
    }
}

/// The error "task not found".
pub open spec fn not_found_error(e: ToolError) -> bool {
    e matches ToolError::Internal(m) && m@ == "task not found"@
}

/// A task's entry in the index.
#[derive(Clone, Debug)]
pub struct TaskMeta {
    pub task_name: String,
    pub task_dir: String,
    pub project_path: Option<String>,
    pub status: Option<String>,
    pub iteration: Option<u32>,
    pub max_iterations: Option<u32>,
    pub last_event: Option<String>,
    pub started_at: Option<String>,
    pub updated_at: Option<String>,
}

pub struct TaskMetaSpec {
    pub task_name: Seq<char>,
    pub task_dir: Seq<char>,
    pub project_path: Option<Seq<char>>,
    pub status: Option<Seq<char>>,
    pub iteration: Option<u32>,
    pub max_iterations: Option<u32>,
    pub last_event: Option<Seq<char>>,
    pub started_at: Option<Seq<char>>,
    pub updated_at: Option<Seq<char>>,
}

impl View for TaskMeta {
    type V = TaskMetaSpec;

    open spec fn view(&self) -> TaskMetaSpec {
        TaskMetaSpec {
            task_name: self.task_name@,
            task_dir: self.task_dir@,
            project_path: opt_view(self.project_path),
            status: opt_view(self.status),
            iteration: self.iteration,
            max_iterations: self.max_iterations,
            last_event: opt_view(self.last_event),
            started_at: opt_view(self.started_at),
            updated_at: opt_view(self.updated_at),
        }
    }
}

fn clone_opt(o: &Option<String>) -> (r: Option<String>)
    ensures
        opt_view(r) == opt_view(*o),
{
    match o {
        Some(s) => Some(s.clone()),
        None => None,
    }
}

impl TaskMeta {
    /// A copy of the entry.
    pub fn copy(&self) -> (r: TaskMeta)
        ensures
            r@ == self@,
    {
        TaskMeta {
            task_name: self.task_name.clone(),
            task_dir: self.task_dir.clone(),
            project_path: clone_opt(&self.project_path),
            status: clone_opt(&self.status),
            iteration: self.iteration,
            max_iterations: self.max_iterations,
            last_event: clone_opt(&self.last_event),
            started_at: clone_opt(&self.started_at),
            updated_at: clone_opt(&self.updated_at),
        }
    }
}

/// The index of a store.
#[derive(Clone, Debug)]
pub struct MetaIndex {
    pub schema_version: u32,
    pub tasks: Vec<TaskMeta>,
}

pub open spec fn tasks_view(v: Seq<TaskMeta>) -> Seq<TaskMetaSpec> {
    v.map_values(|t: TaskMeta| t@)
}

impl MetaIndex {
    pub open spec fn entries(&self) -> Seq<TaskMetaSpec> {
        tasks_view(self.tasks@)
    }

    /// An index with no tasks.
    pub fn empty() -> (r: Self)
        ensures
            r.schema_version == SCHEMA_VERSION,
            r.entries().len() == 0,
    {
        let r = MetaIndex { schema_version: SCHEMA_VERSION, tasks: Vec::new() };
        assert(r.entries() =~= Seq::<TaskMetaSpec>::empty());
        r
    }

    /// The index as loaded: a schema version of 0 stands for the current one.
    pub fn normalize_loaded(&mut self)
        ensures
            final(self).schema_version == if old(self).schema_version == 0 {
                SCHEMA_VERSION
            } else {
                old(self).schema_version
            },
            final(self).entries() == old(self).entries(),
    {
        if self.schema_version == 0 {
            self.schema_version = SCHEMA_VERSION;
        }
    }

    /// The index as written: always at the current schema version.
    pub fn prepare_for_write(&mut self)
        ensures
            final(self).schema_version == SCHEMA_VERSION,
            final(self).entries() == old(self).entries(),
    {
        self.schema_version = SCHEMA_VERSION;
    }
}

/// Whether an entry is the task named `name`: in project storage the name
/// alone identifies a task, in user storage the name with the project path.
pub open spec fn identifies(t: TaskMetaSpec, name: Seq<char>, project_path: Option<Seq<char>>, mode: StorageMode) -> bool {
    match mode {
        StorageMode::Project => t.task_name == name,
        StorageMode::User => t.task_name == name && t.project_path == project_path,
    }
}

fn opt_str_eq(a: &Option<String>, b: Option<&str>) -> (r: bool)
    ensures
        r == (opt_view(*a) == match b {
            Some(s) => Some(s@),
            None => None::<Seq<char>>,
        }),
{
    match (a, b) {
        (Some(x), Some(y)) => crate::text::str_eq(x.as_str(), y),
        (None, None) => true,
        _ => false,
    }
}

fn identifies_exec(t: &TaskMeta, name: &str, project_path: Option<&str>, mode: StorageMode) -> (r: bool)
    ensures
        r == identifies(
            t@,
            name@,
            match project_path {
                Some(s) => Some(s@),
                None => None,
            },
            mode,
        ),
{
    let same_name = crate::text::str_eq(t.task_name.as_str(), name);
    match mode {
        StorageMode::Project => same_name,
        StorageMode::User => same_name && opt_str_eq(&t.project_path, project_path),
    }
}

pub open spec fn opt_str_view(o: Option<&str>) -> Option<Seq<char>> {
    match o {
        Some(s) => Some(s@),
        None => None,
    }
}

/// Whether the index has the task.
pub fn task_exists(meta: &MetaIndex, task_name: &str, project_path: Option<&str>, mode: StorageMode) -> (r: bool)
    ensures
        r == exists|i: int|
            0 <= i < meta.entries().len() && identifies(
                #[trigger] meta.entries()[i],
                task_name@,
                opt_str_view(project_path),
                mode,
            ),
{
    match find_task_index(meta, task_name, project_path, mode) {
        Some(i) => {
            assert(identifies(meta.entries()[i as int], task_name@, opt_str_view(project_path), mode));
            true
        },
        None => false,
    }
}

/// The position of the task in the index: the first entry that is it.
pub fn find_task_index(meta: &MetaIndex, task_name: &str, project_path: Option<&str>, mode: StorageMode) -> (r: Option<usize>)
    ensures
        match r {
            Some(i) => i < meta.entries().len() && identifies(
                meta.entries()[i as int],
                task_name@,
                opt_str_view(project_path),
                mode,
            ) && forall|j: int|
                0 <= j < i ==> !identifies(
                    #[trigger] meta.entries()[j],
                    task_name@,
                    opt_str_view(project_path),
                    mode,
                ),
            None => forall|j: int|
                0 <= j < meta.entries().len() ==> !identifies(
                    #[trigger] meta.entries()[j],
                    task_name@,
                    opt_str_view(project_path),
                    mode,
                ),
        },
{
    let mut i: usize = 0;
    while i < meta.tasks.len()
        invariant
            i <= meta.tasks@.len(),
            forall|j: int|
                0 <= j < i ==> !identifies(
                    #[trigger] meta.entries()[j],
                    task_name@,
                    opt_str_view(project_path),
                    mode,
                ),
        decreases meta.tasks@.len() - i,
    {
        if identifies_exec(&meta.tasks[i], task_name, project_path, mode) {
            return Some(i);
        }
        i = i + 1;
    }
    None
}

/// The directory of the task, or "task not found".
pub fn find_task_dir(meta: &MetaIndex, task_name: &str, project_path: &str, mode: StorageMode) -> (r: Result<String, ToolError>)
    ensures
        match r {
            Ok(d) => exists|i: int|
                0 <= i < meta.entries().len() && identifies(
                    #[trigger] meta.entries()[i],
                    task_name@,
                    Some(project_path@),
                    mode,
                ) && d@ == meta.entries()[i].task_dir && forall|j: int|
                    0 <= j < i ==> !identifies(
                        #[trigger] meta.entries()[j],
                        task_name@,
                        Some(project_path@),
                        mode,
                    ),
            Err(e) => not_found_error(e) && forall|j: int|
                0 <= j < meta.entries().len() ==> !identifies(
                    #[trigger] meta.entries()[j],
                    task_name@,
                    Some(project_path@),
                    mode,
                ),
        },
{
    match find_task_index(meta, task_name, Some(project_path), mode) {
        Some(i) => Ok(meta.tasks[i].task_dir.clone()),
        None => Err(ToolError::Internal("task not found".to_owned())),
    }
}


// ---------------------------------------------------------------------------
// Changes to the index
// ---------------------------------------------------------------------------

/// The first index at or after `i` of an entry with directory `dir`, or -1.
pub open spec fn dir_pos(s: Seq<TaskMetaSpec>, dir: Seq<char>, i: int) -> int
    decreases s.len() - i,
{
    if i < 0 || i >= s.len() {
        -1
    } else if s[i].task_dir == dir {
        i
    } else {
        dir_pos(s, dir, i + 1)
    }
}

proof fn lemma_dir_pos_at(s: Seq<TaskMetaSpec>, dir: Seq<char>, i: int, m: int)
    requires
        0 <= i <= m <= s.len(),
        forall|j: int| i <= j < m ==> s[j].task_dir != dir,
        m < s.len() ==> s[m].task_dir == dir,
    ensures
        dir_pos(s, dir, i) == if m < s.len() {
            m
        } else {
            -1
        },
    decreases m - i,
{
    if i < m {
        lemma_dir_pos_at(s, dir, i + 1, m);
    }
}

pub open spec fn opt_or(new: Option<Seq<char>>, old: Option<Seq<char>>) -> Option<Seq<char>> {
    match new {
        Some(v) => Some(v),
        None => old,
    }
}

pub open spec fn opt_u32_or(new: Option<u32>, old: Option<u32>) -> Option<u32> {
    match new {
        Some(v) => Some(v),
        None => old,
    }
}

/// An entry after an update: each given field replaced, and updated now.
pub open spec fn updated_entry(
    t: TaskMetaSpec,
    status: Option<Seq<char>>,
    last_event: Option<Seq<char>>,
    iteration: Option<u32>,
    max_iterations: Option<u32>,
    now: Seq<char>,
) -> TaskMetaSpec {
    TaskMetaSpec {
        status: opt_or(status, t.status),
        last_event: opt_or(last_event, t.last_event),
        iteration: opt_u32_or(iteration, t.iteration),
        max_iterations: opt_u32_or(max_iterations, t.max_iterations),
        updated_at: Some(now),
        ..t
    }
}

/// Records what the stop hook saw of the task in directory `task_dir`: the
/// first entry with that directory gets the given fields and the time; the
/// result says whether there was one (only then is the index written back).
pub fn update_meta_task(
    meta: &mut MetaIndex,
    task_dir: &str,
    status: Option<&str>,
    last_event: Option<&str>,
    iteration: Option<u32>,
    max_iterations: Option<u32>,
    now: &str,
) -> (r: bool)
    ensures
        ({
            let p = dir_pos(old(meta).entries(), task_dir@, 0);
            &&& r == (p >= 0)
            &&& final(meta).entries() == if p >= 0 {
                old(meta).entries().update(
                    p,
                    updated_entry(
                        old(meta).entries()[p],
                        opt_str_view(status),
                        opt_str_view(last_event),
                        iteration,
                        max_iterations,
                        now@,
                    ),
                )
            } else {
                old(meta).entries()
            }
            &&& final(meta).schema_version == old(meta).schema_version
        }),
{
    let ghost s = meta.entries();
    let mut i: usize = 0;
    while i < meta.tasks.len()
        invariant
            i <= meta.tasks@.len(),
            s == meta.entries(),
            s == old(meta).entries(),
            meta.schema_version == old(meta).schema_version,
            forall|j: int| 0 <= j < i ==> s[j].task_dir != task_dir@,
        decreases meta.tasks@.len() - i,
    {
        if crate::text::str_eq(meta.tasks[i].task_dir.as_str(), task_dir) {
            proof {
                lemma_dir_pos_at(s, task_dir@, 0, i as int);
            }
            let mut t = meta.tasks[i].copy();
            if let Some(st) = status {
                t.status = Some(st.to_owned());
            }
            if let Some(ev) = last_event {
                t.last_event = Some(ev.to_owned());
            }
            if let Some(it) = iteration {
                t.iteration = Some(it);
            }
            if let Some(mx) = max_iterations {
                t.max_iterations = Some(mx);
            }
            t.updated_at = Some(now.to_owned());
            let ghost t2 = t@;
            assert(t2 == updated_entry(s[i as int], opt_str_view(status), opt_str_view(last_event), iteration, max_iterations, now@));
            meta.tasks.set(i, t);
            assert(meta.entries() =~= s.update(i as int, t2));
            return true;
        }
        i = i + 1;
    }
    proof {
        lemma_dir_pos_at(s, task_dir@, 0, s.len() as int);
    }
    false
}

/// Records a new status and last event for the task in directory `task_dir`,
/// as `update_meta_task` does without counters.
pub fn update_meta_status(meta: &mut MetaIndex, task_dir: &str, status: Option<&str>, last_event: Option<&str>, now: &str) -> (r: bool)
    ensures
        ({
            let p = dir_pos(old(meta).entries(), task_dir@, 0);
            &&& r == (p >= 0)
            &&& final(meta).entries() == if p >= 0 {
                old(meta).entries().update(
                    p,
                    updated_entry(old(meta).entries()[p], opt_str_view(status), opt_str_view(last_event), None, None, now@),
                )
            } else {
                old(meta).entries()
            }
        }),
{
    update_meta_task(meta, task_dir, status, last_event, None, None, now)
}

/// Whether two entries are the same task in a storage mode.
pub open spec fn same_task(a: TaskMetaSpec, b: TaskMetaSpec, mode: StorageMode) -> bool {
    identifies(a, b.task_name, b.project_path, mode)
}

/// No task is in the index twice.
pub open spec fn distinct_tasks(s: Seq<TaskMetaSpec>, mode: StorageMode) -> bool {
    forall|i: int, j: int| 0 <= i < j < s.len() ==> !same_task(s[i], s[j], mode)
}

/// Whether some entry is the task.
pub open spec fn has_task(s: Seq<TaskMetaSpec>, name: Seq<char>, project_path: Option<Seq<char>>, mode: StorageMode) -> bool {
    exists|i: int| 0 <= i < s.len() && identifies(#[trigger] s[i], name, project_path, mode)
}

/// The entry a new task gets.
pub open spec fn new_entry_spec(name: Seq<char>, dir: Seq<char>, project_path: Seq<char>, max_iterations: u32, now: Seq<char>) -> TaskMetaSpec {
    TaskMetaSpec {
        task_name: name,
        task_dir: dir,
        project_path: Some(project_path),
        status: Some("in_progress"@),
        iteration: Some(1),
        max_iterations: Some(max_iterations),
        last_event: Some("start"@),
        started_at: Some(now),
        updated_at: Some(now),
    }
}

/// The index after registering a task; `None` when it is there already.
pub open spec fn register_spec(
    s: Seq<TaskMetaSpec>,
    name: Seq<char>,
    dir: Seq<char>,
    project_path: Seq<char>,
    mode: StorageMode,
    max_iterations: u32,
    now: Seq<char>,
) -> Option<Seq<TaskMetaSpec>> {
    if has_task(s, name, Some(project_path), mode) {
        None
    } else {
        Some(s.push(new_entry_spec(name, dir, project_path, max_iterations, now)))
    }
}

/// The error of an index change that could not be made.
pub open spec fn internal_error(e: ToolError, msg: Seq<char>) -> bool {
    e matches ToolError::Internal(m) && m@ == msg
}

/// Adds a new task to the index; fails with "task already exists" when the
/// index has it.
pub fn register_task(
    meta: &mut MetaIndex,
    task_name: &str,
    task_dir: &str,
    project_path: &str,
    mode: StorageMode,
    max_iterations: u32,
    now: &str,
) -> (r: Result<(), ToolError>)
    ensures
        match register_spec(old(meta).entries(), task_name@, task_dir@, project_path@, mode, max_iterations, now@) {
            Some(e) => r is Ok && final(meta).entries() == e,
            None => (r matches Err(err) && internal_error(err, "task already exists"@))
                && final(meta).entries() == old(meta).entries(),
        },
        final(meta).schema_version == old(meta).schema_version,
{
    if task_exists(meta, task_name, Some(project_path), mode) {
        return Err(ToolError::Internal("task already exists".to_owned()));
    }
    let t = TaskMeta {
        task_name: task_name.to_owned(),
        task_dir: task_dir.to_owned(),
        project_path: Some(project_path.to_owned()),
        status: Some("in_progress".to_owned()),
        iteration: Some(1),
        max_iterations: Some(max_iterations),
        last_event: Some("start".to_owned()),
        started_at: Some(now.to_owned()),
        updated_at: Some(now.to_owned()),
    };
    let ghost before = meta.entries();
    meta.tasks.push(t);
    assert(meta.entries() =~= before.push(new_entry_spec(task_name@, task_dir@, project_path@, max_iterations, now@)));
    Ok(())
}

/// The index after renaming a task: the first entry that is the task gets
/// the new name, the time and the event "rename".
pub open spec fn rename_spec(
    s: Seq<TaskMetaSpec>,
    name: Seq<char>,
    new_name: Seq<char>,
    project_path: Seq<char>,
    mode: StorageMode,
    now: Seq<char>,
    i: int,
) -> Seq<TaskMetaSpec> {
    s.update(i, TaskMetaSpec { task_name: new_name, updated_at: Some(now), last_event: Some("rename"@), ..s[i] })
}

/// Renames a task in the index and gives its directory. Fails with "task name
/// already exists" when the new name is taken, else with "task not found".
pub fn rename_task(
    meta: &mut MetaIndex,
    task_name: &str,
    new_name: &str,
    project_path: &str,
    mode: StorageMode,
    now: &str,
) -> (r: Result<String, ToolError>)
    ensures
        has_task(old(meta).entries(), new_name@, Some(project_path@), mode) ==> (r matches Err(e)
            && internal_error(e, "task name already exists"@)) && final(meta).entries() == old(meta).entries(),
        !has_task(old(meta).entries(), new_name@, Some(project_path@), mode) && !has_task(
            old(meta).entries(),
            task_name@,
            Some(project_path@),
            mode,
        ) ==> (r matches Err(e) && not_found_error(e)) && final(meta).entries() == old(meta).entries(),
        r is Ok ==> !has_task(old(meta).entries(), new_name@, Some(project_path@), mode),
        !has_task(old(meta).entries(), new_name@, Some(project_path@), mode) && has_task(
            old(meta).entries(),
            task_name@,
            Some(project_path@),
            mode,
        ) ==> r is Ok,
        r matches Ok(d) ==> exists|i: int|
            0 <= i < old(meta).entries().len() && identifies(
                #[trigger] old(meta).entries()[i],
                task_name@,
                Some(project_path@),
                mode,
            ) && (forall|j: int|
                0 <= j < i ==> !identifies(
                    #[trigger] old(meta).entries()[j],
                    task_name@,
                    Some(project_path@),
                    mode,
                )) && d@ == old(meta).entries()[i].task_dir && final(meta).entries() == rename_spec(
                old(meta).entries(),
                task_name@,
                new_name@,
                project_path@,
                mode,
                now@,
                i,
            ),
        final(meta).schema_version == old(meta).schema_version,
{
    if task_exists(meta, new_name, Some(project_path), mode) {
        return Err(ToolError::Internal("task name already exists".to_owned()));
    }
    let i = match find_task_index(meta, task_name, Some(project_path), mode) {
        Some(i) => i,
        None => {
            return Err(ToolError::Internal("task not found".to_owned()));
        },
    };
    let ghost s = meta.entries();
    let dir = meta.tasks[i].task_dir.clone();
    let mut t = meta.tasks[i].copy();
    t.task_name = new_name.to_owned();
    t.updated_at = Some(now.to_owned());
    t.last_event = Some("rename".to_owned());
    let ghost t2 = t@;
    meta.tasks.set(i, t);
    assert(meta.entries() =~= rename_spec(s, task_name@, new_name@, project_path@, mode, now@, i as int));
    Ok(dir)
}

/// Removes the first entry of the index that is the task and gives its
/// directory; fails with "task not found" when the index does not have it.
pub fn delete_task(meta: &mut MetaIndex, task_name: &str, project_path: &str, mode: StorageMode) -> (r: Result<String, ToolError>)
    ensures
        !has_task(old(meta).entries(), task_name@, Some(project_path@), mode) ==> (r matches Err(e)
            && not_found_error(e)) && final(meta).entries() == old(meta).entries(),
        r matches Ok(d) ==> exists|i: int|
            0 <= i < old(meta).entries().len() && identifies(
                #[trigger] old(meta).entries()[i],
                task_name@,
                Some(project_path@),
                mode,
            ) && (forall|j: int|
                0 <= j < i ==> !identifies(
                    #[trigger] old(meta).entries()[j],
                    task_name@,
                    Some(project_path@),
                    mode,
                )) && d@ == old(meta).entries()[i].task_dir && final(meta).entries() == old(meta).entries().remove(i),
        has_task(old(meta).entries(), task_name@, Some(project_path@), mode) ==> r is Ok,
        final(meta).schema_version == old(meta).schema_version,
{
    let i = match find_task_index(meta, task_name, Some(project_path), mode) {
        Some(i) => i,
        None => {
            return Err(ToolError::Internal("task not found".to_owned()));
        },
    };
    let ghost s = meta.entries();
    let dir = meta.tasks[i].task_dir.clone();
    meta.tasks.remove(i);
    assert(meta.entries() =~= s.remove(i as int));
    Ok(dir)
}

// ---------------------------------------------------------------------------
// Laws of the index
// ---------------------------------------------------------------------------

/// Registering a task keeps every task in the index once, and afterwards the
/// index has the task.
pub proof fn lemma_register_keeps_tasks_distinct(
    s: Seq<TaskMetaSpec>,
    name: Seq<char>,
    dir: Seq<char>,
    project_path: Seq<char>,
    mode: StorageMode,
    max_iterations: u32,
    now: Seq<char>,
)
    requires
        distinct_tasks(s, mode),
        register_spec(s, name, dir, project_path, mode, max_iterations, now) is Some,
    ensures
        distinct_tasks(register_spec(s, name, dir, project_path, mode, max_iterations, now)->Some_0, mode),
        has_task(register_spec(s, name, dir, project_path, mode, max_iterations, now)->Some_0, name, Some(project_path), mode),
{
    let e = register_spec(s, name, dir, project_path, mode, max_iterations, now)->Some_0;
    let n = new_entry_spec(name, dir, project_path, max_iterations, now);
    assert forall|i: int, j: int| 0 <= i < j < e.len() implies !same_task(e[i], e[j], mode) by {
        if j == s.len() {
            assert(e[i] == s[i]);
            assert(!identifies(s[i], name, Some(project_path), mode));
        } else {
            assert(e[i] == s[i] && e[j] == s[j]);
        }
    }
    assert(identifies(e[s.len() as int], name, Some(project_path), mode));
}

/// Renaming a task keeps every task in the index once; afterwards the index
/// has the task under its new name and no longer under the old one.
pub proof fn lemma_rename_moves_task(
    s: Seq<TaskMetaSpec>,
    name: Seq<char>,
    new_name: Seq<char>,
    project_path: Seq<char>,
    mode: StorageMode,
    now: Seq<char>,
    i: int,
)
    requires
        distinct_tasks(s, mode),
        0 <= i < s.len(),
        identifies(s[i], name, Some(project_path), mode),
        !has_task(s, new_name, Some(project_path), mode),
    ensures
        distinct_tasks(rename_spec(s, name, new_name, project_path, mode, now, i), mode),
        has_task(rename_spec(s, name, new_name, project_path, mode, now, i), new_name, Some(project_path), mode),
        !has_task(rename_spec(s, name, new_name, project_path, mode, now, i), name, Some(project_path), mode),
{
    let e = rename_spec(s, name, new_name, project_path, mode, now, i);
    assert(!identifies(s[i], new_name, Some(project_path), mode));
    assert(name != new_name);
    assert forall|a: int, b: int| 0 <= a < b < e.len() implies !same_task(e[a], e[b], mode) by {
        if a == i {
            assert(!identifies(s[b], new_name, Some(project_path), mode));
            assert(e[b] == s[b]);
        } else if b == i {
            assert(!identifies(s[a], new_name, Some(project_path), mode));
            assert(e[a] == s[a]);
        } else {
            assert(e[a] == s[a] && e[b] == s[b]);
            assert(!same_task(s[a], s[b], mode));
        }
    }
    assert(identifies(e[i], new_name, Some(project_path), mode));
    if has_task(e, name, Some(project_path), mode) {
        let k = choose|k: int| 0 <= k < e.len() && identifies(#[trigger] e[k], name, Some(project_path), mode);
        if k != i {
            assert(e[k] == s[k]);
            if k < i {
                assert(!same_task(s[k], s[i], mode));
            } else {
                assert(!same_task(s[i], s[k], mode));
            }
        }
    }
}

/// Deleting a task keeps every other task in the index once, and afterwards
/// the index no longer has it.
pub proof fn lemma_delete_removes_task(s: Seq<TaskMetaSpec>, name: Seq<char>, project_path: Seq<char>, mode: StorageMode, i: int)
    requires
        distinct_tasks(s, mode),
        0 <= i < s.len(),
        identifies(s[i], name, Some(project_path), mode),
    ensures
        distinct_tasks(s.remove(i), mode),
        !has_task(s.remove(i), name, Some(project_path), mode),
{
    let e = s.remove(i);
    assert forall|a: int, b: int| 0 <= a < b < e.len() implies !same_task(e[a], e[b], mode) by {
        let a2 = if a < i { a } else { a + 1 };
        let b2 = if b < i { b } else { b + 1 };
        assert(e[a] == s[a2] && e[b] == s[b2]);
    }
    if has_task(e, name, Some(project_path), mode) {
        let k = choose|k: int| 0 <= k < e.len() && identifies(#[trigger] e[k], name, Some(project_path), mode);
        let k2 = if k < i { k } else { k + 1 };
        assert(e[k] == s[k2]);
        if k2 < i {
            assert(!same_task(s[k2], s[i], mode));
        } else {
            assert(!same_task(s[i], s[k2], mode));
        }
    }
}

} // verus!
