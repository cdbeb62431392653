//! `task_list`: what is reported of each task, in which order, and which
//! page of the list is shown.
use vstd::prelude::*;
use crate::meta::{TaskMeta, TaskMetaSpec};
use crate::order::{is_newest_first, newest_first};
use crate::state_data::{opt_view, StateData};
use crate::text::{push_str_chars, string_of};
use crate::timestamps::{parse_timestamp, parse_timestamp_spec};

verus! {

/// What `task_list` reads of the last line of a task's history: the event
/// name, the counters and the time, each when the line has it with the
/// right type.
#[derive(Clone, Debug)]
pub struct EventInfo {
    pub event: Option<String>,
    pub iteration: Option<u64>,
    pub max_iterations: Option<u64>,
    pub ts: Option<String>,
}

/// The status of a task: from its state file when there is one (in progress
/// or paused), else from the last event of its history.
pub open spec fn status_spec(state: Option<StateData>, last_event: Option<EventInfo>) -> Seq<char> {
    match state {
        Some(s) => if s.active {
            "in_progress"@
        } else {
            "paused"@
        },
        None => {
            let ev = match last_event {
                Some(e) => opt_view(e.event),
                None => None,
            };
            match ev {
                None => "error"@,
                Some(n) => if n == "promise_matched"@ || n == "max_iterations"@ {
                    "completed"@
                } else if n == "cancel"@ || n == "delete"@ {
                    "cancelled"@
                } else if n == "invalid_state"@ || n == "invalid_matcher"@ || n == "write_failed"@
                    || n == "empty_prompt"@ {
                    "error"@
                } else {
                    "completed"@
                },
            }
        },
    }
}

/// The status of a task.
pub fn derive_status(state: Option<&StateData>, last_event: Option<&EventInfo>) -> (r: &'static str)
    ensures
        r@ == status_spec(
            match state {
                Some(s) => Some(*s),
                None => None,
            },
            match last_event {
                Some(e) => Some(*e),
                None => None,
            },
        ),
{
    if let Some(s) = state {
        return if s.active {
            "in_progress"
        } else {
            "paused"
        };
    }
    let ev = match last_event {
        Some(e) => match &e.event {
            Some(n) => Some(n.as_str()),
            None => None,
        },
        None => None,
    };
    match ev {
        None => "error",
        Some(n) => {
            let eq = |x: &str| -> (b: bool)
                ensures
                    b == (n@ == x@),
                { crate::text::str_eq(n, x) };
            if eq("promise_matched") || eq("max_iterations") {
                "completed"
            } else if eq("cancel") || eq("delete") {
                "cancelled"
            } else if eq("invalid_state") || eq("invalid_matcher") || eq("write_failed") || eq(
                "empty_prompt",
            ) {
                "error"
            } else {
                "completed"
            }
        },
    }
}

/// One task as `task_list` reports it.
#[derive(Clone, Debug)]
pub struct TaskSummary {
    pub task_name: String,
    pub task_dir: String,
    pub project_path: Option<String>,
    pub status: String,
    pub iteration: Option<u32>,
    pub max_iterations: Option<u32>,
    pub last_event: Option<String>,
    pub last_updated: Option<String>,
    pub sort_ts: i64,
}

pub struct SummarySpec {
    pub task_name: Seq<char>,
    pub task_dir: Seq<char>,
    pub project_path: Option<Seq<char>>,
    pub status: Seq<char>,
    pub iteration: Option<u32>,
    pub max_iterations: Option<u32>,
    pub last_event: Option<Seq<char>>,
    pub last_updated: Option<Seq<char>>,
    pub sort_ts: i64,
}

impl View for TaskSummary {
    type V = SummarySpec;

    open spec fn view(&self) -> SummarySpec {
        SummarySpec {
            task_name: self.task_name@,
            task_dir: self.task_dir@,
            project_path: opt_view(self.project_path),
            status: self.status@,
            iteration: self.iteration,
            max_iterations: self.max_iterations,
            last_event: opt_view(self.last_event),
            last_updated: opt_view(self.last_updated),
            sort_ts: self.sort_ts,
        }
    }
}

pub open spec fn opt_u32_of(v: Option<u64>) -> Option<u32> {
    match v {
        Some(n) => Some(n as u32),
        None => None,
    }
}

pub open spec fn first_some(a: Option<Seq<char>>, b: Option<Seq<char>>) -> Option<Seq<char>> {
    match a {
        Some(x) => Some(x),
        None => b,
    }
}

/// What `task_list` reports of a task: its status; the counters of its state
/// file, else of its last event; the time of its last update (the state
/// file's, else the last event's, else the index's) and that time in Unix
/// seconds to order by (0 when it cannot be read).
pub open spec fn summary_spec(task: TaskMetaSpec, state: Option<StateData>, last_event: Option<EventInfo>) -> SummarySpec {
    let (iteration, max_iterations) = match state {
        Some(s) => (Some(s.iteration), Some(s.max_iterations)),
        None => match last_event {
            Some(e) => (opt_u32_of(e.iteration), opt_u32_of(e.max_iterations)),
            None => (None, None),
        },
    };
    let from_state = match state {
        Some(s) => opt_view(s.updated_at),
        None => None,
    };
    let from_event = match last_event {
        Some(e) => opt_view(e.ts),
        None => None,
    };
    let last_updated = first_some(from_state, first_some(from_event, task.updated_at));
    SummarySpec {
        task_name: task.task_name,
        task_dir: task.task_dir,
        project_path: task.project_path,
        status: status_spec(state, last_event),
        iteration,
        max_iterations,
        last_event: match last_event {
            Some(e) => opt_view(e.event),
            None => None,
        },
        last_updated,
        sort_ts: match last_updated {
            Some(t) => match parse_timestamp_spec(t) {
                Some(ts) => ts,
                None => 0,
            },
            None => 0,
        },
    }
}

fn clone_opt(o: &Option<String>) -> (r: Option<String>)
    ensures
        opt_view(r) == opt_view(*o),
{
    match o {
        Some(s) => Some(s.clone()),
        None => None,
    }
}

fn to_u32(v: Option<u64>) -> (r: Option<u32>)
    ensures
        r == opt_u32_of(v),
{
    match v {
        Some(n) => Some(n as u32),
        None => None,
    }
}

/// Summarises one task of the index.
pub fn summarize_task(task: &TaskMeta, state: Option<&StateData>, last_event: Option<&EventInfo>) -> (r: TaskSummary)
    ensures
        r@ == summary_spec(
            task@,
            match state {
                Some(s) => Some(*s),
                None => None,
            },
            match last_event {
                Some(e) => Some(*e),
                None => None,
            },
        ),
{
    let status = derive_status(state, last_event);
    let (iteration, max_iterations) = match state {
        Some(s) => (Some(s.iteration), Some(s.max_iterations)),
        None => match last_event {
            Some(e) => (to_u32(e.iteration), to_u32(e.max_iterations)),
            None => (None, None),
        },
    };
    let from_state = match state {
        Some(s) => clone_opt(&s.updated_at),
        None => None,
    };
    let last_updated = match from_state {
        Some(t) => Some(t),
        None => {
            let from_event = match last_event {
                Some(e) => clone_opt(&e.ts),
                None => None,
            };
            match from_event {
                Some(t) => Some(t),
                None => clone_opt(&task.updated_at),
            }
        },
    };
    let sort_ts = match &last_updated {
        Some(t) => match parse_timestamp(t.as_str()) {
            Some(ts) => ts,
            None => 0,
        },
        None => 0,
    };
    let last_event_name = match last_event {
        Some(e) => clone_opt(&e.event),
        None => None,
    };
    TaskSummary {
        task_name: task.task_name.clone(),
        task_dir: task.task_dir.clone(),
        project_path: clone_opt(&task.project_path),
        status: status.to_owned(),
        iteration,
        max_iterations,
        last_event: last_event_name,
        last_updated,
        sort_ts,
    }
}

/// Whether `task_list` shows a task: with a project filter, only the tasks
/// of that project.
pub fn listed_in(task: &TaskMeta, filter: Option<&str>) -> (r: bool)
    ensures
        r == match filter {
            Some(f) => task@.project_path == Some(f@),
            None => true,
        },
{
    match filter {
        None => true,
        Some(f) => match &task.project_path {
            Some(p) => crate::text::str_eq(p.as_str(), f),
            None => false,
        },
    }
}

/// Whether `task_list` needs a project directory: in project storage always,
/// in user storage only to filter by it.
pub fn list_needs_project(mode: crate::paths::StorageMode, project_dir_given: bool) -> (r: bool)
    ensures
        r == (mode == crate::paths::StorageMode::Project || project_dir_given),
{
    mode == crate::paths::StorageMode::Project || project_dir_given
}

/// The page size of `task_list` when none is asked for.
pub const DEFAULT_LIST_LIMIT: u32 = 50;

/// The largest page of `task_list`.
pub const MAX_LIST_LIMIT: u32 = 2000;

/// The page size `task_list` uses: the one asked for (default 50), kept
/// between 1 and 2000.
pub fn list_limit(limit: Option<u32>) -> (r: u32)
    ensures
        r == ({
            let l = match limit {
                Some(v) => v,
                None => DEFAULT_LIST_LIMIT,
            };
            if l < 1 {
                1
            } else if l > MAX_LIST_LIMIT {
                MAX_LIST_LIMIT
            } else {
                l
            }
        }),
{
    let l = match limit {
        Some(v) => v,
        None => DEFAULT_LIST_LIMIT,
    };
    if l < 1 {
        1
    } else if l > MAX_LIST_LIMIT {
        MAX_LIST_LIMIT
    } else {
        l
    }
}

pub open spec fn summary_keys(s: Seq<TaskSummary>) -> Seq<i64> {
    s.map_values(|x: TaskSummary| x.sort_ts)
}

/// The part of a list that a page shows: `limit` items from `offset` on.
pub open spec fn page_of<T>(s: Seq<T>, offset: int, limit: int) -> Seq<T> {
    if offset >= s.len() {
        Seq::empty()
    } else if offset + limit >= s.len() {
        s.subrange(offset, s.len() as int)
    } else {
        s.subrange(offset, offset + limit)
    }
}

fn copy_summary(s: &TaskSummary) -> (r: TaskSummary)
    ensures
        r@ == s@,
{
    TaskSummary {
        task_name: s.task_name.clone(),
        task_dir: s.task_dir.clone(),
        project_path: clone_opt(&s.project_path),
        status: s.status.clone(),
        iteration: s.iteration,
        max_iterations: s.max_iterations,
        last_event: clone_opt(&s.last_event),
        last_updated: clone_opt(&s.last_updated),
        sort_ts: s.sort_ts,
    }
}

/// The page of `task_list`: the summaries ordered most recently updated
/// first (ties in index order), then `limit` of them from `offset` on.
pub fn list_page(summaries: &Vec<TaskSummary>, offset: usize, limit: usize) -> (r: Vec<TaskSummary>)
    ensures
        exists|p: Seq<usize>|
            is_newest_first(summary_keys(summaries@), p) && {
                let page = page_of(p, offset as int, limit as int);
                &&& r@.len() == page.len()
                &&& forall|a: int| 0 <= a < page.len() ==> r@[a]@ == summaries@[#[trigger] page[a] as int]@
            },
{
    let mut keys: Vec<i64> = Vec::new();
    let mut i: usize = 0;
    while i < summaries.len()
        invariant
            i <= summaries@.len(),
            keys@ == summary_keys(summaries@).take(i as int),
        decreases summaries@.len() - i,
    {
        keys.push(summaries[i].sort_ts);
        assert(keys@ =~= summary_keys(summaries@).take(i + 1));
        i = i + 1;
    }
    assert(keys@ =~= summary_keys(summaries@));
    let p = newest_first(&keys);
    let ghost page = page_of(p@, offset as int, limit as int);
    let end: usize = if offset >= p.len() {
        offset
    } else if limit >= p.len() - offset {
        p.len()
    } else {
        offset + limit
    };
    let mut r: Vec<TaskSummary> = Vec::new();
    let mut j: usize = offset;
    while j < end
        invariant
            offset <= j <= end,
            end as int == if offset >= p@.len() {
                offset as int
            } else if offset + limit >= p@.len() {
                p@.len() as int
            } else {
                offset + limit
            },
            is_newest_first(keys@, p@),
            keys@.len() == summaries@.len(),
            page == page_of(p@, offset as int, limit as int),
            r@.len() == j - offset,
            forall|a: int| 0 <= a < j - offset ==> r@[a]@ == summaries@[#[trigger] page[a] as int]@,
        decreases end - j,
    {
        assert(offset < p@.len());
        assert(page[j - offset] == p@[j as int]);
        assert(p@[j as int] < keys@.len());
        r.push(copy_summary(&summaries[p[j]]));
        j = j + 1;
    }
    r
}

/// The answer of `task_list`: "Found <total> task(s) (showing <from>..<to>)".
pub open spec fn list_message_spec(total: nat, offset: nat, shown: nat) -> Seq<char> {
    "Found "@ + crate::numbers::dec(total) + " task(s) (showing "@ + crate::numbers::dec(offset) + ".."@
        + crate::numbers::dec(offset + shown) + ")"@
}

/// Composes the answer of `task_list`.
pub fn list_message(total: u64, offset: u64, shown: u64) -> (r: String)
    requires
        offset + shown <= u64::MAX,
    ensures
        r@ == list_message_spec(total as nat, offset as nat, shown as nat),
{
    let mut out: Vec<char> = Vec::new();
    push_str_chars(&mut out, "Found ");
    crate::numbers::push_dec(&mut out, total);
    push_str_chars(&mut out, " task(s) (showing ");
    crate::numbers::push_dec(&mut out, offset);
    push_str_chars(&mut out, "..");
    crate::numbers::push_dec(&mut out, offset + shown);
    push_str_chars(&mut out, ")");
    assert(out@ =~= list_message_spec(total as nat, offset as nat, shown as nat));
    string_of(out.as_slice())
}

// ---------------------------------------------------------------------------
// Laws of task status
// ---------------------------------------------------------------------------

/// A task whose state file the hook deleted is listed with the status the
/// hook recorded in the index for the event that ended it: "completed" after
/// a matched promise or the iteration limit, "error" after an invalid state,
/// an invalid matcher, an empty prompt or a failed write.
pub proof fn lemma_status_after_hook_event(k: crate::stop_hook::EventKind, e: EventInfo)
    requires
        k != crate::stop_hook::EventKind::Paused,
        k != crate::stop_hook::EventKind::Loop,
        opt_view(e.event) == Some(crate::stop_hook::event_name_spec(k)),
    ensures
        status_spec(None, Some(e)) == crate::stop_hook::event_status_spec(k),
{
    reveal_strlit("invalid_state");
    reveal_strlit("max_iterations");
    reveal_strlit("invalid_matcher");
    reveal_strlit("promise_matched");
    reveal_strlit("empty_prompt");
    reveal_strlit("write_failed");
    reveal_strlit("cancel");
    reveal_strlit("delete");
    reveal_strlit("error");
    reveal_strlit("completed");
    let n = crate::stop_hook::event_name_spec(k);
    assert("invalid_state"@[8] != "invalid_matcher"@[8]);
    assert(n.len() > 0);
    if n == "promise_matched"@ || n == "max_iterations"@ {
        assert(n[0] == 'p' || n[0] == 'm');
    }
    if n == "cancel"@ || n == "delete"@ {
        assert(n[0] == 'c' || n[0] == 'd');
    }
}

/// A task with a state file is in progress when it is active and paused
/// otherwise, whatever its history says.
pub proof fn lemma_status_with_state(s: StateData, e: Option<EventInfo>)
    ensures
        status_spec(Some(s), e) == if s.active { "in_progress"@ } else { "paused"@ },
{
}

} // verus!
