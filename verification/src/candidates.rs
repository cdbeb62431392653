//! The tasks the stop hook considers, and the order it tries them in.
use vstd::prelude::*;
use crate::meta::TaskMeta;
use crate::order::{is_newest_first, newest_first};
use crate::paths::{history_file_path, join_path, state_file_path, task_root, StorageRoot};
use crate::task_state::{bool_field_spec, lookup, parse_bool, read_state, read_state_spec};
use crate::timestamps::{parse_timestamp, parse_timestamp_spec};

verus! {

/// A task with a state file that the stop hook may act on.
#[derive(Clone, Debug)]
pub struct Candidate {
    pub task_name: String,
    pub task_dir: String,
    pub state_path: String,
    pub history_path: String,
    pub root: String,
    pub active_hint: bool,
    pub sort_ts: i64,
}

pub struct CandidateView {
    pub task_name: Seq<char>,
    pub task_dir: Seq<char>,
    pub state_path: Seq<char>,
    pub history_path: Seq<char>,
    pub root: Seq<char>,
    pub active_hint: bool,
    pub sort_ts: i64,
}

impl View for Candidate {
    type V = CandidateView;

    open spec fn view(&self) -> CandidateView {
        CandidateView {
            task_name: self.task_name@,
            task_dir: self.task_dir@,
            state_path: self.state_path@,
            history_path: self.history_path@,
            root: self.root@,
            active_hint: self.active_hint,
            sort_ts: self.sort_ts,
        }
    }
}

/// What was found of a task's state file: nothing, or a file with its
/// modification time (Unix seconds, 0 when unknown) and its text when it
/// could be read.
#[derive(Clone, Debug)]
pub enum StateProbe {
    Missing,
    Present { text: Option<String>, mtime: i64 },
}

/// Whether a task of an index is one of the project's.
pub open spec fn belongs_spec(task: TaskMeta, root: StorageRoot) -> bool {
    task.project_path matches Some(p) && p@ == root.project_path@
}

/// Whether a task of an index is one of the project's.
pub fn task_belongs(task: &TaskMeta, root: &StorageRoot) -> (r: bool)
    ensures
        r == belongs_spec(*task, *root),
{
    match &task.project_path {
        Some(p) => crate::text::str_eq(p.as_str(), root.project_path.as_str()),
        None => false,
    }
}

/// A timestamp setting of a front matter map, read as Unix seconds.
pub open spec fn stamp_of(m: Map<Seq<char>, Seq<char>>, key: Seq<char>) -> Option<i64> {
    match lookup(m, key) {
        Some(v) => parse_timestamp_spec(v),
        None => None,
    }
}

/// Whether the task is to be tried, and the time it is ordered by: from the
/// front matter when the file can be read ("active", default yes; the time
/// of "updated_at", else of "started_at", else the file's modification time),
/// otherwise yes and the modification time.
pub open spec fn hints_spec(text: Option<Seq<char>>, mtime: i64) -> (bool, i64) {
    match text {
        Some(t) => match read_state_spec(t) {
            Ok((m, _)) => (
                bool_field_spec(lookup(m, "active"@), true),
                match stamp_of(m, "updated_at"@) {
                    Some(ts) => ts,
                    None => match stamp_of(m, "started_at"@) {
                        Some(ts) => ts,
                        None => mtime,
                    },
                },
            ),
            Err(_) => (true, mtime),
        },
        None => (true, mtime),
    }
}

fn read_stamp(m: &crate::task_state::Frontmatter, key: &str) -> (r: Option<i64>)
    requires
        m.wf(),
    ensures
        r == stamp_of(m.map(), key@),
{
    match m.get(key) {
        Some(v) => parse_timestamp(v.as_str()),
        None => None,
    }
}

fn hints(text: &Option<String>, mtime: i64) -> (r: (bool, i64))
    ensures
        r == hints_spec(crate::state_data::opt_view(*text), mtime),
{
    match text {
        Some(t) => match read_state(t.as_str()) {
            Ok((m, _)) => {
                let active_value = m.get("active");
                let active = parse_bool(active_value.as_ref(), true);
                let ts = match read_stamp(&m, "updated_at") {
                    Some(ts) => ts,
                    None => match read_stamp(&m, "started_at") {
                        Some(ts) => ts,
                        None => mtime,
                    },
                };
                (active, ts)
            },
            Err(_) => (true, mtime),
        },
        None => (true, mtime),
    }
}

/// The candidate a task of a store gives: none when the task is another
/// project's or has no state file; else its paths under the store and the
/// hints its state file gives.
pub open spec fn candidate_spec(root: StorageRoot, task: TaskMeta, probe: StateProbe) -> Option<CandidateView> {
    if !belongs_spec(task, root) {
        None
    } else {
        match probe {
            StateProbe::Missing => None,
            StateProbe::Present { text, mtime } => {
                let tr = join_path(root.root@, task.task_dir@);
                let h = hints_spec(crate::state_data::opt_view(text), mtime);
                Some(
                    CandidateView {
                        task_name: task.task_name@,
                        task_dir: task.task_dir@,
                        state_path: join_path(tr, "state.md"@),
                        history_path: join_path(tr, "history.jsonl"@),
                        root: root.root@,
                        active_hint: h.0,
                        sort_ts: h.1,
                    },
                )
            },
        }
    }
}

/// The candidate a task of a store gives.
pub fn make_candidate(root: &StorageRoot, task: &TaskMeta, probe: &StateProbe) -> (r: Option<Candidate>)
    ensures
        match r {
            None => candidate_spec(*root, *task, *probe) is None,
            Some(c) => candidate_spec(*root, *task, *probe) == Some(c@),
        },
{
    if !task_belongs(task, root) {
        return None;
    }
    match probe {
        StateProbe::Missing => None,
        StateProbe::Present { text, mtime } => {
            let (active_hint, sort_ts) = hints(text, *mtime);
            let tr = task_root(root.root.as_str(), task.task_dir.as_str());
            Some(Candidate {
                task_name: task.task_name.clone(),
                task_dir: task.task_dir.clone(),
                state_path: state_file_path(tr.as_str()),
                history_path: history_file_path(tr.as_str()),
                root: root.root.clone(),
                active_hint,
                sort_ts,
            })
        },
    }
}

pub open spec fn sort_keys(c: Seq<Candidate>) -> Seq<i64> {
    c.map_values(|x: Candidate| x.sort_ts)
}

fn copy_candidate(c: &Candidate) -> (r: Candidate)
    ensures
        r@ == c@,
{
    Candidate {
        task_name: c.task_name.clone(),
        task_dir: c.task_dir.clone(),
        state_path: c.state_path.clone(),
        history_path: c.history_path.clone(),
        root: c.root.clone(),
        active_hint: c.active_hint,
        sort_ts: c.sort_ts,
    }
}

/// The candidates in the order the hook tries them: the most recently
/// updated first, candidates of equal time in the order they were found.
pub fn order_candidates(cands: &Vec<Candidate>) -> (r: Vec<Candidate>)
    ensures
        exists|p: Seq<usize>|
            is_newest_first(sort_keys(cands@), p) && r@.len() == p.len() && forall|a: int|
                0 <= a < p.len() ==> r@[a]@ == cands@[#[trigger] p[a] as int]@,
{
    let mut keys: Vec<i64> = Vec::new();
    let mut i: usize = 0;
    while i < cands.len()
        invariant
            i <= cands@.len(),
            keys@ == sort_keys(cands@).take(i as int),
        decreases cands@.len() - i,
    {
        keys.push(cands[i].sort_ts);
        assert(keys@ =~= sort_keys(cands@).take(i + 1));
        i = i + 1;
    }
    assert(keys@ =~= sort_keys(cands@));
    let p = newest_first(&keys);
    let mut r: Vec<Candidate> = Vec::new();
    let mut j: usize = 0;
    while j < p.len()
        invariant
            j <= p@.len(),
            is_newest_first(keys@, p@),
            keys@.len() == cands@.len(),
            r@.len() == j,
            forall|a: int| 0 <= a < j ==> r@[a]@ == cands@[#[trigger] p@[a] as int]@,
        decreases p@.len() - j,
    {
        assert(p@[j as int] < keys@.len());
        r.push(copy_candidate(&cands[p[j]]));
        j = j + 1;
    }
    r
}

/// What was found in one store: nothing when its index could not be loaded;
/// otherwise the index and, for each of its tasks in order, its state file.
#[derive(Clone, Debug)]
pub struct StoreScan {
    pub meta: Option<crate::meta::MetaIndex>,
    pub probes: Vec<StateProbe>,
}

/// A scan has one state file result per task of its index.
pub open spec fn scan_ok(s: StoreScan) -> bool {
    match s.meta {
        Some(m) => s.probes@.len() == m.tasks@.len(),
        None => true,
    }
}

/// The candidates of one store's tasks, in the index's order.
pub open spec fn store_candidates(root: StorageRoot, tasks: Seq<TaskMeta>, probes: Seq<StateProbe>) -> Seq<CandidateView>
    decreases tasks.len(),
{
    if tasks.len() == 0 {
        Seq::empty()
    } else {
        let rest = store_candidates(root, tasks.drop_last(), probes);
        match candidate_spec(root, tasks.last(), probes[tasks.len() - 1]) {
            Some(c) => rest.push(c),
            None => rest,
        }
    }
}

/// The candidates of all stores, store by store.
pub open spec fn all_candidates(roots: Seq<StorageRoot>, scans: Seq<StoreScan>) -> Seq<CandidateView>
    decreases roots.len(),
{
    if roots.len() == 0 {
        Seq::empty()
    } else {
        let rest = all_candidates(roots.drop_last(), scans);
        match scans[roots.len() - 1].meta {
            Some(m) => rest + store_candidates(roots.last(), m.tasks@, scans[roots.len() - 1].probes@),
            None => rest,
        }
    }
}

pub open spec fn cviews(v: Seq<Candidate>) -> Seq<CandidateView> {
    v.map_values(|c: Candidate| c@)
}

/// The tasks the stop hook considers: for each store whose index loaded, the
/// tasks of the project that have a state file, with their hints.
pub fn list_candidates(roots: &Vec<StorageRoot>, scans: &Vec<StoreScan>) -> (r: Vec<Candidate>)
    requires
        scans@.len() == roots@.len(),
        forall|i: int| 0 <= i < scans@.len() ==> scan_ok(#[trigger] scans@[i]),
    ensures
        cviews(r@) == all_candidates(roots@, scans@),
{
    let mut out: Vec<Candidate> = Vec::new();
    let mut i: usize = 0;
    while i < roots.len()
        invariant
            i <= roots@.len(),
            scans@.len() == roots@.len(),
            forall|k: int| 0 <= k < scans@.len() ==> scan_ok(#[trigger] scans@[k]),
            cviews(out@) == all_candidates(roots@.take(i as int), scans@),
        decreases roots@.len() - i,
    {
        proof {
            assert(roots@.take(i + 1).drop_last() =~= roots@.take(i as int));
            assert(roots@.take(i + 1).last() == roots@[i as int]);
        }
        let scan = &scans[i];
        assert(scan_ok(scans@[i as int]));
        let ghost before = cviews(out@);
        match &scan.meta {
            Some(m) => {
                let root = &roots[i];
                let mut j: usize = 0;
                assert(m.tasks@.take(0) =~= Seq::<TaskMeta>::empty());
                assert(before + store_candidates(*root, m.tasks@.take(0), scan.probes@) =~= before);
                while j < m.tasks.len()
                    invariant
                        j <= m.tasks@.len(),
                        scan.probes@.len() == m.tasks@.len(),
                        cviews(out@) == before + store_candidates(*root, m.tasks@.take(j as int), scan.probes@),
                    decreases m.tasks@.len() - j,
                {
                    proof {
                        assert(m.tasks@.take(j + 1).drop_last() =~= m.tasks@.take(j as int));
                        assert(m.tasks@.take(j + 1).last() == m.tasks@[j as int]);
                    }
                    let ghost mid = cviews(out@);
                    match make_candidate(root, &m.tasks[j], &scan.probes[j]) {
                        Some(c) => {
                            out.push(c);
                            assert(cviews(out@) =~= mid.push(out@.last()@));
                        },
                        None => {},
                    }
                    j = j + 1;
                }
                assert(m.tasks@.take(m.tasks@.len() as int) =~= m.tasks@);
            },
            None => {},
        }
        i = i + 1;
    }
    assert(roots@.take(roots@.len() as int) =~= roots@);
    out
}

// ---------------------------------------------------------------------------
// Laws of the hook's ordering
// ---------------------------------------------------------------------------

/// A readable state file is ordered by the time of its `updated_at` when that
/// is a timestamp, whatever its start time and the file's modification time;
/// by the time of `started_at` only when `updated_at` is missing or not a
/// timestamp; and by the modification time when neither is one. A file that
/// cannot be read is ordered by its modification time.
pub proof fn lemma_sort_time(text: Seq<char>, mtime: i64)
    ensures
        read_state_spec(text) matches Ok((m, _)) ==> {
            let up = match lookup(m, "updated_at"@) {
                Some(v) => parse_timestamp_spec(v),
                None => None,
            };
            let st = match lookup(m, "started_at"@) {
                Some(v) => parse_timestamp_spec(v),
                None => None,
            };
            &&& (up matches Some(t) ==> hints_spec(Some(text), mtime).1 == t)
            &&& (up is None ==> (st matches Some(t) ==> hints_spec(Some(text), mtime).1 == t))
            &&& (up is None && st is None ==> hints_spec(Some(text), mtime).1 == mtime)
        },
        read_state_spec(text) is Err ==> hints_spec(Some(text), mtime) == (true, mtime),
{
}

} // verus!
