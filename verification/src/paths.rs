//! Where task files live. Paths are text; joining follows `PathBuf::join`
//! on Unix: an absolute component replaces the base, otherwise a `/` is put
//! between them unless the base is empty or already ends with one.
use vstd::prelude::*;
use crate::text::{blank_vec, chars_of, is_blank, push_all, push_str_chars, string_of};

verus! {

/// `Path::join` on Unix.
pub open spec fn join_path(base: Seq<char>, comp: Seq<char>) -> Seq<char> {
    if comp.len() > 0 && comp[0] == '/' {
        comp
    } else if base.len() == 0 || base.last() == '/' {
        base + comp
    } else {
        base + seq!['/'] + comp
    }
}

/// Joins a path component onto a base path.
pub fn path_join(base: &str, comp: &str) -> (r: String)
    ensures
        r@ == join_path(base@, comp@),
{
    let b = chars_of(base);
    let c = chars_of(comp);
    if c.len() > 0 && c[0] == '/' {
        return string_of(c.as_slice());
    }
    let mut out = b.clone();
    if !(b.len() == 0 || b[b.len() - 1] == '/') {
        out.push('/');
    }
    push_all(&mut out, c.as_slice());
    proof {
        if b@.len() == 0 || b@.last() == '/' {
            assert(out@ =~= b@ + c@);
        } else {
            assert(out@ =~= b@ + seq!['/'] + c@);
        }
    }
    string_of(out.as_slice())
}

/// Where a storage mode keeps its tasks.
#[derive(Clone, Copy, PartialEq, Eq, Structural, Debug)]
pub enum StorageMode {
    Project,
    User,
}

/// Which storage modes an installation allows.
#[derive(Clone, Copy, PartialEq, Eq, Structural, Debug)]
pub enum StorageScope {
    ProjectOnly,
    Both,
}

/// `<project>/.codex/task_loop`, the project-level store.
pub open spec fn project_store_spec(project_dir: Seq<char>) -> Seq<char> {
    join_path(join_path(project_dir, ".codex"@), "task_loop"@)
}

/// The project-level store of a project directory.
pub fn project_store_root(project_dir: &str) -> (r: String)
    ensures
        r@ == project_store_spec(project_dir@),
{
    let codex = path_join(project_dir, ".codex");
    path_join(codex.as_str(), "task_loop")
}

/// The project-level store, as the stop hook names it.
pub fn local_store_root(project_dir: &str) -> (r: String)
    ensures
        r@ == project_store_spec(project_dir@),
{
    project_store_root(project_dir)
}

/// The Codex home directory: `CODEX_HOME` when set and not blank, else
/// `$HOME/.codex`, else `.codex`.
pub open spec fn codex_home_spec(codex_home: Option<Seq<char>>, home: Option<Seq<char>>) -> Seq<char> {
    match codex_home {
        Some(h) if !is_blank(h) => h,
        _ => match home {
            Some(h) => join_path(h, ".codex"@),
            None => ".codex"@,
        },
    }
}

/// The Codex home directory for the given values of `CODEX_HOME` and `HOME`.
pub fn codex_home_dir(codex_home: Option<&str>, home: Option<&str>) -> (r: String)
    ensures
        r@ == codex_home_spec(
            match codex_home {
                Some(h) => Some(h@),
                None => None,
            },
            match home {
                Some(h) => Some(h@),
                None => None,
            },
        ),
{
    if let Some(h) = codex_home {
        let v = chars_of(h);
        if !blank_vec(v.as_slice()) {
            return h.to_owned();
        }
    }
    match home {
        Some(h) => path_join(h, ".codex"),
        None => ".codex".to_owned(),
    }
}

/// `<codex home>/task_loop`, the user-level store.
pub fn user_store_root(codex_home: &str) -> (r: String)
    ensures
        r@ == join_path(codex_home@, "task_loop"@),
{
    path_join(codex_home, "task_loop")
}

/// The user-level store, as the stop hook names it.
pub fn global_store_root(codex_home: &str) -> (r: String)
    ensures
        r@ == join_path(codex_home@, "task_loop"@),
{
    user_store_root(codex_home)
}

/// The store a storage mode uses.
pub fn storage_root_for_mode(project_dir: &str, mode: StorageMode, codex_home: &str) -> (r: String)
    ensures
        r@ == match mode {
            StorageMode::Project => project_store_spec(project_dir@),
            StorageMode::User => join_path(codex_home@, "task_loop"@),
        },
{
    match mode {
        StorageMode::Project => project_store_root(project_dir),
        StorageMode::User => user_store_root(codex_home),
    }
}

/// The name of a storage mode in messages.
pub fn storage_label(mode: StorageMode) -> (r: &'static str)
    ensures
        r@ == match mode {
            StorageMode::Project => "project"@,
            StorageMode::User => "user"@,
        },
{
    match mode {
        StorageMode::Project => "project",
        StorageMode::User => "user",
    }
}

/// A task's directory inside a store.
pub fn task_root(root: &str, task_dir: &str) -> (r: String)
    ensures
        r@ == join_path(root@, task_dir@),
{
    path_join(root, task_dir)
}

/// `state.md` of a task.
pub fn state_file_path(task_root: &str) -> (r: String)
    ensures
        r@ == join_path(task_root@, "state.md"@),
{
    path_join(task_root, "state.md")
}

/// `history.jsonl` of a task.
pub fn history_file_path(task_root: &str) -> (r: String)
    ensures
        r@ == join_path(task_root@, "history.jsonl"@),
{
    path_join(task_root, "history.jsonl")
}

/// `task.lock` of a task.
pub fn lock_file_path(task_root: &str) -> (r: String)
    ensures
        r@ == join_path(task_root@, "task.lock"@),
{
    path_join(task_root, "task.lock")
}

/// `meta.json` of a store.
pub fn meta_file_path(root: &str) -> (r: String)
    ensures
        r@ == join_path(root@, "meta.json"@),
{
    path_join(root, "meta.json")
}

/// `meta.lock` of a store.
pub fn meta_lock_path(root: &str) -> (r: String)
    ensures
        r@ == join_path(root@, "meta.lock"@),
{
    path_join(root, "meta.lock")
}

/// `<project>/.codex/task-loop.config.toml`.
pub fn config_file_path(project_dir: &str) -> (r: String)
    ensures
        r@ == join_path(join_path(project_dir@, ".codex"@), "task-loop.config.toml"@),
{
    let codex = path_join(project_dir, ".codex");
    path_join(codex.as_str(), "task-loop.config.toml")
}

/// A store the stop hook looks in, with the project whose tasks it takes.
#[derive(Clone, Debug)]
pub struct StorageRoot {
    pub root: String,
    pub project_path: String,
}

/// The stores the stop hook looks in: the project's own, then the user's.
pub fn storage_roots_for_hook(project_dir: &str, project_path: &str, codex_home: &str) -> (r: Vec<
    StorageRoot,
>)
    ensures
        r@.len() == 2,
        r@[0].root@ == project_store_spec(project_dir@),
        r@[1].root@ == join_path(codex_home@, "task_loop"@),
        r@[0].project_path@ == project_path@,
        r@[1].project_path@ == project_path@,
{
    let mut v: Vec<StorageRoot> = Vec::new();
    v.push(StorageRoot { root: local_store_root(project_dir), project_path: project_path.to_owned() });
    v.push(StorageRoot { root: global_store_root(codex_home), project_path: project_path.to_owned() });
    v
}

/// `~` and `~/rest` with the home directory put in; other paths as given.
pub open spec fn expand_tilde_spec(path: Seq<char>, home: Option<Seq<char>>) -> Seq<char> {
    match home {
        Some(h) => if path == seq!['~'] {
            h
        } else if path.len() >= 2 && path[0] == '~' && path[1] == '/' {
            join_path(h, path.subrange(2, path.len() as int))
        } else {
            path
        },
        None => path,
    }
}

/// Expands a leading `~` given the value of `HOME`.
pub fn expand_tilde(path: &str, home: Option<&str>) -> (r: String)
    ensures
        r@ == expand_tilde_spec(
            path@,
            match home {
                Some(h) => Some(h@),
                None => None,
            },
        ),
{
    let p = chars_of(path);
    if let Some(h) = home {
        if p.len() == 1 && p[0] == '~' {
            assert(p@ =~= seq!['~']);
            return h.to_owned();
        }
        if p.len() >= 2 && p[0] == '~' && p[1] == '/' {
            proof {
                assert(p@ != seq!['~']);
            }
            let rest = crate::text::sub_vec(p.as_slice(), 2, p.len());
            let rs = string_of(rest.as_slice());
            return path_join(h, rs.as_str());
        }
        proof {
            if p@ == seq!['~'] {
                assert(p@.len() == 1);
            }
        }
    }
    path.to_owned()
}

/// `<project>/.codex/hooks/hooks.json`, the project-level hook list.
pub fn hooks_file_path(project_dir: &str) -> (r: String)
    ensures
        r@ == join_path(join_path(join_path(project_dir@, ".codex"@), "hooks"@), "hooks.json"@),
{
    let a = path_join(project_dir, ".codex");
    let b = path_join(a.as_str(), "hooks");
    path_join(b.as_str(), "hooks.json")
}

} // verus!
