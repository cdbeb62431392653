//! The rules of the MCP tools: which arguments they accept, what a new task
//! starts with, what resuming and renaming change, and the messages they
//! answer with.
use vstd::prelude::*;
use rand::Rng;
use crate::config::{matcher_name_spec, normalize_matcher_name, ConfigDefaults};
use crate::meta::ToolError;
use crate::paths::{storage_label, StorageMode, StorageScope};
use crate::state_data::{opt_view, StateData, SCHEMA_VERSION};
use crate::text::{
    blank_vec, chars_eq_str, chars_of, contains_char, has_char, is_blank, lines, lines_vec,
    lower_seq, lower_vec, normalize_space_spec, normalize_space_vec, push_str_chars, string_of,
    trim, trim_vec, vviews, CharClass,
};

verus! {

/// Whether an error is an invalid-arguments error with the given message.
pub open spec fn invalid_params(e: ToolError, msg: Seq<char>) -> bool {
    e matches ToolError::InvalidParams(m) && m@ == msg
}

/// Whether an error is a failure with the given message.
pub open spec fn internal(e: ToolError, msg: Seq<char>) -> bool {
    e matches ToolError::Internal(m) && m@ == msg
}

fn invalid(msg: &str) -> (e: ToolError)
    ensures
        invalid_params(e, msg@),
{
    ToolError::InvalidParams(msg.to_owned())
}

// ---------------------------------------------------------------------------
// Storage
// ---------------------------------------------------------------------------

/// The storage modes an installation allows, from the value of
/// `TASKLOOP_STORAGE_SCOPE` (trimmed, any ASCII case): the project-only
/// spellings restrict it to project storage; anything else allows both.
pub open spec fn storage_scope_spec(value: Option<Seq<char>>) -> StorageScope {
    match value {
        None => StorageScope::Both,
        Some(v) => {
            let n = lower_seq(trim(v));
            if n == "project"@ || n == "project-only"@ || n == "local"@ || n == "local-only"@ {
                StorageScope::ProjectOnly
            } else {
                StorageScope::Both
            }
        },
    }
}

/// The storage scope for a value of `TASKLOOP_STORAGE_SCOPE` (`None` when unset).
pub fn storage_scope_from_env(value: Option<&str>) -> (r: StorageScope)
    ensures
        r == storage_scope_spec(
            match value {
                Some(v) => Some(v@),
                None => None,
            },
        ),
{
    match value {
        None => StorageScope::Both,
        Some(v) => {
            let c = chars_of(v);
            let t = trim_vec(c.as_slice(), CharClass::Whitespace);
            let l = lower_vec(t.as_slice());
            if chars_eq_str(l.as_slice(), "project") || chars_eq_str(l.as_slice(), "project-only")
                || chars_eq_str(l.as_slice(), "local") || chars_eq_str(l.as_slice(), "local-only") {
                StorageScope::ProjectOnly
            } else {
                StorageScope::Both
            }
        },
    }
}

/// The storage mode a `storage` argument asks for: absent, blank,
/// "project" or "local" is project storage, "user" or "global" user
/// storage (trimmed, any ASCII case); anything else is refused.
pub open spec fn storage_mode_spec(value: Option<Seq<char>>) -> Option<StorageMode> {
    match value {
        None => Some(StorageMode::Project),
        Some(v) => {
            let n = lower_seq(trim(v));
            if n == ""@ || n == "project"@ || n == "local"@ {
                Some(StorageMode::Project)
            } else if n == "user"@ || n == "global"@ {
                Some(StorageMode::User)
            } else {
                None
            }
        },
    }
}

/// Reads a `storage` argument.
pub fn parse_storage_mode(value: Option<&str>) -> (r: Result<StorageMode, ToolError>)
    ensures
        match r {
            Ok(m) => storage_mode_spec(opt_str(value)) == Some(m),
            Err(e) => storage_mode_spec(opt_str(value)) is None && invalid_params(
                e,
                "storage must be project or user"@,
            ),
        },
{
    match value {
        None => Ok(StorageMode::Project),
        Some(v) => {
            let c = chars_of(v);
            let t = trim_vec(c.as_slice(), CharClass::Whitespace);
            let l = lower_vec(t.as_slice());
            proof {
                reveal_strlit("");
            }
            if l.len() == 0 || chars_eq_str(l.as_slice(), "project") || chars_eq_str(l.as_slice(), "local") {
                proof {
                    if l.len() == 0 {
                        assert(l@ =~= ""@);
                    }
                }
                Ok(StorageMode::Project)
            } else if chars_eq_str(l.as_slice(), "user") || chars_eq_str(l.as_slice(), "global") {
                Ok(StorageMode::User)
            } else {
                Err(invalid("storage must be project or user"))
            }
        },
    }
}

pub open spec fn opt_str(o: Option<&str>) -> Option<Seq<char>> {
    match o {
        Some(s) => Some(s@),
        None => None,
    }
}

/// The message for user storage where only project storage is allowed.
pub open spec fn user_storage_refused() -> Seq<char> {
    "storage=user is not allowed for project-level install; use storage=project"@
}

/// A storage mode as the installation allows it: user storage is refused
/// where the scope is project-only.
pub fn enforce_storage_mode(scope: StorageScope, mode: StorageMode) -> (r: Result<StorageMode, ToolError>)
    ensures
        match r {
            Ok(m) => m == mode && !(scope == StorageScope::ProjectOnly && mode == StorageMode::User),
            Err(e) => scope == StorageScope::ProjectOnly && mode == StorageMode::User && invalid_params(
                e,
                user_storage_refused(),
            ),
        },
{
    if scope == StorageScope::ProjectOnly && mode == StorageMode::User {
        return Err(
            invalid("storage=user is not allowed for project-level install; use storage=project"),
        );
    }
    Ok(mode)
}

/// The check of the tools that take an existing task: user storage needs
/// the project directory to be given.
pub fn require_project_for_user(mode: StorageMode, project_dir_given: bool) -> (r: Result<(), ToolError>)
    ensures
        r is Ok <==> !(mode == StorageMode::User && !project_dir_given),
        r matches Err(e) ==> invalid_params(e, "project_dir is required for user storage"@),
{
    if mode == StorageMode::User && !project_dir_given {
        return Err(invalid("project_dir is required for user storage"));
    }
    Ok(())
}

// ---------------------------------------------------------------------------
// Matchers and names
// ---------------------------------------------------------------------------

/// The message for a matcher name that is not one of the three.
pub open spec fn bad_matcher_message() -> Seq<char> {
    "completion_matcher must be exact, case_insensitive, or regex"@
}

/// The matcher a task is given: none without a matcher or without a
/// completion promise; else the canonical name, or an error.
pub open spec fn matcher_choice_spec(matcher: Option<Seq<char>>, promise: Option<Seq<char>>) -> Result<Option<Seq<char>>, Seq<char>> {
    match matcher {
        None => Ok(None),
        Some(m) => if promise is None {
            Ok(None)
        } else {
            match matcher_name_spec(m) {
                Some(n) => Ok(Some(n)),
                None => Err(bad_matcher_message()),
            }
        },
    }
}

/// Chooses the matcher of a new task.
pub fn normalize_matcher(matcher: Option<String>, completion_promise: Option<&str>) -> (r: Result<Option<String>, ToolError>)
    ensures
        match r {
            Ok(m) => matcher_choice_spec(opt_view(matcher), opt_str(completion_promise)) == Ok::<
                Option<Seq<char>>,
                Seq<char>,
            >(opt_view(m)),
            Err(e) => matcher_choice_spec(opt_view(matcher), opt_str(completion_promise)) == Err::<
                Option<Seq<char>>,
                Seq<char>,
            >(bad_matcher_message()) && invalid_params(e, bad_matcher_message()),
        },
{
    let value = match matcher {
        None => {
            return Ok(None);
        },
        Some(v) => v,
    };
    if completion_promise.is_none() {
        return Ok(None);
    }
    match normalize_matcher_name(value) {
        Some(n) => Ok(Some(n)),
        None => Err(invalid("completion_matcher must be exact, case_insensitive, or regex")),
    }
}

/// The first line of `ls[i..]` that is not blank.
pub open spec fn first_nonblank_from(ls: Seq<Seq<char>>, i: int) -> Option<Seq<char>>
    decreases ls.len() - i,
{
    if i < 0 || i >= ls.len() {
        None
    } else if !is_blank(ls[i]) {
        Some(ls[i])
    } else {
        first_nonblank_from(ls, i + 1)
    }
}

/// The longest task name.
pub open spec fn max_name_len() -> nat {
    30
}

/// The name a task gets from its prompt: the first line that is not blank
/// (the whole prompt when there is none), with its whitespace normalised and
/// cut to 30 characters; "task" when nothing is left.
pub open spec fn task_name_from_prompt(prompt: Seq<char>) -> Seq<char> {
    let line = match first_nonblank_from(lines(prompt), 0) {
        Some(l) => l,
        None => prompt,
    };
    let n = normalize_space_spec(line);
    if n.len() == 0 {
        "task"@
    } else if n.len() <= max_name_len() {
        n
    } else {
        n.take(max_name_len() as int)
    }
}

/// Makes a task name from a prompt.
pub fn generate_task_name(prompt: &str) -> (r: String)
    ensures
        r@ == task_name_from_prompt(prompt@),
{
    let p = chars_of(prompt);
    let ls = lines_vec(p.as_slice());
    let ghost lv = vviews(ls@);
    let mut i: usize = 0;
    let mut found: Option<usize> = None;
    while i < ls.len()
        invariant_except_break
            i <= ls@.len(),
            lv == vviews(ls@),
            lv.len() == ls@.len(),
            found is None,
            first_nonblank_from(lv, 0) == first_nonblank_from(lv, i as int),
        ensures
            lv == vviews(ls@),
            match found {
                Some(k) => k < ls@.len() && first_nonblank_from(lv, 0) == Some(ls@[k as int]@),
                None => first_nonblank_from(lv, 0) is None,
            },
        decreases ls@.len() - i,
    {
        assert(lv[i as int] == ls@[i as int]@);
        if !blank_vec(ls[i].as_slice()) {
            found = Some(i);
            break;
        }
        i = i + 1;
    }
    let n = match found {
        Some(k) => normalize_space_vec(ls[k].as_slice()),
        None => normalize_space_vec(p.as_slice()),
    };
    if n.len() == 0 {
        return "task".to_owned();
    }
    if n.len() <= 30 {
        string_of(n.as_slice())
    } else {
        let mut out: Vec<char> = Vec::new();
        let mut j: usize = 0;
        while j < 30
            invariant
                j <= 30,
                30 < n@.len(),
                out@ == n@.take(j as int),
            decreases 30 - j,
        {
            out.push(n[j]);
            assert(out@ =~= n@.take(j + 1));
            j = j + 1;
        }
        string_of(out.as_slice())
    }
}

/// The name a new or renamed task gets: the given name (or the one made from
/// the prompt) with its whitespace normalised; it must not be empty, must be
/// one line and at most 30 characters.
pub open spec fn task_name_spec(task_name: Option<Seq<char>>, prompt: Seq<char>) -> Result<Seq<char>, Seq<char>> {
    let raw = match task_name {
        Some(t) => t,
        None => task_name_from_prompt(prompt),
    };
    let t = normalize_space_spec(raw);
    if t.len() == 0 {
        Err("task_name cannot be empty"@)
    } else if contains_char(t, '\n') || contains_char(t, '\r') {
        Err("task_name must be single line"@)
    } else if t.len() > max_name_len() {
        Err("task_name must be <= 30 characters"@)
    } else {
        Ok(t)
    }
}

/// Checks and normalises a task name.
pub fn normalize_task_name(task_name: Option<String>, prompt: &str) -> (r: Result<String, ToolError>)
    ensures
        match r {
            Ok(s) => task_name_spec(opt_view(task_name), prompt@) == Ok::<Seq<char>, Seq<char>>(s@),
            Err(e) => task_name_spec(opt_view(task_name), prompt@) matches Err(m) && invalid_params(e, m),
        },
{
    let raw = match task_name {
        Some(t) => t,
        None => generate_task_name(prompt),
    };
    let c = chars_of(raw.as_str());
    let t = normalize_space_vec(c.as_slice());
    if t.len() == 0 {
        return Err(invalid("task_name cannot be empty"));
    }
    if has_char(t.as_slice(), '\n') || has_char(t.as_slice(), '\r') {
        return Err(invalid("task_name must be single line"));
    }
    if t.len() > 30 {
        return Err(invalid("task_name must be <= 30 characters"));
    }
    Ok(string_of(t.as_slice()))
}

// ---------------------------------------------------------------------------
// Starting a task
// ---------------------------------------------------------------------------

/// The arguments of `task_loop`.
#[derive(Clone, Debug)]
pub struct LoopArgs {
    pub prompt: String,
    pub task_name: Option<String>,
    pub max_iterations: Option<u32>,
    pub completion_promise: Option<String>,
    pub completion_matcher: Option<String>,
    pub history_limit: Option<u32>,
    pub storage: Option<String>,
    pub project_dir: Option<String>,
}

/// What `task_loop` settles before it touches the store.
#[derive(Clone, Debug)]
pub struct LoopPlan {
    pub storage_mode: StorageMode,
    pub task_name: String,
    pub completion_promise: Option<String>,
    pub completion_matcher: Option<String>,
    pub max_iterations: u32,
    pub history_limit: u32,
}

pub struct LoopPlanSpec {
    pub storage_mode: StorageMode,
    pub task_name: Seq<char>,
    pub completion_promise: Option<Seq<char>>,
    pub completion_matcher: Option<Seq<char>>,
    pub max_iterations: u32,
    pub history_limit: u32,
}

impl View for LoopPlan {
    type V = LoopPlanSpec;

    open spec fn view(&self) -> LoopPlanSpec {
        LoopPlanSpec {
            storage_mode: self.storage_mode,
            task_name: self.task_name@,
            completion_promise: opt_view(self.completion_promise),
            completion_matcher: opt_view(self.completion_matcher),
            max_iterations: self.max_iterations,
            history_limit: self.history_limit,
        }
    }
}

/// A completion promise is kept only when it is not blank.
pub open spec fn promise_choice(p: Option<Seq<char>>) -> Option<Seq<char>> {
    match p {
        Some(v) => if is_blank(v) {
            None
        } else {
            Some(v)
        },
        None => None,
    }
}

/// What `task_loop` settles, or the message of the invalid argument, in the
/// order the checks are made: the prompt, the storage mode and what the
/// installation allows, the task name, then the matcher.
pub open spec fn loop_plan_spec(args: LoopArgs, scope: StorageScope, defaults: ConfigDefaults) -> Result<LoopPlanSpec, Seq<char>> {
    if is_blank(args.prompt@) {
        Err("prompt cannot be empty"@)
    } else {
        match storage_mode_spec(opt_view(args.storage)) {
            None => Err("storage must be project or user"@),
            Some(mode) => if scope == StorageScope::ProjectOnly && mode == StorageMode::User {
                Err(user_storage_refused())
            } else {
                match task_name_spec(opt_view(args.task_name), args.prompt@) {
                    Err(m) => Err(m),
                    Ok(name) => {
                        let promise = promise_choice(opt_view(args.completion_promise));
                        let matcher = match args.completion_matcher {
                            Some(m) => m@,
                            None => defaults.completion_matcher@,
                        };
                        match matcher_choice_spec(Some(matcher), promise) {
                            Err(m) => Err(m),
                            Ok(chosen) => Ok(
                                LoopPlanSpec {
                                    storage_mode: mode,
                                    task_name: name,
                                    completion_promise: promise,
                                    completion_matcher: chosen,
                                    max_iterations: match args.max_iterations {
                                        Some(v) => v,
                                        None => defaults.max_iterations,
                                    },
                                    history_limit: match args.history_limit {
                                        Some(v) => v,
                                        None => defaults.history_limit,
                                    },
                                },
                            ),
                        }
                    },
                }
            },
        }
    }
}

/// The check `task_loop` makes first: the prompt must not be blank.
pub fn check_prompt(prompt: &str) -> (r: Result<(), ToolError>)
    ensures
        r is Ok <==> !is_blank(prompt@),
        r matches Err(e) ==> invalid_params(e, "prompt cannot be empty"@),
{
    let c = chars_of(prompt);
    if blank_vec(c.as_slice()) {
        return Err(invalid("prompt cannot be empty"));
    }
    Ok(())
}

fn clone_opt_string(o: &Option<String>) -> (r: Option<String>)
    ensures
        opt_view(r) == opt_view(*o),
{
    match o {
        Some(s) => Some(s.clone()),
        None => None,
    }
}

/// Settles the arguments of `task_loop` against the installation's scope and
/// the project's defaults.
pub fn plan_task_loop(args: &LoopArgs, scope: StorageScope, defaults: &ConfigDefaults) -> (r: Result<LoopPlan, ToolError>)
    ensures
        match r {
            Ok(p) => loop_plan_spec(*args, scope, *defaults) == Ok::<LoopPlanSpec, Seq<char>>(p@),
            Err(e) => loop_plan_spec(*args, scope, *defaults) matches Err(m) && invalid_params(e, m),
        },
{
    check_prompt(args.prompt.as_str())?;
    let storage = match &args.storage {
        Some(s) => Some(s.as_str()),
        None => None,
    };
    let mode = parse_storage_mode(storage)?;
    let mode = enforce_storage_mode(scope, mode)?;
    let task_name = normalize_task_name(clone_opt_string(&args.task_name), args.prompt.as_str())?;
    let promise = match &args.completion_promise {
        Some(p) => {
            let c = chars_of(p.as_str());
            if blank_vec(c.as_slice()) {
                None
            } else {
                Some(p.clone())
            }
        },
        None => None,
    };
    let matcher = match &args.completion_matcher {
        Some(m) => m.clone(),
        None => defaults.completion_matcher.clone(),
    };
    let promise_ref = match &promise {
        Some(p) => Some(p.as_str()),
        None => None,
    };
    let chosen = normalize_matcher(Some(matcher), promise_ref)?;
    let max_iterations = match args.max_iterations {
        Some(v) => v,
        None => defaults.max_iterations,
    };
    let history_limit = match args.history_limit {
        Some(v) => v,
        None => defaults.history_limit,
    };
    Ok(
        LoopPlan {
            storage_mode: mode,
            task_name,
            completion_promise: promise,
            completion_matcher: chosen,
            max_iterations,
            history_limit,
        },
    )
}

/// The state a new task starts with: active, at iteration 1, with the
/// prompt and the settled arguments, started and updated now.
pub open spec fn new_state_spec(plan: LoopPlanSpec, project_path: Seq<char>, prompt: Seq<char>, now: Seq<char>) -> crate::state_data::StateSpec {
    crate::state_data::StateSpec {
        schema_version: SCHEMA_VERSION,
        task_name: plan.task_name,
        project_path: Some(project_path),
        active: true,
        iteration: 1,
        max_iterations: plan.max_iterations,
        completion_promise: plan.completion_promise,
        completion_matcher: plan.completion_matcher,
        history_limit: Some(plan.history_limit),
        started_at: Some(now),
        updated_at: Some(now),
        prompt: prompt,
        extras: Seq::empty(),
    }
}

/// The state of a task that `task_loop` starts.
pub fn new_task_state(plan: &LoopPlan, project_path: &str, prompt: &str, now: &str) -> (r: StateData)
    ensures
        r@ == new_state_spec(plan@, project_path@, prompt@, now@),
{
    let r = StateData {
        schema_version: SCHEMA_VERSION,
        task_name: plan.task_name.clone(),
        project_path: Some(project_path.to_owned()),
        active: true,
        iteration: 1,
        max_iterations: plan.max_iterations,
        completion_promise: clone_opt_string(&plan.completion_promise),
        completion_matcher: clone_opt_string(&plan.completion_matcher),
        history_limit: Some(plan.history_limit),
        started_at: Some(now.to_owned()),
        updated_at: Some(now.to_owned()),
        prompt: prompt.to_owned(),
        extras: Vec::new(),
    };
    assert(r@.extras =~= Seq::<(Seq<char>, Seq<char>)>::empty());
    r
}

/// How many random directory names `task_loop` tries before it falls back
/// on one made from the time.
pub const TASK_DIR_ATTEMPTS: u32 = 100;

/// The length of a random task directory name.
pub const TASK_DIR_LEN: usize = 12;

/// An ASCII letter or digit.
pub open spec fn is_ascii_alnum(c: char) -> bool {
    ('a' <= c && c <= 'z') || ('A' <= c && c <= 'Z') || ('0' <= c && c <= '9')
}

/// A character of a random task directory name.
pub open spec fn is_task_dir_char(c: char) -> bool {
    ('a' <= c && c <= 'z') || ('0' <= c && c <= '9')
}

/// Calls `rand::rng()` and takes `len` samples of `rand::distr::Alphanumeric`.
/// Claimed: `len` characters, each an ASCII letter or digit; which ones is
/// left to chance.
#[verifier::external_body]
fn random_alphanumeric(len: usize) -> (r: String)
    ensures
        r@.len() == len,
        forall|i: int| 0 <= i < r@.len() ==> is_ascii_alnum(#[trigger] r@[i]),
{
    rand::rng().sample_iter(rand::distr::Alphanumeric).take(len).map(char::from).collect::<String>()
}

/// The directory name made from a random draw: the drawn text in lowercase.
pub fn task_dir_from_draw(raw: &str) -> (r: String)
    ensures
        r@ == lower_seq(raw@),
{
    let c = chars_of(raw);
    let l = lower_vec(c.as_slice());
    string_of(l.as_slice())
}

/// A random name for a task directory: twelve lowercase ASCII letters and
/// digits, the lowercase form of twelve drawn letters and digits.
pub fn random_task_dir() -> (r: String)
    ensures
        exists|raw: Seq<char>|
            raw.len() == TASK_DIR_LEN && (forall|i: int| 0 <= i < raw.len() ==> is_ascii_alnum(#[trigger] raw[i]))
                && r@ == lower_seq(raw),
        r@.len() == TASK_DIR_LEN,
        forall|i: int| 0 <= i < r@.len() ==> is_task_dir_char(#[trigger] r@[i]),
{
    let raw = random_alphanumeric(TASK_DIR_LEN);
    let r = task_dir_from_draw(raw.as_str());
    proof {
        assert forall|i: int| 0 <= i < r@.len() implies is_task_dir_char(#[trigger] r@[i]) by {
            assert(is_ascii_alnum(raw@[i]));
            assert(r@[i] == crate::text::lower_char(raw@[i]));
        }
    }
    r
}

/// The directory name used when no random one was free: "task-" and the time
/// in milliseconds.
pub fn fallback_task_dir(millis: i64) -> (r: String)
    ensures
        r@ == "task-"@ + crate::numbers::dec_int(millis as int),
{
    let mut out: Vec<char> = Vec::new();
    push_str_chars(&mut out, "task-");
    crate::numbers::push_dec_i64(&mut out, millis);
    string_of(out.as_slice())
}

/// The answer of `task_loop`.
pub open spec fn started_message_spec(task_name: Seq<char>, mode: StorageMode, task_dir: Seq<char>) -> Seq<char> {
    "Taskloop task started: '"@ + task_name + "' (storage: "@ + label_spec(mode) + ", dir: "@ + task_dir + ")"@
}

/// The name of a storage mode in messages.
pub open spec fn label_spec(mode: StorageMode) -> Seq<char> {
    match mode {
        StorageMode::Project => "project"@,
        StorageMode::User => "user"@,
    }
}

/// Composes the answer of `task_loop`.
pub fn started_message(task_name: &str, mode: StorageMode, task_dir: &str) -> (r: String)
    ensures
        r@ == started_message_spec(task_name@, mode, task_dir@),
{
    let mut out: Vec<char> = Vec::new();
    push_str_chars(&mut out, "Taskloop task started: '");
    push_str_chars(&mut out, task_name);
    push_str_chars(&mut out, "' (storage: ");
    push_str_chars(&mut out, storage_label(mode));
    push_str_chars(&mut out, ", dir: ");
    push_str_chars(&mut out, task_dir);
    push_str_chars(&mut out, ")");
    assert(out@ =~= started_message_spec(task_name@, mode, task_dir@));
    string_of(out.as_slice())
}

/// A message naming a task and its storage: `<lead>'<name>' (storage: <mode>)`.
pub open spec fn task_message_spec(lead: Seq<char>, name: Seq<char>, mode: StorageMode) -> Seq<char> {
    lead + "'"@ + name + "' (storage: "@ + label_spec(mode) + ")"@
}

fn task_message(lead: &str, name: &str, mode: StorageMode) -> (r: String)
    ensures
        r@ == task_message_spec(lead@, name@, mode),
{
    let mut out: Vec<char> = Vec::new();
    push_str_chars(&mut out, lead);
    push_str_chars(&mut out, "'");
    push_str_chars(&mut out, name);
    push_str_chars(&mut out, "' (storage: ");
    push_str_chars(&mut out, storage_label(mode));
    push_str_chars(&mut out, ")");
    assert(out@ =~= task_message_spec(lead@, name@, mode));
    string_of(out.as_slice())
}

/// The answer of `task_resume`.
pub fn resumed_message(task_name: &str, mode: StorageMode) -> (r: String)
    ensures
        r@ == task_message_spec("Resumed Taskloop task "@, task_name@, mode),
{
    task_message("Resumed Taskloop task ", task_name, mode)
}

/// The answer of `task_rename`.
pub fn renamed_message(new_name: &str, mode: StorageMode) -> (r: String)
    ensures
        r@ == task_message_spec("Renamed Taskloop task to "@, new_name@, mode),
{
    task_message("Renamed Taskloop task to ", new_name, mode)
}

/// The answer of `task_delete`.
pub fn deleted_message(task_name: &str, mode: StorageMode) -> (r: String)
    ensures
        r@ == task_message_spec("Deleted Taskloop task "@, task_name@, mode),
{
    task_message("Deleted Taskloop task ", task_name, mode)
}

/// The failure of `task_resume` when the task has no state file.
pub fn no_state_error() -> (e: ToolError)
    ensures
        internal(e, "no task state file found"@),
{
    ToolError::Internal("no task state file found".to_owned())
}

/// `task_resume` makes the task active again and updates it now.
pub fn resume_state(state: &mut StateData, now: &str)
    ensures
        final(state)@ == (crate::state_data::StateSpec { active: true, updated_at: Some(now@), ..old(state)@ }),
{
    state.active = true;
    state.updated_at = Some(now.to_owned());
}

/// `task_rename` gives the state the new name and updates it now.
pub fn rename_state(state: &mut StateData, new_name: &str, now: &str)
    ensures
        final(state)@ == (crate::state_data::StateSpec {
            task_name: new_name@,
            updated_at: Some(now@),
            ..old(state)@
        }),
{
    state.task_name = new_name.to_owned();
    state.updated_at = Some(now.to_owned());
}

/// How many history lines a task keeps: its own limit, else the project's.
pub fn history_limit_of(state: &StateData, defaults: &ConfigDefaults) -> (r: u32)
    ensures
        r == match state.history_limit {
            Some(v) => v,
            None => defaults.history_limit,
        },
{
    match state.history_limit {
        Some(v) => v,
        None => defaults.history_limit,
    }
}

/// The tools the server offers.
#[derive(Clone, Copy, PartialEq, Eq, Structural, Debug)]
pub enum ToolKind {
    Loop,
    List,
    Resume,
    Rename,
    Delete,
}

/// The tool a call names; an unknown name is refused.
pub fn tool_kind(name: &str) -> (r: Result<ToolKind, ToolError>)
    ensures
        match r {
            Ok(k) => name@ == match k {
                ToolKind::Loop => "task_loop"@,
                ToolKind::List => "task_list"@,
                ToolKind::Resume => "task_resume"@,
                ToolKind::Rename => "task_rename"@,
                ToolKind::Delete => "task_delete"@,
            },
            Err(e) => name@ != "task_loop"@ && name@ != "task_list"@ && name@ != "task_resume"@
                && name@ != "task_rename"@ && name@ != "task_delete"@ && invalid_params(
                e,
                "unknown tool: "@ + name@,
            ),
        },
{
    if crate::text::str_eq(name, "task_loop") {
        Ok(ToolKind::Loop)
    } else if crate::text::str_eq(name, "task_list") {
        Ok(ToolKind::List)
    } else if crate::text::str_eq(name, "task_resume") {
        Ok(ToolKind::Resume)
    } else if crate::text::str_eq(name, "task_rename") {
        Ok(ToolKind::Rename)
    } else if crate::text::str_eq(name, "task_delete") {
        Ok(ToolKind::Delete)
    } else {
        let mut out: Vec<char> = Vec::new();
        push_str_chars(&mut out, "unknown tool: ");
        push_str_chars(&mut out, name);
        Err(ToolError::InvalidParams(string_of(out.as_slice())))
    }
}

// ---------------------------------------------------------------------------
// Laws of task names
// ---------------------------------------------------------------------------

/// Once a name is accepted, giving it again (for a rename, say) gives the
/// same name back.
pub proof fn lemma_task_name_stable(t: Option<Seq<char>>, p: Seq<char>, q: Seq<char>)
    requires
        task_name_spec(t, p) is Ok,
    ensures
        task_name_spec(Some(task_name_spec(t, p)->Ok_0), q) == task_name_spec(t, p),
{
    let raw = match t {
        Some(x) => x,
        None => task_name_from_prompt(p),
    };
    crate::text::lemma_normalize_space_idempotent(raw);
}

/// The name made from a prompt is always accepted: whatever the prompt, a
/// task started without a name gets a non-empty, single-line name of at
/// most 30 characters.
pub proof fn lemma_generated_name_accepted(p: Seq<char>)
    ensures
        task_name_spec(None, p) is Ok,
{
    let line = match first_nonblank_from(lines(p), 0) {
        Some(l) => l,
        None => p,
    };
    let n = normalize_space_spec(line);
    let g = task_name_from_prompt(p);
    crate::text::lemma_normalized_single_line(g);
    if n.len() == 0 {
        reveal_strlit("task");
        let w: Seq<Seq<char>> = seq!["task"@];
        assert(crate::text::is_word("task"@));
        assert forall|k: int| 0 <= k < w.len() implies crate::text::is_word(#[trigger] w[k]) by {
            assert(w[k] == "task"@);
        }
        assert("task"@.subrange(0, 4) =~= "task"@);
        crate::text::lemma_words_of_join("task"@, 0, w);
        assert(normalize_space_spec(g) == "task"@);
    } else if n.len() <= max_name_len() {
        crate::text::lemma_normalize_space_idempotent(line);
    } else {
        let ws = crate::text::words(line);
        crate::text::lemma_words_are_words(line, 0);
        assert(ws.len() > 0);
        assert(crate::text::is_word(ws[0]));
        if ws.len() == 1 {
            assert(n == ws[0]);
        } else {
            crate::text::lemma_join_first(ws, seq![' ']);
            assert(n[0] == ws[0][0]);
        }
        assert(!crate::text::is_ws(n[0]));
        let t = n.take(max_name_len() as int);
        assert(t[0] == n[0]);
        crate::text::lemma_normalize_space_first(t);
        crate::text::lemma_normalize_space_shorter(t, 0);
    }
}

// ---------------------------------------------------------------------------
// Laws of the task settings
// ---------------------------------------------------------------------------

/// A started task runs with the iteration limit and history limit it was
/// given, and with the project's configured defaults for those not given.
pub proof fn lemma_plan_uses_defaults(args: LoopArgs, scope: StorageScope, defaults: ConfigDefaults)
    ensures
        loop_plan_spec(args, scope, defaults) matches Ok(p) ==> {
            &&& (args.max_iterations is None ==> p.max_iterations == defaults.max_iterations)
            &&& (args.max_iterations matches Some(v) ==> p.max_iterations == v)
            &&& (args.history_limit is None ==> p.history_limit == defaults.history_limit)
            &&& (args.history_limit matches Some(v) ==> p.history_limit == v)
        },
{
}

/// The project's default limits decide neither whether a task starts nor
/// any part of its plan but the limits themselves.
pub proof fn lemma_plan_limits_do_not_decide(
    args: LoopArgs,
    scope: StorageScope,
    d1: ConfigDefaults,
    d2: ConfigDefaults,
)
    requires
        d1.completion_matcher@ == d2.completion_matcher@,
    ensures
        (loop_plan_spec(args, scope, d1) is Ok) == (loop_plan_spec(args, scope, d2) is Ok),
        loop_plan_spec(args, scope, d1) matches Ok(p1) ==> loop_plan_spec(args, scope, d2) matches Ok(p2) && p1.storage_mode
            == p2.storage_mode && p1.task_name == p2.task_name && p1.completion_promise == p2.completion_promise
            && p1.completion_matcher == p2.completion_matcher,
{
}

/// The storage argument names the storage it selects: any text that reads
/// "project" or "local" (trimmed, in any ASCII case) selects project storage,
/// any that reads "user" or "global" selects user storage, and the name of a
/// storage mode selects that mode.
pub proof fn lemma_storage_names(v: Seq<char>, mode: StorageMode)
    ensures
        lower_seq(trim(v)) == "project"@ || lower_seq(trim(v)) == "local"@ ==> storage_mode_spec(Some(v)) == Some(
            StorageMode::Project,
        ),
        lower_seq(trim(v)) == "user"@ || lower_seq(trim(v)) == "global"@ ==> storage_mode_spec(Some(v)) == Some(
            StorageMode::User,
        ),
        storage_mode_spec(Some(label_spec(mode))) == Some(mode),
{
    reveal_strlit("project");
    reveal_strlit("local");
    reveal_strlit("user");
    reveal_strlit("global");
    reveal_strlit("");
    assert("project"@[0] != "local"@[0] && "project"@.len() != "user"@.len() && "project"@.len() != "global"@.len());
    assert("local"@.len() != "user"@.len() && "local"@.len() != "global"@.len());
    assert("user"@.len() != "global"@.len());
    let l = label_spec(mode);
    assert(forall|i: int| 0 <= i < l.len() ==> 'a' <= #[trigger] l[i] && l[i] <= 'z');
    crate::text::lemma_trim_class_clean(l, CharClass::Whitespace);
    assert(lower_seq(l) =~= l);
}

} // verus!
