//! The stop hook's decisions: for a task's state file and the agent's last
//! message, whether to let the agent stop, to make it go on with the prompt,
//! or to look at the next task, and what to record on the way.
use vstd::prelude::*;
use crate::config::ConfigDefaults;
use crate::frontmatter::StateError;
use crate::matching::{extract_promise_text, promise_matches, promise_matches_spec, promise_text_spec};
use crate::numbers::{dec, push_dec};
use crate::state_data::{filter_extras, opt_view, pairs_view};
use crate::task_state::{
    collect_extras, parse_state, parse_state_spec, read_entries_spec, read_state, read_state_spec,
    write_state, write_state_spec, lookup, pairs_map, Frontmatter, TaskState, TaskStateSpec,
};
use crate::text::{
    blank_vec, chars_of, is_blank, push_all, push_str_chars, snippet, snippet_spec, string_of,
};

verus! {

// ---------------------------------------------------------------------------
// The status line shown to the agent
// ---------------------------------------------------------------------------

/// `a - b`, or 0 when `b` exceeds `a` (`u32::saturating_sub`).
pub open spec fn sat_sub(a: u32, b: u32) -> nat {
    if a >= b {
        (a - b) as nat
    } else {
        0
    }
}

/// The iteration part of the status line.
pub open spec fn iteration_part(st: TaskStateSpec) -> Seq<char> {
    if st.max_iterations > 0 {
        "iteration "@ + dec(st.iteration as nat) + "/"@ + dec(st.max_iterations as nat)
            + " (remaining "@ + dec(sat_sub(st.max_iterations, st.iteration)) + ")"@
    } else {
        "iteration "@ + dec(st.iteration as nat) + " (no max)"@
    }
}

/// The status line shown to the agent when the hook makes it go on.
pub open spec fn system_message_spec(st: TaskStateSpec) -> Seq<char> {
    match st.completion_promise {
        Some(p) => "Taskloop task '"@ + st.task_name + "' | "@ + iteration_part(st)
            + " | To stop: output <promise>"@ + p + "</promise> (matcher: "@ + match st.completion_matcher {
            Some(m) => m,
            None => "exact"@,
        } + "). Only when true."@,
        None => "Taskloop task '"@ + st.task_name + "' | "@ + iteration_part(st)
            + " | No completion promise set."@,
    }
}

fn push_iteration_part(out: &mut Vec<char>, state: &TaskState)
    ensures
        final(out)@ == old(out)@ + iteration_part(state@),
{
    let ghost start = out@;
    push_str_chars(out, "iteration ");
    push_dec(out, state.iteration as u64);
    if state.max_iterations > 0 {
        push_str_chars(out, "/");
        push_dec(out, state.max_iterations as u64);
        push_str_chars(out, " (remaining ");
        let remaining: u32 = if state.max_iterations >= state.iteration {
            state.max_iterations - state.iteration
        } else {
            0
        };
        push_dec(out, remaining as u64);
        push_str_chars(out, ")");
    } else {
        push_str_chars(out, " (no max)");
    }
    assert(out@ =~= start + iteration_part(state@));
}

/// The status line for a state: the task, its iteration (and the remaining
/// ones when there is a maximum), and how to stop.
pub fn build_system_message(state: &TaskState) -> (r: String)
    ensures
        r@ == system_message_spec(state@),
{
    let mut out: Vec<char> = Vec::new();
    push_str_chars(&mut out, "Taskloop task '");
    push_str_chars(&mut out, state.task_name.as_str());
    push_str_chars(&mut out, "' | ");
    push_iteration_part(&mut out, state);
    match &state.completion_promise {
        Some(p) => {
            push_str_chars(&mut out, " | To stop: output <promise>");
            push_str_chars(&mut out, p.as_str());
            push_str_chars(&mut out, "</promise> (matcher: ");
            match &state.completion_matcher {
                Some(m) => push_str_chars(&mut out, m.as_str()),
                None => push_str_chars(&mut out, "exact"),
            }
            push_str_chars(&mut out, "). Only when true.");
        },
        None => {
            push_str_chars(&mut out, " | No completion promise set.");
        },
    }
    assert(out@ =~= system_message_spec(state@));
    string_of(out.as_slice())
}

// ---------------------------------------------------------------------------
// Plans
// ---------------------------------------------------------------------------

/// What the hook found when it looked for a task's state file.
#[derive(Clone, Debug)]
pub enum StateFile {
    Absent,
    Unreadable,
    Contents(String),
}

pub enum StateFileSpec {
    Absent,
    Unreadable,
    Contents(Seq<char>),
}

impl View for StateFile {
    type V = StateFileSpec;

    open spec fn view(&self) -> StateFileSpec {
        match self {
            StateFile::Absent => StateFileSpec::Absent,
            StateFile::Unreadable => StateFileSpec::Unreadable,
            StateFile::Contents(s) => StateFileSpec::Contents(s@),
        }
    }
}

/// The history events the hook records.
#[derive(Clone, Copy, PartialEq, Eq, Structural, Debug)]
pub enum EventKind {
    InvalidState,
    Paused,
    MaxIterations,
    InvalidMatcher,
    PromiseMatched,
    EmptyPrompt,
    WriteFailed,
    Loop,
}

pub open spec fn event_name_spec(k: EventKind) -> Seq<char> {
    match k {
        EventKind::InvalidState => "invalid_state"@,
        EventKind::Paused => "paused"@,
        EventKind::MaxIterations => "max_iterations"@,
        EventKind::InvalidMatcher => "invalid_matcher"@,
        EventKind::PromiseMatched => "promise_matched"@,
        EventKind::EmptyPrompt => "empty_prompt"@,
        EventKind::WriteFailed => "write_failed"@,
        EventKind::Loop => "loop"@,
    }
}

/// The task status the index records after an event.
pub open spec fn event_status_spec(k: EventKind) -> Seq<char> {
    match k {
        EventKind::Paused => "paused"@,
        EventKind::MaxIterations | EventKind::PromiseMatched => "completed"@,
        EventKind::Loop => "in_progress"@,
        _ => "error"@,
    }
}

impl EventKind {
    /// The name the event is recorded under.
    pub fn name(&self) -> (r: &'static str)
        ensures
            r@ == event_name_spec(*self),
    {
        match self {
            EventKind::InvalidState => "invalid_state",
            EventKind::Paused => "paused",
            EventKind::MaxIterations => "max_iterations",
            EventKind::InvalidMatcher => "invalid_matcher",
            EventKind::PromiseMatched => "promise_matched",
            EventKind::EmptyPrompt => "empty_prompt",
            EventKind::WriteFailed => "write_failed",
            EventKind::Loop => "loop",
        }
    }

    /// The task status recorded after the event.
    pub fn status(&self) -> (r: &'static str)
        ensures
            r@ == event_status_spec(*self),
    {
        match self {
            EventKind::Paused => "paused",
            EventKind::MaxIterations | EventKind::PromiseMatched => "completed",
            EventKind::Loop => "in_progress",
            _ => "error",
        }
    }
}

/// A change to a task's entry in the index.
#[derive(Clone, Debug)]
pub struct MetaUpdate {
    pub status: Option<String>,
    pub last_event: Option<String>,
    pub iteration: Option<u32>,
    pub max_iterations: Option<u32>,
}

pub struct MetaUpdateSpec {
    pub status: Option<Seq<char>>,
    pub last_event: Option<Seq<char>>,
    pub iteration: Option<u32>,
    pub max_iterations: Option<u32>,
}

impl View for MetaUpdate {
    type V = MetaUpdateSpec;

    open spec fn view(&self) -> MetaUpdateSpec {
        MetaUpdateSpec {
            status: opt_view(self.status),
            last_event: opt_view(self.last_event),
            iteration: self.iteration,
            max_iterations: self.max_iterations,
        }
    }
}

/// A history entry to append; the caller adds the time, the task's
/// directory and the file paths.
#[derive(Clone, Debug)]
pub struct HistoryRecord {
    pub event: EventKind,
    pub block: bool,
    pub state: Option<TaskState>,
    pub prompt_preview: Option<String>,
    pub promise_text: Option<String>,
    pub last_message_excerpt: Option<String>,
    pub history_limit: u32,
}

pub struct HistorySpec {
    pub event: EventKind,
    pub block: bool,
    pub state: Option<TaskStateSpec>,
    pub prompt_preview: Option<Seq<char>>,
    pub promise_text: Option<Seq<char>>,
    pub last_message_excerpt: Option<Seq<char>>,
    pub history_limit: u32,
}

pub open spec fn opt_state_view(s: Option<TaskState>) -> Option<TaskStateSpec> {
    match s {
        Some(t) => Some(t@),
        None => None,
    }
}

impl View for HistoryRecord {
    type V = HistorySpec;

    open spec fn view(&self) -> HistorySpec {
        HistorySpec {
            event: self.event,
            block: self.block,
            state: opt_state_view(self.state),
            prompt_preview: opt_view(self.prompt_preview),
            promise_text: opt_view(self.promise_text),
            last_message_excerpt: opt_view(self.last_message_excerpt),
            history_limit: self.history_limit,
        }
    }
}

/// What the hook answers for a task.
#[derive(Clone, Debug)]
pub enum HookOutcome {
    /// No answer yet: the hook tries the following candidate.
    Next,
    /// Let the agent stop.
    Approve,
    /// Make the agent go on with the prompt.
    Block { reason: String, system_message: String },
}

pub enum OutcomeSpec {
    Next,
    Approve,
    Block { reason: Seq<char>, system_message: Seq<char> },
}

impl View for HookOutcome {
    type V = OutcomeSpec;

    open spec fn view(&self) -> OutcomeSpec {
        match self {
            HookOutcome::Next => OutcomeSpec::Next,
            HookOutcome::Approve => OutcomeSpec::Approve,
            HookOutcome::Block { reason, system_message } => OutcomeSpec::Block {
                reason: reason@,
                system_message: system_message@,
            },
        }
    }
}

/// What to do for a task: the answer and the changes to files on the way.
/// When `new_state_text` is set it is written to `state.md`; if that write
/// fails, `write_failed_plan` of `state` and `body` replaces this plan.
#[derive(Clone, Debug)]
pub struct HookPlan {
    pub remove_state: bool,
    pub new_state_text: Option<String>,
    pub history: Option<HistoryRecord>,
    pub meta: Option<MetaUpdate>,
    pub outcome: HookOutcome,
    pub state: Option<TaskState>,
    pub body: String,
}

pub struct PlanSpec {
    pub remove_state: bool,
    pub new_state_text: Option<Seq<char>>,
    pub history: Option<HistorySpec>,
    pub meta: Option<MetaUpdateSpec>,
    pub outcome: OutcomeSpec,
    pub state: Option<TaskStateSpec>,
    pub body: Seq<char>,
}

impl View for HookPlan {
    type V = PlanSpec;

    open spec fn view(&self) -> PlanSpec {
        PlanSpec {
            remove_state: self.remove_state,
            new_state_text: opt_view(self.new_state_text),
            history: match self.history {
                Some(h) => Some(h@),
                None => None,
            },
            meta: match self.meta {
                Some(m) => Some(m@),
                None => None,
            },
            outcome: self.outcome@,
            state: opt_state_view(self.state),
            body: self.body@,
        }
    }
}

/// The plan when there is no state file: nothing to do, look further.
pub open spec fn absent_plan_spec() -> PlanSpec {
    PlanSpec {
        remove_state: false,
        new_state_text: None,
        history: None,
        meta: None,
        outcome: OutcomeSpec::Next,
        state: None,
        body: Seq::empty(),
    }
}

/// The plan for a state file that cannot be read or holds no valid state:
/// delete it, record `invalid_state` (with an excerpt of the prompt when the
/// file could be read), mark the task as in error, and look further.
pub open spec fn invalid_plan_spec(history_limit: u32, preview: Option<Seq<char>>) -> PlanSpec {
    PlanSpec {
        remove_state: true,
        new_state_text: None,
        history: Some(
            HistorySpec {
                event: EventKind::InvalidState,
                block: false,
                state: None,
                prompt_preview: preview,
                promise_text: None,
                last_message_excerpt: None,
                history_limit,
            },
        ),
        meta: Some(
            MetaUpdateSpec {
                status: Some("error"@),
                last_event: Some("invalid_state"@),
                iteration: None,
                max_iterations: None,
            },
        ),
        outcome: OutcomeSpec::Next,
        state: None,
        body: Seq::empty(),
    }
}

/// Whether the history entry of an event carries an excerpt of the last message.
pub open spec fn has_excerpt(k: EventKind) -> bool {
    k == EventKind::InvalidMatcher || k == EventKind::PromiseMatched || k == EventKind::Loop
}

/// The plan for an event on a readable state: every event but `paused` and
/// `loop` deletes the state file; `paused` looks further, `loop` makes the
/// agent go on with the prompt, the others let it stop.
pub open spec fn event_plan_spec(
    k: EventKind,
    st: TaskStateSpec,
    body: Seq<char>,
    msg: Seq<char>,
    promise_text: Option<Seq<char>>,
    new_text: Option<Seq<char>>,
) -> PlanSpec {
    PlanSpec {
        remove_state: k != EventKind::Paused && k != EventKind::Loop,
        new_state_text: new_text,
        history: Some(
            HistorySpec {
                event: k,
                block: k == EventKind::Loop,
                state: Some(st),
                prompt_preview: Some(snippet_spec(body)),
                promise_text,
                last_message_excerpt: if has_excerpt(k) {
                    Some(snippet_spec(msg))
                } else {
                    None
                },
                history_limit: st.history_limit,
            },
        ),
        meta: Some(
            MetaUpdateSpec {
                status: Some(event_status_spec(k)),
                last_event: Some(event_name_spec(k)),
                iteration: Some(st.iteration),
                max_iterations: Some(st.max_iterations),
            },
        ),
        outcome: if k == EventKind::Paused {
            OutcomeSpec::Next
        } else if k == EventKind::Loop {
            OutcomeSpec::Block { reason: body, system_message: system_message_spec(st) }
        } else {
            OutcomeSpec::Approve
        },
        state: if k == EventKind::Loop {
            Some(st)
        } else {
            None
        },
        body,
    }
}

/// `n + 1`, staying at `u32::MAX` (`u32::saturating_add(1)`).
pub open spec fn sat_inc(n: u32) -> u32 {
    if n == u32::MAX {
        n
    } else {
        (n + 1) as u32
    }
}

/// The state written back after a loop: one more iteration, updated now, and
/// started now if the file had no start time.
pub open spec fn advanced_state(st: TaskStateSpec, m: Map<Seq<char>, Seq<char>>, now: Seq<char>) -> TaskStateSpec {
    TaskStateSpec {
        iteration: sat_inc(st.iteration),
        updated_at: now,
        started_at: if lookup(m, "started_at"@) is None {
            now
        } else {
            st.started_at
        },
        ..st
    }
}

/// The plan once the promise did not end the task: an empty prompt ends it in
/// error; otherwise the state advances and is written back, and the agent
/// goes on (or, if the state cannot be written, the task ends in error).
pub open spec fn continue_plan_spec(
    st: TaskStateSpec,
    entries: Seq<(Seq<char>, Seq<char>)>,
    body: Seq<char>,
    msg: Seq<char>,
    now: Seq<char>,
) -> PlanSpec {
    if is_blank(body) {
        event_plan_spec(EventKind::EmptyPrompt, st, body, msg, None, None)
    } else {
        let up = advanced_state(st, pairs_map(entries), now);
        match write_state_spec(up, filter_extras(entries), body) {
            Err(_) => event_plan_spec(EventKind::WriteFailed, up, body, msg, None, None),
            Ok(text) => event_plan_spec(EventKind::Loop, up, body, msg, None, Some(text)),
        }
    }
}

/// The plan for a readable, valid state.
pub open spec fn state_plan_spec(
    st: TaskStateSpec,
    entries: Seq<(Seq<char>, Seq<char>)>,
    body: Seq<char>,
    msg: Seq<char>,
    now: Seq<char>,
) -> PlanSpec {
    if !st.active {
        event_plan_spec(EventKind::Paused, st, body, msg, None, None)
    } else if st.max_iterations > 0 && st.iteration >= st.max_iterations {
        event_plan_spec(EventKind::MaxIterations, st, body, msg, None, None)
    } else {
        match st.completion_promise {
            Some(p) => match promise_text_spec(msg) {
                Some(pt) => {
                    let matcher = match st.completion_matcher {
                        Some(m) => m,
                        None => "exact"@,
                    };
                    match promise_matches_spec(pt, p, matcher) {
                        None => event_plan_spec(EventKind::InvalidMatcher, st, body, msg, None, None),
                        Some(true) => event_plan_spec(EventKind::PromiseMatched, st, body, msg, Some(pt), None),
                        Some(false) => continue_plan_spec(st, entries, body, msg, now),
                    }
                },
                None => continue_plan_spec(st, entries, body, msg, now),
            },
            None => continue_plan_spec(st, entries, body, msg, now),
        }
    }
}

/// The hook's plan for one task, given what its state file holds, the task
/// name and project path the index gives, the defaults, the agent's last
/// message and the current time.
pub open spec fn hook_plan_spec(
    file: StateFileSpec,
    task_name: Seq<char>,
    project_path: Seq<char>,
    defaults: ConfigDefaults,
    msg: Seq<char>,
    now: Seq<char>,
) -> PlanSpec {
    match file {
        StateFileSpec::Absent => absent_plan_spec(),
        StateFileSpec::Unreadable => invalid_plan_spec(defaults.history_limit, None),
        StateFileSpec::Contents(text) => match read_entries_spec(text) {
            Err(_) => invalid_plan_spec(defaults.history_limit, None),
            Ok((entries, body)) => match parse_state_spec(pairs_map(entries), task_name, project_path, defaults, now) {
                Err(_) => invalid_plan_spec(defaults.history_limit, Some(snippet_spec(body))),
                Ok(st) => state_plan_spec(st, entries, body, msg, now),
            },
        },
    }
}

fn invalid_plan(history_limit: u32, preview: Option<String>) -> (r: HookPlan)
    ensures
        r@ == invalid_plan_spec(history_limit, crate::state_data::opt_view(preview)),
{
    HookPlan {
        remove_state: true,
        new_state_text: None,
        history: Some(
            HistoryRecord {
                event: EventKind::InvalidState,
                block: false,
                state: None,
                prompt_preview: preview,
                promise_text: None,
                last_message_excerpt: None,
                history_limit,
            },
        ),
        meta: Some(
            MetaUpdate {
                status: Some("error".to_owned()),
                last_event: Some("invalid_state".to_owned()),
                iteration: None,
                max_iterations: None,
            },
        ),
        outcome: HookOutcome::Approve.next_outcome(),
        state: None,
        body: String::new(),
    }
}

impl HookOutcome {
    fn next_outcome(&self) -> (r: HookOutcome)
        ensures
            r@ == OutcomeSpec::Next,
    {
        HookOutcome::Next
    }
}

fn event_plan(
    k: EventKind,
    state: TaskState,
    body: &str,
    msg: &str,
    promise_text: Option<String>,
    new_text: Option<String>,
) -> (r: HookPlan)
    ensures
        r@ == event_plan_spec(k, state@, body@, msg@, opt_view(promise_text), opt_view(new_text)),
{
    let excerpt = if k == EventKind::InvalidMatcher || k == EventKind::PromiseMatched || k
        == EventKind::Loop {
        Some(snippet(msg))
    } else {
        None
    };
    let outcome = if k == EventKind::Paused {
        HookOutcome::Next
    } else if k == EventKind::Loop {
        HookOutcome::Block { reason: body.to_owned(), system_message: build_system_message(&state) }
    } else {
        HookOutcome::Approve
    };
    let meta = MetaUpdate {
        status: Some(k.status().to_owned()),
        last_event: Some(k.name().to_owned()),
        iteration: Some(state.iteration),
        max_iterations: Some(state.max_iterations),
    };
    let history_limit = state.history_limit;
    let kept = if k == EventKind::Loop {
        Some(state.clone_state())
    } else {
        None
    };
    HookPlan {
        remove_state: k != EventKind::Paused && k != EventKind::Loop,
        new_state_text: new_text,
        history: Some(
            HistoryRecord {
                event: k,
                block: k == EventKind::Loop,
                state: Some(state),
                prompt_preview: Some(snippet(body)),
                promise_text,
                last_message_excerpt: excerpt,
                history_limit,
            },
        ),
        meta: Some(meta),
        outcome,
        state: kept,
        body: body.to_owned(),
    }
}

impl TaskState {
    /// A copy of the state.
    pub fn clone_state(&self) -> (r: TaskState)
        ensures
            r@ == self@,
    {
        TaskState {
            schema_version: self.schema_version,
            task_name: self.task_name.clone(),
            project_path: self.project_path.clone(),
            active: self.active,
            iteration: self.iteration,
            max_iterations: self.max_iterations,
            completion_promise: match &self.completion_promise {
                Some(p) => Some(p.clone()),
                None => None,
            },
            completion_matcher: match &self.completion_matcher {
                Some(m) => Some(m.clone()),
                None => None,
            },
            history_limit: self.history_limit,
            started_at: self.started_at.clone(),
            updated_at: self.updated_at.clone(),
        }
    }
}

/// The plan when writing the advanced state failed: delete the state file,
/// record `write_failed`, mark the task as in error, and let the agent stop.
pub fn write_failed_plan(state: &TaskState, body: &str, last_message: &str) -> (r: HookPlan)
    ensures
        r@ == event_plan_spec(EventKind::WriteFailed, state@, body@, last_message@, None, None),
{
    event_plan(EventKind::WriteFailed, state.clone_state(), body, last_message, None, None)
}

fn continue_plan(
    state: TaskState,
    frontmatter: &Frontmatter,
    body: &str,
    msg: &str,
    now: &str,
) -> (r: HookPlan)
    requires
        frontmatter.wf(),
    ensures
        r@ == continue_plan_spec(state@, pairs_view(frontmatter.entries@), body@, msg@, now@),
{
    let b = chars_of(body);
    if blank_vec(b.as_slice()) {
        return event_plan(EventKind::EmptyPrompt, state, body, msg, None, None);
    }
    let ghost st = state@;
    let has_started = frontmatter.get("started_at").is_some();
    let mut up = state;
    up.iteration = if up.iteration == u32::MAX {
        up.iteration
    } else {
        up.iteration + 1
    };
    up.updated_at = now.to_owned();
    if !has_started {
        up.started_at = now.to_owned();
    }
    assert(up@ == advanced_state(st, frontmatter.map(), now@));
    let extras = collect_extras(frontmatter);
    match write_state(&up, &extras, body) {
        Err(_) => event_plan(EventKind::WriteFailed, up, body, msg, None, None),
        Ok(text) => event_plan(EventKind::Loop, up, body, msg, None, Some(text)),
    }
}

/// Decides what the hook does for one task. The caller reads the state file
/// (under the task's lock), carries out the plan, and records the history
/// entry and the index change it names.
pub fn decide_task(
    file: &StateFile,
    task_name: &str,
    project_path: &str,
    defaults: &ConfigDefaults,
    last_message: &str,
    now: &str,
) -> (r: HookPlan)
    ensures
        r@ == hook_plan_spec(file@, task_name@, project_path@, *defaults, last_message@, now@),
{
    let text = match file {
        StateFile::Absent => {
            return HookPlan {
                remove_state: false,
                new_state_text: None,
                history: None,
                meta: None,
                outcome: HookOutcome::Next,
                state: None,
                body: String::new(),
            };
        },
        StateFile::Unreadable => {
            return invalid_plan(defaults.history_limit, None);
        },
        StateFile::Contents(t) => t,
    };
    let (frontmatter, body) = match read_state(text.as_str()) {
        Ok(parts) => parts,
        Err(_) => {
            return invalid_plan(defaults.history_limit, None);
        },
    };
    let state = match parse_state(&frontmatter, task_name, project_path, defaults, now) {
        Ok(s) => s,
        Err(_) => {
            return invalid_plan(defaults.history_limit, Some(snippet(body.as_str())));
        },
    };
    let ghost st = state@;
    if !state.active {
        return event_plan(EventKind::Paused, state, body.as_str(), last_message, None, None);
    }
    if state.max_iterations > 0 && state.iteration >= state.max_iterations {
        return event_plan(EventKind::MaxIterations, state, body.as_str(), last_message, None, None);
    }
    let promise: Option<String> = match &state.completion_promise {
        Some(p) => Some(p.clone()),
        None => None,
    };
    if let Some(p) = promise {
        if let Some(pt) = extract_promise_text(last_message) {
            let matcher = match &state.completion_matcher {
                Some(m) => m.clone(),
                None => "exact".to_owned(),
            };
            match promise_matches(pt.as_str(), p.as_str(), matcher.as_str()) {
                None => {
                    return event_plan(
                        EventKind::InvalidMatcher,
                        state,
                        body.as_str(),
                        last_message,
                        None,
                        None,
                    );
                },
                Some(true) => {
                    return event_plan(
                        EventKind::PromiseMatched,
                        state,
                        body.as_str(),
                        last_message,
                        Some(pt),
                        None,
                    );
                },
                Some(false) => {},
            }
        }
    }
    continue_plan(state, &frontmatter, body.as_str(), last_message, now)
}

// ---------------------------------------------------------------------------
// Laws of the hook's decisions
// ---------------------------------------------------------------------------

/// The valid state a state file holds, with its front matter and body, if any.
pub open spec fn valid_state_of(
    file: StateFileSpec,
    task_name: Seq<char>,
    project_path: Seq<char>,
    defaults: ConfigDefaults,
    now: Seq<char>,
) -> Option<(TaskStateSpec, Seq<(Seq<char>, Seq<char>)>, Seq<char>)> {
    match file {
        StateFileSpec::Contents(text) => match read_entries_spec(text) {
            Ok((entries, body)) => match parse_state_spec(pairs_map(entries), task_name, project_path, defaults, now) {
                Ok(st) => Some((st, entries, body)),
                Err(_) => None,
            },
            Err(_) => None,
        },
        _ => None,
    }
}

/// The hook makes the agent go on only for an active task below its
/// iteration limit whose prompt is not blank: the answer carries the prompt,
/// the state file is kept and rewritten one iteration further, and a `loop`
/// is recorded.
pub proof fn lemma_block_only_for_live_tasks(
    file: StateFileSpec,
    task_name: Seq<char>,
    project_path: Seq<char>,
    defaults: ConfigDefaults,
    msg: Seq<char>,
    now: Seq<char>,
)
    ensures
        ({
            let plan = hook_plan_spec(file, task_name, project_path, defaults, msg, now);
            plan.outcome is Block ==> {
                &&& valid_state_of(file, task_name, project_path, defaults, now) matches Some((st, entries, body))
                &&& st.active
                &&& !(st.max_iterations > 0 && st.iteration >= st.max_iterations)
                &&& !is_blank(body)
                &&& plan.outcome == (OutcomeSpec::Block {
                    reason: body,
                    system_message: system_message_spec(advanced_state(st, pairs_map(entries), now)),
                })
                &&& !plan.remove_state
                &&& plan.new_state_text is Some
                &&& plan.state == Some(advanced_state(st, pairs_map(entries), now))
                &&& plan.history matches Some(h) && h.event == EventKind::Loop && h.block
            }
        }),
{
}

/// Whenever the hook lets the agent stop, it deletes the task's state file
/// and writes no new one, so the task does not run again.
pub proof fn lemma_approve_ends_task(
    file: StateFileSpec,
    task_name: Seq<char>,
    project_path: Seq<char>,
    defaults: ConfigDefaults,
    msg: Seq<char>,
    now: Seq<char>,
)
    ensures
        ({
            let plan = hook_plan_spec(file, task_name, project_path, defaults, msg, now);
            plan.outcome is Approve ==> plan.remove_state && plan.new_state_text is None
        }),
{
}

/// A paused task is passed over: its state file stays as it is and the hook
/// looks at the next candidate, recording `paused`.
pub proof fn lemma_paused_task_passed_over(
    file: StateFileSpec,
    task_name: Seq<char>,
    project_path: Seq<char>,
    defaults: ConfigDefaults,
    msg: Seq<char>,
    now: Seq<char>,
)
    requires
        valid_state_of(file, task_name, project_path, defaults, now) matches Some((st, _, _)) && !st.active,
    ensures
        ({
            let plan = hook_plan_spec(file, task_name, project_path, defaults, msg, now);
            &&& plan.outcome is Next
            &&& !plan.remove_state
            &&& plan.new_state_text is None
            &&& plan.history matches Some(h) && h.event == EventKind::Paused
            &&& plan.meta matches Some(m) && m.status == Some("paused"@)
        }),
{
}

/// An active task that has reached its iteration limit ends: the agent may
/// stop, the state file goes, and the task is recorded as completed.
pub proof fn lemma_limit_ends_task(
    file: StateFileSpec,
    task_name: Seq<char>,
    project_path: Seq<char>,
    defaults: ConfigDefaults,
    msg: Seq<char>,
    now: Seq<char>,
)
    requires
        valid_state_of(file, task_name, project_path, defaults, now) matches Some((st, _, _)) && st.active
            && st.max_iterations > 0 && st.iteration >= st.max_iterations,
    ensures
        ({
            let plan = hook_plan_spec(file, task_name, project_path, defaults, msg, now);
            &&& plan.outcome is Approve
            &&& plan.remove_state
            &&& plan.history matches Some(h) && h.event == EventKind::MaxIterations
            &&& plan.meta matches Some(m) && m.status == Some("completed"@)
        }),
{
}

/// A state file that is there but cannot be read or does not hold a valid
/// state is deleted, `invalid_state` is recorded, and the hook looks at the
/// next candidate.
pub proof fn lemma_malformed_state_removed(
    file: StateFileSpec,
    task_name: Seq<char>,
    project_path: Seq<char>,
    defaults: ConfigDefaults,
    msg: Seq<char>,
    now: Seq<char>,
)
    requires
        !(file is Absent),
        valid_state_of(file, task_name, project_path, defaults, now) is None,
    ensures
        ({
            let plan = hook_plan_spec(file, task_name, project_path, defaults, msg, now);
            &&& plan.outcome is Next
            &&& plan.remove_state
            &&& plan.new_state_text is None
            &&& plan.history matches Some(h) && h.event == EventKind::InvalidState
        }),
{
}

} // verus!
