//! The task state file (`state.md`) as the MCP server writes and reads it:
//! front matter with the task's settings and counters, then the prompt.
use vstd::prelude::*;
use crate::config::{matcher_name_spec, normalize_matcher_name};
use crate::frontmatter::{
    dashes, escape_chars, escape_yaml_spec, front_matter_split, join_lines, join_lines_exec, known_key,
    known_key_chars, kv, kv_line, kv_quoted_line, line_entry, quoted, read_line_entry,
    split_front_matter, StateError,
};
use crate::frontmatter::{
    entry_key, lemma_find_seq_at, escape_seq, lemma_escape_plain, lemma_kv_entry, lemma_known_keys_plain, lemma_kv_line_ok, lemma_plain_key, plain_key,
};
use crate::numbers::{
    dec, is_digit, lemma_dec_digits, lemma_parse_dec, parse_u32_chars, parse_unsigned, push_dec,
};
use crate::text::{
    blank_vec, chars_eq_str, chars_of, contains_char, find_char_from, is_prefix, join,
    lemma_find_char_at,
    lemma_join_concat, lemma_lines_of_join, edge_clean, is_blank, lemma_no_triple_concat3,
    lemma_read_bare, line_ok, lines, lines_vec, lower_seq, lower_vec, no_triple_dash, string_of,
    trim_class, trim_end_class, trim_end_vec, trim_start_class, trim_start_vec, triple_dash_at,
    vviews, CharClass,
};

verus! {

/// The schema version this library writes.
pub const SCHEMA_VERSION: u32 = 1;

/// A task's state as the MCP server keeps it in `state.md`.
#[derive(Clone, Debug)]
pub struct StateData {
    pub schema_version: u32,
    pub task_name: String,
    pub project_path: Option<String>,
    pub active: bool,
    pub iteration: u32,
    pub max_iterations: u32,
    pub completion_promise: Option<String>,
    pub completion_matcher: Option<String>,
    pub history_limit: Option<u32>,
    pub started_at: Option<String>,
    pub updated_at: Option<String>,
    pub prompt: String,
    pub extras: Vec<(String, String)>,
}

/// The value of a `StateData`, with text as character sequences.
pub struct StateSpec {
    pub schema_version: u32,
    pub task_name: Seq<char>,
    pub project_path: Option<Seq<char>>,
    pub active: bool,
    pub iteration: u32,
    pub max_iterations: u32,
    pub completion_promise: Option<Seq<char>>,
    pub completion_matcher: Option<Seq<char>>,
    pub history_limit: Option<u32>,
    pub started_at: Option<Seq<char>>,
    pub updated_at: Option<Seq<char>>,
    pub prompt: Seq<char>,
    pub extras: Seq<(Seq<char>, Seq<char>)>,
}

pub open spec fn opt_view(o: Option<String>) -> Option<Seq<char>> {
    match o {
        Some(s) => Some(s@),
        None => None,
    }
}

pub open spec fn pairs_view(v: Seq<(String, String)>) -> Seq<(Seq<char>, Seq<char>)> {
    v.map_values(|p: (String, String)| (p.0@, p.1@))
}

impl View for StateData {
    type V = StateSpec;

    open spec fn view(&self) -> StateSpec {
        StateSpec {
            schema_version: self.schema_version,
            task_name: self.task_name@,
            project_path: opt_view(self.project_path),
            active: self.active,
            iteration: self.iteration,
            max_iterations: self.max_iterations,
            completion_promise: opt_view(self.completion_promise),
            completion_matcher: opt_view(self.completion_matcher),
            history_limit: self.history_limit,
            started_at: opt_view(self.started_at),
            updated_at: opt_view(self.updated_at),
            prompt: self.prompt@,
            extras: pairs_view(self.extras@),
        }
    }
}

pub open spec fn bool_text(b: bool) -> Seq<char> {
    if b {
        "true"@
    } else {
        "false"@
    }
}

/// The `completion_promise` line; `None` when the promise holds a line break.
pub open spec fn completion_line_spec(p: Option<Seq<char>>) -> Option<Seq<char>> {
    match p {
        Some(v) => if !is_blank(v) {
            match escape_yaml_spec(v) {
                Some(e) => Some(kv("completion_promise"@, quoted(e))),
                None => None,
            }
        } else {
            Some(kv("completion_promise"@, "null"@))
        },
        None => Some(kv("completion_promise"@, "null"@)),
    }
}

/// The `completion_matcher` line if any; `None` when the matcher holds a line break.
pub open spec fn matcher_line_spec(m: Option<Seq<char>>) -> Option<Option<Seq<char>>> {
    match m {
        Some(v) => match escape_yaml_spec(v) {
            Some(e) => Some(Some(kv("completion_matcher"@, quoted(e)))),
            None => None,
        },
        None => Some(None),
    }
}

/// The lines of the extra keys, in order, leaving out keys the format defines.
pub open spec fn extra_lines(extras: Seq<(Seq<char>, Seq<char>)>) -> Seq<Seq<char>>
    decreases extras.len(),
{
    if extras.len() == 0 {
        Seq::empty()
    } else {
        let last = extras.last();
        extra_lines(extras.drop_last()) + if known_key(last.0) {
            Seq::empty()
        } else {
            seq![kv(last.0, last.1)]
        }
    }
}

/// The front matter lines, without the delimiters.
pub open spec fn field_lines(d: StateSpec, now: Seq<char>, cl: Seq<char>, ml: Option<Seq<char>>) -> Seq<Seq<char>> {
    let a = seq![kv("schema_version"@, dec(d.schema_version as nat)), kv("task_name"@, d.task_name)];
    let b = match d.project_path {
        Some(p) => a.push(kv("project_path"@, p)),
        None => a,
    };
    let c = b.push(kv("active"@, bool_text(d.active))).push(
        kv("iteration"@, dec(d.iteration as nat)),
    ).push(kv("max_iterations"@, dec(d.max_iterations as nat))).push(cl);
    let e = match ml {
        Some(l) => c.push(l),
        None => c,
    };
    let f = match d.history_limit {
        Some(h) => e.push(kv("history_limit"@, dec(h as nat))),
        None => e,
    };
    let started = match d.started_at {
        Some(s) => s,
        None => now,
    };
    let updated = match d.updated_at {
        Some(s) => s,
        None => now,
    };
    f.push(kv("started_at"@, quoted(started))).push(kv("updated_at"@, quoted(updated))) + extra_lines(
        d.extras,
    )
}

/// The lines of `state.md` for a state; `now` stands in for missing timestamps.
pub open spec fn state_lines_spec(d: StateSpec, now: Seq<char>) -> Result<Seq<Seq<char>>, StateError> {
    match completion_line_spec(d.completion_promise) {
        None => Err(StateError::MultilineValue),
        Some(cl) => match matcher_line_spec(d.completion_matcher) {
            None => Err(StateError::MultilineValue),
            Some(ml) => Ok(
                seq![dashes()] + field_lines(d, now, cl, ml) + seq![
                    dashes(),
                    Seq::empty(),
                    trim_end_class(d.prompt, CharClass::Whitespace),
                    Seq::empty(),
                ],
            ),
        },
    }
}

/// The text of `state.md` for a state.
pub open spec fn render_state_spec(d: StateSpec, now: Seq<char>) -> Result<Seq<char>, StateError> {
    match state_lines_spec(d, now) {
        Ok(ls) => Ok(join_lines(ls)),
        Err(e) => Err(e),
    }
}

fn push_line(ls: &mut Vec<Vec<char>>, l: Vec<char>)
    ensures
        vviews(final(ls)@) == vviews(old(ls)@).push(l@),
{
    ls.push(l);
    assert(vviews(final(ls)@) =~= vviews(old(ls)@).push(l@));
}

fn dec_line(key: &str, n: u32) -> (r: Vec<char>)
    ensures
        r@ == kv(key@, dec(n as nat)),
{
    let mut d: Vec<char> = Vec::new();
    push_dec(&mut d, n as u64);
    assert(d@ =~= dec(n as nat));
    kv_line(key, d.as_slice())
}

fn extra_lines_exec(extras: &Vec<(String, String)>) -> (r: Vec<Vec<char>>)
    ensures
        vviews(r@) == extra_lines(pairs_view(extras@)),
{
    let mut ls: Vec<Vec<char>> = Vec::new();
    let mut i: usize = 0;
    while i < extras.len()
        invariant
            i <= extras@.len(),
            vviews(ls@) == extra_lines(pairs_view(extras@).take(i as int)),
        decreases extras@.len() - i,
    {
        let key = chars_of(extras[i].0.as_str());
        proof {
            assert(pairs_view(extras@).take(i + 1).drop_last() =~= pairs_view(extras@).take(
                i as int,
            ));
            assert(pairs_view(extras@).take(i + 1).last() == (
                extras@[i as int].0@,
                extras@[i as int].1@,
            ));
        }
        if !known_key_chars(key.as_slice()) {
            let value = chars_of(extras[i].1.as_str());
            push_line(&mut ls, kv_line(extras[i].0.as_str(), value.as_slice()));
            assert(vviews(ls@) =~= extra_lines(pairs_view(extras@).take(i + 1)));
        } else {
            assert(vviews(ls@) =~= extra_lines(pairs_view(extras@).take(i + 1)));
        }
        i = i + 1;
    }
    proof {
        assert(pairs_view(extras@).take(extras@.len() as int) =~= pairs_view(extras@));
    }
    ls
}

fn field_lines_exec(
    data: &StateData,
    now: &str,
    completion_line: Vec<char>,
    matcher_line: Option<Vec<char>>,
    Ghost(ml): Ghost<Option<Seq<char>>>,
) -> (r: Vec<Vec<char>>)
    requires
        ml == match matcher_line {
            Some(l) => Some(l@),
            None => None::<Seq<char>>,
        },
    ensures
        vviews(r@) == field_lines(data@, now@, completion_line@, ml),
{
    let ghost d = data@;
    let mut ls: Vec<Vec<char>> = Vec::new();
    push_line(&mut ls, dec_line("schema_version", data.schema_version));
    let name = chars_of(data.task_name.as_str());
    push_line(&mut ls, kv_line("task_name", name.as_slice()));
    if let Some(p) = &data.project_path {
        let pv = chars_of(p.as_str());
        push_line(&mut ls, kv_line("project_path", pv.as_slice()));
    }
    let active_text = if data.active {
        chars_of("true")
    } else {
        chars_of("false")
    };
    push_line(&mut ls, kv_line("active", active_text.as_slice()));
    push_line(&mut ls, dec_line("iteration", data.iteration));
    push_line(&mut ls, dec_line("max_iterations", data.max_iterations));
    push_line(&mut ls, completion_line);
    if let Some(l) = matcher_line {
        push_line(&mut ls, l);
    }
    if let Some(h) = data.history_limit {
        push_line(&mut ls, dec_line("history_limit", h));
    }
    let started = match &data.started_at {
        Some(s) => chars_of(s.as_str()),
        None => chars_of(now),
    };
    push_line(&mut ls, kv_quoted_line("started_at", started.as_slice()));
    let updated = match &data.updated_at {
        Some(s) => chars_of(s.as_str()),
        None => chars_of(now),
    };
    push_line(&mut ls, kv_quoted_line("updated_at", updated.as_slice()));
    let ghost before_extras = vviews(ls@);
    let ex = extra_lines_exec(&data.extras);
    let mut i: usize = 0;
    while i < ex.len()
        invariant
            i <= ex@.len(),
            vviews(ls@) == before_extras + vviews(ex@).take(i as int),
        decreases ex@.len() - i,
    {
        push_line(&mut ls, ex[i].clone());
        proof {
            assert(vviews(ex@).take(i + 1) =~= vviews(ex@).take(i as int).push(ex@[i as int]@));
            assert(vviews(ls@) =~= before_extras + vviews(ex@).take(i + 1));
        }
        i = i + 1;
    }
    proof {
        assert(vviews(ex@).take(ex@.len() as int) =~= vviews(ex@));
        assert(vviews(ls@) =~= field_lines(d, now@, completion_line@, ml));
    }
    ls
}

/// The text of `state.md` for a state: front matter, a blank line, the prompt
/// with trailing whitespace removed, and a final newline. `now` is used for a
/// missing `started_at` or `updated_at`. Fails when the completion promise or
/// matcher holds a line break.
pub fn render_state_data(data: &StateData, now: &str) -> (r: Result<String, StateError>)
    ensures
        match r {
            Ok(s) => render_state_spec(data@, now@) == Ok::<Seq<char>, StateError>(s@),
            Err(e) => render_state_spec(data@, now@) == Err::<Seq<char>, StateError>(e),
        },
{
    let ghost d = data@;
    // completion_promise line
    let completion_line: Vec<char> = match &data.completion_promise {
        Some(value) => {
            let v = chars_of(value.as_str());
            if !blank_vec(v.as_slice()) {
                match escape_chars(v.as_slice()) {
                    Some(e) => kv_quoted_line("completion_promise", e.as_slice()),
                    None => {
                        return Err(StateError::MultilineValue);
                    },
                }
            } else {
                let null = chars_of("null");
                kv_line("completion_promise", null.as_slice())
            }
        },
        None => {
            let null = chars_of("null");
            kv_line("completion_promise", null.as_slice())
        },
    };
    assert(completion_line_spec(d.completion_promise) == Some(completion_line@));
    let matcher_line: Option<Vec<char>> = match &data.completion_matcher {
        Some(value) => {
            let v = chars_of(value.as_str());
            match escape_chars(v.as_slice()) {
                Some(e) => Some(kv_quoted_line("completion_matcher", e.as_slice())),
                None => {
                    return Err(StateError::MultilineValue);
                },
            }
        },
        None => None,
    };
    let ghost ml: Option<Seq<char>> = match &matcher_line {
        Some(l) => Some(l@),
        None => None,
    };
    assert(matcher_line_spec(d.completion_matcher) == Some(ml));

    let fl = field_lines_exec(data, now, completion_line, matcher_line, Ghost(ml));
    let mut ls: Vec<Vec<char>> = Vec::new();
    push_line(&mut ls, vec!['-', '-', '-']);
    let mut j: usize = 0;
    while j < fl.len()
        invariant
            j <= fl@.len(),
            vviews(ls@) == seq![dashes()] + vviews(fl@).take(j as int),
        decreases fl@.len() - j,
    {
        push_line(&mut ls, fl[j].clone());
        proof {
            assert(vviews(fl@).take(j + 1) =~= vviews(fl@).take(j as int).push(fl@[j as int]@));
            assert(vviews(ls@) =~= seq![dashes()] + vviews(fl@).take(j + 1));
        }
        j = j + 1;
    }
    proof {
        assert(vviews(fl@).take(fl@.len() as int) =~= vviews(fl@));
    }
    push_line(&mut ls, vec!['-', '-', '-']);
    push_line(&mut ls, Vec::new());
    let pr = chars_of(data.prompt.as_str());
    push_line(&mut ls, trim_end_vec(pr.as_slice(), CharClass::Whitespace));
    push_line(&mut ls, Vec::new());
    proof {
        assert(vviews(ls@) =~= seq![dashes()] + field_lines(d, now@, completion_line@, ml) + seq![
            dashes(),
            Seq::empty(),
            trim_end_class(d.prompt, CharClass::Whitespace),
            Seq::empty(),
        ]);
    }
    let text = join_lines_exec(&ls);
    Ok(string_of(text.as_slice()))
}

// ---------------------------------------------------------------------------
// Reading
// ---------------------------------------------------------------------------

/// The fields read so far from the front matter.
pub struct FieldsSpec {
    pub schema_version: u32,
    pub task_name: Seq<char>,
    pub project_path: Option<Seq<char>>,
    pub active: bool,
    pub iteration: Option<u32>,
    pub max_iterations: Option<u32>,
    pub completion_promise: Option<Seq<char>>,
    pub completion_matcher: Option<Seq<char>>,
    pub history_limit: Option<u32>,
    pub started_at: Option<Seq<char>>,
    pub updated_at: Option<Seq<char>>,
    pub extras: Seq<(Seq<char>, Seq<char>)>,
}

/// What is known before any line is read.
pub open spec fn initial_fields() -> FieldsSpec {
    FieldsSpec {
        schema_version: 1,
        task_name: Seq::empty(),
        project_path: None,
        active: true,
        iteration: None,
        max_iterations: None,
        completion_promise: None,
        completion_matcher: None,
        history_limit: None,
        started_at: None,
        updated_at: None,
        extras: Seq::empty(),
    }
}

/// Whether a value reads as true ("true", "1" or "yes", ignoring ASCII case).
pub open spec fn truthy(value: Seq<char>) -> bool {
    let l = lower_seq(value);
    l == "true"@ || l == "1"@ || l == "yes"@
}

/// The effect of one front matter line on the fields read so far.
pub open spec fn apply_line(acc: FieldsSpec, line: Seq<char>) -> Result<FieldsSpec, StateError> {
    match line_entry(line) {
        None => Ok(acc),
        Some((key, value)) => if key == "schema_version"@ {
            match parse_unsigned(value, u32::MAX as nat) {
                Some(n) => Ok(FieldsSpec { schema_version: n as u32, ..acc }),
                None => Ok(acc),
            }
        } else if key == "task_name"@ {
            Ok(FieldsSpec { task_name: value, ..acc })
        } else if key == "project_path"@ {
            if value.len() > 0 {
                Ok(FieldsSpec { project_path: Some(value), ..acc })
            } else {
                Ok(acc)
            }
        } else if key == "active"@ {
            Ok(FieldsSpec { active: truthy(value), ..acc })
        } else if key == "iteration"@ {
            match parse_unsigned(value, u32::MAX as nat) {
                Some(n) => Ok(FieldsSpec { iteration: Some(n as u32), ..acc }),
                None => Err(StateError::InvalidIteration),
            }
        } else if key == "max_iterations"@ {
            match parse_unsigned(value, u32::MAX as nat) {
                Some(n) => Ok(FieldsSpec { max_iterations: Some(n as u32), ..acc }),
                None => Err(StateError::InvalidMaxIterations),
            }
        } else if key == "completion_promise"@ {
            if value.len() == 0 || lower_seq(value) == "null"@ {
                Ok(FieldsSpec { completion_promise: None, ..acc })
            } else {
                Ok(FieldsSpec { completion_promise: Some(value), ..acc })
            }
        } else if key == "completion_matcher"@ {
            if value.len() > 0 {
                Ok(FieldsSpec { completion_matcher: matcher_name_spec(value), ..acc })
            } else {
                Ok(acc)
            }
        } else if key == "history_limit"@ {
            match parse_unsigned(value, u32::MAX as nat) {
                Some(n) => Ok(FieldsSpec { history_limit: Some(n as u32), ..acc }),
                None => Ok(acc),
            }
        } else if key == "started_at"@ {
            if value.len() > 0 {
                Ok(FieldsSpec { started_at: Some(value), ..acc })
            } else {
                Ok(acc)
            }
        } else if key == "updated_at"@ {
            if value.len() > 0 {
                Ok(FieldsSpec { updated_at: Some(value), ..acc })
            } else {
                Ok(acc)
            }
        } else {
            Ok(FieldsSpec { extras: acc.extras.push((key, value)), ..acc })
        },
    }
}

/// The fields after reading the given lines in order; the first bad line stops it.
pub open spec fn apply_lines(acc: FieldsSpec, ls: Seq<Seq<char>>) -> Result<FieldsSpec, StateError>
    decreases ls.len(),
{
    if ls.len() == 0 {
        Ok(acc)
    } else {
        match apply_line(acc, ls[0]) {
            Ok(a) => apply_lines(a, ls.drop_first()),
            Err(e) => Err(e),
        }
    }
}

/// The state made of the fields read and the prompt.
pub open spec fn finish_fields(f: FieldsSpec, prompt: Seq<char>) -> StateSpec {
    StateSpec {
        schema_version: f.schema_version,
        task_name: f.task_name,
        project_path: f.project_path,
        active: f.active,
        iteration: match f.iteration {
            Some(n) => n,
            None => 0,
        },
        max_iterations: match f.max_iterations {
            Some(n) => n,
            None => 0,
        },
        completion_promise: f.completion_promise,
        completion_matcher: f.completion_matcher,
        history_limit: f.history_limit,
        started_at: f.started_at,
        updated_at: f.updated_at,
        prompt: prompt,
        extras: f.extras,
    }
}

/// The state a `state.md` text holds: the front matter read line by line, and
/// the prompt, which is the text after the closing `---` without its leading
/// newlines.
pub open spec fn parse_state_spec(text: Seq<char>) -> Result<StateSpec, StateError> {
    match front_matter_split(text) {
        Err(e) => Err(e),
        Ok((fm, rest)) => match apply_lines(initial_fields(), lines(fm)) {
            Err(e) => Err(e),
            Ok(f) => Ok(finish_fields(f, trim_start_class(rest, CharClass::Newline))),
        },
    }
}

/// The fields read so far, as the reader holds them.
struct Fields {
    schema_version: u32,
    task_name: String,
    project_path: Option<String>,
    active: bool,
    iteration: Option<u32>,
    max_iterations: Option<u32>,
    completion_promise: Option<String>,
    completion_matcher: Option<String>,
    history_limit: Option<u32>,
    started_at: Option<String>,
    updated_at: Option<String>,
    extras: Vec<(String, String)>,
}

impl View for Fields {
    type V = FieldsSpec;

    closed spec fn view(&self) -> FieldsSpec {
        FieldsSpec {
            schema_version: self.schema_version,
            task_name: self.task_name@,
            project_path: opt_view(self.project_path),
            active: self.active,
            iteration: self.iteration,
            max_iterations: self.max_iterations,
            completion_promise: opt_view(self.completion_promise),
            completion_matcher: opt_view(self.completion_matcher),
            history_limit: self.history_limit,
            started_at: opt_view(self.started_at),
            updated_at: opt_view(self.updated_at),
            extras: pairs_view(self.extras@),
        }
    }
}

fn apply_line_exec(acc: &mut Fields, line: &[char]) -> (r: Result<(), StateError>)
    ensures
        match r {
            Ok(()) => apply_line(old(acc)@, line@) == Ok::<FieldsSpec, StateError>(final(acc)@),
            Err(e) => apply_line(old(acc)@, line@) == Err::<FieldsSpec, StateError>(e),
        },
{
    let (key, value) = match read_line_entry(line) {
        Some(kvp) => kvp,
        None => {
            return Ok(());
        },
    };
    if chars_eq_str(key.as_slice(), "schema_version") {
        if let Some(n) = parse_u32_chars(value.as_slice()) {
            acc.schema_version = n;
        }
    } else if chars_eq_str(key.as_slice(), "task_name") {
        acc.task_name = string_of(value.as_slice());
    } else if chars_eq_str(key.as_slice(), "project_path") {
        if value.len() > 0 {
            acc.project_path = Some(string_of(value.as_slice()));
        }
    } else if chars_eq_str(key.as_slice(), "active") {
        let l = lower_vec(value.as_slice());
        acc.active = chars_eq_str(l.as_slice(), "true") || chars_eq_str(l.as_slice(), "1")
            || chars_eq_str(l.as_slice(), "yes");
    } else if chars_eq_str(key.as_slice(), "iteration") {
        match parse_u32_chars(value.as_slice()) {
            Some(n) => {
                acc.iteration = Some(n);
            },
            None => {
                return Err(StateError::InvalidIteration);
            },
        }
    } else if chars_eq_str(key.as_slice(), "max_iterations") {
        match parse_u32_chars(value.as_slice()) {
            Some(n) => {
                acc.max_iterations = Some(n);
            },
            None => {
                return Err(StateError::InvalidMaxIterations);
            },
        }
    } else if chars_eq_str(key.as_slice(), "completion_promise") {
        let l = lower_vec(value.as_slice());
        if value.len() == 0 || chars_eq_str(l.as_slice(), "null") {
            acc.completion_promise = None;
        } else {
            acc.completion_promise = Some(string_of(value.as_slice()));
        }
    } else if chars_eq_str(key.as_slice(), "completion_matcher") {
        if value.len() > 0 {
            acc.completion_matcher = normalize_matcher_name(string_of(value.as_slice()));
        }
    } else if chars_eq_str(key.as_slice(), "history_limit") {
        if let Some(n) = parse_u32_chars(value.as_slice()) {
            acc.history_limit = Some(n);
        }
    } else if chars_eq_str(key.as_slice(), "started_at") {
        if value.len() > 0 {
            acc.started_at = Some(string_of(value.as_slice()));
        }
    } else if chars_eq_str(key.as_slice(), "updated_at") {
        if value.len() > 0 {
            acc.updated_at = Some(string_of(value.as_slice()));
        }
    } else {
        let ghost before = acc.extras@;
        acc.extras.push((string_of(key.as_slice()), string_of(value.as_slice())));
        assert(pairs_view(acc.extras@) =~= pairs_view(before).push((key@, value@)));
    }
    Ok(())
}

/// Reads the text of `state.md`. Fails when the front matter is missing or
/// not closed, or when `iteration` or `max_iterations` is not a `u32`.
pub fn parse_state_data(text: &str) -> (r: Result<StateData, StateError>)
    ensures
        match r {
            Ok(d) => parse_state_spec(text@) == Ok::<StateSpec, StateError>(d@),
            Err(e) => parse_state_spec(text@) == Err::<StateSpec, StateError>(e),
        },
{
    let v = chars_of(text);
    let (fm, rest) = match split_front_matter(v.as_slice()) {
        Ok(parts) => parts,
        Err(e) => {
            return Err(e);
        },
    };
    let ls = lines_vec(fm.as_slice());
    let mut acc = Fields {
        schema_version: SCHEMA_VERSION,
        task_name: String::new(),
        project_path: None,
        active: true,
        iteration: None,
        max_iterations: None,
        completion_promise: None,
        completion_matcher: None,
        history_limit: None,
        started_at: None,
        updated_at: None,
        extras: Vec::new(),
    };
    assert(pairs_view(acc.extras@) =~= Seq::<(Seq<char>, Seq<char>)>::empty());
    assert(acc@ == initial_fields());
    assert(vviews(ls@).skip(0) =~= vviews(ls@));
    let mut i: usize = 0;
    while i < ls.len()
        invariant
            i <= ls@.len(),
            vviews(ls@) == lines(fm@),
            front_matter_split(text@) == Ok::<(Seq<char>, Seq<char>), StateError>((fm@, rest@)),
            apply_lines(initial_fields(), lines(fm@)) == apply_lines(
                acc@,
                vviews(ls@).skip(i as int),
            ),
        decreases ls@.len() - i,
    {
        let ghost before = acc@;
        proof {
            assert(vviews(ls@).skip(i as int)[0] == ls@[i as int]@);
            assert(vviews(ls@).skip(i as int).drop_first() =~= vviews(ls@).skip(i + 1));
        }
        match apply_line_exec(&mut acc, ls[i].as_slice()) {
            Ok(()) => {},
            Err(e) => {
                proof {
                    let ghost rest_lines = vviews(ls@).skip(i as int);
                    assert(rest_lines.len() > 0);
                    assert(apply_lines(before, rest_lines) == Err::<FieldsSpec, StateError>(e));
                }
                return Err(e);
            },
        }
        i = i + 1;
    }
    let prompt = trim_start_vec(rest.as_slice(), CharClass::Newline);
    proof {
        assert(vviews(ls@).skip(i as int) =~= Seq::<Seq<char>>::empty());
    }
    let data = StateData {
        schema_version: acc.schema_version,
        task_name: acc.task_name,
        project_path: acc.project_path,
        active: acc.active,
        iteration: match acc.iteration {
            Some(n) => n,
            None => 0,
        },
        max_iterations: match acc.max_iterations {
            Some(n) => n,
            None => 0,
        },
        completion_promise: acc.completion_promise,
        completion_matcher: acc.completion_matcher,
        history_limit: acc.history_limit,
        started_at: acc.started_at,
        updated_at: acc.updated_at,
        prompt: string_of(prompt.as_slice()),
        extras: acc.extras,
    };
    Ok(data)
}


// ---------------------------------------------------------------------------
// Reading back what was written
// ---------------------------------------------------------------------------

/// A value written bare after `key: ` that reads back unchanged: one line,
/// no `---`, and no whitespace or double quote at either end.
pub open spec fn bare_value(v: Seq<char>) -> bool {
    !contains_char(v, '\n') && no_triple_dash(v) && edge_clean(v)
}

/// A value written between double quotes that reads back unchanged: one line,
/// no `---`, no backslash and no double quote.
pub open spec fn quotable_value(v: Seq<char>) -> bool {
    !contains_char(v, '\n') && !contains_char(v, '\r') && !contains_char(v, '\\')
        && !contains_char(v, '"') && no_triple_dash(v)
}

/// A timestamp that reads back unchanged: non-empty, one line, no `---`, and
/// no double quote at either end.
pub open spec fn stamp_value(v: Seq<char>) -> bool {
    v.len() > 0 && !contains_char(v, '\n') && no_triple_dash(v) && v[0] != '"' && v.last() != '"'
}

/// An extra entry that reads back unchanged (entries under the format's own
/// keys are never written, so they need nothing).
pub open spec fn extra_entry_ok(e: (Seq<char>, Seq<char>)) -> bool {
    known_key(e.0) || (entry_key(e.0) && !contains_char(e.0, '\n') && no_triple_dash(e.0)
        && bare_value(e.1))
}

pub open spec fn stamp_or(s: Option<Seq<char>>, now: Seq<char>) -> Seq<char> {
    match s {
        Some(v) => v,
        None => now,
    }
}

/// The states whose `state.md` reads back as `reread_state` says.
pub open spec fn round_trip_ok(d: StateSpec, now: Seq<char>) -> bool {
    &&& bare_value(d.task_name)
    &&& (d.project_path matches Some(p) ==> p.len() > 0 && bare_value(p))
    &&& (d.completion_promise matches Some(v) ==> !is_blank(v) ==> quotable_value(v) && lower_seq(v)
        != "null"@)
    &&& (d.completion_matcher matches Some(m) ==> quotable_value(m))
    &&& stamp_value(stamp_or(d.started_at, now))
    &&& stamp_value(stamp_or(d.updated_at, now))
    &&& forall|i: int| 0 <= i < d.extras.len() ==> extra_entry_ok(#[trigger] d.extras[i])
}

/// The extra entries that are written: those not under the format's own keys.
pub open spec fn filter_extras(e: Seq<(Seq<char>, Seq<char>)>) -> Seq<(Seq<char>, Seq<char>)>
    decreases e.len(),
{
    if e.len() == 0 {
        Seq::empty()
    } else {
        filter_extras(e.drop_last()) + if known_key(e.last().0) {
            Seq::empty()
        } else {
            seq![e.last()]
        }
    }
}

/// What reading the written `state.md` of a state gives: the same state,
/// except that a blank promise reads as none, an empty matcher as none and
/// any other matcher in its canonical form, missing timestamps as `now`,
/// entries under the format's own keys are gone, and the prompt has lost its
/// trailing whitespace and leading line breaks and gained a final line break.
pub open spec fn reread_state(d: StateSpec, now: Seq<char>) -> StateSpec {
    StateSpec {
        schema_version: d.schema_version,
        task_name: d.task_name,
        project_path: d.project_path,
        active: d.active,
        iteration: d.iteration,
        max_iterations: d.max_iterations,
        completion_promise: match d.completion_promise {
            Some(v) => if is_blank(v) {
                None
            } else {
                Some(v)
            },
            None => None,
        },
        completion_matcher: match d.completion_matcher {
            Some(m) => if m.len() > 0 {
                matcher_name_spec(m)
            } else {
                None
            },
            None => None,
        },
        history_limit: d.history_limit,
        started_at: Some(stamp_or(d.started_at, now)),
        updated_at: Some(stamp_or(d.updated_at, now)),
        prompt: trim_start_class(
            seq!['\n', '\n'] + trim_end_class(d.prompt, CharClass::Whitespace) + seq!['\n'],
            CharClass::Newline,
        ),
        extras: filter_extras(d.extras),
    }
}

pub(crate) proof fn lemma_key_facts()
    ensures
        "schema_version"@.len() == 14 && "schema_version"@[0] == 's',
        "task_name"@.len() == 9 && "task_name"@[0] == 't',
        "project_path"@.len() == 12,
        "active"@.len() == 6,
        "iteration"@.len() == 9 && "iteration"@[0] == 'i',
        "max_iterations"@.len() == 14 && "max_iterations"@[0] == 'm',
        "completion_promise"@.len() == 18 && "completion_promise"@[11] == 'p',
        "completion_matcher"@.len() == 18 && "completion_matcher"@[11] == 'm',
        "history_limit"@.len() == 13,
        "started_at"@.len() == 10 && "started_at"@[0] == 's',
        "updated_at"@.len() == 10 && "updated_at"@[0] == 'u',
{
    reveal_strlit("schema_version");
    reveal_strlit("task_name");
    reveal_strlit("project_path");
    reveal_strlit("active");
    reveal_strlit("iteration");
    reveal_strlit("max_iterations");
    reveal_strlit("completion_promise");
    reveal_strlit("completion_matcher");
    reveal_strlit("history_limit");
    reveal_strlit("started_at");
    reveal_strlit("updated_at");
}

pub(crate) proof fn lemma_key_line(key: Seq<char>, value: Seq<char>)
    requires
        plain_key(key),
        !contains_char(value, '\n'),
        value.len() == 0 || value.last() != '\r',
        no_triple_dash(value),
    ensures
        line_entry(kv(key, value)) == Some(
            (
                key,
                trim_class(trim_class(seq![' '] + value, CharClass::Whitespace), CharClass::Quote),
            ),
        ),
        line_ok(kv(key, value)),
        no_triple_dash(kv(key, value)),
{
    lemma_plain_key(key);
    lemma_kv_entry(key, value);
    lemma_kv_line_ok(key, value);
}

pub(crate) proof fn lemma_dec_value(n: nat)
    ensures
        !contains_char(dec(n), '\n'),
        dec(n).last() != '\r',
        no_triple_dash(dec(n)),
        edge_clean(dec(n)),
{
    lemma_dec_digits(n);
    assert(is_digit(dec(n)[0]) && is_digit(dec(n).last()));
    if contains_char(dec(n), '\n') {
        let i = choose|i: int| 0 <= i < dec(n).len() && dec(n)[i] == '\n';
        assert(is_digit(dec(n)[i]));
    }
    assert forall|i: int| 0 <= i && i + 2 < dec(n).len() implies !#[trigger] triple_dash_at(
        dec(n),
        i,
    ) by {
        assert(is_digit(dec(n)[i]));
    }
}

pub(crate) proof fn lemma_quoted_ok(v: Seq<char>)
    requires
        !contains_char(v, '\n'),
        no_triple_dash(v),
    ensures
        !contains_char(quoted(v), '\n'),
        quoted(v).last() != '\r',
        no_triple_dash(quoted(v)),
{
    let q = quoted(v);
    if contains_char(q, '\n') {
        let i = choose|i: int| 0 <= i < q.len() && q[i] == '\n';
        assert(q[i] == v[i - 1]);
        assert(contains_char(v, '\n'));
    }
    lemma_no_triple_concat3(Seq::empty(), seq!['"'], v);
    lemma_no_triple_concat3(seq!['"'] + v, seq!['"'], Seq::empty());
    assert(Seq::<char>::empty() + seq!['"'] + v =~= seq!['"'] + v);
    assert(seq!['"'] + v + seq!['"'] + Seq::<char>::empty() =~= q);
}

/// Reading the lines `ls` after `l`.
proof fn lemma_apply_lines_push(acc: FieldsSpec, ls: Seq<Seq<char>>, l: Seq<char>)
    ensures
        apply_lines(acc, ls.push(l)) == match apply_lines(acc, ls) {
            Ok(a) => apply_line(a, l),
            Err(e) => Err(e),
        },
    decreases ls.len(),
{
    if ls.len() == 0 {
        assert(ls.push(l)[0] == l);
        assert(ls.push(l).drop_first() =~= Seq::<Seq<char>>::empty());
        match apply_line(acc, l) {
            Ok(a) => {
                assert(apply_lines(a, Seq::<Seq<char>>::empty()) == Ok::<FieldsSpec, StateError>(a));
            },
            Err(e) => {},
        }
    } else {
        assert(ls.push(l)[0] == ls[0]);
        assert(ls.push(l).drop_first() =~= ls.drop_first().push(l));
        match apply_line(acc, ls[0]) {
            Ok(a) => {
                lemma_apply_lines_push(a, ls.drop_first(), l);
            },
            Err(e) => {},
        }
    }
}

proof fn lemma_apply_extras(acc0: FieldsSpec, g: Seq<Seq<char>>, a: FieldsSpec, e: Seq<(Seq<char>, Seq<char>)>)
    requires
        apply_lines(acc0, g) == Ok::<FieldsSpec, StateError>(a),
        forall|i: int| 0 <= i < e.len() ==> extra_entry_ok(#[trigger] e[i]),
    ensures
        apply_lines(acc0, g + extra_lines(e)) == Ok::<FieldsSpec, StateError>(
            FieldsSpec { extras: a.extras + filter_extras(e), ..a },
        ),
        forall|k: int| 0 <= k < extra_lines(e).len() ==> line_ok(#[trigger] extra_lines(e)[k])
            && no_triple_dash(extra_lines(e)[k]),
    decreases e.len(),
{
    if e.len() == 0 {
        assert(g + extra_lines(e) =~= g);
        assert(a.extras + filter_extras(e) =~= a.extras);
    } else {
        let p = e.drop_last();
        assert forall|i: int| 0 <= i < p.len() implies extra_entry_ok(#[trigger] p[i]) by {
            assert(p[i] == e[i]);
        }
        lemma_apply_extras(acc0, g, a, p);
        let last = e.last();
        assert(extra_entry_ok(e[e.len() - 1]));
        let mid = FieldsSpec { extras: a.extras + filter_extras(p), ..a };
        if known_key(last.0) {
            assert(extra_lines(e) =~= extra_lines(p));
            assert(filter_extras(e) =~= filter_extras(p));
        } else {
            let line = kv(last.0, last.1);
            assert(extra_lines(e) =~= extra_lines(p).push(line));
            assert(g + extra_lines(e) =~= (g + extra_lines(p)).push(line));
            lemma_apply_lines_push(acc0, g + extra_lines(p), line);
            lemma_kv_entry(last.0, last.1);
            lemma_read_bare(last.1);
            lemma_kv_line_ok(last.0, last.1);
            assert(filter_extras(e) =~= filter_extras(p).push(last));
            assert(apply_line(mid, line) == Ok::<FieldsSpec, StateError>(
                FieldsSpec { extras: mid.extras.push((last.0, last.1)), ..mid },
            ));
            assert(a.extras + filter_extras(e) =~= mid.extras.push((last.0, last.1)));
            assert forall|k: int| 0 <= k < extra_lines(e).len() implies line_ok(
                #[trigger] extra_lines(e)[k],
            ) && no_triple_dash(extra_lines(e)[k]) by {
                if k < extra_lines(p).len() {
                    assert(extra_lines(e)[k] == extra_lines(p)[k]);
                }
            }
        }
    }
}


pub(crate) proof fn lemma_literal_values()
    ensures
        lower_seq("true"@) == "true"@,
        lower_seq("null"@) == "null"@,
        "true"@.len() == 4,
        "false"@.len() == 5,
        "null"@.len() == 4,
        "1"@.len() == 1,
        "yes"@.len() == 3,
        edge_clean("true"@) && edge_clean("false"@) && edge_clean("null"@),
        !contains_char("true"@, '\n') && !contains_char("false"@, '\n') && !contains_char("null"@, '\n'),
        no_triple_dash("true"@) && no_triple_dash("false"@) && no_triple_dash("null"@),
{
    reveal_strlit("true");
    reveal_strlit("false");
    reveal_strlit("null");
    reveal_strlit("1");
    reveal_strlit("yes");
    assert(lower_seq("true"@) =~= "true"@) by {
        assert forall|i: int| 0 <= i < 4 implies lower_seq("true"@)[i] == "true"@[i] by {
            if i == 0 {
            } else if i == 1 {
            } else if i == 2 {
            } else {
            }
        }
    }
    assert(lower_seq("null"@) =~= "null"@) by {
        assert forall|i: int| 0 <= i < 4 implies lower_seq("null"@)[i] == "null"@[i] by {
            if i == 0 {
            } else if i == 1 {
            } else if i == 2 {
            } else {
            }
        }
    }
    assert forall|i: int| 0 <= i < 4 implies "true"@[i] != '\n' && "null"@[i] != '\n' by {
        if i == 0 {
        } else if i == 1 {
        } else if i == 2 {
        } else {
        }
    }
    assert forall|i: int| 0 <= i < 5 implies "false"@[i] != '\n' && "false"@[i] != '-' by {
        if i == 0 {
        } else if i == 1 {
        } else if i == 2 {
        } else if i == 3 {
        } else {
        }
    }
    assert forall|i: int| 0 <= i < 4 implies "true"@[i] != '-' && "null"@[i] != '-' by {
        if i == 0 {
        } else if i == 1 {
        } else if i == 2 {
        } else {
        }
    }
    assert forall|i: int| 0 <= i && i + 2 < 4 implies !#[trigger] triple_dash_at("true"@, i) by {
        assert("true"@[i] != '-');
    }
    assert forall|i: int| 0 <= i && i + 2 < 4 implies !#[trigger] triple_dash_at("null"@, i) by {
        assert("null"@[i] != '-');
    }
    assert forall|i: int| 0 <= i && i + 2 < 5 implies !#[trigger] triple_dash_at("false"@, i) by {
        assert("false"@[i] != '-');
    }
}

/// The fields a state's front matter reads back as.
pub open spec fn fields_of(d: StateSpec, now: Seq<char>) -> FieldsSpec {
    let r = reread_state(d, now);
    FieldsSpec {
        schema_version: r.schema_version,
        task_name: r.task_name,
        project_path: r.project_path,
        active: r.active,
        iteration: Some(r.iteration),
        max_iterations: Some(r.max_iterations),
        completion_promise: r.completion_promise,
        completion_matcher: r.completion_matcher,
        history_limit: r.history_limit,
        started_at: r.started_at,
        updated_at: r.updated_at,
        extras: r.extras,
    }
}

proof fn lemma_step(acc: FieldsSpec, ls: Seq<Seq<char>>, l: Seq<char>, a: FieldsSpec, b: FieldsSpec)
    requires
        apply_lines(acc, ls) == Ok::<FieldsSpec, StateError>(a),
        apply_line(a, l) == Ok::<FieldsSpec, StateError>(b),
    ensures
        apply_lines(acc, ls.push(l)) == Ok::<FieldsSpec, StateError>(b),
{
    lemma_apply_lines_push(acc, ls, l);
}

proof fn lemma_line_schema(a: FieldsSpec, n: u32)
    ensures
        apply_line(a, kv("schema_version"@, dec(n as nat))) == Ok::<FieldsSpec, StateError>(
            FieldsSpec { schema_version: n, ..a },
        ),
        line_ok(kv("schema_version"@, dec(n as nat))),
        no_triple_dash(kv("schema_version"@, dec(n as nat))),
{
    lemma_known_keys_plain();
    lemma_key_facts();
    lemma_dec_value(n as nat);
    lemma_key_line("schema_version"@, dec(n as nat));
    lemma_read_bare(dec(n as nat));
    lemma_parse_dec(n as nat, u32::MAX as nat);
}

proof fn lemma_line_task_name(a: FieldsSpec, v: Seq<char>)
    requires
        bare_value(v),
    ensures
        apply_line(a, kv("task_name"@, v)) == Ok::<FieldsSpec, StateError>(
            FieldsSpec { task_name: v, ..a },
        ),
        line_ok(kv("task_name"@, v)),
        no_triple_dash(kv("task_name"@, v)),
{
    lemma_known_keys_plain();
    lemma_key_facts();
    lemma_key_line("task_name"@, v);
    lemma_read_bare(v);
}

proof fn lemma_line_project(a: FieldsSpec, v: Seq<char>)
    requires
        bare_value(v),
        v.len() > 0,
    ensures
        apply_line(a, kv("project_path"@, v)) == Ok::<FieldsSpec, StateError>(
            FieldsSpec { project_path: Some(v), ..a },
        ),
        line_ok(kv("project_path"@, v)),
        no_triple_dash(kv("project_path"@, v)),
{
    lemma_known_keys_plain();
    lemma_key_facts();
    lemma_key_line("project_path"@, v);
    lemma_read_bare(v);
}

proof fn lemma_line_active(a: FieldsSpec, b: bool)
    ensures
        apply_line(a, kv("active"@, bool_text(b))) == Ok::<FieldsSpec, StateError>(
            FieldsSpec { active: b, ..a },
        ),
        line_ok(kv("active"@, bool_text(b))),
        no_triple_dash(kv("active"@, bool_text(b))),
{
    lemma_known_keys_plain();
    lemma_key_facts();
    lemma_literal_values();
    lemma_key_line("active"@, bool_text(b));
    lemma_read_bare(bool_text(b));
    assert(truthy(bool_text(b)) == b);
}

proof fn lemma_line_iteration(a: FieldsSpec, n: u32)
    ensures
        apply_line(a, kv("iteration"@, dec(n as nat))) == Ok::<FieldsSpec, StateError>(
            FieldsSpec { iteration: Some(n), ..a },
        ),
        line_ok(kv("iteration"@, dec(n as nat))),
        no_triple_dash(kv("iteration"@, dec(n as nat))),
{
    lemma_known_keys_plain();
    lemma_key_facts();
    lemma_dec_value(n as nat);
    lemma_key_line("iteration"@, dec(n as nat));
    lemma_read_bare(dec(n as nat));
    lemma_parse_dec(n as nat, u32::MAX as nat);
}

proof fn lemma_line_max(a: FieldsSpec, n: u32)
    ensures
        apply_line(a, kv("max_iterations"@, dec(n as nat))) == Ok::<FieldsSpec, StateError>(
            FieldsSpec { max_iterations: Some(n), ..a },
        ),
        line_ok(kv("max_iterations"@, dec(n as nat))),
        no_triple_dash(kv("max_iterations"@, dec(n as nat))),
{
    lemma_known_keys_plain();
    lemma_key_facts();
    lemma_dec_value(n as nat);
    lemma_key_line("max_iterations"@, dec(n as nat));
    lemma_read_bare(dec(n as nat));
    lemma_parse_dec(n as nat, u32::MAX as nat);
}

proof fn lemma_line_history(a: FieldsSpec, n: u32)
    ensures
        apply_line(a, kv("history_limit"@, dec(n as nat))) == Ok::<FieldsSpec, StateError>(
            FieldsSpec { history_limit: Some(n), ..a },
        ),
        line_ok(kv("history_limit"@, dec(n as nat))),
        no_triple_dash(kv("history_limit"@, dec(n as nat))),
{
    lemma_known_keys_plain();
    lemma_key_facts();
    lemma_dec_value(n as nat);
    lemma_key_line("history_limit"@, dec(n as nat));
    lemma_read_bare(dec(n as nat));
    lemma_parse_dec(n as nat, u32::MAX as nat);
}

pub(crate) proof fn lemma_no_quote_ends(v: Seq<char>)
    requires
        !contains_char(v, '"'),
    ensures
        v.len() == 0 || (v[0] != '"' && v.last() != '"'),
{
    if v.len() > 0 {
        if v[0] == '"' {
            assert(contains_char(v, '"'));
        }
        if v[v.len() - 1] == '"' {
            assert(contains_char(v, '"'));
        }
    }
}

proof fn lemma_line_promise(a: FieldsSpec, p: Option<Seq<char>>, cl: Seq<char>)
    requires
        completion_line_spec(p) == Some(cl),
        p matches Some(v) ==> !is_blank(v) ==> quotable_value(v) && lower_seq(v) != "null"@,
    ensures
        apply_line(a, cl) == Ok::<FieldsSpec, StateError>(
            FieldsSpec {
                completion_promise: match p {
                    Some(v) => if is_blank(v) {
                        None
                    } else {
                        Some(v)
                    },
                    None => None,
                },
                ..a
            },
        ),
        line_ok(cl),
        no_triple_dash(cl),
{
    lemma_known_keys_plain();
    lemma_key_facts();
    lemma_literal_values();
    match p {
        Some(v) => {
            if !is_blank(v) {
                lemma_escape_plain(v);
                lemma_quoted_ok(v);
                lemma_key_line("completion_promise"@, quoted(v));
                lemma_no_quote_ends(v);
                crate::text::lemma_read_quoted(v);
                assert(v.len() > 0);
            } else {
                lemma_key_line("completion_promise"@, "null"@);
                lemma_read_bare("null"@);
            }
        },
        None => {
            lemma_key_line("completion_promise"@, "null"@);
            lemma_read_bare("null"@);
        },
    }
}

proof fn lemma_line_matcher(a: FieldsSpec, m: Seq<char>)
    requires
        quotable_value(m),
    ensures
        apply_line(a, kv("completion_matcher"@, quoted(escape_seq(m)))) == Ok::<FieldsSpec, StateError>(
            FieldsSpec {
                completion_matcher: if m.len() > 0 {
                    matcher_name_spec(m)
                } else {
                    a.completion_matcher
                },
                ..a
            },
        ),
        line_ok(kv("completion_matcher"@, quoted(escape_seq(m)))),
        no_triple_dash(kv("completion_matcher"@, quoted(escape_seq(m)))),
{
    lemma_known_keys_plain();
    lemma_key_facts();
    lemma_escape_plain(m);
    lemma_quoted_ok(m);
    lemma_key_line("completion_matcher"@, quoted(m));
    lemma_no_quote_ends(m);
    crate::text::lemma_read_quoted(m);
}

proof fn lemma_line_started(a: FieldsSpec, v: Seq<char>)
    requires
        stamp_value(v),
    ensures
        apply_line(a, kv("started_at"@, quoted(v))) == Ok::<FieldsSpec, StateError>(
            FieldsSpec { started_at: Some(v), ..a },
        ),
        line_ok(kv("started_at"@, quoted(v))),
        no_triple_dash(kv("started_at"@, quoted(v))),
{
    lemma_known_keys_plain();
    lemma_key_facts();
    lemma_quoted_ok(v);
    lemma_key_line("started_at"@, quoted(v));
    crate::text::lemma_read_quoted(v);
}

proof fn lemma_line_updated(a: FieldsSpec, v: Seq<char>)
    requires
        stamp_value(v),
    ensures
        apply_line(a, kv("updated_at"@, quoted(v))) == Ok::<FieldsSpec, StateError>(
            FieldsSpec { updated_at: Some(v), ..a },
        ),
        line_ok(kv("updated_at"@, quoted(v))),
        no_triple_dash(kv("updated_at"@, quoted(v))),
{
    lemma_known_keys_plain();
    lemma_key_facts();
    lemma_quoted_ok(v);
    lemma_key_line("updated_at"@, quoted(v));
    crate::text::lemma_read_quoted(v);
}


/// The lines before the extra entries read back as the state's fields.
proof fn lemma_read_head_lines(d: StateSpec, now: Seq<char>, cl: Seq<char>, ml: Option<Seq<char>>) -> (g: Seq<Seq<char>>)
    requires
        round_trip_ok(d, now),
        completion_line_spec(d.completion_promise) == Some(cl),
        matcher_line_spec(d.completion_matcher) == Some(ml),
    ensures
        field_lines(d, now, cl, ml) == g + extra_lines(d.extras),
        g.len() >= 1,
        apply_lines(initial_fields(), g) == Ok::<FieldsSpec, StateError>(
            FieldsSpec { extras: Seq::empty(), ..fields_of(d, now) },
        ),
        forall|k: int| 0 <= k < g.len() ==> line_ok(#[trigger] g[k]) && no_triple_dash(g[k]),
{
    let init = initial_fields();
    let e0: Seq<Seq<char>> = Seq::empty();
    assert(apply_lines(init, e0) == Ok::<FieldsSpec, StateError>(init));
    let l1 = kv("schema_version"@, dec(d.schema_version as nat));
    lemma_line_schema(init, d.schema_version);
    let a1 = FieldsSpec { schema_version: d.schema_version, ..init };
    lemma_step(init, e0, l1, init, a1);
    let l2 = kv("task_name"@, d.task_name);
    lemma_line_task_name(a1, d.task_name);
    let a2 = FieldsSpec { task_name: d.task_name, ..a1 };
    lemma_step(init, e0.push(l1), l2, a1, a2);
    let ga = seq![l1, l2];
    assert(e0.push(l1).push(l2) =~= ga);
    let a3 = FieldsSpec { project_path: d.project_path, ..a2 };
    let gb = match d.project_path {
        Some(p) => {
            let l = kv("project_path"@, p);
            lemma_line_project(a2, p);
            lemma_step(init, ga, l, a2, a3);
            ga.push(l)
        },
        None => ga,
    };
    let l4 = kv("active"@, bool_text(d.active));
    lemma_line_active(a3, d.active);
    let a4 = FieldsSpec { active: d.active, ..a3 };
    lemma_step(init, gb, l4, a3, a4);
    let l5 = kv("iteration"@, dec(d.iteration as nat));
    lemma_line_iteration(a4, d.iteration);
    let a5 = FieldsSpec { iteration: Some(d.iteration), ..a4 };
    lemma_step(init, gb.push(l4), l5, a4, a5);
    let l6 = kv("max_iterations"@, dec(d.max_iterations as nat));
    lemma_line_max(a5, d.max_iterations);
    let a6 = FieldsSpec { max_iterations: Some(d.max_iterations), ..a5 };
    lemma_step(init, gb.push(l4).push(l5), l6, a5, a6);
    let r = reread_state(d, now);
    lemma_line_promise(a6, d.completion_promise, cl);
    let a7 = FieldsSpec { completion_promise: r.completion_promise, ..a6 };
    let gc = gb.push(l4).push(l5).push(l6);
    lemma_step(init, gc, cl, a6, a7);
    let gc2 = gc.push(cl);
    let a8 = FieldsSpec { completion_matcher: r.completion_matcher, ..a7 };
    let ge = match ml {
        Some(l) => {
            let m = d.completion_matcher->Some_0;
            lemma_line_matcher(a7, m);
            lemma_step(init, gc2, l, a7, a8);
            gc2.push(l)
        },
        None => gc2,
    };
    let a9 = FieldsSpec { history_limit: d.history_limit, ..a8 };
    let gf = match d.history_limit {
        Some(h) => {
            let l = kv("history_limit"@, dec(h as nat));
            lemma_line_history(a8, h);
            lemma_step(init, ge, l, a8, a9);
            ge.push(l)
        },
        None => ge,
    };
    let st = stamp_or(d.started_at, now);
    let up = stamp_or(d.updated_at, now);
    let l10 = kv("started_at"@, quoted(st));
    let l11 = kv("updated_at"@, quoted(up));
    lemma_line_started(a9, st);
    lemma_line_updated(FieldsSpec { started_at: Some(st), ..a9 }, up);
    let a10 = FieldsSpec { started_at: Some(st), ..a9 };
    let a11 = FieldsSpec { updated_at: Some(up), ..a10 };
    lemma_step(init, gf, l10, a9, a10);
    lemma_step(init, gf.push(l10), l11, a10, a11);
    let g = gf.push(l10).push(l11);
    assert(a11 == FieldsSpec { extras: Seq::empty(), ..fields_of(d, now) });
    assert(field_lines(d, now, cl, ml) == g + extra_lines(d.extras));
    assert forall|k: int| 0 <= k < g.len() implies line_ok(#[trigger] g[k]) && no_triple_dash(g[k]) by {
        if k == g.len() - 1 {
        } else if k == g.len() - 2 {
        } else {
            assert(g[k] == gf[k]);
            if k == gf.len() - 1 && d.history_limit is Some {
            } else {
                let gek = if d.history_limit is Some {
                    ge[k]
                } else {
                    ge[k]
                };
                assert(gf[k] == ge[k]);
                if k == ge.len() - 1 && ml is Some {
                } else {
                    assert(ge[k] == gc2[k]);
                    if k == gc2.len() - 1 {
                    } else {
                        assert(gc2[k] == gc[k]);
                        if k >= gb.len() {
                        } else if k >= 2 {
                            assert(gb[k] == gb[2]);
                        } else {
                            assert(gb[k] == ga[k]);
                        }
                    }
                }
            }
        }
    }
    g
}


/// The closing delimiter of a written file is the first `---` after the opening one.
#[verifier::spinoff_prover]
#[verifier::rlimit(40)]
pub(crate) proof fn lemma_written_split(f: Seq<Seq<char>>, tp: Seq<char>)
    requires
        f.len() >= 1,
        forall|k: int| 0 <= k < f.len() ==> line_ok(#[trigger] f[k]) && no_triple_dash(f[k]),
    ensures
        front_matter_split(join_lines(seq![dashes()] + f + seq![dashes(), Seq::empty(), tp, Seq::empty()]))
            == Ok::<(Seq<char>, Seq<char>), StateError>(
            (seq!['\n'] + join(f, seq!['\n']) + seq!['\n'], seq!['\n', '\n'] + tp + seq!['\n']),
        ),
{
    let nl = seq!['\n'];
    let tail: Seq<Seq<char>> = seq![dashes(), Seq::empty(), tp, Seq::empty()];
    let ls = seq![dashes()] + f + tail;
    let text = join_lines(ls);
    let j = join(f, nl);
    lemma_join_concat(seq![dashes()] + f, tail, nl);
    lemma_join_concat(seq![dashes()], f, nl);
    assert(join(seq![dashes()], nl) == dashes()) by {
        assert(seq![dashes()].len() == 1);
    }
    assert(join(tail, nl) == dashes() + nl + Seq::<char>::empty() + nl + tp + nl
        + Seq::<char>::empty()) by {
        crate::text::lemma_join_first(tail, nl);
        crate::text::lemma_join_first(tail.drop_first(), nl);
        crate::text::lemma_join_first(tail.drop_first().drop_first(), nl);
        assert(tail.drop_first().drop_first().drop_first() =~= seq![Seq::<char>::empty()]);
    }
    let body = seq!['\n', '\n'] + tp + nl;
    assert(text =~= dashes() + nl + j + nl + dashes() + body);
    let n = j.len() as int;
    let p = n + 5;
    crate::text::lemma_no_triple_join(f);
    assert forall|k: int| 3 <= k < p implies !is_prefix(
        dashes(),
        #[trigger] text.subrange(k, text.len() as int),
    ) by {
        if is_prefix(dashes(), text.subrange(k, text.len() as int)) {
            let t = text.subrange(k, text.len() as int);
            assert(t.subrange(0, 3) == dashes());
            assert(t[0] == '-' && t[1] == '-' && t[2] == '-');
            assert(text[k] == '-' && text[k + 1] == '-' && text[k + 2] == '-');
            if k == 3 {
                assert(text[3] == '\n');
            } else if k + 2 <= n + 3 {
                assert(text[k] == j[k - 4] && text[k + 1] == j[k - 3] && text[k + 2] == j[k - 2]);
                assert(triple_dash_at(j, k - 4));
            } else {
                assert(text[n + 4] == '\n');
            }
        }
    }
    assert(text.subrange(p, text.len() as int).subrange(0, 3) =~= dashes());
    lemma_find_seq_at(text, dashes(), 3, p);
    assert(text.subrange(0, 3) =~= dashes());
    assert(text.subrange(3, p) =~= nl + j + nl);
    assert(text.subrange(p + 3, text.len() as int) =~= body);
}

/// The front matter of a written file reads as an empty line and the field lines.
pub(crate) proof fn lemma_written_lines(f: Seq<Seq<char>>)
    requires
        f.len() >= 1,
        forall|k: int| 0 <= k < f.len() ==> line_ok(#[trigger] f[k]) && no_triple_dash(f[k]),
    ensures
        lines(seq!['\n'] + join(f, seq!['\n']) + seq!['\n']) == seq![Seq::<char>::empty()] + f,
        forall|acc: FieldsSpec| apply_lines(acc, seq![Seq::<char>::empty()] + f) == apply_lines(acc, f),
{
    let nl = seq!['\n'];
    let j = join(f, nl);
    let fm = nl + j + nl;
    assert forall|k: int| 0 <= k < f.len() implies line_ok(#[trigger] f[k]) by {
        assert(line_ok(f[k]) && no_triple_dash(f[k]));
    }
    assert(fm.subrange(1, fm.len() as int) =~= j + nl);
    lemma_lines_of_join(fm, 1, f);
    lemma_find_char_at(fm, '\n', 0, 0);
    assert(fm.subrange(0, 0) =~= Seq::<char>::empty());
    assert(lines(fm) =~= seq![Seq::<char>::empty()] + f);
    let e: Seq<char> = Seq::empty();
    assert(find_char_from(e, ':', 0) == 0);
    assert(line_entry(e) is None);
    assert((seq![e] + f)[0] == e);
    assert((seq![e] + f).drop_first() =~= f);
    assert forall|acc: FieldsSpec| apply_lines(acc, seq![e] + f) == apply_lines(acc, f) by {
        assert((seq![e] + f)[0] == e);
        assert((seq![e] + f).drop_first() =~= f);
    }
}

/// Writing a state's file and reading it back gives the state, up to the
/// normalisation `reread_state` describes, for every state whose text fields
/// survive the format (`round_trip_ok`): the file can always be written, and
/// the reader finds every field where the writer put it.
pub proof fn lemma_state_round_trip(d: StateSpec, now: Seq<char>)
    requires
        round_trip_ok(d, now),
    ensures
        render_state_spec(d, now) is Ok,
        parse_state_spec(render_state_spec(d, now)->Ok_0) == Ok::<StateSpec, StateError>(
            reread_state(d, now),
        ),
{
    let cl = completion_line_spec(d.completion_promise)->Some_0;
    let ml = matcher_line_spec(d.completion_matcher)->Some_0;
    assert(completion_line_spec(d.completion_promise) is Some);
    assert(matcher_line_spec(d.completion_matcher) is Some);
    let g = lemma_read_head_lines(d, now, cl, ml);
    let init = initial_fields();
    let a11 = FieldsSpec { extras: Seq::empty(), ..fields_of(d, now) };
    lemma_apply_extras(init, g, a11, d.extras);
    assert(Seq::<(Seq<char>, Seq<char>)>::empty() + filter_extras(d.extras) =~= filter_extras(
        d.extras,
    ));
    let f = field_lines(d, now, cl, ml);
    let x = extra_lines(d.extras);
    assert(f == g + x);
    assert(apply_lines(init, f) == Ok::<FieldsSpec, StateError>(fields_of(d, now)));
    assert forall|k: int| 0 <= k < f.len() implies line_ok(#[trigger] f[k]) && no_triple_dash(
        f[k],
    ) by {
        if k < g.len() {
            assert(f[k] == g[k]);
        } else {
            assert(f[k] == x[k - g.len()]);
        }
    }
    let tp = trim_end_class(d.prompt, CharClass::Whitespace);
    let tail: Seq<Seq<char>> = seq![dashes(), Seq::empty(), tp, Seq::empty()];
    let ls = seq![dashes()] + f + tail;
    assert(state_lines_spec(d, now) == Ok::<Seq<Seq<char>>, StateError>(ls));
    let text = join_lines(ls);
    assert(render_state_spec(d, now) == Ok::<Seq<char>, StateError>(text));
    lemma_written_split(f, tp);
    lemma_written_lines(f);
    let fm = seq!['\n'] + join(f, seq!['\n']) + seq!['\n'];
    let rest = seq!['\n', '\n'] + tp + seq!['\n'];
    assert(apply_lines(init, lines(fm)) == apply_lines(init, f));
    assert(finish_fields(fields_of(d, now), trim_start_class(rest, CharClass::Newline))
        == reread_state(d, now));
}

} // verus!
