//! The task state file as the stop hook reads and rewrites it: the front
//! matter as a key/value map, the settings it stands for, and the file the
//! hook writes back after each loop.
use vstd::prelude::*;
use crate::config::{ConfigDefaults, matcher_name_spec, normalize_matcher_name};
use crate::frontmatter::{
    dashes, escape_chars, escape_yaml_spec, front_matter_split, join_lines, join_lines_exec,
    known_key, known_key_chars, kv, kv_line, kv_quoted_line, line_entry, quoted, read_line_entry,
    split_front_matter, StateError,
};
use crate::numbers::{dec, parse_u32_chars, parse_unsigned, push_dec};
use crate::state_data::{bool_text, opt_view, pairs_view};
use crate::text::{
    blank_vec, chars_eq_str, chars_of, is_blank, lines, lines_vec, lower_seq, lower_vec,
    push_str_chars, string_of, trim, trim_end_class, trim_end_vec, trim_start_class,
    trim_start_vec, trim_vec, vviews, CharClass,
};

verus! {

// ---------------------------------------------------------------------------
// Front matter as a map
// ---------------------------------------------------------------------------

/// The map a list of entries stands for; a later entry for a key wins.
pub open spec fn pairs_map(s: Seq<(Seq<char>, Seq<char>)>) -> Map<Seq<char>, Seq<char>>
    decreases s.len(),
{
    if s.len() == 0 {
        Map::empty()
    } else {
        pairs_map(s.drop_last()).insert(s.last().0, s.last().1)
    }
}

/// No key occurs twice.
pub open spec fn unique_keys(s: Seq<(Seq<char>, Seq<char>)>) -> bool {
    forall|i: int, j: int| 0 <= i < j < s.len() ==> s[i].0 != s[j].0
}

/// The value a map holds for a key, if any.
pub open spec fn lookup(m: Map<Seq<char>, Seq<char>>, k: Seq<char>) -> Option<Seq<char>> {
    if m.contains_key(k) {
        Some(m[k])
    } else {
        None
    }
}

pub proof fn lemma_pairs_map_index(s: Seq<(Seq<char>, Seq<char>)>, i: int)
    requires
        unique_keys(s),
        0 <= i < s.len(),
    ensures
        pairs_map(s).contains_key(s[i].0),
        pairs_map(s)[s[i].0] == s[i].1,
    decreases s.len(),
{
    if i < s.len() - 1 {
        lemma_pairs_map_index(s.drop_last(), i);
        assert(s.drop_last()[i] == s[i]);
        assert(s.last().0 != s[i].0);
    }
}

pub proof fn lemma_pairs_map_absent(s: Seq<(Seq<char>, Seq<char>)>, k: Seq<char>)
    requires
        forall|i: int| 0 <= i < s.len() ==> s[i].0 != k,
    ensures
        !pairs_map(s).contains_key(k),
    decreases s.len(),
{
    if s.len() > 0 {
        assert forall|i: int| 0 <= i < s.drop_last().len() implies s.drop_last()[i].0 != k by {
            assert(s.drop_last()[i] == s[i]);
        }
        lemma_pairs_map_absent(s.drop_last(), k);
        assert(s.last().0 != k);
    }
}

pub proof fn lemma_pairs_map_update(s: Seq<(Seq<char>, Seq<char>)>, i: int, v: Seq<char>)
    requires
        unique_keys(s),
        0 <= i < s.len(),
    ensures
        pairs_map(s.update(i, (s[i].0, v))) == pairs_map(s).insert(s[i].0, v),
    decreases s.len(),
{
    let k = s[i].0;
    let t = s.update(i, (k, v));
    if i == s.len() - 1 {
        assert(t.drop_last() =~= s.drop_last());
        assert(pairs_map(t) =~= pairs_map(s).insert(k, v));
    } else {
        assert(t.drop_last() =~= s.drop_last().update(i, (k, v)));
        assert(s.drop_last()[i] == s[i]);
        lemma_pairs_map_update(s.drop_last(), i, v);
        assert(s.last().0 != k);
        assert(t.last() == s.last());
        assert(pairs_map(t) =~= pairs_map(s).insert(k, v));
    }
}

/// The first index at or after `i` whose key is `k`, or -1.
pub open spec fn key_pos(s: Seq<(Seq<char>, Seq<char>)>, k: Seq<char>, i: int) -> int
    decreases s.len() - i,
{
    if i < 0 || i >= s.len() {
        -1
    } else if s[i].0 == k {
        i
    } else {
        key_pos(s, k, i + 1)
    }
}

pub proof fn lemma_key_pos_at(s: Seq<(Seq<char>, Seq<char>)>, k: Seq<char>, i: int, m: int)
    requires
        0 <= i <= m <= s.len(),
        forall|j: int| i <= j < m ==> s[j].0 != k,
        m < s.len() ==> s[m].0 == k,
    ensures
        key_pos(s, k, i) == if m < s.len() {
            m
        } else {
            -1
        },
    decreases m - i,
{
    if i < m {
        lemma_key_pos_at(s, k, i + 1, m);
    }
}

/// Setting a key in a list of entries: its entry gets the new value, or a
/// new entry goes at the end.
pub open spec fn entries_insert(s: Seq<(Seq<char>, Seq<char>)>, k: Seq<char>, v: Seq<char>) -> Seq<(Seq<char>, Seq<char>)> {
    let p = key_pos(s, k, 0);
    if p >= 0 {
        s.update(p, (k, v))
    } else {
        s.push((k, v))
    }
}

/// The entries the front matter lines give, in the order their keys first appear.
pub open spec fn lines_entries(ls: Seq<Seq<char>>) -> Seq<(Seq<char>, Seq<char>)>
    decreases ls.len(),
{
    if ls.len() == 0 {
        Seq::empty()
    } else {
        let e = lines_entries(ls.drop_last());
        match line_entry(ls.last()) {
            Some((k, v)) => entries_insert(e, k, v),
            None => e,
        }
    }
}

/// The front matter of a state file as a key/value map (the reader's
/// `HashMap<String, String>`), keeping keys in the order first seen.
#[derive(Clone, Debug)]
pub struct Frontmatter {
    pub entries: Vec<(String, String)>,
}

impl Frontmatter {
    pub open spec fn map(&self) -> Map<Seq<char>, Seq<char>> {
        pairs_map(pairs_view(self.entries@))
    }

    pub open spec fn wf(&self) -> bool {
        unique_keys(pairs_view(self.entries@))
    }

    /// An empty map.
    pub fn new() -> (r: Self)
        ensures
            r.wf(),
            r.map() == Map::<Seq<char>, Seq<char>>::empty(),
            r.entries@.len() == 0,
    {
        let r = Frontmatter { entries: Vec::new() };
        assert(pairs_view(r.entries@) =~= Seq::<(Seq<char>, Seq<char>)>::empty());
        r
    }

    fn find(&self, key: &[char]) -> (r: Option<usize>)
        ensures
            match r {
                Some(i) => i < self.entries@.len() && self.entries@[i as int].0@ == key@,
                None => forall|j: int| 0 <= j < self.entries@.len() ==> self.entries@[j].0@ != key@,
            },
    {
        let mut i: usize = 0;
        while i < self.entries.len()
            invariant
                i <= self.entries@.len(),
                forall|j: int| 0 <= j < i ==> self.entries@[j].0@ != key@,
            decreases self.entries@.len() - i,
        {
            let k = chars_of(self.entries[i].0.as_str());
            if crate::text::chars_eq(k.as_slice(), key) {
                return Some(i);
            }
            i = i + 1;
        }
        None
    }

    /// The value for a key, if any.
    pub fn get(&self, key: &str) -> (r: Option<String>)
        requires
            self.wf(),
        ensures
            match r {
                Some(v) => lookup(self.map(), key@) == Some(v@),
                None => lookup(self.map(), key@) is None,
            },
    {
        let k = chars_of(key);
        match self.find(k.as_slice()) {
            Some(i) => {
                proof {
                    lemma_pairs_map_index(pairs_view(self.entries@), i as int);
                }
                Some(self.entries[i].1.clone())
            },
            None => {
                proof {
                    assert forall|j: int| 0 <= j < pairs_view(self.entries@).len() implies pairs_view(
                        self.entries@,
                    )[j].0 != key@ by {
                        assert(pairs_view(self.entries@)[j].0 == self.entries@[j].0@);
                    }
                    lemma_pairs_map_absent(pairs_view(self.entries@), key@);
                }
                None
            },
        }
    }

    /// Sets the value for a key; a new key goes after the others.
    pub fn insert(&mut self, key: String, value: String)
        requires
            old(self).wf(),
        ensures
            final(self).wf(),
            final(self).map() == old(self).map().insert(key@, value@),
            pairs_view(final(self).entries@) == entries_insert(pairs_view(old(self).entries@), key@, value@),
    {
        let k = chars_of(key.as_str());
        let ghost s = pairs_view(self.entries@);
        match self.find(k.as_slice()) {
            Some(i) => {
                proof {
                    lemma_pairs_map_update(s, i as int, value@);
                    assert forall|j: int| 0 <= j < i implies s[j].0 != key@ by {
                        assert(s[j].0 == self.entries@[j].0@);
                    }
                    lemma_key_pos_at(s, key@, 0, i as int);
                }
                let ghost kv0 = self.entries@[i as int].0;
                self.entries.set(i, (kv0_clone(&self.entries[i].0), value));
                proof {
                    assert(pairs_view(self.entries@) =~= s.update(i as int, (s[i as int].0, value@)));
                }
            },
            None => {
                proof {
                    assert forall|j: int| 0 <= j < s.len() implies s[j].0 != key@ by {
                        assert(s[j].0 == self.entries@[j].0@);
                    }
                    lemma_key_pos_at(s, key@, 0, s.len() as int);
                }
                self.entries.push((key, value));
                proof {
                    assert(pairs_view(self.entries@) =~= s.push((key@, value@)));
                    assert(pairs_view(self.entries@).drop_last() =~= s);
                    assert forall|a: int, b: int|
                        0 <= a < b < pairs_view(self.entries@).len() implies pairs_view(
                        self.entries@,
                    )[a].0 != pairs_view(self.entries@)[b].0 by {
                        if b == s.len() {
                            assert(pairs_view(self.entries@)[a].0 == self.entries@[a].0@);
                        } else {
                            assert(pairs_view(self.entries@)[a] == s[a]);
                            assert(pairs_view(self.entries@)[b] == s[b]);
                        }
                    }
                }
            },
        }
    }
}

fn kv0_clone(s: &String) -> (r: String)
    ensures
        r@ == s@,
{
    s.clone()
}

/// The map the front matter lines give: each line with a ':' sets its key.
pub open spec fn lines_map(ls: Seq<Seq<char>>) -> Map<Seq<char>, Seq<char>>
    decreases ls.len(),
{
    if ls.len() == 0 {
        Map::empty()
    } else {
        let m = lines_map(ls.drop_last());
        match line_entry(ls.last()) {
            Some((k, v)) => m.insert(k, v),
            None => m,
        }
    }
}

/// The front matter map and the body of a state file.
pub open spec fn read_state_spec(text: Seq<char>) -> Result<(Map<Seq<char>, Seq<char>>, Seq<char>), StateError> {
    match front_matter_split(text) {
        Err(e) => Err(e),
        Ok((fm, rest)) => Ok((lines_map(lines(fm)), trim_start_class(rest, CharClass::Newline))),
    }
}

/// The front matter entries and the body of a state file.
pub open spec fn read_entries_spec(text: Seq<char>) -> Result<(Seq<(Seq<char>, Seq<char>)>, Seq<char>), StateError> {
    match front_matter_split(text) {
        Err(e) => Err(e),
        Ok((fm, rest)) => Ok((lines_entries(lines(fm)), trim_start_class(rest, CharClass::Newline))),
    }
}

fn frontmatter_of_lines(ls: &Vec<Vec<char>>) -> (map: Frontmatter)
    ensures
        map.wf(),
        map.map() == lines_map(vviews(ls@)),
        pairs_view(map.entries@) == lines_entries(vviews(ls@)),
{
    let mut map = Frontmatter::new();
    let mut i: usize = 0;
    while i < ls.len()
        invariant
            i <= ls@.len(),
            map.wf(),
            map.map() == lines_map(vviews(ls@).take(i as int)),
            pairs_view(map.entries@) == lines_entries(vviews(ls@).take(i as int)),
        decreases ls@.len() - i,
    {
        proof {
            assert(vviews(ls@).take(i + 1).drop_last() =~= vviews(ls@).take(i as int));
            assert(vviews(ls@).take(i + 1).last() == ls@[i as int]@);
        }
        match read_line_entry(ls[i].as_slice()) {
            Some((k, val)) => {
                map.insert(string_of(k.as_slice()), string_of(val.as_slice()));
            },
            None => {},
        }
        i = i + 1;
    }
    proof {
        assert(vviews(ls@).take(ls@.len() as int) =~= vviews(ls@));
    }
    map
}

/// Reads a state file's text into its front matter map and its body. Fails
/// when the front matter is missing or not closed.
pub fn read_state(text: &str) -> (r: Result<(Frontmatter, String), StateError>)
    ensures
        match r {
            Ok((m, b)) => m.wf() && read_state_spec(text@) == Ok::<
                (Map<Seq<char>, Seq<char>>, Seq<char>),
                StateError,
            >((m.map(), b@)) && read_entries_spec(text@) == Ok::<
                (Seq<(Seq<char>, Seq<char>)>, Seq<char>),
                StateError,
            >((pairs_view(m.entries@), b@)),
            Err(e) => read_state_spec(text@) == Err::<
                (Map<Seq<char>, Seq<char>>, Seq<char>),
                StateError,
            >(e),
        },
{
    let v = chars_of(text);
    let (fm, rest) = match split_front_matter(v.as_slice()) {
        Ok(parts) => parts,
        Err(e) => {
            return Err(e);
        },
    };
    let ls = lines_vec(fm.as_slice());
    let map = frontmatter_of_lines(&ls);
    let body = trim_start_vec(rest.as_slice(), CharClass::Newline);
    Ok((map, string_of(body.as_slice())))
}

/// The keys of a front matter map that the format does not define, with their values.
pub open spec fn extras_map(m: Map<Seq<char>, Seq<char>>) -> Map<Seq<char>, Seq<char>> {
    m.restrict(m.dom().filter(|k: Seq<char>| !known_key(k)))
}

/// Every key kept by `filter_extras` comes from the list.
pub proof fn lemma_filter_keys(t: Seq<(Seq<char>, Seq<char>)>, j: int)
    requires
        0 <= j < crate::state_data::filter_extras(t).len(),
    ensures
        exists|q: int| 0 <= q < t.len() && t[q].0 == crate::state_data::filter_extras(t)[j].0,
    decreases t.len(),
{
    let p = t.drop_last();
    let f = crate::state_data::filter_extras(t);
    if j < crate::state_data::filter_extras(p).len() {
        assert(f[j] == crate::state_data::filter_extras(p)[j]);
        lemma_filter_keys(p, j);
        let q = choose|q: int| 0 <= q < p.len() && p[q].0 == crate::state_data::filter_extras(p)[j].0;
        assert(t[q] == p[q]);
    } else {
        assert(f[j] == t.last());
        assert(t[t.len() - 1] == t.last());
    }
}

/// The entries of the front matter that the format does not define.
pub fn collect_extras(frontmatter: &Frontmatter) -> (r: Frontmatter)
    requires
        frontmatter.wf(),
    ensures
        r.wf(),
        r.map() == extras_map(frontmatter.map()),
        pairs_view(r.entries@) == crate::state_data::filter_extras(pairs_view(frontmatter.entries@)),
{
    let mut out = Frontmatter::new();
    let mut i: usize = 0;
    let ghost s = pairs_view(frontmatter.entries@);
    while i < frontmatter.entries.len()
        invariant
            i <= frontmatter.entries@.len(),
            s == pairs_view(frontmatter.entries@),
            unique_keys(s),
            out.wf(),
            out.map() == extras_map(pairs_map(s.take(i as int))),
            pairs_view(out.entries@) == crate::state_data::filter_extras(s.take(i as int)),
        decreases frontmatter.entries@.len() - i,
    {
        let k = chars_of(frontmatter.entries[i].0.as_str());
        let ghost before = out.map();
        proof {
            assert(s.take(i + 1).drop_last() =~= s.take(i as int));
            assert(s.take(i + 1).last() == s[i as int]);
        }
        if !known_key_chars(k.as_slice()) {
            let ghost before_entries = pairs_view(out.entries@);
            proof {
                assert forall|j: int| 0 <= j < before_entries.len() implies before_entries[j].0 != s[i as int].0 by {
                    lemma_filter_keys(s.take(i as int), j);
                    let q = choose|q: int| 0 <= q < i && s.take(i as int)[q].0 == before_entries[j].0;
                    assert(s.take(i as int)[q] == s[q]);
                }
                lemma_key_pos_at(before_entries, s[i as int].0, 0, before_entries.len() as int);
            }
            out.insert(frontmatter.entries[i].0.clone(), frontmatter.entries[i].1.clone());
            proof {
                assert(out.map() =~= extras_map(pairs_map(s.take(i + 1))));
                assert(pairs_view(out.entries@) =~= crate::state_data::filter_extras(s.take(i + 1)));
            }
        } else {
            proof {
                assert(out.map() =~= extras_map(pairs_map(s.take(i + 1))));
            }
        }
        i = i + 1;
    }
    proof {
        assert(s.take(s.len() as int) =~= s);
    }
    out
}

// ---------------------------------------------------------------------------
// Settings read from the map
// ---------------------------------------------------------------------------

pub open spec fn opt_ref_view(o: Option<&String>) -> Option<Seq<char>> {
    match o {
        Some(s) => Some(s@),
        None => None,
    }
}

/// A whole-number setting: absent or empty gives the default; otherwise it
/// must parse as a `u32`, else `None` (an error).
pub open spec fn u32_field_spec(value: Option<Seq<char>>, default: u32) -> Option<u32> {
    match value {
        None => Some(default),
        Some(v) => if v.len() == 0 {
            Some(default)
        } else {
            match parse_unsigned(v, u32::MAX as nat) {
                Some(n) => Some(n as u32),
                None => None,
            }
        },
    }
}

/// The message for a setting that is not a whole number.
pub open spec fn invalid_field_message(field: Seq<char>) -> Seq<char> {
    "invalid "@ + field + " value"@
}

/// Reads a whole-number setting.
pub fn parse_u32(value: Option<&String>, default: u32, field: &str) -> (r: Result<u32, String>)
    ensures
        match r {
            Ok(n) => u32_field_spec(opt_ref_view(value), default) == Some(n),
            Err(e) => u32_field_spec(opt_ref_view(value), default) is None && e@
                == invalid_field_message(field@),
        },
{
    let v = match value {
        Some(v) => v,
        None => {
            return Ok(default);
        },
    };
    if v.as_str().is_empty() {
        return Ok(default);
    }
    let c = chars_of(v.as_str());
    match parse_u32_chars(c.as_slice()) {
        Some(n) => Ok(n),
        None => {
            let mut m: Vec<char> = Vec::new();
            push_str_chars(&mut m, "invalid ");
            push_str_chars(&mut m, field);
            push_str_chars(&mut m, " value");
            Err(string_of(m.as_slice()))
        },
    }
}

/// A yes/no setting: "true", "1", "yes" and "false", "0", "no" (trimmed, any
/// ASCII case); anything else, or no value, gives the default.
pub open spec fn bool_field_spec(value: Option<Seq<char>>, default: bool) -> bool {
    match value {
        None => default,
        Some(v) => {
            let l = lower_seq(trim(v));
            if l == "true"@ || l == "1"@ || l == "yes"@ {
                true
            } else if l == "false"@ || l == "0"@ || l == "no"@ {
                false
            } else {
                default
            }
        },
    }
}

/// Reads a yes/no setting.
pub fn parse_bool(value: Option<&String>, default: bool) -> (r: bool)
    ensures
        r == bool_field_spec(opt_ref_view(value), default),
{
    let v = match value {
        Some(v) => v,
        None => {
            return default;
        },
    };
    let c = chars_of(v.as_str());
    let t = trim_vec(c.as_slice(), CharClass::Whitespace);
    let l = lower_vec(t.as_slice());
    if chars_eq_str(l.as_slice(), "true") || chars_eq_str(l.as_slice(), "1") || chars_eq_str(
        l.as_slice(),
        "yes",
    ) {
        true
    } else if chars_eq_str(l.as_slice(), "false") || chars_eq_str(l.as_slice(), "0")
        || chars_eq_str(l.as_slice(), "no") {
        false
    } else {
        default
    }
}

/// A task's state as the stop hook works with it.
#[derive(Clone, Debug)]
pub struct TaskState {
    pub schema_version: u32,
    pub task_name: String,
    pub project_path: String,
    pub active: bool,
    pub iteration: u32,
    pub max_iterations: u32,
    pub completion_promise: Option<String>,
    pub completion_matcher: Option<String>,
    pub history_limit: u32,
    pub started_at: String,
    pub updated_at: String,
}

/// The value of a `TaskState`.
pub struct TaskStateSpec {
    pub schema_version: u32,
    pub task_name: Seq<char>,
    pub project_path: Seq<char>,
    pub active: bool,
    pub iteration: u32,
    pub max_iterations: u32,
    pub completion_promise: Option<Seq<char>>,
    pub completion_matcher: Option<Seq<char>>,
    pub history_limit: u32,
    pub started_at: Seq<char>,
    pub updated_at: Seq<char>,
}

impl View for TaskState {
    type V = TaskStateSpec;

    open spec fn view(&self) -> TaskStateSpec {
        TaskStateSpec {
            schema_version: self.schema_version,
            task_name: self.task_name@,
            project_path: self.project_path@,
            active: self.active,
            iteration: self.iteration,
            max_iterations: self.max_iterations,
            completion_promise: opt_view(self.completion_promise),
            completion_matcher: opt_view(self.completion_matcher),
            history_limit: self.history_limit,
            started_at: self.started_at@,
            updated_at: self.updated_at@,
        }
    }
}

/// The completion promise a front matter sets: its value trimmed, unless that
/// is empty or "null" in any ASCII case.
pub open spec fn promise_of(m: Map<Seq<char>, Seq<char>>) -> Option<Seq<char>> {
    match lookup(m, "completion_promise"@) {
        Some(v) => {
            let t = trim(v);
            if t.len() == 0 || lower_seq(t) == "null"@ {
                None
            } else {
                Some(t)
            }
        },
        None => None,
    }
}

/// The matcher a front matter sets: none without a promise; with one, the
/// canonical form of its matcher, or the configured default.
pub open spec fn matcher_of(m: Map<Seq<char>, Seq<char>>, default: Seq<char>) -> Option<Seq<char>> {
    if promise_of(m) is None {
        None
    } else {
        match lookup(m, "completion_matcher"@) {
            Some(v) => match matcher_name_spec(v) {
                Some(n) => Some(n),
                None => Some(default),
            },
            None => Some(default),
        }
    }
}

/// A text setting, unless blank, else the fallback.
pub open spec fn text_or(m: Map<Seq<char>, Seq<char>>, key: Seq<char>, fallback: Seq<char>) -> Seq<char> {
    match lookup(m, key) {
        Some(v) => if is_blank(v) {
            fallback
        } else {
            v
        },
        None => fallback,
    }
}

/// The task state a front matter gives, or the message of the first setting
/// that is not a whole number. `now` is the time of reading.
pub open spec fn parse_state_spec(
    m: Map<Seq<char>, Seq<char>>,
    fallback_task_name: Seq<char>,
    fallback_project_path: Seq<char>,
    defaults: ConfigDefaults,
    now: Seq<char>,
) -> Result<TaskStateSpec, Seq<char>> {
    match u32_field_spec(lookup(m, "schema_version"@), 1) {
        None => Err(invalid_field_message("schema"@)),
        Some(schema_version) => match u32_field_spec(lookup(m, "iteration"@), 0) {
            None => Err(invalid_field_message("iteration"@)),
            Some(iteration) => match u32_field_spec(lookup(m, "max_iterations"@), defaults.max_iterations) {
                None => Err(invalid_field_message("max_iterations"@)),
                Some(max_iterations) => match u32_field_spec(lookup(m, "history_limit"@), defaults.history_limit) {
                    None => Err(invalid_field_message("history_limit"@)),
                    Some(history_limit) => Ok(
                        TaskStateSpec {
                            schema_version,
                            task_name: text_or(m, "task_name"@, fallback_task_name),
                            project_path: text_or(m, "project_path"@, fallback_project_path),
                            active: bool_field_spec(lookup(m, "active"@), true),
                            iteration,
                            max_iterations,
                            completion_promise: promise_of(m),
                            completion_matcher: matcher_of(m, defaults.completion_matcher@),
                            history_limit,
                            started_at: match lookup(m, "started_at"@) {
                                Some(s) => s,
                                None => now,
                            },
                            updated_at: now,
                        },
                    ),
                },
            },
        },
    }
}

fn text_or_exec(fm: &Frontmatter, key: &str, fallback: &str) -> (r: String)
    requires
        fm.wf(),
    ensures
        r@ == text_or(fm.map(), key@, fallback@),
{
    match fm.get(key) {
        Some(v) => {
            let c = chars_of(v.as_str());
            if blank_vec(c.as_slice()) {
                fallback.to_owned()
            } else {
                v
            }
        },
        None => fallback.to_owned(),
    }
}

/// Reads the task state from a front matter map. Fails with the message of
/// the first of `schema_version`, `iteration`, `max_iterations` and
/// `history_limit` that is set and not a whole number.
pub fn parse_state(
    frontmatter: &Frontmatter,
    fallback_task_name: &str,
    fallback_project_path: &str,
    defaults: &ConfigDefaults,
    now: &str,
) -> (r: Result<TaskState, String>)
    requires
        frontmatter.wf(),
    ensures
        match r {
            Ok(s) => parse_state_spec(
                frontmatter.map(),
                fallback_task_name@,
                fallback_project_path@,
                *defaults,
                now@,
            ) == Ok::<TaskStateSpec, Seq<char>>(s@),
            Err(e) => parse_state_spec(
                frontmatter.map(),
                fallback_task_name@,
                fallback_project_path@,
                *defaults,
                now@,
            ) == Err::<TaskStateSpec, Seq<char>>(e@),
        },
{
    let ghost m = frontmatter.map();
    let sv = frontmatter.get("schema_version");
    let schema_version = match parse_u32(sv.as_ref(), 1, "schema") {
        Ok(n) => n,
        Err(e) => {
            return Err(e);
        },
    };
    let av = frontmatter.get("active");
    let active = parse_bool(av.as_ref(), true);
    let iv = frontmatter.get("iteration");
    let iteration = match parse_u32(iv.as_ref(), 0, "iteration") {
        Ok(n) => n,
        Err(e) => {
            return Err(e);
        },
    };
    let mv = frontmatter.get("max_iterations");
    let max_iterations = match parse_u32(mv.as_ref(), defaults.max_iterations, "max_iterations") {
        Ok(n) => n,
        Err(e) => {
            return Err(e);
        },
    };
    let completion_promise: Option<String> = match frontmatter.get("completion_promise") {
        Some(v) => {
            let c = chars_of(v.as_str());
            let t = trim_vec(c.as_slice(), CharClass::Whitespace);
            let l = lower_vec(t.as_slice());
            if t.len() == 0 || chars_eq_str(l.as_slice(), "null") {
                None
            } else {
                Some(string_of(t.as_slice()))
            }
        },
        None => None,
    };
    assert(opt_view(completion_promise) == promise_of(m));
    let completion_matcher: Option<String> = if completion_promise.is_some() {
        match frontmatter.get("completion_matcher") {
            Some(v) => match normalize_matcher_name(v) {
                Some(n) => Some(n),
                None => Some(defaults.completion_matcher.clone()),
            },
            None => Some(defaults.completion_matcher.clone()),
        }
    } else {
        None
    };
    assert(opt_view(completion_matcher) == matcher_of(m, defaults.completion_matcher@));
    let hv = frontmatter.get("history_limit");
    let history_limit = match parse_u32(hv.as_ref(), defaults.history_limit, "history_limit") {
        Ok(n) => n,
        Err(e) => {
            return Err(e);
        },
    };
    let started_at = match frontmatter.get("started_at") {
        Some(s) => s,
        None => now.to_owned(),
    };
    let task_name = text_or_exec(frontmatter, "task_name", fallback_task_name);
    let project_path = text_or_exec(frontmatter, "project_path", fallback_project_path);
    Ok(
        TaskState {
            schema_version,
            task_name,
            project_path,
            active,
            iteration,
            max_iterations,
            completion_promise,
            completion_matcher,
            history_limit,
            started_at,
            updated_at: now.to_owned(),
        },
    )
}


// ---------------------------------------------------------------------------
// Writing the state back
// ---------------------------------------------------------------------------

/// The front matter lines the stop hook writes for a state and its extras.
pub open spec fn task_field_lines(st: TaskStateSpec, extras: Seq<(Seq<char>, Seq<char>)>, cl: Seq<char>, ml: Option<Seq<char>>) -> Seq<Seq<char>> {
    let a = seq![
        kv("schema_version"@, dec(st.schema_version as nat)),
        kv("task_name"@, st.task_name),
        kv("project_path"@, st.project_path),
        kv("active"@, bool_text(st.active)),
        kv("iteration"@, dec(st.iteration as nat)),
        kv("max_iterations"@, dec(st.max_iterations as nat)),
        cl,
    ];
    let b = match ml {
        Some(l) => a.push(l),
        None => a,
    };
    b.push(kv("history_limit"@, dec(st.history_limit as nat))).push(
        kv("started_at"@, quoted(st.started_at)),
    ).push(kv("updated_at"@, quoted(st.updated_at))) + crate::state_data::extra_lines(extras)
}

/// The `completion_promise` line the stop hook writes; `None` when the promise
/// holds a line break.
pub open spec fn task_promise_line(p: Option<Seq<char>>) -> Option<Seq<char>> {
    match p {
        Some(v) => match escape_yaml_spec(v) {
            Some(e) => Some(kv("completion_promise"@, quoted(e))),
            None => None,
        },
        None => Some(kv("completion_promise"@, "null"@)),
    }
}

/// The text the stop hook writes for a state, its extra entries and the
/// prompt; fails when the promise or matcher holds a line break.
pub open spec fn write_state_spec(st: TaskStateSpec, extras: Seq<(Seq<char>, Seq<char>)>, body: Seq<char>) -> Result<Seq<char>, StateError> {
    match task_promise_line(st.completion_promise) {
        None => Err(StateError::MultilineValue),
        Some(cl) => match crate::state_data::matcher_line_spec(st.completion_matcher) {
            None => Err(StateError::MultilineValue),
            Some(ml) => Ok(
                join_lines(
                    seq![dashes()] + task_field_lines(st, extras, cl, ml) + seq![
                        dashes(),
                        Seq::empty(),
                        trim_end_class(body, CharClass::Whitespace),
                        Seq::empty(),
                    ],
                ),
            ),
        },
    }
}

fn push_line(ls: &mut Vec<Vec<char>>, l: Vec<char>)
    ensures
        vviews(final(ls)@) == vviews(old(ls)@).push(l@),
{
    ls.push(l);
    assert(vviews(final(ls)@) =~= vviews(old(ls)@).push(l@));
}

fn push_all_lines(ls: &mut Vec<Vec<char>>, more: &Vec<Vec<char>>)
    ensures
        vviews(final(ls)@) == vviews(old(ls)@) + vviews(more@),
{
    let ghost start = vviews(ls@);
    let mut i: usize = 0;
    while i < more.len()
        invariant
            i <= more@.len(),
            vviews(ls@) == start + vviews(more@).take(i as int),
        decreases more@.len() - i,
    {
        push_line(ls, more[i].clone());
        proof {
            assert(vviews(more@).take(i + 1) =~= vviews(more@).take(i as int).push(more@[i as int]@));
            assert(vviews(ls@) =~= start + vviews(more@).take(i + 1));
        }
        i = i + 1;
    }
    proof {
        assert(vviews(more@).take(more@.len() as int) =~= vviews(more@));
    }
}

fn dec_line(key: &str, n: u32) -> (r: Vec<char>)
    ensures
        r@ == kv(key@, dec(n as nat)),
{
    let mut d: Vec<char> = Vec::new();
    push_dec(&mut d, n as u64);
    assert(d@ =~= dec(n as nat));
    kv_line(key, d.as_slice())
}

fn extra_lines_of(extras: &Frontmatter) -> (r: Vec<Vec<char>>)
    ensures
        vviews(r@) == crate::state_data::extra_lines(pairs_view(extras.entries@)),
{
    let e = &extras.entries;
    let mut ls: Vec<Vec<char>> = Vec::new();
    let mut i: usize = 0;
    while i < e.len()
        invariant
            i <= e@.len(),
            e == &extras.entries,
            vviews(ls@) == crate::state_data::extra_lines(pairs_view(e@).take(i as int)),
        decreases e@.len() - i,
    {
        let key = chars_of(e[i].0.as_str());
        proof {
            assert(pairs_view(e@).take(i + 1).drop_last() =~= pairs_view(e@).take(i as int));
            assert(pairs_view(e@).take(i + 1).last() == (e@[i as int].0@, e@[i as int].1@));
        }
        if !known_key_chars(key.as_slice()) {
            let value = chars_of(e[i].1.as_str());
            push_line(&mut ls, kv_line(e[i].0.as_str(), value.as_slice()));
        }
        assert(vviews(ls@) =~= crate::state_data::extra_lines(pairs_view(e@).take(i + 1)));
        i = i + 1;
    }
    proof {
        assert(pairs_view(e@).take(e@.len() as int) =~= pairs_view(e@));
    }
    ls
}

fn task_field_lines_exec(
    state: &TaskState,
    extras: &Frontmatter,
    cl: Vec<char>,
    ml: Option<Vec<char>>,
    Ghost(mlv): Ghost<Option<Seq<char>>>,
) -> (r: Vec<Vec<char>>)
    requires
        mlv == match ml {
            Some(l) => Some(l@),
            None => None::<Seq<char>>,
        },
    ensures
        vviews(r@) == task_field_lines(state@, pairs_view(extras.entries@), cl@, mlv),
{
    let ghost st = state@;
    let mut ls: Vec<Vec<char>> = Vec::new();
    push_line(&mut ls, dec_line("schema_version", state.schema_version));
    let name = chars_of(state.task_name.as_str());
    push_line(&mut ls, kv_line("task_name", name.as_slice()));
    let pp = chars_of(state.project_path.as_str());
    push_line(&mut ls, kv_line("project_path", pp.as_slice()));
    let active_text = if state.active {
        chars_of("true")
    } else {
        chars_of("false")
    };
    push_line(&mut ls, kv_line("active", active_text.as_slice()));
    push_line(&mut ls, dec_line("iteration", state.iteration));
    push_line(&mut ls, dec_line("max_iterations", state.max_iterations));
    push_line(&mut ls, cl);
    if let Some(l) = ml {
        push_line(&mut ls, l);
    }
    push_line(&mut ls, dec_line("history_limit", state.history_limit));
    let sa = chars_of(state.started_at.as_str());
    push_line(&mut ls, kv_quoted_line("started_at", sa.as_slice()));
    let ua = chars_of(state.updated_at.as_str());
    push_line(&mut ls, kv_quoted_line("updated_at", ua.as_slice()));
    let ex = extra_lines_of(extras);
    push_all_lines(&mut ls, &ex);
    proof {
        assert(vviews(ls@) =~= task_field_lines(st, pairs_view(extras.entries@), cl@, mlv));
    }
    ls
}

/// The text the stop hook writes back to `state.md`: the state's settings,
/// the extra entries it found, and the prompt with trailing whitespace
/// removed. Fails when the promise or matcher holds a line break.
pub fn write_state(state: &TaskState, extras: &Frontmatter, body: &str) -> (r: Result<String, StateError>)
    ensures
        match r {
            Ok(t) => write_state_spec(state@, pairs_view(extras.entries@), body@) == Ok::<Seq<char>, StateError>(t@),
            Err(e) => write_state_spec(state@, pairs_view(extras.entries@), body@) == Err::<Seq<char>, StateError>(e),
        },
{
    let ghost st = state@;
    let cl: Vec<char> = match &state.completion_promise {
        Some(p) => {
            let v = chars_of(p.as_str());
            match escape_chars(v.as_slice()) {
                Some(e) => kv_quoted_line("completion_promise", e.as_slice()),
                None => {
                    return Err(StateError::MultilineValue);
                },
            }
        },
        None => {
            let null = chars_of("null");
            kv_line("completion_promise", null.as_slice())
        },
    };
    let ml: Option<Vec<char>> = match &state.completion_matcher {
        Some(m) => {
            let v = chars_of(m.as_str());
            match escape_chars(v.as_slice()) {
                Some(e) => Some(kv_quoted_line("completion_matcher", e.as_slice())),
                None => {
                    return Err(StateError::MultilineValue);
                },
            }
        },
        None => None,
    };
    let ghost mlv: Option<Seq<char>> = match &ml {
        Some(l) => Some(l@),
        None => None,
    };
    let fl = task_field_lines_exec(state, extras, cl, ml, Ghost(mlv));
    let mut ls: Vec<Vec<char>> = Vec::new();
    push_line(&mut ls, vec!['-', '-', '-']);
    push_all_lines(&mut ls, &fl);
    push_line(&mut ls, vec!['-', '-', '-']);
    push_line(&mut ls, Vec::new());
    let b = chars_of(body);
    push_line(&mut ls, trim_end_vec(b.as_slice(), CharClass::Whitespace));
    push_line(&mut ls, Vec::new());
    proof {
        assert(vviews(ls@) =~= seq![dashes()] + task_field_lines(st, pairs_view(extras.entries@), cl@, mlv) + seq![
            dashes(),
            Seq::empty(),
            trim_end_class(body@, CharClass::Whitespace),
            Seq::empty(),
        ]);
    }
    let text = join_lines_exec(&ls);
    Ok(string_of(text.as_slice()))
}

// ---------------------------------------------------------------------------
// Reading back what the hook writes
// ---------------------------------------------------------------------------

/// Whether a written line is read as `key` with `value`, and survives the
/// file's layout (one line, no `---`).
pub open spec fn reads_as(l: Seq<char>, key: Seq<char>, value: Seq<char>) -> bool {
    &&& line_entry(l) == Some((key, value))
    &&& crate::text::line_ok(l)
    &&& crate::text::no_triple_dash(l)
}

proof fn lemma_bare_line(key: Seq<char>, v: Seq<char>)
    requires
        crate::frontmatter::plain_key(key),
        crate::state_data::bare_value(v),
    ensures
        reads_as(kv(key, v), key, v),
{
    crate::state_data::lemma_key_line(key, v);
    crate::text::lemma_read_bare(v);
}

proof fn lemma_dec_line(key: Seq<char>, n: nat)
    requires
        crate::frontmatter::plain_key(key),
    ensures
        reads_as(kv(key, dec(n)), key, dec(n)),
{
    crate::state_data::lemma_dec_value(n);
    crate::state_data::lemma_key_line(key, dec(n));
    crate::text::lemma_read_bare(dec(n));
}

proof fn lemma_quoted_line(key: Seq<char>, v: Seq<char>)
    requires
        crate::frontmatter::plain_key(key),
        !crate::text::contains_char(v, '\n'),
        crate::text::no_triple_dash(v),
        v.len() == 0 || (v[0] != '"' && v.last() != '"'),
    ensures
        reads_as(kv(key, quoted(v)), key, v),
{
    crate::state_data::lemma_quoted_ok(v);
    crate::state_data::lemma_key_line(key, quoted(v));
    crate::text::lemma_read_quoted(v);
}

proof fn lemma_lines_map_push(ls: Seq<Seq<char>>, l: Seq<char>)
    ensures
        lines_map(ls.push(l)) == match line_entry(l) {
            Some((k, v)) => lines_map(ls).insert(k, v),
            None => lines_map(ls),
        },
{
    assert(ls.push(l).drop_last() =~= ls);
}

/// The extra lines leave the format's own keys as they were, and survive the
/// file's layout.
proof fn lemma_lines_map_extras(base: Seq<Seq<char>>, e: Seq<(Seq<char>, Seq<char>)>)
    requires
        forall|i: int| 0 <= i < e.len() ==> crate::state_data::extra_entry_ok(#[trigger] e[i]),
    ensures
        forall|k: Seq<char>| known_key(k) ==> #[trigger] lookup(lines_map(base + crate::state_data::extra_lines(e)), k)
            == lookup(lines_map(base), k),
        forall|j: int| 0 <= j < crate::state_data::extra_lines(e).len() ==> crate::text::line_ok(
            #[trigger] crate::state_data::extra_lines(e)[j],
        ) && crate::text::no_triple_dash(crate::state_data::extra_lines(e)[j]),
    decreases e.len(),
{
    if e.len() == 0 {
        assert(base + crate::state_data::extra_lines(e) =~= base);
    } else {
        let init = e.drop_last();
        assert forall|i: int| 0 <= i < init.len() implies crate::state_data::extra_entry_ok(#[trigger] init[i]) by {
            assert(init[i] == e[i]);
        }
        lemma_lines_map_extras(base, init);
        let last = e.last();
        assert(crate::state_data::extra_entry_ok(e[e.len() - 1]));
        let xi = crate::state_data::extra_lines(init);
        if known_key(last.0) {
            assert(crate::state_data::extra_lines(e) =~= xi);
        } else {
            let line = kv(last.0, last.1);
            assert(crate::state_data::extra_lines(e) =~= xi.push(line));
            assert(base + crate::state_data::extra_lines(e) =~= (base + xi).push(line));
            crate::frontmatter::lemma_kv_entry(last.0, last.1);
            crate::text::lemma_read_bare(last.1);
            crate::frontmatter::lemma_kv_line_ok(last.0, last.1);
            lemma_lines_map_push(base + xi, line);
            assert forall|k: Seq<char>| known_key(k) implies #[trigger] lookup(
                lines_map(base + crate::state_data::extra_lines(e)),
                k,
            ) == lookup(lines_map(base), k) by {
                assert(k != last.0);
                assert(lookup(lines_map(base + xi), k) == lookup(lines_map(base), k));
            }
            assert forall|j: int| 0 <= j < crate::state_data::extra_lines(e).len() implies crate::text::line_ok(
                #[trigger] crate::state_data::extra_lines(e)[j],
            ) && crate::text::no_triple_dash(crate::state_data::extra_lines(e)[j]) by {
                if j < xi.len() {
                    assert(crate::state_data::extra_lines(e)[j] == xi[j]);
                }
            }
        }
    }
}

/// Under a key the format does not define, the extra lines read as the last
/// extra entry of that key, or, without one, as the lines before them.
proof fn lemma_lines_map_extras_read(base: Seq<Seq<char>>, e: Seq<(Seq<char>, Seq<char>)>)
    requires
        forall|i: int| 0 <= i < e.len() ==> crate::state_data::extra_entry_ok(#[trigger] e[i]),
    ensures
        forall|k: Seq<char>| !known_key(k) ==> #[trigger] lookup(lines_map(base + crate::state_data::extra_lines(e)), k)
            == if pairs_map(e).contains_key(k) {
            Some(pairs_map(e)[k])
        } else {
            lookup(lines_map(base), k)
        },
    decreases e.len(),
{
    if e.len() == 0 {
        assert(base + crate::state_data::extra_lines(e) =~= base);
    } else {
        let init = e.drop_last();
        assert forall|i: int| 0 <= i < init.len() implies crate::state_data::extra_entry_ok(#[trigger] init[i]) by {
            assert(init[i] == e[i]);
        }
        lemma_lines_map_extras_read(base, init);
        let last = e.last();
        assert(crate::state_data::extra_entry_ok(e[e.len() - 1]));
        let xi = crate::state_data::extra_lines(init);
        assert(pairs_map(e) == pairs_map(init).insert(last.0, last.1));
        if known_key(last.0) {
            assert(crate::state_data::extra_lines(e) =~= xi);
        } else {
            let line = kv(last.0, last.1);
            assert(crate::state_data::extra_lines(e) =~= xi.push(line));
            assert(base + crate::state_data::extra_lines(e) =~= (base + xi).push(line));
            crate::frontmatter::lemma_kv_entry(last.0, last.1);
            crate::text::lemma_read_bare(last.1);
            crate::frontmatter::lemma_kv_line_ok(last.0, last.1);
            lemma_lines_map_push(base + xi, line);
        }
    }
}

/// The head lines name only keys the format defines.
proof fn lemma_head_keys_known(st: TaskStateSpec)
    ensures
        forall|k: Seq<char>| head_map(st).contains_key(k) ==> known_key(k),
{
    crate::state_data::lemma_key_facts();
    crate::frontmatter::lemma_known_keys_plain();
    reveal_strlit("schema_version");
    reveal_strlit("task_name");
    reveal_strlit("project_path");
    reveal_strlit("active");
    reveal_strlit("iteration");
    reveal_strlit("max_iterations");
    reveal_strlit("completion_promise");
    reveal_strlit("completion_matcher");
    reveal_strlit("history_limit");
    reveal_strlit("started_at");
    reveal_strlit("updated_at");
    assert(known_key("schema_version"@));
    assert(known_key("task_name"@));
    assert(known_key("project_path"@));
    assert(known_key("active"@));
    assert(known_key("iteration"@));
    assert(known_key("max_iterations"@));
    assert(known_key("completion_promise"@));
    assert(known_key("completion_matcher"@));
    assert(known_key("history_limit"@));
    assert(known_key("started_at"@));
    assert(known_key("updated_at"@));
}

/// The states whose file the hook writes and reads back as `hook_reread`
/// says: text fields that survive the format, a promise that reads as itself,
/// a matcher in canonical form, a start time (possibly empty) that reads as
/// itself, an update time on one line, and extra entries that read back.
pub open spec fn hook_round_trip_ok(st: TaskStateSpec, extras: Seq<(Seq<char>, Seq<char>)>) -> bool {
    &&& crate::state_data::bare_value(st.task_name) && !is_blank(st.task_name)
    &&& crate::state_data::bare_value(st.project_path) && !is_blank(st.project_path)
    &&& (st.completion_promise matches Some(p) ==> crate::state_data::quotable_value(p) && !is_blank(p)
        && trim(p) == p && lower_seq(p) != "null"@)
    &&& (st.completion_matcher matches Some(m) ==> crate::config::is_canonical_matcher(m))
    &&& hook_stamp_ok(st.started_at)
    &&& !crate::text::contains_char(st.updated_at, '\n') && crate::text::no_triple_dash(st.updated_at)
    &&& forall|i: int| 0 <= i < extras.len() ==> crate::state_data::extra_entry_ok(#[trigger] extras[i])
}

/// A start time that the hook writes between double quotes and reads back
/// unchanged: one line, no `---`, and no double quote at either end (it may
/// be empty).
pub open spec fn hook_stamp_ok(v: Seq<char>) -> bool {
    !crate::text::contains_char(v, '\n') && crate::text::no_triple_dash(v) && (v.len() == 0 || (v[0] != '"'
        && v.last() != '"'))
}

/// What the hook's reader makes of a value written between double quotes:
/// the quotes and any double quote at its ends go.
pub open spec fn quoted_read(v: Seq<char>) -> Seq<char> {
    crate::text::trim_class(crate::text::trim_class(seq![' '] + quoted(v), CharClass::Whitespace), CharClass::Quote)
}

/// What the hook reads back of the state it wrote: the same state, updated
/// now, with the project's matcher when a promise has none and no matcher
/// without a promise.
pub open spec fn hook_reread(st: TaskStateSpec, defaults: ConfigDefaults, now: Seq<char>) -> TaskStateSpec {
    TaskStateSpec {
        completion_matcher: if st.completion_promise is None {
            None
        } else {
            match st.completion_matcher {
                Some(m) => Some(m),
                None => Some(defaults.completion_matcher@),
            }
        },
        updated_at: now,
        ..st
    }
}

proof fn lemma_canonical_matchers()
    ensures
        matcher_name_spec("exact"@) == Some("exact"@),
        matcher_name_spec("case_insensitive"@) == Some("case_insensitive"@),
        matcher_name_spec("regex"@) == Some("regex"@),
        crate::state_data::quotable_value("exact"@),
        crate::state_data::quotable_value("case_insensitive"@),
        crate::state_data::quotable_value("regex"@),
        "exact"@.len() > 0 && "exact"@[0] != '"' && "exact"@.last() != '"',
        "case_insensitive"@.len() > 0 && "case_insensitive"@[0] != '"' && "case_insensitive"@.last() != '"',
        "regex"@.len() > 0 && "regex"@[0] != '"' && "regex"@.last() != '"',
{
    reveal_strlit("exact");
    reveal_strlit("case_insensitive");
    reveal_strlit("ci");
    reveal_strlit("insensitive");
    reveal_strlit("regex");
    lemma_plain_word("exact"@);
    lemma_plain_word("case_insensitive"@);
    lemma_plain_word("regex"@);
}

/// A word of lowercase letters and underscores: it trims and lowercases to
/// itself and survives being quoted.
proof fn lemma_plain_word(w: Seq<char>)
    requires
        w.len() > 0,
        forall|i: int| 0 <= i < w.len() ==> ('a' <= #[trigger] w[i] && w[i] <= 'z') || w[i] == '_',
    ensures
        lower_seq(trim(w)) == w,
        crate::state_data::quotable_value(w),
{
    assert(('a' <= w[0] && w[0] <= 'z') || w[0] == '_');
    assert(('a' <= w[w.len() - 1] && w[w.len() - 1] <= 'z') || w[w.len() - 1] == '_');
    crate::text::lemma_trim_class_clean(w, CharClass::Whitespace);
    assert(lower_seq(w) =~= w);
    assert forall|c: char| c == '\n' || c == '\r' || c == '\\' || c == '"' implies !crate::text::contains_char(w, c) by {
        if crate::text::contains_char(w, c) {
            let i = choose|i: int| 0 <= i < w.len() && w[i] == c;
            assert(('a' <= w[i] && w[i] <= 'z') || w[i] == '_');
        }
    }
    assert forall|i: int| 0 <= i && i + 2 < w.len() implies !#[trigger] crate::text::triple_dash_at(w, i) by {
        assert(('a' <= w[i] && w[i] <= 'z') || w[i] == '_');
    }
}

proof fn lemma_bool_values()
    ensures
        bool_field_spec(Some(bool_text(true)), true) == true,
        bool_field_spec(Some(bool_text(false)), true) == false,
        crate::state_data::bare_value(bool_text(true)),
        crate::state_data::bare_value(bool_text(false)),
{
    crate::state_data::lemma_literal_values();
    reveal_strlit("true");
    reveal_strlit("false");
    lemma_plain_word("true"@);
    lemma_plain_word("false"@);
}

/// The value the `completion_promise` line holds: the promise, or "null".
pub open spec fn promise_value(p: Option<Seq<char>>) -> Seq<char> {
    match p {
        Some(v) => v,
        None => "null"@,
    }
}

/// The map the head lines of a written state read as, before the extra entries.
pub open spec fn head_map(st: TaskStateSpec) -> Map<Seq<char>, Seq<char>> {
    let m = Map::<Seq<char>, Seq<char>>::empty().insert("schema_version"@, dec(st.schema_version as nat)).insert(
        "task_name"@,
        st.task_name,
    ).insert("project_path"@, st.project_path).insert("active"@, bool_text(st.active)).insert(
        "iteration"@,
        dec(st.iteration as nat),
    ).insert("max_iterations"@, dec(st.max_iterations as nat)).insert(
        "completion_promise"@,
        promise_value(st.completion_promise),
    );
    let m2 = match st.completion_matcher {
        Some(x) => m.insert("completion_matcher"@, x),
        None => m,
    };
    m2.insert("history_limit"@, dec(st.history_limit as nat)).insert("started_at"@, st.started_at).insert(
        "updated_at"@,
        quoted_read(st.updated_at),
    )
}

/// The head lines the hook writes read back as `head_map`, and survive the layout.
proof fn lemma_head_lines(st: TaskStateSpec, cl: Seq<char>, ml: Option<Seq<char>>) -> (g: Seq<Seq<char>>)
    requires
        hook_round_trip_ok(st, Seq::empty()),
        task_promise_line(st.completion_promise) == Some(cl),
        crate::state_data::matcher_line_spec(st.completion_matcher) == Some(ml),
    ensures
        g.len() >= 1,
        forall|x: Seq<(Seq<char>, Seq<char>)>| #[trigger] task_field_lines(st, x, cl, ml) == g + crate::state_data::extra_lines(x),
        forall|k: int| 0 <= k < g.len() ==> crate::text::line_ok(#[trigger] g[k]) && crate::text::no_triple_dash(g[k]),
        lines_map(seq![Seq::<char>::empty()] + g) == head_map(st),
{
    crate::frontmatter::lemma_known_keys_plain();
    lemma_bool_values();
    crate::state_data::lemma_literal_values();
    let e: Seq<char> = Seq::empty();
    let l1 = kv("schema_version"@, dec(st.schema_version as nat));
    let l2 = kv("task_name"@, st.task_name);
    let l3 = kv("project_path"@, st.project_path);
    let l4 = kv("active"@, bool_text(st.active));
    let l5 = kv("iteration"@, dec(st.iteration as nat));
    let l6 = kv("max_iterations"@, dec(st.max_iterations as nat));
    let lh = kv("history_limit"@, dec(st.history_limit as nat));
    let ls = kv("started_at"@, quoted(st.started_at));
    let lu = kv("updated_at"@, quoted(st.updated_at));
    lemma_dec_line("schema_version"@, st.schema_version as nat);
    lemma_bare_line("task_name"@, st.task_name);
    lemma_bare_line("project_path"@, st.project_path);
    lemma_bare_line("active"@, bool_text(st.active));
    lemma_dec_line("iteration"@, st.iteration as nat);
    lemma_dec_line("max_iterations"@, st.max_iterations as nat);
    lemma_dec_line("history_limit"@, st.history_limit as nat);
    lemma_quoted_line("started_at"@, st.started_at);
    crate::state_data::lemma_quoted_ok(st.updated_at);
    crate::state_data::lemma_key_line("updated_at"@, quoted(st.updated_at));
    assert(reads_as(lu, "updated_at"@, quoted_read(st.updated_at)));
    // the promise line
    match st.completion_promise {
        Some(p) => {
            crate::frontmatter::lemma_escape_plain(p);
            crate::state_data::lemma_no_quote_ends(p);
            lemma_quoted_line("completion_promise"@, p);
            assert(cl == kv("completion_promise"@, quoted(p)));
        },
        None => {
            lemma_bare_line("completion_promise"@, "null"@);
            assert(cl == kv("completion_promise"@, "null"@));
        },
    }
    assert(reads_as(cl, "completion_promise"@, promise_value(st.completion_promise)));
    // the matcher line
    match st.completion_matcher {
        Some(m) => {
            lemma_canonical_matchers();
            crate::frontmatter::lemma_escape_plain(m);
            lemma_quoted_line("completion_matcher"@, m);
            assert(ml == Some(kv("completion_matcher"@, quoted(m))));
        },
        None => {},
    }
    let h0: Seq<Seq<char>> = seq![e];
    assert(crate::text::find_char_from(e, ':', 0) == 0);
    assert(line_entry(e) is None);
    assert(h0 =~= Seq::<Seq<char>>::empty().push(e));
    lemma_lines_map_push(Seq::<Seq<char>>::empty(), e);
    assert(lines_map(h0) == Map::<Seq<char>, Seq<char>>::empty());
    let h1 = h0.push(l1);
    let h2 = h1.push(l2);
    let h3 = h2.push(l3);
    let h4 = h3.push(l4);
    let h5 = h4.push(l5);
    let h6 = h5.push(l6);
    let h7 = h6.push(cl);
    lemma_lines_map_push(h0, l1);
    lemma_lines_map_push(h1, l2);
    lemma_lines_map_push(h2, l3);
    lemma_lines_map_push(h3, l4);
    lemma_lines_map_push(h4, l5);
    lemma_lines_map_push(h5, l6);
    lemma_lines_map_push(h6, cl);
    let h8 = match ml {
        Some(l) => {
            lemma_lines_map_push(h7, l);
            h7.push(l)
        },
        None => h7,
    };
    let h9 = h8.push(lh);
    let h10 = h9.push(ls);
    let h11 = h10.push(lu);
    lemma_lines_map_push(h8, lh);
    lemma_lines_map_push(h9, ls);
    lemma_lines_map_push(h10, lu);
    let a = seq![l1, l2, l3, l4, l5, l6, cl];
    let b = match ml {
        Some(l) => a.push(l),
        None => a,
    };
    let g = b.push(lh).push(ls).push(lu);
    assert(seq![e] + g =~= h11);
    assert forall|x: Seq<(Seq<char>, Seq<char>)>| #[trigger] task_field_lines(st, x, cl, ml) == g + crate::state_data::extra_lines(x) by {}
    assert forall|k: int| 0 <= k < g.len() implies crate::text::line_ok(#[trigger] g[k]) && crate::text::no_triple_dash(g[k]) by {
        if k == g.len() - 1 {
            assert(g[k] == lu);
        } else if k == g.len() - 2 {
            assert(g[k] == ls);
        } else if k == g.len() - 3 {
            assert(g[k] == lh);
        } else if k == 7 {
            assert(ml is Some);
            assert(g[k] == ml->Some_0);
        } else {
            assert(g[k] == a[k]);
        }
    }
    g
}

/// What the stop hook writes for a state reads back, with the hook's own
/// reader, as that state updated now (`hook_reread`), for every state whose
/// text fields survive the format (`hook_round_trip_ok`); the prompt reads
/// back without its trailing whitespace and with one final line break, and
/// the entries the format does not define read back as the extra entries
/// that were written.
pub proof fn lemma_hook_state_round_trip(
    st: TaskStateSpec,
    extras: Seq<(Seq<char>, Seq<char>)>,
    body: Seq<char>,
    fallback_task_name: Seq<char>,
    fallback_project_path: Seq<char>,
    defaults: ConfigDefaults,
    now: Seq<char>,
)
    requires
        hook_round_trip_ok(st, extras),
    ensures
        write_state_spec(st, extras, body) is Ok,
        read_state_spec(write_state_spec(st, extras, body)->Ok_0) matches Ok((m, b)) && parse_state_spec(
            m,
            fallback_task_name,
            fallback_project_path,
            defaults,
            now,
        ) == Ok::<TaskStateSpec, Seq<char>>(hook_reread(st, defaults, now)) && b == trim_start_class(
            seq!['\n', '\n'] + trim_end_class(body, CharClass::Whitespace) + seq!['\n'],
            CharClass::Newline,
        ) && extras_map(m) == extras_map(pairs_map(extras)),
{
    let e: Seq<char> = Seq::empty();
    let cl = task_promise_line(st.completion_promise)->Some_0;
    let ml = crate::state_data::matcher_line_spec(st.completion_matcher)->Some_0;
    assert(task_promise_line(st.completion_promise) is Some) by {
        match st.completion_promise {
            Some(p) => {
                assert(!crate::text::contains_char(p, '\n') && !crate::text::contains_char(p, '\r'));
            },
            None => {},
        }
    }
    assert(crate::state_data::matcher_line_spec(st.completion_matcher) is Some) by {
        match st.completion_matcher {
            Some(m) => {
                lemma_canonical_matchers();
            },
            None => {},
        }
    }
    let g = lemma_head_lines(st, cl, ml);
    let x = crate::state_data::extra_lines(extras);
    let f = g + x;
    assert(task_field_lines(st, extras, cl, ml) == f);
    let tp = trim_end_class(body, CharClass::Whitespace);
    let text = join_lines(seq![dashes()] + f + seq![dashes(), e, tp, e]);
    assert(write_state_spec(st, extras, body) == Ok::<Seq<char>, StateError>(text));
    let base = seq![e] + g;
    lemma_lines_map_extras(base, extras);
    assert forall|k: int| 0 <= k < f.len() implies crate::text::line_ok(#[trigger] f[k]) && crate::text::no_triple_dash(f[k]) by {
        if k < g.len() {
            assert(f[k] == g[k]);
        } else {
            assert(f[k] == x[k - g.len()]);
        }
    }
    crate::state_data::lemma_written_split(f, tp);
    crate::state_data::lemma_written_lines(f);
    assert(seq![e] + f =~= base + x);
    let m = lines_map(base + x);
    let h = head_map(st);
    assert(lines_map(base) == h);
    lemma_head_lookups(st, m);
    lemma_parse_head(st, m, fallback_task_name, fallback_project_path, defaults, now);
    lemma_lines_map_extras_read(base, extras);
    lemma_head_keys_known(st);
    let pm = pairs_map(extras);
    assert forall|k: Seq<char>| #[trigger] extras_map(m).contains_key(k) == extras_map(pm).contains_key(k) by {
        if !known_key(k) {
            assert(lookup(m, k) == if pm.contains_key(k) { Some(pm[k]) } else { lookup(h, k) });
        }
    }
    assert forall|k: Seq<char>| #[trigger] extras_map(m).contains_key(k) implies extras_map(m)[k] == extras_map(pm)[k] by {
        assert(lookup(m, k) == if pm.contains_key(k) { Some(pm[k]) } else { lookup(h, k) });
    }
    assert(extras_map(m) =~= extras_map(pm));
}

proof fn lemma_head_lookups(st: TaskStateSpec, m: Map<Seq<char>, Seq<char>>)
    requires
        forall|k: Seq<char>| known_key(k) ==> #[trigger] lookup(m, k) == lookup(head_map(st), k),
    ensures
        lookup(m, "schema_version"@) == Some(dec(st.schema_version as nat)),
        lookup(m, "task_name"@) == Some(st.task_name),
        lookup(m, "project_path"@) == Some(st.project_path),
        lookup(m, "active"@) == Some(bool_text(st.active)),
        lookup(m, "iteration"@) == Some(dec(st.iteration as nat)),
        lookup(m, "max_iterations"@) == Some(dec(st.max_iterations as nat)),
        lookup(m, "completion_promise"@) == Some(promise_value(st.completion_promise)),
        lookup(m, "completion_matcher"@) == st.completion_matcher,
        lookup(m, "history_limit"@) == Some(dec(st.history_limit as nat)),
        lookup(m, "started_at"@) == Some(st.started_at),
{
    crate::state_data::lemma_key_facts();
    crate::frontmatter::lemma_known_keys_plain();
    reveal_strlit("schema_version");
    reveal_strlit("task_name");
    reveal_strlit("project_path");
    reveal_strlit("active");
    reveal_strlit("iteration");
    reveal_strlit("max_iterations");
    reveal_strlit("completion_promise");
    reveal_strlit("completion_matcher");
    reveal_strlit("history_limit");
    reveal_strlit("started_at");
    reveal_strlit("updated_at");
    assert(known_key("schema_version"@));
    assert(known_key("task_name"@));
    assert(known_key("project_path"@));
    assert(known_key("active"@));
    assert(known_key("iteration"@));
    assert(known_key("max_iterations"@));
    assert(known_key("completion_promise"@));
    assert(known_key("completion_matcher"@));
    assert(known_key("history_limit"@));
    assert(known_key("started_at"@));
    assert(lookup(m, "schema_version"@) == lookup(head_map(st), "schema_version"@));
    assert(lookup(m, "task_name"@) == lookup(head_map(st), "task_name"@));
    assert(lookup(m, "project_path"@) == lookup(head_map(st), "project_path"@));
    assert(lookup(m, "active"@) == lookup(head_map(st), "active"@));
    assert(lookup(m, "iteration"@) == lookup(head_map(st), "iteration"@));
    assert(lookup(m, "max_iterations"@) == lookup(head_map(st), "max_iterations"@));
    assert(lookup(m, "completion_promise"@) == lookup(head_map(st), "completion_promise"@));
    assert(lookup(m, "completion_matcher"@) == lookup(head_map(st), "completion_matcher"@));
    assert(lookup(m, "history_limit"@) == lookup(head_map(st), "history_limit"@));
    assert(lookup(m, "started_at"@) == lookup(head_map(st), "started_at"@));
}

proof fn lemma_parse_head(
    st: TaskStateSpec,
    m: Map<Seq<char>, Seq<char>>,
    fallback_task_name: Seq<char>,
    fallback_project_path: Seq<char>,
    defaults: ConfigDefaults,
    now: Seq<char>,
)
    requires
        hook_round_trip_ok(st, Seq::empty()),
        lookup(m, "schema_version"@) == Some(dec(st.schema_version as nat)),
        lookup(m, "task_name"@) == Some(st.task_name),
        lookup(m, "project_path"@) == Some(st.project_path),
        lookup(m, "active"@) == Some(bool_text(st.active)),
        lookup(m, "iteration"@) == Some(dec(st.iteration as nat)),
        lookup(m, "max_iterations"@) == Some(dec(st.max_iterations as nat)),
        lookup(m, "completion_promise"@) == Some(promise_value(st.completion_promise)),
        lookup(m, "completion_matcher"@) == st.completion_matcher,
        lookup(m, "history_limit"@) == Some(dec(st.history_limit as nat)),
        lookup(m, "started_at"@) == Some(st.started_at),
    ensures
        parse_state_spec(m, fallback_task_name, fallback_project_path, defaults, now) == Ok::<
            TaskStateSpec,
            Seq<char>,
        >(hook_reread(st, defaults, now)),
{
    crate::numbers::lemma_parse_dec(st.schema_version as nat, u32::MAX as nat);
    crate::numbers::lemma_parse_dec(st.iteration as nat, u32::MAX as nat);
    crate::numbers::lemma_parse_dec(st.max_iterations as nat, u32::MAX as nat);
    crate::numbers::lemma_parse_dec(st.history_limit as nat, u32::MAX as nat);
    crate::numbers::lemma_dec_digits(st.schema_version as nat);
    crate::numbers::lemma_dec_digits(st.iteration as nat);
    crate::numbers::lemma_dec_digits(st.max_iterations as nat);
    crate::numbers::lemma_dec_digits(st.history_limit as nat);
    lemma_bool_values();
    crate::state_data::lemma_literal_values();
    match st.completion_promise {
        Some(p) => {
            assert(promise_of(m) == Some(p));
            match st.completion_matcher {
                Some(x) => {
                    lemma_canonical_matchers();
                    assert(matcher_name_spec(x) == Some(x));
                },
                None => {},
            }
        },
        None => {
            reveal_strlit("null");
            crate::text::lemma_trim_class_clean("null"@, CharClass::Whitespace);
            assert(promise_of(m) is None);
        },
    }
}

/// A yes/no setting reads back as the value written for it, whatever the
/// default; words that say neither yes nor no leave the default.
pub proof fn lemma_bool_setting(b: bool, d: bool, v: Seq<char>)
    ensures
        bool_field_spec(Some(bool_text(b)), d) == b,
        lower_seq(trim(v)) == "yes"@ || lower_seq(trim(v)) == "1"@ ==> bool_field_spec(Some(v), d),
        lower_seq(trim(v)) == "no"@ || lower_seq(trim(v)) == "0"@ ==> !bool_field_spec(Some(v), d),
        bool_field_spec(None, d) == d,
{
    lemma_bool_values();
    reveal_strlit("true");
    reveal_strlit("false");
    lemma_plain_word("true"@);
    lemma_plain_word("false"@);
    reveal_strlit("yes");
    reveal_strlit("no");
    reveal_strlit("1");
    reveal_strlit("0");
    assert("yes"@.len() != "false"@.len() && "yes"@.len() != "0"@.len() && "yes"@.len() != "no"@.len());
    assert("1"@.len() != "false"@.len() && "1"@[0] != "0"@[0] && "1"@.len() != "no"@.len());
    assert("no"@.len() != "true"@.len() && "no"@.len() != "1"@.len() && "no"@.len() != "yes"@.len());
    assert("0"@.len() != "true"@.len() && "0"@[0] != "1"@[0] && "0"@.len() != "yes"@.len());
    assert("true"@.len() != "1"@.len());
    assert("false"@.len() != "0"@.len());
}

} // verus!
