//! Pieces shared by the two readers and writers of `state.md`: the split of
//! the file into front matter and body, `key: value` lines, quoting and the
//! set of keys the format itself uses.
use vstd::prelude::*;
use crate::text::{
    chars_eq_str, contains_char, has_char, is_prefix, is_ws, lemma_find_char_at,
    lemma_no_triple_concat3, lemma_trim_class_clean, line_ok, matches_at, no_triple_dash,
    push_all, push_str_chars, split_once_spec, split_once_vec, sub_vec, trim_class, trim_vec,
    triple_dash_at, CharClass,
};

verus! {

/// Why a state file could not be read or written.
#[derive(Clone, Copy, PartialEq, Eq, Structural, Debug)]
pub enum StateError {
    /// The file does not start with `---`.
    MissingFrontmatter,
    /// No second `---` closes the front matter.
    MissingClosingFrontmatter,
    /// The `iteration` value is not a `u32`.
    InvalidIteration,
    /// The `max_iterations` value is not a `u32`.
    InvalidMaxIterations,
    /// A quoted value holds a line break.
    MultilineValue,
}

impl StateError {
    /// The message the error is reported with.
    pub fn message(&self) -> (r: String)
        ensures
            r@ == state_error_message(*self),
    {
        match self {
            StateError::MissingFrontmatter => "state file missing frontmatter".to_owned(),
            StateError::MissingClosingFrontmatter => "state file missing closing frontmatter".to_owned(),
            StateError::InvalidIteration => "invalid iteration value in state file".to_owned(),
            StateError::InvalidMaxIterations => "invalid max_iterations value in state file".to_owned(),
            StateError::MultilineValue => "completion_promise must be a single line".to_owned(),
        }
    }
}

/// The message of each state file error.
pub open spec fn state_error_message(e: StateError) -> Seq<char> {
    match e {
        StateError::MissingFrontmatter => "state file missing frontmatter"@,
        StateError::MissingClosingFrontmatter => "state file missing closing frontmatter"@,
        StateError::InvalidIteration => "invalid iteration value in state file"@,
        StateError::InvalidMaxIterations => "invalid max_iterations value in state file"@,
        StateError::MultilineValue => "completion_promise must be a single line"@,
    }
}

/// The front matter delimiter `---`.
pub open spec fn dashes() -> Seq<char> {
    seq!['-', '-', '-']
}

/// The first index at or after `i` where `p` occurs in `s`, or the length of `s`.
pub open spec fn find_seq_from(s: Seq<char>, p: Seq<char>, i: int) -> int
    decreases s.len() - i,
{
    if i < 0 || i >= s.len() {
        s.len() as int
    } else if is_prefix(p, s.subrange(i, s.len() as int)) {
        i
    } else {
        find_seq_from(s, p, i + 1)
    }
}

pub proof fn lemma_find_seq_from(s: Seq<char>, p: Seq<char>, i: int)
    requires
        0 <= i <= s.len(),
        p.len() > 0,
    ensures
        i <= find_seq_from(s, p, i) <= s.len(),
        find_seq_from(s, p, i) < s.len() ==> is_prefix(
            p,
            s.subrange(find_seq_from(s, p, i), s.len() as int),
        ),
        forall|k: int|
            i <= k < find_seq_from(s, p, i) ==> !is_prefix(p, #[trigger] s.subrange(k, s.len() as int)),
    decreases s.len() - i,
{
    if i < s.len() && !is_prefix(p, s.subrange(i, s.len() as int)) {
        lemma_find_seq_from(s, p, i + 1);
    }
}

/// The split `text.splitn(3, "---")` makes of a state file: the front matter
/// between the opening and the next `---`, and what follows that.
pub open spec fn front_matter_split(text: Seq<char>) -> Result<(Seq<char>, Seq<char>), StateError> {
    if !is_prefix(dashes(), text) {
        Err(StateError::MissingFrontmatter)
    } else {
        let p = find_seq_from(text, dashes(), 3);
        if p >= text.len() {
            Err(StateError::MissingClosingFrontmatter)
        } else {
            Ok((text.subrange(3, p), text.subrange(p + 3, text.len() as int)))
        }
    }
}

/// Executable `front_matter_split`.
pub fn split_front_matter(v: &[char]) -> (r: Result<(Vec<char>, Vec<char>), StateError>)
    ensures
        match r {
            Ok((a, b)) => front_matter_split(v@) == Ok::<(Seq<char>, Seq<char>), StateError>(
                (a@, b@),
            ),
            Err(e) => front_matter_split(v@) == Err::<(Seq<char>, Seq<char>), StateError>(e),
        },
{
    let dash: Vec<char> = vec!['-', '-', '-'];
    assert(dash@ =~= dashes());
    if !matches_at(v, dash.as_slice(), 0) {
        proof {
            assert(v@.subrange(0, v@.len() as int) =~= v@);
        }
        return Err(StateError::MissingFrontmatter);
    }
    proof {
        assert(v@.subrange(0, v@.len() as int) =~= v@);
    }
    let mut p: usize = 3;
    while p < v.len() && !matches_at(v, dash.as_slice(), p)
        invariant
            3 <= p <= v@.len(),
            dash@ == dashes(),
            find_seq_from(v@, dashes(), 3) == find_seq_from(v@, dashes(), p as int),
        decreases v@.len() - p,
    {
        p = p + 1;
    }
    if p >= v.len() {
        return Err(StateError::MissingClosingFrontmatter);
    }
    proof {
        lemma_find_seq_from(v@, dashes(), 3);
    }
    let fm = sub_vec(v, 3, p);
    let rest = sub_vec(v, p + 3, v.len());
    Ok((fm, rest))
}

/// The line `key: value`.
pub open spec fn kv(key: Seq<char>, value: Seq<char>) -> Seq<char> {
    key + seq![':', ' '] + value
}

/// A value between double quotes.
pub open spec fn quoted(value: Seq<char>) -> Seq<char> {
    seq!['"'] + value + seq!['"']
}

/// Builds the line `key: value`.
pub fn kv_line(key: &str, value: &[char]) -> (r: Vec<char>)
    ensures
        r@ == kv(key@, value@),
{
    let mut r: Vec<char> = Vec::new();
    push_str_chars(&mut r, key);
    r.push(':');
    r.push(' ');
    push_all(&mut r, value);
    assert(r@ =~= kv(key@, value@));
    r
}

/// Builds the line `key: "value"`.
pub fn kv_quoted_line(key: &str, value: &[char]) -> (r: Vec<char>)
    ensures
        r@ == kv(key@, quoted(value@)),
{
    let mut q: Vec<char> = Vec::new();
    q.push('"');
    push_all(&mut q, value);
    q.push('"');
    assert(q@ =~= quoted(value@));
    kv_line(key, q.as_slice())
}

/// How a front matter line is read: the text before the first ':' trimmed is
/// the key; the rest trimmed, then stripped of surrounding double quotes, is
/// the value. A line without ':' is skipped.
pub open spec fn line_entry(line: Seq<char>) -> Option<(Seq<char>, Seq<char>)> {
    match split_once_spec(line, ':') {
        Some((k, v)) => Some(
            (trim_class(k, CharClass::Whitespace), trim_class(trim_class(v, CharClass::Whitespace), CharClass::Quote)),
        ),
        None => None,
    }
}

/// Executable `line_entry`.
pub fn read_line_entry(line: &[char]) -> (r: Option<(Vec<char>, Vec<char>)>)
    ensures
        match r {
            Some((k, v)) => line_entry(line@) == Some((k@, v@)),
            None => line_entry(line@) is None,
        },
{
    match split_once_vec(line, ':') {
        Some((k, v)) => {
            let key = trim_vec(k.as_slice(), CharClass::Whitespace);
            let v1 = trim_vec(v.as_slice(), CharClass::Whitespace);
            let value = trim_vec(v1.as_slice(), CharClass::Quote);
            Some((key, value))
        },
        None => None,
    }
}

/// The keys the state format itself defines; other keys are carried along.
pub open spec fn known_key(key: Seq<char>) -> bool {
    ||| key == "schema_version"@
    ||| key == "task_name"@
    ||| key == "project_path"@
    ||| key == "active"@
    ||| key == "iteration"@
    ||| key == "max_iterations"@
    ||| key == "completion_promise"@
    ||| key == "completion_matcher"@
    ||| key == "history_limit"@
    ||| key == "started_at"@
    ||| key == "updated_at"@
}

/// Executable `known_key` on a character buffer.
pub fn known_key_chars(key: &[char]) -> (b: bool)
    ensures
        b == known_key(key@),
{
    chars_eq_str(key, "schema_version") || chars_eq_str(key, "task_name") || chars_eq_str(
        key,
        "project_path",
    ) || chars_eq_str(key, "active") || chars_eq_str(key, "iteration") || chars_eq_str(
        key,
        "max_iterations",
    ) || chars_eq_str(key, "completion_promise") || chars_eq_str(key, "completion_matcher")
        || chars_eq_str(key, "history_limit") || chars_eq_str(key, "started_at")
        || chars_eq_str(key, "updated_at")
}

/// Whether a key is one the state format defines.
pub fn is_known_key(key: &str) -> (b: bool)
    ensures
        b == known_key(key@),
{
    let k = crate::text::chars_of(key);
    known_key_chars(k.as_slice())
}

/// The escaped text of one character: backslash and double quote get a backslash.
pub open spec fn escape_char(c: char) -> Seq<char> {
    if c == '\\' {
        seq!['\\', '\\']
    } else if c == '"' {
        seq!['\\', '"']
    } else {
        seq![c]
    }
}

/// `value.replace('\\', "\\\\").replace('"', "\\\"")`.
pub open spec fn escape_seq(s: Seq<char>) -> Seq<char>
    decreases s.len(),
{
    if s.len() == 0 {
        Seq::empty()
    } else {
        escape_seq(s.drop_last()) + escape_char(s.last())
    }
}

/// A value escaped for a double-quoted field; values with line breaks are refused.
pub open spec fn escape_yaml_spec(s: Seq<char>) -> Option<Seq<char>> {
    if contains_char(s, '\n') || contains_char(s, '\r') {
        None
    } else {
        Some(escape_seq(s))
    }
}

/// A value with no backslash and no double quote is its own escape.
pub proof fn lemma_escape_plain(s: Seq<char>)
    requires
        !contains_char(s, '\\'),
        !contains_char(s, '"'),
    ensures
        escape_seq(s) == s,
    decreases s.len(),
{
    if s.len() > 0 {
        assert(!contains_char(s.drop_last(), '\\')) by {
            if contains_char(s.drop_last(), '\\') {
                let i = choose|i: int| 0 <= i < s.drop_last().len() && s.drop_last()[i] == '\\';
                assert(s[i] == '\\');
            }
        }
        assert(!contains_char(s.drop_last(), '"')) by {
            if contains_char(s.drop_last(), '"') {
                let i = choose|i: int| 0 <= i < s.drop_last().len() && s.drop_last()[i] == '"';
                assert(s[i] == '"');
            }
        }
        lemma_escape_plain(s.drop_last());
        assert(s.last() == s[s.len() - 1]);
        assert(s.drop_last().push(s.last()) =~= s);
    }
}

/// Executable `escape_yaml_spec` on characters.
pub fn escape_chars(v: &[char]) -> (r: Option<Vec<char>>)
    ensures
        match r {
            Some(e) => escape_yaml_spec(v@) == Some(e@),
            None => escape_yaml_spec(v@) is None,
        },
{
    if has_char(v, '\n') || has_char(v, '\r') {
        return None;
    }
    let mut out: Vec<char> = Vec::new();
    let mut i: usize = 0;
    while i < v.len()
        invariant
            i <= v@.len(),
            out@ == escape_seq(v@.take(i as int)),
        decreases v@.len() - i,
    {
        let c = v[i];
        if c == '\\' {
            out.push('\\');
            out.push('\\');
        } else if c == '"' {
            out.push('\\');
            out.push('"');
        } else {
            out.push(c);
        }
        proof {
            assert(v@.take(i + 1).drop_last() =~= v@.take(i as int));
            assert(out@ =~= escape_seq(v@.take(i as int)) + escape_char(c));
        }
        i = i + 1;
    }
    proof {
        assert(v@.take(v@.len() as int) =~= v@);
    }
    Some(out)
}

/// Escapes a value for a double-quoted front matter field; refuses values
/// that hold a line break.
pub fn escape_yaml(value: &str) -> (r: Result<String, StateError>)
    ensures
        match r {
            Ok(s) => escape_yaml_spec(value@) == Some(s@),
            Err(e) => escape_yaml_spec(value@) is None && e == StateError::MultilineValue,
        },
{
    let v = crate::text::chars_of(value);
    match escape_chars(v.as_slice()) {
        Some(e) => Ok(crate::text::string_of(e.as_slice())),
        None => Err(StateError::MultilineValue),
    }
}

/// Lines joined by `'\n'`.
pub open spec fn join_lines(ls: Seq<Seq<char>>) -> Seq<char> {
    crate::text::join(ls, seq!['\n'])
}

/// Joins lines with `'\n'` (`lines.join("\n")`).
pub fn join_lines_exec(ls: &Vec<Vec<char>>) -> (r: Vec<char>)
    ensures
        r@ == join_lines(crate::text::vviews(ls@)),
{
    let mut out: Vec<char> = Vec::new();
    let mut i: usize = 0;
    while i < ls.len()
        invariant
            i <= ls@.len(),
            out@ == join_lines(crate::text::vviews(ls@).take(i as int)),
        decreases ls@.len() - i,
    {
        let ghost before = crate::text::vviews(ls@).take(i as int);
        proof {
            crate::text::lemma_join_push(before, seq!['\n'], ls@[i as int]@);
            assert(crate::text::vviews(ls@).take(i + 1) =~= before.push(ls@[i as int]@));
        }
        if i > 0 {
            out.push('\n');
        }
        push_all(&mut out, ls[i].as_slice());
        proof {
            if i > 0 {
                assert(out@ =~= join_lines(before) + seq!['\n'] + ls@[i as int]@);
            } else {
                assert(out@ =~= ls@[i as int]@);
            }
        }
        i = i + 1;
    }
    proof {
        assert(crate::text::vviews(ls@).take(ls@.len() as int) =~= crate::text::vviews(ls@));
    }
    out
}


// ---------------------------------------------------------------------------
// Lemmas for reading back what was written
// ---------------------------------------------------------------------------

/// A character that may stand anywhere in a key without changing how the line reads.
pub open spec fn plain_char(c: char) -> bool {
    c != '-' && c != ':' && c != '"' && c != '\n' && c != '\r' && !is_ws(c)
}

/// Every character of `s` from `i` on is plain.
pub open spec fn plain_from(s: Seq<char>, i: int) -> bool
    decreases s.len() - i,
{
    if i < 0 || i >= s.len() {
        true
    } else {
        plain_char(s[i]) && plain_from(s, i + 1)
    }
}

pub proof fn lemma_plain_from(s: Seq<char>, i: int)
    requires
        0 <= i <= s.len(),
        plain_from(s, i),
    ensures
        forall|k: int| i <= k < s.len() ==> plain_char(#[trigger] s[k]),
    decreases s.len() - i,
{
    if i < s.len() {
        lemma_plain_from(s, i + 1);
    }
}

/// A key of letters, digits and underscores, as the format's own keys are.
pub open spec fn plain_key(s: Seq<char>) -> bool {
    s.len() > 0 && forall|k: int| 0 <= k < s.len() ==> plain_char(#[trigger] s[k])
}

/// The keys this format uses are plain.
pub proof fn lemma_known_keys_plain()
    ensures
        plain_key("schema_version"@),
        plain_key("task_name"@),
        plain_key("project_path"@),
        plain_key("active"@),
        plain_key("iteration"@),
        plain_key("max_iterations"@),
        plain_key("completion_promise"@),
        plain_key("completion_matcher"@),
        plain_key("history_limit"@),
        plain_key("started_at"@),
        plain_key("updated_at"@),
{
    reveal_strlit("schema_version");
    reveal_strlit("task_name");
    reveal_strlit("project_path");
    reveal_strlit("active");
    reveal_strlit("iteration");
    reveal_strlit("max_iterations");
    reveal_strlit("completion_promise");
    reveal_strlit("completion_matcher");
    reveal_strlit("history_limit");
    reveal_strlit("started_at");
    reveal_strlit("updated_at");
    reveal_with_fuel(plain_from, 20);
    assert(plain_from("schema_version"@, 0));
    lemma_plain_from("schema_version"@, 0);
    assert(plain_from("task_name"@, 0));
    lemma_plain_from("task_name"@, 0);
    assert(plain_from("project_path"@, 0));
    lemma_plain_from("project_path"@, 0);
    assert(plain_from("active"@, 0));
    lemma_plain_from("active"@, 0);
    assert(plain_from("iteration"@, 0));
    lemma_plain_from("iteration"@, 0);
    assert(plain_from("max_iterations"@, 0));
    lemma_plain_from("max_iterations"@, 0);
    assert(plain_from("completion_promise"@, 0));
    lemma_plain_from("completion_promise"@, 0);
    assert(plain_from("completion_matcher"@, 0));
    lemma_plain_from("completion_matcher"@, 0);
    assert(plain_from("history_limit"@, 0));
    lemma_plain_from("history_limit"@, 0);
    assert(plain_from("started_at"@, 0));
    lemma_plain_from("started_at"@, 0);
    assert(plain_from("updated_at"@, 0));
    lemma_plain_from("updated_at"@, 0);
}

/// A key that `line_entry` gives back as it is: no ':' and no whitespace at its ends.
pub open spec fn entry_key(k: Seq<char>) -> bool {
    !contains_char(k, ':') && trim_class(k, CharClass::Whitespace) == k
}

pub proof fn lemma_plain_key(k: Seq<char>)
    requires
        plain_key(k),
    ensures
        entry_key(k),
        !contains_char(k, '\n'),
        no_triple_dash(k),
{
    assert(plain_char(k[0]) && plain_char(k[k.len() - 1]));
    lemma_trim_class_clean(k, CharClass::Whitespace);
    if contains_char(k, ':') {
        let i = choose|i: int| 0 <= i < k.len() && k[i] == ':';
        assert(plain_char(k[i]));
    }
    if contains_char(k, '\n') {
        let i = choose|i: int| 0 <= i < k.len() && k[i] == '\n';
        assert(plain_char(k[i]));
    }
    assert forall|i: int| 0 <= i && i + 2 < k.len() implies !#[trigger] triple_dash_at(k, i) by {
        assert(plain_char(k[i]));
    }
}

/// How the line `key: value` is read.
pub proof fn lemma_kv_entry(key: Seq<char>, value: Seq<char>)
    requires
        entry_key(key),
    ensures
        line_entry(kv(key, value)) == Some(
            (
                key,
                trim_class(trim_class(seq![' '] + value, CharClass::Whitespace), CharClass::Quote),
            ),
        ),
{
    let l = kv(key, value);
    assert forall|k: int| 0 <= k < key.len() implies l[k] != ':' by {
        assert(l[k] == key[k]);
        if key[k] == ':' {
            assert(contains_char(key, ':'));
        }
    }
    assert(l[key.len() as int] == ':');
    lemma_find_char_at(l, ':', 0, key.len() as int);
    assert(l.subrange(0, key.len() as int) =~= key);
    assert(l.subrange(key.len() + 1int, l.len() as int) =~= seq![' '] + value);
}

/// The line `key: value` holds no line break and does not end in '\r' or `---`.
pub proof fn lemma_kv_line_ok(key: Seq<char>, value: Seq<char>)
    requires
        !contains_char(key, '\n'),
        !contains_char(value, '\n'),
        value.len() == 0 || value.last() != '\r',
        no_triple_dash(key),
        no_triple_dash(value),
    ensures
        line_ok(kv(key, value)),
        no_triple_dash(kv(key, value)),
{
    let l = kv(key, value);
    if contains_char(l, '\n') {
        let i = choose|i: int| 0 <= i < l.len() && l[i] == '\n';
        if i < key.len() {
            assert(l[i] == key[i]);
            assert(contains_char(key, '\n'));
        } else if i >= key.len() + 2 {
            assert(l[i] == value[i - key.len() - 2]);
            assert(contains_char(value, '\n'));
        }
    }
    lemma_no_triple_concat3(key, seq![':', ' '], value);
    assert(key + seq![':', ' '] + value =~= l);
}


/// `find_seq_from` is the first position where the pattern occurs.
pub proof fn lemma_find_seq_at(s: Seq<char>, p: Seq<char>, i: int, m: int)
    requires
        0 <= i <= m <= s.len(),
        forall|k: int| i <= k < m ==> !is_prefix(p, #[trigger] s.subrange(k, s.len() as int)),
        m < s.len() ==> is_prefix(p, s.subrange(m, s.len() as int)),
    ensures
        find_seq_from(s, p, i) == m,
    decreases m - i,
{
    if i < m {
        assert(!is_prefix(p, s.subrange(i, s.len() as int)));
        lemma_find_seq_at(s, p, i + 1, m);
    }
}

} // verus!
