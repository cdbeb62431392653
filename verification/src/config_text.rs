//! Editing Codex's `config.toml` as text: removing the section of an MCP
//! server or of a stop-hook source, and appending a new one.
use vstd::prelude::*;
use crate::numbers::{dec, dec_int, push_dec, push_dec_i64};
use crate::text::{
    chars_of, find_char_from, is_prefix, join, join_exec, lemma_find_char_from, lines, lines_from,
    lines_vec, push_all, push_str_chars, string_of, strip_cr, trim, trim_end_class, trim_end_vec,
    trim_vec, vviews, CharClass,
};

verus! {

/// Whether a trimmed line is a section header: it starts with '[' and ends with ']'.
pub open spec fn is_header(t: Seq<char>) -> bool {
    t.len() > 0 && t[0] == '[' && t.last() == ']'
}

/// The lines kept when the sections whose header starts with `prefix` are
/// removed: such a header and every line up to the next header go.
pub open spec fn kept_lines(ls: Seq<Seq<char>>, prefix: Seq<char>, skipping: bool) -> Seq<Seq<char>>
    decreases ls.len(),
{
    if ls.len() == 0 {
        Seq::empty()
    } else {
        let t = trim(ls[0]);
        if is_header(t) && is_prefix(prefix, t) {
            kept_lines(ls.drop_first(), prefix, true)
        } else if !is_header(t) && skipping {
            kept_lines(ls.drop_first(), prefix, true)
        } else {
            seq![ls[0]] + kept_lines(ls.drop_first(), prefix, false)
        }
    }
}

/// Text that ends with a line break: as it is, or with one added.
pub open spec fn with_final_newline(s: Seq<char>) -> Seq<char> {
    if s.len() > 0 && s.last() == '\n' {
        s
    } else {
        s.push('\n')
    }
}

/// The text with the sections whose header starts with `prefix` removed;
/// the kept lines joined by '\n', ending with a line break.
pub open spec fn remove_sections_spec(contents: Seq<char>, prefix: Seq<char>) -> Seq<char> {
    with_final_newline(join(kept_lines(lines(contents), prefix, false), seq!['\n']))
}

fn remove_sections(contents: &str, prefix: &[char]) -> (r: String)
    ensures
        r@ == remove_sections_spec(contents@, prefix@),
{
    let c = chars_of(contents);
    let ls = lines_vec(c.as_slice());
    let ghost lv = vviews(ls@);
    let mut out: Vec<Vec<char>> = Vec::new();
    let mut skipping = false;
    let mut i: usize = 0;
    proof {
        assert(lv.skip(0) =~= lv);
    }
    while i < ls.len()
        invariant
            i <= ls@.len(),
            lv == vviews(ls@),
            lv.len() == ls@.len(),
            kept_lines(lv, prefix@, false) == vviews(out@) + kept_lines(lv.skip(i as int), prefix@, skipping),
        decreases ls@.len() - i,
    {
        let ghost rest = lv.skip(i as int);
        proof {
            assert(rest[0] == ls@[i as int]@);
            assert(rest.drop_first() =~= lv.skip(i + 1));
        }
        let t = trim_vec(ls[i].as_slice(), CharClass::Whitespace);
        let header = t.len() > 0 && t[0] == '[' && t[t.len() - 1] == ']';
        let starts = crate::text::starts_with(t.as_slice(), prefix);
        if header && starts {
            skipping = true;
        } else if !header && skipping {
        } else {
            let ghost before = vviews(out@);
            let line = crate::text::sub_vec(ls[i].as_slice(), 0, ls[i].len());
            assert(line@ =~= ls@[i as int]@);
            out.push(line);
            proof {
                assert(vviews(out@) =~= before.push(ls@[i as int]@));
                assert(before + kept_lines(rest, prefix@, skipping) =~= vviews(out@) + kept_lines(
                    lv.skip(i + 1),
                    prefix@,
                    false,
                ));
            }
            skipping = false;
        }
        i = i + 1;
    }
    proof {
        assert(lv.skip(lv.len() as int) =~= Seq::<Seq<char>>::empty());
        assert(vviews(out@) + Seq::<Seq<char>>::empty() =~= vviews(out@));
    }
    let mut nl: Vec<char> = Vec::new();
    nl.push('\n');
    assert(nl@ =~= seq!['\n']);
    let mut joined = join_exec(&out, nl.as_slice());
    if !(joined.len() > 0 && joined[joined.len() - 1] == '\n') {
        joined.push('\n');
    }
    string_of(joined.as_slice())
}

/// The header prefix of an MCP server's section: `[mcp_servers.<name>`.
pub open spec fn mcp_prefix(name: Seq<char>) -> Seq<char> {
    "[mcp_servers."@ + name
}

/// The header prefix of a stop-hook source's section: `[stop_hooks.sources.<name>`.
pub open spec fn stop_hook_prefix(name: Seq<char>) -> Seq<char> {
    "[stop_hooks.sources."@ + name
}

fn prefix_with(lead: &str, name: &str) -> (r: Vec<char>)
    ensures
        r@ == lead@ + name@,
{
    let mut p: Vec<char> = Vec::new();
    push_str_chars(&mut p, lead);
    push_str_chars(&mut p, name);
    p
}

/// Removes the sections of the MCP server `name` (every section whose header
/// starts with `[mcp_servers.<name>`).
pub fn remove_block(contents: &str, name: &str) -> (r: String)
    ensures
        r@ == remove_sections_spec(contents@, mcp_prefix(name@)),
{
    let p = prefix_with("[mcp_servers.", name);
    remove_sections(contents, p.as_slice())
}

/// Removes the sections of the stop-hook source `name` (every section whose
/// header starts with `[stop_hooks.sources.<name>`).
pub fn remove_stop_hook_block(contents: &str, name: &str) -> (r: String)
    ensures
        r@ == remove_sections_spec(contents@, stop_hook_prefix(name@)),
{
    let p = prefix_with("[stop_hooks.sources.", name);
    remove_sections(contents, p.as_slice())
}

/// `KEY = "value"`.
pub open spec fn quoted_setting(key: Seq<char>, value: Seq<char>) -> Seq<char> {
    key + " = \""@ + value + "\""@
}

pub open spec fn opt_item(key: Seq<char>, value: Option<Seq<char>>) -> Seq<Seq<char>> {
    match value {
        Some(v) => seq![quoted_setting(key, v)],
        None => Seq::empty(),
    }
}

/// The environment settings of an MCP server section.
pub open spec fn env_items(project: Option<Seq<char>>, codex_home: Option<Seq<char>>, scope: Option<Seq<char>>) -> Seq<Seq<char>> {
    opt_item("CODEX_CWD"@, project) + opt_item("CODEX_HOME"@, codex_home) + opt_item(
        "TASKLOOP_STORAGE_SCOPE"@,
        scope,
    )
}

/// The text after a section is appended: the text without its trailing
/// whitespace, a blank line, then the section's lines, each ending with a
/// line break.
pub open spec fn appended(contents: Seq<char>, section: Seq<Seq<char>>) -> Seq<char> {
    trim_end_class(contents, CharClass::Whitespace) + seq!['\n'] + join(section, seq!['\n']) + seq!['\n']
}

/// The text after an MCP server section is appended: its header, its
/// command, no arguments, enabled, and an inline `env` table when there are
/// settings.
pub open spec fn append_block_spec(
    contents: Seq<char>,
    name: Seq<char>,
    command: Seq<char>,
    project: Option<Seq<char>>,
    codex_home: Option<Seq<char>>,
    scope: Option<Seq<char>>,
) -> Seq<char> {
    appended(contents, mcp_section_lines(name, command, project, codex_home, scope))
}

pub open spec fn opt_str(o: Option<&str>) -> Option<Seq<char>> {
    match o {
        Some(s) => Some(s@),
        None => None,
    }
}

fn push_setting(items: &mut Vec<Vec<char>>, key: &str, value: Option<&str>)
    ensures
        vviews(final(items)@) == vviews(old(items)@) + opt_item(key@, opt_str(value)),
{
    if let Some(v) = value {
        let mut line: Vec<char> = Vec::new();
        push_str_chars(&mut line, key);
        push_str_chars(&mut line, " = \"");
        push_str_chars(&mut line, v);
        push_str_chars(&mut line, "\"");
        let ghost before = vviews(items@);
        items.push(line);
        assert(vviews(final(items)@) =~= before + opt_item(key@, opt_str(value)));
    } else {
        assert(vviews(items@) =~= vviews(items@) + Seq::<Seq<char>>::empty());
    }
}

fn trimmed_end(contents: &str) -> (r: Vec<char>)
    ensures
        r@ == trim_end_class(contents@, CharClass::Whitespace),
{
    let c = chars_of(contents);
    trim_end_vec(c.as_slice(), CharClass::Whitespace)
}

/// Appends the section of an MCP server.
pub fn append_block(
    contents: &str,
    name: &str,
    command: &str,
    project: Option<&str>,
    codex_home: Option<&str>,
    storage_scope: Option<&str>,
) -> (r: String)
    ensures
        r@ == append_block_spec(
            contents@,
            name@,
            command@,
            opt_str(project),
            opt_str(codex_home),
            opt_str(storage_scope),
        ),
{
    let mut ls: Vec<Vec<char>> = Vec::new();
    ls.push(Vec::new());
    let mut header = prefix_with("[mcp_servers.", name);
    header.push(']');
    assert(header@ =~= "[mcp_servers."@ + name@ + seq![']']);
    ls.push(header);
    let mut cmd: Vec<char> = Vec::new();
    push_str_chars(&mut cmd, "command");
    push_str_chars(&mut cmd, " = \"");
    push_str_chars(&mut cmd, command);
    push_str_chars(&mut cmd, "\"");
    assert(cmd@ =~= quoted_setting("command"@, command@));
    ls.push(cmd);
    ls.push(chars_of("args = []"));
    ls.push(chars_of("enabled = true"));
    assert(vviews(ls@) =~= seq![
        Seq::<char>::empty(),
        "[mcp_servers."@ + name@ + seq![']'],
        quoted_setting("command"@, command@),
        "args = []"@,
        "enabled = true"@,
    ]);
    let mut items: Vec<Vec<char>> = Vec::new();
    assert(vviews(items@) =~= Seq::<Seq<char>>::empty());
    push_setting(&mut items, "CODEX_CWD", project);
    push_setting(&mut items, "CODEX_HOME", codex_home);
    push_setting(&mut items, "TASKLOOP_STORAGE_SCOPE", storage_scope);
    let ghost env = env_items(opt_str(project), opt_str(codex_home), opt_str(storage_scope));
    assert(vviews(items@) =~= env);
    let ghost head = vviews(ls@);
    if items.len() > 0 {
        let mut envl: Vec<char> = Vec::new();
        push_str_chars(&mut envl, "env = { ");
        let sep = chars_of(", ");
        let joined = join_exec(&items, sep.as_slice());
        push_all(&mut envl, joined.as_slice());
        push_str_chars(&mut envl, " }");
        ls.push(envl);
        assert(vviews(ls@) =~= head.push("env = { "@ + join(env, ", "@) + " }"@));
    }
    let ghost mid = vviews(ls@);
    ls.push(Vec::new());
    assert(vviews(ls@) =~= mid.push(Seq::<char>::empty()));
    assert(vviews(ls@) =~= mcp_section_lines(name@, command@, opt_str(project), opt_str(codex_home), opt_str(storage_scope)));
    append_lines(contents, &ls)
}

fn append_lines(contents: &str, ls: &Vec<Vec<char>>) -> (r: String)
    ensures
        r@ == appended(contents@, vviews(ls@)),
{
    let mut out = trimmed_end(contents);
    out.push('\n');
    let mut nl: Vec<char> = Vec::new();
    nl.push('\n');
    assert(nl@ =~= seq!['\n']);
    let joined = join_exec(ls, nl.as_slice());
    push_all(&mut out, joined.as_slice());
    out.push('\n');
    string_of(out.as_slice())
}

/// The optional `<lead><value>` line.
pub open spec fn opt_line(lead: Seq<char>, value: Option<Seq<char>>) -> Seq<Seq<char>> {
    match value {
        Some(v) => seq![lead + v],
        None => Seq::empty(),
    }
}

/// The lines of a stop-hook source section after the blank line before it.
pub open spec fn stop_section_lines(
    name: Seq<char>,
    command: Seq<char>,
    order: Option<i64>,
    timeout: Option<u64>,
    timeout_ms: Option<u64>,
) -> Seq<Seq<char>> {
    seq![
        Seq::<char>::empty(),
        "[stop_hooks.sources."@ + name + seq![']'],
        "type = \"command\""@,
        quoted_setting("command"@, command),
        "enabled = true"@,
    ] + opt_line(
        "order = "@,
        match order {
            Some(o) => Some(dec_int(o as int)),
            None => None,
        },
    ) + opt_line(
        "timeout = "@,
        match timeout {
            Some(t) => Some(dec(t as nat)),
            None => None,
        },
    ) + opt_line(
        "timeout_ms = "@,
        match timeout_ms {
            Some(t) => Some(dec(t as nat)),
            None => None,
        },
    ) + seq![Seq::<char>::empty()]
}

/// The text after a stop-hook source section is appended: its header, type
/// "command", its command, enabled, and the order and timeouts that are given.
pub open spec fn append_stop_hook_block_spec(
    contents: Seq<char>,
    name: Seq<char>,
    command: Seq<char>,
    order: Option<i64>,
    timeout: Option<u64>,
    timeout_ms: Option<u64>,
) -> Seq<char> {
    appended(contents, stop_section_lines(name, command, order, timeout, timeout_ms))
}

/// Appends the section of a stop-hook source.
pub fn append_stop_hook_block(
    contents: &str,
    name: &str,
    command: &str,
    order: Option<i64>,
    timeout: Option<u64>,
    timeout_ms: Option<u64>,
) -> (r: String)
    ensures
        r@ == append_stop_hook_block_spec(contents@, name@, command@, order, timeout, timeout_ms),
{
    let mut ls: Vec<Vec<char>> = Vec::new();
    ls.push(Vec::new());
    let mut header = prefix_with("[stop_hooks.sources.", name);
    header.push(']');
    assert(header@ =~= "[stop_hooks.sources."@ + name@ + seq![']']);
    ls.push(header);
    ls.push(chars_of("type = \"command\""));
    let mut cmd: Vec<char> = Vec::new();
    push_str_chars(&mut cmd, "command");
    push_str_chars(&mut cmd, " = \"");
    push_str_chars(&mut cmd, command);
    push_str_chars(&mut cmd, "\"");
    assert(cmd@ =~= quoted_setting("command"@, command@));
    ls.push(cmd);
    ls.push(chars_of("enabled = true"));
    assert(vviews(ls@) =~= seq![
        Seq::<char>::empty(),
        "[stop_hooks.sources."@ + name@ + seq![']'],
        "type = \"command\""@,
        quoted_setting("command"@, command@),
        "enabled = true"@,
    ]);
    let ghost a = vviews(ls@);
    if let Some(o) = order {
        let mut l: Vec<char> = Vec::new();
        push_str_chars(&mut l, "order = ");
        push_dec_i64(&mut l, o);
        let ghost before = vviews(ls@);
        let ghost lv = l@;
        ls.push(l);
        assert(vviews(ls@) =~= before.push(lv));
    }
    let ghost b = vviews(ls@);
    assert(b =~= a + opt_line(
        "order = "@,
        match order {
            Some(o) => Some(dec_int(o as int)),
            None => None,
        },
    ));
    if let Some(t) = timeout {
        let mut l: Vec<char> = Vec::new();
        push_str_chars(&mut l, "timeout = ");
        push_dec(&mut l, t);
        let ghost before = vviews(ls@);
        let ghost lv = l@;
        ls.push(l);
        assert(vviews(ls@) =~= before.push(lv));
    }
    let ghost c = vviews(ls@);
    assert(c =~= b + opt_line(
        "timeout = "@,
        match timeout {
            Some(t) => Some(dec(t as nat)),
            None => None,
        },
    ));
    if let Some(t) = timeout_ms {
        let mut l: Vec<char> = Vec::new();
        push_str_chars(&mut l, "timeout_ms = ");
        push_dec(&mut l, t);
        let ghost before = vviews(ls@);
        let ghost lv = l@;
        ls.push(l);
        assert(vviews(ls@) =~= before.push(lv));
    }
    let ghost d = vviews(ls@);
    assert(d =~= c + opt_line(
        "timeout_ms = "@,
        match timeout_ms {
            Some(t) => Some(dec(t as nat)),
            None => None,
        },
    ));
    ls.push(Vec::new());
    assert(vviews(ls@) =~= d + seq![Seq::<char>::empty()]);
    assert(vviews(ls@) =~= stop_section_lines(name@, command@, order, timeout, timeout_ms));
    append_lines(contents, &ls)
}

// ---------------------------------------------------------------------------
// Removing what was appended
// ---------------------------------------------------------------------------

proof fn lemma_find_shift(p: Seq<char>, q: Seq<char>, c: char, i: int)
    requires
        p.len() <= i <= p.len() + q.len(),
    ensures
        find_char_from(p + q, c, i) == p.len() + find_char_from(q, c, i - p.len()),
    decreases p.len() + q.len() - i,
{
    if i < p.len() + q.len() {
        assert((p + q)[i] == q[i - p.len()]);
        if (p + q)[i] != c {
            lemma_find_shift(p, q, c, i + 1);
        }
    }
}

proof fn lemma_lines_shift(p: Seq<char>, q: Seq<char>, i: int)
    requires
        p.len() <= i <= p.len() + q.len(),
    ensures
        lines_from(p + q, i) == lines_from(q, i - p.len()),
    decreases p.len() + q.len() - i,
{
    let s = p + q;
    if i < s.len() {
        lemma_find_shift(p, q, '\n', i);
        lemma_find_char_from(s, '\n', i);
        let j = find_char_from(s, '\n', i);
        assert(s.subrange(i, j) =~= q.subrange(i - p.len(), j - p.len()));
        if j < s.len() {
            lemma_lines_shift(p, q, j + 1);
        }
    }
}

proof fn lemma_find_prefix(p: Seq<char>, q: Seq<char>, c: char, i: int)
    requires
        0 <= i <= p.len(),
        find_char_from(p, c, i) < p.len(),
    ensures
        find_char_from(p + q, c, i) == find_char_from(p, c, i),
    decreases p.len() - i,
{
    if i < p.len() {
        assert((p + q)[i] == p[i]);
        if p[i] != c {
            lemma_find_prefix(p, q, c, i + 1);
        }
    }
}

/// The lines of text that ends with a line break, followed by more text,
/// are its lines followed by the lines of the rest.
proof fn lemma_lines_append(p: Seq<char>, q: Seq<char>, i: int)
    requires
        p.len() > 0,
        p.last() == '\n',
        0 <= i <= p.len(),
    ensures
        lines_from(p + q, i) == lines_from(p, i) + lines_from(q, 0),
    decreases p.len() - i,
{
    if i == p.len() {
        lemma_lines_shift(p, q, i);
        assert(lines_from(p, i) =~= Seq::<Seq<char>>::empty());
        assert(lines_from(p, i) + lines_from(q, 0) =~= lines_from(q, 0));
    } else {
        lemma_find_char_from(p, '\n', i);
        let j = find_char_from(p, '\n', i);
        if j == p.len() {
            assert(p[p.len() - 1] == '\n');
            assert(false);
        }
        lemma_find_prefix(p, q, '\n', i);
        assert((p + q).subrange(i, j) =~= p.subrange(i, j));
        lemma_lines_append(p, q, j + 1);
        assert(lines_from(p + q, i) == seq![strip_cr(p.subrange(i, j))] + lines_from(p + q, j + 1));
        assert(lines_from(p, i) == seq![strip_cr(p.subrange(i, j))] + lines_from(p, j + 1));
        assert(seq![strip_cr(p.subrange(i, j))] + (lines_from(p, j + 1) + lines_from(q, 0)) =~= (seq![
            strip_cr(p.subrange(i, j)),
        ] + lines_from(p, j + 1)) + lines_from(q, 0));
    }
}

/// The last line of text that ends with a line break after a character that
/// is neither a line break nor a carriage return is not empty, and ends with
/// that character.
proof fn lemma_last_line(s: Seq<char>, i: int)
    requires
        s.len() >= 2,
        s.last() == '\n',
        s[s.len() - 2] != '\n',
        s[s.len() - 2] != '\r',
        0 <= i <= s.len() - 2,
    ensures
        lines_from(s, i).len() > 0,
        lines_from(s, i).last().len() > 0,
        lines_from(s, i).last().last() == s[s.len() - 2],
    decreases s.len() - i,
{
    lemma_find_char_from(s, '\n', i);
    let j = find_char_from(s, '\n', i);
    assert(j < s.len()) by {
        if j == s.len() {
            assert(s[s.len() - 1] == '\n');
        }
    }
    let piece = s.subrange(i, j);
    if j == s.len() - 1 {
        assert(piece.len() > 0);
        assert(piece.last() == s[s.len() - 2]);
        assert(strip_cr(piece) == piece);
        assert(lines_from(s, j + 1) =~= Seq::<Seq<char>>::empty());
        assert(lines_from(s, i) =~= seq![piece]);
    } else {
        assert(j + 1 <= s.len() - 2);
        lemma_last_line(s, j + 1);
        let r = lines_from(s, j + 1);
        assert(lines_from(s, i) == seq![strip_cr(piece)] + r);
        assert((seq![strip_cr(piece)] + r).last() == r.last());
    }
}

/// Whether the section removal is still skipping after the lines `ls`.
pub open spec fn skip_after(ls: Seq<Seq<char>>, prefix: Seq<char>, skipping: bool) -> bool
    decreases ls.len(),
{
    if ls.len() == 0 {
        skipping
    } else {
        let t = trim(ls[0]);
        if is_header(t) && is_prefix(prefix, t) {
            skip_after(ls.drop_first(), prefix, true)
        } else if !is_header(t) && skipping {
            skip_after(ls.drop_first(), prefix, true)
        } else {
            skip_after(ls.drop_first(), prefix, false)
        }
    }
}

proof fn lemma_kept_concat(a: Seq<Seq<char>>, b: Seq<Seq<char>>, prefix: Seq<char>, skipping: bool)
    ensures
        kept_lines(a + b, prefix, skipping) == kept_lines(a, prefix, skipping) + kept_lines(
            b,
            prefix,
            skip_after(a, prefix, skipping),
        ),
    decreases a.len(),
{
    if a.len() == 0 {
        assert(a + b =~= b);
        assert(kept_lines(a, prefix, skipping) + kept_lines(b, prefix, skipping) =~= kept_lines(b, prefix, skipping));
    } else {
        assert((a + b)[0] == a[0]);
        assert((a + b).drop_first() =~= a.drop_first() + b);
        let t = trim(a[0]);
        if is_header(t) && is_prefix(prefix, t) {
            lemma_kept_concat(a.drop_first(), b, prefix, true);
        } else if !is_header(t) && skipping {
            lemma_kept_concat(a.drop_first(), b, prefix, true);
        } else {
            lemma_kept_concat(a.drop_first(), b, prefix, false);
            assert(seq![a[0]] + (kept_lines(a.drop_first(), prefix, false) + kept_lines(
                b,
                prefix,
                skip_after(a.drop_first(), prefix, false),
            )) =~= (seq![a[0]] + kept_lines(a.drop_first(), prefix, false)) + kept_lines(
                b,
                prefix,
                skip_after(a.drop_first(), prefix, false),
            ));
        }
    }
}

/// When the removal is not skipping at the end, the last line was kept.
proof fn lemma_last_kept(a: Seq<Seq<char>>, prefix: Seq<char>, skipping: bool)
    requires
        a.len() > 0,
        !skip_after(a, prefix, skipping),
    ensures
        kept_lines(a, prefix, skipping).len() > 0,
        kept_lines(a, prefix, skipping).last() == a.last(),
    decreases a.len(),
{
    let t = trim(a[0]);
    let rest = a.drop_first();
    let st = if is_header(t) && is_prefix(prefix, t) {
        true
    } else if !is_header(t) && skipping {
        true
    } else {
        false
    };
    if rest.len() == 0 {
        assert(skip_after(rest, prefix, st) == st);
        assert(!st);
        assert(kept_lines(rest, prefix, false) =~= Seq::<Seq<char>>::empty());
        assert(kept_lines(a, prefix, skipping) =~= seq![a[0]]);
    } else {
        lemma_last_kept(rest, prefix, st);
        assert(rest.last() == a.last());
    }
}

/// The lines of an appended section after the blank line: a header starting
/// with `prefix`, then lines that are not headers.
pub open spec fn section_lines_ok(ls: Seq<Seq<char>>, prefix: Seq<char>) -> bool {
    &&& ls.len() >= 2
    &&& ls[0].len() == 0
    &&& is_header(trim(ls[1])) && is_prefix(prefix, trim(ls[1]))
    &&& forall|k: int| 2 <= k < ls.len() ==> !is_header(trim(#[trigger] ls[k]))
    &&& forall|k: int| 0 <= k < ls.len() ==> crate::text::line_ok(#[trigger] ls[k])
}

proof fn lemma_kept_section(ls: Seq<Seq<char>>, prefix: Seq<char>, skipping: bool)
    requires
        section_lines_ok(ls, prefix),
    ensures
        kept_lines(ls, prefix, skipping) == if skipping {
            Seq::<Seq<char>>::empty()
        } else {
            seq![Seq::<char>::empty()]
        },
{
    let e: Seq<char> = Seq::empty();
    assert(trim(e) =~= e) by {
        crate::text::lemma_trim_class_clean(e, CharClass::Whitespace);
    }
    let rest = ls.drop_first();
    assert(rest[0] == ls[1]);
    let tail = rest.drop_first();
    assert forall|k: int| 0 <= k < tail.len() implies !is_header(trim(#[trigger] tail[k])) by {
        assert(tail[k] == ls[k + 2]);
    }
    lemma_kept_skipping(tail, prefix);
    assert(kept_lines(rest, prefix, skipping) == kept_lines(tail, prefix, true));
    if skipping {
        assert(kept_lines(ls, prefix, skipping) == kept_lines(rest, prefix, true));
    } else {
        assert(kept_lines(ls, prefix, skipping) == seq![ls[0]] + kept_lines(rest, prefix, false));
        assert(kept_lines(rest, prefix, false) == kept_lines(tail, prefix, true));
        assert(ls[0] =~= e);
        assert(seq![ls[0]] + Seq::<Seq<char>>::empty() =~= seq![e]);
    }
}

proof fn lemma_kept_skipping(ls: Seq<Seq<char>>, prefix: Seq<char>)
    requires
        forall|k: int| 0 <= k < ls.len() ==> !is_header(trim(#[trigger] ls[k])),
    ensures
        kept_lines(ls, prefix, true) == Seq::<Seq<char>>::empty(),
        skip_after(ls, prefix, true),
    decreases ls.len(),
{
    if ls.len() > 0 {
        assert(!is_header(trim(ls[0])));
        assert forall|k: int| 0 <= k < ls.drop_first().len() implies !is_header(trim(#[trigger] ls.drop_first()[k])) by {
            assert(ls.drop_first()[k] == ls[k + 1]);
        }
        lemma_kept_skipping(ls.drop_first(), prefix);
    }
}

/// Removing a section that was appended after a text's trimmed content, with
/// a blank line before it, leaves what removing from that content alone leaves.
pub proof fn lemma_remove_appended_section(a: Seq<char>, ls: Seq<Seq<char>>, prefix: Seq<char>)
    requires
        a.len() == 0 || !crate::text::is_ws(a.last()),
        section_lines_ok(ls, prefix),
    ensures
        remove_sections_spec(a + seq!['\n'] + join(ls, seq!['\n']) + seq!['\n'], prefix)
            == remove_sections_spec(a + seq!['\n'], prefix),
{
    let nl = seq!['\n'];
    let p = a + nl;
    let q = join(ls, nl) + nl;
    assert(a + nl + join(ls, nl) + nl =~= p + q);
    lemma_lines_append(p, q, 0);
    assert(q.subrange(0, q.len() as int) =~= q);
    crate::text::lemma_lines_of_join(q, 0, ls);
    let lp = lines(p);
    lemma_kept_concat(lp, ls, prefix, false);
    let k = kept_lines(lp, prefix, false);
    let f = skip_after(lp, prefix, false);
    lemma_kept_section(ls, prefix, f);
    if !f {
        let e: Seq<char> = Seq::empty();
        assert(k + seq![e] == kept_lines(lp + ls, prefix, false));
        if k.len() == 0 {
            assert(k + seq![e] =~= seq![e]);
        } else {
            crate::text::lemma_join_push(k, nl, e);
            assert(k.push(e) =~= k + seq![e]);
            let j = join(k, nl);
            // the last kept line is the last line of `p`, which is not empty
            // unless `a` is, and then it is the only line
            if a.len() == 0 {
                assert(p =~= nl);
                crate::text::lemma_find_char_at(p, '\n', 0, 0);
                assert(p.subrange(0, 0) =~= e);
                assert(lines_from(p, 1) =~= Seq::<Seq<char>>::empty());
                assert(lp =~= seq![e]);
                assert(lp.len() == 1);
                lemma_kept_len(lp, prefix, false);
                assert(k.len() == 1);
                assert(k[0] == e);
                assert(j == e);
            } else {
                assert(p[p.len() - 2] == a.last());
                assert(a.last() != '\n' && a.last() != '\r');
                lemma_last_line(p, 0);
                lemma_last_kept(lp, prefix, false);
                assert(k.last() == lp.last());
                if k.len() == 1 {
                    assert(j == k[0]);
                } else {
                    assert(j == join(k.drop_last(), nl) + nl + k.last());
                }
                assert(j.len() > 0 && j.last() == k.last().last());
                assert(j.last() != '\n');
            }
            assert(j + nl + e =~= j.push('\n'));
        }
    } else {
        assert(k + Seq::<Seq<char>>::empty() =~= k);
    }
}

proof fn lemma_kept_len(ls: Seq<Seq<char>>, prefix: Seq<char>, skipping: bool)
    ensures
        kept_lines(ls, prefix, skipping).len() <= ls.len(),
    decreases ls.len(),
{
    if ls.len() > 0 {
        lemma_kept_len(ls.drop_first(), prefix, true);
        lemma_kept_len(ls.drop_first(), prefix, false);
    }
}

proof fn lemma_concat_no_char(a: Seq<char>, b: Seq<char>, c: char)
    requires
        !crate::text::contains_char(a, c),
        !crate::text::contains_char(b, c),
    ensures
        !crate::text::contains_char(a + b, c),
{
    if crate::text::contains_char(a + b, c) {
        let i = choose|i: int| 0 <= i < (a + b).len() && (a + b)[i] == c;
        if i < a.len() {
            assert(a[i] == c);
        } else {
            assert(b[i - a.len()] == c);
        }
    }
}

proof fn lemma_join_no_char(ws: Seq<Seq<char>>, sep: Seq<char>, c: char)
    requires
        forall|k: int| 0 <= k < ws.len() ==> !crate::text::contains_char(#[trigger] ws[k], c),
        !crate::text::contains_char(sep, c),
    ensures
        !crate::text::contains_char(join(ws, sep), c),
    decreases ws.len(),
{
    if ws.len() == 0 {
    } else if ws.len() == 1 {
        assert(!crate::text::contains_char(ws[0], c));
    } else {
        let init = ws.drop_last();
        assert forall|k: int| 0 <= k < init.len() implies !crate::text::contains_char(#[trigger] init[k], c) by {
            assert(init[k] == ws[k]);
        }
        lemma_join_no_char(init, sep, c);
        assert(!crate::text::contains_char(ws[ws.len() - 1], c));
        lemma_concat_no_char(join(init, sep), sep, c);
        lemma_concat_no_char(join(init, sep) + sep, ws.last(), c);
    }
}

/// Whether none of the texts holds a line break.
pub open spec fn one_line(v: Seq<char>) -> bool {
    !crate::text::contains_char(v, '\n')
}

pub open spec fn opt_one_line(v: Option<Seq<char>>) -> bool {
    match v {
        Some(x) => one_line(x),
        None => true,
    }
}

/// The lines of an MCP server section after the blank line before it.
pub open spec fn mcp_section_lines(
    name: Seq<char>,
    command: Seq<char>,
    project: Option<Seq<char>>,
    codex_home: Option<Seq<char>>,
    scope: Option<Seq<char>>,
) -> Seq<Seq<char>> {
    let env = env_items(project, codex_home, scope);
    let head = seq![
        Seq::<char>::empty(),
        "[mcp_servers."@ + name + seq![']'],
        quoted_setting("command"@, command),
        "args = []"@,
        "enabled = true"@,
    ];
    let with_env = if env.len() == 0 {
        head
    } else {
        head.push("env = { "@ + join(env, ", "@) + " }"@)
    };
    with_env.push(Seq::empty())
}

proof fn lemma_mcp_section_ok(
    name: Seq<char>,
    command: Seq<char>,
    project: Option<Seq<char>>,
    codex_home: Option<Seq<char>>,
    scope: Option<Seq<char>>,
)
    requires
        one_line(name),
        one_line(command),
        opt_one_line(project),
        opt_one_line(codex_home),
        opt_one_line(scope),
    ensures
        section_lines_ok(mcp_section_lines(name, command, project, codex_home, scope), mcp_prefix(name)),
{
    reveal_strlit("[mcp_servers.");
    reveal_strlit("command");
    reveal_strlit(" = \"");
    reveal_strlit("\"");
    reveal_strlit("args = []");
    reveal_strlit("enabled = true");
    reveal_strlit("env = { ");
    reveal_strlit(" }");
    reveal_strlit(", ");
    reveal_strlit("CODEX_CWD");
    reveal_strlit("CODEX_HOME");
    reveal_strlit("TASKLOOP_STORAGE_SCOPE");
    let ls = mcp_section_lines(name, command, project, codex_home, scope);
    let env = env_items(project, codex_home, scope);
    let header = "[mcp_servers."@ + name + seq![']'];
    let cmd = quoted_setting("command"@, command);
    // the header trims to itself and starts with the prefix
    crate::text::lemma_trim_class_clean(header, CharClass::Whitespace);
    assert(header.subrange(0, mcp_prefix(name).len() as int) =~= mcp_prefix(name));
    // the other lines trim to themselves and do not start with '['
    crate::text::lemma_trim_class_clean(cmd, CharClass::Whitespace);
    crate::text::lemma_trim_class_clean("args = []"@, CharClass::Whitespace);
    crate::text::lemma_trim_class_clean("enabled = true"@, CharClass::Whitespace);
    let e: Seq<char> = Seq::empty();
    crate::text::lemma_trim_class_clean(e, CharClass::Whitespace);
    // no line holds a line break
    lemma_concat_no_char("[mcp_servers."@, name, '\n');
    lemma_concat_no_char("[mcp_servers."@ + name, seq![']'], '\n');
    lemma_concat_no_char("command"@, " = \""@, '\n');
    lemma_concat_no_char("command"@ + " = \""@, command, '\n');
    lemma_concat_no_char("command"@ + " = \""@ + command, "\""@, '\n');
    assert forall|k: int| 0 <= k < env.len() implies !crate::text::contains_char(#[trigger] env[k], '\n') by {
        lemma_setting_one_line("CODEX_CWD"@, project);
        lemma_setting_one_line("CODEX_HOME"@, codex_home);
        lemma_setting_one_line("TASKLOOP_STORAGE_SCOPE"@, scope);
        let a = opt_item("CODEX_CWD"@, project);
        let b = opt_item("CODEX_HOME"@, codex_home);
        let c = opt_item("TASKLOOP_STORAGE_SCOPE"@, scope);
        if k < a.len() {
            assert(env[k] == a[k]);
        } else if k < a.len() + b.len() {
            assert(env[k] == b[k - a.len()]);
        } else {
            assert(env[k] == c[k - a.len() - b.len()]);
        }
    }
    if env.len() > 0 {
        let envl = "env = { "@ + join(env, ", "@) + " }"@;
        lemma_join_no_char(env, ", "@, '\n');
        lemma_concat_no_char("env = { "@, join(env, ", "@), '\n');
        lemma_concat_no_char("env = { "@ + join(env, ", "@), " }"@, '\n');
        crate::text::lemma_trim_class_clean(envl, CharClass::Whitespace);
        assert(envl[0] == 'e');
        assert(envl.last() == '}');
    }
    assert forall|k: int| 2 <= k < ls.len() implies !is_header(trim(#[trigger] ls[k])) by {
        if k == 2 {
            assert(ls[k] == cmd);
            assert(cmd[0] == 'c');
        } else if k == 3 {
            assert(ls[k] == "args = []"@);
        } else if k == 4 {
            assert(ls[k] == "enabled = true"@);
        } else if k == ls.len() - 1 {
            assert(ls[k] == e);
        } else {
            assert(ls[k] == "env = { "@ + join(env, ", "@) + " }"@);
        }
    }
    assert forall|k: int| 0 <= k < ls.len() implies crate::text::line_ok(#[trigger] ls[k]) by {
        if k == 1 {
            assert(ls[k] == header);
        } else if k == 2 {
            assert(ls[k] == cmd);
        } else if k == 3 {
            assert(ls[k] == "args = []"@);
        } else if k == 4 {
            assert(ls[k] == "enabled = true"@);
        } else if k == 0 || k == ls.len() - 1 {
            assert(ls[k] == e);
        } else {
            assert(ls[k] == "env = { "@ + join(env, ", "@) + " }"@);
        }
    }
}

proof fn lemma_setting_one_line(key: Seq<char>, value: Option<Seq<char>>)
    requires
        !crate::text::contains_char(key, '\n'),
        opt_one_line(value),
    ensures
        forall|k: int| 0 <= k < opt_item(key, value).len() ==> !crate::text::contains_char(#[trigger] opt_item(key, value)[k], '\n'),
{
    reveal_strlit(" = \"");
    reveal_strlit("\"");
    match value {
        Some(v) => {
            lemma_concat_no_char(key, " = \""@, '\n');
            lemma_concat_no_char(key + " = \""@, v, '\n');
            lemma_concat_no_char(key + " = \""@ + v, "\""@, '\n');
            assert(opt_item(key, value)[0] == quoted_setting(key, v));
        },
        None => {},
    }
}

/// A final line break after text that ends in a visible character adds no line.
proof fn lemma_lines_final_newline(a: Seq<char>, i: int)
    requires
        a.len() > 0,
        a.last() != '\n',
        a.last() != '\r',
        0 <= i < a.len(),
    ensures
        lines_from(a.push('\n'), i) == lines_from(a, i),
    decreases a.len() - i,
{
    let s = a.push('\n');
    lemma_find_char_from(a, '\n', i);
    lemma_find_char_from(s, '\n', i);
    let ja = find_char_from(a, '\n', i);
    if ja < a.len() {
        lemma_find_prefix(a, seq!['\n'], '\n', i);
        assert(a + seq!['\n'] =~= s);
        assert(s.subrange(i, ja) =~= a.subrange(i, ja));
        assert(ja + 1 < a.len());
        lemma_lines_final_newline(a, ja + 1);
    } else {
        assert forall|k: int| i <= k < a.len() implies s[k] != '\n' by {
            assert(s[k] == a[k]);
        }
        assert(s[a.len() as int] == '\n');
        let f = find_char_from(s, '\n', i);
        if f < a.len() {
            assert(s[f] == a[f]);
            assert(a[f] != '\n');
        }
        if f > a.len() {
            assert(i <= a.len() < f);
        }
        assert(f == a.len());
        let piece = s.subrange(i, a.len() as int);
        assert(piece =~= a.subrange(i, a.len() as int));
        assert(piece.last() == a.last());
        assert(strip_cr(piece) == piece);
        assert(lines_from(s, (a.len() + 1) as int) =~= Seq::<Seq<char>>::empty());
        assert(lines_from(s, i) =~= seq![piece]);
    }
}

/// Removing sections from text whose end is trimmed gives the same with or
/// without one final line break.
proof fn lemma_remove_after_trimmed(a: Seq<char>, prefix: Seq<char>)
    requires
        a.len() == 0 || !crate::text::is_ws(a.last()),
    ensures
        remove_sections_spec(a + seq!['\n'], prefix) == remove_sections_spec(a, prefix),
{
    let s = a + seq!['\n'];
    if a.len() == 0 {
        assert(s =~= seq!['\n']);
        lemma_find_char_from(s, '\n', 0);
        assert(find_char_from(s, '\n', 0) == 0);
        assert(s.subrange(0, 0) =~= Seq::<char>::empty());
        assert(lines_from(s, 1) =~= Seq::<Seq<char>>::empty());
        assert(lines(s) =~= seq![Seq::<char>::empty()]);
        let e: Seq<char> = Seq::empty();
        assert(trim(e) =~= e) by {
            crate::text::lemma_trim_class_clean(e, CharClass::Whitespace);
        }
        assert(!is_header(trim(e)));
        assert(seq![e].drop_first() =~= Seq::<Seq<char>>::empty());
        assert(seq![e][0] == e);
        assert(kept_lines(Seq::<Seq<char>>::empty(), prefix, false) =~= Seq::<Seq<char>>::empty());
        assert(kept_lines(seq![e], prefix, false) =~= seq![e] + kept_lines(Seq::<Seq<char>>::empty(), prefix, false));
        assert(kept_lines(lines(s), prefix, false) =~= seq![e]);
        assert(lines(a) =~= Seq::<Seq<char>>::empty());
    } else {
        assert(a.push('\n') =~= s);
        lemma_lines_final_newline(a, 0);
    }
}

/// Removing an MCP server's section right after appending it gives what
/// removing it from the trimmed text would, when the name, the command and
/// the settings are single lines: `mcp remove` undoes `mcp add`.
pub proof fn lemma_remove_undoes_append_block(
    contents: Seq<char>,
    name: Seq<char>,
    command: Seq<char>,
    project: Option<Seq<char>>,
    codex_home: Option<Seq<char>>,
    scope: Option<Seq<char>>,
)
    requires
        one_line(name),
        one_line(command),
        opt_one_line(project),
        opt_one_line(codex_home),
        opt_one_line(scope),
    ensures
        remove_sections_spec(append_block_spec(contents, name, command, project, codex_home, scope), mcp_prefix(name))
            == remove_sections_spec(trim_end_class(contents, CharClass::Whitespace), mcp_prefix(name)),
{
    let a = trim_end_class(contents, CharClass::Whitespace);
    crate::text::lemma_skip_class_back(contents, CharClass::Whitespace, contents.len() as int);
    lemma_mcp_section_ok(name, command, project, codex_home, scope);
    if a.len() > 0 {
        assert(a.last() == contents[a.len() - 1]);
    }
    lemma_remove_appended_section(a, mcp_section_lines(name, command, project, codex_home, scope), mcp_prefix(name));
    lemma_remove_after_trimmed(a, mcp_prefix(name));
}

proof fn lemma_number_line(lead: Seq<char>, v: Seq<char>)
    requires
        lead.len() > 0,
        lead[0] != '[',
        !crate::text::is_ws(lead[0]),
        !crate::text::contains_char(lead, '\n'),
        v.len() > 0,
        forall|i: int| 0 <= i < v.len() ==> #[trigger] v[i] == '-' || crate::numbers::is_digit(v[i]),
    ensures
        !is_header(trim(lead + v)),
        crate::text::line_ok(lead + v),
{
    let l = lead + v;
    assert(l.last() == v[v.len() - 1]);
    assert(v[v.len() - 1] == '-' || crate::numbers::is_digit(v[v.len() - 1]));
    crate::text::lemma_trim_class_clean(l, CharClass::Whitespace);
    assert(l[0] == lead[0]);
    if crate::text::contains_char(v, '\n') {
        let i = choose|i: int| 0 <= i < v.len() && v[i] == '\n';
        assert(v[i] == '-' || crate::numbers::is_digit(v[i]));
    }
    lemma_concat_no_char(lead, v, '\n');
}

proof fn lemma_number_chars(n: nat)
    ensures
        dec(n).len() > 0,
        forall|i: int| 0 <= i < dec(n).len() ==> #[trigger] dec(n)[i] == '-' || crate::numbers::is_digit(dec(n)[i]),
{
    crate::numbers::lemma_dec_digits(n);
}

proof fn lemma_signed_chars(n: int)
    ensures
        dec_int(n).len() > 0,
        forall|i: int| 0 <= i < dec_int(n).len() ==> #[trigger] dec_int(n)[i] == '-' || crate::numbers::is_digit(dec_int(n)[i]),
{
    if n < 0 {
        crate::numbers::lemma_dec_digits((-n) as nat);
        let d = dec((-n) as nat);
        assert forall|i: int| 0 <= i < dec_int(n).len() implies #[trigger] dec_int(n)[i] == '-' || crate::numbers::is_digit(dec_int(n)[i]) by {
            if i > 0 {
                assert(dec_int(n)[i] == d[i - 1]);
            }
        }
    } else {
        crate::numbers::lemma_dec_digits(n as nat);
    }
}

proof fn lemma_stop_section_ok(
    name: Seq<char>,
    command: Seq<char>,
    order: Option<i64>,
    timeout: Option<u64>,
    timeout_ms: Option<u64>,
)
    requires
        one_line(name),
        one_line(command),
    ensures
        section_lines_ok(stop_section_lines(name, command, order, timeout, timeout_ms), stop_hook_prefix(name)),
{
    reveal_strlit("[stop_hooks.sources.");
    reveal_strlit("type = \"command\"");
    reveal_strlit("command");
    reveal_strlit(" = \"");
    reveal_strlit("\"");
    reveal_strlit("enabled = true");
    reveal_strlit("order = ");
    reveal_strlit("timeout = ");
    reveal_strlit("timeout_ms = ");
    let ls = stop_section_lines(name, command, order, timeout, timeout_ms);
    let e: Seq<char> = Seq::empty();
    let header = "[stop_hooks.sources."@ + name + seq![']'];
    let cmd = quoted_setting("command"@, command);
    crate::text::lemma_trim_class_clean(header, CharClass::Whitespace);
    assert(header.subrange(0, stop_hook_prefix(name).len() as int) =~= stop_hook_prefix(name));
    crate::text::lemma_trim_class_clean(cmd, CharClass::Whitespace);
    crate::text::lemma_trim_class_clean("type = \"command\""@, CharClass::Whitespace);
    crate::text::lemma_trim_class_clean("enabled = true"@, CharClass::Whitespace);
    crate::text::lemma_trim_class_clean(e, CharClass::Whitespace);
    lemma_concat_no_char("[stop_hooks.sources."@, name, '\n');
    lemma_concat_no_char("[stop_hooks.sources."@ + name, seq![']'], '\n');
    lemma_concat_no_char("command"@, " = \""@, '\n');
    lemma_concat_no_char("command"@ + " = \""@, command, '\n');
    lemma_concat_no_char("command"@ + " = \""@ + command, "\""@, '\n');
    let head: Seq<Seq<char>> = seq![e, header, "type = \"command\""@, cmd, "enabled = true"@];
    let o = opt_line(
        "order = "@,
        match order {
            Some(x) => Some(dec_int(x as int)),
            None => None,
        },
    );
    let t1 = opt_line(
        "timeout = "@,
        match timeout {
            Some(x) => Some(dec(x as nat)),
            None => None,
        },
    );
    let t2 = opt_line(
        "timeout_ms = "@,
        match timeout_ms {
            Some(x) => Some(dec(x as nat)),
            None => None,
        },
    );
    // every optional line is a number setting
    let nums = o + t1 + t2;
    assert forall|k: int| 0 <= k < nums.len() implies !is_header(trim(#[trigger] nums[k])) && crate::text::line_ok(nums[k]) by {
        if k < o.len() {
            assert(nums[k] == o[k]);
            let x = order->Some_0;
            lemma_signed_chars(x as int);
            lemma_number_line("order = "@, dec_int(x as int));
        } else if k < o.len() + t1.len() {
            assert(nums[k] == t1[k - o.len()]);
            let x = timeout->Some_0;
            lemma_number_chars(x as nat);
            lemma_number_line("timeout = "@, dec(x as nat));
        } else {
            assert(nums[k] == t2[k - o.len() - t1.len()]);
            let x = timeout_ms->Some_0;
            lemma_number_chars(x as nat);
            lemma_number_line("timeout_ms = "@, dec(x as nat));
        }
    }
    assert(ls =~= head + nums + seq![e]);
    assert forall|k: int| 2 <= k < ls.len() implies !is_header(trim(#[trigger] ls[k])) by {
        if k == 2 {
            assert(ls[k] == "type = \"command\""@);
        } else if k == 3 {
            assert(ls[k] == cmd);
            assert(cmd[0] == 'c');
        } else if k == 4 {
            assert(ls[k] == "enabled = true"@);
        } else if k < 5 + nums.len() {
            assert(ls[k] == nums[k - 5]);
        } else {
            assert(ls[k] == e);
        }
    }
    assert forall|k: int| 0 <= k < ls.len() implies crate::text::line_ok(#[trigger] ls[k]) by {
        if k == 0 {
            assert(ls[k] == e);
        } else if k == 1 {
            assert(ls[k] == header);
        } else if k == 2 {
            assert(ls[k] == "type = \"command\""@);
        } else if k == 3 {
            assert(ls[k] == cmd);
        } else if k == 4 {
            assert(ls[k] == "enabled = true"@);
        } else if k < 5 + nums.len() {
            assert(ls[k] == nums[k - 5]);
        } else {
            assert(ls[k] == e);
        }
    }
}

/// Removing a stop-hook source's section right after appending it gives what
/// removing it from the trimmed text would, when the name and the command are
/// single lines: `stop-hooks remove` undoes `stop-hooks add`.
pub proof fn lemma_remove_undoes_append_stop_hook_block(
    contents: Seq<char>,
    name: Seq<char>,
    command: Seq<char>,
    order: Option<i64>,
    timeout: Option<u64>,
    timeout_ms: Option<u64>,
)
    requires
        one_line(name),
        one_line(command),
    ensures
        remove_sections_spec(append_stop_hook_block_spec(contents, name, command, order, timeout, timeout_ms), stop_hook_prefix(name))
            == remove_sections_spec(trim_end_class(contents, CharClass::Whitespace), stop_hook_prefix(name)),
{
    let a = trim_end_class(contents, CharClass::Whitespace);
    crate::text::lemma_skip_class_back(contents, CharClass::Whitespace, contents.len() as int);
    lemma_stop_section_ok(name, command, order, timeout, timeout_ms);
    if a.len() > 0 {
        assert(a.last() == contents[a.len() - 1]);
    }
    lemma_remove_appended_section(a, stop_section_lines(name, command, order, timeout, timeout_ms), stop_hook_prefix(name));
    lemma_remove_after_trimmed(a, stop_hook_prefix(name));
}

} // verus!
