//! The installer's command line: its commands and flags, and the edits it
//! makes to Codex's `config.toml`.
use vstd::prelude::*;
use crate::config_text::{
    append_block, append_block_spec, append_stop_hook_block, append_stop_hook_block_spec, mcp_prefix,
    remove_block, remove_sections_spec, remove_stop_hook_block, stop_hook_prefix,
};
use crate::numbers::{parse_i64_chars, parse_i64_spec, parse_u64_chars, parse_unsigned};
use crate::paths::{hooks_file_path, join_path, path_join};
use crate::text::{blank_vec, chars_of, is_blank, is_prefix, push_str_chars, string_of, str_eq};

verus! {

/// An error of the installer; `usage` says whether it shows its usage first.
#[derive(Clone, Debug)]
pub struct AdminError {
    pub message: String,
    pub usage: bool,
}

/// Whether an error has the given message and usage flag.
pub open spec fn admin_error(e: AdminError, msg: Seq<char>, usage: bool) -> bool {
    e.message@ == msg && e.usage == usage
}

fn fail_with(msg: &str, usage: bool) -> (e: AdminError)
    ensures
        admin_error(e, msg@, usage),
{
    AdminError { message: msg.to_owned(), usage }
}

fn fail(lead: &str, detail: &str, usage: bool) -> (e: AdminError)
    ensures
        admin_error(e, lead@ + detail@, usage),
{
    let mut m: Vec<char> = Vec::new();
    push_str_chars(&mut m, lead);
    push_str_chars(&mut m, detail);
    AdminError { message: string_of(m.as_slice()), usage }
}

// ---------------------------------------------------------------------------
// Flags
// ---------------------------------------------------------------------------

/// A flag name without its leading dashes (`trim_start_matches("--")`).
pub open spec fn strip_dashes(s: Seq<char>) -> Seq<char>
    decreases s.len(),
{
    if s.len() >= 2 && s[0] == '-' && s[1] == '-' {
        strip_dashes(s.skip(2))
    } else {
        s
    }
}

/// The flags of `args[i..]`, read in pairs `--name value`, or the message
/// of the first pair that is not one.
pub open spec fn flags_spec(args: Seq<Seq<char>>, i: int) -> Result<Seq<(Seq<char>, Seq<char>)>, Seq<char>>
    decreases args.len() - i,
{
    if i < 0 || i >= args.len() {
        Ok(Seq::empty())
    } else if !is_prefix("--"@, args[i]) {
        Err("expected flag starting with --, got: "@ + args[i])
    } else if i + 1 >= args.len() {
        Err("missing value for flag: "@ + args[i])
    } else {
        match flags_spec(args, i + 2) {
            Err(e) => Err(e),
            Ok(rest) => Ok(seq![(strip_dashes(args[i]), args[i + 1])] + rest),
        }
    }
}

/// The value a flag was given last, if any.
pub open spec fn flag_value(pairs: Seq<(Seq<char>, Seq<char>)>, key: Seq<char>) -> Option<Seq<char>>
    decreases pairs.len(),
{
    if pairs.len() == 0 {
        None
    } else if pairs.last().0 == key {
        Some(pairs.last().1)
    } else {
        flag_value(pairs.drop_last(), key)
    }
}

/// The flags given on the command line, in order; a flag given twice has
/// the value given last.
#[derive(Clone, Debug)]
pub struct Flags {
    pub pairs: Vec<(String, String)>,
}

impl Flags {
    pub open spec fn pairs_view(&self) -> Seq<(Seq<char>, Seq<char>)> {
        crate::state_data::pairs_view(self.pairs@)
    }

    /// The value a flag was given last.
    pub fn get(&self, key: &str) -> (r: Option<&String>)
        ensures
            match r {
                Some(v) => flag_value(self.pairs_view(), key@) == Some(v@),
                None => flag_value(self.pairs_view(), key@) is None,
            },
    {
        let mut i: usize = self.pairs.len();
        assert(self.pairs_view().take(i as int) =~= self.pairs_view());
        while i > 0
            invariant
                i <= self.pairs@.len(),
                flag_value(self.pairs_view(), key@) == flag_value(self.pairs_view().take(i as int), key@),
            decreases i,
        {
            let ghost t = self.pairs_view().take(i as int);
            proof {
                assert(t.drop_last() =~= self.pairs_view().take(i - 1));
                assert(t.last() == (self.pairs@[i - 1].0@, self.pairs@[i - 1].1@));
            }
            if str_eq(self.pairs[i - 1].0.as_str(), key) {
                return Some(&self.pairs[i - 1].1);
            }
            i = i - 1;
        }
        None
    }
}

fn strip_dashes_exec(s: &str) -> (r: String)
    ensures
        r@ == strip_dashes(s@),
{
    let v = chars_of(s);
    let mut i: usize = 0;
    proof {
        assert(v@.skip(0) =~= v@);
    }
    while v.len() - i >= 2 && v[i] == '-' && v[i + 1] == '-'
        invariant
            i <= v@.len(),
            strip_dashes(v@) == strip_dashes(v@.skip(i as int)),
        decreases v@.len() - i,
    {
        proof {
            assert(v@.skip(i as int).skip(2) =~= v@.skip(i + 2));
        }
        i = i + 2;
    }
    let rest = crate::text::sub_vec(v.as_slice(), i, v.len());
    assert(rest@ =~= v@.skip(i as int));
    string_of(rest.as_slice())
}

pub open spec fn strings_view(v: Seq<String>) -> Seq<Seq<char>> {
    v.map_values(|s: String| s@)
}

/// Reads flags given as `--name value` pairs.
pub fn parse_flags(args: &[String]) -> (r: Result<Flags, AdminError>)
    ensures
        match r {
            Ok(f) => flags_spec(strings_view(args@), 0) == Ok::<Seq<(Seq<char>, Seq<char>)>, Seq<char>>(
                f.pairs_view(),
            ),
            Err(e) => flags_spec(strings_view(args@), 0) matches Err(m) && admin_error(e, m, false),
        },
{
    parse_flags_from(args, 0)
}

fn parse_flags_from(args: &[String], start: usize) -> (r: Result<Flags, AdminError>)
    ensures
        match r {
            Ok(f) => flags_spec(strings_view(args@), start as int) == Ok::<
                Seq<(Seq<char>, Seq<char>)>,
                Seq<char>,
            >(f.pairs_view()),
            Err(e) => flags_spec(strings_view(args@), start as int) matches Err(m) && admin_error(e, m, false),
        },
{
    let ghost a = strings_view(args@);
    let mut pairs: Vec<(String, String)> = Vec::new();
    let mut idx: usize = start;
    proof {
        assert(crate::state_data::pairs_view(pairs@) =~= Seq::<(Seq<char>, Seq<char>)>::empty());
        match flags_spec(a, start as int) {
            Err(e) => {},
            Ok(rest) => {
                assert(Seq::<(Seq<char>, Seq<char>)>::empty() + rest =~= rest);
            },
        }
    }
    while idx < args.len()
        invariant
            a == strings_view(args@),
            a.len() == args@.len(),
            start <= idx,
            flags_spec(a, start as int) == match flags_spec(a, idx as int) {
                Err(e) => Err(e),
                Ok(rest) => Ok::<Seq<(Seq<char>, Seq<char>)>, Seq<char>>(
                    crate::state_data::pairs_view(pairs@) + rest,
                ),
            },
        decreases args@.len() - idx,
    {
        let key = &args[idx];
        assert(a[idx as int] == key@);
        let kc = chars_of(key.as_str());
        proof {
            reveal_strlit("--");
        }
        if !(kc.len() >= 2 && kc[0] == '-' && kc[1] == '-') {
            proof {
                if is_prefix("--"@, key@) {
                    assert(key@.subrange(0, 2)[0] == '-');
                    assert(key@.subrange(0, 2)[1] == '-');
                }
            }
            return Err(fail("expected flag starting with --, got: ", key.as_str(), false));
        }
        proof {
            assert(key@.subrange(0, 2) =~= "--"@);
        }
        if idx + 1 >= args.len() {
            return Err(fail("missing value for flag: ", key.as_str(), false));
        }
        let name = strip_dashes_exec(key.as_str());
        let value = args[idx + 1].clone();
        let ghost before = crate::state_data::pairs_view(pairs@);
        pairs.push((name, value));
        proof {
            assert(a[idx + 1] == value@);
            assert(crate::state_data::pairs_view(pairs@) =~= before.push((strip_dashes(key@), value@)));
            match flags_spec(a, idx + 2) {
                Err(e) => {},
                Ok(rest) => {
                    assert(before + (seq![(strip_dashes(a[idx as int]), a[idx + 1])] + rest)
                        =~= crate::state_data::pairs_view(pairs@) + rest);
                },
            }
        }
        idx = idx + 2;
    }
    proof {
        assert(crate::state_data::pairs_view(pairs@) + Seq::<(Seq<char>, Seq<char>)>::empty()
            =~= crate::state_data::pairs_view(pairs@));
    }
    Ok(Flags { pairs })
}

// ---------------------------------------------------------------------------
// Commands
// ---------------------------------------------------------------------------

/// What the installer was asked to do.
#[derive(Clone, Copy, PartialEq, Eq, Structural, Debug)]
pub enum AdminCommand {
    Help,
    Hooks,
    Mcp,
    StopHooks,
}

/// The command named by the first argument: none, `--help` or `-h` asks for
/// the usage; "hooks", "mcp" and "stop-hooks" are the commands; anything
/// else is refused with the usage.
pub fn admin_command(args: &[String]) -> (r: Result<AdminCommand, AdminError>)
    ensures
        args@.len() == 0 ==> r == Ok::<AdminCommand, AdminError>(AdminCommand::Help),
        args@.len() > 0 ==> {
            let c = args@[0]@;
            match r {
                Ok(k) => match k {
                    AdminCommand::Help => c == "--help"@ || c == "-h"@,
                    AdminCommand::Hooks => c == "hooks"@,
                    AdminCommand::Mcp => c == "mcp"@,
                    AdminCommand::StopHooks => c == "stop-hooks"@,
                },
                Err(e) => c != "--help"@ && c != "-h"@ && c != "hooks"@ && c != "mcp"@ && c
                    != "stop-hooks"@ && admin_error(e, "unknown command: "@ + c, true),
            }
        },
{
    if args.len() == 0 {
        return Ok(AdminCommand::Help);
    }
    let c = args[0].as_str();
    if str_eq(c, "--help") || str_eq(c, "-h") {
        Ok(AdminCommand::Help)
    } else if str_eq(c, "hooks") {
        Ok(AdminCommand::Hooks)
    } else if str_eq(c, "mcp") {
        Ok(AdminCommand::Mcp)
    } else if str_eq(c, "stop-hooks") {
        Ok(AdminCommand::StopHooks)
    } else {
        Err(fail("unknown command: ", c, true))
    }
}

/// A subcommand and its flags.
#[derive(Clone, Debug)]
pub struct SubRequest {
    pub sub: String,
    pub flags: Flags,
}

/// Reads the subcommand and flags of a command: `group` names the command in
/// the message for a missing subcommand.
pub open spec fn sub_request_spec(args: Seq<Seq<char>>, group: Seq<char>) -> Result<(Seq<char>, Seq<(Seq<char>, Seq<char>)>), (Seq<char>, bool)> {
    if args.len() == 0 {
        Err(("missing "@ + group + " subcommand"@, true))
    } else {
        match flags_spec(args, 1) {
            Err(m) => Err((m, false)),
            Ok(f) => Ok((args[0], f)),
        }
    }
}

fn sub_request(args: &[String], group: &str) -> (r: Result<SubRequest, AdminError>)
    ensures
        match r {
            Ok(q) => sub_request_spec(strings_view(args@), group@) == Ok::<
                (Seq<char>, Seq<(Seq<char>, Seq<char>)>),
                (Seq<char>, bool),
            >((q.sub@, q.flags.pairs_view())),
            Err(e) => sub_request_spec(strings_view(args@), group@) matches Err((m, u)) && admin_error(
                e,
                m,
                u,
            ),
        },
{
    if args.len() == 0 {
        let mut m: Vec<char> = Vec::new();
        push_str_chars(&mut m, "missing ");
        push_str_chars(&mut m, group);
        push_str_chars(&mut m, " subcommand");
        return Err(AdminError { message: string_of(m.as_slice()), usage: true });
    }
    let flags = parse_flags_from(args, 1)?;
    Ok(SubRequest { sub: args[0].clone(), flags })
}

/// What `hooks add|remove` works on: the hook list of the project and the
/// hook command.
#[derive(Clone, Debug)]
pub struct HooksRequest {
    pub sub: String,
    pub path: String,
    pub command: String,
}

/// The hook list file of a project: `<project>/.codex/hooks/hooks.json`.
pub open spec fn hooks_path_spec(project: Seq<char>) -> Seq<char> {
    join_path(join_path(join_path(project, ".codex"@), "hooks"@), "hooks.json"@)
}

/// Reads the arguments of `hooks`: a subcommand, then `--project` and
/// `--command`, both required.
pub fn handle_hooks(args: &[String]) -> (r: Result<HooksRequest, AdminError>)
    ensures
        match sub_request_spec(strings_view(args@), "hooks"@) {
            Err((m, u)) => r matches Err(e) && admin_error(e, m, u),
            Ok((sub, f)) => match (flag_value(f, "project"@), flag_value(f, "command"@)) {
                (None, _) => r matches Err(e) && admin_error(e, "--project required"@, false),
                (Some(_), None) => r matches Err(e) && admin_error(e, "--command required"@, false),
                (Some(p), Some(c)) => r matches Ok(q) && q.sub@ == sub && q.path@ == hooks_path_spec(p)
                    && q.command@ == c,
            },
        },
{
    let req = sub_request(args, "hooks")?;
    let project = match req.flags.get("project") {
        Some(p) => p,
        None => {
            return Err(fail_with("--project required", false));
        },
    };
    let command = match req.flags.get("command") {
        Some(c) => c,
        None => {
            return Err(fail_with("--command required", false));
        },
    };
    Ok(HooksRequest { sub: req.sub.clone(), path: hooks_file_path(project.as_str()), command: command.clone() })
}

/// What a `hooks` subcommand does.
#[derive(Clone, Copy, PartialEq, Eq, Structural, Debug)]
pub enum HookAction {
    Add,
    Remove,
}

/// The action a `hooks` subcommand names; any other is refused with the usage.
pub fn hook_action(sub: &str) -> (r: Result<HookAction, AdminError>)
    ensures
        match r {
            Ok(HookAction::Add) => sub@ == "add"@,
            Ok(HookAction::Remove) => sub@ == "remove"@,
            Err(e) => sub@ != "add"@ && sub@ != "remove"@ && admin_error(
                e,
                "unknown hooks subcommand: "@ + sub@,
                true,
            ),
        },
{
    if str_eq(sub, "add") {
        Ok(HookAction::Add)
    } else if str_eq(sub, "remove") {
        Ok(HookAction::Remove)
    } else {
        Err(fail("unknown hooks subcommand: ", sub, true))
    }
}

/// Reads the arguments of `mcp`: a subcommand and flags, `--name` required.
pub fn handle_mcp(args: &[String]) -> (r: Result<SubRequest, AdminError>)
    ensures
        named_request_ok(r, strings_view(args@), "mcp"@),
{
    named_request(args, "mcp")
}

/// Reads the arguments of `stop-hooks`: a subcommand and flags, `--name` required.
pub fn handle_stop_hooks(args: &[String]) -> (r: Result<SubRequest, AdminError>)
    ensures
        named_request_ok(r, strings_view(args@), "stop-hooks"@),
{
    named_request(args, "stop-hooks")
}

/// The result of reading a subcommand whose flags must include `--name`.
pub open spec fn named_request_ok(r: Result<SubRequest, AdminError>, args: Seq<Seq<char>>, group: Seq<char>) -> bool {
    match sub_request_spec(args, group) {
        Err((m, u)) => r matches Err(e) && admin_error(e, m, u),
        Ok((sub, f)) => match flag_value(f, "name"@) {
            None => r matches Err(e) && admin_error(e, "--name required"@, false),
            Some(_) => r matches Ok(q) && q.sub@ == sub && q.flags.pairs_view() == f,
        },
    }
}

fn named_request(args: &[String], group: &str) -> (r: Result<SubRequest, AdminError>)
    ensures
        named_request_ok(r, strings_view(args@), group@),
{
    let req = sub_request(args, group)?;
    if req.flags.get("name").is_none() {
        return Err(fail_with("--name required", false));
    }
    Ok(req)
}

/// `CODEX_HOME` as an MCP server section passes it on: only when not blank.
pub fn nonblank(value: Option<&str>) -> (r: Option<String>)
    ensures
        match value {
            Some(v) => if is_blank(v@) {
                r is None
            } else {
                r matches Some(s) && s@ == v@
            },
            None => r is None,
        },
{
    match value {
        Some(v) => {
            let c = chars_of(v);
            if blank_vec(c.as_slice()) {
                None
            } else {
                Some(v.to_owned())
            }
        },
        None => None,
    }
}

/// Where Codex's configuration is: `$CODEX_HOME/config.toml` when
/// `CODEX_HOME` is set, else `$HOME/.codex/config.toml`; without either it
/// cannot be found.
pub fn codex_config_path(codex_home: Option<&str>, home: Option<&str>) -> (r: Result<String, AdminError>)
    ensures
        match (codex_home, home) {
            (Some(h), _) => r matches Ok(p) && p@ == join_path(h@, "config.toml"@),
            (None, Some(h)) => r matches Ok(p) && p@ == join_path(join_path(h@, ".codex"@), "config.toml"@),
            (None, None) => r matches Err(e) && admin_error(e, "HOME not set"@, false),
        },
{
    match (codex_home, home) {
        (Some(h), _) => Ok(path_join(h, "config.toml")),
        (None, Some(h)) => {
            let c = path_join(h, ".codex");
            Ok(path_join(c.as_str(), "config.toml"))
        },
        (None, None) => Err(fail_with("HOME not set", false)),
    }
}

fn flag_str<'a>(flags: &'a Flags, key: &str) -> (r: Option<&'a str>)
    ensures
        match r {
            Some(v) => flag_value(flags.pairs_view(), key@) == Some(v@),
            None => flag_value(flags.pairs_view(), key@) is None,
        },
{
    match flags.get(key) {
        Some(v) => Some(v.as_str()),
        None => None,
    }
}

/// The configuration after `mcp add|remove`: the server's sections removed;
/// for `add` a new section appended with `--command` (required), `--project`
/// and `--storage-scope` ("local-only" when a project is given without one)
/// and the given `CODEX_HOME`; any other subcommand is refused with the usage.
pub open spec fn mcp_config_spec(contents: Seq<char>, sub: Seq<char>, f: Seq<(Seq<char>, Seq<char>)>, codex_home: Option<Seq<char>>) -> Result<Seq<char>, (Seq<char>, bool)> {
    let name = match flag_value(f, "name"@) {
        Some(n) => n,
        None => Seq::empty(),
    };
    let removed = remove_sections_spec(contents, mcp_prefix(name));
    if sub == "add"@ {
        match flag_value(f, "command"@) {
            None => Err(("--command required"@, false)),
            Some(c) => {
                let project = flag_value(f, "project"@);
                let scope = match flag_value(f, "storage-scope"@) {
                    Some(s) => Some(s),
                    None => if project is Some {
                        Some("local-only"@)
                    } else {
                        None
                    },
                };
                Ok(append_block_spec(removed, name, c, project, codex_home, scope))
            },
        }
    } else if sub == "remove"@ {
        Ok(removed)
    } else {
        Err(("unknown mcp subcommand: "@ + sub, true))
    }
}

/// Edits the configuration for `mcp add|remove`.
pub fn update_mcp_config(contents: &str, req: &SubRequest, codex_home: Option<&str>) -> (r: Result<String, AdminError>)
    requires
        flag_value(req.flags.pairs_view(), "name"@) is Some,
    ensures
        match mcp_config_spec(contents@, req.sub@, req.flags.pairs_view(), crate::config_text::opt_str(codex_home)) {
            Ok(t) => r matches Ok(s) && s@ == t,
            Err((m, u)) => r matches Err(e) && admin_error(e, m, u),
        },
{
    let name = flag_str(&req.flags, "name").unwrap();
    let removed = remove_block(contents, name);
    if str_eq(req.sub.as_str(), "add") {
        let command = match flag_str(&req.flags, "command") {
            Some(c) => c,
            None => {
                return Err(fail_with("--command required", false));
            },
        };
        let project = flag_str(&req.flags, "project");
        let scope = match flag_str(&req.flags, "storage-scope") {
            Some(s) => Some(s),
            None => if project.is_some() {
                Some("local-only")
            } else {
                None
            },
        };
        Ok(append_block(removed.as_str(), name, command, project, codex_home, scope))
    } else if str_eq(req.sub.as_str(), "remove") {
        Ok(removed)
    } else {
        Err(fail("unknown mcp subcommand: ", req.sub.as_str(), true))
    }
}

/// A number flag as `str::parse` reads it; a value that does not parse counts
/// as not given.
pub open spec fn i64_flag(v: Option<Seq<char>>) -> Option<i64> {
    match v {
        Some(s) => match parse_i64_spec(s) {
            Some(n) => Some(n as i64),
            None => None,
        },
        None => None,
    }
}

pub open spec fn u64_flag(v: Option<Seq<char>>) -> Option<u64> {
    match v {
        Some(s) => match parse_unsigned(s, u64::MAX as nat) {
            Some(n) => Some(n as u64),
            None => None,
        },
        None => None,
    }
}

fn read_i64_flag(flags: &Flags, key: &str) -> (r: Option<i64>)
    ensures
        r == i64_flag(flag_value(flags.pairs_view(), key@)),
{
    match flag_str(flags, key) {
        Some(v) => {
            let c = chars_of(v);
            parse_i64_chars(c.as_slice())
        },
        None => None,
    }
}

fn read_u64_flag(flags: &Flags, key: &str) -> (r: Option<u64>)
    ensures
        r == u64_flag(flag_value(flags.pairs_view(), key@)),
{
    match flag_str(flags, key) {
        Some(v) => {
            let c = chars_of(v);
            parse_u64_chars(c.as_slice())
        },
        None => None,
    }
}

/// The configuration after `stop-hooks add|remove`: the source's sections
/// removed; for `add` a new section appended with `--command` (required) and
/// `--order`, `--timeout`, `--timeout-ms` where they are numbers; any other
/// subcommand is refused with the usage.
pub open spec fn stop_hooks_config_spec(contents: Seq<char>, sub: Seq<char>, f: Seq<(Seq<char>, Seq<char>)>) -> Result<Seq<char>, (Seq<char>, bool)> {
    let name = match flag_value(f, "name"@) {
        Some(n) => n,
        None => Seq::empty(),
    };
    let removed = remove_sections_spec(contents, stop_hook_prefix(name));
    if sub == "add"@ {
        match flag_value(f, "command"@) {
            None => Err(("--command required"@, false)),
            Some(c) => Ok(
                append_stop_hook_block_spec(
                    removed,
                    name,
                    c,
                    i64_flag(flag_value(f, "order"@)),
                    u64_flag(flag_value(f, "timeout"@)),
                    u64_flag(flag_value(f, "timeout-ms"@)),
                ),
            ),
        }
    } else if sub == "remove"@ {
        Ok(removed)
    } else {
        Err(("unknown stop-hooks subcommand: "@ + sub, true))
    }
}

/// Edits the configuration for `stop-hooks add|remove`.
pub fn update_stop_hooks_config(contents: &str, req: &SubRequest) -> (r: Result<String, AdminError>)
    requires
        flag_value(req.flags.pairs_view(), "name"@) is Some,
    ensures
        match stop_hooks_config_spec(contents@, req.sub@, req.flags.pairs_view()) {
            Ok(t) => r matches Ok(s) && s@ == t,
            Err((m, u)) => r matches Err(e) && admin_error(e, m, u),
        },
{
    let name = flag_str(&req.flags, "name").unwrap();
    let removed = remove_stop_hook_block(contents, name);
    if str_eq(req.sub.as_str(), "add") {
        let command = match flag_str(&req.flags, "command") {
            Some(c) => c,
            None => {
                return Err(fail_with("--command required", false));
            },
        };
        let order = read_i64_flag(&req.flags, "order");
        let timeout = read_u64_flag(&req.flags, "timeout");
        let timeout_ms = read_u64_flag(&req.flags, "timeout-ms");
        Ok(append_stop_hook_block(removed.as_str(), name, command, order, timeout, timeout_ms))
    } else if str_eq(req.sub.as_str(), "remove") {
        Ok(removed)
    } else {
        Err(fail("unknown stop-hooks subcommand: ", req.sub.as_str(), true))
    }
}

} // verus!
