//! Finding the agent's last message for the stop hook: the message given in
//! the hook's input, or else the last assistant message of the session's
//! rollout file.
use vstd::prelude::*;
use crate::state_data::opt_view;
use crate::text::{
    blank_vec, chars_of, chars_eq_str, is_blank, join, join_exec, lines, lines_vec, push_all,
    string_of, trim, trim_vec, vviews, CharClass,
};

verus! {

/// What the hook reads of its input: `last_agent_message` and
/// `rollout_path`, each when it is a string.
#[derive(Clone, Debug)]
pub struct HookInput {
    pub last_agent_message: Option<String>,
    pub rollout_path: Option<String>,
}

/// Where the last message is to be found.
#[derive(Clone, Debug)]
pub enum MessageSource {
    /// The input's own message.
    Direct(String),
    /// The rollout file at this path.
    Rollout(String),
    /// Nowhere: the message is empty.
    Nothing,
}

/// The input's message when it is not blank; else the rollout file when
/// its path is not blank; else nothing.
pub open spec fn source_spec(last_agent_message: Option<Seq<char>>, rollout_path: Option<Seq<char>>) -> (u8, Seq<char>) {
    match last_agent_message {
        Some(m) if !is_blank(m) => (0, m),
        _ => match rollout_path {
            Some(p) if !is_blank(p) => (1, p),
            _ => (2, Seq::empty()),
        },
    }
}

/// Where the hook looks for the agent's last message.
pub fn message_source(input: &HookInput) -> (r: MessageSource)
    ensures
        ({
            let s = source_spec(opt_view(input.last_agent_message), opt_view(input.rollout_path));
            match r {
                MessageSource::Direct(m) => s.0 == 0 && m@ == s.1,
                MessageSource::Rollout(p) => s.0 == 1 && p@ == s.1,
                MessageSource::Nothing => s.0 == 2,
            }
        }),
{
    if let Some(m) = &input.last_agent_message {
        let c = chars_of(m.as_str());
        if !blank_vec(c.as_slice()) {
            return MessageSource::Direct(m.clone());
        }
    }
    if let Some(p) = &input.rollout_path {
        let c = chars_of(p.as_str());
        if !blank_vec(c.as_slice()) {
            return MessageSource::Rollout(p.clone());
        }
    }
    MessageSource::Nothing
}

/// The trimmed lines of a rollout that are not blank, last line first.
pub open spec fn rollout_lines_spec(ls: Seq<Seq<char>>) -> Seq<Seq<char>>
    decreases ls.len(),
{
    if ls.len() == 0 {
        Seq::empty()
    } else {
        let t = trim(ls.last());
        let rest = rollout_lines_spec(ls.drop_last());
        if t.len() == 0 {
            rest
        } else {
            seq![t] + rest
        }
    }
}

/// The lines of a rollout file to look at, in the order they are looked at.
pub fn rollout_lines(contents: &str) -> (r: Vec<String>)
    ensures
        r@.map_values(|s: String| s@) == rollout_lines_spec(lines(contents@)),
{
    let c = chars_of(contents);
    let ls = lines_vec(c.as_slice());
    let ghost lv = vviews(ls@);
    let mut out: Vec<String> = Vec::new();
    let mut i: usize = ls.len();
    assert(lv.take(i as int) =~= lv);
    while i > 0
        invariant
            i <= ls@.len(),
            lv == vviews(ls@),
            rollout_lines_spec(lv) == out@.map_values(|s: String| s@) + rollout_lines_spec(lv.take(i as int)),
        decreases i,
    {
        let ghost pre = lv.take(i as int);
        proof {
            assert(pre.drop_last() =~= lv.take(i - 1));
            assert(pre.last() == ls@[i - 1]@);
        }
        let t = trim_vec(ls[i - 1].as_slice(), CharClass::Whitespace);
        if t.len() > 0 {
            let ghost before = out@.map_values(|s: String| s@);
            out.push(string_of(t.as_slice()));
            assert(out@.map_values(|s: String| s@) =~= before.push(t@));
            assert(before + (seq![t@] + rollout_lines_spec(lv.take(i - 1))) =~= out@.map_values(
                |s: String| s@,
            ) + rollout_lines_spec(lv.take(i - 1)));
        }
        i = i - 1;
    }
    assert(rollout_lines_spec(lv.take(0)) =~= Seq::<Seq<char>>::empty());
    assert(out@.map_values(|s: String| s@) + Seq::<Seq<char>>::empty() =~= out@.map_values(|s: String| s@));
    out
}

/// An item of a message's `content`: its `type` and `text` when they are
/// strings.
#[derive(Clone, Debug)]
pub struct ContentItem {
    pub kind: Option<String>,
    pub text: Option<String>,
}

/// The `payload` of a rollout line: its `type` and `role` when they are
/// strings, and its `content` when it is a list (each item `None` when it
/// is not an object).
#[derive(Clone, Debug)]
pub struct RolloutPayload {
    pub kind: Option<String>,
    pub role: Option<String>,
    pub content: Option<Vec<Option<ContentItem>>>,
}

/// The text an item contributes: the text of an `output_text` or `text` item
/// when it is not empty.
pub open spec fn item_text(it: Option<ContentItem>) -> Option<Seq<char>> {
    match it {
        Some(ci) => match (opt_view(ci.kind), opt_view(ci.text)) {
            (Some(k), Some(t)) => if (k == "output_text"@ || k == "text"@) && t.len() > 0 {
                Some(t)
            } else {
                None
            },
            _ => None,
        },
        None => None,
    }
}

/// The texts of a message's items, in order.
pub open spec fn texts_of(items: Seq<Option<ContentItem>>) -> Seq<Seq<char>>
    decreases items.len(),
{
    if items.len() == 0 {
        Seq::empty()
    } else {
        let r = texts_of(items.drop_last());
        match item_text(items.last()) {
            Some(t) => r.push(t),
            None => r,
        }
    }
}

/// The text of an assistant message with some text: its texts joined by '\n'.
pub open spec fn payload_text(p: Option<RolloutPayload>) -> Option<Seq<char>> {
    match p {
        Some(pl) => if opt_view(pl.kind) == Some("message"@) && opt_view(pl.role) == Some("assistant"@) {
            match pl.content {
                Some(items) => {
                    let ts = texts_of(items@);
                    if ts.len() > 0 {
                        Some(join(ts, seq!['\n']))
                    } else {
                        None
                    }
                },
                None => None,
            }
        } else {
            None
        },
        None => None,
    }
}

/// The first assistant message with text among `ps[i..]`, or empty.
pub open spec fn first_text(ps: Seq<Option<RolloutPayload>>, i: int) -> Seq<char>
    decreases ps.len() - i,
{
    if i < 0 || i >= ps.len() {
        Seq::empty()
    } else {
        match payload_text(ps[i]) {
            Some(t) => t,
            None => first_text(ps, i + 1),
        }
    }
}

fn opt_is(o: &Option<String>, lit: &str) -> (r: bool)
    ensures
        r == (opt_view(*o) == Some(lit@)),
{
    match o {
        Some(s) => crate::text::str_eq(s.as_str(), lit),
        None => false,
    }
}

fn item_text_exec(it: &Option<ContentItem>) -> (r: Option<String>)
    ensures
        opt_view(r) == item_text(*it),
{
    match it {
        Some(ci) => match (&ci.kind, &ci.text) {
            (Some(k), Some(t)) => {
                let tc = chars_of(t.as_str());
                if (crate::text::str_eq(k.as_str(), "output_text") || crate::text::str_eq(k.as_str(), "text"))
                    && tc.len() > 0 {
                    Some(t.clone())
                } else {
                    None
                }
            },
            _ => None,
        },
        None => None,
    }
}

fn payload_text_exec(p: &Option<RolloutPayload>) -> (r: Option<Vec<char>>)
    ensures
        match r {
            Some(t) => payload_text(*p) == Some(t@),
            None => payload_text(*p) is None,
        },
{
    let pl = match p {
        Some(pl) => pl,
        None => {
            return None;
        },
    };
    if !(opt_is(&pl.kind, "message") && opt_is(&pl.role, "assistant")) {
        return None;
    }
    let items = match &pl.content {
        Some(items) => items,
        None => {
            return None;
        },
    };
    let mut texts: Vec<Vec<char>> = Vec::new();
    let mut i: usize = 0;
    while i < items.len()
        invariant
            i <= items@.len(),
            vviews(texts@) == texts_of(items@.take(i as int)),
        decreases items@.len() - i,
    {
        proof {
            assert(items@.take(i + 1).drop_last() =~= items@.take(i as int));
            assert(items@.take(i + 1).last() == items@[i as int]);
        }
        match item_text_exec(&items[i]) {
            Some(t) => {
                let ghost before = vviews(texts@);
                texts.push(chars_of(t.as_str()));
                assert(vviews(texts@) =~= before.push(t@));
            },
            None => {},
        }
        i = i + 1;
    }
    assert(items@.take(items@.len() as int) =~= items@);
    if texts.len() == 0 {
        return None;
    }
    let mut nl: Vec<char> = Vec::new();
    nl.push('\n');
    assert(nl@ =~= seq!['\n']);
    Some(join_exec(&texts, nl.as_slice()))
}

/// The last assistant message of a rollout: among the payloads of the lines
/// looked at (in that order), the first assistant message with text, its
/// texts joined by '\n'; empty when there is none.
pub fn last_assistant_text(payloads: &Vec<Option<RolloutPayload>>) -> (r: String)
    ensures
        r@ == first_text(payloads@, 0),
{
    let mut i: usize = 0;
    while i < payloads.len()
        invariant
            i <= payloads@.len(),
            first_text(payloads@, 0) == first_text(payloads@, i as int),
        decreases payloads@.len() - i,
    {
        match payload_text_exec(&payloads[i]) {
            Some(t) => {
                return string_of(t.as_slice());
            },
            None => {},
        }
        i = i + 1;
    }
    String::new()
}

} // verus!
