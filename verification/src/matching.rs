//! Recognising the completion promise in the agent's last message.
use vstd::prelude::*;
use crate::text::{chars_eq, chars_of, lower_seq, lower_vec, normalize_space_spec, normalize_space_vec, string_of};

verus! {

/// Names what `regex` gives for group `group` of the first match of
/// `pattern` in `text`, the pattern built with `.` matching line breaks and,
/// when asked, case-insensitive matching; `None` when the pattern does not
/// compile, does not match, or the group took no part in the match.
pub uninterp spec fn regex_capture_group(pattern: Seq<char>, case_insensitive: bool, text: Seq<char>, group: nat) -> Option<Seq<char>>;

/// Names what `regex` gives when asked whether `pattern`, built with `.`
/// matching line breaks, matches somewhere in `text`; `None` when the pattern
/// does not compile.
pub uninterp spec fn regex_is_match(pattern: Seq<char>, text: Seq<char>) -> Option<bool>;

/// Calls `regex::RegexBuilder` (with `dot_matches_new_line` and the given
/// `case_insensitive`), then `Regex::captures` and `Captures::get`. Claimed:
/// the result is `regex_capture_group` of the arguments, and a captured group
/// is a piece of the text (the crate documents it as the matched substring).
#[verifier::external_body]
fn capture_group(pattern: &str, case_insensitive: bool, text: &str, group: usize) -> (r: Option<String>)
    ensures
        match r {
            Some(c) => regex_capture_group(pattern@, case_insensitive, text@, group as nat) == Some(c@)
                && exists|a: int, b: int| 0 <= a <= b <= text@.len() && text@.subrange(a, b) == c@,
            None => regex_capture_group(pattern@, case_insensitive, text@, group as nat) is None,
        },
{
    let re = regex::RegexBuilder::new(pattern)
        .case_insensitive(case_insensitive)
        .dot_matches_new_line(true)
        .build()
        .ok()?;
    let caps = re.captures(text)?;
    caps.get(group).map(|m| m.as_str().to_string())
}

/// Calls `regex::RegexBuilder` (with `dot_matches_new_line`), then
/// `Regex::is_match`. Claimed: the result is `regex_is_match` of the arguments.
#[verifier::external_body]
fn is_match(pattern: &str, text: &str) -> (r: Option<bool>)
    ensures
        r == regex_is_match(pattern@, text@),
{
    match regex::RegexBuilder::new(pattern).dot_matches_new_line(true).build() {
        Ok(re) => Some(re.is_match(text)),
        Err(_) => None,
    }
}

/// The pattern a completion promise is written in.
pub open spec fn promise_pattern() -> Seq<char> {
    "<promise>(.*?)</promise>"@
}

/// The text between the first `<promise>` and the next `</promise>` (in any
/// letter case), with its whitespace normalised.
pub open spec fn promise_text_spec(message: Seq<char>) -> Option<Seq<char>> {
    match regex_capture_group(promise_pattern(), true, message, 1) {
        Some(c) => Some(normalize_space_spec(c)),
        None => None,
    }
}

/// Finds the promise the agent made in its message.
pub fn extract_promise_text(message: &str) -> (r: Option<String>)
    ensures
        match r {
            Some(s) => promise_text_spec(message@) == Some(s@),
            None => promise_text_spec(message@) is None,
        },
{
    match capture_group("<promise>(.*?)</promise>", true, message, 1) {
        Some(c) => {
            let v = chars_of(c.as_str());
            let n = normalize_space_vec(v.as_slice());
            Some(string_of(n.as_slice()))
        },
        None => None,
    }
}

/// Whether a promise fulfils the completion promise under a matcher: "regex"
/// matches the completion promise as a pattern (`None` when it does not
/// compile), "case_insensitive" compares normalised text ignoring ASCII case,
/// and any other matcher compares normalised text exactly.
pub open spec fn promise_matches_spec(promise_text: Seq<char>, completion_promise: Seq<char>, matcher: Seq<char>) -> Option<bool> {
    if matcher == "regex"@ {
        regex_is_match(completion_promise, promise_text)
    } else if matcher == "case_insensitive"@ {
        Some(lower_seq(normalize_space_spec(promise_text)) == lower_seq(normalize_space_spec(completion_promise)))
    } else {
        Some(normalize_space_spec(promise_text) == normalize_space_spec(completion_promise))
    }
}

/// Decides whether the agent's promise fulfils the task's completion promise.
pub fn promise_matches(promise_text: &str, completion_promise: &str, matcher: &str) -> (r: Option<bool>)
    ensures
        r == promise_matches_spec(promise_text@, completion_promise@, matcher@),
{
    let m = chars_of(matcher);
    if crate::text::chars_eq_str(m.as_slice(), "regex") {
        is_match(completion_promise, promise_text)
    } else {
        let a = chars_of(promise_text);
        let b = chars_of(completion_promise);
        let na = normalize_space_vec(a.as_slice());
        let nb = normalize_space_vec(b.as_slice());
        if crate::text::chars_eq_str(m.as_slice(), "case_insensitive") {
            let la = lower_vec(na.as_slice());
            let lb = lower_vec(nb.as_slice());
            Some(chars_eq(la.as_slice(), lb.as_slice()))
        } else {
            Some(chars_eq(na.as_slice(), nb.as_slice()))
        }
    }
}

// ---------------------------------------------------------------------------
// Laws of promise matching
// ---------------------------------------------------------------------------

/// A promise given word for word fulfils itself, with the exact matcher and
/// with the case-insensitive one.
pub proof fn lemma_promise_matches_itself(x: Seq<char>)
    ensures
        promise_matches_spec(x, x, "exact"@) == Some(true),
        promise_matches_spec(x, x, "case_insensitive"@) == Some(true),
{
    reveal_strlit("exact");
    reveal_strlit("case_insensitive");
    reveal_strlit("regex");
    assert("exact"@[0] != "regex"@[0]);
    assert("exact"@.len() != "case_insensitive"@.len());
    assert("case_insensitive"@.len() != "regex"@.len());
}

/// The case-insensitive matcher does not care which text is the agent's and
/// which the task's, and it accepts whatever the exact matcher accepts: two
/// texts match when their normalised forms agree up to ASCII case.
pub proof fn lemma_case_insensitive_match(a: Seq<char>, b: Seq<char>)
    ensures
        promise_matches_spec(a, b, "case_insensitive"@) == promise_matches_spec(b, a, "case_insensitive"@),
        promise_matches_spec(a, b, "exact"@) == Some(true) ==> promise_matches_spec(a, b, "case_insensitive"@)
            == Some(true),
        promise_matches_spec(a, b, "case_insensitive"@) == Some(
            lower_seq(normalize_space_spec(a)) =~= lower_seq(normalize_space_spec(b)),
        ),
{
    reveal_strlit("exact");
    reveal_strlit("case_insensitive");
    reveal_strlit("regex");
    assert("exact"@[0] != "regex"@[0]);
    assert("exact"@.len() != "case_insensitive"@.len());
    assert("case_insensitive"@.len() != "regex"@.len());
}

} // verus!
