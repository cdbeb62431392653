//! Per-project defaults and the names of the completion matchers.
use vstd::prelude::*;
use crate::text::{
    chars_eq_str, chars_of, lemma_skip_class, lemma_skip_class_back, lower_seq, lower_vec, trim,
    trim_vec, CharClass,
};

verus! {

/// The matcher used when none is configured.
pub open spec fn default_matcher() -> Seq<char> {
    "exact"@
}

/// The history length kept when none is configured.
pub const DEFAULT_HISTORY_LIMIT: u32 = 200;

/// The iteration limit used when none is configured (0 means unlimited).
pub const DEFAULT_MAX_ITERATIONS: u32 = 0;

/// The canonical matcher name that a user-supplied matcher name stands for:
/// the value is trimmed and lowercased, then "exact", "case_insensitive"
/// (also written "ci" or "insensitive") and "regex" are recognised.
pub open spec fn matcher_name_spec(value: Seq<char>) -> Option<Seq<char>> {
    let v = lower_seq(trim(value));
    if v == "exact"@ {
        Some("exact"@)
    } else if v == "case_insensitive"@ || v == "ci"@ || v == "insensitive"@ {
        Some("case_insensitive"@)
    } else if v == "regex"@ {
        Some("regex"@)
    } else {
        None
    }
}

/// Whether a matcher name is one of the three canonical ones.
pub open spec fn is_canonical_matcher(m: Seq<char>) -> bool {
    m == "exact"@ || m == "case_insensitive"@ || m == "regex"@
}

/// Maps a user-supplied matcher name to its canonical form, if it names one.
pub fn normalize_matcher_name(value: String) -> (r: Option<String>)
    ensures
        match r {
            Some(s) => matcher_name_spec(value@) == Some(s@),
            None => matcher_name_spec(value@) is None,
        },
{
    let v = chars_of(value.as_str());
    let t = trim_vec(v.as_slice(), CharClass::Whitespace);
    let l = lower_vec(t.as_slice());
    if chars_eq_str(l.as_slice(), "exact") {
        Some("exact".to_owned())
    } else if chars_eq_str(l.as_slice(), "case_insensitive") || chars_eq_str(l.as_slice(), "ci")
        || chars_eq_str(l.as_slice(), "insensitive") {
        Some("case_insensitive".to_owned())
    } else if chars_eq_str(l.as_slice(), "regex") {
        Some("regex".to_owned())
    } else {
        None
    }
}

/// The contents of `.codex/task-loop.config.toml`, as far as they are read.
#[derive(Clone, Debug)]
pub struct TaskloopConfigFile {
    pub default_max_iterations: Option<u32>,
    pub default_completion_matcher: Option<String>,
    pub history_limit: Option<u32>,
}

impl TaskloopConfigFile {
    /// A configuration that sets nothing.
    pub fn unset() -> (r: Self)
        ensures
            r.default_max_iterations is None,
            r.default_completion_matcher is None,
            r.history_limit is None,
    {
        TaskloopConfigFile {
            default_max_iterations: None,
            default_completion_matcher: None,
            history_limit: None,
        }
    }
}

/// The defaults that new tasks and the stop hook fall back on.
#[derive(Clone, Debug)]
pub struct ConfigDefaults {
    pub max_iterations: u32,
    pub completion_matcher: String,
    pub history_limit: u32,
}

/// The matcher a configuration selects: its matcher when that names one, else "exact".
pub open spec fn config_matcher(config: TaskloopConfigFile) -> Seq<char> {
    match config.default_completion_matcher {
        Some(m) => match matcher_name_spec(m@) {
            Some(n) => n,
            None => default_matcher(),
        },
        None => default_matcher(),
    }
}

impl ConfigDefaults {
    /// The defaults a configuration file gives: each field it sets, else the
    /// built-in default; an unrecognised matcher name falls back to "exact".
    pub fn from_config(config: TaskloopConfigFile) -> (r: Self)
        ensures
            r.max_iterations == match config.default_max_iterations {
                Some(v) => v,
                None => DEFAULT_MAX_ITERATIONS,
            },
            r.history_limit == match config.history_limit {
                Some(v) => v,
                None => DEFAULT_HISTORY_LIMIT,
            },
            r.completion_matcher@ == config_matcher(config),
            is_canonical_matcher(r.completion_matcher@),
    {
        let ghost cfg = config;
        let raw = match config.default_completion_matcher {
            Some(m) => m,
            None => "exact".to_owned(),
        };
        proof {
            reveal_strlit("exact");
            reveal_strlit("case_insensitive");
            reveal_strlit("ci");
            reveal_strlit("insensitive");
            reveal_strlit("regex");
            if cfg.default_completion_matcher is None {
                assert(trim("exact"@) =~= "exact"@) by {
                    lemma_skip_class("exact"@, CharClass::Whitespace, 0);
                    lemma_skip_class_back("exact"@, CharClass::Whitespace, 5);
                }
                assert(lower_seq("exact"@) =~= "exact"@);
            }
        }
        let matcher = match normalize_matcher_name(raw) {
            Some(n) => n,
            None => "exact".to_owned(),
        };
        let history_limit = match config.history_limit {
            Some(v) => v,
            None => DEFAULT_HISTORY_LIMIT,
        };
        let max_iterations = match config.default_max_iterations {
            Some(v) => v,
            None => DEFAULT_MAX_ITERATIONS,
        };
        ConfigDefaults { max_iterations, completion_matcher: matcher, history_limit }
    }

    /// The defaults used when no configuration file can be read.
    pub fn builtin() -> (r: Self)
        ensures
            r.max_iterations == DEFAULT_MAX_ITERATIONS,
            r.history_limit == DEFAULT_HISTORY_LIMIT,
            r.completion_matcher@ == default_matcher(),
    {
        ConfigDefaults {
            max_iterations: DEFAULT_MAX_ITERATIONS,
            completion_matcher: "exact".to_owned(),
            history_limit: DEFAULT_HISTORY_LIMIT,
        }
    }
}

// ---------------------------------------------------------------------------
// Laws of matcher names
// ---------------------------------------------------------------------------

/// A word of lowercase letters and underscores reads as itself once trimmed
/// and lowercased.
proof fn lemma_lower_word(w: Seq<char>)
    requires
        w.len() > 0,
        forall|i: int| 0 <= i < w.len() ==> ('a' <= #[trigger] w[i] && w[i] <= 'z') || w[i] == '_',
    ensures
        lower_seq(trim(w)) == w,
{
    assert(('a' <= w[0] && w[0] <= 'z') || w[0] == '_');
    assert(('a' <= w[w.len() - 1] && w[w.len() - 1] <= 'z') || w[w.len() - 1] == '_');
    crate::text::lemma_trim_class_clean(w, CharClass::Whitespace);
    assert(lower_seq(w) =~= w);
}

/// Naming a matcher gives one of the three canonical names, and naming it
/// again gives the same name; a canonical name names itself, and "ci" and
/// "insensitive" (trimmed, in any ASCII case) name the case-insensitive
/// matcher.
pub proof fn lemma_matcher_names(v: Seq<char>, m: Seq<char>)
    ensures
        matcher_name_spec(v) matches Some(n) ==> is_canonical_matcher(n) && matcher_name_spec(n) == Some(n),
        is_canonical_matcher(m) ==> matcher_name_spec(m) == Some(m),
        lower_seq(trim(v)) == "ci"@ || lower_seq(trim(v)) == "insensitive"@ ==> matcher_name_spec(v) == Some(
            "case_insensitive"@,
        ),
{
    reveal_strlit("exact");
    reveal_strlit("case_insensitive");
    reveal_strlit("ci");
    reveal_strlit("insensitive");
    reveal_strlit("regex");
    lemma_lower_word("exact"@);
    lemma_lower_word("case_insensitive"@);
    lemma_lower_word("regex"@);
    assert("exact"@[0] != "regex"@[0]);
    assert("exact"@.len() != "case_insensitive"@.len() && "exact"@.len() != "ci"@.len() && "exact"@.len() != "insensitive"@.len());
    assert("regex"@.len() != "case_insensitive"@.len() && "regex"@.len() != "ci"@.len() && "regex"@.len() != "insensitive"@.len());
    assert("ci"@.len() != "insensitive"@.len() && "case_insensitive"@.len() != "ci"@.len() && "case_insensitive"@.len() != "insensitive"@.len());
}

} // verus!
