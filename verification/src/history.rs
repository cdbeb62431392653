//! A task's history file (`history.jsonl`): one JSON record per line, of
//! which only the most recent ones are kept.
use vstd::prelude::*;
use crate::text::{join, join_exec, lemma_lines_of_join, line_ok, lines, lines_from, lines_vec, string_of, vviews, chars_of};

verus! {

/// The history text that keeps the last `limit` of its lines, when it has
/// more: those lines joined by '\n', ending with a line break unless empty.
/// `None` when there is nothing to cut.
pub open spec fn prune_spec(contents: Seq<char>, limit: nat) -> Option<Seq<char>> {
    let ls = lines(contents);
    if ls.len() <= limit {
        None
    } else {
        let kept = ls.skip(ls.len() - limit);
        let out = join(kept, seq!['\n']);
        Some(if out.len() == 0 {
            out
        } else {
            out.push('\n')
        })
    }
}

/// Cuts a history to its last `limit` lines; `None` when it is short enough.
pub fn prune_lines(contents: &str, limit: usize) -> (r: Option<String>)
    ensures
        match r {
            Some(s) => prune_spec(contents@, limit as nat) == Some(s@),
            None => prune_spec(contents@, limit as nat) is None,
        },
{
    let c = chars_of(contents);
    let ls = lines_vec(c.as_slice());
    if ls.len() <= limit {
        return None;
    }
    let start = ls.len() - limit;
    let mut kept: Vec<Vec<char>> = Vec::new();
    let mut i: usize = start;
    while i < ls.len()
        invariant
            start <= i <= ls@.len(),
            vviews(kept@) == vviews(ls@).subrange(start as int, i as int),
        decreases ls@.len() - i,
    {
        let line = crate::text::sub_vec(ls[i].as_slice(), 0, ls[i].len());
        assert(line@ =~= ls@[i as int]@);
        let ghost before = vviews(kept@);
        kept.push(line);
        assert(vviews(kept@) =~= before.push(ls@[i as int]@));
        assert(vviews(ls@)[i as int] == ls@[i as int]@);
        assert(vviews(kept@) =~= vviews(ls@).subrange(start as int, i + 1));
        i = i + 1;
    }
    assert(vviews(ls@).subrange(start as int, ls@.len() as int) =~= vviews(ls@).skip(start as int));
    let mut nl: Vec<char> = Vec::new();
    nl.push('\n');
    assert(nl@ =~= seq!['\n']);
    let mut out = join_exec(&kept, nl.as_slice());
    if out.len() > 0 {
        out.push('\n');
    }
    Some(string_of(out.as_slice()))
}

/// A cut history reads back as exactly the lines it kept, provided each of
/// them reads back unchanged and they are not all gone.
pub proof fn lemma_prune_keeps_last_lines(contents: Seq<char>, limit: nat)
    requires
        lines(contents).len() > limit,
        forall|k: int|
            lines(contents).len() - limit <= k < lines(contents).len() ==> line_ok(#[trigger] lines(contents)[k]),
        join(lines(contents).skip(lines(contents).len() - limit), seq!['\n']).len() > 0,
    ensures
        prune_spec(contents, limit) matches Some(out) && lines(out) == lines(contents).skip(
            lines(contents).len() - limit,
        ),
{
    let ls = lines(contents);
    let kept = ls.skip(ls.len() - limit);
    let out = join(kept, seq!['\n']).push('\n');
    assert(kept.len() >= 1) by {
        if kept.len() == 0 {
            assert(join(kept, seq!['\n']) =~= Seq::<char>::empty());
        }
    }
    assert forall|k: int| 0 <= k < kept.len() implies line_ok(#[trigger] kept[k]) by {
        assert(kept[k] == ls[ls.len() - limit + k]);
    }
    assert(out.subrange(0, out.len() as int) =~= join(kept, seq!['\n']) + seq!['\n']);
    lemma_lines_of_join(out, 0, kept);
}

} // verus!
