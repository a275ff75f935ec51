//! Short names and one-line summaries.

use crate::text::{
    chars_of, is_space, lemma_one_line_step, one_line, starts_with, string_of, to_one_line,
};
use vstd::prelude::*;

verus! {

/// The prefix that every registry id carries.
pub open spec fn id_prefix() -> Seq<char> {
    "agent-"@
}

/// An id without the `agent-` prefix.
pub open spec fn short_name(id: Seq<char>) -> Seq<char> {
    if id_prefix().is_prefix_of(id) {
        id.skip(6)
    } else {
        id
    }
}

/// An agent's short name: the registry id without the `agent-` prefix, used for `@mention` matching
/// and compact labels.
pub fn short(id: &str) -> (name: &str)
    ensures
        name@ == short_name(id@),
{
    proof {
        reveal_strlit("agent-");
    }
    if starts_with(id, "agent-") {
        let name = id.substring_char(6, id.unicode_len());
        assert(name@ == id@.skip(6));
        name
    } else {
        id
    }
}

/// The words of `s` on one line, cut after `max` characters with an ellipsis.
pub open spec fn truncated(s: Seq<char>, max: nat) -> Seq<char> {
    let line = one_line(s);
    if line.len() <= max {
        line
    } else {
        line.take(max as int).push('…')
    }
}

/// The words of `s` on one line, cut after `max` characters with an ellipsis.
pub fn truncate(s: &str, max: usize) -> (out: String)
    ensures
        out@ == truncated(s@, max as nat),
{
    let line = to_one_line(s);
    let chars = chars_of(line.as_str());
    if chars.len() <= max {
        line
    } else {
        let mut out = string_of(&chars, 0, max);
        assert(out@ == one_line(s@).take(max as int));
        out.push('…');
        out
    }
}

// ---------------------------------------------------------------------------
// Laws
// ---------------------------------------------------------------------------

/// Words separated by single spaces: a text without other white space, without a space at its start
/// and without two spaces in a row.
pub open spec fn is_spaced_once(s: Seq<char>) -> bool {
    &&& s.len() > 0 ==> !is_space(s[0])
    &&& forall|i: int| 0 <= i < s.len() && is_space(#[trigger] s[i]) ==> s[i] == ' '
    &&& forall|i: int| 0 < i < s.len() && is_space(#[trigger] s[i]) ==> !is_space(s[i - 1])
}

/// A single line: words separated by single spaces, with no space at either end.
pub open spec fn is_line(s: Seq<char>) -> bool {
    is_spaced_once(s) && (s.len() > 0 ==> !is_space(s.last()))
}

/// The words of `s` with single spaces between them are a line, no longer than `s`.
pub proof fn lemma_one_line_is_line(s: Seq<char>)
    ensures
        is_line(one_line(s)),
        one_line(s).len() <= s.len(),
        one_line(s).len() > 0 && is_space(s.last()) ==> one_line(s).len() < s.len(),
    decreases s.len(),
{
    if s.len() == 0 {
        assert(one_line(s) =~= Seq::<char>::empty());
    } else {
        let before = s.drop_last();
        lemma_one_line_step(s);
        lemma_one_line_is_line(before);
        if before.len() > 0 {
            lemma_one_line_step(before);
        }
    }
}

proof fn lemma_line_is_kept(s: Seq<char>)
    requires
        is_spaced_once(s),
    ensures
        s.len() > 0 && is_space(s.last()) ==> one_line(s) == s.drop_last(),
        s.len() == 0 || !is_space(s.last()) ==> one_line(s) == s,
    decreases s.len(),
{
    if s.len() == 0 {
        assert(one_line(s) =~= s);
    } else {
        let before = s.drop_last();
        assert(is_spaced_once(before)) by {
            assert forall|i: int| 0 < i < before.len() && is_space(#[trigger] before[i]) implies
                !is_space(before[i - 1]) by {
                assert(is_space(s[i]));
            }
            assert forall|i: int| 0 <= i < before.len() && is_space(#[trigger] before[i]) implies
                before[i] == ' ' by {
                assert(is_space(s[i]));
            }
        }
        lemma_one_line_step(s);
        lemma_line_is_kept(before);
        if before.len() > 0 {
            lemma_one_line_step(before);
            assert(is_space(s.last()) ==> !is_space(s[s.len() - 2]));
            assert(before.last() == s[s.len() - 2]);
            assert(s[0] == before[0]);
        }
        assert(s == before.push(s.last()));
    }
}

/// A summary is a single line of at most `max` characters and an ellipsis.
pub proof fn law_summary_is_short_line(s: Seq<char>, max: nat)
    ensures
        is_line(truncated(s, max)),
        truncated(s, max).len() <= max + 1,
        !truncated(s, max).contains('\n'),
{
    lemma_one_line_is_line(s);
    let line = one_line(s);
    let t = truncated(s, max);
    if line.len() > max {
        let cut = line.take(max as int);
        assert forall|i: int| 0 < i < t.len() && is_space(#[trigger] t[i]) implies !is_space(
            t[i - 1],
        ) by {
            assert(t[i] == line[i]);
            assert(t[i - 1] == line[i - 1]);
        }
        assert forall|i: int| 0 <= i < t.len() && is_space(#[trigger] t[i]) implies t[i] == ' ' by {
            assert(t[i] == line[i]);
        }
        if max > 0 {
            assert(t[0] == line[0]);
        }
    }
    if t.contains('\n') {
        let i = choose|i: int| 0 <= i < t.len() && t[i] == '\n';
        assert(is_space(t[i]));
    }
}

/// Summarising a summary changes nothing.
pub proof fn law_truncate_idempotent(s: Seq<char>, max: nat)
    ensures
        truncated(truncated(s, max), max) == truncated(s, max),
{
    law_summary_is_short_line(s, max);
    let t = truncated(s, max);
    lemma_line_is_kept(t);
    if one_line(s).len() > max {
        assert(t.take(max as int) =~= one_line(s).take(max as int));
    }
}

/// A text of at most `max` characters is never cut: its summary holds all its words.
pub proof fn law_short_text_is_whole(s: Seq<char>, max: nat)
    requires
        s.len() <= max,
    ensures
        truncated(s, max) == one_line(s),
{
    lemma_one_line_is_line(s);
}

/// A short name is the id without the `agent-` prefix; an id without the prefix is its own short name.
pub proof fn law_short_name(name: Seq<char>)
    ensures
        short_name("agent-"@ + name) == name,
        !("agent-"@).is_prefix_of(name) ==> short_name(name) == name,
{
    reveal_strlit("agent-");
    let id = "agent-"@ + name;
    assert(id.subrange(0, 6) =~= "agent-"@);
    assert(id.skip(6) =~= name);
}

/// A summary is the text on one line, as far as there is room: the whole line if it fits, and else its
/// first `max` characters and an ellipsis.
pub proof fn law_truncate_keeps_start(s: Seq<char>, max: nat)
    ensures
        one_line(s).len() <= max ==> truncated(s, max) == one_line(s),
        one_line(s).len() > max ==> truncated(s, max).len() == max + 1 && truncated(s, max).take(
            max as int,
        ) == one_line(s).take(max as int) && truncated(s, max).last() == '…',
{
    if one_line(s).len() > max {
        assert(truncated(s, max).take(max as int) =~= one_line(s).take(max as int));
    }
}

} // verus!
