//! Reading one executable command out of the advisory service's
//! free-text answers.
//!
//! A fix suggestion is mined with a strict rule order: a fenced code
//! block first, then a backticked span, then a bare line with a known
//! interpreter prefix; a later rule applies only when every earlier one
//! found nothing.  A classification answer is mined for its JSON object
//! in the same spirit: a fenced block first, then the outermost braces.

use vstd::prelude::*;
use crate::text::contains_seq;
use crate::text::find_char;
use crate::text::find_char_str;
use crate::text::find_first;
use crate::text::find_str;
use crate::text::lemma_find_char_bounds;
use crate::text::lemma_find_from_is_match;
use crate::text::lemma_rfind_char_bounds;
use crate::text::lines_of;
use crate::text::rfind_char;
use crate::text::rfind_char_str;
use crate::text::split_lines;
use crate::text::starts_with_seq;
use crate::text::starts_with_str;
use crate::text::trim_spec;
use crate::text::trim_str;
use crate::text::views_of;

verus! {

/// The fenced code block of `s`: what stands between the first ` ``` `
/// and the next, or everything after an unclosed fence, trimmed.
pub open spec fn fenced_block(s: Seq<char>) -> Option<Seq<char>> {
    match find_first(s, "```"@) {
        None => None,
        Some(a) => {
            let after = s.subrange(a + 3, s.len() as int);
            match find_first(after, "```"@) {
                Some(b) => Some(trim_spec(after.subrange(0, b))),
                None => Some(trim_spec(after)),
            }
        },
    }
}

/// A line that can be taken as a command: non-empty after trimming and
/// not a comment.
pub open spec fn valid_cmd_line(l: Seq<char>) -> bool {
    trim_spec(l).len() > 0 && trim_spec(l)[0] != '#'
}

pub open spec fn first_valid_line(ls: Seq<Seq<char>>) -> Option<Seq<char>>
    decreases ls.len(),
{
    if ls.len() == 0 {
        None
    } else if valid_cmd_line(ls[0]) {
        Some(trim_spec(ls[0]))
    } else {
        first_valid_line(ls.drop_first())
    }
}

/// What the fenced-block rule yields: the block's first line when it is
/// a valid command; otherwise, for a block of at most two lines, its
/// first valid line.
pub open spec fn fenced_rule(s: Seq<char>) -> Option<Seq<char>> {
    match fenced_block(s) {
        None => None,
        Some(block) => {
            let ls = lines_of(block);
            let first = if ls.len() == 0 {
                Seq::<char>::empty()
            } else {
                trim_spec(ls[0])
            };
            if first.len() > 0 && first[0] != '#' {
                Some(first)
            } else if ls.len() <= 2 {
                first_valid_line(ls)
            } else {
                None
            }
        },
    }
}

/// What the backtick rule yields: the first backticked span, when it
/// holds a space or starts with `/` or `echo`.
pub open spec fn backtick_rule(s: Seq<char>) -> Option<Seq<char>> {
    match find_char(s, '`') {
        None => None,
        Some(st) => {
            let after = s.subrange(st + 1, s.len() as int);
            match find_char(after, '`') {
                None => None,
                Some(e) => {
                    let inner = trim_spec(after.subrange(0, e));
                    if inner.len() > 0 && (find_char(inner, ' ') is Some || inner[0] == '/'
                        || starts_with_seq(inner, "echo"@)) {
                        Some(inner)
                    } else {
                        None
                    }
                },
            }
        },
    }
}

/// A trimmed line opening with a known interpreter or path prefix.
pub open spec fn known_prefix_line(l: Seq<char>) -> bool {
    starts_with_seq(l, "ffmpeg "@) || starts_with_seq(l, "python "@) || starts_with_seq(
        l,
        "python3 "@,
    ) || starts_with_seq(l, "/usr/bin/python"@) || starts_with_seq(l, "pip "@)
        || starts_with_seq(l, "source "@) || (l.len() > 0 && l[0] == '/' && contains_seq(
        l,
        "python"@,
    ))
}

/// What the bare-line rule yields: the first valid line with a known
/// interpreter prefix.
pub open spec fn prefix_rule(ls: Seq<Seq<char>>) -> Option<Seq<char>>
    decreases ls.len(),
{
    if ls.len() == 0 {
        None
    } else {
        let t = trim_spec(ls[0]);
        if t.len() > 0 && t[0] != '#' && known_prefix_line(t) {
            Some(t)
        } else {
            prefix_rule(ls.drop_first())
        }
    }
}

/// The one executable command a free-text suggestion yields, by rule
/// priority: fenced block, then backticked span, then known-prefix line.
pub open spec fn suggestion_command(raw: Seq<char>) -> Option<Seq<char>> {
    let s = trim_spec(raw);
    if s.len() == 0 {
        None
    } else {
        match fenced_rule(s) {
            Some(c) => Some(c),
            None => match backtick_rule(s) {
                Some(c) => Some(c),
                None => prefix_rule(lines_of(s)),
            },
        }
    }
}

/// The rule order is strict: a later rule only ever answers when every
/// earlier rule found nothing in the trimmed suggestion.
pub proof fn lemma_suggestion_rule_priority(raw: Seq<char>)
    requires
        trim_spec(raw).len() > 0,
    ensures
        fenced_rule(trim_spec(raw)) is Some ==> suggestion_command(raw) == fenced_rule(
            trim_spec(raw),
        ),
        fenced_rule(trim_spec(raw)) is None && backtick_rule(trim_spec(raw)) is Some
            ==> suggestion_command(raw) == backtick_rule(trim_spec(raw)),
        fenced_rule(trim_spec(raw)) is None && backtick_rule(trim_spec(raw)) is None
            ==> suggestion_command(raw) == prefix_rule(lines_of(trim_spec(raw))),
{
}

fn first_valid_line_exec(ls: &Vec<String>) -> (r: Option<String>)
    ensures
        match r {
            Some(c) => first_valid_line(views_of(ls@)) == Some(c@),
            None => first_valid_line(views_of(ls@)) is None,
        },
{
    let n = ls.len();
    let mut i: usize = 0;
    proof {
        assert(views_of(ls@).subrange(0, n as int) =~= views_of(ls@));
    }
    while i < n
        invariant
            n == ls@.len(),
            i <= n,
            first_valid_line(views_of(ls@)) == first_valid_line(
                views_of(ls@).subrange(i as int, n as int),
            ),
        decreases n - i,
    {
        proof {
            let rest = views_of(ls@).subrange(i as int, n as int);
            assert(rest[0] == ls@[i as int]@);
            assert(rest.drop_first() =~= views_of(ls@).subrange(i + 1 as int, n as int));
        }
        let t = trim_str(ls[i].as_str());
        if t.unicode_len() > 0 && t.get_char(0) != '#' {
            return Some(t.to_owned());
        }
        i += 1;
    }
    proof {
        assert(views_of(ls@).subrange(n as int, n as int) =~= Seq::<Seq<char>>::empty());
    }
    None
}

fn fenced_rule_exec(s: &str) -> (r: Option<String>)
    ensures
        match r {
            Some(c) => fenced_rule(s@) == Some(c@),
            None => fenced_rule(s@) is None,
        },
{
    let n = s.unicode_len();
    match find_str(s, "```") {
        None => None,
        Some(a) => {
            proof {
                lemma_find_from_is_match(s@, "```"@, 0, a as int);
                reveal_strlit("```");
            }
            let after = s.substring_char(a + 3, n);
            let block: &str = match find_str(after, "```") {
                Some(b) => {
                    proof {
                        lemma_find_from_is_match(after@, "```"@, 0, b as int);
                    }
                    trim_str(after.substring_char(0, b))
                },
                None => trim_str(after),
            };
            let ls = split_lines(block);
            let first_ok: bool = if ls.len() == 0 {
                false
            } else {
                let f = trim_str(ls[0].as_str());
                proof {
                    assert(views_of(ls@)[0] == ls@[0]@);
                }
                f.unicode_len() > 0 && f.get_char(0) != '#'
            };
            if first_ok {
                let f = trim_str(ls[0].as_str());
                Some(f.to_owned())
            } else if ls.len() <= 2 {
                first_valid_line_exec(&ls)
            } else {
                None
            }
        },
    }
}

fn backtick_rule_exec(s: &str) -> (r: Option<String>)
    ensures
        match r {
            Some(c) => backtick_rule(s@) == Some(c@),
            None => backtick_rule(s@) is None,
        },
{
    let n = s.unicode_len();
    match find_char_str(s, '`', 0) {
        None => None,
        Some(st) => {
            proof {
                lemma_find_char_bounds(s@, '`', 0, st as int);
            }
            let after = s.substring_char(st + 1, n);
            match find_char_str(after, '`', 0) {
                None => None,
                Some(e) => {
                    proof {
                        lemma_find_char_bounds(after@, '`', 0, e as int);
                    }
                    let inner = trim_str(after.substring_char(0, e));
                    let inner_len = inner.unicode_len();
                    if inner_len > 0 && (find_char_str(inner, ' ', 0).is_some() || inner.get_char(
                        0,
                    ) == '/' || starts_with_str(inner, "echo")) {
                        Some(inner.to_owned())
                    } else {
                        None
                    }
                },
            }
        },
    }
}

fn prefix_rule_exec(ls: &Vec<String>) -> (r: Option<String>)
    ensures
        match r {
            Some(c) => prefix_rule(views_of(ls@)) == Some(c@),
            None => prefix_rule(views_of(ls@)) is None,
        },
{
    let n = ls.len();
    let mut i: usize = 0;
    proof {
        assert(views_of(ls@).subrange(0, n as int) =~= views_of(ls@));
    }
    while i < n
        invariant
            n == ls@.len(),
            i <= n,
            prefix_rule(views_of(ls@)) == prefix_rule(views_of(ls@).subrange(i as int, n as int)),
        decreases n - i,
    {
        proof {
            let rest = views_of(ls@).subrange(i as int, n as int);
            assert(rest[0] == ls@[i as int]@);
            assert(rest.drop_first() =~= views_of(ls@).subrange(i + 1 as int, n as int));
        }
        let t = trim_str(ls[i].as_str());
        if t.unicode_len() > 0 && t.get_char(0) != '#' {
            let known = starts_with_str(t, "ffmpeg ") || starts_with_str(t, "python ")
                || starts_with_str(t, "python3 ") || starts_with_str(t, "/usr/bin/python")
                || starts_with_str(t, "pip ") || starts_with_str(t, "source ") || (t.get_char(0)
                == '/' && {
                let found = find_str(t, "python");
                proof {
                    crate::text::lemma_contains_iff_find(t@, "python"@);
                }
                found.is_some()
            });
            if known {
                return Some(t.to_owned());
            }
        }
        i += 1;
    }
    proof {
        assert(views_of(ls@).subrange(n as int, n as int) =~= Seq::<Seq<char>>::empty());
    }
    None
}

/// Extracts one executable shell command from a free-text fix
/// suggestion, preferring a fenced code block, then a backticked span,
/// then a bare line with a known interpreter prefix.
pub fn extract_command_from_suggestion(s: &str) -> (r: Option<String>)
    ensures
        match r {
            Some(c) => suggestion_command(s@) == Some(c@),
            None => suggestion_command(s@) is None,
        },
{
    let t = trim_str(s);
    if t.unicode_len() == 0 {
        return None;
    }
    match fenced_rule_exec(t) {
        Some(c) => Some(c),
        None => match backtick_rule_exec(t) {
            Some(c) => Some(c),
            None => {
                let ls = split_lines(t);
                prefix_rule_exec(&ls)
            },
        },
    }
}

/// The JSON object a classification answer carries: the contents of a
/// fenced block when one is closed, else the span from the first `{` to
/// the last `}`, else the trimmed text.
pub open spec fn json_object_of(text: Seq<char>) -> Seq<char> {
    match find_first(text, "```"@) {
        Some(st) => {
            let after = text.subrange(st + 3, text.len() as int);
            let content_start: int = match find_char(after, '\n') {
                Some(i) => i + 1,
                None => 0,
            };
            let content = after.subrange(content_start, after.len() as int);
            match find_first(content, "```"@) {
                Some(e) => trim_spec(content.subrange(0, e)),
                None => json_braces_of(text),
            }
        },
        None => json_braces_of(text),
    }
}

pub open spec fn json_braces_of(text: Seq<char>) -> Seq<char> {
    match (find_char(text, '{'), rfind_char(text, '}')) {
        (Some(a), Some(b)) => if a <= b {
            text.subrange(a, b + 1)
        } else {
            trim_spec(text)
        },
        _ => trim_spec(text),
    }
}

fn json_braces_exec(text: &str) -> (r: String)
    ensures
        r@ == json_braces_of(text@),
{
    let n = text.unicode_len();
    match find_char_str(text, '{', 0) {
        Some(a) => {
            proof {
                lemma_find_char_bounds(text@, '{', 0, a as int);
            }
            match rfind_char_str(text, '}', n) {
                Some(b) => {
                    proof {
                        lemma_rfind_char_bounds(text@, '}', n as int, b as int);
                    }
                    if a <= b {
                        text.substring_char(a, b + 1).to_owned()
                    } else {
                        trim_str(text).to_owned()
                    }
                },
                None => trim_str(text).to_owned(),
            }
        },
        None => trim_str(text).to_owned(),
    }
}

/// Carves the JSON object out of a classification answer: a fenced
/// block's contents when the fence is closed, else the outermost braces,
/// else the trimmed text.
pub fn extract_json_object(text: &str) -> (r: String)
    ensures
        r@ == json_object_of(text@),
{
    let n = text.unicode_len();
    match find_str(text, "```") {
        Some(st) => {
            proof {
                lemma_find_from_is_match(text@, "```"@, 0, st as int);
                reveal_strlit("```");
            }
            let after = text.substring_char(st + 3, n);
            let after_len = after.unicode_len();
            let content_start: usize = match find_char_str(after, '\n', 0) {
                Some(i) => {
                    proof {
                        lemma_find_char_bounds(after@, '\n', 0, i as int);
                    }
                    i + 1
                },
                None => 0,
            };
            let content = after.substring_char(content_start, after_len);
            match find_str(content, "```") {
                Some(e) => {
                    proof {
                        lemma_find_from_is_match(content@, "```"@, 0, e as int);
                    }
                    trim_str(content.substring_char(0, e)).to_owned()
                },
                None => json_braces_exec(text),
            }
        },
        None => json_braces_exec(text),
    }
}

} // verus!
