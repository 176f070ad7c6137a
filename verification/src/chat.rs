//! Routing of incoming chat text: access control and the two built-in
//! question shortcuts about skills.

use vstd::prelude::*;
use crate::text::contains_seq;
use crate::text::contains_str;
use crate::text::find_first;
use crate::text::find_str;
use crate::text::lemma_find_from_is_match;
use crate::text::lower_of;
use crate::text::lowercase;
use crate::text::trim_spec;
use crate::text::trim_str;

verus! {

/// Whether a chat may talk to the assistant: an empty allow-list lets
/// everyone in.
pub fn chat_permitted(allowed: &Vec<i64>, chat_id: i64) -> (r: bool)
    ensures
        r == (allowed@.len() == 0 || allowed@.contains(chat_id)),
{
    let n = allowed.len();
    if n == 0 {
        return true;
    }
    let mut i: usize = 0;
    while i < n
        invariant
            n == allowed@.len(),
            i <= n,
            forall|k: int| 0 <= k < i ==> allowed@[k] != chat_id,
        decreases n - i,
    {
        if allowed[i] == chat_id {
            return true;
        }
        i += 1;
    }
    false
}

/// The text asks which skills are installed.
pub open spec fn asking_skills_spec(text: Seq<char>) -> bool {
    let t = lower_of(trim_spec(text));
    contains_seq(t, "有哪些技能"@) || contains_seq(t, "列出技能"@) || contains_seq(t, "有什么技能"@)
        || contains_seq(t, "list skill"@) || contains_seq(t, "已安装的 skill"@)
}

pub fn is_asking_skills_list(text: &str) -> (r: bool)
    ensures
        r == asking_skills_spec(text@),
{
    let t = lowercase(trim_str(text));
    contains_str(t.as_str(), "有哪些技能") || contains_str(t.as_str(), "列出技能") || contains_str(
        t.as_str(),
        "有什么技能",
    ) || contains_str(t.as_str(), "list skill") || contains_str(t.as_str(), "已安装的 skill")
}

/// First position of a sentence-ending question or stop mark, else the
/// text's length.
pub open spec fn stop_pos(s: Seq<char>, i: int) -> int
    decreases s.len() - i,
{
    if i < 0 || i >= s.len() {
        s.len() as int
    } else if s[i] == '？' || s[i] == '?' || s[i] == '。' {
        i
    } else {
        stop_pos(s, i + 1)
    }
}

/// The query an install question carries, for one leading phrase: the
/// text after the phrase's first occurrence, cut at the first stop
/// mark, trimmed; `None` when absent or empty.
pub open spec fn query_after_prefix(t: Seq<char>, prefix: Seq<char>) -> Option<Seq<char>> {
    match find_first(t, prefix) {
        None => None,
        Some(p) => {
            let rest = trim_spec(t.subrange(p + prefix.len(), t.len() as int));
            let q = trim_spec(rest.subrange(0, stop_pos(rest, 0)));
            if q.len() > 0 {
                Some(q)
            } else {
                None
            }
        },
    }
}

/// The skill name an install question asks about, trying the known
/// phrasings in order.
pub open spec fn install_query_spec(text: Seq<char>) -> Option<Seq<char>> {
    let t = trim_spec(text);
    match query_after_prefix(t, "怎么安装"@) {
        Some(q) => Some(q),
        None => match query_after_prefix(t, "如何安装"@) {
            Some(q) => Some(q),
            None => match query_after_prefix(t, "安装 "@) {
                Some(q) => Some(q),
                None => query_after_prefix(t, "怎么用 "@),
            },
        },
    }
}

fn find_stop(rest: &str) -> (e: usize)
    ensures
        e as int == stop_pos(rest@, 0),
        e <= rest@.len(),
{
    let n = rest.unicode_len();
    let mut e: usize = 0;
    while e < n
        invariant
            n == rest@.len(),
            e <= n,
            stop_pos(rest@, 0) == stop_pos(rest@, e as int),
        decreases n - e,
    {
        let c = rest.get_char(e);
        if c == '？' || c == '?' || c == '。' {
            return e;
        }
        e += 1;
    }
    e
}

fn query_after_prefix_exec(t: &str, prefix: &str) -> (r: Option<String>)
    ensures
        match r {
            Some(q) => query_after_prefix(t@, prefix@) == Some(q@),
            None => query_after_prefix(t@, prefix@) is None,
        },
{
    let n = t.unicode_len();
    match find_str(t, prefix) {
        None => None,
        Some(p) => {
            proof {
                lemma_find_from_is_match(t@, prefix@, 0, p as int);
            }
            let plen = prefix.unicode_len();
            let rest = trim_str(t.substring_char(p + plen, n));
            let e = find_stop(rest);
            let q = trim_str(rest.substring_char(0, e));
            if q.unicode_len() > 0 {
                Some(q.to_owned())
            } else {
                None
            }
        },
    }
}

/// Reads the skill name out of an install question such as
/// "怎么安装 <skill>".
pub fn extract_install_query(text: &str) -> (r: Option<String>)
    ensures
        match r {
            Some(q) => install_query_spec(text@) == Some(q@),
            None => install_query_spec(text@) is None,
        },
{
    let t = trim_str(text);
    match query_after_prefix_exec(t, "怎么安装") {
        Some(q) => Some(q),
        None => match query_after_prefix_exec(t, "如何安装") {
            Some(q) => Some(q),
            None => match query_after_prefix_exec(t, "安装 ") {
                Some(q) => Some(q),
                None => query_after_prefix_exec(t, "怎么用 "),
            },
        },
    }
}

} // verus!
