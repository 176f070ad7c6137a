//! Skills: read-only descriptors of extra abilities.
//!
//! A skill carries a hint the advisory service may draw on.  This module
//! holds the verified text work: the prompt section injected at
//! classification time, the summary listing, the hint context matched to
//! a failing command, install-instruction lookup, and the parsing of a
//! markdown skill descriptor.  Walking the skills directory is file I/O
//! and stays outside.

use vstd::prelude::*;
use crate::model::Skill;
use crate::text::contains_seq;
use crate::text::contains_str;
use crate::text::dec_digits;
use crate::text::find_char;
use crate::text::find_char_str;
use crate::text::find_first;
use crate::text::find_str;
use crate::text::join_sep;
use crate::text::lemma_find_char_bounds;
use crate::text::lemma_find_from_is_match;
use crate::text::lemma_join_push;
use crate::text::lines_of;
use crate::text::lower_of;
use crate::text::lowercase;
use crate::text::push_char;
use crate::text::split_lines;
use crate::text::starts_with_seq;
use crate::text::starts_with_str;
use crate::text::str_eq;
use crate::text::trim_left_spec;
use crate::text::trim_spec;
use crate::text::trim_start_str;
use crate::text::trim_str;
use crate::text::u64_to_dec;
use crate::text::views_of;

verus! {

/// One prompt line of the section: skills without a hint contribute
/// nothing.
pub open spec fn prompt_entry(sk: Skill) -> Seq<char> {
    if sk.prompt_hint@.len() == 0 {
        Seq::empty()
    } else {
        "- ["@ + sk.name@ + "] "@ + sk.prompt_hint@ + "\n"@
    }
}

pub open spec fn prompt_entries(skills: Seq<Skill>) -> Seq<char>
    decreases skills.len(),
{
    if skills.len() == 0 {
        Seq::empty()
    } else {
        prompt_entry(skills[0]) + prompt_entries(skills.drop_first())
    }
}

/// The paragraph appended to the classification prompt: empty without
/// skills, else a header and one line per skill with a hint.
pub open spec fn prompt_section_spec(skills: Seq<Skill>) -> Seq<char> {
    if skills.len() == 0 {
        Seq::empty()
    } else {
        "\n\n你还可以参考以下已安装的技能，在适当时生成对应命令：\n"@ + prompt_entries(skills)
    }
}

/// Builds the skills paragraph for the classification prompt.
pub fn build_prompt_section(skills: &[Skill]) -> (r: String)
    ensures
        r@ == prompt_section_spec(skills@),
{
    if skills.len() == 0 {
        return String::new();
    }
    let mut s = String::from_str("\n\n你还可以参考以下已安装的技能，在适当时生成对应命令：\n");
    let n = skills.len();
    let mut i: usize = 0;
    proof {
        assert(skills@.subrange(0, n as int) =~= skills@);
        assert(s@ + prompt_entries(skills@) =~= prompt_section_spec(skills@));
    }
    while i < n
        invariant
            n == skills@.len(),
            i <= n,
            s@ + prompt_entries(skills@.subrange(i as int, n as int)) == prompt_section_spec(
                skills@,
            ),
        decreases n - i,
    {
        proof {
            let rest = skills@.subrange(i as int, n as int);
            assert(rest[0] == skills@[i as int]);
            assert(rest.drop_first() =~= skills@.subrange(i + 1 as int, n as int));
        }
        let hint_len = skills[i].prompt_hint.as_str().unicode_len();
        if hint_len > 0 {
            s.append("- [");
            s.append(skills[i].name.as_str());
            s.append("] ");
            s.append(skills[i].prompt_hint.as_str());
            s.append("\n");
            proof {
                let rest_next = prompt_entries(skills@.subrange(i + 1 as int, n as int));
                assert(s@ + rest_next =~= prompt_section_spec(skills@));
            }
        }
        i += 1;
    }
    proof {
        assert(prompt_entries(skills@.subrange(n as int, n as int)) =~= Seq::<char>::empty());
        assert(s@ + Seq::<char>::empty() =~= s@);
    }
    s
}

pub open spec fn summary_entry(sk: Skill) -> Seq<char> {
    "• **"@ + sk.name@ + "** ("@ + sk.id@ + ") — "@ + sk.description@ + "\n"@
}

pub open spec fn summary_entries(skills: Seq<Skill>) -> Seq<char>
    decreases skills.len(),
{
    if skills.len() == 0 {
        Seq::empty()
    } else {
        summary_entry(skills[0]) + summary_entries(skills.drop_first())
    }
}

/// The summary shown when the user asks what skills are installed.
pub open spec fn skills_summary_spec(skills: Seq<Skill>) -> Seq<char> {
    if skills.len() == 0 {
        "当前未安装任何 skill。"@
    } else {
        "已安装 "@ + dec_digits(skills.len() as int) + " 个 skill：\n\n"@ + summary_entries(skills)
            + "\n回复「怎么安装 <技能名>」可查看安装方式。"@
    }
}

/// Lists every skill's name, id and description.
pub fn list_skills_summary(skills: &[Skill]) -> (r: String)
    ensures
        r@ == skills_summary_spec(skills@),
{
    let n = skills.len();
    if n == 0 {
        return String::from_str("当前未安装任何 skill。");
    }
    let mut s = String::from_str("已安装 ");
    s.append(u64_to_dec(n as u64).as_str());
    s.append(" 个 skill：\n\n");
    let mut i: usize = 0;
    let ghost head = s@;
    proof {
        assert(skills@.subrange(0, n as int) =~= skills@);
    }
    while i < n
        invariant
            n == skills@.len(),
            n > 0,
            i <= n,
            head == "已安装 "@ + dec_digits(skills@.len() as int) + " 个 skill：\n\n"@,
            s@ + summary_entries(skills@.subrange(i as int, n as int)) == head + summary_entries(
                skills@,
            ),
        decreases n - i,
    {
        proof {
            let rest = skills@.subrange(i as int, n as int);
            assert(rest[0] == skills@[i as int]);
            assert(rest.drop_first() =~= skills@.subrange(i + 1 as int, n as int));
        }
        s.append("• **");
        s.append(skills[i].name.as_str());
        s.append("** (");
        s.append(skills[i].id.as_str());
        s.append(") — ");
        s.append(skills[i].description.as_str());
        s.append("\n");
        proof {
            let rest_next = summary_entries(skills@.subrange(i + 1 as int, n as int));
            assert(s@ + rest_next =~= head + summary_entries(skills@));
        }
        i += 1;
    }
    s.append("\n回复「怎么安装 <技能名>」可查看安装方式。");
    proof {
        assert(summary_entries(skills@.subrange(n as int, n as int)) =~= Seq::<char>::empty());
        assert(s@ =~= skills_summary_spec(skills@));
    }
    s
}

/// A skill is relevant to a failing command when its domain keywords
/// occur in the command's lowercase form.
pub open spec fn skill_relevant(sk: Skill, cl: Seq<char>) -> bool {
    sk.prompt_hint@.len() > 0 && ((sk.id@ == "screen_record"@ && (contains_seq(cl, "ffmpeg"@)
        || contains_seq(cl, "avfoundation"@))) || (sk.id@ == "screenshot"@ && (contains_seq(
        cl,
        "screencapture"@,
    ) || contains_seq(cl, "scrot"@) || contains_seq(cl, "import"@))))
}

pub open spec fn fix_hint_entry(sk: Skill) -> Seq<char> {
    "["@ + sk.name@ + "] "@ + sk.prompt_hint@
}

pub open spec fn relevant_hints(skills: Seq<Skill>, cl: Seq<char>) -> Seq<Seq<char>>
    decreases skills.len(),
{
    if skills.len() == 0 {
        Seq::empty()
    } else {
        let rest = relevant_hints(skills.drop_first(), cl);
        if skill_relevant(skills[0], cl) {
            seq![fix_hint_entry(skills[0])] + rest
        } else {
            rest
        }
    }
}

/// The hint context injected into a fix request: the hints of the
/// skills relevant to the failing command, joined by blank lines.
pub open spec fn fix_context_spec(skills: Seq<Skill>, failed_command: Seq<char>) -> Seq<char> {
    join_sep(relevant_hints(skills, lower_of(failed_command)), "\n\n"@)
}

/// Builds the hint context for a fix request by keyword-matching the
/// failing command against the known skill domains.
pub fn build_relevant_context_for_fix(skills: &[Skill], failed_command: &str) -> (r: String)
    ensures
        r@ == fix_context_spec(skills@, failed_command@),
{
    let cl = lowercase(failed_command);
    let n = skills.len();
    let mut hints: Vec<String> = Vec::new();
    let mut i: usize = 0;
    proof {
        assert(skills@.subrange(0, n as int) =~= skills@);
        assert(views_of(hints@) + relevant_hints(skills@, cl@) =~= relevant_hints(skills@, cl@));
    }
    while i < n
        invariant
            n == skills@.len(),
            i <= n,
            cl@ == lower_of(failed_command@),
            views_of(hints@) + relevant_hints(skills@.subrange(i as int, n as int), cl@)
                == relevant_hints(skills@, cl@),
        decreases n - i,
    {
        proof {
            let rest = skills@.subrange(i as int, n as int);
            assert(rest[0] == skills@[i as int]);
            assert(rest.drop_first() =~= skills@.subrange(i + 1 as int, n as int));
        }
        let sk = &skills[i];
        proof {
            reveal_strlit("screen_record");
            reveal_strlit("screenshot");
        }
        let hint_len = sk.prompt_hint.as_str().unicode_len();
        let relevant: bool = if hint_len == 0 {
            false
        } else if str_eq(sk.id.as_str(), "screen_record") {
            contains_str(cl.as_str(), "ffmpeg") || contains_str(cl.as_str(), "avfoundation")
        } else if str_eq(sk.id.as_str(), "screenshot") {
            contains_str(cl.as_str(), "screencapture") || contains_str(cl.as_str(), "scrot")
                || contains_str(cl.as_str(), "import")
        } else {
            false
        };
        if relevant {
            let mut entry = String::from_str("[");
            entry.append(sk.name.as_str());
            entry.append("] ");
            entry.append(sk.prompt_hint.as_str());
            let ghost prev = hints@;
            hints.push(entry);
            proof {
                let rest_next = relevant_hints(skills@.subrange(i + 1 as int, n as int), cl@);
                assert(views_of(hints@) =~= views_of(prev) + seq![hints@.last()@]);
                assert(views_of(hints@) + rest_next =~= views_of(prev) + (seq![hints@.last()@]
                    + rest_next));
            }
        }
        proof {
            assert(("screen_record"@).len() == 13);
            assert(("screenshot"@).len() == 10);
            assert(relevant == skill_relevant(skills@[i as int], cl@));
        }
        i += 1;
    }
    proof {
        assert(relevant_hints(skills@.subrange(n as int, n as int), cl@) =~= Seq::<
            Seq<char>,
        >::empty());
        assert(views_of(hints@) + Seq::<Seq<char>>::empty() =~= views_of(hints@));
    }
    join_strings(&hints, "\n\n")
}

/// Joins texts with a separator.
fn join_strings(xs: &Vec<String>, sep: &str) -> (r: String)
    ensures
        r@ == join_sep(views_of(xs@), sep@),
{
    let n = xs.len();
    let mut s = String::new();
    let mut i: usize = 0;
    while i < n
        invariant
            n == xs@.len(),
            i <= n,
            s@ == join_sep(views_of(xs@).subrange(0, i as int), sep@),
        decreases n - i,
    {
        proof {
            let pre = views_of(xs@).subrange(0, i as int);
            let pre2 = views_of(xs@).subrange(0, i + 1 as int);
            assert(views_of(xs@)[i as int] == xs@[i as int]@);
            assert(pre2 =~= pre.push(xs@[i as int]@));
            lemma_join_push(pre, xs@[i as int]@, sep@);
        }
        if i > 0 {
            s.append(sep);
        }
        s.append(xs[i].as_str());
        i += 1;
    }
    proof {
        assert(views_of(xs@).subrange(0, n as int) =~= views_of(xs@));
    }
    s
}

pub open spec fn skill_matches_query(sk: Skill, q: Seq<char>) -> bool {
    lower_of(sk.id@) == q || contains_seq(lower_of(sk.name@), q)
}

pub open spec fn install_text(sk: Skill) -> Seq<char> {
    if sk.install@.len() == 0 {
        "「"@ + sk.name@ + "」当前无安装说明。"@
    } else {
        "**"@ + sk.name@ + "** 安装方式：\n\n"@ + sk.install@
    }
}

pub open spec fn install_answer(skills: Seq<Skill>, q: Seq<char>) -> Option<Seq<char>>
    decreases skills.len(),
{
    if skills.len() == 0 {
        None
    } else if skill_matches_query(skills[0], q) {
        Some(install_text(skills[0]))
    } else {
        install_answer(skills.drop_first(), q)
    }
}

/// The install instructions for the first skill whose id equals, or
/// whose name contains, the lowercased query; `None` for an empty query
/// or no match.
pub open spec fn install_spec(skills: Seq<Skill>, query: Seq<char>) -> Option<Seq<char>> {
    let q = lower_of(trim_spec(query));
    if q.len() == 0 {
        None
    } else {
        install_answer(skills, q)
    }
}

/// Looks a skill up by id or name and answers with its install
/// instructions.
pub fn get_install_instructions(skills: &[Skill], query: &str) -> (r: Option<String>)
    ensures
        match r {
            Some(text) => install_spec(skills@, query@) == Some(text@),
            None => install_spec(skills@, query@) is None,
        },
{
    let q = lowercase(trim_str(query));
    if q.as_str().unicode_len() == 0 {
        return None;
    }
    let n = skills.len();
    let mut i: usize = 0;
    proof {
        assert(skills@.subrange(0, n as int) =~= skills@);
    }
    while i < n
        invariant
            n == skills@.len(),
            i <= n,
            q@ == lower_of(trim_spec(query@)),
            q@.len() > 0,
            install_answer(skills@, q@) == install_answer(
                skills@.subrange(i as int, n as int),
                q@,
            ),
        decreases n - i,
    {
        proof {
            let rest = skills@.subrange(i as int, n as int);
            assert(rest[0] == skills@[i as int]);
            assert(rest.drop_first() =~= skills@.subrange(i + 1 as int, n as int));
        }
        let sk = &skills[i];
        let id_low = lowercase(sk.id.as_str());
        let name_low = lowercase(sk.name.as_str());
        if str_eq(id_low.as_str(), q.as_str()) || contains_str(name_low.as_str(), q.as_str()) {
            let install_len = sk.install.as_str().unicode_len();
            if install_len == 0 {
                let mut t = String::from_str("「");
                t.append(sk.name.as_str());
                t.append("」当前无安装说明。");
                return Some(t);
            } else {
                let mut t = String::from_str("**");
                t.append(sk.name.as_str());
                t.append("** 安装方式：\n\n");
                t.append(sk.install.as_str());
                return Some(t);
            }
        }
        i += 1;
    }
    proof {
        assert(skills@.subrange(n as int, n as int) =~= Seq::<Skill>::empty());
    }
    None
}

/// The two halves of a markdown descriptor: the `---`-fenced
/// frontmatter, and the body after the closing fence.
pub open spec fn frontmatter_spec(content: Seq<char>) -> (Seq<char>, Seq<char>) {
    let c = trim_left_spec(content);
    if !starts_with_seq(c, "---"@) {
        (Seq::<char>::empty(), c)
    } else {
        let after = trim_left_spec(c.subrange(3, c.len() as int));
        match find_first(after, "\n---"@) {
            Some(i) => (
                trim_spec(after.subrange(0, i)),
                trim_left_spec(after.subrange(i + 4, after.len() as int)),
            ),
            None => (trim_spec(after), Seq::<char>::empty()),
        }
    }
}

/// Splits a markdown descriptor into its frontmatter and body.
pub fn split_frontmatter<'a>(content: &'a str) -> (r: (&'a str, &'a str))
    ensures
        r.0@ == frontmatter_spec(content@).0,
        r.1@ == frontmatter_spec(content@).1,
{
    proof {
        reveal_strlit("---");
        reveal_strlit("");
    }
    let c = trim_start_str(content);
    if !starts_with_str(c, "---") {
        return ("", c);
    }
    let c_len = c.unicode_len();
    let after = trim_start_str(c.substring_char(3, c_len));
    let after_len = after.unicode_len();
    match find_str(after, "\n---") {
        Some(i) => {
            proof {
                lemma_find_from_is_match(after@, "\n---"@, 0, i as int);
                reveal_strlit("\n---");
            }
            let front = trim_str(after.substring_char(0, i));
            let body = trim_start_str(after.substring_char(i + 4, after_len));
            (front, body)
        },
        None => (trim_str(after), ""),
    }
}

pub open spec fn section_start(lines: Seq<Seq<char>>, needle: Seq<char>, i: int) -> Option<int>
    decreases lines.len() - i,
{
    if i < 0 || i >= lines.len() {
        None
    } else if starts_with_seq(trim_spec(lines[i]), needle) {
        Some(i)
    } else {
        section_start(lines, needle, i + 1)
    }
}

pub open spec fn section_end(lines: Seq<Seq<char>>, keep: Seq<char>, i: int) -> int
    decreases lines.len() - i,
{
    if i < 0 || i >= lines.len() {
        lines.len() as int
    } else if starts_with_seq(trim_spec(lines[i]), "## "@) && !starts_with_seq(
        trim_spec(lines[i]),
        keep,
    ) {
        i
    } else {
        section_end(lines, keep, i + 1)
    }
}

/// The body of the `## <title>` section: the lines after the heading,
/// up to the next heading of another title, joined and trimmed.
pub open spec fn section_spec(body: Seq<char>, title: Seq<char>) -> Seq<char> {
    let lines = lines_of(body);
    let needle = "## "@ + title;
    match section_start(lines, needle, 0) {
        None => Seq::<char>::empty(),
        Some(s) => trim_spec(
            join_sep(lines.subrange(s + 1, section_end(lines, needle + " "@, s + 1)), "\n"@),
        ),
    }
}

fn section_start_exec(ls: &Vec<String>, needle: &str) -> (r: Option<usize>)
    ensures
        match r {
            Some(s) => section_start(views_of(ls@), needle@, 0) == Some(s as int) && s
                < ls@.len(),
            None => section_start(views_of(ls@), needle@, 0) is None,
        },
{
    let n = ls.len();
    let mut i: usize = 0;
    while i < n
        invariant
            n == ls@.len(),
            i <= n,
            section_start(views_of(ls@), needle@, 0) == section_start(
                views_of(ls@),
                needle@,
                i as int,
            ),
        decreases n - i,
    {
        proof {
            assert(views_of(ls@)[i as int] == ls@[i as int]@);
        }
        if starts_with_str(trim_str(ls[i].as_str()), needle) {
            return Some(i);
        }
        i += 1;
    }
    None
}

fn section_end_exec(ls: &Vec<String>, keep: &str, from: usize) -> (r: usize)
    requires
        from <= ls@.len(),
    ensures
        r as int == section_end(views_of(ls@), keep@, from as int),
        from <= r <= ls@.len(),
{
    let n = ls.len();
    let mut i: usize = from;
    while i < n
        invariant
            n == ls@.len(),
            from <= i <= n,
            section_end(views_of(ls@), keep@, from as int) == section_end(
                views_of(ls@),
                keep@,
                i as int,
            ),
        decreases n - i,
    {
        proof {
            assert(views_of(ls@)[i as int] == ls@[i as int]@);
        }
        let t = trim_str(ls[i].as_str());
        if starts_with_str(t, "## ") && !starts_with_str(t, keep) {
            return i;
        }
        i += 1;
    }
    i
}

/// Carves the `## <title>` section out of a markdown body.
pub fn extract_md_section(body: &str, title: &str) -> (r: String)
    ensures
        r@ == section_spec(body@, title@),
{
    let ls = split_lines(body);
    let mut needle = String::from_str("## ");
    needle.append(title);
    match section_start_exec(&ls, needle.as_str()) {
        None => String::new(),
        Some(s) => {
            let nn = ls.len();
            proof {
                assert(nn == ls@.len());
            }
            let mut keep = needle;
            keep.append(" ");
            let e = section_end_exec(&ls, keep.as_str(), s + 1);
            let mut picked: Vec<String> = Vec::new();
            let mut i: usize = s + 1;
            while i < e
                invariant
                    s + 1 <= i <= e,
                    e <= ls@.len(),
                    views_of(picked@) == views_of(ls@).subrange(s + 1 as int, i as int),
                decreases e - i,
            {
                picked.push(ls[i].clone());
                proof {
                    let lsv = views_of(ls@);
                    assert(lsv[i as int] == ls@[i as int]@);
                    assert(views_of(picked@) =~= views_of(picked@.drop_last()) + seq![
                        picked@.last()@,
                    ]);
                    assert(lsv.subrange(s + 1 as int, i + 1 as int) =~= lsv.subrange(
                        s + 1 as int,
                        i as int,
                    ).push(lsv[i as int]));
                    assert(views_of(picked@) =~= lsv.subrange(s + 1 as int, i + 1 as int));
                }
                i += 1;
            }
            let joined = join_strings(&picked, "\n");
            trim_str(joined.as_str()).to_owned()
        },
    }
}

pub open spec fn colon_split(l: Seq<char>) -> Option<(Seq<char>, Seq<char>)> {
    match find_char(l, ':') {
        None => None,
        Some(p) => Some((l.subrange(0, p), l.subrange(p + 1, l.len() as int))),
    }
}

/// One pass over the frontmatter lines, each `key: value` overwriting
/// its field: (name, description, prompt_hint, install).
pub open spec fn scan_front(
    lines: Seq<Seq<char>>,
    i: int,
    name: Seq<char>,
    desc: Seq<char>,
    hint: Seq<char>,
    inst: Seq<char>,
) -> (Seq<char>, Seq<char>, Seq<char>, Seq<char>)
    decreases lines.len() - i,
{
    if i < 0 || i >= lines.len() {
        (name, desc, hint, inst)
    } else {
        let l = trim_spec(lines[i]);
        if l.len() == 0 {
            scan_front(lines, i + 1, name, desc, hint, inst)
        } else {
            match colon_split(l) {
                None => scan_front(lines, i + 1, name, desc, hint, inst),
                Some((k0, v0)) => {
                    let k = lower_of(trim_spec(k0));
                    let v = trim_spec(v0);
                    if k == "name"@ {
                        scan_front(lines, i + 1, v, desc, hint, inst)
                    } else if k == "description"@ {
                        scan_front(lines, i + 1, name, v, hint, inst)
                    } else if k == "prompt_hint"@ {
                        scan_front(lines, i + 1, name, desc, v, inst)
                    } else if k == "install"@ {
                        scan_front(lines, i + 1, name, desc, hint, v)
                    } else {
                        scan_front(lines, i + 1, name, desc, hint, inst)
                    }
                },
            }
        }
    }
}

pub open spec fn is_id_char(c: char) -> bool {
    (0x30 <= (c as u32) && (c as u32) <= 0x39) || (0x41 <= (c as u32) && (c as u32) <= 0x5a) || (
    0x61 <= (c as u32) && (c as u32) <= 0x7a) || c == '-' || c == '_'
}

/// The identifier a display name yields: identifier characters kept,
/// anything else an underscore.
pub open spec fn sanitize_id(name: Seq<char>) -> Seq<char> {
    name.map_values(
        |c: char|
            if is_id_char(c) {
                c
            } else {
                '_'
            },
    )
}

/// The fields a markdown descriptor yields, with defaults applied:
/// (id, name, description, prompt_hint, install).
pub open spec fn skill_from_md(content: Seq<char>, dir: Seq<char>) -> (
    Seq<char>,
    Seq<char>,
    Seq<char>,
    Seq<char>,
    Seq<char>,
) {
    let parts = frontmatter_spec(content);
    let fields = scan_front(
        lines_of(parts.0),
        0,
        Seq::<char>::empty(),
        Seq::<char>::empty(),
        Seq::<char>::empty(),
        Seq::<char>::empty(),
    );
    let name = if fields.0.len() == 0 {
        dir
    } else {
        fields.0
    };
    let hint = if fields.2.len() == 0 {
        fields.1
    } else {
        fields.2
    };
    let inst = if fields.3.len() == 0 {
        section_spec(parts.1, "安装"@)
    } else {
        fields.3
    };
    let sid = sanitize_id(name);
    let id = if sid.len() == 0 {
        dir
    } else {
        sid
    };
    (id, name, fields.1, hint, inst)
}

fn sanitize_id_exec(name: &str) -> (r: String)
    ensures
        r@ == sanitize_id(name@),
{
    let n = name.unicode_len();
    let mut s = String::new();
    let mut i: usize = 0;
    proof {
        assert(s@ =~= sanitize_id(name@.subrange(0, 0)));
    }
    while i < n
        invariant
            n == name@.len(),
            i <= n,
            s@ == sanitize_id(name@.subrange(0, i as int)),
        decreases n - i,
    {
        let c = name.get_char(i);
        let u = c as u32;
        let keep = (0x30 <= u && u <= 0x39) || (0x41 <= u && u <= 0x5a) || (0x61 <= u && u
            <= 0x7a) || c == '-' || c == '_';
        if keep {
            push_char(&mut s, c);
        } else {
            push_char(&mut s, '_');
        }
        proof {
            assert(s@ =~= sanitize_id(name@.subrange(0, i + 1 as int)));
        }
        i += 1;
    }
    proof {
        assert(name@.subrange(0, n as int) =~= name@);
    }
    s
}

/// Parses a markdown skill descriptor: frontmatter fields, with the
/// directory name, the description and the body's install section as
/// fallbacks.
pub fn parse_skill_md(content: &str, dir_name: &str) -> (sk: Skill)
    ensures
        sk.id@ == skill_from_md(content@, dir_name@).0,
        sk.name@ == skill_from_md(content@, dir_name@).1,
        sk.description@ == skill_from_md(content@, dir_name@).2,
        sk.prompt_hint@ == skill_from_md(content@, dir_name@).3,
        sk.install@ == skill_from_md(content@, dir_name@).4,
{
    let (front, body) = split_frontmatter(content);
    let ls = split_lines(front);
    let n = ls.len();
    let mut name = String::new();
    let mut desc = String::new();
    let mut hint = String::new();
    let mut inst = String::new();
    let ghost lv = views_of(ls@);
    let ghost target = scan_front(
        lv,
        0,
        Seq::<char>::empty(),
        Seq::<char>::empty(),
        Seq::<char>::empty(),
        Seq::<char>::empty(),
    );
    let mut i: usize = 0;
    while i < n
        invariant
            n == ls@.len(),
            i <= n,
            lv == views_of(ls@),
            target == scan_front(lv, i as int, name@, desc@, hint@, inst@),
        decreases n - i,
    {
        proof {
            assert(lv[i as int] == ls@[i as int]@);
        }
        let l = trim_str(ls[i].as_str());
        let l_len = l.unicode_len();
        if l_len > 0 {
            match find_char_str(l, ':', 0) {
                None => {},
                Some(p) => {
                    proof {
                        lemma_find_char_bounds(l@, ':', 0, p as int);
                    }
                    let k0 = l.substring_char(0, p);
                    let v0 = l.substring_char(p + 1, l_len);
                    let k = lowercase(trim_str(k0));
                    let v = trim_str(v0);
                    if str_eq(k.as_str(), "name") {
                        name = v.to_owned();
                    } else if str_eq(k.as_str(), "description") {
                        desc = v.to_owned();
                    } else if str_eq(k.as_str(), "prompt_hint") {
                        hint = v.to_owned();
                    } else if str_eq(k.as_str(), "install") {
                        inst = v.to_owned();
                    }
                },
            }
        }
        i += 1;
    }
    let name2: String = if name.as_str().unicode_len() == 0 {
        dir_name.to_owned()
    } else {
        name
    };
    let hint2: String = if hint.as_str().unicode_len() == 0 {
        desc.clone()
    } else {
        hint
    };
    let inst2: String = if inst.as_str().unicode_len() == 0 {
        extract_md_section(body, "安装")
    } else {
        inst
    };
    let sid = sanitize_id_exec(name2.as_str());
    let id: String = if sid.as_str().unicode_len() == 0 {
        dir_name.to_owned()
    } else {
        sid
    };
    Skill { id, name: name2, description: desc, prompt_hint: hint2, install: inst2 }
}

} // verus!
