//! The slide-deck generation bypass.
//!
//! A plan whose first action has the exact shape
//! `ppt-generator "<title>" "<content>"` is not run as a shell command:
//! the advisory service is asked for document markup directly, the
//! markup is persisted to a fixed path, and a synthetic result stands in
//! for the action.  Anything with fewer than two quoted segments falls
//! through to ordinary execution.

use vstd::prelude::*;
use crate::model::CommandResult;
use crate::text::starts_with_seq;
use crate::text::starts_with_str;
use crate::text::trim_left_spec;
use crate::text::trim_spec;
use crate::text::trim_start_str;
use crate::text::trim_str;

verus! {

/// One step of the quote scanner: `i` the position, `in_quote` whether a
/// segment is open since `seg_start`, `escape` whether the last read
/// character was a backslash inside quotes, `acc` the segments closed so
/// far as (start, end) pairs.
pub open spec fn quote_scan(
    rest: Seq<char>,
    i: int,
    in_quote: bool,
    escape: bool,
    seg_start: int,
    acc: Seq<(int, int)>,
) -> Seq<(int, int)>
    decreases rest.len() - i,
{
    if i < 0 || i >= rest.len() {
        acc
    } else if escape {
        quote_scan(rest, i + 1, in_quote, false, seg_start, acc)
    } else if rest[i] == '\\' && in_quote {
        quote_scan(rest, i + 1, in_quote, true, seg_start, acc)
    } else if rest[i] == '"' {
        if !in_quote {
            quote_scan(rest, i + 1, true, false, i + 1, acc)
        } else {
            quote_scan(rest, i + 1, false, false, seg_start, acc.push((seg_start, i)))
        }
    } else {
        quote_scan(rest, i + 1, in_quote, escape, seg_start, acc)
    }
}

/// The double-quoted segments of `rest`, with backslash-escaped
/// characters kept inside a segment.
pub open spec fn quoted_segments(rest: Seq<char>) -> Seq<(int, int)> {
    quote_scan(rest, 0, false, false, 0, Seq::empty())
}

/// The (title, content) a `ppt-generator` command carries: the first
/// two double-quoted segments after the command word.  `None` when the
/// command word is absent or fewer than two segments close.
pub open spec fn ppt_args_spec(cmd: Seq<char>) -> Option<(Seq<char>, Seq<char>)> {
    let t = trim_spec(cmd);
    if !starts_with_seq(t, "ppt-generator "@) {
        None
    } else {
        let rest = trim_left_spec(t.subrange(14, t.len() as int));
        let segs = quoted_segments(rest);
        if segs.len() < 2 {
            None
        } else {
            Some((rest.subrange(segs[0].0, segs[0].1), rest.subrange(segs[1].0, segs[1].1)))
        }
    }
}

/// Parses a `ppt-generator "<title>" "<content>"` command into its
/// title and content; any other shape is not recognized.
pub fn parse_ppt_generator_args(cmd: &str) -> (r: Option<(String, String)>)
    ensures
        match r {
            Some((title, content)) => ppt_args_spec(cmd@) == Some((title@, content@)),
            None => ppt_args_spec(cmd@) is None,
        },
{
    let t = trim_str(cmd);
    if !starts_with_str(t, "ppt-generator ") {
        return None;
    }
    proof {
        reveal_strlit("ppt-generator ");
    }
    let t_len = t.unicode_len();
    let rest = trim_start_str(t.substring_char(14, t_len));
    let n = rest.unicode_len();
    let mut i: usize = 0;
    let mut in_quote: bool = false;
    let mut escape: bool = false;
    let mut seg_start: usize = 0;
    let mut count: usize = 0;
    let mut seg0: (usize, usize) = (0, 0);
    let mut seg1: (usize, usize) = (0, 0);
    let ghost mut acc: Seq<(int, int)> = Seq::empty();
    while i < n
        invariant
            n == rest@.len(),
            i <= n,
            seg_start <= n,
            quoted_segments(rest@) == quote_scan(
                rest@,
                i as int,
                in_quote,
                escape,
                seg_start as int,
                acc,
            ),
            count == acc.len(),
            count <= i,
            count >= 1 ==> acc[0] == (seg0.0 as int, seg0.1 as int) && seg0.0 <= seg0.1 <= n,
            count >= 2 ==> acc[1] == (seg1.0 as int, seg1.1 as int) && seg1.0 <= seg1.1 <= n,
            in_quote ==> seg_start <= i,
        decreases n - i,
    {
        let c = rest.get_char(i);
        if escape {
            escape = false;
        } else if c == '\\' && in_quote {
            escape = true;
        } else if c == '"' {
            if !in_quote {
                in_quote = true;
                seg_start = i + 1;
            } else {
                in_quote = false;
                if count == 0 {
                    seg0 = (seg_start, i);
                } else if count == 1 {
                    seg1 = (seg_start, i);
                }
                proof {
                    acc = acc.push((seg_start as int, i as int));
                }
                count = count + 1;
            }
        }
        i += 1;
    }
    if count < 2 {
        proof {
            assert(quoted_segments(rest@).len() < 2);
        }
        return None;
    }
    let title = rest.substring_char(seg0.0, seg0.1).to_owned();
    let content = rest.substring_char(seg1.0, seg1.1).to_owned();
    Some((title, content))
}

/// The fixed path generated slide markup is persisted to.
pub fn slides_output_path() -> (r: &'static str)
    ensures
        r@ == "/tmp/slides.html"@,
{
    "/tmp/slides.html"
}

/// The synthetic result standing in for a bypassed slide-deck action
/// whose markup was generated and saved: a success with a descriptive
/// command label and the save path in its stdout.
pub fn slide_success_result(title: &str, path: &str) -> (r: CommandResult)
    ensures
        r.command@ == "LLM 生成乔布斯风 HTML 演示稿（"@ + title@ + "）"@,
        r.success,
        r.exit_code == Some(0i32),
        r.stdout@ == "已生成并保存到 "@ + path@,
        r.stderr@.len() == 0,
{
    let mut command = String::from_str("LLM 生成乔布斯风 HTML 演示稿（");
    command.append(title);
    command.append("）");
    let mut stdout = String::from_str("已生成并保存到 ");
    stdout.append(path);
    CommandResult { command, success: true, exit_code: Some(0), stdout, stderr: String::new() }
}

/// The synthetic result for a bypassed slide-deck action whose markup
/// could not be written to disk.
pub fn slide_write_failure_result(cmd: &str, err: &str) -> (r: CommandResult)
    ensures
        r.command@ == cmd@,
        !r.success,
        r.exit_code is None,
        r.stdout@.len() == 0,
        r.stderr@ == "写入文件失败: "@ + err@,
{
    let mut stderr = String::from_str("写入文件失败: ");
    stderr.append(err);
    CommandResult {
        command: cmd.to_owned(),
        success: false,
        exit_code: None,
        stdout: String::new(),
        stderr,
    }
}

/// The synthetic result for a bypassed slide-deck action whose advisory
/// round-trip failed.
pub fn slide_advisory_failure_result(cmd: &str, err: &str) -> (r: CommandResult)
    ensures
        r.command@ == cmd@,
        !r.success,
        r.exit_code is None,
        r.stdout@.len() == 0,
        r.stderr@ == err@,
{
    CommandResult {
        command: cmd.to_owned(),
        success: false,
        exit_code: None,
        stdout: String::new(),
        stderr: err.to_owned(),
    }
}

} // verus!
