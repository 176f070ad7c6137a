//! Screen-capture device discovery for avfoundation recordings.
//!
//! When a plan starts with a "list capture devices" probe followed by a
//! "record screen" action, the probe's output is scanned for the first
//! `Capture screen` line, the bracket groups before the marker are read
//! backwards for an all-digit device index, and the recording command's
//! `-i "X:0"` selector is rewritten to that index.

use vstd::prelude::*;
use crate::model::TaskCommand;
use crate::text::contains_seq;
use crate::text::contains_str;
use crate::text::dec_digits;
use crate::text::dec_value;
use crate::text::find_first;
use crate::text::find_str;
use crate::text::is_digit;
use crate::text::is_digit_char;
use crate::text::lemma_find_from_is_match;
use crate::text::lemma_rfind_char_bounds;
use crate::text::lines_of;
use crate::text::lower_of;
use crate::text::lowercase;
use crate::text::parse_u32_digits;
use crate::text::rfind_char_before;
use crate::text::rfind_char_str;
use crate::text::seq_all_digits;
use crate::text::split_lines;
use crate::text::trim_spec;
use crate::text::trim_str;
use crate::text::u32_to_dec;
use crate::text::views_of;

verus! {

/// A "list capture devices" probe: names the avfoundation backend, asks
/// for the device list, and has an input-selection flag.
pub open spec fn is_device_list_spec(cmd: Seq<char>) -> bool {
    contains_seq(lower_of(cmd), "avfoundation"@) && contains_seq(lower_of(cmd), "list_devices"@)
        && contains_seq(lower_of(cmd), "-i"@)
}

pub fn is_list_avfoundation_devices(cmd: &str) -> (r: bool)
    ensures
        r == is_device_list_spec(cmd@),
{
    let c = lowercase(cmd);
    contains_str(c.as_str(), "avfoundation") && contains_str(c.as_str(), "list_devices")
        && contains_str(c.as_str(), "-i")
}

/// A "record screen" action: names the avfoundation backend, has an
/// input-selection flag, and a duration flag, an `.mp4` target or a
/// recording keyword.
pub open spec fn is_record_spec(cmd: Seq<char>) -> bool {
    contains_seq(lower_of(cmd), "avfoundation"@) && contains_seq(lower_of(cmd), "-i"@) && (
    contains_seq(lower_of(cmd), "-t"@) || contains_seq(lower_of(cmd), ".mp4"@) || contains_seq(
        lower_of(cmd),
        "screen_record"@,
    ))
}

pub fn is_avfoundation_record(cmd: &str) -> (r: bool)
    ensures
        r == is_record_spec(cmd@),
{
    let c = lowercase(cmd);
    contains_str(c.as_str(), "avfoundation") && contains_str(c.as_str(), "-i") && (contains_str(
        c.as_str(),
        "-t",
    ) || contains_str(c.as_str(), ".mp4") || contains_str(c.as_str(), "screen_record"))
}

/// Scanning backwards from `bound`: the value of the first bracket group
/// `[...]` whose trimmed content is all digits and fits in a `u32`.
pub open spec fn bracket_scan(line: Seq<char>, bound: int) -> Option<u32>
    decreases bound,
{
    match rfind_char_before(line, ']', bound) {
        None => None,
        Some(close) => if 0 <= close < bound {
            match rfind_char_before(line, '[', close) {
                None => None,
                Some(open) => if 0 <= open < close {
                    let between = trim_spec(line.subrange(open + 1, close));
                    if between.len() > 0 && seq_all_digits(between) && dec_value(between)
                        <= u32::MAX as int {
                        Some(dec_value(between) as u32)
                    } else {
                        bracket_scan(line, close)
                    }
                } else {
                    None
                },
            }
        } else {
            None
        },
    }
}

/// The device index one line yields: the bracket groups before the first
/// `Capture screen` marker, scanned backwards.
pub open spec fn line_screen_index(line: Seq<char>) -> Option<u32> {
    match find_first(line, "Capture screen"@) {
        None => None,
        Some(p) => bracket_scan(line, p),
    }
}

pub open spec fn screen_index_of_lines(lines: Seq<Seq<char>>) -> Option<u32>
    decreases lines.len(),
{
    if lines.len() == 0 {
        None
    } else {
        match line_screen_index(lines[0]) {
            Some(v) => Some(v),
            None => screen_index_of_lines(lines.drop_first()),
        }
    }
}

/// The device index a probe's stdout yields: the first line that carries
/// a `Capture screen` marker and a readable bracket group before it.
pub open spec fn screen_index_spec(stdout: Seq<char>) -> Option<u32> {
    screen_index_of_lines(lines_of(stdout))
}

fn bracket_scan_exec(line: &str, bound: usize) -> (r: Option<u32>)
    requires
        bound <= line@.len(),
    ensures
        r == bracket_scan(line@, bound as int),
{
    let mut b: usize = bound;
    loop
        invariant
            b <= line@.len(),
            bracket_scan(line@, bound as int) == bracket_scan(line@, b as int),
        decreases b,
    {
        match rfind_char_str(line, ']', b) {
            None => {
                return None;
            },
            Some(close) => {
                proof {
                    lemma_rfind_char_bounds(line@, ']', b as int, close as int);
                }
                match rfind_char_str(line, '[', close) {
                    None => {
                        return None;
                    },
                    Some(open) => {
                        proof {
                            lemma_rfind_char_bounds(line@, '[', close as int, open as int);
                        }
                        let piece = line.substring_char(open + 1, close);
                        let t = trim_str(piece);
                        match parse_u32_digits(t) {
                            Some(v) => {
                                return Some(v);
                            },
                            None => {
                                b = close;
                            },
                        }
                    },
                }
            },
        }
    }
}

/// Reads the resolved screen-capture device index out of a device-list
/// probe's standard output.
pub fn parse_avfoundation_screen_index(stdout: &str) -> (r: Option<u32>)
    ensures
        r == screen_index_spec(stdout@),
{
    let ls = split_lines(stdout);
    let mut i: usize = 0;
    let n = ls.len();
    proof {
        assert(views_of(ls@).subrange(0, n as int) =~= views_of(ls@));
    }
    while i < n
        invariant
            n == ls@.len(),
            i <= n,
            views_of(ls@) == lines_of(stdout@),
            screen_index_spec(stdout@) == screen_index_of_lines(
                views_of(ls@).subrange(i as int, n as int),
            ),
        decreases n - i,
    {
        let line: &String = &ls[i];
        proof {
            let rest = views_of(ls@).subrange(i as int, n as int);
            assert(rest[0] == ls@[i as int]@);
            assert(rest.drop_first() =~= views_of(ls@).subrange(i + 1 as int, n as int));
        }
        match find_str(line.as_str(), "Capture screen") {
            Some(p) => {
                proof {
                    lemma_find_from_is_match(line@, "Capture screen"@, 0, p as int);
                }
                match bracket_scan_exec(line.as_str(), p) {
                    Some(v) => {
                        return Some(v);
                    },
                    None => {},
                }
            },
            None => {},
        }
        i += 1;
    }
    proof {
        assert(views_of(ls@).subrange(n as int, n as int) =~= Seq::<Seq<char>>::empty());
    }
    None
}

pub open spec fn skip_space_chars(s: Seq<char>, i: int) -> int
    decreases s.len() - i,
{
    if 0 <= i < s.len() && s[i] == ' ' {
        skip_space_chars(s, i + 1)
    } else {
        i
    }
}

pub open spec fn skip_digit_chars(s: Seq<char>, i: int) -> int
    decreases s.len() - i,
{
    if 0 <= i < s.len() && is_digit_char(s[i]) {
        skip_digit_chars(s, i + 1)
    } else {
        i
    }
}

/// The rewritten recording command: after the first `-i `, past spaces
/// and an optional opening quote, a non-empty digit run immediately
/// followed by `:0` is replaced by the decimal form of `index`; any
/// other shape leaves the command untouched.
pub open spec fn rewrite_device_index(cmd: Seq<char>, index: u32) -> Seq<char> {
    match find_first(cmd, "-i "@) {
        None => cmd,
        Some(p) => {
            let i0 = skip_space_chars(cmd, p + 3);
            let i1 = if i0 < cmd.len() && (cmd[i0] == '"' || cmd[i0] == '\'') {
                i0 + 1
            } else {
                i0
            };
            let i2 = skip_digit_chars(cmd, i1);
            if i2 > i1 && i2 + 1 < cmd.len() && cmd[i2] == ':' && cmd[i2 + 1] == '0' {
                cmd.subrange(0, i1) + dec_digits(index as int) + cmd.subrange(
                    i2,
                    cmd.len() as int,
                )
            } else {
                cmd
            }
        },
    }
}

/// Replaces the device number in a recording command's `-i "X:0"`
/// selector by `index`; only the digits before the literal `:0` change.
pub fn replace_avfoundation_device_index(cmd: &str, index: u32) -> (r: String)
    ensures
        r@ == rewrite_device_index(cmd@, index),
{
    let n = cmd.unicode_len();
    match find_str(cmd, "-i ") {
        None => cmd.to_owned(),
        Some(p) => {
            proof {
                lemma_find_from_is_match(cmd@, "-i "@, 0, p as int);
                reveal_strlit("-i ");
            }
            let mut i0: usize = p + 3;
            while i0 < n && cmd.get_char(i0) == ' '
                invariant
                    n == cmd@.len(),
                    p + 3 <= i0 <= n,
                    skip_space_chars(cmd@, p + 3 as int) == skip_space_chars(cmd@, i0 as int),
                decreases n - i0,
            {
                i0 += 1;
            }
            assert(skip_space_chars(cmd@, p + 3 as int) == i0 as int);
            let i1: usize = if i0 < n {
                let c = cmd.get_char(i0);
                if c == '"' || c == '\'' {
                    i0 + 1
                } else {
                    i0
                }
            } else {
                i0
            };
            let mut i2: usize = i1;
            while i2 < n && is_digit(cmd.get_char(i2))
                invariant
                    n == cmd@.len(),
                    i1 <= i2 <= n,
                    skip_digit_chars(cmd@, i1 as int) == skip_digit_chars(cmd@, i2 as int),
                decreases n - i2,
            {
                i2 += 1;
            }
            assert(skip_digit_chars(cmd@, i1 as int) == i2 as int);
            if i2 > i1 && i2 < n && n - i2 > 1 && cmd.get_char(i2) == ':' && cmd.get_char(i2 + 1)
                == '0' {
                let mut out = cmd.substring_char(0, i1).to_owned();
                out.append(u32_to_dec(index).as_str());
                out.append(cmd.substring_char(i2, n));
                out
            } else {
                cmd.to_owned()
            }
        },
    }
}

/// The tail of a probe-led plan, ready for execution: the probe itself is
/// dropped, and the recording action's device selector is rewritten when
/// the probe's output names a screen-capture index.
pub fn rewrite_plan_after_probe(plan: &Vec<TaskCommand>, probe_stdout: &str) -> (rest: Vec<
    TaskCommand,
>)
    requires
        plan@.len() >= 2,
    ensures
        rest@.len() == plan@.len() - 1,
        forall|j: int| 1 <= j < rest@.len() ==> rest@[j] == plan@[j + 1],
        rest@[0].description == plan@[1].description,
        match screen_index_spec(probe_stdout@) {
            Some(idx) => rest@[0].command@ == rewrite_device_index(plan@[1].command@, idx),
            None => rest@[0].command == plan@[1].command,
        },
{
    let mut rest: Vec<TaskCommand> = Vec::new();
    let first_cmd: String = match parse_avfoundation_screen_index(probe_stdout) {
        Some(idx) => replace_avfoundation_device_index(plan[1].command.as_str(), idx),
        None => plan[1].command.clone(),
    };
    rest.push(TaskCommand { command: first_cmd, description: plan[1].description.clone() });
    let mut j: usize = 2;
    let n = plan.len();
    while j < n
        invariant
            2 <= j <= n,
            n == plan@.len(),
            rest@.len() == j - 1,
            forall|k: int| 1 <= k < rest@.len() ==> rest@[k] == plan@[k + 1],
            rest@[0].description == plan@[1].description,
            match screen_index_spec(probe_stdout@) {
                Some(idx) => rest@[0].command@ == rewrite_device_index(plan@[1].command@, idx),
                None => rest@[0].command == plan@[1].command,
            },
        decreases n - j,
    {
        rest.push(plan[j].clone());
        j += 1;
    }
    rest
}

} // verus!
