//! Extraction of media paths from execution output.
//!
//! Every result's stdout, stderr and command text is split on
//! whitespace; a token counts as a path when, after taking off a single
//! leading and trailing quote character, it starts with `/` or `./` and
//! its lowercase form ends with a recognized extension.  Each category's
//! list comes out lexicographically sorted and without duplicates, with
//! the original casing kept.

use vstd::prelude::*;
use crate::model::CommandResult;
use crate::text::ends_with_seq;
use crate::text::ends_with_str;
use crate::text::lower_of;
use crate::text::lowercase;
use crate::text::starts_with_seq;
use crate::text::starts_with_str;
use crate::text::split_ws;
use crate::text::views_of;
use crate::text::ws_tokens;

verus! {

/// Lexicographic order on character sequences, by code point; the order
/// `String`'s byte-wise comparison realizes on UTF-8 text.
pub open spec fn lex_lt(a: Seq<char>, b: Seq<char>) -> bool
    decreases a.len(),
{
    if b.len() == 0 {
        false
    } else if a.len() == 0 {
        true
    } else if (a[0] as int) < (b[0] as int) {
        true
    } else if a[0] == b[0] {
        lex_lt(a.drop_first(), b.drop_first())
    } else {
        false
    }
}

pub proof fn lemma_lex_trichotomy(a: Seq<char>, b: Seq<char>)
    ensures
        lex_lt(a, b) || lex_lt(b, a) || a == b,
    decreases a.len(),
{
    if b.len() == 0 || a.len() == 0 {
        if a.len() == 0 && b.len() == 0 {
            assert(a =~= b);
        }
    } else if a[0] == b[0] {
        lemma_lex_trichotomy(a.drop_first(), b.drop_first());
        if a.drop_first() == b.drop_first() {
            assert(a.drop_first().len() == b.drop_first().len());
            assert(a.len() == b.len());
            assert forall|i: int| 0 <= i < a.len() implies a[i] == b[i] by {
                if i > 0 {
                    assert(a.drop_first()[i - 1] == b.drop_first()[i - 1]);
                    assert(a.drop_first()[i - 1] == a[i]);
                    assert(b.drop_first()[i - 1] == b[i]);
                }
            }
            assert(a =~= b);
        }
    } else {
        if (a[0] as int) < (b[0] as int) {
            assert(lex_lt(a, b));
        } else if (b[0] as int) < (a[0] as int) {
            assert(lex_lt(b, a));
        } else {
            assert((a[0] as int) == (b[0] as int));
            assert(a[0] == b[0]);
        }
    }
}

pub proof fn lemma_lex_irrefl(a: Seq<char>)
    ensures
        !lex_lt(a, a),
    decreases a.len(),
{
    if a.len() > 0 {
        lemma_lex_irrefl(a.drop_first());
    }
}

pub proof fn lemma_lex_trans(a: Seq<char>, b: Seq<char>, c: Seq<char>)
    requires
        lex_lt(a, b),
        lex_lt(b, c),
    ensures
        lex_lt(a, c),
    decreases a.len(),
{
    if b.len() == 0 || c.len() == 0 {
    } else if a.len() == 0 {
    } else {
        if a[0] == b[0] && b[0] == c[0] {
            lemma_lex_trans(a.drop_first(), b.drop_first(), c.drop_first());
        }
    }
}

/// Compares two texts in the lexicographic order `lex_lt`.
pub fn str_lt(a: &str, b: &str) -> (r: bool)
    ensures
        r == lex_lt(a@, b@),
{
    let a_len = a.unicode_len();
    let b_len = b.unicode_len();
    let mut i: usize = 0;
    proof {
        assert(a@.subrange(0, a_len as int) =~= a@);
        assert(b@.subrange(0, b_len as int) =~= b@);
    }
    loop
        invariant
            a_len == a@.len(),
            b_len == b@.len(),
            i <= a_len,
            i <= b_len,
            lex_lt(a@, b@) == lex_lt(
                a@.subrange(i as int, a_len as int),
                b@.subrange(i as int, b_len as int),
            ),
        decreases a_len - i,
    {
        proof {
            let ra = a@.subrange(i as int, a_len as int);
            let rb = b@.subrange(i as int, b_len as int);
            if i < a_len && i < b_len {
                assert(ra[0] == a@[i as int]);
                assert(rb[0] == b@[i as int]);
                assert(ra.drop_first() =~= a@.subrange(i + 1 as int, a_len as int));
                assert(rb.drop_first() =~= b@.subrange(i + 1 as int, b_len as int));
            }
        }
        if i == b_len {
            return false;
        }
        if i == a_len {
            return true;
        }
        let ca = a.get_char(i) as u32;
        let cb = b.get_char(i) as u32;
        if ca < cb {
            return true;
        }
        if ca > cb {
            return false;
        }
        i += 1;
    }
}

pub open spec fn lex_sorted(v: Seq<Seq<char>>) -> bool {
    forall|i: int, j: int| 0 <= i < j < v.len() ==> lex_lt(v[i], v[j])
}

/// The first position whose text is not lexicographically below `p`.
fn lower_bound(out: &Vec<String>, p: &String) -> (j: usize)
    ensures
        j <= out@.len(),
        forall|k: int| 0 <= k < j ==> lex_lt(views_of(out@)[k], p@),
        j < out@.len() ==> !lex_lt(views_of(out@)[j as int], p@),
{
    let n = out.len();
    let mut j: usize = 0;
    while j < n
        invariant
            n == out@.len(),
            j <= n,
            forall|k: int| 0 <= k < j ==> lex_lt(views_of(out@)[k], p@),
        decreases n - j,
    {
        proof {
            assert(views_of(out@)[j as int] == out@[j as int]@);
        }
        if !str_lt(out[j].as_str(), p.as_str()) {
            return j;
        }
        j += 1;
    }
    j
}

/// Inserts `p` into a strictly sorted vector, keeping it strictly
/// sorted; a text already present is not added again.
fn insert_sorted_unique(out: &mut Vec<String>, p: String)
    requires
        lex_sorted(views_of(old(out)@)),
    ensures
        lex_sorted(views_of(final(out)@)),
        forall|x: Seq<char>|
            views_of(final(out)@).contains(x) <==> views_of(old(out)@).contains(x) || x == p@,
{
    let n = out.len();
    let j = lower_bound(out, &p);
    let ghost v1 = views_of(out@);
    if j < n && String::eq(&out[j], &p) {
        proof {
            assert(v1[j as int] == out@[j as int]@);
            assert forall|x: Seq<char>| v1.contains(x) || x == p@ implies v1.contains(x) by {
                if x == p@ {
                    assert(v1[j as int] == x);
                }
            }
        }
        return ;
    }
    proof {
        if j < n {
            assert(v1[j as int] == out@[j as int]@);
            lemma_lex_trichotomy(p@, v1[j as int]);
            assert(lex_lt(p@, v1[j as int]));
        }
    }
    out.insert(j, p);
    proof {
        let v2 = views_of(out@);
        old(out)@.insert_ensures(j as int, out@[j as int]);
        assert(out@ == old(out)@.insert(j as int, out@[j as int]));
        assert forall|k: int| 0 <= k < v2.len() implies v2[k] == (if k < j {
            v1[k]
        } else if k == j {
            p@
        } else {
            v1[k - 1]
        }) by {
            assert(v2[k] == out@[k]@);
            if k < j {
                assert(out@[k] == old(out)@[k]);
            } else if k > j {
                assert(out@[k] == old(out)@[k - 1]);
            }
        }
        assert forall|i1: int, j1: int| 0 <= i1 < j1 < v2.len() implies lex_lt(
            v2[i1],
            v2[j1],
        ) by {
            if j1 == j {
                assert(lex_lt(v1[i1], p@));
            } else if i1 == j {
                assert(j < v1.len());
                if j1 - 1 > j {
                    lemma_lex_trans(p@, v1[j as int], v1[j1 - 1]);
                }
            }
        }
        assert forall|x: Seq<char>| v2.contains(x) implies (v1.contains(x) || x == p@) by {
            let k = choose|k: int| 0 <= k < v2.len() && v2[k] == x;
            if k < j {
                assert(v1[k] == x);
            } else if k > j {
                assert(v1[k - 1] == x);
            }
        }
        assert forall|x: Seq<char>| v1.contains(x) || x == p@ implies v2.contains(x) by {
            if x == p@ {
                assert(v2[j as int] == x);
            } else {
                let k = choose|k: int| 0 <= k < v1.len() && v1[k] == x;
                if k < j {
                    assert(v2[k] == x);
                } else {
                    assert(v2[k + 1] == x);
                }
            }
        }
    }
}

/// A strictly sorted list of texts holds no text twice: sortedness and
/// the set of members pin a scan's output down completely, so scanning
/// the same results again gives the identical list.
pub proof fn lemma_lex_sorted_unique(v: Seq<Seq<char>>)
    requires
        lex_sorted(v),
    ensures
        v.no_duplicates(),
{
    assert forall|i: int, j: int| 0 <= i < v.len() && 0 <= j < v.len() && i != j implies v[i]
        != v[j] by {
        if i < j {
            lemma_lex_irrefl(v[i]);
        } else {
            lemma_lex_irrefl(v[j]);
        }
    }
}

/// A strictly sorted list is pinned down by its members alone.  With
/// the scan functions' contracts — strictly sorted output whose members
/// are exactly the paths the results mention — this makes scanning the
/// same results twice give the identical list.
pub proof fn lemma_sorted_same_members_equal(a: Seq<Seq<char>>, b: Seq<Seq<char>>)
    requires
        lex_sorted(a),
        lex_sorted(b),
        forall|x: Seq<char>| a.contains(x) <==> b.contains(x),
    ensures
        a == b,
    decreases a.len(),
{
    if a.len() == 0 {
        if b.len() > 0 {
            assert(b.contains(b[0]));
            assert(a.contains(b[0]));
        }
        assert(a =~= b);
    } else if b.len() == 0 {
        assert(a.contains(a[0]));
        assert(b.contains(a[0]));
    } else {
        assert(b.contains(a[0])) by {
            assert(a.contains(a[0]));
        }
        assert(a.contains(b[0])) by {
            assert(b.contains(b[0]));
        }
        let j = choose|j: int| 0 <= j < b.len() && b[j] == a[0];
        let i = choose|i: int| 0 <= i < a.len() && a[i] == b[0];
        if i > 0 && j > 0 {
            assert(lex_lt(a[0], a[i]));
            assert(lex_lt(b[0], b[j]));
            lemma_lex_trans(a[0], b[0], a[0]);
            lemma_lex_irrefl(a[0]);
        }
        assert(a[0] == b[0]);
        let at = a.drop_first();
        let bt = b.drop_first();
        assert forall|x: Seq<char>| at.contains(x) implies bt.contains(x) by {
            let k = choose|k: int| 0 <= k < at.len() && at[k] == x;
            assert(a[k + 1] == x);
            assert(lex_lt(a[0], x));
            assert(a.contains(x));
            let m = choose|m: int| 0 <= m < b.len() && b[m] == x;
            lemma_lex_irrefl(x);
            assert(m > 0);
            assert(bt[m - 1] == x);
        }
        assert forall|x: Seq<char>| bt.contains(x) implies at.contains(x) by {
            let k = choose|k: int| 0 <= k < bt.len() && bt[k] == x;
            assert(b[k + 1] == x);
            assert(lex_lt(b[0], x));
            assert(b.contains(x));
            let m = choose|m: int| 0 <= m < a.len() && a[m] == x;
            lemma_lex_irrefl(x);
            assert(m > 0);
            assert(at[m - 1] == x);
        }
        assert forall|i1: int, j1: int| 0 <= i1 < j1 < at.len() implies lex_lt(at[i1], at[j1]) by {
            assert(at[i1] == a[i1 + 1]);
            assert(at[j1] == a[j1 + 1]);
        }
        assert forall|i1: int, j1: int| 0 <= i1 < j1 < bt.len() implies lex_lt(bt[i1], bt[j1]) by {
            assert(bt[i1] == b[i1 + 1]);
            assert(bt[j1] == b[j1 + 1]);
        }
        lemma_sorted_same_members_equal(at, bt);
        assert(a.len() == b.len());
        assert forall|k: int| 0 <= k < a.len() implies a[k] == b[k] by {
            if k > 0 {
                assert(at[k - 1] == bt[k - 1]);
                assert(at[k - 1] == a[k]);
                assert(bt[k - 1] == b[k]);
            }
        }
        assert(a =~= b);
    }
}

pub open spec fn is_quote_char(c: char) -> bool {
    c == '"' || c == '\''
}

/// A token with a single leading and a single trailing quote character
/// taken off.
pub open spec fn strip_one_quote(tok: Seq<char>) -> Seq<char> {
    let a: int = if tok.len() > 0 && is_quote_char(tok[0]) {
        1
    } else {
        0
    };
    let b: int = if tok.len() - 1 >= a && is_quote_char(tok[tok.len() - 1]) {
        tok.len() - 1
    } else {
        tok.len() as int
    };
    tok.subrange(a, b)
}

/// Takes a single leading and trailing quote character off a token.
fn strip_one_quote_exec<'a>(tok: &'a str) -> (r: &'a str)
    ensures
        r@ == strip_one_quote(tok@),
{
    let n = tok.unicode_len();
    let a: usize = if n > 0 && {
        let c = tok.get_char(0);
        c == '"' || c == '\''
    } {
        1
    } else {
        0
    };
    let b: usize = if n >= 1 && n - 1 >= a && {
        let c = tok.get_char(n - 1);
        c == '"' || c == '\''
    } {
        n - 1
    } else {
        n
    };
    tok.substring_char(a, b)
}

pub open spec fn is_path_start(p: Seq<char>) -> bool {
    (p.len() > 0 && p[0] == '/') || starts_with_seq(p, "./"@)
}

pub open spec fn has_ext_in(l: Seq<char>, exts: Seq<Seq<char>>) -> bool {
    exists|k: int| 0 <= k < exts.len() && ends_with_seq(l, exts[k])
}

/// The token names a path artifact: stripped of one quote pair, it
/// starts like a path and its lowercase form ends with a listed
/// extension.
pub open spec fn qualifies(tok: Seq<char>, exts: Seq<Seq<char>>) -> bool {
    is_path_start(strip_one_quote(tok)) && has_ext_in(lower_of(strip_one_quote(tok)), exts)
}

/// The stripped forms of the qualifying tokens, in order.
pub open spec fn select_paths(toks: Seq<Seq<char>>, exts: Seq<Seq<char>>) -> Seq<Seq<char>>
    decreases toks.len(),
{
    if toks.len() == 0 {
        Seq::empty()
    } else {
        let rest = select_paths(toks.drop_first(), exts);
        if qualifies(toks[0], exts) {
            seq![strip_one_quote(toks[0])] + rest
        } else {
            rest
        }
    }
}

/// The artifact paths one text yields, token by token.
pub open spec fn paths_in_text(text: Seq<char>, exts: Seq<Seq<char>>) -> Seq<Seq<char>> {
    select_paths(ws_tokens(text), exts)
}

pub open spec fn ext_views(exts: Seq<&str>) -> Seq<Seq<char>> {
    exts.map_values(|e: &str| e@)
}

fn token_qualifies(tok: &str, exts: &[&str]) -> (r: bool)
    ensures
        r == qualifies(tok@, ext_views(exts@)),
{
    let p = strip_one_quote_exec(tok);
    let p_len = p.unicode_len();
    let starts = (p_len > 0 && p.get_char(0) == '/') || starts_with_str(p, "./");
    if !starts {
        return false;
    }
    let low = lowercase(p);
    let m = exts.len();
    let mut k: usize = 0;
    while k < m
        invariant
            m == exts@.len(),
            low@ == lower_of(p@),
            p@ == strip_one_quote(tok@),
            forall|k0: int| 0 <= k0 < k ==> !ends_with_seq(low@, ext_views(exts@)[k0]),
            is_path_start(p@),
        decreases m - k,
    {
        if ends_with_str(low.as_str(), exts[k]) {
            proof {
                assert(ext_views(exts@)[k as int] == exts@[k as int]@);
            }
            return true;
        }
        proof {
            assert(ext_views(exts@)[k as int] == exts@[k as int]@);
        }
        k += 1;
    }
    false
}

/// Appends the artifact paths of one text, in token order.
fn append_paths(out: &mut Vec<String>, text: &str, exts: &[&str])
    ensures
        views_of(final(out)@) == views_of(old(out)@) + paths_in_text(text@, ext_views(exts@)),
{
    let toks = split_ws(text);
    let n = toks.len();
    let mut i: usize = 0;
    proof {
        assert(views_of(toks@).subrange(0, n as int) =~= views_of(toks@));
        assert(views_of(out@) + select_paths(Seq::<Seq<char>>::empty(), ext_views(exts@))
            =~= views_of(out@));
    }
    while i < n
        invariant
            n == toks@.len(),
            i <= n,
            views_of(toks@) == ws_tokens(text@),
            views_of(out@) + select_paths(
                views_of(toks@).subrange(i as int, n as int),
                ext_views(exts@),
            ) == views_of(old(out)@) + paths_in_text(text@, ext_views(exts@)),
        decreases n - i,
    {
        proof {
            let rest = views_of(toks@).subrange(i as int, n as int);
            assert(rest[0] == toks@[i as int]@);
            assert(rest.drop_first() =~= views_of(toks@).subrange(i + 1 as int, n as int));
        }
        if token_qualifies(toks[i].as_str(), exts) {
            let p = strip_one_quote_exec(toks[i].as_str()).to_owned();
            let ghost prev = out@;
            out.push(p);
            proof {
                let rest_next = select_paths(
                    views_of(toks@).subrange(i + 1 as int, n as int),
                    ext_views(exts@),
                );
                assert(views_of(out@) =~= views_of(prev) + seq![out@.last()@]);
                assert(views_of(out@) + rest_next =~= views_of(prev) + (seq![out@.last()@]
                    + rest_next));
            }
        }
        i += 1;
    }
    proof {
        assert(views_of(toks@).subrange(n as int, n as int) =~= Seq::<Seq<char>>::empty());
        assert(views_of(out@) + select_paths(Seq::<Seq<char>>::empty(), ext_views(exts@))
            =~= views_of(out@));
    }
}

/// The artifact paths of every result, in reading order: stdout, then
/// stderr, then the command text, result by result.
pub open spec fn all_paths(results: Seq<CommandResult>, exts: Seq<Seq<char>>) -> Seq<Seq<char>>
    decreases results.len(),
{
    if results.len() == 0 {
        Seq::empty()
    } else {
        paths_in_text(results[0].stdout@, exts) + paths_in_text(results[0].stderr@, exts)
            + paths_in_text(results[0].command@, exts) + all_paths(results.drop_first(), exts)
    }
}

fn collect_paths(results: &Vec<CommandResult>, exts: &[&str]) -> (r: Vec<String>)
    ensures
        views_of(r@) == all_paths(results@, ext_views(exts@)),
{
    let mut out: Vec<String> = Vec::new();
    let n = results.len();
    let mut i: usize = 0;
    proof {
        assert(results@.subrange(0, n as int) =~= results@);
        assert(views_of(out@) + all_paths(results@, ext_views(exts@)) =~= all_paths(
            results@,
            ext_views(exts@),
        ));
    }
    while i < n
        invariant
            n == results@.len(),
            i <= n,
            views_of(out@) + all_paths(results@.subrange(i as int, n as int), ext_views(exts@))
                == all_paths(results@, ext_views(exts@)),
        decreases n - i,
    {
        proof {
            let rest = results@.subrange(i as int, n as int);
            assert(rest[0] == results@[i as int]);
            assert(rest.drop_first() =~= results@.subrange(i + 1 as int, n as int));
        }
        let ghost vb = views_of(out@);
        append_paths(&mut out, results[i].stdout.as_str(), exts);
        append_paths(&mut out, results[i].stderr.as_str(), exts);
        append_paths(&mut out, results[i].command.as_str(), exts);
        proof {
            let e = ext_views(exts@);
            let rest = results@.subrange(i as int, n as int);
            let tail = all_paths(results@.subrange(i + 1 as int, n as int), e);
            assert(views_of(out@) + tail =~= vb + all_paths(rest, e));
        }
        i += 1;
    }
    proof {
        assert(views_of(out@) + all_paths(
            results@.subrange(n as int, n as int),
            ext_views(exts@),
        ) =~= views_of(out@));
    }
    out
}

/// Sorts the texts lexicographically and drops duplicates.
fn sort_dedup(v: &Vec<String>) -> (r: Vec<String>)
    ensures
        lex_sorted(views_of(r@)),
        forall|x: Seq<char>| views_of(r@).contains(x) <==> views_of(v@).contains(x),
{
    let mut out: Vec<String> = Vec::new();
    let n = v.len();
    let mut i: usize = 0;
    while i < n
        invariant
            n == v@.len(),
            i <= n,
            lex_sorted(views_of(out@)),
            forall|x: Seq<char>|
                views_of(out@).contains(x) <==> views_of(v@).subrange(0, i as int).contains(x),
        decreases n - i,
    {
        let ghost before = views_of(out@);
        insert_sorted_unique(&mut out, v[i].clone());
        proof {
            let pre = views_of(v@).subrange(0, i as int);
            let pre2 = views_of(v@).subrange(0, i + 1 as int);
            assert(views_of(v@)[i as int] == v@[i as int]@);
            assert(pre2 =~= pre.push(v@[i as int]@));
            assert forall|x: Seq<char>| pre2.contains(x) implies (pre.contains(x) || x
                == v@[i as int]@) by {
                let k = choose|k: int| 0 <= k < pre2.len() && pre2[k] == x;
                if k < i {
                    assert(pre[k] == x);
                }
            }
            assert forall|x: Seq<char>| pre.contains(x) || x == v@[i as int]@ implies pre2.contains(
                x,
            ) by {
                if x == v@[i as int]@ {
                    assert(pre2[i as int] == x);
                } else {
                    let k = choose|k: int| 0 <= k < pre.len() && pre[k] == x;
                    assert(pre2[k] == x);
                }
            }
        }
        i += 1;
    }
    proof {
        assert(views_of(v@).subrange(0, n as int) =~= views_of(v@));
    }
    out
}

/// The recognized image extensions.
pub open spec fn image_exts() -> Seq<Seq<char>> {
    seq![".png"@, ".jpg"@, ".jpeg"@, ".gif"@, ".bmp"@, ".webp"@]
}

/// The recognized video extensions.
pub open spec fn video_exts() -> Seq<Seq<char>> {
    seq![".mp4"@, ".webm"@, ".mov"@, ".mkv"@, ".avi"@]
}

fn image_ext_list() -> (r: [&'static str; 6])
    ensures
        ext_views(r@) == image_exts(),
{
    let r = [".png", ".jpg", ".jpeg", ".gif", ".bmp", ".webp"];
    proof {
        assert(ext_views(r@) =~= image_exts());
    }
    r
}

fn video_ext_list() -> (r: [&'static str; 5])
    ensures
        ext_views(r@) == video_exts(),
{
    let r = [".mp4", ".webm", ".mov", ".mkv", ".avi"];
    proof {
        assert(ext_views(r@) =~= video_exts());
    }
    r
}

/// The image paths one text names, in token order.
pub fn find_image_paths(text: &str) -> (r: Vec<String>)
    ensures
        views_of(r@) == paths_in_text(text@, image_exts()),
{
    let exts = image_ext_list();
    let mut out: Vec<String> = Vec::new();
    append_paths(&mut out, text, exts.as_slice());
    proof {
        assert(views_of(out@) =~= paths_in_text(text@, image_exts()));
    }
    out
}

/// The video paths one text names, in token order.
pub fn find_video_paths(text: &str) -> (r: Vec<String>)
    ensures
        views_of(r@) == paths_in_text(text@, video_exts()),
{
    let exts = video_ext_list();
    let mut out: Vec<String> = Vec::new();
    append_paths(&mut out, text, exts.as_slice());
    proof {
        assert(views_of(out@) =~= paths_in_text(text@, video_exts()));
    }
    out
}

/// Every image path the results mention, sorted and deduplicated; the
/// sorted order and the set of paths pin the output down completely.
pub fn find_images_in_results(results: &Vec<CommandResult>) -> (r: Vec<String>)
    ensures
        lex_sorted(views_of(r@)),
        forall|x: Seq<char>|
            views_of(r@).contains(x) <==> all_paths(results@, image_exts()).contains(x),
{
    let exts = image_ext_list();
    let collected = collect_paths(results, exts.as_slice());
    sort_dedup(&collected)
}

/// Every video path the results mention, sorted and deduplicated.
pub fn find_videos_in_results(results: &Vec<CommandResult>) -> (r: Vec<String>)
    ensures
        lex_sorted(views_of(r@)),
        forall|x: Seq<char>|
            views_of(r@).contains(x) <==> all_paths(results@, video_exts()).contains(x),
{
    let exts = video_ext_list();
    let collected = collect_paths(results, exts.as_slice());
    sort_dedup(&collected)
}

} // verus!
