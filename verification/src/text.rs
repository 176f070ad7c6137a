//! Character-level text utilities: whitespace, substring search, trimming.
//!
//! All executable string handling in this crate goes through these
//! functions, whose contracts are stated over the `Seq<char>` views of
//! `&str` and `String`.

use vstd::prelude::*;

verus! {

/// The Unicode `White_Space` code points, the set `char::is_whitespace`
/// is documented to accept.
pub open spec fn is_space_char(c: char) -> bool {
    (c as u32) == 0x20 || (0x9 <= (c as u32) && (c as u32) <= 0xd) || (c as u32) == 0x85
        || (c as u32) == 0xa0 || (c as u32) == 0x1680
        || (0x2000 <= (c as u32) && (c as u32) <= 0x200a)
        || (c as u32) == 0x2028 || (c as u32) == 0x2029 || (c as u32) == 0x202f
        || (c as u32) == 0x205f || (c as u32) == 0x3000
}

pub fn is_space(c: char) -> (r: bool)
    ensures
        r == is_space_char(c),
{
    let u = c as u32;
    u == 0x20 || (0x9 <= u && u <= 0xd) || u == 0x85 || u == 0xa0 || u == 0x1680
        || (0x2000 <= u && u <= 0x200a) || u == 0x2028 || u == 0x2029 || u == 0x202f
        || u == 0x205f || u == 0x3000
}

/// The needle `n` occurs in `h` at position `i`.
pub open spec fn matches_at(h: Seq<char>, n: Seq<char>, i: int) -> bool {
    0 <= i && i + n.len() <= h.len() && h.subrange(i, i + n.len() as int) == n
}

pub open spec fn contains_seq(h: Seq<char>, n: Seq<char>) -> bool {
    exists|i: int| matches_at(h, n, i)
}

pub open spec fn starts_with_seq(h: Seq<char>, n: Seq<char>) -> bool {
    n.len() <= h.len() && h.subrange(0, n.len() as int) == n
}

pub open spec fn ends_with_seq(h: Seq<char>, n: Seq<char>) -> bool {
    n.len() <= h.len() && h.subrange(h.len() - n.len(), h.len() as int) == n
}

/// Position of the first occurrence of `n` in `h` at or after `i`.
pub open spec fn find_from(h: Seq<char>, n: Seq<char>, i: int) -> Option<int>
    decreases h.len() - i,
{
    if i < 0 || i + n.len() > h.len() {
        None
    } else if h.subrange(i, i + n.len() as int) == n {
        Some(i)
    } else if n.len() == 0 {
        None
    } else {
        find_from(h, n, i + 1)
    }
}

/// Position of the first occurrence of `n` in `h`, if any.
pub open spec fn find_first(h: Seq<char>, n: Seq<char>) -> Option<int> {
    find_from(h, n, 0)
}

pub proof fn lemma_find_from_is_match(h: Seq<char>, n: Seq<char>, i: int, j: int)
    requires
        find_from(h, n, i) == Some(j),
    ensures
        i <= j,
        matches_at(h, n, j),
        forall|k: int| i <= k < j ==> !matches_at(h, n, k),
    decreases h.len() - i,
{
    if i < 0 || i + n.len() > h.len() {
    } else if h.subrange(i, i + n.len() as int) == n {
    } else if n.len() == 0 {
        assert(h.subrange(i, i + n.len() as int) =~= n);
    } else {
        lemma_find_from_is_match(h, n, i + 1, j);
    }
}

pub proof fn lemma_find_from_none(h: Seq<char>, n: Seq<char>, i: int)
    requires
        find_from(h, n, i) is None,
        i >= 0,
    ensures
        forall|k: int| i <= k ==> !matches_at(h, n, k),
    decreases h.len() - i,
{
    if i + n.len() > h.len() {
        assert forall|k: int| i <= k implies !matches_at(h, n, k) by {
            assert(k + n.len() > h.len());
        }
    } else if h.subrange(i, i + n.len() as int) == n {
    } else if n.len() == 0 {
        assert(h.subrange(i, i + n.len() as int) =~= n);
    } else {
        lemma_find_from_none(h, n, i + 1);
    }
}

/// `contains_seq` holds exactly when a first occurrence exists.
pub proof fn lemma_contains_iff_find(h: Seq<char>, n: Seq<char>)
    ensures
        contains_seq(h, n) <==> find_first(h, n) is Some,
{
    match find_first(h, n) {
        Some(j) => {
            lemma_find_from_is_match(h, n, 0, j);
        },
        None => {
            lemma_find_from_none(h, n, 0);
            assert forall|i: int| !matches_at(h, n, i) by {
                if i < 0 {
                } else {
                    assert(!matches_at(h, n, i));
                }
            }
        },
    }
}

/// Checks whether `n` occurs in `h` starting exactly at char position `i`.
pub fn match_at(h: &str, n: &str, i: usize) -> (r: bool)
    requires
        i <= h@.len(),
    ensures
        r == matches_at(h@, n@, i as int),
{
    let h_len = h.unicode_len();
    let n_len = n.unicode_len();
    if n_len > h_len - i {
        assert(!matches_at(h@, n@, i as int));
        return false;
    }
    let mut k: usize = 0;
    while k < n_len
        invariant
            i + n_len <= h_len,
            h_len == h@.len(),
            n_len == n@.len(),
            k <= n_len,
            forall|m: int| 0 <= m < k ==> h@[i + m] == n@[m],
        decreases n_len - k,
    {
        if h.get_char(i + k) != n.get_char(k) {
            assert(h@.subrange(i as int, i + n@.len() as int)[k as int] == h@[i + k]);
            return false;
        }
        k += 1;
    }
    assert(h@.subrange(i as int, i + n@.len() as int) =~= n@);
    true
}

/// First occurrence of `n` in `h`, as a char position.
pub fn find_str(h: &str, n: &str) -> (r: Option<usize>)
    ensures
        match r {
            Some(i) => find_first(h@, n@) == Some(i as int),
            None => find_first(h@, n@) is None,
        },
{
    let h_len = h.unicode_len();
    let mut i: usize = 0;
    loop
        invariant
            h_len == h@.len(),
            i <= h_len,
            find_first(h@, n@) == find_from(h@, n@, i as int),
        decreases h_len - i,
    {
        if match_at(h, n, i) {
            assert(find_from(h@, n@, i as int) == Some(i as int));
            return Some(i);
        }
        proof {
            if i + n@.len() <= h@.len() && n@.len() == 0 {
                assert(h@.subrange(i as int, i + n@.len() as int) =~= n@);
            }
        }
        assert(find_from(h@, n@, i as int) == find_from(h@, n@, i + 1 as int));
        if i == h_len {
            assert(find_from(h@, n@, i + 1 as int) is None);
            return None;
        }
        i += 1;
    }
}

pub fn contains_str(h: &str, n: &str) -> (r: bool)
    ensures
        r == contains_seq(h@, n@),
{
    proof {
        lemma_contains_iff_find(h@, n@);
    }
    find_str(h, n).is_some()
}

pub fn starts_with_str(h: &str, n: &str) -> (r: bool)
    ensures
        r == starts_with_seq(h@, n@),
{
    let h_len = h.unicode_len();
    let n_len = n.unicode_len();
    if n_len > h_len {
        return false;
    }
    match_at(h, n, 0)
}

pub fn ends_with_str(h: &str, n: &str) -> (r: bool)
    ensures
        r == ends_with_seq(h@, n@),
{
    let h_len = h.unicode_len();
    let n_len = n.unicode_len();
    if n_len > h_len {
        return false;
    }
    let r = match_at(h, n, h_len - n_len);
    assert(h@.len() - n@.len() == h_len - n_len);
    r
}

/// Whether two texts hold the same characters.
pub fn str_eq(a: &str, b: &str) -> (r: bool)
    ensures
        r == (a@ == b@),
{
    let a_len = a.unicode_len();
    let b_len = b.unicode_len();
    if a_len != b_len {
        return false;
    }
    let r = match_at(a, b, 0);
    proof {
        assert(a@.subrange(0, a@.len() as int) =~= a@);
    }
    r
}

/// The texts joined by `sep`: empty for none, the text itself for one.
pub open spec fn join_sep(xs: Seq<Seq<char>>, sep: Seq<char>) -> Seq<char>
    decreases xs.len(),
{
    if xs.len() == 0 {
        Seq::empty()
    } else if xs.len() == 1 {
        xs[0]
    } else {
        xs[0] + sep + join_sep(xs.drop_first(), sep)
    }
}

pub proof fn lemma_join_push(xs: Seq<Seq<char>>, x: Seq<char>, sep: Seq<char>)
    ensures
        join_sep(xs.push(x), sep) == if xs.len() == 0 {
            x
        } else {
            join_sep(xs, sep) + sep + x
        },
    decreases xs.len(),
{
    if xs.len() == 0 {
        assert(xs.push(x)[0] == x);
        assert(xs.push(x).len() == 1);
    } else if xs.len() == 1 {
        assert(xs.push(x).drop_first() =~= xs.drop_first().push(x));
        lemma_join_push(xs.drop_first(), x, sep);
        assert(xs.push(x)[0] == xs[0]);
        assert(xs.drop_first().len() == 0);
        assert(join_sep(xs.push(x), sep) == xs[0] + sep + x);
        assert(join_sep(xs, sep) == xs[0]);
    } else {
        assert(xs.push(x).drop_first() =~= xs.drop_first().push(x));
        lemma_join_push(xs.drop_first(), x, sep);
        assert(xs.push(x)[0] == xs[0]);
        assert(join_sep(xs, sep) + sep + x =~= xs[0] + sep + (join_sep(xs.drop_first(), sep) + sep
            + x));
    }
}

pub open spec fn trim_left_spec(s: Seq<char>) -> Seq<char>
    decreases s.len(),
{
    if s.len() > 0 && is_space_char(s[0]) {
        trim_left_spec(s.drop_first())
    } else {
        s
    }
}

pub open spec fn trim_right_spec(s: Seq<char>) -> Seq<char>
    decreases s.len(),
{
    if s.len() > 0 && is_space_char(s[s.len() - 1]) {
        trim_right_spec(s.drop_last())
    } else {
        s
    }
}

/// What `str::trim` leaves: the text without leading and trailing whitespace.
pub open spec fn trim_spec(s: Seq<char>) -> Seq<char> {
    trim_right_spec(trim_left_spec(s))
}

proof fn lemma_trim_left_subrange(s: Seq<char>, a: int)
    requires
        0 <= a <= s.len(),
        forall|k: int| 0 <= k < a ==> is_space_char(s[k]),
    ensures
        trim_left_spec(s) == trim_left_spec(s.subrange(a, s.len() as int)),
    decreases a,
{
    if a > 0 {
        assert(s.subrange(a - 1, s.len() as int).drop_first() =~= s.subrange(a, s.len() as int));
        assert(s.subrange(a - 1, s.len() as int)[0] == s[a - 1]);
        lemma_trim_left_subrange(s, a - 1);
    } else {
        assert(s.subrange(0, s.len() as int) =~= s);
    }
}

proof fn lemma_trim_right_subrange(s: Seq<char>, b: int)
    requires
        0 <= b <= s.len(),
        forall|k: int| b <= k < s.len() ==> is_space_char(s[k]),
    ensures
        trim_right_spec(s) == trim_right_spec(s.subrange(0, b)),
    decreases s.len() - b,
{
    if b < s.len() {
        assert(s.subrange(0, b + 1).drop_last() =~= s.subrange(0, b));
        assert(s.subrange(0, b + 1)[b] == s[b]);
        lemma_trim_right_subrange(s, b + 1);
    } else {
        assert(s.subrange(0, s.len() as int) =~= s);
    }
}

/// `str::trim`, with the result's view pinned to `trim_spec`.
pub fn trim_str<'a>(s: &'a str) -> (r: &'a str)
    ensures
        r@ == trim_spec(s@),
{
    let n = s.unicode_len();
    let mut a: usize = 0;
    while a < n && is_space(s.get_char(a))
        invariant
            n == s@.len(),
            a <= n,
            forall|k: int| 0 <= k < a ==> is_space_char(s@[k]),
        decreases n - a,
    {
        a += 1;
    }
    proof {
        lemma_trim_left_subrange(s@, a as int);
        if a < n {
            assert(s@.subrange(a as int, n as int)[0] == s@[a as int]);
        }
        assert(trim_left_spec(s@) == s@.subrange(a as int, n as int));
    }
    let mut b: usize = n;
    while b > a && is_space(s.get_char(b - 1))
        invariant
            n == s@.len(),
            a <= b <= n,
            forall|k: int| 0 <= k < a ==> is_space_char(s@[k]),
            forall|k: int| b <= k < n ==> is_space_char(s@[k]),
        decreases b,
    {
        b -= 1;
    }
    proof {
        let mid = s@.subrange(a as int, n as int);
        assert forall|k: int| (b - a) <= k < mid.len() implies is_space_char(mid[k]) by {
            assert(mid[k] == s@[a + k]);
        }
        lemma_trim_right_subrange(mid, b - a);
        assert(mid.subrange(0, b - a) =~= s@.subrange(a as int, b as int));
        if b > a {
            assert(mid.subrange(0, b - a)[b - a - 1] == s@[b - 1]);
        }
        assert(trim_right_spec(mid) == s@.subrange(a as int, b as int));
    }
    s.substring_char(a, b)
}

/// The text without leading whitespace, as `str::trim_start` leaves it.
pub fn trim_start_str<'a>(s: &'a str) -> (r: &'a str)
    ensures
        r@ == trim_left_spec(s@),
{
    let n = s.unicode_len();
    let mut a: usize = 0;
    while a < n && is_space(s.get_char(a))
        invariant
            n == s@.len(),
            a <= n,
            forall|k: int| 0 <= k < a ==> is_space_char(s@[k]),
        decreases n - a,
    {
        a += 1;
    }
    proof {
        lemma_trim_left_subrange(s@, a as int);
        if a < n {
            assert(s@.subrange(a as int, n as int)[0] == s@[a as int]);
        }
        assert(trim_left_spec(s@) == s@.subrange(a as int, n as int));
    }
    s.substring_char(a, n)
}

/// Position of the first occurrence of the character `c` at or after `i`.
pub open spec fn find_char_from(s: Seq<char>, c: char, i: int) -> Option<int>
    decreases s.len() - i,
{
    if i < 0 || i >= s.len() {
        None
    } else if s[i] == c {
        Some(i)
    } else {
        find_char_from(s, c, i + 1)
    }
}

pub open spec fn find_char(s: Seq<char>, c: char) -> Option<int> {
    find_char_from(s, c, 0)
}

/// Position of the last occurrence of the character `c` strictly before `i`.
pub open spec fn rfind_char_before(s: Seq<char>, c: char, i: int) -> Option<int>
    decreases i,
{
    if i <= 0 || i > s.len() {
        None
    } else if s[i - 1] == c {
        Some(i - 1)
    } else {
        rfind_char_before(s, c, i - 1)
    }
}

pub open spec fn rfind_char(s: Seq<char>, c: char) -> Option<int> {
    rfind_char_before(s, c, s.len() as int)
}

/// First occurrence of `c` in `s` at or after char position `from`.
pub fn find_char_str(s: &str, c: char, from: usize) -> (r: Option<usize>)
    requires
        from <= s@.len(),
    ensures
        match r {
            Some(i) => find_char_from(s@, c, from as int) == Some(i as int),
            None => find_char_from(s@, c, from as int) is None,
        },
{
    let n = s.unicode_len();
    let mut i: usize = from;
    while i < n
        invariant
            n == s@.len(),
            from <= i <= n,
            find_char_from(s@, c, from as int) == find_char_from(s@, c, i as int),
        decreases n - i,
    {
        if s.get_char(i) == c {
            return Some(i);
        }
        i += 1;
    }
    None
}

/// Last occurrence of `c` in `s` strictly before char position `before`.
pub fn rfind_char_str(s: &str, c: char, before: usize) -> (r: Option<usize>)
    requires
        before <= s@.len(),
    ensures
        match r {
            Some(i) => rfind_char_before(s@, c, before as int) == Some(i as int),
            None => rfind_char_before(s@, c, before as int) is None,
        },
{
    let mut i: usize = before;
    while i > 0
        invariant
            before <= s@.len(),
            i <= before,
            rfind_char_before(s@, c, before as int) == rfind_char_before(s@, c, i as int),
        decreases i,
    {
        if s.get_char(i - 1) == c {
            return Some(i - 1);
        }
        i -= 1;
    }
    None
}

pub proof fn lemma_rfind_char_bounds(s: Seq<char>, c: char, i: int, j: int)
    requires
        rfind_char_before(s, c, i) == Some(j),
    ensures
        0 <= j < i,
        j < s.len(),
        s[j] == c,
    decreases i,
{
    if i <= 0 || i > s.len() {
    } else if s[i - 1] == c {
    } else {
        lemma_rfind_char_bounds(s, c, i - 1, j);
    }
}

pub proof fn lemma_find_char_bounds(s: Seq<char>, c: char, i: int, j: int)
    requires
        find_char_from(s, c, i) == Some(j),
    ensures
        i <= j < s.len(),
        s[j] == c,
    decreases s.len() - i,
{
    if i < 0 || i >= s.len() {
    } else if s[i] == c {
    } else {
        lemma_find_char_bounds(s, c, i + 1, j);
    }
}

pub open spec fn is_digit_char(c: char) -> bool {
    0x30 <= (c as u32) && (c as u32) <= 0x39
}

pub open spec fn seq_all_digits(s: Seq<char>) -> bool {
    forall|i: int| 0 <= i < s.len() ==> is_digit_char(s[i])
}

pub open spec fn digit_val(c: char) -> int {
    (c as u32) - 0x30
}

/// The number a sequence of decimal digits denotes.
pub open spec fn dec_value(s: Seq<char>) -> int
    decreases s.len(),
{
    if s.len() == 0 {
        0
    } else {
        dec_value(s.drop_last()) * 10 + digit_val(s.last())
    }
}

pub proof fn lemma_dec_value_prefix(s: Seq<char>, i: int)
    requires
        seq_all_digits(s),
        0 <= i <= s.len(),
    ensures
        0 <= dec_value(s.subrange(0, i)) <= dec_value(s),
    decreases s.len() - i,
{
    if i == s.len() {
        assert(s.subrange(0, i) =~= s);
        lemma_dec_value_nonneg(s);
    } else {
        lemma_dec_value_prefix(s, i + 1);
        let a = s.subrange(0, i);
        let b = s.subrange(0, i + 1);
        assert(b.drop_last() =~= a);
        assert(b.last() == s[i]);
        lemma_dec_value_nonneg(a);
    }
}

pub proof fn lemma_dec_value_nonneg(s: Seq<char>)
    requires
        seq_all_digits(s),
    ensures
        dec_value(s) >= 0,
    decreases s.len(),
{
    if s.len() > 0 {
        assert(seq_all_digits(s.drop_last()));
        lemma_dec_value_nonneg(s.drop_last());
    }
}

pub fn is_digit(c: char) -> (r: bool)
    ensures
        r == is_digit_char(c),
{
    let u = c as u32;
    0x30 <= u && u <= 0x39
}

/// Parses an unsigned decimal number, as `str::parse::<u32>` accepts a
/// string of plain digits: `Some` exactly when the text is non-empty,
/// all digits, and the value fits.
pub fn parse_u32_digits(s: &str) -> (r: Option<u32>)
    ensures
        match r {
            Some(v) => s@.len() > 0 && seq_all_digits(s@) && dec_value(s@) == v as int,
            None => !(s@.len() > 0 && seq_all_digits(s@) && dec_value(s@) <= u32::MAX as int),
        },
{
    let n = s.unicode_len();
    if n == 0 {
        return None;
    }
    let mut acc: u32 = 0;
    let mut i: usize = 0;
    while i < n
        invariant
            n == s@.len(),
            i <= n,
            seq_all_digits(s@.subrange(0, i as int)),
            acc as int == dec_value(s@.subrange(0, i as int)),
        decreases n - i,
    {
        let c = s.get_char(i);
        if !is_digit(c) {
            assert(!is_digit_char(s@[i as int]));
            return None;
        }
        let d = (c as u32) - 0x30;
        proof {
            assert(s@.subrange(0, i + 1 as int).drop_last() =~= s@.subrange(0, i as int));
            assert(s@.subrange(0, i + 1 as int).last() == s@[i as int]);
        }
        if acc > (u32::MAX - d) / 10 {
            proof {
                let b = s@.subrange(0, i + 1 as int);
                assert(dec_value(b) == acc * 10 + d);
                assert(dec_value(b) > u32::MAX as int);
                if s@.len() > 0 && seq_all_digits(s@) && dec_value(s@) <= u32::MAX as int {
                    lemma_dec_value_prefix(s@, i + 1);
                    assert(dec_value(b) <= dec_value(s@));
                }
            }
            return None;
        }
        acc = acc * 10 + d;
        i += 1;
    }
    proof {
        assert(s@.subrange(0, n as int) =~= s@);
    }
    Some(acc)
}

/// A line as `str::lines` hands it out: the terminating `"\r\n"` or
/// `"\n"` is taken off, a carriage return alone is kept.
pub open spec fn strip_cr(l: Seq<char>) -> Seq<char> {
    if l.len() > 0 && l[l.len() - 1] == '\r' {
        l.drop_last()
    } else {
        l
    }
}

/// The lines of `s` after the already-read prefix, with `cur` the part of
/// the current line read so far.
pub open spec fn lines_acc(s: Seq<char>, cur: Seq<char>) -> Seq<Seq<char>>
    decreases s.len(),
{
    if s.len() == 0 {
        if cur.len() == 0 {
            Seq::empty()
        } else {
            seq![cur]
        }
    } else if s[0] == '\n' {
        seq![strip_cr(cur)] + lines_acc(s.drop_first(), Seq::empty())
    } else {
        lines_acc(s.drop_first(), cur.push(s[0]))
    }
}

/// The lines of `s`, exactly as `str::lines` yields them.
pub open spec fn lines_of(s: Seq<char>) -> Seq<Seq<char>> {
    lines_acc(s, Seq::empty())
}

pub open spec fn views_of(v: Seq<String>) -> Seq<Seq<char>> {
    v.map_values(|l: String| l@)
}

/// Splits `s` into its lines, as `str::lines` does.
pub fn split_lines(s: &str) -> (r: Vec<String>)
    ensures
        views_of(r@) == lines_of(s@),
{
    let n = s.unicode_len();
    let mut out: Vec<String> = Vec::new();
    let mut cur: String = String::new();
    let mut i: usize = 0;
    proof {
        assert(s@.subrange(0, n as int) =~= s@);
        assert(views_of(out@) =~= Seq::<Seq<char>>::empty());
        assert(views_of(out@) + lines_acc(s@, cur@) =~= lines_acc(s@, cur@));
    }
    while i < n
        invariant
            n == s@.len(),
            i <= n,
            lines_of(s@) == views_of(out@) + lines_acc(s@.subrange(i as int, n as int), cur@),
        decreases n - i,
    {
        let c = s.get_char(i);
        proof {
            let rest = s@.subrange(i as int, n as int);
            assert(rest[0] == s@[i as int]);
            assert(rest.drop_first() =~= s@.subrange(i + 1 as int, n as int));
        }
        if c == '\n' {
            let cur_len = cur.as_str().unicode_len();
            let line: String = if ends_with_str(cur.as_str(), "\r") {
                proof {
                    reveal_strlit("\r");
                    assert(cur@.subrange(cur@.len() - 1, cur@.len() as int)[0] == cur@[cur@.len()
                        - 1]);
                }
                let line = cur.as_str().substring_char(0, cur_len - 1).to_owned();
                assert(line@ =~= strip_cr(cur@));
                line
            } else {
                proof {
                    reveal_strlit("\r");
                    if cur@.len() > 0 && cur@[cur@.len() - 1] == '\r' {
                        assert(cur@.subrange(cur@.len() - 1, cur@.len() as int) =~= "\r"@);
                    }
                }
                assert(cur@ == strip_cr(cur@));
                cur.as_str().to_owned()
            };
            out.push(line);
            cur = String::new();
            proof {
                let rest_next = s@.subrange(i + 1 as int, n as int);
                let tail = lines_acc(rest_next, Seq::<char>::empty());
                assert(views_of(out@) =~= views_of(out@.drop_last()) + seq![out@.last()@]);
                assert(views_of(out@) + tail =~= views_of(out@.drop_last()) + (seq![out@.last()@]
                    + tail));
            }
        } else {
            push_char(&mut cur, c);
        }
        i += 1;
    }
    proof {
        assert(s@.subrange(n as int, n as int) =~= Seq::<char>::empty());
    }
    if cur.as_str().unicode_len() > 0 {
        out.push(cur);
        proof {
            assert(views_of(out@) =~= views_of(out@.drop_last()) + seq![out@.last()@]);
        }
    }
    out
}

/// The whitespace-separated tokens of `s` after the already-read prefix,
/// with `cur` the part of the current token read so far.
pub open spec fn tokens_acc(s: Seq<char>, cur: Seq<char>) -> Seq<Seq<char>>
    decreases s.len(),
{
    if s.len() == 0 {
        if cur.len() == 0 {
            Seq::empty()
        } else {
            seq![cur]
        }
    } else if is_space_char(s[0]) {
        if cur.len() == 0 {
            tokens_acc(s.drop_first(), Seq::empty())
        } else {
            seq![cur] + tokens_acc(s.drop_first(), Seq::empty())
        }
    } else {
        tokens_acc(s.drop_first(), cur.push(s[0]))
    }
}

/// The whitespace-separated tokens of `s`, as `str::split_whitespace`
/// yields them.
pub open spec fn ws_tokens(s: Seq<char>) -> Seq<Seq<char>> {
    tokens_acc(s, Seq::empty())
}

/// Splits `s` on whitespace, as `str::split_whitespace` does.
pub fn split_ws(s: &str) -> (r: Vec<String>)
    ensures
        views_of(r@) == ws_tokens(s@),
{
    let n = s.unicode_len();
    let mut out: Vec<String> = Vec::new();
    let mut cur: String = String::new();
    let mut i: usize = 0;
    proof {
        assert(s@.subrange(0, n as int) =~= s@);
        assert(views_of(out@) =~= Seq::<Seq<char>>::empty());
        assert(views_of(out@) + tokens_acc(s@, cur@) =~= tokens_acc(s@, cur@));
    }
    while i < n
        invariant
            n == s@.len(),
            i <= n,
            ws_tokens(s@) == views_of(out@) + tokens_acc(s@.subrange(i as int, n as int), cur@),
        decreases n - i,
    {
        let c = s.get_char(i);
        proof {
            let rest = s@.subrange(i as int, n as int);
            assert(rest[0] == s@[i as int]);
            assert(rest.drop_first() =~= s@.subrange(i + 1 as int, n as int));
        }
        if is_space(c) {
            if cur.as_str().unicode_len() > 0 {
                let ghost prev_out = out@;
                let ghost prev_cur = cur@;
                out.push(cur);
                cur = String::new();
                proof {
                    let rest = s@.subrange(i as int, n as int);
                    let rest_next = s@.subrange(i + 1 as int, n as int);
                    let tail = tokens_acc(rest_next, Seq::<char>::empty());
                    assert(tokens_acc(rest, prev_cur) == seq![prev_cur] + tail);
                    assert(views_of(out@) =~= views_of(prev_out) + seq![prev_cur]);
                    assert(views_of(out@) + tail =~= views_of(prev_out) + (seq![prev_cur]
                        + tail));
                }
            } else {
                proof {
                    assert(cur@ =~= Seq::<char>::empty());
                }
            }
        } else {
            push_char(&mut cur, c);
        }
        i += 1;
    }
    proof {
        assert(s@.subrange(n as int, n as int) =~= Seq::<char>::empty());
    }
    if cur.as_str().unicode_len() > 0 {
        out.push(cur);
        proof {
            assert(views_of(out@) =~= views_of(out@.drop_last()) + seq![out@.last()@]);
        }
    }
    out
}

/// Relies on `String::push`: appends exactly the given character.
#[verifier::external_body]
pub(crate) fn push_char(s: &mut String, c: char)
    ensures
        final(s)@ == old(s)@.push(c),
{
    s.push(c);
}

pub open spec fn digit_char(d: int) -> char {
    if d == 0 {
        '0'
    } else if d == 1 {
        '1'
    } else if d == 2 {
        '2'
    } else if d == 3 {
        '3'
    } else if d == 4 {
        '4'
    } else if d == 5 {
        '5'
    } else if d == 6 {
        '6'
    } else if d == 7 {
        '7'
    } else if d == 8 {
        '8'
    } else {
        '9'
    }
}

/// The decimal digits of a non-negative number, most significant first.
pub open spec fn dec_digits(n: int) -> Seq<char>
    decreases n,
{
    if n < 10 {
        seq![digit_char(n)]
    } else {
        dec_digits(n / 10).push(digit_char(n % 10))
    }
}

fn digit_of(d: u32) -> (c: char)
    requires
        d < 10,
    ensures
        c == digit_char(d as int),
{
    if d == 0 {
        '0'
    } else if d == 1 {
        '1'
    } else if d == 2 {
        '2'
    } else if d == 3 {
        '3'
    } else if d == 4 {
        '4'
    } else if d == 5 {
        '5'
    } else if d == 6 {
        '6'
    } else if d == 7 {
        '7'
    } else if d == 8 {
        '8'
    } else {
        '9'
    }
}

/// Formats `n` in decimal.
pub fn u32_to_dec(n: u32) -> (s: String)
    ensures
        s@ == dec_digits(n as int),
    decreases n,
{
    if n < 10 {
        let mut s = String::new();
        push_char(&mut s, digit_of(n));
        proof {
            assert(s@ =~= seq![digit_char(n as int)]);
        }
        s
    } else {
        let mut s = u32_to_dec(n / 10);
        push_char(&mut s, digit_of(n % 10));
        s
    }
}

/// Formats `n` in decimal.
pub fn u64_to_dec(n: u64) -> (s: String)
    ensures
        s@ == dec_digits(n as int),
    decreases n,
{
    if n < 10 {
        let mut s = String::new();
        push_char(&mut s, digit_of((n % 10) as u32));
        proof {
            assert(s@ =~= seq![digit_char(n as int)]);
        }
        s
    } else {
        let mut s = u64_to_dec(n / 10);
        push_char(&mut s, digit_of((n % 10) as u32));
        s
    }
}

/// What `str::to_lowercase` returns for a given character sequence.  The
/// mapping is pinned down only by the Unicode tables, so it is left
/// uninterpreted and every contract speaks of it by this name.
pub uninterp spec fn lower_of(s: Seq<char>) -> Seq<char>;

/// Relies on `str::to_lowercase`: the result depends on the characters
/// alone, and an empty text stays empty.
#[verifier::external_body]
pub(crate) fn lowercase(s: &str) -> (r: String)
    ensures
        r@ == lower_of(s@),
        s@.len() == 0 ==> r@.len() == 0,
{
    s.to_lowercase()
}

} // verus!
