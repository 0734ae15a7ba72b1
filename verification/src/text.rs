//! Verified text utilities: whitespace and separator tokenizers, line
//! splitting, trimming, and decimal number parsing and printing.
//!
//! All executable functions here carry exact contracts over `Seq<char>`
//! models, so every extractor built on top of them can state precisely which
//! tokens of its input it consumed.

use vstd::prelude::*;

verus! {

// ------------------------------------------------------------------
// character classes
// ------------------------------------------------------------------

/// ASCII whitespace, the separator class used by the tokenizers below.
pub open spec fn is_space(c: char) -> bool {
    c == ' ' || c == '\t' || c == '\n' || c == '\r' || c == '\u{b}' || c == '\u{c}'
}

/// Executable mirror of `is_space`.
pub fn is_space_char(c: char) -> (r: bool)
    ensures
        r == is_space(c),
{
    c == ' ' || c == '\t' || c == '\n' || c == '\r' || c == '\u{b}' || c == '\u{c}'
}

/// A decimal digit.
pub open spec fn is_digit(c: char) -> bool {
    '0' <= c && c <= '9'
}

/// Numeric value of a digit character.
pub open spec fn digit_val(c: char) -> int {
    c as int - '0' as int
}

/// Every character of `s` is a decimal digit.
pub open spec fn all_digits(s: Seq<char>) -> bool {
    forall|i: int| 0 <= i < s.len() ==> is_digit(#[trigger] s[i])
}

/// Executable mirror of `is_digit`.
pub fn is_digit_char(c: char) -> (r: bool)
    ensures
        r == is_digit(c),
{
    '0' <= c && c <= '9'
}

// ------------------------------------------------------------------
// whitespace tokenization
// ------------------------------------------------------------------

/// Length of the leading run of non-whitespace characters of `s`.
pub open spec fn token_len(s: Seq<char>) -> nat
    decreases s.len(),
{
    if s.len() == 0 || is_space(s[0]) {
        0
    } else {
        1 + token_len(s.drop_first())
    }
}

pub proof fn lemma_token_len_le(s: Seq<char>)
    ensures
        token_len(s) <= s.len(),
    decreases s.len(),
{
    if s.len() != 0 && !is_space(s[0]) {
        lemma_token_len_le(s.drop_first());
    }
}

/// If the first `k` characters are non-whitespace and position `k` is either
/// the end or whitespace, the leading token has length exactly `k`.
pub proof fn lemma_token_len_run(s: Seq<char>, k: int)
    requires
        0 <= k <= s.len(),
        forall|i: int| 0 <= i < k ==> !is_space(#[trigger] s[i]),
        k == s.len() || is_space(s[k]),
    ensures
        token_len(s) == k,
    decreases k,
{
    if k == 0 {
    } else {
        let t = s.drop_first();
        assert forall|i: int| 0 <= i < k - 1 implies !is_space(#[trigger] t[i]) by {
            assert(t[i] == s[i + 1]);
        }
        if k - 1 < t.len() {
            assert(t[k - 1] == s[k]);
        }
        lemma_token_len_run(t, k - 1);
    }
}

/// The whitespace-separated tokens of `s`, in order. Tokens are the maximal
/// runs of non-whitespace characters; they are never empty.
pub open spec fn split_ws(s: Seq<char>) -> Seq<Seq<char>>
    decreases s.len(),
    via split_ws_decreases
{
    if s.len() == 0 {
        Seq::empty()
    } else if is_space(s[0]) {
        split_ws(s.drop_first())
    } else {
        let k = token_len(s) as int;
        seq![s.subrange(0, k)] + split_ws(s.subrange(k, s.len() as int))
    }
}

#[via_fn]
proof fn split_ws_decreases(s: Seq<char>) {
    if s.len() != 0 && !is_space(s[0]) {
        lemma_token_len_le(s);
    }
}

/// Whitespace-separated tokens of `s`, as slices of `s`.
pub fn ws_tokens<'a>(s: &'a str) -> (r: Vec<&'a str>)
    ensures
        r.deep_view() == split_ws(s@),
{
    let n = s.unicode_len();
    let mut r: Vec<&'a str> = Vec::new();
    let mut i: usize = 0;
    proof {
        assert(s@.subrange(0, n as int) =~= s@);
        assert(r.deep_view() =~= Seq::<Seq<char>>::empty());
        assert(Seq::<Seq<char>>::empty() + split_ws(s@) =~= split_ws(s@));
    }
    while i < n
        invariant
            n == s@.len(),
            i <= n,
            r.deep_view() + split_ws(s@.subrange(i as int, n as int)) =~= split_ws(s@),
        decreases n - i,
    {
        let c = s.get_char(i);
        if is_space_char(c) {
            proof {
                let suf = s@.subrange(i as int, n as int);
                assert(suf.drop_first() =~= s@.subrange(i as int + 1, n as int));
            }
            i = i + 1;
        } else {
            let start = i;
            let mut j = i + 1;
            while j < n && !is_space_char(s.get_char(j))
                invariant
                    n == s@.len(),
                    start < j <= n,
                    forall|k: int| start <= k < j ==> !is_space(#[trigger] s@[k]),
                decreases n - j,
            {
                j = j + 1;
            }
            let tok = s.substring_char(start, j);
            proof {
                let suf = s@.subrange(i as int, n as int);
                assert forall|k: int| 0 <= k < j - start implies !is_space(#[trigger] suf[k]) by {
                    assert(suf[k] == s@[start + k]);
                }
                if j < n {
                    assert(suf[j - start] == s@[j as int]);
                }
                lemma_token_len_run(suf, j - start);
                assert(suf.subrange(0, j - start) =~= s@.subrange(start as int, j as int));
                assert(suf.subrange(j - start, suf.len() as int) =~= s@.subrange(
                    j as int,
                    n as int,
                ));
                assert(split_ws(suf) == seq![tok@] + split_ws(s@.subrange(j as int, n as int)));
            }
            let ghost old_r = r.deep_view();
            r.push(tok);
            proof {
                assert(r.deep_view() =~= old_r + seq![tok@]);
                assert(r.deep_view() + split_ws(s@.subrange(j as int, n as int)) =~= split_ws(
                    s@,
                ));
            }
            i = j;
        }
    }
    proof {
        assert(s@.subrange(n as int, n as int) =~= Seq::<char>::empty());
        assert(r.deep_view() + split_ws(Seq::<char>::empty()) =~= r.deep_view());
    }
    r
}

// ------------------------------------------------------------------
// separator splitting
// ------------------------------------------------------------------

/// Length of the leading run of characters different from `sep`.
pub open spec fn field_len(s: Seq<char>, sep: char) -> nat
    decreases s.len(),
{
    if s.len() == 0 || s[0] == sep {
        0
    } else {
        1 + field_len(s.drop_first(), sep)
    }
}

pub proof fn lemma_field_len_le(s: Seq<char>, sep: char)
    ensures
        field_len(s, sep) <= s.len(),
    decreases s.len(),
{
    if s.len() != 0 && s[0] != sep {
        lemma_field_len_le(s.drop_first(), sep);
    }
}

/// If the first `k` characters differ from `sep` and position `k` is either
/// the end or `sep`, the leading field has length exactly `k`.
pub proof fn lemma_field_len_run(s: Seq<char>, sep: char, k: int)
    requires
        0 <= k <= s.len(),
        forall|i: int| 0 <= i < k ==> #[trigger] s[i] != sep,
        k == s.len() || s[k] == sep,
    ensures
        field_len(s, sep) == k,
    decreases k,
{
    if k != 0 {
        let t = s.drop_first();
        assert forall|i: int| 0 <= i < k - 1 implies #[trigger] t[i] != sep by {
            assert(t[i] == s[i + 1]);
        }
        if k - 1 < t.len() {
            assert(t[k - 1] == s[k]);
        }
        lemma_field_len_run(t, sep, k - 1);
    }
}

/// The fields of `s` around separator `sep`, in order, empty fields kept:
/// splitting never yields fewer than one field, and a trailing separator
/// yields a trailing empty field.
pub open spec fn split_at_char(s: Seq<char>, sep: char) -> Seq<Seq<char>>
    decreases s.len(),
    via split_at_char_decreases
{
    let k = field_len(s, sep) as int;
    if k == s.len() {
        seq![s]
    } else {
        seq![s.subrange(0, k)] + split_at_char(s.subrange(k + 1, s.len() as int), sep)
    }
}

#[via_fn]
proof fn split_at_char_decreases(s: Seq<char>, sep: char) {
    lemma_field_len_le(s, sep);
}

/// Fields of `s` around `sep`, as slices of `s`, empty fields kept.
pub fn char_fields<'a>(s: &'a str, sep: char) -> (r: Vec<&'a str>)
    ensures
        r.deep_view() == split_at_char(s@, sep),
{
    let n = s.unicode_len();
    let mut r: Vec<&'a str> = Vec::new();
    let mut i: usize = 0;
    let mut finished = false;
    proof {
        lemma_field_len_le(s@, sep);
        assert(s@.subrange(0, n as int) =~= s@);
        assert(r.deep_view() =~= Seq::<Seq<char>>::empty());
        assert(Seq::<Seq<char>>::empty() + split_at_char(s@, sep) =~= split_at_char(s@, sep));
    }
    while !finished
        invariant
            n == s@.len(),
            i <= n,
            !finished ==> r.deep_view() + split_at_char(s@.subrange(i as int, n as int), sep)
                =~= split_at_char(s@, sep),
            finished ==> r.deep_view() =~= split_at_char(s@, sep),
        decreases n - i + (if finished { 0int } else { 1int }),
    {
        let start = i;
        let mut j = i;
        while j < n && s.get_char(j) != sep
            invariant
                n == s@.len(),
                start <= j <= n,
                forall|k: int| start <= k < j ==> #[trigger] s@[k] != sep,
            decreases n - j,
        {
            j = j + 1;
        }
        let tok = s.substring_char(start, j);
        proof {
            let suf = s@.subrange(start as int, n as int);
            assert forall|k: int| 0 <= k < j - start implies #[trigger] suf[k] != sep by {
                assert(suf[k] == s@[start + k]);
            }
            if j < n {
                assert(suf[j - start] == s@[j as int]);
            }
            lemma_field_len_run(suf, sep, j - start);
            assert(suf.subrange(0, j - start) =~= s@.subrange(start as int, j as int));
        }
        let ghost old_r = r.deep_view();
        r.push(tok);
        proof {
            assert(r.deep_view() =~= old_r + seq![tok@]);
        }
        if j < n {
            proof {
                let suf = s@.subrange(start as int, n as int);
                assert(suf.subrange(j - start + 1, suf.len() as int) =~= s@.subrange(
                    j as int + 1,
                    n as int,
                ));
                assert(split_at_char(suf, sep) == seq![tok@] + split_at_char(
                    s@.subrange(j as int + 1, n as int),
                    sep,
                ));
                assert(r.deep_view() + split_at_char(s@.subrange(j as int + 1, n as int), sep)
                    =~= split_at_char(s@, sep));
            }
            i = j + 1;
        } else {
            proof {
                let suf = s@.subrange(start as int, n as int);
                assert(field_len(suf, sep) == suf.len());
                assert(split_at_char(suf, sep) == seq![suf]);
                assert(suf =~= tok@);
                assert(r.deep_view() =~= split_at_char(s@, sep));
            }
            finished = true;
        }
    }
    r
}

// ------------------------------------------------------------------
// lines
// ------------------------------------------------------------------

/// A line with a trailing carriage return stripped.
pub open spec fn strip_cr(t: Seq<char>) -> Seq<char> {
    if t.len() > 0 && t.last() == '\r' {
        t.drop_last()
    } else {
        t
    }
}

/// The lines of `s`: newline-separated fields, a final newline producing no
/// trailing empty line, and a trailing carriage return stripped from each.
pub open spec fn spec_lines(s: Seq<char>) -> Seq<Seq<char>> {
    if s.len() == 0 {
        Seq::empty()
    } else if s.last() == '\n' {
        split_at_char(s.drop_last(), '\n').map_values(|t: Seq<char>| strip_cr(t))
    } else {
        split_at_char(s, '\n').map_values(|t: Seq<char>| strip_cr(t))
    }
}

/// The lines of `s`, as slices of `s`.
pub fn str_lines<'a>(s: &'a str) -> (r: Vec<&'a str>)
    ensures
        r.deep_view() == spec_lines(s@),
{
    let n = s.unicode_len();
    if n == 0 {
        let r: Vec<&'a str> = Vec::new();
        proof {
            assert(r.deep_view() =~= spec_lines(s@));
        }
        return r;
    }
    let body: &'a str = if s.get_char(n - 1) == '\n' {
        s.substring_char(0, n - 1)
    } else {
        s
    };
    proof {
        if s@.last() == '\n' {
            assert(body@ =~= s@.drop_last());
        }
    }
    let raw = char_fields(body, '\n');
    let mut r: Vec<&'a str> = Vec::new();
    let mut i: usize = 0;
    let ghost target = raw.deep_view().map_values(|t: Seq<char>| strip_cr(t));
    while i < raw.len()
        invariant
            i <= raw.len(),
            target == raw.deep_view().map_values(|t: Seq<char>| strip_cr(t)),
            r.deep_view() =~= target.subrange(0, i as int),
        decreases raw.len() - i,
    {
        let line = raw[i];
        let m = line.unicode_len();
        let stripped: &'a str = if m > 0 && line.get_char(m - 1) == '\r' {
            line.substring_char(0, m - 1)
        } else {
            line
        };
        proof {
            if m > 0 && line@.last() == '\r' {
                assert(stripped@ =~= line@.drop_last());
            }
            assert(stripped@ == strip_cr(raw.deep_view()[i as int]));
        }
        let ghost old_r = r.deep_view();
        r.push(stripped);
        proof {
            assert(r.deep_view() =~= old_r + seq![stripped@]);
            assert(r.deep_view() =~= target.subrange(0, i as int + 1));
        }
        i = i + 1;
    }
    proof {
        assert(target.subrange(0, raw.len() as int) =~= target);
        assert(r.deep_view() =~= spec_lines(s@));
    }
    r
}

// ------------------------------------------------------------------
// trimming
// ------------------------------------------------------------------

/// Number of trailing whitespace characters of `s`.
pub open spec fn trail_ws(s: Seq<char>) -> nat
    decreases s.len(),
{
    if s.len() == 0 || !is_space(s.last()) {
        0
    } else {
        1 + trail_ws(s.drop_last())
    }
}

pub proof fn lemma_trail_ws_le(s: Seq<char>)
    ensures
        trail_ws(s) <= s.len(),
    decreases s.len(),
{
    if s.len() != 0 && is_space(s.last()) {
        lemma_trail_ws_le(s.drop_last());
    }
}

/// If the last `k` characters are whitespace and position `len - k - 1` is
/// either absent or non-whitespace, the trailing run has length exactly `k`.
pub proof fn lemma_trail_ws_run(s: Seq<char>, k: int)
    requires
        0 <= k <= s.len(),
        forall|i: int| s.len() - k <= i < s.len() ==> is_space(#[trigger] s[i]),
        k == s.len() || !is_space(s[s.len() - k - 1]),
    ensures
        trail_ws(s) == k,
    decreases k,
{
    if k != 0 {
        let t = s.drop_last();
        assert forall|i: int| t.len() - (k - 1) <= i < t.len() implies is_space(
            #[trigger] t[i],
        ) by {
            assert(t[i] == s[i]);
        }
        lemma_trail_ws_run(t, k - 1);
    }
}

/// `s` with its trailing whitespace removed.
pub open spec fn spec_trim_end(s: Seq<char>) -> Seq<char> {
    s.subrange(0, s.len() - trail_ws(s))
}

/// A slice of `s` with the trailing whitespace removed.
pub fn trim_end<'a>(s: &'a str) -> (r: &'a str)
    ensures
        r@ == spec_trim_end(s@),
{
    let n = s.unicode_len();
    let mut j = n;
    while j > 0 && is_space_char(s.get_char(j - 1))
        invariant
            n == s@.len(),
            j <= n,
            forall|i: int| j <= i < n ==> is_space(#[trigger] s@[i]),
        decreases j,
    {
        j = j - 1;
    }
    proof {
        lemma_trail_ws_run(s@, n - j);
    }
    s.substring_char(0, j)
}

/// Number of leading occurrences of `c` in `s`.
pub open spec fn lead_count(s: Seq<char>, c: char) -> nat
    decreases s.len(),
{
    if s.len() == 0 || s[0] != c {
        0
    } else {
        1 + lead_count(s.drop_first(), c)
    }
}

/// Number of trailing occurrences of `c` in `s`.
pub open spec fn trail_count(s: Seq<char>, c: char) -> nat
    decreases s.len(),
{
    if s.len() == 0 || s.last() != c {
        0
    } else {
        1 + trail_count(s.drop_last(), c)
    }
}

pub proof fn lemma_lead_count_run(s: Seq<char>, c: char, k: int)
    requires
        0 <= k <= s.len(),
        forall|i: int| 0 <= i < k ==> #[trigger] s[i] == c,
        k == s.len() || s[k] != c,
    ensures
        lead_count(s, c) == k,
    decreases k,
{
    if k != 0 {
        let t = s.drop_first();
        assert forall|i: int| 0 <= i < k - 1 implies #[trigger] t[i] == c by {
            assert(t[i] == s[i + 1]);
        }
        if k - 1 < t.len() {
            assert(t[k - 1] == s[k]);
        }
        lemma_lead_count_run(t, c, k - 1);
    }
}

pub proof fn lemma_trail_count_run(s: Seq<char>, c: char, k: int)
    requires
        0 <= k <= s.len(),
        forall|i: int| s.len() - k <= i < s.len() ==> #[trigger] s[i] == c,
        k == s.len() || s[s.len() - k - 1] != c,
    ensures
        trail_count(s, c) == k,
    decreases k,
{
    if k != 0 {
        let t = s.drop_last();
        assert forall|i: int| t.len() - (k - 1) <= i < t.len() implies #[trigger] t[i] == c by {
            assert(t[i] == s[i]);
        }
        lemma_trail_count_run(t, c, k - 1);
    }
}

/// `s` with every leading and trailing occurrence of `c` removed.
pub open spec fn spec_trim_char(s: Seq<char>, c: char) -> Seq<char> {
    if lead_count(s, c) == s.len() {
        Seq::empty()
    } else {
        s.subrange(lead_count(s, c) as int, s.len() - trail_count(s, c))
    }
}

/// A slice of `s` with the leading and trailing occurrences of `c` removed.
pub fn trim_char<'a>(s: &'a str, c: char) -> (r: &'a str)
    ensures
        r@ == spec_trim_char(s@, c),
{
    let n = s.unicode_len();
    let mut i: usize = 0;
    while i < n && s.get_char(i) == c
        invariant
            n == s@.len(),
            i <= n,
            forall|k: int| 0 <= k < i ==> #[trigger] s@[k] == c,
        decreases n - i,
    {
        i = i + 1;
    }
    proof {
        lemma_lead_count_run(s@, c, i as int);
    }
    if i == n {
        let r = s.substring_char(n, n);
        proof {
            assert(r@ =~= Seq::<char>::empty());
        }
        return r;
    }
    let mut j: usize = n;
    while j > i + 1 && s.get_char(j - 1) == c
        invariant
            n == s@.len(),
            i < j <= n,
            forall|k: int| j <= k < n ==> #[trigger] s@[k] == c,
        decreases j,
    {
        j = j - 1;
    }
    proof {
        if s@[j - 1] == c {
            assert(j == i + 1);
            assert(s@[i as int] != c);
            assert(false);
        }
        lemma_trail_count_run(s@, c, n - j);
    }
    s.substring_char(i, j)
}

// ------------------------------------------------------------------
// unsigned decimal parsing
// ------------------------------------------------------------------

/// Value of a digit string read as a decimal number.
pub open spec fn dec_value(s: Seq<char>) -> int
    decreases s.len(),
{
    if s.len() == 0 {
        0
    } else {
        dec_value(s.drop_last()) * 10 + digit_val(s.last())
    }
}

pub proof fn lemma_dec_value_nonneg(s: Seq<char>)
    requires
        all_digits(s),
    ensures
        dec_value(s) >= 0,
    decreases s.len(),
{
    if s.len() != 0 {
        let t = s.drop_last();
        assert(all_digits(t));
        lemma_dec_value_nonneg(t);
    }
}

/// Extending a digit string with more digits never shrinks its value.
pub proof fn lemma_dec_value_grows(s: Seq<char>, k: int)
    requires
        all_digits(s),
        0 <= k <= s.len(),
    ensures
        dec_value(s) >= dec_value(s.subrange(0, k)),
    decreases s.len() - k,
{
    if k < s.len() {
        let p = s.subrange(0, k);
        let q = s.subrange(0, k + 1);
        assert(all_digits(p));
        assert(q.drop_last() =~= p);
        lemma_dec_value_nonneg(p);
        assert(dec_value(q) == dec_value(p) * 10 + digit_val(q.last()));
        assert(dec_value(p) * 10 >= dec_value(p)) by (nonlinear_arith)
            requires dec_value(p) >= 0;
        lemma_dec_value_grows(s, k + 1);
    } else {
        assert(s.subrange(0, k) =~= s);
    }
}

/// What parsing a string as an unsigned 64-bit decimal number yields: an
/// optional leading plus sign, then at least one digit, the value at most
/// `u64::MAX`; anything else is rejected.
pub open spec fn spec_parse_u64(s: Seq<char>) -> Option<u64> {
    let body = if s.len() > 0 && s[0] == '+' {
        s.drop_first()
    } else {
        s
    };
    if body.len() > 0 && all_digits(body) && dec_value(body) <= u64::MAX {
        Some(dec_value(body) as u64)
    } else {
        None
    }
}

/// Parses `s` as an unsigned decimal number.
pub fn parse_u64(s: &str) -> (r: Option<u64>)
    ensures
        r == spec_parse_u64(s@),
{
    let n = s.unicode_len();
    let start: usize = if n > 0 && s.get_char(0) == '+' {
        1
    } else {
        0
    };
    let ghost body = if s@.len() > 0 && s@[0] == '+' {
        s@.drop_first()
    } else {
        s@
    };
    proof {
        assert(body =~= s@.subrange(start as int, n as int));
    }
    if start == n {
        return None;
    }
    let mut acc: u64 = 0;
    let mut i = start;
    while i < n
        invariant
            n == s@.len(),
            start <= i <= n,
            start < n,
            body == s@.subrange(start as int, n as int),
            body == (if s@.len() > 0 && s@[0] == '+' {
                s@.drop_first()
            } else {
                s@
            }),
            forall|k: int| start <= k < i ==> is_digit(#[trigger] s@[k]),
            acc == dec_value(s@.subrange(start as int, i as int)),
        decreases n - i,
    {
        let c = s.get_char(i);
        if !is_digit_char(c) {
            proof {
                assert(body[i - start] == s@[i as int]);
                assert(!is_digit(body[i - start]));
                assert(!all_digits(body));
                assert(spec_parse_u64(s@) is None);
            }
            return None;
        }
        let d: u64 = (c as u32 - '0' as u32) as u64;
        proof {
            assert(d <= 9);
            assert(d == digit_val(s@[i as int]));
        }
        if acc > (u64::MAX - d) / 10 {
            proof {
                let p = s@.subrange(start as int, i as int + 1);
                assert(p.drop_last() =~= s@.subrange(start as int, i as int));
                assert(dec_value(p) == acc * 10 + d);
                assert(acc * 10 + d > u64::MAX) by (nonlinear_arith)
                    requires
                        acc > (u64::MAX - d) / 10,
                        0 <= d <= 9,
                        acc >= 0;
                if all_digits(body) {
                    assert(p =~= body.subrange(0, i - start + 1));
                    lemma_dec_value_grows(body, i - start + 1);
                    assert(dec_value(body) >= dec_value(p));
                    assert(dec_value(body) > u64::MAX);
                }
                assert(spec_parse_u64(s@) is None);
            }
            return None;
        }
        proof {
            assert(acc * 10 + d <= u64::MAX) by (nonlinear_arith)
                requires
                    acc <= (u64::MAX - d) / 10,
                    0 <= d <= 9,
                    acc >= 0;
            let p = s@.subrange(start as int, i as int + 1);
            assert(p.drop_last() =~= s@.subrange(start as int, i as int));
            assert(dec_value(p) == acc * 10 + d);
        }
        acc = acc * 10 + d;
        i = i + 1;
    }
    proof {
        assert(body =~= s@.subrange(start as int, n as int));
        assert(all_digits(body));
        assert(dec_value(body) == acc);
    }
    Some(acc)
}

// ------------------------------------------------------------------
// decimal printing
// ------------------------------------------------------------------

/// The decimal digit character for `d`.
pub open spec fn digit_char(d: int) -> char {
    if d == 0 {
        '0'
    } else if d == 1 {
        '1'
    } else if d == 2 {
        '2'
    } else if d == 3 {
        '3'
    } else if d == 4 {
        '4'
    } else if d == 5 {
        '5'
    } else if d == 6 {
        '6'
    } else if d == 7 {
        '7'
    } else if d == 8 {
        '8'
    } else {
        '9'
    }
}

/// The decimal representation of `v`, without leading zeros (a single zero
/// digit for zero).
pub open spec fn spec_dec_str(v: nat) -> Seq<char>
    decreases v,
{
    if v < 10 {
        seq![digit_char(v as int)]
    } else {
        spec_dec_str(v / 10) + seq![digit_char((v % 10) as int)]
    }
}

/// The one-character string for digit `d`.
pub(crate) fn digit_str(d: u64) -> (r: &'static str)
    requires
        d < 10,
    ensures
        r@ == seq![digit_char(d as int)],
{
    if d == 0 {
        proof {
            reveal_strlit("0");
        }
        "0"
    } else if d == 1 {
        proof {
            reveal_strlit("1");
        }
        "1"
    } else if d == 2 {
        proof {
            reveal_strlit("2");
        }
        "2"
    } else if d == 3 {
        proof {
            reveal_strlit("3");
        }
        "3"
    } else if d == 4 {
        proof {
            reveal_strlit("4");
        }
        "4"
    } else if d == 5 {
        proof {
            reveal_strlit("5");
        }
        "5"
    } else if d == 6 {
        proof {
            reveal_strlit("6");
        }
        "6"
    } else if d == 7 {
        proof {
            reveal_strlit("7");
        }
        "7"
    } else if d == 8 {
        proof {
            reveal_strlit("8");
        }
        "8"
    } else {
        proof {
            reveal_strlit("9");
        }
        "9"
    }
}

/// Appends the decimal representation of `v` to `out`.
pub fn push_decimal(v: u64, out: &mut String)
    ensures
        final(out)@ == old(out)@ + spec_dec_str(v as nat),
    decreases v,
{
    if v < 10 {
        out.append(digit_str(v));
    } else {
        push_decimal(v / 10, out);
        out.append(digit_str(v % 10));
        proof {
            assert(old(out)@ + spec_dec_str((v / 10) as nat) + seq![
                digit_char((v % 10) as int),
            ] =~= old(out)@ + spec_dec_str(v as nat));
        }
    }
}

/// The decimal representation of `v` as a fresh string.
pub fn u64_to_string(v: u64) -> (r: String)
    ensures
        r@ == spec_dec_str(v as nat),
{
    let mut out = String::new();
    push_decimal(v, &mut out);
    proof {
        assert(Seq::<char>::empty() + spec_dec_str(v as nat) =~= spec_dec_str(v as nat));
    }
    out
}

// ------------------------------------------------------------------
// string equality and prefixes
// ------------------------------------------------------------------

/// Character-for-character string equality.
pub fn str_eq(a: &str, b: &str) -> (r: bool)
    ensures
        r == (a@ == b@),
{
    let na = a.unicode_len();
    let nb = b.unicode_len();
    if na != nb {
        proof {
            assert(a@ != b@);
        }
        return false;
    }
    let mut i: usize = 0;
    while i < na
        invariant
            na == a@.len(),
            na == b@.len(),
            i <= na,
            forall|k: int| 0 <= k < i ==> a@[k] == b@[k],
        decreases na - i,
    {
        if a.get_char(i) != b.get_char(i) {
            return false;
        }
        i = i + 1;
    }
    proof {
        assert(a@ =~= b@);
    }
    true
}

/// `p` is a prefix of `s`.
pub open spec fn is_prefix(p: Seq<char>, s: Seq<char>) -> bool {
    p.len() <= s.len() && s.subrange(0, p.len() as int) == p
}

/// Whether `s` starts with `p`.
pub fn starts_with(s: &str, p: &str) -> (r: bool)
    ensures
        r == is_prefix(p@, s@),
{
    let ns = s.unicode_len();
    let np = p.unicode_len();
    if np > ns {
        return false;
    }
    let head = s.substring_char(0, np);
    str_eq(head, p)
}

} // verus!
