//! The GTP-mode bot: parsing the engine's diagnostic output and
//! assembling the command scripts for move selection and scoring.
//!
//! The engine's GTP output is a line grammar of whitespace-separated
//! fields; this module defines that grammar directly and proves the
//! scanners against it.  Numeric fields are captured as text — the
//! host turns them into numbers at its boundary.

use vstd::prelude::*;

use crate::config::RequestConfig;
use crate::error::KatagoError;
use crate::text::append_str;
use crate::text::strs_view;
use crate::text::string_from_chars;
use crate::wire::komi_text;

verus! {

/// Whitespace as the line grammar knows it.
pub open spec fn is_space(c: char) -> bool {
    c == ' ' || c == '\t' || c == '\r' || c == '\n'
}

fn exec_is_space(c: char) -> (r: bool)
    ensures
        r == is_space(c),
{
    c == ' ' || c == '\t' || c == '\r' || c == '\n'
}

/// The length of the maximal non-space prefix.
pub open spec fn run_len(s: Seq<char>) -> nat
    decreases s.len(),
{
    if s.len() == 0 || is_space(s[0]) {
        0
    } else {
        1 + run_len(s.drop_first())
    }
}

proof fn lemma_run_len_le(s: Seq<char>)
    ensures
        run_len(s) <= s.len(),
    decreases s.len(),
{
    if s.len() > 0 && !is_space(s[0]) {
        lemma_run_len_le(s.drop_first());
    }
}

/// The run length is exactly the first space's position (or the whole
/// length when there is none).
proof fn lemma_run_len_is(s: Seq<char>, r: int)
    requires
        0 <= r <= s.len(),
        forall|j: int| 0 <= j < r ==> !is_space(#[trigger] s[j]),
        r < s.len() ==> is_space(s[r]),
    ensures
        run_len(s) == r,
    decreases s.len(),
{
    if s.len() == 0 {
    } else if is_space(s[0]) {
        assert(r == 0);
    } else {
        assert(r >= 1);
        let t = s.drop_first();
        assert(forall|j: int| 0 <= j < r - 1 ==> !is_space(#[trigger] t[j]));
        lemma_run_len_is(t, r - 1);
    }
}

/// The whitespace-separated fields of a line, in order.
pub open spec fn tokens(s: Seq<char>) -> Seq<Seq<char>>
    decreases s.len(),
    via tokens_dec
{
    if s.len() == 0 {
        Seq::empty()
    } else if is_space(s[0]) {
        tokens(s.drop_first())
    } else {
        seq![s.subrange(0, run_len(s) as int)] + tokens(s.skip(run_len(s) as int))
    }
}

#[via_fn]
proof fn tokens_dec(s: Seq<char>) {
    if s.len() > 0 && !is_space(s[0]) {
        lemma_run_len_le(s);
    }
}

/// Splits a line into its whitespace-separated fields.
pub fn split_tokens(s: &str) -> (r: Vec<String>)
    ensures
        r@.len() == tokens(s@).len(),
        forall|i: int| 0 <= i < r@.len() ==> (#[trigger] r@[i])@ == tokens(s@)[i],
    decreases s@.len(),
{
    let n = s.unicode_len();
    if n == 0 {
        return Vec::new();
    }
    let c = s.get_char(0);
    if exec_is_space(c) {
        let rest = s.substring_char(1, n);
        proof {
            assert(rest@ =~= s@.drop_first());
        }
        split_tokens(rest)
    } else {
        let mut rl: usize = 1;
        while rl < n && !exec_is_space(s.get_char(rl))
            invariant
                n == s@.len(),
                1 <= rl <= n,
                forall|j: int| 0 <= j < rl ==> !is_space(#[trigger] s@[j]),
            decreases n - rl,
        {
            rl = rl + 1;
        }
        proof {
            lemma_run_len_is(s@, rl as int);
        }
        let tok = s.substring_char(0, rl).to_owned();
        let rest = s.substring_char(rl, n);
        proof {
            assert(rest@ =~= s@.skip(run_len(s@) as int));
            assert(tok@ =~= s@.subrange(0, run_len(s@) as int));
        }
        let rest_toks = split_tokens(rest);
        let mut out: Vec<String> = Vec::new();
        out.push(tok);
        let m = rest_toks.len();
        let mut j: usize = 0;
        while j < m
            invariant
                m == rest_toks@.len(),
                j <= m,
                out@.len() == 1 + j,
                out@[0]@ == tokens(s@)[0],
                tokens(s@).len() == 1 + m,
                forall|k: int|
                    0 <= k < m ==> (#[trigger] rest_toks@[k])@ == tokens(s@)[k + 1],
                forall|k: int| 1 <= k < 1 + j ==> (#[trigger] out@[k])@ == tokens(s@)[k],
            decreases m - j,
        {
            out.push(rest_toks[j].clone());
            j = j + 1;
        }
        out
    }
}

/// The field that follows the first field equal to `key`, if any field
/// does.
pub open spec fn field_after(ts: Seq<Seq<char>>, key: Seq<char>) -> Option<Seq<char>>
    decreases ts.len(),
{
    if ts.len() == 0 {
        Option::None
    } else if ts[0] == key && ts.len() >= 2 {
        Option::Some(ts[1])
    } else {
        field_after(ts.drop_first(), key)
    }
}

/// The field that follows the first occurrence of the keyword on the
/// line, if the keyword occurs as a field and one follows it.
pub open spec fn capture_after(s: Seq<char>, key: Seq<char>) -> Option<Seq<char>> {
    field_after(tokens(s), key)
}

/// Finds the field after the given keyword field.
pub fn find_after(line: &str, key: &str) -> (r: Option<String>)
    ensures
        r is Some <==> capture_after(line@, key@) is Some,
        r matches Some(t) ==> capture_after(line@, key@) == Option::Some(t@),
{
    let ts = split_tokens(line);
    let key_s = key.to_owned();
    let n = ts.len();
    let ghost toks = tokens(line@);
    proof {
        assert(toks.skip(0) =~= toks);
    }
    let mut i: usize = 0;
    while i < n
        invariant
            n == ts@.len(),
            i <= n,
            toks == tokens(line@),
            n == toks.len(),
            forall|k: int| 0 <= k < n ==> (#[trigger] ts@[k])@ == toks[k],
            key_s@ == key@,
            field_after(toks.skip(i as int), key@) == field_after(toks, key@),
        decreases n - i,
    {
        proof {
            assert(toks.skip(i as int).drop_first() =~= toks.skip(i + 1 as int));
            assert(toks.skip(i as int)[0] == toks[i as int]);
        }
        if ts[i] == key_s {
            if i + 1 < n {
                proof {
                    assert(toks.skip(i as int)[1] == toks[i + 1 as int]);
                }
                return Option::Some(ts[i + 1].clone());
            } else {
                proof {
                    assert(toks.skip(i as int).len() == 1);
                }
            }
        }
        i = i + 1;
    }
    proof {
        assert(toks.skip(n as int).len() == 0);
    }
    Option::None
}

/// Whether `sub` occurs contiguously in `s`.
pub open spec fn has_sub(s: Seq<char>, sub: Seq<char>) -> bool {
    exists|p: int|
        0 <= p && p + sub.len() <= s.len() && #[trigger] s.subrange(p, p + sub.len()) == sub
}

/// Whether the needle occurs contiguously in the line.
pub fn contains_sub(s: &str, sub: &str) -> (r: bool)
    ensures
        r == has_sub(s@, sub@),
{
    let n = s.unicode_len();
    let m = sub.unicode_len();
    if m > n {
        return false;
    }
    let mut p: usize = 0;
    while p <= n - m
        invariant
            n == s@.len(),
            m == sub@.len(),
            m <= n,
            p <= n - m + 1,
            forall|q: int| 0 <= q < p ==> #[trigger] s@.subrange(q, q + sub@.len()) != sub@,
        decreases n - m + 1 - p,
    {
        let mut j: usize = 0;
        let mut hit = true;
        while j < m
            invariant
                n == s@.len(),
                m == sub@.len(),
                p + m <= n,
                j <= m,
                hit == (forall|k: int|
                    0 <= k < j ==> s@[p + k] == sub@[k]),
            decreases m - j,
        {
            if s.get_char(p + j) != sub.get_char(j) {
                hit = false;
                proof {
                    assert(s@[p + j as int] != sub@[j as int]);
                }
                j = m;
            } else {
                proof {
                    assert(s@[p + j as int] == sub@[j as int]);
                }
                j = j + 1;
            }
        }
        if hit {
            proof {
                assert(s@.subrange(p as int, p + sub@.len()) =~= sub@);
            }
            return true;
        }
        proof {
            if s@.subrange(p as int, p + sub@.len()) == sub@ {
                let k = choose|k: int| 0 <= k < m && s@[p + k] != sub@[k];
                assert(s@.subrange(p as int, p + sub@.len())[k] == s@[p + k]);
            }
        }
        p = p + 1;
    }
    proof {
        if has_sub(s@, sub@) {
            let q = choose|q: int|
                0 <= q && q + sub@.len() <= s@.len() && #[trigger] s@.subrange(q, q + sub@.len())
                    == sub@;
            assert(q < p);
        }
    }
    false
}

/// Whether `pre` is a prefix of `s`.
pub open spec fn is_prefix_of(pre: Seq<char>, s: Seq<char>) -> bool {
    pre.len() <= s.len() && s.subrange(0, pre.len() as int) == pre
}

/// Whether the line starts with the given prefix.
pub fn starts_with_str(s: &str, pre: &str) -> (r: bool)
    ensures
        r == is_prefix_of(pre@, s@),
{
    let n = s.unicode_len();
    let m = pre.unicode_len();
    if m > n {
        return false;
    }
    let mut j: usize = 0;
    while j < m
        invariant
            n == s@.len(),
            m == pre@.len(),
            m <= n,
            j <= m,
            forall|k: int| 0 <= k < j ==> s@[k] == pre@[k],
        decreases m - j,
    {
        if s.get_char(j) != pre.get_char(j) {
            proof {
                if is_prefix_of(pre@, s@) {
                    assert(s@.subrange(0, pre@.len() as int)[j as int] == s@[j as int]);
                }
            }
            return false;
        }
        j = j + 1;
    }
    proof {
        assert(s@.subrange(0, pre@.len() as int) =~= pre@);
    }
    true
}

/// A line with the leading and trailing whitespace removed.
pub open spec fn trim_start(s: Seq<char>) -> Seq<char>
    decreases s.len(),
{
    if s.len() > 0 && is_space(s[0]) {
        trim_start(s.drop_first())
    } else {
        s
    }
}

pub open spec fn trim_end(s: Seq<char>) -> Seq<char>
    decreases s.len(),
{
    if s.len() > 0 && is_space(s.last()) {
        trim_end(s.drop_last())
    } else {
        s
    }
}

pub open spec fn trimmed(s: Seq<char>) -> Seq<char> {
    trim_end(trim_start(s))
}

proof fn lemma_trim_start_skip(s: Seq<char>, lo: int)
    requires
        0 <= lo <= s.len(),
        forall|j: int| 0 <= j < lo ==> is_space(#[trigger] s[j]),
        lo < s.len() ==> !is_space(s[lo]),
    ensures
        trim_start(s) == s.skip(lo),
    decreases s.len(),
{
    if s.len() == 0 {
        assert(s.skip(0) =~= s);
    } else if is_space(s[0]) {
        assert(lo >= 1);
        let t = s.drop_first();
        assert(forall|j: int| 0 <= j < lo - 1 ==> is_space(#[trigger] t[j]));
        lemma_trim_start_skip(t, lo - 1);
        assert(t.skip(lo - 1) =~= s.skip(lo));
    } else {
        assert(lo == 0);
        assert(s.skip(0) =~= s);
    }
}

proof fn lemma_trim_end_take(s: Seq<char>, hi: int)
    requires
        0 <= hi <= s.len(),
        forall|j: int| hi <= j < s.len() ==> is_space(#[trigger] s[j]),
        hi > 0 ==> !is_space(s[hi - 1]),
    ensures
        trim_end(s) == s.take(hi),
    decreases s.len(),
{
    if s.len() == 0 {
        assert(s.take(0) =~= s);
    } else if is_space(s.last()) {
        assert(hi < s.len());
        let t = s.drop_last();
        lemma_trim_end_take(t, hi);
        assert(t.take(hi) =~= s.take(hi));
    } else {
        assert(hi == s.len());
        assert(s.take(s.len() as int) =~= s);
    }
}

/// Removes the leading and trailing whitespace of a line.
pub fn trim_str(s: &str) -> (r: String)
    ensures
        r@ == trimmed(s@),
{
    let n = s.unicode_len();
    let mut lo: usize = 0;
    while lo < n && exec_is_space(s.get_char(lo))
        invariant
            n == s@.len(),
            lo <= n,
            forall|j: int| 0 <= j < lo ==> is_space(#[trigger] s@[j]),
        decreases n - lo,
    {
        lo = lo + 1;
    }
    proof {
        lemma_trim_start_skip(s@, lo as int);
    }
    let mut hi: usize = n;
    while hi > lo && exec_is_space(s.get_char(hi - 1))
        invariant
            n == s@.len(),
            lo <= hi <= n,
            forall|j: int| 0 <= j < lo ==> is_space(#[trigger] s@[j]),
            forall|j: int| hi <= j < n ==> is_space(#[trigger] s@[j]),
        decreases hi,
    {
        hi = hi - 1;
    }
    let out = s.substring_char(lo, hi).to_owned();
    proof {
        let st = s@.skip(lo as int);
        assert(forall|j: int|
            hi - lo <= j < st.len() ==> is_space(#[trigger] st[j]));
        if hi > lo {
            assert(!is_space(st[hi - lo - 1]));
        }
        lemma_trim_end_take(st, hi - lo as int);
        assert(st.take(hi - lo as int) =~= s@.subrange(lo as int, hi as int));
    }
    out
}

/// All characters are decimal digits, and there is at least one.
pub open spec fn all_digits(s: Seq<char>) -> bool {
    s.len() > 0 && forall|i: int| 0 <= i < s.len() ==> '0' <= #[trigger] s[i] && s[i] <= '9'
}

/// The body of a numeric field after an optional sign.
pub open spec fn sign_body(s: Seq<char>) -> Seq<char> {
    if s.len() > 0 && (s[0] == '+' || s[0] == '-') {
        s.drop_first()
    } else {
        s
    }
}

/// A plain decimal number: an optional sign, digits, and optionally a
/// dot with more digits.  This is the shape of every numeric field the
/// engine prints on its diagnostic lines.
pub open spec fn is_decimal(s: Seq<char>) -> bool {
    let b = sign_body(s);
    all_digits(b) || (exists|k: int|
        0 < k < b.len() && b[k] == '.' && all_digits(b.take(k)) && all_digits(b.skip(k + 1)))
}

/// Whether the field is a plain decimal number.
pub fn decimal_field(s: &str) -> (r: bool)
    ensures
        r == is_decimal(s@),
{
    let n = s.unicode_len();
    let start: usize = if n > 0 && (s.get_char(0) == '+' || s.get_char(0) == '-') {
        1
    } else {
        0
    };
    let ghost b = sign_body(s@);
    proof {
        assert(b =~= s@.skip(start as int));
    }
    if n == start {
        proof {
            assert(b.len() == 0);
        }
        return false;
    }
    // scan for a single dot with digits on both sides
    let mut i: usize = start;
    let mut dot: usize = n;  // n means: no dot seen yet
    let mut ok = true;
    while i < n
        invariant
            n == s@.len(),
            start <= i <= n,
            start <= n,
            start <= 1,
            start == 1 ==> (s@[0] == '+' || s@[0] == '-'),
            start == 0 && n > 0 ==> !(s@[0] == '+' || s@[0] == '-'),
            n > start,
            b == sign_body(s@),
            b =~= s@.skip(start as int),
            i > start || dot == n,
            dot == n || (start <= dot < i && s@[dot as int] == '.'),
            ok ==> (forall|j: int|
                start <= j < i && j != dot ==> '0' <= #[trigger] s@[j] && s@[j] <= '9'),
            !ok ==> !is_decimal(s@),
            ok && dot < n ==> dot > start,
            ok && dot < n ==> i > dot,
            ok && dot < n ==> dot + 1 < n,
        decreases n - i,
    {
        let c = s.get_char(i);
        if c == '.' {
            if dot == n && i > start && i + 1 < n {
                dot = i;
            } else {
                proof {
                    lemma_not_decimal(s@, start as int, i as int, dot as int, n as int);
                }
                ok = false;
                i = n;
                continue ;
            }
        } else if !(c >= '0' && c <= '9') {
            proof {
                lemma_bad_char(s@, start as int, i as int);
            }
            ok = false;
            i = n;
            continue ;
        }
        i = i + 1;
    }
    if !ok {
        return false;
    }
    if dot == n {
        proof {
            assert(all_digits(b)) by {
                assert(forall|j: int|
                    0 <= j < b.len() ==> #[trigger] b[j] == s@[start + j] && start + j != dot);
            }
        }
        true
    } else {
        proof {
            let k = dot - start as int;
            assert(b[k] == s@[dot as int]);
            assert(all_digits(b.take(k))) by {
                assert(forall|j: int| 0 <= j < k ==> #[trigger] b.take(k)[j] == s@[start + j]);
            }
            assert(all_digits(b.skip(k + 1))) by {
                assert(forall|j: int|
                    0 <= j < b.len() - k - 1 ==> #[trigger] b.skip(k + 1)[j] == s@[start + k + 1
                        + j]);
            }
            assert(is_decimal(s@));
        }
        true
    }
}

/// A field with a second dot, a leading dot, or a trailing dot is not
/// a plain decimal number.
proof fn lemma_not_decimal(s: Seq<char>, start: int, i: int, dot: int, n: int)
    requires
        n == s.len(),
        0 <= start <= i < n,
        start <= 1,
        sign_body(s) =~= s.skip(start),
        s[i] == '.',
        !(dot == n && i > start && i + 1 < n),
        dot == n || (start <= dot < i && s[dot] == '.'),
    ensures
        !is_decimal(s),
{
    let b = sign_body(s);
    if all_digits(b) {
        assert(b[i - start] == '.');
    }
    if exists|k: int|
        0 < k < b.len() && b[k] == '.' && all_digits(b.take(k)) && all_digits(b.skip(k + 1)) {
        let k = choose|k: int|
            0 < k < b.len() && b[k] == '.' && all_digits(b.take(k)) && all_digits(b.skip(k + 1));
        if dot == n {
            // the only failing ways without an earlier dot: i == start or i at the end
            if i == start {
                assert(k > 0);
                if k < i - start {
                } else {
                    assert(b.take(k)[0] == s[start]);
                }
            } else {
                assert(i + 1 >= n);
                assert(i == n - 1);
                if k == i - start {
                    assert(b.skip(k + 1).len() == 0);
                } else if k < i - start {
                    assert(b.skip(k + 1)[i - start - k - 1] == s[i]);
                } else {
                    assert(b.take(k)[i - start] == s[i]);
                }
            }
        } else {
            // two dots cannot both be digits around one split
            if k == dot - start {
                assert(b.skip(k + 1)[i - start - k - 1] == s[i]);
            } else if k < dot - start {
                assert(b.skip(k + 1)[dot - start - k - 1] == s[dot]);
            } else {
                assert(b.take(k)[dot - start] == s[dot]);
            }
        }
    }
}

/// A field with a character that is neither a digit nor the single dot
/// is not a plain decimal number.
proof fn lemma_bad_char(s: Seq<char>, start: int, i: int)
    requires
        0 <= start <= i < s.len(),
        start <= 1,
        sign_body(s) =~= s.skip(start),
        s[i] != '.',
        !('0' <= s[i] && s[i] <= '9'),
    ensures
        !is_decimal(s),
{
    let b = sign_body(s);
    if all_digits(b) {
        assert(b[i - start] == s[i]);
    }
    if exists|k: int|
        0 < k < b.len() && b[k] == '.' && all_digits(b.take(k)) && all_digits(b.skip(k + 1)) {
        let k = choose|k: int|
            0 < k < b.len() && b[k] == '.' && all_digits(b.take(k)) && all_digits(b.skip(k + 1));
        if k == i - start {
        } else if k > i - start {
            assert(b.take(k)[i - start] == s[i]);
        } else {
            assert(b.skip(k + 1)[i - start - k - 1] == s[i]);
        }
    }
}


/// The field with its trailing percent signs removed.
pub open spec fn trim_pct(s: Seq<char>) -> Seq<char>
    decreases s.len(),
{
    if s.len() > 0 && s.last() == '%' {
        trim_pct(s.drop_last())
    } else {
        s
    }
}

fn exec_trim_pct(s: &String) -> (r: String)
    ensures
        r@ == trim_pct(s@),
{
    let st = s.as_str();
    let n = st.unicode_len();
    let mut hi: usize = n;
    while hi > 0 && st.get_char(hi - 1) == '%'
        invariant
            n == st@.len(),
            hi <= n,
            forall|j: int| hi <= j < n ==> #[trigger] st@[j] == '%',
        decreases hi,
    {
        hi = hi - 1;
    }
    proof {
        lemma_trim_pct_take(st@, hi as int);
    }
    st.substring_char(0, hi).to_owned()
}

proof fn lemma_trim_pct_take(s: Seq<char>, hi: int)
    requires
        0 <= hi <= s.len(),
        forall|j: int| hi <= j < s.len() ==> #[trigger] s[j] == '%',
        hi > 0 ==> s[hi - 1] != '%',
    ensures
        trim_pct(s) == s.take(hi),
    decreases s.len(),
{
    if s.len() == 0 {
        assert(s.take(0) =~= s);
    } else if s.last() == '%' {
        assert(hi < s.len());
        let t = s.drop_last();
        lemma_trim_pct_take(t, hi);
        assert(t.take(hi) =~= s.take(hi));
    } else {
        assert(hi == s.len());
        assert(s.take(s.len() as int) =~= s);
    }
}

/// The value of a signed integer field, when it is one and fits a
/// 32-bit signed integer — what a 32-bit parse accepts.
pub open spec fn spec_parse_i32(s: Seq<char>) -> Option<int> {
    let b = sign_body(s);
    let sgn: int = if s.len() > 0 && s[0] == '-' {
        -1
    } else {
        1
    };
    match crate::engine::row_value(b) {
        Option::Some(v) => {
            let val = sgn * v;
            if -2147483648 <= val <= 2147483647 {
                Option::Some(val)
            } else {
                Option::None
            }
        },
        Option::None => Option::None,
    }
}

/// Parses a signed 32-bit integer field.
#[verifier::spinoff_prover]
pub fn parse_i32_field(s: &str) -> (r: Option<i32>)
    ensures
        match r {
            Option::Some(v) => spec_parse_i32(s@) == Option::Some(v as int),
            Option::None => spec_parse_i32(s@) is None,
        },
{
    let n = s.unicode_len();
    let neg = n > 0 && s.get_char(0) == '-';
    let start: usize = if n > 0 && (s.get_char(0) == '+' || s.get_char(0) == '-') {
        1
    } else {
        0
    };
    let ghost b = sign_body(s@);
    proof {
        assert(b =~= s@.skip(start as int));
    }
    let mut acc: u64 = 0;
    let mut i: usize = start;
    while i < n
        invariant
            n == s@.len(),
            start <= i <= n,
            start <= 1,
            b == sign_body(s@),
            b =~= s@.skip(start as int),
            i == start ==> acc == 0,
            i > start ==> (match crate::engine::row_value(b.take(i - start)) {
                Option::Some(v) => (v <= 2147483648 && acc == v) || (v > 2147483648 && acc
                    == 2147483649),
                Option::None => false,
            }),
        decreases n - i,
    {
        let c = s.get_char(i);
        if !(c >= '0' && c <= '9') {
            proof {
                lemma_row_none_at(b, i - start as int);
            }
            return Option::None;
        }
        let d: u64 = (c as u64) - 48;
        let ghost pre = b.take(i - start as int);
        proof {
            assert(b.take(i + 1 - start as int) =~= pre.push(b[i - start as int]));
            assert(b[i - start as int] == s@[i as int]);
            crate::engine::lemma_row_value_push(pre, b[i - start as int]);
        }
        if acc * 10 + d > 2147483648 {
            acc = 2147483649;
        } else {
            acc = acc * 10 + d;
        }
        i = i + 1;
    }
    proof {
        assert(b.take(n - start as int) =~= b);
    }
    if i == start {
        // no digits at all
        return Option::None;
    }
    proof {
        assert(crate::engine::row_value(b) == crate::engine::row_value(
            b.take(n - start as int),
        ));
        assert(neg == (s@.len() > 0 && s@[0] == '-'));
    }
    if neg {
        if acc <= 2147483648 {
            let v: i64 = -(acc as i64);
            proof {
                assert(v as int == -(acc as int));
                let rvo = crate::engine::row_value(b);
                assert(rvo is Some);
                let rv = rvo.unwrap();
                assert((rv <= 2147483648 && acc == rv) || (rv > 2147483648 && acc == 2147483649));
                assert(acc == rv);
                assert(s@[0] == '-');
                assert(spec_parse_i32(s@) == Option::Some(-1 * rv));
                assert(-1 * rv == v as int);
                assert(-2147483648 <= v <= 2147483647);
                assert((v as i32) as int == v as int);
            }
            Option::Some(v as i32)
        } else {
            Option::None
        }
    } else {
        if acc <= 2147483647 {
            proof {
                let rvo = crate::engine::row_value(b);
                assert(rvo is Some);
                let rv = rvo.unwrap();
                assert(acc == rv);
                assert(!(s@.len() > 0 && s@[0] == '-'));
                assert(spec_parse_i32(s@) == Option::Some(1 * rv));
                assert((acc as i32) as int == 1 * rv);
            }
            Option::Some(acc as i32)
        } else {
            Option::None
        }
    }
}

/// A row with a non-digit character has no value.
proof fn lemma_row_none_at(b: Seq<char>, k: int)
    requires
        0 <= k < b.len(),
        !(b[k] >= '0' && b[k] <= '9'),
    ensures
        crate::engine::row_value(b) is None,
    decreases b.len(),
{
    if b.len() > 0 {
        if k == b.len() - 1 {
        } else {
            lemma_row_none_at(b.drop_last(), k);
        }
    }
}

/// One candidate move with its priority-sorted visit count.
#[derive(Debug, Clone)]
pub struct MoveCandidate {
    pub mv: String,
    pub psv: i32,
}

/// What the bot has gleaned from the engine's diagnostic output.  The
/// win probability and score are kept as the decimal text the engine
/// printed; the host parses them into numbers at its boundary (a
/// percent winrate still needs scaling there).
#[derive(Debug)]
pub struct Diagnostics {
    pub winprob: Option<String>,
    pub score: Option<String>,
    pub bot_move: String,
    pub best_ten: Vec<MoveCandidate>,
}

impl Default for Diagnostics {
    fn default() -> (d: Self)
        ensures
            d.winprob is None,
            d.score is None,
            d.bot_move@ == Seq::<char>::empty(),
            d.best_ten@ == Seq::<MoveCandidate>::empty(),
    {
        Diagnostics {
            winprob: Option::None,
            score: Option::None,
            bot_move: String::new(),
            best_ten: Vec::new(),
        }
    }
}

/// The winrate text of a chat line: the field after the keyword, its
/// percent signs dropped, if that is a decimal number.
pub open spec fn chat_winrate(l: Seq<char>) -> Option<Seq<char>> {
    match capture_after(l, "Winrate"@) {
        Option::Some(t) => if is_decimal(trim_pct(t)) {
            Option::Some(trim_pct(t))
        } else {
            Option::None
        },
        Option::None => Option::None,
    }
}

/// A decimal field captured after a keyword, if there is one.
pub open spec fn decimal_after(l: Seq<char>, key: Seq<char>) -> Option<Seq<char>> {
    match capture_after(l, key) {
        Option::Some(t) => if is_decimal(t) {
            Option::Some(t)
        } else {
            Option::None
        },
        Option::None => Option::None,
    }
}

/// The candidate move of a priority line: its first field, provided
/// the second field opens with a colon.
pub open spec fn candidate_move(l: Seq<char>) -> Option<Seq<char>> {
    let ts = tokens(l);
    if ts.len() >= 2 && ts[1].len() > 0 && ts[1][0] == ':' {
        Option::Some(ts[0])
    } else {
        Option::None
    }
}

/// The priority-sorted visit count of a priority line.
pub open spec fn candidate_psv(l: Seq<char>) -> Option<int> {
    match capture_after(l, "PSV"@) {
        Option::Some(t) => spec_parse_i32(t),
        Option::None => Option::None,
    }
}

/// An optional text field after an update: the captured text when the
/// line carries one, the previous text otherwise.
pub open spec fn updated(new: Option<Seq<char>>, cap: Option<Seq<char>>, prev: Option<Seq<char>>) -> bool {
    new == (if cap is Some {
        cap
    } else {
        prev
    })
}

fn capture_decimal(line: &str, key: &str) -> (r: Option<String>)
    ensures
        match r {
            Option::Some(t) => decimal_after(line@, key@) == Option::Some(t@),
            Option::None => decimal_after(line@, key@) is None,
        },
{
    match find_after(line, key) {
        Option::Some(t) => {
            if decimal_field(t.as_str()) {
                Option::Some(t)
            } else {
                Option::None
            }
        },
        Option::None => Option::None,
    }
}

/// Digests one engine diagnostic line into the diagnostics record:
/// chat lines refresh the winrate and score and reset the candidate
/// list, priority lines append a candidate, analysis info lines
/// refresh winrate, score and the chosen move, and a bare success
/// reply records the move it carries.
pub fn handle_response(line: &str, diag: &mut Diagnostics)
    ensures
        ({
            let l = line@;
            let chat = has_sub(l, "CHAT:"@) || has_sub(l, "MALKOVICH:"@);
            let psv_line = !chat && has_sub(l, " PSV "@);
            let info_line = !chat && !psv_line && is_prefix_of("info "@, l);
            let reply_line = !chat && !psv_line && !info_line && is_prefix_of("="@, l);
            &&& (chat ==> {
                &&& updated(
                    final(diag).winprob.deep_view(),
                    chat_winrate(l),
                    old(diag).winprob.deep_view(),
                )
                &&& updated(
                    final(diag).score.deep_view(),
                    decimal_after(l, "ScoreLead"@),
                    old(diag).score.deep_view(),
                )
                &&& final(diag).best_ten@.len() == 0
                &&& final(diag).bot_move == old(diag).bot_move
            })
            &&& (psv_line ==> {
                &&& final(diag).winprob == old(diag).winprob
                &&& final(diag).score == old(diag).score
                &&& final(diag).bot_move == old(diag).bot_move
                &&& (match (candidate_psv(l), candidate_move(l)) {
                    (Option::Some(p), Option::Some(m)) => final(diag).best_ten@.len() == old(diag).best_ten@.len() + 1 && final(diag).best_ten@.last().mv@ == m && final(diag).best_ten@.last().psv as int == p && final(diag).best_ten@.drop_last() == old(diag).best_ten@,
                    _ => final(diag).best_ten@ == old(diag).best_ten@,
                })
            })
            &&& (info_line ==> {
                &&& updated(
                    final(diag).winprob.deep_view(),
                    decimal_after(l, "winrate"@),
                    old(diag).winprob.deep_view(),
                )
                &&& updated(
                    final(diag).score.deep_view(),
                    decimal_after(l, "scoreLead"@),
                    old(diag).score.deep_view(),
                )
                &&& (match capture_after(l, "move"@) {
                    Option::Some(m) => final(diag).bot_move@ == m,
                    Option::None => final(diag).bot_move == old(diag).bot_move,
                })
                &&& final(diag).best_ten@ == old(diag).best_ten@
            })
            &&& (reply_line ==> {
                &&& final(diag).winprob == old(diag).winprob
                &&& final(diag).score == old(diag).score
                &&& final(diag).best_ten@ == old(diag).best_ten@
                &&& (if trimmed(l.skip(1)).len() > 0 {
                    final(diag).bot_move@ == trimmed(l.skip(1))
                } else {
                    final(diag).bot_move == old(diag).bot_move
                })
            })
            &&& ((!chat && !psv_line && !info_line && !reply_line) ==> *final(diag) == *old(diag))
        }),
{
    if contains_sub(line, "CHAT:") || contains_sub(line, "MALKOVICH:") {
        match find_after(line, "Winrate") {
            Option::Some(t) => {
                let w = exec_trim_pct(&t);
                if decimal_field(w.as_str()) {
                    diag.winprob = Option::Some(w);
                }
            },
            Option::None => {},
        }
        match capture_decimal(line, "ScoreLead") {
            Option::Some(t) => {
                diag.score = Option::Some(t);
            },
            Option::None => {},
        }
        diag.best_ten = Vec::new();
    } else if contains_sub(line, " PSV ") {
        match find_after(line, "PSV") {
            Option::Some(t) => {
                match parse_i32_field(t.as_str()) {
                    Option::Some(psv) => {
                        let ts = split_tokens(line);
                        if ts.len() >= 2 && ts[1].as_str().unicode_len() > 0 {
                            let second = &ts[1];
                            if second.as_str().get_char(0) == ':' {
                                let mv = ts[0].clone();
                                diag.best_ten.push(MoveCandidate { mv, psv });
                            }
                        }
                    },
                    Option::None => {},
                }
            },
            Option::None => {},
        }
    } else if starts_with_str(line, "info ") {
        match capture_decimal(line, "winrate") {
            Option::Some(t) => {
                diag.winprob = Option::Some(t);
            },
            Option::None => {},
        }
        match capture_decimal(line, "scoreLead") {
            Option::Some(t) => {
                diag.score = Option::Some(t);
            },
            Option::None => {},
        }
        match find_after(line, "move") {
            Option::Some(m) => {
                diag.bot_move = m;
            },
            Option::None => {},
        }
    } else if starts_with_str(line, "=") {
        proof {
            reveal_strlit("=");
        }
        let n = line.unicode_len();
        let rest = line.substring_char(1, n);
        proof {
            assert(rest@ =~= line@.skip(1));
        }
        let t = trim_str(rest);
        if t.as_str().unicode_len() > 0 {
            diag.bot_move = t;
        }
    }
}


/// Whether a move is replayed: early passes (the first twenty-one
/// moves) are skipped.
pub open spec fn keep_move(mv: Seq<char>, idx: int) -> bool {
    mv != "pass"@ || idx > 20
}

/// The command that plays one move.
pub open spec fn play_line(color: Seq<char>, mv: Seq<char>) -> Seq<char> {
    "play "@ + color + " "@ + mv
}

/// The play commands for the moves in order, colors alternating from
/// black, early passes skipped.
pub open spec fn play_cmds(moves: Seq<Seq<char>>) -> Seq<Seq<char>>
    decreases moves.len(),
{
    if moves.len() == 0 {
        Seq::empty()
    } else {
        play_cmds(moves.drop_last()) + (if keep_move(moves.last(), moves.len() - 1) {
            seq![
                play_line(crate::engine::nth_color("b"@, moves.len() - 1), moves.last()),
            ]
        } else {
            Seq::empty()
        })
    }
}

/// The rules sent in GTP mode: the one special client always plays
/// chinese; everyone else gets the komi-defaulted rules.
pub open spec fn gtp_rules(komi_half: int, kifucam: bool) -> Seq<char> {
    if kifucam {
        "chinese"@
    } else {
        crate::engine::default_rules(komi_half)
    }
}

/// The board-setup commands: komi, board and cache reset, rules.
pub open spec fn setup_cmds(komi_half: int, kifucam: bool) -> Seq<Seq<char>> {
    seq![
        "komi "@ + komi_text(komi_half),
        "clear_board"@,
        "clear_cache"@,
        "kata-set-rules "@ + gtp_rules(komi_half, kifucam),
    ]
}

/// The whole script for selecting a move: setup, plays, and a move
/// generation for the side to move.
pub open spec fn select_move_script(moves: Seq<Seq<char>>, komi_half: int, kifucam: bool) -> Seq<
    Seq<char>,
> {
    setup_cmds(komi_half, kifucam) + play_cmds(moves) + seq![
        "genmove "@ + crate::engine::nth_color("b"@, moves.len() as int),
    ]
}

/// The whole script for scoring: setup, plays, and an analysis request
/// with or without ownership.
pub open spec fn score_script(
    moves: Seq<Seq<char>>,
    komi_half: int,
    kifucam: bool,
    ownership: bool,
) -> Seq<Seq<char>> {
    setup_cmds(komi_half, kifucam) + play_cmds(moves) + seq![
        "kata-analyze 100 ownership "@ + (if ownership {
            "true"@
        } else {
            "false"@
        }),
    ]
}

/// Whether the per-request options name the special client.
pub open spec fn spec_kifucam(config: &RequestConfig) -> bool {
    match config.client {
        Option::Some(c) => c@ == "kifucam"@,
        Option::None => false,
    }
}

/// The komi of the per-request options in half points, defaulted to 15.
pub open spec fn spec_cfg_komi(config: &RequestConfig) -> int {
    match config.komi {
        Option::Some(k) => k as int,
        Option::None => 15,
    }
}

/// Whether ownership is requested, defaulted to true.
pub open spec fn spec_cfg_ownership(config: &RequestConfig) -> bool {
    match config.ownership {
        Option::Some(b) => b,
        Option::None => true,
    }
}

fn concat2(a: &str, b: &str) -> (r: String)
    ensures
        r@ == a@ + b@,
{
    let mut out: Vec<char> = Vec::new();
    append_str(&mut out, a);
    append_str(&mut out, b);
    proof {
        assert(out@ =~= a@ + b@);
    }
    string_from_chars(&out)
}

fn exec_kifucam(config: &RequestConfig) -> (r: bool)
    ensures
        r == spec_kifucam(config),
{
    match &config.client {
        Option::Some(c) => {
            let k = "kifucam".to_owned();
            *c == k
        },
        Option::None => false,
    }
}

/// Builds the setup and play commands; returns them with the color to
/// move next.
fn board_commands(moves: &Vec<String>, komi_half: i32, kifucam: bool) -> (r: (Vec<String>, String))
    ensures
        strs_view(r.0@) == setup_cmds(komi_half as int, kifucam) + play_cmds(strs_view(moves@)),
        r.1@ == crate::engine::nth_color("b"@, moves@.len() as int),
{
    let mut cmds: Vec<String> = Vec::new();
    let mut k: Vec<char> = Vec::new();
    append_str(&mut k, "komi ");
    crate::wire::append_komi(&mut k, komi_half);
    cmds.push(string_from_chars(&k));
    cmds.push("clear_board".to_owned());
    cmds.push("clear_cache".to_owned());
    let rules: String = if kifucam {
        "chinese".to_owned()
    } else {
        crate::engine::rules_from_komi(komi_half)
    };
    cmds.push(concat2("kata-set-rules ", rules.as_str()));
    proof {
        assert(strs_view(cmds@) =~= setup_cmds(komi_half as int, kifucam));
        assert(play_cmds(strs_view(moves@).take(0)) =~= Seq::<Seq<char>>::empty());
    }
    let ghost mseq = strs_view(moves@);
    let n = moves.len();
    let mut color = "b".to_owned();
    let pass = "pass".to_owned();
    let mut i: usize = 0;
    while i < n
        invariant
            n == moves@.len(),
            i <= n,
            mseq == strs_view(moves@),
            pass@ == "pass"@,
            color@ == crate::engine::nth_color("b"@, i as int),
            strs_view(cmds@) =~= setup_cmds(komi_half as int, kifucam) + play_cmds(
                mseq.take(i as int),
            ),
        decreases n - i,
    {
        let ghost pre = mseq.take(i as int);
        let ghost cmds_pre = strs_view(cmds@);
        if !(moves[i] == pass) || i > 20 {
            let mut pl: Vec<char> = Vec::new();
            append_str(&mut pl, "play ");
            append_str(&mut pl, color.as_str());
            append_str(&mut pl, " ");
            append_str(&mut pl, moves[i].as_str());
            proof {
                assert(pl@ == play_line(
                    crate::engine::nth_color("b"@, i as int),
                    mseq[i as int],
                ));
            }
            cmds.push(string_from_chars(&pl));
            proof {
                assert(strs_view(cmds@) =~= cmds_pre.push(pl@));
            }
        }
        proof {
            let tk = mseq.take(i + 1 as int);
            assert(tk.drop_last() =~= pre);
            assert(tk.last() == mseq[i as int]);
            assert(play_cmds(tk) == play_cmds(pre) + (if keep_move(mseq[i as int], i as int) {
                seq![play_line(crate::engine::nth_color("b"@, i as int), mseq[i as int])]
            } else {
                Seq::<Seq<char>>::empty()
            }));
            assert(strs_view(cmds@) =~= setup_cmds(komi_half as int, kifucam) + play_cmds(tk));
        }
        let b = "b".to_owned();
        let w = "w".to_owned();
        color = if color == b {
            w
        } else {
            b
        };
        i = i + 1;
    }
    proof {
        assert(mseq.take(n as int) =~= mseq);
    }
    (cmds, color)
}

/// The command script that selects a move for the position: the setup,
/// the surviving plays, and a move generation for the side to move,
/// which is also returned.
pub fn select_move_commands(moves: &Vec<String>, config: &RequestConfig) -> (r: (
    Vec<String>,
    String,
))
    ensures
        strs_view(r.0@) == select_move_script(
            strs_view(moves@),
            spec_cfg_komi(config),
            spec_kifucam(config),
        ),
        r.1@ == crate::engine::nth_color("b"@, moves@.len() as int),
{
    let komi_half: i32 = match config.komi {
        Option::Some(k) => k,
        Option::None => 15,
    };
    let kifucam = exec_kifucam(config);
    let (mut cmds, color) = board_commands(moves, komi_half, kifucam);
    cmds.push(concat2("genmove ", color.as_str()));
    proof {
        assert(strs_view(cmds@) =~= select_move_script(
            strs_view(moves@),
            spec_cfg_komi(config),
            spec_kifucam(config),
        ));
    }
    (cmds, color)
}

/// The command script that scores the position: the setup, the
/// surviving plays, and an ownership analysis request.
pub fn score_commands(moves: &Vec<String>, config: &RequestConfig) -> (r: Vec<String>)
    ensures
        strs_view(r@) == score_script(
            strs_view(moves@),
            spec_cfg_komi(config),
            spec_kifucam(config),
            spec_cfg_ownership(config),
        ),
{
    let komi_half: i32 = match config.komi {
        Option::Some(k) => k,
        Option::None => 15,
    };
    let kifucam = exec_kifucam(config);
    let ownership = match config.ownership {
        Option::Some(b) => b,
        Option::None => true,
    };
    let (mut cmds, _color) = board_commands(moves, komi_half, kifucam);
    if ownership {
        cmds.push(concat2("kata-analyze 100 ownership ", "true"));
    } else {
        cmds.push(concat2("kata-analyze 100 ownership ", "false"));
    }
    proof {
        assert(strs_view(cmds@) =~= score_script(
            strs_view(moves@),
            spec_cfg_komi(config),
            spec_kifucam(config),
            spec_cfg_ownership(config),
        ));
    }
    cmds
}

/// Whether a line settles a plain GTP command: a success reply or an
/// analysis info line.
pub fn is_final_response(line: &str) -> (r: bool)
    ensures
        r == (is_prefix_of("="@, line@) || is_prefix_of("info "@, line@)),
{
    starts_with_str(line, "=") || starts_with_str(line, "info ")
}

/// The move a success reply carries: everything after the marker,
/// trimmed.  Any other line is a protocol error.
pub fn parse_move_response(line: &str) -> (r: Result<String, KatagoError>)
    ensures
        is_prefix_of("="@, line@) ==> (r matches Ok(m) && m@ == trimmed(line@.skip(1))),
        !is_prefix_of("="@, line@) ==> (r matches Err(e) && (e matches KatagoError::ParseError(d)
            && d@ == "Invalid move response"@)),
{
    if starts_with_str(line, "=") {
        proof {
            reveal_strlit("=");
        }
        let n = line.unicode_len();
        let rest = line.substring_char(1, n);
        proof {
            assert(rest@ =~= line@.skip(1));
        }
        Result::Ok(trim_str(rest))
    } else {
        Result::Err(KatagoError::ParseError("Invalid move response".to_owned()))
    }
}

/// How one line of a running analysis is treated while collecting.
pub enum AnalysisLineClass {
    /// The bare acknowledgement of the analysis command: skipped.
    Acknowledgement,
    /// An analysis data line: collected.
    Collect,
    /// The ownership line: collected, and the collection is complete.
    CollectLast,
    /// Anything else: ignored.
    Other,
}

/// Classifies one line of a running analysis.
pub fn classify_analysis_line(line: &str) -> (c: AnalysisLineClass)
    ensures
        is_prefix_of("="@, line@) ==> c is Acknowledgement,
        (!is_prefix_of("="@, line@) && is_prefix_of("ownership "@, line@)) ==> c is CollectLast,
        (!is_prefix_of("="@, line@) && !is_prefix_of("ownership "@, line@) && (is_prefix_of(
            "info "@,
            line@,
        ) || is_prefix_of("rootInfo "@, line@) || is_prefix_of("ownershipStdev "@, line@)))
            ==> c is Collect,
        (!is_prefix_of("="@, line@) && !is_prefix_of("ownership "@, line@) && !is_prefix_of(
            "info "@,
            line@,
        ) && !is_prefix_of("rootInfo "@, line@) && !is_prefix_of("ownershipStdev "@, line@)) ==> c
            is Other,
{
    if starts_with_str(line, "=") {
        AnalysisLineClass::Acknowledgement
    } else if starts_with_str(line, "ownership ") {
        AnalysisLineClass::CollectLast
    } else if starts_with_str(line, "info ") || starts_with_str(line, "rootInfo ")
        || starts_with_str(line, "ownershipStdev ") {
        AnalysisLineClass::Collect
    } else {
        AnalysisLineClass::Other
    }
}

/// The collected lines joined by newlines.
pub open spec fn joined_lines(ls: Seq<Seq<char>>) -> Seq<char>
    decreases ls.len(),
{
    if ls.len() == 0 {
        Seq::empty()
    } else if ls.len() == 1 {
        ls[0]
    } else {
        joined_lines(ls.drop_last()) + seq!['\n'] + ls.last()
    }
}

/// Joins the collected lines with newlines.
pub fn join_lines(v: &Vec<String>) -> (r: String)
    ensures
        r@ == joined_lines(strs_view(v@)),
{
    let ghost ls = strs_view(v@);
    let n = v.len();
    let mut out: Vec<char> = Vec::new();
    let mut i: usize = 0;
    while i < n
        invariant
            n == v@.len(),
            i <= n,
            ls == strs_view(v@),
            out@ =~= joined_lines(ls.take(i as int)),
        decreases n - i,
    {
        if i > 0 {
            out.push('\n');
        }
        append_str(&mut out, v[i].as_str());
        proof {
            assert(ls.take(i + 1 as int).drop_last() =~= ls.take(i as int));
            assert(ls.take(i + 1 as int).last() == ls[i as int]);
            assert(out@ =~= joined_lines(ls.take(i + 1 as int)));
        }
        i = i + 1;
    }
    proof {
        assert(ls.take(n as int) =~= ls);
    }
    string_from_chars(&out)
}

/// The length of the prefix before the first newline.
pub open spec fn nl_run(s: Seq<char>) -> nat
    decreases s.len(),
{
    if s.len() == 0 || s[0] == '\n' {
        0
    } else {
        1 + nl_run(s.drop_first())
    }
}

proof fn lemma_nl_run_le(s: Seq<char>)
    ensures
        nl_run(s) <= s.len(),
    decreases s.len(),
{
    if s.len() > 0 && s[0] != '\n' {
        lemma_nl_run_le(s.drop_first());
    }
}

proof fn lemma_nl_run_is(s: Seq<char>, r: int)
    requires
        0 <= r <= s.len(),
        forall|j: int| 0 <= j < r ==> #[trigger] s[j] != '\n',
        r < s.len() ==> s[r] == '\n',
    ensures
        nl_run(s) == r,
    decreases s.len(),
{
    if s.len() == 0 {
    } else if s[0] == '\n' {
        assert(r == 0);
    } else {
        assert(r >= 1);
        let t = s.drop_first();
        assert(forall|j: int| 0 <= j < r - 1 ==> #[trigger] t[j] != '\n');
        lemma_nl_run_is(t, r - 1);
    }
}

/// The newline-separated segments of a response.
pub open spec fn nl_split(s: Seq<char>) -> Seq<Seq<char>>
    decreases s.len(),
    via nl_split_dec
{
    if nl_run(s) == s.len() {
        seq![s]
    } else {
        seq![s.take(nl_run(s) as int)] + nl_split(s.skip(nl_run(s) + 1 as int))
    }
}

#[via_fn]
proof fn nl_split_dec(s: Seq<char>) {
    lemma_nl_run_le(s);
}

/// Splits a response into its newline-separated segments.
pub fn split_nl(s: &str) -> (r: Vec<String>)
    ensures
        r@.len() == nl_split(s@).len(),
        forall|i: int| 0 <= i < r@.len() ==> (#[trigger] r@[i])@ == nl_split(s@)[i],
    decreases s@.len(),
{
    let n = s.unicode_len();
    let mut rl: usize = 0;
    while rl < n && s.get_char(rl) != '\n'
        invariant
            n == s@.len(),
            rl <= n,
            forall|j: int| 0 <= j < rl ==> #[trigger] s@[j] != '\n',
        decreases n - rl,
    {
        rl = rl + 1;
    }
    proof {
        lemma_nl_run_is(s@, rl as int);
    }
    if rl == n {
        let mut out: Vec<String> = Vec::new();
        out.push(s.to_owned());
        return out;
    }
    let head = s.substring_char(0, rl).to_owned();
    let rest = s.substring_char(rl + 1, n);
    proof {
        assert(head@ =~= s@.take(nl_run(s@) as int));
        assert(rest@ =~= s@.skip(nl_run(s@) + 1 as int));
    }
    let rest_segs = split_nl(rest);
    let mut out: Vec<String> = Vec::new();
    out.push(head);
    let m = rest_segs.len();
    let mut j: usize = 0;
    while j < m
        invariant
            m == rest_segs@.len(),
            j <= m,
            out@.len() == 1 + j,
            out@[0]@ == nl_split(s@)[0],
            nl_split(s@).len() == 1 + m,
            forall|k: int| 0 <= k < m ==> (#[trigger] rest_segs@[k])@ == nl_split(s@)[k + 1],
            forall|k: int| 1 <= k < 1 + j ==> (#[trigger] out@[k])@ == nl_split(s@)[k],
        decreases m - j,
    {
        out.push(rest_segs[j].clone());
        j = j + 1;
    }
    out
}

/// The first trimmed segment carrying ownership data.
pub open spec fn find_ownership(ls: Seq<Seq<char>>) -> Option<Seq<char>>
    decreases ls.len(),
{
    if ls.len() == 0 {
        Option::None
    } else if is_prefix_of("ownership "@, trimmed(ls[0])) {
        Option::Some(trimmed(ls[0]))
    } else {
        find_ownership(ls.drop_first())
    }
}

/// The longest prefix of fields that are all plain decimal numbers.
pub open spec fn decimal_prefix(ts: Seq<Seq<char>>) -> Seq<Seq<char>>
    decreases ts.len(),
{
    if ts.len() > 0 && is_decimal(ts[0]) {
        seq![ts[0]] + decimal_prefix(ts.drop_first())
    } else {
        Seq::empty()
    }
}

proof fn lemma_decimal_prefix_is(ts: Seq<Seq<char>>, d: int)
    requires
        0 <= d <= ts.len(),
        forall|k: int| 0 <= k < d ==> is_decimal(#[trigger] ts[k]),
        d < ts.len() ==> !is_decimal(ts[d]),
    ensures
        decimal_prefix(ts) == ts.take(d),
    decreases ts.len(),
{
    if ts.len() == 0 {
        assert(ts.take(0) =~= ts);
    } else if d == 0 {
        assert(ts.take(0) =~= Seq::<Seq<char>>::empty());
    } else {
        let t = ts.drop_first();
        assert(forall|k: int| 0 <= k < d - 1 ==> is_decimal(#[trigger] t[k]));
        lemma_decimal_prefix_is(t, d - 1);
        assert(seq![ts[0]] + t.take(d - 1) =~= ts.take(d));
    }
}

/// The ownership values of an analysis response: the decimal fields of
/// the first ownership segment, up to the first field that is not one.
pub open spec fn spec_ownership_values(s: Seq<char>) -> Seq<Seq<char>> {
    match find_ownership(nl_split(s)) {
        Option::Some(l) => decimal_prefix(tokens(l.skip(10))),
        Option::None => Seq::empty(),
    }
}

/// Extracts the ownership values from an analysis response, as the
/// decimal text fields the engine printed.
pub fn ownership_values(response: &str) -> (r: Vec<String>)
    ensures
        strs_view(r@) == spec_ownership_values(response@),
{
    let segs = split_nl(response);
    let ghost lsv = nl_split(response@);
    proof {
        assert(lsv.skip(0) =~= lsv);
    }
    let n = segs.len();
    let mut i: usize = 0;
    while i < n
        invariant
            n == segs@.len(),
            n == lsv.len(),
            lsv == nl_split(response@),
            forall|k: int| 0 <= k < n ==> (#[trigger] segs@[k])@ == lsv[k],
            i <= n,
            find_ownership(lsv.skip(i as int)) == find_ownership(lsv),
        decreases n - i,
    {
        proof {
            assert(lsv.skip(i as int).drop_first() =~= lsv.skip(i + 1 as int));
            assert(lsv.skip(i as int)[0] == lsv[i as int]);
        }
        let t = trim_str(segs[i].as_str());
        if starts_with_str(t.as_str(), "ownership ") {
            proof {
                reveal_strlit("ownership ");
            }
            let tn = t.as_str().unicode_len();
            let suffix = t.as_str().substring_char(10, tn);
            proof {
                assert(suffix@ =~= t@.skip(10));
            }
            let toks = split_tokens(suffix);
            let ghost tkv = tokens(suffix@);
            let m = toks.len();
            let mut d: usize = 0;
            while d < m && crate::gtp::decimal_field(toks[d].as_str())
                invariant
                    m == toks@.len(),
                    m == tkv.len(),
                    tkv == tokens(suffix@),
                    forall|k: int| 0 <= k < m ==> (#[trigger] toks@[k])@ == tkv[k],
                    d <= m,
                    forall|k: int| 0 <= k < d ==> is_decimal(#[trigger] tkv[k]),
                decreases m - d,
            {
                d = d + 1;
            }
            proof {
                lemma_decimal_prefix_is(tkv, d as int);
            }
            let mut out: Vec<String> = Vec::new();
            let mut j: usize = 0;
            while j < d
                invariant
                    d <= m,
                    m == toks@.len(),
                    m == tkv.len(),
                    forall|k: int| 0 <= k < m ==> (#[trigger] toks@[k])@ == tkv[k],
                    j <= d,
                    out@.len() == j,
                    forall|k: int| 0 <= k < j ==> (#[trigger] out@[k])@ == tkv[k],
                decreases d - j,
            {
                out.push(toks[j].clone());
                j = j + 1;
            }
            proof {
                assert(strs_view(out@) =~= tkv.take(d as int));
            }
            return out;
        }
        i = i + 1;
    }
    proof {
        assert(lsv.skip(n as int).len() == 0);
    }
    Vec::new()
}

} // verus!
