//! Byte-level text model: lines, whitespace tokens, and numeric tokens.
//!
//! The file format is line oriented: a line runs up to and including the
//! first newline byte, or to the end of the stream.  Within a line, tokens
//! are maximal runs of non-whitespace bytes.  The spec functions here are
//! the reference model; each executable function is proved to agree with
//! them.

use vstd::prelude::*;

verus! {

/// Whitespace, as a token separator: space, tab, line feed, vertical tab,
/// form feed, carriage return.
pub open spec fn is_space(b: u8) -> bool {
    b == 32 || b == 9 || b == 10 || b == 11 || b == 12 || b == 13
}

/// The index just past the line that starts at `from`: one past the first
/// newline byte at or after `from`, or the end of the stream.
pub open spec fn line_end(s: Seq<u8>, from: int) -> int
    decreases s.len() - from,
{
    if from < 0 || from >= s.len() {
        s.len() as int
    } else if s[from] == 10 {
        from + 1
    } else {
        line_end(s, from + 1)
    }
}

/// The length of the run of non-whitespace bytes at the front of `s`.
pub open spec fn token_len(s: Seq<u8>) -> int
    decreases s.len(),
{
    if s.len() == 0 || is_space(s[0]) {
        0
    } else {
        1 + token_len(s.drop_first())
    }
}

/// The run at the front of `s` is never longer than `s` itself.
pub proof fn lemma_token_len_bounds(s: Seq<u8>)
    ensures
        0 <= token_len(s) <= s.len(),
    decreases s.len(),
{
    if s.len() > 0 && !is_space(s[0]) {
        lemma_token_len_bounds(s.drop_first());
    }
}

/// The whitespace-separated tokens of `s`, in order.
pub open spec fn tokenize(s: Seq<u8>) -> Seq<Seq<u8>>
    decreases s.len(),
    via tokenize_decreases
{
    if s.len() == 0 {
        Seq::empty()
    } else if is_space(s[0]) {
        tokenize(s.drop_first())
    } else {
        seq![s.take(token_len(s))] + tokenize(s.skip(token_len(s)))
    }
}

#[via_fn]
proof fn tokenize_decreases(s: Seq<u8>) {
    lemma_token_len_bounds(s);
    if s.len() > 0 && !is_space(s[0]) {
        lemma_token_len_bounds(s.drop_first());
        assert(token_len(s) == 1 + token_len(s.drop_first()));
    }
}

/// `s` begins with `p`.
pub open spec fn starts_with(s: Seq<u8>, p: Seq<u8>) -> bool {
    p.len() <= s.len() && s.take(p.len() as int) == p
}

/// `token_len` is the position of the first separator, scanned directly.
pub proof fn lemma_token_len_is(s: Seq<u8>, k: int)
    requires
        0 <= k <= s.len(),
        forall|i: int| 0 <= i < k ==> !is_space(#[trigger] s[i]),
        k == s.len() || is_space(s[k]),
    ensures
        token_len(s) == k,
    decreases k,
{
    if k == 0 {
    } else {
        assert(!is_space(s[0]));
        lemma_token_len_is(s.drop_first(), k - 1);
    }
}

pub fn byte_is_space(b: u8) -> (r: bool)
    ensures
        r == is_space(b),
{
    b == 32 || b == 9 || b == 10 || b == 11 || b == 12 || b == 13
}

/// Where the line that starts at `from` ends.
pub fn find_line_end(s: &[u8], from: usize) -> (end: usize)
    requires
        from <= s@.len(),
    ensures
        end == line_end(s@, from as int),
        from <= end <= s@.len(),
{
    let mut i = from;
    loop
        invariant
            from <= i <= s@.len(),
            line_end(s@, from as int) == line_end(s@, i as int),
        decreases s@.len() - i,
    {
        if i >= s.len() {
            return i;
        }
        if s[i] == 10 {
            return i + 1;
        }
        i = i + 1;
    }
}

/// The tokens of `s[from..to]`, each copied out.
pub fn tokens_of(s: &[u8], from: usize, to: usize) -> (r: Vec<Vec<u8>>)
    requires
        from <= to <= s@.len(),
    ensures
        r.deep_view() == tokenize(s@.subrange(from as int, to as int)),
{
    let ghost whole = s@.subrange(from as int, to as int);
    let mut r: Vec<Vec<u8>> = Vec::new();
    let mut i = from;
    while i < to
        invariant
            from <= i <= to <= s@.len(),
            tokenize(whole) == r.deep_view() + tokenize(s@.subrange(i as int, to as int)),
            whole == s@.subrange(from as int, to as int),
        decreases to - i,
    {
        if byte_is_space(s[i]) {
            proof {
                let cur = s@.subrange(i as int, to as int);
                assert(cur.drop_first() =~= s@.subrange(i + 1, to as int));
            }
            i = i + 1;
        } else {
            let start = i;
            let mut tok: Vec<u8> = Vec::new();
            while i < to && !byte_is_space(s[i])
                invariant
                    from <= start <= i <= to <= s@.len(),
                    tok@ == s@.subrange(start as int, i as int),
                    forall|j: int| start <= j < i ==> !is_space(#[trigger] s@[j]),
                decreases to - i,
            {
                tok.push(s[i]);
                proof {
                    assert(tok@ =~= s@.subrange(start as int, i + 1));
                }
                i = i + 1;
            }
            proof {
                let cur = s@.subrange(start as int, to as int);
                assert(forall|j: int|
                    0 <= j < i - start ==> !is_space(#[trigger] cur[j]));
                assert(i - start == cur.len() || is_space(cur[i - start]));
                lemma_token_len_is(cur, i - start);
                assert(cur.take(i - start) =~= s@.subrange(start as int, i as int));
                assert(cur.skip(i - start) =~= s@.subrange(i as int, to as int));
                assert(tokenize(cur) == seq![tok@] + tokenize(
                    s@.subrange(i as int, to as int),
                ));
            }
            let ghost prev = r.deep_view();
            let ghost prev_v = r@;
            r.push(tok);
            proof {
                assert(forall|k: int| 0 <= k < prev_v.len() ==> r@[k] == prev_v[k]);
                assert(r.deep_view() =~~= prev + seq![tok@]);
                assert(prev + (seq![tok@] + tokenize(s@.subrange(i as int, to as int))) =~= (prev
                    + seq![tok@]) + tokenize(s@.subrange(i as int, to as int)));
            }
        }
    }
    proof {
        assert(s@.subrange(i as int, to as int) =~= Seq::<u8>::empty());
        assert(r.deep_view() + tokenize(s@.subrange(i as int, to as int)) =~= r.deep_view());
    }
    r
}

/// Whether `s[from..to]` begins with `p`.
pub fn range_starts_with(s: &[u8], from: usize, to: usize, p: &Vec<u8>) -> (r: bool)
    requires
        from <= to <= s@.len(),
    ensures
        r == starts_with(s@.subrange(from as int, to as int), p@),
{
    if to - from < p.len() {
        return false;
    }
    let mut j: usize = 0;
    while j < p.len()
        invariant
            0 <= j <= p.len(),
            p.len() <= to - from,
            from <= to <= s@.len(),
            forall|k: int| 0 <= k < j ==> s@[from + k] == p@[k],
        decreases p.len() - j,
    {
        if s[from + j] != p[j] {
            assert(s@.subrange(from as int, to as int)[j as int] != p@[j as int]);
            return false;
        }
        j = j + 1;
    }
    proof {
        assert(s@.subrange(from as int, to as int).take(p.len() as int) =~= p@);
    }
    true
}

/// An ASCII decimal digit.
pub open spec fn is_digit(b: u8) -> bool {
    48 <= b && b <= 57
}

/// Every byte of `s` is a decimal digit.
pub open spec fn all_digits(s: Seq<u8>) -> bool {
    forall|i: int| 0 <= i < s.len() ==> is_digit(#[trigger] s[i])
}

/// The value of a digit string, most significant digit first.
pub open spec fn digits_value(s: Seq<u8>) -> int
    decreases s.len(),
{
    if s.len() == 0 {
        0
    } else {
        digits_value(s.drop_last()) * 10 + (s.last() - 48)
    }
}

/// The digits of an unsigned decimal token: the token with one leading
/// `+` sign stripped, as the standard integer parsers accept.
pub open spec fn uint_body(s: Seq<u8>) -> Seq<u8> {
    if s.len() > 0 && s[0] == 43 {
        s.drop_first()
    } else {
        s
    }
}

/// A well-formed unsigned decimal token: an optional `+` sign followed by
/// one or more digits.
pub open spec fn is_uint_token(s: Seq<u8>) -> bool {
    uint_body(s).len() > 0 && all_digits(uint_body(s))
}

/// The numeric value of an unsigned decimal token.
pub open spec fn uint_value(s: Seq<u8>) -> int {
    digits_value(uint_body(s))
}

pub proof fn lemma_digits_value_nonneg(s: Seq<u8>)
    requires
        all_digits(s),
    ensures
        digits_value(s) >= 0,
    decreases s.len(),
{
    if s.len() > 0 {
        assert(all_digits(s.drop_last()));
        lemma_digits_value_nonneg(s.drop_last());
    }
}

/// Extending a digit string by one digit multiplies its value by ten and
/// adds that digit.
pub proof fn lemma_digits_value_take_succ(s: Seq<u8>, j: int)
    requires
        0 <= j < s.len(),
    ensures
        digits_value(s.take(j + 1)) == digits_value(s.take(j)) * 10 + (s[j] - 48),
{
    assert(s.take(j + 1).drop_last() =~= s.take(j));
    assert(s.take(j + 1).last() == s[j]);
}

/// A digit string is worth at least any of its prefixes.
pub proof fn lemma_digits_value_prefix_le(s: Seq<u8>, j: int)
    requires
        all_digits(s),
        0 <= j <= s.len(),
    ensures
        digits_value(s.take(j)) <= digits_value(s),
    decreases s.len() - j,
{
    if j == s.len() {
        assert(s.take(j) =~= s);
    } else {
        assert(all_digits(s.take(j)));
        lemma_digits_value_nonneg(s.take(j));
        lemma_digits_value_take_succ(s, j);
        lemma_digits_value_prefix_le(s, j + 1);
    }
}

/// Parses an unsigned decimal token into a 64-bit value.  Yields the
/// token's value exactly when the token is well formed and the value fits;
/// overflow is never silently wrapped.
pub fn parse_u64(t: &Vec<u8>) -> (r: Option<u64>)
    ensures
        match r {
            Some(v) => is_uint_token(t@) && v == uint_value(t@),
            None => !(is_uint_token(t@) && uint_value(t@) <= u64::MAX),
        },
{
    let start: usize = if t.len() > 0 && t[0] == 43 {
        1
    } else {
        0
    };
    let ghost body = uint_body(t@);
    proof {
        assert(body =~= t@.subrange(start as int, t@.len() as int));
    }
    if t.len() == start {
        return None;
    }
    let mut acc: u64 = 0;
    let mut i = start;
    while i < t.len()
        invariant
            start <= i <= t@.len(),
            start <= 1,
            body == uint_body(t@),
            body == t@.subrange(start as int, t@.len() as int),
            body.len() == t@.len() - start > 0,
            all_digits(body.take(i - start)),
            acc == digits_value(body.take(i - start)),
        decreases t@.len() - i,
    {
        let b = t[i];
        if b < 48 || b > 57 {
            proof {
                assert(body[i - start] == t@[i as int]);
                assert(!is_digit(body[i - start]));
                assert(!all_digits(body));
            }
            return None;
        }
        let d = (b - 48) as u64;
        proof {
            lemma_digits_value_take_succ(body, i - start);
        }
        if acc > (u64::MAX - d) / 10 {
            proof {
                let q = (u64::MAX - d) as int / 10;
                vstd::arithmetic::div_mod::lemma_fundamental_div_mod((u64::MAX - d) as int, 10);
                assert(acc >= q + 1);
                assert(acc * 10 >= (q + 1) * 10) by (nonlinear_arith)
                    requires
                        acc >= q + 1,
                ;
                assert(acc * 10 + d > u64::MAX);
                assert(digits_value(body.take(i - start + 1)) > u64::MAX);
                if all_digits(body) {
                    lemma_digits_value_prefix_le(body, i - start + 1);
                    assert(uint_value(t@) > u64::MAX);
                }
            }
            return None;
        }
        acc = acc * 10 + d;
        i = i + 1;
    }
    proof {
        assert(body.take(i - start) =~= body);
    }
    Some(acc)
}

/// Parses an unsigned decimal token into a `usize`.
pub fn parse_usize(t: &Vec<u8>) -> (r: Option<usize>)
    ensures
        match r {
            Some(v) => is_uint_token(t@) && v == uint_value(t@),
            None => !(is_uint_token(t@) && uint_value(t@) <= usize::MAX),
        },
{
    match parse_u64(t) {
        Some(v) => {
            if v <= usize::MAX as u64 {
                Some(v as usize)
            } else {
                None
            }
        },
        None => {
            proof {
                if is_uint_token(t@) && uint_value(t@) <= usize::MAX {
                    assert(uint_value(t@) <= u64::MAX);
                }
            }
            None
        },
    }
}

/// Parses an unsigned decimal token into a `u32`.
pub fn parse_u32(t: &Vec<u8>) -> (r: Option<u32>)
    ensures
        match r {
            Some(v) => is_uint_token(t@) && v == uint_value(t@),
            None => !(is_uint_token(t@) && uint_value(t@) <= u32::MAX),
        },
{
    match parse_u64(t) {
        Some(v) => {
            if v <= u32::MAX as u64 {
                Some(v as u32)
            } else {
                None
            }
        },
        None => None,
    }
}

/// Parses an unsigned decimal token into a `u8`.
pub fn parse_u8_value(t: &Vec<u8>) -> (r: Option<u8>)
    ensures
        match r {
            Some(v) => is_uint_token(t@) && v == uint_value(t@),
            None => !(is_uint_token(t@) && uint_value(t@) <= u8::MAX),
        },
{
    match parse_u64(t) {
        Some(v) => {
            if v <= u8::MAX as u64 {
                Some(v as u8)
            } else {
                None
            }
        },
        None => None,
    }
}

/// The decimal digits of `n`, most significant first.
pub open spec fn dec_digits(n: nat) -> Seq<u8>
    decreases n,
{
    if n < 10 {
        seq![(48 + n) as u8]
    } else {
        dec_digits(n / 10).push((48 + n % 10) as u8)
    }
}

/// Rendering a number to digits and reading the digits back is the
/// identity.
pub proof fn lemma_dec_digits(n: nat)
    ensures
        dec_digits(n).len() >= 1,
        all_digits(dec_digits(n)),
        digits_value(dec_digits(n)) == n,
    decreases n,
{
    if n < 10 {
        let s = seq![(48 + n) as u8];
        assert(s.drop_last() =~= Seq::<u8>::empty());
        assert(digits_value(Seq::<u8>::empty()) == 0);
        assert(s.last() == (48 + n) as u8);
        assert(digits_value(s) == n);
    } else {
        lemma_dec_digits(n / 10);
        let s = dec_digits(n / 10);
        let d = (48 + n % 10) as u8;
        assert(s.push(d).drop_last() =~= s);
        assert(s.push(d).last() == d);
        vstd::arithmetic::div_mod::lemma_fundamental_div_mod(n as int, 10);
        assert(digits_value(s.push(d)) == n);
        assert(forall|i: int|
            0 <= i < s.push(d).len() ==> is_digit(#[trigger] s.push(d)[i])) by {
            assert(forall|i: int| 0 <= i < s.len() ==> s.push(d)[i] == s[i]);
        }
    }
}

/// The index of the first occurrence of `b` in `s`, or `s.len()`.
pub open spec fn find_byte(s: Seq<u8>, b: u8) -> int
    decreases s.len(),
{
    if s.len() == 0 {
        0
    } else if s[0] == b {
        0
    } else {
        1 + find_byte(s.drop_first(), b)
    }
}

/// The index of the first exponent marker (`e` or `E`) in `s`, or `s.len()`.
pub open spec fn find_exp(s: Seq<u8>) -> int
    decreases s.len(),
{
    if s.len() == 0 {
        0
    } else if s[0] == 101 || s[0] == 69 {
        0
    } else {
        1 + find_exp(s.drop_first())
    }
}

pub proof fn lemma_find_byte_is(s: Seq<u8>, b: u8, k: int)
    requires
        0 <= k <= s.len(),
        forall|i: int| 0 <= i < k ==> s[i] != b,
        k == s.len() || s[k] == b,
    ensures
        find_byte(s, b) == k,
    decreases k,
{
    if k > 0 {
        lemma_find_byte_is(s.drop_first(), b, k - 1);
    }
}

pub proof fn lemma_find_exp_is(s: Seq<u8>, k: int)
    requires
        0 <= k <= s.len(),
        forall|i: int| 0 <= i < k ==> #[trigger] s[i] != 101 && s[i] != 69,
        k == s.len() || s[k] == 101 || s[k] == 69,
    ensures
        find_exp(s) == k,
    decreases k,
{
    if k > 0 {
        lemma_find_exp_is(s.drop_first(), k - 1);
    }
}

/// A lower-case letter for an ASCII upper-case letter; other bytes kept.
pub open spec fn ascii_lower(b: u8) -> u8 {
    if 65 <= b && b <= 90 {
        (b + 32) as u8
    } else {
        b
    }
}

/// `s` mapped to ASCII lower case.
pub open spec fn lower_seq(s: Seq<u8>) -> Seq<u8> {
    s.map_values(|b: u8| ascii_lower(b))
}

/// `s` with one leading sign byte (`+` or `-`) stripped.
pub open spec fn strip_sign(s: Seq<u8>) -> Seq<u8> {
    if s.len() > 0 && (s[0] == 43 || s[0] == 45) {
        s.drop_first()
    } else {
        s
    }
}

/// The named non-finite values the standard real parser accepts:
/// `inf`, `infinity` and `nan`, in any letter case.
pub open spec fn is_special_real(s: Seq<u8>) -> bool {
    lower_seq(s) == seq![105u8, 110, 102] || lower_seq(s) == seq![
        105u8,
        110,
        102,
        105,
        110,
        105,
        116,
        121,
    ] || lower_seq(s) == seq![110u8, 97, 110]
}

/// A mantissa: digits with at most one interior point and at least one
/// digit.  When a point is present every remaining byte is a digit, so at
/// least one digit means at least two bytes.
pub open spec fn is_mantissa(s: Seq<u8>) -> bool {
    let d = find_byte(s, 46);
    if d == s.len() {
        s.len() > 0 && all_digits(s)
    } else {
        all_digits(s.take(d)) && all_digits(s.skip(d + 1)) && s.len() > 1
    }
}

/// An exponent: an optional sign followed by one or more digits.
pub open spec fn is_exponent(s: Seq<u8>) -> bool {
    strip_sign(s).len() > 0 && all_digits(strip_sign(s))
}

/// A token the standard real-number parser accepts: an optional sign, then
/// a named non-finite value, or a mantissa with an optional exponent.
pub open spec fn is_real_token(s: Seq<u8>) -> bool {
    let b = strip_sign(s);
    is_special_real(b) || {
        let e = find_exp(b);
        if e == b.len() {
            is_mantissa(b)
        } else {
            is_mantissa(b.take(e)) && is_exponent(b.skip(e + 1))
        }
    }
}

/// Whether `t[from..]`, lowered to ASCII lower case, equals `pat`.
fn eq_lower_from(t: &Vec<u8>, from: usize, pat: &Vec<u8>) -> (r: bool)
    requires
        from <= t@.len(),
    ensures
        r == (lower_seq(t@.skip(from as int)) == pat@),
{
    let ghost sub = t@.skip(from as int);
    if t.len() - from != pat.len() {
        assert(lower_seq(sub).len() != pat@.len());
        return false;
    }
    let mut j: usize = from;
    while j < t.len()
        invariant
            from <= j <= t@.len(),
            from + pat.len() == t@.len(),
            sub == t@.skip(from as int),
            forall|k: int| 0 <= k < j - from ==> ascii_lower(sub[k]) == pat@[k],
        decreases t@.len() - j,
    {
        let b = t[j];
        let low: u8 = if b >= 65 && b <= 90 {
            b + 32
        } else {
            b
        };
        proof {
            assert(sub[j - from] == t@[j as int]);
            assert(low == ascii_lower(sub[j - from]));
        }
        if low != pat[j - from] {
            assert(lower_seq(sub)[j - from] != pat@[j - from]);
            return false;
        }
        j = j + 1;
    }
    proof {
        assert(lower_seq(sub) =~= pat@);
    }
    true
}

/// Whether every byte of `t[from..to]` is a decimal digit.
fn digits_in_range(t: &Vec<u8>, from: usize, to: usize) -> (r: bool)
    requires
        from <= to <= t@.len(),
    ensures
        r == all_digits(t@.subrange(from as int, to as int)),
{
    let mut j = from;
    while j < to
        invariant
            from <= j <= to <= t@.len(),
            forall|k: int| from <= k < j ==> is_digit(#[trigger] t@[k]),
        decreases to - j,
    {
        let b = t[j];
        if b < 48 || b > 57 {
            assert(t@.subrange(from as int, to as int)[j - from] == t@[j as int]);
            return false;
        }
        j = j + 1;
    }
    proof {
        assert(forall|k: int|
            0 <= k < to - from ==> is_digit(
                #[trigger] t@.subrange(from as int, to as int)[k],
            ));
    }
    true
}

/// Whether `t[from..to]` is a mantissa.
fn mantissa_in_range(t: &Vec<u8>, from: usize, to: usize) -> (r: bool)
    requires
        from <= to <= t@.len(),
    ensures
        r == is_mantissa(t@.subrange(from as int, to as int)),
{
    let ghost sub = t@.subrange(from as int, to as int);
    let mut di = from;
    while di < to && t[di] != 46
        invariant
            from <= di <= to <= t@.len(),
            sub == t@.subrange(from as int, to as int),
            forall|k: int| from <= k < di ==> t@[k] != 46,
        decreases to - di,
    {
        di = di + 1;
    }
    proof {
        assert(forall|k: int| 0 <= k < di - from ==> #[trigger] sub[k] != 46);
        lemma_find_byte_is(sub, 46, di - from);
    }
    if di == to {
        let nonempty = to > from;
        let dig = digits_in_range(t, from, to);
        proof {
            assert(sub.len() == to - from);
        }
        nonempty && dig
    } else {
        proof {
            assert(sub.take(di - from) =~= t@.subrange(from as int, di as int));
            assert(sub.skip(di - from + 1) =~= t@.subrange(di + 1, to as int));
        }
        let head = digits_in_range(t, from, di);
        let tail = digits_in_range(t, di + 1, to);
        head && tail && to - from > 1
    }
}

/// Whether `t[from..to]` is an exponent.
fn exponent_in_range(t: &Vec<u8>, from: usize, to: usize) -> (r: bool)
    requires
        from <= to <= t@.len(),
    ensures
        r == is_exponent(t@.subrange(from as int, to as int)),
{
    let ghost sub = t@.subrange(from as int, to as int);
    let st: usize = if to > from && (t[from] == 43 || t[from] == 45) {
        from + 1
    } else {
        from
    };
    proof {
        assert(strip_sign(sub) =~= t@.subrange(st as int, to as int));
    }
    let dig = digits_in_range(t, st, to);
    to > st && dig
}

/// Whether the whole token `t` is a real-number token: what the standard
/// library's real parser accepts, so a caller converting the stored token
/// is certain to succeed.
pub fn check_real_token(t: &Vec<u8>) -> (r: bool)
    ensures
        r == is_real_token(t@),
{
    let st: usize = if t.len() > 0 && (t[0] == 43 || t[0] == 45) {
        1
    } else {
        0
    };
    let ghost b = strip_sign(t@);
    proof {
        assert(b =~= t@.subrange(st as int, t@.len() as int));
        assert(b =~= t@.skip(st as int));
    }
    let inf_pat: Vec<u8> = vec![105u8, 110, 102];
    let infinity_pat: Vec<u8> = vec![105u8, 110, 102, 105, 110, 105, 116, 121];
    let nan_pat: Vec<u8> = vec![110u8, 97, 110];
    if eq_lower_from(t, st, &inf_pat) || eq_lower_from(t, st, &infinity_pat) || eq_lower_from(
        t,
        st,
        &nan_pat,
    ) {
        proof {
            assert(is_special_real(b));
        }
        return true;
    }
    let mut ei = st;
    while ei < t.len() && t[ei] != 101 && t[ei] != 69
        invariant
            st <= ei <= t@.len(),
            forall|k: int| st <= k < ei ==> #[trigger] t@[k] != 101 && t@[k] != 69,
        decreases t@.len() - ei,
    {
        ei = ei + 1;
    }
    proof {
        assert(forall|k: int| 0 <= k < ei - st ==> #[trigger] b[k] != 101 && b[k] != 69);
        lemma_find_exp_is(b, ei - st);
    }
    if ei == t.len() {
        proof {
            assert(b.len() == t@.len() - st);
        }
        let m = mantissa_in_range(t, st, ei);
        proof {
            assert(t@.subrange(st as int, ei as int) == b);
        }
        m
    } else {
        proof {
            assert(b.take(ei - st) =~= t@.subrange(st as int, ei as int));
            assert(b.skip(ei - st + 1) =~= t@.subrange(ei + 1, t@.len() as int));
        }
        let m = mantissa_in_range(t, st, ei);
        let e = exponent_in_range(t, ei + 1, t.len());
        m && e
    }
}

/// An upper-case letter for an ASCII lower-case letter; other bytes kept.
pub open spec fn ascii_upper(b: u8) -> u8 {
    if 97 <= b && b <= 122 {
        (b - 32) as u8
    } else {
        b
    }
}

/// `s` mapped to ASCII upper case.
pub open spec fn upper_seq(s: Seq<u8>) -> Seq<u8> {
    s.map_values(|b: u8| ascii_upper(b))
}

/// A copy of `t` mapped to ASCII upper case.
pub fn to_upper(t: &Vec<u8>) -> (r: Vec<u8>)
    ensures
        r@ == upper_seq(t@),
{
    let mut r: Vec<u8> = Vec::new();
    let mut j: usize = 0;
    while j < t.len()
        invariant
            0 <= j <= t@.len(),
            r@.len() == j,
            forall|k: int| 0 <= k < j ==> r@[k] == ascii_upper(t@[k]),
        decreases t@.len() - j,
    {
        let b = t[j];
        if b >= 97 && b <= 122 {
            r.push(b - 32);
        } else {
            r.push(b);
        }
        j = j + 1;
    }
    proof {
        assert(r@ =~= upper_seq(t@));
    }
    r
}

/// A copy of `s[from..to]`.
pub fn copy_range(s: &[u8], from: usize, to: usize) -> (r: Vec<u8>)
    requires
        from <= to <= s@.len(),
    ensures
        r@ == s@.subrange(from as int, to as int),
{
    let mut r: Vec<u8> = Vec::new();
    let mut j = from;
    while j < to
        invariant
            from <= j <= to <= s@.len(),
            r@ == s@.subrange(from as int, j as int),
        decreases to - j,
    {
        r.push(s[j]);
        proof {
            assert(r@ =~= s@.subrange(from as int, j + 1));
        }
        j = j + 1;
    }
    r
}

/// A copy of `t[from..to]`.
pub fn subvec(t: &Vec<u8>, from: usize, to: usize) -> (r: Vec<u8>)
    requires
        from <= to <= t@.len(),
    ensures
        r@ == t@.subrange(from as int, to as int),
{
    let mut r: Vec<u8> = Vec::new();
    let mut j = from;
    while j < to
        invariant
            from <= j <= to <= t@.len(),
            r@ == t@.subrange(from as int, j as int),
        decreases to - j,
    {
        r.push(t[j]);
        proof {
            assert(r@ =~= t@.subrange(from as int, j + 1));
        }
        j = j + 1;
    }
    r
}

/// Whether two byte strings are equal.
pub fn bytes_eq(a: &Vec<u8>, b: &Vec<u8>) -> (r: bool)
    ensures
        r == (a@ == b@),
{
    if a.len() != b.len() {
        return false;
    }
    let mut j: usize = 0;
    while j < a.len()
        invariant
            0 <= j <= a.len(),
            a.len() == b.len(),
            forall|k: int| 0 <= k < j ==> a@[k] == b@[k],
        decreases a.len() - j,
    {
        if a[j] != b[j] {
            return false;
        }
        j = j + 1;
    }
    proof {
        assert(a@ =~= b@);
    }
    true
}

} // verus!
