//! Decimal numbers. Sizes, radii and other lengths are held as whole
//! thousandths, so a resolved model never carries floating-point values.

use vstd::prelude::*;
use crate::text::{chars_of, trim_str, trimmed};

verus! {

/// The largest magnitude accepted, in thousandths.
pub const MAX_MILLI: i64 = 1_000_000_000_000_000;

pub open spec fn is_digit(c: char) -> bool {
    '0' <= c && c <= '9'
}

pub open spec fn digit_value(c: char) -> int {
    c as int - '0' as int
}

pub open spec fn all_digits(s: Seq<char>) -> bool {
    forall|i: int| 0 <= i < s.len() ==> is_digit(#[trigger] s[i])
}

/// The value of a run of decimal digits.
pub open spec fn digits_value(s: Seq<char>) -> int
    decreases s.len(),
{
    if s.len() == 0 {
        0
    } else {
        digits_value(s.drop_last()) * 10 + digit_value(s.last())
    }
}

/// Index of the first `.` in `s`, or `s.len()` when there is none.
pub open spec fn dot_index(s: Seq<char>) -> int
    decreases s.len(),
{
    if s.len() == 0 {
        0
    } else if s[0] == '.' {
        0
    } else {
        1 + dot_index(s.drop_first())
    }
}

/// The `k`-th fraction digit, zero past the end.
pub open spec fn frac_digit(f: Seq<char>, k: int) -> int {
    if k < f.len() {
        digit_value(f[k])
    } else {
        0
    }
}

/// Thousandths contributed by the fraction digits `f`, rounded half up.
pub open spec fn frac_milli(f: Seq<char>) -> int {
    frac_digit(f, 0) * 100 + frac_digit(f, 1) * 10 + frac_digit(f, 2) + if frac_digit(f, 3)
        >= 5 {
        1int
    } else {
        0int
    }
}

/// Digits before the first `.`.
pub open spec fn int_part(body: Seq<char>) -> Seq<char> {
    body.take(dot_index(body))
}

/// Digits after the first `.` (empty when there is no `.`).
pub open spec fn frac_part(body: Seq<char>) -> Seq<char> {
    if dot_index(body) < body.len() {
        body.skip(dot_index(body) + 1)
    } else {
        Seq::empty()
    }
}

/// Magnitude of an unsigned number, in thousandths.
pub open spec fn body_milli(body: Seq<char>) -> int {
    digits_value(shifted_int(body)) * 1000 + frac_milli(shifted_frac(body))
}

pub open spec fn body_is_decimal(body: Seq<char>) -> bool {
    &&& all_digits(int_part(body))
    &&& all_digits(frac_part(body))
    &&& int_part(body).len() + frac_part(body).len() > 0
}

pub open spec fn has_sign(t: Seq<char>) -> bool {
    t.len() > 0 && (t[0] == '-' || t[0] == '+')
}

pub open spec fn unsigned_body(t: Seq<char>) -> Seq<char> {
    if has_sign(t) {
        t.drop_first()
    } else {
        t
    }
}

/// The largest exponent magnitude accepted after `e`.
pub const EXPONENT_LIMIT: u64 = 64;

pub open spec fn is_exp_mark(c: char) -> bool {
    c == 'e' || c == 'E'
}

/// Index of the first `e` or `E` in `s`, or `s.len()` when there is none.
pub open spec fn exp_index(s: Seq<char>) -> int
    decreases s.len(),
{
    if s.len() == 0 {
        0
    } else if is_exp_mark(s[0]) {
        0
    } else {
        1 + exp_index(s.drop_first())
    }
}

pub open spec fn has_exponent(body: Seq<char>) -> bool {
    exp_index(body) < body.len()
}

/// What comes before the exponent mark.
pub open spec fn mantissa(body: Seq<char>) -> Seq<char> {
    body.take(exp_index(body))
}

/// The digits after the exponent mark and its optional sign.
pub open spec fn exponent_digits(body: Seq<char>) -> Seq<char> {
    let e = body.skip(exp_index(body) + 1);
    if has_sign(e) {
        e.drop_first()
    } else {
        e
    }
}

pub open spec fn exponent_negative(body: Seq<char>) -> bool {
    let e = body.skip(exp_index(body) + 1);
    has_sign(e) && e[0] == '-'
}

/// No exponent, or one of at most `EXPONENT_LIMIT` in magnitude.
pub open spec fn exponent_ok(body: Seq<char>) -> bool {
    !has_exponent(body) || (exponent_digits(body).len() > 0 && all_digits(exponent_digits(body))
        && digits_value(exponent_digits(body)) <= EXPONENT_LIMIT)
}

/// By how many places the exponent moves the decimal point to the right.
pub open spec fn exponent_value(body: Seq<char>) -> int {
    if !has_exponent(body) {
        0
    } else if exponent_negative(body) {
        -digits_value(exponent_digits(body))
    } else {
        digits_value(exponent_digits(body))
    }
}

/// An unsigned number: `digits[.digits]` (either digit run may be empty, not
/// both), optionally followed by `e` or `E`, a sign and exponent digits.
pub open spec fn number_body_ok(body: Seq<char>) -> bool {
    body_is_decimal(mantissa(body)) && exponent_ok(body)
}

pub open spec fn zeros(n: int) -> Seq<char> {
    Seq::new(n as nat, |i: int| '0')
}

/// The integer digits of `ip.fp` once its point has moved `e` places to
/// the right (to the left when `e` is negative).
pub open spec fn shift_int(ip: Seq<char>, fp: Seq<char>, e: int) -> Seq<char> {
    let d = ip + fp;
    let p = ip.len() + e;
    if p >= d.len() {
        d + zeros(p - d.len())
    } else if p >= 0 {
        d.take(p)
    } else {
        Seq::empty()
    }
}

/// The fraction digits of `ip.fp` once its point has moved `e` places.
pub open spec fn shift_frac(ip: Seq<char>, fp: Seq<char>, e: int) -> Seq<char> {
    let d = ip + fp;
    let p = ip.len() + e;
    if p >= d.len() {
        Seq::empty()
    } else if p >= 0 {
        d.skip(p)
    } else {
        zeros(-p) + d
    }
}

/// The integer digits of the number's value.
pub open spec fn shifted_int(body: Seq<char>) -> Seq<char> {
    shift_int(int_part(mantissa(body)), frac_part(mantissa(body)), exponent_value(body))
}

/// The fraction digits of the number's value.
pub open spec fn shifted_frac(body: Seq<char>) -> Seq<char> {
    shift_frac(int_part(mantissa(body)), frac_part(mantissa(body)), exponent_value(body))
}

/// A number literal `[+-]digits[.digits][(e|E)[+-]digits]` (as `str::parse`
/// reads a float, but with the exponent bounded by `EXPONENT_LIMIT`), in
/// thousandths rounded half away from zero; `None` when the text is no such
/// literal or its magnitude exceeds `MAX_MILLI`.
pub open spec fn decimal_milli(t: Seq<char>) -> Option<i64> {
    let body = unsigned_body(t);
    if !number_body_ok(body) || body_milli(body) > MAX_MILLI {
        None
    } else if has_sign(t) && t[0] == '-' {
        Some((-body_milli(body)) as i64)
    } else {
        Some(body_milli(body) as i64)
    }
}

/// A number field: the decimal value of the trimmed text.
pub open spec fn number_spec(s: Seq<char>) -> Option<i64> {
    decimal_milli(trimmed(s))
}

pub proof fn lemma_digits_value_nonneg(s: Seq<char>)
    requires
        all_digits(s),
    ensures
        digits_value(s) >= 0,
    decreases s.len(),
{
    if s.len() > 0 {
        lemma_digits_value_nonneg(s.drop_last());
    }
}

pub proof fn lemma_dot_index_at(s: Seq<char>, d: int)
    requires
        0 <= d <= s.len(),
        forall|i: int| 0 <= i < d ==> s[i] != '.',
        d < s.len() ==> s[d] == '.',
    ensures
        dot_index(s) == d,
    decreases s.len(),
{
    if s.len() > 0 && d > 0 {
        assert forall|i: int| 0 <= i < d - 1 implies s.drop_first()[i] != '.' by {
            assert(s.drop_first()[i] == s[i + 1]);
        }
        lemma_dot_index_at(s.drop_first(), d - 1);
    }
}

fn digit_at(t: &Vec<char>, k: usize) -> (r: i64)
    requires
        k < t@.len(),
        is_digit(t@[k as int]),
    ensures
        r == digit_value(t@[k as int]),
        0 <= r <= 9,
{
    (t[k] as u32 - '0' as u32) as i64
}

pub open spec fn pow10(n: nat) -> int
    decreases n,
{
    if n == 0 {
        1
    } else {
        10 * pow10((n - 1) as nat)
    }
}

pub proof fn lemma_pow10_pos(n: nat)
    ensures
        pow10(n) >= 1,
    decreases n,
{
    if n > 0 {
        lemma_pow10_pos((n - 1) as nat);
    }
}

/// A run of digits is its first digit's weight plus the rest.
pub proof fn lemma_digits_front(s: Seq<char>)
    requires
        s.len() > 0,
    ensures
        digits_value(s) == digit_value(s[0]) * pow10((s.len() - 1) as nat) + digits_value(
            s.drop_first(),
        ),
    decreases s.len(),
{
    if s.len() > 1 {
        lemma_digits_front(s.drop_last());
        let m = s.drop_first().drop_last();
        assert(s.drop_last().drop_first() =~= m);
        assert(s.drop_last()[0] == s[0]);
        assert(s.drop_first().last() == s.last());
        let a = digit_value(s[0]);
        let p = pow10((s.len() - 2) as nat);
        let dm = digits_value(m);
        assert(digits_value(s) == digits_value(s.drop_last()) * 10 + digit_value(s.last()));
        assert(digits_value(s.drop_first()) == dm * 10 + digit_value(s.last()));
        assert(digits_value(s.drop_last()) == a * p + dm);
        assert(pow10((s.len() - 1) as nat) == 10 * p);
        assert((a * p + dm) * 10 == a * (10 * p) + dm * 10) by (nonlinear_arith);
        assert(digits_value(s) == a * pow10((s.len() - 1) as nat) + digits_value(s.drop_first()));
    } else {
        assert(s.drop_last().len() == 0);
        assert(s.drop_first().len() == 0);
        assert(digits_value(s.drop_last()) == 0);
        assert(digits_value(s.drop_first()) == 0);
        assert(pow10(0) == 1);
        assert(digits_value(s) == digit_value(s[0]));
    }
}

/// `k` digits spell less than `10^k`.
pub proof fn lemma_digits_bound(s: Seq<char>)
    requires
        all_digits(s),
    ensures
        0 <= digits_value(s) < pow10(s.len()),
    decreases s.len(),
{
    if s.len() > 0 {
        let t = s.drop_last();
        assert(all_digits(t)) by {
            assert forall|i: int| 0 <= i < t.len() implies is_digit(#[trigger] t[i]) by {
                assert(t[i] == s[i]);
            }
        }
        lemma_digits_bound(t);
        assert(is_digit(s[s.len() - 1]));
    }
}

/// The value of a run of digits, or `cap` when it is larger.
pub fn capped_value(d: &Vec<char>, cap: u64) -> (r: u64)
    requires
        all_digits(d@),
        cap <= 1_000_000_000_000_001,
    ensures
        r as int == if digits_value(d@) < cap {
            digits_value(d@)
        } else {
            cap as int
        },
{
    let mut acc: u64 = 0;
    let mut i: usize = 0;
    while i < d.len()
        invariant
            i <= d@.len(),
            cap <= 1_000_000_000_000_001,
            all_digits(d@),
            acc as int == if digits_value(d@.take(i as int)) < cap {
                digits_value(d@.take(i as int))
            } else {
                cap as int
            },
        decreases d@.len() - i,
    {
        assert(d@.take(i + 1).drop_last() =~= d@.take(i as int));
        assert(is_digit(d@[i as int]));
        proof {
            assert forall|k: int| 0 <= k < i implies is_digit(#[trigger] d@.take(i as int)[k]) by {
                assert(d@.take(i as int)[k] == d@[k]);
            }
            lemma_digits_value_nonneg(d@.take(i as int));
        }
        let v = (d[i] as u32 - '0' as u32) as u64 + acc * 10;
        acc = if v < cap { v } else { cap };
        i += 1;
    }
    assert(d@.take(d@.len() as int) =~= d@);
    acc
}

/// The integer and fraction digits of an unsigned `digits[.digits]`; `None`
/// when it is no such text.
fn mantissa_parts(m: &Vec<char>) -> (r: Option<(Vec<char>, Vec<char>)>)
    ensures
        r is Some == body_is_decimal(m@),
        r matches Some((ip, fp)) ==> ip@ == int_part(m@) && fp@ == frac_part(m@),
{
    let n = m.len();
    let mut ip: Vec<char> = Vec::new();
    let mut i: usize = 0;
    while i < n && m[i] != '.'
        invariant
            i <= n == m@.len(),
            forall|k: int| 0 <= k < i ==> m@[k] != '.',
            ip@ == m@.take(i as int),
        decreases n - i,
    {
        ip.push(m[i]);
        assert(m@.take(i + 1) =~= m@.take(i as int).push(m@[i as int]));
        i += 1;
    }
    proof {
        lemma_dot_index_at(m@, i as int);
    }
    let mut fp: Vec<char> = Vec::new();
    if i < n {
        let mut j: usize = i + 1;
        while j < n
            invariant
                i < j <= n == m@.len(),
                fp@ == m@.subrange(i + 1, j as int),
            decreases n - j,
        {
            fp.push(m[j]);
            assert(m@.subrange(i + 1, j + 1) =~= m@.subrange(i + 1, j as int).push(m@[j as int]));
            j += 1;
        }
        assert(frac_part(m@) =~= fp@);
    } else {
        assert(frac_part(m@) =~= fp@);
    }
    if ip.len() + fp.len() == 0 {
        return None;
    }
    if !all_digit_chars(&ip) || !all_digit_chars(&fp) {
        return None;
    }
    Some((ip, fp))
}

fn all_digit_chars(v: &Vec<char>) -> (r: bool)
    ensures
        r == all_digits(v@),
{
    let mut k: usize = 0;
    while k < v.len()
        invariant
            k <= v@.len(),
            forall|m: int| 0 <= m < k ==> is_digit(#[trigger] v@[m]),
        decreases v@.len() - k,
    {
        if !('0' <= v[k] && v[k] <= '9') {
            assert(!is_digit(v@[k as int]));
            return false;
        }
        k += 1;
    }
    true
}

proof fn lemma_exp_index_at(s: Seq<char>, d: int)
    requires
        0 <= d <= s.len(),
        forall|i: int| 0 <= i < d ==> !is_exp_mark(#[trigger] s[i]),
        d < s.len() ==> is_exp_mark(s[d]),
    ensures
        exp_index(s) == d,
    decreases s.len(),
{
    if s.len() > 0 && d > 0 {
        assert forall|i: int| 0 <= i < d - 1 implies !is_exp_mark(#[trigger] s.drop_first()[i]) by {
            assert(s.drop_first()[i] == s[i + 1]);
        }
        lemma_exp_index_at(s.drop_first(), d - 1);
    }
}

fn slice_of(v: &Vec<char>, from: usize, to: usize) -> (r: Vec<char>)
    requires
        from <= to <= v@.len(),
    ensures
        r@ == v@.subrange(from as int, to as int),
{
    let mut out: Vec<char> = Vec::new();
    let mut i: usize = from;
    while i < to
        invariant
            from <= i <= to <= v@.len(),
            out@ == v@.subrange(from as int, i as int),
        decreases to - i,
    {
        out.push(v[i]);
        assert(v@.subrange(from as int, i + 1) =~= v@.subrange(from as int, i as int).push(v@[i as int]));
        i += 1;
    }
    out
}

fn push_zeros(v: &mut Vec<char>, n: usize)
    ensures
        final(v)@ == old(v)@ + zeros(n as int),
{
    let mut i: usize = 0;
    while i < n
        invariant
            i <= n,
            v@ == old(v)@ + zeros(i as int),
        decreases n - i,
    {
        v.push('0');
        assert(old(v)@ + zeros(i + 1) =~= (old(v)@ + zeros(i as int)).push('0'));
        i += 1;
    }
}

/// The pieces of a number literal: whether it is negative, and the integer
/// and fraction digits of its value once the exponent has moved the point;
/// `None` when it is no number literal.
pub fn decimal_parts(t: &Vec<char>) -> (r: Option<(bool, Vec<char>, Vec<char>)>)
    ensures
        r is Some == number_body_ok(unsigned_body(t@)),
        r matches Some((neg, ip, fp)) ==> neg == (has_sign(t@) && t@[0] == '-') && ip@ == shifted_int(
            unsigned_body(t@),
        ) && fp@ == shifted_frac(unsigned_body(t@)) && all_digits(ip@) && all_digits(fp@),
{
    let n = t.len();
    let mut start: usize = 0;
    if n > 0 && (t[0] == '-' || t[0] == '+') {
        start = 1;
    }
    let negative = start == 1 && t[0] == '-';
    let body = slice_of(t, start, n);
    assert(body@ =~= unsigned_body(t@));
    let bn = body.len();
    let mut e: usize = 0;
    while e < bn && body[e] != 'e' && body[e] != 'E'
        invariant
            e <= bn == body@.len(),
            forall|k: int| 0 <= k < e ==> !is_exp_mark(#[trigger] body@[k]),
        decreases bn - e,
    {
        e += 1;
    }
    proof {
        lemma_exp_index_at(body@, e as int);
    }
    let m = slice_of(&body, 0, e);
    assert(m@ =~= mantissa(body@));
    let (ip0, fp0) = match mantissa_parts(&m) {
        Some(parts) => parts,
        None => return None,
    };
    let mut exp_neg = false;
    let mut exp: u64 = 0;
    if e < bn {
        let et = slice_of(&body, e + 1, bn);
        assert(et@ =~= body@.skip(e + 1));
        let mut ds: usize = 0;
        if et.len() > 0 && (et[0] == '-' || et[0] == '+') {
            ds = 1;
            exp_neg = et[0] == '-';
        }
        let digits = slice_of(&et, ds, et.len());
        assert(digits@ =~= exponent_digits(body@));
        if digits.len() == 0 || !all_digit_chars(&digits) {
            return None;
        }
        exp = capped_value(&digits, EXPONENT_LIMIT + 1);
        if exp > EXPONENT_LIMIT {
            return None;
        }
    }
    let (ip, fp) = shift_point(&ip0, &fp0, exp_neg, exp);
    Some((negative, ip, fp))
}

/// Moves the point of `ip.fp` by the exponent.
fn shift_point(ip0: &Vec<char>, fp0: &Vec<char>, exp_neg: bool, exp: u64) -> (r: (Vec<char>, Vec<char>))
    requires
        all_digits(ip0@),
        all_digits(fp0@),
        exp <= EXPONENT_LIMIT,
    ensures
        r.0@ == shift_int(ip0@, fp0@, if exp_neg { -(exp as int) } else { exp as int }),
        r.1@ == shift_frac(ip0@, fp0@, if exp_neg { -(exp as int) } else { exp as int }),
        all_digits(r.0@),
        all_digits(r.1@),
{
    let ghost ev: int = if exp_neg { -(exp as int) } else { exp as int };
    let mut d = slice_of(ip0, 0, ip0.len());
    let mut fpc = slice_of(fp0, 0, fp0.len());
    d.append(&mut fpc);
    assert(d@ =~= ip0@ + fp0@);
    assert(all_digits(d@)) by {
        assert forall|k: int| 0 <= k < d@.len() implies is_digit(#[trigger] d@[k]) by {
            if k < ip0@.len() {
                assert(d@[k] == ip0@[k]);
            } else {
                assert(d@[k] == fp0@[k - ip0@.len()]);
            }
        }
    }
    let len = d.len();
    let ip_len = ip0.len();
    let mut ip: Vec<char>;
    let mut fp: Vec<char>;
    if !exp_neg && exp >= (len - ip_len) as u64 {
        let pad = (exp - (len - ip_len) as u64) as usize;
        ip = slice_of(&d, 0, len);
        assert(ip@ =~= d@);
        push_zeros(&mut ip, pad);
        fp = Vec::new();
    } else if !exp_neg || exp <= ip_len as u64 {
        let pt: usize = if exp_neg { ip_len - exp as usize } else { ip_len + exp as usize };
        ip = slice_of(&d, 0, pt);
        fp = slice_of(&d, pt, len);
        assert(ip@ =~= d@.take(pt as int));
        assert(fp@ =~= d@.skip(pt as int));
    } else {
        let pad = (exp - ip_len as u64) as usize;
        ip = Vec::new();
        fp = Vec::new();
        push_zeros(&mut fp, pad);
        let mut rest = slice_of(&d, 0, len);
        assert(rest@ =~= d@);
        fp.append(&mut rest);
    }
    assert(ip@ =~= shift_int(ip0@, fp0@, ev));
    assert(fp@ =~= shift_frac(ip0@, fp0@, ev));
    assert forall|k: int| 0 <= k < ip@.len() implies is_digit(#[trigger] ip@[k]) by {
        if k < d@.len() {
            assert(ip@[k] == d@[k]);
        }
    }
    assert forall|k: int| 0 <= k < fp@.len() implies is_digit(#[trigger] fp@[k]) by {
        let p = ip0@.len() + ev;
        if p >= 0 && p < d@.len() {
            assert(fp@[k] == d@[p + k]);
        } else if p < 0 && k >= -p {
            assert(fp@[k] == d@[k + p]);
        }
    }
    (ip, fp)
}

/// Parses a number literal (see `decimal_milli`) into thousandths.
pub fn parse_decimal(t: &Vec<char>) -> (r: Option<i64>)
    ensures
        r == decimal_milli(t@),
{
    let (negative, ip, fp) = match decimal_parts(t) {
        Some(parts) => parts,
        None => return None,
    };
    let ghost body = unsigned_body(t@);
    let i = capped_value(&ip, 1_000_000_000_001);
    if i > 1_000_000_000_000 {
        proof {
            lemma_digits_value_nonneg(fp@);
            assert(frac_milli(fp@) >= 0) by {
                assert(fp@.len() > 0 ==> is_digit(fp@[0]));
                assert(fp@.len() > 1 ==> is_digit(fp@[1]));
                assert(fp@.len() > 2 ==> is_digit(fp@[2]));
                assert(fp@.len() > 3 ==> is_digit(fp@[3]));
            }
        }
        return None;
    }
    let nf = fp.len();
    assert(nf > 0 ==> is_digit(fp@[0]));
    assert(nf > 1 ==> is_digit(fp@[1]));
    assert(nf > 2 ==> is_digit(fp@[2]));
    assert(nf > 3 ==> is_digit(fp@[3]));
    let d0: i64 = if nf > 0 { digit_at(&fp, 0) } else { 0 };
    let d1: i64 = if nf > 1 { digit_at(&fp, 1) } else { 0 };
    let d2: i64 = if nf > 2 { digit_at(&fp, 2) } else { 0 };
    let d3: i64 = if nf > 3 { digit_at(&fp, 3) } else { 0 };
    let magnitude: i64 = (i as i64) * 1000 + d0 * 100 + d1 * 10 + d2 + if d3 >= 5 { 1 } else { 0 };
    assert(magnitude == body_milli(body));
    if magnitude > MAX_MILLI {
        return None;
    }
    if negative {
        Some(-magnitude)
    } else {
        Some(magnitude)
    }
}

/// Parses a number field: surrounding whitespace is ignored.
pub fn parse_number(s: &str) -> (r: Option<i64>)
    ensures
        r == number_spec(s@),
{
    parse_decimal(&chars_of(trim_str(s)))
}

} // verus!
