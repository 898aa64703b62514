//! Colors and the color value grammar.

use vstd::prelude::*;
use vstd::string::*;
use crate::number::{
    all_digits, number_body_ok, capped_value, decimal_parts, digit_value, digits_value, dot_index,
    shifted_frac, shifted_int, has_sign, is_digit, lemma_digits_bound, lemma_digits_front,
    lemma_digits_value_nonneg, lemma_dot_index_at, lemma_pow10_pos, pow10, unsigned_body,
};
use crate::text::{
    has_prefix, is_word, matches_word, starts_with, string_of, trim_str, trimmed, trimmed_chars,
    chars_of,
};

verus! {

/// An 8-bit-per-channel color with alpha.
#[derive(Clone, Copy, Debug, PartialEq, Eq, Structural)]
pub struct Rgba {
    pub r: u8,
    pub g: u8,
    pub b: u8,
    pub a: u8,
}

pub open spec fn rgba(r: u8, g: u8, b: u8, a: u8) -> Rgba {
    Rgba { r, g, b, a }
}

pub open spec fn transparent() -> Rgba {
    rgba(0, 0, 0, 0)
}

pub open spec fn white() -> Rgba {
    rgba(255, 255, 255, 255)
}

impl Rgba {
    /// An opaque color.
    pub fn rgb(r: u8, g: u8, b: u8) -> (c: Rgba)
        ensures
            c == rgba(r, g, b, 255),
    {
        Rgba { r, g, b, a: 255 }
    }

    /// A color with the given alpha channel.
    pub fn with_alpha(r: u8, g: u8, b: u8, a: u8) -> (c: Rgba)
        ensures
            c == rgba(r, g, b, a),
    {
        Rgba { r, g, b, a }
    }

    /// The fully transparent color.
    pub fn transparent() -> (c: Rgba)
        ensures
            c == transparent(),
    {
        Rgba { r: 0, g: 0, b: 0, a: 0 }
    }

    /// Opaque white.
    pub fn white() -> (c: Rgba)
        ensures
            c == white(),
    {
        Rgba { r: 255, g: 255, b: 255, a: 255 }
    }

    pub fn is_transparent(&self) -> (r: bool)
        ensures
            r == (*self == transparent()),
    {
        self.r == 0 && self.g == 0 && self.b == 0 && self.a == 0
    }
}

/// Why a color value was rejected.
#[derive(Clone, Copy, Debug, PartialEq, Eq, Structural)]
pub enum ColorError {
    /// None of the accepted forms.
    UnsupportedFormat,
    /// `#` not followed by six or eight hex digits.
    InvalidHex,
    /// `rgb(..)` without three parts or `rgba(..)` without four.
    ComponentCount,
    /// A channel that is no number.
    InvalidChannel,
    /// A channel outside 0..=255.
    ChannelOutOfRange,
    /// A fractional alpha that is no number.
    InvalidAlpha,
    /// A fractional alpha outside 0.0..=1.0.
    AlphaOutOfRange,
}

pub open spec fn is_hex_digit(c: char) -> bool {
    ('0' <= c && c <= '9') || ('a' <= c && c <= 'f') || ('A' <= c && c <= 'F')
}

pub open spec fn hex_value(c: char) -> int {
    if '0' <= c && c <= '9' {
        c as int - '0' as int
    } else if 'a' <= c && c <= 'f' {
        c as int - 'a' as int + 10
    } else {
        c as int - 'A' as int + 10
    }
}

pub open spec fn all_hex(v: Seq<char>) -> bool {
    forall|i: int| 0 <= i < v.len() ==> is_hex_digit(#[trigger] v[i])
}

/// The byte spelled by the hex digits at `2k` and `2k + 1`.
pub open spec fn hex_byte(v: Seq<char>, k: int) -> u8 {
    (hex_value(v[2 * k]) * 16 + hex_value(v[2 * k + 1])) as u8
}

/// `#RRGGBB` or `#RRGGBBAA`, given the text after `#`.
pub open spec fn hex_color_spec(hex: Seq<char>) -> Result<Rgba, ColorError> {
    let v = trimmed(hex);
    if (v.len() == 6 || v.len() == 8) && all_hex(v) {
        if v.len() == 6 {
            Ok(rgba(hex_byte(v, 0), hex_byte(v, 1), hex_byte(v, 2), 255))
        } else {
            Ok(rgba(hex_byte(v, 0), hex_byte(v, 1), hex_byte(v, 2), hex_byte(v, 3)))
        }
    } else {
        Err(ColorError::InvalidHex)
    }
}

/// The pieces of `s` between commas.
pub open spec fn split_commas(s: Seq<char>) -> Seq<Seq<char>>
    decreases s.len(),
{
    if s.len() == 0 {
        seq![Seq::empty()]
    } else {
        let prev = split_commas(s.drop_last());
        if s.last() == ',' {
            prev.push(Seq::empty())
        } else {
            prev.update(prev.len() - 1, prev.last().push(s.last()))
        }
    }
}

/// The pieces of `s` between commas, each trimmed.
pub open spec fn fields(s: Seq<char>) -> Seq<Seq<char>> {
    split_commas(s).map_values(|p: Seq<char>| trimmed(p))
}

/// `a / b` rounded to the nearest integer, halves up (for `a >= 0`, `b > 0`).
pub open spec fn round_half_up(a: int, b: int) -> int {
    (2 * a + b) / (2 * b)
}

/// The exact value of a decimal literal, as `numerator / pow10(fraction digits)`.
pub open spec fn numerator(body: Seq<char>) -> int {
    digits_value(shifted_int(body)) * pow10(shifted_frac(body).len()) + digits_value(shifted_frac(body))
}

pub open spec fn is_negative_nonzero(src: Seq<char>) -> bool {
    has_sign(src) && src[0] == '-' && numerator(unsigned_body(src)) > 0
}

/// A channel value: a number in 0..=255, rounded to the nearest integer.
pub open spec fn channel_spec(src: Seq<char>) -> Result<u8, ColorError> {
    let body = unsigned_body(src);
    let p = pow10(shifted_frac(body).len());
    if !number_body_ok(body) {
        Err(ColorError::InvalidChannel)
    } else if is_negative_nonzero(src) || numerator(body) > 255 * p {
        Err(ColorError::ChannelOutOfRange)
    } else {
        Ok(round_half_up(numerator(body), p) as u8)
    }
}

/// An alpha value: with a decimal point, a fraction in 0.0..=1.0 scaled by
/// 255 and rounded to the nearest integer; otherwise a channel value.
pub open spec fn alpha_spec(src: Seq<char>) -> Result<u8, ColorError> {
    let body = unsigned_body(src);
    let p = pow10(shifted_frac(body).len());
    if dot_index(src) < src.len() {
        if !number_body_ok(body) {
            Err(ColorError::InvalidAlpha)
        } else if is_negative_nonzero(src) || numerator(body) > p {
            Err(ColorError::AlphaOutOfRange)
        } else {
            Ok(round_half_up(255 * numerator(body), p) as u8)
        }
    } else {
        channel_spec(src)
    }
}

/// Three channels, parsed in order; the first failure is the result.
pub open spec fn channels_spec(p0: Seq<char>, p1: Seq<char>, p2: Seq<char>) -> Result<
    (u8, u8, u8, u8),
    ColorError,
> {
    match channel_spec(p0) {
        Err(e) => Err(e),
        Ok(r) => match channel_spec(p1) {
            Err(e) => Err(e),
            Ok(g) => match channel_spec(p2) {
                Err(e) => Err(e),
                Ok(b) => Ok((r, g, b, 255u8)),
            },
        },
    }
}

/// The inside of `rgb(..)`: three comma-separated channels.
pub open spec fn rgb_components_spec(s: Seq<char>) -> Result<(u8, u8, u8, u8), ColorError> {
    let p = fields(s);
    if p.len() != 3 {
        Err(ColorError::ComponentCount)
    } else {
        channels_spec(p[0], p[1], p[2])
    }
}

/// The inside of `rgba(..)`: three channels and an alpha.
pub open spec fn rgba_components_spec(s: Seq<char>) -> Result<(u8, u8, u8, u8), ColorError> {
    let p = fields(s);
    if p.len() != 4 {
        Err(ColorError::ComponentCount)
    } else {
        match channels_spec(p[0], p[1], p[2]) {
            Err(e) => Err(e),
            Ok((r, g, b, _)) => match alpha_spec(p[3]) {
                Err(e) => Err(e),
                Ok(a) => Ok((r, g, b, a)),
            },
        }
    }
}

/// `s` without its trailing `)` characters.
pub open spec fn strip_closing(s: Seq<char>) -> Seq<char>
    decreases s.len(),
{
    if s.len() > 0 && s.last() == ')' {
        strip_closing(s.drop_last())
    } else {
        s
    }
}

pub open spec fn from_components(c: (u8, u8, u8, u8)) -> Rgba {
    rgba(c.0, c.1, c.2, c.3)
}

/// A color value: `transparent` (any ASCII case), `#RRGGBB`, `#RRGGBBAA`,
/// `rgb(r, g, b)` or `rgba(r, g, b, a)`, after trimming.
pub open spec fn color_spec(value: Seq<char>) -> Result<Rgba, ColorError> {
    let v = trimmed(value);
    if matches_word(v, "transparent"@) {
        Ok(transparent())
    } else if v.len() > 0 && v[0] == '#' {
        hex_color_spec(v.drop_first())
    } else if has_prefix(v, "rgba("@) {
        match rgba_components_spec(strip_closing(v.skip("rgba("@.len() as int))) {
            Ok(c) => Ok(from_components(c)),
            Err(e) => Err(e),
        }
    } else if has_prefix(v, "rgb("@) {
        match rgb_components_spec(strip_closing(v.skip("rgb("@.len() as int))) {
            Ok(c) => Ok(from_components(c)),
            Err(e) => Err(e),
        }
    } else {
        Err(ColorError::UnsupportedFormat)
    }
}

fn hex_digit(c: char) -> (r: u8)
    requires
        is_hex_digit(c),
    ensures
        r as int == hex_value(c),
        r < 16,
{
    if '0' <= c && c <= '9' {
        (c as u32 - '0' as u32) as u8
    } else if 'a' <= c && c <= 'f' {
        (c as u32 - 'a' as u32 + 10) as u8
    } else {
        (c as u32 - 'A' as u32 + 10) as u8
    }
}

/// Parses the hex digits after `#`.
pub fn parse_hex_color(hex: &str) -> (r: Result<Rgba, ColorError>)
    ensures
        r == hex_color_spec(hex@),
{
    let v = trimmed_chars(hex);
    let n = v.len();
    if n != 6 && n != 8 {
        return Err(ColorError::InvalidHex);
    }
    let mut i: usize = 0;
    while i < n
        invariant
            n == v@.len(),
            n == 6 || n == 8,
            v@ == trimmed(hex@),
            i <= n,
            forall|k: int| 0 <= k < i ==> is_hex_digit(#[trigger] v@[k]),
        decreases n - i,
    {
        let c = v[i];
        if !(('0' <= c && c <= '9') || ('a' <= c && c <= 'f') || ('A' <= c && c <= 'F')) {
            assert(!is_hex_digit(v@[i as int]));
            assert(!all_hex(v@));
            return Err(ColorError::InvalidHex);
        }
        i += 1;
    }
    let r = hex_digit(v[0]) * 16 + hex_digit(v[1]);
    let g = hex_digit(v[2]) * 16 + hex_digit(v[3]);
    let b = hex_digit(v[4]) * 16 + hex_digit(v[5]);
    if n == 6 {
        Ok(Rgba::rgb(r, g, b))
    } else {
        let a = hex_digit(v[6]) * 16 + hex_digit(v[7]);
        Ok(Rgba::with_alpha(r, g, b, a))
    }
}

proof fn lemma_split_commas_nonempty(s: Seq<char>)
    ensures
        split_commas(s).len() >= 1,
    decreases s.len(),
{
    if s.len() > 0 {
        lemma_split_commas_nonempty(s.drop_last());
    }
}

/// Splits `s` at its commas and trims each piece.
pub fn split_fields(s: &Vec<char>) -> (r: Vec<Vec<char>>)
    ensures
        r@.len() == fields(s@).len(),
        forall|k: int| 0 <= k < r@.len() ==> #[trigger] r@[k]@ == fields(s@)[k],
{
    let mut parts: Vec<Vec<char>> = Vec::new();
    let mut cur: Vec<char> = Vec::new();
    let ghost mut pieces: Seq<Seq<char>> = Seq::empty();
    let mut i: usize = 0;
    while i < s.len()
        invariant
            i <= s@.len(),
            split_commas(s@.take(i as int)) == pieces.push(cur@),
            parts@.len() == pieces.len(),
            forall|k: int| 0 <= k < parts@.len() ==> #[trigger] parts@[k]@ == trimmed(pieces[k]),
        decreases s@.len() - i,
    {
        let c = s[i];
        assert(s@.take(i + 1).drop_last() =~= s@.take(i as int));
        if c == ',' {
            let piece = string_of(&cur, 0, cur.len());
            assert(cur@.subrange(0, cur@.len() as int) =~= cur@);
            parts.push(chars_of(trim_str(piece.as_str())));
            proof {
                pieces = pieces.push(cur@);
            }
            cur = Vec::new();
            assert(split_commas(s@.take(i + 1)) =~= pieces.push(cur@));
        } else {
            cur.push(c);
            assert(split_commas(s@.take(i + 1)) =~= pieces.push(cur@));
        }
        i += 1;
    }
    let piece = string_of(&cur, 0, cur.len());
    assert(cur@.subrange(0, cur@.len() as int) =~= cur@);
    parts.push(chars_of(trim_str(piece.as_str())));
    proof {
        pieces = pieces.push(cur@);
        assert(s@.take(s@.len() as int) =~= s@);
    }
    parts
}

proof fn lemma_first_digit_half(f: Seq<char>)
    requires
        f.len() > 0,
        all_digits(f),
    ensures
        (2 * digits_value(f) >= pow10(f.len())) == (digit_value(f[0]) >= 5),
{
    lemma_digits_front(f);
    let rest = f.drop_first();
    assert(all_digits(rest)) by {
        assert forall|i: int| 0 <= i < rest.len() implies is_digit(#[trigger] rest[i]) by {
            assert(rest[i] == f[i + 1]);
        }
    }
    lemma_digits_bound(rest);
    assert(is_digit(f[0]));
    let d = digit_value(f[0]);
    let p = pow10(rest.len());
    let v = digits_value(rest);
    assert(pow10(f.len()) == 10 * p);
    assert(0 <= v < p);
    assert((2 * (d * p + v) >= 10 * p) == (d >= 5)) by (nonlinear_arith)
        requires
            0 <= v < p,
            0 <= d <= 9,
    ;
}

/// Rounding `i + n / p` to the nearest integer adds one exactly when the
/// first fraction digit is 5 or more.
proof fn lemma_round_channel(i: int, f: Seq<char>)
    requires
        all_digits(f),
        i >= 0,
    ensures
        round_half_up(i * pow10(f.len()) + digits_value(f), pow10(f.len())) == i + if f.len() > 0
            && digit_value(f[0]) >= 5 {
            1int
        } else {
            0int
        },
{
    let p = pow10(f.len());
    let n = digits_value(f);
    lemma_pow10_pos(f.len());
    lemma_digits_bound(f);
    if f.len() > 0 {
        lemma_first_digit_half(f);
    }
    let e: int = if 2 * n >= p { 1 } else { 0 };
    assert((2 * n + p) / (2 * p) == e) by {
        if e == 1 {
            vstd::arithmetic::div_mod::lemma_div_multiples_vanish_fancy(1, 2 * n + p - 2 * p, 2 * p);
            assert(2 * p * 1 + (2 * n + p - 2 * p) == 2 * n + p);
        } else {
            vstd::arithmetic::div_mod::lemma_div_multiples_vanish_fancy(0, 2 * n + p, 2 * p);
        }
    }
    vstd::arithmetic::div_mod::lemma_hoist_over_denominator(2 * n + p, i, (2 * p) as nat);
    assert(2 * (i * p + n) + p == (2 * n + p) + i * (2 * p)) by (nonlinear_arith);
    if f.len() == 0 {
        assert(n == 0 && p == 1);
    }
}

/// One step of multiplying a fraction by 255 from its last digit backwards.
proof fn lemma_scale_step(d: int, v: int, p: int)
    requires
        0 <= d <= 9,
        0 <= v < p,
    ensures
        (255 * (d * p + v)) / (10 * p) == (255 * d + (255 * v) / p) / 10,
{
    vstd::arithmetic::div_mod::lemma_div_denominator(255 * (d * p + v), p, 10);
    vstd::arithmetic::div_mod::lemma_hoist_over_denominator(255 * v, 255 * d, p as nat);
    assert(255 * (d * p + v) == 255 * v + 255 * d * p) by (nonlinear_arith);
    assert(p * 10 == 10 * p);
}

/// Rounding `255 * n / (10 p)` is rounding the integer part of
/// `255 * n / p` divided by ten.
proof fn lemma_round_alpha(n: int, p: int)
    requires
        0 <= n,
        0 < p,
    ensures
        round_half_up(255 * n, 10 * p) == ((255 * n) / p + 5) / 10,
{
    let q = (255 * n) / p;
    let r = (255 * n) % p;
    vstd::arithmetic::div_mod::lemma_fundamental_div_mod(255 * n, p);
    assert(0 <= r < p);
    assert(q >= 0) by {
        vstd::arithmetic::div_mod::lemma_div_pos_is_pos(255 * n, p);
    }
    let x = 2 * (255 * n) + 10 * p;
    assert(x == 2 * r + (2 * q + 10) * p) by (nonlinear_arith)
        requires
            255 * n == p * q + r,
            x == 2 * (255 * n) + 10 * p,
    ;
    vstd::arithmetic::div_mod::lemma_div_denominator(x, p, 20);
    vstd::arithmetic::div_mod::lemma_hoist_over_denominator(2 * r, 2 * q + 10, p as nat);
    let e = (2 * r) / p;
    assert(0 <= e <= 1) by {
        if 2 * r >= p {
            vstd::arithmetic::div_mod::lemma_div_multiples_vanish_fancy(1, 2 * r - p, p);
            assert(p * 1 + (2 * r - p) == 2 * r);
        } else {
            vstd::arithmetic::div_mod::lemma_div_multiples_vanish_fancy(0, 2 * r, p);
        }
    }
    assert(p * 20 == 2 * (10 * p));
    assert((2 * q + 10 + e) / 20 == (q + 5) / 10);
}

fn scaled_tail(f: &Vec<char>) -> (c: u32)
    requires
        f@.len() >= 1,
        all_digits(f@),
    ensures
        c as int == (255 * digits_value(f@.drop_first())) / pow10((f@.len() - 1) as nat),
        c < 255,
{
    let n = f.len();
    let mut c: u32 = 0;
    let mut j: usize = n;
    assert(f@.skip(n as int) =~= Seq::<char>::empty());
    while j > 1
        invariant
            1 <= j <= n == f@.len(),
            all_digits(f@),
            c as int == (255 * digits_value(f@.skip(j as int))) / pow10((n - j) as nat),
            c < 255,
        decreases j,
    {
        let ghost tail = f@.skip(j - 1);
        assert(tail.drop_first() =~= f@.skip(j as int));
        assert(tail[0] == f@[j - 1]);
        assert(is_digit(f@[j - 1]));
        proof {
            lemma_digits_front(tail);
            assert(all_digits(f@.skip(j as int))) by {
                assert forall|i: int| 0 <= i < f@.skip(j as int).len() implies is_digit(
                    #[trigger] f@.skip(j as int)[i],
                ) by {
                    assert(f@.skip(j as int)[i] == f@[j + i]);
                }
            }
            lemma_digits_bound(f@.skip(j as int));
            lemma_scale_step(
                digit_value(f@[j - 1]),
                digits_value(f@.skip(j as int)),
                pow10((n - j) as nat),
            );
            assert(pow10((n - j + 1) as nat) == 10 * pow10((n - j) as nat));
            assert((n - j + 1) as nat == tail.len() - 1 + 1);
        }
        let d = f[j - 1] as u32 - '0' as u32;
        c = (255 * d + c) / 10;
        j -= 1;
    }
    assert(f@.skip(1) =~= f@.drop_first());
    c
}

proof fn lemma_zero_value(s: Seq<char>)
    ensures
        s.len() == 0 ==> digits_value(s) == 0,
{
}

fn parse_channel(src: &Vec<char>) -> (r: Result<u8, ColorError>)
    ensures
        r == channel_spec(src@),
{
    match decimal_parts(src) {
        None => Err(ColorError::InvalidChannel),
        Some((negative, ip, fp)) => {
            let ghost body = unsigned_body(src@);
            let i = capped_value(&ip, 256);
            let nonzero_fraction = capped_value(&fp, 1);
            proof {
                lemma_pow10_pos(fp@.len());
                lemma_digits_bound(fp@);
                lemma_digits_value_nonneg(ip@);
                assert((numerator(body) > 255 * pow10(fp@.len())) == (i > 255 || (i == 255
                    && nonzero_fraction > 0))) by (nonlinear_arith)
                    requires
                        numerator(body) == digits_value(ip@) * pow10(fp@.len()) + digits_value(fp@),
                        0 <= digits_value(fp@) < pow10(fp@.len()),
                        digits_value(ip@) >= 0,
                        i as int == if digits_value(ip@) < 256 { digits_value(ip@) } else { 256 },
                        nonzero_fraction as int == if digits_value(fp@) < 1 { digits_value(fp@) } else { 1 },
                ;
                assert((numerator(body) > 0) == (i > 0 || nonzero_fraction > 0)) by (nonlinear_arith)
                    requires
                        numerator(body) == digits_value(ip@) * pow10(fp@.len()) + digits_value(fp@),
                        0 <= digits_value(fp@),
                        pow10(fp@.len()) >= 1,
                        digits_value(ip@) >= 0,
                        i as int == if digits_value(ip@) < 256 { digits_value(ip@) } else { 256 },
                        nonzero_fraction as int == if digits_value(fp@) < 1 { digits_value(fp@) } else { 1 },
                ;
            }
            if (negative && (i > 0 || nonzero_fraction > 0)) || i > 255 || (i == 255 && nonzero_fraction > 0) {
                return Err(ColorError::ChannelOutOfRange);
            }
            let up = fp.len() > 0 && fp[0] >= '5';
            proof {
                lemma_round_channel(i as int, fp@);
                if fp@.len() > 0 {
                    lemma_first_digit_half(fp@);
                }
            }
            Ok((i + if up { 1 } else { 0 }) as u8)
        },
    }
}

fn parse_alpha(src: &Vec<char>) -> (r: Result<u8, ColorError>)
    ensures
        r == alpha_spec(src@),
{
    if !has_dot(src) {
        return parse_channel(src);
    }
    match decimal_parts(src) {
        None => Err(ColorError::InvalidAlpha),
        Some((negative, ip, fp)) => {
            let ghost body = unsigned_body(src@);
            let i = capped_value(&ip, 2);
            let nonzero_fraction = capped_value(&fp, 1);
            let ghost p = pow10(fp@.len());
            let ghost n = digits_value(fp@);
            proof {
                lemma_pow10_pos(fp@.len());
                lemma_digits_bound(fp@);
                lemma_digits_value_nonneg(ip@);
                assert((numerator(body) > p) == (i > 1 || (i == 1 && nonzero_fraction > 0)))
                    by (nonlinear_arith)
                    requires
                        numerator(body) == digits_value(ip@) * p + n,
                        0 <= n < p,
                        digits_value(ip@) >= 0,
                        i as int == if digits_value(ip@) < 2 { digits_value(ip@) } else { 2 },
                        nonzero_fraction as int == if n < 1 { n } else { 1 },
                ;
                assert((numerator(body) > 0) == (i > 0 || nonzero_fraction > 0)) by (nonlinear_arith)
                    requires
                        numerator(body) == digits_value(ip@) * p + n,
                        0 <= n,
                        p >= 1,
                        digits_value(ip@) >= 0,
                        i as int == if digits_value(ip@) < 2 { digits_value(ip@) } else { 2 },
                        nonzero_fraction as int == if n < 1 { n } else { 1 },
                ;
            }
            if (negative && (i > 0 || nonzero_fraction > 0)) || i > 1 || (i == 1 && nonzero_fraction > 0) {
                return Err(ColorError::AlphaOutOfRange);
            }
            if i == 1 {
                proof {
                    assert(digits_value(ip@) == 1);
                    assert(n == 0);
                    assert(numerator(body) == digits_value(ip@) * p + n);
                    assert(digits_value(ip@) * p == p) by (nonlinear_arith)
                        requires digits_value(ip@) == 1;
                    assert(numerator(body) == p);
                    vstd::arithmetic::div_mod::lemma_div_multiples_vanish_fancy(255, p, 2 * p);
                    assert(2 * (255 * p) + p == 2 * p * 255 + p) by (nonlinear_arith);
                }
                return Ok(255);
            }
            if fp.len() == 0 {
                assert(digits_value(ip@) == 0 && n == 0);
                assert(numerator(body) == digits_value(ip@) * p + n);
                assert(numerator(body) == 0 && p == 1);
                return Ok(0);
            }
            let c = scaled_tail(&fp);
            let t = 255 * (fp[0] as u32 - '0' as u32) + c;
            proof {
                assert(digits_value(ip@) == 0);
                assert(numerator(body) == digits_value(ip@) * p + n);
                assert(digits_value(ip@) * p == 0) by (nonlinear_arith)
                    requires digits_value(ip@) == 0;
                assert(numerator(body) == n);
                let rest = fp@.drop_first();
                let q = pow10(rest.len());
                assert(p == 10 * q);
                lemma_pow10_pos(rest.len());
                lemma_digits_front(fp@);
                assert(all_digits(rest)) by {
                    assert forall|k: int| 0 <= k < rest.len() implies is_digit(#[trigger] rest[k]) by {
                        assert(rest[k] == fp@[k + 1]);
                    }
                }
                lemma_digits_bound(rest);
                assert(is_digit(fp@[0]));
                lemma_scale_step(digit_value(fp@[0]), digits_value(rest), q);
                lemma_round_alpha(n, q);
                let d = digit_value(fp@[0]);
                let v = digits_value(rest);
                assert(n == d * q + v);
                assert((255 * n) / q == 255 * d + (255 * v) / q) by {
                    vstd::arithmetic::div_mod::lemma_hoist_over_denominator(255 * v, 255 * d, q as nat);
                    assert(255 * n == 255 * v + 255 * d * q) by (nonlinear_arith)
                        requires n == d * q + v;
                }
            }
            Ok(((t + 5) / 10) as u8)
        },
    }
}

fn has_dot(s: &Vec<char>) -> (r: bool)
    ensures
        r == (dot_index(s@) < s@.len()),
{
    let mut i: usize = 0;
    while i < s.len()
        invariant
            i <= s@.len(),
            forall|k: int| 0 <= k < i ==> s@[k] != '.',
        decreases s@.len() - i,
    {
        if s[i] == '.' {
            proof { lemma_dot_index_at(s@, i as int); }
            return true;
        }
        i += 1;
    }
    proof { lemma_dot_index_at(s@, s@.len() as int); }
    false
}

fn parse_channels(p0: &Vec<char>, p1: &Vec<char>, p2: &Vec<char>) -> (r: Result<(u8, u8, u8, u8), ColorError>)
    ensures
        r == channels_spec(p0@, p1@, p2@),
{
    let r = parse_channel(p0)?;
    let g = parse_channel(p1)?;
    let b = parse_channel(p2)?;
    Ok((r, g, b, 255))
}

/// Parses the inside of `rgb(..)`.
pub fn parse_rgb_components(input: &Vec<char>) -> (r: Result<(u8, u8, u8, u8), ColorError>)
    ensures
        r == rgb_components_spec(input@),
{
    let parts = split_fields(input);
    if parts.len() != 3 {
        return Err(ColorError::ComponentCount);
    }
    assert(parts@[0]@ == fields(input@)[0] && parts@[1]@ == fields(input@)[1] && parts@[2]@ == fields(input@)[2]);
    parse_channels(&parts[0], &parts[1], &parts[2])
}

/// Parses the inside of `rgba(..)`.
pub fn parse_rgba_components(input: &Vec<char>) -> (r: Result<(u8, u8, u8, u8), ColorError>)
    ensures
        r == rgba_components_spec(input@),
{
    let parts = split_fields(input);
    if parts.len() != 4 {
        return Err(ColorError::ComponentCount);
    }
    assert(parts@[0]@ == fields(input@)[0] && parts@[1]@ == fields(input@)[1] && parts@[2]@ == fields(input@)[2] && parts@[3]@ == fields(input@)[3]);
    let (r, g, b, _) = parse_channels(&parts[0], &parts[1], &parts[2])?;
    let a = parse_alpha(&parts[3])?;
    Ok((r, g, b, a))
}

/// The characters of `v` from `from` on, without trailing `)`.
fn strip_closing_from(v: &Vec<char>, from: usize) -> (r: Vec<char>)
    requires
        from <= v@.len(),
    ensures
        r@ == strip_closing(v@.skip(from as int)),
{
    let mut end: usize = v.len();
    while end > from && v[end - 1] == ')'
        invariant
            from <= end <= v@.len(),
            strip_closing(v@.skip(from as int)) == strip_closing(v@.subrange(from as int, end as int)),
        decreases end,
    {
        assert(v@.subrange(from as int, end as int).drop_last() =~= v@.subrange(from as int, end - 1));
        end -= 1;
    }
    assert(v@.skip(from as int) =~= v@.subrange(from as int, v@.len() as int));
    let mut out: Vec<char> = Vec::new();
    let mut i: usize = from;
    while i < end
        invariant
            from <= i <= end <= v@.len(),
            out@ == v@.subrange(from as int, i as int),
        decreases end - i,
    {
        out.push(v[i]);
        assert(v@.subrange(from as int, i + 1) =~= v@.subrange(from as int, i as int).push(v@[i as int]));
        i += 1;
    }
    out
}

/// Parses a color value (see `color_spec`).
pub fn parse_color(value: &str) -> (r: Result<Rgba, ColorError>)
    ensures
        r == color_spec(value@),
{
    let v = trimmed_chars(value);
    if is_word(&v, "transparent") {
        return Ok(Rgba::transparent());
    }
    if v.len() > 0 && v[0] == '#' {
        let hex = string_of(&v, 1, v.len());
        assert(v@.subrange(1, v@.len() as int) =~= v@.drop_first());
        return parse_hex_color(hex.as_str());
    }
    if starts_with(&v, "rgba(") {
        let rest = strip_closing_from(&v, "rgba(".unicode_len());
        return match parse_rgba_components(&rest) {
            Ok((r, g, b, a)) => Ok(Rgba::with_alpha(r, g, b, a)),
            Err(e) => Err(e),
        };
    }
    if starts_with(&v, "rgb(") {
        let rest = strip_closing_from(&v, "rgb(".unicode_len());
        return match parse_rgb_components(&rest) {
            Ok((r, g, b, a)) => Ok(Rgba::with_alpha(r, g, b, a)),
            Err(e) => Err(e),
        };
    }
    Err(ColorError::UnsupportedFormat)
}

} // verus!
