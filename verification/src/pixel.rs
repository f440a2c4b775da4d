//! Pixels as they are written: three colour levels from 0 to 255, in decimal
//! text, one pixel per line, after a plain-text image header.
//!
//! A level is made from a gamma-corrected channel value, given by its
//! double-precision encoding: the value is limited to the range from zero to
//! one, multiplied by 256, rounded to the nearest integer with ties to the
//! even one, and limited to 255.

use crate::binary64::{
    exponent, fraction, lemma_magnitude_order, less, scaled, shift, sign, significand,
    spec_is_nan, Sign, HIDDEN_BIT, ONE,
};
use vstd::arithmetic::div_mod::{lemma_div_multiples_vanish_quotient, lemma_truncate_middle};
use vstd::arithmetic::power2::{
    lemma2_to64, lemma_pow2_adds, lemma_pow2_pos, lemma_pow2_strictly_increases,
    lemma_pow2_unfold, pow2,
};
use vstd::prelude::*;
use vstd::string::*;

verus! {

/// The greatest colour level.
pub const MAX_LEVEL: u8 = 255;

/// The format number of a plain-text pixmap in full colour.
pub const FORMAT: u32 = 3;

/// One pixel of the finished image.
#[derive(Clone, Copy, Debug, PartialEq, Eq, Structural)]
pub struct Pixel {
    pub r: u8,
    pub g: u8,
    pub b: u8,
}

/// The integer nearest to `n / unit`, the even one of two that are equally
/// near.
pub open spec fn round_half_even(n: int, unit: int) -> int {
    let q = n / unit;
    let r = n % unit;
    if 2 * r < unit || (2 * r == unit && q % 2 == 0) {
        q
    } else {
        q + 1
    }
}

/// The colour level of a channel value given by its encoding: 256 times the
/// value limited to the range from zero to one, rounded, and limited to 255.
pub open spec fn spec_level(bits: u64) -> int {
    if scaled(bits) <= 0 {
        0
    } else if scaled(bits) >= scaled(ONE) {
        255
    } else {
        let rounded = round_half_even(256 * scaled(bits), pow2(1074) as int);
        if rounded > 255 {
            255
        } else {
            rounded
        }
    }
}

/// The character of a decimal digit.
pub open spec fn digit_char(d: int) -> char {
    if d == 0 {
        '0'
    } else if d == 1 {
        '1'
    } else if d == 2 {
        '2'
    } else if d == 3 {
        '3'
    } else if d == 4 {
        '4'
    } else if d == 5 {
        '5'
    } else if d == 6 {
        '6'
    } else if d == 7 {
        '7'
    } else if d == 8 {
        '8'
    } else {
        '9'
    }
}

/// A natural number in decimal, without leading zeros.
pub open spec fn decimal(n: nat) -> Seq<char>
    decreases n,
{
    if n < 10 {
        seq![digit_char(n as int)]
    } else {
        decimal(n / 10).push(digit_char((n % 10) as int))
    }
}

/// The text of one pixel: its three levels, separated by single spaces.
pub open spec fn pixel_chars(p: Pixel) -> Seq<char> {
    decimal(p.r as nat) + seq![' '] + decimal(p.g as nat) + seq![' '] + decimal(p.b as nat)
}

/// The text of a row of pixels: each pixel's text followed by a line feed.
pub open spec fn row_chars(pixels: Seq<Pixel>) -> Seq<char>
    decreases pixels.len(),
{
    if pixels.len() == 0 {
        Seq::empty()
    } else {
        row_chars(pixels.drop_last()) + pixel_chars(pixels.last()) + seq!['\n']
    }
}

/// The header of a plain-text pixmap of the given size: the letter `P` with
/// the format number, the width and the height, and the greatest level, each
/// group on a line of its own.
pub open spec fn header_chars(width: nat, height: nat) -> Seq<char> {
    seq!['P'] + decimal(FORMAT as nat) + seq!['\n'] + decimal(width) + seq![' '] + decimal(height)
        + seq!['\n'] + decimal(MAX_LEVEL as nat) + seq!['\n']
}

/// The rounded integer is a nearest one: it lies no more than half a unit
/// from the amount, and where two integers lie exactly half a unit away, it
/// is the even one.
pub proof fn lemma_round_is_nearest(n: int, unit: int)
    requires
        0 <= n,
        unit > 0,
    ensures
        -unit <= 2 * (n - round_half_even(n, unit) * unit) <= unit,
        2 * (n - round_half_even(n, unit) * unit) == unit || 2 * (n - round_half_even(n, unit)
            * unit) == -unit ==> round_half_even(n, unit) % 2 == 0,
{
    vstd::arithmetic::div_mod::lemma_fundamental_div_mod(n, unit);
    vstd::arithmetic::div_mod::lemma_mod_pos_bound(n, unit);
    let q = n / unit;
    let r = n % unit;
    assert(n - q * unit == r) by (nonlinear_arith)
        requires
            n == unit * q + r,
    ;
    assert(n - (q + 1) * unit == r - unit) by (nonlinear_arith)
        requires
            n == unit * q + r,
    ;
}

/// Rounding keeps the order: of two amounts the greater does not round to
/// the smaller integer.
pub proof fn lemma_round_monotone(a: int, b: int, unit: int)
    requires
        0 <= a <= b,
        unit > 0,
    ensures
        0 <= round_half_even(a, unit) <= round_half_even(b, unit),
{
    vstd::arithmetic::div_mod::lemma_div_is_ordered(a, b, unit);
    vstd::arithmetic::div_mod::lemma_fundamental_div_mod(a, unit);
    vstd::arithmetic::div_mod::lemma_fundamental_div_mod(b, unit);
    vstd::arithmetic::div_mod::lemma_div_pos_is_pos(a, unit);
    vstd::arithmetic::div_mod::lemma_mod_pos_bound(a, unit);
    vstd::arithmetic::div_mod::lemma_mod_pos_bound(b, unit);
    let qa = a / unit;
    let qb = b / unit;
    if qa == qb {
        assert(a % unit <= b % unit) by (nonlinear_arith)
            requires
                a == unit * qa + a % unit,
                b == unit * qa + b % unit,
                a <= b,
        ;
    }
}

/// A brighter value never gets a darker level: levels are ordered as the
/// values they are made from, and all of them lie between 0 and 255.
pub proof fn lemma_level_monotone(a: u64, b: u64)
    requires
        !spec_is_nan(a),
        !spec_is_nan(b),
        scaled(a) <= scaled(b),
    ensures
        0 <= spec_level(a) <= spec_level(b) <= 255,
{
    lemma_pow2_pos(1074);
    if scaled(a) > 0 {
        lemma_round_monotone(256 * scaled(a), 256 * scaled(b), pow2(1074) as int);
    } else if scaled(b) > 0 {
        lemma_round_monotone(0, 256 * scaled(b), pow2(1074) as int);
    }
}

/// The colour level of a gamma-corrected channel value, given by its
/// encoding; `None` where the encoding stands for no number.
pub fn level(bits: u64) -> (l: Option<u8>)
    ensures
        l == (if spec_is_nan(bits) {
            None
        } else {
            Some(spec_level(bits) as u8)
        }),
        !spec_is_nan(bits) ==> 0 <= spec_level(bits) <= 255,
{
    match sign(bits) {
        None => None,
        Some(Sign::Negative) => Some(0),
        Some(Sign::Zero) => Some(0),
        Some(Sign::Positive) => {
            if !less(bits, ONE) {
                Some(255)
            } else {
                Some(round_below_one(bits))
            }
        },
    }
}

/// `2^d` for an exponent that fits.
fn power_of_two(d: u64) -> (r: u64)
    requires
        d <= 63,
    ensures
        r == pow2(d as nat),
{
    proof {
        lemma2_to64();
    }
    let mut r: u64 = 1;
    let mut i: u64 = 0;
    while i < d
        invariant
            i <= d <= 63,
            r == pow2(i as nat),
            r <= 0x8000_0000_0000_0000,
        decreases d - i,
    {
        proof {
            lemma_pow2_unfold((i + 1) as nat);
            if i + 1 < 63 {
                lemma_pow2_strictly_increases((i + 1) as nat, 63);
            }
            vstd::arithmetic::power2::lemma2_to64_rest();
        }
        r = 2 * r;
        i = i + 1;
    }
    r
}

/// The level of a value strictly between zero and one.
fn round_below_one(bits: u64) -> (l: u8)
    requires
        !spec_is_nan(bits),
        0 < scaled(bits) < scaled(ONE),
    ensures
        l == spec_level(bits),
        0 <= spec_level(bits) <= 255,
{
    proof {
        lemma_magnitude_order(bits, ONE);
        lemma2_to64();
    }
    assert(bits < ONE);
    let e: u64 = bits / HIDDEN_BIT;
    let f: u64 = bits % HIDDEN_BIT;
    let sig: u64 = if e == 0 {
        f
    } else {
        HIDDEN_BIT + f
    };
    let sh: u64 = if e == 0 {
        0
    } else {
        e - 1
    };
    assert(e == exponent(bits) && f == fraction(bits) && sig == significand(bits) && sh == shift(
        bits,
    ));
    assert(sh <= 1021);
    let d: u64 = 1066 - sh;
    let ghost p = pow2((sh + 8) as nat) as int;
    let ghost unit = pow2(d as nat) as int;
    let ghost n = 256 * scaled(bits);
    proof {
        lemma_pow2_adds(d as nat, (sh + 8) as nat);
        lemma_pow2_adds(8, sh as nat);
        lemma_pow2_pos((sh + 8) as nat);
        lemma_pow2_pos(d as nat);
        let ps = pow2(sh as nat) as int;
        assert(256 * (sig * ps) == (256 * ps) * sig) by (nonlinear_arith);
        assert(n == p * sig);
        assert(pow2(1074) == p * unit) by (nonlinear_arith)
            requires
                pow2(1074) == unit * p,
        ;
        lemma_div_multiples_vanish_quotient(p, sig as int, unit);
        lemma_truncate_middle(sig as int, p, unit);
        assert(n / (pow2(1074) as int) == sig as int / unit);
        assert(n % (pow2(1074) as int) == p * (sig as int % unit));
    }
    if d >= 54 {
        proof {
            if d > 54 {
                lemma_pow2_strictly_increases(54, d as nat);
            }
            vstd::arithmetic::power2::lemma2_to64_rest();
            assert(unit >= 0x40_0000_0000_0000);
            assert(sig as int / unit == 0 && sig as int % unit == sig) by {
                vstd::arithmetic::div_mod::lemma_small_mod(sig as nat, unit as nat);
                vstd::arithmetic::div_mod::lemma_basic_div(sig as int, unit);
            }
            assert(2 * (p * sig) < p * unit) by (nonlinear_arith)
                requires
                    2 * sig < unit,
                    p > 0,
            ;
        }
        0
    } else {
        let unit_x: u64 = power_of_two(d);
        let q: u64 = sig / unit_x;
        let rem: u64 = sig % unit_x;
        proof {
            vstd::arithmetic::power2::lemma2_to64_rest();
            if d > 45 {
                lemma_pow2_strictly_increases(45, d as nat);
            }
            assert(unit_x >= 0x2000_0000_0000);
            assert(q <= 256) by (nonlinear_arith)
                requires
                    q == sig / unit_x,
                    sig < 0x20_0000_0000_0000,
                    unit_x >= 0x2000_0000_0000,
            ;
            assert((2 * (p * rem) < p * unit) == (2 * rem < unit) && (2 * (p * rem) == p * unit)
                == (2 * rem == unit)) by (nonlinear_arith)
                requires
                    p > 0,
            ;
        }
        let up: bool = 2 * rem > unit_x || (2 * rem == unit_x && q % 2 == 1);
        let r: u64 = if up {
            q + 1
        } else {
            q
        };
        if r > 255 {
            255
        } else {
            r as u8
        }
    }
}

impl Pixel {
    /// The pixel of three gamma-corrected channel values, given by their
    /// encodings; `None` where one of them stands for no number.
    pub fn from_binary64(r: u64, g: u64, b: u64) -> (p: Option<Pixel>)
        ensures
            p == (if spec_is_nan(r) || spec_is_nan(g) || spec_is_nan(b) {
                None
            } else {
                Some(
                    Pixel {
                        r: spec_level(r) as u8,
                        g: spec_level(g) as u8,
                        b: spec_level(b) as u8,
                    },
                )
            }),
    {
        match (level(r), level(g), level(b)) {
            (Some(r), Some(g), Some(b)) => Some(Pixel { r, g, b }),
            _ => None,
        }
    }

    /// The pixel's text: its three levels in decimal, separated by single
    /// spaces.
    pub fn get_string(&self) -> (s: String)
        ensures
            s@ == pixel_chars(*self),
    {
        let mut s = String::new();
        self.append_to(&mut s);
        s
    }

    /// Appends the pixel's text to `out`.
    pub fn append_to(&self, out: &mut String)
        ensures
            final(out)@ == old(out)@ + pixel_chars(*self),
    {
        append_decimal(out, self.r as u32);
        out.append(" ");
        append_decimal(out, self.g as u32);
        out.append(" ");
        append_decimal(out, self.b as u32);
        proof {
            reveal_strlit(" ");
            assert(" "@ =~= seq![' ']);
            assert(out@ =~= old(out)@ + pixel_chars(*self));
        }
    }
}

/// The text of a row of pixels, in the order of the pixels: each pixel's
/// text followed by a line feed.
pub fn row_text(pixels: &Vec<Pixel>) -> (s: String)
    ensures
        s@ == row_chars(pixels@),
{
    let mut s = String::new();
    let mut i: usize = 0;
    while i < pixels.len()
        invariant
            i <= pixels.len(),
            s@ == row_chars(pixels@.take(i as int)),
        decreases pixels.len() - i,
    {
        let ghost before = s@;
        pixels[i].append_to(&mut s);
        s.append("\n");
        proof {
            reveal_strlit("\n");
            assert("\n"@ =~= seq!['\n']);
            let next = pixels@.take(i + 1);
            assert(next.drop_last() =~= pixels@.take(i as int));
            assert(next.last() == pixels@[i as int]);
            assert(s@ =~= before + pixel_chars(pixels@[i as int]) + seq!['\n']);
        }
        i = i + 1;
    }
    proof {
        assert(pixels@.take(pixels@.len() as int) =~= pixels@);
    }
    s
}

/// The header of a plain-text pixmap of `width` by `height` pixels.
pub fn header(width: u32, height: u32) -> (s: String)
    ensures
        s@ == header_chars(width as nat, height as nat),
{
    let mut s = String::new();
    s.append("P");
    append_decimal(&mut s, FORMAT);
    s.append("\n");
    append_decimal(&mut s, width);
    s.append(" ");
    append_decimal(&mut s, height);
    s.append("\n");
    append_decimal(&mut s, MAX_LEVEL as u32);
    s.append("\n");
    proof {
        reveal_strlit("P");
        reveal_strlit(" ");
        reveal_strlit("\n");
        assert("P"@ =~= seq!['P']);
        assert(" "@ =~= seq![' ']);
        assert("\n"@ =~= seq!['\n']);
        assert(s@ =~= header_chars(width as nat, height as nat));
    }
    s
}

/// The decimal text of a number.
pub fn decimal_text(n: u32) -> (s: String)
    ensures
        s@ == decimal(n as nat),
{
    let mut s = String::new();
    append_decimal(&mut s, n);
    assert(s@ =~= decimal(n as nat));
    s
}

/// Appends the decimal text of `n` to `out`.
fn append_decimal(out: &mut String, n: u32)
    ensures
        final(out)@ == old(out)@ + decimal(n as nat),
    decreases n,
{
    if n >= 10 {
        append_decimal(out, n / 10);
    }
    out.append(digit_text(n % 10));
    proof {
        assert(out@ =~= old(out)@ + decimal(n as nat));
    }
}

/// The one-character text of a decimal digit.
fn digit_text(d: u32) -> (s: &'static str)
    requires
        d < 10,
    ensures
        s@ == seq![digit_char(d as int)],
{
    proof {
        reveal_strlit("0");
        reveal_strlit("1");
        reveal_strlit("2");
        reveal_strlit("3");
        reveal_strlit("4");
        reveal_strlit("5");
        reveal_strlit("6");
        reveal_strlit("7");
        reveal_strlit("8");
        reveal_strlit("9");
    }
    let s = if d == 0 {
        "0"
    } else if d == 1 {
        "1"
    } else if d == 2 {
        "2"
    } else if d == 3 {
        "3"
    } else if d == 4 {
        "4"
    } else if d == 5 {
        "5"
    } else if d == 6 {
        "6"
    } else if d == 7 {
        "7"
    } else if d == 8 {
        "8"
    } else {
        "9"
    };
    assert(s@ =~= seq![digit_char(d as int)]);
    s
}

} // verus!
