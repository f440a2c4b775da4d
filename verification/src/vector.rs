//! Vectors on a fixed-point grid, and the random ones among them.
//!
//! A coordinate is an integer counted in units of `2^-53`, so `ONE` stands for
//! the real number one. The generator's uniform fraction in `[0, 1)` is exactly
//! such an integer below `ONE`, and the candidates of the two rejection
//! samplers, `2 * fraction - 1`, fall on the same grid. Squared lengths are
//! therefore computed without any rounding.

use crate::binary64::{encode_magnitude, from_fixed, is_negative, scaled, spec_is_nan, FIXED_SHIFT};
use rand::rngs::StdRng;
use rand::RngCore;
use vstd::arithmetic::power2::pow2;
use vstd::prelude::*;

verus! {

/// The standard generator of the `rand` crate, `rand::rngs::StdRng`. It is
/// carried through as an opaque value; nothing is known of its state.
#[verifier::external_type_specification]
#[verifier::external_body]
pub struct ExStdRng(rand::rngs::StdRng);

/// The integer that stands for the real number one: `2^53`.
pub const ONE: i64 = 0x20_0000_0000_0000;

/// `ONE * ONE`, the squared length of a unit vector: `2^106`.
pub const ONE_SQUARED: u128 = 0x400_0000_0000_0000_0000_0000_0000;

/// How many candidates a rejection sampler draws before it gives up.
pub const MAX_ATTEMPTS: u32 = 128;

/// A vector with fixed-point coordinates, each counted in units of `2^-53`.
#[derive(Clone, Copy, Debug, PartialEq, Eq, Structural)]
pub struct Vector {
    pub x: i64,
    pub y: i64,
    pub z: i64,
}

/// The square of an integer, as a natural number.
pub open spec fn square(v: int) -> nat {
    (v * v) as nat
}

/// The uniform fraction that a generator word stands for: its 53 high bits.
pub open spec fn fraction_of_word(word: u64) -> int {
    word as int / 2048
}

/// The coordinate in `[-ONE, ONE)` that a fraction in `[0, ONE)` is stretched to.
pub open spec fn centered(fraction: int) -> int {
    2 * fraction - ONE as int
}

impl Vector {
    /// Every coordinate lies between minus one and one, so that the
    /// double-precision format holds it exactly.
    pub open spec fn in_closed_cube(self) -> bool {
        &&& -ONE <= self.x <= ONE
        &&& -ONE <= self.y <= ONE
        &&& -ONE <= self.z <= ONE
    }

    /// Exact squared length, in units of `2^-106`.
    pub open spec fn spec_length_squared(self) -> nat {
        square(self.x as int) + square(self.y as int) + square(self.z as int)
    }

    /// The squared length is strictly below one.
    pub open spec fn in_unit_ball(self) -> bool {
        self.spec_length_squared() < ONE_SQUARED as nat
    }

    /// Every coordinate is a fraction in `[0, ONE)`.
    pub open spec fn in_unit_cube(self) -> bool {
        &&& 0 <= self.x < ONE
        &&& 0 <= self.y < ONE
        &&& 0 <= self.z < ONE
    }

    /// The vector of the fractions of three generator words.
    pub open spec fn spec_from_words(wx: u64, wy: u64, wz: u64) -> Vector {
        Vector {
            x: fraction_of_word(wx) as i64,
            y: fraction_of_word(wy) as i64,
            z: fraction_of_word(wz) as i64,
        }
    }

    /// The candidate of the ball sampler that three generator words give.
    pub open spec fn spec_ball_candidate(wx: u64, wy: u64, wz: u64) -> Vector {
        Vector {
            x: centered(fraction_of_word(wx)) as i64,
            y: centered(fraction_of_word(wy)) as i64,
            z: centered(fraction_of_word(wz)) as i64,
        }
    }

    /// The candidate of the disk sampler that two generator words give.
    pub open spec fn spec_disk_candidate(wx: u64, wy: u64) -> Vector {
        Vector {
            x: centered(fraction_of_word(wx)) as i64,
            y: centered(fraction_of_word(wy)) as i64,
            z: 0,
        }
    }

    /// The vector with the given coordinates.
    pub fn new(x: i64, y: i64, z: i64) -> (v: Vector)
        ensures
            v == (Vector { x, y, z }),
    {
        Vector { x, y, z }
    }

    /// The double-precision encodings of the three coordinates, each of
    /// which the format holds exactly; `None` where a coordinate lies
    /// outside the range from minus one to one.
    pub fn to_binary64(&self) -> (r: Option<(u64, u64, u64)>)
        ensures
            match r {
                Some((x, y, z)) => {
                    &&& self.in_closed_cube()
                    &&& !spec_is_nan(x) && scaled(x) == self.x * pow2(FIXED_SHIFT as nat)
                    &&& !spec_is_nan(y) && scaled(y) == self.y * pow2(FIXED_SHIFT as nat)
                    &&& !spec_is_nan(z) && scaled(z) == self.z * pow2(FIXED_SHIFT as nat)
                },
                None => !self.in_closed_cube(),
            },
    {
        match (from_fixed(self.x), from_fixed(self.y), from_fixed(self.z)) {
            (Some(x), Some(y), Some(z)) => Some((x, y, z)),
            _ => None,
        }
    }

    /// Exact squared length. It fits for every coordinate an `i64` can hold.
    pub fn length_squared(&self) -> (r: u128)
        ensures
            r == self.spec_length_squared(),
    {
        let sx: u128 = square_of(self.x);
        let sy: u128 = square_of(self.y);
        let sz: u128 = square_of(self.z);
        sx + sy + sz
    }

    /// Whether the vector lies strictly inside the unit ball.
    pub fn is_in_unit_ball(&self) -> (b: bool)
        ensures
            b == self.in_unit_ball(),
    {
        self.length_squared() < ONE_SQUARED
    }

    /// Candidate of the ball sampler: each word's fraction stretched to `[-1, 1)`.
    pub fn ball_candidate(wx: u64, wy: u64, wz: u64) -> (c: Vector)
        ensures
            c == Vector::spec_ball_candidate(wx, wy, wz),
            -ONE <= c.x < ONE,
            -ONE <= c.y < ONE,
            -ONE <= c.z < ONE,
    {
        Vector { x: stretch(fraction(wx)), y: stretch(fraction(wy)), z: stretch(fraction(wz)) }
    }

    /// Candidate of the disk sampler: as for the ball, in the plane `z = 0`.
    pub fn disk_candidate(wx: u64, wy: u64) -> (c: Vector)
        ensures
            c == Vector::spec_disk_candidate(wx, wy),
            -ONE <= c.x < ONE,
            -ONE <= c.y < ONE,
            c.z == 0,
    {
        Vector { x: stretch(fraction(wx)), y: stretch(fraction(wy)), z: 0 }
    }

    /// The rejection test: a candidate is kept exactly when it lies strictly
    /// inside the unit ball.
    pub fn accept(candidate: Vector) -> (r: Option<Vector>)
        ensures
            r == (if candidate.in_unit_ball() { Some(candidate) } else { None }),
    {
        if candidate.is_in_unit_ball() {
            Some(candidate)
        } else {
            None
        }
    }

    /// The vector of the fractions of three generator words.
    pub fn from_words(wx: u64, wy: u64, wz: u64) -> (v: Vector)
        ensures
            v == Vector::spec_from_words(wx, wy, wz),
            v.x == fraction_of_word(wx),
            v.y == fraction_of_word(wy),
            v.z == fraction_of_word(wz),
            v.in_unit_cube(),
    {
        Vector { x: fraction(wx) as i64, y: fraction(wy) as i64, z: fraction(wz) as i64 }
    }

    /// A vector with three fresh uniform fractions as coordinates.
    pub fn random(rng: &mut StdRng) -> (v: Vector)
        ensures
            v.in_unit_cube(),
            exists|wx: u64, wy: u64, wz: u64| v == #[trigger] Vector::spec_from_words(wx, wy, wz),
    {
        let wx: u64 = next_word(rng);
        let wy: u64 = next_word(rng);
        let wz: u64 = next_word(rng);
        Vector::from_words(wx, wy, wz)
    }

    /// Draws candidates in the cube `[-1, 1)^3` until one lies strictly inside
    /// the unit ball, and returns it. After `MAX_ATTEMPTS` rejected candidates
    /// it returns `None`.
    pub fn random_in_unit_sphere(rng: &mut StdRng) -> (r: Option<Vector>)
        ensures
            exists|draws: Seq<(u64, u64, u64)>| #[trigger] Vector::ball_sampled(draws, r),
            r matches Some(p) ==> p.in_unit_ball() && -ONE <= p.x < ONE && -ONE <= p.y < ONE && -ONE
                <= p.z < ONE,
    {
        let mut attempt: u32 = 0;
        let ghost mut draws: Seq<(u64, u64, u64)> = Seq::empty();
        while attempt < MAX_ATTEMPTS
            invariant
                attempt <= MAX_ATTEMPTS && Vector::ball_rejected(draws, attempt as nat),
            decreases MAX_ATTEMPTS - attempt,
        {
            let w: (u64, u64, u64) = next_triple(rng);
            proof { lemma_ball_draw(draws, w); draws = draws.push(w); }
            let kept = Vector::accept(Vector::ball_candidate(w.0, w.1, w.2));
            if kept.is_some() {
                return kept;
            }
            attempt = attempt + 1;
        }
        assert(Vector::ball_sampled(draws, None));
        None
    }

    /// Draws candidates in the square `[-1, 1)^2` of the plane `z = 0` until
    /// one lies strictly inside the unit disk, and returns it. After
    /// `MAX_ATTEMPTS` rejected candidates it returns `None`.
    pub fn random_in_unit_disk(rng: &mut StdRng) -> (r: Option<Vector>)
        ensures
            exists|draws: Seq<(u64, u64)>| #[trigger] Vector::disk_sampled(draws, r),
            r matches Some(p) ==> p.in_unit_ball() && -ONE <= p.x < ONE && -ONE <= p.y < ONE && p.z
                == 0,
    {
        let mut attempt: u32 = 0;
        let ghost mut draws: Seq<(u64, u64)> = Seq::empty();
        while attempt < MAX_ATTEMPTS
            invariant
                attempt <= MAX_ATTEMPTS && Vector::disk_rejected(draws, attempt as nat),
            decreases MAX_ATTEMPTS - attempt,
        {
            let w: (u64, u64) = next_pair(rng);
            proof { lemma_disk_draw(draws, w); draws = draws.push(w); }
            let kept = Vector::accept(Vector::disk_candidate(w.0, w.1));
            if kept.is_some() {
                return kept;
            }
            attempt = attempt + 1;
        }
        assert(Vector::disk_sampled(draws, None));
        None
    }
}

impl Vector {
    /// The candidate of the ball sampler that one draw of three generator
    /// words gives.
    pub open spec fn ball_draw(draw: (u64, u64, u64)) -> Vector {
        Vector::spec_ball_candidate(draw.0, draw.1, draw.2)
    }

    /// The candidate of the disk sampler that one draw of two generator
    /// words gives.
    pub open spec fn disk_draw(draw: (u64, u64)) -> Vector {
        Vector::spec_disk_candidate(draw.0, draw.1)
    }

    /// `draws` are `n` draws, and the candidate of each lies outside the open
    /// unit ball.
    pub open spec fn ball_rejected(draws: Seq<(u64, u64, u64)>, n: nat) -> bool {
        &&& draws.len() == n
        &&& forall|i: int|
            0 <= i < draws.len() ==> !(#[trigger] Vector::ball_draw(draws[i])).in_unit_ball()
    }

    /// `draws` are `n` draws, and the candidate of each lies outside the open
    /// unit disk.
    pub open spec fn disk_rejected(draws: Seq<(u64, u64)>, n: nat) -> bool {
        &&& draws.len() == n
        &&& forall|i: int|
            0 <= i < draws.len() ==> !(#[trigger] Vector::disk_draw(draws[i])).in_unit_ball()
    }

    /// What the ball sampler returns when `draws` are the draws that it
    /// takes from the generator, in their order. It returns a point when
    /// the last of at most `MAX_ATTEMPTS` draws is the first whose candidate
    /// lies inside the open unit ball, and the point is that candidate. It
    /// returns `None` when it took `MAX_ATTEMPTS` draws and the candidate of
    /// every one lies outside.
    pub open spec fn ball_sampled(draws: Seq<(u64, u64, u64)>, r: Option<Vector>) -> bool {
        match r {
            Some(p) => {
                &&& 1 <= draws.len() <= MAX_ATTEMPTS
                &&& Vector::ball_rejected(draws.drop_last(), (draws.len() - 1) as nat)
                &&& p == Vector::ball_draw(draws.last())
                &&& p.in_unit_ball()
            },
            None => Vector::ball_rejected(draws, MAX_ATTEMPTS as nat),
        }
    }

    /// What the disk sampler returns when `draws` are the draws that it
    /// takes from the generator, in their order: as for the ball, with the
    /// candidates of the disk sampler.
    pub open spec fn disk_sampled(draws: Seq<(u64, u64)>, r: Option<Vector>) -> bool {
        match r {
            Some(p) => {
                &&& 1 <= draws.len() <= MAX_ATTEMPTS
                &&& Vector::disk_rejected(draws.drop_last(), (draws.len() - 1) as nat)
                &&& p == Vector::disk_draw(draws.last())
                &&& p.in_unit_ball()
            },
            None => Vector::disk_rejected(draws, MAX_ATTEMPTS as nat),
        }
    }
}

/// One more draw of the ball sampler after `n` rejected ones: the sampler
/// ends with its candidate if that lies inside the open unit ball, and has
/// `n + 1` rejected draws if not.
proof fn lemma_ball_draw(draws: Seq<(u64, u64, u64)>, draw: (u64, u64, u64))
    requires
        draws.len() < MAX_ATTEMPTS,
        Vector::ball_rejected(draws, draws.len()),
    ensures
        Vector::ball_draw(draw).in_unit_ball() ==> Vector::ball_sampled(
            draws.push(draw),
            Some(Vector::ball_draw(draw)),
        ),
        !Vector::ball_draw(draw).in_unit_ball() ==> Vector::ball_rejected(
            draws.push(draw),
            draws.len() + 1,
        ),
{
    assert(draws.push(draw).drop_last() =~= draws);
}

/// One more draw of the disk sampler after `n` rejected ones: the sampler
/// ends with its candidate if that lies inside the open unit disk, and has
/// `n + 1` rejected draws if not.
proof fn lemma_disk_draw(draws: Seq<(u64, u64)>, draw: (u64, u64))
    requires
        draws.len() < MAX_ATTEMPTS,
        Vector::disk_rejected(draws, draws.len()),
    ensures
        Vector::disk_draw(draw).in_unit_ball() ==> Vector::disk_sampled(
            draws.push(draw),
            Some(Vector::disk_draw(draw)),
        ),
        !Vector::disk_draw(draw).in_unit_ball() ==> Vector::disk_rejected(
            draws.push(draw),
            draws.len() + 1,
        ),
{
    assert(draws.push(draw).drop_last() =~= draws);
}

/// The uniform fraction in `[0, ONE)` that a generator word stands for.
pub fn fraction(word: u64) -> (k: u64)
    ensures
        k == fraction_of_word(word),
        k < ONE,
{
    let k: u64 = word >> 11;
    assert(k == word / 2048 && k < 0x20_0000_0000_0000u64) by (bit_vector)
        requires
            k == word >> 11,
    ;
    k
}

/// The encoding of the uniform number in `[0, 1)` that a generator word
/// stands for: its fraction, which the double-precision format holds exactly.
pub fn unit_of_word(word: u64) -> (bits: u64)
    ensures
        !spec_is_nan(bits),
        !is_negative(bits),
        scaled(bits) == fraction_of_word(word) * pow2(FIXED_SHIFT as nat),
{
    encode_magnitude(fraction(word))
}

/// A fresh uniform number in `[0, 1)`, as its double-precision encoding.
pub fn random_f64(rng: &mut StdRng) -> (bits: u64)
    ensures
        !spec_is_nan(bits),
        !is_negative(bits),
        exists|k: int| 0 <= k < ONE && scaled(bits) == #[trigger] (k * pow2(FIXED_SHIFT as nat)),
{
    let word: u64 = next_word(rng);
    let bits: u64 = unit_of_word(word);
    assert(scaled(bits) == fraction_of_word(word) * pow2(FIXED_SHIFT as nat));
    bits
}

/// Stretches a fraction in `[0, ONE)` to a coordinate in `[-ONE, ONE)`.
fn stretch(k: u64) -> (c: i64)
    requires
        k < ONE,
    ensures
        c == centered(k as int),
        -ONE <= c < ONE,
{
    2 * (k as i64) - ONE
}

/// The square of a coordinate.
fn square_of(v: i64) -> (s: u128)
    ensures
        s == square(v as int),
        s <= 0x4000_0000_0000_0000_0000_0000_0000_0000,
{
    let m: u64 = if v < 0 {
        (-(v + 1)) as u64 + 1
    } else {
        v as u64
    };
    let w: u128 = m as u128;
    assert(w * w == v * v && w * w <= 0x4000_0000_0000_0000_0000_0000_0000_0000) by (nonlinear_arith)
        requires
            w == v || w == -v,
            0 <= w <= 0x8000_0000_0000_0000,
    ;
    w * w
}

/// The next three words of the generator, in the order in which they come.
fn next_triple(rng: &mut StdRng) -> (w: (u64, u64, u64)) {
    let wx: u64 = next_word(rng);
    let wy: u64 = next_word(rng);
    let wz: u64 = next_word(rng);
    (wx, wy, wz)
}

/// The next two words of the generator, in the order in which they come.
fn next_pair(rng: &mut StdRng) -> (w: (u64, u64)) {
    let wx: u64 = next_word(rng);
    let wy: u64 = next_word(rng);
    (wx, wy)
}

/// Takes the next 64 bits from the generator with `RngCore::next_u64`. Nothing
/// is claimed of the word: every value may come.
#[verifier::external_body]
fn next_word(rng: &mut StdRng) -> (word: u64) {
    rng.next_u64()
}

} // verus!
