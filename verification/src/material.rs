//! What a surface does with a ray, as far as it is a matter of cases: which
//! materials can absorb, and when glass reflects.
//!
//! The quantities themselves are computed by the caller in double precision
//! and reach this module by their encodings; the comparisons are made here.

use crate::binary64::{less, min, spec_is_nan, spec_less, ONE, ZERO};
use crate::tracer::Bounce;
use vstd::prelude::*;

verus! {

/// The kinds of material.
#[derive(Clone, Copy, Debug, PartialEq, Eq, Structural)]
pub enum Material {
    /// Diffuse: scatters about the normal.
    Lambertian,
    /// Mirror-like, roughened by a fuzz.
    Metal,
    /// Clear: reflects or refracts.
    Dielectric,
}

/// The way in which a dielectric sends a ray on.
#[derive(Clone, Copy, Debug, PartialEq, Eq, Structural)]
pub enum Bend {
    Reflect,
    Refract,
}

impl Material {
    /// Whether a surface of this material sends a ray on. `outgoing` is the
    /// dot product of the outgoing direction with the stored normal. Only
    /// metal absorbs, and it absorbs unless that product is positive.
    pub open spec fn scatters(self, outgoing: u64) -> bool {
        self != Material::Metal || spec_less(ZERO, outgoing)
    }

    /// What a hit on this material means for the path: `Scattered` where
    /// the surface sends the ray on, `Absorbed` where it does not.
    /// `outgoing` is the encoding of the dot product of the outgoing
    /// direction with the stored normal.
    pub fn scatter(&self, outgoing: u64) -> (b: Bounce)
        ensures
            b == (if self.scatters(outgoing) {
                Bounce::Scattered
            } else {
                Bounce::Absorbed
            }),
            *self != Material::Metal ==> b == Bounce::Scattered,
            *self == Material::Metal ==> (b == Bounce::Absorbed <==> !spec_less(ZERO, outgoing)),
    {
        match self {
            Material::Metal => if less(ZERO, outgoing) {
                Bounce::Scattered
            } else {
                Bounce::Absorbed
            },
            _ => Bounce::Scattered,
        }
    }
}

/// The cosine of the angle of incidence at a dielectric, from the dot product
/// of the stored normal with the reversed unit direction of the ray: that
/// product, limited to one.
pub fn cosine(dot: u64) -> (c: u64)
    ensures
        c == (if spec_is_nan(dot) || spec_less(ONE, dot) {
            ONE
        } else {
            dot
        }),
{
    min(dot, ONE)
}

/// What a dielectric does with a ray. It reflects where refraction is
/// impossible, the ratio of refractive indices times the sine of the angle
/// of incidence being greater than one, or where the reflectance exceeds the
/// random draw; else it refracts. The three quantities are given by their
/// encodings.
pub fn bend(ratio_sine: u64, reflectance: u64, draw: u64) -> (b: Bend)
    ensures
        b == (if spec_less(ONE, ratio_sine) || spec_less(draw, reflectance) {
            Bend::Reflect
        } else {
            Bend::Refract
        }),
{
    if less(ONE, ratio_sine) || less(draw, reflectance) {
        Bend::Reflect
    } else {
        Bend::Refract
    }
}

} // verus!
