//! The verified core of a Monte Carlo path tracer.
//!
//! A renderer computes its colours in double-precision arithmetic, which is
//! left to the caller. What it decides stands here, and is proved: which
//! surface a ray meets first, whether a surface absorbs it, reflects it or
//! refracts it, how long a light path is followed, where the samples of a
//! pixel lie, how a colour becomes a pixel's text, and how scanlines are
//! spread over a pool of workers and written in image order.
//!
//! Double-precision numbers cross the boundary as the 64 bits of their
//! encoding (`binary64`), so that every comparison is a comparison of
//! integers with a stated meaning. Random numbers are drawn here, on a
//! fixed-point grid on which the rejection tests are exact (`vector`).

pub mod binary64;
pub mod grid;
pub mod material;
pub mod pixel;
pub mod plan;
pub mod scene;
pub mod scheduler;
pub mod tracer;
pub mod vector;
