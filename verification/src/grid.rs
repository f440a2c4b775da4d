//! The sampling grid: where on the image plane each sample of each pixel
//! lies, as an exact fraction.
//!
//! A pixel is sampled on a square grid of `upscaling` by `upscaling` points
//! that spans one pixel, centred on the pixel. Image-plane coordinates run
//! from 0 at the first column (and the bottom scanline) to 1 at the last
//! column (and the top scanline). Rows count from the top of the image,
//! scanlines from the bottom.

use vstd::prelude::*;

verus! {

/// The exact rational number `num / den`. A zero denominator is possible: it
/// comes out for an image of a single column or a single row, where the
/// coordinate has no meaning.
#[derive(Clone, Copy, Debug, PartialEq, Eq, Structural)]
pub struct Fraction {
    pub num: i128,
    pub den: i128,
}

/// Why an image cannot be sampled.
#[derive(Clone, Copy, Debug, PartialEq, Eq, Structural)]
pub enum ImageError {
    /// The image has no columns.
    NoColumns,
    /// The image has no rows.
    NoRows,
    /// Fewer than two samples per pixel axis: the grid spacing would divide
    /// by zero.
    TooFewSamples,
}

/// The dimensions of an image and of the sample grid of its pixels.
#[derive(Clone, Copy, Debug, PartialEq, Eq, Structural)]
pub struct Image {
    width: u32,
    height: u32,
    upscaling: u32,
}

/// One sample position on the image plane.
#[derive(Clone, Copy, Debug, PartialEq, Eq, Structural)]
pub struct SamplePoint {
    /// Horizontal coordinate, 0 at the first column.
    pub u: Fraction,
    /// Vertical coordinate, 0 at the bottom scanline.
    pub v: Fraction,
}

/// Numerator of a coordinate: `index + step / (upscaling - 1) - 1/2`, over the
/// denominator `2 * (upscaling - 1)`.
pub open spec fn coordinate_num(index: int, step: int, upscaling: int) -> int {
    2 * index * (upscaling - 1) + 2 * step - (upscaling - 1)
}

/// Denominator of a coordinate along an axis of `extent` pixels.
pub open spec fn coordinate_den(extent: int, upscaling: int) -> int {
    2 * (upscaling - 1) * (extent - 1)
}

impl Image {
    /// The number of columns.
    pub closed spec fn spec_width(self) -> nat {
        self.width as nat
    }

    /// The number of rows.
    pub closed spec fn spec_height(self) -> nat {
        self.height as nat
    }

    /// The number of samples along each axis of a pixel.
    pub closed spec fn spec_upscaling(self) -> nat {
        self.upscaling as nat
    }

    /// What `new` establishes.
    #[verifier::type_invariant]
    spec fn checked(self) -> bool {
        &&& self.width >= 1
        &&& self.height >= 1
        &&& self.upscaling >= 2
    }

    /// The horizontal coordinate of a sample of a pixel in `column`.
    pub open spec fn spec_sample_u(self, column: u32, sample: u64) -> Fraction {
        Fraction {
            num: coordinate_num(
                column as int,
                sample as int / self.spec_upscaling() as int,
                self.spec_upscaling() as int,
            ) as i128,
            den: coordinate_den(self.spec_width() as int, self.spec_upscaling() as int) as i128,
        }
    }

    /// The vertical coordinate of a sample of a pixel in `scanline`.
    pub open spec fn spec_sample_v(self, scanline: u32, sample: u64) -> Fraction {
        Fraction {
            num: coordinate_num(
                scanline as int,
                sample as int % self.spec_upscaling() as int,
                self.spec_upscaling() as int,
            ) as i128,
            den: coordinate_den(self.spec_height() as int, self.spec_upscaling() as int) as i128,
        }
    }

    /// Checks the dimensions. The first fault found is reported, in the order
    /// columns, rows, samples.
    pub fn new(width: u32, height: u32, upscaling: u32) -> (r: Result<Image, ImageError>)
        ensures
            match r {
                Ok(image) => width >= 1 && height >= 1 && upscaling >= 2 && image.spec_width()
                    == width && image.spec_height() == height && image.spec_upscaling()
                    == upscaling,
                Err(ImageError::NoColumns) => width == 0,
                Err(ImageError::NoRows) => width >= 1 && height == 0,
                Err(ImageError::TooFewSamples) => width >= 1 && height >= 1 && upscaling < 2,
            },
    {
        if width == 0 {
            Err(ImageError::NoColumns)
        } else if height == 0 {
            Err(ImageError::NoRows)
        } else if upscaling < 2 {
            Err(ImageError::TooFewSamples)
        } else {
            Ok(Image { width, height, upscaling })
        }
    }

    /// The number of columns.
    pub fn width(&self) -> (w: u32)
        ensures
            w == self.spec_width(),
            w >= 1,
    {
        proof {
            use_type_invariant(self);
        }
        self.width
    }

    /// The number of rows.
    pub fn height(&self) -> (h: u32)
        ensures
            h == self.spec_height(),
            h >= 1,
    {
        proof {
            use_type_invariant(self);
        }
        self.height
    }

    /// The number of samples along each axis of a pixel.
    pub fn upscaling(&self) -> (n: u32)
        ensures
            n == self.spec_upscaling(),
            n >= 2,
    {
        proof {
            use_type_invariant(self);
        }
        self.upscaling
    }

    /// The number of samples of one pixel: `upscaling` squared.
    pub fn samples_per_pixel(&self) -> (n: u64)
        ensures
            n == self.spec_upscaling() * self.spec_upscaling(),
            n >= 4,
    {
        proof {
            use_type_invariant(self);
        }
        let side: u64 = self.upscaling as u64;
        assert(4 <= side * side <= 0xffff_ffff * 0xffff_ffff) by (nonlinear_arith)
            requires
                2 <= side <= 0xffff_ffff,
        ;
        side * side
    }

    /// The scanline, counted from the bottom, of a row counted from the top.
    /// The same function takes a scanline back to its row.
    pub fn scanline_of_row(&self, row: u32) -> (scanline: Option<u32>)
        ensures
            scanline == (if row < self.spec_height() {
                Some((self.spec_height() - 1 - row) as u32)
            } else {
                None
            }),
    {
        if row < self.height {
            Some(self.height - 1 - row)
        } else {
            None
        }
    }

    /// The horizontal coordinate of sample number `sample` of a pixel in
    /// `column`. Samples are numbered column by column of the sample grid:
    /// the horizontal step is `sample / upscaling`.
    pub fn sample_u(&self, column: u32, sample: u64) -> (f: Fraction)
        ensures
            f == self.spec_sample_u(column, sample),
            f.num == coordinate_num(
                column as int,
                sample as int / self.spec_upscaling() as int,
                self.spec_upscaling() as int,
            ),
            f.den == coordinate_den(self.spec_width() as int, self.spec_upscaling() as int),
            f.den >= 0,
            f.den == 0 <==> self.spec_width() == 1,
    {
        proof {
            use_type_invariant(self);
        }
        let step: u64 = sample / (self.upscaling as u64);
        coordinate(column, step, self.width, self.upscaling)
    }

    /// The vertical coordinate of sample number `sample` of a pixel in
    /// `scanline`: the vertical step is `sample % upscaling`.
    pub fn sample_v(&self, scanline: u32, sample: u64) -> (f: Fraction)
        ensures
            f == self.spec_sample_v(scanline, sample),
            f.num == coordinate_num(
                scanline as int,
                sample as int % self.spec_upscaling() as int,
                self.spec_upscaling() as int,
            ),
            f.den == coordinate_den(self.spec_height() as int, self.spec_upscaling() as int),
            f.den >= 0,
            f.den == 0 <==> self.spec_height() == 1,
    {
        proof {
            use_type_invariant(self);
        }
        let step: u64 = sample % (self.upscaling as u64);
        coordinate(scanline, step, self.height, self.upscaling)
    }

    /// All sample positions of the pixel at `column` of `scanline`, in the
    /// order in which they are traced.
    pub fn pixel_samples(&self, column: u32, scanline: u32) -> (points: Vec<SamplePoint>)
        ensures
            points@.len() == self.spec_upscaling() * self.spec_upscaling(),
            forall|k: int|
                0 <= k < points@.len() ==> #[trigger] points@[k] == (SamplePoint {
                    u: self.spec_sample_u(column, k as u64),
                    v: self.spec_sample_v(scanline, k as u64),
                }),
    {
        let count: u64 = self.samples_per_pixel();
        let mut points: Vec<SamplePoint> = Vec::new();
        let mut k: u64 = 0;
        while k < count
            invariant
                k <= count,
                count == self.spec_upscaling() * self.spec_upscaling(),
                points@.len() == k,
                forall|i: int|
                    0 <= i < k ==> #[trigger] points@[i] == (SamplePoint {
                        u: self.spec_sample_u(column, i as u64),
                        v: self.spec_sample_v(scanline, i as u64),
                    }),
            decreases count - k,
        {
            points.push(SamplePoint { u: self.sample_u(column, k), v: self.sample_v(scanline, k) });
            k = k + 1;
        }
        points
    }
}

/// The coordinate `index + step / (upscaling - 1) - 1/2`, divided by
/// `extent - 1`, as one fraction.
fn coordinate(index: u32, step: u64, extent: u32, upscaling: u32) -> (f: Fraction)
    requires
        extent >= 1,
        upscaling >= 2,
    ensures
        f.num == coordinate_num(index as int, step as int, upscaling as int),
        f.den == coordinate_den(extent as int, upscaling as int),
        f.den >= 0,
        f.den == 0 <==> extent == 1,
{
    let spacing: i128 = (upscaling - 1) as i128;
    let span: i128 = (extent - 1) as i128;
    let base: i128 = index as i128;
    assert(0 <= 2 * base * spacing <= 2 * 0xffff_ffff * 0xffff_ffff) by (nonlinear_arith)
        requires
            0 <= base <= 0xffff_ffff,
            1 <= spacing <= 0xffff_ffff,
    ;
    assert(0 <= 2 * spacing * span <= 2 * 0xffff_ffff * 0xffff_ffff && (2 * spacing * span == 0
        <==> span == 0)) by (nonlinear_arith)
        requires
            0 <= span <= 0xffff_ffff,
            1 <= spacing <= 0xffff_ffff,
    ;
    Fraction { num: 2 * base * spacing + 2 * (step as i128) - spacing, den: 2 * spacing * span }
}

/// Every sample of a pixel lies within half a pixel of the pixel's own
/// coordinate: the numerator differs from that of `index` by at most
/// `upscaling - 1`, which stands for one half.
pub proof fn lemma_sample_within_pixel(index: int, step: int, upscaling: int)
    requires
        upscaling >= 2,
        0 <= step < upscaling,
    ensures
        -(upscaling - 1) <= coordinate_num(index, step, upscaling) - 2 * index * (upscaling - 1)
            <= upscaling - 1,
{
}

/// The sample grid is centred: the first and the last step lie at equal
/// distance on either side of the pixel's coordinate.
pub proof fn lemma_sample_grid_centred(index: int, step: int, upscaling: int)
    requires
        upscaling >= 2,
        0 <= step < upscaling,
    ensures
        coordinate_num(index, step, upscaling) + coordinate_num(index, upscaling - 1 - step, upscaling)
            == 2 * (2 * index * (upscaling - 1)),
{
    assert(2 * index * (upscaling - 1) + 2 * index * (upscaling - 1) == 2 * (2 * index * (upscaling
        - 1))) by (nonlinear_arith);
}

/// Rows count from the top: of two rows the upper one has the greater
/// vertical coordinate at every sample step, and mirroring a row twice gives
/// the row back.
pub proof fn lemma_rows_count_from_top(height: int, upscaling: int, row_a: int, row_b: int, step: int)
    requires
        upscaling >= 2,
        0 <= row_a < row_b < height,
    ensures
        coordinate_num(height - 1 - row_a, step, upscaling) > coordinate_num(
            height - 1 - row_b,
            step,
            upscaling,
        ),
        height - 1 - (height - 1 - row_a) == row_a,
{
    assert(2 * (height - 1 - row_a) * (upscaling - 1) > 2 * (height - 1 - row_b) * (upscaling - 1))
        by (nonlinear_arith)
        requires
            upscaling >= 2,
            height - 1 - row_a > height - 1 - row_b,
    ;
}

} // verus!
