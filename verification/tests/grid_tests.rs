use path_tracer::grid::{Fraction, Image, ImageError, SamplePoint};

fn value(f: Fraction) -> f64 {
    f.num as f64 / f.den as f64
}

#[test]
fn dimensions_are_checked_in_order() {
    assert_eq!(Image::new(0, 0, 0), Err(ImageError::NoColumns));
    assert_eq!(Image::new(0, 5, 3), Err(ImageError::NoColumns));
    assert_eq!(Image::new(5, 0, 1), Err(ImageError::NoRows));
    assert_eq!(Image::new(5, 5, 0), Err(ImageError::TooFewSamples));
    assert_eq!(Image::new(5, 5, 1), Err(ImageError::TooFewSamples));
    assert!(Image::new(5, 5, 2).is_ok());
    assert!(Image::new(1, 1, u32::MAX).is_ok());
    assert!(Image::new(u32::MAX, u32::MAX, u32::MAX).is_ok());
}

#[test]
fn getters_give_back_the_dimensions() {
    let image = Image::new(400, 225, 10).unwrap();
    assert_eq!(image.width(), 400);
    assert_eq!(image.height(), 225);
    assert_eq!(image.upscaling(), 10);
    assert_eq!(image.samples_per_pixel(), 100);
    assert_eq!(
        Image::new(1, 1, u32::MAX).unwrap().samples_per_pixel(),
        (u32::MAX as u64) * (u32::MAX as u64)
    );
}

#[test]
fn rows_count_from_the_top_scanlines_from_the_bottom() {
    let image = Image::new(4, 3, 2).unwrap();
    assert_eq!(image.scanline_of_row(0), Some(2));
    assert_eq!(image.scanline_of_row(1), Some(1));
    assert_eq!(image.scanline_of_row(2), Some(0));
    assert_eq!(image.scanline_of_row(3), None);
    for row in 0..3 {
        let back = image.scanline_of_row(image.scanline_of_row(row).unwrap());
        assert_eq!(back, Some(row));
    }
}

#[test]
fn sample_coordinates_are_exact() {
    let image = Image::new(3, 2, 2).unwrap();
    // Column 1, horizontal step 1 of 0..=1: (1 + 1/1 - 1/2) / 2 = 3/4.
    assert_eq!(image.sample_u(1, 3), Fraction { num: 3, den: 4 });
    assert_eq!(image.sample_u(1, 2), Fraction { num: 3, den: 4 });
    // Horizontal step 0: (1 + 0 - 1/2) / 2 = 1/4.
    assert_eq!(image.sample_u(1, 0), Fraction { num: 1, den: 4 });
    assert_eq!(image.sample_u(1, 1), Fraction { num: 1, den: 4 });
    // Scanline 0, vertical step 1: (0 + 1 - 1/2) / 1 = 1/2.
    assert_eq!(image.sample_v(0, 3), Fraction { num: 1, den: 2 });
    assert_eq!(image.sample_v(0, 2), Fraction { num: -1, den: 2 });
    assert_eq!(image.sample_v(1, 1), Fraction { num: 3, den: 2 });
}

#[test]
fn sample_coordinates_follow_the_formula() {
    let image = Image::new(400, 225, 10).unwrap();
    for &(i, j, x) in &[(0u32, 0u32, 0u64), (399, 224, 99), (17, 100, 37), (200, 3, 50)] {
        let u = (i as f64 + (x / 10) as f64 / 9.0 - 0.5) / 399.0;
        let v = (j as f64 + (x % 10) as f64 / 9.0 - 0.5) / 224.0;
        assert!((value(image.sample_u(i, x)) - u).abs() < 1e-12);
        assert!((value(image.sample_v(j, x)) - v).abs() < 1e-12);
    }
}

#[test]
fn single_column_gives_a_zero_denominator() {
    let image = Image::new(1, 7, 3).unwrap();
    assert_eq!(image.sample_u(0, 0).den, 0);
    assert_eq!(image.sample_v(0, 0).den, 2 * 2 * 6);
    let flat = Image::new(7, 1, 3).unwrap();
    assert_eq!(flat.sample_v(0, 0).den, 0);
    assert_eq!(flat.sample_u(0, 0).den, 2 * 2 * 6);
}

#[test]
fn largest_image_does_not_overflow() {
    let image = Image::new(u32::MAX, u32::MAX, u32::MAX).unwrap();
    let f = image.sample_u(u32::MAX, u64::MAX);
    let spacing = u32::MAX as i128 - 1;
    assert_eq!(
        f.num,
        2 * (u32::MAX as i128) * spacing + 2 * ((u64::MAX / u32::MAX as u64) as i128) - spacing
    );
    assert_eq!(f.den, 2 * spacing * (u32::MAX as i128 - 1));
    let g = image.sample_v(u32::MAX, u64::MAX);
    assert_eq!(
        g.num,
        2 * (u32::MAX as i128) * spacing + 2 * ((u64::MAX % u32::MAX as u64) as i128) - spacing
    );
}

#[test]
fn pixel_samples_lists_the_whole_grid() {
    let image = Image::new(8, 6, 3).unwrap();
    let points = image.pixel_samples(5, 2);
    assert_eq!(points.len(), 9);
    for (k, p) in points.iter().enumerate() {
        assert_eq!(
            *p,
            SamplePoint { u: image.sample_u(5, k as u64), v: image.sample_v(2, k as u64) }
        );
    }
    // The grid is centred on the pixel: the coordinates average to the pixel's own.
    let sum_u: i128 = points.iter().map(|p| p.u.num).sum();
    let sum_v: i128 = points.iter().map(|p| p.v.num).sum();
    assert_eq!(sum_u, 9 * 2 * 5 * 2);
    assert_eq!(sum_v, 9 * 2 * 2 * 2);
}

#[test]
fn samples_stay_within_half_a_pixel() {
    let image = Image::new(8, 6, 4).unwrap();
    for x in 0..16 {
        let f = image.sample_u(3, x);
        let centre = 2 * 3 * 3;
        assert!((f.num - centre).abs() <= 3);
    }
}
