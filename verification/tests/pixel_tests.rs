use path_tracer::pixel::{decimal_text, header, level, row_text, Pixel, FORMAT, MAX_LEVEL};

fn level_of(v: f64) -> Option<u8> {
    level(v.to_bits())
}

#[test]
fn level_is_between_0_and_255() {
    assert_eq!(MAX_LEVEL, 255);
    assert_eq!(level_of(0.0), Some(0));
    assert_eq!(level_of(-0.0), Some(0));
    assert_eq!(level_of(1.0), Some(255));
    assert_eq!(level_of(0.5), Some(128));
    assert_eq!(level_of(0.25), Some(64));
    assert_eq!(level_of(-3.5), Some(0));
    assert_eq!(level_of(17.0), Some(255));
    assert_eq!(level_of(f64::INFINITY), Some(255));
    assert_eq!(level_of(f64::NEG_INFINITY), Some(0));
    assert_eq!(level_of(f64::MIN_POSITIVE), Some(0));
    assert_eq!(level_of(5e-324), Some(0));
    assert_eq!(level_of(f64::MAX), Some(255));
}

#[test]
fn level_of_no_number_is_none() {
    assert_eq!(level_of(f64::NAN), None);
    assert_eq!(level(0x7ff0_0000_0000_0001), None);
    assert_eq!(level(0xffff_ffff_ffff_ffff), None);
}

#[test]
fn level_rounds_to_nearest_with_ties_to_even() {
    // 256 * v is exactly k + 1/2: the even neighbour wins.
    assert_eq!(level_of(0.5 / 256.0), Some(0));
    assert_eq!(level_of(1.5 / 256.0), Some(2));
    assert_eq!(level_of(2.5 / 256.0), Some(2));
    assert_eq!(level_of(3.5 / 256.0), Some(4));
    assert_eq!(level_of(254.5 / 256.0), Some(254));
    assert_eq!(level_of(255.5 / 256.0), Some(255));
    // Just off the tie.
    assert_eq!(level_of(f64::from_bits((0.5f64 / 256.0).to_bits() + 1)), Some(1));
    assert_eq!(level_of(f64::from_bits((0.5f64 / 256.0).to_bits() - 1)), Some(0));
    assert_eq!(level_of(f64::from_bits((2.5f64 / 256.0).to_bits() + 1)), Some(3));
    assert_eq!(level_of(f64::from_bits((2.5f64 / 256.0).to_bits() - 1)), Some(2));
    // The greatest value below one rounds to 256 and is limited to 255.
    assert_eq!(level_of(f64::from_bits(1.0f64.to_bits() - 1)), Some(255));
}

#[test]
fn level_agrees_with_std_formatting_below_the_limit() {
    let mut v = 0.0f64;
    while v < 1.0 {
        let text = format!("{:.0}", v * 256.0);
        let expected: u32 = text.parse().unwrap();
        assert_eq!(level_of(v).map(u32::from), Some(expected.min(255)), "value {}", v);
        v += 0.000_731;
    }
    for k in 0..256u32 {
        let tie = (k as f64 + 0.5) / 256.0;
        let expected: u32 = format!("{:.0}", tie * 256.0).parse().unwrap();
        assert_eq!(level_of(tie).map(u32::from), Some(expected.min(255)), "tie {}", k);
        assert_eq!(level_of(k as f64 / 256.0), Some(k as u8));
    }
}

#[test]
fn from_binary64_makes_each_channel_a_level() {
    assert_eq!(
        Pixel::from_binary64(2.0f64.to_bits(), (-1.0f64).to_bits(), 0.5f64.to_bits()),
        Some(Pixel { r: 255, g: 0, b: 128 })
    );
    assert_eq!(
        Pixel::from_binary64(0.0f64.to_bits(), f64::NAN.to_bits(), 0.5f64.to_bits()),
        None
    );
}

#[test]
fn pixel_text_is_three_numbers() {
    assert_eq!(Pixel { r: 255, g: 0, b: 128 }.get_string(), "255 0 128");
    assert_eq!(Pixel { r: 0, g: 0, b: 0 }.get_string(), "0 0 0");
    assert_eq!(Pixel { r: 9, g: 10, b: 99 }.get_string(), "9 10 99");
    assert_eq!(Pixel { r: 100, g: 101, b: 200 }.get_string(), "100 101 200");
}

#[test]
fn pixel_text_agrees_with_std_formatting() {
    for r in 0..=255u8 {
        let p = Pixel { r, g: 255 - r, b: r / 2 };
        assert_eq!(p.get_string(), format!("{} {} {}", p.r, p.g, p.b));
    }
}

#[test]
fn append_keeps_what_was_there() {
    let mut s = String::from("x:");
    Pixel { r: 1, g: 2, b: 3 }.append_to(&mut s);
    assert_eq!(s, "x:1 2 3");
}

#[test]
fn row_text_has_one_line_per_pixel() {
    assert_eq!(row_text(&vec![]), "");
    let row = vec![Pixel { r: 1, g: 2, b: 3 }, Pixel { r: 40, g: 50, b: 60 }];
    assert_eq!(row_text(&row), "1 2 3\n40 50 60\n");
}

#[test]
fn header_names_format_size_and_depth() {
    assert_eq!(FORMAT, 3);
    let magic = format!("P{}", FORMAT);
    assert_eq!(header(400, 225), format!("{}\n400 225\n255\n", magic));
    assert_eq!(header(0, 0), format!("{}\n0 0\n255\n", magic));
    assert_eq!(header(u32::MAX, 1), format!("{}\n4294967295 1\n255\n", magic));
    assert_eq!(header(1, 2).lines().count(), 3);
}

#[test]
fn decimal_text_has_no_leading_zeros() {
    assert_eq!(decimal_text(0), "0");
    assert_eq!(decimal_text(7), "7");
    assert_eq!(decimal_text(10), "10");
    assert_eq!(decimal_text(1000), "1000");
    assert_eq!(decimal_text(4294967295), "4294967295");
    for n in [1u32, 9, 11, 99, 100, 101, 12345, 65535, 65536] {
        assert_eq!(decimal_text(n), n.to_string());
    }
}
