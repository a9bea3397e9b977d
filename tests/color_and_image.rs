use pixelset::color::{black, white, ColorParseError};
use pixelset::{Bounds, Color, Pixel, PixelSet};

fn points(set: &PixelSet) -> Vec<(u16, u16)> {
    set.iter().map(|p| (p.x, p.y)).collect()
}

#[test]
fn hex_parses_six_and_eight_digits() {
    assert_eq!(Color::hex("#ff8000").unwrap(), Color([255, 128, 0, 255]));
    assert_eq!(Color::hex("10203040").unwrap(), Color([16, 32, 48, 64]));
    assert_eq!(Color::hex("##AbCdEf").unwrap(), Color([171, 205, 239, 255]));
}

#[test]
fn hex_rejects_bad_length() {
    assert!(matches!(Color::hex("#fff"), Err(ColorParseError::InvalidLength(3))));
    assert!(matches!(Color::hex(""), Err(ColorParseError::InvalidLength(0))));
    assert!(matches!(Color::hex("#1234567"), Err(ColorParseError::InvalidLength(7))));
}

#[test]
fn hex_names_the_bad_channel() {
    assert!(matches!(Color::hex("zz0000"), Err(ColorParseError::InvalidHex("R", _))));
    assert!(matches!(Color::hex("00zz00"), Err(ColorParseError::InvalidHex("G", _))));
    assert!(matches!(Color::hex("0000g0"), Err(ColorParseError::InvalidHex("B", _))));
    assert!(matches!(Color::hex("000000-1"), Err(ColorParseError::InvalidHex("A", _))));
    assert!(matches!(Color::hex("ééé"), Err(ColorParseError::InvalidHex(_, _))));
    assert!(matches!(Color::hex("aé0000"), Err(ColorParseError::InvalidLength(7))));
}

#[test]
fn hex_accepts_a_plus_sign_digit() {
    assert_eq!(Color::hex("+f0000").unwrap(), Color([15, 0, 0, 255]));
}

#[test]
fn blend_ends_and_middle() {
    let a = Color([0, 100, 200, 255]);
    let b = Color([255, 0, 100, 0]);
    assert_eq!(a.blend(b, 0), a);
    assert_eq!(a.blend(b, 255), b);
    assert_eq!(a.blend(b, 128), Color([128, 49, 149, 127]));
}

#[test]
fn grayscale_uses_luma_weights() {
    assert_eq!(Color([255, 0, 0, 7]).grayscale(), Color([76, 76, 76, 7]));
    assert_eq!(Color([10, 20, 30, 255]).grayscale(), Color([18, 18, 18, 255]));
    assert_eq!(white().grayscale(), white());
    assert_eq!(black(), Color([0, 0, 0, 255]));
}

#[test]
fn mean_of_colors() {
    assert_eq!(Color::mean(&vec![]), None);
    let m = Color::mean(&vec![Color([0, 10, 255, 255]), Color([3, 20, 0, 255])]);
    assert_eq!(m, Some(Color([1, 15, 127, 255])));
}

#[test]
fn random_color_is_opaque() {
    for _ in 0..10 {
        assert_eq!(Color::random().0[3], 255);
    }
}

#[test]
fn color_array_conversions() {
    let c = Color::from([1, 2, 3, 4]);
    assert_eq!(c, Color([1, 2, 3, 4]));
    let a: [u8; 4] = c.into();
    assert_eq!(a, [1, 2, 3, 4]);
}

#[test]
fn from_image_lists_every_pixel() {
    let s = PixelSet::from_image(Bounds { width: 3, height: 2 });
    assert_eq!(points(&s), vec![(0, 0), (1, 0), (2, 0), (0, 1), (1, 1), (2, 1)]);
    assert!(PixelSet::from_image(Bounds { width: 0, height: 5 }).is_empty());
}

#[test]
fn pixel_neighbors_inside_bounds() {
    let image = Bounds { width: 3, height: 3 };
    let n = Pixel::new(0, 0).neighbors(image);
    assert_eq!(points(&n), vec![(1, 0), (0, 1), (1, 1)]);
    let n = Pixel::new(1, 1).neighbors(image);
    assert_eq!(n.len(), 8);
    assert!(!n.has(Pixel::new(1, 1)));
}

#[test]
fn set_neighbors_and_touching() {
    let image = Bounds { width: 5, height: 5 };
    let s = PixelSet::new(vec![Pixel::new(0, 0), Pixel::new(1, 0)]);
    assert_eq!(points(&s.neighbors(image)), vec![(0, 0), (1, 0), (2, 0), (0, 1), (1, 1), (2, 1)]);
    let other = PixelSet::new(vec![Pixel::new(3, 0), Pixel::new(4, 4)]);
    let t = PixelSet::new(vec![Pixel::new(2, 1), Pixel::new(0, 4), Pixel::new(3, 3)]).touching(&other, image);
    assert_eq!(points(&t), vec![(2, 1), (3, 3)]);
}
