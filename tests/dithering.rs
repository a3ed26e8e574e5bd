use make_it_braille::raster::lightness;
use make_it_braille::{
    Bayer2x2, Bayer4x4, BrailleImg, Ditherer, DitheringOption, GrayRaster, RgbaRaster, Sierra2Row,
    Threshold,
};

fn gray(width: u32, height: u32, pixels: Vec<u8>) -> GrayRaster {
    GrayRaster::new(width, height, pixels).unwrap()
}

fn varied(width: u32, height: u32) -> GrayRaster {
    let pixels = (0..width * height).map(|i| ((i * 37 + 11) % 256) as u8).collect();
    gray(width, height, pixels)
}

fn all_binary(g: &GrayRaster) -> bool {
    g.pixels().iter().all(|v| *v == 0 || *v == 255)
}

#[test]
fn every_strategy_leaves_black_and_white() {
    for option in [
        DitheringOption::Sierra2,
        DitheringOption::Bayer4x4,
        DitheringOption::Bayer2x2,
        DitheringOption::Threshold,
    ] {
        for (w, h) in [(1, 1), (3, 2), (7, 5), (16, 9)] {
            let mut g = varied(w, h);
            option.dither(&mut g);
            assert!(all_binary(&g));
            assert_eq!(g.width(), w);
            assert_eq!(g.height(), h);
            assert_eq!(g.pixels().len(), (w * h) as usize);
        }
    }
}

#[test]
fn bayer2x2_uniform_200() {
    let mut g = gray(4, 4, vec![200; 16]);
    Bayer2x2.dither(&mut g);
    assert_eq!(g.pixels(), &vec![255u8; 16]);
}

#[test]
fn bayer2x2_uniform_100() {
    let mut g = gray(4, 4, vec![100; 16]);
    Bayer2x2.dither(&mut g);
    let row_even = [255u8, 0, 255, 0];
    let row_odd = [0u8, 255, 0, 255];
    let expected: Vec<u8> = [row_even, row_odd, row_even, row_odd].concat();
    assert_eq!(g.pixels(), &expected);
}

#[test]
fn bayer4x4_uniform_100() {
    let mut g = gray(4, 4, vec![100; 16]);
    Bayer4x4.dither(&mut g);
    let expected: Vec<u8> = vec![
        255, 0, 255, 0, //
        0, 255, 0, 255, //
        255, 0, 255, 0, //
        0, 0, 0, 255,
    ];
    assert_eq!(g.pixels(), &expected);
}

#[test]
fn threshold_at_96() {
    let mut g = gray(4, 1, vec![96, 97, 0, 255]);
    Threshold.dither(&mut g);
    assert_eq!(g.pixels(), &vec![0, 255, 0, 255]);
}

#[test]
fn sierra_single_row() {
    let mut g = gray(2, 1, vec![100, 50]);
    Sierra2Row.dither(&mut g);
    assert_eq!(g.pixels(), &vec![255, 0]);
}

#[test]
fn sierra_spreads_error() {
    let mut g = gray(3, 2, vec![80; 6]);
    Sierra2Row.dither(&mut g);
    assert_eq!(g.pixels(), &vec![0, 0, 0, 255, 0, 255]);
}

#[test]
fn sierra_left_edge_is_skipped() {
    // the neighbours to the lower left of the first column lie outside
    let mut g = gray(1, 3, vec![200, 96, 96]);
    Sierra2Row.dither(&mut g);
    // 200 has error (200 - 255) >> 5 = -2: (0,1) gets -10 -> 86, (0,2) gets -6 -> 90;
    // 86 has error 2: (0,2) gets 10 -> 100
    assert_eq!(g.pixels(), &vec![255, 0, 255]);
}

#[test]
fn option_default_is_sierra() {
    assert_eq!(DitheringOption::default(), DitheringOption::Sierra2);
}

#[test]
fn gray_raster_checks_size() {
    assert!(GrayRaster::new(2, 2, vec![0; 3]).is_none());
    assert!(GrayRaster::new(2, 2, vec![0; 4]).is_some());
    assert!(RgbaRaster::new(2, 2, vec![0; 15]).is_none());
    assert!(RgbaRaster::new(2, 2, vec![0; 16]).is_some());
}

#[test]
fn lightness_extremes() {
    assert_eq!(lightness(255, 255, 255, 255), 255);
    assert_eq!(lightness(0, 0, 0, 255), 0);
    assert_eq!(lightness(12, 200, 77, 0), 0);
    assert_eq!(lightness(255, 255, 255, 0), 0);
}

#[test]
fn lightness_weights() {
    assert_eq!(lightness(255, 0, 0, 255), 54);
    assert_eq!(lightness(0, 255, 0, 255), 182);
    assert_eq!(lightness(0, 0, 255, 255), 18);
    assert_eq!(lightness(128, 128, 128, 128), 64);
    assert_eq!(lightness(255, 255, 255, 128), 128);
}

#[test]
fn to_gray_per_pixel() {
    let rgba = RgbaRaster::new(2, 1, vec![255, 255, 255, 255, 0, 255, 0, 255]).unwrap();
    let g = rgba.to_gray();
    assert_eq!(g.width(), 2);
    assert_eq!(g.height(), 1);
    assert_eq!(g.pixels(), &vec![255, 182]);
}

#[test]
fn from_image_black_raises_all() {
    let rgba = RgbaRaster::new(2, 4, [0u8, 0, 0, 255].repeat(8)).unwrap();
    let img = BrailleImg::from_image(rgba, Threshold, false);
    assert_eq!(img.as_str(true, true), "\u{28ff}");
}

#[test]
fn from_image_inverted_black_is_blank() {
    let rgba = RgbaRaster::new(2, 4, [0u8, 0, 0, 255].repeat(8)).unwrap();
    let img = BrailleImg::from_image(rgba, DitheringOption::Sierra2, true);
    assert_eq!(img.as_str(false, true), "\u{2800}");
}

#[test]
fn from_dithered_boundary_96() {
    let g = gray(2, 1, vec![96, 0]);
    let img = BrailleImg::from_dithered(&g, false);
    assert_eq!(img.get_dot(0, 0), Some(false));
    assert_eq!(img.get_dot(1, 0), Some(true));
    let inverted = BrailleImg::from_dithered(&g, true);
    assert_eq!(inverted.get_dot(0, 0), Some(false));
    assert_eq!(inverted.get_dot(1, 0), Some(false));
}
