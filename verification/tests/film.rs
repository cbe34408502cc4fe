use std::cell::RefCell;

use film::{inv_lerp, scale_to_level, Depthmap, Frame, Heatmap, ToBmp, VisError, MISS};

/// A new frame holds exactly `width * height` pixels, all equal to the
/// initial value, and the enumeration visits every coordinate of the grid
/// exactly once.
#[test]
fn new_frame_is_uniform_and_visited_once() {
    let frame: Frame<u32> = Frame::new(3, 2, 7);
    let visits: RefCell<Vec<(u32, u32, u32)>> = RefCell::new(Vec::new());
    frame.for_each_pixel(|x, y, v| {
        visits.borrow_mut().push((x, y, v));
    });
    let visits = visits.into_inner();
    assert_eq!(visits.len(), 6);
    for x in 0..3u32 {
        for y in 0..2u32 {
            let hits: Vec<_> = visits.iter().filter(|t| t.0 == x && t.1 == y).collect();
            assert_eq!(hits.len(), 1);
            assert_eq!(hits[0].2, 7);
        }
    }
}

#[test]
fn empty_frame_has_no_pixels() {
    let frame: Frame<u32> = Frame::new(0, 5, 1);
    let count: RefCell<u32> = RefCell::new(0);
    frame.for_each_pixel(|_, _, _| {
        *count.borrow_mut() += 1;
    });
    assert_eq!(count.into_inner(), 0);
}

/// After parallel synthesis, enumeration observes at each coordinate the
/// generator's value for exactly that coordinate.
#[test]
fn set_pixels_then_observe_generator_values() {
    let mut frame: Frame<u32> = Frame::new(4, 3, 0);
    frame.set_pixels(|x, y| x * 100 + y);
    let visits: RefCell<Vec<(u32, u32, u32)>> = RefCell::new(Vec::new());
    frame.for_each_pixel(|x, y, v| {
        visits.borrow_mut().push((x, y, v));
    });
    let visits = visits.into_inner();
    assert_eq!(visits.len(), 12);
    for (x, y, v) in visits {
        assert_eq!(v, x * 100 + y);
    }
}

/// The interpolation coefficient is 0 at the lower bound, 1 at the upper
/// bound, and exact in between.
#[test]
fn inv_lerp_hits_the_ends_exactly() {
    let t0 = inv_lerp(5, 5, 10);
    assert_eq!(t0, (0, 5));
    let t1 = inv_lerp(10, 5, 10);
    assert_eq!(t1, (5, 5));
    let tm = inv_lerp(7, 5, 10);
    assert_eq!(tm, (2, 5));
}

#[test]
fn scale_to_level_rounds_half_up() {
    assert_eq!(scale_to_level(0, 20, false), 0);
    assert_eq!(scale_to_level(10, 20, false), 128);
    assert_eq!(scale_to_level(20, 20, false), 255);
    assert_eq!(scale_to_level(0, 20, true), 255);
    assert_eq!(scale_to_level(10, 20, true), 128);
    assert_eq!(scale_to_level(20, 20, true), 0);
    assert_eq!(scale_to_level(1, 3, false), 85);
}

/// A depth frame whose every pixel is the miss sentinel has no range to
/// normalize and fails with the degenerate-input error.
#[test]
fn depthmap_all_sentinel_fails() {
    let frame: Frame<u32> = Frame::new(2, 2, MISS);
    let result = Depthmap(frame).to_bmp();
    assert_eq!(result.unwrap_err(), VisError::DegenerateInput);
}

/// A depth frame with exactly one finite value also has no range to
/// normalize and fails the same way.
#[test]
fn depthmap_single_finite_value_fails() {
    let mut frame: Frame<u32> = Frame::new(2, 2, 0);
    frame.set_pixels(|x, y| if x == 0 && y == 0 { 1500 } else { MISS });
    let result = Depthmap(frame).to_bmp();
    assert_eq!(result.unwrap_err(), VisError::DegenerateInput);
}

/// All finite depths equal: still no usable range.
#[test]
fn depthmap_equal_finite_values_fail() {
    let frame: Frame<u32> = Frame::new(3, 3, 4200);
    let result = Depthmap(frame).to_bmp();
    assert_eq!(result.unwrap_err(), VisError::DegenerateInput);
}

/// The smallest finite depth is brightest, the largest darkest, and the
/// sentinel is always the fixed blue.
#[test]
fn depthmap_extremes_map_to_white_and_black() {
    let mut frame: Frame<u32> = Frame::new(2, 2, 0);
    frame.set_pixels(|x, y| match (x, y) {
        (0, 0) => 10,
        (0, 1) => 20,
        (1, 0) => 30,
        _ => MISS,
    });
    let img = Depthmap(frame).to_bmp().unwrap();
    assert_eq!(img.get_pixel(0, 0), bmp::Pixel::new(255, 255, 255));
    assert_eq!(img.get_pixel(1, 0), bmp::Pixel::new(0, 0, 0));
    assert_eq!(img.get_pixel(1, 1), bmp::consts::BLUE);
}

/// The concrete 2x2 depth scenario: depths 1.0, 2.0, infinity, 3.0 on the
/// library's scalar scale, bounds (1.0, 3.0): levels 255, 128, blue, 0.
#[test]
fn depthmap_2x2_scenario() {
    let enc = |d: f32| (d * 1000.0) as u32;
    let depths = [enc(1.0), enc(2.0), MISS, enc(3.0)];
    let mut frame: Frame<u32> = Frame::new(2, 2, 0);
    // Linear index i holds coordinate (i / height, i % height).
    frame.set_pixels(|x, y| depths[(x * 2 + y) as usize]);
    let img = Depthmap(frame).to_bmp().unwrap();
    assert_eq!(img.get_width(), 2);
    assert_eq!(img.get_height(), 2);
    assert_eq!(img.get_pixel(0, 0), bmp::Pixel::new(255, 255, 255));
    assert_eq!(img.get_pixel(0, 1), bmp::Pixel::new(128, 128, 128));
    assert_eq!(img.get_pixel(1, 0), bmp::consts::BLUE);
    assert_eq!(img.get_pixel(1, 1), bmp::Pixel::new(0, 0, 0));
}

/// The concrete 3x1 heat scenario: values {0, 10, 20}: red channel 0, 128
/// (rounded) and 255, with green and blue dark.
#[test]
fn heatmap_3x1_scenario() {
    let mut frame: Frame<u32> = Frame::new(3, 1, 0);
    frame.set_pixels(|x, _| x * 10);
    let img = Heatmap(frame).to_bmp().unwrap();
    assert_eq!(img.get_width(), 3);
    assert_eq!(img.get_height(), 1);
    assert_eq!(img.get_pixel(0, 0), bmp::Pixel::new(0, 0, 0));
    assert_eq!(img.get_pixel(1, 0), bmp::Pixel::new(128, 0, 0));
    assert_eq!(img.get_pixel(2, 0), bmp::Pixel::new(255, 0, 0));
}

/// An empty heat frame and a single-pixel heat frame both fail with the
/// degenerate-input error.
#[test]
fn heatmap_degenerate_inputs_fail() {
    let empty: Frame<u32> = Frame::new(0, 0, 0);
    assert_eq!(Heatmap(empty).to_bmp().unwrap_err(), VisError::DegenerateInput);
    let single: Frame<u32> = Frame::new(1, 1, 9);
    assert_eq!(Heatmap(single).to_bmp().unwrap_err(), VisError::DegenerateInput);
    let flat: Frame<u32> = Frame::new(2, 2, 9);
    assert_eq!(Heatmap(flat).to_bmp().unwrap_err(), VisError::DegenerateInput);
}

/// A larger heat gradient: every pixel of the raster is red-scaled by its
/// position between the extrema.
#[test]
fn heatmap_gradient_levels() {
    let mut frame: Frame<u32> = Frame::new(1, 5, 0);
    frame.set_pixels(|_, y| y * 25);
    let img = Heatmap(frame).to_bmp().unwrap();
    // Bounds are (0, 100); value y * 25 scales to round(255 * y / 4).
    let expected = [0u8, 64, 128, 191, 255];
    for y in 0..5u32 {
        assert_eq!(img.get_pixel(0, y), bmp::Pixel::new(expected[y as usize], 0, 0));
    }
}

/// `pixel_values` hands the stored values back in linear buffer order.
#[test]
fn pixel_values_in_linear_order() {
    let mut frame: Frame<u32> = Frame::new(2, 3, 0);
    frame.set_pixels(|x, y| x * 3 + y);
    assert_eq!(frame.pixel_values(), vec![0, 1, 2, 3, 4, 5]);
    assert_eq!(frame.width(), 2);
    assert_eq!(frame.height(), 3);
}
