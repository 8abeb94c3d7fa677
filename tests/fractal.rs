use fractx::error::FractalError;
use fractx::fixed::SCALE;
use fractx::render::{
    alloc_image_data, band_color, color_of_point, escape_time, fractx, image_len, render,
    smooth_color, ColoringMode, INTERIOR,
};
use fractx::viewport::{axis_point, compute_zoom, zoom_at, Viewport, ZoomResult};

fn square_view() -> Viewport {
    Viewport { w: 4, h: 4, x0: -2 * SCALE, y0: -2 * SCALE, dx: 4 * SCALE, dy: 4 * SCALE }
}

#[test]
fn center_is_interior_and_corner_escapes() {
    let v = square_view();
    let mut buf = vec![0u32; 16];
    assert_eq!(render(&v, 50, ColoringMode::Banded, &mut buf), Ok(()));
    // pixel (2, 2) maps to the plane origin, which never escapes
    assert_eq!(buf[2 * 4 + 2], INTERIOR);
    // pixel (3, 3) maps to 1 + i, which escapes at the second step
    assert_eq!(buf[3 * 4 + 3], band_color(2));
    // pixel (0, 0) maps to -2 - 2i, which escapes at the first step
    assert_eq!(buf[0], band_color(1));
}

#[test]
fn zoom_on_center_halves_spans() {
    let v = square_view();
    let z = compute_zoom(&v, 2, 2, 2 * SCALE).unwrap();
    assert_eq!(z, ZoomResult { x0: -SCALE, y0: -SCALE, dx: 2 * SCALE, dy: 2 * SCALE });
    assert_eq!(axis_point(z.x0, z.dx, 2, 4), 0);
    assert_eq!(axis_point(z.y0, z.dy, 2, 4), 0);
}

#[test]
fn short_buffer_is_rejected_untouched() {
    let v = square_view();
    let mut buf = vec![7u32; 15];
    assert_eq!(render(&v, 50, ColoringMode::Banded, &mut buf), Err(FractalError::BufferSizeMismatch));
    assert_eq!(buf, vec![7u32; 15]);
}

#[test]
fn long_buffer_is_rejected() {
    let v = square_view();
    let mut buf = vec![7u32; 17];
    assert_eq!(render(&v, 50, ColoringMode::Smooth, &mut buf), Err(FractalError::BufferSizeMismatch));
    assert_eq!(buf, vec![7u32; 17]);
}

#[test]
fn every_cell_is_painted() {
    let v = Viewport { w: 7, h: 5, x0: -3 * SCALE, y0: -SCALE, dx: 5 * SCALE, dy: 2 * SCALE };
    for mode in [ColoringMode::Banded, ColoringMode::Smooth] {
        let mut buf = vec![0u32; 35];
        assert_eq!(render(&v, 20, mode, &mut buf), Ok(()));
        assert!(buf.iter().all(|&c| c != 0 && c >= INTERIOR));
    }
}

#[test]
fn rendering_is_deterministic() {
    let v = Viewport { w: 6, h: 3, x0: -2 * SCALE, y0: -SCALE, dx: 3 * SCALE, dy: 2 * SCALE };
    for mode in [ColoringMode::Banded, ColoringMode::Smooth] {
        let mut a = vec![0u32; 18];
        let mut b = vec![0xABCDu32; 18];
        assert_eq!(render(&v, 30, mode, &mut a), Ok(()));
        assert_eq!(render(&v, 30, mode, &mut b), Ok(()));
        assert_eq!(a, b);
    }
}

#[test]
fn zoom_keeps_target_point() {
    let v = Viewport { w: 10, h: 8, x0: -3 * SCALE, y0: -SCALE - 12345, dx: 4 * SCALE + 7, dy: 3 * SCALE };
    for (x, y, mag) in [(1u32, 3u32, 3 * SCALE), (9, 0, SCALE / 2), (4, 7, SCALE), (0, 0, 5 * SCALE + 1)] {
        let z = compute_zoom(&v, x, y, mag).unwrap();
        assert_eq!(axis_point(z.x0, z.dx, x, v.w), axis_point(v.x0, v.dx, x, v.w));
        assert_eq!(axis_point(z.y0, z.dy, y, v.h), axis_point(v.y0, v.dy, y, v.h));
    }
}

#[test]
fn zoom_divides_spans() {
    let v = Viewport { w: 10, h: 8, x0: 0, y0: 0, dx: 4 * SCALE + 7, dy: -3 * SCALE };
    let mag = 3 * SCALE;
    let z = compute_zoom(&v, 5, 5, mag).unwrap();
    let ex = (v.dx as i128) * (SCALE as i128) - (z.dx as i128) * (mag as i128);
    let ey = (z.dy as i128) * (mag as i128) - (v.dy as i128) * (SCALE as i128);
    assert!(0 <= ex && ex < mag as i128);
    assert!(0 <= ey && ey < mag as i128);
    assert_eq!(z.dy, -SCALE);
}

#[test]
fn zoom_out_doubles_spans() {
    let v = square_view();
    let z = compute_zoom(&v, 0, 0, SCALE / 2).unwrap();
    assert_eq!(z, ZoomResult { x0: -2 * SCALE, y0: -2 * SCALE, dx: 8 * SCALE, dy: 8 * SCALE });
}

#[test]
fn single_step_gives_two_colors() {
    let v = Viewport { w: 9, h: 9, x0: -3 * SCALE, y0: -3 * SCALE, dx: 6 * SCALE, dy: 6 * SCALE };
    let mut buf = vec![0u32; 81];
    assert_eq!(render(&v, 1, ColoringMode::Banded, &mut buf), Ok(()));
    assert!(buf.iter().all(|&c| c == INTERIOR || c == band_color(1)));
    assert!(buf.contains(&INTERIOR));
    assert!(buf.contains(&band_color(1)));
}

#[test]
fn zero_budget_is_rejected() {
    let v = square_view();
    let mut buf = vec![1u32; 16];
    assert_eq!(render(&v, 0, ColoringMode::Banded, &mut buf), Err(FractalError::InvalidIterationBudget));
    assert_eq!(buf, vec![1u32; 16]);
}

#[test]
fn empty_grid_is_rejected() {
    let v = Viewport { w: 0, h: 4, x0: 0, y0: 0, dx: SCALE, dy: SCALE };
    let mut buf: Vec<u32> = Vec::new();
    assert_eq!(render(&v, 5, ColoringMode::Banded, &mut buf), Err(FractalError::InvalidDimensions));
    assert_eq!(compute_zoom(&v, 0, 0, SCALE), Err(FractalError::InvalidDimensions));
    assert_eq!(Viewport::new(3, 0, 0, 0, SCALE, SCALE), Err(FractalError::InvalidDimensions));
    assert_eq!(Viewport::new(3, 2, 1, 2, 3, 4), Ok(Viewport { w: 3, h: 2, x0: 1, y0: 2, dx: 3, dy: 4 }));
}

#[test]
fn bad_magnification_is_rejected() {
    let v = square_view();
    assert_eq!(compute_zoom(&v, 1, 1, 0), Err(FractalError::InvalidMagnification));
    assert_eq!(compute_zoom(&v, 1, 1, -SCALE), Err(FractalError::InvalidMagnification));
}

#[test]
fn pixel_outside_grid_is_rejected() {
    let v = square_view();
    assert_eq!(compute_zoom(&v, 4, 0, SCALE), Err(FractalError::PixelOutOfRange));
    assert_eq!(compute_zoom(&v, 0, 4, SCALE), Err(FractalError::PixelOutOfRange));
}

#[test]
fn unrepresentable_zoom_is_rejected() {
    let v = Viewport { w: 4, h: 4, x0: 0, y0: 0, dx: i64::MAX, dy: SCALE };
    assert_eq!(compute_zoom(&v, 0, 0, 1), Err(FractalError::ViewportOverflow));
}

#[test]
fn band_colors_are_exact() {
    assert_eq!(band_color(0), 0xFF00_00FF);
    assert_eq!(band_color(1), 0xFF07_03F4);
    assert_eq!(band_color(2), 0xFF0E_06E9);
}

#[test]
fn smooth_color_is_exact() {
    // landing six units out gives a weight of 64 toward the next band
    assert_eq!(smooth_color(1, 6 * SCALE as i128, 0), 0xFF08_03F1);
}

#[test]
fn escape_time_counts_steps() {
    let s = SCALE as i128;
    assert_eq!(escape_time(s, s, 10), Some((2, s, 3 * s)));
    assert_eq!(escape_time(0, 0, 10), None);
    assert_eq!(escape_time(-s, 0, 100), None);
    assert_eq!(escape_time(s, s, 1), None);
}

#[test]
fn point_colors_follow_mode() {
    let s = SCALE as i128;
    assert_eq!(color_of_point(0, 0, 10, ColoringMode::Smooth), INTERIOR);
    assert_eq!(color_of_point(s, s, 10, ColoringMode::Banded), band_color(2));
    assert_eq!(color_of_point(s, s, 10, ColoringMode::Smooth), smooth_color(2, s, 3 * s));
}

#[test]
fn buffer_sizing() {
    assert_eq!(image_len(4, 4), 16);
    assert_eq!(image_len(u32::MAX, 2), 2 * u32::MAX as u64);
    let buf = alloc_image_data(3, 5);
    assert_eq!(buf, vec![0u32; 15]);
}

#[test]
fn entry_points_match_core() {
    let v = square_view();
    let mut a = vec![0u32; 16];
    let mut b = vec![0u32; 16];
    assert_eq!(fractx(&mut a, 4, 4, v.x0, v.y0, v.dx, v.dy, 25), Ok(()));
    assert_eq!(render(&v, 25, ColoringMode::Banded, &mut b), Ok(()));
    assert_eq!(a, b);
    assert_eq!(zoom_at(4, 4, v.x0, v.y0, v.dx, v.dy, 1, 3, 2 * SCALE), compute_zoom(&v, 1, 3, 2 * SCALE));
    let mut c = vec![0u32; 16];
    assert_eq!(fractx(&mut c, 4, 0, 0, 0, 1, 1, 25), Err(FractalError::InvalidDimensions));
}
