use voice_type::statusbar::{
    draw_circle, draw_circle_filled, draw_line, draw_pixel_safe, draw_rect_outline,
};

const C: (u8, u8, u8) = (10, 20, 30);
const A: u8 = 200;

fn px(canvas: &[u8], width: usize, x: usize, y: usize) -> [u8; 4] {
    let i = (y * width + x) * 4;
    [canvas[i], canvas[i + 1], canvas[i + 2], canvas[i + 3]]
}

fn lit(canvas: &[u8], width: usize, x: usize, y: usize) -> bool {
    px(canvas, width, x, y) == [10, 20, 30, 200]
}

#[test]
fn pixel_is_rgba_and_clipped() {
    let mut c = vec![0u8; 2 * 2 * 4];
    draw_pixel_safe(&mut c, 2, 2, 1, 0, C, A);
    assert_eq!(px(&c, 2, 1, 0), [10, 20, 30, 200]);
    let before = c.clone();
    draw_pixel_safe(&mut c, 2, 2, 2, 0, C, A);
    draw_pixel_safe(&mut c, 2, 2, -1, 1, C, A);
    draw_pixel_safe(&mut c, 2, 2, 0, 2, C, A);
    assert_eq!(c, before);
    // A canvas too short for the last pixel leaves it alone.
    let mut short = vec![0u8; 15];
    draw_pixel_safe(&mut short, 2, 2, 1, 1, C, A);
    assert_eq!(short, vec![0u8; 15]);
}

#[test]
fn bresenham_line_pixels() {
    let mut c = vec![0u8; 4 * 2 * 4];
    draw_line(&mut c, 4, 2, 0, 0, 3, 1, C, A);
    let on = [(0, 0), (1, 0), (2, 1), (3, 1)];
    for y in 0..2 {
        for x in 0..4 {
            assert_eq!(lit(&c, 4, x, y), on.contains(&(x, y)), "pixel ({x}, {y})");
        }
    }
    // Reversed direction and a single point.
    let mut d = vec![0u8; 4 * 2 * 4];
    draw_line(&mut d, 4, 2, 3, 1, 0, 0, C, A);
    assert!(lit(&d, 4, 0, 0) && lit(&d, 4, 3, 1));
    let mut e = vec![0u8; 4];
    draw_line(&mut e, 1, 1, 0, 0, 0, 0, C, A);
    assert_eq!(e, vec![10, 20, 30, 200]);
}

#[test]
fn steep_line_has_no_gaps() {
    let mut c = vec![0u8; 3 * 6 * 4];
    draw_line(&mut c, 3, 6, 0, 0, 2, 5, C, A);
    for y in 0..6 {
        assert!((0..3).any(|x| lit(&c, 3, x, y)), "row {y} is empty");
    }
    assert!(lit(&c, 3, 0, 0) && lit(&c, 3, 2, 5));
}

#[test]
fn rect_outline_leaves_inside() {
    let mut c = vec![0u8; 3 * 3 * 4];
    draw_rect_outline(&mut c, 3, 3, 0, 0, 3, 3, C, A);
    for y in 0..3 {
        for x in 0..3 {
            assert_eq!(lit(&c, 3, x, y), !(x == 1 && y == 1));
        }
    }
    let mut e = vec![0u8; 3 * 3 * 4];
    draw_rect_outline(&mut e, 3, 3, 0, 0, 0, 3, C, A);
    // A zero-width rectangle draws only its left side (the right side is
    // one column further left, off the canvas).
    assert!(lit(&e, 3, 0, 0) && lit(&e, 3, 0, 1) && lit(&e, 3, 0, 2));
    assert!(!lit(&e, 3, 1, 0) && !lit(&e, 3, 2, 2));
}

#[test]
fn filled_disc_radius_one_is_a_plus() {
    let mut c = vec![0u8; 3 * 3 * 4];
    draw_circle_filled(&mut c, 3, 3, 1, 1, 1, C, A);
    for y in 0..3 {
        for x in 0..3 {
            let plus = x == 1 || y == 1;
            assert_eq!(lit(&c, 3, x, y), plus);
        }
    }
}

#[test]
fn midpoint_circle_radius_one() {
    let mut c = vec![0u8; 5 * 5 * 4];
    draw_circle(&mut c, 5, 5, 2, 2, 1, C, A);
    let on = [(2, 3), (2, 1), (3, 2), (1, 2)];
    for y in 0..5 {
        for x in 0..5 {
            assert_eq!(lit(&c, 5, x, y), on.contains(&(x, y)), "pixel ({x}, {y})");
        }
    }
    let mut none = vec![0u8; 5 * 5 * 4];
    draw_circle(&mut none, 5, 5, 2, 2, -1, C, A);
    assert_eq!(none, vec![0u8; 5 * 5 * 4]);
}

#[test]
fn midpoint_circle_stays_within_half_a_pixel() {
    let (w, r) = (13usize, 5i64);
    let mut c = vec![0u8; w * w * 4];
    draw_circle(&mut c, w as i32, w as i32, 6, 6, r as i32, C, A);
    let mut count = 0;
    for y in 0..w {
        for x in 0..w {
            if lit(&c, w, x, y) {
                count += 1;
                let (dx, dy) = (x as i64 - 6, y as i64 - 6);
                let m = dx.abs().max(dy.abs());
                let d2 = dx * dx + dy * dy;
                assert!(r * r - m <= d2 && d2 <= r * r + m, "pixel ({x}, {y})");
            }
        }
    }
    assert!(count >= 4 * 5);
    assert!(lit(&c, w, 11, 6) && lit(&c, w, 1, 6) && lit(&c, w, 6, 11) && lit(&c, w, 6, 1));
}
