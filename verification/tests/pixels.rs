use std::time::Instant;

use voice_type::icons::{
    badge_colors, state_glyph, state_icon_name, status_emoji, status_text, tool_tip, Canvas, IconData,
    StateGlyph, ICON_SIZE,
};
use voice_type::overlay::{draw_char, glyph_rows, overlay_size, render_text};
use voice_type::scope::RingCursor;
use voice_type::session::UiState;

#[test]
fn argb_reorders_each_pixel() {
    let icon = IconData { width: 2, height: 1, rgba: vec![1, 2, 3, 4, 5, 6, 7, 8] };
    assert_eq!(icon.to_argb32_be(), vec![4, 1, 2, 3, 8, 5, 6, 7]);
}

#[test]
fn canvas_roundtrip() {
    let mut cv = Canvas::new();
    assert_eq!(cv.size(), ICON_SIZE);
    assert_eq!(cv.pixel_index(-1, 0), None);
    assert_eq!(cv.pixel_index(64, 0), None);
    let i = cv.pixel_index(3, 2).unwrap();
    assert_eq!(i, 2 * 64 + 3);
    cv.set_pixel(i, [9, 8, 7, 6]);
    assert_eq!(cv.pixel(i), [9, 8, 7, 6]);
    let icon = cv.finish();
    assert_eq!((icon.width, icon.height), (64, 64));
    assert_eq!(icon.rgba.len(), 64 * 64 * 4);
    assert_eq!(&icon.rgba[i * 4..i * 4 + 4], &[9, 8, 7, 6]);
    assert!(icon.rgba[..i * 4].iter().all(|&b| b == 0));
}

#[test]
fn state_appearance() {
    let now = Instant::now();
    let states = [
        UiState::Idle,
        UiState::Recording { started_at: now },
        UiState::Transcribing { started_at: now },
        UiState::Done { text: "ok".into() },
        UiState::Error { msg: "bad".into() },
    ];
    let glyphs: Vec<StateGlyph> = states.iter().map(state_glyph).collect();
    assert_eq!(
        glyphs,
        vec![StateGlyph::Microphone, StateGlyph::Microphone, StateGlyph::Dots, StateGlyph::Check, StateGlyph::Cross]
    );
    assert_eq!(badge_colors(&states[0]), ([158, 166, 181], [93, 101, 119]));
    assert_eq!(badge_colors(&states[4]), ([235, 64, 52], [148, 16, 16]));
    assert_eq!(state_icon_name(&states[2]), "voice-type-transcribing");
    assert_eq!(tool_tip(&states[3]), ("Done".to_string(), "ok".to_string()));
    assert_eq!(tool_tip(&states[0]).1, "Press hotkey to start recording");
    assert_eq!(status_text(&states[4]), "Error: bad");
    assert_eq!(status_text(&states[1]), "Recording...");
    assert_eq!(status_emoji(&states[3]), "✅");
}

#[test]
fn glyph_drawing() {
    assert_eq!(glyph_rows('A'), glyph_rows('a'));
    assert_eq!(glyph_rows('-'), [0, 0, 0, 0b11111, 0, 0, 0]);
    // 10x10 canvas, draw 'i' at (1, 1).
    let mut cv = vec![0u8; 10 * 10 * 4];
    draw_char(&mut cv, 10, 10, 'i', 1, 1, (10, 20, 30));
    let lit = |x: usize, y: usize| cv[(y * 10 + x) * 4..(y * 10 + x) * 4 + 4].to_vec();
    assert_eq!(lit(1, 1), vec![10, 20, 30, 255]); // top bar
    assert_eq!(lit(3, 2), vec![10, 20, 30, 255]); // stem
    assert_eq!(lit(2, 2), vec![0, 0, 0, 0]);
    assert_eq!(lit(0, 0), vec![0, 0, 0, 0]);
    // Clipped at the border: nothing outside the canvas, no panic.
    let mut small = vec![0u8; 3 * 3 * 4];
    draw_char(&mut small, 3, 3, '#', -2, -2, (1, 1, 1));
    // Cell (4, 2) of the hollow box lands on pixel (2, 0); cell (2, 2) is empty.
    assert_eq!(&small[8..12], &[1, 1, 1, 255]);
    assert_eq!(&small[0..4], &[0, 0, 0, 0]);
}

#[test]
fn text_layout() {
    let (w, h) = (60i32, 60i32);
    let mut cv = vec![0u8; (w * h * 4) as usize];
    // Capacity (60 - 0 - 20) / 9 = 4 chars per line.
    render_text(&mut cv, w, h, "abcde", 0, 0);
    let px = |x: i32, y: i32| cv[((y * w + x) * 4) as usize..((y * w + x) * 4 + 4) as usize].to_vec();
    // 'a' row 0 = 01110: (1,0) lit; 'e' wrapped to the second line at y = 22.
    assert_eq!(px(1, 0), vec![255, 255, 255, 255]);
    assert_eq!(px(0, 22), vec![255, 255, 255, 255]);
    // Long text keeps its tail behind an ellipsis.
    let long = "x".repeat(100);
    let mut big = vec![0u8; 800 * 400 * 4];
    render_text(&mut big, 800, 400, &long, 20, 20);
}

#[test]
fn ring_cursor_tracks_recent_slots() {
    let mut r = RingCursor::new(4);
    assert_eq!(r.available(), 1);
    let a = r.advance();
    let b = r.advance();
    assert_eq!((a, b), (0, 1));
    assert_eq!(r.index_recent(0), 1);
    assert_eq!(r.index_recent(1), 0);
    assert_eq!(r.index_recent(2), 3);
    assert_eq!(r.available(), 2);
    r.advance();
    r.advance();
    assert_eq!(r.available(), 4);
    assert_eq!(r.index_recent(0), 3);
    r.reset();
    assert_eq!(r.available(), 1);
}

#[test]
fn overlay_sizes() {
    assert_eq!(overlay_size(&UiState::Idle), (32, 32));
    assert_eq!(overlay_size(&UiState::Done { text: "x".to_string() }), (500, 120));
    assert_eq!(overlay_size(&UiState::Recording { started_at: Instant::now() }), (500, 120));
}

#[test]
fn letters_draw_the_same_in_either_case() {
    for (lo, up) in ('a'..='z').zip('A'..='Z') {
        let mut c1 = vec![7u8; 12 * 12 * 4];
        let mut c2 = c1.clone();
        draw_char(&mut c1, 12, 12, lo, 3, 2, (9, 8, 7));
        draw_char(&mut c2, 12, 12, up, 3, 2, (9, 8, 7));
        assert_eq!(c1, c2, "{lo}");
    }
}

#[test]
fn text_near_the_right_edge_of_the_coordinate_range() {
    // One short line far to the right: nothing lands on the canvas, and the
    // pen never leaves the `i32` range.
    let mut cv = vec![0u8; 10 * 10 * 4];
    render_text(&mut cv, 10, 10, "ab", i32::MAX - 100, 0);
    assert_eq!(cv, vec![0u8; 10 * 10 * 4]);
}
