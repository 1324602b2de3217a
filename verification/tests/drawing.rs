use toyterm::cache::{ascii_glyph_region, get_ascii_index, glyph_slots, texture_side, texture_size};
use toyterm::font::{FontStyle, GlyphMetrics};
use toyterm::terminal::engine::Engine;
use toyterm::terminal::line::Line;
use toyterm::terminal::{CellSize, Color, CursorStyle, PositionedImage, TerminalSize};
use toyterm::view::{
    cell_draws, cell_size_from_metrics, color_to_rgba, cursor_rect, font_size_after, image_rect,
    scroll_bar_rects, ColorScheme,
    DrawSettings, PixelRect, Viewport, WindowRect,
};

#[test]
fn all_font_styles_in_order() {
    assert_eq!(FontStyle::all(), [FontStyle::Regular, FontStyle::Bold, FontStyle::Faint]);
}

#[test]
fn ascii_glyph_slots_are_distinct_per_style() {
    assert_eq!(get_ascii_index('A', FontStyle::Regular), 65 * 4);
    assert_eq!(get_ascii_index('A', FontStyle::Bold), 65 * 4 + 1);
    assert_eq!(get_ascii_index('A', FontStyle::Faint), 65 * 4 + 2);
    assert_ne!(get_ascii_index('B', FontStyle::Regular), get_ascii_index('A', FontStyle::Faint));
}

#[test]
fn colors_map_through_the_scheme() {
    let mut colors = [0u32; 16];
    for (i, c) in colors.iter_mut().enumerate() {
        *c = 0x1000_0000 * (i as u32 % 16) + 0xFF;
    }
    let scheme = ColorScheme { colors };
    assert_eq!(color_to_rgba(Color::Black, &scheme), colors[0]);
    assert_eq!(color_to_rgba(Color::Red, &scheme), colors[1]);
    assert_eq!(color_to_rgba(Color::BrightWhite, &scheme), colors[15]);
    assert_eq!(color_to_rgba(Color::Rgb { rgba: 0x11223344 }, &scheme), 0x11223344);
    assert_eq!(color_to_rgba(Color::Special, &scheme), 0xFFFFFF00);
}

#[test]
fn default_viewport_is_empty() {
    let v = Viewport::default();
    assert_eq!((v.x, v.y, v.w, v.h), (0, 0, 0, 0));
}

fn screen_lines(input: &str, rows: usize, cols: usize) -> Vec<Line> {
    let mut e = Engine::new(TerminalSize { rows, cols }, CellSize { w: 8, h: 16 }, false);
    e.process(input);
    e.state().range(0, rows as isize).into_iter().cloned().collect()
}

fn settings(
    cursor: Option<(usize, usize, CursorStyle)>,
    focused: bool,
    selection: Option<(usize, usize)>,
) -> DrawSettings {
    DrawSettings { cursor, focused, selection, cell_size: CellSize { w: 8, h: 16 }, first_baseline: 12 }
}

#[test]
fn cells_are_drawn_in_place() {
    let lines = screen_lines("ab", 2, 3);
    let draws = cell_draws(&lines, &settings(None, true, None));
    assert_eq!(draws.len(), 6);
    assert_eq!(draws[0].ch, 'a');
    assert_eq!(draws[1].ch, 'b');
    assert_eq!(draws[1].rect, PixelRect { x: 8, y: 0, w: 8, h: 16 });
    assert_eq!(draws[1].left, 8);
    assert_eq!(draws[1].baseline, 12);
    assert_eq!(draws[4].rect, PixelRect { x: 8, y: 16, w: 8, h: 16 });
    assert_eq!(draws[4].baseline, 28);
    assert_eq!((draws[0].fg, draws[0].bg), (Color::White, Color::Black));
    assert_eq!(draws[0].style, FontStyle::Regular);
}

#[test]
fn wide_characters_are_drawn_once() {
    let lines = screen_lines("\u{3042}x", 1, 4);
    let draws = cell_draws(&lines, &settings(None, true, None));
    assert_eq!(draws.len(), 3);
    assert_eq!(draws[0].ch, '\u{3042}');
    assert_eq!(draws[0].rect.w, 16);
    assert_eq!(draws[1].ch, 'x');
    assert_eq!(draws[1].rect.x, 16);
}

#[test]
fn cursor_selection_and_inverse_swap_colors() {
    let lines = screen_lines("\x1b[7ma\x1b[27mbc\x1b[1m\x1b[8md", 1, 5);
    let cursor = Some((0, 1, CursorStyle::Block));
    let draws = cell_draws(&lines, &settings(cursor, true, Some((2, 3))));
    let colors: Vec<(Color, Color)> = draws.iter().map(|d| (d.fg, d.bg)).collect();
    assert_eq!(colors[0], (Color::Black, Color::White));
    assert_eq!(colors[1], (Color::Black, Color::White));
    assert_eq!(colors[2], (Color::Black, Color::White));
    assert_eq!(colors[3], (Color::White, Color::White));
    assert_eq!(colors[4], (Color::White, Color::Black));
    assert_eq!(draws[3].style, FontStyle::Bold);
    let unfocused = cell_draws(&lines, &settings(cursor, false, None));
    assert_eq!((unfocused[1].fg, unfocused[1].bg), (Color::White, Color::Black));
}

#[test]
fn cursor_shapes() {
    let s = settings(Some((2, 3, CursorStyle::Underline)), true, None);
    assert_eq!(cursor_rect(&s), Some(PixelRect { x: 24, y: 44, w: 8, h: 4 }));
    let s = settings(Some((2, 3, CursorStyle::Bar)), true, None);
    assert_eq!(cursor_rect(&s), Some(PixelRect { x: 24, y: 32, w: 4, h: 16 }));
    let s = settings(Some((2, 3, CursorStyle::Block)), true, None);
    assert_eq!(cursor_rect(&s), None);
    let s = settings(Some((2, 3, CursorStyle::Bar)), false, None);
    assert_eq!(cursor_rect(&s), None);
}

#[test]
fn scroll_bar_and_image_rectangles() {
    let vp = Viewport { x: 0, y: 0, w: 640, h: 480 };
    let (track, thumb) = scroll_bar_rects(vp, 10, 100, 50);
    assert_eq!(track, PixelRect { x: 630, y: 0, w: 10, h: 480 });
    assert_eq!(thumb, PixelRect { x: 630, y: 100, w: 10, h: 50 });
    let (track, _) = scroll_bar_rects(Viewport { x: 0, y: 0, w: 5, h: 8 }, 10, 0, 1);
    assert_eq!(track.x, 0);
    let img = PositionedImage { row: -2, col: 3, height: 20, width: 30, data: vec![] };
    assert_eq!(image_rect(&img, CellSize { w: 8, h: 16 }), PixelRect { x: 24, y: -32, w: 30, h: 20 });
}

#[test]
fn cache_texture_sides_are_powers_of_two() {
    assert_eq!(texture_side(0), 1);
    assert_eq!(texture_side(1), 1);
    assert_eq!(texture_side(1024), 1024);
    assert_eq!(texture_side(1025), 2048);
    assert_eq!(texture_size(CellSize { w: 8, h: 16 }), (2048, 2048));
    assert_eq!(texture_size(CellSize { w: 100, h: 10 }), (4096, 2048));
}

#[test]
fn ascii_glyphs_are_laid_out_by_code_and_style() {
    let cell = CellSize { w: 8, h: 16 };
    assert_eq!(ascii_glyph_region('A', 1, cell, 7, 12), PixelRect { x: 9, y: 136, w: 7, h: 12 });
    assert_eq!(ascii_glyph_region(' ', 0, cell, 0, 0), PixelRect { x: 0, y: 0, w: 0, h: 0 });
    assert_eq!(ascii_glyph_region('~', 2, cell, 5, 3), PixelRect { x: 126, y: 289, w: 5, h: 3 });
}

#[test]
fn glyph_slots_fill_the_rest_of_the_texture() {
    let slots = glyph_slots(100, 25, 9, 10, 4);
    assert_eq!(
        slots,
        vec![
            PixelRect { x: 0, y: 100, w: 0, h: 0 },
            PixelRect { x: 10, y: 100, w: 0, h: 0 },
            PixelRect { x: 0, y: 104, w: 0, h: 0 },
            PixelRect { x: 10, y: 104, w: 0, h: 0 },
        ]
    );
    assert!(glyph_slots(0, 5, 5, 10, 10).is_empty());
}

#[test]
fn cell_size_holds_every_glyph() {
    let m = |adv: i64, by: i64, h: i64| GlyphMetrics { hori_advance: adv * 64, hori_bearing_y: by * 64, height: h * 64 };
    let metrics = vec![m(7, 10, 12), m(8, 12, 12), m(6, 5, 9)];
    assert_eq!(cell_size_from_metrics(&metrics), (CellSize { w: 8, h: 16 }, 12));
    assert_eq!(cell_size_from_metrics(&vec![]), (CellSize { w: 0, h: 0 }, 0));
    let partial = vec![GlyphMetrics { hori_advance: 500, hori_bearing_y: 100, height: 200 }];
    assert_eq!(cell_size_from_metrics(&partial), (CellSize { w: 7, h: 2 }, 1));
}

#[test]
fn font_size_stays_positive() {
    assert_eq!(font_size_after(12, 1), 13);
    assert_eq!(font_size_after(12, -1), 11);
    assert_eq!(font_size_after(1, -1), 1);
    assert_eq!(font_size_after(3, -10), 1);
}

#[test]
fn viewport_counted_from_the_bottom() {
    let vp = Viewport { x: 10, y: 20, w: 100, h: 50 };
    assert_eq!(vp.to_window_rect(600), WindowRect { left: 10, bottom: 530, width: 100, height: 50 });
    assert_eq!(vp.to_window_rect(60), WindowRect { left: 10, bottom: 0, width: 100, height: 50 });
}
