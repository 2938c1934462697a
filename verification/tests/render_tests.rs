use prompt_view::CustomPromptView;
use prompt_view::KeyCode;
use prompt_view::KeyEvent;
use prompt_view::KeyModifiers;
use prompt_view::Rect;
use prompt_view::RecordingSink;

use ratatui::buffer::Buffer;

fn no_mods() -> KeyModifiers {
    KeyModifiers { shift: false, control: false, alt: false, other: false }
}

fn key(code: KeyCode) -> KeyEvent {
    KeyEvent { code, modifiers: no_mods() }
}

fn view(title: &str) -> CustomPromptView<RecordingSink> {
    CustomPromptView::new(title.to_string(), RecordingSink::new())
}

fn type_str(v: &mut CustomPromptView<RecordingSink>, s: &str) {
    for c in s.chars() {
        v.handle_key_event(key(KeyCode::Char(c)));
    }
}

fn filled_buffer(width: u16, height: u16) -> Buffer {
    let mut buf = Buffer::empty(ratatui::layout::Rect::new(0, 0, width, height));
    for y in 0..height {
        for x in 0..width {
            buf[(x, y)].set_symbol("Z");
        }
    }
    buf
}

fn row_string(buf: &Buffer, y: u16, from: u16, to: u16) -> String {
    let mut s = String::new();
    for x in from..to {
        s.push_str(buf[(x, y)].symbol());
    }
    s
}

#[test]
fn render_draws_title_row() {
    let mut v = view("Review");
    let mut buf = Buffer::empty(ratatui::layout::Rect::new(0, 0, 30, 10));
    v.render(Rect { x: 0, y: 0, width: 30, height: 10 }, &mut buf);
    assert_eq!(buf[(0u16, 0u16)].symbol(), "\u{258C}");
    assert_eq!(buf[(1u16, 0u16)].symbol(), " ");
    assert_eq!(row_string(&buf, 0, 2, 8), "Review");
}

#[test]
fn render_shows_placeholder_while_empty() {
    let mut v = view("Review");
    let mut buf = Buffer::empty(ratatui::layout::Rect::new(0, 0, 40, 10));
    v.render(Rect { x: 0, y: 0, width: 40, height: 10 }, &mut buf);
    // editor rows start past the gutter, below the title and spacer rows
    assert_eq!(row_string(&buf, 2, 2, 35), "Type instructions and press Enter");
}

#[test]
fn render_replaces_placeholder_with_content() {
    let mut v = view("Review");
    type_str(&mut v, "ab");
    let mut buf = Buffer::empty(ratatui::layout::Rect::new(0, 0, 40, 10));
    v.render(Rect { x: 0, y: 0, width: 40, height: 10 }, &mut buf);
    assert_eq!(row_string(&buf, 2, 2, 4), "ab");
    assert_ne!(row_string(&buf, 2, 2, 35), "Type instructions and press Enter");
}

#[test]
fn render_draws_gutter_spacer_and_hint_rows() {
    let mut v = view("Review");
    let mut buf = filled_buffer(20, 8);
    v.render(Rect { x: 0, y: 0, width: 20, height: 8 }, &mut buf);
    // input region rows (empty content: spacer row 1 and editor row 2)
    assert_eq!(buf[(0u16, 1u16)].symbol(), "\u{258C}");
    assert_eq!(buf[(0u16, 2u16)].symbol(), "\u{258C}");
    // the input spacer row is cleared past the gutter
    assert_eq!(buf[(5u16, 1u16)].symbol(), " ");
    // blank row below the input region: bar plus cleared remainder
    assert_eq!(buf[(0u16, 3u16)].symbol(), "\u{258C}");
    assert_eq!(buf[(10u16, 3u16)].symbol(), " ");
    // hint row below that
    assert_eq!(row_string(&buf, 4, 0, 15), "Enter to submit");
}

#[test]
fn render_zero_size_is_noop() {
    let mut v = view("Review");
    let mut buf = filled_buffer(10, 6);
    v.render(Rect { x: 0, y: 0, width: 0, height: 6 }, &mut buf);
    v.render(Rect { x: 0, y: 0, width: 10, height: 0 }, &mut buf);
    for y in 0..6u16 {
        for x in 0..10u16 {
            assert_eq!(buf[(x, y)].symbol(), "Z");
        }
    }
}

#[test]
fn render_writes_only_inside_area() {
    let mut v = view("Review");
    type_str(&mut v, "abc");
    let mut buf = filled_buffer(30, 12);
    v.render(Rect { x: 3, y: 2, width: 20, height: 7 }, &mut buf);
    for y in 0..12u16 {
        for x in 0..30u16 {
            let inside = (3..23).contains(&x) && (2..9).contains(&y);
            if !inside {
                assert_eq!(buf[(x, y)].symbol(), "Z", "cell ({x},{y}) was written");
            }
        }
    }
    // and the title glyph sits at the area origin
    assert_eq!(buf[(3u16, 2u16)].symbol(), "\u{258C}");
}

#[test]
fn render_narrow_area_keeps_gutter_only() {
    let mut v = view("Review");
    type_str(&mut v, "abc");
    let mut buf = filled_buffer(10, 8);
    // width 2 leaves no editing columns: only bars are drawn, nothing panics
    v.render(Rect { x: 0, y: 0, width: 2, height: 8 }, &mut buf);
    assert_eq!(buf[(0u16, 0u16)].symbol(), "\u{258C}");
    assert_eq!(buf[(2u16, 0u16)].symbol(), "Z");
}

#[test]
fn render_handles_wide_title_characters() {
    let mut v = view("日本語のタイトル");
    let mut buf = filled_buffer(16, 8);
    v.render(Rect { x: 0, y: 0, width: 12, height: 8 }, &mut buf);
    // the glyph column is untouched by the wide title, and nothing leaks
    // past the rendered area
    assert_eq!(buf[(0u16, 0u16)].symbol(), "\u{258C}");
    for y in 0..8u16 {
        assert_eq!(buf[(13u16, y)].symbol(), "Z");
    }
}

#[test]
fn cursor_pos_none_for_degenerate_rects() {
    let mut v = view("Review");
    type_str(&mut v, "abc");
    assert_eq!(v.cursor_pos(Rect { x: 0, y: 0, width: 40, height: 1 }), None);
    assert_eq!(v.cursor_pos(Rect { x: 0, y: 0, width: 2, height: 8 }), None);
    assert_eq!(v.cursor_pos(Rect { x: 0, y: 0, width: 0, height: 0 }), None);
}

#[test]
fn cursor_pos_tracks_typed_text() {
    let mut v = view("Review");
    let area = Rect { x: 0, y: 0, width: 20, height: 6 };
    let mut buf = Buffer::empty(ratatui::layout::Rect::new(0, 0, 20, 6));
    v.render(area, &mut buf);
    assert_eq!(v.cursor_pos(area), Some((2, 2)));
    type_str(&mut v, "abc");
    v.render(area, &mut buf);
    assert_eq!(v.cursor_pos(area), Some((5, 2)));
}

#[test]
fn cursor_pos_follows_wrapped_lines() {
    let mut v = view("Review");
    let area = Rect { x: 0, y: 0, width: 12, height: 8 };
    // usable editing width is 10: typing 10 characters puts the caret at
    // the start of the second wrapped row
    type_str(&mut v, "0123456789");
    let mut buf = Buffer::empty(ratatui::layout::Rect::new(0, 0, 12, 8));
    v.render(area, &mut buf);
    assert_eq!(v.cursor_pos(area), Some((2, 3)));
}

#[test]
fn render_scrolls_to_keep_caret_visible() {
    let mut v = view("Review");
    // 12 logical lines; the input region is clamped to 8 editor rows
    let shift = KeyModifiers { shift: true, control: false, alt: false, other: false };
    for i in 0..12 {
        type_str(&mut v, &format!("l{i}"));
        if i < 11 {
            v.handle_key_event(KeyEvent { code: KeyCode::Enter, modifiers: shift });
        }
    }
    let area = Rect { x: 0, y: 0, width: 20, height: 12 };
    let mut buf = Buffer::empty(ratatui::layout::Rect::new(0, 0, 20, 12));
    v.render(area, &mut buf);
    // the caret is on the last line, so the last editor row shows it
    let pos = v.cursor_pos(area).expect("caret visible after render");
    assert_eq!(pos, (5, 9));
    // the first visible editor row is scrolled down to line 4
    assert_eq!(row_string(&buf, 2, 2, 4), "l4");
}

#[test]
fn try_render_refuses_area_outside_buffer() {
    let mut v = view("Review");
    let mut buf = filled_buffer(10, 5);
    let drew = v.try_render(Rect { x: 0, y: 0, width: 10, height: 6 }, &mut buf);
    assert!(!drew);
    for y in 0..5u16 {
        for x in 0..10u16 {
            assert_eq!(buf[(x, y)].symbol(), "Z");
        }
    }
}

#[test]
fn try_render_draws_inside_buffer() {
    let mut v = view("Review");
    let mut buf = filled_buffer(20, 8);
    let drew = v.try_render(Rect { x: 0, y: 0, width: 20, height: 8 }, &mut buf);
    assert!(drew);
    assert_eq!(buf[(0u16, 0u16)].symbol(), "\u{258C}");
}

#[test]
fn render_handles_huge_title_at_max_width() {
    // a title longer than the row and a width at the u16 maximum used to
    // overflow ratatui's line-width accumulation; the drawing layer now
    // truncates what it hands over
    let long = "a".repeat(70000);
    let mut v = view(&long);
    let mut buf = Buffer::empty(ratatui::layout::Rect::new(0, 0, u16::MAX, 5));
    v.render(Rect { x: 0, y: 0, width: u16::MAX, height: 5 }, &mut buf);
    assert_eq!(buf[(0u16, 0u16)].symbol(), "\u{258C}");
    assert_eq!(buf[(2u16, 0u16)].symbol(), "a");

    let mut wide = "a".repeat(65530);
    wide.push('\u{1F468}');
    let mut v2 = view(&wide);
    v2.render(Rect { x: 0, y: 0, width: u16::MAX, height: 5 }, &mut buf);
    assert_eq!(buf[(2u16, 0u16)].symbol(), "a");
}
