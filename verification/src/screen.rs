use vstd::prelude::*;

use crate::geom::Rect;

verus! {

/// The character-cell buffer the view draws into. It is ratatui's buffer,
/// held opaquely: the library reasons about it only through `grid_at` and
/// `grid_area` and mutates it only through the trusted wrappers below.
#[verifier::external_type_specification]
#[verifier::external_body]
pub struct ExBuffer(ratatui::buffer::Buffer);

/// The style applied to drawn text. Styling is not part of the grid model;
/// values of this type are carried through opaquely.
#[verifier::external_type_specification]
#[verifier::external_body]
pub struct ExStyle(ratatui::style::Style);

/// The symbol shown in the cell at column `x`, row `y` of the buffer.
/// Cells whose symbol is not a single character, and positions outside the
/// buffer's area, map to an arbitrary character.
pub uninterp spec fn grid_at(b: ratatui::buffer::Buffer, x: int, y: int) -> char;

/// The buffer's own cell region as (x, y, width, height).
pub uninterp spec fn grid_area(b: ratatui::buffer::Buffer) -> (int, int, int, int);

/// Whether the rectangle lies entirely inside the buffer region `g`.
pub open spec fn rect_in_grid(r: Rect, g: (int, int, int, int)) -> bool {
    &&& g.0 <= r.x
    &&& r.x + r.width <= g.0 + g.2
    &&& g.1 <= r.y
    &&& r.y + r.height <= g.1 + g.3
}

/// Characters that occupy exactly one cell when drawn: printable ASCII and
/// the quote-bar glyph. Only for such characters does `draw_row` promise
/// the written symbols.
pub open spec fn one_cell_char(c: char) -> bool {
    (' ' <= c && c <= '~') || c == '\u{258C}'
}

/// Text whose every character either occupies one cell or is a line break.
/// Only for such text does the editor promise the rendered cells.
pub open spec fn plain_text(s: Seq<char>) -> bool {
    forall|i: int| 0 <= i < s.len() ==> (one_cell_char(s[i]) || s[i] == '\n')
}

/// One step of a render pass keeps the region outside `area` intact: if
/// everything outside `area` still held its symbols from `b0` in `b1`, and
/// a drawing step from `b1` to `b2` wrote only inside `sub`, a rectangle
/// contained in `area`, then everything outside `area` still holds its
/// symbols from `b0` in `b2`.
pub proof fn lemma_outside_area_preserved(
    b0: ratatui::buffer::Buffer,
    b1: ratatui::buffer::Buffer,
    b2: ratatui::buffer::Buffer,
    area: Rect,
    sub: Rect,
)
    requires
        area.x <= sub.x,
        sub.x + sub.width <= area.x + area.width,
        area.y <= sub.y,
        sub.y + sub.height <= area.y + area.height,
        forall|x: int, y: int|
            !area.contains_cell(x, y) ==> grid_at(b1, x, y) == grid_at(b0, x, y),
        forall|x: int, y: int|
            !sub.contains_cell(x, y) ==> grid_at(b2, x, y) == grid_at(b1, x, y),
    ensures
        forall|x: int, y: int|
            !area.contains_cell(x, y) ==> grid_at(b2, x, y) == grid_at(b0, x, y),
{
    assert forall|x: int, y: int| !area.contains_cell(x, y) implies grid_at(b2, x, y) == grid_at(
        b0,
        x,
        y,
    ) by {
        assert(!sub.contains_cell(x, y));
    }
}

/// A drawing step that wrote only inside `sub` leaves every cell of the
/// row segment `[x0, x1)` at row `y` untouched when that segment lies
/// outside `sub`.
pub proof fn lemma_row_kept(
    b1: ratatui::buffer::Buffer,
    b2: ratatui::buffer::Buffer,
    sub: Rect,
    x0: int,
    x1: int,
    y: int,
)
    requires
        forall|x: int, yy: int|
            !sub.contains_cell(x, yy) ==> grid_at(b2, x, yy) == grid_at(b1, x, yy),
        y < sub.y || y >= sub.y + sub.height || x1 <= sub.x || x0 >= sub.x + sub.width,
    ensures
        forall|x: int| x0 <= x < x1 ==> #[trigger] grid_at(b2, x, y) == grid_at(b1, x, y),
{
    assert forall|x: int| x0 <= x < x1 implies #[trigger] grid_at(b2, x, y) == grid_at(
        b1,
        x,
        y,
    ) by {
        assert(!sub.contains_cell(x, y));
    }
}

/// Relies on ratatui's `Clear` widget: rendering it resets every cell of
/// the area (clamped to the buffer) to the default cell, whose symbol is a
/// single space; no other cell is touched.
#[verifier::external_body]
pub(crate) fn clear_rect(r: Rect, buf: &mut ratatui::buffer::Buffer)
    requires
        r.fits(),
        rect_in_grid(r, grid_area(*old(buf))),
    ensures
        grid_area(*final(buf)) == grid_area(*old(buf)),
        forall|x: int, y: int|
            r.contains_cell(x, y) ==> grid_at(*final(buf), x, y) == ' ',
        forall|x: int, y: int|
            !r.contains_cell(x, y) ==> grid_at(*final(buf), x, y) == grid_at(*old(buf), x, y),
{
    let area = ratatui::layout::Rect::new(r.x, r.y, r.width, r.height);
    ratatui::widgets::Widget::render(ratatui::widgets::Clear, area, buf);
}

/// Relies on ratatui's `Paragraph` widget over a single styled line:
/// rendering writes the line's graphemes left to right from the area's
/// top-left corner, truncated at the area's width, and changes no symbol
/// outside the area's top row (applying a style never changes a cell's
/// symbol). When every character occupies one cell, cell `i` of the top
/// row receives exactly character `i`.
///
/// The string bounds keep ratatui's `u16` line-width accumulation below
/// its maximum on every input: one-cell characters add one cell each (at
/// most one per character of the string, which fits the width), and any
/// character adds at most two cells, so 32767 characters stay below the
/// `u16` maximum. Without such a bound the accumulation can overflow and
/// the call can panic. `draw_row_fit` below establishes the bounds for an
/// arbitrary string.
#[verifier::external_body]
fn draw_row(s: &str, style: ratatui::style::Style, r: Rect, buf: &mut ratatui::buffer::Buffer)
    requires
        r.fits(),
        rect_in_grid(r, grid_area(*old(buf))),
        s@.len() <= r.width as int,
        s@.len() <= 32767 || (forall|i: int| 0 <= i < s@.len() ==> one_cell_char(s@[i])),
    ensures
        grid_area(*final(buf)) == grid_area(*old(buf)),
        forall|x: int, y: int|
            !(y == r.y && r.x <= x < r.x + r.width) ==> grid_at(*final(buf), x, y) == grid_at(
                *old(buf),
                x,
                y,
            ),
        (r.height >= 1 && (forall|i: int| 0 <= i < s@.len() ==> one_cell_char(s@[i])))
            ==> (forall|i: int|
            0 <= i < s@.len() && i < r.width ==> grid_at(*final(buf), r.x + i, r.y as int)
                == s@[i]),
        (forall|i: int| 0 <= i < s@.len() ==> one_cell_char(s@[i])) ==> (forall|x: int|
            r.x + s@.len() <= x < r.x + r.width ==> grid_at(*final(buf), x, r.y as int)
                == grid_at(*old(buf), x, r.y as int)),
{
    let area = ratatui::layout::Rect::new(r.x, r.y, r.width, r.height);
    let line = ratatui::text::Line::from(ratatui::text::Span::styled(s, style));
    ratatui::widgets::Widget::render(ratatui::widgets::Paragraph::new(line), area, buf);
}

pub(crate) fn char_one_cell(c: char) -> (r: bool)
    ensures
        r == one_cell_char(c),
{
    (' ' <= c && c <= '~') || c == '\u{258C}'
}

/// Draws `s` like `draw_row`, truncating it first so that it satisfies
/// `draw_row`'s string bounds whatever its length or content: at most the
/// rectangle's width in characters, and at most 32767 characters when not
/// all of them are one-cell.
pub(crate) fn draw_row_fit(
    s: &str,
    style: ratatui::style::Style,
    r: Rect,
    buf: &mut ratatui::buffer::Buffer,
)
    requires
        r.fits(),
        rect_in_grid(r, grid_area(*old(buf))),
    ensures
        grid_area(*final(buf)) == grid_area(*old(buf)),
        forall|x: int, y: int|
            !(y == r.y && r.x <= x < r.x + r.width) ==> grid_at(*final(buf), x, y) == grid_at(
                *old(buf),
                x,
                y,
            ),
        (r.height >= 1 && (forall|i: int| 0 <= i < s@.len() ==> one_cell_char(s@[i])))
            ==> (forall|i: int|
            0 <= i < s@.len() && i < r.width ==> grid_at(*final(buf), r.x + i, r.y as int)
                == s@[i]),
        (forall|i: int| 0 <= i < s@.len() ==> one_cell_char(s@[i])) ==> (forall|x: int|
            r.x + s@.len() <= x < r.x + r.width ==> grid_at(*final(buf), x, r.y as int)
                == grid_at(*old(buf), x, r.y as int)),
{
    let cs = crate::textops::chars_of(s);
    let w = r.width as usize;
    let fit = if cs.len() < w {
        cs.len()
    } else {
        w
    };
    let mut all_one: bool = true;
    let mut i: usize = 0;
    while i < fit
        invariant
            fit <= cs@.len(),
            i <= fit,
            all_one == (forall|j: int| 0 <= j < i ==> one_cell_char(cs@[j])),
        decreases fit - i,
    {
        if !char_one_cell(cs[i]) {
            all_one = false;
        }
        i = i + 1;
    }
    let keep = if all_one || fit <= 32767 {
        fit
    } else {
        32767
    };
    let mut t: Vec<char> = Vec::new();
    let mut j: usize = 0;
    while j < keep
        invariant
            keep <= cs@.len(),
            j <= keep,
            t@ == cs@.take(j as int),
        decreases keep - j,
    {
        t.push(cs[j]);
        j = j + 1;
        proof {
            assert(t@ =~= cs@.take(j as int));
        }
    }
    let s2 = crate::textops::string_from_chars(&t);
    proof {
        if forall|i2: int| 0 <= i2 < s@.len() ==> one_cell_char(s@[i2]) {
            assert(forall|j2: int| 0 <= j2 < s2@.len() ==> one_cell_char(#[trigger] s2@[j2]));
        }
    }
    draw_row(s2.as_str(), style, r, buf);
    proof {
        if r.height >= 1 && (forall|i2: int| 0 <= i2 < s@.len() ==> one_cell_char(s@[i2])) {
            assert(keep == fit);
            assert forall|i2: int| 0 <= i2 < s@.len() && i2 < r.width implies grid_at(
                *buf,
                r.x + i2,
                r.y as int,
            ) == s@[i2] by {
                assert(i2 < keep);
                assert(s2@[i2] == s@[i2]);
            }
        }
    }
}

/// Relies on `Buffer::area`: returns the buffer's own cell region, so a
/// verified caller can establish that a rectangle lies inside the buffer.
#[verifier::external_body]
pub fn buffer_area(buf: &ratatui::buffer::Buffer) -> (r: Rect)
    ensures
        r.x as int == grid_area(*buf).0,
        r.y as int == grid_area(*buf).1,
        r.width as int == grid_area(*buf).2,
        r.height as int == grid_area(*buf).3,
{
    let a = buf.area();
    Rect { x: a.x, y: a.y, width: a.width, height: a.height }
}

/// Relies on ratatui's `Style` and the DIM modifier for de-emphasized text.
#[verifier::external_body]
pub(crate) fn dim_style() -> ratatui::style::Style {
    ratatui::style::Style::new().add_modifier(ratatui::style::Modifier::DIM)
}

/// Relies on ratatui's `Style` and the BOLD modifier for emphasized text.
#[verifier::external_body]
pub(crate) fn bold_style() -> ratatui::style::Style {
    ratatui::style::Style::new().add_modifier(ratatui::style::Modifier::BOLD)
}

/// Relies on ratatui's default `Style`, which leaves cells' styling as is.
#[verifier::external_body]
pub(crate) fn plain_style() -> ratatui::style::Style {
    ratatui::style::Style::new()
}

} // verus!
