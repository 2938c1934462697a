use vstd::prelude::*;

use crate::editor::caret_cell;
use crate::editor::caret_rc;
use crate::editor::input_view;
use crate::editor::inserted;
use crate::editor::next_scroll;
use crate::editor::rendered_cell;
use crate::editor::wrapped_rows;
use crate::editor::TextArea;
use crate::editor::TextAreaState;
use crate::editor::TextAreaView;
use crate::geom::Rect;
use crate::key::KeyCode;
use crate::key::KeyEvent;
use crate::screen::bold_style;
use crate::screen::buffer_area;
use crate::screen::clear_rect;
use crate::screen::dim_style;
use crate::screen::draw_row_fit;
use crate::screen::grid_area;
use crate::screen::grid_at;
use crate::screen::lemma_outside_area_preserved;
use crate::screen::lemma_row_kept;
use crate::screen::one_cell_char;
use crate::screen::plain_text;
use crate::screen::rect_in_grid;
use crate::textops::chars_of;
use crate::textops::string_from_chars;
use crate::textops::trim;
use crate::textops::trim_spec;

verus! {

/// The receiver of a submitted prompt. The host supplies the one
/// implementation it cares about; an implementation must account for every
/// submission it receives in its `submissions` history.
pub trait SubmitSink {
    /// The history of submitted texts, oldest first.
    spec fn submissions(&self) -> Seq<Seq<char>>;

    /// Accepts one submitted text.
    fn submit(&mut self, text: String)
        ensures
            final(self).submissions() == old(self).submissions().push(text@),
    ;
}

/// Whether this key event ends the prompt: Escape, or Enter without any
/// modifier.
pub open spec fn completes_event(ev: KeyEvent) -> bool {
    ev.code == KeyCode::Esc || (ev.code == KeyCode::Enter && ev.modifiers.is_none_spec())
}

/// Whether this key event submits `text`: an unmodified Enter while the
/// trimmed text is non-empty.
pub open spec fn submits_event(ev: KeyEvent, text: Seq<char>) -> bool {
    ev.code == KeyCode::Enter && ev.modifiers.is_none_spec() && trim_spec(text).len() > 0
}

/// `n` clamped to the inclusive range [1, 8].
pub open spec fn clamp_rows(n: int) -> int {
    if n < 1 {
        1
    } else if n > 8 {
        8
    } else {
        n
    }
}

/// Rows of the input region at total width `width`: the editor's desired
/// rows at the usable width (2 gutter columns removed), clamped to [1, 8],
/// plus one spacer row.
pub open spec fn input_height_spec(text: Seq<char>, width: u16) -> int {
    let usable = if width >= 2 {
        width - 2
    } else {
        0
    };
    clamp_rows(wrapped_rows(text, usable)) + 1
}

/// Total rows the view asks for: one title row, the input region, one
/// blank spacer row and one hint row.
pub open spec fn desired_height_spec(text: Seq<char>, width: u16) -> int {
    1 + input_height_spec(text, width) + 2
}

/// The editing sub-rectangle inside `area`: past the 2-column gutter and
/// the title and spacer rows, clipped to `area`.
pub open spec fn edit_rect_spec(text: Seq<char>, area: Rect) -> Rect {
    let tah = input_height_spec(text, area.width) - 1;
    let avail = area.height - 2;
    let clipped = if tah < avail {
        tah
    } else {
        avail
    };
    Rect {
        x: (area.x + 2) as u16,
        y: (area.y + 2) as u16,
        width: (area.width - 2) as u16,
        height: clipped as u16,
    }
}

/// The input-region rows that fit inside `area`: the input height,
/// clipped to the rows below the title row.
pub open spec fn shown_rows(text: Seq<char>, area: Rect) -> int {
    let ih = input_height_spec(text, area.width);
    if ih < area.height - 1 {
        ih
    } else {
        area.height - 1
    }
}

/// The cell at (x, y) holds the quote-bar glyph, and the one right of it a
/// space when the row is at least two cells wide.
pub open spec fn bar_cells_at(b: ratatui::buffer::Buffer, x: int, y: int, width: int) -> bool {
    grid_at(b, x, y) == '\u{258C}' && (width >= 2 ==> grid_at(b, x + 1, y) == ' ')
}

/// Every cell of row `y` from column `x0` up to `x1` holds a space.
pub open spec fn row_blank_from(b: ratatui::buffer::Buffer, x0: int, x1: int, y: int) -> bool {
    forall|x: int| x0 <= x < x1 ==> #[trigger] grid_at(b, x, y) == ' '
}

/// Row `y` shows the characters of `s` from column `x0` on, truncated to
/// `limit` cells.
pub open spec fn row_shows(
    b: ratatui::buffer::Buffer,
    s: Seq<char>,
    x0: int,
    limit: int,
    y: int,
) -> bool {
    forall|j: int| 0 <= j < s.len() && j < limit ==> #[trigger] grid_at(b, x0 + j, y) == s[j]
}

/// The dim text shown in the empty input region.
pub open spec fn placeholder_text() -> Seq<char> {
    "Type instructions and press Enter"@
}

/// The key-hint line shown below the input region.
pub open spec fn hint_line_text() -> Seq<char> {
    "Enter to submit, Esc to cancel"@
}

/// A drawing step that only wrote at or below the row past the input
/// region keeps everything the render pass has put on the rows above it:
/// the title row, the gutter glyphs, the input spacer row, the editor
/// cells and the placeholder.
#[verifier::rlimit(30)]
proof fn keep_rows_above(
    b1: ratatui::buffer::Buffer,
    b2: ratatui::buffer::Buffer,
    sub: Rect,
    area: Rect,
    title: Seq<char>,
    text: Seq<char>,
    shown: int,
    scroll: int,
)
    requires
        forall|x: int, y: int|
            !sub.contains_cell(x, y) ==> grid_at(b2, x, y) == grid_at(b1, x, y),
        sub.y >= area.y + 1 + shown,
        shown >= 0,
        edit_rect_spec(text, area).y + edit_rect_spec(text, area).height <= sub.y,
        bar_cells_at(b1, area.x as int, area.y as int, area.width as int),
        (area.width > 2 && (forall|i: int| 0 <= i < title.len() ==> one_cell_char(title[i])))
            ==> row_shows(b1, title, area.x + 2, area.width - 2, area.y as int),
        area.width >= 2 ==> forall|r: int|
            0 <= r < shown ==> #[trigger] bar_cells_at(
                b1,
                area.x as int,
                area.y + 1 + r,
                area.width as int,
            ),
        (area.width > 2 && shown >= 2) ==> row_blank_from(
            b1,
            area.x + 2,
            area.x + area.width,
            area.y + 1,
        ),
        (area.width > 2 && shown >= 2 && plain_text(text)) ==> (forall|x: int, y: int|
            edit_rect_spec(text, area).contains_cell(x, y) && (text.len() == 0 ==> y != area.y
                + 2) ==> grid_at(b1, x, y) == rendered_cell(
                text,
                area.width - 2,
                scroll,
                edit_rect_spec(text, area),
                x,
                y,
            )),
        (area.width > 2 && shown >= 2 && text.len() == 0) ==> row_shows(
            b1,
            placeholder_text(),
            area.x + 2,
            area.width - 2,
            area.y + 2,
        ),
    ensures
        bar_cells_at(b2, area.x as int, area.y as int, area.width as int),
        (area.width > 2 && (forall|i: int| 0 <= i < title.len() ==> one_cell_char(title[i])))
            ==> row_shows(b2, title, area.x + 2, area.width - 2, area.y as int),
        area.width >= 2 ==> forall|r: int|
            0 <= r < shown ==> #[trigger] bar_cells_at(
                b2,
                area.x as int,
                area.y + 1 + r,
                area.width as int,
            ),
        (area.width > 2 && shown >= 2) ==> row_blank_from(
            b2,
            area.x + 2,
            area.x + area.width,
            area.y + 1,
        ),
        (area.width > 2 && shown >= 2 && plain_text(text)) ==> (forall|x: int, y: int|
            edit_rect_spec(text, area).contains_cell(x, y) && (text.len() == 0 ==> y != area.y
                + 2) ==> grid_at(b2, x, y) == rendered_cell(
                text,
                area.width - 2,
                scroll,
                edit_rect_spec(text, area),
                x,
                y,
            )),
        (area.width > 2 && shown >= 2 && text.len() == 0) ==> row_shows(
            b2,
            placeholder_text(),
            area.x + 2,
            area.width - 2,
            area.y + 2,
        ),
{
    assert(!sub.contains_cell(area.x as int, area.y as int));
    assert(!sub.contains_cell(area.x + 1, area.y as int));
    if area.width > 2 && (forall|i: int| 0 <= i < title.len() ==> one_cell_char(title[i])) {
        assert forall|j: int| 0 <= j < title.len() && j < area.width - 2 implies #[trigger]
            grid_at(b2, area.x + 2 + j, area.y as int) == title[j] by {
            assert(!sub.contains_cell(area.x + 2 + j, area.y as int));
        }
    }
    if area.width >= 2 {
        assert forall|r: int| 0 <= r < shown implies #[trigger] bar_cells_at(
            b2,
            area.x as int,
            area.y + 1 + r,
            area.width as int,
        ) by {
            assert(!sub.contains_cell(area.x as int, area.y + 1 + r));
            assert(!sub.contains_cell(area.x + 1, area.y + 1 + r));
            assert(bar_cells_at(b1, area.x as int, area.y + 1 + r, area.width as int));
        }
    }
    if area.width > 2 && shown >= 2 {
        assert forall|x: int| area.x + 2 <= x < area.x + area.width implies #[trigger] grid_at(
            b2,
            x,
            area.y + 1,
        ) == ' ' by {
            assert(!sub.contains_cell(x, area.y + 1));
        }
        if plain_text(text) {
            let er = edit_rect_spec(text, area);
            assert forall|x: int, y: int|
                er.contains_cell(x, y) && (text.len() == 0 ==> y != area.y + 2) implies grid_at(
                b2,
                x,
                y,
            ) == rendered_cell(text, area.width - 2, scroll, er, x, y) by {
                assert(!sub.contains_cell(x, y));
            }
        }
        if text.len() == 0 {
            assert forall|j: int|
                0 <= j < placeholder_text().len() && j < area.width - 2 implies #[trigger]
                grid_at(b2, area.x + 2 + j, area.y + 2) == placeholder_text()[j] by {
                assert(!sub.contains_cell(area.x + 2 + j, area.y + 2));
            }
        }
    }
}

/// Ghost model of one prompt interaction: the completion flag, the editor
/// content, and the history of submitted texts.
pub ghost struct PromptModel {
    pub complete: bool,
    pub edit: TextAreaView,
    pub submissions: Seq<Seq<char>>,
}

/// One step of the lifecycle state machine on the model. A completed view
/// is terminal: the host delivers no further events to it, so a step from
/// a complete state changes nothing.
pub open spec fn step_model(m: PromptModel, ev: KeyEvent) -> PromptModel {
    if m.complete {
        m
    } else if completes_event(ev) {
        PromptModel {
            complete: true,
            edit: m.edit,
            submissions: if submits_event(ev, m.edit.text) {
                m.submissions.push(trim_spec(m.edit.text))
            } else {
                m.submissions
            },
        }
    } else {
        PromptModel { complete: false, edit: input_view(m.edit, ev), submissions: m.submissions }
    }
}

/// The model after delivering the events of `evs`, in order.
pub open spec fn run_model(m: PromptModel, evs: Seq<KeyEvent>) -> PromptModel
    decreases evs.len(),
{
    if evs.len() == 0 {
        m
    } else {
        run_model(step_model(m, evs[0]), evs.drop_first())
    }
}

/// A modal overlay collecting a free-form, multi-line instruction.
///
/// Plain Enter submits the trimmed text to the sink and completes the
/// view; Escape completes it without submitting; every other key, and
/// Enter with a modifier, goes to the editor.
pub struct CustomPromptView<S: SubmitSink> {
    pub title: String,
    pub on_submit: S,
    pub textarea: TextArea,
    pub textarea_state: TextAreaState,
    pub complete: bool,
}

impl<S: SubmitSink> CustomPromptView<S> {
    pub open spec fn wf(self) -> bool {
        self.textarea.wf()
    }

    /// The view's ghost model: its flag, editor content and history.
    pub open spec fn model(self) -> PromptModel {
        PromptModel {
            complete: self.complete,
            edit: self.textarea@,
            submissions: self.on_submit.submissions(),
        }
    }

    pub fn new(title: String, on_submit: S) -> (r: CustomPromptView<S>)
        ensures
            r.wf(),
            !r.complete,
            r.title@ == title@,
            r.on_submit == on_submit,
            r.textarea@.text.len() == 0,
            r.textarea@.cursor == 0,
            r.textarea_state.scroll == 0,
    {
        CustomPromptView {
            title,
            on_submit,
            textarea: TextArea::new(),
            textarea_state: TextAreaState::new(),
            complete: false,
        }
    }

    pub fn is_complete(&self) -> (r: bool)
        ensures
            r == self.complete,
    {
        self.complete
    }

    /// Applies one key event: Escape cancels, unmodified Enter submits the
    /// trimmed text (if non-empty) and completes, everything else is
    /// forwarded to the editor.
    pub fn handle_key_event(&mut self, ev: KeyEvent)
        requires
            old(self).wf(),
            !old(self).complete,
            old(self).textarea@.text.len() < usize::MAX,
        ensures
            final(self).wf(),
            final(self).title@ == old(self).title@,
            final(self).textarea_state == old(self).textarea_state,
            final(self).complete == completes_event(ev),
            completes_event(ev) ==> final(self).textarea@ == old(self).textarea@,
            !completes_event(ev) ==> final(self).textarea@ == input_view(
                old(self).textarea@,
                ev,
            ),
            submits_event(ev, old(self).textarea@.text) ==> final(self).on_submit.submissions()
                == old(self).on_submit.submissions().push(trim_spec(old(self).textarea@.text)),
            !submits_event(ev, old(self).textarea@.text) ==> final(self).on_submit == old(
                self,
            ).on_submit,
            final(self).model() == step_model(old(self).model(), ev),
    {
        match ev.code {
            KeyCode::Esc => {
                self.complete = true;
            },
            KeyCode::Enter => {
                if ev.modifiers.is_none() {
                    let trimmed = trim(&self.textarea.content);
                    if trimmed.len() > 0 {
                        let text = string_from_chars(&trimmed);
                        self.on_submit.submit(text);
                    }
                    self.complete = true;
                } else {
                    self.textarea.input(ev);
                }
            },
            _ => {
                self.textarea.input(ev);
            },
        }
    }

    /// Inserts a non-empty pasted string into the editor as one batch and
    /// reports it consumed; an empty paste is ignored and not consumed.
    pub fn handle_paste(&mut self, pasted: String) -> (r: bool)
        requires
            old(self).wf(),
            !old(self).complete,
            old(self).textarea@.text.len() + pasted@.len() <= usize::MAX,
        ensures
            final(self).wf(),
            r == (pasted@.len() > 0),
            !final(self).complete,
            final(self).title@ == old(self).title@,
            final(self).on_submit == old(self).on_submit,
            final(self).textarea_state == old(self).textarea_state,
            pasted@.len() == 0 ==> final(self).textarea@ == old(self).textarea@,
            pasted@.len() > 0 ==> final(self).textarea@ == inserted(
                old(self).textarea@,
                pasted@,
            ),
    {
        let cs = chars_of(pasted.as_str());
        if cs.len() == 0 {
            return false;
        }
        self.textarea.insert_chars(&cs);
        true
    }

    /// Rows of the input region (editor rows clamped to [1, 8], plus one
    /// spacer row) at total width `width`; always within [2, 9].
    pub fn input_height(&self, width: u16) -> (r: u16)
        ensures
            r as int == input_height_spec(self.textarea@.text, width),
            2 <= r <= 9,
    {
        let usable = if width >= 2 {
            width - 2
        } else {
            0
        };
        let th = self.textarea.desired_height(usable);
        let clamped = if th < 1 {
            1
        } else if th > 8 {
            8
        } else {
            th
        };
        clamped + 1
    }

    /// Total rows the view needs at width `width`; always within [5, 12].
    pub fn desired_height(&self, width: u16) -> (r: u16)
        ensures
            r as int == desired_height_spec(self.textarea@.text, width),
            5 <= r <= 12,
    {
        1 + self.input_height(width) + 2
    }

    /// Renders the view into `area`: a title row with the quote-bar glyph,
    /// the gutter-prefixed input region with the editor's text (or a
    /// placeholder while empty), then a blank spacer row and a hint row
    /// where they fit. Writes only inside `area`; a rectangle without
    /// cells is left untouched.
    pub fn render(&mut self, area: Rect, buf: &mut ratatui::buffer::Buffer)
        requires
            old(self).wf(),
            !area.is_degenerate() ==> area.fits() && rect_in_grid(area, grid_area(*old(buf))),
        ensures
            final(self).wf(),
            final(self).title@ == old(self).title@,
            final(self).textarea@ == old(self).textarea@,
            final(self).complete == old(self).complete,
            final(self).on_submit == old(self).on_submit,
            grid_area(*final(buf)) == grid_area(*old(buf)),
            forall|x: int, y: int|
                !area.contains_cell(x, y) ==> grid_at(*final(buf), x, y) == grid_at(
                    *old(buf),
                    x,
                    y,
                ),
            area.is_degenerate() ==> *final(buf) == *old(buf) && *final(self) == *old(self),
            area.width > 2 && area.height >= 3 ==> final(self).textarea_state.scroll as int
                == next_scroll(
                caret_rc(old(self).textarea@, area.width - 2).0,
                old(self).textarea_state.scroll as int,
                edit_rect_spec(old(self).textarea@.text, area).height as int,
            ),
            !(area.width > 2 && area.height >= 3) ==> final(self).textarea_state == old(
                self,
            ).textarea_state,
            !area.is_degenerate() ==> bar_cells_at(
                *final(buf),
                area.x as int,
                area.y as int,
                area.width as int,
            ),
            !area.is_degenerate() && area.width > 2 && (forall|i: int|
                0 <= i < old(self).title@.len() ==> one_cell_char(old(self).title@[i]))
                ==> row_shows(
                *final(buf),
                old(self).title@,
                area.x + 2,
                area.width - 2,
                area.y as int,
            ),
            !area.is_degenerate() && area.width >= 2 ==> forall|r: int|
                0 <= r < shown_rows(old(self).textarea@.text, area) ==> #[trigger] bar_cells_at(
                    *final(buf),
                    area.x as int,
                    area.y + 1 + r,
                    area.width as int,
                ),
            area.width > 2 && area.height >= 3 ==> row_blank_from(
                *final(buf),
                area.x + 2,
                area.x + area.width,
                area.y + 1,
            ),
            area.width > 2 && area.height >= 3 && plain_text(old(self).textarea@.text)
                ==> forall|x: int, y: int|
                edit_rect_spec(old(self).textarea@.text, area).contains_cell(x, y) && (old(
                    self,
                ).textarea@.text.len() == 0 ==> y != area.y + 2) ==> grid_at(*final(buf), x, y)
                    == rendered_cell(
                    old(self).textarea@.text,
                    area.width - 2,
                    final(self).textarea_state.scroll as int,
                    edit_rect_spec(old(self).textarea@.text, area),
                    x,
                    y,
                ),
            area.width > 2 && area.height >= 3 && old(self).textarea@.text.len() == 0
                ==> row_shows(
                *final(buf),
                placeholder_text(),
                area.x + 2,
                area.width - 2,
                area.y + 2,
            ),
            !area.is_degenerate() && 1 + input_height_spec(old(self).textarea@.text, area.width)
                < area.height ==> bar_cells_at(
                *final(buf),
                area.x as int,
                area.y + 1 + input_height_spec(old(self).textarea@.text, area.width),
                area.width as int,
            ) && row_blank_from(
                *final(buf),
                area.x + 2,
                area.x + area.width,
                area.y + 1 + input_height_spec(old(self).textarea@.text, area.width),
            ),
            !area.is_degenerate() && 2 + input_height_spec(old(self).textarea@.text, area.width)
                < area.height ==> row_shows(
                *final(buf),
                hint_line_text(),
                area.x as int,
                area.width as int,
                area.y + 2 + input_height_spec(old(self).textarea@.text, area.width),
            ),
    {
        if area.height == 0 || area.width == 0 {
            return ;
        }
        let ghost text = self.textarea@.text;
        let input_height = self.input_height(area.width);
        let bar = "\u{258C} ";
        let ghost ax = area.x as int;
        let ghost ay = area.y as int;
        let ghost aw = area.width as int;
        proof {
            reveal_strlit("\u{258C} ");
            assert(bar@.len() == 2);
            assert(forall|i: int| 0 <= i < bar@.len() ==> one_cell_char(bar@[i]));
        }
        let barw = if area.width < 2 {
            area.width
        } else {
            2
        };
        let bar_rect = Rect { x: area.x, y: area.y, width: barw, height: 1 };
        let ghost b0 = *buf;
        draw_row_fit(bar, dim_style(), bar_rect, buf);
        proof {
            assert forall|x: int, y: int| !bar_rect.contains_cell(x, y) implies grid_at(
                *buf,
                x,
                y,
            ) == grid_at(b0, x, y) by {}
            lemma_outside_area_preserved(*old(buf), b0, *buf, area, bar_rect);
            assert(grid_at(*buf, ax, ay) == bar@[0]);
            if aw >= 2 {
                assert(grid_at(*buf, ax + 1, ay) == bar@[1]);
            }
            assert(bar_cells_at(*buf, ax, ay, aw));
        }
        if area.width > 2 {
            let title_rect = Rect { x: area.x + 2, y: area.y, width: area.width - 2, height: 1 };
            let ghost b1 = *buf;
            draw_row_fit(self.title.as_str(), bold_style(), title_rect, buf);
            proof {
                assert forall|x: int, y: int| !title_rect.contains_cell(x, y) implies grid_at(
                    *buf,
                    x,
                    y,
                ) == grid_at(b1, x, y) by {}
                lemma_outside_area_preserved(*old(buf), b1, *buf, area, title_rect);
                lemma_row_kept(b1, *buf, title_rect, ax, ax + 2, ay);
                assert(bar_cells_at(*buf, ax, ay, aw));
                if forall|i: int| 0 <= i < self.title@.len() ==> one_cell_char(self.title@[i]) {
                    assert(row_shows(*buf, self.title@, ax + 2, aw - 2, ay));
                }
            }
        }
        let shown = if input_height < area.height - 1 {
            input_height
        } else {
            area.height - 1
        };
        proof {
            assert(shown as int == shown_rows(text, area));
        }
        if area.width >= 2 {
            let mut row: u16 = 0;
            while row < shown
                invariant
                    row <= shown,
                    shown as int == shown_rows(text, area),
                    shown <= area.height - 1,
                    area.width >= 2,
                    area.height >= 1,
                    area.fits(),
                    ax == area.x as int,
                    ay == area.y as int,
                    aw == area.width as int,
                    text == self.textarea@.text,
                    rect_in_grid(area, grid_area(*old(buf))),
                    grid_area(*buf) == grid_area(*old(buf)),
                    forall|x: int, y: int|
                        !area.contains_cell(x, y) ==> grid_at(*buf, x, y) == grid_at(
                            *old(buf),
                            x,
                            y,
                        ),
                    bar_cells_at(*buf, ax, ay, aw),
                    (area.width > 2 && (forall|i: int|
                        0 <= i < self.title@.len() ==> one_cell_char(self.title@[i])))
                        ==> row_shows(*buf, self.title@, ax + 2, aw - 2, ay),
                    forall|r: int|
                        0 <= r < row ==> #[trigger] bar_cells_at(*buf, ax, ay + 1 + r, aw),
                    bar@.len() == 2,
                    forall|i: int| 0 <= i < bar@.len() ==> one_cell_char(bar@[i]),
                    bar@[0] == '\u{258C}',
                    bar@[1] == ' ',
                decreases shown - row,
            {
                let gutter_rect = Rect { x: area.x, y: area.y + 1 + row, width: 2, height: 1 };
                let ghost b1 = *buf;
                draw_row_fit(bar, dim_style(), gutter_rect, buf);
                proof {
                    assert forall|x: int, y: int| !gutter_rect.contains_cell(x, y) implies
                        grid_at(*buf, x, y) == grid_at(b1, x, y) by {}
                    lemma_outside_area_preserved(*old(buf), b1, *buf, area, gutter_rect);
                    lemma_row_kept(b1, *buf, gutter_rect, ax, ax + 2, ay);
                    assert(bar_cells_at(*buf, ax, ay, aw));
                    if area.width > 2 {
                        lemma_row_kept(b1, *buf, gutter_rect, ax + 2, ax + aw, ay);
                    }
                    assert forall|r: int| 0 <= r < row + 1 implies #[trigger] bar_cells_at(
                        *buf,
                        ax,
                        ay + 1 + r,
                        aw,
                    ) by {
                        if r < row {
                            assert(!gutter_rect.contains_cell(ax, ay + 1 + r));
                            assert(!gutter_rect.contains_cell(ax + 1, ay + 1 + r));
                            assert(bar_cells_at(b1, ax, ay + 1 + r, aw));
                        } else {
                            assert(grid_at(*buf, ax, ay + 1 + r) == bar@[0]);
                            if aw >= 2 {
                                assert(grid_at(*buf, ax + 1, ay + 1 + r) == bar@[1]);
                            }
                        }
                    }
                }
                row = row + 1;
            }
            if shown >= 2 && area.width > 2 {
                let tah = shown - 1;
                let blank_rect = Rect {
                    x: area.x + 2,
                    y: area.y + 1,
                    width: area.width - 2,
                    height: 1,
                };
                let ghost b1 = *buf;
                clear_rect(blank_rect, buf);
                proof {
                    lemma_outside_area_preserved(*old(buf), b1, *buf, area, blank_rect);
                    lemma_row_kept(b1, *buf, blank_rect, ax, ax + 2, ay);
                    if forall|i: int| 0 <= i < self.title@.len() ==> one_cell_char(
                        self.title@[i],
                    ) {
                        lemma_row_kept(b1, *buf, blank_rect, ax + 2, ax + aw, ay);
                        assert(row_shows(*buf, self.title@, ax + 2, aw - 2, ay));
                    }
                    assert(bar_cells_at(*buf, ax, ay, aw));
                    assert forall|r: int| 0 <= r < shown implies #[trigger] bar_cells_at(
                        *buf,
                        ax,
                        ay + 1 + r,
                        aw,
                    ) by {
                        assert(!blank_rect.contains_cell(ax, ay + 1 + r));
                        assert(!blank_rect.contains_cell(ax + 1, ay + 1 + r));
                        assert(bar_cells_at(b1, ax, ay + 1 + r, aw));
                    }
                    assert forall|x: int| ax + 2 <= x < ax + aw implies #[trigger] grid_at(
                        *buf,
                        x,
                        ay + 1,
                    ) == ' ' by {
                        assert(blank_rect.contains_cell(x, ay + 1));
                    }
                    assert(row_blank_from(*buf, ax + 2, ax + aw, ay + 1));
                }
                let tarect = Rect {
                    x: area.x + 2,
                    y: area.y + 2,
                    width: area.width - 2,
                    height: tah,
                };
                let ghost b2 = *buf;
                self.textarea.render(tarect, buf, &mut self.textarea_state);
                proof {
                    lemma_outside_area_preserved(*old(buf), b2, *buf, area, tarect);
                    lemma_row_kept(b2, *buf, tarect, ax, ax + 2, ay);
                    if forall|i: int| 0 <= i < self.title@.len() ==> one_cell_char(
                        self.title@[i],
                    ) {
                        lemma_row_kept(b2, *buf, tarect, ax + 2, ax + aw, ay);
                        assert(row_shows(*buf, self.title@, ax + 2, aw - 2, ay));
                    }
                    assert(bar_cells_at(*buf, ax, ay, aw));
                    assert forall|r: int| 0 <= r < shown implies #[trigger] bar_cells_at(
                        *buf,
                        ax,
                        ay + 1 + r,
                        aw,
                    ) by {
                        assert(!tarect.contains_cell(ax, ay + 1 + r));
                        assert(!tarect.contains_cell(ax + 1, ay + 1 + r));
                        assert(bar_cells_at(b2, ax, ay + 1 + r, aw));
                    }
                    lemma_row_kept(b2, *buf, tarect, ax + 2, ax + aw, ay + 1);
                    assert forall|x: int| ax + 2 <= x < ax + aw implies #[trigger] grid_at(
                        *buf,
                        x,
                        ay + 1,
                    ) == ' ' by {
                        assert(grid_at(*buf, x, ay + 1) == grid_at(b2, x, ay + 1));
                        assert(grid_at(b2, x, ay + 1) == ' ');
                    }
                    assert(row_blank_from(*buf, ax + 2, ax + aw, ay + 1));
                    assert(tarect == edit_rect_spec(text, area));
                }
                if self.textarea.is_empty() {
                    let ph = "Type instructions and press Enter";
                    let ph_rect = Rect {
                        x: area.x + 2,
                        y: area.y + 2,
                        width: area.width - 2,
                        height: 1,
                    };
                    proof {
                        reveal_strlit("Type instructions and press Enter");
                        assert(forall|i: int|
                            0 <= i < ph@.len() ==> one_cell_char(ph@[i]));
                    }
                    let ghost b3 = *buf;
                    draw_row_fit(ph, dim_style(), ph_rect, buf);
                    proof {
                        assert forall|x: int, y: int| !ph_rect.contains_cell(x, y) implies
                            grid_at(*buf, x, y) == grid_at(b3, x, y) by {}
                        lemma_outside_area_preserved(*old(buf), b3, *buf, area, ph_rect);
                        lemma_row_kept(b3, *buf, ph_rect, ax, ax + 2, ay);
                        if forall|i: int| 0 <= i < self.title@.len() ==> one_cell_char(
                            self.title@[i],
                        ) {
                            lemma_row_kept(b3, *buf, ph_rect, ax + 2, ax + aw, ay);
                            assert(row_shows(*buf, self.title@, ax + 2, aw - 2, ay));
                        }
                        assert(bar_cells_at(*buf, ax, ay, aw));
                        assert forall|r: int| 0 <= r < shown implies #[trigger] bar_cells_at(
                            *buf,
                            ax,
                            ay + 1 + r,
                            aw,
                        ) by {
                            assert(!ph_rect.contains_cell(ax, ay + 1 + r));
                            assert(!ph_rect.contains_cell(ax + 1, ay + 1 + r));
                            assert(bar_cells_at(b3, ax, ay + 1 + r, aw));
                        }
                        lemma_row_kept(b3, *buf, ph_rect, ax + 2, ax + aw, ay + 1);
                        assert(row_blank_from(*buf, ax + 2, ax + aw, ay + 1));
                        if plain_text(text) {
                            assert forall|x: int, y: int| tarect.contains_cell(x, y) && y != ay
                                + 2 implies grid_at(*buf, x, y) == rendered_cell(
                                text,
                                aw - 2,
                                self.textarea_state.scroll as int,
                                tarect,
                                x,
                                y,
                            ) by {
                                assert(!ph_rect.contains_cell(x, y));
                                assert(grid_at(*buf, x, y) == grid_at(b3, x, y));
                            }
                        }
                        assert(row_shows(*buf, placeholder_text(), ax + 2, aw - 2, ay + 2));
                    }
                }
            }
        }
        let below = 1 + input_height;
        if below < area.height {
            let spacer_rect = Rect { x: area.x, y: area.y + below, width: area.width, height: 1 };
            let ghost b4 = *buf;
            clear_rect(spacer_rect, buf);
            proof {
                lemma_outside_area_preserved(*old(buf), b4, *buf, area, spacer_rect);
                keep_rows_above(b4, *buf, spacer_rect, area, self.title@, text, shown as int, self.textarea_state.scroll as int);
                assert forall|x: int| ax + 2 <= x < ax + aw implies #[trigger] grid_at(
                    *buf,
                    x,
                    ay + 1 + input_height as int,
                ) == ' ' by {
                    assert(spacer_rect.contains_cell(x, ay + 1 + input_height as int));
                }
                assert(row_blank_from(*buf, ax + 2, ax + aw, ay + 1 + input_height as int));
            }
            let spacer_bar_rect = Rect { x: area.x, y: area.y + below, width: barw, height: 1 };
            let ghost b5 = *buf;
            draw_row_fit(bar, dim_style(), spacer_bar_rect, buf);
            proof {
                assert forall|x: int, y: int| !spacer_bar_rect.contains_cell(x, y) implies
                    grid_at(*buf, x, y) == grid_at(b5, x, y) by {}
                lemma_outside_area_preserved(*old(buf), b5, *buf, area, spacer_bar_rect);
                keep_rows_above(b5, *buf, spacer_bar_rect, area, self.title@, text, shown as int, self.textarea_state.scroll as int);
                lemma_row_kept(b5, *buf, spacer_bar_rect, ax + 2, ax + aw, ay + 1 + input_height as int);
                assert forall|x: int| ax + 2 <= x < ax + aw implies #[trigger] grid_at(
                    *buf,
                    x,
                    ay + 1 + input_height as int,
                ) == ' ' by {
                    assert(grid_at(*buf, x, ay + 1 + input_height as int) == grid_at(
                        b5,
                        x,
                        ay + 1 + input_height as int,
                    ));
                }
                assert(row_blank_from(*buf, ax + 2, ax + aw, ay + 1 + input_height as int));
                assert(grid_at(*buf, ax, ay + 1 + input_height as int) == bar@[0]);
                if aw >= 2 {
                    assert(grid_at(*buf, ax + 1, ay + 1 + input_height as int) == bar@[1]);
                }
                assert(bar_cells_at(*buf, ax, ay + 1 + input_height as int, aw));
            }
        }
        let hinty = 2 + input_height;
        if hinty < area.height {
            let hint = "Enter to submit, Esc to cancel";
            let hint_rect = Rect { x: area.x, y: area.y + hinty, width: area.width, height: 1 };
            proof {
                reveal_strlit("Enter to submit, Esc to cancel");
                assert(forall|i: int| 0 <= i < hint@.len() ==> one_cell_char(hint@[i]));
            }
            let ghost b6 = *buf;
            draw_row_fit(hint, dim_style(), hint_rect, buf);
            proof {
                assert forall|x: int, y: int| !hint_rect.contains_cell(x, y) implies grid_at(
                    *buf,
                    x,
                    y,
                ) == grid_at(b6, x, y) by {}
                lemma_outside_area_preserved(*old(buf), b6, *buf, area, hint_rect);
                keep_rows_above(b6, *buf, hint_rect, area, self.title@, text, shown as int, self.textarea_state.scroll as int);
                if 1 + input_height_spec(text, area.width) < area.height as int {
                    lemma_row_kept(b6, *buf, hint_rect, ax, ax + aw, ay + 1 + input_height as int);
                    assert(row_blank_from(*buf, ax + 2, ax + aw, ay + 1 + input_height as int));
                    assert(bar_cells_at(*buf, ax, ay + 1 + input_height as int, aw));
                }
                assert(row_shows(*buf, hint_line_text(), ax, aw, ay + 2 + input_height as int));
            }
        }
    }


    /// Renders after checking the geometric preconditions itself: that the
    /// rectangle's coordinate sums fit and that it lies inside the buffer.
    /// Returns whether it drew; when it did not, nothing changed. Hosts
    /// that establish the preconditions themselves can call `render`
    /// directly for its full cell-level contract.
    pub fn try_render(&mut self, area: Rect, buf: &mut ratatui::buffer::Buffer) -> (r: bool)
        requires
            old(self).wf(),
        ensures
            final(self).wf(),
            r == (area.is_degenerate() || (area.fits() && rect_in_grid(
                area,
                grid_area(*old(buf)),
            ))),
            !r || area.is_degenerate() ==> *final(buf) == *old(buf) && *final(self) == *old(
                self,
            ),
            final(self).title@ == old(self).title@,
            final(self).textarea@ == old(self).textarea@,
            final(self).complete == old(self).complete,
            final(self).on_submit == old(self).on_submit,
            grid_area(*final(buf)) == grid_area(*old(buf)),
            forall|x: int, y: int|
                !area.contains_cell(x, y) ==> grid_at(*final(buf), x, y) == grid_at(
                    *old(buf),
                    x,
                    y,
                ),
            r && !area.is_degenerate() ==> bar_cells_at(
                *final(buf),
                area.x as int,
                area.y as int,
                area.width as int,
            ),
            r && area.width > 2 && area.height >= 3 ==> final(self).textarea_state.scroll as int
                == next_scroll(
                caret_rc(old(self).textarea@, area.width - 2).0,
                old(self).textarea_state.scroll as int,
                edit_rect_spec(old(self).textarea@.text, area).height as int,
            ),
            !(r && area.width > 2 && area.height >= 3) ==> final(self).textarea_state == old(
                self,
            ).textarea_state,
            r && !area.is_degenerate() && area.width > 2 && (forall|i: int|
                0 <= i < old(self).title@.len() ==> one_cell_char(old(self).title@[i]))
                ==> row_shows(
                *final(buf),
                old(self).title@,
                area.x + 2,
                area.width - 2,
                area.y as int,
            ),
            r && !area.is_degenerate() && area.width >= 2 ==> forall|rr: int|
                0 <= rr < shown_rows(old(self).textarea@.text, area) ==> #[trigger] bar_cells_at(
                    *final(buf),
                    area.x as int,
                    area.y + 1 + rr,
                    area.width as int,
                ),
            r && area.width > 2 && area.height >= 3 ==> row_blank_from(
                *final(buf),
                area.x + 2,
                area.x + area.width,
                area.y + 1,
            ),
            r && area.width > 2 && area.height >= 3 && plain_text(old(self).textarea@.text)
                ==> forall|x: int, y: int|
                edit_rect_spec(old(self).textarea@.text, area).contains_cell(x, y) && (old(
                    self,
                ).textarea@.text.len() == 0 ==> y != area.y + 2) ==> grid_at(*final(buf), x, y)
                    == rendered_cell(
                    old(self).textarea@.text,
                    area.width - 2,
                    final(self).textarea_state.scroll as int,
                    edit_rect_spec(old(self).textarea@.text, area),
                    x,
                    y,
                ),
            r && area.width > 2 && area.height >= 3 && old(self).textarea@.text.len() == 0
                ==> row_shows(
                *final(buf),
                placeholder_text(),
                area.x + 2,
                area.width - 2,
                area.y + 2,
            ),
            r && !area.is_degenerate() && 1 + input_height_spec(
                old(self).textarea@.text,
                area.width,
            ) < area.height ==> bar_cells_at(
                *final(buf),
                area.x as int,
                area.y + 1 + input_height_spec(old(self).textarea@.text, area.width),
                area.width as int,
            ) && row_blank_from(
                *final(buf),
                area.x + 2,
                area.x + area.width,
                area.y + 1 + input_height_spec(old(self).textarea@.text, area.width),
            ),
            r && !area.is_degenerate() && 2 + input_height_spec(
                old(self).textarea@.text,
                area.width,
            ) < area.height ==> row_shows(
                *final(buf),
                hint_line_text(),
                area.x as int,
                area.width as int,
                area.y + 2 + input_height_spec(old(self).textarea@.text, area.width),
            ),
    {
        if area.width == 0 || area.height == 0 {
            return true;
        }
        let ba = buffer_area(buf);
        let fits = area.x <= u16::MAX - area.width && area.y <= u16::MAX - area.height;
        let inside = fits && ba.x <= area.x && ba.y <= area.y && area.width <= ba.width
            && area.height <= ba.height && area.x - ba.x <= ba.width - area.width && area.y
            - ba.y <= ba.height - area.height;
        if !inside {
            return false;
        }
        self.render(area, buf);
        true
    }

    /// The cell for the terminal caret, or `None` when the rectangle
    /// leaves no usable editing space or the caret is scrolled out of view.
    pub fn cursor_pos(&self, area: Rect) -> (r: Option<(u16, u16)>)
        requires
            self.wf(),
            area.fits(),
        ensures
            area.height < 2 || area.width <= 2 ==> r is None,
            area.height >= 2 && area.width > 2 ==> r == caret_cell(
                self.textarea@,
                edit_rect_spec(self.textarea@.text, area),
                self.textarea_state.scroll as int,
            ),
    {
        if area.height < 2 || area.width <= 2 {
            return None;
        }
        let ih = self.input_height(area.width);
        let tah = ih - 1;
        let avail = area.height - 2;
        let clipped = if tah < avail {
            tah
        } else {
            avail
        };
        let rect = Rect {
            x: area.x + 2,
            y: area.y + 2,
            width: area.width - 2,
            height: clipped,
        };
        self.textarea.cursor_pos_with_state(rect, &self.textarea_state)
    }
}

/// Law: Enter with any modifier held never completes the prompt — with
/// respect to completion it is indistinguishable from ordinary character
/// input, which never completes either.
pub proof fn lemma_modified_enter_never_completes(ev: KeyEvent, c: char)
    requires
        ev.code == KeyCode::Enter,
        !ev.modifiers.is_none_spec(),
    ensures
        !completes_event(ev),
        completes_event(ev) == completes_event(
            KeyEvent { code: KeyCode::Char(c), modifiers: ev.modifiers },
        ),
{
}

/// Law: only Escape or an unmodified Enter completes the prompt.
pub proof fn lemma_completion_only_on_terminal_events(ev: KeyEvent)
    requires
        completes_event(ev),
    ensures
        ev.code == KeyCode::Esc || (ev.code == KeyCode::Enter && ev.modifiers.is_none_spec()),
{
}

/// Law: a submitting event is always a completing one.
pub proof fn lemma_submit_implies_complete(ev: KeyEvent, text: Seq<char>)
    requires
        submits_event(ev, text),
    ensures
        completes_event(ev),
{
}

/// Law: the complete state is terminal — from a complete model, no event
/// history changes anything.
pub proof fn lemma_complete_is_terminal(m: PromptModel, evs: Seq<KeyEvent>)
    requires
        m.complete,
    ensures
        run_model(m, evs) == m,
    decreases evs.len(),
{
    if evs.len() > 0 {
        lemma_complete_is_terminal(m, evs.drop_first());
    }
}

/// Law: starting active, the view is complete after a history iff the
/// history holds an Escape or an unmodified Enter; until the first such
/// event it stays active, after it permanently complete.
pub proof fn lemma_complete_iff_terminal_event(m: PromptModel, evs: Seq<KeyEvent>)
    requires
        !m.complete,
    ensures
        run_model(m, evs).complete <==> exists|i: int|
            0 <= i < evs.len() && completes_event(#[trigger] evs[i]),
    decreases evs.len(),
{
    if evs.len() == 0 {
    } else {
        let m1 = step_model(m, evs[0]);
        let rest = evs.drop_first();
        if completes_event(evs[0]) {
            lemma_complete_is_terminal(m1, rest);
            assert(0 <= 0 < evs.len() && completes_event(evs[0]));
        } else {
            lemma_complete_iff_terminal_event(m1, rest);
            if run_model(m, evs).complete {
                let j = choose|j: int| 0 <= j < rest.len() && completes_event(#[trigger] rest[j]);
                assert(rest[j] == evs[j + 1]);
                assert(0 <= j + 1 < evs.len() && completes_event(evs[j + 1]));
            }
            if exists|i: int| 0 <= i < evs.len() && completes_event(#[trigger] evs[i]) {
                let i = choose|i: int| 0 <= i < evs.len() && completes_event(#[trigger] evs[i]);
                assert(i != 0);
                assert(rest[i - 1] == evs[i]);
                assert(0 <= i - 1 < rest.len() && completes_event(rest[i - 1]));
            }
        }
    }
}

/// Law: across a whole interaction from an active view, the submission
/// history grows by at most one entry — the callback fires at most once.
pub proof fn lemma_submit_at_most_once(m: PromptModel, evs: Seq<KeyEvent>)
    requires
        !m.complete,
    ensures
        run_model(m, evs).submissions.len() <= m.submissions.len() + 1,
    decreases evs.len(),
{
    if evs.len() > 0 {
        let m1 = step_model(m, evs[0]);
        if m1.complete {
            lemma_complete_is_terminal(m1, evs.drop_first());
        } else {
            lemma_submit_at_most_once(m1, evs.drop_first());
        }
    }
}

/// Law: for every content and every width (including 0) the view asks for
/// at least 5 rows — more than the 3-row floor of one title row, one input
/// row and one hint row — and never more than 12.
pub proof fn lemma_desired_height_bounds(text: Seq<char>, width: u16)
    ensures
        5 <= desired_height_spec(text, width) <= 12,
{
}

} // verus!
