use vstd::prelude::*;

use crate::geom::Rect;
use crate::key::KeyCode;
use crate::key::KeyEvent;
use crate::screen::clear_rect;
use crate::screen::draw_row_fit;
use crate::screen::grid_area;
use crate::screen::grid_at;
use crate::screen::one_cell_char;
use crate::screen::plain_style;
use crate::screen::plain_text;
use crate::screen::rect_in_grid;
use crate::textops::chars_of;
use crate::textops::string_from_chars;

verus! {

/// Ghost model of the text area: the character sequence and the caret index.
pub ghost struct TextAreaView {
    pub text: Seq<char>,
    pub cursor: int,
}

/// A multi-line text buffer with a caret. Lines are separated by `'\n'`
/// characters stored in the flat character sequence.
pub struct TextArea {
    pub content: Vec<char>,
    pub cursor: usize,
}

impl View for TextArea {
    type V = TextAreaView;

    open spec fn view(&self) -> TextAreaView {
        TextAreaView { text: self.content@, cursor: self.cursor as int }
    }
}

/// `v` with `s` inserted at the caret and the caret moved past it.
pub open spec fn inserted(v: TextAreaView, s: Seq<char>) -> TextAreaView {
    TextAreaView {
        text: v.text.take(v.cursor) + s + v.text.skip(v.cursor),
        cursor: v.cursor + s.len(),
    }
}

/// The editor's transition for one key event: character insertion, newline
/// insertion on Enter, backspace, and caret movement; everything else is
/// ignored. Characters arriving with a control or alt modifier are ignored.
pub open spec fn input_view(v: TextAreaView, ev: KeyEvent) -> TextAreaView {
    match ev.code {
        KeyCode::Char(c) => {
            if !ev.modifiers.control && !ev.modifiers.alt {
                inserted(v, seq![c])
            } else {
                v
            }
        },
        KeyCode::Enter => inserted(v, seq!['\n']),
        KeyCode::Backspace => {
            if v.cursor > 0 {
                TextAreaView { text: v.text.remove(v.cursor - 1), cursor: v.cursor - 1 }
            } else {
                v
            }
        },
        KeyCode::Left => {
            if v.cursor > 0 {
                TextAreaView { text: v.text, cursor: v.cursor - 1 }
            } else {
                v
            }
        },
        KeyCode::Right => {
            if v.cursor < v.text.len() {
                TextAreaView { text: v.text, cursor: v.cursor + 1 }
            } else {
                v
            }
        },
        KeyCode::Esc => v,
        KeyCode::Other => v,
    }
}

/// Rows taken by one logical line of `n` characters at width `w`: the caret
/// may rest one column past a full row, so a line takes `n / w + 1` rows.
pub open spec fn line_rows(n: int, w: int) -> int {
    if w <= 0 {
        1
    } else {
        n / w + 1
    }
}

/// Rows taken by the remaining text `s` when the current logical line
/// already holds `cur` characters.
pub open spec fn rows_from(s: Seq<char>, w: int, cur: int) -> int
    decreases s.len(),
{
    if s.len() == 0 {
        line_rows(cur, w)
    } else if s[0] == '\n' {
        line_rows(cur, w) + rows_from(s.drop_first(), w, 0)
    } else {
        rows_from(s.drop_first(), w, cur + 1)
    }
}

/// Total wrapped rows of the text `s` at width `w`.
pub open spec fn wrapped_rows(s: Seq<char>, w: int) -> int {
    rows_from(s, w, 0)
}

/// `n` capped at 9: the editor never reports more rows than the prompt can
/// ever use, which also keeps the row arithmetic within machine bounds.
pub open spec fn capped_rows(n: int) -> int {
    if n > 9 {
        9
    } else {
        n
    }
}

/// Wrapped (row, column) of the caret after walking the remaining prefix
/// `s`, with `rows` rows already completed above the current logical line
/// and `off` characters before the caret on it.
pub open spec fn caret_walk(s: Seq<char>, w: int, rows: int, off: int) -> (int, int)
    decreases s.len(),
{
    if s.len() == 0 {
        if w <= 0 {
            (rows, off)
        } else {
            (rows + off / w, off % w)
        }
    } else if s[0] == '\n' {
        caret_walk(s.drop_first(), w, rows + line_rows(off, w), 0)
    } else {
        caret_walk(s.drop_first(), w, rows, off + 1)
    }
}

/// Wrapped (row, column) of the caret of `v` at width `w`.
pub open spec fn caret_rc(v: TextAreaView, w: int) -> (int, int) {
    caret_walk(v.text.take(v.cursor), w, 0, 0)
}

/// The `k`-th wrapped row of the remaining text `s`, when the current row
/// already holds `cur`: a row closes when it reaches `w` characters or at a
/// line break; rows past the end of the text are empty.
pub open spec fn row_of(s: Seq<char>, w: int, cur: Seq<char>, k: int) -> Seq<char>
    decreases s.len(), cur.len(),
{
    if w >= 1 && cur.len() >= w {
        if k == 0 {
            cur
        } else {
            row_of(s, w, Seq::empty(), k - 1)
        }
    } else if s.len() == 0 {
        if k == 0 {
            cur
        } else {
            Seq::empty()
        }
    } else if s[0] == '\n' {
        if k == 0 {
            cur
        } else {
            row_of(s.drop_first(), w, Seq::empty(), k - 1)
        }
    } else {
        row_of(s.drop_first(), w, cur.push(s[0]), k)
    }
}

/// The `k`-th wrapped row of the text `s` at width `w`.
pub open spec fn wrapped_row(s: Seq<char>, w: int, k: int) -> Seq<char> {
    row_of(s, w, Seq::empty(), k)
}

/// The symbol a render pass leaves in cell (x, y) of `rect`: character
/// `x - rect.x` of the wrapped row shown on that line, or a space past the
/// row's end (the pass clears the rectangle first).
pub open spec fn rendered_cell(
    text: Seq<char>,
    w: int,
    scroll: int,
    rect: Rect,
    x: int,
    y: int,
) -> char {
    let rowseq = wrapped_row(text, w, scroll + y - rect.y);
    if x - rect.x < rowseq.len() {
        rowseq[x - rect.x]
    } else {
        ' '
    }
}

/// The scroll offset after a render: unchanged when the caret row is
/// already visible, otherwise moved just far enough to show it.
pub open spec fn next_scroll(row: int, scroll: int, h: int) -> int {
    if row < scroll {
        row
    } else if row >= scroll + h {
        row + 1 - h
    } else {
        scroll
    }
}

proof fn lemma_div_le(n: int, w: int)
    requires
        n >= 0,
        w >= 1,
    ensures
        0 <= n / w <= n,
{
    assert(0 <= n / w <= n) by (nonlinear_arith)
        requires
            n >= 0,
            w >= 1,
    ;
}

proof fn lemma_mod_bound(n: int, w: int)
    requires
        n >= 0,
        w >= 1,
    ensures
        0 <= n % w < w,
{
    assert(0 <= n % w < w) by (nonlinear_arith)
        requires
            n >= 0,
            w >= 1,
    ;
}

proof fn lemma_rows_from_at_least_one(s: Seq<char>, w: int, cur: int)
    requires
        cur >= 0,
    ensures
        rows_from(s, w, cur) >= 1,
    decreases s.len(),
{
    if w >= 1 {
        lemma_div_le(cur, w);
    }
    if s.len() > 0 {
        if s[0] == '\n' {
            lemma_rows_from_at_least_one(s.drop_first(), w, 0);
        } else {
            lemma_rows_from_at_least_one(s.drop_first(), w, cur + 1);
        }
    }
}

/// Transient, render-pass-scoped state of the editor: the first visible
/// wrapped row. It only has meaning between a render and the matching
/// caret-position query.
pub struct TextAreaState {
    pub scroll: usize,
}

impl TextAreaState {
    pub fn new() -> (r: TextAreaState)
        ensures
            r.scroll == 0,
    {
        TextAreaState { scroll: 0 }
    }
}

impl Default for TextAreaState {
    fn default() -> (r: TextAreaState)
        ensures
            r.scroll == 0,
    {
        TextAreaState { scroll: 0 }
    }
}

impl TextArea {
    /// The caret never lies beyond the end of the text.
    pub open spec fn wf(self) -> bool {
        self.cursor <= self.content@.len()
    }

    pub fn new() -> (r: TextArea)
        ensures
            r.wf(),
            r@.text.len() == 0,
            r@.cursor == 0,
    {
        TextArea { content: Vec::new(), cursor: 0 }
    }

    /// The full current buffer content as a string.
    pub fn text(&self) -> (r: String)
        ensures
            r@ == self@.text,
    {
        string_from_chars(&self.content)
    }

    pub fn is_empty(&self) -> (r: bool)
        ensures
            r == (self@.text.len() == 0),
    {
        self.content.len() == 0
    }

    /// Applies one key event to the buffer.
    pub fn input(&mut self, ev: KeyEvent)
        requires
            old(self).wf(),
            old(self)@.text.len() < usize::MAX,
        ensures
            final(self).wf(),
            final(self)@ == input_view(old(self)@, ev),
    {
        match ev.code {
            KeyCode::Char(c) => {
                if !ev.modifiers.control && !ev.modifiers.alt {
                    self.insert_one(c);
                    proof {
                        assert(self@.text =~= inserted(old(self)@, seq![c]).text);
                    }
                }
            },
            KeyCode::Enter => {
                self.insert_one('\n');
                proof {
                    assert(self@.text =~= inserted(old(self)@, seq!['\n']).text);
                }
            },
            KeyCode::Backspace => {
                if self.cursor > 0 {
                    self.content.remove(self.cursor - 1);
                    self.cursor = self.cursor - 1;
                }
            },
            KeyCode::Left => {
                if self.cursor > 0 {
                    self.cursor = self.cursor - 1;
                }
            },
            KeyCode::Right => {
                if self.cursor < self.content.len() {
                    self.cursor = self.cursor + 1;
                }
            },
            KeyCode::Esc => {},
            KeyCode::Other => {},
        }
    }

    fn insert_one(&mut self, c: char)
        requires
            old(self).wf(),
            old(self)@.text.len() < usize::MAX,
        ensures
            final(self).wf(),
            final(self)@.text == old(self)@.text.insert(old(self)@.cursor, c),
            final(self)@.cursor == old(self)@.cursor + 1,
    {
        self.content.insert(self.cursor, c);
        self.cursor = self.cursor + 1;
    }

    /// Batch-inserts the characters `cs` at the caret.
    pub fn insert_chars(&mut self, cs: &Vec<char>)
        requires
            old(self).wf(),
            old(self)@.text.len() + cs@.len() <= usize::MAX,
        ensures
            final(self).wf(),
            final(self)@ == inserted(old(self)@, cs@),
    {
        let n = cs.len();
        let mut j: usize = 0;
        while j < n
            invariant
                old(self).wf(),
                n == cs@.len(),
                j <= n,
                old(self)@.text.len() + n <= usize::MAX,
                self.cursor == old(self).cursor,
                self.content@ =~= old(self)@.text.take(old(self)@.cursor) + cs@.take(j as int)
                    + old(self)@.text.skip(old(self)@.cursor),
            decreases n - j,
        {
            self.content.insert(self.cursor + j, cs[j]);
            j = j + 1;
            proof {
                assert(self.content@ =~= old(self)@.text.take(old(self)@.cursor) + cs@.take(
                    j as int,
                ) + old(self)@.text.skip(old(self)@.cursor));
            }
        }
        self.cursor = self.cursor + n;
        proof {
            assert(cs@.take(n as int) =~= cs@);
            assert(self@.text =~= inserted(old(self)@, cs@).text);
        }
    }

    /// Batch-inserts a string at the caret.
    pub fn insert_str(&mut self, s: &str)
        requires
            old(self).wf(),
            old(self)@.text.len() + s@.len() <= usize::MAX,
        ensures
            final(self).wf(),
            final(self)@ == inserted(old(self)@, s@),
    {
        let cs = chars_of(s);
        self.insert_chars(&cs);
    }

    /// How many rows the content needs at width `width`, capped at 9.
    pub fn desired_height(&self, width: u16) -> (r: u16)
        ensures
            r as int == capped_rows(wrapped_rows(self@.text, width as int)),
    {
        let w = width as usize;
        let ghost text = self@.text;
        let len = self.content.len();
        let mut i: usize = 0;
        let mut done: usize = 0;
        let mut cur: usize = 0;
        proof {
            assert(text.skip(0) =~= text);
        }
        while i < len
            invariant
                len == text.len(),
                i <= len,
                done + cur <= i,
                done < 9,
                w as int == width as int,
                text == self@.text,
                wrapped_rows(text, w as int) == done + rows_from(
                    text.skip(i as int),
                    w as int,
                    cur as int,
                ),
            decreases len - i,
        {
            proof {
                assert(text.skip(i as int).drop_first() =~= text.skip(i as int + 1));
                assert(text.skip(i as int)[0] == text[i as int]);
            }
            let c = self.content[i];
            if c == '\n' {
                let lr = line_rows_exec(cur, w);
                if lr >= 9 || done + lr >= 9 {
                    proof {
                        lemma_rows_from_at_least_one(text.skip(i as int + 1), w as int, 0);
                    }
                    return 9;
                }
                done = done + lr;
                cur = 0;
            } else {
                cur = cur + 1;
            }
            i = i + 1;
        }
        proof {
            assert(text.skip(len as int) =~= Seq::<char>::empty());
        }
        let lr = line_rows_exec(cur, w);
        if lr >= 9 || done + lr >= 9 {
            9u16
        } else {
            (done + lr) as u16
        }
    }
}

/// Where the caret of `v` shows inside `rect` when the first visible
/// wrapped row is `scroll`: its cell, or `None` when it is scrolled out of
/// view or the rectangle has no cells.
pub open spec fn caret_cell(v: TextAreaView, rect: Rect, scroll: int) -> Option<(u16, u16)> {
    if rect.width == 0 || rect.height == 0 {
        None
    } else {
        let rc = caret_rc(v, rect.width as int);
        if scroll <= rc.0 < scroll + rect.height {
            Some(((rect.x + rc.1) as u16, (rect.y + rc.0 - scroll) as u16))
        } else {
            None
        }
    }
}

impl TextArea {
    /// The caret's wrapped (row, column) at text width `w`.
    fn caret_position(&self, w: usize) -> (rc: (usize, usize))
        requires
            self.wf(),
            w >= 1,
        ensures
            rc.0 as int == caret_rc(self@, w as int).0,
            rc.1 as int == caret_rc(self@, w as int).1,
            rc.0 <= self@.cursor,
            rc.1 < w,
    {
        let ghost prefix = self@.text.take(self@.cursor);
        let k = self.cursor;
        let mut i: usize = 0;
        let mut rows: usize = 0;
        let mut off: usize = 0;
        proof {
            assert(prefix.skip(0) =~= prefix);
        }
        while i < k
            invariant
                self.wf(),
                w >= 1,
                prefix == self@.text.take(self@.cursor),
                k == self@.cursor,
                i <= k,
                rows + off <= i,
                caret_walk(prefix, w as int, 0, 0) == caret_walk(
                    prefix.skip(i as int),
                    w as int,
                    rows as int,
                    off as int,
                ),
            decreases k - i,
        {
            proof {
                assert(prefix.skip(i as int).drop_first() =~= prefix.skip(i as int + 1));
                assert(prefix.skip(i as int)[0] == prefix[i as int]);
                assert(prefix[i as int] == self@.text[i as int]);
            }
            let c = self.content[i];
            if c == '\n' {
                proof {
                    lemma_div_le(off as int, w as int);
                }
                rows = rows + off / w + 1;
                off = 0;
            } else {
                off = off + 1;
            }
            i = i + 1;
        }
        proof {
            assert(prefix.skip(k as int) =~= Seq::<char>::empty());
            lemma_div_le(off as int, w as int);
            lemma_mod_bound(off as int, w as int);
        }
        (rows + off / w, off % w)
    }

    /// Renders the wrapped text into `rect`, first scrolling just enough
    /// to keep the caret's row visible. Writes only inside `rect`; when
    /// every character is plain, each cell of `rect` afterwards holds
    /// exactly its wrapped-row character, or a space past the row's end.
    pub fn render(
        &self,
        rect: Rect,
        buf: &mut ratatui::buffer::Buffer,
        state: &mut TextAreaState,
    )
        requires
            self.wf(),
            rect.fits(),
            rect_in_grid(rect, grid_area(*old(buf))),
        ensures
            grid_area(*final(buf)) == grid_area(*old(buf)),
            forall|x: int, y: int|
                !rect.contains_cell(x, y) ==> grid_at(*final(buf), x, y) == grid_at(
                    *old(buf),
                    x,
                    y,
                ),
            rect.is_degenerate() ==> *final(buf) == *old(buf) && *final(state) == *old(state),
            !rect.is_degenerate() ==> final(state).scroll as int == next_scroll(
                caret_rc(self@, rect.width as int).0,
                old(state).scroll as int,
                rect.height as int,
            ),
            !rect.is_degenerate() && plain_text(self@.text) ==> forall|x: int, y: int|
                rect.contains_cell(x, y) ==> grid_at(*final(buf), x, y) == rendered_cell(
                    self@.text,
                    rect.width as int,
                    final(state).scroll as int,
                    rect,
                    x,
                    y,
                ),
    {
        if rect.width == 0 || rect.height == 0 {
            return ;
        }
        clear_rect(rect, buf);
        let w = rect.width as usize;
        let h = rect.height as usize;
        let (crow, _ccol) = self.caret_position(w);
        let scroll = if crow < state.scroll {
            crow
        } else if crow - state.scroll >= h {
            crow - (h - 1)
        } else {
            state.scroll
        };
        state.scroll = scroll;
        let ghost text = self@.text;
        let len = self.content.len();
        let mut i: usize = 0;
        let mut row: usize = 0;
        let mut col: usize = 0;
        let mut line: Vec<char> = Vec::new();
        proof {
            assert(text.skip(0) =~= text);
        }
        while i < len
            invariant
                self.wf(),
                text == self@.text,
                len == text.len(),
                i <= len,
                col == line@.len(),
                col <= w,
                row + col <= i,
                w as int == rect.width as int,
                w >= 1,
                rect.height >= 1,
                rect.fits(),
                rect_in_grid(rect, grid_area(*old(buf))),
                grid_area(*buf) == grid_area(*old(buf)),
                forall|x: int, y: int|
                    !rect.contains_cell(x, y) ==> grid_at(*buf, x, y) == grid_at(*old(buf), x, y),
                forall|k: int|
                    k >= row ==> row_of(text, w as int, Seq::empty(), k) == row_of(
                        text.skip(i as int),
                        w as int,
                        line@,
                        k - row,
                    ),
                plain_text(text) ==> forall|j: int|
                    0 <= j < line@.len() ==> one_cell_char(line@[j]),
                plain_text(text) ==> forall|x: int, y: int|
                    rect.contains_cell(x, y) ==> grid_at(*buf, x, y) == (if scroll + y - rect.y
                        < row {
                        rendered_cell(text, w as int, scroll as int, rect, x, y)
                    } else {
                        ' '
                    }),
            decreases len - i,
        {
            if col == w {
                proof {
                    lemma_flush_step(text, w as int, text.skip(i as int), line@, row as int);
                }
                let ghost prev = *buf;
                flush_row(rect, scroll, row, &line, buf);
                proof {
                    flush_invariants(
                        text,
                        w as int,
                        scroll as int,
                        row as int,
                        line@,
                        rect,
                        *old(buf),
                        prev,
                        *buf,
                    );
                    assert forall|k: int| k >= row + 1 implies row_of(
                        text,
                        w as int,
                        Seq::empty(),
                        k,
                    ) == row_of(text.skip(i as int), w as int, Seq::<char>::empty(), k - row - 1) by {
                        assert(row_of(text.skip(i as int), w as int, line@, k - row) == row_of(
                            text.skip(i as int),
                            w as int,
                            Seq::empty(),
                            k - row - 1,
                        ));
                    }
                }
                row = row + 1;
                col = 0;
                line = Vec::new();
            }
            let c = self.content[i];
            proof {
                assert(text.skip(i as int).drop_first() =~= text.skip(i as int + 1));
                assert(text.skip(i as int)[0] == text[i as int]);
            }
            if c == '\n' {
                proof {
                    lemma_flush_step(text, w as int, text.skip(i as int), line@, row as int);
                }
                let ghost prev = *buf;
                flush_row(rect, scroll, row, &line, buf);
                proof {
                    flush_invariants(
                        text,
                        w as int,
                        scroll as int,
                        row as int,
                        line@,
                        rect,
                        *old(buf),
                        prev,
                        *buf,
                    );
                    assert forall|k: int| k >= row + 1 implies row_of(
                        text,
                        w as int,
                        Seq::empty(),
                        k,
                    ) == row_of(text.skip(i as int + 1), w as int, Seq::<char>::empty(), k - row - 1) by {
                        assert(row_of(text.skip(i as int), w as int, line@, k - row) == row_of(
                            text.skip(i as int).drop_first(),
                            w as int,
                            Seq::empty(),
                            k - row - 1,
                        ));
                    }
                }
                row = row + 1;
                col = 0;
                line = Vec::new();
            } else {
                proof {
                    assert forall|k: int| k >= row implies row_of(
                        text,
                        w as int,
                        Seq::empty(),
                        k,
                    ) == row_of(text.skip(i as int + 1), w as int, line@.push(c), k - row) by {
                        assert(row_of(text.skip(i as int), w as int, line@, k - row) == row_of(
                            text.skip(i as int).drop_first(),
                            w as int,
                            line@.push(c),
                            k - row,
                        ));
                    }
                }
                line.push(c);
                col = col + 1;
            }
            i = i + 1;
        }
        proof {
            assert(text.skip(len as int) =~= Seq::<char>::empty());
            lemma_flush_step(text, w as int, text.skip(len as int), line@, row as int);
        }
        let ghost prev = *buf;
        flush_row(rect, scroll, row, &line, buf);
        proof {
            flush_invariants(
                text,
                w as int,
                scroll as int,
                row as int,
                line@,
                rect,
                *old(buf),
                prev,
                *buf,
            );
            if plain_text(text) {
                assert forall|x: int, y: int| rect.contains_cell(x, y) implies grid_at(
                    *buf,
                    x,
                    y,
                ) == rendered_cell(text, w as int, scroll as int, rect, x, y) by {
                    let k = scroll + y - rect.y;
                    if k > row {
                        assert(row_of(text, w as int, Seq::<char>::empty(), k) == row_of(
                            text.skip(len as int),
                            w as int,
                            line@,
                            k - row,
                        ));
                        lemma_rows_past_end(w as int, line@, k - row);
                        assert(wrapped_row(text, w as int, k) =~= Seq::<char>::empty());
                    }
                }
            }
        }
    }


    /// The cell where the host should place the terminal caret, given the
    /// same rectangle and transient state as the matching render pass.
    pub fn cursor_pos_with_state(&self, rect: Rect, state: &TextAreaState) -> (r: Option<
        (u16, u16),
    >)
        requires
            self.wf(),
            rect.fits(),
        ensures
            r == caret_cell(self@, rect, state.scroll as int),
    {
        if rect.width == 0 || rect.height == 0 {
            return None;
        }
        let (row, col) = self.caret_position(rect.width as usize);
        if row < state.scroll {
            return None;
        }
        let dy = row - state.scroll;
        if dy >= rect.height as usize {
            return None;
        }
        Some((rect.x + (col as u16), rect.y + (dy as u16)))
    }
}

/// Draws one wrapped row of editor text if it is scrolled into view: the
/// row's characters from the row rectangle's left edge, the cells past
/// them untouched; rows out of view leave the buffer as it is.
fn flush_row(
    rect: Rect,
    scroll: usize,
    row: usize,
    line: &Vec<char>,
    buf: &mut ratatui::buffer::Buffer,
)
    requires
        rect.fits(),
        rect.width >= 1,
        rect.height >= 1,
        rect_in_grid(rect, grid_area(*old(buf))),
        line@.len() <= rect.width,
    ensures
        grid_area(*final(buf)) == grid_area(*old(buf)),
        forall|x: int, y: int|
            !(scroll <= row < scroll + rect.height && y == rect.y + row - scroll && rect.x <= x
                < rect.x + rect.width) ==> grid_at(*final(buf), x, y) == grid_at(*old(buf), x, y),
        (scroll <= row < scroll + rect.height && (forall|j: int|
            0 <= j < line@.len() ==> one_cell_char(line@[j]))) ==> (forall|x: int|
            rect.x <= x < rect.x + rect.width ==> #[trigger] grid_at(
                *final(buf),
                x,
                rect.y + row - scroll,
            ) == (if x - rect.x < line@.len() {
                line@[x - rect.x]
            } else {
                grid_at(*old(buf), x, rect.y + row - scroll)
            })),
{
    if row >= scroll {
        let dy = row - scroll;
        if dy < rect.height as usize {
            let s = string_from_chars(line);
            let rr = Rect { x: rect.x, y: rect.y + (dy as u16), width: rect.width, height: 1 };
            draw_row_fit(s.as_str(), plain_style(), rr, buf);
        }
    }
}

/// At a point where a wrapped row closes (it is full, a line break
/// follows, or the text ends), the row under construction is exactly the
/// wrapped row of the whole text at the current row index.
proof fn lemma_flush_step(text: Seq<char>, w: int, s: Seq<char>, cur: Seq<char>, row: int)
    requires
        w >= 1,
        cur.len() <= w,
        cur.len() == w || s.len() == 0 || s[0] == '\n',
        forall|k: int|
            k >= row ==> row_of(text, w, Seq::empty(), k) == row_of(s, w, cur, k - row),
    ensures
        wrapped_row(text, w, row) == cur,
{
    assert(row_of(s, w, cur, 0) == cur);
    assert(row_of(text, w, Seq::empty(), row) == row_of(s, w, cur, 0));
}

/// Every wrapped row past the one under construction at the text's end is
/// empty.
proof fn lemma_rows_past_end(w: int, cur: Seq<char>, m: int)
    requires
        w >= 1,
        m >= 1,
        cur.len() <= w,
    ensures
        row_of(Seq::<char>::empty(), w, cur, m) =~= Seq::<char>::empty(),
{
    if cur.len() >= w {
        assert(row_of(Seq::<char>::empty(), w, cur, m) == row_of(
            Seq::<char>::empty(),
            w,
            Seq::empty(),
            m - 1,
        ));
    }
}

/// One flush keeps the render invariant: the region outside the rectangle
/// still holds its pre-render symbols, and inside it the rows below the
/// flushed one now show their wrapped content while the rest is still
/// cleared.
proof fn flush_invariants(
    text: Seq<char>,
    w: int,
    scroll: int,
    row: int,
    cur: Seq<char>,
    rect: Rect,
    b0: ratatui::buffer::Buffer,
    b1: ratatui::buffer::Buffer,
    b2: ratatui::buffer::Buffer,
)
    requires
        w == rect.width as int,
        w >= 1,
        rect.height >= 1,
        scroll >= 0,
        row >= 0,
        cur.len() <= w,
        wrapped_row(text, w, row) == cur,
        forall|x: int, y: int|
            !rect.contains_cell(x, y) ==> grid_at(b1, x, y) == grid_at(b0, x, y),
        plain_text(text) ==> forall|j: int| 0 <= j < cur.len() ==> one_cell_char(cur[j]),
        plain_text(text) ==> forall|x: int, y: int|
            rect.contains_cell(x, y) ==> grid_at(b1, x, y) == (if scroll + y - rect.y < row {
                rendered_cell(text, w, scroll, rect, x, y)
            } else {
                ' '
            }),
        forall|x: int, y: int|
            !(scroll <= row < scroll + rect.height && y == rect.y + row - scroll && rect.x <= x
                < rect.x + rect.width) ==> grid_at(b2, x, y) == grid_at(b1, x, y),
        (scroll <= row < scroll + rect.height && (forall|j: int|
            0 <= j < cur.len() ==> one_cell_char(cur[j]))) ==> (forall|x: int|
            rect.x <= x < rect.x + rect.width ==> #[trigger] grid_at(
                b2,
                x,
                rect.y + row - scroll,
            ) == (if x - rect.x < cur.len() {
                cur[x - rect.x]
            } else {
                grid_at(b1, x, rect.y + row - scroll)
            })),
    ensures
        forall|x: int, y: int|
            !rect.contains_cell(x, y) ==> grid_at(b2, x, y) == grid_at(b0, x, y),
        plain_text(text) ==> forall|x: int, y: int|
            rect.contains_cell(x, y) ==> grid_at(b2, x, y) == (if scroll + y - rect.y < row + 1 {
                rendered_cell(text, w, scroll, rect, x, y)
            } else {
                ' '
            }),
{
    assert forall|x: int, y: int| !rect.contains_cell(x, y) implies grid_at(b2, x, y) == grid_at(
        b0,
        x,
        y,
    ) by {}
    if plain_text(text) {
        assert forall|x: int, y: int| rect.contains_cell(x, y) implies grid_at(b2, x, y) == (
        if scroll + y - rect.y < row + 1 {
            rendered_cell(text, w, scroll, rect, x, y)
        } else {
            ' '
        }) by {
            let k = scroll + y - rect.y;
            if scroll <= row < scroll + rect.height && y == rect.y + row - scroll {
                assert(k == row);
                if x - rect.x < cur.len() {
                    assert(grid_at(b2, x, y) == cur[x - rect.x]);
                } else {
                    assert(grid_at(b2, x, y) == grid_at(b1, x, y));
                    assert(grid_at(b1, x, y) == ' ');
                }
            } else {
                assert(grid_at(b2, x, y) == grid_at(b1, x, y));
            }
        }
    }
}

/// Rows taken by a line of `n` characters at width `w`, capped at 9.
fn line_rows_exec(n: usize, w: usize) -> (r: usize)
    ensures
        r as int == if line_rows(n as int, w as int) > 9 {
            9int
        } else {
            line_rows(n as int, w as int)
        },
        r >= 1,
{
    if w == 0 {
        1
    } else {
        let q = n / w;
        proof {
            lemma_div_le(n as int, w as int);
        }
        if q >= 9 {
            9
        } else {
            q + 1
        }
    }
}

} // verus!
