//! The virtual terminal grid and its interpreter.
//!
//! A [`Frame`] holds a fixed width x height matrix of cells, a cursor, and
//! the current rendition (foreground color and intensity). Decoded control
//! events are applied strictly in order; every effect is specified against
//! the ghost view [`FrameV`].

use vstd::prelude::*;

use crate::color::{Color, Intensity};
use crate::error::ConvertError;

verus! {

/// One cell of the grid: an optional character (absent means never
/// painted) plus the rendition it was painted with.
#[derive(Debug, Copy, Clone)]
pub struct FrameCell {
    /// Character shown in this cell.
    pub ch: Option<char>,
    /// Foreground color of the cell.
    pub fg: Color,
    /// Text intensity of the cell.
    pub intensity: Intensity,
}

/// The cell a fresh grid is filled with: no character, default color,
/// normal intensity.
pub open spec fn default_cell() -> FrameCell {
    FrameCell { ch: None, fg: Color::Default, intensity: Intensity::Normal }
}

impl FrameCell {
    /// Whether two cells share the exact same rendition.
    pub fn attr_eq(&self, other: &FrameCell) -> (r: bool)
        ensures
            r == (self.fg == other.fg && self.intensity == other.intensity),
    {
        self.fg == other.fg && self.intensity == other.intensity
    }
}

impl Default for FrameCell {
    /// The never-painted cell.
    fn default() -> (r: Self)
        ensures
            r == default_cell(),
    {
        FrameCell { ch: None, fg: Color::Default, intensity: Intensity::Normal }
    }
}

/// Mode for erase-in-line, relative to the cursor.
#[derive(Debug, Copy, Clone, Eq, PartialEq, Structural)]
pub enum LineClearMode {
    /// Clear right of the cursor.
    Right,
    /// Clear left of the cursor.
    Left,
    /// Clear the entire line.
    All,
}

/// Mode for erase-in-display, relative to the cursor.
#[derive(Debug, Copy, Clone, Eq, PartialEq, Structural)]
pub enum ClearMode {
    /// Clear below the cursor.
    Below,
    /// Clear above the cursor.
    Above,
    /// Clear the entire visible grid.
    All,
    /// Clear scrolled-off lines; nothing is retained, so this is inert.
    Saved,
}

/// A decoded terminal control element, as handed over by an external
/// control-stream tokenizer. Only the elements the interpreter reacts to
/// carry data; recognized-but-inert elements are plain variants.
#[derive(Debug)]
pub enum ControlEvent {
    /// A printable character.
    Print(char),
    /// A C0/C1 control byte.
    Execute(u8),
    /// A parameterized command with a final action letter; each parameter
    /// is a group of subparameters.
    Csi(Vec<Vec<u16>>, char),
    /// An escape sequence final byte.
    Esc(u8),
    /// An operating system command; inert.
    Osc,
    /// Start of a device control string; inert.
    DcsHook,
    /// A byte inside a device control string; inert.
    DcsPut,
    /// End of a device control string; inert.
    DcsUnhook,
}

/// Ghost image of a [`ControlEvent`].
pub ghost enum CEvent {
    Print(char),
    Execute(u8),
    Csi(Seq<Seq<u16>>, char),
    Esc(u8),
    Osc,
    DcsHook,
    DcsPut,
    DcsUnhook,
}

impl DeepView for ControlEvent {
    type V = CEvent;

    open spec fn deep_view(&self) -> CEvent {
        self.view()
    }
}

impl View for ControlEvent {
    type V = CEvent;

    open spec fn view(&self) -> CEvent {
        match self {
            ControlEvent::Print(c) => CEvent::Print(*c),
            ControlEvent::Execute(b) => CEvent::Execute(*b),
            ControlEvent::Csi(params, action) => CEvent::Csi(params.deep_view(), *action),
            ControlEvent::Esc(b) => CEvent::Esc(*b),
            ControlEvent::Osc => CEvent::Osc,
            ControlEvent::DcsHook => CEvent::DcsHook,
            ControlEvent::DcsPut => CEvent::DcsPut,
            ControlEvent::DcsUnhook => CEvent::DcsUnhook,
        }
    }
}

/// A reconstructed frame of the session: the cell matrix in row-major
/// order, the cursor, and the current rendition.
#[derive(Debug)]
pub struct Frame {
    /// Cursor column, zero indexed; may rest just past the last column.
    pub x: usize,
    /// Cursor row, zero indexed; always a valid row.
    pub y: usize,
    /// Number of columns.
    pub x_max: usize,
    /// Number of rows.
    pub y_max: usize,
    /// Foreground color applied to subsequently printed characters.
    pub fg: Color,
    /// Intensity applied to subsequently printed characters.
    pub intensity: Intensity,
    /// Cell matrix, row-major, `x_max * y_max` cells.
    pub buf: Vec<FrameCell>,
}

/// Ghost image of a [`Frame`].
pub ghost struct FrameV {
    pub x: int,
    pub y: int,
    pub x_max: int,
    pub y_max: int,
    pub fg: Color,
    pub intensity: Intensity,
    pub buf: Seq<FrameCell>,
}

impl View for Frame {
    type V = FrameV;

    open spec fn view(&self) -> FrameV {
        FrameV {
            x: self.x as int,
            y: self.y as int,
            x_max: self.x_max as int,
            y_max: self.y_max as int,
            fg: self.fg,
            intensity: self.intensity,
            buf: self.buf@,
        }
    }
}

impl FrameV {
    /// Invariant of the grid: the cursor row is a valid row, the cursor
    /// column is at most one past the last column, and the matrix has
    /// exactly width x height cells.
    pub open spec fn wf(self) -> bool {
        &&& 0 <= self.y < self.y_max
        &&& 0 <= self.x <= self.x_max
        &&& self.buf.len() == self.x_max * self.y_max
    }

    /// Row-major index of the first cell of row `y`.
    pub open spec fn row_index(self, y: int) -> int {
        y * self.x_max
    }

    /// Row-major index of the cursor cell.
    pub open spec fn cursor_index(self) -> int {
        self.y * self.x_max + self.x
    }
}

/// Effect of printing one character: when the cursor column is within the
/// grid the cell under the cursor takes the character and the current
/// rendition and the column advances by one; a cursor resting past the
/// last column paints nothing (no automatic wrap).
pub open spec fn print_spec(v: FrameV, c: char) -> FrameV {
    if v.x < v.x_max {
        FrameV {
            x: v.x + 1,
            buf: v.buf.update(
                v.cursor_index(),
                FrameCell { ch: Some(c), fg: v.fg, intensity: v.intensity },
            ),
            ..v
        }
    } else {
        v
    }
}

/// Effect of a carriage return: the column goes back to zero.
pub open spec fn cr_spec(v: FrameV) -> FrameV {
    FrameV { x: 0, ..v }
}

/// Effect of advancing one row: on the last row the first row is
/// discarded, a blank row is appended at the bottom and the cursor stays
/// on the last row; otherwise the row advances.
pub open spec fn lf_spec(v: FrameV) -> FrameV {
    if v.y + 1 < v.y_max {
        FrameV { y: v.y + 1, ..v }
    } else {
        FrameV {
            buf: v.buf.subrange(v.x_max, v.buf.len() as int) + Seq::new(
                v.x_max as nat,
                |i: int| default_cell(),
            ),
            ..v
        }
    }
}

/// Effect of a control byte: line feed, vertical tab and form feed advance
/// one row; carriage return resets the column; every other control byte is
/// ignored.
pub open spec fn execute_spec(v: FrameV, b: u8) -> FrameV {
    if b == 0x0a || b == 0x0b || b == 0x0c {
        lf_spec(v)
    } else if b == 0x0d {
        cr_spec(v)
    } else {
        v
    }
}

/// Effect of erase-in-display over the whole grid: every cell loses its
/// character; stored renditions are untouched.
pub open spec fn clear_all_spec(v: FrameV) -> FrameV {
    FrameV {
        buf: Seq::new(v.buf.len(), |i: int| FrameCell { ch: None, ..v.buf[i] }),
        ..v
    }
}

/// Effect of erase-in-line from the cursor cell to the end of the row:
/// those cells return to the default cell.
pub open spec fn clear_line_right_spec(v: FrameV) -> FrameV {
    FrameV {
        buf: Seq::new(
            v.buf.len(),
            |i: int|
                if v.cursor_index() <= i < v.row_index(v.y + 1) {
                    default_cell()
                } else {
                    v.buf[i]
                },
        ),
        ..v
    }
}

/// Effect of erase-in-line over the whole row: the row returns to default
/// cells.
pub open spec fn clear_line_all_spec(v: FrameV) -> FrameV {
    FrameV {
        buf: Seq::new(
            v.buf.len(),
            |i: int|
                if v.row_index(v.y) <= i < v.row_index(v.y + 1) {
                    default_cell()
                } else {
                    v.buf[i]
                },
        ),
        ..v
    }
}

impl Frame {
    /// Create a fresh grid of never-painted cells with the cursor at the
    /// origin and the default rendition.
    pub fn new(width: usize, height: usize) -> (f: Frame)
        requires
            height >= 1,
            width * height <= usize::MAX,
        ensures
            f@.wf(),
            f@.x == 0,
            f@.y == 0,
            f@.x_max == width,
            f@.y_max == height,
            f@.fg == Color::Default,
            f@.intensity == Intensity::Normal,
            f@.buf == Seq::new((width * height) as nat, |i: int| default_cell()),
    {
        let n: usize = width * height;
        let mut buf: Vec<FrameCell> = Vec::new();
        let mut i: usize = 0;
        while i < n
            invariant
                i <= n,
                buf@ =~= Seq::new(i as nat, |j: int| default_cell()),
            decreases n - i,
        {
            buf.push(FrameCell::default());
            i += 1;
            assert(buf@ =~= Seq::new(i as nat, |j: int| default_cell()));
        }
        let f = Frame {
            x: 0,
            y: 0,
            x_max: width,
            y_max: height,
            fg: Color::Default,
            intensity: Intensity::Normal,
            buf,
        };
        f
    }

    /// Move the cursor up; callers guard the bound.
    pub fn move_up(&mut self, amount: usize)
        requires
            old(self)@.wf(),
            amount <= old(self)@.y,
        ensures
            final(self)@ == (FrameV { y: old(self)@.y - amount, ..old(self)@ }),
            final(self)@.wf(),
    {
        self.y -= amount;
    }

    /// Move the cursor down; callers guard the bound.
    pub fn move_down(&mut self, amount: usize)
        requires
            old(self)@.wf(),
            old(self)@.y + amount < old(self)@.y_max,
        ensures
            final(self)@ == (FrameV { y: old(self)@.y + amount, ..old(self)@ }),
            final(self)@.wf(),
    {
        self.y += amount;
    }

    /// Advance the cursor column by one, saturating just past the last
    /// column; printing there paints nothing.
    pub fn increment_cursor(&mut self)
        requires
            old(self)@.wf(),
        ensures
            final(self)@ == (FrameV {
                x: if old(self)@.x < old(self)@.x_max {
                    old(self)@.x + 1
                } else {
                    old(self)@.x
                },
                ..old(self)@
            }),
            final(self)@.wf(),
    {
        if self.x < self.x_max {
            self.x += 1;
        }
    }

    /// Advance one row, scrolling the grid when the cursor is on the last
    /// row: the first row is discarded and a blank row appended; the
    /// cursor then stays on the last row. No scrolled-off content is
    /// retained.
    pub fn increment_line(&mut self)
        requires
            old(self)@.wf(),
        ensures
            final(self)@ == lf_spec(old(self)@),
            final(self)@.wf(),
    {
        proof {
            lemma_grid_bounds(self@);
        }
        if self.y + 1 < self.y_max {
            self.y += 1;
        } else {
            let n = self.buf.len();
            let w = self.x_max;
            let mut nbuf: Vec<FrameCell> = Vec::new();
            let mut i: usize = w;
            while i < n
                invariant
                    w <= i <= n,
                    n == self.buf@.len(),
                    nbuf@ =~= self.buf@.subrange(w as int, i as int),
                decreases n - i,
            {
                nbuf.push(self.buf[i]);
                i += 1;
                assert(nbuf@ =~= self.buf@.subrange(w as int, i as int));
            }
            let mut k: usize = 0;
            let ghost shifted = nbuf@;
            while k < w
                invariant
                    k <= w,
                    nbuf@ =~= shifted + Seq::new(k as nat, |j: int| default_cell()),
                decreases w - k,
            {
                nbuf.push(FrameCell::default());
                k += 1;
                assert(nbuf@ =~= shifted + Seq::new(k as nat, |j: int| default_cell()));
            }
            self.buf = nbuf;
            assert(self@.buf =~= lf_spec(old(self)@).buf);
        }
    }

    /// Paint one character at the cursor with the current rendition and
    /// advance the column.
    pub fn print(&mut self, c: char)
        requires
            old(self)@.wf(),
        ensures
            final(self)@ == print_spec(old(self)@, c),
            final(self)@.wf(),
    {
        proof {
            lemma_grid_bounds(old(self)@);
        }
        let n = self.buf.len();
        if self.x < self.x_max {
            let idx = self.y * self.x_max + self.x;
            let cell = FrameCell { ch: Some(c), fg: self.fg, intensity: self.intensity };
            self.buf.set(idx, cell);
            self.x += 1;
        }
    }

    /// Apply a control byte.
    pub fn execute(&mut self, byte: u8)
        requires
            old(self)@.wf(),
        ensures
            final(self)@ == execute_spec(old(self)@, byte),
            final(self)@.wf(),
    {
        if byte == 0x0a || byte == 0x0b || byte == 0x0c {
            self.increment_line();
        } else if byte == 0x0d {
            self.x = 0;
        }
    }

    /// Reset the current rendition to the default color and normal
    /// intensity.
    pub fn reset_text_formats(&mut self)
        requires
            old(self)@.wf(),
        ensures
            final(self)@ == (FrameV {
                fg: Color::Default,
                intensity: Intensity::Normal,
                ..old(self)@
            }),
            final(self)@.wf(),
    {
        self.fg = Color::Default;
        self.intensity = Intensity::Normal;
    }

    /// Row-major index of the first cell of row `y`.
    pub fn buffer_row_index(&self, y: usize) -> (r: usize)
        requires
            self@.wf(),
            y <= self@.y_max,
        ensures
            r == self@.row_index(y as int),
            r <= self@.buf.len(),
    {
        proof {
            lemma_row_index_bound(y as int, self@.y_max, self@.x_max);
        }
        let n = self.buf.len();
        y * self.x_max
    }

    /// Row-major index of the cursor cell.
    pub fn buffer_index(&self) -> (r: usize)
        requires
            self@.wf(),
        ensures
            r == self@.cursor_index(),
            r <= self@.buf.len(),
    {
        proof {
            lemma_grid_bounds(self@);
        }
        let n = self.buf.len();
        self.buffer_row_index(self.y) + self.x
    }

    /// Erase-in-display: the whole grid can be cleared and clearing
    /// scrollback is inert; below and above the cursor are unsupported.
    pub fn clear_terminal(&mut self, mode: ClearMode) -> (r: Result<(), ConvertError>)
        requires
            old(self)@.wf(),
        ensures
            r == clear_terminal_result(mode),
            final(self)@ == (if r is Ok {
                clear_terminal_spec(old(self)@, mode)
            } else {
                old(self)@
            }),
            final(self)@.wf(),
    {
        match mode {
            ClearMode::Below => Err(ConvertError::ClearBelowUnsupported),
            ClearMode::Above => Err(ConvertError::ClearAboveUnsupported),
            ClearMode::All => {
                let n = self.buf.len();
                let mut i: usize = 0;
                assert(self@.buf =~= Seq::new(
                    old(self)@.buf.len(),
                    |j: int|
                        if j < 0 {
                            FrameCell { ch: None, ..old(self)@.buf[j] }
                        } else {
                            old(self)@.buf[j]
                        },
                ));
                while i < n
                    invariant
                        i <= n,
                        n == self.buf@.len(),
                        self@ == (FrameV {
                            buf: Seq::new(
                                old(self)@.buf.len(),
                                |j: int|
                                    if j < i {
                                        FrameCell { ch: None, ..old(self)@.buf[j] }
                                    } else {
                                        old(self)@.buf[j]
                                    },
                            ),
                            ..old(self)@
                        }),
                    decreases n - i,
                {
                    let mut cell = self.buf[i];
                    cell.ch = None;
                    self.buf.set(i, cell);
                    i += 1;
                    assert(self@.buf =~= Seq::new(
                        old(self)@.buf.len(),
                        |j: int|
                            if j < i {
                                FrameCell { ch: None, ..old(self)@.buf[j] }
                            } else {
                                old(self)@.buf[j]
                            },
                    ));
                }
                assert(self@.buf =~= clear_all_spec(old(self)@).buf);
                Ok(())
            },
            ClearMode::Saved => Ok(()),
        }
    }

    /// Erase-in-line: to the end of the row and the entire row are
    /// supported; left of the cursor is not.
    pub fn clear_line(&mut self, mode: LineClearMode) -> (r: Result<(), ConvertError>)
        requires
            old(self)@.wf(),
        ensures
            r == clear_line_result(mode),
            final(self)@ == (if r is Ok {
                clear_line_spec(old(self)@, mode)
            } else {
                old(self)@
            }),
            final(self)@.wf(),
    {
        let (from, to): (usize, usize) = match mode {
            LineClearMode::Left => {
                return Err(ConvertError::ClearLeftUnsupported);
            },
            LineClearMode::Right => {
                let from = self.buffer_index();
                let to = self.buffer_row_index(self.y + 1);
                (from, to)
            },
            LineClearMode::All => {
                let from = self.buffer_row_index(self.y);
                let to = self.buffer_row_index(self.y + 1);
                (from, to)
            },
        };
        proof {
            lemma_grid_bounds(self@);
        }
        let mut i: usize = from;
        assert(self@.buf =~= Seq::new(
            old(self)@.buf.len(),
            |j: int|
                if from <= j < from {
                    default_cell()
                } else {
                    old(self)@.buf[j]
                },
        ));
        while i < to
            invariant
                from <= i,
                i <= to || i == from,
                to <= self.buf@.len(),
                self@ == (FrameV {
                    buf: Seq::new(
                        old(self)@.buf.len(),
                        |j: int|
                            if from <= j < i {
                                default_cell()
                            } else {
                                old(self)@.buf[j]
                            },
                    ),
                    ..old(self)@
                }),
            decreases to - i,
        {
            self.buf.set(i, FrameCell::default());
            i += 1;
            assert(self@.buf =~= Seq::new(
                old(self)@.buf.len(),
                |j: int|
                    if from <= j < i {
                        default_cell()
                    } else {
                        old(self)@.buf[j]
                    },
            ));
        }
        proof {
            match mode {
                LineClearMode::Right => {
                    assert(self@.buf =~= clear_line_right_spec(old(self)@).buf);
                },
                LineClearMode::All => {
                    assert(self@.buf =~= clear_line_all_spec(old(self)@).buf);
                },
                LineClearMode::Left => {},
            }
        }
        Ok(())
    }
}

/// Which erase-in-display modes succeed.
pub open spec fn clear_terminal_result(mode: ClearMode) -> Result<(), ConvertError> {
    match mode {
        ClearMode::Below => Err(ConvertError::ClearBelowUnsupported),
        ClearMode::Above => Err(ConvertError::ClearAboveUnsupported),
        ClearMode::All => Ok(()),
        ClearMode::Saved => Ok(()),
    }
}

/// Effect of a successful erase-in-display.
pub open spec fn clear_terminal_spec(v: FrameV, mode: ClearMode) -> FrameV {
    match mode {
        ClearMode::All => clear_all_spec(v),
        _ => v,
    }
}

/// Which erase-in-line modes succeed.
pub open spec fn clear_line_result(mode: LineClearMode) -> Result<(), ConvertError> {
    match mode {
        LineClearMode::Left => Err(ConvertError::ClearLeftUnsupported),
        _ => Ok(()),
    }
}

/// Effect of a successful erase-in-line.
pub open spec fn clear_line_spec(v: FrameV, mode: LineClearMode) -> FrameV {
    match mode {
        LineClearMode::Right => clear_line_right_spec(v),
        LineClearMode::All => clear_line_all_spec(v),
        LineClearMode::Left => v,
    }
}

proof fn lemma_row_index_bound(y: int, y_max: int, x_max: int)
    requires
        0 <= y <= y_max,
        0 <= x_max,
    ensures
        0 <= y * x_max <= x_max * y_max,
{
    assert(0 <= y * x_max <= x_max * y_max) by (nonlinear_arith)
        requires
            0 <= y <= y_max,
            0 <= x_max,
    ;
}

/// Bounds of the cursor cell and the cursor's row inside the matrix.
proof fn lemma_grid_bounds(v: FrameV)
    requires
        v.wf(),
    ensures
        0 <= v.row_index(v.y) <= v.cursor_index() <= v.row_index(v.y + 1) <= v.buf.len(),
        v.x < v.x_max ==> v.cursor_index() < v.row_index(v.y + 1),
        v.x_max <= v.buf.len(),
{
    assert((v.y + 1) * v.x_max == v.y * v.x_max + v.x_max) by (nonlinear_arith);
    assert(0 <= v.y * v.x_max && (v.y + 1) * v.x_max <= v.x_max * v.y_max && v.x_max
        <= v.x_max * v.y_max) by (nonlinear_arith)
        requires
            0 <= v.y < v.y_max,
            0 <= v.x_max,
    ;
}

/// First subparameter of parameter group `i`, with missing or zero values
/// replaced by `default`.
pub open spec fn param_or(params: Seq<Seq<u16>>, i: int, default: u16) -> u16 {
    if 0 <= i < params.len() && params[i].len() > 0 && params[i][0] != 0 {
        params[i][0]
    } else {
        default
    }
}

/// Whether a parameter group is exactly the single value `v`.
pub open spec fn is1_spec(g: Seq<u16>, v: u16) -> bool {
    g.len() == 1 && g[0] == v
}

/// Effect of the rendition codes from group `i` onward, processed left to
/// right: 0 resets, 1 and 2 select intensity, 30-37 and 90-97 select named
/// colors, 38 selects an extended color (24-bit RGB or palette index,
/// written either as subparameters of one group or spread over the
/// following groups), 39 resets the color, and everything else is ignored.
pub open spec fn sgr_spec(fg: Color, it: Intensity, params: Seq<Seq<u16>>, i: int) -> (
    Color,
    Intensity,
)
    decreases params.len() - i,
{
    if i < 0 || i >= params.len() {
        (fg, it)
    } else {
        let g = params[i];
        if g.len() == 1 {
            let code = g[0];
            if code == 0 {
                sgr_spec(Color::Default, Intensity::Normal, params, i + 1)
            } else if code == 1 {
                sgr_spec(fg, Intensity::Bold, params, i + 1)
            } else if code == 2 {
                sgr_spec(fg, Intensity::Faint, params, i + 1)
            } else if 30 <= code && code <= 37 {
                sgr_spec(crate::color::named_color((code - 30) as u8), it, params, i + 1)
            } else if code == 38 {
                if i + 4 < params.len() && is1_spec(params[i + 1], 2) && params[i + 2].len() > 0
                    && params[i + 3].len() > 0 && params[i + 4].len() > 0 {
                    let r = params[i + 2][0];
                    let gr = params[i + 3][0];
                    let b = params[i + 4][0];
                    if r <= 255 && gr <= 255 && b <= 255 {
                        sgr_spec(Color::Rgb(r as u8, gr as u8, b as u8), it, params, i + 5)
                    } else {
                        sgr_spec(fg, it, params, i + 5)
                    }
                } else if i + 2 < params.len() && is1_spec(params[i + 1], 5) && params[i
                    + 2].len() > 0 {
                    let n = params[i + 2][0];
                    sgr_spec(
                        Color::Indexed(if n <= 255 { n as u8 } else { 15 }),
                        it,
                        params,
                        i + 3,
                    )
                } else {
                    sgr_spec(Color::Default, it, params, i + 1)
                }
            } else if code == 39 {
                sgr_spec(Color::Default, it, params, i + 1)
            } else if 90 <= code && code <= 97 {
                sgr_spec(crate::color::named_color((code - 82) as u8), it, params, i + 1)
            } else {
                sgr_spec(fg, it, params, i + 1)
            }
        } else if g.len() >= 2 && g[0] == 38 {
            if g[1] == 2 && g.len() >= 5 {
                if g[2] <= 255 && g[3] <= 255 && g[4] <= 255 {
                    sgr_spec(Color::Rgb(g[2] as u8, g[3] as u8, g[4] as u8), it, params, i + 1)
                } else {
                    sgr_spec(fg, it, params, i + 1)
                }
            } else if g[1] == 5 && g.len() >= 3 {
                sgr_spec(
                    Color::Indexed(if g[2] <= 255 { g[2] as u8 } else { 15 }),
                    it,
                    params,
                    i + 1,
                )
            } else {
                sgr_spec(fg, it, params, i + 1)
            }
        } else {
            sgr_spec(fg, it, params, i + 1)
        }
    }
}

/// Effect of a rendition command: with no parameters everything resets,
/// otherwise the codes apply left to right.
pub open spec fn sgr_m_spec(v: FrameV, params: Seq<Seq<u16>>) -> FrameV {
    if params.len() == 0 {
        FrameV { fg: Color::Default, intensity: Intensity::Normal, ..v }
    } else {
        let (fg, it) = sgr_spec(v.fg, v.intensity, params, 0);
        FrameV { fg: fg, intensity: it, ..v }
    }
}

/// Effect of a parameterized command. Cursor movement past the grid's rows
/// and the unimplemented erase modes fail; unrecognized actions are
/// ignored.
pub open spec fn csi_spec(v: FrameV, params: Seq<Seq<u16>>, action: char) -> Result<
    FrameV,
    ConvertError,
> {
    if action == 'A' {
        let n = param_or(params, 0, 1) as int;
        if n <= v.y {
            Ok(FrameV { y: v.y - n, ..v })
        } else {
            Err(ConvertError::CursorOutOfRange)
        }
    } else if action == 'B' || action == 'e' {
        let n = param_or(params, 0, 1) as int;
        if v.y + n < v.y_max {
            Ok(FrameV { y: v.y + n, ..v })
        } else {
            Err(ConvertError::CursorOutOfRange)
        }
    } else if action == 'm' {
        Ok(sgr_m_spec(v, params))
    } else if action == 'H' || action == 'f' {
        let row = param_or(params, 0, 1) as int - 1;
        let col = param_or(params, 1, 1) as int - 1;
        if row < v.y_max {
            Ok(
                FrameV {
                    y: row,
                    x: if col <= v.x_max {
                        col
                    } else {
                        v.x_max
                    },
                    ..v
                },
            )
        } else {
            Err(ConvertError::CursorOutOfRange)
        }
    } else if action == 'J' {
        let m = param_or(params, 0, 0);
        if m == 0 {
            Err(ConvertError::ClearBelowUnsupported)
        } else if m == 1 {
            Err(ConvertError::ClearAboveUnsupported)
        } else if m == 2 {
            Ok(clear_all_spec(v))
        } else {
            Ok(v)
        }
    } else if action == 'K' {
        let m = param_or(params, 0, 0);
        if m == 0 {
            Ok(clear_line_right_spec(v))
        } else if m == 1 {
            Err(ConvertError::ClearLeftUnsupported)
        } else if m == 2 {
            Ok(clear_line_all_spec(v))
        } else {
            Ok(v)
        }
    } else {
        Ok(v)
    }
}

/// Effect of one decoded control element on the grid. Escape sequences,
/// operating system commands and device control strings are recognized but
/// inert.
pub open spec fn apply_spec(v: FrameV, e: CEvent) -> Result<FrameV, ConvertError> {
    match e {
        CEvent::Print(c) => Ok(print_spec(v, c)),
        CEvent::Execute(b) => Ok(execute_spec(v, b)),
        CEvent::Csi(params, action) => csi_spec(v, params, action),
        CEvent::Esc(_) => Ok(v),
        CEvent::Osc => Ok(v),
        CEvent::DcsHook => Ok(v),
        CEvent::DcsPut => Ok(v),
        CEvent::DcsUnhook => Ok(v),
    }
}

/// The group views of a nested parameter vector, elementwise.
proof fn lemma_params_deep_view(params: &Vec<Vec<u16>>)
    ensures
        params.deep_view().len() == params@.len(),
        forall|j: int|
            0 <= j < params@.len() ==> #[trigger] params.deep_view()[j] == params@[j]@,
{
    assert forall|j: int| 0 <= j < params@.len() implies #[trigger] params.deep_view()[j]
        == params@[j]@ by {
        assert(params.deep_view()[j] =~= params@[j]@);
    }
}

/// Whether a parameter group is exactly the single value `v`.
fn is1(g: &Vec<u16>, v: u16) -> (r: bool)
    ensures
        r == is1_spec(g@, v),
{
    g.len() == 1 && g[0] == v
}

impl Frame {
    /// Apply a rendition command's parameters left to right.
    fn apply_sgr(&mut self, params: &Vec<Vec<u16>>)
        requires
            old(self)@.wf(),
        ensures
            final(self)@ == sgr_m_spec(old(self)@, params.deep_view()),
            final(self)@.wf(),
    {
        proof {
            lemma_params_deep_view(params);
        }
        let ghost pv = params.deep_view();
        if params.len() == 0 {
            self.fg = Color::Default;
            self.intensity = Intensity::Normal;
            return ;
        }
        let mut cfg = self.fg;
        let mut cit = self.intensity;
        let mut i: usize = 0;
        while i < params.len()
            invariant
                0 <= i <= params@.len(),
                pv == params.deep_view(),
                pv.len() == params@.len(),
                forall|j: int| 0 <= j < params@.len() ==> #[trigger] pv[j] == params@[j]@,
                sgr_spec(cfg, cit, pv, i as int) == sgr_spec(
                    old(self)@.fg,
                    old(self)@.intensity,
                    pv,
                    0,
                ),
                self@ == old(self)@,
            decreases params@.len() - i,
        {
            let ghost prev_fg = cfg;
            let ghost prev_it = cit;
            let ghost prev_i = i as int;
            let g = &params[i];
            if g.len() == 1 {
                let code = g[0];
                if code == 0 {
                    cfg = Color::Default;
                    cit = Intensity::Normal;
                    i += 1;
                } else if code == 1 {
                    cit = Intensity::Bold;
                    i += 1;
                } else if code == 2 {
                    cit = Intensity::Faint;
                    i += 1;
                } else if 30 <= code && code <= 37 {
                    cfg = crate::color::named_color_exec((code - 30) as u8);
                    i += 1;
                } else if code == 38 {
                    if params.len() - i > 4 && is1(&params[i + 1], 2) && params[i + 2].len() > 0
                        && params[i + 3].len() > 0 && params[i + 4].len() > 0 {
                        let r = params[i + 2][0];
                        let gr = params[i + 3][0];
                        let b = params[i + 4][0];
                        if r <= 255 && gr <= 255 && b <= 255 {
                            cfg = Color::Rgb(r as u8, gr as u8, b as u8);
                        }
                        i += 5;
                    } else if params.len() - i > 2 && is1(&params[i + 1], 5) && params[i
                        + 2].len() > 0 {
                        let n = params[i + 2][0];
                        cfg = Color::Indexed(
                            if n <= 255 {
                                n as u8
                            } else {
                                15
                            },
                        );
                        i += 3;
                    } else {
                        cfg = Color::Default;
                        i += 1;
                    }
                } else if code == 39 {
                    cfg = Color::Default;
                    i += 1;
                } else if 90 <= code && code <= 97 {
                    cfg = crate::color::named_color_exec((code - 82) as u8);
                    i += 1;
                } else {
                    i += 1;
                }
            } else if g.len() >= 2 && g[0] == 38 {
                if g[1] == 2 && g.len() >= 5 {
                    if g[2] <= 255 && g[3] <= 255 && g[4] <= 255 {
                        cfg = Color::Rgb(g[2] as u8, g[3] as u8, g[4] as u8);
                    }
                    i += 1;
                } else if g[1] == 5 && g.len() >= 3 {
                    cfg = Color::Indexed(
                        if g[2] <= 255 {
                            g[2] as u8
                        } else {
                            15
                        },
                    );
                    i += 1;
                } else {
                    i += 1;
                }
            } else {
                i += 1;
            }
            proof {
                assert(sgr_spec(cfg, cit, pv, i as int) == sgr_spec(prev_fg, prev_it, pv, prev_i));
            }
        }
        self.fg = cfg;
        self.intensity = cit;
    }

    /// Apply a parameterized command with final action letter `action`.
    pub fn csi_dispatch(&mut self, params: &Vec<Vec<u16>>, action: char) -> (r: Result<
        (),
        ConvertError,
    >)
        requires
            old(self)@.wf(),
        ensures
            final(self)@.wf(),
            match csi_spec(old(self)@, params.deep_view(), action) {
                Ok(v) => r is Ok && final(self)@ == v,
                Err(e) => r == Err::<(), ConvertError>(e) && final(self)@ == old(self)@,
            },
    {
        proof {
            lemma_params_deep_view(params);
        }
        if action == 'A' {
            let n = self.param_or(params, 0, 1) as usize;
            if n <= self.y {
                self.move_up(n);
                Ok(())
            } else {
                Err(ConvertError::CursorOutOfRange)
            }
        } else if action == 'B' || action == 'e' {
            let n = self.param_or(params, 0, 1) as usize;
            if n < self.y_max - self.y {
                self.move_down(n);
                Ok(())
            } else {
                Err(ConvertError::CursorOutOfRange)
            }
        } else if action == 'm' {
            self.apply_sgr(params);
            Ok(())
        } else if action == 'H' || action == 'f' {
            let row = (self.param_or(params, 0, 1) - 1) as usize;
            let col = (self.param_or(params, 1, 1) - 1) as usize;
            if row < self.y_max {
                self.y = row;
                self.x = if col <= self.x_max {
                    col
                } else {
                    self.x_max
                };
                Ok(())
            } else {
                Err(ConvertError::CursorOutOfRange)
            }
        } else if action == 'J' {
            let m = self.param_or(params, 0, 0);
            if m == 0 {
                self.clear_terminal(ClearMode::Below)
            } else if m == 1 {
                self.clear_terminal(ClearMode::Above)
            } else if m == 2 {
                self.clear_terminal(ClearMode::All)
            } else if m == 3 {
                self.clear_terminal(ClearMode::Saved)
            } else {
                Ok(())
            }
        } else if action == 'K' {
            let m = self.param_or(params, 0, 0);
            if m == 0 {
                self.clear_line(LineClearMode::Right)
            } else if m == 1 {
                self.clear_line(LineClearMode::Left)
            } else if m == 2 {
                self.clear_line(LineClearMode::All)
            } else {
                Ok(())
            }
        } else {
            Ok(())
        }
    }

    /// First subparameter of group `i`, with missing or zero values
    /// replaced by `default`.
    fn param_or(&self, params: &Vec<Vec<u16>>, i: usize, default: u16) -> (r: u16)
        ensures
            r == param_or(params.deep_view(), i as int, default),
    {
        proof {
            lemma_params_deep_view(params);
        }
        if i < params.len() && params[i].len() > 0 && params[i][0] != 0 {
            params[i][0]
        } else {
            default
        }
    }

    /// Apply an escape sequence's final byte; every recognized escape is
    /// inert here.
    pub fn esc_dispatch(&mut self, byte: u8)
        requires
            old(self)@.wf(),
        ensures
            final(self)@ == old(self)@,
    {
    }

    /// Apply one decoded control element.
    pub fn apply(&mut self, ev: &ControlEvent) -> (r: Result<(), ConvertError>)
        requires
            old(self)@.wf(),
        ensures
            final(self)@.wf(),
            match apply_spec(old(self)@, ev@) {
                Ok(v) => r is Ok && final(self)@ == v,
                Err(e) => r == Err::<(), ConvertError>(e) && final(self)@ == old(self)@,
            },
    {
        match ev {
            ControlEvent::Print(c) => {
                self.print(*c);
                Ok(())
            },
            ControlEvent::Execute(b) => {
                self.execute(*b);
                Ok(())
            },
            ControlEvent::Csi(params, action) => self.csi_dispatch(params, *action),
            ControlEvent::Esc(b) => {
                self.esc_dispatch(*b);
                Ok(())
            },
            ControlEvent::Osc => Ok(()),
            ControlEvent::DcsHook => Ok(()),
            ControlEvent::DcsPut => Ok(()),
            ControlEvent::DcsUnhook => Ok(()),
        }
    }
}

} // verus!
