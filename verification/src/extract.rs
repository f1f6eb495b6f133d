//! Extracting symbols from a reconstructed frame.
//!
//! After each event is applied, the grid is scanned row by row, left to
//! right. Leading blanks are skipped; the first occupied, non-blank cell
//! opens a run; cells with a character and the same rendition extend it
//! (embedded blanks retained); a cell with a different rendition or no
//! character closes it. Every emitted run is recorded in the occurrence
//! index under the current frame number.

use vstd::prelude::*;

use crate::color::{Color, Intensity};
use crate::frame::{Frame, FrameV};
use crate::symbol::{tbl_record, tbl_wf, EntryV, Symbol, SymbolTable, SymbolV};

verus! {

/// The cells of row `y`, left to right.
pub open spec fn row_seq(v: FrameV, y: int) -> Seq<crate::frame::FrameCell> {
    v.buf.subrange(y * v.x_max, (y + 1) * v.x_max)
}

/// The runs emitted from position `j` of a row onward, given the run open
/// at `j`: a cell with a character extends the open run when its rendition
/// matches, otherwise closes it (a non-blank different cell immediately
/// opens a new run); a cell without a character closes the run; blanks
/// open nothing; a run still open at the end of the row is emitted.
pub open spec fn scan_cells(
    cells: Seq<crate::frame::FrameCell>,
    y: int,
    j: int,
    open: Option<SymbolV>,
) -> Seq<SymbolV>
    decreases cells.len() - j,
{
    if j < 0 || j >= cells.len() {
        match open {
            Some(run) => seq![run],
            None => Seq::empty(),
        }
    } else {
        let c = cells[j];
        match c.ch {
            Some(ch) => match open {
                None => if ch == ' ' {
                    scan_cells(cells, y, j + 1, None)
                } else {
                    scan_cells(
                        cells,
                        y,
                        j + 1,
                        Some(
                            SymbolV {
                                x: j,
                                y: y,
                                fg: c.fg,
                                intensity: c.intensity,
                                text: seq![ch],
                            },
                        ),
                    )
                },
                Some(run) => if c.fg == run.fg && c.intensity == run.intensity {
                    scan_cells(cells, y, j + 1, Some(SymbolV { text: run.text.push(ch), ..run }))
                } else if ch == ' ' {
                    seq![run] + scan_cells(cells, y, j + 1, None)
                } else {
                    seq![run] + scan_cells(
                        cells,
                        y,
                        j + 1,
                        Some(
                            SymbolV {
                                x: j,
                                y: y,
                                fg: c.fg,
                                intensity: c.intensity,
                                text: seq![ch],
                            },
                        ),
                    )
                },
            },
            None => match open {
                Some(run) => seq![run] + scan_cells(cells, y, j + 1, None),
                None => scan_cells(cells, y, j + 1, None),
            },
        }
    }
}

/// The runs of row `y`, in order of appearance.
pub open spec fn row_symbols(v: FrameV, y: int) -> Seq<SymbolV> {
    scan_cells(row_seq(v, y), y, 0, None)
}

/// The runs of rows `0 .. y`, rows top to bottom.
pub open spec fn frame_symbols_upto(v: FrameV, y: int) -> Seq<SymbolV>
    decreases y,
{
    if y <= 0 {
        Seq::empty()
    } else {
        frame_symbols_upto(v, y - 1) + row_symbols(v, y - 1)
    }
}

/// Every run of the frame, rows top to bottom, left to right.
pub open spec fn frame_symbols(v: FrameV) -> Seq<SymbolV> {
    frame_symbols_upto(v, v.y_max)
}

/// Recording a sequence of runs, in order, under one frame number.
pub open spec fn tbl_record_all(t: Seq<EntryV>, syms: Seq<SymbolV>, f: usize) -> Seq<EntryV>
    decreases syms.len(),
{
    if syms.len() == 0 {
        t
    } else {
        tbl_record_all(tbl_record(t, syms[0], f), syms.drop_first(), f)
    }
}

/// Recording one more run is one more record.
pub proof fn lemma_tbl_record_all_push(t: Seq<EntryV>, syms: Seq<SymbolV>, s: SymbolV, f: usize)
    ensures
        tbl_record_all(t, syms.push(s), f) == tbl_record(tbl_record_all(t, syms, f), s, f),
    decreases syms.len(),
{
    if syms.len() == 0 {
        assert(syms.push(s)[0] == s);
        assert(syms.push(s).drop_first() =~= Seq::<SymbolV>::empty());
        assert(tbl_record_all(t, syms.push(s), f) == tbl_record_all(
            tbl_record(t, s, f),
            Seq::<SymbolV>::empty(),
            f,
        ));
        assert(tbl_record_all(tbl_record(t, s, f), Seq::<SymbolV>::empty(), f) == tbl_record(
            t,
            s,
            f,
        ));
        assert(tbl_record_all(t, syms, f) == t);
    } else {
        assert(syms.push(s)[0] == syms[0]);
        assert(syms.push(s).drop_first() =~= syms.drop_first().push(s));
        lemma_tbl_record_all_push(tbl_record(t, syms[0], f), syms.drop_first(), s, f);
    }
}

/// A vector holding one character.
fn char_vec(ch: char) -> (r: Vec<char>)
    ensures
        r@ == seq![ch],
{
    let mut r: Vec<char> = Vec::new();
    r.push(ch);
    proof {
        assert(r@ =~= seq![ch]);
    }
    r
}

impl Default for Symbol {
    /// The empty run at the origin with the default rendition.
    fn default() -> (r: Self)
        ensures
            r@ == (SymbolV {
                x: 0,
                y: 0,
                fg: Color::Default,
                intensity: Intensity::Normal,
                text: Seq::empty(),
            }),
    {
        let r = Symbol {
            x: 0,
            y: 0,
            fg: Color::Default,
            intensity: Intensity::Normal,
            text: Vec::new(),
        };
        proof {
            assert(r@.text =~= Seq::<char>::empty());
        }
        r
    }
}

impl Frame {
    /// Scan the frame and record every run of it in the occurrence index
    /// under `frame_number`.
    pub fn insert_symbols(&self, map: &mut SymbolTable, frame_number: usize)
        requires
            self@.wf(),
            tbl_wf(old(map)@),
        ensures
            final(map)@ == tbl_record_all(old(map)@, frame_symbols(self@), frame_number),
            tbl_wf(final(map)@),
    {
        let ghost t0 = old(map)@;
        let ghost v = self@;
        let mut row: usize = 0;
        while row < self.y_max
            invariant
                self@ == v,
                v.wf(),
                0 <= row <= v.y_max,
                tbl_wf(map@),
                map@ == tbl_record_all(t0, frame_symbols_upto(v, row as int), frame_number),
            decreases v.y_max - row,
        {
            proof {
                lemma_row_range(v, row as int);
            }
            let nlen = self.buf.len();
            let base = row * self.x_max;
            let ghost cells = row_seq(v, row as int);
            let mut cur = Symbol::default();
            let mut open = false;
            let ghost mut emitted: Seq<SymbolV> = Seq::empty();
            let mut col: usize = 0;
            proof {
                assert(frame_symbols_upto(v, row as int) + emitted =~= frame_symbols_upto(
                    v,
                    row as int,
                ));
                assert(emitted + scan_cells(cells, row as int, 0, None::<SymbolV>) =~= row_symbols(
                    v,
                    row as int,
                ));
            }
            while col < self.x_max
                invariant
                    self@ == v,
                    v.wf(),
                    0 <= row < v.y_max,
                    0 <= col <= v.x_max,
                    base == row * v.x_max,
                    base + v.x_max <= v.buf.len(),
                    nlen == v.buf.len(),
                    cells == row_seq(v, row as int),
                    cells.len() == v.x_max,
                    tbl_wf(map@),
                    map@ == tbl_record_all(
                        t0,
                        frame_symbols_upto(v, row as int) + emitted,
                        frame_number,
                    ),
                    emitted + scan_cells(
                        cells,
                        row as int,
                        col as int,
                        if open {
                            Some(cur@)
                        } else {
                            None
                        },
                    ) == row_symbols(v, row as int),
                decreases v.x_max - col,
            {
                let ghost pre_open: Option<SymbolV> = if open {
                    Some(cur@)
                } else {
                    None
                };
                proof {
                    lemma_row_range(v, row as int);
                    assert(v.buf.subrange(row * v.x_max, (row + 1) * v.x_max)[col as int]
                        == v.buf[row * v.x_max + col]);
                    assert(cells[col as int] == v.buf[base + col]);
                }
                let cell = self.buf[base + col];
                if let Some(ch) = cell.ch {
                    if open {
                        if cell.fg == cur.fg && cell.intensity == cur.intensity {
                            cur.text.push(ch);
                        } else {
                            let ghost curv = cur@;
                            map.record(cur, frame_number);
                            proof {
                                lemma_tbl_record_all_push(
                                    t0,
                                    frame_symbols_upto(v, row as int) + emitted,
                                    curv,
                                    frame_number,
                                );
                                emitted = emitted.push(curv);
                                assert((frame_symbols_upto(v, row as int) + emitted.drop_last())
                                    .push(curv) =~= frame_symbols_upto(v, row as int) + emitted);
                            }
                            if ch == ' ' {
                                open = false;
                                cur = Symbol::default();
                            } else {
                                cur = Symbol {
                                    x: col,
                                    y: row,
                                    fg: cell.fg,
                                    intensity: cell.intensity,
                                    text: char_vec(ch),
                                };
                            }
                        }
                    } else {
                        if ch != ' ' {
                            cur = Symbol {
                                x: col,
                                y: row,
                                fg: cell.fg,
                                intensity: cell.intensity,
                                text: char_vec(ch),
                            };
                            open = true;
                        }
                    }
                } else {
                    if open {
                        let ghost curv = cur@;
                        map.record(cur, frame_number);
                        proof {
                            lemma_tbl_record_all_push(
                                t0,
                                frame_symbols_upto(v, row as int) + emitted,
                                curv,
                                frame_number,
                            );
                            emitted = emitted.push(curv);
                            assert((frame_symbols_upto(v, row as int) + emitted.drop_last()).push(
                                curv,
                            ) =~= frame_symbols_upto(v, row as int) + emitted);
                        }
                        open = false;
                        cur = Symbol::default();
                    }
                }
                col += 1;
                proof {
                    assert(scan_cells(cells, row as int, col - 1, pre_open) == (match pre_open {
                        Some(run) => {
                            let c = cells[col - 1];
                            match c.ch {
                                Some(ch2) => if c.fg == run.fg && c.intensity == run.intensity {
                                    scan_cells(
                                        cells,
                                        row as int,
                                        col as int,
                                        Some(SymbolV { text: run.text.push(ch2), ..run }),
                                    )
                                } else if ch2 == ' ' {
                                    seq![run] + scan_cells(cells, row as int, col as int, None)
                                } else {
                                    seq![run] + scan_cells(
                                        cells,
                                        row as int,
                                        col as int,
                                        Some(
                                            SymbolV {
                                                x: col - 1,
                                                y: row as int,
                                                fg: c.fg,
                                                intensity: c.intensity,
                                                text: seq![ch2],
                                            },
                                        ),
                                    )
                                },
                                None => seq![run] + scan_cells(cells, row as int, col as int, None),
                            }
                        },
                        None => {
                            let c = cells[col - 1];
                            match c.ch {
                                Some(ch2) => if ch2 == ' ' {
                                    scan_cells(cells, row as int, col as int, None)
                                } else {
                                    scan_cells(
                                        cells,
                                        row as int,
                                        col as int,
                                        Some(
                                            SymbolV {
                                                x: col - 1,
                                                y: row as int,
                                                fg: c.fg,
                                                intensity: c.intensity,
                                                text: seq![ch2],
                                            },
                                        ),
                                    )
                                },
                                None => scan_cells(cells, row as int, col as int, None),
                            }
                        },
                    }));
                }
            }
            if open {
                let ghost curv = cur@;
                map.record(cur, frame_number);
                proof {
                    lemma_tbl_record_all_push(
                        t0,
                        frame_symbols_upto(v, row as int) + emitted,
                        curv,
                        frame_number,
                    );
                    emitted = emitted.push(curv);
                    assert((frame_symbols_upto(v, row as int) + emitted.drop_last()).push(curv)
                        =~= frame_symbols_upto(v, row as int) + emitted);
                }
            }
            row += 1;
            proof {
                assert(frame_symbols_upto(v, row as int) == frame_symbols_upto(v, row - 1)
                    + row_symbols(v, row - 1));
                assert(emitted =~= row_symbols(v, row - 1));
                assert(frame_symbols_upto(v, row - 1) + emitted =~= frame_symbols_upto(
                    v,
                    row as int,
                ));
            }
        }
        proof {
            assert(frame_symbols_upto(v, v.y_max) == frame_symbols(v));
        }
    }
}

/// A row's cells lie inside the matrix.
proof fn lemma_row_range(v: FrameV, y: int)
    requires
        v.wf(),
        0 <= y < v.y_max,
    ensures
        0 <= y * v.x_max,
        y * v.x_max + v.x_max <= v.buf.len(),
        (y + 1) * v.x_max == y * v.x_max + v.x_max,
{
    assert((y + 1) * v.x_max == y * v.x_max + v.x_max) by (nonlinear_arith);
    assert(0 <= y * v.x_max && (y + 1) * v.x_max <= v.x_max * v.y_max) by (nonlinear_arith)
        requires
            0 <= y < v.y_max,
            0 <= v.x_max,
    ;
}

} // verus!
