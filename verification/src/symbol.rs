//! Symbols and the occurrence index.
//!
//! A symbol is a maximal horizontal run of same-rendition text within one
//! row, with leading blanks stripped. Its identity is (column, row, color,
//! intensity, text); two equal identities from different frames are the
//! same symbol. The occurrence index maps each identity, in a canonical
//! order, to the ordered list of frame indices it appeared in.

use vstd::prelude::*;

use crate::color::{Color, Intensity};
use crate::order::{
    color_lt, color_lt_exec, intensity_rank, intensity_rank_exec, lemma_color_lt_trans,
    lemma_color_lt_trichotomy, lemma_text_lt_trans, lemma_text_lt_trichotomy, text_eq_exec,
    text_lt, text_lt_exec,
};

verus! {

/// A positioned run of same-rendition text extracted from one
/// reconstructed frame.
#[derive(Debug)]
pub struct Symbol {
    /// Column of the run's first character.
    pub x: usize,
    /// Row of the run.
    pub y: usize,
    /// Foreground color of every character of the run.
    pub fg: Color,
    /// Intensity of every character of the run.
    pub intensity: Intensity,
    /// The run's characters, embedded blanks retained.
    pub text: Vec<char>,
}

/// Ghost image of a [`Symbol`]: its identity.
pub ghost struct SymbolV {
    pub x: int,
    pub y: int,
    pub fg: Color,
    pub intensity: Intensity,
    pub text: Seq<char>,
}

impl View for Symbol {
    type V = SymbolV;

    open spec fn view(&self) -> SymbolV {
        SymbolV {
            x: self.x as int,
            y: self.y as int,
            fg: self.fg,
            intensity: self.intensity,
            text: self.text@,
        }
    }
}

/// The canonical strict order on symbol identities: column, then row, then
/// color, then intensity, then text.
pub open spec fn symbol_lt(a: SymbolV, b: SymbolV) -> bool {
    if a.x != b.x {
        a.x < b.x
    } else if a.y != b.y {
        a.y < b.y
    } else if a.fg != b.fg {
        color_lt(a.fg, b.fg)
    } else if a.intensity != b.intensity {
        intensity_rank(a.intensity) < intensity_rank(b.intensity)
    } else {
        text_lt(a.text, b.text)
    }
}

/// Exactly one of equality and the two orders holds for identities.
pub proof fn lemma_symbol_lt_trichotomy(a: SymbolV, b: SymbolV)
    ensures
        !(symbol_lt(a, b) && symbol_lt(b, a)),
        !symbol_lt(a, b) && !symbol_lt(b, a) <==> a == b,
{
    lemma_color_lt_trichotomy(a.fg, b.fg);
    lemma_text_lt_trichotomy(a.text, b.text);
}

/// The identity order is transitive.
pub proof fn lemma_symbol_lt_trans(a: SymbolV, b: SymbolV, c: SymbolV)
    requires
        symbol_lt(a, b),
        symbol_lt(b, c),
    ensures
        symbol_lt(a, c),
{
    if a.x == b.x && b.x == c.x && a.y == b.y && b.y == c.y {
        if a.fg == b.fg && b.fg == c.fg {
            if a.intensity == b.intensity && b.intensity == c.intensity {
                lemma_text_lt_trans(a.text, b.text, c.text);
            }
        } else {
            lemma_color_lt_trichotomy(a.fg, b.fg);
            lemma_color_lt_trichotomy(b.fg, c.fg);
            lemma_color_lt_trichotomy(a.fg, c.fg);
            if a.fg != b.fg && b.fg != c.fg {
                lemma_color_lt_trans(a.fg, b.fg, c.fg);
            }
        }
    }
}

/// The canonical strict order on symbol identities.
pub fn symbol_lt_exec(a: &Symbol, b: &Symbol) -> (r: bool)
    ensures
        r == symbol_lt(a@, b@),
{
    if a.x != b.x {
        a.x < b.x
    } else if a.y != b.y {
        a.y < b.y
    } else if !color_eq(&a.fg, &b.fg) {
        color_lt_exec(&a.fg, &b.fg)
    } else if intensity_rank_exec(&a.intensity) != intensity_rank_exec(&b.intensity) {
        intensity_rank_exec(&a.intensity) < intensity_rank_exec(&b.intensity)
    } else {
        text_lt_exec(&a.text, &b.text)
    }
}

/// Whether two symbols share one identity.
pub fn symbol_eq_exec(a: &Symbol, b: &Symbol) -> (r: bool)
    ensures
        r == (a@ == b@),
{
    let r = a.x == b.x && a.y == b.y && color_eq(&a.fg, &b.fg) && intensity_rank_exec(&a.intensity)
        == intensity_rank_exec(&b.intensity) && text_eq_exec(&a.text, &b.text);
    proof {
        if r {
            assert(a@ == b@);
        }
    }
    r
}

/// Whether two colors are the same.
fn color_eq(a: &Color, b: &Color) -> (r: bool)
    ensures
        r == (*a == *b),
{
    *a == *b
}

/// One entry of the occurrence index: a symbol identity and the ordered
/// frame indices it appeared in.
#[derive(Debug)]
pub struct SymbolEntry {
    /// The symbol.
    pub symbol: Symbol,
    /// Frame indices of its occurrences, in increasing order.
    pub frames: Vec<usize>,
}

/// Ghost image of a [`SymbolEntry`].
pub ghost struct EntryV {
    pub symbol: SymbolV,
    pub frames: Seq<usize>,
}

impl View for SymbolEntry {
    type V = EntryV;

    open spec fn view(&self) -> EntryV {
        EntryV { symbol: self.symbol@, frames: self.frames@ }
    }
}

/// The occurrence index: entries strictly sorted by the canonical symbol
/// order, each with a non-empty occurrence list.
#[derive(Debug)]
pub struct SymbolTable {
    /// Entries in canonical order.
    pub entries: Vec<SymbolEntry>,
}

impl View for SymbolTable {
    type V = Seq<EntryV>;

    open spec fn view(&self) -> Seq<EntryV> {
        Seq::new(self.entries@.len(), |i: int| self.entries@[i]@)
    }
}

/// Well-formedness of the occurrence index: strictly sorted identities
/// (hence unique) and no empty occurrence list.
pub open spec fn tbl_wf(t: Seq<EntryV>) -> bool {
    &&& forall|i: int, j: int|
        0 <= i < j < t.len() ==> symbol_lt(#[trigger] t[i].symbol, #[trigger] t[j].symbol)
    &&& forall|i: int| 0 <= i < t.len() ==> (#[trigger] t[i].frames).len() > 0
}

/// Recording one occurrence: the frame index is appended to the symbol's
/// entry, or a fresh entry is inserted at its ordered position.
pub open spec fn tbl_record(t: Seq<EntryV>, s: SymbolV, f: usize) -> Seq<EntryV>
    decreases t.len(),
{
    if t.len() == 0 {
        seq![EntryV { symbol: s, frames: seq![f] }]
    } else if symbol_lt(s, t[0].symbol) {
        seq![EntryV { symbol: s, frames: seq![f] }] + t
    } else if s == t[0].symbol {
        seq![EntryV { symbol: s, frames: t[0].frames.push(f) }] + t.drop_first()
    } else {
        seq![t[0]] + tbl_record(t.drop_first(), s, f)
    }
}

/// Recording skips a strictly smaller prefix unchanged.
proof fn lemma_tbl_record_split(t: Seq<EntryV>, s: SymbolV, f: usize, i: int)
    requires
        0 <= i <= t.len(),
        forall|j: int| 0 <= j < i ==> symbol_lt(#[trigger] t[j].symbol, s),
    ensures
        tbl_record(t, s, f) == t.take(i) + tbl_record(t.skip(i), s, f),
    decreases i,
{
    if i == 0 {
        assert(t.take(0) =~= Seq::<EntryV>::empty());
        assert(t.skip(0) =~= t);
        assert(tbl_record(t, s, f) =~= t.take(0) + tbl_record(t.skip(0), s, f));
    } else {
        lemma_symbol_lt_trichotomy(s, t[0].symbol);
        assert(!symbol_lt(s, t[0].symbol) && s != t[0].symbol);
        assert(tbl_record(t, s, f) == seq![t[0]] + tbl_record(t.drop_first(), s, f));
        assert(t.drop_first() =~= t.skip(1));
        assert forall|j: int| 0 <= j < i - 1 implies symbol_lt(
            #[trigger] t.skip(1)[j].symbol,
            s,
        ) by {
            assert(t.skip(1)[j] == t[j + 1]);
        }
        lemma_tbl_record_split(t.skip(1), s, f, i - 1);
        assert(t.skip(1).take(i - 1) =~= t.take(i).skip(1));
        assert(t.skip(1).skip(i - 1) =~= t.skip(i));
        assert(seq![t[0]] + (t.take(i).skip(1) + tbl_record(t.skip(i), s, f)) =~= t.take(i)
            + tbl_record(t.skip(i), s, f));
    }
}

impl SymbolTable {
    /// An empty occurrence index.
    pub fn new() -> (t: SymbolTable)
        ensures
            t@ == Seq::<EntryV>::empty(),
            tbl_wf(t@),
    {
        let t = SymbolTable { entries: Vec::new() };
        proof {
            assert(t@ =~= Seq::<EntryV>::empty());
        }
        t
    }

    /// Record that `symbol` occurred in frame `frame_number`.
    pub fn record(&mut self, symbol: Symbol, frame_number: usize)
        requires
            tbl_wf(old(self)@),
        ensures
            final(self)@ == tbl_record(old(self)@, symbol@, frame_number),
            tbl_wf(final(self)@),
    {
        let ghost t0 = self@;
        let mut i: usize = 0;
        loop
            invariant
                0 <= i <= self.entries@.len(),
                self@ == t0,
                tbl_wf(t0),
                forall|j: int| 0 <= j < i ==> symbol_lt(#[trigger] t0[j].symbol, symbol@),
            ensures
                0 <= i <= t0.len(),
                i == t0.len() || !symbol_lt(t0[i as int].symbol, symbol@),
                forall|j: int| 0 <= j < i ==> symbol_lt(#[trigger] t0[j].symbol, symbol@),
                self@ == t0,
            decreases self.entries@.len() - i,
        {
            if i >= self.entries.len() {
                break ;
            }
            if !symbol_lt_exec(&self.entries[i].symbol, &symbol) {
                break ;
            }
            i += 1;
        }
        proof {
            lemma_tbl_record_split(t0, symbol@, frame_number, i as int);
        }
        if i < self.entries.len() && symbol_eq_exec(&self.entries[i].symbol, &symbol) {
            let mut e = self.entries.remove(i);
            e.frames.push(frame_number);
            self.entries.insert(i, e);
            proof {
                lemma_symbol_lt_trichotomy(symbol@, symbol@);
                assert(t0.skip(i as int)[0] == t0[i as int]);
                assert(tbl_record(t0.skip(i as int), symbol@, frame_number) =~= seq![
                    EntryV { symbol: symbol@, frames: t0[i as int].frames.push(frame_number) },
                ] + t0.skip(i as int).drop_first());
                assert(t0.skip(i as int).drop_first() =~= t0.skip(i as int + 1));
                assert(self@ =~= t0.take(i as int) + tbl_record(
                    t0.skip(i as int),
                    symbol@,
                    frame_number,
                ));
                assert(self@ == tbl_record(t0, symbol@, frame_number));
                assert forall|a: int, b: int| 0 <= a < b < self@.len() implies symbol_lt(
                    #[trigger] self@[a].symbol,
                    #[trigger] self@[b].symbol,
                ) by {
                    assert(self@[a].symbol == t0[a].symbol);
                    assert(self@[b].symbol == t0[b].symbol);
                }
            }
        } else {
            proof {
                if i < self.entries@.len() {
                    lemma_symbol_lt_trichotomy(symbol@, t0[i as int].symbol);
                    assert(symbol_lt(symbol@, t0[i as int].symbol));
                }
            }
            let e = SymbolEntry { symbol, frames: vec_of_one(frame_number) };
            self.entries.insert(i, e);
            proof {
                if i < t0.len() {
                    assert(t0.skip(i as int)[0] == t0[i as int]);
                    assert(symbol_lt(symbol@, t0.skip(i as int)[0].symbol));
                }
                assert(tbl_record(t0.skip(i as int), symbol@, frame_number) =~= seq![
                    EntryV { symbol: symbol@, frames: seq![frame_number] },
                ] + t0.skip(i as int));
                assert(self@ =~= t0.take(i as int) + tbl_record(
                    t0.skip(i as int),
                    symbol@,
                    frame_number,
                ));
                assert(self@ == tbl_record(t0, symbol@, frame_number));
                assert forall|a: int, b: int| 0 <= a < b < self@.len() implies symbol_lt(
                    #[trigger] self@[a].symbol,
                    #[trigger] self@[b].symbol,
                ) by {
                    if b < i {
                    } else if a < i && b == i {
                        assert(symbol_lt(t0[a].symbol, symbol@));
                    } else if a < i && b > i {
                        assert(self@[b].symbol == t0[b - 1].symbol);
                    } else if a == i {
                        assert(self@[b].symbol == t0[b - 1].symbol);
                        if b - 1 > i {
                            lemma_symbol_lt_trans(symbol@, t0[i as int].symbol, t0[b - 1].symbol);
                        }
                    } else {
                        assert(self@[a].symbol == t0[a - 1].symbol);
                        assert(self@[b].symbol == t0[b - 1].symbol);
                    }
                }
            }
        }
    }
}

/// A vector holding one value.
fn vec_of_one(v: usize) -> (r: Vec<usize>)
    ensures
        r@ == seq![v],
{
    let mut r: Vec<usize> = Vec::new();
    r.push(v);
    proof {
        assert(r@ =~= seq![v]);
    }
    r
}

/// How one character appears in emitted text: the ampersand and the
/// characters the writer would not escape itself are replaced by
/// entities.
pub open spec fn escape_char(c: char) -> Seq<char> {
    if c == '&' {
        seq!['&', 'a', 'm', 'p', ';']
    } else if c == '>' {
        seq!['&', 'l', 't', ';']
    } else if c == '"' {
        seq!['&', 'q', 'u', 'o', 't', ';']
    } else if c == '\'' {
        seq!['&', 'a', 'p', 'o', 's', ';']
    } else {
        seq![c]
    }
}

/// A text with every character escaped.
pub open spec fn escape_text(s: Seq<char>) -> Seq<char>
    decreases s.len(),
{
    if s.len() == 0 {
        Seq::empty()
    } else {
        escape_char(s[0]) + escape_text(s.drop_first())
    }
}

impl Symbol {
    /// The run's text with markup characters escaped.
    pub fn escaped_chars(&self) -> (r: Vec<char>)
        ensures
            r@ == escape_text(self@.text),
    {
        let mut r: Vec<char> = Vec::new();
        let mut i: usize = 0;
        proof {
            assert(self.text@.skip(0) =~= self.text@);
            assert(r@ + escape_text(self.text@.skip(0)) =~= escape_text(self.text@));
        }
        while i < self.text.len()
            invariant
                0 <= i <= self.text@.len(),
                r@ + escape_text(self.text@.skip(i as int)) == escape_text(self.text@),
            decreases self.text@.len() - i,
        {
            let ghost pre = r@;
            let c = self.text[i];
            if c == '&' {
                r.push('&');
                r.push('a');
                r.push('m');
                r.push('p');
                r.push(';');
            } else if c == '>' {
                r.push('&');
                r.push('l');
                r.push('t');
                r.push(';');
            } else if c == '"' {
                r.push('&');
                r.push('q');
                r.push('u');
                r.push('o');
                r.push('t');
                r.push(';');
            } else if c == '\'' {
                r.push('&');
                r.push('a');
                r.push('p');
                r.push('o');
                r.push('s');
                r.push(';');
            } else {
                r.push(c);
            }
            proof {
                assert(r@ =~= pre + escape_char(self.text@[i as int]));
                assert(self.text@.skip(i as int)[0] == self.text@[i as int]);
                assert(self.text@.skip(i as int).drop_first() =~= self.text@.skip(i as int + 1));
                assert(escape_text(self.text@.skip(i as int)) == escape_char(self.text@[i as int])
                    + escape_text(self.text@.skip(i as int + 1)));
            }
            i += 1;
            proof {
                assert(r@ + escape_text(self.text@.skip(i as int)) =~= escape_text(self.text@));
            }
        }
        proof {
            assert(self.text@.skip(self.text@.len() as int) =~= Seq::<char>::empty());
            assert(r@ =~= escape_text(self.text@));
        }
        r
    }

    /// The run's text with markup characters escaped, as a string.
    pub fn escaped_text(&self) -> (r: String)
        ensures
            r@ == escape_text(self@.text),
    {
        let chars = self.escaped_chars();
        crate::xml::chars_to_string(&chars)
    }
}

/// The occurrence list recorded for a symbol identity: the list of the
/// first entry with that identity.
pub open spec fn tbl_lookup(t: Seq<EntryV>, s: SymbolV) -> Option<Seq<usize>>
    decreases t.len(),
{
    if t.len() == 0 {
        None
    } else if t[0].symbol == s {
        Some(t[0].frames)
    } else {
        tbl_lookup(t.drop_first(), s)
    }
}

/// A table whose entries all differ from `s` knows nothing of it.
proof fn lemma_lookup_absent(t: Seq<EntryV>, s: SymbolV)
    requires
        forall|i: int| 0 <= i < t.len() ==> (#[trigger] t[i]).symbol != s,
    ensures
        tbl_lookup(t, s) is None,
    decreases t.len(),
{
    if t.len() > 0 {
        assert forall|i: int| 0 <= i < t.drop_first().len() implies (#[trigger] t.drop_first()[
            i]).symbol != s by {
            assert(t.drop_first()[i] == t[i + 1]);
        }
        lemma_lookup_absent(t.drop_first(), s);
    }
}

/// A suffix of a well-formed table is well-formed.
proof fn lemma_wf_drop_first(t: Seq<EntryV>)
    requires
        tbl_wf(t),
        t.len() > 0,
    ensures
        tbl_wf(t.drop_first()),
{
    assert forall|i: int, j: int| 0 <= i < j < t.drop_first().len() implies symbol_lt(
        (#[trigger] t.drop_first()[i]).symbol,
        (#[trigger] t.drop_first()[j]).symbol,
    ) by {
        assert(t.drop_first()[i] == t[i + 1]);
        assert(t.drop_first()[j] == t[j + 1]);
    }
    assert forall|i: int| 0 <= i < t.drop_first().len() implies (#[trigger] t.drop_first()[
        i]).frames.len() > 0 by {
        assert(t.drop_first()[i] == t[i + 1]);
    }
}

/// Every identity of a record's result is the recorded one or one of the
/// table's own.
proof fn lemma_record_symbols(t: Seq<EntryV>, s: SymbolV, f: usize)
    ensures
        forall|j: int|
            0 <= j < tbl_record(t, s, f).len() ==> ((#[trigger] tbl_record(t, s, f)[j]).symbol == s
                || exists|i: int| 0 <= i < t.len() && (#[trigger] t[i]).symbol == tbl_record(
                t,
                s,
                f,
            )[j].symbol),
    decreases t.len(),
{
    let rec = tbl_record(t, s, f);
    if t.len() == 0 {
    } else if symbol_lt(s, t[0].symbol) {
        assert forall|j: int| 0 <= j < rec.len() implies ((#[trigger] rec[j]).symbol == s
            || exists|i: int| 0 <= i < t.len() && (#[trigger] t[i]).symbol == rec[j].symbol) by {
            if j > 0 {
                assert(rec[j] == t[j - 1]);
                assert(t[j - 1].symbol == rec[j].symbol);
            }
        }
    } else if s == t[0].symbol {
        assert forall|j: int| 0 <= j < rec.len() implies ((#[trigger] rec[j]).symbol == s
            || exists|i: int| 0 <= i < t.len() && (#[trigger] t[i]).symbol == rec[j].symbol) by {
            if j > 0 {
                assert(rec[j] == t.drop_first()[j - 1]);
                assert(t[j].symbol == rec[j].symbol);
            }
        }
    } else {
        lemma_record_symbols(t.drop_first(), s, f);
        let recd = tbl_record(t.drop_first(), s, f);
        assert forall|j: int| 0 <= j < rec.len() implies ((#[trigger] rec[j]).symbol == s
            || exists|i: int| 0 <= i < t.len() && (#[trigger] t[i]).symbol == rec[j].symbol) by {
            if j == 0 {
                assert(rec[0] == t[0]);
                assert(t[0].symbol == rec[0].symbol);
            } else {
                assert(rec[j] == recd[j - 1]);
                if recd[j - 1].symbol != s {
                    let i = choose|i: int|
                        0 <= i < t.drop_first().len() && (#[trigger] t.drop_first()[i]).symbol
                            == recd[j - 1].symbol;
                    assert(t.drop_first()[i] == t[i + 1]);
                    assert(t[i + 1].symbol == rec[j].symbol);
                }
            }
        }
    }
}

/// Recording preserves well-formedness of the table.
pub proof fn lemma_record_wf(t: Seq<EntryV>, s: SymbolV, f: usize)
    requires
        tbl_wf(t),
    ensures
        tbl_wf(tbl_record(t, s, f)),
    decreases t.len(),
{
    let rec = tbl_record(t, s, f);
    if t.len() == 0 {
    } else if symbol_lt(s, t[0].symbol) {
        assert forall|i: int, j: int| 0 <= i < j < rec.len() implies symbol_lt(
            (#[trigger] rec[i]).symbol,
            (#[trigger] rec[j]).symbol,
        ) by {
            if i == 0 {
                assert(rec[j] == t[j - 1]);
                if j - 1 > 0 {
                    lemma_symbol_lt_trans(s, t[0].symbol, t[j - 1].symbol);
                }
            } else {
                assert(rec[i] == t[i - 1]);
                assert(rec[j] == t[j - 1]);
            }
        }
        assert forall|i: int| 0 <= i < rec.len() implies (#[trigger] rec[i]).frames.len() > 0 by {
            if i > 0 {
                assert(rec[i] == t[i - 1]);
            }
        }
    } else if s == t[0].symbol {
        assert forall|i: int, j: int| 0 <= i < j < rec.len() implies symbol_lt(
            (#[trigger] rec[i]).symbol,
            (#[trigger] rec[j]).symbol,
        ) by {
            assert(rec[j] == t.drop_first()[j - 1]);
            assert(rec[j] == t[j]);
            if i > 0 {
                assert(rec[i] == t[i]);
            } else {
                assert(rec[0].symbol == t[0].symbol);
            }
        }
        assert forall|i: int| 0 <= i < rec.len() implies (#[trigger] rec[i]).frames.len() > 0 by {
            if i > 0 {
                assert(rec[i] == t[i]);
            }
        }
    } else {
        lemma_symbol_lt_trichotomy(s, t[0].symbol);
        assert(symbol_lt(t[0].symbol, s));
        lemma_wf_drop_first(t);
        lemma_record_wf(t.drop_first(), s, f);
        lemma_record_symbols(t.drop_first(), s, f);
        let recd = tbl_record(t.drop_first(), s, f);
        assert forall|i: int, j: int| 0 <= i < j < rec.len() implies symbol_lt(
            (#[trigger] rec[i]).symbol,
            (#[trigger] rec[j]).symbol,
        ) by {
            if i == 0 {
                assert(rec[j] == recd[j - 1]);
                if recd[j - 1].symbol == s {
                } else {
                    let q = choose|q: int|
                        0 <= q < t.drop_first().len() && (#[trigger] t.drop_first()[q]).symbol
                            == recd[j - 1].symbol;
                    assert(t.drop_first()[q] == t[q + 1]);
                    assert(symbol_lt(t[0].symbol, t[q + 1].symbol));
                }
            } else {
                assert(rec[i] == recd[i - 1]);
                assert(rec[j] == recd[j - 1]);
            }
        }
        assert forall|i: int| 0 <= i < rec.len() implies (#[trigger] rec[i]).frames.len() > 0 by {
            if i > 0 {
                assert(rec[i] == recd[i - 1]);
            }
        }
    }
}

/// After recording an identity, its occurrence list is the old one with
/// the frame appended (a fresh singleton when it was absent).
pub proof fn lemma_record_lookup_same(t: Seq<EntryV>, s: SymbolV, f: usize)
    requires
        tbl_wf(t),
    ensures
        tbl_lookup(tbl_record(t, s, f), s) == Some(
            match tbl_lookup(t, s) {
                Some(l) => l.push(f),
                None => seq![f],
            },
        ),
    decreases t.len(),
{
    let rec = tbl_record(t, s, f);
    if t.len() == 0 {
        assert(rec[0].symbol == s);
    } else if symbol_lt(s, t[0].symbol) {
        assert(rec[0].symbol == s);
        assert(tbl_lookup(rec, s) == Some(seq![f]));
        assert forall|i: int| 0 <= i < t.len() implies (#[trigger] t[i]).symbol != s by {
            if i > 0 {
                lemma_symbol_lt_trans(s, t[0].symbol, t[i].symbol);
            }
            lemma_symbol_lt_trichotomy(s, t[i].symbol);
        }
        lemma_lookup_absent(t, s);
    } else if s == t[0].symbol {
        assert(rec[0].symbol == s);
    } else {
        lemma_symbol_lt_trichotomy(s, t[0].symbol);
        assert(rec[0] == t[0]);
        assert(rec.drop_first() =~= tbl_record(t.drop_first(), s, f));
        lemma_wf_drop_first(t);
        lemma_record_lookup_same(t.drop_first(), s, f);
    }
}

/// Recording one identity leaves every other identity's list alone.
pub proof fn lemma_record_lookup_other(t: Seq<EntryV>, s2: SymbolV, f: usize, s: SymbolV)
    requires
        s2 != s,
    ensures
        tbl_lookup(tbl_record(t, s2, f), s) == tbl_lookup(t, s),
    decreases t.len(),
{
    let rec = tbl_record(t, s2, f);
    if t.len() == 0 {
        assert(rec[0].symbol == s2);
        assert(rec.drop_first() =~= Seq::<EntryV>::empty());
        assert(tbl_lookup(Seq::<EntryV>::empty(), s) is None);
        assert(tbl_lookup(rec, s) is None);
        assert(tbl_lookup(t, s) is None);
    } else if symbol_lt(s2, t[0].symbol) {
        assert(rec[0].symbol == s2);
        assert(rec.drop_first() =~= t);
        assert(tbl_lookup(rec, s) == tbl_lookup(t, s));
    } else if s2 == t[0].symbol {
        assert(rec[0].symbol == s2);
        assert(rec.drop_first() =~= t.drop_first());
        assert(tbl_lookup(rec, s) == tbl_lookup(t.drop_first(), s));
        assert(tbl_lookup(t, s) == tbl_lookup(t.drop_first(), s));
    } else {
        assert(rec[0] == t[0]);
        assert(rec.drop_first() =~= tbl_record(t.drop_first(), s2, f));
        lemma_record_lookup_other(t.drop_first(), s2, f, s);
        if t[0].symbol == s {
            assert(tbl_lookup(rec, s) == Some(rec[0].frames));
            assert(tbl_lookup(t, s) == Some(t[0].frames));
        } else {
            assert(tbl_lookup(rec, s) == tbl_lookup(rec.drop_first(), s));
            assert(tbl_lookup(t, s) == tbl_lookup(t.drop_first(), s));
        }
    }
}

/// A sequence of recordings, each a frame's runs under its frame number.
pub open spec fn record_frames(t: Seq<EntryV>, frames: Seq<(Seq<SymbolV>, usize)>) -> Seq<EntryV>
    decreases frames.len(),
{
    if frames.len() == 0 {
        t
    } else {
        record_frames(
            crate::extract::tbl_record_all(t, frames[0].0, frames[0].1),
            frames.drop_first(),
        )
    }
}

/// Recording a run of symbols preserves well-formedness and never drops a
/// recorded occurrence.
pub proof fn lemma_record_all_keeps(
    t: Seq<EntryV>,
    syms: Seq<SymbolV>,
    f: usize,
    s: SymbolV,
    x: usize,
)
    requires
        tbl_wf(t),
        tbl_lookup(t, s) is Some,
        tbl_lookup(t, s)->Some_0.contains(x),
    ensures
        tbl_wf(crate::extract::tbl_record_all(t, syms, f)),
        tbl_lookup(crate::extract::tbl_record_all(t, syms, f), s) is Some,
        tbl_lookup(crate::extract::tbl_record_all(t, syms, f), s)->Some_0.contains(x),
    decreases syms.len(),
{
    if syms.len() > 0 {
        lemma_record_wf(t, syms[0], f);
        if syms[0] == s {
            lemma_record_lookup_same(t, s, f);
            let l = tbl_lookup(t, s)->Some_0;
            let k = choose|k: int| 0 <= k < l.len() && l[k] == x;
            assert(l.push(f)[k] == x);
            assert(l.push(f).contains(x));
        } else {
            lemma_record_lookup_other(t, syms[0], f, s);
        }
        lemma_record_all_keeps(tbl_record(t, syms[0], f), syms.drop_first(), f, s, x);
    }
}

/// A sequence of frame recordings preserves well-formedness and never
/// drops a recorded occurrence.
pub proof fn lemma_record_frames_keeps(
    t: Seq<EntryV>,
    frames: Seq<(Seq<SymbolV>, usize)>,
    s: SymbolV,
    x: usize,
)
    requires
        tbl_wf(t),
        tbl_lookup(t, s) is Some,
        tbl_lookup(t, s)->Some_0.contains(x),
    ensures
        tbl_wf(record_frames(t, frames)),
        tbl_lookup(record_frames(t, frames), s) is Some,
        tbl_lookup(record_frames(t, frames), s)->Some_0.contains(x),
    decreases frames.len(),
{
    if frames.len() > 0 {
        lemma_record_all_keeps(t, frames[0].0, frames[0].1, s, x);
        lemma_record_frames_keeps(
            crate::extract::tbl_record_all(t, frames[0].0, frames[0].1),
            frames.drop_first(),
            s,
            x,
        );
    }
}

/// Equality law: a run recorded under one frame and a run with the
/// identical identity recorded under another frame, however many
/// recordings lie between them, coalesce into one entry whose occurrence
/// list contains both originating frames.
pub proof fn lemma_equality_law(
    t: Seq<EntryV>,
    s: SymbolV,
    f1: usize,
    mid: Seq<(Seq<SymbolV>, usize)>,
    f2: usize,
)
    requires
        tbl_wf(t),
    ensures
        ({
            let after = tbl_record(record_frames(tbl_record(t, s, f1), mid), s, f2);
            &&& tbl_lookup(after, s) is Some
            &&& tbl_lookup(after, s)->Some_0.contains(f1)
            &&& tbl_lookup(after, s)->Some_0.contains(f2)
        }),
{
    lemma_record_wf(t, s, f1);
    lemma_record_lookup_same(t, s, f1);
    let t1 = tbl_record(t, s, f1);
    let l1 = tbl_lookup(t1, s)->Some_0;
    assert(l1.last() == f1);
    assert(l1.contains(f1));
    lemma_record_frames_keeps(t1, mid, s, f1);
    let t2 = record_frames(t1, mid);
    lemma_record_lookup_same(t2, s, f2);
    let l2 = tbl_lookup(t2, s)->Some_0;
    let k = choose|k: int| 0 <= k < l2.len() && l2[k] == f1;
    assert(l2.push(f2)[k] == f1);
    assert(l2.push(f2).contains(f1));
    assert(l2.push(f2).last() == f2);
    assert(l2.push(f2).contains(f2));
}

} // verus!
