//! Assigning colors inline or to shared class tokens.
//!
//! The occurrence index is walked once in canonical order. The first
//! symbol with a given RGB triple registers it inline (a literal fill
//! value); the second promotes it to a shared class with the next token
//! from a sequential alphabetic counter; later symbols reuse the token.

use vstd::prelude::*;

use crate::color::rgb_spec;
use crate::numfmt::hex_rgb;
use crate::symbol::{EntryV, SymbolTable, SymbolV};

verus! {

/// How a color is referenced in the document.
#[derive(Debug, Copy, Clone, Eq, PartialEq, Structural)]
pub enum ColorAttribute {
    /// Referenced by a shared class token.
    Class,
    /// Referenced directly by a literal fill value.
    Style,
}

/// The attribute name a reference mode is written under.
pub open spec fn attr_name_spec(a: ColorAttribute) -> Seq<char> {
    match a {
        ColorAttribute::Class => "class"@,
        ColorAttribute::Style => "style"@,
    }
}

impl ColorAttribute {
    /// The attribute name this reference mode is written under.
    pub fn to_str(&self) -> (r: &'static str)
        ensures
            r@ == attr_name_spec(*self),
    {
        match self {
            ColorAttribute::Class => "class",
            ColorAttribute::Style => "style",
        }
    }
}

/// One assigned color: an RGB triple with its reference mode and the
/// attribute value (a literal fill or a class token).
#[derive(Debug)]
pub struct ColorEntry {
    /// Red component.
    pub r: u8,
    /// Green component.
    pub g: u8,
    /// Blue component.
    pub b: u8,
    /// How the color is referenced.
    pub attribute: ColorAttribute,
    /// The attribute value symbols of this color carry.
    pub value: Vec<char>,
}

/// Ghost image of a [`ColorEntry`].
pub ghost struct ColorEntryV {
    pub r: u8,
    pub g: u8,
    pub b: u8,
    pub attribute: ColorAttribute,
    pub value: Seq<char>,
}

impl View for ColorEntry {
    type V = ColorEntryV;

    open spec fn view(&self) -> ColorEntryV {
        ColorEntryV {
            r: self.r,
            g: self.g,
            b: self.b,
            attribute: self.attribute,
            value: self.value@,
        }
    }
}

/// The color assignment table, keyed by RGB triple in first-seen order.
#[derive(Debug)]
pub struct ColorTable {
    /// Assigned colors, each RGB triple exactly once.
    pub entries: Vec<ColorEntry>,
}

impl View for ColorTable {
    type V = Seq<ColorEntryV>;

    open spec fn view(&self) -> Seq<ColorEntryV> {
        Seq::new(self.entries@.len(), |i: int| self.entries@[i]@)
    }
}

/// Whether an entry is keyed by this RGB triple.
pub open spec fn rgb_match(e: ColorEntryV, r: u8, g: u8, b: u8) -> bool {
    e.r == r && e.g == g && e.b == b
}

/// Position of the entry keyed by this RGB triple, or -1.
pub open spec fn color_index(t: Seq<ColorEntryV>, r: u8, g: u8, b: u8) -> int
    decreases t.len(),
{
    if t.len() == 0 {
        -1
    } else if rgb_match(t[0], r, g, b) {
        0
    } else {
        let i = color_index(t.drop_first(), r, g, b);
        if i < 0 {
            -1
        } else {
            i + 1
        }
    }
}

/// The literal fill value of a color referenced inline.
pub open spec fn fill_value(r: u8, g: u8, b: u8) -> Seq<char> {
    seq!['f', 'i', 'l', 'l', ':', ' ', '#'] + hex_rgb(r, g, b)
}

/// Well-formed class token: non-empty lowercase letters.
pub open spec fn token_wf(t: Seq<u8>) -> bool {
    t.len() > 0 && (forall|i: int| 0 <= i < t.len() ==> 97 <= #[trigger] t[i] <= 122)
}

/// The next class token: a trailing `z` is replaced by `aa` (the single
/// rollover the generator supports); any other trailing letter advances
/// by one.
pub open spec fn next_token(t: Seq<u8>) -> Seq<u8> {
    if t.len() > 0 && t.last() == 122 {
        t.drop_last() + seq![97u8, 97u8]
    } else if t.len() > 0 {
        t.drop_last().push((t.last() + 1) as u8)
    } else {
        t
    }
}

/// A token's letters as characters.
pub open spec fn token_chars(t: Seq<u8>) -> Seq<char> {
    Seq::new(t.len(), |i: int| t[i] as char)
}

/// The color assigner's running state: the table so far and the next
/// unused class token.
pub ghost struct CmState {
    pub entries: Seq<ColorEntryV>,
    pub token: Seq<u8>,
}

/// The state every assignment starts from: no colors, token `a`.
pub open spec fn cm_init() -> CmState {
    CmState { entries: Seq::empty(), token: seq![97u8] }
}

/// Processing one symbol: an unseen color registers inline; a color seen
/// exactly once before is promoted to a shared class and consumes the
/// next token; an already shared color is unchanged.
pub open spec fn cm_step(st: CmState, s: SymbolV) -> CmState {
    let (r, g, b) = rgb_spec(s.fg);
    let i = color_index(st.entries, r, g, b);
    if i < 0 {
        CmState {
            entries: st.entries.push(
                ColorEntryV {
                    r: r,
                    g: g,
                    b: b,
                    attribute: ColorAttribute::Style,
                    value: fill_value(r, g, b),
                },
            ),
            token: st.token,
        }
    } else if st.entries[i].attribute is Style {
        CmState {
            entries: st.entries.update(
                i,
                ColorEntryV {
                    r: r,
                    g: g,
                    b: b,
                    attribute: ColorAttribute::Class,
                    value: token_chars(st.token),
                },
            ),
            token: next_token(st.token),
        }
    } else {
        st
    }
}

/// Processing a sequence of symbols in order.
pub open spec fn cm_fold(st: CmState, syms: Seq<SymbolV>) -> CmState
    decreases syms.len(),
{
    if syms.len() == 0 {
        st
    } else {
        cm_fold(cm_step(st, syms[0]), syms.drop_first())
    }
}

/// The symbols of the occurrence index, in canonical order.
pub open spec fn tbl_keys(t: Seq<EntryV>) -> Seq<SymbolV> {
    Seq::new(t.len(), |i: int| t[i].symbol)
}

/// The color assignment computed from an occurrence index.
pub open spec fn color_map_spec(t: Seq<EntryV>) -> Seq<ColorEntryV> {
    cm_fold(cm_init(), tbl_keys(t)).entries
}

/// One more symbol is one more step.
pub proof fn lemma_cm_fold_push(st: CmState, syms: Seq<SymbolV>, s: SymbolV)
    ensures
        cm_fold(st, syms.push(s)) == cm_step(cm_fold(st, syms), s),
    decreases syms.len(),
{
    if syms.len() == 0 {
        assert(syms.push(s)[0] == s);
        assert(syms.push(s).drop_first() =~= Seq::<SymbolV>::empty());
        assert(cm_fold(st, syms.push(s)) == cm_fold(cm_step(st, s), Seq::<SymbolV>::empty()));
        assert(cm_fold(cm_step(st, s), Seq::<SymbolV>::empty()) == cm_step(st, s));
        assert(cm_fold(st, syms) == st);
    } else {
        assert(syms.push(s)[0] == syms[0]);
        assert(syms.push(s).drop_first() =~= syms.drop_first().push(s));
        lemma_cm_fold_push(cm_step(st, syms[0]), syms.drop_first(), s);
    }
}

/// A search that passed a prefix without a match continues in the rest.
proof fn lemma_color_index_split(t: Seq<ColorEntryV>, r: u8, g: u8, b: u8, i: int)
    requires
        0 <= i <= t.len(),
        forall|j: int| 0 <= j < i ==> !rgb_match(#[trigger] t[j], r, g, b),
    ensures
        color_index(t, r, g, b) == (if color_index(t.skip(i), r, g, b) < 0 {
            -1
        } else {
            i + color_index(t.skip(i), r, g, b)
        }),
    decreases i,
{
    if i == 0 {
        assert(t.skip(0) =~= t);
    } else {
        assert(t.drop_first() =~= t.skip(1));
        assert forall|j: int| 0 <= j < i - 1 implies !rgb_match(#[trigger] t.skip(1)[j], r, g, b) by {
            assert(t.skip(1)[j] == t[j + 1]);
        }
        lemma_color_index_split(t.skip(1), r, g, b, i - 1);
        assert(t.skip(1).skip(i - 1) =~= t.skip(i));
    }
}

/// Advance the class token counter.
fn advance_token(tok: &mut Vec<u8>)
    requires
        token_wf(old(tok)@),
    ensures
        final(tok)@ == next_token(old(tok)@),
        token_wf(final(tok)@),
{
    let last = tok[tok.len() - 1];
    tok.pop();
    if last == 122 {
        tok.push(97);
        tok.push(97);
        assert(tok@ =~= old(tok)@.drop_last() + seq![97u8, 97u8]);
    } else {
        tok.push(last + 1);
        assert(tok@ =~= old(tok)@.drop_last().push((old(tok)@.last() + 1) as u8));
    }
}

/// A token's letters as characters.
fn token_chars_exec(tok: &Vec<u8>) -> (r: Vec<char>)
    requires
        token_wf(tok@),
    ensures
        r@ == token_chars(tok@),
{
    let mut r: Vec<char> = Vec::new();
    let mut i: usize = 0;
    while i < tok.len()
        invariant
            0 <= i <= tok@.len(),
            token_wf(tok@),
            r@ =~= token_chars(tok@).take(i as int),
        decreases tok@.len() - i,
    {
        r.push(tok[i] as char);
        i += 1;
        assert(r@ =~= token_chars(tok@).take(i as int));
    }
    assert(token_chars(tok@).take(tok@.len() as int) =~= token_chars(tok@));
    r
}

/// Position of the entry keyed by this RGB triple, if any.
fn find_color(entries: &Vec<ColorEntry>, tv: Ghost<Seq<ColorEntryV>>, r: u8, g: u8, b: u8) -> (res:
    Option<usize>)
    requires
        tv@ == Seq::new(entries@.len(), |i: int| entries@[i]@),
    ensures
        match res {
            Some(i) => i < entries@.len() && color_index(tv@, r, g, b) == i && rgb_match(
                tv@[i as int],
                r,
                g,
                b,
            ),
            None => color_index(tv@, r, g, b) == -1,
        },
{
    let mut i: usize = 0;
    while i < entries.len()
        invariant
            0 <= i <= entries@.len(),
            tv@ == Seq::new(entries@.len(), |k: int| entries@[k]@),
            forall|j: int| 0 <= j < i ==> !rgb_match(#[trigger] tv@[j], r, g, b),
        decreases entries@.len() - i,
    {
        let e = &entries[i];
        if e.r == r && e.g == g && e.b == b {
            proof {
                lemma_color_index_split(tv@, r, g, b, i as int);
                assert(tv@.skip(i as int)[0] == tv@[i as int]);
                assert(rgb_match(tv@[i as int], r, g, b));
            }
            return Some(i);
        }
        i += 1;
    }
    proof {
        lemma_color_index_split(tv@, r, g, b, i as int);
        assert(tv@.skip(i as int) =~= Seq::<ColorEntryV>::empty());
    }
    None
}

impl ColorTable {
    /// Position of the entry keyed by this RGB triple, if any.
    pub fn find(&self, r: u8, g: u8, b: u8) -> (res: Option<usize>)
        ensures
            match res {
                Some(i) => i < self@.len() && color_index(self@, r, g, b) == i && rgb_match(
                    self@[i as int],
                    r,
                    g,
                    b,
                ),
                None => color_index(self@, r, g, b) == -1,
            },
    {
        find_color(&self.entries, Ghost(self@), r, g, b)
    }
}

/// Compute the color assignment from the occurrence index: each distinct
/// RGB triple of a symbol appears exactly once, inline when one symbol
/// has it and as a shared class token when two or more do.
pub fn color_map(map: &SymbolTable) -> (t: ColorTable)
    ensures
        t@ == color_map_spec(map@),
{
    let mut table = ColorTable { entries: Vec::new() };
    let mut token: Vec<u8> = Vec::new();
    token.push(97);
    proof {
        assert(token@ =~= seq![97u8]);
        assert(table@ =~= Seq::<ColorEntryV>::empty());
        assert(tbl_keys(map@).take(0) =~= Seq::<SymbolV>::empty());
    }
    let ghost keys = tbl_keys(map@);
    let mut i: usize = 0;
    while i < map.entries.len()
        invariant
            0 <= i <= map.entries@.len(),
            keys == tbl_keys(map@),
            keys.len() == map.entries@.len(),
            cm_fold(cm_init(), keys.take(i as int)) == (CmState {
                entries: table@,
                token: token@,
            }),
            token_wf(token@),
        decreases map.entries@.len() - i,
    {
        let ghost st = CmState { entries: table@, token: token@ };
        let (r, g, b) = map.entries[i].symbol.fg.rgb();
        proof {
            assert(keys[i as int] == map@[i as int].symbol);
            assert(rgb_spec(keys[i as int].fg) == (r, g, b));
        }
        let found = find_color(&table.entries, Ghost(table@), r, g, b);
        match found {
            None => {
                let mut value: Vec<char> = Vec::new();
                value.push('f');
                value.push('i');
                value.push('l');
                value.push('l');
                value.push(':');
                value.push(' ');
                value.push('#');
                crate::numfmt::push_hex_rgb(&mut value, r, g, b);
                proof {
                    assert(value@ =~= fill_value(r, g, b));
                }
                table.entries.push(ColorEntry { r, g, b, attribute: ColorAttribute::Style, value });
                proof {
                    assert(table@ =~= st.entries.push(
                        ColorEntryV {
                            r: r,
                            g: g,
                            b: b,
                            attribute: ColorAttribute::Style,
                            value: fill_value(r, g, b),
                        },
                    ));
                }
            },
            Some(idx) => {
                let style = match &table.entries[idx].attribute {
                    ColorAttribute::Style => true,
                    ColorAttribute::Class => false,
                };
                if style {
                    let value = token_chars_exec(&token);
                    let mut e = table.entries.remove(idx);
                    e.attribute = ColorAttribute::Class;
                    e.value = value;
                    table.entries.insert(idx, e);
                    advance_token(&mut token);
                    proof {
                        assert(rgb_match(st.entries[idx as int], r, g, b));
                        assert(table@ =~= st.entries.update(
                            idx as int,
                            ColorEntryV {
                                r: r,
                                g: g,
                                b: b,
                                attribute: ColorAttribute::Class,
                                value: token_chars(st.token),
                            },
                        ));
                    }
                }
            },
        }
        i += 1;
        proof {
            assert(keys.take(i as int) =~= keys.take(i - 1).push(keys[i - 1]));
            lemma_cm_fold_push(cm_init(), keys.take(i - 1), keys[i - 1]);
            assert(cm_step(st, keys[i - 1]) == (CmState { entries: table@, token: token@ }));
        }
    }
    proof {
        assert(keys.take(keys.len() as int) =~= keys);
    }
    table
}

/// Occurrences of an RGB triple among a sequence of symbols.
pub open spec fn rgb_count(syms: Seq<SymbolV>, r: u8, g: u8, b: u8) -> int
    decreases syms.len(),
{
    if syms.len() == 0 {
        0
    } else {
        (if rgb_spec(syms[0].fg) == (r, g, b) {
            1int
        } else {
            0int
        }) + rgb_count(syms.drop_first(), r, g, b)
    }
}

/// Counting is additive over appending one symbol.
proof fn lemma_rgb_count_push(syms: Seq<SymbolV>, s: SymbolV, r: u8, g: u8, b: u8)
    ensures
        rgb_count(syms.push(s), r, g, b) == rgb_count(syms, r, g, b) + (if rgb_spec(s.fg) == (
            r,
            g,
            b,
        ) {
            1int
        } else {
            0int
        }),
    decreases syms.len(),
{
    if syms.len() == 0 {
        assert(syms.push(s)[0] == s);
        assert(syms.push(s).drop_first() =~= Seq::<SymbolV>::empty());
        assert(rgb_count(Seq::<SymbolV>::empty(), r, g, b) == 0);
    } else {
        assert(syms.push(s)[0] == syms[0]);
        assert(syms.push(s).drop_first() =~= syms.drop_first().push(s));
        lemma_rgb_count_push(syms.drop_first(), s, r, g, b);
    }
}

/// A count is never negative, and a positive count names a witness.
proof fn lemma_rgb_count_witness(syms: Seq<SymbolV>, r: u8, g: u8, b: u8)
    ensures
        rgb_count(syms, r, g, b) >= 0,
        rgb_count(syms, r, g, b) > 0 ==> exists|k: int|
            0 <= k < syms.len() && rgb_spec(#[trigger] syms[k].fg) == (r, g, b),
    decreases syms.len(),
{
    if syms.len() > 0 {
        lemma_rgb_count_witness(syms.drop_first(), r, g, b);
        if rgb_count(syms, r, g, b) > 0 {
            if rgb_spec(syms[0].fg) == (r, g, b) {
                assert(rgb_spec(syms[0].fg) == (r, g, b));
            } else {
                let k = choose|k: int|
                    0 <= k < syms.drop_first().len() && rgb_spec(
                        #[trigger] syms.drop_first()[k].fg,
                    ) == (r, g, b);
                assert(syms.drop_first()[k] == syms[k + 1]);
                assert(rgb_spec(syms[k + 1].fg) == (r, g, b));
            }
        }
    }
}

/// A found index points at the matching entry; a miss means no entry
/// matches.
proof fn lemma_color_index_props(t: Seq<ColorEntryV>, r: u8, g: u8, b: u8)
    ensures
        color_index(t, r, g, b) >= 0 ==> 0 <= color_index(t, r, g, b) < t.len() && rgb_match(
            t[color_index(t, r, g, b)],
            r,
            g,
            b,
        ),
        color_index(t, r, g, b) < 0 ==> forall|i: int|
            0 <= i < t.len() ==> !rgb_match(#[trigger] t[i], r, g, b),
    decreases t.len(),
{
    if t.len() > 0 && !rgb_match(t[0], r, g, b) {
        lemma_color_index_props(t.drop_first(), r, g, b);
        let ci = color_index(t.drop_first(), r, g, b);
        if ci >= 0 {
            assert(t.drop_first()[ci] == t[ci + 1]);
        } else {
            assert forall|i: int| 0 <= i < t.len() implies !rgb_match(#[trigger] t[i], r, g, b) by {
                if i > 0 {
                    assert(t.drop_first()[i - 1] == t[i]);
                }
            }
        }
    }
}

/// Appending an entry leaves found indexes alone and can only add its own
/// key.
proof fn lemma_color_index_push(t: Seq<ColorEntryV>, e: ColorEntryV, r: u8, g: u8, b: u8)
    ensures
        color_index(t, r, g, b) >= 0 ==> color_index(t.push(e), r, g, b) == color_index(t, r, g, b),
        color_index(t, r, g, b) < 0 && rgb_match(e, r, g, b) ==> color_index(t.push(e), r, g, b)
            == t.len(),
        color_index(t, r, g, b) < 0 && !rgb_match(e, r, g, b) ==> color_index(t.push(e), r, g, b)
            < 0,
    decreases t.len(),
{
    if t.len() == 0 {
        assert(t.push(e)[0] == e);
        assert(t.push(e).drop_first() =~= Seq::<ColorEntryV>::empty());
        assert(color_index(Seq::<ColorEntryV>::empty(), r, g, b) == -1);
    } else {
        assert(t.push(e)[0] == t[0]);
        assert(t.push(e).drop_first() =~= t.drop_first().push(e));
        lemma_color_index_push(t.drop_first(), e, r, g, b);
    }
}

/// Replacing an entry by one with the same key moves no index.
proof fn lemma_color_index_update(t: Seq<ColorEntryV>, i: int, e: ColorEntryV, r: u8, g: u8, b: u8)
    requires
        0 <= i < t.len(),
        e.r == t[i].r,
        e.g == t[i].g,
        e.b == t[i].b,
    ensures
        color_index(t.update(i, e), r, g, b) == color_index(t, r, g, b),
    decreases t.len(),
{
    if i == 0 {
        assert(t.update(0, e)[0] == e);
        assert(t.update(0, e).drop_first() =~= t.drop_first());
        assert(rgb_match(e, r, g, b) == rgb_match(t[0], r, g, b));
    } else {
        assert(t.update(i, e)[0] == t[0]);
        assert(t.update(i, e).drop_first() =~= t.drop_first().update(i - 1, e));
        assert(t.drop_first()[i - 1] == t[i]);
        lemma_color_index_update(t.drop_first(), i - 1, e, r, g, b);
    }
}

/// What holds of the assigner's state after it has processed a sequence
/// of symbols: every distinct RGB triple seen is a key exactly once; a
/// key is inline exactly when one processed symbol has it, with its
/// literal fill value, and shared exactly when two or more do.
pub open spec fn cm_inv(processed: Seq<SymbolV>, st: CmState) -> bool {
    &&& forall|i: int, j: int|
        0 <= i < j < st.entries.len() ==> !rgb_match(
            #[trigger] st.entries[j],
            (#[trigger] st.entries[i]).r,
            st.entries[i].g,
            st.entries[i].b,
        )
    &&& forall|i: int|
        0 <= i < st.entries.len() ==> {
            let e = #[trigger] st.entries[i];
            &&& rgb_count(processed, e.r, e.g, e.b) >= 1
            &&& (e.attribute is Style <==> rgb_count(processed, e.r, e.g, e.b) == 1)
            &&& (e.attribute is Style ==> e.value == fill_value(e.r, e.g, e.b))
        }
    &&& forall|k: int|
        0 <= k < processed.len() ==> {
            let (r, g, b) = rgb_spec((#[trigger] processed[k]).fg);
            color_index(st.entries, r, g, b) >= 0
        }
    &&& token_wf(st.token)
}

/// One step preserves the assigner's invariant.
proof fn lemma_cm_step_inv(processed: Seq<SymbolV>, st: CmState, s: SymbolV)
    requires
        cm_inv(processed, st),
    ensures
        cm_inv(processed.push(s), cm_step(st, s)),
{
    let (r, g, b) = rgb_spec(s.fg);
    let ci = color_index(st.entries, r, g, b);
    let st2 = cm_step(st, s);
    lemma_color_index_props(st.entries, r, g, b);
    assert forall|x: u8, y: u8, z: u8|
        rgb_count(#[trigger] processed.push(s), x, y, z) == rgb_count(processed, x, y, z) + (
        if rgb_spec(s.fg) == (x, y, z) {
            1int
        } else {
            0int
        }) by {
        lemma_rgb_count_push(processed, s, x, y, z);
    }
    if ci < 0 {
        lemma_rgb_count_witness(processed, r, g, b);
        if rgb_count(processed, r, g, b) > 0 {
            let k = choose|k: int|
                0 <= k < processed.len() && rgb_spec(#[trigger] processed[k].fg) == (r, g, b);
            assert(color_index(st.entries, r, g, b) >= 0);
        }
        assert(rgb_count(processed, r, g, b) == 0);
        assert forall|k: int| 0 <= k < processed.push(s).len() implies {
            let (x, y, z) = rgb_spec((#[trigger] processed.push(s)[k]).fg);
            color_index(st2.entries, x, y, z) >= 0
        } by {
            if k < processed.len() {
                assert(processed.push(s)[k] == processed[k]);
                let (x, y, z) = rgb_spec(processed[k].fg);
                lemma_color_index_push(st.entries, st2.entries.last(), x, y, z);
            } else {
                assert(processed.push(s)[k] == s);
                lemma_color_index_push(st.entries, st2.entries.last(), r, g, b);
            }
        }
        assert forall|i: int| 0 <= i < st2.entries.len() implies {
            let e = #[trigger] st2.entries[i];
            &&& rgb_count(processed.push(s), e.r, e.g, e.b) >= 1
            &&& (e.attribute is Style <==> rgb_count(processed.push(s), e.r, e.g, e.b) == 1)
            &&& (e.attribute is Style ==> e.value == fill_value(e.r, e.g, e.b))
        } by {
            if i < st.entries.len() {
                assert(st2.entries[i] == st.entries[i]);
                assert(!rgb_match(st.entries[i], r, g, b));
                lemma_rgb_count_witness(processed, st.entries[i].r, st.entries[i].g, st.entries[i].b);
            } else {
                assert(st2.entries[i] == st2.entries.last());
            }
        }
    } else if st.entries[ci].attribute is Style {
        let e2 = ColorEntryV {
            r: r,
            g: g,
            b: b,
            attribute: ColorAttribute::Class,
            value: token_chars(st.token),
        };
        assert(rgb_match(st.entries[ci], r, g, b));
        assert(st.entries[ci].r == r && st.entries[ci].g == g && st.entries[ci].b == b);
        assert forall|x: u8, y: u8, z: u8|
            color_index(#[trigger] st2.entries, x, y, z) == color_index(st.entries, x, y, z) by {
            lemma_color_index_update(st.entries, ci, e2, x, y, z);
        }
        assert forall|i: int| 0 <= i < st2.entries.len() implies {
            let e = #[trigger] st2.entries[i];
            &&& rgb_count(processed.push(s), e.r, e.g, e.b) >= 1
            &&& (e.attribute is Style <==> rgb_count(processed.push(s), e.r, e.g, e.b) == 1)
            &&& (e.attribute is Style ==> e.value == fill_value(e.r, e.g, e.b))
        } by {
            if i == ci {
                assert(st2.entries[i] == e2);
                assert(rgb_count(processed, r, g, b) == 1);
            } else {
                assert(st2.entries[i] == st.entries[i]);
                if rgb_spec(s.fg) == (st.entries[i].r, st.entries[i].g, st.entries[i].b) {
                    if i < ci {
                        assert(!rgb_match(st.entries[ci], st.entries[i].r, st.entries[i].g,
                            st.entries[i].b));
                    } else {
                        assert(!rgb_match(st.entries[i], st.entries[ci].r, st.entries[ci].g,
                            st.entries[ci].b));
                    }
                    assert(false);
                }
            }
        }
        assert forall|i: int, j: int| 0 <= i < j < st2.entries.len() implies !rgb_match(
            #[trigger] st2.entries[j],
            (#[trigger] st2.entries[i]).r,
            st2.entries[i].g,
            st2.entries[i].b,
        ) by {
            assert(st2.entries[i].r == st.entries[i].r && st2.entries[i].g == st.entries[i].g
                && st2.entries[i].b == st.entries[i].b);
            assert(st2.entries[j].r == st.entries[j].r && st2.entries[j].g == st.entries[j].g
                && st2.entries[j].b == st.entries[j].b);
            assert(!rgb_match(st.entries[j], st.entries[i].r, st.entries[i].g, st.entries[i].b));
        }
        assert(token_wf(st2.token));
    } else {
        assert(st2 == st);
        assert(rgb_match(st.entries[ci], r, g, b));
        assert forall|i: int| 0 <= i < st2.entries.len() implies {
            let e = #[trigger] st2.entries[i];
            &&& rgb_count(processed.push(s), e.r, e.g, e.b) >= 1
            &&& (e.attribute is Style <==> rgb_count(processed.push(s), e.r, e.g, e.b) == 1)
            &&& (e.attribute is Style ==> e.value == fill_value(e.r, e.g, e.b))
        } by {
            if rgb_spec(s.fg) == (st.entries[i].r, st.entries[i].g, st.entries[i].b) {
                if i != ci {
                    if i < ci {
                        assert(!rgb_match(st.entries[ci], st.entries[i].r, st.entries[i].g,
                            st.entries[i].b));
                    } else {
                        assert(!rgb_match(st.entries[i], st.entries[ci].r, st.entries[ci].g,
                            st.entries[ci].b));
                    }
                    assert(false);
                }
                assert(rgb_count(processed, r, g, b) >= 2);
            }
        }
    }
}

/// The invariant carries over any sequence of steps.
proof fn lemma_cm_fold_inv(processed: Seq<SymbolV>, st: CmState, syms: Seq<SymbolV>)
    requires
        cm_inv(processed, st),
    ensures
        cm_inv(processed + syms, cm_fold(st, syms)),
    decreases syms.len(),
{
    if syms.len() == 0 {
        assert(processed + syms =~= processed);
    } else {
        lemma_cm_step_inv(processed, st, syms[0]);
        lemma_cm_fold_inv(processed.push(syms[0]), cm_step(st, syms[0]), syms.drop_first());
        assert(processed.push(syms[0]) + syms.drop_first() =~= processed + syms);
    }
}

/// Round trip of the color assignment: every RGB triple of a symbol in
/// the occurrence index is a key of the color table exactly once, every
/// symbol's triple is found there, and an inline key carries the literal
/// fill value of its own triple.
pub proof fn lemma_color_round_trip(t: Seq<EntryV>)
    ensures
        forall|i: int, j: int|
            0 <= i < j < color_map_spec(t).len() ==> !rgb_match(
                #[trigger] color_map_spec(t)[j],
                (#[trigger] color_map_spec(t)[i]).r,
                color_map_spec(t)[i].g,
                color_map_spec(t)[i].b,
            ),
        forall|k: int|
            0 <= k < t.len() ==> {
                let (r, g, b) = rgb_spec((#[trigger] t[k]).symbol.fg);
                let ci = color_index(color_map_spec(t), r, g, b);
                0 <= ci < color_map_spec(t).len() && rgb_match(color_map_spec(t)[ci], r, g, b)
            },
        forall|i: int|
            0 <= i < color_map_spec(t).len() ==> ((#[trigger] color_map_spec(t)[i]).attribute
                is Style ==> color_map_spec(t)[i].value == fill_value(
                color_map_spec(t)[i].r,
                color_map_spec(t)[i].g,
                color_map_spec(t)[i].b,
            )),
{
    lemma_cm_fold_inv(Seq::empty(), cm_init(), tbl_keys(t));
    assert(Seq::<SymbolV>::empty() + tbl_keys(t) =~= tbl_keys(t));
    let st = cm_fold(cm_init(), tbl_keys(t));
    assert(cm_inv(tbl_keys(t), st));
    assert forall|k: int| 0 <= k < t.len() implies {
        let (r, g, b) = rgb_spec((#[trigger] t[k]).symbol.fg);
        let ci = color_index(color_map_spec(t), r, g, b);
        0 <= ci < color_map_spec(t).len() && rgb_match(color_map_spec(t)[ci], r, g, b)
    } by {
        assert(tbl_keys(t)[k] == t[k].symbol);
        let (r, g, b) = rgb_spec(t[k].symbol.fg);
        assert(color_index(st.entries, r, g, b) >= 0);
        lemma_color_index_props(st.entries, r, g, b);
    }
}

/// Boundary of the two reference modes: a color is inline exactly when
/// one symbol of the occurrence index has it, and a shared class exactly
/// when two or more do; symbols of one color all read the same entry, so
/// they share its token.
pub proof fn lemma_color_boundary(t: Seq<EntryV>)
    ensures
        forall|i: int|
            0 <= i < color_map_spec(t).len() ==> ((#[trigger] color_map_spec(t)[i]).attribute
                is Style <==> rgb_count(
                tbl_keys(t),
                color_map_spec(t)[i].r,
                color_map_spec(t)[i].g,
                color_map_spec(t)[i].b,
            ) == 1),
        forall|i: int|
            0 <= i < color_map_spec(t).len() ==> ((#[trigger] color_map_spec(t)[i]).attribute
                is Class <==> rgb_count(
                tbl_keys(t),
                color_map_spec(t)[i].r,
                color_map_spec(t)[i].g,
                color_map_spec(t)[i].b,
            ) >= 2),
{
    lemma_cm_fold_inv(Seq::empty(), cm_init(), tbl_keys(t));
    assert(Seq::<SymbolV>::empty() + tbl_keys(t) =~= tbl_keys(t));
    let st = cm_fold(cm_init(), tbl_keys(t));
    assert(cm_inv(tbl_keys(t), st));
    assert forall|i: int| 0 <= i < color_map_spec(t).len() implies ((
    #[trigger] color_map_spec(t)[i]).attribute is Class <==> rgb_count(
        tbl_keys(t),
        color_map_spec(t)[i].r,
        color_map_spec(t)[i].g,
        color_map_spec(t)[i].b,
    ) >= 2) by {
        let e = st.entries[i];
        assert(rgb_count(tbl_keys(t), e.r, e.g, e.b) >= 1);
        assert(e.attribute is Style || e.attribute is Class);
    }
}

} // verus!
