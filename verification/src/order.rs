//! A strict total order over symbol identity.
//!
//! The occurrence index must iterate in an order that is reproducible from
//! run to run, so symbols are ordered lexicographically by column, row,
//! color, intensity and text. Colors order by variant first and by their
//! payload within a variant; text orders by code point.

use vstd::prelude::*;

use crate::color::{Color, Intensity};

verus! {

/// Lexicographic order on text from position `i` onward: the first
/// differing character decides; a proper prefix comes first.
pub open spec fn text_lt_from(a: Seq<char>, b: Seq<char>, i: int) -> bool
    decreases b.len() - i,
{
    if i >= b.len() {
        false
    } else if i >= a.len() {
        true
    } else if a[i] != b[i] {
        a[i] < b[i]
    } else {
        text_lt_from(a, b, i + 1)
    }
}

/// Lexicographic order on text by code point.
pub open spec fn text_lt(a: Seq<char>, b: Seq<char>) -> bool {
    text_lt_from(a, b, 0)
}

/// Rank of a color's variant, in declaration order.
pub open spec fn color_rank(c: Color) -> int {
    match c {
        Color::Black => 0,
        Color::Red => 1,
        Color::Green => 2,
        Color::Yellow => 3,
        Color::Blue => 4,
        Color::Magenta => 5,
        Color::Cyan => 6,
        Color::White => 7,
        Color::BrightBlack => 8,
        Color::BrightRed => 9,
        Color::BrightGreen => 10,
        Color::BrightYellow => 11,
        Color::BrightBlue => 12,
        Color::BrightMagenta => 13,
        Color::BrightCyan => 14,
        Color::BrightWhite => 15,
        Color::Rgb(_, _, _) => 16,
        Color::Indexed(_) => 17,
        Color::Default => 18,
    }
}

/// Order on colors: variant rank first, then the payload.
pub open spec fn color_lt(a: Color, b: Color) -> bool {
    if color_rank(a) != color_rank(b) {
        color_rank(a) < color_rank(b)
    } else {
        match (a, b) {
            (Color::Rgb(r1, g1, b1), Color::Rgb(r2, g2, b2)) => if r1 != r2 {
                r1 < r2
            } else if g1 != g2 {
                g1 < g2
            } else {
                b1 < b2
            },
            (Color::Indexed(x), Color::Indexed(y)) => x < y,
            _ => false,
        }
    }
}

/// Rank of an intensity, in declaration order.
pub open spec fn intensity_rank(i: Intensity) -> int {
    match i {
        Intensity::Normal => 0,
        Intensity::Bold => 1,
        Intensity::Faint => 2,
    }
}

/// Exactly one of `a == b`, `text_lt(a, b)` and `text_lt(b, a)` holds from
/// position `i` onward.
pub proof fn lemma_text_lt_from_trichotomy(a: Seq<char>, b: Seq<char>, i: int)
    requires
        0 <= i <= a.len(),
        0 <= i <= b.len(),
    ensures
        !(text_lt_from(a, b, i) && text_lt_from(b, a, i)),
        !text_lt_from(a, b, i) && !text_lt_from(b, a, i) <==> a.skip(i) =~= b.skip(i),
    decreases b.len() - i,
{
    if i < a.len() && i < b.len() && a[i] == b[i] {
        lemma_text_lt_from_trichotomy(a, b, i + 1);
        if a.skip(i + 1) =~= b.skip(i + 1) {
            assert forall|k: int| 0 <= k < a.skip(i).len() implies a.skip(i)[k] == b.skip(i)[k] by {
                if k > 0 {
                    assert(a.skip(i)[k] == a.skip(i + 1)[k - 1]);
                    assert(b.skip(i)[k] == b.skip(i + 1)[k - 1]);
                }
            }
            assert(a.skip(i) =~= b.skip(i));
        }
        if a.skip(i) =~= b.skip(i) {
            assert forall|k: int| 0 <= k < a.skip(i + 1).len() implies #[trigger] a.skip(i + 1)[k]
                == b.skip(i + 1)[k] by {
                assert(a.skip(i + 1)[k] == a.skip(i)[k + 1]);
                assert(b.skip(i + 1)[k] == b.skip(i)[k + 1]);
            }
            assert(a.skip(i + 1) =~= b.skip(i + 1));
        }
    } else {
        if i >= a.len() && i >= b.len() {
            assert(a.skip(i) =~= b.skip(i));
        } else if i >= a.len() || i >= b.len() {
            assert(a.skip(i).len() != b.skip(i).len());
            assert(text_lt_from(a, b, i) || text_lt_from(b, a, i));
        } else {
            assert(a[i] != b[i]);
            assert(text_lt_from(a, b, i) || text_lt_from(b, a, i));
            if a.skip(i) =~= b.skip(i) {
                assert(a.skip(i)[0] == a[i] && b.skip(i)[0] == b[i]);
                assert(false);
            }
        }
    }
}

/// The text order is transitive.
pub proof fn lemma_text_lt_from_trans(a: Seq<char>, b: Seq<char>, c: Seq<char>, i: int)
    requires
        0 <= i,
        text_lt_from(a, b, i),
        text_lt_from(b, c, i),
    ensures
        text_lt_from(a, c, i),
    decreases b.len() - i,
{
    if i < a.len() && i < b.len() && i < c.len() && a[i] == b[i] && b[i] == c[i] {
        lemma_text_lt_from_trans(a, b, c, i + 1);
    }
}

/// Exactly one of equality and the two orders holds for text.
pub proof fn lemma_text_lt_trichotomy(a: Seq<char>, b: Seq<char>)
    ensures
        !(text_lt(a, b) && text_lt(b, a)),
        !text_lt(a, b) && !text_lt(b, a) <==> a == b,
{
    lemma_text_lt_from_trichotomy(a, b, 0);
    assert(a.skip(0) =~= a);
    assert(b.skip(0) =~= b);
    if a.skip(0) =~= b.skip(0) {
        assert(a =~= b);
    }
    if a == b {
        assert(a.skip(0) =~= b.skip(0));
    }
}

/// The text order is transitive.
pub proof fn lemma_text_lt_trans(a: Seq<char>, b: Seq<char>, c: Seq<char>)
    requires
        text_lt(a, b),
        text_lt(b, c),
    ensures
        text_lt(a, c),
{
    lemma_text_lt_from_trans(a, b, c, 0);
}

/// Exactly one of equality and the two orders holds for colors.
pub proof fn lemma_color_lt_trichotomy(a: Color, b: Color)
    ensures
        !(color_lt(a, b) && color_lt(b, a)),
        !color_lt(a, b) && !color_lt(b, a) <==> a == b,
{
}

/// The color order is transitive.
pub proof fn lemma_color_lt_trans(a: Color, b: Color, c: Color)
    requires
        color_lt(a, b),
        color_lt(b, c),
    ensures
        color_lt(a, c),
{
}

/// Lexicographic order on text by code point.
pub fn text_lt_exec(a: &Vec<char>, b: &Vec<char>) -> (r: bool)
    ensures
        r == text_lt(a@, b@),
{
    let mut i: usize = 0;
    loop
        invariant
            0 <= i <= a@.len(),
            0 <= i <= b@.len(),
            text_lt_from(a@, b@, i as int) == text_lt(a@, b@),
        decreases b@.len() - i,
    {
        if i >= b.len() {
            return false;
        }
        if i >= a.len() {
            return true;
        }
        if a[i] != b[i] {
            return a[i] < b[i];
        }
        i += 1;
    }
}

/// Whether two texts are equal.
pub fn text_eq_exec(a: &Vec<char>, b: &Vec<char>) -> (r: bool)
    ensures
        r == (a@ == b@),
{
    if a.len() != b.len() {
        proof {
            assert(a@.len() != b@.len());
        }
        return false;
    }
    let mut i: usize = 0;
    while i < a.len()
        invariant
            0 <= i <= a@.len(),
            a@.len() == b@.len(),
            forall|j: int| 0 <= j < i ==> a@[j] == b@[j],
        decreases a@.len() - i,
    {
        if a[i] != b[i] {
            return false;
        }
        i += 1;
    }
    proof {
        assert(a@ =~= b@);
    }
    true
}

/// Rank of a color's variant.
fn color_rank_exec(c: &Color) -> (r: u8)
    ensures
        r as int == color_rank(*c),
{
    match c {
        Color::Black => 0,
        Color::Red => 1,
        Color::Green => 2,
        Color::Yellow => 3,
        Color::Blue => 4,
        Color::Magenta => 5,
        Color::Cyan => 6,
        Color::White => 7,
        Color::BrightBlack => 8,
        Color::BrightRed => 9,
        Color::BrightGreen => 10,
        Color::BrightYellow => 11,
        Color::BrightBlue => 12,
        Color::BrightMagenta => 13,
        Color::BrightCyan => 14,
        Color::BrightWhite => 15,
        Color::Rgb(_, _, _) => 16,
        Color::Indexed(_) => 17,
        Color::Default => 18,
    }
}

/// Order on colors: variant rank first, then the payload.
pub fn color_lt_exec(a: &Color, b: &Color) -> (r: bool)
    ensures
        r == color_lt(*a, *b),
{
    let ra = color_rank_exec(a);
    let rb = color_rank_exec(b);
    if ra != rb {
        return ra < rb;
    }
    match (a, b) {
        (Color::Rgb(r1, g1, b1), Color::Rgb(r2, g2, b2)) => {
            if r1 != r2 {
                r1 < r2
            } else if g1 != g2 {
                g1 < g2
            } else {
                b1 < b2
            }
        },
        (Color::Indexed(x), Color::Indexed(y)) => x < y,
        _ => false,
    }
}

/// Rank of an intensity.
pub fn intensity_rank_exec(i: &Intensity) -> (r: u8)
    ensures
        r as int == intensity_rank(*i),
{
    match i {
        Intensity::Normal => 0,
        Intensity::Bold => 1,
        Intensity::Faint => 2,
    }
}

} // verus!
