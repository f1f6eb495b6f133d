//! The timeline encoder.
//!
//! Walks the occurrence index and the event timestamps and emits the
//! animated document: a background, an optional window decoration, one
//! reusable template per multi-frame symbol, one sub-viewport per frame
//! laid out side by side, a stepped keyframe rule over the event times,
//! and one style rule per shared color token. The exact sequence of
//! writer operations is specified by [`doc_ops`].

use vstd::prelude::*;

use crate::color::rgb_spec;
use crate::colormap::{attr_name_spec, color_index, color_map_spec, ColorEntryV, ColorTable};
use crate::numfmt::{dec, dec_str, hex_rgb, hundredths, hundredths_str, point_trim, point_trim_str, tenths, tenths_str};
use crate::asciicast::{Event, EventType, EventV};
use crate::error::ConvertError;
use crate::extract::{frame_symbols, tbl_record_all};
use crate::frame::{apply_spec, CEvent, Frame, FrameV};
use crate::symbol::{tbl_wf, EntryV, Symbol, SymbolTable, SymbolV};
use crate::xml::{
    end_element, set_preserve_whitespaces, start_element, write_attribute, write_text,
    writer_depth, writer_indent, writer_ops, writer_state, XmlOp,
};

verus! {

/// What the document is rendered from: the grid size in cells, whether
/// window decorations are drawn, and the event times in microseconds.
pub ghost struct DocParams {
    pub width: int,
    pub height: int,
    pub window: bool,
    pub times: Seq<u64>,
}

/// Document width in user units: ten per column, plus padding for the
/// window decoration.
pub open spec fn svg_width(p: DocParams) -> int {
    p.width * 10 + if p.window {
        40int
    } else {
        0int
    }
}

/// Document height in hundredths of a user unit: 21.71 per row, plus
/// padding for the window decoration.
pub open spec fn svg_height_c(p: DocParams) -> int {
    p.height * 2171 + if p.window {
        6000int
    } else {
        0int
    }
}

/// The height attribute value: hundredths with two decimals.
pub open spec fn height_str(p: DocParams) -> Seq<char> {
    hundredths_str(svg_height_c(p))
}

/// The width attribute value: a plain integer.
pub open spec fn width_str(p: DocParams) -> Seq<char> {
    dec_str(svg_width(p))
}

/// A coordinate-box dimension: the value divided by ten, at most three
/// decimals, trailing zeros trimmed.
pub open spec fn viewbox_value(p: DocParams) -> Seq<char> {
    "0 0 "@ + point_trim_str(svg_width(p) / 10, (svg_width(p) % 10) * 100, 1000) + " "@
        + point_trim_str(svg_height_c(p) / 1000, svg_height_c(p) % 1000, 1000)
}

/// The vertical text position of a row: 2.171 per row plus the font size,
/// rounded to two decimals.
pub open spec fn y_value(y: int) -> Seq<char> {
    hundredths_str((y * 2171000 + 1666667 + 5000) / 10000)
}

/// The animation's length in microseconds: from the first event to the
/// last.
pub open spec fn duration_us(p: DocParams) -> int {
    p.times.last() - p.times.first()
}

/// The duration in seconds, trailing zeros trimmed.
pub open spec fn duration_value(p: DocParams) -> Seq<char> {
    point_trim_str(duration_us(p) / 1000000, duration_us(p) % 1000000, 1000000)
}

/// The animation style declaration: duration, infinite iteration, the
/// keyframe rule's name, and a hold-until-next-step timing function.
pub open spec fn anim_style_value(p: DocParams) -> Seq<char> {
    "animation-duration:"@ + duration_value(p)
        + "s;animation-iteration-count:infinite;animation-name:l;animation-timing-function:steps(1,end)"@
}

/// An event's keyframe position in tenths of a percent, rounded half up:
/// its time offset over the whole duration. A session whose events all
/// share one timestamp has no meaningful offsets; every step is at the
/// start.
pub open spec fn pct_tenths(p: DocParams, i: int) -> int {
    if duration_us(p) == 0 {
        0
    } else {
        ((p.times[i] - p.times[0]) * 1000 + duration_us(p) / 2) / duration_us(p)
    }
}

/// One keyframe rule: the percentage and the horizontal translation that
/// brings frame `i` into view.
pub open spec fn keyframe_text(p: DocParams, i: int) -> Seq<char> {
    tenths_str(pct_tenths(p, i)) + "%{transform:translateX(-"@ + dec_str(i * svg_width(p))
        + "px)}"@
}

/// One style rule for a shared class token: the token mapped to its RGB
/// fill.
pub open spec fn class_rule_text(e: ColorEntryV) -> Seq<char> {
    "."@ + e.value + "{fill:#"@ + hex_rgb(e.r, e.g, e.b) + "}"@
}

/// The operations of one positioned, colored text element: its color
/// reference, its position (a zero column is omitted), and its escaped
/// text with whitespace preserved.
pub open spec fn text_element_ops(colors: Seq<ColorEntryV>, s: SymbolV) -> Seq<XmlOp> {
    let (r, g, b) = rgb_spec(s.fg);
    let e = colors[color_index(colors, r, g, b)];
    seq![
        XmlOp::StartElement("text"@),
        XmlOp::Attribute(attr_name_spec(e.attribute), e.value),
    ] + (if s.x != 0 {
        seq![XmlOp::Attribute("x"@, dec_str(s.x))]
    } else {
        Seq::<XmlOp>::empty()
    }) + seq![
        XmlOp::Attribute("y"@, y_value(s.y)),
        XmlOp::PreserveWhitespaces(true),
        XmlOp::Text(crate::symbol::escape_text(s.text)),
        XmlOp::PreserveWhitespaces(false),
        XmlOp::EndElement,
    ]
}

/// The template definitions for the first `n` entries: one reusable
/// template per symbol that occurs in two or more frames, addressed by
/// its position in the occurrence index.
pub open spec fn defs_ops_upto(colors: Seq<ColorEntryV>, t: Seq<EntryV>, n: int) -> Seq<XmlOp>
    decreases n,
{
    if n <= 0 {
        Seq::empty()
    } else {
        defs_ops_upto(colors, t, n - 1) + (if t[n - 1].frames.len() > 1 {
            seq![XmlOp::StartElement("symbol"@), XmlOp::Attribute("id"@, dec_str(n - 1))]
                + text_element_ops(colors, t[n - 1].symbol) + seq![XmlOp::EndElement]
        } else {
            Seq::<XmlOp>::empty()
        })
    }
}

/// The contents of one frame's sub-viewport from the first `n` entries:
/// for every symbol occurring in this frame, an inline text element when
/// it occurs in exactly one frame, otherwise a reference to its template.
pub open spec fn frame_uses_upto(
    colors: Seq<ColorEntryV>,
    t: Seq<EntryV>,
    frame: int,
    n: int,
) -> Seq<XmlOp>
    decreases n,
{
    if n <= 0 {
        Seq::empty()
    } else {
        frame_uses_upto(colors, t, frame, n - 1) + (if t[n - 1].frames.contains(frame as usize) {
            if t[n - 1].frames.len() == 1 {
                text_element_ops(colors, t[n - 1].symbol)
            } else {
                seq![
                    XmlOp::StartElement("use"@),
                    XmlOp::Attribute("xlink:href"@, "#"@ + dec_str(n - 1)),
                    XmlOp::EndElement,
                ]
            }
        } else {
            Seq::<XmlOp>::empty()
        })
    }
}

/// One frame's sub-viewport, placed at its horizontal offset.
pub open spec fn frame_ops(
    p: DocParams,
    colors: Seq<ColorEntryV>,
    t: Seq<EntryV>,
    frame: int,
) -> Seq<XmlOp> {
    seq![XmlOp::StartElement("svg"@)] + (if frame != 0 {
        seq![XmlOp::Attribute("x"@, dec_str(frame * svg_width(p)))]
    } else {
        Seq::<XmlOp>::empty()
    }) + frame_uses_upto(colors, t, frame, t.len() as int) + seq![XmlOp::EndElement]
}

/// The first `n` frame sub-viewports, side by side.
pub open spec fn frames_ops_upto(
    p: DocParams,
    colors: Seq<ColorEntryV>,
    t: Seq<EntryV>,
    n: int,
) -> Seq<XmlOp>
    decreases n,
{
    if n <= 0 {
        Seq::empty()
    } else {
        frames_ops_upto(p, colors, t, n - 1) + frame_ops(p, colors, t, n - 1)
    }
}

/// The keyframe rules of events `1 .. n`.
pub open spec fn keyframes_ops_upto(p: DocParams, n: int) -> Seq<XmlOp>
    decreases n,
{
    if n <= 1 {
        Seq::empty()
    } else {
        keyframes_ops_upto(p, n - 1) + seq![XmlOp::Text(keyframe_text(p, n - 1))]
    }
}

/// The style rules of the shared class tokens among the first `n` colors,
/// in table order.
pub open spec fn class_rules_upto(colors: Seq<ColorEntryV>, n: int) -> Seq<XmlOp>
    decreases n,
{
    if n <= 0 {
        Seq::empty()
    } else {
        class_rules_upto(colors, n - 1) + (if colors[n - 1].attribute is Class {
            seq![XmlOp::Text(class_rule_text(colors[n - 1]))]
        } else {
            Seq::<XmlOp>::empty()
        })
    }
}

/// The window decoration: three control indicators on a small canvas.
pub open spec fn window_ops() -> Seq<XmlOp> {
    seq![
        XmlOp::StartElement("svg"@),
        XmlOp::Attribute("y"@, "0%"@),
        XmlOp::Attribute("x"@, "0%"@),
        XmlOp::StartElement("circle"@),
        XmlOp::Attribute("cx"@, "20"@),
        XmlOp::Attribute("cy"@, "20"@),
        XmlOp::Attribute("r"@, "6"@),
        XmlOp::Attribute("fill"@, "#ff5f58"@),
        XmlOp::EndElement,
        XmlOp::StartElement("circle"@),
        XmlOp::Attribute("cx"@, "40"@),
        XmlOp::Attribute("cy"@, "20"@),
        XmlOp::Attribute("r"@, "6"@),
        XmlOp::Attribute("fill"@, "#ffbd2e"@),
        XmlOp::EndElement,
        XmlOp::StartElement("circle"@),
        XmlOp::Attribute("cx"@, "60"@),
        XmlOp::Attribute("cy"@, "20"@),
        XmlOp::Attribute("r"@, "6"@),
        XmlOp::Attribute("fill"@, "#18c132"@),
        XmlOp::EndElement,
        XmlOp::EndElement,
    ]
}

/// The outer frame and background up to the window decoration.
pub open spec fn prelude_ops(p: DocParams) -> Seq<XmlOp> {
    seq![
        XmlOp::StartElement("svg"@),
        XmlOp::Attribute("height"@, height_str(p)),
        XmlOp::Attribute("width"@, width_str(p)),
        XmlOp::Attribute("xmlns"@, "http://www.w3.org/2000/svg"@),
        XmlOp::StartElement("rect"@),
        XmlOp::Attribute("height"@, height_str(p)),
        XmlOp::Attribute("width"@, width_str(p)),
    ] + (if p.window {
        seq![XmlOp::Attribute("rx"@, "5"@), XmlOp::Attribute("ry"@, "5"@)]
    } else {
        Seq::<XmlOp>::empty()
    }) + seq![XmlOp::Attribute("style"@, "fill: #262626"@), XmlOp::EndElement] + (if p.window {
        window_ops()
    } else {
        Seq::<XmlOp>::empty()
    })
}

/// The inner viewport and its font group, up to the definitions section.
pub open spec fn inner_ops(p: DocParams) -> Seq<XmlOp> {
    seq![
        XmlOp::StartElement("svg"@),
        XmlOp::Attribute("height"@, height_str(p)),
        XmlOp::Attribute("width"@, width_str(p)),
        XmlOp::Attribute("xmlns"@, "http://www.w3.org/2000/svg"@),
        XmlOp::Attribute("xmlns:xlink"@, "http://www.w3.org/1999/xlink"@),
    ] + (if p.window {
        seq![XmlOp::Attribute("x"@, "15"@), XmlOp::Attribute("y"@, "50"@)]
    } else {
        Seq::<XmlOp>::empty()
    }) + seq![
        XmlOp::Attribute("viewBox"@, viewbox_value(p)),
        XmlOp::StartElement("g"@),
        XmlOp::Attribute("font-family"@, "Courier New"@),
        XmlOp::Attribute("font-size"@, "1.67"@),
    ]
}

/// Every operation of the document, in emission order.
pub open spec fn doc_ops(p: DocParams, t: Seq<EntryV>, colors: Seq<ColorEntryV>) -> Seq<XmlOp> {
    prelude_ops(p) + inner_ops(p) + seq![XmlOp::StartElement("defs"@)] + defs_ops_upto(
        colors,
        t,
        t.len() as int,
    ) + seq![
        XmlOp::EndElement,
        XmlOp::StartElement("g"@),
        XmlOp::Attribute("style"@, anim_style_value(p)),
        XmlOp::StartElement("svg"@),
        XmlOp::Attribute("width"@, dec_str(p.times.len() * svg_width(p))),
    ] + frames_ops_upto(p, colors, t, p.times.len() as int) + seq![
        XmlOp::EndElement,
        XmlOp::EndElement,
        XmlOp::EndElement,
        XmlOp::StartElement("style"@),
        XmlOp::Text("@keyframes l{"@),
    ] + keyframes_ops_upto(p, p.times.len() as int) + seq![XmlOp::Text("}"@)] + class_rules_upto(
        colors,
        colors.len() as int,
    ) + seq![XmlOp::EndElement]
}


/// Open an element, tracking the writer's state.
fn xw_start(w: &mut xmlwriter::XmlWriter, name: &str)
    ensures
        writer_ops(*final(w)) == writer_ops(*old(w)).push(XmlOp::StartElement(name@)),
        writer_indent(*final(w)) == writer_indent(*old(w)),
        writer_state(writer_ops(*final(w))) is Attributes,
        writer_depth(writer_ops(*final(w))) == writer_depth(writer_ops(*old(w))) + 1,
{
    start_element(w, name);
    proof {
        assert(writer_ops(*w).drop_last() =~= writer_ops(*old(w)));
    }
}

/// Close the innermost element, tracking the writer's state.
fn xw_end(w: &mut xmlwriter::XmlWriter)
    ensures
        writer_ops(*final(w)) == writer_ops(*old(w)).push(XmlOp::EndElement),
        writer_indent(*final(w)) == writer_indent(*old(w)),
        writer_state(writer_ops(*final(w))) is Document,
        writer_depth(writer_ops(*final(w))) == (if writer_depth(writer_ops(*old(w))) > 0 {
            writer_depth(writer_ops(*old(w))) - 1
        } else {
            0
        }),
{
    end_element(w);
    proof {
        assert(writer_ops(*w).drop_last() =~= writer_ops(*old(w)));
    }
}

/// Write an attribute from a string slice, tracking the writer's state.
fn xw_attr(w: &mut xmlwriter::XmlWriter, name: &str, value: &str)
    requires
        writer_state(writer_ops(*old(w))) is Attributes,
    ensures
        writer_ops(*final(w)) == writer_ops(*old(w)).push(XmlOp::Attribute(name@, value@)),
        writer_indent(*final(w)) == writer_indent(*old(w)),
        writer_state(writer_ops(*final(w))) is Attributes,
        writer_depth(writer_ops(*final(w))) == writer_depth(writer_ops(*old(w))),
{
    write_attribute(w, name, value);
    proof {
        assert(writer_ops(*w).drop_last() =~= writer_ops(*old(w)));
    }
}

/// Write a text node, tracking the writer's state.
fn xw_text(w: &mut xmlwriter::XmlWriter, text: &str)
    requires
        !(writer_state(writer_ops(*old(w))) is Empty),
        writer_depth(writer_ops(*old(w))) > 0,
    ensures
        writer_ops(*final(w)) == writer_ops(*old(w)).push(XmlOp::Text(text@)),
        writer_indent(*final(w)) == writer_indent(*old(w)),
        writer_state(writer_ops(*final(w))) is Document,
        writer_depth(writer_ops(*final(w))) == writer_depth(writer_ops(*old(w))),
{
    write_text(w, text);
    proof {
        assert(writer_ops(*w).drop_last() =~= writer_ops(*old(w)));
    }
}

/// Toggle whitespace preservation, tracking the writer's state.
fn xw_preserve(w: &mut xmlwriter::XmlWriter, preserve: bool)
    ensures
        writer_ops(*final(w)) == writer_ops(*old(w)).push(XmlOp::PreserveWhitespaces(preserve)),
        writer_indent(*final(w)) == writer_indent(*old(w)),
        writer_state(writer_ops(*final(w))) == writer_state(writer_ops(*old(w))),
        writer_depth(writer_ops(*final(w))) == writer_depth(writer_ops(*old(w))),
{
    set_preserve_whitespaces(w, preserve);
    proof {
        assert(writer_ops(*w).drop_last() =~= writer_ops(*old(w)));
    }
}

/// The writer's depth never goes negative.
proof fn lemma_depth_nonneg(ops: Seq<XmlOp>)
    ensures
        writer_depth(ops) >= 0,
    decreases ops.len(),
{
    if ops.len() > 0 {
        lemma_depth_nonneg(ops.drop_last());
    }
}

/// Write an attribute whose value is a character vector.
fn attr_chars(w: &mut xmlwriter::XmlWriter, name: &str, value: &Vec<char>)
    requires
        writer_state(writer_ops(*old(w))) is Attributes,
    ensures
        writer_ops(*final(w)) == writer_ops(*old(w)).push(XmlOp::Attribute(name@, value@)),
        writer_indent(*final(w)) == writer_indent(*old(w)),
        writer_state(writer_ops(*final(w))) is Attributes,
        writer_depth(writer_ops(*final(w))) == writer_depth(writer_ops(*old(w))),
{
    let s = crate::xml::chars_to_string(value);
    xw_attr(w, name, s.as_str());
}

/// Write a text node from a string.
fn text_str(w: &mut xmlwriter::XmlWriter, text: &String)
    requires
        !(writer_state(writer_ops(*old(w))) is Empty),
        writer_depth(writer_ops(*old(w))) > 0,
    ensures
        writer_ops(*final(w)) == writer_ops(*old(w)).push(XmlOp::Text(text@)),
        writer_indent(*final(w)) == writer_indent(*old(w)),
        writer_state(writer_ops(*final(w))) is Document,
        writer_depth(writer_ops(*final(w))) == writer_depth(writer_ops(*old(w))),
{
    xw_text(w, text.as_str());
}

/// A product of bounded factors is bounded.
proof fn lemma_mul_le(a: int, b: int, ca: int, cb: int)
    requires
        0 <= a <= ca,
        0 <= b <= cb,
    ensures
        a * b <= ca * cb,
{
    assert(a * b <= ca * cb) by (nonlinear_arith)
        requires
            0 <= a <= ca,
            0 <= b <= cb,
    ;
}

/// Emit one positioned, colored text element.
#[verifier::rlimit(100)]
fn emit_text_element(w: &mut xmlwriter::XmlWriter, colors: &ColorTable, s: &Symbol)
    requires
        ({
            let (r, g, b) = rgb_spec(s@.fg);
            color_index(colors@, r, g, b) >= 0
        }),
    ensures
        writer_ops(*final(w)) == writer_ops(*old(w)) + text_element_ops(colors@, s@),
        writer_indent(*final(w)) == writer_indent(*old(w)),
        writer_state(writer_ops(*final(w))) is Document,
        writer_depth(writer_ops(*final(w))) == writer_depth(writer_ops(*old(w))),
{
    proof {
        lemma_depth_nonneg(writer_ops(*old(w)));
    }
    let (r, g, b) = s.fg.rgb();
    match colors.find(r, g, b) {
        None => {
            proof {
                assert(false);
            }
        },
        Some(idx) => {
            let ghost base = writer_ops(*old(w));
            xw_start(w, "text");
            let name = colors.entries[idx].attribute.to_str();
            attr_chars(w, name, &colors.entries[idx].value);
            proof {
                assert(colors@[idx as int] == colors@[color_index(
                    colors@,
                    rgb_spec(s@.fg).0,
                    rgb_spec(s@.fg).1,
                    rgb_spec(s@.fg).2,
                )]);
            }
            let ghost head = seq![
                XmlOp::StartElement("text"@),
                XmlOp::Attribute(
                    attr_name_spec(colors@[idx as int].attribute),
                    colors@[idx as int].value,
                ),
            ];
            proof {
                assert(writer_ops(*w) =~= base + head);
            }
            if s.x != 0 {
                let xv = dec(s.x as u128);
                attr_chars(w, "x", &xv);
            }
            let ghost xpart = if s@.x != 0 {
                seq![XmlOp::Attribute("x"@, dec_str(s@.x))]
            } else {
                Seq::<XmlOp>::empty()
            };
            proof {
                assert(writer_ops(*w) =~= base + head + xpart);
            }
            let ghost mid = writer_ops(*w);
            let yv = hundredths(((s.y as u128) * 2171000 + 1666667 + 5000) / 10000);
            attr_chars(w, "y", &yv);
            xw_preserve(w, true);
            let esc = s.escaped_chars();
            let esc_s = crate::xml::chars_to_string(&esc);
            xw_text(w, esc_s.as_str());
            xw_preserve(w, false);
            xw_end(w);
            let ghost tail = seq![
                XmlOp::Attribute("y"@, y_value(s@.y)),
                XmlOp::PreserveWhitespaces(true),
                XmlOp::Text(crate::symbol::escape_text(s@.text)),
                XmlOp::PreserveWhitespaces(false),
                XmlOp::EndElement,
            ];
            proof {
                assert(writer_ops(*w) =~= mid + tail);
                assert(text_element_ops(colors@, s@) == head + xpart + tail);
                assert(writer_ops(*w) =~= base + text_element_ops(colors@, s@));
            }
        },
    }
}

/// Emit the outer frame, background, optional window decoration, and the
/// inner viewport with its font group.
fn emit_head(
    w: &mut xmlwriter::XmlWriter,
    hstr: &Vec<char>,
    wstr: &Vec<char>,
    vb: &String,
    window: bool,
    Ghost(p): Ghost<DocParams>,
)
    requires
        writer_ops(*old(w)) == Seq::<XmlOp>::empty(),
        hstr@ == height_str(p),
        wstr@ == width_str(p),
        vb@ == viewbox_value(p),
        window == p.window,
    ensures
        writer_ops(*final(w)) == prelude_ops(p) + inner_ops(p),
        writer_indent(*final(w)) == writer_indent(*old(w)),
        writer_state(writer_ops(*final(w))) is Attributes,
{
    xw_start(w, "svg");
    attr_chars(w, "height", hstr);
    attr_chars(w, "width", wstr);
    xw_attr(w, "xmlns", "http://www.w3.org/2000/svg");
    xw_start(w, "rect");
    attr_chars(w, "height", hstr);
    attr_chars(w, "width", wstr);
    if window {
        xw_attr(w, "rx", "5");
        xw_attr(w, "ry", "5");
    }
    xw_attr(w, "style", "fill: #262626");
    xw_end(w);
    if window {
        xw_start(w, "svg");
        xw_attr(w, "y", "0%");
        xw_attr(w, "x", "0%");
        xw_start(w, "circle");
        xw_attr(w, "cx", "20");
        xw_attr(w, "cy", "20");
        xw_attr(w, "r", "6");
        xw_attr(w, "fill", "#ff5f58");
        xw_end(w);
        xw_start(w, "circle");
        xw_attr(w, "cx", "40");
        xw_attr(w, "cy", "20");
        xw_attr(w, "r", "6");
        xw_attr(w, "fill", "#ffbd2e");
        xw_end(w);
        xw_start(w, "circle");
        xw_attr(w, "cx", "60");
        xw_attr(w, "cy", "20");
        xw_attr(w, "r", "6");
        xw_attr(w, "fill", "#18c132");
        xw_end(w);
        xw_end(w);
    }
    proof {
        assert(writer_ops(*w) =~= prelude_ops(p));
    }
    let ghost after_prelude = writer_ops(*w);
    xw_start(w, "svg");
    attr_chars(w, "height", hstr);
    attr_chars(w, "width", wstr);
    xw_attr(w, "xmlns", "http://www.w3.org/2000/svg");
    xw_attr(w, "xmlns:xlink", "http://www.w3.org/1999/xlink");
    if window {
        xw_attr(w, "x", "15");
        xw_attr(w, "y", "50");
    }
    xw_attr(w, "viewBox", vb.as_str());
    xw_start(w, "g");
    xw_attr(w, "font-family", "Courier New");
    xw_attr(w, "font-size", "1.67");
    proof {
        assert(writer_ops(*w) =~= after_prelude + inner_ops(p));
    }
}

/// Emit the definitions section: one template per multi-frame symbol.
fn emit_defs(w: &mut xmlwriter::XmlWriter, colors: &ColorTable, table: &SymbolTable)
    requires
        forall|k: int|
            0 <= k < table@.len() ==> ({
                let (r, g, b) = rgb_spec((#[trigger] table@[k]).symbol.fg);
                color_index(colors@, r, g, b) >= 0
            }),
    ensures
        writer_ops(*final(w)) == writer_ops(*old(w)) + seq![XmlOp::StartElement("defs"@)]
            + defs_ops_upto(colors@, table@, table@.len() as int) + seq![XmlOp::EndElement],
        writer_indent(*final(w)) == writer_indent(*old(w)),
        writer_state(writer_ops(*final(w))) is Document,
{
    xw_start(w, "defs");
    let ghost base = writer_ops(*old(w)).push(XmlOp::StartElement("defs"@));
    let mut i: usize = 0;
    proof {
        assert(base + defs_ops_upto(colors@, table@, 0) =~= base);
    }
    while i < table.entries.len()
        invariant
            0 <= i <= table@.len(),
            table@.len() == table.entries@.len(),
            forall|k: int|
                0 <= k < table@.len() ==> ({
                    let (r, g, b) = rgb_spec((#[trigger] table@[k]).symbol.fg);
                    color_index(colors@, r, g, b) >= 0
                }),
            writer_ops(*w) == base + defs_ops_upto(colors@, table@, i as int),
            writer_indent(*w) == writer_indent(*old(w)),
        decreases table@.len() - i,
    {
        let ghost pre = writer_ops(*w);
        if table.entries[i].frames.len() > 1 {
            xw_start(w, "symbol");
            let idv = dec(i as u128);
            attr_chars(w, "id", &idv);
            proof {
                assert(table@[i as int] == table.entries@[i as int]@);
            }
            emit_text_element(w, colors, &table.entries[i].symbol);
            xw_end(w);
            proof {
                assert(writer_ops(*w) =~= pre + (seq![
                    XmlOp::StartElement("symbol"@),
                    XmlOp::Attribute("id"@, dec_str(i as int)),
                ] + text_element_ops(colors@, table@[i as int].symbol) + seq![XmlOp::EndElement]));
            }
        } else {
            proof {
                assert(table@[i as int] == table.entries@[i as int]@);
                assert(table@[i as int].frames.len() <= 1);
            }
        }
        i += 1;
        proof {
            assert(writer_ops(*w) =~= base + defs_ops_upto(colors@, table@, i as int));
        }
    }
    xw_end(w);
}

/// Whether a frame index is among a symbol's occurrences.
fn contains_frame(frames: &Vec<usize>, f: usize) -> (r: bool)
    ensures
        r == frames@.contains(f),
{
    let mut i: usize = 0;
    while i < frames.len()
        invariant
            0 <= i <= frames@.len(),
            forall|j: int| 0 <= j < i ==> frames@[j] != f,
        decreases frames@.len() - i,
    {
        if frames[i] == f {
            return true;
        }
        i += 1;
    }
    false
}

/// Emit the frame strip: one sub-viewport per frame, side by side.
fn emit_frames(
    w: &mut xmlwriter::XmlWriter,
    colors: &ColorTable,
    table: &SymbolTable,
    n: usize,
    sw: u128,
    Ghost(p): Ghost<DocParams>,
)
    requires
        forall|k: int|
            0 <= k < table@.len() ==> ({
                let (r, g, b) = rgb_spec((#[trigger] table@[k]).symbol.fg);
                color_index(colors@, r, g, b) >= 0
            }),
        sw == svg_width(p),
        sw <= 42949673010,
        n == p.times.len(),
    ensures
        writer_ops(*final(w)) == writer_ops(*old(w)) + frames_ops_upto(
            p,
            colors@,
            table@,
            n as int,
        ),
        writer_indent(*final(w)) == writer_indent(*old(w)),
{
    let mut frame: usize = 0;
    proof {
        assert(writer_ops(*w) + frames_ops_upto(p, colors@, table@, 0) =~= writer_ops(*w));
    }
    while frame < n
        invariant
            0 <= frame <= n,
            sw == svg_width(p),
            sw <= 42949673010,
            table@.len() == table.entries@.len(),
            forall|k: int|
                0 <= k < table@.len() ==> ({
                    let (r, g, b) = rgb_spec((#[trigger] table@[k]).symbol.fg);
                    color_index(colors@, r, g, b) >= 0
                }),
            writer_ops(*w) == writer_ops(*old(w)) + frames_ops_upto(
                p,
                colors@,
                table@,
                frame as int,
            ),
            writer_indent(*w) == writer_indent(*old(w)),
        decreases n - frame,
    {
        let ghost pre = writer_ops(*w);
        xw_start(w, "svg");
        if frame != 0 {
            proof {
                lemma_mul_le(frame as int, sw as int, 0xFFFF_FFFF_FFFF_FFFF, 42949673010);
            }
            let xv = dec((frame as u128) * sw);
            attr_chars(w, "x", &xv);
        }
        let ghost head = writer_ops(*w);
        proof {
            assert(head =~= pre + (seq![XmlOp::StartElement("svg"@)] + (if frame != 0 {
                seq![XmlOp::Attribute("x"@, dec_str(frame as int * svg_width(p)))]
            } else {
                Seq::<XmlOp>::empty()
            })));
            assert(head + frame_uses_upto(colors@, table@, frame as int, 0) =~= head);
        }
        let mut k: usize = 0;
        while k < table.entries.len()
            invariant
                0 <= k <= table@.len(),
                table@.len() == table.entries@.len(),
                forall|j: int|
                    0 <= j < table@.len() ==> ({
                        let (r, g, b) = rgb_spec((#[trigger] table@[j]).symbol.fg);
                        color_index(colors@, r, g, b) >= 0
                    }),
                writer_ops(*w) == head + frame_uses_upto(colors@, table@, frame as int, k as int),
                writer_indent(*w) == writer_indent(*old(w)),
            decreases table@.len() - k,
        {
            let ghost pre2 = writer_ops(*w);
            proof {
                assert(table@[k as int] == table.entries@[k as int]@);
            }
            if contains_frame(&table.entries[k].frames, frame) {
                if table.entries[k].frames.len() == 1 {
                    emit_text_element(w, colors, &table.entries[k].symbol);
                } else {
                    xw_start(w, "use");
                    let href = crate::xml::chars_to_string(&dec(k as u128));
                    let mut hv = String::from_str("#");
                    hv.append(href.as_str());
                    xw_attr(w, "xlink:href", hv.as_str());
                    xw_end(w);
                    proof {
                        assert(hv@ =~= "#"@ + dec_str(k as int));
                        assert(writer_ops(*w) =~= pre2 + seq![
                            XmlOp::StartElement("use"@),
                            XmlOp::Attribute("xlink:href"@, "#"@ + dec_str(k as int)),
                            XmlOp::EndElement,
                        ]);
                    }
                }
            }
            k += 1;
            proof {
                assert(writer_ops(*w) =~= head + frame_uses_upto(
                    colors@,
                    table@,
                    frame as int,
                    k as int,
                ));
            }
        }
        xw_end(w);
        frame += 1;
        proof {
            assert(writer_ops(*w) =~= writer_ops(*old(w)) + frames_ops_upto(
                p,
                colors@,
                table@,
                frame as int,
            ));
        }
    }
}

/// Emit the style block: the keyframe rule stepping across all frame
/// offsets, then one rule per shared class token.
fn emit_style(
    w: &mut xmlwriter::XmlWriter,
    colors: &ColorTable,
    times: &Vec<u64>,
    sw: u128,
    Ghost(p): Ghost<DocParams>,
)
    requires
        times@ == p.times,
        sw == svg_width(p),
        sw <= 42949673010,
        times@.len() >= 2,
        forall|i: int| 0 <= i < times@.len() ==> times@[0] <= #[trigger] times@[i],
        times@[0] <= times@[times@.len() - 1],
    ensures
        writer_ops(*final(w)) == writer_ops(*old(w)) + seq![
            XmlOp::StartElement("style"@),
            XmlOp::Text("@keyframes l{"@),
        ] + keyframes_ops_upto(p, p.times.len() as int) + seq![XmlOp::Text("}"@)]
            + class_rules_upto(colors@, colors@.len() as int) + seq![XmlOp::EndElement],
        writer_indent(*final(w)) == writer_indent(*old(w)),
{
    proof {
        lemma_depth_nonneg(writer_ops(*old(w)));
    }
    xw_start(w, "style");
    xw_text(w, "@keyframes l{");
    let ghost base = writer_ops(*w);
    let ghost d1 = writer_depth(writer_ops(*w));
    let n = times.len();
    let dur = times[n - 1] - times[0];
    let mut i: usize = 1;
    proof {
        assert(base + keyframes_ops_upto(p, 1) =~= base);
        assert(d1 > 0);
    }
    while i < n
        invariant
            1 <= i <= n,
            n == times@.len(),
            2 <= n,
            times@ == p.times,
            sw == svg_width(p),
            sw <= 42949673010,
            dur == duration_us(p),
            forall|j: int| 0 <= j < times@.len() ==> times@[0] <= #[trigger] times@[j],
            writer_ops(*w) == base + keyframes_ops_upto(p, i as int),
            writer_indent(*w) == writer_indent(*old(w)),
            writer_depth(writer_ops(*w)) == d1,
            d1 > 0,
            writer_state(writer_ops(*w)) is Document,
        decreases n - i,
    {
        let pct: u128 = if dur == 0 {
            0
        } else {
            (((times[i] - times[0]) as u128) * 1000 + (dur as u128) / 2) / (dur as u128)
        };
        proof {
            assert(pct == pct_tenths(p, i as int));
        }
        let mut t = crate::xml::chars_to_string(&tenths(pct));
        t.append("%{transform:translateX(-");
        proof {
            lemma_mul_le(i as int, sw as int, 0xFFFF_FFFF_FFFF_FFFF, 42949673010);
        }
        let off = crate::xml::chars_to_string(&dec((i as u128) * sw));
        t.append(off.as_str());
        t.append("px)}");
        proof {
            assert(t@ =~= keyframe_text(p, i as int));
        }
        text_str(w, &t);
        i += 1;
        proof {
            assert(writer_ops(*w) =~= base + keyframes_ops_upto(p, i as int));
        }
    }
    xw_text(w, "}");
    let ghost base2 = writer_ops(*w);
    let mut k: usize = 0;
    proof {
        assert(base2 + class_rules_upto(colors@, 0) =~= base2);
    }
    while k < colors.entries.len()
        invariant
            0 <= k <= colors@.len(),
            colors@.len() == colors.entries@.len(),
            writer_ops(*w) == base2 + class_rules_upto(colors@, k as int),
            writer_indent(*w) == writer_indent(*old(w)),
            writer_depth(writer_ops(*w)) == d1,
            d1 > 0,
            writer_state(writer_ops(*w)) is Document,
        decreases colors@.len() - k,
    {
        let ghost pre = writer_ops(*w);
        proof {
            assert(colors@[k as int] == colors.entries@[k as int]@);
        }
        let is_class = match &colors.entries[k].attribute {
            crate::colormap::ColorAttribute::Class => true,
            crate::colormap::ColorAttribute::Style => false,
        };
        if is_class {
            let mut t = String::from_str(".");
            let val = crate::xml::chars_to_string(&colors.entries[k].value);
            t.append(val.as_str());
            t.append("{fill:#");
            let mut hx: Vec<char> = Vec::new();
            crate::numfmt::push_hex_rgb(
                &mut hx,
                colors.entries[k].r,
                colors.entries[k].g,
                colors.entries[k].b,
            );
            let hxs = crate::xml::chars_to_string(&hx);
            t.append(hxs.as_str());
            t.append("}");
            proof {
                assert(hx@ =~= hex_rgb(colors@[k as int].r, colors@[k as int].g, colors@[
                    k as int].b));
                assert(t@ =~= class_rule_text(colors@[k as int]));
            }
            text_str(w, &t);
        }
        k += 1;
        proof {
            assert(writer_ops(*w) =~= base2 + class_rules_upto(colors@, k as int));
        }
    }
    xw_end(w);
}

/// Applying an event's control elements from position `j` onward: the
/// first unsupported effect aborts.
pub open spec fn apply_tokens(v: FrameV, toks: Seq<CEvent>, j: int) -> Result<FrameV, ConvertError>
    decreases toks.len() - j,
{
    if j < 0 || j >= toks.len() {
        Ok(v)
    } else {
        match apply_spec(v, toks[j]) {
            Ok(v2) => apply_tokens(v2, toks, j + 1),
            Err(e) => Err(e),
        }
    }
}

/// Replaying events from index `i` onward: an output event's control
/// elements drive the grid, an input event leaves it alone, and after
/// every event the frame's runs are recorded under the event's index.
pub open spec fn run_events(
    v: FrameV,
    t: Seq<EntryV>,
    events: Seq<EventV>,
    i: int,
) -> Result<Seq<EntryV>, ConvertError>
    decreases events.len() - i,
{
    if i < 0 || i >= events.len() {
        Ok(t)
    } else {
        let vr = if events[i].etype is Output {
            apply_tokens(v, events[i].data, 0)
        } else {
            Ok(v)
        };
        match vr {
            Ok(v2) => run_events(
                v2,
                tbl_record_all(t, frame_symbols(v2), i as usize),
                events,
                i + 1,
            ),
            Err(e) => Err(e),
        }
    }
}

/// The index of the first event whose timestamp goes backwards, searched
/// from `k` on; -1 when none does.
pub open spec fn first_backwards(events: Seq<EventV>, k: int) -> int
    decreases events.len() - k,
{
    if k < 1 || k >= events.len() {
        -1
    } else if events[k].time_us < events[k - 1].time_us {
        k
    } else {
        first_backwards(events, k + 1)
    }
}

/// The fresh grid a conversion starts from.
pub open spec fn initial_frame(width: int, height: int) -> FrameV {
    FrameV {
        x: 0,
        y: 0,
        x_max: width,
        y_max: height,
        fg: crate::color::Color::Default,
        intensity: crate::color::Intensity::Normal,
        buf: Seq::new((width * height) as nat, |i: int| crate::frame::default_cell()),
    }
}

/// The event times, in order.
pub open spec fn times_of(events: Seq<EventV>) -> Seq<u64> {
    Seq::new(events.len(), |i: int| events[i].time_us)
}

/// What a conversion produces: events with a backwards timestamp or fewer
/// than two events are rejected; an unsupported control effect aborts;
/// otherwise the document is the rendering of exactly the operations of
/// [`doc_ops`] over the replayed occurrence index and its color
/// assignment.
pub open spec fn convert_spec(
    width: int,
    height: int,
    window: bool,
    indent: Option<u8>,
    events: Seq<EventV>,
) -> Result<Seq<char>, ConvertError> {
    let fb = first_backwards(events, 1);
    if fb >= 0 {
        Err(ConvertError::TimeBackwards(fb as usize))
    } else if events.len() < 2 {
        Err(ConvertError::TooFewEvents)
    } else {
        match run_events(initial_frame(width, height), Seq::empty(), events, 0) {
            Err(e) => Err(e),
            Ok(tbl) => {
                let p = DocParams { width, height, window, times: times_of(events) };
                Ok(crate::xml::xml_render(indent, doc_ops(p, tbl, color_map_spec(tbl))))
            },
        }
    }
}

/// The event views of an event vector, elementwise.
proof fn lemma_events_deep_view(events: &Vec<Event>)
    ensures
        events.deep_view().len() == events@.len(),
        forall|j: int|
            0 <= j < events@.len() ==> #[trigger] events.deep_view()[j] == events@[j]@,
{
    assert forall|j: int| 0 <= j < events@.len() implies #[trigger] events.deep_view()[j]
        == events@[j]@ by {
        assert(events.deep_view()[j] == events@[j].deep_view());
    }
}

/// With no timestamp going backwards, times never decrease, so every
/// time is at least the first.
proof fn lemma_times_monotone(events: Seq<EventV>, i: int)
    requires
        first_backwards(events, 1) == -1,
        0 <= i < events.len(),
    ensures
        events[0].time_us <= events[i].time_us,
    decreases i,
{
    if i > 0 {
        lemma_no_backwards_at(events, 1, i);
        lemma_times_monotone(events, i - 1);
    }
}

/// A search that returns -1 found no backwards step at any position.
proof fn lemma_no_backwards_at(events: Seq<EventV>, k: int, i: int)
    requires
        1 <= k <= i < events.len(),
        first_backwards(events, k) == -1,
    ensures
        events[i].time_us >= events[i - 1].time_us,
    decreases i - k,
{
    if k < i {
        lemma_no_backwards_at(events, k + 1, i);
    }
}

/// Convert a recorded session into the animated document. The grid is
/// `width` x `height` cells; `window` adds the window decoration;
/// `indent` selects pretty-printing (a presentation option with no
/// semantic effect). Events must already be decoded; the first invalid
/// input or unsupported control effect aborts with its error and nothing
/// is produced.
#[verifier::rlimit(100)]
pub fn convert(
    width: usize,
    height: usize,
    window: bool,
    indent: Option<u8>,
    events: &Vec<Event>,
) -> (r: Result<String, ConvertError>)
    requires
        1 <= height <= 0xFFFF_FFFF,
        width <= 0xFFFF_FFFF,
        width * height <= usize::MAX,
    ensures
        match r {
            Ok(s) => convert_spec(width as int, height as int, window, indent, events.deep_view())
                == Ok::<Seq<char>, ConvertError>(s@),
            Err(e) => convert_spec(width as int, height as int, window, indent, events.deep_view())
                == Err::<Seq<char>, ConvertError>(e),
        },
{
    proof {
        lemma_events_deep_view(events);
    }
    let ghost evv = events.deep_view();
    let n = events.len();
    let mut k: usize = 1;
    proof {
        if n < 1 {
            assert(first_backwards(evv, 1) == -1);
        }
    }
    while k < n
        invariant
            1 <= k,
            k <= n || k == 1,
            n == evv.len(),
            evv == events.deep_view(),
            evv.len() == events@.len(),
            forall|j: int| 0 <= j < events@.len() ==> #[trigger] evv[j] == events@[j]@,
            first_backwards(evv, 1) == first_backwards(evv, k as int),
        decreases n - k,
    {
        if events[k].time_us < events[k - 1].time_us {
            proof {
                assert(first_backwards(evv, k as int) == k);
            }
            return Err(ConvertError::TimeBackwards(k));
        }
        k += 1;
    }
    proof {
        assert(first_backwards(evv, 1) == -1);
    }
    if n < 2 {
        return Err(ConvertError::TooFewEvents);
    }
    let mut frame = Frame::new(width, height);
    let mut table = SymbolTable::new();
    proof {
        assert(frame@ =~= initial_frame(width as int, height as int));
    }
    let ghost target = run_events(initial_frame(width as int, height as int), Seq::empty(), evv, 0);
    let mut i: usize = 0;
    while i < n
        invariant
            0 <= i <= n,
            n == evv.len(),
            n == events@.len(),
            2 <= n,
            evv == events.deep_view(),
            first_backwards(evv, 1) == -1,
            forall|j: int| 0 <= j < events@.len() ==> #[trigger] evv[j] == events@[j]@,
            frame@.wf(),
            tbl_wf(table@),
            target == run_events(initial_frame(width as int, height as int), Seq::empty(), evv, 0),
            target == run_events(frame@, table@, evv, i as int),
        decreases n - i,
    {
        let is_output = match events[i].etype {
            EventType::Output => true,
            EventType::Input => false,
        };
        if is_output {
            let data = &events[i].data;
            let ghost toks = evv[i as int].data;
            proof {
                assert(toks == events@[i as int].data.deep_view());
                assert forall|j: int| 0 <= j < toks.len() implies #[trigger] toks[j] == events@[
                    i as int].data@[j]@ by {
                    assert(toks[j] == events@[i as int].data@[j].deep_view());
                }
            }
            let mut j: usize = 0;
            while j < data.len()
                invariant
                    0 <= j <= toks.len(),
                    toks.len() == data@.len(),
                    forall|q: int| 0 <= q < toks.len() ==> #[trigger] toks[q] == data@[q]@,
                    frame@.wf(),
                    tbl_wf(table@),
                    0 <= i < evv.len(),
                    evv[i as int].etype is Output,
                    evv[i as int].data == toks,
                    n == evv.len(),
                    2 <= n,
                    evv == events.deep_view(),
                    first_backwards(evv, 1) == -1,
                    target == run_events(
                        initial_frame(width as int, height as int),
                        Seq::empty(),
                        evv,
                        0,
                    ),
                    (match apply_tokens(frame@, toks, j as int) {
                        Ok(v2) => target == run_events(
                            v2,
                            tbl_record_all(table@, frame_symbols(v2), i as usize),
                            evv,
                            i + 1,
                        ),
                        Err(e) => target == Err::<Seq<EntryV>, ConvertError>(e),
                    }),
                decreases data@.len() - j,
            {
                let res = frame.apply(&data[j]);
                match res {
                    Ok(_) => {},
                    Err(e) => {
                        proof {
                            assert(apply_tokens(frame@, toks, j as int) == Err::<
                                FrameV,
                                ConvertError,
                            >(e));
                            assert(target == Err::<Seq<EntryV>, ConvertError>(e));
                            assert(convert_spec(
                                width as int,
                                height as int,
                                window,
                                indent,
                                evv,
                            ) == Err::<Seq<char>, ConvertError>(e));
                        }
                        return Err(e);
                    },
                }
                j += 1;
            }
        }
        frame.insert_symbols(&mut table, i);
        i += 1;
    }
    proof {
        assert(run_events(frame@, table@, evv, n as int) == Ok::<Seq<EntryV>, ConvertError>(
            table@,
        ));
    }
    let colors = crate::colormap::color_map(&table);
    let ghost p = DocParams {
        width: width as int,
        height: height as int,
        window: window,
        times: times_of(evv),
    };
    let mut times: Vec<u64> = Vec::new();
    let mut ti: usize = 0;
    proof {
        assert(times@ =~= times_of(evv).take(0));
    }
    while ti < n
        invariant
            0 <= ti <= n,
            n == evv.len(),
            n == events@.len(),
            forall|j: int| 0 <= j < events@.len() ==> #[trigger] evv[j] == events@[j]@,
            times@ == times_of(evv).take(ti as int),
        decreases n - ti,
    {
        times.push(events[ti].time_us);
        ti += 1;
        proof {
            assert(times@ =~= times_of(evv).take(ti as int));
        }
    }
    proof {
        assert(times@ =~= times_of(evv));
        assert(times@ == p.times);
        assert forall|q: int| 0 <= q < times@.len() implies times@[0] <= #[trigger] times@[q] by {
            lemma_times_monotone(evv, q);
        }
        crate::colormap::lemma_color_round_trip(table@);
    }
    let sw: u128 = (width as u128) * 10 + (if window {
        40
    } else {
        0
    });
    let shc: u128 = (height as u128) * 2171 + (if window {
        6000
    } else {
        0
    });
    let hstr = hundredths(shc);
    let wstr = dec(sw);
    let mut vb = String::from_str("0 0 ");
    let vbw = crate::xml::chars_to_string(&point_trim(sw / 10, (sw % 10) * 100, 1000));
    vb.append(vbw.as_str());
    vb.append(" ");
    let vbh = crate::xml::chars_to_string(&point_trim(shc / 1000, shc % 1000, 1000));
    vb.append(vbh.as_str());
    proof {
        assert(vb@ =~= viewbox_value(p));
    }
    let mut w = crate::xml::new_writer(indent);
    emit_head(&mut w, &hstr, &wstr, &vb, window, Ghost(p));
    emit_defs(&mut w, &colors, &table);
    let ghost after_defs = writer_ops(w);
    xw_start(&mut w, "g");
    let mut anim = String::from_str("animation-duration:");
    let dur = times[n - 1] - times[0];
    let dv = crate::xml::chars_to_string(&point_trim((dur as u128) / 1000000, (dur as u128)
        % 1000000, 1000000));
    anim.append(dv.as_str());
    anim.append(
        "s;animation-iteration-count:infinite;animation-name:l;animation-timing-function:steps(1,end)",
    );
    proof {
        assert(dur == duration_us(p));
        assert(anim@ =~= anim_style_value(p));
    }
    xw_attr(&mut w, "style", anim.as_str());
    xw_start(&mut w, "svg");
    proof {
        lemma_mul_le(n as int, sw as int, 0xFFFF_FFFF_FFFF_FFFF, 42949673010);
    }
    let stripw = dec((n as u128) * sw);
    attr_chars(&mut w, "width", &stripw);
    let ghost mid4 = seq![
        XmlOp::StartElement("g"@),
        XmlOp::Attribute("style"@, anim_style_value(p)),
        XmlOp::StartElement("svg"@),
        XmlOp::Attribute("width"@, dec_str(p.times.len() * svg_width(p))),
    ];
    proof {
        assert(writer_ops(w) =~= after_defs + mid4);
    }
    let ghost before_frames = writer_ops(w);
    emit_frames(&mut w, &colors, &table, n, sw, Ghost(p));
    let ghost after_frames = writer_ops(w);
    xw_end(&mut w);
    xw_end(&mut w);
    xw_end(&mut w);
    proof {
        assert(writer_ops(w) =~= after_frames + seq![
            XmlOp::EndElement,
            XmlOp::EndElement,
            XmlOp::EndElement,
        ]);
    }
    emit_style(&mut w, &colors, &times, sw, Ghost(p));
    proof {
        assert(writer_ops(w) =~= doc_ops(p, table@, colors@));
        assert(colors@ == color_map_spec(table@));
    }
    let out = crate::xml::end_document(w);
    Ok(out)
}

/// How many `svg` elements a record of calls opens.
pub open spec fn svg_starts(ops: Seq<XmlOp>) -> int
    decreases ops.len(),
{
    if ops.len() == 0 {
        0
    } else {
        (if ops[0] == XmlOp::StartElement("svg"@) {
            1int
        } else {
            0int
        }) + svg_starts(ops.drop_first())
    }
}

/// Counting opened `svg` elements is additive.
proof fn lemma_svg_starts_concat(a: Seq<XmlOp>, b: Seq<XmlOp>)
    ensures
        svg_starts(a + b) == svg_starts(a) + svg_starts(b),
    decreases a.len(),
{
    if a.len() == 0 {
        assert(a + b =~= b);
    } else {
        assert((a + b)[0] == a[0]);
        assert((a + b).drop_first() =~= a.drop_first() + b);
        lemma_svg_starts_concat(a.drop_first(), b);
    }
}

/// A record without an opened `svg` element counts zero.
proof fn lemma_svg_starts_zero(ops: Seq<XmlOp>)
    requires
        forall|i: int| 0 <= i < ops.len() ==> #[trigger] ops[i] != XmlOp::StartElement("svg"@),
    ensures
        svg_starts(ops) == 0,
    decreases ops.len(),
{
    if ops.len() > 0 {
        assert forall|i: int| 0 <= i < ops.drop_first().len() implies #[trigger] ops.drop_first()[
            i] != XmlOp::StartElement("svg"@) by {
            assert(ops.drop_first()[i] == ops[i + 1]);
        }
        lemma_svg_starts_zero(ops.drop_first());
    }
}

/// The element names of the document other than `svg` itself.
proof fn lemma_names_not_svg()
    ensures
        "rect"@ != "svg"@,
        "circle"@ != "svg"@,
        "text"@ != "svg"@,
        "symbol"@ != "svg"@,
        "use"@ != "svg"@,
        "g"@ != "svg"@,
        "defs"@ != "svg"@,
        "style"@ != "svg"@,
{
    reveal_strlit("rect");
    reveal_strlit("circle");
    reveal_strlit("text");
    reveal_strlit("symbol");
    reveal_strlit("use");
    reveal_strlit("g");
    reveal_strlit("defs");
    reveal_strlit("style");
    reveal_strlit("svg");
    assert("use"@[0] == 'u' && "svg"@[0] == 's');
    assert("g"@.len() == 1 && "svg"@.len() == 3);
}

/// A text element opens no `svg`.
proof fn lemma_text_element_no_svg(colors: Seq<ColorEntryV>, s: SymbolV)
    ensures
        svg_starts(text_element_ops(colors, s)) == 0,
{
    lemma_names_not_svg();
    lemma_svg_starts_zero(text_element_ops(colors, s));
}

/// The definitions open no `svg`.
proof fn lemma_defs_no_svg(colors: Seq<ColorEntryV>, t: Seq<EntryV>, n: int)
    ensures
        svg_starts(defs_ops_upto(colors, t, n)) == 0,
    decreases n,
{
    if n <= 0 {
        assert(svg_starts(Seq::<XmlOp>::empty()) == 0);
    } else {
        lemma_defs_no_svg(colors, t, n - 1);
        let entry = if t[n - 1].frames.len() > 1 {
            seq![XmlOp::StartElement("symbol"@), XmlOp::Attribute("id"@, dec_str(n - 1))]
                + text_element_ops(colors, t[n - 1].symbol) + seq![XmlOp::EndElement]
        } else {
            Seq::<XmlOp>::empty()
        };
        lemma_svg_starts_concat(defs_ops_upto(colors, t, n - 1), entry);
        if t[n - 1].frames.len() > 1 {
            lemma_names_not_svg();
            lemma_svg_starts_zero(
                seq![XmlOp::StartElement("symbol"@), XmlOp::Attribute("id"@, dec_str(n - 1))],
            );
            lemma_text_element_no_svg(colors, t[n - 1].symbol);
            lemma_svg_starts_zero(seq![XmlOp::EndElement]);
            lemma_svg_starts_concat(
                seq![XmlOp::StartElement("symbol"@), XmlOp::Attribute("id"@, dec_str(n - 1))],
                text_element_ops(colors, t[n - 1].symbol),
            );
            lemma_svg_starts_concat(
                seq![XmlOp::StartElement("symbol"@), XmlOp::Attribute("id"@, dec_str(n - 1))]
                    + text_element_ops(colors, t[n - 1].symbol),
                seq![XmlOp::EndElement],
            );
        } else {
            lemma_svg_starts_zero(entry);
        }
    }
}

/// A frame's contents open no `svg`.
proof fn lemma_uses_no_svg(colors: Seq<ColorEntryV>, t: Seq<EntryV>, frame: int, n: int)
    ensures
        svg_starts(frame_uses_upto(colors, t, frame, n)) == 0,
    decreases n,
{
    if n <= 0 {
        assert(svg_starts(Seq::<XmlOp>::empty()) == 0);
    } else {
        lemma_uses_no_svg(colors, t, frame, n - 1);
        let entry = if t[n - 1].frames.contains(frame as usize) {
            if t[n - 1].frames.len() == 1 {
                text_element_ops(colors, t[n - 1].symbol)
            } else {
                seq![
                    XmlOp::StartElement("use"@),
                    XmlOp::Attribute("xlink:href"@, "#"@ + dec_str(n - 1)),
                    XmlOp::EndElement,
                ]
            }
        } else {
            Seq::<XmlOp>::empty()
        };
        lemma_svg_starts_concat(frame_uses_upto(colors, t, frame, n - 1), entry);
        lemma_names_not_svg();
        if t[n - 1].frames.contains(frame as usize) && t[n - 1].frames.len() == 1 {
            lemma_text_element_no_svg(colors, t[n - 1].symbol);
        } else {
            lemma_svg_starts_zero(entry);
        }
    }
}

/// Each frame opens exactly one sub-viewport.
proof fn lemma_frame_one_svg(p: DocParams, colors: Seq<ColorEntryV>, t: Seq<EntryV>, frame: int)
    ensures
        svg_starts(frame_ops(p, colors, t, frame)) == 1,
{
    let head = seq![XmlOp::StartElement("svg"@)] + (if frame != 0 {
        seq![XmlOp::Attribute("x"@, dec_str(frame * svg_width(p)))]
    } else {
        Seq::<XmlOp>::empty()
    });
    assert(svg_starts(seq![XmlOp::StartElement("svg"@)]) == 1) by {
        assert(seq![XmlOp::StartElement("svg"@)].drop_first() =~= Seq::<XmlOp>::empty());
        assert(svg_starts(Seq::<XmlOp>::empty()) == 0);
    }
    lemma_svg_starts_zero(
        if frame != 0 {
            seq![XmlOp::Attribute("x"@, dec_str(frame * svg_width(p)))]
        } else {
            Seq::<XmlOp>::empty()
        },
    );
    lemma_svg_starts_concat(
        seq![XmlOp::StartElement("svg"@)],
        if frame != 0 {
            seq![XmlOp::Attribute("x"@, dec_str(frame * svg_width(p)))]
        } else {
            Seq::<XmlOp>::empty()
        },
    );
    lemma_uses_no_svg(colors, t, frame, t.len() as int);
    lemma_svg_starts_concat(head, frame_uses_upto(colors, t, frame, t.len() as int));
    lemma_svg_starts_zero(seq![XmlOp::EndElement]);
    lemma_svg_starts_concat(
        head + frame_uses_upto(colors, t, frame, t.len() as int),
        seq![XmlOp::EndElement],
    );
}

/// The frame strip opens exactly one sub-viewport per frame.
pub proof fn lemma_frames_count(p: DocParams, colors: Seq<ColorEntryV>, t: Seq<EntryV>, n: int)
    requires
        n >= 0,
    ensures
        svg_starts(frames_ops_upto(p, colors, t, n)) == n,
    decreases n,
{
    if n == 0 {
        assert(svg_starts(Seq::<XmlOp>::empty()) == 0);
    } else {
        lemma_frames_count(p, colors, t, n - 1);
        lemma_frame_one_svg(p, colors, t, n - 1);
        lemma_svg_starts_concat(frames_ops_upto(p, colors, t, n - 1), frame_ops(p, colors, t, n - 1));
    }
}

/// The keyframe rules open no `svg`.
proof fn lemma_keyframes_no_svg(p: DocParams, n: int)
    ensures
        svg_starts(keyframes_ops_upto(p, n)) == 0,
    decreases n,
{
    if n <= 1 {
        assert(svg_starts(Seq::<XmlOp>::empty()) == 0);
    } else {
        lemma_keyframes_no_svg(p, n - 1);
        lemma_svg_starts_zero(seq![XmlOp::Text(keyframe_text(p, n - 1))]);
        lemma_svg_starts_concat(keyframes_ops_upto(p, n - 1), seq![XmlOp::Text(keyframe_text(p, n - 1))]);
    }
}

/// The class rules open no `svg`.
proof fn lemma_class_rules_no_svg(colors: Seq<ColorEntryV>, n: int)
    ensures
        svg_starts(class_rules_upto(colors, n)) == 0,
    decreases n,
{
    if n <= 0 {
        assert(svg_starts(Seq::<XmlOp>::empty()) == 0);
    } else {
        lemma_class_rules_no_svg(colors, n - 1);
        lemma_svg_starts_zero(
            if colors[n - 1].attribute is Class {
                seq![XmlOp::Text(class_rule_text(colors[n - 1]))]
            } else {
                Seq::<XmlOp>::empty()
            },
        );
        lemma_svg_starts_concat(
            class_rules_upto(colors, n - 1),
            if colors[n - 1].attribute is Class {
                seq![XmlOp::Text(class_rule_text(colors[n - 1]))]
            } else {
                Seq::<XmlOp>::empty()
            },
        );
    }
}

/// The opening of the document counts its fixed viewports: the outer
/// frame and, with decorations, the decoration canvas.
proof fn lemma_prelude_count(p: DocParams)
    ensures
        svg_starts(prelude_ops(p)) == 1 + (if p.window {
            1int
        } else {
            0int
        }),
{
    lemma_names_not_svg();
    let head = seq![
        XmlOp::StartElement("svg"@),
        XmlOp::Attribute("height"@, height_str(p)),
        XmlOp::Attribute("width"@, width_str(p)),
        XmlOp::Attribute("xmlns"@, "http://www.w3.org/2000/svg"@),
        XmlOp::StartElement("rect"@),
        XmlOp::Attribute("height"@, height_str(p)),
        XmlOp::Attribute("width"@, width_str(p)),
    ];
    assert(svg_starts(head) == 1) by {
        assert(head =~= seq![XmlOp::StartElement("svg"@)] + head.drop_first());
        assert(svg_starts(seq![XmlOp::StartElement("svg"@)]) == 1) by {
            assert(seq![XmlOp::StartElement("svg"@)].drop_first() =~= Seq::<XmlOp>::empty());
            assert(svg_starts(Seq::<XmlOp>::empty()) == 0);
        }
        lemma_names_not_svg();
        lemma_svg_starts_zero(head.drop_first());
        lemma_svg_starts_concat(seq![XmlOp::StartElement("svg"@)], head.drop_first());
    }
    let rx = if p.window {
        seq![XmlOp::Attribute("rx"@, "5"@), XmlOp::Attribute("ry"@, "5"@)]
    } else {
        Seq::<XmlOp>::empty()
    };
    lemma_svg_starts_zero(rx);
    let tail = seq![XmlOp::Attribute("style"@, "fill: #262626"@), XmlOp::EndElement];
    lemma_svg_starts_zero(tail);
    assert(svg_starts(window_ops()) == 1) by {
        assert(window_ops() =~= seq![XmlOp::StartElement("svg"@)] + window_ops().drop_first());
        assert(svg_starts(seq![XmlOp::StartElement("svg"@)]) == 1) by {
            assert(seq![XmlOp::StartElement("svg"@)].drop_first() =~= Seq::<XmlOp>::empty());
            assert(svg_starts(Seq::<XmlOp>::empty()) == 0);
        }
        lemma_names_not_svg();
        lemma_svg_starts_zero(window_ops().drop_first());
        lemma_svg_starts_concat(seq![XmlOp::StartElement("svg"@)], window_ops().drop_first());
    }
    let wnd = if p.window {
        window_ops()
    } else {
        Seq::<XmlOp>::empty()
    };
    assert(svg_starts(wnd) == (if p.window {
        1int
    } else {
        0int
    })) by {
        assert(svg_starts(Seq::<XmlOp>::empty()) == 0);
        assert(svg_starts(window_ops()) == 1);
        assert(window_ops() =~= seq![XmlOp::StartElement("svg"@)] + window_ops().drop_first());
        assert(svg_starts(seq![XmlOp::StartElement("svg"@)]) == 1) by {
            assert(seq![XmlOp::StartElement("svg"@)].drop_first() =~= Seq::<XmlOp>::empty());
            assert(svg_starts(Seq::<XmlOp>::empty()) == 0);
        }
        lemma_names_not_svg();
        lemma_svg_starts_zero(window_ops().drop_first());
        lemma_svg_starts_concat(seq![XmlOp::StartElement("svg"@)], window_ops().drop_first());
    }
    lemma_svg_starts_concat(head, rx);
    lemma_svg_starts_concat(head + rx, tail);
    lemma_svg_starts_concat(head + rx + tail, wnd);
    assert(prelude_ops(p) == head + rx + tail + wnd);
}

/// The inner viewport is one more `svg`.
proof fn lemma_inner_count(p: DocParams)
    ensures
        svg_starts(inner_ops(p)) == 1,
{
    lemma_names_not_svg();
    let head = seq![
        XmlOp::StartElement("svg"@),
        XmlOp::Attribute("height"@, height_str(p)),
        XmlOp::Attribute("width"@, width_str(p)),
        XmlOp::Attribute("xmlns"@, "http://www.w3.org/2000/svg"@),
        XmlOp::Attribute("xmlns:xlink"@, "http://www.w3.org/1999/xlink"@),
    ];
    assert(svg_starts(head) == 1) by {
        assert(head =~= seq![XmlOp::StartElement("svg"@)] + head.drop_first());
        assert(svg_starts(seq![XmlOp::StartElement("svg"@)]) == 1) by {
            assert(seq![XmlOp::StartElement("svg"@)].drop_first() =~= Seq::<XmlOp>::empty());
            assert(svg_starts(Seq::<XmlOp>::empty()) == 0);
        }
        lemma_names_not_svg();
        lemma_svg_starts_zero(head.drop_first());
        lemma_svg_starts_concat(seq![XmlOp::StartElement("svg"@)], head.drop_first());
    }
    let xy = if p.window {
        seq![XmlOp::Attribute("x"@, "15"@), XmlOp::Attribute("y"@, "50"@)]
    } else {
        Seq::<XmlOp>::empty()
    };
    lemma_svg_starts_zero(xy);
    let tail = seq![
        XmlOp::Attribute("viewBox"@, viewbox_value(p)),
        XmlOp::StartElement("g"@),
        XmlOp::Attribute("font-family"@, "Courier New"@),
        XmlOp::Attribute("font-size"@, "1.67"@),
    ];
    lemma_svg_starts_zero(tail);
    lemma_svg_starts_concat(head, xy);
    lemma_svg_starts_concat(head + xy, tail);
    assert(inner_ops(p) == head + xy + tail);
}

/// One sub-viewport per event: the whole document opens exactly one
/// `svg` per frame beyond its fixed viewports (the outer frame, the
/// inner viewport, the frame strip, and the decoration canvas when
/// window decorations are on).
#[verifier::rlimit(100)]
pub proof fn lemma_one_viewport_per_event(p: DocParams, t: Seq<EntryV>, colors: Seq<ColorEntryV>)
    requires
        p.times.len() >= 0,
    ensures
        svg_starts(doc_ops(p, t, colors)) == p.times.len() + (if p.window {
            4int
        } else {
            3int
        }),
{
    lemma_names_not_svg();
    let a = prelude_ops(p);
    let b = inner_ops(p);
    let c = seq![XmlOp::StartElement("defs"@)];
    let d = defs_ops_upto(colors, t, t.len() as int);
    let e = seq![
        XmlOp::EndElement,
        XmlOp::StartElement("g"@),
        XmlOp::Attribute("style"@, anim_style_value(p)),
        XmlOp::StartElement("svg"@),
        XmlOp::Attribute("width"@, dec_str(p.times.len() * svg_width(p))),
    ];
    let f = frames_ops_upto(p, colors, t, p.times.len() as int);
    let g = seq![
        XmlOp::EndElement,
        XmlOp::EndElement,
        XmlOp::EndElement,
        XmlOp::StartElement("style"@),
        XmlOp::Text("@keyframes l{"@),
    ];
    let h = keyframes_ops_upto(p, p.times.len() as int);
    let i2 = seq![XmlOp::Text("}"@)];
    let j = class_rules_upto(colors, colors.len() as int);
    let k = seq![XmlOp::EndElement];
    lemma_prelude_count(p);
    lemma_inner_count(p);
    lemma_svg_starts_zero(c);
    lemma_defs_no_svg(colors, t, t.len() as int);
    assert(svg_starts(e) == 1) by {
        assert(e =~= e.take(3) + (seq![XmlOp::StartElement("svg"@)] + e.skip(4)));
        lemma_names_not_svg();
        lemma_svg_starts_zero(e.take(3));
        assert(svg_starts(seq![XmlOp::StartElement("svg"@)]) == 1) by {
            assert(seq![XmlOp::StartElement("svg"@)].drop_first() =~= Seq::<XmlOp>::empty());
            assert(svg_starts(Seq::<XmlOp>::empty()) == 0);
        }
        lemma_svg_starts_zero(e.skip(4));
        lemma_svg_starts_concat(seq![XmlOp::StartElement("svg"@)], e.skip(4));
        lemma_svg_starts_concat(e.take(3), seq![XmlOp::StartElement("svg"@)] + e.skip(4));
    }
    lemma_frames_count(p, colors, t, p.times.len() as int);
    lemma_svg_starts_zero(g);
    lemma_keyframes_no_svg(p, p.times.len() as int);
    lemma_svg_starts_zero(i2);
    lemma_class_rules_no_svg(colors, colors.len() as int);
    lemma_svg_starts_zero(k);
    lemma_svg_starts_concat(a, b);
    lemma_svg_starts_concat(a + b, c);
    lemma_svg_starts_concat(a + b + c, d);
    lemma_svg_starts_concat(a + b + c + d, e);
    lemma_svg_starts_concat(a + b + c + d + e, f);
    lemma_svg_starts_concat(a + b + c + d + e + f, g);
    lemma_svg_starts_concat(a + b + c + d + e + f + g, h);
    lemma_svg_starts_concat(a + b + c + d + e + f + g + h, i2);
    lemma_svg_starts_concat(a + b + c + d + e + f + g + h + i2, j);
    lemma_svg_starts_concat(a + b + c + d + e + f + g + h + i2 + j, k);
    assert(doc_ops(p, t, colors) == a + b + c + d + e + f + g + h + i2 + j + k);
}

/// Idempotence: the document is a function of the input alone, so
/// re-running a conversion on an identical recording yields a
/// byte-identical document. The ensures of [`convert`] pins its result
/// to [`convert_spec`]; this law states that the specification draws on
/// nothing else.
pub proof fn lemma_convert_deterministic(
    width: int,
    height: int,
    window: bool,
    indent: Option<u8>,
    events1: Seq<EventV>,
    events2: Seq<EventV>,
)
    requires
        events1 == events2,
    ensures
        convert_spec(width, height, window, indent, events1) == convert_spec(
            width,
            height,
            window,
            indent,
            events2,
        ),
{
}

} // verus!
