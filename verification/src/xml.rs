//! Trusted boundary to the streaming XML writer.
//!
//! The document is emitted through `xmlwriter::XmlWriter`. Verified code
//! records every call as a ghost [`XmlOp`]; what the writer's buffer holds
//! at the end is named [`xml_render`], a function of the indentation
//! option and the recorded operations alone. The writer's own
//! preconditions (attributes only directly after an element is opened,
//! text only inside an element) are tracked by [`writer_state`] and
//! [`writer_depth`] so that no call can reach the writer's panics.

use vstd::prelude::*;

verus! {

/// One recorded call on the XML writer.
pub ghost enum XmlOp {
    /// `start_element(name)`.
    StartElement(Seq<char>),
    /// `write_attribute(name, value)`.
    Attribute(Seq<char>, Seq<char>),
    /// `write_text(text)`.
    Text(Seq<char>),
    /// `set_preserve_whitespaces(on)`.
    PreserveWhitespaces(bool),
    /// `end_element()`.
    EndElement,
}

#[verifier::external_type_specification]
#[verifier::external_body]
pub struct ExXmlWriter(xmlwriter::XmlWriter);

/// The calls recorded on a writer since its creation.
pub uninterp spec fn writer_ops(w: xmlwriter::XmlWriter) -> Seq<XmlOp>;

/// The indentation the writer was created with: spaces per level, or none.
pub uninterp spec fn writer_indent(w: xmlwriter::XmlWriter) -> Option<u8>;

/// The text that `end_document` produces from an indentation option and a
/// record of calls.
pub uninterp spec fn xml_render(indent: Option<u8>, ops: Seq<XmlOp>) -> Seq<char>;

/// The writer's element state after a record of calls.
pub ghost enum WriterState {
    /// Nothing written yet.
    Empty,
    /// Inside the document, no element open for attributes.
    Document,
    /// An element was just opened; attributes may be written.
    Attributes,
}

/// The writer's element state after a record of calls: a fresh writer is
/// empty; opening an element accepts attributes until any content
/// follows.
pub open spec fn writer_state(ops: Seq<XmlOp>) -> WriterState
    decreases ops.len(),
{
    if ops.len() == 0 {
        WriterState::Empty
    } else {
        match ops.last() {
            XmlOp::StartElement(_) => WriterState::Attributes,
            XmlOp::Attribute(_, _) => writer_state(ops.drop_last()),
            XmlOp::Text(_) => WriterState::Document,
            XmlOp::PreserveWhitespaces(_) => writer_state(ops.drop_last()),
            XmlOp::EndElement => WriterState::Document,
        }
    }
}

/// How many elements are open after a record of calls.
pub open spec fn writer_depth(ops: Seq<XmlOp>) -> int
    decreases ops.len(),
{
    if ops.len() == 0 {
        0
    } else {
        let d = writer_depth(ops.drop_last());
        match ops.last() {
            XmlOp::StartElement(_) => d + 1,
            XmlOp::EndElement => if d > 0 {
                d - 1
            } else {
                0
            },
            XmlOp::Attribute(_, _) => d,
            XmlOp::Text(_) => d,
            XmlOp::PreserveWhitespaces(_) => d,
        }
    }
}

/// Relies on `XmlWriter::new` with `Options::default()` except for the
/// node indentation, which is `Indent::Spaces(n)` or `Indent::None`.
#[verifier::external_body]
pub fn new_writer(indent: Option<u8>) -> (w: xmlwriter::XmlWriter)
    ensures
        writer_ops(w) == Seq::<XmlOp>::empty(),
        writer_indent(w) == indent,
{
    let opt = xmlwriter::Options {
        indent: match indent {
            Some(n) => xmlwriter::Indent::Spaces(n),
            None => xmlwriter::Indent::None,
        },
        ..xmlwriter::Options::default()
    };
    xmlwriter::XmlWriter::new(opt)
}

/// Relies on `XmlWriter::start_element`: writes the opening of an element
/// and never panics.
#[verifier::external_body]
pub fn start_element(w: &mut xmlwriter::XmlWriter, name: &str)
    ensures
        writer_ops(*final(w)) == writer_ops(*old(w)).push(XmlOp::StartElement(name@)),
        writer_indent(*final(w)) == writer_indent(*old(w)),
{
    w.start_element(name)
}

/// Relies on `XmlWriter::write_attribute`: panics unless called while the
/// last opened element still accepts attributes, hence the precondition.
#[verifier::external_body]
pub fn write_attribute(w: &mut xmlwriter::XmlWriter, name: &str, value: &str)
    requires
        writer_state(writer_ops(*old(w))) is Attributes,
    ensures
        writer_ops(*final(w)) == writer_ops(*old(w)).push(XmlOp::Attribute(name@, value@)),
        writer_indent(*final(w)) == writer_indent(*old(w)),
{
    w.write_attribute(name, value)
}

/// Relies on `XmlWriter::set_preserve_whitespaces`: toggles text
/// indentation and never panics.
#[verifier::external_body]
pub fn set_preserve_whitespaces(w: &mut xmlwriter::XmlWriter, preserve: bool)
    ensures
        writer_ops(*final(w)) == writer_ops(*old(w)).push(XmlOp::PreserveWhitespaces(preserve)),
        writer_indent(*final(w)) == writer_indent(*old(w)),
{
    w.set_preserve_whitespaces(preserve)
}

/// Relies on `XmlWriter::write_text`: panics unless something was written
/// before and an element is open, hence the preconditions.
#[verifier::external_body]
pub fn write_text(w: &mut xmlwriter::XmlWriter, text: &str)
    requires
        !(writer_state(writer_ops(*old(w))) is Empty),
        writer_depth(writer_ops(*old(w))) > 0,
    ensures
        writer_ops(*final(w)) == writer_ops(*old(w)).push(XmlOp::Text(text@)),
        writer_indent(*final(w)) == writer_indent(*old(w)),
{
    w.write_text(text)
}

/// Relies on `XmlWriter::end_element`: closes the innermost open element,
/// does nothing when none is open, and never panics.
#[verifier::external_body]
pub fn end_element(w: &mut xmlwriter::XmlWriter)
    ensures
        writer_ops(*final(w)) == writer_ops(*old(w)).push(XmlOp::EndElement),
        writer_indent(*final(w)) == writer_indent(*old(w)),
{
    w.end_element()
}

/// Relies on `XmlWriter::end_document`: closes every open element and
/// returns the buffer, a function of the creation options and the calls
/// made.
#[verifier::external_body]
pub fn end_document(w: xmlwriter::XmlWriter) -> (r: String)
    ensures
        r@ == xml_render(writer_indent(w), writer_ops(w)),
{
    w.end_document()
}

/// Relies on `String::from_iter` over characters: collecting characters
/// yields the string of exactly those characters.
#[verifier::external_body]
pub fn chars_to_string(v: &Vec<char>) -> (r: String)
    ensures
        r@ == v@,
{
    v.iter().collect()
}

} // verus!
