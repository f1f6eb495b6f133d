//! The recorded session as the core consumes it.
//!
//! An external loader parses the recording's line-oriented structure; the
//! core receives a header of plain values and an ordered list of events,
//! each carrying a timestamp in microseconds, its kind, and the decoded
//! control elements of its payload.

use vstd::prelude::*;

use crate::frame::{CEvent, ControlEvent};

verus! {

/// The color theme a recording may carry; the core does not use it.
#[derive(Debug)]
pub struct Theme {
    /// Foreground color, as recorded.
    pub fg: String,
    /// Background color, as recorded.
    pub bg: String,
    /// Palette, as recorded.
    pub palette: String,
}

/// The recording's header: protocol version and terminal size, plus
/// metadata the core does not use.
#[derive(Debug)]
pub struct Header {
    /// Protocol version.
    pub version: u64,
    /// Terminal width in columns.
    pub width: usize,
    /// Terminal height in rows.
    pub height: usize,
    /// Recording timestamp, if present.
    pub timestamp: Option<u128>,
    /// Originating command, if present.
    pub command: Option<String>,
    /// Title, if present.
    pub title: Option<String>,
    /// Color theme, if present.
    pub theme: Option<Theme>,
}

/// The kind of a recorded event; only output drives the grid.
#[derive(Debug, Copy, Clone, Eq, PartialEq, Hash, Structural)]
pub enum EventType {
    /// Keyboard input; produces a frame but leaves the grid alone.
    Input,
    /// Terminal output; drives the grid.
    Output,
}

/// One recorded event: a timestamp in microseconds, its kind, and the
/// decoded control elements of its payload.
#[derive(Debug)]
pub struct Event {
    /// Time of the event, microseconds since the recording began.
    pub time_us: u64,
    /// Kind of the event.
    pub etype: EventType,
    /// Decoded control elements of the payload.
    pub data: Vec<ControlEvent>,
}

/// Ghost image of an [`Event`].
pub ghost struct EventV {
    pub time_us: u64,
    pub etype: EventType,
    pub data: Seq<CEvent>,
}

impl View for Event {
    type V = EventV;

    open spec fn view(&self) -> EventV {
        EventV { time_us: self.time_us, etype: self.etype, data: self.data.deep_view() }
    }
}

impl DeepView for Event {
    type V = EventV;

    open spec fn deep_view(&self) -> EventV {
        self.view()
    }
}

impl Event {
    /// Create a new event.
    pub fn new(time_us: u64, etype: EventType, data: Vec<ControlEvent>) -> (e: Event)
        ensures
            e@ == (EventV { time_us, etype, data: data.deep_view() }),
    {
        Event { time_us, etype, data }
    }

    /// Time of the event in microseconds.
    pub fn time(&self) -> (r: u64)
        ensures
            r == self@.time_us,
    {
        self.time_us
    }

    /// Kind of the event.
    pub fn event_type(&self) -> (r: EventType)
        ensures
            r == self@.etype,
    {
        self.etype
    }

    /// Decoded control elements of the payload.
    pub fn event_data(&self) -> (r: &Vec<ControlEvent>)
        ensures
            r.deep_view() == self@.data,
    {
        &self.data
    }
}

} // verus!
