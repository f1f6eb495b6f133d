use cast2svg::asciicast::{Event, EventType};
use cast2svg::color::Color;
use cast2svg::encode::convert;
use cast2svg::error::ConvertError;
use cast2svg::frame::ControlEvent;

fn output_event(time_us: u64, tokens: Vec<ControlEvent>) -> Event {
    Event::new(time_us, EventType::Output, tokens)
}

fn print_all(s: &str) -> Vec<ControlEvent> {
    s.chars().map(ControlEvent::Print).collect()
}

fn count_occurrences(haystack: &str, needle: &str) -> usize {
    let mut count = 0;
    let mut at = 0;
    while let Some(pos) = haystack[at..].find(needle) {
        count += 1;
        at += pos + needle.len();
    }
    count
}

#[test]
fn color() {
    assert_eq!(Color::Indexed(226).rgb(), (0xd2, 0xd2, 0));
}

#[test]
fn two_events_full_document() {
    let events = vec![
        output_event(0, print_all("A")),
        output_event(1_000_000, print_all("B")),
    ];
    let out = convert(80, 24, false, None, &events).unwrap();
    let mut expected = String::new();
    expected.push_str("<svg height=\"521.04\" width=\"800\" xmlns=\"http://www.w3.org/2000/svg\">");
    expected.push_str("<rect height=\"521.04\" width=\"800\" style=\"fill: #262626\"/>");
    expected.push_str("<svg height=\"521.04\" width=\"800\" xmlns=\"http://www.w3.org/2000/svg\"");
    expected.push_str(" xmlns:xlink=\"http://www.w3.org/1999/xlink\" viewBox=\"0 0 80 52.104\">");
    expected.push_str("<g font-family=\"Courier New\" font-size=\"1.67\"><defs/>");
    expected.push_str("<g style=\"animation-duration:1s;animation-iteration-count:infinite;");
    expected.push_str("animation-name:l;animation-timing-function:steps(1,end)\">");
    expected.push_str("<svg width=\"1600\">");
    expected.push_str("<svg><text class=\"a\" y=\"1.67\">A</text></svg>");
    expected.push_str("<svg x=\"800\"><text class=\"a\" y=\"1.67\">AB</text></svg>");
    expected.push_str("</svg></g></g>");
    expected.push_str("<style>@keyframes l{100.0%{transform:translateX(-800px)}}");
    expected.push_str(".a{fill:#cbbfbf}</style></svg></svg>");
    assert_eq!(out, expected);
}

#[test]
fn one_viewport_per_event() {
    let events = vec![
        output_event(0, print_all("A")),
        output_event(500_000, print_all("B")),
        output_event(1_000_000, print_all("C")),
    ];
    let out = convert(80, 24, false, None, &events).unwrap();
    // outer frame + inner viewport + frame strip + one per event
    assert_eq!(count_occurrences(&out, "<svg"), 3 + events.len());
}

#[test]
fn window_decoration_adds_one_viewport() {
    let events = vec![
        output_event(0, print_all("A")),
        output_event(1_000_000, print_all("B")),
    ];
    let out = convert(80, 24, true, None, &events).unwrap();
    assert_eq!(count_occurrences(&out, "<svg"), 4 + events.len());
    assert!(out.contains("<circle"));
}

#[test]
fn identical_runs_rerun_byte_identical() {
    let make = || {
        vec![
            output_event(0, print_all("hi")),
            output_event(250_000, print_all(" there")),
            output_event(1_500_000, vec![ControlEvent::Execute(0x0d)]),
        ]
    };
    let a = convert(40, 10, false, None, &make()).unwrap();
    let b = convert(40, 10, false, None, &make()).unwrap();
    assert_eq!(a, b);
}

#[test]
fn repeated_symbol_uses_one_template() {
    // The same single-character symbol in frames 0 and 2, with a different
    // frame in between, becomes one template referenced twice.
    let events = vec![
        output_event(0, print_all("A")),
        output_event(
            1_000_000,
            vec![ControlEvent::Execute(0x0d), ControlEvent::Print('B')],
        ),
        output_event(
            2_000_000,
            vec![ControlEvent::Execute(0x0d), ControlEvent::Print('A')],
        ),
    ];
    let out = convert(80, 24, false, None, &events).unwrap();
    assert_eq!(count_occurrences(&out, "<symbol id=\"0\">"), 1);
    assert_eq!(count_occurrences(&out, "xlink:href=\"#0\""), 2);
}

#[test]
fn too_few_events_is_rejected() {
    let events = vec![output_event(0, print_all("A"))];
    let r = convert(80, 24, false, None, &events);
    assert_eq!(r.unwrap_err(), ConvertError::TooFewEvents);
}

#[test]
fn backwards_time_is_rejected_with_index() {
    let events = vec![
        output_event(5_000_000, print_all("A")),
        output_event(4_000_000, print_all("B")),
        output_event(6_000_000, print_all("C")),
    ];
    let r = convert(80, 24, false, None, &events);
    assert_eq!(r.unwrap_err(), ConvertError::TimeBackwards(1));
}

#[test]
fn equal_times_are_accepted() {
    let events = vec![
        output_event(1_000_000, print_all("A")),
        output_event(1_000_000, print_all("B")),
    ];
    let out = convert(80, 24, false, None, &events).unwrap();
    assert!(out.contains("animation-duration:0s"));
}

#[test]
fn erase_above_fails_conversion() {
    let events = vec![
        output_event(0, vec![ControlEvent::Csi(vec![vec![1]], 'J')]),
        output_event(1_000_000, print_all("B")),
    ];
    let r = convert(80, 24, false, None, &events);
    assert_eq!(r.unwrap_err(), ConvertError::ClearAboveUnsupported);
}

#[test]
fn erase_below_fails_conversion() {
    let events = vec![
        output_event(0, vec![ControlEvent::Csi(vec![], 'J')]),
        output_event(1_000_000, print_all("B")),
    ];
    let r = convert(80, 24, false, None, &events);
    assert_eq!(r.unwrap_err(), ConvertError::ClearBelowUnsupported);
}

#[test]
fn erase_line_left_fails_conversion() {
    let events = vec![
        output_event(0, vec![ControlEvent::Csi(vec![vec![1]], 'K')]),
        output_event(1_000_000, print_all("B")),
    ];
    let r = convert(80, 24, false, None, &events);
    assert_eq!(r.unwrap_err(), ConvertError::ClearLeftUnsupported);
}

#[test]
fn cursor_out_of_range_fails_conversion() {
    let events = vec![
        output_event(0, vec![ControlEvent::Csi(vec![vec![5]], 'A')]),
        output_event(1_000_000, print_all("B")),
    ];
    let r = convert(80, 24, false, None, &events);
    assert_eq!(r.unwrap_err(), ConvertError::CursorOutOfRange);
}

#[test]
fn error_descriptions() {
    assert_eq!(
        ConvertError::TooFewEvents.describe(),
        "the recording must have at least 2 events"
    );
    assert_eq!(
        ConvertError::TimeBackwards(3).describe(),
        "an event went backwards in time"
    );
    assert_eq!(
        ConvertError::ClearAboveUnsupported.describe(),
        "unsupported sequence: erase above cursor"
    );
}

#[test]
fn event_accessors() {
    let e = Event::new(42, EventType::Input, vec![ControlEvent::Print('x')]);
    assert_eq!(e.time(), 42);
    assert_eq!(e.event_type(), EventType::Input);
    assert_eq!(e.event_data().len(), 1);
}

#[test]
fn input_events_do_not_drive_the_grid() {
    let events = vec![
        Event::new(0, EventType::Output, print_all("A")),
        Event::new(1_000_000, EventType::Input, print_all("ZZZ")),
    ];
    let out = convert(80, 24, false, None, &events).unwrap();
    assert!(!out.contains("ZZZ"));
    // the input event still produces its own (unchanged) frame
    assert_eq!(count_occurrences(&out, "<svg"), 3 + 2);
}
