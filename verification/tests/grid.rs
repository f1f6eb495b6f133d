use cast2svg::color::{Color, Intensity};
use cast2svg::colormap::{color_map, ColorAttribute};
use cast2svg::frame::{ControlEvent, Frame};
use cast2svg::symbol::{Symbol, SymbolTable};

fn apply_all(frame: &mut Frame, tokens: Vec<ControlEvent>) {
    for t in tokens {
        frame.apply(&t).unwrap();
    }
}

#[test]
fn carriage_return_line_feed_then_print() {
    let mut f = Frame::new(8, 4);
    apply_all(
        &mut f,
        vec![
            ControlEvent::Print('A'),
            ControlEvent::Print('B'),
            ControlEvent::Execute(0x0d),
            ControlEvent::Execute(0x0a),
            ControlEvent::Print('C'),
        ],
    );
    // the printable lands on column 0 of the next row
    assert_eq!(f.buf[8].ch, Some('C'));
    assert_eq!(f.x, 1);
    assert_eq!(f.y, 1);
}

#[test]
fn line_feed_on_last_row_scrolls() {
    let mut f = Frame::new(2, 2);
    apply_all(
        &mut f,
        vec![
            ControlEvent::Print('A'),
            ControlEvent::Execute(0x0a),
            ControlEvent::Execute(0x0a),
        ],
    );
    // the top row's content is discarded and the cursor stays on the
    // last row
    assert_eq!(f.y, 1);
    assert!(f.buf.iter().all(|c| c.ch.is_none()));
}

#[test]
fn rendition_codes_color_and_intensity() {
    let mut f = Frame::new(4, 2);
    apply_all(
        &mut f,
        vec![
            ControlEvent::Csi(vec![vec![1], vec![31]], 'm'),
            ControlEvent::Print('H'),
        ],
    );
    assert_eq!(f.buf[0].ch, Some('H'));
    assert_eq!(f.buf[0].fg, Color::Red);
    assert_eq!(f.buf[0].intensity, Intensity::Bold);
}

#[test]
fn rendition_reset_and_indexed_color() {
    let mut f = Frame::new(4, 2);
    apply_all(
        &mut f,
        vec![
            ControlEvent::Csi(vec![vec![38], vec![5], vec![226]], 'm'),
            ControlEvent::Print('x'),
            ControlEvent::Csi(vec![vec![0]], 'm'),
            ControlEvent::Print('y'),
        ],
    );
    assert_eq!(f.buf[0].fg, Color::Indexed(226));
    assert_eq!(f.buf[1].fg, Color::Default);
}

#[test]
fn rendition_rgb_both_forms() {
    let mut f = Frame::new(4, 2);
    apply_all(
        &mut f,
        vec![
            ControlEvent::Csi(vec![vec![38], vec![2], vec![1], vec![2], vec![3]], 'm'),
            ControlEvent::Print('a'),
            ControlEvent::Csi(vec![vec![38, 2, 9, 8, 7]], 'm'),
            ControlEvent::Print('b'),
        ],
    );
    assert_eq!(f.buf[0].fg, Color::Rgb(1, 2, 3));
    assert_eq!(f.buf[1].fg, Color::Rgb(9, 8, 7));
}

#[test]
fn erase_line_right_clears_to_end() {
    let mut f = Frame::new(4, 2);
    apply_all(
        &mut f,
        vec![
            ControlEvent::Print('a'),
            ControlEvent::Print('b'),
            ControlEvent::Print('c'),
            ControlEvent::Csi(vec![vec![1], vec![4]], 'H'),
            ControlEvent::Csi(vec![], 'K'),
        ],
    );
    // cursor moved to row 0 column 3 (1-based), then erase
    // from cursor to line end: only the cell under the cursor and after
    // are cleared
    assert_eq!(f.buf[0].ch, Some('a'));
    assert_eq!(f.buf[1].ch, Some('b'));
    assert_eq!(f.buf[2].ch, Some('c'));
    assert_eq!(f.buf[3].ch, None);
}

#[test]
fn erase_display_all_clears_characters() {
    let mut f = Frame::new(2, 2);
    apply_all(
        &mut f,
        vec![
            ControlEvent::Csi(vec![vec![31]], 'm'),
            ControlEvent::Print('a'),
            ControlEvent::Print('b'),
            ControlEvent::Csi(vec![vec![2]], 'J'),
        ],
    );
    assert!(f.buf.iter().all(|c| c.ch.is_none()));
    // stored renditions are untouched
    assert_eq!(f.buf[0].fg, Color::Red);
}

#[test]
fn unknown_sequences_are_inert() {
    let mut f = Frame::new(2, 2);
    apply_all(
        &mut f,
        vec![
            ControlEvent::Esc(b'7'),
            ControlEvent::Osc,
            ControlEvent::DcsHook,
            ControlEvent::DcsPut,
            ControlEvent::DcsUnhook,
            ControlEvent::Execute(0x07),
            ControlEvent::Csi(vec![], 'h'),
        ],
    );
    assert_eq!(f.x, 0);
    assert_eq!(f.y, 0);
    assert!(f.buf.iter().all(|c| c.ch.is_none()));
}

#[test]
fn symbols_coalesce_across_frames() {
    let mut f = Frame::new(4, 2);
    let mut table = SymbolTable::new();
    f.apply(&ControlEvent::Print('A')).unwrap();
    f.insert_symbols(&mut table, 0);
    // an intervening frame with different content
    f.apply(&ControlEvent::Execute(0x0d)).unwrap();
    f.apply(&ControlEvent::Print('B')).unwrap();
    f.insert_symbols(&mut table, 1);
    // the identical run again
    f.apply(&ControlEvent::Execute(0x0d)).unwrap();
    f.apply(&ControlEvent::Print('A')).unwrap();
    f.insert_symbols(&mut table, 2);
    assert_eq!(table.entries.len(), 2);
    assert_eq!(table.entries[0].symbol.text, vec!['A']);
    assert_eq!(table.entries[0].frames, vec![0, 2]);
    assert_eq!(table.entries[1].symbol.text, vec!['B']);
    assert_eq!(table.entries[1].frames, vec![1]);
}

#[test]
fn runs_split_on_rendition_change() {
    let mut f = Frame::new(8, 2);
    apply_all(
        &mut f,
        vec![
            ControlEvent::Print('r'),
            ControlEvent::Csi(vec![vec![31]], 'm'),
            ControlEvent::Print('e'),
            ControlEvent::Print('d'),
        ],
    );
    let mut table = SymbolTable::new();
    f.insert_symbols(&mut table, 0);
    assert_eq!(table.entries.len(), 2);
    assert_eq!(table.entries[0].symbol.text, vec!['r']);
    assert_eq!(table.entries[0].symbol.x, 0);
    assert_eq!(table.entries[1].symbol.text, vec!['e', 'd']);
    assert_eq!(table.entries[1].symbol.x, 1);
    assert_eq!(table.entries[1].symbol.fg, Color::Red);
}

#[test]
fn leading_blanks_stripped_embedded_kept() {
    let mut f = Frame::new(8, 1);
    apply_all(
        &mut f,
        vec![
            ControlEvent::Print(' '),
            ControlEvent::Print(' '),
            ControlEvent::Print('a'),
            ControlEvent::Print(' '),
            ControlEvent::Print('b'),
        ],
    );
    let mut table = SymbolTable::new();
    f.insert_symbols(&mut table, 0);
    assert_eq!(table.entries.len(), 1);
    assert_eq!(table.entries[0].symbol.x, 2);
    assert_eq!(table.entries[0].symbol.text, vec!['a', ' ', 'b']);
}

#[test]
fn escaped_text_replaces_markup() {
    let mut f = Frame::new(8, 1);
    apply_all(
        &mut f,
        vec![
            ControlEvent::Print('a'),
            ControlEvent::Print('&'),
            ControlEvent::Print('>'),
            ControlEvent::Print('"'),
            ControlEvent::Print('\''),
        ],
    );
    let mut table = SymbolTable::new();
    f.insert_symbols(&mut table, 0);
    let sym: &Symbol = &table.entries[0].symbol;
    assert_eq!(sym.escaped_text(), "a&amp;&lt;&quot;&apos;");
}

#[test]
fn single_symbol_color_is_inline() {
    let mut f = Frame::new(4, 1);
    apply_all(&mut f, vec![ControlEvent::Print('a')]);
    let mut table = SymbolTable::new();
    f.insert_symbols(&mut table, 0);
    let colors = color_map(&table);
    assert_eq!(colors.entries.len(), 1);
    assert_eq!(colors.entries[0].attribute, ColorAttribute::Style);
    let value: String = colors.entries[0].value.iter().collect();
    assert_eq!(value, "fill: #cbbfbf");
}

#[test]
fn shared_color_gets_one_token() {
    // two distinct symbols with the default color, plus one red symbol
    let mut f = Frame::new(8, 2);
    apply_all(
        &mut f,
        vec![
            ControlEvent::Print('a'),
            ControlEvent::Execute(0x0d),
            ControlEvent::Execute(0x0a),
            ControlEvent::Print('b'),
            ControlEvent::Csi(vec![vec![31]], 'm'),
            ControlEvent::Print('c'),
        ],
    );
    let mut table = SymbolTable::new();
    f.insert_symbols(&mut table, 0);
    let colors = color_map(&table);
    let default_rgb = Color::Default.rgb();
    let mut shared = 0;
    let mut inline = 0;
    for e in &colors.entries {
        match e.attribute {
            ColorAttribute::Class => {
                shared += 1;
                assert_eq!((e.r, e.g, e.b), default_rgb);
                let tok: String = e.value.iter().collect();
                assert_eq!(tok, "a");
            }
            ColorAttribute::Style => inline += 1,
        }
    }
    assert_eq!((shared, inline), (1, 1));
}

#[test]
fn clear_scrollback_is_inert() {
    let mut f = Frame::new(2, 2);
    apply_all(
        &mut f,
        vec![
            ControlEvent::Print('a'),
            ControlEvent::Csi(vec![vec![3]], 'J'),
        ],
    );
    assert_eq!(f.buf[0].ch, Some('a'));
}

#[test]
fn palette_edges() {
    assert_eq!(Color::Indexed(0).rgb(), Color::Black.rgb());
    assert_eq!(Color::Indexed(15).rgb(), Color::BrightWhite.rgb());
    assert_eq!(Color::Indexed(16).rgb(), (0, 0, 0));
    assert_eq!(Color::Indexed(231).rgb(), (210, 210, 210));
    assert_eq!(Color::Indexed(232).rgb(), (0, 0, 0));
    assert_eq!(Color::Indexed(255).rgb(), (230, 230, 230));
}
