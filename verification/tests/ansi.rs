use helix_wasm::ansi::{
    push_decimal, write_color, write_modifiers, write_underline_color, Cell, Color, CursorKind,
    Modifier, Rect, UnderlineStyle, WasmBackend,
};

fn cell(symbol: &str) -> Cell {
    Cell {
        symbol: symbol.to_string(),
        fg: Color::Reset,
        bg: Color::Reset,
        underline_color: Color::Reset,
        underline_style: UnderlineStyle::Reset,
        modifier: Modifier::empty(),
    }
}

fn bold() -> Modifier {
    let mut m = Modifier::empty();
    m.bold = true;
    m
}

#[test]
fn decimal_text_of_numbers() {
    let mut s = String::new();
    push_decimal(&mut s, 0);
    s.push(' ');
    push_decimal(&mut s, 65535);
    s.push(' ');
    push_decimal(&mut s, 4294967295);
    assert_eq!(s, "0 65535 4294967295");
}

#[test]
fn named_colors_use_base_codes() {
    let mut s = String::new();
    write_color(&mut s, Color::Red, true);
    write_color(&mut s, Color::Red, false);
    write_color(&mut s, Color::LightGray, true);
    write_color(&mut s, Color::Gray, false);
    write_color(&mut s, Color::Reset, true);
    write_color(&mut s, Color::Reset, false);
    assert_eq!(s, "\x1b[31m\x1b[41m\x1b[97m\x1b[100m\x1b[39m\x1b[49m");
}

#[test]
fn rgb_and_indexed_colors() {
    let mut s = String::new();
    write_color(&mut s, Color::Rgb(255, 0, 17), true);
    write_color(&mut s, Color::Indexed(208), false);
    assert_eq!(s, "\x1b[38;2;255;0;17m\x1b[48;5;208m");
}

#[test]
fn underline_colors() {
    let mut s = String::new();
    write_underline_color(&mut s, Color::Reset);
    write_underline_color(&mut s, Color::Rgb(1, 2, 3));
    write_underline_color(&mut s, Color::Indexed(9));
    write_underline_color(&mut s, Color::Blue);
    assert_eq!(s, "\x1b[59m\x1b[58:2::1:2:3m\x1b[58:5:9m");
}

#[test]
fn modifiers_in_fixed_order() {
    let mut m = Modifier::empty();
    m.crossed_out = true;
    m.bold = true;
    m.rapid_blink = true;
    m.italic = true;
    let mut s = String::new();
    write_modifiers(&mut s, m);
    assert_eq!(s, "\x1b[1m\x1b[3m\x1b[5m\x1b[9m");
    let mut t = String::new();
    write_modifiers(&mut t, Modifier::empty());
    assert_eq!(t, "");
}

#[test]
fn draw_moves_only_for_gaps() {
    let mut b = WasmBackend::new(80, 24);
    let content = vec![(0u16, 0u16, cell("a")), (1, 0, cell("b")), (5, 2, cell("c"))];
    b.draw(&content);
    assert_eq!(b.flush().unwrap(), "\x1b[1;1Hab\x1b[3;6Hc\x1b[0m");
    assert_eq!(b.flush(), None);
}

#[test]
fn draw_writes_only_changed_attributes() {
    let mut b = WasmBackend::new(80, 24);
    let mut red = cell("x");
    red.fg = Color::Red;
    red.modifier = bold();
    let mut red2 = cell("y");
    red2.fg = Color::Red;
    red2.modifier = bold();
    let plain = cell("z");
    b.draw(&vec![(0, 0, red), (1, 0, red2), (2, 0, plain)]);
    assert_eq!(b.flush().unwrap(), "\x1b[1;1H\x1b[1m\x1b[31mxy\x1b[0mz\x1b[0m");
}

#[test]
fn draw_underline_style_and_color() {
    let mut b = WasmBackend::new(10, 10);
    let mut c = cell("u");
    c.underline_style = UnderlineStyle::Curl;
    c.underline_color = Color::Indexed(3);
    c.bg = Color::Blue;
    b.draw(&vec![(2, 3, c)]);
    assert_eq!(b.flush().unwrap(), "\x1b[4;3H\x1b[4:3m\x1b[58:5:3m\x1b[44mu\x1b[0m");
}

#[test]
fn cursor_and_screen_sequences() {
    let mut b = WasmBackend::new(10, 10);
    b.hide_cursor();
    b.show_cursor(CursorKind::Bar);
    b.set_cursor(4, 9);
    b.clear();
    assert_eq!(b.flush().unwrap(), "\x1b[?25l\x1b[?25h\x1b[6 q\x1b[10;5H\x1b[2J\x1b[H");
    assert_eq!(b.claim(), "\x1b[?1049h");
    assert_eq!(b.restore(), "\x1b[?25h\x1b[?1049l");
    assert!(b.supports_true_color());
}

#[test]
fn size_prefers_the_reported_one() {
    let b = WasmBackend::new(80, 24);
    assert_eq!(b.size(&vec![120, 40]), Rect { x: 0, y: 0, width: 120, height: 40 });
    assert_eq!(b.size(&vec![120]), Rect { x: 0, y: 0, width: 80, height: 24 });
}

#[test]
fn a_cell_following_on_the_last_column_needs_no_move() {
    let content = vec![(65534u16, 3u16, cell("a")), (65535, 3, cell("b"))];
    assert!(helix_wasm::ansi::draw_fits(&content));
    let mut b = WasmBackend::new(80, 24);
    b.draw(&content);
    assert_eq!(b.flush().unwrap(), "\x1b[4;65535Hab\x1b[0m");
    assert!(!helix_wasm::ansi::draw_fits(&vec![(65535u16, 3u16, cell("c"))]));
    assert!(!helix_wasm::ansi::draw_fits(&vec![(1u16, 65535u16, cell("c"))]));
    assert!(helix_wasm::ansi::draw_fits(&vec![(0u16, 65535u16, cell("c"))]));
}
