//! A terminal backend that renders cells as ANSI escape sequences, which
//! the browser front end feeds to its terminal emulator.

use vstd::prelude::*;
use vstd::string::*;

use crate::keys::{digit_value, digits_value};

verus! {

/// A terminal color.
#[derive(Debug, Clone, Copy, PartialEq, Eq, Structural)]
pub enum Color {
    Reset,
    Black,
    Red,
    Green,
    Yellow,
    Blue,
    Magenta,
    Cyan,
    Gray,
    LightRed,
    LightGreen,
    LightYellow,
    LightBlue,
    LightMagenta,
    LightCyan,
    LightGray,
    White,
    Rgb(u8, u8, u8),
    Indexed(u8),
}

/// Text attributes.
#[derive(Debug, Clone, Copy, PartialEq, Eq, Structural)]
pub struct Modifier {
    pub bold: bool,
    pub dim: bool,
    pub italic: bool,
    pub slow_blink: bool,
    pub rapid_blink: bool,
    pub reversed: bool,
    pub hidden: bool,
    pub crossed_out: bool,
}

impl Modifier {
    pub open spec fn is_empty_spec(self) -> bool {
        !self.bold && !self.dim && !self.italic && !self.slow_blink && !self.rapid_blink
            && !self.reversed && !self.hidden && !self.crossed_out
    }

    /// No attribute.
    pub fn empty() -> (r: Modifier)
        ensures
            r.is_empty_spec(),
    {
        Modifier {
            bold: false,
            dim: false,
            italic: false,
            slow_blink: false,
            rapid_blink: false,
            reversed: false,
            hidden: false,
            crossed_out: false,
        }
    }

    /// The attributes of `self` that `other` lacks.
    pub open spec fn minus_spec(self, other: Modifier) -> Modifier {
        Modifier {
            bold: self.bold && !other.bold,
            dim: self.dim && !other.dim,
            italic: self.italic && !other.italic,
            slow_blink: self.slow_blink && !other.slow_blink,
            rapid_blink: self.rapid_blink && !other.rapid_blink,
            reversed: self.reversed && !other.reversed,
            hidden: self.hidden && !other.hidden,
            crossed_out: self.crossed_out && !other.crossed_out,
        }
    }

    pub fn minus(&self, other: &Modifier) -> (r: Modifier)
        ensures
            r == self.minus_spec(*other),
    {
        Modifier {
            bold: self.bold && !other.bold,
            dim: self.dim && !other.dim,
            italic: self.italic && !other.italic,
            slow_blink: self.slow_blink && !other.slow_blink,
            rapid_blink: self.rapid_blink && !other.rapid_blink,
            reversed: self.reversed && !other.reversed,
            hidden: self.hidden && !other.hidden,
            crossed_out: self.crossed_out && !other.crossed_out,
        }
    }

    pub fn is_empty(&self) -> (r: bool)
        ensures
            r == self.is_empty_spec(),
    {
        !self.bold && !self.dim && !self.italic && !self.slow_blink && !self.rapid_blink
            && !self.reversed && !self.hidden && !self.crossed_out
    }
}

/// How text is underlined.
#[derive(Debug, Clone, Copy, PartialEq, Eq, Structural)]
pub enum UnderlineStyle {
    Reset,
    Line,
    Curl,
    Dotted,
    Dashed,
    DoubleLine,
}

/// The shape of the cursor.
#[derive(Debug, Clone, Copy, PartialEq, Eq, Structural)]
pub enum CursorKind {
    Block,
    Bar,
    Underline,
    Hidden,
}

/// A rectangle of the screen.
#[derive(Debug, Clone, Copy, PartialEq, Eq, Structural)]
pub struct Rect {
    pub x: u16,
    pub y: u16,
    pub width: u16,
    pub height: u16,
}

/// One cell of the screen.
#[derive(Debug)]
pub struct Cell {
    pub symbol: String,
    pub fg: Color,
    pub bg: Color,
    pub underline_color: Color,
    pub underline_style: UnderlineStyle,
    pub modifier: Modifier,
}

/// The value of a [`Cell`].
pub struct CellView {
    pub symbol: Seq<char>,
    pub fg: Color,
    pub bg: Color,
    pub underline_color: Color,
    pub underline_style: UnderlineStyle,
    pub modifier: Modifier,
}

impl View for Cell {
    type V = CellView;

    open spec fn view(&self) -> CellView {
        CellView {
            symbol: self.symbol@,
            fg: self.fg,
            bg: self.bg,
            underline_color: self.underline_color,
            underline_style: self.underline_style,
            modifier: self.modifier,
        }
    }
}

// ── Numbers as text ─────────────────────────────────────────────────────────

pub open spec fn digit_text(d: nat) -> Seq<char> {
    if d == 0 {
        "0"@
    } else if d == 1 {
        "1"@
    } else if d == 2 {
        "2"@
    } else if d == 3 {
        "3"@
    } else if d == 4 {
        "4"@
    } else if d == 5 {
        "5"@
    } else if d == 6 {
        "6"@
    } else if d == 7 {
        "7"@
    } else if d == 8 {
        "8"@
    } else {
        "9"@
    }
}

/// The decimal text of `n`.
pub open spec fn decimal(n: nat) -> Seq<char>
    decreases n,
{
    if n < 10 {
        digit_text(n)
    } else {
        decimal(n / 10) + digit_text(n % 10)
    }
}

fn digit_str(d: u32) -> (r: &'static str)
    requires
        d < 10,
    ensures
        r@ == digit_text(d as nat),
{
    if d == 0 {
        "0"
    } else if d == 1 {
        "1"
    } else if d == 2 {
        "2"
    } else if d == 3 {
        "3"
    } else if d == 4 {
        "4"
    } else if d == 5 {
        "5"
    } else if d == 6 {
        "6"
    } else if d == 7 {
        "7"
    } else if d == 8 {
        "8"
    } else {
        "9"
    }
}

/// Appends the decimal text of `n`.
pub fn push_decimal(buf: &mut String, n: u32)
    ensures
        final(buf)@ == old(buf)@ + decimal(n as nat),
    decreases n,
{
    if n >= 10 {
        push_decimal(buf, n / 10);
    }
    buf.append(digit_str(n % 10));
    assert(final(buf)@ =~= old(buf)@ + decimal(n as nat));
}

// ── Escape sequences ────────────────────────────────────────────────────────

/// Moves the cursor to column `x`, row `y` (both counted from 0).
pub open spec fn goto_seq(x: u16, y: u16) -> Seq<char> {
    "\x1b["@ + decimal(y as nat + 1) + ";"@ + decimal(x as nat + 1) + "H"@
}

/// `s` when `flag` holds, else nothing.
pub open spec fn when(flag: bool, s: Seq<char>) -> Seq<char> {
    if flag {
        s
    } else {
        Seq::<char>::empty()
    }
}

/// The attributes of `m`, each switched on.
pub open spec fn modifiers_seq(m: Modifier) -> Seq<char> {
    when(m.bold, "\x1b[1m"@) + when(m.dim, "\x1b[2m"@) + when(m.italic, "\x1b[3m"@) + when(
        m.slow_blink || m.rapid_blink,
        "\x1b[5m"@,
    ) + when(m.reversed, "\x1b[7m"@) + when(m.hidden, "\x1b[8m"@) + when(
        m.crossed_out,
        "\x1b[9m"@,
    )
}

pub open spec fn underline_style_seq(s: UnderlineStyle) -> Seq<char> {
    match s {
        UnderlineStyle::Reset => "\x1b[24m"@,
        UnderlineStyle::Line => "\x1b[4m"@,
        UnderlineStyle::Curl => "\x1b[4:3m"@,
        UnderlineStyle::Dotted => "\x1b[4:4m"@,
        UnderlineStyle::Dashed => "\x1b[4:5m"@,
        UnderlineStyle::DoubleLine => "\x1b[21m"@,
    }
}

/// The underline color; named colors have no underline form and write nothing.
pub open spec fn underline_color_seq(c: Color) -> Seq<char> {
    match c {
        Color::Reset => "\x1b[59m"@,
        Color::Rgb(r, g, b) => "\x1b[58:2::"@ + decimal(r as nat) + ":"@ + decimal(g as nat) + ":"@
            + decimal(b as nat) + "m"@,
        Color::Indexed(i) => "\x1b[58:5:"@ + decimal(i as nat) + "m"@,
        _ => seq![],
    }
}

/// The offset of a named color from the base code.
pub open spec fn named_offset(c: Color) -> nat {
    match c {
        Color::Black => 0,
        Color::Red => 1,
        Color::Green => 2,
        Color::Yellow => 3,
        Color::Blue => 4,
        Color::Magenta => 5,
        Color::Cyan => 6,
        Color::White => 7,
        Color::Gray => 60,
        Color::LightRed => 61,
        Color::LightGreen => 62,
        Color::LightYellow => 63,
        Color::LightBlue => 64,
        Color::LightMagenta => 65,
        Color::LightCyan => 66,
        Color::LightGray => 67,
        _ => 0,
    }
}

/// The foreground (base 30) or background (base 40) color.
pub open spec fn color_seq(c: Color, foreground: bool) -> Seq<char> {
    let base: nat = if foreground {
        30
    } else {
        40
    };
    match c {
        Color::Reset => "\x1b["@ + decimal(
            if foreground {
                39
            } else {
                49
            },
        ) + "m"@,
        Color::Rgb(r, g, b) => "\x1b["@ + decimal(base + 8) + ";2;"@ + decimal(r as nat) + ";"@
            + decimal(g as nat) + ";"@ + decimal(b as nat) + "m"@,
        Color::Indexed(i) => "\x1b["@ + decimal(base + 8) + ";5;"@ + decimal(i as nat) + "m"@,
        _ => "\x1b["@ + decimal(base + named_offset(c)) + "m"@,
    }
}

pub open spec fn cursor_seq(kind: CursorKind) -> Seq<char> {
    match kind {
        CursorKind::Block => "\x1b[2 q"@,
        CursorKind::Bar => "\x1b[6 q"@,
        CursorKind::Underline => "\x1b[4 q"@,
        CursorKind::Hidden => "\x1b[?25l"@,
    }
}

fn push_when(buf: &mut String, flag: bool, s: &str)
    ensures
        final(buf)@ == old(buf)@ + when(flag, s@),
{
    if flag {
        buf.append(s);
    } else {
        assert(buf@ =~= old(buf)@ + Seq::<char>::empty());
    }
}

pub fn write_modifiers(buf: &mut String, m: Modifier)
    ensures
        final(buf)@ == old(buf)@ + modifiers_seq(m),
{
    let ghost b0 = buf@;
    let ghost w1 = when(m.bold, "\x1b[1m"@);
    let ghost w2 = when(m.dim, "\x1b[2m"@);
    let ghost w3 = when(m.italic, "\x1b[3m"@);
    let ghost w4 = when(m.slow_blink || m.rapid_blink, "\x1b[5m"@);
    let ghost w5 = when(m.reversed, "\x1b[7m"@);
    let ghost w6 = when(m.hidden, "\x1b[8m"@);
    let ghost w7 = when(m.crossed_out, "\x1b[9m"@);
    push_when(buf, m.bold, "\x1b[1m");
    push_when(buf, m.dim, "\x1b[2m");
    proof {
        vstd::seq_lib::lemma_concat_associative(b0, w1, w2);
    }
    push_when(buf, m.italic, "\x1b[3m");
    proof {
        vstd::seq_lib::lemma_concat_associative(b0, w1 + w2, w3);
    }
    push_when(buf, m.slow_blink || m.rapid_blink, "\x1b[5m");
    proof {
        vstd::seq_lib::lemma_concat_associative(b0, w1 + w2 + w3, w4);
    }
    push_when(buf, m.reversed, "\x1b[7m");
    proof {
        vstd::seq_lib::lemma_concat_associative(b0, w1 + w2 + w3 + w4, w5);
    }
    push_when(buf, m.hidden, "\x1b[8m");
    proof {
        vstd::seq_lib::lemma_concat_associative(b0, w1 + w2 + w3 + w4 + w5, w6);
    }
    push_when(buf, m.crossed_out, "\x1b[9m");
    proof {
        vstd::seq_lib::lemma_concat_associative(b0, w1 + w2 + w3 + w4 + w5 + w6, w7);
    }
}

pub fn write_underline_color(buf: &mut String, c: Color)
    ensures
        final(buf)@ == old(buf)@ + underline_color_seq(c),
{
    match c {
        Color::Reset => buf.append("\x1b[59m"),
        Color::Rgb(r, g, b) => {
            buf.append("\x1b[58:2::");
            push_decimal(buf, r as u32);
            buf.append(":");
            push_decimal(buf, g as u32);
            buf.append(":");
            push_decimal(buf, b as u32);
            buf.append("m");
        },
        Color::Indexed(i) => {
            buf.append("\x1b[58:5:");
            push_decimal(buf, i as u32);
            buf.append("m");
        },
        _ => {
            assert(buf@ =~= old(buf)@ + Seq::<char>::empty());
        },
    }
    assert(final(buf)@ =~= old(buf)@ + underline_color_seq(c));
}

fn named_offset_exec(c: Color) -> (r: u32)
    ensures
        r == named_offset(c),
{
    match c {
        Color::Black => 0,
        Color::Red => 1,
        Color::Green => 2,
        Color::Yellow => 3,
        Color::Blue => 4,
        Color::Magenta => 5,
        Color::Cyan => 6,
        Color::White => 7,
        Color::Gray => 60,
        Color::LightRed => 61,
        Color::LightGreen => 62,
        Color::LightYellow => 63,
        Color::LightBlue => 64,
        Color::LightMagenta => 65,
        Color::LightCyan => 66,
        Color::LightGray => 67,
        _ => 0,
    }
}

#[verifier::spinoff_prover]
pub fn write_color(buf: &mut String, c: Color, foreground: bool)
    ensures
        final(buf)@ == old(buf)@ + color_seq(c, foreground),
{
    let ghost b0 = buf@;
    let base: u32 = if foreground {
        30
    } else {
        40
    };
    match c {
        Color::Reset => {
            buf.append("\x1b[");
            push_decimal(
                buf,
                if foreground {
                    39
                } else {
                    49
                },
            );
            buf.append("m");
            assert(buf@ =~= b0 + color_seq(c, foreground));
        },
        Color::Rgb(r, g, b) => {
            buf.append("\x1b[");
            push_decimal(buf, base + 8);
            buf.append(";2;");
            push_decimal(buf, r as u32);
            buf.append(";");
            push_decimal(buf, g as u32);
            buf.append(";");
            push_decimal(buf, b as u32);
            buf.append("m");
            assert(buf@ =~= b0 + color_seq(c, foreground));
        },
        Color::Indexed(i) => {
            buf.append("\x1b[");
            push_decimal(buf, base + 8);
            buf.append(";5;");
            push_decimal(buf, i as u32);
            buf.append("m");
            assert(buf@ =~= b0 + color_seq(c, foreground));
        },
        _ => {
            buf.append("\x1b[");
            push_decimal(buf, base + named_offset_exec(c));
            buf.append("m");
            assert(buf@ =~= b0 + color_seq(c, foreground));
        },
    }
}

fn push_goto(buf: &mut String, x: u16, y: u16)
    requires
        x < u16::MAX,
        y < u16::MAX,
    ensures
        final(buf)@ == old(buf)@ + goto_seq(x, y),
{
    buf.append("\x1b[");
    push_decimal(buf, (y as u32) + 1);
    buf.append(";");
    push_decimal(buf, (x as u32) + 1);
    buf.append("H");
    assert(final(buf)@ =~= old(buf)@ + goto_seq(x, y));
}

fn push_underline_style(buf: &mut String, s: UnderlineStyle)
    ensures
        final(buf)@ == old(buf)@ + underline_style_seq(s),
{
    match s {
        UnderlineStyle::Reset => buf.append("\x1b[24m"),
        UnderlineStyle::Line => buf.append("\x1b[4m"),
        UnderlineStyle::Curl => buf.append("\x1b[4:3m"),
        UnderlineStyle::Dotted => buf.append("\x1b[4:4m"),
        UnderlineStyle::Dashed => buf.append("\x1b[4:5m"),
        UnderlineStyle::DoubleLine => buf.append("\x1b[21m"),
    }
}

// ── Drawing ─────────────────────────────────────────────────────────────────

/// What the terminal was last told while drawing.
#[derive(Debug, Clone, Copy, PartialEq, Eq, Structural)]
pub struct DrawState {
    pub last_x: u16,
    pub last_y: u16,
    pub fg: Color,
    pub bg: Color,
    pub modifier: Modifier,
    pub underline_style: UnderlineStyle,
    pub underline_color: Color,
}

pub open spec fn initial_draw_state() -> DrawState {
    DrawState {
        last_x: u16::MAX,
        last_y: u16::MAX,
        fg: Color::Reset,
        bg: Color::Reset,
        modifier: Modifier {
            bold: false,
            dim: false,
            italic: false,
            slow_blink: false,
            rapid_blink: false,
            reversed: false,
            hidden: false,
            crossed_out: false,
        },
        underline_style: UnderlineStyle::Reset,
        underline_color: Color::Reset,
    }
}

/// The column after `x`, wrapping past the last one.
pub open spec fn next_column(x: u16) -> u16 {
    if x == u16::MAX {
        0
    } else {
        (x + 1) as u16
    }
}

/// Moving to column `x`, row `y`: the cursor moves only when the cell does
/// not follow the previous one.
pub open spec fn move_step(st: DrawState, x: u16, y: u16) -> (DrawState, Seq<char>) {
    (
        DrawState { last_x: x, last_y: y, ..st },
        when(x != next_column(st.last_x) || y != st.last_y, goto_seq(x, y)),
    )
}

/// Switching to the attributes `m`: nothing when they are unchanged; when an
/// attribute is removed, everything is reset and `m` written whole; else the
/// added attributes are written.
pub open spec fn modifier_step(st: DrawState, m: Modifier) -> (DrawState, Seq<char>) {
    if m != st.modifier {
        if !st.modifier.minus_spec(m).is_empty_spec() {
            (
                DrawState {
                    fg: Color::Reset,
                    bg: Color::Reset,
                    underline_style: UnderlineStyle::Reset,
                    underline_color: Color::Reset,
                    modifier: m,
                    ..st
                },
                "\x1b[0m"@ + modifiers_seq(m),
            )
        } else {
            (DrawState { modifier: m, ..st }, modifiers_seq(m.minus_spec(st.modifier)))
        }
    } else {
        (st, Seq::<char>::empty())
    }
}

pub open spec fn underline_style_step(st: DrawState, u: UnderlineStyle) -> (DrawState, Seq<char>) {
    if u != st.underline_style {
        (DrawState { underline_style: u, ..st }, underline_style_seq(u))
    } else {
        (st, Seq::<char>::empty())
    }
}

pub open spec fn underline_color_step(st: DrawState, c: Color) -> (DrawState, Seq<char>) {
    if c != st.underline_color {
        (DrawState { underline_color: c, ..st }, underline_color_seq(c))
    } else {
        (st, Seq::<char>::empty())
    }
}

pub open spec fn fg_step(st: DrawState, c: Color) -> (DrawState, Seq<char>) {
    if c != st.fg {
        (DrawState { fg: c, ..st }, color_seq(c, true))
    } else {
        (st, Seq::<char>::empty())
    }
}

pub open spec fn bg_step(st: DrawState, c: Color) -> (DrawState, Seq<char>) {
    if c != st.bg {
        (DrawState { bg: c, ..st }, color_seq(c, false))
    } else {
        (st, Seq::<char>::empty())
    }
}

/// Drawing one cell at column `x`, row `y`: the state afterwards and the
/// text written.  Attributes, underline, and colors are written only when
/// they change, in that order, then the cell's symbol.
pub open spec fn draw_cell(st: DrawState, x: u16, y: u16, c: CellView) -> (DrawState, Seq<char>) {
    let s1 = move_step(st, x, y);
    let s2 = modifier_step(s1.0, c.modifier);
    let s3 = underline_style_step(s2.0, c.underline_style);
    let s4 = underline_color_step(s3.0, c.underline_color);
    let s5 = fg_step(s4.0, c.fg);
    let s6 = bg_step(s5.0, c.bg);
    (s6.0, s1.1 + s2.1 + s3.1 + s4.1 + s5.1 + s6.1 + c.symbol)
}

/// Drawing the cells in order from the state `st0`: the state afterwards and
/// the text written.
pub open spec fn draw_cells(st0: DrawState, cells: Seq<(u16, u16, CellView)>) -> (
    DrawState,
    Seq<char>,
)
    decreases cells.len(),
{
    if cells.len() == 0 {
        (st0, seq![])
    } else {
        let (st, out) = draw_cells(st0, cells.drop_last());
        let (x, y, c) = cells.last();
        let (st2, more) = draw_cell(st, x, y, c);
        (st2, out + more)
    }
}

/// Everything `draw` writes for the cells: the cells drawn from a clean
/// state, then an attribute reset.
pub open spec fn draw_spec(cells: Seq<(u16, u16, CellView)>) -> Seq<char> {
    draw_cells(initial_draw_state(), cells).1 + "\x1b[0m"@
}

/// The cursor has to be moved to draw at column `x`, row `y` after the
/// cell the state records: the new cell does not follow it on the same row.
pub open spec fn moves_to(st: DrawState, x: u16, y: u16) -> bool {
    x != next_column(st.last_x) || y != st.last_y
}

/// Where the cell before the `i`-th was drawn; before the first, nowhere.
pub open spec fn prev_position(cells: Seq<(u16, u16, CellView)>, i: int) -> (u16, u16) {
    if i == 0 {
        (u16::MAX, u16::MAX)
    } else {
        (cells[i - 1].0, cells[i - 1].1)
    }
}

/// The `i`-th cell does not follow the one before it.
pub open spec fn cell_moves(cells: Seq<(u16, u16, CellView)>, i: int) -> bool {
    cells[i].0 != next_column(prev_position(cells, i).0) || cells[i].1 != prev_position(cells, i).1
}

/// Every cursor move the cells need goes to a column and row below the
/// largest `u16`, whose successor the escape sequence would print.
pub open spec fn moves_fit(cells: Seq<(u16, u16, CellView)>) -> bool {
    forall|i: int|
        0 <= i < cells.len() ==> #[trigger] cell_moves(cells, i) ==> cells[i].0 < u16::MAX
            && cells[i].1 < u16::MAX
}

/// After a cell is drawn, the state records where it was drawn.
proof fn lemma_draw_cell_position(st: DrawState, x: u16, y: u16, c: CellView)
    ensures
        draw_cell(st, x, y, c).0.last_x == x,
        draw_cell(st, x, y, c).0.last_y == y,
{
}

/// Whether drawing `content` needs no cursor move to the last column or
/// row.
pub fn draw_fits(content: &Vec<(u16, u16, Cell)>) -> (r: bool)
    ensures
        r == moves_fit(cells_view(content@)),
{
    let ghost cells = cells_view(content@);
    let mut last_x: u16 = u16::MAX;
    let mut last_y: u16 = u16::MAX;
    let mut i: usize = 0;
    while i < content.len()
        invariant
            0 <= i <= content@.len(),
            cells == cells_view(content@),
            (last_x, last_y) == prev_position(cells, i as int),
            forall|j: int|
                0 <= j < i ==> #[trigger] cell_moves(cells, j) ==> cells[j].0 < u16::MAX
                    && cells[j].1 < u16::MAX,
        decreases content.len() - i,
    {
        let x = content[i].0;
        let y = content[i].1;
        assert(cells[i as int].0 == x && cells[i as int].1 == y);
        let next = if last_x == u16::MAX {
            0
        } else {
            last_x + 1
        };
        if (x != next || y != last_y) && (x == u16::MAX || y == u16::MAX) {
            assert(cell_moves(cells, i as int));
            return false;
        }
        last_x = x;
        last_y = y;
        i = i + 1;
    }
    true
}

pub open spec fn cells_view(cells: Seq<(u16, u16, Cell)>) -> Seq<(u16, u16, CellView)> {
    cells.map_values(|t: (u16, u16, Cell)| (t.0, t.1, t.2@))
}

fn apply_move(buf: &mut String, st: &mut DrawState, x: u16, y: u16)
    requires
        moves_to(*old(st), x, y) ==> x < u16::MAX && y < u16::MAX,
    ensures
        (*final(st), final(buf)@) == (
            move_step(*old(st), x, y).0,
            old(buf)@ + move_step(*old(st), x, y).1,
        ),
{
    let next = if st.last_x == u16::MAX {
        0
    } else {
        st.last_x + 1
    };
    if x != next || y != st.last_y {
        push_goto(buf, x, y);
    } else {
        assert(buf@ =~= old(buf)@ + Seq::<char>::empty());
    }
    st.last_x = x;
    st.last_y = y;
}

fn apply_modifier(buf: &mut String, st: &mut DrawState, m: Modifier)
    ensures
        (*final(st), final(buf)@) == (
            modifier_step(*old(st), m).0,
            old(buf)@ + modifier_step(*old(st), m).1,
        ),
{
    if m != st.modifier {
        let removed = st.modifier.minus(&m);
        let added = m.minus(&st.modifier);
        if !removed.is_empty() {
            buf.append("\x1b[0m");
            st.fg = Color::Reset;
            st.bg = Color::Reset;
            st.underline_style = UnderlineStyle::Reset;
            st.underline_color = Color::Reset;
            write_modifiers(buf, m);
            proof {
                vstd::seq_lib::lemma_concat_associative(old(buf)@, "\x1b[0m"@, modifiers_seq(m));
            }
        } else {
            write_modifiers(buf, added);
        }
        st.modifier = m;
    } else {
        assert(buf@ =~= old(buf)@ + Seq::<char>::empty());
    }
}

fn apply_underline_style(buf: &mut String, st: &mut DrawState, u: UnderlineStyle)
    ensures
        (*final(st), final(buf)@) == (
            underline_style_step(*old(st), u).0,
            old(buf)@ + underline_style_step(*old(st), u).1,
        ),
{
    if u != st.underline_style {
        st.underline_style = u;
        push_underline_style(buf, u);
    } else {
        assert(buf@ =~= old(buf)@ + Seq::<char>::empty());
    }
}

fn apply_underline_color(buf: &mut String, st: &mut DrawState, c: Color)
    ensures
        (*final(st), final(buf)@) == (
            underline_color_step(*old(st), c).0,
            old(buf)@ + underline_color_step(*old(st), c).1,
        ),
{
    if c != st.underline_color {
        st.underline_color = c;
        write_underline_color(buf, c);
    } else {
        assert(buf@ =~= old(buf)@ + Seq::<char>::empty());
    }
}

fn apply_fg(buf: &mut String, st: &mut DrawState, c: Color)
    ensures
        (*final(st), final(buf)@) == (fg_step(*old(st), c).0, old(buf)@ + fg_step(*old(st), c).1),
{
    if c != st.fg {
        st.fg = c;
        write_color(buf, c, true);
    } else {
        assert(buf@ =~= old(buf)@ + Seq::<char>::empty());
    }
}

fn apply_bg(buf: &mut String, st: &mut DrawState, c: Color)
    ensures
        (*final(st), final(buf)@) == (bg_step(*old(st), c).0, old(buf)@ + bg_step(*old(st), c).1),
{
    if c != st.bg {
        st.bg = c;
        write_color(buf, c, false);
    } else {
        assert(buf@ =~= old(buf)@ + Seq::<char>::empty());
    }
}

fn draw_one(buf: &mut String, st: DrawState, x: u16, y: u16, c: &Cell) -> (r: DrawState)
    requires
        moves_to(st, x, y) ==> x < u16::MAX && y < u16::MAX,
    ensures
        r == draw_cell(st, x, y, c@).0,
        final(buf)@ == old(buf)@ + draw_cell(st, x, y, c@).1,
{
    let ghost b0 = buf@;
    let ghost s1 = move_step(st, x, y);
    let ghost s2 = modifier_step(s1.0, c.modifier);
    let ghost s3 = underline_style_step(s2.0, c.underline_style);
    let ghost s4 = underline_color_step(s3.0, c.underline_color);
    let ghost s5 = fg_step(s4.0, c.fg);
    let ghost s6 = bg_step(s5.0, c.bg);
    let mut s = st;
    apply_move(buf, &mut s, x, y);
    apply_modifier(buf, &mut s, c.modifier);
    proof {
        vstd::seq_lib::lemma_concat_associative(b0, s1.1, s2.1);
    }
    apply_underline_style(buf, &mut s, c.underline_style);
    proof {
        vstd::seq_lib::lemma_concat_associative(b0, s1.1 + s2.1, s3.1);
    }
    apply_underline_color(buf, &mut s, c.underline_color);
    proof {
        vstd::seq_lib::lemma_concat_associative(b0, s1.1 + s2.1 + s3.1, s4.1);
    }
    apply_fg(buf, &mut s, c.fg);
    proof {
        vstd::seq_lib::lemma_concat_associative(b0, s1.1 + s2.1 + s3.1 + s4.1, s5.1);
    }
    apply_bg(buf, &mut s, c.bg);
    proof {
        vstd::seq_lib::lemma_concat_associative(b0, s1.1 + s2.1 + s3.1 + s4.1 + s5.1, s6.1);
    }
    buf.append(c.symbol.as_str());
    proof {
        vstd::seq_lib::lemma_concat_associative(
            b0,
            s1.1 + s2.1 + s3.1 + s4.1 + s5.1 + s6.1,
            c.symbol@,
        );
    }
    s
}

/// A backend that renders into a text buffer; the front end writes the
/// buffer to the browser's terminal.
pub struct WasmBackend {
    buf: String,
    width: u16,
    height: u16,
}

impl WasmBackend {
    /// The text not yet handed to the terminal.
    pub closed spec fn pending(&self) -> Seq<char> {
        self.buf@
    }

    /// The size used when the terminal does not report one.
    pub closed spec fn fallback_size(&self) -> (u16, u16) {
        (self.width, self.height)
    }

    pub fn new(width: u16, height: u16) -> (r: WasmBackend)
        ensures
            r.pending() == Seq::<char>::empty(),
            r.fallback_size() == (width, height),
    {
        WasmBackend { buf: String::new(), width, height }
    }

    /// Hands out the pending text and empties the buffer.
    fn take(&mut self) -> (r: String)
        ensures
            r@ == old(self).pending(),
            final(self).pending() == Seq::<char>::empty(),
            final(self).fallback_size() == old(self).fallback_size(),
    {
        let mut out = String::new();
        std::mem::swap(&mut self.buf, &mut out);
        out
    }

    /// Enters the alternate screen; the text to write to the terminal now.
    pub fn claim(&mut self) -> (r: String)
        ensures
            r@ == old(self).pending() + "\x1b[?1049h"@,
            final(self).pending() == Seq::<char>::empty(),
            final(self).fallback_size() == old(self).fallback_size(),
    {
        self.buf.append("\x1b[?1049h");
        self.take()
    }

    /// Shows the cursor and leaves the alternate screen; the text to write to
    /// the terminal now.
    pub fn restore(&mut self) -> (r: String)
        ensures
            r@ == old(self).pending() + "\x1b[?25h\x1b[?1049l"@,
            final(self).pending() == Seq::<char>::empty(),
            final(self).fallback_size() == old(self).fallback_size(),
    {
        self.buf.append("\x1b[?25h\x1b[?1049l");
        self.take()
    }

    /// Renders the cells, each given with its column and row.
    #[verifier::rlimit(30)]
    pub fn draw(&mut self, content: &Vec<(u16, u16, Cell)>)
        requires
            moves_fit(cells_view(content@)),
        ensures
            final(self).pending() == old(self).pending() + draw_spec(cells_view(content@)),
            final(self).fallback_size() == old(self).fallback_size(),
    {
        let ghost cells = cells_view(content@);
        let ghost b0 = self.buf@;
        let mut st = DrawState {
            last_x: u16::MAX,
            last_y: u16::MAX,
            fg: Color::Reset,
            bg: Color::Reset,
            modifier: Modifier::empty(),
            underline_style: UnderlineStyle::Reset,
            underline_color: Color::Reset,
        };
        assert(st == initial_draw_state());
        let mut i: usize = 0;
        assert(cells.take(0) =~= Seq::<(u16, u16, CellView)>::empty());
        assert(self.buf@ =~= b0 + Seq::<char>::empty());
        while i < content.len()
            invariant
                0 <= i <= content@.len(),
                cells == cells_view(content@),
                moves_fit(cells),
                st.last_x == prev_position(cells, i as int).0,
                st.last_y == prev_position(cells, i as int).1,
                (st, self.buf@) == (
                    draw_cells(initial_draw_state(), cells.take(i as int)).0,
                    b0 + draw_cells(initial_draw_state(), cells.take(i as int)).1,
                ),
                self.width == old(self).width,
                self.height == old(self).height,
            decreases content.len() - i,
        {
            let t = &content[i];
            proof {
                assert(content@[i as int] == *t);
                assert(cells[i as int] == (t.0, t.1, t.2@));
                assert(cell_moves(cells, i as int) ==> t.0 < u16::MAX && t.1 < u16::MAX);
                assert(cells.take(i + 1).drop_last() =~= cells.take(i as int));
                assert(cells.take(i + 1).last() == (t.0, t.1, t.2@));
            }
            let ghost before = self.buf@;
            st = draw_one(&mut self.buf, st, t.0, t.1, &t.2);
            proof {
                lemma_draw_cell_position(
                    draw_cells(initial_draw_state(), cells.take(i as int)).0,
                    t.0,
                    t.1,
                    t.2@,
                );
                assert(prev_position(cells, i + 1) == (t.0, t.1));
                let prev = draw_cells(initial_draw_state(), cells.take(i as int));
                let more = draw_cell(prev.0, t.0, t.1, t.2@);
                assert(self.buf@ =~= b0 + (prev.1 + more.1));
            }
            i = i + 1;
        }
        self.buf.append("\x1b[0m");
        assert(cells.take(content.len() as int) =~= cells);
        assert(self.buf@ =~= b0 + draw_spec(cells));
    }

    pub fn hide_cursor(&mut self)
        ensures
            final(self).pending() == old(self).pending() + "\x1b[?25l"@,
            final(self).fallback_size() == old(self).fallback_size(),
    {
        self.buf.append("\x1b[?25l");
    }

    /// Shows the cursor with the given shape.
    pub fn show_cursor(&mut self, kind: CursorKind)
        ensures
            final(self).pending() == old(self).pending() + "\x1b[?25h"@ + cursor_seq(kind),
            final(self).fallback_size() == old(self).fallback_size(),
    {
        self.buf.append("\x1b[?25h");
        match kind {
            CursorKind::Block => self.buf.append("\x1b[2 q"),
            CursorKind::Bar => self.buf.append("\x1b[6 q"),
            CursorKind::Underline => self.buf.append("\x1b[4 q"),
            CursorKind::Hidden => self.buf.append("\x1b[?25l"),
        }
    }

    /// Moves the cursor to column `x`, row `y`.
    pub fn set_cursor(&mut self, x: u16, y: u16)
        requires
            x < u16::MAX,
            y < u16::MAX,
        ensures
            final(self).pending() == old(self).pending() + goto_seq(x, y),
            final(self).fallback_size() == old(self).fallback_size(),
    {
        push_goto(&mut self.buf, x, y);
    }

    /// Clears the screen and homes the cursor.
    pub fn clear(&mut self)
        ensures
            final(self).pending() == old(self).pending() + "\x1b[2J\x1b[H"@,
            final(self).fallback_size() == old(self).fallback_size(),
    {
        self.buf.append("\x1b[2J\x1b[H");
    }

    /// The screen size: what the terminal reports when it reports two
    /// numbers, else the size the backend was made with.
    pub fn size(&self, reported: &Vec<u16>) -> (r: Rect)
        ensures
            reported@.len() >= 2 ==> r == (Rect {
                x: 0,
                y: 0,
                width: reported@[0],
                height: reported@[1],
            }),
            reported@.len() < 2 ==> r == (Rect {
                x: 0,
                y: 0,
                width: self.fallback_size().0,
                height: self.fallback_size().1,
            }),
    {
        if reported.len() >= 2 {
            Rect { x: 0, y: 0, width: reported[0], height: reported[1] }
        } else {
            Rect { x: 0, y: 0, width: self.width, height: self.height }
        }
    }

    /// The pending text to write to the terminal, if there is any; the buffer
    /// is emptied.
    pub fn flush(&mut self) -> (r: Option<String>)
        ensures
            old(self).pending().len() == 0 ==> r is None,
            old(self).pending().len() > 0 ==> (r matches Some(s) && s@ == old(self).pending()),
            final(self).pending() == Seq::<char>::empty(),
            final(self).fallback_size() == old(self).fallback_size(),
    {
        if self.buf.as_str().is_empty() {
            assert(self.buf@ =~= Seq::<char>::empty());
            None
        } else {
            Some(self.take())
        }
    }

    pub fn supports_true_color(&self) -> (r: bool)
        ensures
            r,
    {
        true
    }
}

/// The text of a two-digit number: its tens digit, then its units digit.
proof fn lemma_decimal_two(n: nat)
    requires
        10 <= n < 100,
    ensures
        decimal(n) == digit_text(n / 10) + digit_text(n % 10),
{
    assert(decimal(n / 10) == digit_text(n / 10));
}

/// The text of a three-digit number below 200: `1`, then its tens digit,
/// then its units digit.
proof fn lemma_decimal_three(n: nat)
    requires
        100 <= n < 200,
    ensures
        decimal(n) == digit_text(1) + digit_text((n / 10) % 10) + digit_text(n % 10),
{
    lemma_decimal_two(n / 10);
    assert((n / 10) / 10 == 1);
}

/// Named colors use the standard SGR codes: foreground 30 to 37 for black,
/// red, green, yellow, blue, magenta, cyan and white and 90 to 97 for their
/// bright forms; background 40 to 47 and 100 to 107; the default is 39 for
/// the foreground and 49 for the background.
pub proof fn law_named_color_codes()
    ensures
        color_seq(Color::Black, true) == "\x1b[30m"@,
        color_seq(Color::Black, false) == "\x1b[40m"@,
        color_seq(Color::Red, true) == "\x1b[31m"@,
        color_seq(Color::Red, false) == "\x1b[41m"@,
        color_seq(Color::Green, true) == "\x1b[32m"@,
        color_seq(Color::Green, false) == "\x1b[42m"@,
        color_seq(Color::Yellow, true) == "\x1b[33m"@,
        color_seq(Color::Yellow, false) == "\x1b[43m"@,
        color_seq(Color::Blue, true) == "\x1b[34m"@,
        color_seq(Color::Blue, false) == "\x1b[44m"@,
        color_seq(Color::Magenta, true) == "\x1b[35m"@,
        color_seq(Color::Magenta, false) == "\x1b[45m"@,
        color_seq(Color::Cyan, true) == "\x1b[36m"@,
        color_seq(Color::Cyan, false) == "\x1b[46m"@,
        color_seq(Color::White, true) == "\x1b[37m"@,
        color_seq(Color::White, false) == "\x1b[47m"@,
        color_seq(Color::Gray, true) == "\x1b[90m"@,
        color_seq(Color::Gray, false) == "\x1b[100m"@,
        color_seq(Color::LightRed, true) == "\x1b[91m"@,
        color_seq(Color::LightRed, false) == "\x1b[101m"@,
        color_seq(Color::LightGreen, true) == "\x1b[92m"@,
        color_seq(Color::LightGreen, false) == "\x1b[102m"@,
        color_seq(Color::LightYellow, true) == "\x1b[93m"@,
        color_seq(Color::LightYellow, false) == "\x1b[103m"@,
        color_seq(Color::LightBlue, true) == "\x1b[94m"@,
        color_seq(Color::LightBlue, false) == "\x1b[104m"@,
        color_seq(Color::LightMagenta, true) == "\x1b[95m"@,
        color_seq(Color::LightMagenta, false) == "\x1b[105m"@,
        color_seq(Color::LightCyan, true) == "\x1b[96m"@,
        color_seq(Color::LightCyan, false) == "\x1b[106m"@,
        color_seq(Color::LightGray, true) == "\x1b[97m"@,
        color_seq(Color::LightGray, false) == "\x1b[107m"@,
        color_seq(Color::Reset, true) == "\x1b[39m"@,
        color_seq(Color::Reset, false) == "\x1b[49m"@,
{
    assert(color_seq(Color::Black, true) == "\x1b[30m"@) by {
        lemma_decimal_two(30);
        reveal_strlit("\x1b[30m");
        reveal_strlit("\x1b[");
        reveal_strlit("m");
        reveal_strlit("0");
        reveal_strlit("1");
        reveal_strlit("2");
        reveal_strlit("3");
        reveal_strlit("4");
        reveal_strlit("5");
        reveal_strlit("6");
        reveal_strlit("7");
        reveal_strlit("8");
        reveal_strlit("9");
        assert(color_seq(Color::Black, true) =~= "\x1b[30m"@);
    }
    assert(color_seq(Color::Black, false) == "\x1b[40m"@) by {
        lemma_decimal_two(40);
        reveal_strlit("\x1b[40m");
        reveal_strlit("\x1b[");
        reveal_strlit("m");
        reveal_strlit("0");
        reveal_strlit("1");
        reveal_strlit("2");
        reveal_strlit("3");
        reveal_strlit("4");
        reveal_strlit("5");
        reveal_strlit("6");
        reveal_strlit("7");
        reveal_strlit("8");
        reveal_strlit("9");
        assert(color_seq(Color::Black, false) =~= "\x1b[40m"@);
    }
    assert(color_seq(Color::Red, true) == "\x1b[31m"@) by {
        lemma_decimal_two(31);
        reveal_strlit("\x1b[31m");
        reveal_strlit("\x1b[");
        reveal_strlit("m");
        reveal_strlit("0");
        reveal_strlit("1");
        reveal_strlit("2");
        reveal_strlit("3");
        reveal_strlit("4");
        reveal_strlit("5");
        reveal_strlit("6");
        reveal_strlit("7");
        reveal_strlit("8");
        reveal_strlit("9");
        assert(color_seq(Color::Red, true) =~= "\x1b[31m"@);
    }
    assert(color_seq(Color::Red, false) == "\x1b[41m"@) by {
        lemma_decimal_two(41);
        reveal_strlit("\x1b[41m");
        reveal_strlit("\x1b[");
        reveal_strlit("m");
        reveal_strlit("0");
        reveal_strlit("1");
        reveal_strlit("2");
        reveal_strlit("3");
        reveal_strlit("4");
        reveal_strlit("5");
        reveal_strlit("6");
        reveal_strlit("7");
        reveal_strlit("8");
        reveal_strlit("9");
        assert(color_seq(Color::Red, false) =~= "\x1b[41m"@);
    }
    assert(color_seq(Color::Green, true) == "\x1b[32m"@) by {
        lemma_decimal_two(32);
        reveal_strlit("\x1b[32m");
        reveal_strlit("\x1b[");
        reveal_strlit("m");
        reveal_strlit("0");
        reveal_strlit("1");
        reveal_strlit("2");
        reveal_strlit("3");
        reveal_strlit("4");
        reveal_strlit("5");
        reveal_strlit("6");
        reveal_strlit("7");
        reveal_strlit("8");
        reveal_strlit("9");
        assert(color_seq(Color::Green, true) =~= "\x1b[32m"@);
    }
    assert(color_seq(Color::Green, false) == "\x1b[42m"@) by {
        lemma_decimal_two(42);
        reveal_strlit("\x1b[42m");
        reveal_strlit("\x1b[");
        reveal_strlit("m");
        reveal_strlit("0");
        reveal_strlit("1");
        reveal_strlit("2");
        reveal_strlit("3");
        reveal_strlit("4");
        reveal_strlit("5");
        reveal_strlit("6");
        reveal_strlit("7");
        reveal_strlit("8");
        reveal_strlit("9");
        assert(color_seq(Color::Green, false) =~= "\x1b[42m"@);
    }
    assert(color_seq(Color::Yellow, true) == "\x1b[33m"@) by {
        lemma_decimal_two(33);
        reveal_strlit("\x1b[33m");
        reveal_strlit("\x1b[");
        reveal_strlit("m");
        reveal_strlit("0");
        reveal_strlit("1");
        reveal_strlit("2");
        reveal_strlit("3");
        reveal_strlit("4");
        reveal_strlit("5");
        reveal_strlit("6");
        reveal_strlit("7");
        reveal_strlit("8");
        reveal_strlit("9");
        assert(color_seq(Color::Yellow, true) =~= "\x1b[33m"@);
    }
    assert(color_seq(Color::Yellow, false) == "\x1b[43m"@) by {
        lemma_decimal_two(43);
        reveal_strlit("\x1b[43m");
        reveal_strlit("\x1b[");
        reveal_strlit("m");
        reveal_strlit("0");
        reveal_strlit("1");
        reveal_strlit("2");
        reveal_strlit("3");
        reveal_strlit("4");
        reveal_strlit("5");
        reveal_strlit("6");
        reveal_strlit("7");
        reveal_strlit("8");
        reveal_strlit("9");
        assert(color_seq(Color::Yellow, false) =~= "\x1b[43m"@);
    }
    assert(color_seq(Color::Blue, true) == "\x1b[34m"@) by {
        lemma_decimal_two(34);
        reveal_strlit("\x1b[34m");
        reveal_strlit("\x1b[");
        reveal_strlit("m");
        reveal_strlit("0");
        reveal_strlit("1");
        reveal_strlit("2");
        reveal_strlit("3");
        reveal_strlit("4");
        reveal_strlit("5");
        reveal_strlit("6");
        reveal_strlit("7");
        reveal_strlit("8");
        reveal_strlit("9");
        assert(color_seq(Color::Blue, true) =~= "\x1b[34m"@);
    }
    assert(color_seq(Color::Blue, false) == "\x1b[44m"@) by {
        lemma_decimal_two(44);
        reveal_strlit("\x1b[44m");
        reveal_strlit("\x1b[");
        reveal_strlit("m");
        reveal_strlit("0");
        reveal_strlit("1");
        reveal_strlit("2");
        reveal_strlit("3");
        reveal_strlit("4");
        reveal_strlit("5");
        reveal_strlit("6");
        reveal_strlit("7");
        reveal_strlit("8");
        reveal_strlit("9");
        assert(color_seq(Color::Blue, false) =~= "\x1b[44m"@);
    }
    assert(color_seq(Color::Magenta, true) == "\x1b[35m"@) by {
        lemma_decimal_two(35);
        reveal_strlit("\x1b[35m");
        reveal_strlit("\x1b[");
        reveal_strlit("m");
        reveal_strlit("0");
        reveal_strlit("1");
        reveal_strlit("2");
        reveal_strlit("3");
        reveal_strlit("4");
        reveal_strlit("5");
        reveal_strlit("6");
        reveal_strlit("7");
        reveal_strlit("8");
        reveal_strlit("9");
        assert(color_seq(Color::Magenta, true) =~= "\x1b[35m"@);
    }
    assert(color_seq(Color::Magenta, false) == "\x1b[45m"@) by {
        lemma_decimal_two(45);
        reveal_strlit("\x1b[45m");
        reveal_strlit("\x1b[");
        reveal_strlit("m");
        reveal_strlit("0");
        reveal_strlit("1");
        reveal_strlit("2");
        reveal_strlit("3");
        reveal_strlit("4");
        reveal_strlit("5");
        reveal_strlit("6");
        reveal_strlit("7");
        reveal_strlit("8");
        reveal_strlit("9");
        assert(color_seq(Color::Magenta, false) =~= "\x1b[45m"@);
    }
    assert(color_seq(Color::Cyan, true) == "\x1b[36m"@) by {
        lemma_decimal_two(36);
        reveal_strlit("\x1b[36m");
        reveal_strlit("\x1b[");
        reveal_strlit("m");
        reveal_strlit("0");
        reveal_strlit("1");
        reveal_strlit("2");
        reveal_strlit("3");
        reveal_strlit("4");
        reveal_strlit("5");
        reveal_strlit("6");
        reveal_strlit("7");
        reveal_strlit("8");
        reveal_strlit("9");
        assert(color_seq(Color::Cyan, true) =~= "\x1b[36m"@);
    }
    assert(color_seq(Color::Cyan, false) == "\x1b[46m"@) by {
        lemma_decimal_two(46);
        reveal_strlit("\x1b[46m");
        reveal_strlit("\x1b[");
        reveal_strlit("m");
        reveal_strlit("0");
        reveal_strlit("1");
        reveal_strlit("2");
        reveal_strlit("3");
        reveal_strlit("4");
        reveal_strlit("5");
        reveal_strlit("6");
        reveal_strlit("7");
        reveal_strlit("8");
        reveal_strlit("9");
        assert(color_seq(Color::Cyan, false) =~= "\x1b[46m"@);
    }
    assert(color_seq(Color::White, true) == "\x1b[37m"@) by {
        lemma_decimal_two(37);
        reveal_strlit("\x1b[37m");
        reveal_strlit("\x1b[");
        reveal_strlit("m");
        reveal_strlit("0");
        reveal_strlit("1");
        reveal_strlit("2");
        reveal_strlit("3");
        reveal_strlit("4");
        reveal_strlit("5");
        reveal_strlit("6");
        reveal_strlit("7");
        reveal_strlit("8");
        reveal_strlit("9");
        assert(color_seq(Color::White, true) =~= "\x1b[37m"@);
    }
    assert(color_seq(Color::White, false) == "\x1b[47m"@) by {
        lemma_decimal_two(47);
        reveal_strlit("\x1b[47m");
        reveal_strlit("\x1b[");
        reveal_strlit("m");
        reveal_strlit("0");
        reveal_strlit("1");
        reveal_strlit("2");
        reveal_strlit("3");
        reveal_strlit("4");
        reveal_strlit("5");
        reveal_strlit("6");
        reveal_strlit("7");
        reveal_strlit("8");
        reveal_strlit("9");
        assert(color_seq(Color::White, false) =~= "\x1b[47m"@);
    }
    assert(color_seq(Color::Gray, true) == "\x1b[90m"@) by {
        lemma_decimal_two(90);
        reveal_strlit("\x1b[90m");
        reveal_strlit("\x1b[");
        reveal_strlit("m");
        reveal_strlit("0");
        reveal_strlit("1");
        reveal_strlit("2");
        reveal_strlit("3");
        reveal_strlit("4");
        reveal_strlit("5");
        reveal_strlit("6");
        reveal_strlit("7");
        reveal_strlit("8");
        reveal_strlit("9");
        assert(color_seq(Color::Gray, true) =~= "\x1b[90m"@);
    }
    assert(color_seq(Color::Gray, false) == "\x1b[100m"@) by {
        lemma_decimal_three(100);
        reveal_strlit("\x1b[100m");
        reveal_strlit("\x1b[");
        reveal_strlit("m");
        reveal_strlit("0");
        reveal_strlit("1");
        reveal_strlit("2");
        reveal_strlit("3");
        reveal_strlit("4");
        reveal_strlit("5");
        reveal_strlit("6");
        reveal_strlit("7");
        reveal_strlit("8");
        reveal_strlit("9");
        assert(color_seq(Color::Gray, false) =~= "\x1b[100m"@);
    }
    assert(color_seq(Color::LightRed, true) == "\x1b[91m"@) by {
        lemma_decimal_two(91);
        reveal_strlit("\x1b[91m");
        reveal_strlit("\x1b[");
        reveal_strlit("m");
        reveal_strlit("0");
        reveal_strlit("1");
        reveal_strlit("2");
        reveal_strlit("3");
        reveal_strlit("4");
        reveal_strlit("5");
        reveal_strlit("6");
        reveal_strlit("7");
        reveal_strlit("8");
        reveal_strlit("9");
        assert(color_seq(Color::LightRed, true) =~= "\x1b[91m"@);
    }
    assert(color_seq(Color::LightRed, false) == "\x1b[101m"@) by {
        lemma_decimal_three(101);
        reveal_strlit("\x1b[101m");
        reveal_strlit("\x1b[");
        reveal_strlit("m");
        reveal_strlit("0");
        reveal_strlit("1");
        reveal_strlit("2");
        reveal_strlit("3");
        reveal_strlit("4");
        reveal_strlit("5");
        reveal_strlit("6");
        reveal_strlit("7");
        reveal_strlit("8");
        reveal_strlit("9");
        assert(color_seq(Color::LightRed, false) =~= "\x1b[101m"@);
    }
    assert(color_seq(Color::LightGreen, true) == "\x1b[92m"@) by {
        lemma_decimal_two(92);
        reveal_strlit("\x1b[92m");
        reveal_strlit("\x1b[");
        reveal_strlit("m");
        reveal_strlit("0");
        reveal_strlit("1");
        reveal_strlit("2");
        reveal_strlit("3");
        reveal_strlit("4");
        reveal_strlit("5");
        reveal_strlit("6");
        reveal_strlit("7");
        reveal_strlit("8");
        reveal_strlit("9");
        assert(color_seq(Color::LightGreen, true) =~= "\x1b[92m"@);
    }
    assert(color_seq(Color::LightGreen, false) == "\x1b[102m"@) by {
        lemma_decimal_three(102);
        reveal_strlit("\x1b[102m");
        reveal_strlit("\x1b[");
        reveal_strlit("m");
        reveal_strlit("0");
        reveal_strlit("1");
        reveal_strlit("2");
        reveal_strlit("3");
        reveal_strlit("4");
        reveal_strlit("5");
        reveal_strlit("6");
        reveal_strlit("7");
        reveal_strlit("8");
        reveal_strlit("9");
        assert(color_seq(Color::LightGreen, false) =~= "\x1b[102m"@);
    }
    assert(color_seq(Color::LightYellow, true) == "\x1b[93m"@) by {
        lemma_decimal_two(93);
        reveal_strlit("\x1b[93m");
        reveal_strlit("\x1b[");
        reveal_strlit("m");
        reveal_strlit("0");
        reveal_strlit("1");
        reveal_strlit("2");
        reveal_strlit("3");
        reveal_strlit("4");
        reveal_strlit("5");
        reveal_strlit("6");
        reveal_strlit("7");
        reveal_strlit("8");
        reveal_strlit("9");
        assert(color_seq(Color::LightYellow, true) =~= "\x1b[93m"@);
    }
    assert(color_seq(Color::LightYellow, false) == "\x1b[103m"@) by {
        lemma_decimal_three(103);
        reveal_strlit("\x1b[103m");
        reveal_strlit("\x1b[");
        reveal_strlit("m");
        reveal_strlit("0");
        reveal_strlit("1");
        reveal_strlit("2");
        reveal_strlit("3");
        reveal_strlit("4");
        reveal_strlit("5");
        reveal_strlit("6");
        reveal_strlit("7");
        reveal_strlit("8");
        reveal_strlit("9");
        assert(color_seq(Color::LightYellow, false) =~= "\x1b[103m"@);
    }
    assert(color_seq(Color::LightBlue, true) == "\x1b[94m"@) by {
        lemma_decimal_two(94);
        reveal_strlit("\x1b[94m");
        reveal_strlit("\x1b[");
        reveal_strlit("m");
        reveal_strlit("0");
        reveal_strlit("1");
        reveal_strlit("2");
        reveal_strlit("3");
        reveal_strlit("4");
        reveal_strlit("5");
        reveal_strlit("6");
        reveal_strlit("7");
        reveal_strlit("8");
        reveal_strlit("9");
        assert(color_seq(Color::LightBlue, true) =~= "\x1b[94m"@);
    }
    assert(color_seq(Color::LightBlue, false) == "\x1b[104m"@) by {
        lemma_decimal_three(104);
        reveal_strlit("\x1b[104m");
        reveal_strlit("\x1b[");
        reveal_strlit("m");
        reveal_strlit("0");
        reveal_strlit("1");
        reveal_strlit("2");
        reveal_strlit("3");
        reveal_strlit("4");
        reveal_strlit("5");
        reveal_strlit("6");
        reveal_strlit("7");
        reveal_strlit("8");
        reveal_strlit("9");
        assert(color_seq(Color::LightBlue, false) =~= "\x1b[104m"@);
    }
    assert(color_seq(Color::LightMagenta, true) == "\x1b[95m"@) by {
        lemma_decimal_two(95);
        reveal_strlit("\x1b[95m");
        reveal_strlit("\x1b[");
        reveal_strlit("m");
        reveal_strlit("0");
        reveal_strlit("1");
        reveal_strlit("2");
        reveal_strlit("3");
        reveal_strlit("4");
        reveal_strlit("5");
        reveal_strlit("6");
        reveal_strlit("7");
        reveal_strlit("8");
        reveal_strlit("9");
        assert(color_seq(Color::LightMagenta, true) =~= "\x1b[95m"@);
    }
    assert(color_seq(Color::LightMagenta, false) == "\x1b[105m"@) by {
        lemma_decimal_three(105);
        reveal_strlit("\x1b[105m");
        reveal_strlit("\x1b[");
        reveal_strlit("m");
        reveal_strlit("0");
        reveal_strlit("1");
        reveal_strlit("2");
        reveal_strlit("3");
        reveal_strlit("4");
        reveal_strlit("5");
        reveal_strlit("6");
        reveal_strlit("7");
        reveal_strlit("8");
        reveal_strlit("9");
        assert(color_seq(Color::LightMagenta, false) =~= "\x1b[105m"@);
    }
    assert(color_seq(Color::LightCyan, true) == "\x1b[96m"@) by {
        lemma_decimal_two(96);
        reveal_strlit("\x1b[96m");
        reveal_strlit("\x1b[");
        reveal_strlit("m");
        reveal_strlit("0");
        reveal_strlit("1");
        reveal_strlit("2");
        reveal_strlit("3");
        reveal_strlit("4");
        reveal_strlit("5");
        reveal_strlit("6");
        reveal_strlit("7");
        reveal_strlit("8");
        reveal_strlit("9");
        assert(color_seq(Color::LightCyan, true) =~= "\x1b[96m"@);
    }
    assert(color_seq(Color::LightCyan, false) == "\x1b[106m"@) by {
        lemma_decimal_three(106);
        reveal_strlit("\x1b[106m");
        reveal_strlit("\x1b[");
        reveal_strlit("m");
        reveal_strlit("0");
        reveal_strlit("1");
        reveal_strlit("2");
        reveal_strlit("3");
        reveal_strlit("4");
        reveal_strlit("5");
        reveal_strlit("6");
        reveal_strlit("7");
        reveal_strlit("8");
        reveal_strlit("9");
        assert(color_seq(Color::LightCyan, false) =~= "\x1b[106m"@);
    }
    assert(color_seq(Color::LightGray, true) == "\x1b[97m"@) by {
        lemma_decimal_two(97);
        reveal_strlit("\x1b[97m");
        reveal_strlit("\x1b[");
        reveal_strlit("m");
        reveal_strlit("0");
        reveal_strlit("1");
        reveal_strlit("2");
        reveal_strlit("3");
        reveal_strlit("4");
        reveal_strlit("5");
        reveal_strlit("6");
        reveal_strlit("7");
        reveal_strlit("8");
        reveal_strlit("9");
        assert(color_seq(Color::LightGray, true) =~= "\x1b[97m"@);
    }
    assert(color_seq(Color::LightGray, false) == "\x1b[107m"@) by {
        lemma_decimal_three(107);
        reveal_strlit("\x1b[107m");
        reveal_strlit("\x1b[");
        reveal_strlit("m");
        reveal_strlit("0");
        reveal_strlit("1");
        reveal_strlit("2");
        reveal_strlit("3");
        reveal_strlit("4");
        reveal_strlit("5");
        reveal_strlit("6");
        reveal_strlit("7");
        reveal_strlit("8");
        reveal_strlit("9");
        assert(color_seq(Color::LightGray, false) =~= "\x1b[107m"@);
    }
    assert(color_seq(Color::Reset, true) == "\x1b[39m"@) by {
        lemma_decimal_two(39);
        reveal_strlit("\x1b[39m");
        reveal_strlit("\x1b[");
        reveal_strlit("m");
        reveal_strlit("0");
        reveal_strlit("1");
        reveal_strlit("2");
        reveal_strlit("3");
        reveal_strlit("4");
        reveal_strlit("5");
        reveal_strlit("6");
        reveal_strlit("7");
        reveal_strlit("8");
        reveal_strlit("9");
        assert(color_seq(Color::Reset, true) =~= "\x1b[39m"@);
    }
    assert(color_seq(Color::Reset, false) == "\x1b[49m"@) by {
        lemma_decimal_two(49);
        reveal_strlit("\x1b[49m");
        reveal_strlit("\x1b[");
        reveal_strlit("m");
        reveal_strlit("0");
        reveal_strlit("1");
        reveal_strlit("2");
        reveal_strlit("3");
        reveal_strlit("4");
        reveal_strlit("5");
        reveal_strlit("6");
        reveal_strlit("7");
        reveal_strlit("8");
        reveal_strlit("9");
        assert(color_seq(Color::Reset, false) =~= "\x1b[49m"@);
    }
}


/// The digit text of `d` is the one character `'0' + d`.
proof fn lemma_digit_text(d: nat)
    requires
        d < 10,
    ensures
        digit_text(d).len() == 1,
        digit_text(d)[0] as int == '0' as int + d,
{
    reveal_strlit("0");
    reveal_strlit("1");
    reveal_strlit("2");
    reveal_strlit("3");
    reveal_strlit("4");
    reveal_strlit("5");
    reveal_strlit("6");
    reveal_strlit("7");
    reveal_strlit("8");
    reveal_strlit("9");
}

/// Numbers are written in base ten: the text of `n` is made of the digits
/// `0` to `9`, starts with `0` only when it is `0` itself, and reads back
/// as `n`.
#[verifier::spinoff_prover]
pub proof fn law_decimal_is_base_ten(n: nat)
    ensures
        decimal(n).len() > 0,
        forall|i: int|
            0 <= i < decimal(n).len() ==> '0' <= #[trigger] decimal(n)[i] && decimal(n)[i] <= '9',
        n > 0 ==> decimal(n)[0] != '0',
        digits_value(decimal(n)) == n,
    decreases n,
{
    if n < 10 {
        lemma_digit_text(n);
        let t = decimal(n);
        assert(t.drop_last() =~= Seq::<char>::empty());
        assert(digit_value(t.last()) == n);
        assert(digits_value(t) == digits_value(t.drop_last()) * 10 + digit_value(t.last()));
    } else {
        law_decimal_is_base_ten(n / 10);
        lemma_digit_text(n % 10);
        let head = decimal(n / 10);
        let t = decimal(n);
        assert(t == head + digit_text(n % 10));
        assert(t.drop_last() =~= head);
        assert(t.last() == digit_text(n % 10)[0]);
        assert(t[0] == head[0]);
        assert forall|i: int| 0 <= i < t.len() implies '0' <= #[trigger] t[i] && t[i] <= '9' by {
            if i < head.len() {
                assert(t[i] == head[i]);
            }
        }
        assert(digit_value(t.last()) == n % 10);
        assert(digits_value(t) == digits_value(head) * 10 + digit_value(t.last()));
    }
}

/// True colors and palette colors use the extended SGR forms: `38;2;r;g;b`
/// for a foreground and `48;2;r;g;b` for a background, `38;5;i` and `48;5;i`
/// for palette entries; an underline color is `58:2::r:g:b` or `58:5:i`.
#[verifier::spinoff_prover]
pub proof fn law_extended_color_codes(r: u8, g: u8, b: u8, i: u8)
    ensures
        color_seq(Color::Rgb(r, g, b), true) == "\x1b[38;2;"@ + decimal(r as nat) + ";"@ + decimal(
            g as nat,
        ) + ";"@ + decimal(b as nat) + "m"@,
        color_seq(Color::Rgb(r, g, b), false) == "\x1b[48;2;"@ + decimal(r as nat) + ";"@
            + decimal(g as nat) + ";"@ + decimal(b as nat) + "m"@,
        color_seq(Color::Indexed(i), true) == "\x1b[38;5;"@ + decimal(i as nat) + "m"@,
        color_seq(Color::Indexed(i), false) == "\x1b[48;5;"@ + decimal(i as nat) + "m"@,
        underline_color_seq(Color::Rgb(r, g, b)) == "\x1b[58:2::"@ + decimal(r as nat) + ":"@
            + decimal(g as nat) + ":"@ + decimal(b as nat) + "m"@,
        underline_color_seq(Color::Indexed(i)) == "\x1b[58:5:"@ + decimal(i as nat) + "m"@,
{
    lemma_decimal_two(38);
    lemma_decimal_two(48);
    reveal_strlit("\x1b[");
    reveal_strlit(";2;");
    reveal_strlit(";5;");
    reveal_strlit("\x1b[38;2;");
    reveal_strlit("\x1b[48;2;");
    reveal_strlit("\x1b[38;5;");
    reveal_strlit("\x1b[48;5;");
    reveal_strlit("3");
    reveal_strlit("4");
    reveal_strlit("8");
    let dr = decimal(r as nat);
    let dg = decimal(g as nat);
    let db = decimal(b as nat);
    let di = decimal(i as nat);
    assert(color_seq(Color::Rgb(r, g, b), true) =~= "\x1b[38;2;"@ + dr + ";"@ + dg + ";"@ + db
        + "m"@);
    assert(color_seq(Color::Rgb(r, g, b), false) =~= "\x1b[48;2;"@ + dr + ";"@ + dg + ";"@ + db
        + "m"@);
    assert(color_seq(Color::Indexed(i), true) =~= "\x1b[38;5;"@ + di + "m"@);
    assert(color_seq(Color::Indexed(i), false) =~= "\x1b[48;5;"@ + di + "m"@);
}

/// Each attribute, underline style and cursor shape has its standard code:
/// bold `1`, dim `2`, italic `3`, blinking at either speed `5`, reversed `7`,
/// hidden `8`, crossed out `9`; underline `4`, curly `4:3`, dotted `4:4`,
/// dashed `4:5`, double `21`, none `24`; the default underline color `59`;
/// the cursor as a block `2 q`, a bar `6 q`, an underline `4 q`, hidden
/// `?25l`. Several attributes are written in that order, and a cursor move
/// names the row, then the column, both counted from 1.
#[verifier::spinoff_prover]
pub proof fn law_sgr_codes()
    ensures
        modifiers_seq(Modifier { bold: true, ..initial_draw_state().modifier }) == "\x1b[1m"@,
        modifiers_seq(Modifier { dim: true, ..initial_draw_state().modifier }) == "\x1b[2m"@,
        modifiers_seq(Modifier { italic: true, ..initial_draw_state().modifier }) == "\x1b[3m"@,
        modifiers_seq(Modifier { slow_blink: true, ..initial_draw_state().modifier }) == "\x1b[5m"@,
        modifiers_seq(Modifier { rapid_blink: true, ..initial_draw_state().modifier }) == "\x1b[5m"@,
        modifiers_seq(Modifier { reversed: true, ..initial_draw_state().modifier }) == "\x1b[7m"@,
        modifiers_seq(Modifier { hidden: true, ..initial_draw_state().modifier }) == "\x1b[8m"@,
        modifiers_seq(Modifier { crossed_out: true, ..initial_draw_state().modifier })
            == "\x1b[9m"@,
        modifiers_seq(Modifier { bold: true, italic: true, ..initial_draw_state().modifier })
            == "\x1b[1m\x1b[3m"@,
        modifiers_seq(initial_draw_state().modifier) == Seq::<char>::empty(),
        underline_style_seq(UnderlineStyle::Line) == "\x1b[4m"@,
        underline_style_seq(UnderlineStyle::Curl) == "\x1b[4:3m"@,
        underline_style_seq(UnderlineStyle::Dotted) == "\x1b[4:4m"@,
        underline_style_seq(UnderlineStyle::Dashed) == "\x1b[4:5m"@,
        underline_style_seq(UnderlineStyle::DoubleLine) == "\x1b[21m"@,
        underline_style_seq(UnderlineStyle::Reset) == "\x1b[24m"@,
        underline_color_seq(Color::Reset) == "\x1b[59m"@,
        cursor_seq(CursorKind::Block) == "\x1b[2 q"@,
        cursor_seq(CursorKind::Bar) == "\x1b[6 q"@,
        cursor_seq(CursorKind::Underline) == "\x1b[4 q"@,
        cursor_seq(CursorKind::Hidden) == "\x1b[?25l"@,
        goto_seq(0, 0) == "\x1b[1;1H"@,
        goto_seq(4, 2) == "\x1b[3;5H"@,
{
    let e = initial_draw_state().modifier;
    assert(modifiers_seq(e) =~= Seq::<char>::empty());
    assert(modifiers_seq(Modifier { bold: true, ..e }) =~= "\x1b[1m"@);
    assert(modifiers_seq(Modifier { dim: true, ..e }) =~= "\x1b[2m"@);
    assert(modifiers_seq(Modifier { italic: true, ..e }) =~= "\x1b[3m"@);
    assert(modifiers_seq(Modifier { slow_blink: true, ..e }) =~= "\x1b[5m"@);
    assert(modifiers_seq(Modifier { rapid_blink: true, ..e }) =~= "\x1b[5m"@);
    assert(modifiers_seq(Modifier { reversed: true, ..e }) =~= "\x1b[7m"@);
    assert(modifiers_seq(Modifier { hidden: true, ..e }) =~= "\x1b[8m"@);
    assert(modifiers_seq(Modifier { crossed_out: true, ..e }) =~= "\x1b[9m"@);
    assert(modifiers_seq(Modifier { bold: true, italic: true, ..e }) == "\x1b[1m\x1b[3m"@) by {
        reveal_strlit("\x1b[1m");
        reveal_strlit("\x1b[3m");
        reveal_strlit("\x1b[1m\x1b[3m");
        assert(modifiers_seq(Modifier { bold: true, italic: true, ..e }) =~= "\x1b[1m\x1b[3m"@);
    }
    assert(goto_seq(0, 0) == "\x1b[1;1H"@) by {
        reveal_strlit("\x1b[");
        reveal_strlit(";");
        reveal_strlit("H");
        reveal_strlit("1");
        reveal_strlit("\x1b[1;1H");
        assert(goto_seq(0, 0) =~= "\x1b[1;1H"@);
    }
    assert(goto_seq(4, 2) == "\x1b[3;5H"@) by {
        reveal_strlit("\x1b[");
        reveal_strlit(";");
        reveal_strlit("H");
        reveal_strlit("3");
        reveal_strlit("5");
        reveal_strlit("\x1b[3;5H");
        assert(goto_seq(4, 2) =~= "\x1b[3;5H"@);
    }
}

// ── What the terminal shows ─────────────────────────────────────────────────

/// One instruction of the text that drawing writes, as the terminal reads it.
pub enum TermOp {
    /// `ESC[0m`: every attribute, the underline and the colors back to the
    /// default.
    Reset,
    /// Switches the given attributes on.
    Attrs(Modifier),
    Underline(UnderlineStyle),
    UnderlineColor(Color),
    Fg(Color),
    Bg(Color),
    MoveTo(u16, u16),
    /// Text, printed with the rendition in effect.
    Print(Seq<char>),
}

/// The text of one instruction.
pub open spec fn op_text(op: TermOp) -> Seq<char> {
    match op {
        TermOp::Reset => "\x1b[0m"@,
        TermOp::Attrs(m) => modifiers_seq(m),
        TermOp::Underline(u) => underline_style_seq(u),
        TermOp::UnderlineColor(c) => underline_color_seq(c),
        TermOp::Fg(c) => color_seq(c, true),
        TermOp::Bg(c) => color_seq(c, false),
        TermOp::MoveTo(x, y) => goto_seq(x, y),
        TermOp::Print(text) => text,
    }
}

/// The text of a series of instructions.
pub open spec fn ops_text(ops: Seq<TermOp>) -> Seq<char>
    decreases ops.len(),
{
    if ops.len() == 0 {
        seq![]
    } else {
        ops_text(ops.drop_last()) + op_text(ops.last())
    }
}

/// The attributes, underline and colors the terminal gives what it prints.
pub struct Rendition {
    pub fg: Color,
    pub bg: Color,
    pub attrs: Modifier,
    pub underline_style: UnderlineStyle,
    pub underline_color: Color,
}

pub open spec fn default_rendition() -> Rendition {
    Rendition {
        fg: Color::Reset,
        bg: Color::Reset,
        attrs: initial_draw_state().modifier,
        underline_style: UnderlineStyle::Reset,
        underline_color: Color::Reset,
    }
}

/// A named color, which has no underline-color sequence.
pub open spec fn is_named(c: Color) -> bool {
    !(c is Reset) && !(c is Rgb) && !(c is Indexed)
}

/// How one instruction changes the terminal's rendition, by the meaning of
/// the SGR codes: `0` resets everything; `1`, `2`, `3`, `5`, `7`, `8` and `9`
/// each switch one attribute on, `5` (blinking) standing for both speeds; an
/// underline, an underline color or a color replaces the one in effect. A
/// named underline color has no code and changes nothing; moving the cursor
/// and printing change nothing.
pub open spec fn apply_op(r: Rendition, op: TermOp) -> Rendition {
    match op {
        TermOp::Reset => default_rendition(),
        TermOp::Attrs(m) => Rendition {
            attrs: Modifier {
                bold: r.attrs.bold || m.bold,
                dim: r.attrs.dim || m.dim,
                italic: r.attrs.italic || m.italic,
                slow_blink: r.attrs.slow_blink || m.slow_blink || m.rapid_blink,
                rapid_blink: r.attrs.rapid_blink,
                reversed: r.attrs.reversed || m.reversed,
                hidden: r.attrs.hidden || m.hidden,
                crossed_out: r.attrs.crossed_out || m.crossed_out,
            },
            ..r
        },
        TermOp::Underline(u) => Rendition { underline_style: u, ..r },
        TermOp::UnderlineColor(c) => if is_named(c) {
            r
        } else {
            Rendition { underline_color: c, ..r }
        },
        TermOp::Fg(c) => Rendition { fg: c, ..r },
        TermOp::Bg(c) => Rendition { bg: c, ..r },
        TermOp::MoveTo(_, _) => r,
        TermOp::Print(_) => r,
    }
}

/// The rendition after the instructions, one after another, from `r`.
pub open spec fn run_ops(r: Rendition, ops: Seq<TermOp>) -> Rendition
    decreases ops.len(),
{
    if ops.len() == 0 {
        r
    } else {
        apply_op(run_ops(r, ops.drop_last()), ops.last())
    }
}

/// The terminal's attributes `a` show the attributes `m`; blinking at either
/// speed shows as blinking.
pub open spec fn attrs_show(a: Modifier, m: Modifier) -> bool {
    &&& a.bold == m.bold
    &&& a.dim == m.dim
    &&& a.italic == m.italic
    &&& a.slow_blink == (m.slow_blink || m.rapid_blink)
    &&& a.reversed == m.reversed
    &&& a.hidden == m.hidden
    &&& a.crossed_out == m.crossed_out
}

/// The rendition shows the cell: its colors, attributes and underline, and
/// its underline color where that color has a sequence.
pub open spec fn shows_cell(r: Rendition, c: CellView) -> bool {
    &&& r.fg == c.fg
    &&& r.bg == c.bg
    &&& attrs_show(r.attrs, c.modifier)
    &&& r.underline_style == c.underline_style
    &&& !is_named(c.underline_color) ==> r.underline_color == c.underline_color
}

/// The rendition is what the drawing state records.
pub open spec fn shows_state(r: Rendition, st: DrawState) -> bool {
    &&& r.fg == st.fg
    &&& r.bg == st.bg
    &&& attrs_show(r.attrs, st.modifier)
    &&& r.underline_style == st.underline_style
    &&& !is_named(st.underline_color) ==> r.underline_color == st.underline_color
}

/// The instructions the attribute switch of `modifier_step` writes.
pub open spec fn modifier_ops(st: DrawState, m: Modifier) -> Seq<TermOp> {
    if m != st.modifier {
        if !st.modifier.minus_spec(m).is_empty_spec() {
            seq![TermOp::Reset, TermOp::Attrs(m)]
        } else {
            seq![TermOp::Attrs(m.minus_spec(st.modifier))]
        }
    } else {
        seq![]
    }
}

/// The instruction `op` when `flag` holds, else none.
pub open spec fn op_when(flag: bool, op: TermOp) -> Seq<TermOp> {
    if flag {
        seq![op]
    } else {
        seq![]
    }
}

/// The instructions drawing one cell writes from the state `st`, its symbol
/// last.
pub open spec fn cell_ops(st: DrawState, x: u16, y: u16, c: CellView) -> Seq<TermOp> {
    let s1 = move_step(st, x, y);
    let s2 = modifier_step(s1.0, c.modifier);
    let s3 = underline_style_step(s2.0, c.underline_style);
    let s4 = underline_color_step(s3.0, c.underline_color);
    let s5 = fg_step(s4.0, c.fg);
    op_when(moves_to(st, x, y), TermOp::MoveTo(x, y)) + modifier_ops(s1.0, c.modifier) + op_when(
        c.underline_style != s2.0.underline_style,
        TermOp::Underline(c.underline_style),
    ) + op_when(c.underline_color != s3.0.underline_color, TermOp::UnderlineColor(c.underline_color))
        + op_when(c.fg != s4.0.fg, TermOp::Fg(c.fg)) + op_when(c.bg != s5.0.bg, TermOp::Bg(c.bg))
        + seq![TermOp::Print(c.symbol)]
}

/// The instructions drawing the cells in order from the state `st0` writes.
pub open spec fn draw_ops(st0: DrawState, cells: Seq<(u16, u16, CellView)>) -> Seq<TermOp>
    decreases cells.len(),
{
    if cells.len() == 0 {
        seq![]
    } else {
        let st = draw_cells(st0, cells.drop_last()).0;
        let (x, y, c) = cells.last();
        draw_ops(st0, cells.drop_last()) + cell_ops(st, x, y, c)
    }
}

proof fn lemma_ops_text_append(a: Seq<TermOp>, b: Seq<TermOp>)
    ensures
        ops_text(a + b) == ops_text(a) + ops_text(b),
    decreases b.len(),
{
    if b.len() == 0 {
        assert(a + b =~= a);
    } else {
        assert((a + b).drop_last() =~= a + b.drop_last());
        lemma_ops_text_append(a, b.drop_last());
    }
}

proof fn lemma_run_append(r: Rendition, a: Seq<TermOp>, b: Seq<TermOp>)
    ensures
        run_ops(r, a + b) == run_ops(run_ops(r, a), b),
    decreases b.len(),
{
    if b.len() == 0 {
        assert(a + b =~= a);
    } else {
        assert((a + b).drop_last() =~= a + b.drop_last());
        lemma_run_append(r, a, b.drop_last());
    }
}

/// One or two instructions: their text and their effect.
proof fn lemma_short_ops(r: Rendition, a: TermOp, b: TermOp)
    ensures
        ops_text(seq![a]) == op_text(a),
        run_ops(r, seq![a]) == apply_op(r, a),
        ops_text(seq![a, b]) == op_text(a) + op_text(b),
        run_ops(r, seq![a, b]) == apply_op(apply_op(r, a), b),
{
    let e = Seq::<TermOp>::empty();
    assert(ops_text(e) == Seq::<char>::empty());
    assert(run_ops(r, e) == r);
    assert(seq![a].drop_last() =~= e);
    assert(seq![a, b].drop_last() =~= seq![a]);
    assert(ops_text(seq![a]) == ops_text(e) + op_text(a));
    assert(ops_text(seq![a]) =~= op_text(a));
}

/// An instruction written only when a flag holds: its text and its effect.
proof fn lemma_op_when(r: Rendition, flag: bool, op: TermOp)
    ensures
        ops_text(op_when(flag, op)) == when(flag, op_text(op)),
        run_ops(r, op_when(flag, op)) == if flag {
            apply_op(r, op)
        } else {
            r
        },
{
    lemma_short_ops(r, op, op);
    assert(ops_text(Seq::<TermOp>::empty()) == Seq::<char>::empty());
}

proof fn lemma_modifier_text(st: DrawState, m: Modifier)
    ensures
        ops_text(modifier_ops(st, m)) == modifier_step(st, m).1,
{
    let r = default_rendition();
    lemma_short_ops(r, TermOp::Reset, TermOp::Attrs(m));
    lemma_short_ops(r, TermOp::Attrs(m.minus_spec(st.modifier)), TermOp::Reset);
    assert(ops_text(Seq::<TermOp>::empty()) == Seq::<char>::empty());
}

/// Switching attributes with a reset: the reset clears everything and the
/// new attributes are written whole.
#[verifier::spinoff_prover]
proof fn lemma_modifier_reset(st: DrawState, r: Rendition, m: Modifier)
    requires
        shows_state(r, st),
        m != st.modifier,
        !st.modifier.minus_spec(m).is_empty_spec(),
    ensures
        shows_state(run_ops(r, modifier_ops(st, m)), modifier_step(st, m).0),
{
    lemma_short_ops(r, TermOp::Reset, TermOp::Attrs(m));
    let ns = DrawState {
        fg: Color::Reset,
        bg: Color::Reset,
        underline_style: UnderlineStyle::Reset,
        underline_color: Color::Reset,
        modifier: m,
        ..st
    };
    assert(modifier_step(st, m).0 == ns);
    assert(modifier_ops(st, m) == seq![TermOp::Reset, TermOp::Attrs(m)]);
    let r2 = apply_op(default_rendition(), TermOp::Attrs(m));
    assert(attrs_show(r2.attrs, m));
    assert(shows_state(r2, ns));
}

/// Switching attributes without a reset: the attributes added are written,
/// and none was on that the new ones lack.
#[verifier::spinoff_prover]
proof fn lemma_modifier_add(st: DrawState, r: Rendition, m: Modifier)
    requires
        shows_state(r, st),
        m != st.modifier,
        st.modifier.minus_spec(m).is_empty_spec(),
    ensures
        shows_state(run_ops(r, modifier_ops(st, m)), modifier_step(st, m).0),
{
    let added = m.minus_spec(st.modifier);
    lemma_short_ops(r, TermOp::Attrs(added), TermOp::Reset);
    let ns = DrawState { modifier: m, ..st };
    assert(modifier_step(st, m).0 == ns);
    assert(modifier_ops(st, m) == seq![TermOp::Attrs(added)]);
    let r2 = apply_op(r, TermOp::Attrs(added));
    assert(attrs_show(r2.attrs, m));
    assert(shows_state(r2, ns));
}

proof fn lemma_modifier_ops(st: DrawState, r: Rendition, m: Modifier)
    requires
        shows_state(r, st),
    ensures
        shows_state(run_ops(r, modifier_ops(st, m)), modifier_step(st, m).0),
{
    if m != st.modifier {
        if !st.modifier.minus_spec(m).is_empty_spec() {
            lemma_modifier_reset(st, r, m);
        } else {
            lemma_modifier_add(st, r, m);
        }
    } else {
        assert(modifier_ops(st, m) == Seq::<TermOp>::empty());
        assert(run_ops(r, Seq::<TermOp>::empty()) == r);
    }
}

/// The underline switch keeps the terminal showing the state.
proof fn lemma_underline_step(st: DrawState, r: Rendition, u: UnderlineStyle)
    requires
        shows_state(r, st),
    ensures
        shows_state(
            run_ops(r, op_when(u != st.underline_style, TermOp::Underline(u))),
            underline_style_step(st, u).0,
        ),
        underline_style_step(st, u).0.underline_style == u,
{
    lemma_op_when(r, u != st.underline_style, TermOp::Underline(u));
}

/// The underline color switch keeps the terminal showing the state.
proof fn lemma_underline_color_step(st: DrawState, r: Rendition, c: Color)
    requires
        shows_state(r, st),
    ensures
        shows_state(
            run_ops(r, op_when(c != st.underline_color, TermOp::UnderlineColor(c))),
            underline_color_step(st, c).0,
        ),
        underline_color_step(st, c).0.underline_color == c,
{
    lemma_op_when(r, c != st.underline_color, TermOp::UnderlineColor(c));
}

/// The foreground switch keeps the terminal showing the state.
proof fn lemma_fg_step(st: DrawState, r: Rendition, c: Color)
    requires
        shows_state(r, st),
    ensures
        shows_state(run_ops(r, op_when(c != st.fg, TermOp::Fg(c))), fg_step(st, c).0),
        fg_step(st, c).0.fg == c,
{
    lemma_op_when(r, c != st.fg, TermOp::Fg(c));
}

/// The background switch keeps the terminal showing the state.
proof fn lemma_bg_step(st: DrawState, r: Rendition, c: Color)
    requires
        shows_state(r, st),
    ensures
        shows_state(run_ops(r, op_when(c != st.bg, TermOp::Bg(c))), bg_step(st, c).0),
        bg_step(st, c).0.bg == c,
{
    lemma_op_when(r, c != st.bg, TermOp::Bg(c));
}

/// The instructions for one cell spell the text drawing it writes and end
/// with its symbol.
#[verifier::rlimit(30)]
#[verifier::spinoff_prover]
proof fn lemma_cell_text(st: DrawState, x: u16, y: u16, c: CellView)
    ensures
        ops_text(cell_ops(st, x, y, c)) == draw_cell(st, x, y, c).1,
        cell_ops(st, x, y, c).last() == TermOp::Print(c.symbol),
{
    let r = default_rendition();
    let s1 = move_step(st, x, y);
    let s2 = modifier_step(s1.0, c.modifier);
    let s3 = underline_style_step(s2.0, c.underline_style);
    let s4 = underline_color_step(s3.0, c.underline_color);
    let s5 = fg_step(s4.0, c.fg);
    let s6 = bg_step(s5.0, c.bg);
    let o1 = op_when(moves_to(st, x, y), TermOp::MoveTo(x, y));
    let o2 = modifier_ops(s1.0, c.modifier);
    let o3 = op_when(c.underline_style != s2.0.underline_style, TermOp::Underline(c.underline_style));
    let o4 = op_when(c.underline_color != s3.0.underline_color, TermOp::UnderlineColor(c.underline_color));
    let o5 = op_when(c.fg != s4.0.fg, TermOp::Fg(c.fg));
    let o6 = op_when(c.bg != s5.0.bg, TermOp::Bg(c.bg));
    let o7 = seq![TermOp::Print(c.symbol)];
    lemma_op_when(r, moves_to(st, x, y), TermOp::MoveTo(x, y));
    lemma_modifier_text(s1.0, c.modifier);
    lemma_op_when(r, c.underline_style != s2.0.underline_style, TermOp::Underline(c.underline_style));
    lemma_op_when(r, c.underline_color != s3.0.underline_color, TermOp::UnderlineColor(c.underline_color));
    lemma_op_when(r, c.fg != s4.0.fg, TermOp::Fg(c.fg));
    lemma_op_when(r, c.bg != s5.0.bg, TermOp::Bg(c.bg));
    lemma_short_ops(r, TermOp::Print(c.symbol), TermOp::Reset);
    lemma_ops_text_append(o1, o2);
    lemma_ops_text_append(o1 + o2, o3);
    lemma_ops_text_append(o1 + o2 + o3, o4);
    lemma_ops_text_append(o1 + o2 + o3 + o4, o5);
    lemma_ops_text_append(o1 + o2 + o3 + o4 + o5, o6);
    lemma_ops_text_append(o1 + o2 + o3 + o4 + o5 + o6, o7);
    assert(cell_ops(st, x, y, c) == o1 + o2 + o3 + o4 + o5 + o6 + o7);
}

/// The instructions of the attribute, underline and color switches for one
/// cell, after the move, each applied in turn.
#[verifier::spinoff_prover]
proof fn lemma_cell_steps(st: DrawState, r1: Rendition, c: CellView)
    requires
        shows_state(r1, st),
    ensures
        ({
            let s2 = modifier_step(st, c.modifier);
            let s3 = underline_style_step(s2.0, c.underline_style);
            let s4 = underline_color_step(s3.0, c.underline_color);
            let s5 = fg_step(s4.0, c.fg);
            let s6 = bg_step(s5.0, c.bg);
            let r2 = run_ops(r1, modifier_ops(st, c.modifier));
            let r3 = run_ops(
                r2,
                op_when(
                    c.underline_style != s2.0.underline_style,
                    TermOp::Underline(c.underline_style),
                ),
            );
            let r4 = run_ops(
                r3,
                op_when(
                    c.underline_color != s3.0.underline_color,
                    TermOp::UnderlineColor(c.underline_color),
                ),
            );
            let r5 = run_ops(r4, op_when(c.fg != s4.0.fg, TermOp::Fg(c.fg)));
            let r6 = run_ops(r5, op_when(c.bg != s5.0.bg, TermOp::Bg(c.bg)));
            shows_state(r6, s6.0) && shows_cell(r6, c)
        }),
{
    let s2 = modifier_step(st, c.modifier);
    let s3 = underline_style_step(s2.0, c.underline_style);
    let s4 = underline_color_step(s3.0, c.underline_color);
    let s5 = fg_step(s4.0, c.fg);
    let s6 = bg_step(s5.0, c.bg);
    let r2 = run_ops(r1, modifier_ops(st, c.modifier));
    lemma_modifier_ops(st, r1, c.modifier);
    lemma_underline_step(s2.0, r2, c.underline_style);
    let r3 = run_ops(
        r2,
        op_when(c.underline_style != s2.0.underline_style, TermOp::Underline(c.underline_style)),
    );
    lemma_underline_color_step(s3.0, r3, c.underline_color);
    let r4 = run_ops(
        r3,
        op_when(
            c.underline_color != s3.0.underline_color,
            TermOp::UnderlineColor(c.underline_color),
        ),
    );
    lemma_fg_step(s4.0, r4, c.fg);
    let r5 = run_ops(r4, op_when(c.fg != s4.0.fg, TermOp::Fg(c.fg)));
    lemma_bg_step(s5.0, r5, c.bg);
    let r6 = run_ops(r5, op_when(c.bg != s5.0.bg, TermOp::Bg(c.bg)));
    assert(s2.0.modifier == c.modifier);
    assert(s6.0.modifier == c.modifier);
    assert(s6.0.underline_style == c.underline_style);
    assert(s6.0.underline_color == c.underline_color);
    assert(s6.0.fg == c.fg);
    assert(shows_state(r6, s6.0));
}

/// Drawing one cell from a state the terminal shows: the terminal shows the
/// state afterwards, and the cell itself when its symbol is printed.
#[verifier::rlimit(30)]
#[verifier::spinoff_prover]
proof fn lemma_cell_shows(st: DrawState, r: Rendition, x: u16, y: u16, c: CellView)
    requires
        shows_state(r, st),
    ensures
        shows_state(run_ops(r, cell_ops(st, x, y, c)), draw_cell(st, x, y, c).0),
        shows_cell(run_ops(r, cell_ops(st, x, y, c)), c),
{
    let s1 = move_step(st, x, y);
    let s2 = modifier_step(s1.0, c.modifier);
    let s3 = underline_style_step(s2.0, c.underline_style);
    let s4 = underline_color_step(s3.0, c.underline_color);
    let s5 = fg_step(s4.0, c.fg);
    let o1 = op_when(moves_to(st, x, y), TermOp::MoveTo(x, y));
    let o2 = modifier_ops(s1.0, c.modifier);
    let o3 = op_when(c.underline_style != s2.0.underline_style, TermOp::Underline(c.underline_style));
    let o4 = op_when(c.underline_color != s3.0.underline_color, TermOp::UnderlineColor(c.underline_color));
    let o5 = op_when(c.fg != s4.0.fg, TermOp::Fg(c.fg));
    let o6 = op_when(c.bg != s5.0.bg, TermOp::Bg(c.bg));
    let o7 = seq![TermOp::Print(c.symbol)];
    let r1 = run_ops(r, o1);
    lemma_op_when(r, moves_to(st, x, y), TermOp::MoveTo(x, y));
    assert(shows_state(r1, s1.0));
    lemma_cell_steps(s1.0, r1, c);
    let r6 = run_ops(run_ops(run_ops(run_ops(run_ops(r1, o2), o3), o4), o5), o6);
    lemma_short_ops(r6, TermOp::Print(c.symbol), TermOp::Reset);
    lemma_run_append(r, o1, o2);
    lemma_run_append(r, o1 + o2, o3);
    lemma_run_append(r, o1 + o2 + o3, o4);
    lemma_run_append(r, o1 + o2 + o3 + o4, o5);
    lemma_run_append(r, o1 + o2 + o3 + o4 + o5, o6);
    lemma_run_append(r, o1 + o2 + o3 + o4 + o5 + o6, o7);
    assert(cell_ops(st, x, y, c) == o1 + o2 + o3 + o4 + o5 + o6 + o7);
}

/// Drawing cells from a state the terminal shows: the instructions spell the
/// text written, and the terminal shows the state afterwards.
#[verifier::spinoff_prover]
proof fn lemma_draw_ops(st0: DrawState, r0: Rendition, cells: Seq<(u16, u16, CellView)>)
    requires
        shows_state(r0, st0),
    ensures
        ops_text(draw_ops(st0, cells)) == draw_cells(st0, cells).1,
        shows_state(run_ops(r0, draw_ops(st0, cells)), draw_cells(st0, cells).0),
    decreases cells.len(),
{
    if cells.len() > 0 {
        let rest = cells.drop_last();
        lemma_draw_ops(st0, r0, rest);
        let st = draw_cells(st0, rest).0;
        let (x, y, c) = cells.last();
        lemma_cell_text(st, x, y, c);
        lemma_cell_shows(st, run_ops(r0, draw_ops(st0, rest)), x, y, c);
        lemma_ops_text_append(draw_ops(st0, rest), cell_ops(st, x, y, c));
        lemma_run_append(r0, draw_ops(st0, rest), cell_ops(st, x, y, c));
    }
}

/// The instructions for the first `j` cells lead those for all of them.
#[verifier::spinoff_prover]
proof fn lemma_draw_ops_prefix(st0: DrawState, cells: Seq<(u16, u16, CellView)>, j: int)
    requires
        0 <= j <= cells.len(),
    ensures
        draw_ops(st0, cells).take(draw_ops(st0, cells.take(j)).len() as int) == draw_ops(
            st0,
            cells.take(j),
        ),
        draw_ops(st0, cells.take(j)).len() <= draw_ops(st0, cells).len(),
    decreases cells.len(),
{
    if j == cells.len() {
        assert(cells.take(j) =~= cells);
        assert(draw_ops(st0, cells).take(draw_ops(st0, cells).len() as int) =~= draw_ops(
            st0,
            cells,
        ));
    } else {
        let rest = cells.drop_last();
        assert(rest.take(j) =~= cells.take(j));
        lemma_draw_ops_prefix(st0, rest, j);
        let whole = draw_ops(st0, cells);
        let first = draw_ops(st0, rest);
        let part = draw_ops(st0, cells.take(j));
        assert(whole.take(part.len() as int) =~= first.take(part.len() as int));
    }
}

/// Where the terminal's cursor is after one instruction: a move puts it at
/// the column and row given, printing a cell's symbol advances it one column,
/// and the other instructions leave it where it is.
pub open spec fn cursor_after_op(p: (int, int), op: TermOp) -> (int, int) {
    match op {
        TermOp::MoveTo(x, y) => (x as int, y as int),
        TermOp::Print(_) => (p.0 + 1, p.1),
        _ => p,
    }
}

/// Where the cursor is after the instructions, from `p`.
pub open spec fn run_cursor(p: (int, int), ops: Seq<TermOp>) -> (int, int)
    decreases ops.len(),
{
    if ops.len() == 0 {
        p
    } else {
        cursor_after_op(run_cursor(p, ops.drop_last()), ops.last())
    }
}

/// Every cell lies before the last column and the last row.
pub open spec fn before_last_line(cells: Seq<(u16, u16, CellView)>) -> bool {
    forall|i: int| 0 <= i < cells.len() ==> #[trigger] cells[i].0 < u16::MAX && cells[i].1 < u16::MAX
}

/// The cursor stands right after the cell the state records, if any.
spec fn cursor_follows(p: (int, int), st: DrawState) -> bool {
    st.last_y == u16::MAX || (st.last_x < u16::MAX && p == (st.last_x + 1, st.last_y as int))
}

/// None of the instructions moves the cursor or prints.
spec fn keeps_cursor(ops: Seq<TermOp>) -> bool {
    forall|i: int| 0 <= i < ops.len() ==> !(#[trigger] ops[i] is MoveTo) && !(ops[i] is Print)
}

proof fn lemma_run_cursor_append(p: (int, int), a: Seq<TermOp>, b: Seq<TermOp>)
    ensures
        run_cursor(p, a + b) == run_cursor(run_cursor(p, a), b),
    decreases b.len(),
{
    if b.len() == 0 {
        assert(a + b =~= a);
    } else {
        assert((a + b).drop_last() =~= a + b.drop_last());
        lemma_run_cursor_append(p, a, b.drop_last());
    }
}

proof fn lemma_keeps_cursor(p: (int, int), ops: Seq<TermOp>)
    requires
        keeps_cursor(ops),
    ensures
        run_cursor(p, ops) == p,
    decreases ops.len(),
{
    if ops.len() > 0 {
        assert(keeps_cursor(ops.drop_last()));
        assert(ops.last() == ops[ops.len() - 1]);
        lemma_keeps_cursor(p, ops.drop_last());
    }
}

proof fn lemma_keeps_cursor_append(a: Seq<TermOp>, b: Seq<TermOp>)
    requires
        keeps_cursor(a),
        keeps_cursor(b),
    ensures
        keeps_cursor(a + b),
{
    assert forall|i: int| 0 <= i < (a + b).len() implies !(#[trigger] (a + b)[i] is MoveTo) && !((a
        + b)[i] is Print) by {
        if i < a.len() {
            assert((a + b)[i] == a[i]);
        } else {
            assert((a + b)[i] == b[i - a.len()]);
        }
    }
}

proof fn lemma_modifier_ops_keep_cursor(st: DrawState, m: Modifier)
    ensures
        keeps_cursor(modifier_ops(st, m)),
{
    let ops = modifier_ops(st, m);
    assert forall|i: int| 0 <= i < ops.len() implies !(#[trigger] ops[i] is MoveTo) && !(
    ops[i] is Print) by {
        if m != st.modifier && !st.modifier.minus_spec(m).is_empty_spec() {
            assert(ops == seq![TermOp::Reset, TermOp::Attrs(m)]);
        }
    }
}

/// Drawing one cell where the cursor follows the state: its symbol is
/// printed at the cell's place, and the cursor follows the new state.
#[verifier::spinoff_prover]
#[verifier::rlimit(30)]
proof fn lemma_cell_cursor(st: DrawState, p: (int, int), x: u16, y: u16, c: CellView)
    requires
        cursor_follows(p, st),
        x < u16::MAX,
        y < u16::MAX,
    ensures
        run_cursor(p, cell_ops(st, x, y, c).drop_last()) == (x as int, y as int),
        cursor_follows(run_cursor(p, cell_ops(st, x, y, c)), draw_cell(st, x, y, c).0),
{
    let s1 = move_step(st, x, y);
    let s2 = modifier_step(s1.0, c.modifier);
    let s3 = underline_style_step(s2.0, c.underline_style);
    let s4 = underline_color_step(s3.0, c.underline_color);
    let s5 = fg_step(s4.0, c.fg);
    let o1 = op_when(moves_to(st, x, y), TermOp::MoveTo(x, y));
    let o2 = modifier_ops(s1.0, c.modifier);
    let o3 = op_when(c.underline_style != s2.0.underline_style, TermOp::Underline(c.underline_style));
    let o4 = op_when(c.underline_color != s3.0.underline_color, TermOp::UnderlineColor(c.underline_color));
    let o5 = op_when(c.fg != s4.0.fg, TermOp::Fg(c.fg));
    let o6 = op_when(c.bg != s5.0.bg, TermOp::Bg(c.bg));
    let o7 = seq![TermOp::Print(c.symbol)];
    let mid = o2 + o3 + o4 + o5 + o6;
    lemma_modifier_ops_keep_cursor(s1.0, c.modifier);
    lemma_keeps_cursor_append(o2, o3);
    lemma_keeps_cursor_append(o2 + o3, o4);
    lemma_keeps_cursor_append(o2 + o3 + o4, o5);
    lemma_keeps_cursor_append(o2 + o3 + o4 + o5, o6);
    let head = o1 + mid;
    assert(cell_ops(st, x, y, c) == head + o7) by {
        assert(o1 + o2 + o3 + o4 + o5 + o6 =~= head);
    }
    assert((head + o7).drop_last() =~= head);
    lemma_run_cursor_append(p, o1, mid);
    lemma_keeps_cursor(run_cursor(p, o1), mid);
    assert(seq![TermOp::MoveTo(x, y)].drop_last() =~= Seq::<TermOp>::empty());
    assert(run_cursor(p, o1) == (x as int, y as int));
    lemma_run_cursor_append(p, head, o7);
    assert(o7.drop_last() =~= Seq::<TermOp>::empty());
}

/// Drawing cells where the cursor follows the state: afterwards it follows
/// the new state.
#[verifier::spinoff_prover]
proof fn lemma_draw_cursor(st0: DrawState, p0: (int, int), cells: Seq<(u16, u16, CellView)>)
    requires
        cursor_follows(p0, st0),
        before_last_line(cells),
    ensures
        cursor_follows(run_cursor(p0, draw_ops(st0, cells)), draw_cells(st0, cells).0),
    decreases cells.len(),
{
    if cells.len() > 0 {
        let rest = cells.drop_last();
        assert(before_last_line(rest)) by {
            assert forall|i: int| 0 <= i < rest.len() implies #[trigger] rest[i].0 < u16::MAX
                && rest[i].1 < u16::MAX by {
                assert(rest[i] == cells[i]);
            }
        }
        lemma_draw_cursor(st0, p0, rest);
        let st = draw_cells(st0, rest).0;
        let (x, y, c) = cells.last();
        assert(cells.last() == cells[cells.len() - 1]);
        lemma_cell_cursor(st, run_cursor(p0, draw_ops(st0, rest)), x, y, c);
        lemma_run_cursor_append(p0, draw_ops(st0, rest), cell_ops(st, x, y, c));
    }
}

/// Each cell's symbol is printed at the cell's own column and row, wherever
/// the cursor stood before drawing began: the instructions before the one
/// that prints the `i`-th cell's symbol leave the cursor at that cell. The
/// cursor is moved only where a cell does not follow the previous one on its
/// row, and printing a symbol advances it one column. This holds of cells
/// before the last column and row; a cell in the last column counts the
/// column 0 of the same row as its successor, and a first cell at column 0
/// of the last row is taken to follow the starting state, so neither moves
/// the cursor there.
#[verifier::spinoff_prover]
pub proof fn law_draw_prints_each_cell_in_place(cells: Seq<(u16, u16, CellView)>, p0: (int, int))
    requires
        before_last_line(cells),
    ensures
        forall|i: int|
            #![trigger cells[i]]
            0 <= i < cells.len() ==> run_cursor(
                p0,
                draw_ops(initial_draw_state(), cells.take(i + 1)).drop_last(),
            ) == (cells[i].0 as int, cells[i].1 as int),
{
    let st0 = initial_draw_state();
    assert forall|i: int|
        #![trigger cells[i]]
        0 <= i < cells.len() implies run_cursor(
            p0,
            draw_ops(st0, cells.take(i + 1)).drop_last(),
        ) == (cells[i].0 as int, cells[i].1 as int) by {
        let head = cells.take(i + 1);
        let pre = cells.take(i);
        assert(head.drop_last() =~= pre);
        assert(head.last() == cells[i]);
        assert(before_last_line(pre)) by {
            assert forall|j: int| 0 <= j < pre.len() implies #[trigger] pre[j].0 < u16::MAX
                && pre[j].1 < u16::MAX by {
                assert(pre[j] == cells[j]);
            }
        }
        lemma_draw_cursor(st0, p0, pre);
        let st = draw_cells(st0, pre).0;
        let (x, y, c) = cells[i];
        let before = draw_ops(st0, pre);
        let ops = cell_ops(st, x, y, c);
        lemma_cell_text(st, x, y, c);
        lemma_cell_cursor(st, run_cursor(p0, before), x, y, c);
        assert(draw_ops(st0, head) == before + ops);
        assert((before + ops).drop_last() =~= before + ops.drop_last());
        lemma_run_cursor_append(p0, before, ops.drop_last());
    }
}

/// What the law below states of the `i`-th cell.
#[verifier::spinoff_prover]
proof fn lemma_cell_at(cells: Seq<(u16, u16, CellView)>, i: int)
    requires
        0 <= i < cells.len(),
    ensures
        ({
            let ops = draw_ops(initial_draw_state(), cells.take(i + 1));
            &&& draw_ops(initial_draw_state(), cells).take(ops.len() as int) == ops
            &&& ops.last() == TermOp::Print(cells[i].2.symbol)
            &&& shows_cell(run_ops(default_rendition(), ops), cells[i].2)
        }),
{
    let st0 = initial_draw_state();
    let r0 = default_rendition();
    assert(shows_state(r0, st0));
    let head = cells.take(i + 1);
    let pre = cells.take(i);
    assert(head.drop_last() =~= pre);
    assert(head.last() == cells[i]);
    lemma_draw_ops_prefix(st0, cells, i + 1);
    lemma_draw_ops(st0, r0, pre);
    let st = draw_cells(st0, pre).0;
    let (x, y, c) = cells[i];
    lemma_cell_text(st, x, y, c);
    lemma_cell_shows(st, run_ops(r0, draw_ops(st0, pre)), x, y, c);
    lemma_run_append(r0, draw_ops(st0, pre), cell_ops(st, x, y, c));
    assert(draw_ops(st0, head) == draw_ops(st0, pre) + cell_ops(st, x, y, c));
    assert((draw_ops(st0, pre) + cell_ops(st, x, y, c)).last() == cell_ops(st, x, y, c).last());
}

/// Read as a terminal reads it, the text `draw` writes shows every cell with
/// its own colors, attributes and underline. The text is the instructions
/// `draw_ops` spells, then a reset; the instructions for the first `i + 1`
/// cells lead them all and end by printing the `i`-th cell's symbol, and the
/// terminal's rendition then, which printing leaves as it was, shows that
/// cell, whatever the cells before it did: after a reset each of the cell's
/// colors and attributes that is not the default is written again. The
/// underline color of a cell shows only where that color has a sequence: a
/// named one writes nothing. At the end the terminal is back to its default.
#[verifier::spinoff_prover]
pub proof fn law_draw_shows_each_cell(cells: Seq<(u16, u16, CellView)>)
    ensures
        draw_spec(cells) == ops_text(draw_ops(initial_draw_state(), cells).push(TermOp::Reset)),
        forall|i: int|
            #![trigger cells[i]]
            0 <= i < cells.len() ==> {
                let ops = draw_ops(initial_draw_state(), cells.take(i + 1));
                &&& draw_ops(initial_draw_state(), cells).take(ops.len() as int) == ops
                &&& ops.last() == TermOp::Print(cells[i].2.symbol)
                &&& shows_cell(run_ops(default_rendition(), ops), cells[i].2)
            },
        run_ops(default_rendition(), draw_ops(initial_draw_state(), cells).push(TermOp::Reset))
            == default_rendition(),
{
    let st0 = initial_draw_state();
    let r0 = default_rendition();
    let all = draw_ops(st0, cells);
    assert(shows_state(r0, st0));
    lemma_draw_ops(st0, r0, cells);
    assert(all.push(TermOp::Reset).drop_last() =~= all);
    assert forall|i: int|
        #![trigger cells[i]]
        0 <= i < cells.len() implies {
            let ops = draw_ops(st0, cells.take(i + 1));
            &&& all.take(ops.len() as int) == ops
            &&& ops.last() == TermOp::Print(cells[i].2.symbol)
            &&& shows_cell(run_ops(r0, ops), cells[i].2)
        } by {
        lemma_cell_at(cells, i);
    }
}

} // verus!
