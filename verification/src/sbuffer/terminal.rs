//! Reading the visible screen of a wezterm terminal (as emulated by `shadow-terminal`)
//! into a [`ScreenGrid`] of plain values.
use vstd::prelude::*;
use shadow_terminal::termwiz::color::ColorAttribute;
use super::cell::{CellAttrs, GridCell, Intensity, ScreenGrid, TermColor, Underline};
use super::decode::no_line_feed_cells;
use super::encode::encode;
use super::html::html_of;
use super::html_text::{html_text, law_html_shows_screen, screen_lines};
use super::SBuffer;

verus! {

#[verifier::external_type_specification]
#[verifier::external_body]
pub struct ExTerminal(shadow_terminal::wezterm_term::Terminal);

#[verifier::external_type_specification]
#[verifier::external_body]
pub struct ExScreen(shadow_terminal::wezterm_term::Screen);

#[verifier::external_type_specification]
#[verifier::external_body]
pub struct ExCell(shadow_terminal::wezterm_term::Cell);

#[verifier::external_type_specification]
#[verifier::external_body]
pub struct ExCellAttributes(shadow_terminal::wezterm_term::CellAttributes);

/// The columns and rows that `Terminal::get_size` reports for a terminal.
pub uninterp spec fn spec_terminal_size(term: shadow_terminal::wezterm_term::Terminal) -> (usize, usize);

/// The screen that `Terminal::screen` shows of a terminal.
pub uninterp spec fn spec_terminal_screen(term: shadow_terminal::wezterm_term::Terminal) -> shadow_terminal::wezterm_term::Screen;

/// The cell that `Screen::get_cell` gives at column `x` of visible row `y`, if any.
pub uninterp spec fn spec_screen_cell(screen: shadow_terminal::wezterm_term::Screen, x: usize, y: i64) -> Option<shadow_terminal::wezterm_term::Cell>;

/// The grapheme that `Cell::str` gives of a cell.
pub uninterp spec fn spec_cell_text(cell: shadow_terminal::wezterm_term::Cell) -> Seq<char>;

/// The attributes that `Cell::attrs` gives of a cell.
pub uninterp spec fn spec_cell_attrs(cell: shadow_terminal::wezterm_term::Cell) -> shadow_terminal::wezterm_term::CellAttributes;

/// `CellAttributes::foreground`, as a [`TermColor`].
pub uninterp spec fn spec_attrs_foreground(a: shadow_terminal::wezterm_term::CellAttributes) -> TermColor;

/// `CellAttributes::background`, as a [`TermColor`].
pub uninterp spec fn spec_attrs_background(a: shadow_terminal::wezterm_term::CellAttributes) -> TermColor;

/// `CellAttributes::intensity`, as an [`Intensity`].
pub uninterp spec fn spec_attrs_intensity(a: shadow_terminal::wezterm_term::CellAttributes) -> Intensity;

/// `CellAttributes::italic`.
pub uninterp spec fn spec_attrs_italic(a: shadow_terminal::wezterm_term::CellAttributes) -> bool;

/// `CellAttributes::underline`, as an [`Underline`].
pub uninterp spec fn spec_attrs_underline(a: shadow_terminal::wezterm_term::CellAttributes) -> Underline;

/// `CellAttributes::reverse`.
pub uninterp spec fn spec_attrs_reverse(a: shadow_terminal::wezterm_term::CellAttributes) -> bool;

/// `Terminal::get_size`: the terminal's columns and rows.
#[verifier::external_body]
fn terminal_size(term: &shadow_terminal::wezterm_term::Terminal) -> (r: (usize, usize))
    ensures
        r == spec_terminal_size(*term),
{
    let size = term.get_size();
    (size.cols, size.rows)
}

/// `Terminal::screen`, cloned: a copy of the terminal's screen.
#[verifier::external_body]
fn terminal_screen(term: &shadow_terminal::wezterm_term::Terminal) -> (r: shadow_terminal::wezterm_term::Screen)
    ensures
        r == spec_terminal_screen(*term),
{
    term.screen().clone()
}

/// `Screen::get_cell`: the cell at column `x` of visible row `y` (a copy), `None` where the
/// row holds no cell. The call only turns the row's storage into a plain vector of its
/// cells, so every later call gives what it would have given before.
#[verifier::external_body]
fn screen_cell(screen: &mut shadow_terminal::wezterm_term::Screen, x: usize, y: i64) -> (r: Option<shadow_terminal::wezterm_term::Cell>)
    ensures
        r == spec_screen_cell(*old(screen), x, y),
        forall|a: usize, b: i64| #[trigger] spec_screen_cell(*final(screen), a, b) == spec_screen_cell(*old(screen), a, b),
{
    screen.get_cell(x, y).cloned()
}

/// `Cell::str`: the grapheme the cell holds.
#[verifier::external_body]
fn cell_str(cell: &shadow_terminal::wezterm_term::Cell) -> (r: String)
    ensures
        r@ == spec_cell_text(*cell),
{
    cell.str().to_string()
}

/// `Cell::attrs`: the cell's attributes (a copy).
#[verifier::external_body]
fn cell_attrs(cell: &shadow_terminal::wezterm_term::Cell) -> (r: shadow_terminal::wezterm_term::CellAttributes)
    ensures
        r == spec_cell_attrs(*cell),
{
    cell.attrs().clone()
}

/// `CellAttributes::foreground`, variant by variant as a [`TermColor`] (true color
/// components by their bit patterns).
#[verifier::external_body]
fn attrs_foreground(a: &shadow_terminal::wezterm_term::CellAttributes) -> (r: TermColor)
    ensures
        r == spec_attrs_foreground(*a),
{
    match a.foreground() {
        ColorAttribute::TrueColorWithPaletteFallback(t, i) =>
            TermColor::TrueColorWithPaletteFallback(t.0.to_bits(), t.1.to_bits(), t.2.to_bits(), t.3.to_bits(), i),
        ColorAttribute::TrueColorWithDefaultFallback(t) =>
            TermColor::TrueColorWithDefaultFallback(t.0.to_bits(), t.1.to_bits(), t.2.to_bits(), t.3.to_bits()),
        ColorAttribute::PaletteIndex(i) => TermColor::PaletteIndex(i),
        ColorAttribute::Default => TermColor::Default,
    }
}

/// `CellAttributes::background`, variant by variant as a [`TermColor`] (true color
/// components by their bit patterns).
#[verifier::external_body]
fn attrs_background(a: &shadow_terminal::wezterm_term::CellAttributes) -> (r: TermColor)
    ensures
        r == spec_attrs_background(*a),
{
    match a.background() {
        ColorAttribute::TrueColorWithPaletteFallback(t, i) =>
            TermColor::TrueColorWithPaletteFallback(t.0.to_bits(), t.1.to_bits(), t.2.to_bits(), t.3.to_bits(), i),
        ColorAttribute::TrueColorWithDefaultFallback(t) =>
            TermColor::TrueColorWithDefaultFallback(t.0.to_bits(), t.1.to_bits(), t.2.to_bits(), t.3.to_bits()),
        ColorAttribute::PaletteIndex(i) => TermColor::PaletteIndex(i),
        ColorAttribute::Default => TermColor::Default,
    }
}

/// `CellAttributes::intensity`, variant by variant.
#[verifier::external_body]
fn attrs_intensity(a: &shadow_terminal::wezterm_term::CellAttributes) -> (r: Intensity)
    ensures
        r == spec_attrs_intensity(*a),
{
    match a.intensity() {
        shadow_terminal::wezterm_term::Intensity::Normal => Intensity::Normal,
        shadow_terminal::wezterm_term::Intensity::Bold => Intensity::Bold,
        shadow_terminal::wezterm_term::Intensity::Half => Intensity::Half,
    }
}

/// `CellAttributes::italic`.
#[verifier::external_body]
fn attrs_italic(a: &shadow_terminal::wezterm_term::CellAttributes) -> (r: bool)
    ensures
        r == spec_attrs_italic(*a),
{
    a.italic()
}

/// `CellAttributes::underline`, variant by variant.
#[verifier::external_body]
fn attrs_underline(a: &shadow_terminal::wezterm_term::CellAttributes) -> (r: Underline)
    ensures
        r == spec_attrs_underline(*a),
{
    match a.underline() {
        shadow_terminal::wezterm_term::Underline::None => Underline::NoUnderline,
        shadow_terminal::wezterm_term::Underline::Single => Underline::Single,
        shadow_terminal::wezterm_term::Underline::Double => Underline::Double,
        shadow_terminal::wezterm_term::Underline::Curly => Underline::Curly,
        shadow_terminal::wezterm_term::Underline::Dotted => Underline::Dotted,
        shadow_terminal::wezterm_term::Underline::Dashed => Underline::Dashed,
    }
}

/// `CellAttributes::reverse`.
#[verifier::external_body]
fn attrs_reverse(a: &shadow_terminal::wezterm_term::CellAttributes) -> (r: bool)
    ensures
        r == spec_attrs_reverse(*a),
{
    a.reverse()
}

/// The attributes of a terminal cell that the encoding reads.
pub open spec fn attrs_of(a: shadow_terminal::wezterm_term::CellAttributes) -> CellAttrs {
    CellAttrs {
        fg: spec_attrs_foreground(a),
        bg: spec_attrs_background(a),
        intensity: spec_attrs_intensity(a),
        italic: spec_attrs_italic(a),
        underline: spec_attrs_underline(a),
        reverse: spec_attrs_reverse(a),
    }
}

/// Whether the grid entry `g` holds what the terminal cell `c` holds: its grapheme and
/// attributes, and `None` exactly where the terminal has no cell.
pub open spec fn shows_cell(g: Option<GridCell>, c: Option<shadow_terminal::wezterm_term::Cell>) -> bool {
    match (g, c) {
        (Some(g), Some(c)) => g.text@ == spec_cell_text(c) && g.attrs == attrs_of(spec_cell_attrs(c)),
        (None, None) => true,
        _ => false,
    }
}

/// The cell at column `x` of visible row `y` of `screen`; none on a row past what a
/// row index can address.
pub open spec fn visible_cell(screen: shadow_terminal::wezterm_term::Screen, x: int, y: int) -> Option<shadow_terminal::wezterm_term::Cell> {
    if y <= i64::MAX {
        spec_screen_cell(screen, x as usize, y as i64)
    } else {
        None
    }
}

/// Whether `g` is the visible screen of `term`: as many columns and rows as the terminal
/// has, and in each place the terminal's cell.
pub open spec fn grid_of_terminal(g: ScreenGrid, term: shadow_terminal::wezterm_term::Terminal) -> bool {
    let (cols, rows) = spec_terminal_size(term);
    let screen = spec_terminal_screen(term);
    &&& g.cols == cols
    &&& g.rows@.len() == rows
    &&& forall|y: int| 0 <= y < rows ==> #[trigger] g.rows@[y]@.len() == cols
    &&& forall|y: int, x: int| 0 <= y < rows && 0 <= x < cols
        ==> shows_cell(#[trigger] g.rows@[y]@[x], visible_cell(screen, x, y))
}

/// The attributes of `cell` that the encoding reads.
fn grid_cell_of(cell: &shadow_terminal::wezterm_term::Cell) -> (r: GridCell)
    ensures
        r.text@ == spec_cell_text(*cell),
        r.attrs == attrs_of(spec_cell_attrs(*cell)),
{
    let a = cell_attrs(cell);
    GridCell {
        text: cell_str(cell),
        attrs: CellAttrs {
            fg: attrs_foreground(&a),
            bg: attrs_background(&a),
            intensity: attrs_intensity(&a),
            italic: attrs_italic(&a),
            underline: attrs_underline(&a),
            reverse: attrs_reverse(&a),
        },
    }
}

/// The visible screen of `term` as plain values: every row holds one entry per column,
/// `None` for a place where the terminal holds no cell.
pub fn capture_screen(term: &shadow_terminal::wezterm_term::Terminal) -> (grid: ScreenGrid)
    ensures
        grid_of_terminal(grid, *term),
{
    let (cols, rows) = terminal_size(term);
    let mut screen = terminal_screen(term);
    let ghost screen0 = screen;
    let mut out_rows: Vec<Vec<Option<GridCell>>> = Vec::new();
    let mut y: usize = 0;
    while y < rows
        invariant
            y <= rows,
            (cols, rows) == spec_terminal_size(*term),
            screen0 == spec_terminal_screen(*term),
            forall|a: usize, b: i64| #[trigger] spec_screen_cell(screen, a, b) == spec_screen_cell(screen0, a, b),
            out_rows@.len() == y,
            forall|r: int| 0 <= r < out_rows@.len() ==> #[trigger] out_rows@[r]@.len() == cols,
            forall|r: int, x: int| 0 <= r < y && 0 <= x < cols
                ==> shows_cell(#[trigger] out_rows@[r]@[x], visible_cell(screen0, x, r)),
        decreases rows - y,
    {
        let mut row: Vec<Option<GridCell>> = Vec::new();
        let mut x: usize = 0;
        while x < cols
            invariant
                x <= cols,
                y < rows,
                forall|a: usize, b: i64| #[trigger] spec_screen_cell(screen, a, b) == spec_screen_cell(screen0, a, b),
                row@.len() == x,
                forall|t: int| 0 <= t < x ==> shows_cell(#[trigger] row@[t], visible_cell(screen0, t, y as int)),
            decreases cols - x,
        {
            let cell = if (y as u64) <= 0x7FFF_FFFF_FFFF_FFFF {
                screen_cell(&mut screen, x, y as i64)
            } else {
                None
            };
            match cell {
                Some(c) => row.push(Some(grid_cell_of(&c))),
                None => row.push(None),
            }
            x = x + 1;
        }
        out_rows.push(row);
        y = y + 1;
    }
    ScreenGrid { cols, rows: out_rows }
}

impl SBuffer {
    /// Captures the current screen contents (including cell attributes) of the given
    /// terminal: the encoding of the grid that holds, place by place, the terminal's
    /// visible cells, rows as wide as the terminal.
    pub fn from_terminal(term: &shadow_terminal::wezterm_term::Terminal) -> (r: SBuffer)
        ensures
            exists|g: ScreenGrid| grid_of_terminal(g, *term) && r@ == (#[trigger] encode(g), g.cols as nat),
            r@.1 == spec_terminal_size(*term).0,
            r@.0.len() >= 1 && r@.0[0] == super::START,
    {
        let grid = capture_screen(term);
        let r = SBuffer::from_screen(&grid);
        assert(r@ == (encode(grid), grid.cols as nat));
        r
    }
}

/// A terminal's snapshot renders as the terminal's screen: for the grid of the terminal's
/// visible cells (the grid that `SBuffer::from_terminal` encodes), the text of the HTML
/// rendering (tags removed, entities replaced) is the screen's rows, each padded with
/// spaces to the terminal's width, separated by line feeds. Terminals without rows, and
/// cells that hold a line feed, are left out.
pub proof fn law_html_shows_terminal(term: shadow_terminal::wezterm_term::Terminal, g: ScreenGrid)
    requires
        grid_of_terminal(g, term),
        spec_terminal_size(term).1 >= 1,
        no_line_feed_cells(g),
    ensures
        html_text(html_of(encode(g), spec_terminal_size(term).0 as nat))
            == screen_lines(g.rows@, spec_terminal_size(term).0 as nat).drop_last(),
{
    law_html_shows_screen(g);
}

} // verus!
