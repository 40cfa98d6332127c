//! Cell attributes, and the control codes that sync the decoder's attribute state to
//! the attributes of a cell.
use vstd::prelude::*;
use crate::text::lemma_add_assoc;
use super::{char_add, BG_RESET, BG_START, BOLD, DIM, FG_RESET, FG_START, ITAL, UNDL};

verus! {

// ---------------------------------------------------------------------------
// Encoding
// ---------------------------------------------------------------------------

/// The color of a terminal cell. True colors keep the bit patterns of their RGBA
/// components (IEEE single-precision floats); [`color_eq`] compares them as floats.
#[derive(Clone, Copy, Debug, PartialEq, Eq, Structural)]
pub enum TermColor {
    /// The terminal's default color.
    Default,
    /// A palette index.
    PaletteIndex(u8),
    /// A true color that falls back to the default color.
    TrueColorWithDefaultFallback(u32, u32, u32, u32),
    /// A true color that falls back to the given palette index.
    TrueColorWithPaletteFallback(u32, u32, u32, u32, u8),
}

/// The intensity of a terminal cell.
#[derive(Clone, Copy, Debug, PartialEq, Eq, Structural)]
pub enum Intensity {
    Normal,
    Bold,
    Half,
}

/// The underline style of a terminal cell.
#[derive(Clone, Copy, Debug, PartialEq, Eq, Structural)]
pub enum Underline {
    NoUnderline,
    Single,
    Double,
    Curly,
    Dotted,
    Dashed,
}

/// The attributes of a terminal cell that the encoding reads.
#[derive(Clone, Copy, Debug, PartialEq, Eq, Structural)]
pub struct CellAttrs {
    pub fg: TermColor,
    pub bg: TermColor,
    pub intensity: Intensity,
    pub italic: bool,
    pub underline: Underline,
    pub reverse: bool,
}

/// The attributes of a never-touched cell.
pub open spec fn default_attrs() -> CellAttrs {
    CellAttrs {
        fg: TermColor::Default,
        bg: TermColor::Default,
        intensity: Intensity::Normal,
        italic: false,
        underline: Underline::NoUnderline,
        reverse: false,
    }
}

impl CellAttrs {
    /// The attributes of a never-touched cell.
    pub fn plain() -> (r: Self)
        ensures
            r == default_attrs(),
    {
        CellAttrs {
            fg: TermColor::Default,
            bg: TermColor::Default,
            intensity: Intensity::Normal,
            italic: false,
            underline: Underline::NoUnderline,
            reverse: false,
        }
    }
}

/// One cell of a terminal screen: its grapheme and its attributes.
#[derive(Clone, Debug)]
pub struct GridCell {
    pub text: String,
    pub attrs: CellAttrs,
}

/// The visible screen of a terminal: `cols` cells per row. A row may hold fewer cells
/// than `cols` (the cells past its end were never touched); cells past `cols` are not
/// part of the screen.
#[derive(Clone, Debug)]
pub struct ScreenGrid {
    pub cols: usize,
    pub rows: Vec<Vec<Option<GridCell>>>,
}

/// Whether the single-precision float with bit pattern `b` is a NaN: all exponent bits
/// set and a nonzero fraction, that is a magnitude (the bits but the sign) above that of
/// infinity.
pub open spec fn is_nan_bits(b: u32) -> bool {
    b % 0x8000_0000 > 0x7F80_0000
}

/// Whether the single-precision floats with bit patterns `a` and `b` are equal as floats:
/// neither is a NaN, and they have the same bits or are both zero (of either sign).
#[verifier::opaque]
pub open spec fn float_bits_eq(a: u32, b: u32) -> bool {
    &&& !is_nan_bits(a)
    &&& !is_nan_bits(b)
    &&& (a == b || (a % 0x8000_0000 == 0 && b % 0x8000_0000 == 0))
}

/// Whether two colors are equal as the terminal compares them: the same kind, the same
/// palette index, and true color components equal as floats.
pub open spec fn color_eq(x: TermColor, y: TermColor) -> bool {
    match (x, y) {
        (TermColor::Default, TermColor::Default) => true,
        (TermColor::PaletteIndex(i), TermColor::PaletteIndex(j)) => i == j,
        (TermColor::TrueColorWithDefaultFallback(r, g, b, a), TermColor::TrueColorWithDefaultFallback(r2, g2, b2, a2)) =>
            float_bits_eq(r, r2) && float_bits_eq(g, g2) && float_bits_eq(b, b2) && float_bits_eq(a, a2),
        (TermColor::TrueColorWithPaletteFallback(r, g, b, a, i), TermColor::TrueColorWithPaletteFallback(r2, g2, b2, a2, j)) =>
            float_bits_eq(r, r2) && float_bits_eq(g, g2) && float_bits_eq(b, b2) && float_bits_eq(a, a2) && i == j,
        _ => false,
    }
}

/// Whether a color holds no NaN component, so that it equals itself.
pub open spec fn color_is_comparable(x: TermColor) -> bool {
    match x {
        TermColor::TrueColorWithDefaultFallback(r, g, b, a) =>
            !is_nan_bits(r) && !is_nan_bits(g) && !is_nan_bits(b) && !is_nan_bits(a),
        TermColor::TrueColorWithPaletteFallback(r, g, b, a, _) =>
            !is_nan_bits(r) && !is_nan_bits(g) && !is_nan_bits(b) && !is_nan_bits(a),
        _ => true,
    }
}

/// Whether the single-precision floats with bit patterns `a` and `b` are equal as floats.
pub fn float_bits_equal(a: u32, b: u32) -> (r: bool)
    ensures
        r == float_bits_eq(a, b),
{
    proof {
        reveal(float_bits_eq);
    }
    let ma = a % 0x8000_0000;
    let mb = b % 0x8000_0000;
    ma <= 0x7F80_0000 && mb <= 0x7F80_0000 && (a == b || (ma == 0 && mb == 0))
}

/// Whether two colors are equal as the terminal compares them.
pub fn colors_equal(x: TermColor, y: TermColor) -> (r: bool)
    ensures
        r == color_eq(x, y),
{
    match (x, y) {
        (TermColor::Default, TermColor::Default) => true,
        (TermColor::PaletteIndex(i), TermColor::PaletteIndex(j)) => i == j,
        (TermColor::TrueColorWithDefaultFallback(r, g, b, a), TermColor::TrueColorWithDefaultFallback(r2, g2, b2, a2)) =>
            float_bits_equal(r, r2) && float_bits_equal(g, g2) && float_bits_equal(b, b2) && float_bits_equal(a, a2),
        (TermColor::TrueColorWithPaletteFallback(r, g, b, a, i), TermColor::TrueColorWithPaletteFallback(r2, g2, b2, a2, j)) =>
            float_bits_equal(r, r2) && float_bits_equal(g, g2) && float_bits_equal(b, b2) && float_bits_equal(a, a2)
                && i == j,
        _ => false,
    }
}

/// The code char `k` code points after `base`.
pub open spec fn code_char(base: char, k: u32) -> char {
    (((base as u32) + k) as u32) as char
}

/// The control char selecting `col` as foreground (`fg`) or background color.
pub open spec fn color_char(col: TermColor, fg: bool) -> char {
    match col {
        TermColor::PaletteIndex(i) | TermColor::TrueColorWithPaletteFallback(_, _, _, _, i) =>
            code_char(if fg { FG_START } else { BG_START }, i as u32),
        TermColor::Default | TermColor::TrueColorWithDefaultFallback(..) =>
            if fg { FG_RESET } else { BG_RESET },
    }
}

/// The color that reverse video shows in place of `col`: default colors become black
/// (palette 0, for the foreground) and white (palette 15, for the background).
pub open spec fn reversed_color(col: TermColor, is_fg: bool) -> TermColor {
    match col {
        TermColor::Default | TermColor::TrueColorWithDefaultFallback(..) =>
            TermColor::PaletteIndex(if is_fg { 0 } else { 15 }),
        other => other,
    }
}

/// The foreground color a cell shows, reverse video resolved.
pub open spec fn shown_fg(cell: CellAttrs) -> TermColor {
    if cell.reverse { reversed_color(cell.bg, false) } else { cell.fg }
}

/// The background color a cell shows, reverse video resolved.
pub open spec fn shown_bg(cell: CellAttrs) -> TermColor {
    if cell.reverse { reversed_color(cell.fg, true) } else { cell.bg }
}

/// `seq![c]` when `b`, else the empty sequence.
pub open spec fn code_if(b: bool, c: char) -> Seq<char> {
    if b { seq![c] } else { Seq::empty() }
}

/// Whether syncing `wire` to `cell` sets the foreground color.
pub open spec fn sets_fg(wire: CellAttrs, cell: CellAttrs, blank: bool) -> bool {
    !blank && !color_eq(wire.fg, shown_fg(cell))
}

/// Whether syncing `wire` to `cell` sets the background color.
pub open spec fn sets_bg(wire: CellAttrs, cell: CellAttrs) -> bool {
    !color_eq(wire.bg, shown_bg(cell))
}

/// Whether syncing `wire` to `cell` toggles boldness.
pub open spec fn toggles_bold(wire: CellAttrs, cell: CellAttrs, blank: bool) -> bool {
    !blank && ((wire.intensity == Intensity::Bold) != (cell.intensity == Intensity::Bold))
}

/// Whether syncing `wire` to `cell` toggles dimness.
pub open spec fn toggles_dim(wire: CellAttrs, cell: CellAttrs, blank: bool) -> bool {
    !blank && ((wire.intensity == Intensity::Half) != (cell.intensity == Intensity::Half))
}

/// Whether syncing `wire` to `cell` toggles italic.
pub open spec fn toggles_ital(wire: CellAttrs, cell: CellAttrs, blank: bool) -> bool {
    !blank && wire.italic != cell.italic
}

/// Whether syncing `wire` to `cell` toggles underline (every underline style counts as
/// underlined).
pub open spec fn toggles_undl(wire: CellAttrs, cell: CellAttrs) -> bool {
    (wire.underline != Underline::NoUnderline) != (cell.underline != Underline::NoUnderline)
}

/// The control codes that bring the decoder's attribute state `wire` in line with the
/// cell attributes `cell`, in the order fg, bg, bold, dim, italic, underline. On blank
/// cells only the background color and the underline are synced, as the others are
/// invisible there.
#[verifier::opaque]
pub open spec fn attr_code_seq(wire: CellAttrs, cell: CellAttrs, blank: bool) -> Seq<char> {
    code_if(sets_fg(wire, cell, blank), color_char(shown_fg(cell), true))
        + code_if(sets_bg(wire, cell), color_char(shown_bg(cell), false))
        + code_if(toggles_bold(wire, cell, blank), BOLD)
        + code_if(toggles_dim(wire, cell, blank), DIM)
        + code_if(toggles_ital(wire, cell, blank), ITAL)
        + code_if(toggles_undl(wire, cell), UNDL)
}

/// The decoder's attribute state after the codes of `attr_code_seq`.
pub open spec fn synced_wire(wire: CellAttrs, cell: CellAttrs, blank: bool) -> CellAttrs {
    CellAttrs {
        fg: if sets_fg(wire, cell, blank) { shown_fg(cell) } else { wire.fg },
        bg: if sets_bg(wire, cell) { shown_bg(cell) } else { wire.bg },
        intensity: if !blank { cell.intensity } else { wire.intensity },
        italic: if !blank { cell.italic } else { wire.italic },
        underline: if toggles_undl(wire, cell) { cell.underline } else { wire.underline },
        reverse: wire.reverse,
    }
}

/// The codes and the new decoder state of syncing `wire` to `cell`.
pub open spec fn attr_codes(wire: CellAttrs, cell: CellAttrs, blank: bool) -> (Seq<char>, CellAttrs) {
    (attr_code_seq(wire, cell, blank), synced_wire(wire, cell, blank))
}

/// The control char selecting `col` as foreground (`fg`) or background color.
pub fn color_to_char(col: TermColor, fg: bool) -> (r: char)
    ensures
        r == color_char(col, fg),
{
    match col {
        TermColor::PaletteIndex(i) | TermColor::TrueColorWithPaletteFallback(_, _, _, _, i) =>
            char_add(if fg { FG_START } else { BG_START }, i as u32),
        TermColor::Default | TermColor::TrueColorWithDefaultFallback(..) => {
            if fg { FG_RESET } else { BG_RESET }
        },
    }
}

/// The color reverse video shows in place of `col`.
pub fn reversed_effective_col(col: TermColor, is_fg: bool) -> (r: TermColor)
    ensures
        r == reversed_color(col, is_fg),
{
    match col {
        TermColor::Default | TermColor::TrueColorWithDefaultFallback(..) =>
            TermColor::PaletteIndex(if is_fg { 0 } else { 15 }),
        other => other,
    }
}

/// Emits into `codes` the control codes needed to bring the decoder's attribute state
/// `wire` in line with the cell attributes `cell`, updating `wire` accordingly.
pub fn apply_cell_attrs(codes: &mut Vec<char>, wire: &mut CellAttrs, cell: &CellAttrs, blank: bool)
    ensures
        final(codes)@ == old(codes)@ + attr_codes(*old(wire), *cell, blank).0,
        *final(wire) == attr_codes(*old(wire), *cell, blank).1,
{
    let (new_fg, new_bg) = if cell.reverse {
        (reversed_effective_col(cell.bg, false), reversed_effective_col(cell.fg, true))
    } else {
        (cell.fg, cell.bg)
    };
    push_attr_codes(codes, wire, cell, blank, new_fg, new_bg);
    *wire = sync_wire(wire, cell, blank, new_fg, new_bg);
}

/// Appends the codes of `attr_code_seq`, given the colors the cell shows.
fn push_attr_codes(codes: &mut Vec<char>, wire: &CellAttrs, cell: &CellAttrs, blank: bool, new_fg: TermColor, new_bg: TermColor)
    requires
        new_fg == shown_fg(*cell),
        new_bg == shown_bg(*cell),
    ensures
        final(codes)@ == old(codes)@ + attr_code_seq(*wire, *cell, blank),
{
    let (set_fg, set_bg, t_bold, t_dim, t_ital, t_undl) = attr_flags(wire, cell, blank, new_fg, new_bg);
    let fg_char = color_to_char(new_fg, true);
    let bg_char = color_to_char(new_bg, false);
    let ghost c0 = codes@;
    push_code_if(codes, set_fg, fg_char);
    push_code_if(codes, set_bg, bg_char);
    push_code_if(codes, t_bold, BOLD);
    push_code_if(codes, t_dim, DIM);
    push_code_if(codes, t_ital, ITAL);
    push_code_if(codes, t_undl, UNDL);
    proof {
        lemma_attr_code_seq(c0, *wire, *cell, blank, set_fg, set_bg, t_bold, t_dim, t_ital, t_undl, fg_char, bg_char);
    }
}

/// Which codes syncing `wire` to `cell` emits, given the colors the cell shows.
fn attr_flags(wire: &CellAttrs, cell: &CellAttrs, blank: bool, new_fg: TermColor, new_bg: TermColor) -> (r: (bool, bool, bool, bool, bool, bool))
    requires
        new_fg == shown_fg(*cell),
        new_bg == shown_bg(*cell),
    ensures
        r.0 == sets_fg(*wire, *cell, blank),
        r.1 == sets_bg(*wire, *cell),
        r.2 == toggles_bold(*wire, *cell, blank),
        r.3 == toggles_dim(*wire, *cell, blank),
        r.4 == toggles_ital(*wire, *cell, blank),
        r.5 == toggles_undl(*wire, *cell),
{
    let set_fg = !blank && !colors_equal(wire.fg, new_fg);
    let set_bg = !colors_equal(wire.bg, new_bg);
    let t_bold = !blank && ((wire.intensity == Intensity::Bold) != (cell.intensity == Intensity::Bold));
    let t_dim = !blank && ((wire.intensity == Intensity::Half) != (cell.intensity == Intensity::Half));
    let t_ital = !blank && wire.italic != cell.italic;
    let t_undl = (wire.underline != Underline::NoUnderline) != (cell.underline != Underline::NoUnderline);
    (set_fg, set_bg, t_bold, t_dim, t_ital, t_undl)
}

proof fn lemma_attr_code_seq(
    prefix: Seq<char>,
    wire: CellAttrs,
    cell: CellAttrs,
    blank: bool,
    set_fg: bool,
    set_bg: bool,
    t_bold: bool,
    t_dim: bool,
    t_ital: bool,
    t_undl: bool,
    fg_char: char,
    bg_char: char,
)
    requires
        set_fg == sets_fg(wire, cell, blank),
        set_bg == sets_bg(wire, cell),
        t_bold == toggles_bold(wire, cell, blank),
        t_dim == toggles_dim(wire, cell, blank),
        t_ital == toggles_ital(wire, cell, blank),
        t_undl == toggles_undl(wire, cell),
        fg_char == color_char(shown_fg(cell), true),
        bg_char == color_char(shown_bg(cell), false),
    ensures
        prefix + code_if(set_fg, fg_char) + code_if(set_bg, bg_char) + code_if(t_bold, BOLD) + code_if(t_dim, DIM)
            + code_if(t_ital, ITAL) + code_if(t_undl, UNDL) == prefix + attr_code_seq(wire, cell, blank),
{
    reveal(attr_code_seq);
    let a1 = code_if(set_fg, fg_char);
    let a2 = a1 + code_if(set_bg, bg_char);
    let a3 = a2 + code_if(t_bold, BOLD);
    let a4 = a3 + code_if(t_dim, DIM);
    let a5 = a4 + code_if(t_ital, ITAL);
    let a6 = a5 + code_if(t_undl, UNDL);
    lemma_add_assoc(prefix, a1, code_if(set_bg, bg_char));
    lemma_add_assoc(prefix, a2, code_if(t_bold, BOLD));
    lemma_add_assoc(prefix, a3, code_if(t_dim, DIM));
    lemma_add_assoc(prefix, a4, code_if(t_ital, ITAL));
    lemma_add_assoc(prefix, a5, code_if(t_undl, UNDL));
    assert(a6 == attr_code_seq(wire, cell, blank));
}

/// Appends `c` when `b`.
fn push_code_if(codes: &mut Vec<char>, b: bool, c: char)
    ensures
        final(codes)@ == old(codes)@ + code_if(b, c),
{
    if b {
        codes.push(c);
    }
    assert(codes@ =~= old(codes)@ + code_if(b, c));
}

/// The decoder state after the codes of `attr_code_seq`, given the colors the cell shows.
fn sync_wire(wire: &CellAttrs, cell: &CellAttrs, blank: bool, new_fg: TermColor, new_bg: TermColor) -> (r: CellAttrs)
    requires
        new_fg == shown_fg(*cell),
        new_bg == shown_bg(*cell),
    ensures
        r == synced_wire(*wire, *cell, blank),
{
    let mut w = *wire;
    if !blank && !colors_equal(wire.fg, new_fg) {
        w.fg = new_fg;
    }
    if !colors_equal(wire.bg, new_bg) {
        w.bg = new_bg;
    }
    if !blank {
        w.intensity = cell.intensity;
        w.italic = cell.italic;
    }
    if (wire.underline != Underline::NoUnderline) != (cell.underline != Underline::NoUnderline) {
        w.underline = cell.underline;
    }
    w
}

/// The palette index a color selects; none for the default color.
pub open spec fn color_index(col: TermColor) -> Option<u8> {
    match col {
        TermColor::PaletteIndex(i) => Some(i),
        TermColor::TrueColorWithPaletteFallback(_, _, _, _, i) => Some(i),
        _ => None,
    }
}

/// Whether the decoder's attribute state `wire` shows what `cell` shows: the background
/// color and whether it is underlined always, and on a cell that is not blank also the
/// foreground color, the intensity and italic. Colors count by what the encoding can
/// show of them, their palette index.
pub open spec fn wire_shows(wire: CellAttrs, cell: CellAttrs, blank: bool) -> bool {
    &&& color_index(wire.bg) == color_index(shown_bg(cell))
    &&& (wire.underline != Underline::NoUnderline) == (cell.underline != Underline::NoUnderline)
    &&& !blank ==> color_index(wire.fg) == color_index(shown_fg(cell)) && wire.intensity == cell.intensity
        && wire.italic == cell.italic
}

/// Whether the decoder's attribute state `wire` already agrees with `cell`, colors
/// compared as the terminal compares them, so that syncing needs no code.
pub open spec fn wire_agrees(wire: CellAttrs, cell: CellAttrs, blank: bool) -> bool {
    &&& color_eq(wire.bg, shown_bg(cell))
    &&& (wire.underline != Underline::NoUnderline) == (cell.underline != Underline::NoUnderline)
    &&& !blank ==> color_eq(wire.fg, shown_fg(cell)) && wire.intensity == cell.intensity && wire.italic == cell.italic
}

/// Colors that are equal select the same palette index.
proof fn lemma_color_eq_index(x: TermColor, y: TermColor)
    requires
        color_eq(x, y),
    ensures
        color_index(x) == color_index(y),
{
    reveal(float_bits_eq);
}

/// After syncing, the decoder's attribute state shows what the cell shows.
proof fn lemma_sync_shows(wire: CellAttrs, cell: CellAttrs, blank: bool)
    ensures
        wire_shows(synced_wire(wire, cell, blank), cell, blank),
{
    if !sets_fg(wire, cell, blank) && !blank {
        lemma_color_eq_index(wire.fg, shown_fg(cell));
    }
    if !sets_bg(wire, cell) {
        lemma_color_eq_index(wire.bg, shown_bg(cell));
    }
    let w = synced_wire(wire, cell, blank);
    assert(color_index(w.bg) == color_index(shown_bg(cell)));
}

/// Syncing emits no code exactly when the state already agrees with the cell.
proof fn lemma_sync_no_codes(wire: CellAttrs, cell: CellAttrs, blank: bool)
    ensures
        attr_code_seq(wire, cell, blank).len() == 0 <==> wire_agrees(wire, cell, blank),
{
    reveal(attr_code_seq);
    if !blank {
        assert((wire.intensity == cell.intensity) <==> (
            (wire.intensity == Intensity::Bold) == (cell.intensity == Intensity::Bold)
            && (wire.intensity == Intensity::Half) == (cell.intensity == Intensity::Half)));
    }
}

/// After syncing to a cell whose colors have no NaN component, the state agrees with it.
proof fn lemma_sync_agrees(wire: CellAttrs, cell: CellAttrs, blank: bool)
    requires
        color_is_comparable(shown_fg(cell)),
        color_is_comparable(shown_bg(cell)),
    ensures
        wire_agrees(synced_wire(wire, cell, blank), cell, blank),
{
    lemma_color_self_eq(shown_fg(cell));
    lemma_color_self_eq(shown_bg(cell));
}

/// Syncing the decoder's attribute state to a cell makes it show what the cell shows;
/// no code is emitted exactly when it already agreed with the cell; and a second cell
/// with the same attributes costs no codes, unless a color it shows has a NaN component
/// (such a color equals no color, itself included).
pub proof fn law_attr_sync(wire: CellAttrs, cell: CellAttrs, blank: bool)
    ensures
        wire_shows(attr_codes(wire, cell, blank).1, cell, blank),
        attr_codes(wire, cell, blank).0.len() == 0 <==> wire_agrees(wire, cell, blank),
        color_is_comparable(shown_fg(cell)) && color_is_comparable(shown_bg(cell))
            ==> attr_codes(attr_codes(wire, cell, blank).1, cell, blank).0.len() == 0,
{
    lemma_sync_shows(wire, cell, blank);
    lemma_sync_no_codes(wire, cell, blank);
    let w = synced_wire(wire, cell, blank);
    lemma_sync_no_codes(w, cell, blank);
    if color_is_comparable(shown_fg(cell)) && color_is_comparable(shown_bg(cell)) {
        lemma_sync_agrees(wire, cell, blank);
    }
}

/// A color without a NaN component equals itself.
proof fn lemma_color_self_eq(x: TermColor)
    requires
        color_is_comparable(x),
    ensures
        color_eq(x, x),
{
    reveal(float_bits_eq);
}

/// Reverse video swaps the colors a cell shows, each resolved on its own: the text takes
/// the background color, a default background showing as white (palette 15); the
/// background takes the text color, a default text color showing as black (palette 0);
/// whatever the other color is. Without reverse video the cell shows its own colors.
pub proof fn law_reverse_video_swaps_colors(cell: CellAttrs)
    ensures
        shown_fg(cell) == (if !cell.reverse {
            cell.fg
        } else {
            match cell.bg {
                TermColor::Default => TermColor::PaletteIndex(15),
                TermColor::TrueColorWithDefaultFallback(..) => TermColor::PaletteIndex(15),
                other => other,
            }
        }),
        shown_bg(cell) == (if !cell.reverse {
            cell.bg
        } else {
            match cell.fg {
                TermColor::Default => TermColor::PaletteIndex(0),
                TermColor::TrueColorWithDefaultFallback(..) => TermColor::PaletteIndex(0),
                other => other,
            }
        }),
{
}

} // verus!
