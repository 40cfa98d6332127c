//! Reading an SBuffer string back: which cells each row shows, each with the classes in
//! effect for it. The decoder here follows the format's rules (line feeds end rows,
//! color and attribute codes change the classes, an escape or repeat code applies to the
//! char after it, a dangling one at the end is ignored), and the law of this module
//! states that decoding an encoded screen gives back, for every row, the char and the
//! visible formatting of each cell.
use vstd::prelude::*;
use super::cell::{
    attr_code_seq, attr_codes, code_char, code_if, color_char, shown_bg, shown_fg, sets_bg, sets_fg, synced_wire,
    toggles_bold, toggles_dim, toggles_ital, toggles_undl, wire_shows, color_index, CellAttrs, GridCell, Intensity, ScreenGrid,
    TermColor, Underline,
};
use super::encode::{cell_at, cell_char, cell_parts, cell_step, enc_cells, enc_rows, encode, flush_run, literal_cell, row_end, run_chars, EncState};
use super::html::{no_classes, repeated, SBufferHtmlClassList};
use super::{is_reserved, BOLD, DIM, ESCAPE, ITAL, START, UNDL};

verus! {

/// A decoded cell: its char and the classes in effect for it.
pub type ShownCell = (char, SBufferHtmlClassList);

/// The decoder's state: the rows ended so far (each with the classes in effect at its
/// line feed, which the rest of the row is padded with), the cells of the current row,
/// the classes in effect, and the count of a repeat (or escape) code waiting for its char.
pub struct DecState {
    pub rows: Seq<(Seq<ShownCell>, SBufferHtmlClassList)>,
    pub cur: Seq<ShownCell>,
    pub cls: SBufferHtmlClassList,
    pub pend: Option<nat>,
}

/// Whether `c` is a color or attribute control code, which shows nothing.
pub open spec fn is_attr_code(c: char) -> bool {
    let v = c as u32;
    (0xE100 <= v && v < 0xE300) || (0xE400 <= v && v <= 0xE405)
}

/// Whether `c` is an escape (U+E300) or repeat (U+E301–U+E3FF) code.
pub open spec fn is_repeat_code(c: char) -> bool {
    let v = c as u32;
    0xE300 <= v && v < 0xE400
}

/// The classes after the color or attribute code `c`: a color code selects its palette
/// index, a reset removes the color, a toggle flips its class.
pub open spec fn class_after(cl: SBufferHtmlClassList, c: char) -> SBufferHtmlClassList {
    let v = c as u32;
    if 0xE100 <= v && v < 0xE200 {
        SBufferHtmlClassList { fg: Some((v - 0xE100) as u8), ..cl }
    } else if v == 0xE400 {
        SBufferHtmlClassList { fg: None, ..cl }
    } else if 0xE200 <= v && v < 0xE300 {
        SBufferHtmlClassList { bg: Some((v - 0xE200) as u8), ..cl }
    } else if v == 0xE401 {
        SBufferHtmlClassList { bg: None, ..cl }
    } else if v == 0xE402 {
        SBufferHtmlClassList { bold: !cl.bold, ..cl }
    } else if v == 0xE403 {
        SBufferHtmlClassList { dim: !cl.dim, ..cl }
    } else if v == 0xE404 {
        SBufferHtmlClassList { ital: !cl.ital, ..cl }
    } else {
        SBufferHtmlClassList { undl: !cl.undl, ..cl }
    }
}

/// `n` copies of `x`.
pub open spec fn copies<A>(x: A, n: nat) -> Seq<A> {
    Seq::new(n, |_i: int| x)
}

/// The decoder state after one more char.
pub open spec fn dec_step(st: DecState, c: char) -> DecState {
    if c == '\n' {
        DecState { rows: st.rows.push((st.cur, st.cls)), cur: Seq::empty(), cls: st.cls, pend: None }
    } else {
        match st.pend {
            Some(n) => DecState { rows: st.rows, cur: st.cur + copies((c, st.cls), n), cls: st.cls, pend: None },
            None => if is_attr_code(c) {
                DecState { rows: st.rows, cur: st.cur, cls: class_after(st.cls, c), pend: None }
            } else if is_repeat_code(c) {
                DecState { rows: st.rows, cur: st.cur, cls: st.cls, pend: Some(((c as u32) - 0xE300 + 1) as nat) }
            } else {
                DecState { rows: st.rows, cur: st.cur.push((c, st.cls)), cls: st.cls, pend: None }
            },
        }
    }
}

/// The decoder state after the chars `s`.
pub open spec fn dec_seq(st: DecState, s: Seq<char>) -> DecState
    decreases s.len(),
{
    if s.len() == 0 {
        st
    } else {
        dec_step(dec_seq(st, s.drop_last()), s.last())
    }
}

pub open spec fn dec_init() -> DecState {
    DecState { rows: Seq::empty(), cur: Seq::empty(), cls: no_classes(), pend: None }
}

/// The decoding of an SBuffer string (its first char is the version char U+E000).
pub open spec fn decode(s: Seq<char>) -> DecState {
    dec_seq(dec_init(), s.skip(1))
}

/// The classes that stand for the attributes `w`.
pub open spec fn classes_of(w: CellAttrs) -> SBufferHtmlClassList {
    SBufferHtmlClassList {
        fg: color_index(w.fg),
        bg: color_index(w.bg),
        bold: w.intensity == Intensity::Bold,
        dim: w.intensity == Intensity::Half,
        ital: w.italic,
        undl: w.underline != Underline::NoUnderline,
    }
}

/// Whether the classes `cl` show what a cell with attributes `a` shows: its background
/// color and whether it is underlined; for a cell that is not blank also its foreground
/// color, boldness, dimness and italic (reverse video resolved).
pub open spec fn classes_show(cl: SBufferHtmlClassList, a: CellAttrs, blank: bool) -> bool {
    &&& cl.bg == color_index(shown_bg(a))
    &&& cl.undl == (a.underline != Underline::NoUnderline)
    &&& !blank ==> {
        &&& cl.fg == color_index(shown_fg(a))
        &&& cl.bold == (a.intensity == Intensity::Bold)
        &&& cl.dim == (a.intensity == Intensity::Half)
        &&& cl.ital == a.italic
    }
}

/// The cells of the first `x` cells of `row` that show a char: the char, the cell's
/// attributes, and whether the cell is blank.
pub open spec fn row_cells(row: Seq<Option<GridCell>>, x: nat) -> Seq<(char, CellAttrs, bool)>
    decreases x,
{
    if x == 0 {
        Seq::empty()
    } else {
        let (attrs, text) = cell_parts(cell_at(row, x - 1));
        row_cells(row, (x - 1) as nat) + match cell_char(text) {
            Some(c) => seq![(c, attrs, text == seq![' '])],
            None => Seq::empty(),
        }
    }
}

/// Whether no cell of the screen stands for a line feed.
pub open spec fn no_line_feed_cells(g: ScreenGrid) -> bool {
    forall|y: int, x: int| 0 <= y < g.rows@.len() && 0 <= x < g.cols ==> #[trigger] cell_char(
        cell_parts(cell_at(g.rows@[y]@, x)).1,
    ) != Some('\n')
}

/// Whether the decoded cells `d` show the cells `cs`, one for one.
pub open spec fn cells_show(d: Seq<ShownCell>, cs: Seq<(char, CellAttrs, bool)>) -> bool {
    &&& d.len() == cs.len()
    &&& forall|i: int| #![trigger d[i]] 0 <= i < d.len() ==> d[i].0 == cs[i].0 && classes_show(d[i].1, cs[i].1, cs[i].2)
}

/// Whether a decoded row shows the cells `cs` of a screen row: its cells show the first
/// cells one for one, and the cells left out at its end are spaces whose background and
/// underline the classes at the row's line feed show (so padding the row with them
/// renders them).
pub open spec fn row_shows(row: (Seq<ShownCell>, SBufferHtmlClassList), cs: Seq<(char, CellAttrs, bool)>) -> bool {
    let (d, end) = row;
    &&& d.len() <= cs.len()
    &&& cells_show(d, cs.take(d.len() as int))
    &&& forall|i: int| d.len() <= i < cs.len() ==> #[trigger] cs[i].0 == ' ' && classes_show(end, cs[i].1, true)
}

/// Whether the decoded rows `dec` show the rows `grid` of a screen `cols` cells wide.
pub open spec fn rows_show(dec: Seq<(Seq<ShownCell>, SBufferHtmlClassList)>, grid: Seq<Vec<Option<GridCell>>>, cols: nat) -> bool {
    &&& dec.len() == grid.len()
    &&& forall|y: int| 0 <= y < dec.len() ==> #[trigger] row_shows(dec[y], row_cells(grid[y]@, cols))
}

/// The decoded cells of a pending run of the encoder, under the classes `cl`.
pub open spec fn run_cells(run: Option<(char, nat)>, cl: SBufferHtmlClassList) -> Seq<ShownCell> {
    match run {
        Some((c, n)) => copies((c, cl), n),
        None => Seq::empty(),
    }
}

// ---------------------------------------------------------------------------
// Decoding pieces of an encoding
// ---------------------------------------------------------------------------

/// Decoding is a left fold: decoding `a + b` continues from the state after `a`.
pub proof fn lemma_dec_concat(st: DecState, a: Seq<char>, b: Seq<char>)
    ensures
        dec_seq(st, a + b) == dec_seq(dec_seq(st, a), b),
    decreases b.len(),
{
    if b.len() == 0 {
        assert(a + b =~= a);
    } else {
        lemma_dec_concat(st, a, b.drop_last());
        assert((a + b).drop_last() =~= a + b.drop_last());
        assert((a + b).last() == b.last());
    }
}

/// Decoding one char.
pub proof fn lemma_dec_one(st: DecState, x: char)
    ensures
        dec_seq(st, seq![x]) == dec_step(st, x),
{
    let s = seq![x];
    assert(s.drop_last() =~= Seq::<char>::empty());
    assert(dec_seq(st, s.drop_last()) == st);
    assert(s.last() == x);
}

/// Decoding two chars.
pub proof fn lemma_dec_two(st: DecState, x: char, y: char)
    ensures
        dec_seq(st, seq![x, y]) == dec_step(dec_step(st, x), y),
{
    let s = seq![x, y];
    assert(s.drop_last() =~= seq![x]);
    lemma_dec_one(st, x);
    assert(s.last() == y);
}

/// The code chars of escape and repeat codes are repeat codes.
proof fn lemma_repeat_code(k: u32)
    requires
        k <= 255,
    ensures
        is_repeat_code(code_char(ESCAPE, k)),
        (code_char(ESCAPE, k) as u32) - 0xE300 + 1 == k + 1,
        code_char(ESCAPE, k) != '\n',
        !is_attr_code(code_char(ESCAPE, k)),
{
}

/// Decoding the encoding of a run of `n` cells holding `c` adds `n` cells showing `c`
/// under the classes in effect.
pub proof fn lemma_dec_run(st: DecState, c: char, n: nat)
    requires
        st.pend is None,
        c != '\n',
    ensures
        dec_seq(st, run_chars(c, n)) == (DecState {
            rows: st.rows,
            cur: st.cur + copies((c, st.cls), n),
            cls: st.cls,
            pend: None,
        }),
    decreases n,
{
    if n > 256 {
        let head = seq![code_char(ESCAPE, 255), c];
        lemma_dec_concat(st, head, run_chars(c, (n - 256) as nat));
        lemma_dec_two(st, code_char(ESCAPE, 255), c);
        lemma_repeat_code(255);
        let mid = DecState { rows: st.rows, cur: st.cur + copies((c, st.cls), 256), cls: st.cls, pend: None };
        assert(dec_seq(st, head) == mid);
        lemma_dec_run(mid, c, (n - 256) as nat);
        assert(st.cur + copies((c, st.cls), 256) + copies((c, st.cls), (n - 256) as nat) =~= st.cur + copies(
            (c, st.cls),
            n,
        ));
    } else if n * crate::sbuffer::encode::literal_len(c) >= crate::text::utf8_len(c) + 4 {
        assert(n >= 1) by (nonlinear_arith)
            requires
                n * crate::sbuffer::encode::literal_len(c) >= crate::text::utf8_len(c) + 4,
        ;
        lemma_repeat_code((n - 1) as u32);
        lemma_dec_two(st, code_char(ESCAPE, (n - 1) as u32), c);
    } else {
        lemma_dec_literal(st, c, n);
    }
}

/// Decoding `n` literal cells holding `c`.
proof fn lemma_dec_literal(st: DecState, c: char, n: nat)
    requires
        st.pend is None,
        c != '\n',
    ensures
        dec_seq(st, repeated(literal_cell(c), n)) == (DecState {
            rows: st.rows,
            cur: st.cur + copies((c, st.cls), n),
            cls: st.cls,
            pend: None,
        }),
    decreases n,
{
    let x = (c, st.cls);
    if n == 0 {
        assert(st.cur + copies(x, 0) =~= st.cur);
    } else {
        lemma_dec_literal(st, c, (n - 1) as nat);
        let mid = DecState { rows: st.rows, cur: st.cur + copies(x, (n - 1) as nat), cls: st.cls, pend: None };
        lemma_dec_concat(st, repeated(literal_cell(c), (n - 1) as nat), literal_cell(c));
        if is_reserved(c) {
            lemma_dec_two(mid, ESCAPE, c);
        } else {
            lemma_dec_one(mid, c);
        }
        assert(st.cur + copies(x, (n - 1) as nat) + copies(x, 1) =~= st.cur + copies(x, n));
        assert((st.cur + copies(x, (n - 1) as nat)).push(x) =~= st.cur + copies(x, n));
    }
}

/// Decoding `code_if(b, c)` for an attribute code `c` applies it when `b`.
proof fn lemma_dec_code_if(st: DecState, b: bool, c: char)
    requires
        st.pend is None,
        is_attr_code(c),
    ensures
        dec_seq(st, code_if(b, c)) == (if b {
            DecState { rows: st.rows, cur: st.cur, cls: class_after(st.cls, c), pend: None }
        } else {
            st
        }),
{
    if b {
        lemma_dec_one(st, c);
    } else {
        assert(code_if(b, c) =~= Seq::<char>::empty());
    }
}

/// The effect of a color code: it selects the color's palette index, or removes the
/// color for a default one.
proof fn lemma_color_code(cl: SBufferHtmlClassList, col: TermColor, fg: bool)
    ensures
        is_attr_code(color_char(col, fg)),
        fg ==> class_after(cl, color_char(col, fg)) == (SBufferHtmlClassList { fg: color_index(col), ..cl }),
        !fg ==> class_after(cl, color_char(col, fg)) == (SBufferHtmlClassList { bg: color_index(col), ..cl }),
{
}

/// The codes that sync the decoder's attributes to a cell leave the cells alone and
/// bring the classes in line with the synced attributes.
#[verifier::spinoff_prover]
pub proof fn lemma_dec_attr_codes(st: DecState, wire: CellAttrs, cell: CellAttrs, blank: bool)
    requires
        st.pend is None,
        st.cls == classes_of(wire),
    ensures
        dec_seq(st, attr_code_seq(wire, cell, blank)) == (DecState {
            rows: st.rows,
            cur: st.cur,
            cls: classes_of(synced_wire(wire, cell, blank)),
            pend: None,
        }),
{
    reveal(attr_code_seq);
    let c1 = code_if(sets_fg(wire, cell, blank), color_char(shown_fg(cell), true));
    let c2 = code_if(sets_bg(wire, cell), color_char(shown_bg(cell), false));
    let c3 = code_if(toggles_bold(wire, cell, blank), BOLD);
    let c4 = code_if(toggles_dim(wire, cell, blank), DIM);
    let c5 = code_if(toggles_ital(wire, cell, blank), ITAL);
    let c6 = code_if(toggles_undl(wire, cell), UNDL);
    let a2 = c1 + c2;
    let a3 = a2 + c3;
    let a4 = a3 + c4;
    let a5 = a4 + c5;
    lemma_dec_concat(st, a5, c6);
    lemma_dec_concat(st, a4, c5);
    lemma_dec_concat(st, a3, c4);
    lemma_dec_concat(st, a2, c3);
    lemma_dec_concat(st, c1, c2);
    lemma_color_code(st.cls, shown_fg(cell), true);
    lemma_dec_code_if(st, sets_fg(wire, cell, blank), color_char(shown_fg(cell), true));
    let s1 = dec_seq(st, c1);
    lemma_color_code(s1.cls, shown_bg(cell), false);
    lemma_dec_code_if(s1, sets_bg(wire, cell), color_char(shown_bg(cell), false));
    let s2 = dec_seq(s1, c2);
    lemma_dec_code_if(s2, toggles_bold(wire, cell, blank), BOLD);
    let s3 = dec_seq(s2, c3);
    lemma_dec_code_if(s3, toggles_dim(wire, cell, blank), DIM);
    let s4 = dec_seq(s3, c4);
    lemma_dec_code_if(s4, toggles_ital(wire, cell, blank), ITAL);
    let s5 = dec_seq(s4, c5);
    lemma_dec_code_if(s5, toggles_undl(wire, cell), UNDL);
    let w = synced_wire(wire, cell, blank);
    if !blank {
        assert((w.intensity == Intensity::Bold) == (cell.intensity == Intensity::Bold));
    }
}

// ---------------------------------------------------------------------------
// Decoding what the encoder writes
// ---------------------------------------------------------------------------

/// Syncing that emits no code changes nothing.
proof fn lemma_no_codes_no_change(wire: CellAttrs, cell: CellAttrs, blank: bool)
    requires
        attr_code_seq(wire, cell, blank).len() == 0,
    ensures
        synced_wire(wire, cell, blank) == wire,
{
    reveal(attr_code_seq);
    assert(!sets_fg(wire, cell, blank));
    assert(!sets_bg(wire, cell));
    assert(!toggles_bold(wire, cell, blank));
    assert(!toggles_dim(wire, cell, blank));
    assert(!toggles_ital(wire, cell, blank));
    assert(!toggles_undl(wire, cell));
}

/// Attributes that show what a cell shows stand for classes that show it.
proof fn lemma_classes_show(w: CellAttrs, a: CellAttrs, blank: bool)
    requires
        wire_shows(w, a, blank),
    ensures
        classes_show(classes_of(w), a, blank),
{
}

/// What decoding the output of the encoder so far shows: the rows `rows` ended, the
/// classes in effect are those of the encoder's attribute state, and the current row
/// (with the pending run) shows the cells `cs`.
pub open spec fn enc_dec_inv(st: EncState, rows: Seq<(Seq<ShownCell>, SBufferHtmlClassList)>, cs: Seq<(char, CellAttrs, bool)>) -> bool {
    let d = decode(st.out);
    &&& st.out.len() >= 1
    &&& d.rows == rows
    &&& d.pend is None
    &&& d.cls == classes_of(st.wire)
    &&& cells_show(d.cur + run_cells(st.run, d.cls), cs)
    &&& (st.run matches Some((c, n)) ==> c != '\n')
}

/// Decoding `out + t` continues from the decoding of `out`.
proof fn lemma_decode_append(out: Seq<char>, t: Seq<char>)
    requires
        out.len() >= 1,
    ensures
        decode(out + t) == dec_seq(decode(out), t),
        (out + t).len() >= 1,
{
    assert((out + t).skip(1) =~= out.skip(1) + t);
    lemma_dec_concat(dec_init(), out.skip(1), t);
}

/// Writing the pending run out leaves what the current row shows unchanged.
proof fn lemma_flush_run(st: EncState, rows: Seq<(Seq<ShownCell>, SBufferHtmlClassList)>, cs: Seq<(char, CellAttrs, bool)>)
    requires
        enc_dec_inv(st, rows, cs),
    ensures
        enc_dec_inv(EncState { out: flush_run(st.out, st.run), wire: st.wire, run: None }, rows, cs),
{
    match st.run {
        Some((c, n)) => {
            let d = decode(st.out);
            lemma_decode_append(st.out, run_chars(c, n));
            lemma_dec_run(d, c, n);
            assert(d.cur + copies((c, d.cls), n) + Seq::<ShownCell>::empty() =~= d.cur + copies((c, d.cls), n));
        },
        None => {},
    }
}

/// A decoded cell of `d` shows the cell of `cs` at the same index.
proof fn lemma_cells_show_at(d: Seq<ShownCell>, cs: Seq<(char, CellAttrs, bool)>, i: int)
    requires
        cells_show(d, cs),
        0 <= i < d.len(),
    ensures
        d[i].0 == cs[i].0,
        classes_show(d[i].1, cs[i].1, cs[i].2),
{
    assert(d[i] == d[i]);
}

/// One more decoded cell showing one more cell.
proof fn lemma_cells_show_push(d: Seq<ShownCell>, cs: Seq<(char, CellAttrs, bool)>, x: ShownCell, y: (char, CellAttrs, bool))
    requires
        cells_show(d, cs),
        x.0 == y.0,
        classes_show(x.1, y.1, y.2),
    ensures
        cells_show(d.push(x), cs.push(y)),
{
    assert forall|i: int| #![trigger d.push(x)[i]] 0 <= i < d.push(x).len() implies d.push(x)[i].0 == cs.push(y)[i].0
        && classes_show(d.push(x)[i].1, cs.push(y)[i].1, cs.push(y)[i].2) by {
        if i < d.len() {
            assert(d.push(x)[i] == d[i]);
            assert(cs.push(y)[i] == cs[i]);
        }
    }
}

/// One encoder step over the cell at column `x` shows that cell's char, under classes
/// that show the cell, when it has one.
#[verifier::spinoff_prover]
proof fn lemma_cell_step(st: EncState, rows: Seq<(Seq<ShownCell>, SBufferHtmlClassList)>, row: Seq<Option<GridCell>>, x: nat)
    requires
        enc_dec_inv(st, rows, row_cells(row, x)),
        cell_char(cell_parts(cell_at(row, x as int)).1) != Some('\n'),
    ensures
        enc_dec_inv(cell_step(st, cell_at(row, x as int)), rows, row_cells(row, x + 1)),
{
    let cell = cell_at(row, x as int);
    let (attrs, text) = cell_parts(cell);
    let blank = text == seq![' '];
    let (codes, wire) = attr_codes(st.wire, attrs, blank);
    let cs = row_cells(row, x);
    crate::sbuffer::cell::law_attr_sync(st.wire, attrs, blank);
    lemma_classes_show(wire, attrs, blank);
    let st1 = if codes.len() > 0 {
        let fl = EncState { out: flush_run(st.out, st.run), wire: st.wire, run: None };
        lemma_flush_run(st, rows, cs);
        lemma_decode_append(fl.out, codes);
        lemma_dec_attr_codes(decode(fl.out), st.wire, attrs, blank);
        assert(decode(fl.out).cur + run_cells(None, decode(fl.out).cls) =~= decode(fl.out).cur);
        EncState { out: fl.out + codes, wire: wire, run: None }
    } else {
        lemma_no_codes_no_change(st.wire, attrs, blank);
        EncState { out: st.out, wire: wire, run: st.run }
    };
    assert(enc_dec_inv(st1, rows, cs));
    let d1 = decode(st1.out);
    let cl = d1.cls;
    assert(cl == classes_of(wire));
    assert(row_cells(row, x + 1) == cs + match cell_char(text) {
        Some(c) => seq![(c, attrs, blank)],
        None => Seq::<(char, CellAttrs, bool)>::empty(),
    });
    match cell_char(text) {
        Some(c) => {
            let y = (c, attrs, blank);
            assert(cs + seq![y] =~= cs.push(y));
            match st1.run {
                Some((rc, n)) => {
                    if rc == c {
                        assert(d1.cur + copies((c, cl), n + 1) =~= (d1.cur + copies((c, cl), n)).push((c, cl)));
                        lemma_cells_show_push(d1.cur + copies((c, cl), n), cs, (c, cl), y);
                    } else {
                        lemma_flush_run(st1, rows, cs);
                        let out2 = flush_run(st1.out, st1.run);
                        let d2 = decode(out2);
                        assert(d2.cur + run_cells(None, d2.cls) =~= d2.cur);
                        assert(d2.cur + copies((c, cl), 1) =~= d2.cur.push((c, cl)));
                        lemma_cells_show_push(d2.cur, cs, (c, cl), y);
                    }
                },
                None => {
                    assert(d1.cur + run_cells(None, cl) =~= d1.cur);
                    assert(d1.cur + copies((c, cl), 1) =~= d1.cur.push((c, cl)));
                    lemma_cells_show_push(d1.cur, cs, (c, cl), y);
                },
            }
        },
        None => {
            assert(cs + Seq::<(char, CellAttrs, bool)>::empty() =~= cs);
        },
    }
}

/// Encoding the first `x` cells of a row: the current row shows their cells.
proof fn lemma_enc_cells(st: EncState, rows: Seq<(Seq<ShownCell>, SBufferHtmlClassList)>, row: Seq<Option<GridCell>>, x: nat)
    requires
        enc_dec_inv(st, rows, Seq::empty()),
        forall|i: int| 0 <= i < x ==> #[trigger] cell_char(cell_parts(cell_at(row, i)).1) != Some('\n'),
    ensures
        enc_dec_inv(enc_cells(st, row, x), rows, row_cells(row, x)),
    decreases x,
{
    if x > 0 {
        let k = (x - 1) as nat;
        lemma_enc_cells(st, rows, row, k);
        assert(cell_char(cell_parts(cell_at(row, k as int)).1) != Some('\n'));
        lemma_cell_step(enc_cells(st, row, k), rows, row, k);
    }
}

/// The end of a row ends the decoded row too, showing the row's cells.
#[verifier::spinoff_prover]
proof fn lemma_row_end(st: EncState, rows: Seq<(Seq<ShownCell>, SBufferHtmlClassList)>, cs: Seq<(char, CellAttrs, bool)>)
    requires
        enc_dec_inv(st, rows, cs),
    ensures
        ({
            let e = row_end(st);
            let d = decode(e.out);
            &&& e.out.len() >= 1
            &&& e.run is None
            &&& d.pend is None
            &&& d.cur == Seq::<ShownCell>::empty()
            &&& d.cls == classes_of(e.wire)
            &&& d.rows.len() == rows.len() + 1
            &&& d.rows.drop_last() == rows
            &&& row_shows(d.rows.last(), cs)
        }),
{
    let d0 = decode(st.out);
    let cl = d0.cls;
    let shown = d0.cur + run_cells(st.run, cl);
    let (out1, kept) = match st.run {
        Some((c, n)) => if c != ' ' {
            lemma_decode_append(st.out, run_chars(c, n));
            lemma_dec_run(d0, c, n);
            (st.out + run_chars(c, n), shown)
        } else {
            (st.out, d0.cur)
        },
        None => {
            assert(shown =~= d0.cur);
            (st.out, d0.cur)
        },
    };
    let d1 = decode(out1);
    assert(d1.rows == rows && d1.pend is None && d1.cur == kept && d1.cls == cl);
    assert(kept.len() <= cs.len());
    assert(kept =~= shown.take(kept.len() as int));
    assert(cs.take(kept.len() as int).len() == kept.len());
    assert forall|i: int| #![trigger kept[i]] 0 <= i < kept.len() implies kept[i].0 == cs.take(kept.len() as int)[i].0
        && classes_show(kept[i].1, cs.take(kept.len() as int)[i].1, cs.take(kept.len() as int)[i].2) by {
        assert(kept[i] == shown[i]);
        lemma_cells_show_at(shown, cs, i);
    }
    assert forall|i: int| kept.len() <= i < cs.len() implies #[trigger] cs[i].0 == ' ' && classes_show(cl, cs[i].1, true) by {
        if let Some((c, n)) = st.run {
            if c == ' ' {
                assert(shown[i] == (' ', cl));
                lemma_cells_show_at(shown, cs, i);
            }
        }
    }
    assert(row_shows((kept, cl), cs));
    lemma_decode_append(out1, seq!['\n']);
    assert(out1.push('\n') =~= out1 + seq!['\n']);
    lemma_dec_one(d1, '\n');
    assert(d1.rows.push((kept, cl)).drop_last() =~= rows);
}

/// Encoding rows: the decoder ends as many rows, each showing its cells.
#[verifier::spinoff_prover]
proof fn lemma_enc_rows(rows: Seq<Vec<Option<GridCell>>>, cols: nat)
    requires
        forall|y: int, x: int| 0 <= y < rows.len() && 0 <= x < cols ==> #[trigger] cell_char(
            cell_parts(cell_at(rows[y]@, x)).1,
        ) != Some('\n'),
    ensures
        ({
            let e = enc_rows(rows, cols);
            let d = decode(e.out);
            &&& e.out.len() >= 1
            &&& e.run is None
            &&& d.pend is None
            &&& d.cur == Seq::<ShownCell>::empty()
            &&& d.cls == classes_of(e.wire)
            &&& rows_show(d.rows, rows, cols)
        }),
    decreases rows.len(),
{
    if rows.len() == 0 {
        assert(seq![START].skip(1) =~= Seq::<char>::empty());
    } else {
        let init = rows.drop_last();
        assert forall|y: int, x: int| 0 <= y < init.len() && 0 <= x < cols implies #[trigger] cell_char(
            cell_parts(cell_at(init[y]@, x)).1,
        ) != Some('\n') by {
            assert(init[y] == rows[y]);
        }
        lemma_enc_rows(init, cols);
        let e0 = enc_rows(init, cols);
        let d0 = decode(e0.out);
        let row = rows.last()@;
        assert(d0.cur + run_cells(e0.run, d0.cls) =~= Seq::<ShownCell>::empty());
        assert(enc_dec_inv(e0, d0.rows, Seq::empty()));
        assert forall|x: int| 0 <= x < cols implies #[trigger] cell_char(cell_parts(cell_at(row, x)).1) != Some('\n') by {
            assert(rows[rows.len() - 1] == rows.last());
        }
        lemma_enc_cells(e0, d0.rows, row, cols);
        lemma_row_end(enc_cells(e0, row, cols), d0.rows, row_cells(row, cols));
        let d = decode(enc_rows(rows, cols).out);
        assert forall|y: int| 0 <= y < d.rows.len() implies #[trigger] row_shows(d.rows[y], row_cells(rows[y]@, cols)) by {
            if y < d.rows.len() - 1 {
                assert(d.rows[y] == d.rows.drop_last()[y]);
                assert(rows[y] == init[y]);
            } else {
                assert(rows[y] == rows.last());
            }
        }
    }
}

/// Decoding the SBuffer string of a screen gives back what the screen shows: one decoded
/// row per screen row; within each row, the cells that show a char (wide-char spacers
/// show none) in order, each with its char (the first char of its grapheme after NFC
/// composition) under classes that show its background color and underline, and, unless
/// it is blank, its foreground color, boldness, dimness and italic (reverse video
/// resolved); the trailing blank cells left out of a row are spaces whose background and
/// underline the classes at the row's line feed show. Screens whose cells hold a line
/// feed are left out: the format has no escape for it.
pub proof fn law_encoding_round_trip(g: ScreenGrid)
    requires
        no_line_feed_cells(g),
    ensures
        decode(encode(g)).pend is None,
        decode(encode(g)).cur == Seq::<ShownCell>::empty(),
        rows_show(decode(encode(g)).rows, g.rows@, g.cols as nat),
{
    assert forall|y: int, x: int| 0 <= y < g.rows@.len() && 0 <= x < g.cols implies #[trigger] cell_char(
        cell_parts(cell_at(g.rows@[y]@, x)).1,
    ) != Some('\n') by {}
    lemma_enc_rows(g.rows@, g.cols as nat);
}

} // verus!
