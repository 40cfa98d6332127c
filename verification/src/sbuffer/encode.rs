//! The SBuffer encoder: run-length encoding of cell runs and the encoding of a screen.
use vstd::prelude::*;
use crate::text::{len_utf8, nfc_first, spec_nfc_first, utf8_len};
use super::{char_add, is_reserved, is_reserved_char, ESCAPE, START};
use super::cell::{attr_codes, code_char, default_attrs, CellAttrs, GridCell, ScreenGrid};
use super::html::repeated;

verus! {

/// The encoding of one cell holding `c` outside a repeat: reserved chars are escaped.
pub open spec fn literal_cell(c: char) -> Seq<char> {
    if is_reserved(c) { seq![ESCAPE, c] } else { seq![c] }
}

/// The UTF-8 size of `literal_cell(c)`.
pub open spec fn literal_len(c: char) -> nat {
    utf8_len(c) + if is_reserved(c) { 3nat } else { 0nat }
}

/// The encoding of a run of `n` cells holding `c`: runs longer than 256 cells are
/// chunked greedily into repeats of 256; the rest is a repeat code exactly when that is
/// strictly shorter in UTF-8 than the literal cells.
pub open spec fn run_chars(c: char, n: nat) -> Seq<char>
    decreases n,
{
    if n > 256 {
        seq![code_char(ESCAPE, 255), c] + run_chars(c, (n - 256) as nat)
    } else if n * literal_len(c) >= utf8_len(c) + 4 {
        seq![code_char(ESCAPE, (n - 1) as u32), c]
    } else {
        repeated(literal_cell(c), n)
    }
}

/// The state of the encoder between two cells.
pub struct EncState {
    pub out: Seq<char>,
    pub wire: CellAttrs,
    pub run: Option<(char, nat)>,
}

/// `out` followed by the encoding of the pending run, if any.
pub open spec fn flush_run(out: Seq<char>, run: Option<(char, nat)>) -> Seq<char> {
    match run {
        Some((c, n)) => out + run_chars(c, n),
        None => out,
    }
}

/// The single char that stands for a cell holding the grapheme `text`: a grapheme of
/// several chars is NFC-composed and its first char kept; an empty grapheme (the spacer
/// behind a wide char) stands for no char.
pub open spec fn cell_char(text: Seq<char>) -> Option<char> {
    if text.len() >= 2 {
        spec_nfc_first(text)
    } else if text.len() == 1 {
        Some(text[0])
    } else {
        None
    }
}

/// The attributes and grapheme of an optional cell; a missing cell is a blank with
/// default attributes.
pub open spec fn cell_parts(cell: Option<GridCell>) -> (CellAttrs, Seq<char>) {
    match cell {
        Some(g) => (g.attrs, g.text@),
        None => (default_attrs(), seq![' ']),
    }
}

/// The encoder state after one more cell: attribute codes (if any) end the pending run
/// and follow it; the cell's char then extends the run or starts a new one.
pub open spec fn cell_step(st: EncState, cell: Option<GridCell>) -> EncState {
    let (attrs, text) = cell_parts(cell);
    let (codes, wire) = attr_codes(st.wire, attrs, text == seq![' ']);
    let out1 = if codes.len() > 0 { flush_run(st.out, st.run) + codes } else { st.out };
    let run1 = if codes.len() > 0 { None } else { st.run };
    match cell_char(text) {
        Some(c) => match run1 {
            Some((rc, n)) => if rc == c {
                EncState { out: out1, wire: wire, run: Some((c, n + 1)) }
            } else {
                EncState { out: flush_run(out1, run1), wire: wire, run: Some((c, 1)) }
            },
            None => EncState { out: out1, wire: wire, run: Some((c, 1)) },
        },
        None => EncState { out: out1, wire: wire, run: run1 },
    }
}

/// The end of a row: a pending run is written unless it is a run of spaces (trailing
/// blanks are trimmed); then a line feed.
pub open spec fn row_end(st: EncState) -> EncState {
    let out1 = match st.run {
        Some((c, n)) => if c != ' ' { st.out + run_chars(c, n) } else { st.out },
        None => st.out,
    };
    EncState { out: out1.push('\n'), wire: st.wire, run: None }
}

/// The cell at column `x` of `row`; `None` past the end of the row.
pub open spec fn cell_at(row: Seq<Option<GridCell>>, x: int) -> Option<GridCell> {
    if 0 <= x < row.len() { row[x] } else { None }
}

/// The encoder state after the first `x` cells of `row`.
pub open spec fn enc_cells(st: EncState, row: Seq<Option<GridCell>>, x: nat) -> EncState
    decreases x,
{
    if x == 0 {
        st
    } else {
        cell_step(enc_cells(st, row, (x - 1) as nat), cell_at(row, x - 1))
    }
}

/// The encoder state when encoding starts.
pub open spec fn enc_init() -> EncState {
    EncState { out: seq![START], wire: default_attrs(), run: None }
}

/// The encoder state after the rows `rows`, each `cols` cells wide.
pub open spec fn enc_rows(rows: Seq<Vec<Option<GridCell>>>, cols: nat) -> EncState
    decreases rows.len(),
{
    if rows.len() == 0 {
        enc_init()
    } else {
        row_end(enc_cells(enc_rows(rows.drop_last(), cols), rows.last()@, cols))
    }
}

/// The SBuffer string of a screen.
pub open spec fn encode(grid: ScreenGrid) -> Seq<char> {
    enc_rows(grid.rows@, grid.cols as nat).out
}

/// Appends the encoding of a run of `n` cells holding `c`.
pub fn sbuffer_print_char(output: &mut Vec<char>, c: char, n: usize)
    ensures
        final(output)@ == old(output)@ + run_chars(c, n as nat),
{
    let ghost base = output@;
    let ghost n0 = n;
    let utf8len = len_utf8(c);
    let reserved = is_reserved_char(c);
    let lit_len: usize = utf8len + if reserved { 3 } else { 0 };
    let mut n = n;
    while n > 256
        invariant
            output@ + run_chars(c, n as nat) == base + run_chars(c, n0 as nat),
            lit_len as nat == literal_len(c),
            utf8len as nat == utf8_len(c),
            reserved == is_reserved(c),
        decreases n,
    {
        let ghost before = output@;
        output.push(char_add(ESCAPE, 255));
        output.push(c);
        assert(output@ + run_chars(c, (n - 256) as nat) =~= before + run_chars(c, n as nat));
        n = n - 256;
    }
    let ghost mid = output@;
    assert(n * lit_len <= 256 * 7) by (nonlinear_arith)
        requires
            n <= 256,
            lit_len <= 7,
    ;
    if n * lit_len >= utf8len + 4 {
        assert(n != 0) by (nonlinear_arith)
            requires
                n * lit_len >= utf8len + 4,
        ;
        output.push(char_add(ESCAPE, (n - 1) as u32));
        output.push(c);
        assert(output@ =~= mid + run_chars(c, n as nat));
    } else {
        let mut k: usize = 0;
        while k < n
            invariant
                k <= n,
                reserved == is_reserved(c),
                output@ == mid + repeated(literal_cell(c), k as nat),
            decreases n - k,
        {
            let ghost before = output@;
            if reserved {
                output.push(ESCAPE);
            }
            output.push(c);
            k = k + 1;
            assert(output@ =~= before + literal_cell(c));
        }
        assert(output@ =~= mid + run_chars(c, n as nat));
    }
}

/// Whether a cell holding the grapheme `text` is blank (a single space), and the char
/// that stands for it in the encoding.
pub fn cell_text_info(text: &str) -> (r: (bool, Option<char>))
    ensures
        r.0 == (text@ == seq![' ']),
        r.1 == cell_char(text@),
{
    let n = text.unicode_len();
    if n >= 2 {
        assert(text@ != seq![' ']) by {
            assert(seq![' '].len() == 1);
        }
        (false, nfc_first(text))
    } else if n == 1 {
        let c = text.get_char(0);
        assert(text@ =~= seq![c]);
        (c == ' ', Some(c))
    } else {
        assert(text@ != seq![' ']) by {
            assert(seq![' '].len() == 1);
        }
        (false, None)
    }
}

/// The pending run of the encoder, with its length as a natural number.
pub open spec fn run_of(current: Option<(char, usize)>) -> Option<(char, nat)> {
    match current {
        Some((c, n)) => Some((c, n as nat)),
        None => None,
    }
}

/// The size in bytes of the UTF-8 encoding of the chars `s`.
pub open spec fn utf8_size(s: Seq<char>) -> nat
    decreases s.len(),
{
    if s.len() == 0 {
        0
    } else {
        utf8_size(s.drop_last()) + utf8_len(s.last())
    }
}

/// The UTF-8 size of a concatenation is the sum of the sizes.
proof fn lemma_utf8_size_concat(a: Seq<char>, b: Seq<char>)
    ensures
        utf8_size(a + b) == utf8_size(a) + utf8_size(b),
    decreases b.len(),
{
    if b.len() == 0 {
        assert(a + b =~= a);
    } else {
        lemma_utf8_size_concat(a, b.drop_last());
        assert((a + b).drop_last() =~= a + b.drop_last());
        assert((a + b).last() == b.last());
    }
}

/// The UTF-8 size of one and of two chars.
proof fn lemma_utf8_size_small(x: char, y: char)
    ensures
        utf8_size(seq![x]) == utf8_len(x),
        utf8_size(seq![x, y]) == utf8_len(x) + utf8_len(y),
{
    assert(seq![x].drop_last() =~= Seq::<char>::empty());
    assert(utf8_size(seq![x].drop_last()) == 0);
    assert(seq![x].last() == x);
    assert(seq![x, y].drop_last() =~= seq![x]);
    assert(seq![x, y].last() == y);
}

/// `n` literal cells holding `c` take `n * literal_len(c)` bytes.
#[verifier::spinoff_prover]
proof fn lemma_literal_size(c: char, n: nat)
    ensures
        utf8_size(repeated(literal_cell(c), n)) == n * literal_len(c),
    decreases n,
{
    let lit = literal_cell(c);
    assert(utf8_size(lit) == literal_len(c)) by {
        lemma_utf8_size_small(ESCAPE, c);
        lemma_utf8_size_small(c, c);
        assert(utf8_len(ESCAPE) == 3);
    }
    if n == 0 {
        assert(repeated(lit, 0) =~= Seq::<char>::empty());
    } else {
        lemma_literal_size(c, (n - 1) as nat);
        lemma_utf8_size_concat(repeated(lit, (n - 1) as nat), lit);
        assert(n * literal_len(c) == (n - 1) * literal_len(c) + literal_len(c)) by (nonlinear_arith);
    }
}

/// A repeat code and its char take 3 bytes plus the char's size.
proof fn lemma_repeat_size(c: char, k: u32)
    requires
        k <= 255,
    ensures
        utf8_size(seq![code_char(ESCAPE, k), c]) == 3 + utf8_len(c),
{
    lemma_utf8_size_small(code_char(ESCAPE, k), c);
    assert(utf8_len(code_char(ESCAPE, k)) == 3);
}

/// Run-length encoding never makes a run longer: the encoding of a run of `n` cells
/// holding `c` takes no more UTF-8 bytes than the cells written out one by one (and a
/// repeat code is used for a run of at most 256 cells only where it is strictly shorter).
pub proof fn law_run_encoding_is_never_longer(c: char, n: nat)
    ensures
        utf8_size(run_chars(c, n)) <= utf8_size(repeated(literal_cell(c), n)),
        n <= 256 && run_chars(c, n) != repeated(literal_cell(c), n) ==> utf8_size(run_chars(c, n)) < utf8_size(
            repeated(literal_cell(c), n),
        ),
    decreases n,
{
    lemma_literal_size(c, n);
    let u = utf8_len(c);
    let l = literal_len(c);
    assert(1 <= u <= 4 && u <= l <= u + 3);
    if n > 256 {
        let head = seq![code_char(ESCAPE, 255), c];
        law_run_encoding_is_never_longer(c, (n - 256) as nat);
        lemma_literal_size(c, (n - 256) as nat);
        lemma_utf8_size_concat(head, run_chars(c, (n - 256) as nat));
        lemma_repeat_size(c, 255);
        assert(n * l == 256 * l + (n - 256) * l) by (nonlinear_arith);
        assert(256 * l >= 256) by (nonlinear_arith)
            requires
                l >= 1,
        ;
    } else if n * l >= u + 4 {
        lemma_repeat_size(c, (n - 1) as u32);
    }
}

/// An encoder step keeps what was written so far at the front.
proof fn lemma_cell_step_front(st: EncState, cell: Option<GridCell>)
    requires
        st.out.len() >= 1,
    ensures
        cell_step(st, cell).out.len() >= 1,
        cell_step(st, cell).out[0] == st.out[0],
{
    match st.run {
        Some((c, n)) => {
            assert((st.out + run_chars(c, n))[0] == st.out[0]);
        },
        None => {},
    }
}

/// Encoding the first `x` cells of a row keeps what was written before at the front.
proof fn lemma_enc_cells_front(st: EncState, row: Seq<Option<GridCell>>, x: nat)
    requires
        st.out.len() >= 1,
    ensures
        enc_cells(st, row, x).out.len() >= 1,
        enc_cells(st, row, x).out[0] == st.out[0],
    decreases x,
{
    if x > 0 {
        lemma_enc_cells_front(st, row, (x - 1) as nat);
        lemma_cell_step_front(enc_cells(st, row, (x - 1) as nat), cell_at(row, x - 1));
    }
}

/// The shape of the encoding of rows: it starts with the version char U+E000, and after
/// at least one row it ends with a line feed.
proof fn lemma_enc_rows_shape(rows: Seq<Vec<Option<GridCell>>>, cols: nat)
    ensures
        enc_rows(rows, cols).out.len() >= 1,
        enc_rows(rows, cols).out[0] == START,
        rows.len() > 0 ==> enc_rows(rows, cols).out.len() >= 2 && enc_rows(rows, cols).out.last() == '\n',
    decreases rows.len(),
{
    if rows.len() > 0 {
        lemma_enc_rows_shape(rows.drop_last(), cols);
        let e0 = enc_rows(rows.drop_last(), cols);
        lemma_enc_cells_front(e0, rows.last()@, cols);
        let st = enc_cells(e0, rows.last()@, cols);
        match st.run {
            Some((c, n)) => {
                assert((st.out + run_chars(c, n))[0] == st.out[0]);
            },
            None => {},
        }
    }
}

/// The SBuffer string of a screen starts with the version char U+E000 and, for a screen
/// with at least one row, ends with a line feed.
pub proof fn lemma_encode_shape(g: ScreenGrid)
    ensures
        encode(g).len() >= 1,
        encode(g)[0] == START,
        g.rows@.len() > 0 ==> encode(g).len() >= 2 && encode(g).last() == '\n',
{
    lemma_enc_rows_shape(g.rows@, g.cols as nat);
}

} // verus!
