//! SBuffer: a compact string encoding of a terminal screen (one char per cell, with
//! private-use control codes for colors, attributes, run-length repeats and escapes),
//! and its HTML rendering.
//!
//! The encoding starts with U+E000; rows end with U+000A; U+E100–U+E1FF / U+E200–U+E2FF
//! select a foreground / background palette color; U+E300 escapes the next char;
//! U+E301–U+E3FF repeat the next char `n+1` times; U+E400 / U+E401 reset the colors and
//! U+E402–U+E405 toggle bold, dim, italic and underline.
pub mod cell;
pub mod decode;
pub mod encode;
pub mod html;
pub mod html_style;
pub mod html_text;
pub mod terminal;

use vstd::prelude::*;
use crate::text::{char_from_u32, chars_of, is_scalar_value, push_str, string_from_chars};
use self::cell::{apply_cell_attrs, CellAttrs, ScreenGrid};
use self::encode::{
    cell_at, cell_char, cell_parts, cell_step, cell_text_info, enc_cells, enc_rows, encode, lemma_encode_shape, row_end,
    run_of, sbuffer_print_char, EncState,
};
use self::decode::{decode, law_encoding_round_trip, no_line_feed_cells, rows_show};
use self::html_style::{html_styled, law_html_styles_decoded_rows, styled_lines};
use self::html_text::{html_text, law_html_shows_decoded_rows, rows_lines};
use self::html::{
    escaped, html_encode_handle_class_change, html_from, html_handle_line_break, html_init, html_of, lemma_html_append_lf, with_final_lf,
    html_push_normal_char, repeated, spaces, HtmlState, SBufferHtmlClassList,
};

verus! {

pub const START: char = '\u{E000}';
pub const SPACE: char = ' ';
pub const LINE_BREAK: char = '\n';
pub const FG_START: char = '\u{E100}';
pub const BG_START: char = '\u{E200}';
pub const ESCAPE: char = '\u{E300}';
pub const FG_RESET: char = '\u{E400}';
pub const BG_RESET: char = '\u{E401}';
pub const BOLD: char = '\u{E402}';
pub const DIM: char = '\u{E403}';
pub const ITAL: char = '\u{E404}';
pub const UNDL: char = '\u{E405}';

/// Whether `c` lies in the private use area U+E000–U+F8FF that the encoding reserves.
pub open spec fn is_reserved(c: char) -> bool {
    0xE000 <= (c as u32) && (c as u32) <= 0xF8FF
}

/// The char `n` code points after `c`.
pub fn char_add(c: char, n: u32) -> (r: char)
    requires
        (c as u32) + n <= u32::MAX,
        is_scalar_value(((c as u32) + n) as u32),
    ensures
        r == (((c as u32) + n) as u32) as char,
{
    char_from_u32((c as u32) + n).unwrap()
}

/// Appends the line feed that ends a row.
pub fn sbuffer_print_newline(output: &mut Vec<char>)
    ensures
        final(output)@ == old(output)@.push(LINE_BREAK),
{
    output.push(LINE_BREAK);
}

/// Whether `c` is a reserved (private use area) char.
pub fn is_reserved_char(c: char) -> (r: bool)
    ensures
        r == is_reserved(c),
{
    (c as u32) >= 0xE000 && (c as u32) <= 0xF8FF
}

/// SBuffer encoded terminal data: the encoded string and the width (in cells) of the
/// terminal rows it was taken from.
#[derive(Clone, Debug)]
pub struct SBuffer {
    string: String,
    cols: usize,
}

impl View for SBuffer {
    type V = (Seq<char>, nat);

    closed spec fn view(&self) -> (Seq<char>, nat) {
        (self.string@, self.cols as nat)
    }
}

/// The renderer state held by the local variables of [`SBuffer::to_html`].
pub open spec fn html_state_of(
    out: Seq<char>,
    cl: SBufferHtmlClassList,
    open: bool,
    pending: bool,
    remaining: usize,
) -> HtmlState {
    HtmlState { out: out, classes: cl, span_open: open, pending: pending, remaining: remaining as nat }
}

impl SBuffer {
    /// An SBuffer holding the already encoded string `string` for rows `cols` cells wide.
    pub fn new(string: String, cols: usize) -> (r: Self)
        ensures
            r@ == (string@, cols as nat),
    {
        SBuffer { string, cols }
    }

    /// The encoded SBuffer string.
    pub fn to_string(&self) -> (r: String)
        ensures
            r@ == self@.0,
    {
        self.string.clone()
    }

    /// The width of the encoded terminal rows, in cells.
    pub fn cols(&self) -> (r: usize)
        ensures
            r as nat == self@.1,
    {
        self.cols
    }

    /// Outputs the HTML representation of the SBuffer, to be placed inside a `<pre>` element:
    /// with its tags removed and entities replaced it reads as the decoded rows, each padded
    /// to the width, and every char stands in the span of the classes it is decoded under.
    pub fn to_html(&self) -> (r: String)
        requires
            self@.0.len() > 0,
            self@.0[0] == START,
        ensures
            r@ == html_of(self@.0, self@.1),
            html_text(r@) == rows_lines(decode(with_final_lf(self@.0)).rows, self@.1).drop_last(),
            html_styled(r@) == styled_lines(decode(with_final_lf(self@.0)).rows, self@.1).drop_last(),
    {
        let r = self.render_html();
        proof {
            let s = with_final_lf(self@.0);
            assert(with_final_lf(s) == s);
            assert(html_of(s, self@.1) == html_of(self@.0, self@.1));
            law_html_shows_decoded_rows(s, self@.1);
            law_html_styles_decoded_rows(s, self@.1);
        }
        r
    }

    /// The HTML rendering of the SBuffer.
    fn render_html(&self) -> (r: String)
        requires
            self@.0.len() > 0,
            self@.0[0] == START,
        ensures
            r@ == html_of(self@.0, self@.1),
    {
        let chars = chars_of(self.string.as_str());
        let cols = self.cols;
        let ghost s = chars@;
        let ghost target = html_from(s, cols as nat, 1, html_init(cols as nat));
        let mut class_list = SBufferHtmlClassList::new();
        let mut output: Vec<char> = Vec::new();
        let mut span_was_open = false;
        let mut new_span_pending = false;
        let mut remaining_chars_in_line = cols;
        let mut i: usize = 1;
        assert(html_state_of(output@, class_list, span_was_open, new_span_pending, remaining_chars_in_line)
            == html_init(cols as nat));
        while i < chars.len()
            invariant
                s == chars@,
                1 <= i,
                html_from(s, cols as nat, i as int,
                    html_state_of(output@, class_list, span_was_open, new_span_pending, remaining_chars_in_line))
                    == target,
            decreases chars@.len() - i,
        {
            let c = chars[i];
            let cp = c as u32;
            if c == '\n' {
                if new_span_pending {
                    html_encode_handle_class_change(&mut output, &mut span_was_open, &class_list);
                    new_span_pending = false;
                }
                html_handle_line_break(&mut output, &mut remaining_chars_in_line, cols);
                i = i + 1;
            } else if cp >= 0xE100 && cp < 0xE200 {
                class_list.fg = Some((cp - 0xE100) as u8);
                new_span_pending = true;
                i = i + 1;
            } else if cp == 0xE400 {
                class_list.fg = None;
                new_span_pending = true;
                i = i + 1;
            } else if cp >= 0xE200 && cp < 0xE300 {
                class_list.bg = Some((cp - 0xE200) as u8);
                new_span_pending = true;
                i = i + 1;
            } else if cp == 0xE401 {
                class_list.bg = None;
                new_span_pending = true;
                i = i + 1;
            } else if cp >= 0xE300 && cp < 0xE400 {
                if i + 1 < chars.len() {
                    let d = chars[i + 1];
                    if new_span_pending {
                        html_encode_handle_class_change(&mut output, &mut span_was_open, &class_list);
                        new_span_pending = false;
                    }
                    if d == '\n' {
                        html_handle_line_break(&mut output, &mut remaining_chars_in_line, cols);
                    } else {
                        let n = cp - 0xE300 + 1;
                        let ghost base = output@;
                        let mut k: u32 = 0;
                        while k < n
                            invariant
                                k <= n,
                                output@ == base + repeated(escaped(d), k as nat),
                            decreases n - k,
                        {
                            html_push_normal_char(&mut output, d);
                            k = k + 1;
                        }
                        remaining_chars_in_line = remaining_chars_in_line.saturating_sub(n as usize);
                    }
                    i = i + 2;
                } else {
                    i = i + 1;
                }
            } else if cp == 0xE402 {
                class_list.bold = !class_list.bold;
                new_span_pending = true;
                i = i + 1;
            } else if cp == 0xE403 {
                class_list.dim = !class_list.dim;
                new_span_pending = true;
                i = i + 1;
            } else if cp == 0xE404 {
                class_list.ital = !class_list.ital;
                new_span_pending = true;
                i = i + 1;
            } else if cp == 0xE405 {
                class_list.undl = !class_list.undl;
                new_span_pending = true;
                i = i + 1;
            } else {
                if new_span_pending {
                    html_encode_handle_class_change(&mut output, &mut span_was_open, &class_list);
                    new_span_pending = false;
                }
                html_push_normal_char(&mut output, c);
                assert(repeated(escaped(c), 1) =~= escaped(c)) by {
                    assert(repeated(escaped(c), 0) =~= Seq::<char>::empty());
                }
                remaining_chars_in_line = remaining_chars_in_line.saturating_sub(1);
                i = i + 1;
            }
        }
        let ghost st_end = html_state_of(output@, class_list, span_was_open, new_span_pending, remaining_chars_in_line);
        assert(st_end == target);
        if !(chars.len() >= 2 && chars[chars.len() - 1] == '\n') {
            proof {
                lemma_html_append_lf(s, cols as nat, 1, html_init(cols as nat));
            }
            if new_span_pending {
                html_encode_handle_class_change(&mut output, &mut span_was_open, &class_list);
                new_span_pending = false;
            }
            html_handle_line_break(&mut output, &mut remaining_chars_in_line, cols);
            assert(html_state_of(output@, class_list, span_was_open, new_span_pending, remaining_chars_in_line)
                == html_from(with_final_lf(s), cols as nat, 1, html_init(cols as nat)));
        } else {
            assert(with_final_lf(s) == s);
        }
        if new_span_pending {
            html_encode_handle_class_change(&mut output, &mut span_was_open, &class_list);
        }
        let ghost flushed = output@;
        if output.len() > 0 && output[output.len() - 1] == '\n' {
            output.pop();
        } else {
            let n = remaining_chars_in_line;
            let mut k: usize = 0;
            while k < n
                invariant
                    k <= n,
                    output@ == flushed + spaces(k as nat),
                decreases n - k,
            {
                output.push(' ');
                k = k + 1;
                assert(output@ =~= flushed + spaces(k as nat));
            }
        }
        if span_was_open {
            push_str(&mut output, "</span>");
        }
        string_from_chars(&output)
    }
}

impl SBuffer {
    /// Encodes the screen `grid` (see the module documentation): the SBuffer string of
    /// its cells, rows `grid.cols` cells wide.
    #[verifier::rlimit(40)]
    pub fn from_screen(grid: &ScreenGrid) -> (r: SBuffer)
        ensures
            r@ == (encode(*grid), grid.cols as nat),
            r@.0.len() >= 1 && r@.0[0] == START,
            no_line_feed_cells(*grid) ==> rows_show(decode(r@.0).rows, grid.rows@, grid.cols as nat),
    {
        proof {
            lemma_encode_shape(*grid);
            if no_line_feed_cells(*grid) {
                law_encoding_round_trip(*grid);
            }
        }
        let cols = grid.cols;
        let mut encoded: Vec<char> = Vec::new();
        encoded.push(START);
        let mut wire = CellAttrs::plain();
        let mut codes: Vec<char> = Vec::new();
        let mut y: usize = 0;
        assert(grid.rows@.take(0) =~= Seq::<Vec<Option<cell::GridCell>>>::empty());
        assert(encoded@ =~= seq![START]);
        while y < grid.rows.len()
            invariant
                y <= grid.rows@.len(),
                cols == grid.cols,
                enc_rows(grid.rows@.take(y as int), cols as nat) == (EncState { out: encoded@, wire: wire, run: None }),
            decreases grid.rows@.len() - y,
        {
            let row = &grid.rows[y];
            let ghost st0 = EncState { out: encoded@, wire: wire, run: None };
            let mut current: Option<(char, usize)> = None;
            let mut x: usize = 0;
            while x < cols
                invariant
                    x <= cols,
                    *row == grid.rows@[y as int],
                    enc_cells(st0, row@, x as nat) == (EncState { out: encoded@, wire: wire, run: run_of(current) }),
                    current matches Some((_, n)) ==> 1 <= n <= x,
                decreases cols - x,
            {
                let ghost before = EncState { out: encoded@, wire: wire, run: run_of(current) };
                let (attrs, blank, ch) = if x < row.len() {
                    match &row[x] {
                        Some(g) => {
                            let (b, ch) = cell_text_info(g.text.as_str());
                            (g.attrs, b, ch)
                        },
                        None => (CellAttrs::plain(), true, Some(' ')),
                    }
                } else {
                    (CellAttrs::plain(), true, Some(' '))
                };
                proof {
                    let (pa, pt) = cell_parts(cell_at(row@, x as int));
                    assert(seq![' '].len() == 1 && seq![' '][0] == ' ');
                    assert(attrs == pa);
                    assert(blank == (pt == seq![' ']));
                    assert(ch == cell_char(pt));
                }
                codes.clear();
                apply_cell_attrs(&mut codes, &mut wire, &attrs, blank);
                if codes.len() > 0 {
                    if let Some((c, n)) = current {
                        sbuffer_print_char(&mut encoded, c, n);
                    }
                    current = None;
                    encoded.append(&mut codes);
                }
                match ch {
                    Some(c) => {
                        match current {
                            Some((cc, n)) => {
                                if cc == c {
                                    current = Some((cc, n + 1));
                                } else {
                                    sbuffer_print_char(&mut encoded, cc, n);
                                    current = Some((c, 1));
                                }
                            },
                            None => {
                                current = Some((c, 1));
                            },
                        }
                    },
                    None => {},
                }
                proof {
                    assert(EncState { out: encoded@, wire: wire, run: run_of(current) }
                        == cell_step(before, cell_at(row@, x as int)));
                }
                x = x + 1;
            }
            if let Some((c, n)) = current {
                if c != ' ' {
                    sbuffer_print_char(&mut encoded, c, n);
                }
            }
            sbuffer_print_newline(&mut encoded);
            proof {
                let t = grid.rows@.take(y + 1);
                assert(t.drop_last() =~= grid.rows@.take(y as int));
                assert(t.last() == grid.rows@[y as int]);
                assert(EncState { out: encoded@, wire: wire, run: None }
                    == row_end(enc_cells(st0, row@, cols as nat)));
            }
            y = y + 1;
        }
        assert(grid.rows@.take(grid.rows@.len() as int) =~= grid.rows@);
        SBuffer { string: string_from_chars(&encoded), cols }
    }
}

} // verus!
