//! HTML rendering of SBuffer strings: the renderer's state machine and its helpers.
//!
//! Control codes add or remove HTML classes (`tc--fg-X`, `tc--bg-X`, `tc--bold`,
//! `tc--dim`, `tc--ital`, `tc--undl`); whenever the class set changes, the open span is
//! closed and a new one opened for the classes then applied. Line feeds pad the row to
//! its width with spaces.
use vstd::prelude::*;
use crate::relay::{digits_value, is_digit};
use crate::text::{decimal, digit_char, push_decimal, push_str, string_from_chars};

verus! {

// ---------------------------------------------------------------------------
// HTML rendering
// ---------------------------------------------------------------------------

/// The set of HTML classes applied to the text currently being rendered.
#[derive(Clone, Copy, Debug)]
pub struct SBufferHtmlClassList {
    pub fg: Option<u8>,
    pub bg: Option<u8>,
    pub bold: bool,
    pub dim: bool,
    pub ital: bool,
    pub undl: bool,
}

/// The class list with no class applied.
pub open spec fn no_classes() -> SBufferHtmlClassList {
    SBufferHtmlClassList { fg: None, bg: None, bold: false, dim: false, ital: false, undl: false }
}

/// `tc--fg-<idx>` with the index in decimal.
pub open spec fn fg_class(idx: u8) -> Seq<char> {
    "tc--fg-"@ + decimal(idx as nat)
}

/// `tc--bg-<idx>` with the index in decimal.
pub open spec fn bg_class(idx: u8) -> Seq<char> {
    "tc--bg-"@ + decimal(idx as nat)
}

/// The applied classes in canonical order: fg, bg, bold, dim, italic, underline.
pub open spec fn class_names(cl: SBufferHtmlClassList) -> Seq<Seq<char>> {
    (match cl.fg { Some(i) => seq![fg_class(i)], None => Seq::<Seq<char>>::empty() })
    + (match cl.bg { Some(i) => seq![bg_class(i)], None => Seq::<Seq<char>>::empty() })
    + (if cl.bold { seq!["tc--bold"@] } else { Seq::<Seq<char>>::empty() })
    + (if cl.dim { seq!["tc--dim"@] } else { Seq::<Seq<char>>::empty() })
    + (if cl.ital { seq!["tc--ital"@] } else { Seq::<Seq<char>>::empty() })
    + (if cl.undl { seq!["tc--undl"@] } else { Seq::<Seq<char>>::empty() })
}

/// The names of `l` separated by single spaces.
pub open spec fn join_spaced(l: Seq<Seq<char>>) -> Seq<char>
    decreases l.len(),
{
    if l.len() == 0 {
        Seq::empty()
    } else if l.len() == 1 {
        l[0]
    } else {
        join_spaced(l.drop_last()) + seq![' '] + l.last()
    }
}

/// The opening tag of a span carrying the classes of `cl`.
pub open spec fn span_open_tag(cl: SBufferHtmlClassList) -> Seq<char> {
    "<span class=\""@ + join_spaced(class_names(cl)) + "\">"@
}

/// Output after a class change: the open span (if any) is closed, and a new one is opened
/// when any class is applied. Also gives whether a span is open afterwards.
pub open spec fn class_change(out: Seq<char>, span_open: bool, cl: SBufferHtmlClassList) -> (Seq<char>, bool) {
    let closed = if span_open { out + "</span>"@ } else { out };
    if class_names(cl).len() == 0 {
        (closed, false)
    } else {
        (closed + span_open_tag(cl), true)
    }
}

/// A cell char as it appears in HTML: `<`, `>` and `&` are escaped.
pub open spec fn escaped(c: char) -> Seq<char> {
    if c == '<' {
        "&lt;"@
    } else if c == '>' {
        "&gt;"@
    } else if c == '&' {
        "&amp;"@
    } else {
        seq![c]
    }
}

/// `s` repeated `n` times.
pub open spec fn repeated(s: Seq<char>, n: nat) -> Seq<char>
    decreases n,
{
    if n == 0 {
        Seq::empty()
    } else {
        repeated(s, (n - 1) as nat) + s
    }
}

/// `n` spaces.
pub open spec fn spaces(n: nat) -> Seq<char> {
    Seq::new(n, |_i: int| ' ')
}

/// `a - b`, or 0 when `b > a`.
pub open spec fn sat_sub(a: nat, b: nat) -> nat {
    if a >= b { (a - b) as nat } else { 0 }
}

/// The state of the HTML renderer between two input chars.
pub struct HtmlState {
    pub out: Seq<char>,
    pub classes: SBufferHtmlClassList,
    pub span_open: bool,
    pub pending: bool,
    pub remaining: nat,
}

pub open spec fn html_init(cols: nat) -> HtmlState {
    HtmlState { out: Seq::empty(), classes: no_classes(), span_open: false, pending: false, remaining: cols }
}

/// Applies a pending class change, if there is one.
pub open spec fn flush(st: HtmlState) -> HtmlState {
    if st.pending {
        let (out, open) = class_change(st.out, st.span_open, st.classes);
        HtmlState { out: out, classes: st.classes, span_open: open, pending: false, remaining: st.remaining }
    } else {
        st
    }
}

/// Ends a row: the rest of the row is padded with spaces, then a line feed follows.
pub open spec fn line_break(st: HtmlState, cols: nat) -> HtmlState {
    HtmlState {
        out: st.out + spaces(st.remaining) + seq!['\n'],
        classes: st.classes,
        span_open: st.span_open,
        pending: st.pending,
        remaining: cols,
    }
}

/// Outputs `n` cells holding `c`.
pub open spec fn put_cells(st: HtmlState, c: char, n: nat) -> HtmlState {
    HtmlState {
        out: st.out + repeated(escaped(c), n),
        classes: st.classes,
        span_open: st.span_open,
        pending: st.pending,
        remaining: sat_sub(st.remaining, n),
    }
}

/// Replaces the class list and marks a class change as pending.
pub open spec fn with_classes(st: HtmlState, cl: SBufferHtmlClassList) -> HtmlState {
    HtmlState { out: st.out, classes: cl, span_open: st.span_open, pending: true, remaining: st.remaining }
}

/// The renderer's state after reading `s` from index `i` on, starting in state `st`.
pub open spec fn html_from(s: Seq<char>, cols: nat, i: int, st: HtmlState) -> HtmlState
    decreases s.len() - i,
{
    if i < 0 || i >= s.len() {
        st
    } else {
        let c = s[i];
        let cp = c as u32;
        let cl = st.classes;
        if c == '\n' {
            html_from(s, cols, i + 1, line_break(flush(st), cols))
        } else if 0xE100 <= cp && cp < 0xE200 {
            html_from(s, cols, i + 1, with_classes(st, SBufferHtmlClassList { fg: Some((cp - 0xE100) as u8), ..cl }))
        } else if cp == 0xE400 {
            html_from(s, cols, i + 1, with_classes(st, SBufferHtmlClassList { fg: None, ..cl }))
        } else if 0xE200 <= cp && cp < 0xE300 {
            html_from(s, cols, i + 1, with_classes(st, SBufferHtmlClassList { bg: Some((cp - 0xE200) as u8), ..cl }))
        } else if cp == 0xE401 {
            html_from(s, cols, i + 1, with_classes(st, SBufferHtmlClassList { bg: None, ..cl }))
        } else if 0xE300 <= cp && cp < 0xE400 {
            if i + 1 < s.len() {
                let d = s[i + 1];
                let st1 = flush(st);
                let st2 = if d == '\n' { line_break(st1, cols) } else { put_cells(st1, d, (cp - 0xE300 + 1) as nat) };
                html_from(s, cols, i + 2, st2)
            } else {
                st
            }
        } else if cp == 0xE402 {
            html_from(s, cols, i + 1, with_classes(st, SBufferHtmlClassList { bold: !cl.bold, ..cl }))
        } else if cp == 0xE403 {
            html_from(s, cols, i + 1, with_classes(st, SBufferHtmlClassList { dim: !cl.dim, ..cl }))
        } else if cp == 0xE404 {
            html_from(s, cols, i + 1, with_classes(st, SBufferHtmlClassList { ital: !cl.ital, ..cl }))
        } else if cp == 0xE405 {
            html_from(s, cols, i + 1, with_classes(st, SBufferHtmlClassList { undl: !cl.undl, ..cl }))
        } else {
            html_from(s, cols, i + 1, put_cells(flush(st), c, 1))
        }
    }
}

/// The end of rendering: a pending class change is applied; a final line feed is dropped,
/// otherwise the last row is padded; an open span is closed.
pub open spec fn html_finish(st: HtmlState) -> Seq<char> {
    let st1 = flush(st);
    let body = if st1.out.len() > 0 && st1.out.last() == '\n' {
        st1.out.drop_last()
    } else {
        st1.out + spaces(st1.remaining)
    };
    if st1.span_open { body + "</span>"@ } else { body }
}

/// `s` with its last row ended: a string whose last char (after the version char) is not
/// a line feed is read as if one followed.
pub open spec fn with_final_lf(s: Seq<char>) -> Seq<char> {
    if s.len() >= 2 && s.last() == '\n' {
        s
    } else {
        s.push('\n')
    }
}

/// The HTML rendering of the SBuffer string `s` (whose first char is U+E000) for rows
/// `cols` cells wide; a missing final line feed is read as present.
pub open spec fn html_of(s: Seq<char>, cols: nat) -> Seq<char> {
    html_finish(html_from(with_final_lf(s), cols, 1, html_init(cols)))
}

/// The class `tc--fg-<idx>`.
pub fn html_fg(color_idx: u8) -> (r: String)
    ensures
        r@ == fg_class(color_idx),
{
    let mut v: Vec<char> = Vec::new();
    push_str(&mut v, "tc--fg-");
    push_decimal(&mut v, color_idx as usize);
    string_from_chars(&v)
}

/// The class `tc--bg-<idx>`.
pub fn html_bg(color_idx: u8) -> (r: String)
    ensures
        r@ == bg_class(color_idx),
{
    let mut v: Vec<char> = Vec::new();
    push_str(&mut v, "tc--bg-");
    push_decimal(&mut v, color_idx as usize);
    string_from_chars(&v)
}

impl SBufferHtmlClassList {
    /// The class list with no class applied.
    pub fn new() -> (r: Self)
        ensures
            r == no_classes(),
    {
        SBufferHtmlClassList { fg: None, bg: None, bold: false, dim: false, ital: false, undl: false }
    }

    /// Whether no class is applied.
    pub fn is_empty(&self) -> (r: bool)
        ensures
            r == (class_names(*self).len() == 0),
    {
        !self.fg.is_some() && !self.bg.is_some() && !self.bold && !self.dim && !self.ital && !self.undl
    }

    /// The applied classes in canonical order.
    pub fn as_html_classes(&self) -> (r: Vec<String>)
        ensures
            r@.len() == class_names(*self).len(),
            forall|i: int| 0 <= i < r@.len() ==> #[trigger] r@[i]@ == class_names(*self)[i],
    {
        let mut out: Vec<String> = Vec::new();
        let ghost mut expect: Seq<Seq<char>> = Seq::empty();
        if let Some(fg) = self.fg {
            out.push(html_fg(fg));
            proof { expect = expect.push(fg_class(fg)); }
        }
        if let Some(bg) = self.bg {
            out.push(html_bg(bg));
            proof { expect = expect.push(bg_class(bg)); }
        }
        if self.bold {
            out.push(String::from_str("tc--bold"));
            proof { expect = expect.push("tc--bold"@); }
        }
        if self.dim {
            out.push(String::from_str("tc--dim"));
            proof { expect = expect.push("tc--dim"@); }
        }
        if self.ital {
            out.push(String::from_str("tc--ital"));
            proof { expect = expect.push("tc--ital"@); }
        }
        if self.undl {
            out.push(String::from_str("tc--undl"));
            proof { expect = expect.push("tc--undl"@); }
        }
        assert(expect =~= class_names(*self));
        out
    }
}

/// Closes the open span (if any) and opens a new one for the applied classes (if any).
pub fn html_encode_handle_class_change(
    output: &mut Vec<char>,
    span_was_open: &mut bool,
    class_list: &SBufferHtmlClassList,
)
    ensures
        (final(output)@, *final(span_was_open)) == class_change(old(output)@, *old(span_was_open), *class_list),
{
    if *span_was_open {
        push_str(output, "</span>");
    }
    let ghost closed = output@;
    if !class_list.is_empty() {
        push_str(output, "<span class=\"");
        let classes = class_list.as_html_classes();
        let ghost names = class_names(*class_list);
        let ghost base = output@;
        let mut k: usize = 0;
        while k < classes.len()
            invariant
                k <= classes@.len(),
                classes@.len() == names.len(),
                forall|i: int| 0 <= i < classes@.len() ==> #[trigger] classes@[i]@ == names[i],
                output@ == base + join_spaced(names.take(k as int)),
            decreases classes@.len() - k,
        {
            if k != 0 {
                output.push(' ');
            }
            push_str(output, classes[k].as_str());
            proof {
                let t = names.take(k + 1);
                assert(t.drop_last() =~= names.take(k as int));
                if k == 0 {
                    assert(names.take(0) =~= Seq::<Seq<char>>::empty());
                }
            }
            k = k + 1;
        }
        assert(names.take(names.len() as int) =~= names);
        push_str(output, "\">");
        *span_was_open = true;
    } else {
        *span_was_open = false;
    }
}

/// Outputs a cell char, escaping `<`, `>` and `&`.
pub fn html_push_normal_char(output: &mut Vec<char>, c: char)
    ensures
        final(output)@ == old(output)@ + escaped(c),
{
    if c == '<' {
        push_str(output, "&lt;");
    } else if c == '>' {
        push_str(output, "&gt;");
    } else if c == '&' {
        push_str(output, "&amp;");
    } else {
        output.push(c);
    }
}

/// Pads the rest of the row with spaces, ends it with a line feed and starts a new row.
pub fn html_handle_line_break(output: &mut Vec<char>, remaining_chars_in_line: &mut usize, cols: usize)
    ensures
        final(output)@ == old(output)@ + spaces(*old(remaining_chars_in_line) as nat) + seq!['\n'],
        *final(remaining_chars_in_line) == cols,
{
    let n = *remaining_chars_in_line;
    let mut k: usize = 0;
    while k < n
        invariant
            k <= n,
            output@ == old(output)@ + spaces(k as nat),
        decreases n - k,
    {
        output.push(' ');
        k = k + 1;
        assert(output@ =~= old(output)@ + spaces(k as nat));
    }
    output.push('\n');
    *remaining_chars_in_line = cols;
}

// ---------------------------------------------------------------------------
// A final line feed
// ---------------------------------------------------------------------------

/// Rendering `s` followed by a line feed ends in the state after `s`, with the pending
/// class change applied and the row ended (a dangling escape or repeat code before the
/// line feed has no effect).
pub proof fn lemma_html_append_lf(s: Seq<char>, cols: nat, i: int, st: HtmlState)
    requires
        1 <= i <= s.len(),
    ensures
        html_from(s.push('\n'), cols, i, st) == line_break(flush(html_from(s, cols, i, st)), cols),
    decreases s.len() - i,
{
    let t = s.push('\n');
    assert(t[s.len() as int] == '\n');
    if i < s.len() {
        let c = s[i];
        assert(t[i] == c);
        let cp = c as u32;
        let cl = st.classes;
        if c == '\n' {
            lemma_html_append_lf(s, cols, i + 1, line_break(flush(st), cols));
        } else if 0xE100 <= cp && cp < 0xE200 {
            lemma_html_append_lf(s, cols, i + 1, with_classes(st, SBufferHtmlClassList { fg: Some((cp - 0xE100) as u8), ..cl }));
        } else if cp == 0xE400 {
            lemma_html_append_lf(s, cols, i + 1, with_classes(st, SBufferHtmlClassList { fg: None, ..cl }));
        } else if 0xE200 <= cp && cp < 0xE300 {
            lemma_html_append_lf(s, cols, i + 1, with_classes(st, SBufferHtmlClassList { bg: Some((cp - 0xE200) as u8), ..cl }));
        } else if cp == 0xE401 {
            lemma_html_append_lf(s, cols, i + 1, with_classes(st, SBufferHtmlClassList { bg: None, ..cl }));
        } else if 0xE300 <= cp && cp < 0xE400 {
            if i + 1 < s.len() {
                let d = s[i + 1];
                assert(t[i + 1] == d);
                let st1 = flush(st);
                let st2 = if d == '\n' { line_break(st1, cols) } else { put_cells(st1, d, (cp - 0xE300 + 1) as nat) };
                lemma_html_append_lf(s, cols, i + 2, st2);
            } else {
                let st2 = line_break(flush(st), cols);
                assert(html_from(t, cols, i + 2, st2) == st2);
                assert(flush(st2) == st2);
            }
        } else if cp == 0xE402 {
            lemma_html_append_lf(s, cols, i + 1, with_classes(st, SBufferHtmlClassList { bold: !cl.bold, ..cl }));
        } else if cp == 0xE403 {
            lemma_html_append_lf(s, cols, i + 1, with_classes(st, SBufferHtmlClassList { dim: !cl.dim, ..cl }));
        } else if cp == 0xE404 {
            lemma_html_append_lf(s, cols, i + 1, with_classes(st, SBufferHtmlClassList { ital: !cl.ital, ..cl }));
        } else if cp == 0xE405 {
            lemma_html_append_lf(s, cols, i + 1, with_classes(st, SBufferHtmlClassList { undl: !cl.undl, ..cl }));
        } else {
            lemma_html_append_lf(s, cols, i + 1, put_cells(flush(st), c, 1));
        }
    } else {
        let st2 = line_break(flush(st), cols);
        assert(html_from(t, cols, i + 1, st2) == st2);
    }
}

/// A final line feed is optional: an SBuffer string without one renders as the same
/// string with one.
pub proof fn law_final_line_feed_is_optional(s: Seq<char>, cols: nat)
    requires
        s.len() >= 1,
        !(s.len() >= 2 && s.last() == '\n'),
    ensures
        html_of(s.push('\n'), cols) == html_of(s, cols),
{
    assert(with_final_lf(s) == s.push('\n'));
    assert(s.push('\n').last() == '\n');
    assert(with_final_lf(s.push('\n')) == s.push('\n'));
}

/// The decimal representation of `n` is a run of digits without a leading zero whose
/// value is `n`.
proof fn lemma_decimal_reads_back(n: nat)
    ensures
        decimal(n).len() >= 1,
        forall|j: int| 0 <= j < decimal(n).len() ==> #[trigger] is_digit(decimal(n)[j]),
        decimal(n).len() == 1 || decimal(n)[0] != '0',
        digits_value(decimal(n)) == n,
    decreases n,
{
    if n < 10 {
        let d = decimal(n);
        assert(d == seq![digit_char(n)]);
        assert(d.drop_last() =~= Seq::<char>::empty());
        assert(d.last() == digit_char(n));
        assert((digit_char(n) as u32) == 0x30 + n);
        assert(digits_value(d) == digits_value(d.drop_last()) * 10 + ((d.last() as u32) - 0x30) as nat);
    } else {
        lemma_decimal_reads_back(n / 10);
        let p = decimal(n / 10);
        let d = decimal(n);
        assert(d == p.push(digit_char(n % 10)));
        assert(d.drop_last() =~= p);
        assert(d.last() == digit_char(n % 10));
        assert((digit_char(n % 10) as u32) == 0x30 + n % 10);
        assert(digits_value(d) == digits_value(p) * 10 + n % 10);
        assert((n / 10) * 10 + n % 10 == n);
        assert(is_digit(digit_char(n % 10)));
        assert forall|j: int| 0 <= j < d.len() implies #[trigger] is_digit(d[j]) by {
            if j < p.len() {
                assert(d[j] == p[j]);
            }
        }
        assert(d[0] == p[0]);
        if p.len() == 1 {
            assert(n / 10 < 10) by {
                if n / 10 >= 10 {
                    lemma_decimal_long(n / 10);
                }
            }
            assert(p == seq![digit_char(n / 10)]);
            assert((digit_char(n / 10) as u32) == 0x30 + n / 10);
        }
    }
}

/// A number of at least 10 takes more than one digit.
proof fn lemma_decimal_long(n: nat)
    requires
        n >= 10,
    ensures
        decimal(n).len() >= 2,
    decreases n,
{
    assert(decimal(n) == decimal(n / 10).push(digit_char(n % 10)));
    if n / 10 >= 10 {
        lemma_decimal_long(n / 10);
    } else {
        assert(decimal(n / 10).len() == 1);
    }
}

/// Color classes name their palette index in decimal: `tc--fg-` or `tc--bg-`, then the
/// index's digits without leading zeros, the same digits for both.
pub proof fn law_color_classes_name_the_index(i: u8)
    ensures
        ({
            let f = fg_class(i);
            let b = bg_class(i);
            let digits = b.skip(7);
            &&& b.take(7) == "tc--bg-"@
            &&& f.take(7) == "tc--fg-"@
            &&& f.skip(7) == digits
            &&& digits.len() >= 1
            &&& forall|j: int| 0 <= j < digits.len() ==> #[trigger] is_digit(digits[j])
            &&& (digits.len() == 1 || digits[0] != '0')
            &&& digits_value(digits) == i as nat
        }),
{
    reveal_strlit("tc--bg-");
    reveal_strlit("tc--fg-");
    lemma_decimal_reads_back(i as nat);
    assert(bg_class(i).skip(7) =~= decimal(i as nat));
    assert(fg_class(i).skip(7) =~= decimal(i as nat));
    assert(bg_class(i).take(7) =~= "tc--bg-"@);
    assert(fg_class(i).take(7) =~= "tc--fg-"@);
}

} // verus!
