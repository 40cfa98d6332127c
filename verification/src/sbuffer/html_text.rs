//! The text an HTML rendering shows (tags removed, entities replaced), and the law that
//! the rendering of an encoded screen shows the screen's rows, padded to its width.
use vstd::prelude::*;
use crate::text::{decimal, digit_char};
use super::cell::{CellAttrs, GridCell, ScreenGrid};
use super::decode::{
    cells_show, copies, dec_init, dec_seq, dec_step, decode, is_attr_code, is_repeat_code, law_encoding_round_trip,
    lemma_dec_concat, lemma_dec_one, no_line_feed_cells, row_cells, row_shows, rows_show, DecState, ShownCell,
};
use super::encode::{encode, lemma_encode_shape};
use super::html::{
    bg_class, class_change, class_names, escaped, fg_class, flush, html_from, html_init, html_of,
    join_spaced, lemma_html_append_lf, line_break, put_cells, repeated, sat_sub, span_open_tag, spaces, with_classes,
    HtmlState, SBufferHtmlClassList,
};

verus! {

/// Where a reader of HTML text is: in text, inside a tag, or inside an entity (with the
/// chars of its name so far).
pub enum TextMode {
    Text,
    InTag,
    Entity(Seq<char>),
}

/// What a reader of HTML text has shown so far, and where it is.
pub struct TextView {
    pub shown: Seq<char>,
    pub mode: TextMode,
}

/// The text of the entity named `name`: `&lt;`, `&gt;` and `&amp;` stand for `<`, `>`
/// and `&`; any other entity is shown as written.
pub open spec fn entity_text(name: Seq<char>) -> Seq<char> {
    if name == seq!['l', 't'] {
        seq!['<']
    } else if name == seq!['g', 't'] {
        seq!['>']
    } else if name == seq!['a', 'm', 'p'] {
        seq!['&']
    } else {
        seq!['&'] + name + seq![';']
    }
}

/// The reader after one more char.
pub open spec fn text_step(t: TextView, c: char) -> TextView {
    match t.mode {
        TextMode::Text => if c == '<' {
            TextView { shown: t.shown, mode: TextMode::InTag }
        } else if c == '&' {
            TextView { shown: t.shown, mode: TextMode::Entity(Seq::empty()) }
        } else {
            TextView { shown: t.shown.push(c), mode: TextMode::Text }
        },
        TextMode::InTag => if c == '>' {
            TextView { shown: t.shown, mode: TextMode::Text }
        } else {
            t
        },
        TextMode::Entity(name) => if c == ';' {
            TextView { shown: t.shown + entity_text(name), mode: TextMode::Text }
        } else {
            TextView { shown: t.shown, mode: TextMode::Entity(name.push(c)) }
        },
    }
}

/// The reader after the chars `h`.
pub open spec fn text_fold(t: TextView, h: Seq<char>) -> TextView
    decreases h.len(),
{
    if h.len() == 0 {
        t
    } else {
        text_step(text_fold(t, h.drop_last()), h.last())
    }
}

/// A reader in text that has shown `shown`.
pub open spec fn in_text(shown: Seq<char>) -> TextView {
    TextView { shown: shown, mode: TextMode::Text }
}

/// The text the HTML `h` shows: tags removed, entities replaced by their chars.
pub open spec fn html_text(h: Seq<char>) -> Seq<char> {
    text_fold(in_text(Seq::empty()), h).shown
}

/// Reading `a + b` continues from the reader after `a`.
pub proof fn lemma_text_concat(t: TextView, a: Seq<char>, b: Seq<char>)
    ensures
        text_fold(t, a + b) == text_fold(text_fold(t, a), b),
    decreases b.len(),
{
    if b.len() == 0 {
        assert(a + b =~= a);
    } else {
        lemma_text_concat(t, a, b.drop_last());
        assert((a + b).drop_last() =~= a + b.drop_last());
        assert((a + b).last() == b.last());
    }
}

/// Reading one char.
proof fn lemma_text_one(t: TextView, c: char)
    ensures
        text_fold(t, seq![c]) == text_step(t, c),
{
    assert(seq![c].drop_last() =~= Seq::<char>::empty());
    assert(text_fold(t, seq![c].drop_last()) == t);
    assert(seq![c].last() == c);
}

/// Inside a tag, chars other than `>` show nothing.
proof fn lemma_in_tag(shown: Seq<char>, body: Seq<char>)
    requires
        forall|i: int| 0 <= i < body.len() ==> body[i] != '>',
    ensures
        text_fold(TextView { shown: shown, mode: TextMode::InTag }, body) == (TextView { shown: shown, mode: TextMode::InTag }),
    decreases body.len(),
{
    if body.len() > 0 {
        lemma_in_tag(shown, body.drop_last());
        assert(body.last() == body[body.len() - 1]);
    }
}

/// A tag (`<`, chars other than `>`, then `>`) shows nothing.
pub proof fn lemma_tag(shown: Seq<char>, body: Seq<char>)
    requires
        forall|i: int| 0 <= i < body.len() ==> body[i] != '>',
    ensures
        text_fold(in_text(shown), seq!['<'] + body + seq!['>']) == in_text(shown),
{
    lemma_text_concat(in_text(shown), seq!['<'] + body, seq!['>']);
    lemma_text_concat(in_text(shown), seq!['<'], body);
    lemma_text_one(in_text(shown), '<');
    lemma_in_tag(shown, body);
    lemma_text_one(TextView { shown: shown, mode: TextMode::InTag }, '>');
}

/// Plain chars (neither `<` nor `&`) show themselves.
pub proof fn lemma_plain(shown: Seq<char>, p: Seq<char>)
    requires
        forall|i: int| 0 <= i < p.len() ==> p[i] != '<' && p[i] != '&',
    ensures
        text_fold(in_text(shown), p) == in_text(shown + p),
    decreases p.len(),
{
    if p.len() == 0 {
        assert(shown + p =~= shown);
    } else {
        lemma_plain(shown, p.drop_last());
        assert(p.last() == p[p.len() - 1]);
        assert((shown + p.drop_last()).push(p.last()) =~= shown + p);
    }
}

/// A cell char as it appears in HTML shows that char.
pub proof fn lemma_escaped(shown: Seq<char>, c: char)
    ensures
        text_fold(in_text(shown), escaped(c)) == in_text(shown.push(c)),
{
    reveal_strlit("&lt;");
    reveal_strlit("&gt;");
    reveal_strlit("&amp;");
    if c == '<' || c == '>' || c == '&' {
        let e = escaped(c);
        let name = e.subrange(1, e.len() - 1);
        assert(e =~= seq!['&'] + name + seq![';']);
        if c == '<' {
            assert(name =~= seq!['l', 't']);
        } else if c == '>' {
            assert(name =~= seq!['g', 't']);
        } else {
            assert(name =~= seq!['a', 'm', 'p']);
        }
        lemma_text_concat(in_text(shown), seq!['&'] + name, seq![';']);
        lemma_text_concat(in_text(shown), seq!['&'], name);
        lemma_text_one(in_text(shown), '&');
        lemma_entity_name(shown, Seq::empty(), name);
        assert(Seq::<char>::empty() + name =~= name);
        let t = TextView { shown: shown, mode: TextMode::Entity(name) };
        lemma_text_one(t, ';');
        assert(shown + entity_text(name) =~= shown.push(c));
    } else {
        lemma_plain(shown, seq![c]);
        assert(shown + seq![c] =~= shown.push(c));
    }
}

/// Inside an entity, chars other than `;` extend its name.
proof fn lemma_entity_name(shown: Seq<char>, name: Seq<char>, more: Seq<char>)
    requires
        forall|i: int| 0 <= i < more.len() ==> more[i] != ';',
    ensures
        text_fold(TextView { shown: shown, mode: TextMode::Entity(name) }, more) == (TextView {
            shown: shown,
            mode: TextMode::Entity(name + more),
        }),
    decreases more.len(),
{
    if more.len() == 0 {
        assert(name + more =~= name);
    } else {
        lemma_entity_name(shown, name, more.drop_last());
        assert(more.last() == more[more.len() - 1]);
        assert((name + more.drop_last()).push(more.last()) =~= name + more);
    }
}

/// `n` cells holding `c` show `n` copies of `c`.
pub proof fn lemma_cells_text(shown: Seq<char>, c: char, n: nat)
    ensures
        text_fold(in_text(shown), repeated(escaped(c), n)) == in_text(shown + Seq::new(n, |_i: int| c)),
    decreases n,
{
    if n == 0 {
        assert(shown + Seq::new(0, |_i: int| c) =~= shown);
    } else {
        lemma_cells_text(shown, c, (n - 1) as nat);
        let before = shown + Seq::new((n - 1) as nat, |_i: int| c);
        lemma_text_concat(in_text(shown), repeated(escaped(c), (n - 1) as nat), escaped(c));
        lemma_escaped(before, c);
        assert(before.push(c) =~= shown + Seq::new(n, |_i: int| c));
    }
}

/// The digits of a number are neither `>` nor `"`.
proof fn lemma_decimal_chars(n: nat)
    ensures
        forall|i: int| 0 <= i < decimal(n).len() ==> #[trigger] decimal(n)[i] != '>' && decimal(n)[i] != '"',
    decreases n,
{
    if n >= 10 {
        lemma_decimal_chars(n / 10);
        assert(decimal(n) == decimal(n / 10).push(digit_char(n % 10)));
        assert(digit_char(n % 10) != '>' && digit_char(n % 10) != '"') by {
            let d = n % 10;
            assert(0x30 <= 0x30 + d <= 0x39);
        }
    } else {
        assert(digit_char(n) != '>' && digit_char(n) != '"') by {
            assert(0x30 <= 0x30 + n <= 0x39);
        }
    }
}

/// Class names hold no `>`.
pub proof fn lemma_class_names_chars(cl: SBufferHtmlClassList)
    ensures
        forall|k: int, i: int| 0 <= k < class_names(cl).len() && 0 <= i < class_names(cl)[k].len() ==> #[trigger] class_names(cl)[k][i] != '>',
{
    reveal_strlit("tc--fg-");
    reveal_strlit("tc--bg-");
    reveal_strlit("tc--bold");
    reveal_strlit("tc--dim");
    reveal_strlit("tc--ital");
    reveal_strlit("tc--undl");
    let names = class_names(cl);
    match cl.fg {
        Some(i) => lemma_decimal_chars(i as nat),
        None => {},
    }
    match cl.bg {
        Some(i) => lemma_decimal_chars(i as nat),
        None => {},
    }
    assert forall|k: int, i: int| 0 <= k < names.len() && 0 <= i < names[k].len() implies #[trigger] names[k][i] != '>' by {
        let f = match cl.fg { Some(x) => seq![fg_class(x)], None => Seq::<Seq<char>>::empty() };
        let b = match cl.bg { Some(x) => seq![bg_class(x)], None => Seq::<Seq<char>>::empty() };
        if let Some(x) = cl.fg {
            assert(fg_class(x) == "tc--fg-"@ + decimal(x as nat));
        }
        if let Some(x) = cl.bg {
            assert(bg_class(x) == "tc--bg-"@ + decimal(x as nat));
        }
    }
}

/// Names joined by spaces hold no `>` when the names hold none.
pub proof fn lemma_join_chars(l: Seq<Seq<char>>)
    requires
        forall|k: int, i: int| 0 <= k < l.len() && 0 <= i < l[k].len() ==> #[trigger] l[k][i] != '>',
    ensures
        forall|i: int| 0 <= i < join_spaced(l).len() ==> #[trigger] join_spaced(l)[i] != '>',
    decreases l.len(),
{
    if l.len() >= 2 {
        let init = l.drop_last();
        assert forall|k: int, i: int| 0 <= k < init.len() && 0 <= i < init[k].len() implies #[trigger] init[k][i] != '>' by {
            assert(init[k] == l[k]);
        }
        lemma_join_chars(init);
        let j = join_spaced(init) + seq![' '] + l.last();
        assert forall|i: int| 0 <= i < j.len() implies #[trigger] j[i] != '>' by {
            if i >= join_spaced(init).len() + 1 {
                let k = l.len() - 1;
                assert(l.last() == l[k]);
                assert(j[i] == l[k][i - join_spaced(init).len() - 1]);
            }
        }
    } else if l.len() == 1 {
        assert forall|i: int| 0 <= i < join_spaced(l).len() implies #[trigger] join_spaced(l)[i] != '>' by {
            assert(l[0][i] != '>');
        }
    }
}

/// The tags written on a class change show nothing.
pub proof fn lemma_class_change_text(out: Seq<char>, open: bool, cl: SBufferHtmlClassList, shown: Seq<char>)
    requires
        text_fold(in_text(Seq::empty()), out) == in_text(shown),
    ensures
        text_fold(in_text(Seq::empty()), class_change(out, open, cl).0) == in_text(shown),
{
    reveal_strlit("</span>");
    reveal_strlit("<span class=\"");
    reveal_strlit("\">");
    let close = "</span>"@;
    let closed = if open { out + close } else { out };
    if open {
        lemma_text_concat(in_text(Seq::empty()), out, close);
        let body = close.subrange(1, 6);
        assert(close =~= seq!['<'] + body + seq!['>']);
        lemma_tag(shown, body);
    }
    assert(text_fold(in_text(Seq::empty()), closed) == in_text(shown));
    if class_names(cl).len() > 0 {
        let tag = span_open_tag(cl);
        let j = join_spaced(class_names(cl));
        lemma_class_names_chars(cl);
        lemma_join_chars(class_names(cl));
        let head = "<span class=\""@;
        let body = head.skip(1) + j + seq!['"'];
        assert(tag =~= seq!['<'] + body + seq!['>']);
        assert forall|i: int| 0 <= i < body.len() implies body[i] != '>' by {
            if i < head.len() - 1 {
                assert(body[i] == head[i + 1]);
            } else if i < head.len() - 1 + j.len() {
                assert(body[i] == j[i - (head.len() - 1)]);
            }
        }
        lemma_text_concat(in_text(Seq::empty()), closed, tag);
        lemma_tag(shown, body);
    }
}

/// Applying a pending class change shows nothing.
pub proof fn lemma_flush_text(st: HtmlState, shown: Seq<char>)
    requires
        text_fold(in_text(Seq::empty()), st.out) == in_text(shown),
    ensures
        text_fold(in_text(Seq::empty()), flush(st).out) == in_text(shown),
{
    if st.pending {
        lemma_class_change_text(st.out, st.span_open, st.classes, shown);
    }
}

/// Ending a row shows the padding and the line feed.
pub proof fn lemma_line_break_text(st: HtmlState, cols: nat, shown: Seq<char>)
    requires
        text_fold(in_text(Seq::empty()), st.out) == in_text(shown),
    ensures
        text_fold(in_text(Seq::empty()), line_break(st, cols).out) == in_text(shown + spaces(st.remaining) + seq!['\n']),
{
    let p = spaces(st.remaining) + seq!['\n'];
    assert(line_break(st, cols).out =~= st.out + p);
    lemma_text_concat(in_text(Seq::empty()), st.out, p);
    lemma_plain(shown, p);
    assert(shown + p =~= shown + spaces(st.remaining) + seq!['\n']);
}

/// Outputting cells shows their chars.
pub proof fn lemma_put_cells_text(st: HtmlState, c: char, n: nat, shown: Seq<char>)
    requires
        text_fold(in_text(Seq::empty()), st.out) == in_text(shown),
    ensures
        text_fold(in_text(Seq::empty()), put_cells(st, c, n).out) == in_text(shown + Seq::new(n, |_i: int| c)),
{
    lemma_text_concat(in_text(Seq::empty()), st.out, repeated(escaped(c), n));
    lemma_cells_text(shown, c, n);
}

// ---------------------------------------------------------------------------
// The text of a rendering
// ---------------------------------------------------------------------------

/// The chars of decoded cells.
pub open spec fn cells_chars(cells: Seq<ShownCell>) -> Seq<char> {
    cells.map_values(|x: ShownCell| x.0)
}

/// A decoded row as a rendering shows it: its chars, padded with spaces to `cols`, then a
/// line feed.
pub open spec fn row_line(cells: Seq<ShownCell>, cols: nat) -> Seq<char> {
    cells_chars(cells) + spaces(sat_sub(cols, cells.len())) + seq!['\n']
}

/// The lines of decoded rows.
pub open spec fn rows_lines(rows: Seq<(Seq<ShownCell>, SBufferHtmlClassList)>, cols: nat) -> Seq<char>
    decreases rows.len(),
{
    if rows.len() == 0 {
        Seq::empty()
    } else {
        rows_lines(rows.drop_last(), cols) + row_line(rows.last().0, cols)
    }
}

/// Whether the renderer state `st` shows what the decoder state `d` holds: the lines of
/// its rows, then the chars of its current row, with the rest of that row still to pad.
pub open spec fn renders(st: HtmlState, d: DecState, cols: nat) -> bool {
    &&& text_fold(in_text(Seq::empty()), st.out) == in_text(rows_lines(d.rows, cols) + cells_chars(d.cur))
    &&& st.remaining == sat_sub(cols, d.cur.len())
}

/// Decoding from the front: `c` then the rest.
pub proof fn lemma_dec_front(d: DecState, s: Seq<char>, i: int)
    requires
        0 <= i < s.len(),
    ensures
        dec_seq(d, s.subrange(i, s.len() as int)) == dec_seq(dec_step(d, s[i]), s.subrange(i + 1, s.len() as int)),
{
    let rest = s.subrange(i + 1, s.len() as int);
    assert(s.subrange(i, s.len() as int) =~= seq![s[i]] + rest);
    lemma_dec_concat(d, seq![s[i]], rest);
    lemma_dec_one(d, s[i]);
}

/// Ending a row: the renderer shows the row's line.
proof fn lemma_renders_line_break(st: HtmlState, d: DecState, cols: nat)
    requires
        renders(st, d, cols),
    ensures
        renders(line_break(flush(st), cols), dec_step(d, '\n'), cols),
{
    let t = rows_lines(d.rows, cols) + cells_chars(d.cur);
    lemma_flush_text(st, t);
    lemma_line_break_text(flush(st), cols, t);
    let d2 = dec_step(d, '\n');
    assert(d2.rows == d.rows.push((d.cur, d.cls)));
    assert(d2.rows.drop_last() =~= d.rows);
    assert(cells_chars(d2.cur) =~= Seq::<char>::empty());
    assert(t + spaces(flush(st).remaining) + seq!['\n'] =~= rows_lines(d2.rows, cols) + cells_chars(d2.cur));
}

/// Showing `n` cells holding `c`: the renderer shows their chars.
proof fn lemma_renders_cells(st: HtmlState, d: DecState, cols: nat, c: char, n: nat)
    requires
        renders(st, d, cols),
    ensures
        renders(
            put_cells(flush(st), c, n),
            DecState { rows: d.rows, cur: d.cur + copies((c, d.cls), n), cls: d.cls, pend: None },
            cols,
        ),
{
    let t = rows_lines(d.rows, cols) + cells_chars(d.cur);
    lemma_flush_text(st, t);
    lemma_put_cells_text(flush(st), c, n, t);
    let cur2 = d.cur + copies((c, d.cls), n);
    assert(cells_chars(cur2) =~= cells_chars(d.cur) + Seq::new(n, |_i: int| c));
    assert(t + Seq::new(n, |_i: int| c) =~= rows_lines(d.rows, cols) + cells_chars(cur2));
}

/// The renderer and the decoder, run over the same chars, agree on what is shown.
#[verifier::spinoff_prover]
proof fn lemma_html_dec(s: Seq<char>, cols: nat, i: int, st: HtmlState, d: DecState)
    requires
        1 <= i <= s.len(),
        renders(st, d, cols),
        d.pend is None,
    ensures
        renders(html_from(s, cols, i, st), dec_seq(d, s.subrange(i, s.len() as int)), cols),
    decreases s.len() - i,
{
    if i == s.len() {
        assert(s.subrange(i, s.len() as int) =~= Seq::<char>::empty());
    } else {
        let c = s[i];
        let cp = c as u32;
        let cl = st.classes;
        lemma_dec_front(d, s, i);
        if c == '\n' {
            lemma_renders_line_break(st, d, cols);
            lemma_html_dec(s, cols, i + 1, line_break(flush(st), cols), dec_step(d, c));
        } else if (0xE100 <= cp && cp < 0xE300) || (0xE400 <= cp && cp <= 0xE405) {
            assert(is_attr_code(c));
            let st2 = if 0xE100 <= cp && cp < 0xE200 {
                with_classes(st, SBufferHtmlClassList { fg: Some((cp - 0xE100) as u8), ..cl })
            } else if cp == 0xE400 {
                with_classes(st, SBufferHtmlClassList { fg: None, ..cl })
            } else if 0xE200 <= cp && cp < 0xE300 {
                with_classes(st, SBufferHtmlClassList { bg: Some((cp - 0xE200) as u8), ..cl })
            } else if cp == 0xE401 {
                with_classes(st, SBufferHtmlClassList { bg: None, ..cl })
            } else if cp == 0xE402 {
                with_classes(st, SBufferHtmlClassList { bold: !cl.bold, ..cl })
            } else if cp == 0xE403 {
                with_classes(st, SBufferHtmlClassList { dim: !cl.dim, ..cl })
            } else if cp == 0xE404 {
                with_classes(st, SBufferHtmlClassList { ital: !cl.ital, ..cl })
            } else {
                with_classes(st, SBufferHtmlClassList { undl: !cl.undl, ..cl })
            };
            assert(html_from(s, cols, i, st) == html_from(s, cols, i + 1, st2));
            lemma_html_dec(s, cols, i + 1, st2, dec_step(d, c));
        } else if 0xE300 <= cp && cp < 0xE400 {
            assert(is_repeat_code(c) && !is_attr_code(c));
            let n = (cp - 0xE300 + 1) as nat;
            let d1 = dec_step(d, c);
            assert(d1 == (DecState { rows: d.rows, cur: d.cur, cls: d.cls, pend: Some(n) }));
            if i + 1 < s.len() {
                let e = s[i + 1];
                lemma_dec_front(d1, s, i + 1);
                let d2 = dec_step(d1, e);
                if e == '\n' {
                    lemma_renders_line_break(st, d, cols);
                    assert(d2 == dec_step(d, '\n'));
                    lemma_html_dec(s, cols, i + 2, line_break(flush(st), cols), d2);
                } else {
                    lemma_renders_cells(st, d, cols, e, n);
                    lemma_html_dec(s, cols, i + 2, put_cells(flush(st), e, n), d2);
                }
            } else {
                assert(s.subrange(i + 1, s.len() as int) =~= Seq::<char>::empty());
            }
        } else {
            assert(!is_attr_code(c) && !is_repeat_code(c));
            let d2 = dec_step(d, c);
            lemma_renders_cells(st, d, cols, c, 1);
            assert(d.cur + copies((c, d.cls), 1) =~= d.cur.push((c, d.cls)));
            lemma_html_dec(s, cols, i + 1, put_cells(flush(st), c, 1), d2);
        }
    }
}

/// The rendering of an SBuffer string that ends with a line feed shows the lines of its
/// decoded rows: each row's chars padded with spaces to the width (a row holding more
/// cells than that is not padded), the rows separated by line feeds.
pub proof fn law_html_shows_decoded_rows(s: Seq<char>, cols: nat)
    requires
        s.len() >= 2,
        s.last() == '\n',
    ensures
        html_text(html_of(s, cols)) == rows_lines(decode(s).rows, cols).drop_last(),
{
    let init = html_init(cols);
    let d0 = dec_init();
    assert(text_fold(in_text(Seq::empty()), init.out) == in_text(Seq::empty()));
    assert(rows_lines(d0.rows, cols) + cells_chars(d0.cur) =~= Seq::<char>::empty());
    lemma_html_dec(s, cols, 1, init, d0);
    assert(s.subrange(1, s.len() as int) =~= s.skip(1));
    let f = html_from(s, cols, 1, init);
    let d = decode(s);
    assert(s.skip(1).drop_last().push('\n') =~= s.skip(1));
    assert(s.skip(1).last() == '\n');
    assert(d.cur == Seq::<ShownCell>::empty());
    assert(cells_chars(d.cur) =~= Seq::<char>::empty());
    let t = rows_lines(d.rows, cols);
    assert(text_fold(in_text(Seq::empty()), f.out) == in_text(t + Seq::<char>::empty()));
    assert(t + Seq::<char>::empty() =~= t);
    let sp = s.drop_last();
    assert(sp.push('\n') =~= s);
    lemma_html_append_lf(sp, cols, 1, init);
    let h = html_from(sp, cols, 1, init);
    assert(f == line_break(flush(h), cols));
    let x = flush(h).out + spaces(flush(h).remaining);
    assert(f.out =~= x.push('\n'));
    assert(flush(f) == f);
    assert(f.out.drop_last() =~= x);
    assert(x.push('\n').drop_last() =~= x);
    let tx = text_fold(in_text(Seq::empty()), x);
    assert(text_fold(in_text(Seq::empty()), f.out) == text_step(tx, '\n'));
    assert(tx.mode == TextMode::Text);
    assert(tx.shown.push('\n') == t);
    assert(tx.shown =~= t.drop_last());
    if f.span_open {
        reveal_strlit("</span>");
        let close = "</span>"@;
        lemma_text_concat(in_text(Seq::empty()), x, close);
        let body = close.subrange(1, 6);
        assert(close =~= seq!['<'] + body + seq!['>']);
        lemma_tag(tx.shown, body);
    }
}

/// The chars of screen cells.
pub open spec fn screen_chars(cs: Seq<(char, CellAttrs, bool)>) -> Seq<char> {
    cs.map_values(|t: (char, CellAttrs, bool)| t.0)
}

/// The lines of a screen `cols` cells wide: each row's chars (one per cell that shows a
/// char) padded with spaces to the width, then a line feed.
pub open spec fn screen_lines(rows: Seq<Vec<Option<GridCell>>>, cols: nat) -> Seq<char>
    decreases rows.len(),
{
    if rows.len() == 0 {
        Seq::empty()
    } else {
        let cs = row_cells(rows.last()@, cols);
        screen_lines(rows.drop_last(), cols) + screen_chars(cs) + spaces(sat_sub(cols, cs.len())) + seq!['\n']
    }
}

/// A row shows at most one char per cell.
proof fn lemma_row_cells_len(row: Seq<Option<GridCell>>, x: nat)
    ensures
        row_cells(row, x).len() <= x,
    decreases x,
{
    if x > 0 {
        lemma_row_cells_len(row, (x - 1) as nat);
    }
}

/// A decoded row that shows a screen row renders as that row's line.
proof fn lemma_row_line(d: Seq<ShownCell>, end: SBufferHtmlClassList, cs: Seq<(char, CellAttrs, bool)>, cols: nat)
    requires
        row_shows((d, end), cs),
        cs.len() <= cols,
    ensures
        row_line(d, cols) == screen_chars(cs) + spaces(sat_sub(cols, cs.len())) + seq!['\n'],
{
    let a = cells_chars(d) + spaces(sat_sub(cols, d.len()));
    let b = screen_chars(cs) + spaces(sat_sub(cols, cs.len()));
    assert(a.len() == cols && b.len() == cols);
    assert forall|i: int| 0 <= i < cols implies a[i] == b[i] by {
        if i < d.len() {
            assert(cells_show(d, cs.take(d.len() as int)));
            assert(d[i].0 == cs.take(d.len() as int)[i].0);
        } else if i < cs.len() {
            assert(cs[i].0 == ' ');
        }
    }
    assert(a =~= b);
}

/// Decoded rows that show a screen's rows render as the screen's lines.
proof fn lemma_rows_lines(dec: Seq<(Seq<ShownCell>, SBufferHtmlClassList)>, grid: Seq<Vec<Option<GridCell>>>, cols: nat)
    requires
        rows_show(dec, grid, cols),
    ensures
        rows_lines(dec, cols) == screen_lines(grid, cols),
    decreases grid.len(),
{
    if grid.len() > 0 {
        let di = dec.drop_last();
        let gi = grid.drop_last();
        assert forall|y: int| 0 <= y < di.len() implies #[trigger] row_shows(di[y], row_cells(gi[y]@, cols)) by {
            assert(di[y] == dec[y]);
            assert(gi[y] == grid[y]);
        }
        lemma_rows_lines(di, gi, cols);
        let k = grid.len() - 1;
        assert(row_shows(dec[k], row_cells(grid[k]@, cols)));
        assert(dec.last() == dec[k] && grid.last() == grid[k]);
        lemma_row_cells_len(grid.last()@, cols);
        lemma_row_line(dec.last().0, dec.last().1, row_cells(grid.last()@, cols), cols);
    }
}

/// The HTML rendering of an encoded screen shows the screen: its text (tags removed,
/// entities replaced) is the screen's rows, each the chars of its cells (one per cell
/// that shows a char; a grapheme by the first char of its NFC composition) padded with
/// spaces to the width, separated by line feeds. Screens without rows, and screens whose
/// cells hold a line feed, are left out (the former render as one row of spaces).
pub proof fn law_html_shows_screen(g: ScreenGrid)
    requires
        no_line_feed_cells(g),
        g.rows@.len() >= 1,
    ensures
        html_text(html_of(encode(g), g.cols as nat)) == screen_lines(g.rows@, g.cols as nat).drop_last(),
{
    lemma_encode_shape(g);
    law_html_shows_decoded_rows(encode(g), g.cols as nat);
    law_encoding_round_trip(g);
    lemma_rows_lines(decode(encode(g)).rows, g.rows@, g.cols as nat);
}

} // verus!
