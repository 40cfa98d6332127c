//! Which classes an HTML rendering shows each char with: the class attribute of the span
//! it stands in. The law of this module states that the rendering shows every decoded
//! cell in a span carrying exactly the cell's classes, and the padding of a row in a span
//! carrying the classes in effect at the row's line feed.
use vstd::prelude::*;
use super::cell::ScreenGrid;
use super::decode::{
    law_encoding_round_trip, no_line_feed_cells, rows_show, class_after, copies, dec_init, dec_seq, dec_step, decode, is_attr_code, is_repeat_code, DecState, ShownCell,
};
use super::html::{
    class_change, class_names, escaped, flush, html_from, html_init, html_of, join_spaced, lemma_html_append_lf,
    line_break, put_cells, repeated, sat_sub, span_open_tag, spaces, with_classes, HtmlState, SBufferHtmlClassList,
};
use super::encode::{encode, lemma_encode_shape};
use super::html_text::{entity_text, lemma_class_names_chars, lemma_dec_front, lemma_join_chars};

verus! {

/// Where a reader of styled HTML is: in text, inside a tag (with its chars so far), or
/// inside an entity (with the chars of its name so far).
pub enum StyleMode {
    Text,
    InTag(Seq<char>),
    Entity(Seq<char>),
}

/// What a reader of styled HTML has shown so far (each char with the class attribute of
/// the span it stands in, if any), where it is, and the span it is in.
pub struct StyledView {
    pub shown: Seq<(char, Option<Seq<char>>)>,
    pub mode: StyleMode,
    pub span: Option<Seq<char>>,
}

/// The chars of an opening span tag between `<` and its class names.
pub open spec fn open_tag_head() -> Seq<char> {
    "<span class=\""@.skip(1)
}

/// The chars of a closing span tag between `<` and `>`.
pub open spec fn close_tag_body() -> Seq<char> {
    "</span>"@.subrange(1, 6)
}

/// The span after the tag whose chars between `<` and `>` are `t`: a closing span tag
/// leaves the span, an opening one enters a span with its class attribute; other tags
/// change nothing.
pub open spec fn tag_effect(t: Seq<char>, span: Option<Seq<char>>) -> Option<Seq<char>> {
    let head = open_tag_head();
    if t == close_tag_body() {
        None
    } else if t.len() >= head.len() + 1 && t.take(head.len() as int) == head && t.last() == '"' {
        Some(t.subrange(head.len() as int, t.len() - 1))
    } else {
        span
    }
}

/// `s` with each char paired with the span `span`.
pub open spec fn in_span(s: Seq<char>, span: Option<Seq<char>>) -> Seq<(char, Option<Seq<char>>)> {
    s.map_values(|c: char| (c, span))
}

/// The reader after one more char.
pub open spec fn styled_step(v: StyledView, c: char) -> StyledView {
    match v.mode {
        StyleMode::Text => if c == '<' {
            StyledView { shown: v.shown, mode: StyleMode::InTag(Seq::empty()), span: v.span }
        } else if c == '&' {
            StyledView { shown: v.shown, mode: StyleMode::Entity(Seq::empty()), span: v.span }
        } else {
            StyledView { shown: v.shown.push((c, v.span)), mode: StyleMode::Text, span: v.span }
        },
        StyleMode::InTag(t) => if c == '>' {
            StyledView { shown: v.shown, mode: StyleMode::Text, span: tag_effect(t, v.span) }
        } else {
            StyledView { shown: v.shown, mode: StyleMode::InTag(t.push(c)), span: v.span }
        },
        StyleMode::Entity(n) => if c == ';' {
            StyledView { shown: v.shown + in_span(entity_text(n), v.span), mode: StyleMode::Text, span: v.span }
        } else {
            StyledView { shown: v.shown, mode: StyleMode::Entity(n.push(c)), span: v.span }
        },
    }
}

/// The reader after the chars `h`.
pub open spec fn styled_fold(v: StyledView, h: Seq<char>) -> StyledView
    decreases h.len(),
{
    if h.len() == 0 {
        v
    } else {
        styled_step(styled_fold(v, h.drop_last()), h.last())
    }
}

/// A reader in text, outside any span, that has shown nothing.
pub open spec fn styled_init() -> StyledView {
    StyledView { shown: Seq::empty(), mode: StyleMode::Text, span: None }
}

/// The chars the HTML `h` shows, each with the class attribute of the span it stands in.
pub open spec fn html_styled(h: Seq<char>) -> Seq<(char, Option<Seq<char>>)> {
    styled_fold(styled_init(), h).shown
}

/// The class attribute of the span the renderer opens for the classes `cl`: none when no
/// class is applied.
pub open spec fn span_for(cl: SBufferHtmlClassList) -> Option<Seq<char>> {
    if class_names(cl).len() > 0 {
        Some(join_spaced(class_names(cl)))
    } else {
        None
    }
}

/// Decoded cells with the spans their classes call for.
pub open spec fn styled_cells(cells: Seq<ShownCell>) -> Seq<(char, Option<Seq<char>>)> {
    cells.map_values(|x: ShownCell| (x.0, span_for(x.1)))
}

/// A decoded row as a styled rendering shows it: its cells in the spans of their
/// classes, then the padding to `cols` and the line feed in the span of the classes in
/// effect at the line feed.
pub open spec fn styled_line(cells: Seq<ShownCell>, end: SBufferHtmlClassList, cols: nat) -> Seq<(char, Option<Seq<char>>)> {
    styled_cells(cells) + in_span(spaces(sat_sub(cols, cells.len())) + seq!['\n'], span_for(end))
}

/// The styled lines of decoded rows.
pub open spec fn styled_lines(rows: Seq<(Seq<ShownCell>, SBufferHtmlClassList)>, cols: nat) -> Seq<(char, Option<Seq<char>>)>
    decreases rows.len(),
{
    if rows.len() == 0 {
        Seq::empty()
    } else {
        styled_lines(rows.drop_last(), cols) + styled_line(rows.last().0, rows.last().1, cols)
    }
}

/// Reading `a + b` continues from the reader after `a`.
proof fn lemma_styled_concat(v: StyledView, a: Seq<char>, b: Seq<char>)
    ensures
        styled_fold(v, a + b) == styled_fold(styled_fold(v, a), b),
    decreases b.len(),
{
    if b.len() == 0 {
        assert(a + b =~= a);
    } else {
        lemma_styled_concat(v, a, b.drop_last());
        assert((a + b).drop_last() =~= a + b.drop_last());
        assert((a + b).last() == b.last());
    }
}

/// Reading one char.
proof fn lemma_styled_one(v: StyledView, c: char)
    ensures
        styled_fold(v, seq![c]) == styled_step(v, c),
{
    assert(seq![c].drop_last() =~= Seq::<char>::empty());
    assert(styled_fold(v, seq![c].drop_last()) == v);
    assert(seq![c].last() == c);
}

/// A reader in text with the given shown chars and span.
pub open spec fn styled_text(shown: Seq<(char, Option<Seq<char>>)>, span: Option<Seq<char>>) -> StyledView {
    StyledView { shown: shown, mode: StyleMode::Text, span: span }
}

/// Inside a tag, chars other than `>` are collected.
proof fn lemma_styled_in_tag(v: StyledView, t: Seq<char>, body: Seq<char>)
    requires
        v.mode == StyleMode::InTag(t),
        forall|i: int| 0 <= i < body.len() ==> body[i] != '>',
    ensures
        styled_fold(v, body) == (StyledView { shown: v.shown, mode: StyleMode::InTag(t + body), span: v.span }),
    decreases body.len(),
{
    if body.len() == 0 {
        assert(t + body =~= t);
    } else {
        lemma_styled_in_tag(v, t, body.drop_last());
        assert(body.last() == body[body.len() - 1]);
        assert((t + body.drop_last()).push(body.last()) =~= t + body);
    }
}

/// A tag (`<`, chars other than `>`, then `>`) shows nothing and has its effect on the
/// span.
proof fn lemma_styled_tag(shown: Seq<(char, Option<Seq<char>>)>, span: Option<Seq<char>>, body: Seq<char>)
    requires
        forall|i: int| 0 <= i < body.len() ==> body[i] != '>',
    ensures
        styled_fold(styled_text(shown, span), seq!['<'] + body + seq!['>']) == styled_text(shown, tag_effect(body, span)),
{
    let v = styled_text(shown, span);
    lemma_styled_concat(v, seq!['<'] + body, seq!['>']);
    lemma_styled_concat(v, seq!['<'], body);
    lemma_styled_one(v, '<');
    let v1 = StyledView { shown: shown, mode: StyleMode::InTag(Seq::empty()), span: span };
    lemma_styled_in_tag(v1, Seq::empty(), body);
    assert(Seq::<char>::empty() + body =~= body);
    lemma_styled_one(StyledView { shown: shown, mode: StyleMode::InTag(body), span: span }, '>');
}

/// Plain chars (neither `<` nor `&`) show themselves in the current span.
proof fn lemma_styled_plain(shown: Seq<(char, Option<Seq<char>>)>, span: Option<Seq<char>>, p: Seq<char>)
    requires
        forall|i: int| 0 <= i < p.len() ==> p[i] != '<' && p[i] != '&',
    ensures
        styled_fold(styled_text(shown, span), p) == styled_text(shown + in_span(p, span), span),
    decreases p.len(),
{
    if p.len() == 0 {
        assert(shown + in_span(p, span) =~= shown);
    } else {
        lemma_styled_plain(shown, span, p.drop_last());
        assert(p.last() == p[p.len() - 1]);
        assert((shown + in_span(p.drop_last(), span)).push((p.last(), span)) =~= shown + in_span(p, span));
    }
}

/// Inside an entity, chars other than `;` extend its name.
proof fn lemma_styled_entity_name(v: StyledView, name: Seq<char>, more: Seq<char>)
    requires
        v.mode == StyleMode::Entity(name),
        forall|i: int| 0 <= i < more.len() ==> more[i] != ';',
    ensures
        styled_fold(v, more) == (StyledView { shown: v.shown, mode: StyleMode::Entity(name + more), span: v.span }),
    decreases more.len(),
{
    if more.len() == 0 {
        assert(name + more =~= name);
    } else {
        lemma_styled_entity_name(v, name, more.drop_last());
        assert(more.last() == more[more.len() - 1]);
        assert((name + more.drop_last()).push(more.last()) =~= name + more);
    }
}

/// A cell char as it appears in HTML shows that char in the current span.
proof fn lemma_styled_escaped(shown: Seq<(char, Option<Seq<char>>)>, span: Option<Seq<char>>, c: char)
    ensures
        styled_fold(styled_text(shown, span), escaped(c)) == styled_text(shown.push((c, span)), span),
{
    reveal_strlit("&lt;");
    reveal_strlit("&gt;");
    reveal_strlit("&amp;");
    let v = styled_text(shown, span);
    if c == '<' || c == '>' || c == '&' {
        let e = escaped(c);
        let name = e.subrange(1, e.len() - 1);
        assert(e =~= seq!['&'] + name + seq![';']);
        if c == '<' {
            assert(name =~= seq!['l', 't']);
        } else if c == '>' {
            assert(name =~= seq!['g', 't']);
        } else {
            assert(name =~= seq!['a', 'm', 'p']);
        }
        lemma_styled_concat(v, seq!['&'] + name, seq![';']);
        lemma_styled_concat(v, seq!['&'], name);
        lemma_styled_one(v, '&');
        let v1 = StyledView { shown: shown, mode: StyleMode::Entity(Seq::empty()), span: span };
        lemma_styled_entity_name(v1, Seq::empty(), name);
        assert(Seq::<char>::empty() + name =~= name);
        lemma_styled_one(StyledView { shown: shown, mode: StyleMode::Entity(name), span: span }, ';');
        assert(shown + in_span(entity_text(name), span) =~= shown.push((c, span)));
    } else {
        lemma_styled_plain(shown, span, seq![c]);
        assert(shown + in_span(seq![c], span) =~= shown.push((c, span)));
    }
}

/// `n` cells holding `c` show `n` copies of `c` in the current span.
proof fn lemma_styled_cells(shown: Seq<(char, Option<Seq<char>>)>, span: Option<Seq<char>>, c: char, n: nat)
    ensures
        styled_fold(styled_text(shown, span), repeated(escaped(c), n)) == styled_text(shown + copies((c, span), n), span),
    decreases n,
{
    if n == 0 {
        assert(shown + copies((c, span), 0) =~= shown);
    } else {
        lemma_styled_cells(shown, span, c, (n - 1) as nat);
        let before = shown + copies((c, span), (n - 1) as nat);
        lemma_styled_concat(styled_text(shown, span), repeated(escaped(c), (n - 1) as nat), escaped(c));
        lemma_styled_escaped(before, span, c);
        assert(before.push((c, span)) =~= shown + copies((c, span), n));
    }
}

/// The tags written on a class change leave the reader in the span of the new classes.
proof fn lemma_styled_class_change(out: Seq<char>, open: bool, cl: SBufferHtmlClassList, shown: Seq<(char, Option<Seq<char>>)>, span: Option<Seq<char>>)
    requires
        styled_fold(styled_init(), out) == styled_text(shown, span),
        (span is Some) == open,
    ensures
        styled_fold(styled_init(), class_change(out, open, cl).0) == styled_text(shown, span_for(cl)),
        class_change(out, open, cl).1 == (span_for(cl) is Some),
{
    reveal_strlit("</span>");
    reveal_strlit("<span class=\"");
    reveal_strlit("\">");
    let close = "</span>"@;
    let closed = if open { out + close } else { out };
    if open {
        lemma_styled_concat(styled_init(), out, close);
        let body = close_tag_body();
        assert(close =~= seq!['<'] + body + seq!['>']);
        lemma_styled_tag(shown, span, body);
        assert(tag_effect(body, span) == None::<Seq<char>>);
    }
    assert(styled_fold(styled_init(), closed) == styled_text(shown, None));
    if class_names(cl).len() > 0 {
        let tag = span_open_tag(cl);
        let j = join_spaced(class_names(cl));
        lemma_class_names_chars(cl);
        lemma_join_chars(class_names(cl));
        let head = open_tag_head();
        let body = head + j + seq!['"'];
        assert(tag =~= seq!['<'] + body + seq!['>']);
        assert forall|i: int| 0 <= i < body.len() implies body[i] != '>' by {
            if i < head.len() {
                assert(body[i] == head[i]);
            } else if i < head.len() + j.len() {
                assert(body[i] == j[i - head.len()]);
            }
        }
        lemma_styled_concat(styled_init(), closed, tag);
        lemma_styled_tag(shown, None, body);
        assert(body != close_tag_body()) by {
            assert(body[0] == 's');
            assert(close_tag_body()[0] == '/');
        }
        assert(body.take(head.len() as int) =~= head);
        assert(body.subrange(head.len() as int, body.len() - 1) =~= j);
    }
}

/// Whether the renderer state `st` shows, styled, what the decoder state `d` holds: the
/// styled lines of its rows and its current cells; the renderer's classes are the
/// decoder's; a span is open exactly when the reader is in one, and, unless a class
/// change is pending, it is the span of the current classes.
pub open spec fn styles(st: HtmlState, d: DecState, cols: nat) -> bool {
    let v = styled_fold(styled_init(), st.out);
    &&& v.mode == StyleMode::Text
    &&& v.shown == styled_lines(d.rows, cols) + styled_cells(d.cur)
    &&& st.remaining == sat_sub(cols, d.cur.len())
    &&& st.classes == d.cls
    &&& (v.span is Some) == st.span_open
    &&& !st.pending ==> v.span == span_for(st.classes)
}

/// Applying a pending class change puts the reader in the span of the current classes.
proof fn lemma_styled_flush(st: HtmlState, d: DecState, cols: nat)
    requires
        styles(st, d, cols),
    ensures
        styles(flush(st), d, cols),
        !flush(st).pending,
        styled_fold(styled_init(), flush(st).out).span == span_for(d.cls),
{
    let v = styled_fold(styled_init(), st.out);
    if st.pending {
        lemma_styled_class_change(st.out, st.span_open, st.classes, v.shown, v.span);
    }
}

/// Ending a row: the padding and the line feed stand in the span of the current classes.
proof fn lemma_styles_line_break(st: HtmlState, d: DecState, cols: nat)
    requires
        styles(st, d, cols),
    ensures
        styles(line_break(flush(st), cols), dec_step(d, '\n'), cols),
{
    lemma_styled_flush(st, d, cols);
    let f = flush(st);
    let v = styled_fold(styled_init(), f.out);
    let p = spaces(f.remaining) + seq!['\n'];
    assert(line_break(f, cols).out =~= f.out + p);
    lemma_styled_concat(styled_init(), f.out, p);
    lemma_styled_plain(v.shown, v.span, p);
    let d2 = dec_step(d, '\n');
    assert(d2.rows == d.rows.push((d.cur, d.cls)));
    assert(d2.rows.drop_last() =~= d.rows);
    assert(styled_cells(d2.cur) =~= Seq::<(char, Option<Seq<char>>)>::empty());
    assert(v.shown + in_span(p, v.span) =~= styled_lines(d2.rows, cols) + styled_cells(d2.cur));
}

/// Showing `n` cells holding `c`: they stand in the span of the current classes.
proof fn lemma_styles_cells(st: HtmlState, d: DecState, cols: nat, c: char, n: nat)
    requires
        styles(st, d, cols),
    ensures
        styles(
            put_cells(flush(st), c, n),
            DecState { rows: d.rows, cur: d.cur + copies((c, d.cls), n), cls: d.cls, pend: None },
            cols,
        ),
{
    lemma_styled_flush(st, d, cols);
    let f = flush(st);
    let v = styled_fold(styled_init(), f.out);
    lemma_styled_concat(styled_init(), f.out, repeated(escaped(c), n));
    lemma_styled_cells(v.shown, v.span, c, n);
    let cur2 = d.cur + copies((c, d.cls), n);
    assert(styled_cells(cur2) =~= styled_cells(d.cur) + copies((c, span_for(d.cls)), n));
    assert(v.shown + copies((c, v.span), n) =~= styled_lines(d.rows, cols) + styled_cells(cur2));
}

/// The renderer and the decoder, run over the same chars, agree on what is shown and in
/// which spans.
#[verifier::spinoff_prover]
proof fn lemma_html_dec_styled(s: Seq<char>, cols: nat, i: int, st: HtmlState, d: DecState)
    requires
        1 <= i <= s.len(),
        styles(st, d, cols),
        d.pend is None,
    ensures
        styles(html_from(s, cols, i, st), dec_seq(d, s.subrange(i, s.len() as int)), cols),
    decreases s.len() - i,
{
    if i == s.len() {
        assert(s.subrange(i, s.len() as int) =~= Seq::<char>::empty());
    } else {
        let c = s[i];
        let cp = c as u32;
        let cl = st.classes;
        lemma_dec_front(d, s, i);
        if c == '\n' {
            lemma_styles_line_break(st, d, cols);
            lemma_html_dec_styled(s, cols, i + 1, line_break(flush(st), cols), dec_step(d, c));
        } else if (0xE100 <= cp && cp < 0xE300) || (0xE400 <= cp && cp <= 0xE405) {
            assert(is_attr_code(c));
            let st2 = with_classes(st, class_after(cl, c));
            assert(html_from(s, cols, i, st) == html_from(s, cols, i + 1, st2));
            lemma_html_dec_styled(s, cols, i + 1, st2, dec_step(d, c));
        } else if 0xE300 <= cp && cp < 0xE400 {
            assert(is_repeat_code(c) && !is_attr_code(c));
            let n = (cp - 0xE300 + 1) as nat;
            let d1 = dec_step(d, c);
            assert(d1 == (DecState { rows: d.rows, cur: d.cur, cls: d.cls, pend: Some(n) }));
            if i + 1 < s.len() {
                let e = s[i + 1];
                lemma_dec_front(d1, s, i + 1);
                let d2 = dec_step(d1, e);
                if e == '\n' {
                    lemma_styles_line_break(st, d, cols);
                    assert(d2 == dec_step(d, '\n'));
                    lemma_html_dec_styled(s, cols, i + 2, line_break(flush(st), cols), d2);
                } else {
                    lemma_styles_cells(st, d, cols, e, n);
                    lemma_html_dec_styled(s, cols, i + 2, put_cells(flush(st), e, n), d2);
                }
            } else {
                assert(s.subrange(i + 1, s.len() as int) =~= Seq::<char>::empty());
            }
        } else {
            assert(!is_attr_code(c) && !is_repeat_code(c));
            let d2 = dec_step(d, c);
            lemma_styles_cells(st, d, cols, c, 1);
            assert(d.cur + copies((c, d.cls), 1) =~= d.cur.push((c, d.cls)));
            lemma_html_dec_styled(s, cols, i + 1, put_cells(flush(st), c, 1), d2);
        }
    }
}

/// The rendering of an SBuffer string that ends with a line feed shows every decoded
/// cell in the span of its classes (no span where no class applies), and the padding of
/// each row in the span of the classes in effect at the row's line feed.
pub proof fn law_html_styles_decoded_rows(s: Seq<char>, cols: nat)
    requires
        s.len() >= 2,
        s.last() == '\n',
    ensures
        html_styled(html_of(s, cols)) == styled_lines(decode(s).rows, cols).drop_last(),
{
    let init = html_init(cols);
    let d0 = dec_init();
    assert(styled_lines(d0.rows, cols) + styled_cells(d0.cur) =~= Seq::<(char, Option<Seq<char>>)>::empty());
    assert(span_for(init.classes) == None::<Seq<char>>) by {
        assert(class_names(init.classes) =~= Seq::<Seq<char>>::empty());
    }
    assert(styles(init, d0, cols));
    lemma_html_dec_styled(s, cols, 1, init, d0);
    assert(s.subrange(1, s.len() as int) =~= s.skip(1));
    let f = html_from(s, cols, 1, init);
    let d = decode(s);
    assert(s.skip(1).drop_last().push('\n') =~= s.skip(1));
    assert(s.skip(1).last() == '\n');
    assert(d.cur == Seq::<ShownCell>::empty());
    assert(styled_cells(d.cur) =~= Seq::<(char, Option<Seq<char>>)>::empty());
    let t = styled_lines(d.rows, cols);
    assert(t + styled_cells(d.cur) =~= t);
    let sp = s.drop_last();
    assert(sp.push('\n') =~= s);
    lemma_html_append_lf(sp, cols, 1, init);
    let h = html_from(sp, cols, 1, init);
    assert(f == line_break(flush(h), cols));
    let x = flush(h).out + spaces(flush(h).remaining);
    assert(f.out =~= x.push('\n'));
    assert(flush(f) == f);
    assert(f.out.drop_last() =~= x);
    assert(x.push('\n').drop_last() =~= x);
    let vx = styled_fold(styled_init(), x);
    let vf = styled_fold(styled_init(), f.out);
    assert(vf == styled_step(vx, '\n'));
    assert(vx.mode == StyleMode::Text);
    assert(vf.shown == vx.shown.push(('\n', vx.span)));
    assert(vx.shown =~= t.drop_last());
    if f.span_open {
        reveal_strlit("</span>");
        let close = "</span>"@;
        lemma_styled_concat(styled_init(), x, close);
        let body = close_tag_body();
        assert(close =~= seq!['<'] + body + seq!['>']);
        lemma_styled_tag(vx.shown, vx.span, body);
    }
}

/// The HTML rendering of an encoded screen shows the screen with its formatting: it
/// shows the decoded rows of the encoding, every cell in the span of its classes and each
/// row's padding in the span of the classes at its line feed; and the decoded rows show
/// the screen's cells, with classes that show each cell's colors and attributes (see
/// `law_encoding_round_trip`). Screens without rows, and screens whose cells hold a line
/// feed, are left out.
pub proof fn law_html_styles_screen(g: ScreenGrid)
    requires
        no_line_feed_cells(g),
        g.rows@.len() >= 1,
    ensures
        html_styled(html_of(encode(g), g.cols as nat)) == styled_lines(decode(encode(g)).rows, g.cols as nat).drop_last(),
        rows_show(decode(encode(g)).rows, g.rows@, g.cols as nat),
{
    lemma_encode_shape(g);
    law_html_styles_decoded_rows(encode(g), g.cols as nat);
    law_encoding_round_trip(g);
}

} // verus!
