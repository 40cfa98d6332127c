//! The demo pattern shown when no command and no input is given: a bordered box with the
//! TRMNL logo, a title, the output size and a usage hint.
use vstd::prelude::*;
use crate::sbuffer::html::{sat_sub, spaces};
use crate::text::{decimal, lemma_add_assoc, push_decimal, push_str, string_from_chars};

verus! {

/// Line `k` (0 to 9) of the TRMNL logo, 20 chars wide.
pub open spec fn logo_line(k: int) -> Seq<char> {
    if k == 0 {
        "    .-:.   :=+.     "@
    } else if k == 1 {
        "    -++++=..++=     "@
    } else if k == 2 {
        "    ...:--  -++: :. "@
    } else if k == 3 {
        ".:-+++       .  -++:"@
    } else if k == 4 {
        ":++-.         .+++: "@
    } else if k == 5 {
        " . .::         .-.  "@
    } else if k == 6 {
        "   =++      .:----: "@
    } else if k == 7 {
        "  .++= :+=: .+++==: "@
    } else if k == 8 {
        "   ::. .-++=:       "@
    } else {
        "         .==.       "@
    }
}

/// Line `k` (0 to 9) of the TRMNL logo.
fn logo_line_str(k: usize) -> (r: &'static str)
    requires
        k < 10,
    ensures
        r@ == logo_line(k as int),
{
    if k == 0 {
        "    .-:.   :=+.     "
    } else if k == 1 {
        "    -++++=..++=     "
    } else if k == 2 {
        "    ...:--  -++: :. "
    } else if k == 3 {
        ".:-+++       .  -++:"
    } else if k == 4 {
        ":++-.         .+++: "
    } else if k == 5 {
        " . .::         .-.  "
    } else if k == 6 {
        "   =++      .:----: "
    } else if k == 7 {
        "  .++= :+=: .+++==: "
    } else if k == 8 {
        "   ::. .-++=:       "
    } else {
        "         .==.       "
    }
}

/// The first row whose size comparison `(width - 20, height) > (20, 10)` places the logo at
/// the middle of the box, if it holds.
pub open spec fn logo_start(width: nat, height: nat) -> Option<int> {
    if width - 20 > 20 || (width - 20 == 20 && height > 10) {
        Some(height / 2 - 5)
    } else {
        None
    }
}

/// The first inner row that shows a logo line: row 1 when no start row was chosen (every
/// row compares as past an absent start), else the start row, but not before row 1.
pub open spec fn logo_first(width: nat, height: nat) -> int {
    match logo_start(width, height) {
        Some(s) => if s >= 1 { s } else { 1 },
        None => 1,
    }
}

/// The usage hint of the demo, with italic markup; 71 chars of visible text.
pub open spec fn hint_line() -> Seq<char> {
    "  This is the demo output. Try adding "@ + "\x1B[3m"@ + "-- your-command"@ + "\x1B[23m"@ + " to "@
        + "\x1B[3m"@ + "trmnl-console"@ + "\x1B[23m"@ + "."@
}

/// The size line of the demo.
pub open spec fn size_line(width: nat, height: nat) -> Seq<char> {
    "  Output size: "@ + decimal(width) + " x "@ + decimal(height)
}

/// The text of inner row `line_i`, followed by padding so that it fills `rest_spaces`
/// visible chars: the bold title just above the middle row, the size on the middle row,
/// the usage hint below it, spaces elsewhere.
pub open spec fn text_line(width: nat, height: nat, line_i: nat, rest_spaces: nat) -> Seq<char> {
    let header_row = sat_sub(height / 2, 1);
    let description_row = height / 2;
    let description_row2 = height / 2 + 1;
    if line_i == header_row {
        "\x1B[1m"@ + "  TRMNL Console Plugin"@ + "\x1B[22m"@ + spaces(sat_sub(rest_spaces, 22))
    } else if line_i == description_row {
        size_line(width, height) + spaces(sat_sub(rest_spaces, size_line(width, height).len()))
    } else if line_i == description_row2 {
        hint_line() + spaces(sat_sub(rest_spaces, 71))
    } else {
        spaces(rest_spaces)
    }
}

/// The content of inner row `line_i` (between the vertical borders): a logo line and text
/// on the ten rows from `logo_first`, text alone elsewhere.
pub open spec fn row_content(width: nat, height: nat, line_i: nat) -> Seq<char> {
    let first = logo_first(width, height);
    if first <= line_i < first + 10 {
        "     "@ + logo_line(line_i - first) + text_line(width, height, line_i, sat_sub(sat_sub(sat_sub(width, 2), 5), 20))
    } else {
        text_line(width, height, line_i, sat_sub(width, 2))
    }
}

/// Inner row `line_i` with its borders.
pub open spec fn row_line(width: nat, height: nat, line_i: nat) -> Seq<char> {
    "\u{2502}"@ + row_content(width, height, line_i) + "\u{2502}"@
}

/// Inner rows 1 to `n`, separated by line feeds.
pub open spec fn inner_rows(width: nat, height: nat, n: nat) -> Seq<char>
    decreases n,
{
    if n == 0 {
        Seq::empty()
    } else if n == 1 {
        row_line(width, height, 1)
    } else {
        inner_rows(width, height, (n - 1) as nat) + "\n"@ + row_line(width, height, n)
    }
}

/// A horizontal border: `left`, `width - 2` horizontal lines, `right`.
pub open spec fn border_row(width: nat, left: Seq<char>, right: Seq<char>) -> Seq<char> {
    left + Seq::new((width - 2) as nat, |_i: int| '\u{2500}') + right
}

/// The whole demo: top border, the `height - 2` inner rows, bottom border.
pub open spec fn demo_output(width: nat, height: nat) -> Seq<char> {
    border_row(width, "\u{256D}"@, "\u{256E}"@) + "\n"@ + inner_rows(width, height, (height - 2) as nat) + "\n"@
        + border_row(width, "\u{2570}"@, "\u{256F}"@)
}

/// Appends `n` copies of `c`.
fn push_repeat(out: &mut Vec<char>, c: char, n: usize)
    ensures
        final(out)@ == old(out)@ + Seq::new(n as nat, |_i: int| c),
{
    let mut k: usize = 0;
    while k < n
        invariant
            k <= n,
            out@ == old(out)@ + Seq::new(k as nat, |_i: int| c),
        decreases n - k,
    {
        out.push(c);
        k = k + 1;
        assert(out@ =~= old(out)@ + Seq::new(k as nat, |_i: int| c));
    }
}

/// Appends the text of inner row `line_i` (see [`text_line`]).
fn push_text(out: &mut Vec<char>, width: usize, height: usize, line_i: usize, rest_spaces: usize)
    ensures
        final(out)@ == old(out)@ + text_line(width as nat, height as nat, line_i as nat, rest_spaces as nat),
{
    let header_row = (height / 2).saturating_sub(1);
    let description_row = height / 2;
    let description_row2 = height / 2 + 1;
    if line_i == header_row {
        push_str(out, "\x1B[1m");
        push_str(out, "  TRMNL Console Plugin");
        push_str(out, "\x1B[22m");
        push_repeat(out, ' ', rest_spaces.saturating_sub(22));
        assert(out@ =~= old(out)@ + text_line(width as nat, height as nat, line_i as nat, rest_spaces as nat));
    } else if line_i == description_row {
        let start = out.len();
        push_str(out, "  Output size: ");
        push_decimal(out, width);
        push_str(out, " x ");
        push_decimal(out, height);
        let text_len = out.len() - start;
        assert(out@ =~= old(out)@ + size_line(width as nat, height as nat));
        push_repeat(out, ' ', rest_spaces.saturating_sub(text_len));
        assert(out@ =~= old(out)@ + text_line(width as nat, height as nat, line_i as nat, rest_spaces as nat));
    } else if line_i == description_row2 {
        push_str(out, "  This is the demo output. Try adding ");
        push_str(out, "\x1B[3m");
        push_str(out, "-- your-command");
        push_str(out, "\x1B[23m");
        push_str(out, " to ");
        push_str(out, "\x1B[3m");
        push_str(out, "trmnl-console");
        push_str(out, "\x1B[23m");
        push_str(out, ".");
        push_repeat(out, ' ', rest_spaces.saturating_sub(71));
        assert(out@ =~= old(out)@ + text_line(width as nat, height as nat, line_i as nat, rest_spaces as nat));
    } else {
        push_repeat(out, ' ', rest_spaces);
        assert(out@ =~= old(out)@ + text_line(width as nat, height as nat, line_i as nat, rest_spaces as nat));
    }
}

/// The text of inner row `line_i`, padded to fill `rest_spaces` chars (see [`text_line`]).
pub fn render_text(width: usize, height: usize, line_i: usize, rest_spaces: usize) -> (r: String)
    ensures
        r@ == text_line(width as nat, height as nat, line_i as nat, rest_spaces as nat),
{
    let mut out: Vec<char> = Vec::new();
    push_text(&mut out, width, height, line_i, rest_spaces);
    string_from_chars(&out)
}

/// Appends inner row `line_i` with its borders (see [`row_line`]).
fn push_row_line(out: &mut Vec<char>, width: usize, height: usize, line_i: usize, first: usize)
    requires
        first == logo_first(width as nat, height as nat),
        first < usize::MAX - 10,
    ensures
        final(out)@ == old(out)@ + row_line(width as nat, height as nat, line_i as nat),
{
    let ghost o = out@;
    push_str(out, "\u{2502}");
    let ghost a = out@;
    if first <= line_i && line_i < first + 10 {
        push_str(out, "     ");
        push_str(out, logo_line_str(line_i - first));
        let rest_space = width.saturating_sub(2).saturating_sub(5).saturating_sub(20);
        push_text(out, width, height, line_i, rest_space);
    } else {
        push_text(out, width, height, line_i, width.saturating_sub(2));
    }
    assert(out@ =~= a + row_content(width as nat, height as nat, line_i as nat));
    push_str(out, "\u{2502}");
    assert(out@ =~= o + row_line(width as nat, height as nat, line_i as nat));
}

/// The demo pattern for a terminal `width` columns and `height` rows large.
pub fn render_terminal_output(width: usize, height: usize) -> (r: String)
    requires
        width >= 20,
        height >= 2,
        width > 40 ==> height >= 10,
    ensures
        r@ == demo_output(width as nat, height as nat),
{
    let mut out: Vec<char> = Vec::new();
    push_str(&mut out, "\u{256D}");
    push_repeat(&mut out, '\u{2500}', width - 2);
    push_str(&mut out, "\u{256E}");
    push_str(&mut out, "\n");
    let start_row_trmnl_logo: Option<usize> = if width - 20 > 20 || (width - 20 == 20 && height > 10) {
        Some(height / 2 - 5)
    } else {
        None
    };
    let first: usize = match start_row_trmnl_logo {
        Some(s) => if s >= 1 { s } else { 1 },
        None => 1,
    };
    assert(first == logo_first(width as nat, height as nat));
    let ghost rows_start = out@;
    let mut line_i: usize = 1;
    while line_i <= height - 2
        invariant
            1 <= line_i <= height - 1,
            height >= 2,
            width >= 20,
            first == logo_first(width as nat, height as nat),
            out@ == rows_start + inner_rows(width as nat, height as nat, (line_i - 1) as nat),
        decreases height - line_i,
    {
        let ghost before = out@;
        if line_i > 1 {
            push_str(&mut out, "\n");
        }
        let ghost mid = out@;
        push_row_line(&mut out, width, height, line_i, first);
        proof {
            let r = row_line(width as nat, height as nat, line_i as nat);
            let prev = inner_rows(width as nat, height as nat, (line_i - 1) as nat);
            if line_i == 1 {
                assert(prev =~= Seq::<char>::empty());
                assert(rows_start + prev =~= rows_start);
            } else {
                lemma_add_assoc(rows_start, prev, "\n"@);
                lemma_add_assoc(rows_start, prev + "\n"@, r);
            }
        }
        line_i = line_i + 1;
    }
    push_str(&mut out, "\n");
    push_str(&mut out, "\u{2570}");
    push_repeat(&mut out, '\u{2500}', width - 2);
    push_str(&mut out, "\u{256F}");
    assert(out@ =~= demo_output(width as nat, height as nat));
    string_from_chars(&out)
}

// ---------------------------------------------------------------------------
// What a terminal shows of the demo
// ---------------------------------------------------------------------------

/// Where a terminal is in reading its input: plain text, just after an escape char, or in
/// a control sequence (`ESC [` up to its final char).
pub enum AnsiMode {
    Text,
    Escape,
    Control,
}

/// What a terminal shows after reading `c`: text chars are shown; an escape char, `[`
/// after it, and a control sequence up to and including its final char (`@` to `~`)
/// are not.
pub open spec fn ansi_step(st: (Seq<char>, AnsiMode), c: char) -> (Seq<char>, AnsiMode) {
    match st.1 {
        AnsiMode::Text => if c == '\x1B' { (st.0, AnsiMode::Escape) } else { (st.0.push(c), AnsiMode::Text) },
        AnsiMode::Escape => if c == '[' { (st.0, AnsiMode::Control) } else { (st.0, AnsiMode::Text) },
        AnsiMode::Control => if 0x40 <= (c as u32) && (c as u32) <= 0x7E {
            (st.0, AnsiMode::Text)
        } else {
            (st.0, AnsiMode::Control)
        },
    }
}

/// What a terminal shows after reading `s` from the state `st`.
pub open spec fn ansi_fold(st: (Seq<char>, AnsiMode), s: Seq<char>) -> (Seq<char>, AnsiMode)
    decreases s.len(),
{
    if s.len() == 0 {
        st
    } else {
        ansi_step(ansi_fold(st, s.drop_last()), s.last())
    }
}

/// The visible text of `s`: its chars with the ANSI escape sequences removed.
pub open spec fn visible_text(s: Seq<char>) -> Seq<char> {
    ansi_fold((Seq::empty(), AnsiMode::Text), s).0
}

/// Reading `a` then `b` is reading `a + b`.
proof fn lemma_ansi_concat(st: (Seq<char>, AnsiMode), a: Seq<char>, b: Seq<char>)
    ensures
        ansi_fold(st, a + b) == ansi_fold(ansi_fold(st, a), b),
    decreases b.len(),
{
    if b.len() == 0 {
        assert(a + b =~= a);
    } else {
        lemma_ansi_concat(st, a, b.drop_last());
        assert((a + b).drop_last() =~= a + b.drop_last());
        assert((a + b).last() == b.last());
    }
}

/// Text without an escape char is shown as it is.
proof fn lemma_ansi_plain(o: Seq<char>, s: Seq<char>)
    requires
        forall|j: int| 0 <= j < s.len() ==> #[trigger] s[j] != '\x1B',
    ensures
        ansi_fold((o, AnsiMode::Text), s) == (o + s, AnsiMode::Text),
    decreases s.len(),
{
    if s.len() == 0 {
        assert(o + s =~= o);
    } else {
        let d = s.drop_last();
        assert forall|j: int| 0 <= j < d.len() implies #[trigger] d[j] != '\x1B' by {
            assert(d[j] == s[j]);
        }
        lemma_ansi_plain(o, d);
        assert(s.last() == s[s.len() - 1]);
        assert((o + d).push(s.last()) =~= o + s);
    }
}

/// The prefixes of a control sequence `ESC [ p... f` past `ESC [` and before `f` leave
/// the terminal in the sequence, showing nothing.
proof fn lemma_ansi_control_prefix(o: Seq<char>, s: Seq<char>, k: int)
    requires
        s.len() >= 3,
        s[0] == '\x1B',
        s[1] == '[',
        forall|j: int| 2 <= j < s.len() - 1 ==> !(0x40 <= (#[trigger] s[j] as u32) && (s[j] as u32) <= 0x7E),
        2 <= k < s.len(),
    ensures
        ansi_fold((o, AnsiMode::Text), s.take(k)) == (o, AnsiMode::Control),
    decreases k,
{
    if k == 2 {
        let one = seq![s[0]];
        assert(s.take(2).drop_last() =~= one);
        assert(s.take(2).last() == s[1]);
        assert(one.drop_last() =~= Seq::<char>::empty());
        assert(one.last() == s[0]);
        assert(ansi_fold((o, AnsiMode::Text), one.drop_last()) == (o, AnsiMode::Text));
        assert(ansi_fold((o, AnsiMode::Text), one) == (o, AnsiMode::Escape));
    } else {
        lemma_ansi_control_prefix(o, s, k - 1);
        assert(s.take(k).drop_last() =~= s.take(k - 1));
        assert(s.take(k).last() == s[k - 1]);
    }
}

/// A control sequence `ESC [ p... f` shows nothing.
proof fn lemma_ansi_control(o: Seq<char>, s: Seq<char>)
    requires
        s.len() >= 3,
        s[0] == '\x1B',
        s[1] == '[',
        forall|j: int| 2 <= j < s.len() - 1 ==> !(0x40 <= (#[trigger] s[j] as u32) && (s[j] as u32) <= 0x7E),
        0x40 <= (s.last() as u32) && (s.last() as u32) <= 0x7E,
    ensures
        ansi_fold((o, AnsiMode::Text), s) == (o, AnsiMode::Text),
{
    lemma_ansi_control_prefix(o, s, s.len() - 1);
    assert(s.drop_last() =~= s.take(s.len() - 1));
}

/// The styling sequences the demo writes show nothing.
proof fn lemma_demo_styles(o: Seq<char>)
    ensures
        ansi_fold((o, AnsiMode::Text), "\x1B[1m"@) == (o, AnsiMode::Text),
        ansi_fold((o, AnsiMode::Text), "\x1B[22m"@) == (o, AnsiMode::Text),
        ansi_fold((o, AnsiMode::Text), "\x1B[3m"@) == (o, AnsiMode::Text),
        ansi_fold((o, AnsiMode::Text), "\x1B[23m"@) == (o, AnsiMode::Text),
{
    reveal_strlit("\x1B[1m");
    reveal_strlit("\x1B[22m");
    reveal_strlit("\x1B[3m");
    reveal_strlit("\x1B[23m");
    lemma_ansi_control(o, "\x1B[1m"@);
    lemma_ansi_control(o, "\x1B[22m"@);
    lemma_ansi_control(o, "\x1B[3m"@);
    lemma_ansi_control(o, "\x1B[23m"@);
}

/// Decimal digits hold no escape char.
proof fn lemma_decimal_plain(n: nat)
    ensures
        forall|j: int| 0 <= j < decimal(n).len() ==> #[trigger] decimal(n)[j] != '\x1B',
    decreases n,
{
    if n >= 10 {
        lemma_decimal_plain(n / 10);
        assert(decimal(n) == decimal(n / 10).push(crate::text::digit_char(n % 10)));
        assert forall|j: int| 0 <= j < decimal(n).len() implies #[trigger] decimal(n)[j] != '\x1B' by {
            if j < decimal(n / 10).len() {
                assert(decimal(n)[j] == decimal(n / 10)[j]);
            } else {
                assert((crate::text::digit_char(n % 10) as u32) == 0x30 + n % 10);
            }
        }
    } else {
        assert((crate::text::digit_char(n) as u32) == 0x30 + n);
    }
}

/// Spaces hold no escape char.
proof fn lemma_spaces_plain(n: nat)
    ensures
        forall|j: int| 0 <= j < spaces(n).len() ==> #[trigger] spaces(n)[j] != '\x1B',
{
}

/// The text of an inner row shows exactly `rest_spaces` chars when its visible text (22
/// chars for the title, 71 for the hint, the size line's length for the size) fits.
proof fn lemma_text_line_visible(o: Seq<char>, width: nat, height: nat, line_i: nat, rest_spaces: nat)
    requires
        rest_spaces >= 71,
        rest_spaces >= size_line(width, height).len(),
    ensures
        ansi_fold((o, AnsiMode::Text), text_line(width, height, line_i, rest_spaces)).1 == AnsiMode::Text,
        ansi_fold((o, AnsiMode::Text), text_line(width, height, line_i, rest_spaces)).0.len() == o.len() + rest_spaces,
{
    let header_row = sat_sub(height / 2, 1);
    let description_row = height / 2;
    let description_row2 = height / 2 + 1;
    let t = (o, AnsiMode::Text);
    lemma_demo_styles(o);
    if line_i == header_row {
        reveal_strlit("  TRMNL Console Plugin");
        let title = "  TRMNL Console Plugin"@;
        let pad = spaces(sat_sub(rest_spaces, 22));
        lemma_ansi_concat(t, "\x1B[1m"@ + title + "\x1B[22m"@, pad);
        lemma_ansi_concat(t, "\x1B[1m"@ + title, "\x1B[22m"@);
        lemma_ansi_concat(t, "\x1B[1m"@, title);
        lemma_ansi_plain(o, title);
        lemma_demo_styles(o + title);
        lemma_spaces_plain(sat_sub(rest_spaces, 22));
        lemma_ansi_plain(o + title, pad);
    } else if line_i == description_row {
        reveal_strlit("  Output size: ");
        reveal_strlit(" x ");
        let sl = size_line(width, height);
        lemma_decimal_plain(width);
        lemma_decimal_plain(height);
        assert forall|j: int| 0 <= j < sl.len() implies #[trigger] sl[j] != '\x1B' by {
            let a = "  Output size: "@;
            let b = decimal(width);
            let c = " x "@;
            if j < a.len() {
            } else if j < a.len() + b.len() {
                assert(sl[j] == b[j - a.len()]);
            } else if j < a.len() + b.len() + c.len() {
            } else {
                assert(sl[j] == decimal(height)[j - a.len() - b.len() - c.len()]);
            }
        }
        let pad = spaces(sat_sub(rest_spaces, sl.len()));
        lemma_ansi_concat(t, sl, pad);
        lemma_ansi_plain(o, sl);
        lemma_spaces_plain(sat_sub(rest_spaces, sl.len()));
        lemma_ansi_plain(o + sl, pad);
    } else if line_i == description_row2 {
        reveal_strlit("  This is the demo output. Try adding ");
        reveal_strlit("-- your-command");
        reveal_strlit(" to ");
        reveal_strlit("trmnl-console");
        reveal_strlit(".");
        let p1 = "  This is the demo output. Try adding "@;
        let p2 = "-- your-command"@;
        let p3 = " to "@;
        let p4 = "trmnl-console"@;
        let p5 = "."@;
        let i3 = "\x1B[3m"@;
        let i23 = "\x1B[23m"@;
        let pad = spaces(sat_sub(rest_spaces, 71));
        let a1 = p1;
        let a2 = a1 + i3;
        let a3 = a2 + p2;
        let a4 = a3 + i23;
        let a5 = a4 + p3;
        let a6 = a5 + i3;
        let a7 = a6 + p4;
        let a8 = a7 + i23;
        let a9 = a8 + p5;
        assert(hint_line() == a9);
        lemma_ansi_concat(t, a9, pad);
        lemma_ansi_concat(t, a8, p5);
        lemma_ansi_concat(t, a7, i23);
        lemma_ansi_concat(t, a6, p4);
        lemma_ansi_concat(t, a5, i3);
        lemma_ansi_concat(t, a4, p3);
        lemma_ansi_concat(t, a3, i23);
        lemma_ansi_concat(t, a2, p2);
        lemma_ansi_concat(t, a1, i3);
        lemma_ansi_plain(o, p1);
        let o1 = o + p1;
        lemma_demo_styles(o1);
        lemma_ansi_plain(o1, p2);
        let o2 = o1 + p2;
        lemma_demo_styles(o2);
        lemma_ansi_plain(o2, p3);
        let o3 = o2 + p3;
        lemma_demo_styles(o3);
        lemma_ansi_plain(o3, p4);
        let o4 = o3 + p4;
        lemma_demo_styles(o4);
        lemma_ansi_plain(o4, p5);
        let o5 = o4 + p5;
        lemma_spaces_plain(sat_sub(rest_spaces, 71));
        lemma_ansi_plain(o5, pad);
    } else {
        lemma_spaces_plain(rest_spaces);
        lemma_ansi_plain(o, spaces(rest_spaces));
    }
}

/// Every inner row of the demo shows exactly `width` columns: with its ANSI escape
/// sequences removed it is `width` chars long, the borders included, whenever the texts
/// fit beside the logo (so the right border lines up with the corners of the box).
pub proof fn law_demo_rows_fill_the_width(width: nat, height: nat, line_i: nat)
    requires
        width >= 2 + 5 + 20 + 71,
        width >= 2 + 5 + 20 + size_line(width, height).len(),
    ensures
        visible_text(row_line(width, height, line_i)).len() == width,
{
    reveal_strlit("\u{2502}");
    reveal_strlit("     ");
    let bar = "\u{2502}"@;
    let content = row_content(width, height, line_i);
    let e = Seq::<char>::empty();
    let t0 = (e, AnsiMode::Text);
    lemma_ansi_concat(t0, bar + content, bar);
    lemma_ansi_concat(t0, bar, content);
    lemma_ansi_plain(e, bar);
    let first = logo_first(width, height);
    if first <= line_i < first + 10 {
        let k = line_i - first;
        reveal_strlit("    .-:.   :=+.     ");
        reveal_strlit("    -++++=..++=     ");
        reveal_strlit("    ...:--  -++: :. ");
        reveal_strlit(".:-+++       .  -++:");
        reveal_strlit(":++-.         .+++: ");
        reveal_strlit(" . .::         .-.  ");
        reveal_strlit("   =++      .:----: ");
        reveal_strlit("  .++= :+=: .+++==: ");
        reveal_strlit("   ::. .-++=:       ");
        reveal_strlit("         .==.       ");
        let logo = logo_line(k);
        assert(logo.len() == 20);
        assert(forall|j: int| 0 <= j < logo.len() ==> #[trigger] logo[j] != '\x1B');
        let lead = "     "@ + logo;
        assert forall|j: int| 0 <= j < lead.len() implies #[trigger] lead[j] != '\x1B' by {
            if j >= 5 {
                assert(lead[j] == logo[j - 5]);
            }
        }
        let rest = sat_sub(sat_sub(sat_sub(width, 2), 5), 20);
        let tl = text_line(width, height, line_i, rest);
        assert(content == lead + tl);
        lemma_ansi_concat((bar, AnsiMode::Text), lead, tl);
        lemma_ansi_plain(bar, lead);
        lemma_text_line_visible(bar + lead, width, height, line_i, rest);
        let after = ansi_fold((bar + lead, AnsiMode::Text), tl);
        lemma_ansi_plain(after.0, bar);
    } else {
        let tl = text_line(width, height, line_i, sat_sub(width, 2));
        assert(content == tl);
        lemma_text_line_visible(bar, width, height, line_i, sat_sub(width, 2));
        let after = ansi_fold((bar, AnsiMode::Text), tl);
        lemma_ansi_plain(after.0, bar);
    }
}

} // verus!
