//! The library's laws checked on concrete values.
use trmnl_console::json::JsonValue;
use trmnl_console::payload::{make, WebhookPayloadBar};
use trmnl_console::relay::{apply_merge, decide_backend_push, MergeStrategy, PushOutcome};
use trmnl_console::sbuffer::cell::{apply_cell_attrs, colors_equal, CellAttrs, GridCell, ScreenGrid, TermColor, Underline};
use trmnl_console::sbuffer::SBuffer;

fn cell(text: &str, attrs: CellAttrs) -> Option<GridCell> {
    Some(GridCell { text: text.to_string(), attrs })
}

fn red() -> CellAttrs {
    CellAttrs { fg: TermColor::PaletteIndex(1), ..CellAttrs::plain() }
}

#[test]
fn encoded_screen_decodes_to_its_rows() {
    let grid = ScreenGrid {
        cols: 6,
        rows: vec![
            vec![cell("a", CellAttrs::plain()), cell("a", CellAttrs::plain()), cell(" ", CellAttrs::plain()), cell("b", red())],
            vec![],
            vec![cell("\u{E005}", CellAttrs::plain()), None, cell("x", CellAttrs::plain())],
        ],
    };
    let s = SBuffer::from_screen(&grid);
    assert_eq!(s.to_string(), "\u{E000}aa \u{E101}b\n\n\u{E400}\u{E300}\u{E005} x\n");
    assert_eq!(s.to_html(), "aa <span class=\"tc--fg-1\">b  \n      \n</span>\u{E005} x   ");
}

#[test]
fn long_runs_decode_to_their_cells() {
    let grid = ScreenGrid { cols: 300, rows: vec![(0..300).map(|_| cell("=", CellAttrs::plain())).collect()] };
    let s = SBuffer::from_screen(&grid);
    assert_eq!(s.to_string(), "\u{E000}\u{E3FF}=\u{E32B}=\n");
    assert_eq!(s.to_html(), "=".repeat(300));
}

#[test]
fn same_attributes_cost_no_second_code() {
    let grid = ScreenGrid { cols: 3, rows: vec![vec![cell("a", red()), cell("b", red()), cell("c", red())]] };
    assert_eq!(SBuffer::from_screen(&grid).to_string(), "\u{E000}\u{E101}abc\n");
}

#[test]
fn blank_cells_only_sync_background_and_underline() {
    let underlined_red = CellAttrs { underline: Underline::Double, ..red() };
    let grid = ScreenGrid { cols: 2, rows: vec![vec![cell(" ", underlined_red), cell("x", CellAttrs::plain())]] };
    assert_eq!(SBuffer::from_screen(&grid).to_string(), "\u{E000}\u{E405} \u{E405}x\n");
}

#[test]
fn final_line_feed_after_an_escaped_cell_is_optional() {
    let with_lf = SBuffer::new("\u{E000}a\u{E300}\u{E005}\n".into(), 4).to_html();
    let without = SBuffer::new("\u{E000}a\u{E300}\u{E005}".into(), 4).to_html();
    assert_eq!(with_lf, without);
    assert_eq!(without, "a\u{E005}  ");
}

#[test]
fn missing_final_line_feed_after_control_codes_is_read_as_present() {
    let with_lf = SBuffer::new("\u{E000}a\n\u{E400}\n".into(), 3).to_html();
    let without = SBuffer::new("\u{E000}a\n\u{E400}".into(), 3).to_html();
    assert_eq!(with_lf, "a  \n   ");
    assert_eq!(without, with_lf);
    let with_lf = SBuffer::new("\u{E000}hi\n\u{E401}\n".into(), 4).to_html();
    let without = SBuffer::new("\u{E000}hi\n\u{E401}".into(), 4).to_html();
    assert_eq!(without, "hi  \n    ");
    assert_eq!(without, with_lf);
}

fn stored(state: JsonValue, body: JsonValue) -> JsonValue {
    match decide_backend_push("id", body) {
        PushOutcome::Accepted(vars, strategy) => {
            let mut state = state;
            apply_merge(&mut state, vars, strategy);
            state
        }
        other => panic!("push refused: {:?}", other),
    }
}

fn field(v: JsonValue, key: &str) -> JsonValue {
    let JsonValue::Object(entries) = v else { panic!("not an object") };
    entries.into_iter().find(|(k, _)| k == key).map(|(_, v)| v).expect("no such field")
}

#[test]
fn split_push_leaves_the_same_state_as_whole_push() {
    let bar = WebhookPayloadBar::new(Some("left".into()), None, None);
    let snapshot = SBuffer::new("\u{E000}hi\n".into(), 2);
    let payload = make(2, 1, bar, snapshot);
    let (meta, content) = payload.clone().into_webhook_parts();
    let whole_vars = || field(payload.clone().into_webhook(), "merge_variables");
    // The content deep-merged into the metadata rebuilds the whole payload.
    let (meta_again, content_again) = payload.clone().into_webhook_parts();
    let mut vars = field(meta_again, "merge_variables");
    apply_merge(&mut vars, field(content_again, "merge_variables"), MergeStrategy::DeepMerge);
    assert_eq!(vars, whole_vars());
    // Onto a stored state, the two pushes deep-merge the whole payload into it.
    let old = || JsonValue::Object(vec![
        ("stale".into(), JsonValue::Bool(true)),
        ("data".into(), JsonValue::Object(vec![("content".into(), JsonValue::Str("old".into())), ("x".into(), JsonValue::Null)])),
    ]);
    let split = stored(stored(old(), meta), content);
    let mut expected = old();
    apply_merge(&mut expected, whole_vars(), MergeStrategy::DeepMerge);
    assert_eq!(split, expected);
    let JsonValue::Object(top) = &split else { panic!("state is not an object") };
    assert_eq!(top.len(), 2);
    assert_eq!(top[1].0, "data");
    // From an empty state the result is what the single push stores.
    let from_empty = stored(stored(JsonValue::Object(vec![]), payload.clone().into_webhook_parts().0), payload.clone().into_webhook_parts().1);
    assert_eq!(from_empty, stored(JsonValue::Object(vec![]), payload.into_webhook()));
}

fn keys_are_distinct(v: &JsonValue) -> bool {
    match v {
        JsonValue::Object(entries) => entries.iter().enumerate().all(|(i, (k, x))| {
            entries[..i].iter().all(|(k2, _)| k2 != k) && keys_are_distinct(x)
        }),
        JsonValue::Array(items) => items.iter().all(keys_are_distinct),
        _ => true,
    }
}

#[test]
fn merges_keep_keys_distinct() {
    let obj = |e: Vec<(&str, JsonValue)>| JsonValue::Object(e.into_iter().map(|(k, v)| (k.to_string(), v)).collect());
    let num = |n: &str| JsonValue::Number(n.into());
    for strategy in [MergeStrategy::Replace, MergeStrategy::DeepMerge, MergeStrategy::Stream { limit: 2 }] {
        let mut state = obj(vec![("a", obj(vec![("x", num("1"))])), ("b", JsonValue::Array(vec![num("1")]))]);
        let incoming = obj(vec![
            ("a", obj(vec![("x", num("2")), ("y", num("3"))])),
            ("b", JsonValue::Array(vec![num("2"), num("3")])),
            ("c", JsonValue::Null),
        ]);
        apply_merge(&mut state, incoming, strategy);
        assert!(keys_are_distinct(&state), "{strategy:?}: {state:?}");
        let JsonValue::Object(top) = &state else { panic!("state is not an object") };
        assert_eq!(top.iter().map(|(k, _)| k.as_str()).collect::<Vec<_>>(), ["a", "b", "c"]);
    }
}

#[test]
fn replace_forgets_the_old_state() {
    let mut state = JsonValue::Object(vec![("a".into(), JsonValue::Null)]);
    let incoming = JsonValue::Array(vec![]);
    apply_merge(&mut state, JsonValue::Array(vec![]), MergeStrategy::Replace);
    assert_eq!(state, incoming);
}

#[test]
fn run_encoding_is_never_longer_than_literal_cells() {
    for c in ['a', 'é', '█', '\u{E005}', '\u{1D400}'] {
        let literal_len = c.len_utf8() + if ('\u{E000}'..='\u{F8FF}').contains(&c) { 3 } else { 0 };
        for n in 1..=600usize {
            let grid = ScreenGrid { cols: n, rows: vec![(0..n).map(|_| cell(&c.to_string(), CellAttrs::plain())).collect()] };
            let s = SBuffer::from_screen(&grid).to_string();
            let body = &s['\u{E000}'.len_utf8()..s.len() - 1];
            assert!(body.len() <= n * literal_len, "{c:?} x {n}: {} bytes", body.len());
        }
    }
}

fn html_text(h: &str) -> String {
    let mut out = String::new();
    let mut rest = h;
    while let Some(c) = rest.chars().next() {
        if c == '<' {
            let end = rest.find('>').unwrap();
            rest = &rest[end + 1..];
        } else if c == '&' {
            let end = rest.find(';').unwrap();
            out.push(match &rest[1..end] {
                "lt" => '<',
                "gt" => '>',
                "amp" => '&',
                other => panic!("unexpected entity {other}"),
            });
            rest = &rest[end + 1..];
        } else {
            out.push(c);
            rest = &rest[c.len_utf8()..];
        }
    }
    out
}

#[test]
fn html_of_encoded_screen_shows_its_rows() {
    let bold = CellAttrs { intensity: trmnl_console::sbuffer::cell::Intensity::Bold, ..CellAttrs::plain() };
    let grid = ScreenGrid {
        cols: 5,
        rows: vec![
            vec![cell("<", bold), cell("&", red()), cell(">", CellAttrs::plain()), cell("", CellAttrs::plain())],
            vec![None, cell(" ", CellAttrs { bg: TermColor::PaletteIndex(4), ..CellAttrs::plain() })],
            vec![cell("e\u{301}", CellAttrs::plain()), cell("x", red()), cell("x", red()), cell("x", red()), cell("x", red())],
        ],
    };
    let html = SBuffer::from_screen(&grid).to_html();
    assert_eq!(html_text(&html), "<&>  \n     \néxxxx");
}

fn html_styled(h: &str) -> Vec<(char, Option<String>)> {
    let mut out = Vec::new();
    let mut span: Option<String> = None;
    let mut rest = h;
    while let Some(c) = rest.chars().next() {
        if c == '<' {
            let end = rest.find('>').unwrap();
            let tag = &rest[1..end];
            if tag == "/span" {
                span = None;
            } else if let Some(classes) = tag.strip_prefix("span class=\"").and_then(|t| t.strip_suffix('"')) {
                span = Some(classes.to_string());
            }
            rest = &rest[end + 1..];
        } else if c == '&' {
            let end = rest.find(';').unwrap();
            let ch = match &rest[1..end] {
                "lt" => '<',
                "gt" => '>',
                _ => '&',
            };
            out.push((ch, span.clone()));
            rest = &rest[end + 1..];
        } else {
            out.push((c, span.clone()));
            rest = &rest[c.len_utf8()..];
        }
    }
    out
}

#[test]
fn html_of_encoded_screen_styles_each_cell() {
    let bold = CellAttrs { intensity: trmnl_console::sbuffer::cell::Intensity::Bold, ..CellAttrs::plain() };
    let blue_bg = CellAttrs { bg: TermColor::PaletteIndex(4), ..CellAttrs::plain() };
    let grid = ScreenGrid {
        cols: 3,
        rows: vec![
            vec![cell("<", bold), cell("&", red()), cell("x", CellAttrs::plain())],
            vec![cell("y", blue_bg), cell(" ", blue_bg)],
        ],
    };
    let html = SBuffer::from_screen(&grid).to_html();
    let s = |x: &str| Some(x.to_string());
    assert_eq!(
        html_styled(&html),
        vec![
            ('<', s("tc--bold")),
            ('&', s("tc--fg-1")),
            ('x', None),
            ('\n', None),
            ('y', s("tc--bg-4")),
            (' ', s("tc--bg-4")),
            (' ', None),
        ]
    );
}

fn true_fg(r: f32, index: u8) -> CellAttrs {
    CellAttrs {
        fg: TermColor::TrueColorWithPaletteFallback(r.to_bits(), 0.5f32.to_bits(), 1.0f32.to_bits(), 1.0f32.to_bits(), index),
        ..CellAttrs::plain()
    }
}

#[test]
fn true_colors_compare_as_floats() {
    let zero = true_fg(0.0, 3).fg;
    let neg_zero = true_fg(-0.0, 3).fg;
    let nan = true_fg(f32::NAN, 3).fg;
    assert!(colors_equal(zero, neg_zero));
    assert!(!colors_equal(zero, true_fg(0.25, 3).fg));
    assert!(!colors_equal(zero, true_fg(0.0, 4).fg));
    assert!(!colors_equal(nan, nan));
    assert!(colors_equal(TermColor::PaletteIndex(2), TermColor::PaletteIndex(2)));
    assert!(!colors_equal(TermColor::PaletteIndex(2), true_fg(0.0, 2).fg));
}

#[test]
fn syncing_to_an_equal_color_emits_nothing_and_a_nan_color_always_emits() {
    let mut codes = Vec::new();
    let mut wire = CellAttrs::plain();
    apply_cell_attrs(&mut codes, &mut wire, &true_fg(0.0, 3), false);
    assert_eq!(codes, vec!['\u{E103}']);
    // -0.0 equals 0.0: the second cell needs no code, and the state keeps the first bits.
    apply_cell_attrs(&mut codes, &mut wire, &true_fg(-0.0, 3), false);
    assert_eq!(codes, vec!['\u{E103}']);
    assert_eq!(wire, true_fg(0.0, 3));
    // A NaN component equals nothing, itself included: every cell sets the color again.
    let nan = true_fg(f32::NAN, 5);
    apply_cell_attrs(&mut codes, &mut wire, &nan, false);
    apply_cell_attrs(&mut codes, &mut wire, &nan, false);
    assert_eq!(codes, vec!['\u{E103}', '\u{E105}', '\u{E105}']);
}
