//! Encoding terminal screens as SBuffer strings and rendering them as HTML.
use shadow_terminal::wezterm_term::color::ColorPalette;
use shadow_terminal::wezterm_term::{Terminal, TerminalConfiguration, TerminalSize};
use std::sync::Arc;
use trmnl_console::sbuffer::SBuffer;

#[derive(Debug)]
struct TestConfig;

impl TerminalConfiguration for TestConfig {
    fn color_palette(&self) -> ColorPalette {
        ColorPalette::default()
    }
}

fn sbuffer(cols: usize, rows: usize, ansi: &str) -> SBuffer {
    let mut term = Terminal::new(
        TerminalSize {
            cols,
            rows,
            ..TerminalSize::default()
        },
        Arc::new(TestConfig),
        "trmnl-console-test",
        "1",
        Box::new(Vec::new()),
    );
    term.advance_bytes(ansi.as_bytes());
    SBuffer::from_terminal(&term)
}

fn enc(cols: usize, rows: usize, ansi: &str) -> String {
    sbuffer(cols, rows, ansi).to_string()
}

fn html(cols: usize, rows: usize, ansi: &str) -> String {
    sbuffer(cols, rows, ansi).to_html()
}

fn html_raw(sbuffer: &str, cols: usize) -> String {
    SBuffer::new(sbuffer.into(), cols).to_html()
}

#[test]
fn captures_device_sized_terminal() {
        // From-capture is infallible; smoke test on the real device dimensions.
        let s = enc(114, 32, "");
        assert!(s.starts_with('\u{E000}'));
        assert_eq!(s.matches('\n').count(), 32);
}

#[test]
fn empty_terminal() {
        assert_eq!(enc(4, 2, ""), "\u{E000}\n\n");
}

#[test]
fn plain_text() {
        assert_eq!(enc(10, 2, "hi"), "\u{E000}hi\n\n");
}

#[test]
fn trailing_whitespace_is_trimmed() {
        assert_eq!(enc(10, 1, "hi   "), "\u{E000}hi\n");
}

#[test]
fn inner_whitespace_is_kept() {
        assert_eq!(enc(10, 1, "a b"), "\u{E000}a b\n");
}

#[test]
fn text_on_later_row() {
        assert_eq!(enc(10, 2, "ab\r\ncd"), "\u{E000}ab\ncd\n");
}

#[test]
fn html_specials_are_not_escaped_in_sbuffer() {
        assert_eq!(enc(10, 1, "<&>"), "\u{E000}<&>\n");
}

#[test]
fn no_rle_below_saving_threshold_ascii() {
        // 4 literal bytes vs 4 RLE bytes: not strictly smaller, stays literal.
        assert_eq!(enc(10, 1, "===="), "\u{E000}====\n");
}

#[test]
fn rle_at_saving_threshold_ascii() {
        // 5 cells => n = 4 (code outputs n+1 repetitions).
        assert_eq!(enc(10, 1, "====="), "\u{E000}\u{E304}=\n");
}

#[test]
fn rle_longer_run() {
        assert_eq!(enc(12, 1, "=========="), "\u{E000}\u{E309}=\n");
}

#[test]
fn no_rle_below_saving_threshold_multibyte() {
        // '█' is 3 UTF-8 bytes: 2 literals (6 bytes) == RLE (6 bytes), stays literal.
        assert_eq!(enc(10, 1, "██"), "\u{E000}██\n");
}

#[test]
fn rle_at_saving_threshold_multibyte() {
        assert_eq!(enc(10, 1, "███"), "\u{E000}\u{E302}█\n");
}

#[test]
fn rle_chunks_greedily_at_256() {
        let run = "=".repeat(300);
        // 256 cells (n = 255) + 44 cells (n = 43).
        assert_eq!(enc(300, 1, &run), "\u{E000}\u{E3FF}=\u{E32B}=\n");
}

#[test]
fn rle_chunks_multibyte_in_cells_not_bytes() {
        // The 256-cell limit of one RLE code is independent of the char's
        // UTF-8 length: 300 cells chunk as 256 + 44, same as for ASCII.
        let run = "█".repeat(300);
        assert_eq!(enc(300, 1, &run), "\u{E000}\u{E3FF}█\u{E32B}█\n");
}

#[test]
fn rle_applies_to_inner_spaces() {
        assert_eq!(enc(20, 1, "a          b"), "\u{E000}a\u{E309} b\n");
}

#[test]
fn fg_color_dangles_at_line_end() {
        // Foreground is invisible on blank cells, so it is not reset before
        // the line feed; decoders pad using the still-open state.
        assert_eq!(enc(10, 1, "\x1b[31mab"), "\u{E000}\u{E101}ab\n");
}

#[test]
fn fg_code_is_emitted_only_on_state_change() {
        assert_eq!(enc(10, 1, "\x1b[31ma\x1b[31mb"), "\u{E000}\u{E101}ab\n");
}

#[test]
fn attr_codes_follow_a_pending_run() {
        // Regression: attribute codes must not be emitted before the still
        // accumulating run of previous (default-attribute) cells.
        assert_eq!(enc(10, 1, "aa\x1b[31mbb"), "\u{E000}aa\u{E101}bb\n");
}

#[test]
fn attr_change_splits_a_same_char_run() {
        // Regression: an attribute change must split the run even when the
        // character stays the same.
        assert_eq!(enc(10, 1, "aa\x1b[31ma"), "\u{E000}aa\u{E101}a\n");
}

#[test]
fn bright_fg_color() {
        assert_eq!(enc(10, 1, "\x1b[91mx"), "\u{E000}\u{E109}x\n");
}

#[test]
fn indexed_256_fg_color() {
        assert_eq!(enc(10, 1, "\x1b[38;5;200mx"), "\u{E000}\u{E1C8}x\n");
}

#[test]
fn bg_color() {
        // Background renders on blank padding, so it must be normalized to
        // the (default) trailing cells before the line feed.
        assert_eq!(enc(10, 1, "\x1b[44mx"), "\u{E000}\u{E204}x\u{E401}\n");
}

#[test]
fn bold_toggles_on_and_off() {
        assert_eq!(
            enc(10, 1, "\x1b[1mB\x1b[0mn"),
            "\u{E000}\u{E402}B\u{E402}n\n"
        );
}

#[test]
fn dim_italic_underline_toggles() {
        // Per-cell changes are emitted in U+E402..=U+E405 order
        // (e.g. dim-off before italic-on for cell 'b'). Underline renders on
        // blank padding, so it is toggled off again before the line feed.
        assert_eq!(
            enc(10, 1, "\x1b[2ma\x1b[0m\x1b[3mb\x1b[0m\x1b[4mc"),
            "\u{E000}\u{E403}a\u{E403}\u{E404}b\u{E404}\u{E405}c\u{E405}\n"
        );
}

#[test]
fn code_emission_order_is_fg_bg_toggles() {
        // At the line end only the bg needs normalizing; fg and bold dangle.
        assert_eq!(
            enc(10, 1, "\x1b[31;44;1mx"),
            "\u{E000}\u{E101}\u{E204}\u{E402}x\u{E401}\n"
        );
}

#[test]
fn reverse_video_swaps_default_colors() {
        // Reverse video has no SBuffer code; the encoder resolves it by
        // swapping the effective colors. Default colors substitute their
        // standard palette indices: default-fg -> 0 (black), default-bg
        // -> 15 (white), so reversed default text is white-on-black.
        assert_eq!(
            enc(10, 1, "\x1b[7mab"),
            "\u{E000}\u{E10F}\u{E200}ab\u{E401}\n"
        );
}

#[test]
fn reverse_video_swaps_palette_colors() {
        // Red-on-blue reversed encodes as blue-on-red: fg <- 4, bg <- 1.
        assert_eq!(
            enc(10, 1, "\x1b[31;44;7mx"),
            "\u{E000}\u{E104}\u{E201}x\u{E401}\n"
        );
}

#[test]
fn full_row_keeps_state_across_line_feed() {
        // Row 0 is completely filled: no trailing empty space. The dangling
        // fg state is invisible on row 1's blank cells, so no reset is needed
        // there either.
        assert_eq!(enc(3, 2, "\x1b[31mabc"), "\u{E000}\u{E101}abc\n\n");
}

#[test]
fn bg_painted_empty_row_keeps_attributes() {
        // Erase-to-EOL paints the row with the current background (BCE). The
        // all-whitespace row is trimmed to nothing, but must carry bg 4 so that
        // decoders pad it correctly; row 1 is default again, so the bg must be
        // normalized back before its line feed.
        assert_eq!(enc(4, 2, "\x1b[44m\x1b[K"), "\u{E000}\u{E204}\n\u{E401}\n");
}

#[test]
fn pua_content_is_escaped() {
        assert_eq!(enc(10, 1, "\u{E005}"), "\u{E000}\u{E300}\u{E005}\n");
}

#[test]
fn rle_threshold_accounts_for_escape_overhead() {
        // A literal reserved char costs 3 (escape) + 3 (char) bytes per cell,
        // so RLE (6 bytes total) already wins for a run of 2.
        assert_eq!(enc(10, 1, "\u{E005}\u{E005}"), "\u{E000}\u{E301}\u{E005}\n");
}

#[test]
fn combining_mark_grapheme_is_nfc_composed() {
        // A cell may hold a multi-scalar grapheme (combining mark attached to
        // the previous char). One cell must encode as ONE character, or all
        // following columns shift. NFC composition preserves the glyph here:
        // "e" + U+0301 -> "é" (U+00E9).
        assert_eq!(enc(10, 1, "e\u{301}"), "\u{E000}é\n");
}

#[test]
fn non_composable_combining_mark_is_dropped() {
        // "x" + U+0332 (combining low line) has no precomposed form: only the
        // first scalar is emitted so the cell grid stays intact.
        assert_eq!(enc(10, 1, "x\u{332}"), "\u{E000}x\n");
}

#[test]
fn escape_char_as_content_is_escaped() {
        // The trickiest content char: U+E300 itself (escape == RLE base).
        assert_eq!(enc(10, 1, "\u{E300}"), "\u{E000}\u{E300}\u{E300}\n");
}

#[test]
fn rle_at_saving_threshold_4byte() {
        // U+1D400 (MATHEMATICAL BOLD CAPITAL A) is 4 UTF-8 bytes and width 1:
        // 2 literals (8 bytes) > RLE (7 bytes), so RLE already wins at 2.
        assert_eq!(
            enc(10, 1, "\u{1D400}\u{1D400}"),
            "\u{E000}\u{E301}\u{1D400}\n"
        );
}

#[test]
fn truecolor_degrades_to_default() {
        // Known v1 limitation: 24-bit SGR colors arrive as
        // TrueColorWithDefaultFallback and degrade to the default color.
        // The E400 is redundant (wire state was already default) but
        // harmless: the wire state tracks the ColorAttribute, not the
        // emitted code. Candidate for a byte-saving optimization later.
        assert_eq!(enc(10, 1, "\x1b[38;2;100;100;100mx"), "\u{E000}\u{E400}x\n");
}

#[test]
fn plain_text_is_padded_to_width() {
        assert_eq!(html(4, 2, "hi"), "hi  \n    ");
}

#[test]
fn html_specials_are_escaped() {
        assert_eq!(html(5, 1, "<&>"), "&lt;&amp;&gt;  ");
}

#[test]
fn fg_span_open_at_eof_contains_padding() {
        // The encoder lets fg dangle at the line end, so the state at the
        // (final) line feed still has fg 1 and the padding is rendered inside
        // the span. Mirrors test_fg_span_open_at_eof_contains_padding on the
        // Python side.
        assert_eq!(
            html(4, 1, "\x1b[31mab"),
            "<span class=\"tc--fg-1\">ab  </span>"
        );
}

#[test]
fn bg_span_contains_row_padding() {
        assert_eq!(
            html(4, 1, "\x1b[44m\x1b[K"),
            "<span class=\"tc--bg-4\">    </span>"
        );
}

#[test]
fn overlapping_fg_bg_produce_flat_spans() {
        assert_eq!(
            html(3, 1, "\x1b[31ma\x1b[44mb\x1b[33mc"),
            "<span class=\"tc--fg-1\">a</span>\
             <span class=\"tc--fg-1 tc--bg-4\">b</span>\
             <span class=\"tc--fg-3 tc--bg-4\">c</span>"
        );
}

#[test]
fn bold_span() {
        assert_eq!(
            html(6, 1, "\x1b[1mB\x1b[0mn"),
            "<span class=\"tc--bold\">B</span>n    "
        );
}

#[test]
fn rle_is_expanded() {
        assert_eq!(html(6, 1, "======"), "======");
}

#[test]
fn rle_expansion_is_escaped() {
        assert_eq!(html(6, 1, "<<<<<<"), "&lt;&lt;&lt;&lt;&lt;&lt;");
}

#[test]
fn span_continues_across_rows() {
        assert_eq!(
            html(3, 2, "\x1b[44m\x1b[K\r\n\x1b[K"),
            "<span class=\"tc--bg-4\">   \n   </span>"
        );
}

#[test]
fn pua_content_is_raw() {
        assert_eq!(html(3, 1, "\u{E005}"), "\u{E005}  ");
}

#[test]
fn overflowing_row_is_output_in_full() {
        // Row of 10 cells with an advertised width of 4: no padding, the
        // full row is still output.
        assert_eq!(html_raw("\u{E000}\u{E309}a", 4), "aaaaaaaaaa");
}

#[test]
fn escape_before_line_feed_is_a_normal_line_feed() {
        assert_eq!(html_raw("\u{E000}a\u{E300}\nb", 3), "a  \nb  ");
}

#[test]
fn rle_before_line_feed_is_a_normal_line_feed() {
        assert_eq!(html_raw("\u{E000}a\u{E303}\nb", 3), "a  \nb  ");
}

#[test]
fn dangling_escape_at_eof_is_ignored() {
        assert_eq!(html_raw("\u{E000}a\u{E300}", 3), "a  ");
}

#[test]
fn dangling_rle_at_eof_is_ignored() {
        assert_eq!(html_raw("\u{E000}a\u{E305}", 3), "a  ");
}

#[test]
fn dim_span() {
        assert_eq!(
            html(6, 1, "\x1b[2mD\x1b[0mn"),
            "<span class=\"tc--dim\">D</span>n    "
        );
}

#[test]
fn ital_span() {
        assert_eq!(
            html(6, 1, "\x1b[3mI\x1b[0mn"),
            "<span class=\"tc--ital\">I</span>n    "
        );
}

#[test]
fn undl_span() {
        assert_eq!(
            html(6, 1, "\x1b[4mU\x1b[0mn"),
            "<span class=\"tc--undl\">U</span>n    "
        );
}

#[test]
fn reverse_video_spans() {
        // Encodes as fg-15/bg-0 with the bg reset before the LF; the
        // dangling fg-15 keeps the padding in its own span.
        assert_eq!(
            html(4, 1, "\x1b[7mab"),
            "<span class=\"tc--fg-15 tc--bg-0\">ab</span>\
             <span class=\"tc--fg-15\">  </span>"
        );
}

#[test]
fn version_char_only() {
        assert_eq!(html_raw("\u{E000}", 5), "     ");
}

#[test]
fn trailing_lf_is_equivalent_to_no_trailing_lf() {
        assert_eq!(html_raw("\u{E000}hi\n", 4), html_raw("\u{E000}hi", 4));
}

#[test]
fn empty_middle_row() {
        assert_eq!(html_raw("\u{E000}a\n\nb", 3), "a  \n   \nb  ");
}

#[test]
fn fg_change_replaces_class() {
        assert_eq!(
            html_raw("\u{E000}\u{E101}a\u{E102}b", 2),
            "<span class=\"tc--fg-1\">a</span><span class=\"tc--fg-2\">b</span>"
        );
}

#[test]
fn reset_without_open_state_is_noop() {
        assert_eq!(html_raw("\u{E000}\u{E400}\u{E401}x", 1), "x");
}

#[test]
fn interleaved_toggles() {
        // bold on, italic on, bold off: the flat model re-opens with the
        // currently applied class set each time.
        assert_eq!(
            html_raw("\u{E000}\u{E402}a\u{E404}b\u{E402}c\u{E404}", 3),
            "<span class=\"tc--bold\">a</span>\
             <span class=\"tc--bold tc--ital\">b</span>\
             <span class=\"tc--ital\">c</span>"
        );
}

#[test]
fn class_order_is_canonical() {
        assert_eq!(
            html_raw(
                "\u{E000}\u{E101}\u{E202}\u{E402}\u{E403}\u{E404}\u{E405}x",
                1
            ),
            "<span class=\"tc--fg-1 tc--bg-2 tc--bold tc--dim tc--ital tc--undl\">x</span>"
        );
}

#[test]
fn color_class_is_decimal() {
        assert_eq!(
            html_raw("\u{E000}\u{E1C8}x", 1),
            "<span class=\"tc--fg-200\">x</span>"
        );
}

#[test]
fn color_class_zero_index() {
        // Guards against treating color index 0 as falsy in either decoder.
        assert_eq!(
            html_raw("\u{E000}\u{E100}x", 1),
            "<span class=\"tc--fg-0\">x</span>"
        );
}

#[test]
fn escape_outputs_control_char_raw() {
        assert_eq!(html_raw("\u{E000}\u{E300}\u{E101}", 1), "\u{E101}");
}

#[test]
fn escaped_escape() {
        assert_eq!(html_raw("\u{E000}\u{E300}\u{E300}", 1), "\u{E300}");
}

#[test]
fn rle_repeats_control_char_literally() {
        assert_eq!(
            html_raw("\u{E000}\u{E302}\u{E101}", 3),
            "\u{E101}\u{E101}\u{E101}"
        );
}

#[test]
fn rle_max_chunk() {
        assert_eq!(html_raw("\u{E000}\u{E3FF}=", 256), "=".repeat(256));
}

#[test]
fn fg_span_across_rows_with_reset() {
        // Row 0's padding is inside the span (state at LF has fg 1); the
        // reset after 'b' closes it, so row 1's padding is outside.
        assert_eq!(
            html_raw("\u{E000}\u{E101}a\nb\u{E400}", 3),
            "<span class=\"tc--fg-1\">a  \nb</span>  "
        );
}

#[test]
fn bg_padding_across_rows() {
        assert_eq!(
            html_raw("\u{E000}\u{E202}\nx", 3),
            "<span class=\"tc--bg-2\">   \nx  </span>"
        );
}
