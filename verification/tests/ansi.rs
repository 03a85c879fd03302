//! Colored terminal output.
use gitui::ansi::{ansi_to_lines, expand_indexed_colors};
use gitui::text::Color;

#[test]
fn test_plain_text() {
    let (lines, _) = ansi_to_lines("hello world");
    assert_eq!(lines.len(), 1);
    let spans = &lines[0].spans;
    assert_eq!(spans.len(), 1);
    assert_eq!(spans[0].content.as_str(), "hello world");
}

#[test]
fn test_multiline() {
    let (lines, _) = ansi_to_lines("line1\nline2\nline3");
    assert_eq!(lines.len(), 3);
    assert_eq!(lines[0].spans[0].content.as_str(), "line1");
    assert_eq!(lines[1].spans[0].content.as_str(), "line2");
    assert_eq!(lines[2].spans[0].content.as_str(), "line3");
}

#[test]
fn test_sgr_color() {
    // Red foreground
    let (lines, _) = ansi_to_lines("\x1b[31mred\x1b[0m");
    assert_eq!(lines.len(), 1);
    let spans = &lines[0].spans;
    assert_eq!(spans.len(), 1);
    assert_eq!(spans[0].content.as_str(), "red");
    assert_eq!(spans[0].style.fg, Some(Color::Red));
}

#[test]
fn test_sgr_rgb_color() {
    // RGB foreground
    let (lines, _) =
        ansi_to_lines("\x1b[38;2;200;100;50mrgb\x1b[0m");
    assert_eq!(lines.len(), 1);
    let spans = &lines[0].spans;
    assert_eq!(spans.len(), 1);
    assert_eq!(spans[0].content.as_str(), "rgb");
    assert_eq!(spans[0].style.fg, Some(Color::Rgb(200, 100, 50)));
}

#[test]
fn test_expand_xterm_indexed_colors_to_exact_rgb() {
    let input = &[
        "\x1b[38;5;197mred\x1b[0m",
        "\x1b[38;5;101mstring\x1b[0m",
        "\x1b[38;5;70msection\x1b[0m",
        "\x1b[38;5;238mtext\x1b[0m",
        "\x1b[48;5;232mbg\x1b[0m",
    ]
    .concat();
    let (mut lines, _) = ansi_to_lines(input);
    expand_indexed_colors(&mut lines);
    let spans = &lines[0].spans;

    assert_eq!(spans[0].style.fg, Some(Color::Rgb(255, 0, 95)));
    assert_eq!(spans[1].style.fg, Some(Color::Rgb(135, 135, 95)));
    assert_eq!(spans[2].style.fg, Some(Color::Rgb(95, 175, 0)));
    assert_eq!(spans[3].style.fg, Some(Color::Rgb(68, 68, 68)));
    assert_eq!(spans[4].style.bg, Some(Color::Rgb(8, 8, 8)));
}

#[test]
fn test_expand_preserves_configurable_ansi_palette() {
    let (mut lines, _) = ansi_to_lines("\x1b[38;5;9mred\x1b[0m");
    expand_indexed_colors(&mut lines);
    assert_eq!(
        lines[0].spans[0].style.fg,
        Some(Color::Indexed(9))
    );
}

#[test]
fn test_sgr_background() {
    // Green background
    let (lines, _) = ansi_to_lines("\x1b[42mgreen bg\x1b[0m");
    assert_eq!(lines.len(), 1);
    let spans = &lines[0].spans;
    assert_eq!(spans[0].style.bg, Some(Color::Green));
}

#[test]
fn test_erase_in_line_ignored() {
    // \x1b[0K should be ignored (erase in line)
    let (lines, _) =
        ansi_to_lines("\x1b[48;2;73;111;74m+\x1b[0m\x1b[48;2;73;111;74m\x1b[0K\x1b[0m");
    assert_eq!(lines.len(), 1);
    let spans = &lines[0].spans;
    // Should have "+" span with green bg, then a reset span
    assert!(spans.len() >= 1);
    // The "+" should be present
    let has_plus =
        spans.iter().any(|s| s.content.as_str() == "+");
    assert!(has_plus, "should contain '+'");
    // Should not contain any raw escape codes
    for span in spans {
        assert!(
            !span.content.contains('\x1b'),
            "should not contain raw escape: {:?}",
            span.content
        );
    }
}

#[test]
fn test_delta_style_output() {
    // Simulate real delta output
    let input = "\x1b[48;2;73;111;74m+\x1b[38;2;202;158;230mmod\x1b[38;2;198;208;245m \x1b[38;2;239;159;118mansi\x1b[38;2;148;156;187m;\x1b[0m\x1b[48;2;73;111;74m\x1b[0K\x1b[0m";
    let (lines, _) = ansi_to_lines(input);
    assert_eq!(lines.len(), 1);
    let spans = &lines[0].spans;
    // Should have multiple spans with different colors
    assert!(
        spans.len() >= 4,
        "expected >= 4 spans, got {}",
        spans.len()
    );
    // All content should be clean (no escape codes)
    for span in spans {
        assert!(!span.content.contains('\x1b'));
    }
    // First span should have green background (the "+")
    assert_eq!(spans[0].content.as_str(), "+");
    assert_eq!(spans[0].style.bg, Some(Color::Rgb(73, 111, 74)));
}

#[test]
fn test_mixed_content_and_escapes() {
    let input = "plain\x1b[1mbold\x1b[0mplain";
    let (lines, _) = ansi_to_lines(input);
    assert_eq!(lines.len(), 1);
    let spans = &lines[0].spans;
    assert_eq!(spans.len(), 3);
    assert_eq!(spans[0].content.as_str(), "plain");
    assert_eq!(spans[1].content.as_str(), "bold");
    assert!(spans[1].style.add_modifier.bold);
    assert_eq!(spans[2].content.as_str(), "plain");
}

#[test]
fn test_fg_inherited_after_reset_with_bg_restore() {
    // Simulate delta mid-line reset: sets bg+fg, resets, restores bg but not fg.
    // \x1b[48;2;0;40;0;38;2;200;200;200m  → bg+fg set
    // first\x1b[0m                          → reset
    // \x1b[48;2;0;40;0m                     → only bg restored
    // second\x1b[0m
    let input = "\x1b[48;2;0;40;0m\x1b[38;2;200;200;200mfirst\x1b[0m\x1b[48;2;0;40;0msecond\x1b[0m";
    let (lines, _) = ansi_to_lines(input);
    assert_eq!(lines.len(), 1);
    let spans = &lines[0].spans;
    let first =
        spans.iter().find(|s| s.content.as_str() == "first");
    let second =
        spans.iter().find(|s| s.content.as_str() == "second");
    assert!(first.is_some(), "should have 'first' span");
    assert!(second.is_some(), "should have 'second' span");
    let first_fg = first.unwrap().style.fg;
    let second_fg = second.unwrap().style.fg;
    assert_eq!(
        first_fg,
        Some(Color::Rgb(200, 200, 200)),
        "first span should have fg"
    );
    assert_eq!(
        second_fg, first_fg,
        "second span should inherit fg from first (delta mid-line reset bug)"
    );
}

#[test]
fn test_normalize_line_fg_fills_bg_spans_missing_fg() {
    // Simulate SBS delta: content with bg+rgb-fg, then reset, then
    // more content with bg only (no fg).  normalize_line_fg should
    // back-fill the missing fg from the rgb fg span.
    // \x1b[48;2;0;40;0;38;2;198;208;245mcontent\x1b[0m
    // \x1b[48;2;0;40;0mnofg\x1b[0m
    let input = "\x1b[48;2;0;40;0m\x1b[38;2;198;208;245mcontent\x1b[0m\x1b[48;2;0;40;0mnofg\x1b[0m";
    let (lines, _) = ansi_to_lines(input);
    assert_eq!(lines.len(), 1);
    let spans = &lines[0].spans;
    let content =
        spans.iter().find(|s| s.content.as_str() == "content");
    let nofg =
        spans.iter().find(|s| s.content.as_str() == "nofg");
    assert!(content.is_some());
    assert!(nofg.is_some());
    let expected_fg = Some(Color::Rgb(198, 208, 245));
    assert_eq!(
        content.unwrap().style.fg,
        expected_fg,
        "content span should have rgb fg"
    );
    assert_eq!(
        nofg.unwrap().style.fg,
        expected_fg,
        "nofg span should be back-filled with the same rgb fg"
    );
}

#[test]
fn test_normalize_line_fg_ignores_standard_color_gutter() {
    // Gutter uses std color 34 (blue) which should NOT be used as
    // content_fg. Only rgb fg should be considered.
    // delta resets after each gutter segment, then sets only bg.
    // Since there is no rgb fg in any bg span, content keeps fg=None.
    let input =
        "\x1b[34m\u{2502}\x1b[0m\x1b[48;2;0;40;0mnofg\x1b[0m";
    let (lines, _) = ansi_to_lines(input);
    assert_eq!(lines.len(), 1);
    let spans = &lines[0].spans;
    let nofg =
        spans.iter().find(|s| s.content.as_str() == "nofg");
    assert!(nofg.is_some());
    assert_eq!(
        nofg.unwrap().style.fg,
        None,
        "nofg span should keep fg=None when no rgb fg exists"
    );
}

#[test]
fn test_cross_line_fg_inheritance_for_sbs_wrap() {
    // Simulate delta SBS wrapping a long line across two output lines.
    // Real delta pattern: gutter uses blue + reset, then content uses
    // bg+rgb-fg (first line) or bg only (continuation, fg=None after reset).
    let input = &[
        "\x1b[34m\u{2502}\x1b[38;5;28m 16 \x1b[34m\u{2502}\x1b[0m",
        "\x1b[48;2;0;40;0;38;2;198;208;245mpart one",
        "\x1b[34m\u{21b5}\x1b[0m\n",
        "\x1b[34m\u{2502}\x1b[38;5;28m    \x1b[34m\u{2502}\x1b[0m",
        "\x1b[48;2;0;40;0mpart two",
        "\x1b[34m\u{21b5}\x1b[0m\n",
    ]
    .concat();
    let (lines, _) = ansi_to_lines(input);
    assert_eq!(lines.len(), 2);

    let spans1 = &lines[0].spans;
    let part1 =
        spans1.iter().find(|s| s.content.as_str() == "part one");
    assert!(part1.is_some());
    assert_eq!(
        part1.unwrap().style.fg,
        Some(Color::Rgb(198, 208, 245)),
        "line 1 content should have rgb fg"
    );

    let spans2 = &lines[1].spans;
    let part2 =
        spans2.iter().find(|s| s.content.as_str() == "part two");
    assert!(part2.is_some());
    assert_eq!(
        part2.unwrap().style.fg,
        Some(Color::Rgb(198, 208, 245)),
        "line 2 continuation should inherit rgb fg from line 1"
    );
}

#[test]
fn test_cross_line_fg_inheritance_stops_at_separator() {
    // A separator/header line (no bg content) should clear last_bg_fg,
    // preventing leakage into unrelated content below.
    let input = &[
        "\x1b[34m\u{2502}\x1b[38;5;28m 16 \x1b[34m\u{2502}\x1b[0m",
        "\x1b[48;2;0;40;0;38;2;198;208;245mreal content",
        "\x1b[34m\u{21b5}\x1b[0m\n",
        "\x1b[34m",
        "\u{2500}\u{2500}\u{2500}\u{2500}\u{2500}\u{2500}",
        "\u{2500}\u{2500}\u{2500}\u{2500}\u{2500}\u{2500}",
        "\x1b[0m\n",
        "\x1b[34m\u{2502}\x1b[38;5;28m  1 \x1b[34m\u{2502}\x1b[0m",
        "\x1b[48;2;0;40;0mother content",
        "\x1b[34m\u{21b5}\x1b[0m\n",
    ]
    .concat();
    let (lines, _) = ansi_to_lines(input);
    assert_eq!(lines.len(), 3);

    let spans3 = &lines[2].spans;
    let other = spans3
        .iter()
        .find(|s| s.content.as_str() == "other content");
    assert!(other.is_some());
    assert_eq!(
        other.unwrap().style.fg,
        None,
        "fg should not leak past a separator line"
    );
}

#[test]
fn test_line_level_bg_word_diff_mid_line() {
    // Delta: line-level red bg, word-diff gray bg on changed word.
    // After word-diff, delta restores line-level bg (red) before
    // the final reset. The line-level bg should be detected as red.
    let input = &[
        "\x1b[48;2;74;46;50m", // line-level red bg
        "hello ",
        "\x1b[48;2;204;204;204m", // word-diff gray bg
        "world",
        "\x1b[48;2;74;46;50m", // restore line-level red bg
        "  ",
        "\x1b[0m\n", // reset + newline
    ]
    .concat();
    let (lines, bgs) = ansi_to_lines(input);
    assert_eq!(lines.len(), 1);
    assert_eq!(bgs.len(), 1);
    // Line-level bg should be red (the last real bg set before end-of-line)
    assert_eq!(
        bgs[0],
        Some(Color::Rgb(74, 46, 50)),
        "line-level bg should be red, not word-diff gray"
    );
}

#[test]
fn test_line_level_bg_word_diff_at_start() {
    // Delta: word-diff gray bg at start, then line-level red bg
    // The line-level bg should be detected as red.
    let input = &[
        "\x1b[48;2;204;204;204m", // word-diff gray bg (first word changed)
        "hello",
        "\x1b[48;2;74;46;50m", // line-level red bg
        " world",
        "\x1b[0m\n",
    ]
    .concat();
    let (lines, bgs) = ansi_to_lines(input);
    assert_eq!(lines.len(), 1);
    assert_eq!(
        bgs[0],
        Some(Color::Rgb(74, 46, 50)),
        "line-level bg should be red even when word-diff appears first"
    );
}

#[test]
fn test_line_level_bg_no_bg() {
    // Line with no bg (separator/header) should have None
    let input = "\x1b[34m---\x1b[0m\n";
    let (lines, bgs) = ansi_to_lines(input);
    assert_eq!(lines.len(), 1);
    assert_eq!(bgs[0], None, "separator line should have no bg");
}

#[test]
fn test_line_level_bg_multiple_lines() {
    // Two lines: first with red bg, second with green bg
    let input = &[
        "\x1b[48;2;74;46;50mdeleted\x1b[0m\n",
        "\x1b[48;2;73;111;74madded\x1b[0m\n",
    ]
    .concat();
    let (lines, bgs) = ansi_to_lines(input);
    assert_eq!(lines.len(), 2);
    assert_eq!(bgs.len(), 2);
    assert_eq!(bgs[0], Some(Color::Rgb(74, 46, 50)));
    assert_eq!(bgs[1], Some(Color::Rgb(73, 111, 74)));
}

#[test]
fn test_line_level_bg_with_erase_in_line() {
    // Delta: content + \x1b[K] (erase-in-line) with line-level bg
    let input = &[
        "\x1b[48;2;73;111;74m",
        "+",
        "\x1b[38;2;202;158;230mmod",
        "\x1b[0m",
        "\x1b[48;2;73;111;74m",
        "\x1b[0K", // erase-in-line
        "\x1b[0m\n",
    ]
    .concat();
    let (lines, bgs) = ansi_to_lines(input);
    assert_eq!(lines.len(), 1);
    assert_eq!(
        bgs[0],
        Some(Color::Rgb(73, 111, 74)),
        "line-level bg should be green (from \x1b[K] region)"
    );
}
