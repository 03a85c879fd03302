//! Rendering what delta prints, and the diff that shows it.
use gitui::ansi::ansi_to_lines;
use gitui::asyncgit::sync::{CommitId, DiffLine, DiffLinePosition, DiffLineType, FileDiff, Hunk};
use gitui::asyncgit::diff::DiffType;
use gitui::components::async_delta::{
    pad_line_bg, process_bytes, process_output, wrap_line, AsyncDelta, DeltaParams, DeltaRequest,
    DeltaStage, DeltaStep, GitReply, LruCache, ProcessedDelta,
};
use gitui::components::diff::{
    get_line_to_add, DiffComponent, DiffMode, DiffStyle, DiffUpdate, VisibleLine,
};
use gitui::components::ScrollType;
use gitui::os_theme::ColorScheme;
use std::sync::Arc;
use gitui::text::{clone_spans, Color, Line, Span, Style};

fn line_from(spans: Vec<Span>) -> Line {
    Line { spans }
}

fn raw(content: String) -> Span {
    Span::styled(content, Style::new())
}

#[test]
fn test_wrap_line_exact_width() {
    let line = line_from(vec![raw("a".repeat(40))]);
    let wrapped = wrap_line(&line, 40);
    assert_eq!(
        wrapped.len(),
        1,
        "exact width should produce 1 line, got {}",
        wrapped.len()
    );
}

#[test]
fn test_wrap_line_over_width() {
    let line = line_from(vec![raw("a".repeat(41))]);
    let wrapped = wrap_line(&line, 40);
    assert_eq!(wrapped.len(), 2);
}

#[test]
fn test_wrap_line_multi_span_exact_width() {
    let line = line_from(vec![
        raw("a".repeat(20)),
        raw("b".repeat(20)),
    ]);
    let wrapped = wrap_line(&line, 40);
    assert_eq!(
        wrapped.len(),
        1,
        "multi-span exact width should produce 1 line, got {}",
        wrapped.len()
    );
}

/// What rebuilding the rows does: strip trailing
/// whitespace-only spans when content exceeds panel width,
/// then wrap.
fn simulate_trim_and_wrap(
    line: &Line,
    panel_width: usize,
) -> Vec<Line> {
    let content_len: usize = line
        .spans
        .iter()
        .map(|s| s.content.chars().count())
        .sum();
    let trimmed_line = if content_len > panel_width {
        let mut spans: Vec<Span> = clone_spans(&line.spans);
        while spans
            .last()
            .is_some_and(|s| s.content.trim().is_empty())
        {
            spans.pop();
        }
        line_from(spans)
    } else {
        line.clone()
    };
    wrap_line(&trimmed_line, panel_width)
}

#[test]
fn test_blank_line_preserves_background() {
    // Simulate: \x1b[42m \x1b[0K \x1b[0m → green bg space
    // ansi_to_lines produces: Span(" ", bg=green) + Span(" ", bg=green, from \x1b[K])
    let green = Style::new().bg(Color::Green);
    let line = line_from(vec![
        Span::styled(String::from(" ".to_string()), green),
        Span::styled(String::from(" ".to_string()), green),
    ]);
    let wrapped = simulate_trim_and_wrap(&line, 40);
    // Blank line should be preserved (not stripped)
    assert_eq!(
        wrapped.len(),
        1,
        "blank line with bg should be 1 line"
    );
    // Should have background color
    let has_bg =
        wrapped[0].spans.iter().any(|s| s.style.bg.is_some());
    assert!(has_bg, "blank line should have background color");
}

#[test]
fn test_full_width_line_no_extra_line() {
    // Simulate: 40 chars of content + 1 trailing space from \x1b[K]
    let green = Style::new().bg(Color::Green);
    let mut spans: Vec<Span> = (0..40)
        .map(|i| {
            Span::styled(
                String::from(format!("{}", i % 10)),
                Style::new(),
            )
        })
        .collect();
    // Trailing space from \x1b[K]
    spans.push(Span::styled(String::from(" ".to_string()), green));
    let line = line_from(spans);
    let wrapped = simulate_trim_and_wrap(&line, 40);
    assert_eq!(
        wrapped.len(),
        1,
        "full-width line + trailing space should produce 1 line, got {}",
        wrapped.len()
    );
}

#[test]
fn test_over_width_line_wraps_correctly() {
    // 41 chars + trailing space from \x1b[K]
    let green = Style::new().bg(Color::Green);
    let mut spans: Vec<Span> = (0..41)
        .map(|i| {
            Span::styled(
                String::from(format!("{}", i % 10)),
                Style::new(),
            )
        })
        .collect();
    spans.push(Span::styled(String::from(" ".to_string()), green));
    let line = line_from(spans);
    let wrapped = simulate_trim_and_wrap(&line, 40);
    assert_eq!(
        wrapped.len(),
        2,
        "41 chars should wrap into 2 lines"
    );
}

#[test]
fn test_pad_line_bg_scans_backwards_past_reset_span() {
    // Simulate what delta produces:
    // content with bg, then a reset span (no bg), then need padding
    let bg_style = Style::new().bg(Color::Green);
    let reset_style = Style::new();
    let line = line_from(vec![
        Span::styled(String::from("hello".to_string()), bg_style),
        Span::styled(String::from("".to_string()), reset_style),
    ]);
    let padded = pad_line_bg(line, 10, false, None);
    let total_width: usize = padded
        .spans
        .iter()
        .map(|s| s.content.chars().count())
        .sum();
    assert_eq!(total_width, 10, "should be padded to width 10");
    // The padding span should have the bg color
    let last = padded.spans.last().unwrap();
    assert_eq!(
        last.style.bg,
        Some(Color::Green),
        "padding span should carry the bg color"
    );
}

#[test]
fn test_pad_line_bg_long_line_sublines_have_bg() {
    // Simulate a 250-char line that wraps into sublines at width=80
    // All spans have bg color (like delta content lines)
    let bg_style = Style::new().bg(Color::Blue);
    let reset_style = Style::new();
    // Build: [gutter(no bg, 10 chars)] [content(bg, 230 chars)] [reset(no bg)]
    let line = line_from(vec![
        Span::styled(String::from("G".repeat(10)), reset_style),
        Span::styled(String::from("C".repeat(230)), bg_style),
        Span::styled(String::from("".to_string()), reset_style),
    ]);
    let wrapped = wrap_line(&line, 80);
    // Should wrap into ceil(240/80)=3 sublines
    assert_eq!(
        wrapped.len(),
        3,
        "240 chars at width=80 → 3 sublines"
    );

    // Each subline that is less than 80 wide should be paddable
    for (i, subline) in wrapped.iter().enumerate() {
        let w: usize = subline
            .spans
            .iter()
            .map(|s| s.content.chars().count())
            .sum();
        let padded =
            pad_line_bg(subline.clone(), 80, false, None);
        let pw: usize = padded
            .spans
            .iter()
            .map(|s| s.content.chars().count())
            .sum();
        if w < 80 {
            assert_eq!(
                pw, 80,
                "subline {i} (w={w}) should be padded to 80"
            );
            assert_eq!(
                padded.spans.last().unwrap().style.bg,
                Some(Color::Blue),
                "subline {i} padding should have bg color"
            );
        } else {
            assert_eq!(
                pw, w,
                "full subline {i} should not be changed"
            );
        }
    }
}

#[test]
fn test_pad_line_bg_trailing_arrow_gets_bg_even_at_full_width() {
    // SBS delta: [content with bg][→ no-bg], total == panel_width.
    // The → should receive the bg color even though no extra padding is needed.
    let bg_style = Style::new().bg(Color::Green);
    let reset_style = Style::new();
    let line = line_from(vec![
        Span::styled(
            String::from("123456789".to_string()),
            bg_style,
        ),
        Span::styled(String::from("→".to_string()), reset_style),
    ]);
    let padded = pad_line_bg(line, 10, false, None);
    let arrow =
        padded.spans.iter().find(|s| s.content.as_str() == "→");
    assert!(arrow.is_some(), "should have → span");
    assert_eq!(
        arrow.unwrap().style.bg,
        Some(Color::Green),
        "→ span should have bg applied"
    );
}

#[test]
fn test_pad_line_bg_sbs_no_bleed_across_panels() {
    // Manually constructed SBS line matching real ansi_to_lines output.
    // ansi_to_lines parses \x1b[34m as Color::Blue (not Indexed(34)),
    // and the last_bg_fg mechanism can overwrite the │ span's fg to rgb.
    let red_bg = Style::new()
        .bg(Color::Rgb(74, 46, 50))
        .fg(Color::Rgb(231, 130, 132));
    let blue_gutter = Style::new().fg(Color::Blue);
    let reset = Style::new();
    let line = line_from(vec![
        // Left panel gutter
        Span::styled(
            String::from("\u{2502}".to_string()),
            blue_gutter,
        ),
        Span::styled(
            String::from("  1 ".to_string()),
            Style::new().fg(Color::Indexed(88)),
        ),
        Span::styled(
            String::from("\u{2502}".to_string()),
            blue_gutter,
        ),
        // Left panel content with red bg
        Span::styled(
            String::from("deleted content".to_string()),
            red_bg,
        ),
        // Reset span (from \x1b[0m)
        Span::styled(String::from("".to_string()), reset),
        // Middle separator │ (may have fg overwritten by last_bg_fg)
        Span::styled(
            String::from("\u{2502}".to_string()),
            Style::new().fg(Color::Rgb(231, 130, 132)),
        ),
        // Right panel gutter
        Span::styled(
            String::from("    ".to_string()),
            Style::new().fg(Color::Indexed(28)),
        ),
        Span::styled(
            String::from("\u{2502}".to_string()),
            blue_gutter,
        ),
    ]);
    let padded = pad_line_bg(line.clone(), 80, true, None);
    // No gutter/decoration span should have left panel's red bg
    for span in &padded.spans {
        if span.style.bg.is_none()
            || matches!(
                span.style.bg,
                Some(Color::Rgb(74, 46, 50))
            ) {
            // Check │ characters
            if span.content.chars().any(|c| c == '\u{2502}') {
                assert_ne!(
                    span.style.bg,
                    Some(Color::Rgb(74, 46, 50)),
                    "│ gutter should not have left panel bg"
                );
            }
            // Check indexed-fg spans (line numbers)
            if matches!(span.style.fg, Some(Color::Indexed(_))) {
                assert_ne!(
                    span.style.bg,
                    Some(Color::Rgb(74, 46, 50)),
                    "indexed-fg span should not have left panel bg"
                );
            }
            // Check Blue-fg spans (│ gutter)
            if span.style.fg == Some(Color::Blue) {
                assert_ne!(
                    span.style.bg,
                    Some(Color::Rgb(74, 46, 50)),
                    "blue-fg │ should not have left panel bg"
                );
            }
        }
    }
}

#[test]
fn test_pad_line_bg_sbs_right_panel_pads_independently() {
    // SBS delta line: left panel empty, right panel has green bg.
    // The right panel should be padded with its own bg color.
    let blue_gutter = Style::new().fg(Color::Indexed(34));
    let green_bg = Style::new()
        .bg(Color::Rgb(73, 111, 74))
        .fg(Color::Rgb(198, 208, 245));
    let reset = Style::new();
    let line = line_from(vec![
        // Left panel gutter + empty content
        Span::styled(
            String::from("\u{2502}".to_string()),
            blue_gutter,
        ),
        Span::styled(
            String::from("    ".to_string()),
            Style::new().fg(Color::Indexed(88)),
        ),
        Span::styled(
            String::from("\u{2502}".to_string()),
            blue_gutter,
        ),
        Span::styled(
            String::from(
                "                                  ".to_string(),
            ),
            reset,
        ),
        // Right panel gutter
        Span::styled(
            String::from("\u{2502}".to_string()),
            blue_gutter,
        ),
        Span::styled(
            String::from("  1 ".to_string()),
            Style::new().fg(Color::Indexed(28)),
        ),
        Span::styled(
            String::from("\u{2502}".to_string()),
            blue_gutter,
        ),
        // Right panel content with green bg
        Span::styled(
            String::from("added content".to_string()),
            green_bg,
        ),
    ]);
    let padded = pad_line_bg(line.clone(), 80, true, None);
    // The last bg span should be green
    let last_bg_span = padded
        .spans
        .iter()
        .find(|s| s.style.bg == Some(Color::Rgb(73, 111, 74)));
    assert!(
        last_bg_span.is_some(),
        "should have green bg content"
    );
    // Padding should be green, not from left panel
    if let Some(pad_span) = padded.spans.last() {
        if pad_span.content.chars().all(|c| c == ' ')
            && !pad_span.content.is_empty()
        {
            assert_eq!(
                pad_span.style.bg,
                Some(Color::Rgb(73, 111, 74)),
                "padding should have green bg from right panel"
            );
        }
    }
}

#[test]
fn test_pad_line_bg_sbs_gutter_not_affected() {
    // Parse real delta SBS output where left has deleted content,
    // right has only gutter (│    │). After ansi_to_lines, the blue
    // │ characters are merged into adjacent spans, leaving only
    // indexed-color spans with no bg as gutter markers.
    let input = [
        "\x1b[34m\x1b[38;5;88m  1 \x1b[34m\x1b[0m",
        "\x1b[48;2;74;46;50;38;2;231;130;132mdeleted content\x1b[0m",
        "\x1b[34m\x1b[38;5;28m    \x1b[34m\x1b[0m",
        "\n",
    ].concat();
    let (parsed, _) = ansi_to_lines(&input);
    assert_eq!(parsed.len(), 1);
    let padded =
        pad_line_bg(parsed[0].clone(), 80, true, None);
    // No span with indexed fg should have left panel's red bg
    for span in &padded.spans {
        if matches!(span.style.fg, Some(Color::Indexed(_))) {
            assert_ne!(
                span.style.bg,
                Some(Color::Rgb(74, 46, 50)),
                "indexed-fg gutter span should not have left panel bg"
            );
        }
    }
}

#[test]
fn test_pad_line_bg_sbs_piped_gutter_not_colored() {
    // Parse real delta SBS output with │ gutter characters.
    // Left has red bg content, right has only gutter (│    │).
    // The │ between panels must not get the left panel's red bg.
    let input = [
        "\x1b[34m\u{2502}\x1b[38;5;88m  1 \x1b[34m\u{2502}\x1b[0m",
        "\x1b[48;2;74;46;50;38;2;231;130;132mdeleted content\x1b[0m",
        "\x1b[34m\u{2502}\x1b[38;5;28m    \x1b[34m\u{2502}\x1b[0m",
        "\n",
    ].concat();
    let (parsed, _) = ansi_to_lines(&input);
    assert_eq!(parsed.len(), 1);
    let padded =
        pad_line_bg(parsed[0].clone(), 80, true, None);
    // Every │ span and every indexed-fg span must NOT have red bg
    for span in &padded.spans {
        if span.content.chars().any(|c| c == '\u{2502}') {
            assert_ne!(
                span.style.bg,
                Some(Color::Rgb(74, 46, 50)),
                "│ gutter span must not have left panel bg"
            );
        }
        if matches!(span.style.fg, Some(Color::Indexed(_))) {
            assert_ne!(
                span.style.bg,
                Some(Color::Rgb(74, 46, 50)),
                "indexed-fg gutter span must not have left panel bg"
            );
        }
    }
}

#[test]
fn test_pad_line_bg_sbs_both_panels_with_bg() {
    // Parse delta SBS output where both panels have bg content.
    // Left panel: red bg (deleted), Right panel: green bg (added).
    // Each panel should pad with its own bg color.
    let input = [
        "\x1b[34m\u{2502}\x1b[38;5;88m  1 \x1b[34m\u{2502}\x1b[0m",
        "\x1b[48;2;74;46;50;38;2;231;130;132mdeleted\x1b[0m",
        "\x1b[34m\u{2502}\x1b[38;5;28m  1 \x1b[34m\u{2502}\x1b[0m",
        "\x1b[48;2;73;111;74;38;2;198;208;245madded\x1b[0m",
        "\n",
    ].concat();
    let (parsed, _) = ansi_to_lines(&input);
    assert_eq!(parsed.len(), 1);
    let padded =
        pad_line_bg(parsed[0].clone(), 80, true, None);
    // Find the green bg span (right panel)
    let green_bg = padded
        .spans
        .iter()
        .find(|s| s.style.bg == Some(Color::Rgb(73, 111, 74)));
    assert!(green_bg.is_some(), "should have green bg content");
    // Find the red bg span (left panel)
    let red_bg = padded
        .spans
        .iter()
        .find(|s| s.style.bg == Some(Color::Rgb(74, 46, 50)));
    assert!(red_bg.is_some(), "should have red bg content");
    // │ gutter spans must not have red bg
    for span in &padded.spans {
        if span.content.chars().any(|c| c == '\u{2502}') {
            assert_ne!(
                span.style.bg,
                Some(Color::Rgb(74, 46, 50)),
                "│ must not have left panel bg"
            );
        }
    }
}

#[test]
fn test_pad_line_bg_sbs_arrow_still_gets_bg() {
    // In non-SBS mode (or within a panel), the ↵ arrow after bg
    // content should still receive the bg color. SBS boundary
    // detection must not break this.
    let bg_style = Style::new()
        .bg(Color::Rgb(74, 46, 50))
        .fg(Color::Rgb(231, 130, 132));
    let reset = Style::new();
    let line = line_from(vec![
        Span::styled(String::from("content".to_string()), bg_style),
        Span::styled(String::from("\u{21b5}".to_string()), reset),
    ]);
    // Non-SBS: arrow gets bg
    let padded = pad_line_bg(line.clone(), 20, false, None);
    let arrow = padded
        .spans
        .iter()
        .find(|s| s.content.chars().any(|c| c == '\u{21b5}'));
    assert!(arrow.is_some());
    assert_eq!(
        arrow.unwrap().style.bg,
        Some(Color::Rgb(74, 46, 50)),
        "↵ arrow should get bg in non-SBS mode"
    );
}

#[test]
fn test_pad_line_bg_uses_dominant_bg_not_word_highlight() {
    // A wrapped sub-line where only "ANGED" (word highlight gray bg)
    // has bg. The dominant_bg from the original line (red) is passed
    // explicitly. pad_line_bg should use red for padding.
    let gray_bg = Style::new()
        .bg(Color::Rgb(204, 204, 204))
        .fg(Color::Rgb(255, 0, 0));
    let line = line_from(vec![
        // Word highlight span (the only bg on this sub-line)
        Span::styled(String::from("ANGED".to_string()), gray_bg),
    ]);
    let padded = pad_line_bg(
        line,
        35,
        false,
        Some(Color::Rgb(74, 46, 50)),
    );
    // Padding span should have red bg (dominant), not gray bg (word highlight)
    for span in &padded.spans {
        if span.content.chars().all(|c| c == ' ')
            && !span.content.is_empty()
        {
            assert_eq!(
                span.style.bg,
                Some(Color::Rgb(74, 46, 50)),
                "padding should use dominant (red) bg, not word-highlight (gray) bg"
            );
        }
    }
}

#[test]
fn test_line_break() {
    let diff_line = DiffLine {
        content: "".to_string(),
        line_type: DiffLineType::Add,
        position: DiffLinePosition { old_lineno: None, new_lineno: None },
    };
    let shown = VisibleLine {
        hunk: 0,
        line: 0,
        selected: false,
        selected_hunk: false,
        end_of_hunk: false,
    };

    {
        let spans = get_line_to_add(4, &diff_line, shown, "¶", 0, 1);
        let last = spans.last().unwrap();
        assert_eq!(last.content, "¶\n");
        assert_eq!(last.style, DiffStyle::Line(DiffLineType::Add, false));
    }
    {
        let spans = get_line_to_add(4, &diff_line, shown, "+", 0, 1);
        let last = spans.last().unwrap();
        assert_eq!(last.content, "+\n");
        assert_eq!(last.style, DiffStyle::Line(DiffLineType::Add, false));
    }
}

#[test]
fn lines_are_drawn_without_tabs_and_scrolled_columns() {
    let line = DiffLine {
        content: "\ta\u{4e16}b".to_string(),
        line_type: DiffLineType::Context,
        position: DiffLinePosition { old_lineno: Some(7), new_lineno: None },
    };
    let shown = VisibleLine {
        hunk: 0,
        line: 0,
        selected: true,
        selected_hunk: true,
        end_of_hunk: true,
    };
    let texts = |right: usize| -> Vec<String> {
        get_line_to_add(14, &line, shown, "+", right, 2).into_iter().map(|s| s.content).collect()
    };
    assert_eq!(texts(0), vec!["\u{2514}", " 7    ", "  a\u{4e16}b   \n"]);
    assert_eq!(texts(3)[2], "\u{4e16}b      \n");
    assert_eq!(texts(4)[2], "\u{4e16}b      \n");
    assert_eq!(texts(5)[2], "b       \n");
}

fn diff_line(line_type: DiffLineType, old: Option<u32>, new: Option<u32>, content: &str) -> DiffLine {
    DiffLine {
        content: content.to_string(),
        line_type,
        position: DiffLinePosition { old_lineno: old, new_lineno: new },
    }
}

/// The diff of a file of ten lines whose fourth line was changed.
fn changed_fourth_line() -> FileDiff {
    let mut lines = vec![diff_line(DiffLineType::Header, None, None, "@@ -1,7 +1,7 @@")];
    for n in 1..=3 {
        lines.push(diff_line(DiffLineType::Context, Some(n), Some(n), &format!("line{n}")));
    }
    lines.push(diff_line(DiffLineType::Delete, Some(4), None, "line4"));
    lines.push(diff_line(DiffLineType::Add, None, Some(4), "LINE4_CHANGED"));
    for n in 5..=7 {
        lines.push(diff_line(DiffLineType::Context, Some(n), Some(n), &format!("line{n}")));
    }
    FileDiff {
        lines: lines.len(),
        hunks: vec![Hunk { header_hash: 11, lines }],
        untracked: false,
        sizes: (61, 69),
        size_delta: 8,
    }
}

#[test]
fn test_current_line_number_unified() {
    let mut diff_comp = DiffComponent::new(false, DiffMode::DeltaSideBySide);
    diff_comp.toggle_diff_mode(true);
    assert!(!diff_comp.is_delta_preview());
    diff_comp.set_area(122, 42);

    let diff = changed_fourth_line();
    assert!(!diff.hunks.is_empty());
    let target = diff
        .hunks
        .iter()
        .flat_map(|h| h.lines.iter())
        .enumerate()
        .find(|(_, l)| l.line_type == DiffLineType::Add)
        .map(|(i, _)| i)
        .expect("an Add line exists");

    let (then, _) = diff_comp.update("f.txt".to_string(), true, diff, DiffType::WorkDir, 1);
    assert_eq!(then, DiffUpdate::Done);

    for _ in 0..target {
        diff_comp.move_selection(ScrollType::Down);
    }
    assert_eq!(
        diff_comp.current_line_number(),
        Some(4),
        "cursor on changed line should resolve to its new_lineno"
    );

    for _ in 0..target {
        diff_comp.move_selection(ScrollType::Up);
    }
    assert_eq!(diff_comp.current_line_number(), None, "hunk header has no new_lineno");
}

fn cached_result(text: &str) -> ProcessedDelta {
    ProcessedDelta {
        display_lines: Arc::new(vec![line_from(vec![raw(text.to_string())])]),
        display_hunks: Arc::new(vec![0]),
        display_positions: Arc::new(vec![None]),
        line_level_bgs: Arc::new(vec![None]),
    }
}

#[test]
fn lru_cache_is_weight_bounded_and_results_are_shared() {
    let first = cached_result("first");
    let shared = first.share();
    assert!(Arc::ptr_eq(&first.display_lines, &shared.display_lines));

    let mut cache = LruCache::new(first.estimated_size() + 1);
    cache.insert(1, first);
    cache.insert(2, cached_result("second"));

    assert!(cache.get(1).is_none());
    assert!(cache.get(2).is_some());
}

#[test]
fn used_renders_stay_longest_in_the_cache() {
    let size = cached_result("a").estimated_size();
    let mut cache = LruCache::new(2 * size);
    cache.insert(1, cached_result("a"));
    cache.insert(2, cached_result("b"));
    assert!(cache.get(1).is_some());
    cache.insert(3, cached_result("c"));
    assert!(cache.get(2).is_none());
    assert_eq!(cache.get(1).unwrap().display_lines[0].spans[0].content, "a");
    assert_eq!(cache.get(3).unwrap().display_lines[0].spans[0].content, "c");
}

#[test]
fn too_heavy_renders_are_not_cached_but_delivered() {
    let mut cache = LruCache::new(1);
    cache.insert(1, cached_result("heavy"));
    assert!(cache.get(1).is_none());
}

#[test]
fn completed_results_are_selected_by_requested_key() {
    let mut delta = AsyncDelta::new();
    let current: u64 = 1;
    let stale: u64 = 2;
    assert_eq!(delta.request(stale), DeltaRequest::Spawn);
    assert_eq!(delta.request(current), DeltaRequest::Spawn);
    delta.finish(current, Some(cached_result("current")));
    // an older job ends after the current one
    delta.finish(stale, Some(cached_result("stale")));

    let result = delta.take_if_matches(current).unwrap();
    assert_eq!(result.display_lines[0].spans[0].content, "current");
}

#[test]
fn a_render_on_its_way_is_not_started_twice() {
    let mut delta = AsyncDelta::new();
    assert!(!delta.is_pending());
    assert_eq!(delta.request(5), DeltaRequest::Spawn);
    assert_eq!(delta.request(5), DeltaRequest::InFlight);
    assert!(delta.is_pending());
    assert!(delta.is_delta_pending(5) && !delta.is_delta_pending(6));
    delta.finish(5, None);
    assert!(!delta.is_pending());
    assert!(delta.take_if_matches(5).is_none());
    assert_eq!(delta.request(5), DeltaRequest::Spawn);
    delta.finish(5, Some(cached_result("done")));
    assert_eq!(delta.request(5), DeltaRequest::Hit(cached_result("done")));
    assert!(delta.request_sync(5, None).is_none());
    assert!(delta.request_sync(6, Some(cached_result("at once"))).is_some());
    assert_eq!(delta.request(6), DeltaRequest::Hit(cached_result("at once")));
}

fn make_params(path: &str, diff_type: DiffType) -> DeltaParams {
    DeltaParams {
        path: path.to_string(),
        diff_type,
        width: 80,
        side_by_side: false,
        diff_hash: 0,
    }
}

fn strings(items: &[&str]) -> Vec<String> {
    items.iter().map(|s| s.to_string()).collect()
}

#[test]
fn deleted_files_are_named_behind_a_separator() {
    assert_eq!(
        make_params("gone.txt", DiffType::WorkDir).first_step(),
        DeltaStep::Git(DeltaStage::Plain, strings(&["diff", "--", "gone.txt"]))
    );
    assert_eq!(
        make_params("gone.txt", DiffType::Stage).first_step(),
        DeltaStep::Git(DeltaStage::Plain, strings(&["diff", "--cached", "--", "gone.txt"]))
    );
    assert_eq!(make_params("", DiffType::Stage).first_step(), DeltaStep::Nothing);
}

fn reply(success: bool, differs: bool, empty: bool) -> GitReply {
    GitReply { started: true, success, differs, empty }
}

#[test]
fn diffs_fall_back_once() {
    let work = make_params("new.txt", DiffType::WorkDir);
    let untracked = DeltaStep::Git(
        DeltaStage::Untracked,
        strings(&["diff", "--no-index", "/dev/null", "new.txt"]),
    );
    assert_eq!(
        work.next_step(DeltaStage::Plain, reply(true, false, true), ColorScheme::Unknown),
        untracked
    );
    assert_eq!(
        work.next_step(DeltaStage::Untracked, reply(false, true, false), ColorScheme::Dark),
        DeltaStep::Delta(strings(&[
            "--file-style",
            "omit",
            "--line-numbers",
            "--dark",
            "--true-color=always"
        ]))
    );
    assert_eq!(
        work.next_step(DeltaStage::Untracked, reply(false, true, true), ColorScheme::Dark),
        DeltaStep::Nothing
    );

    let root = make_params("a.rs", DiffType::Commit(CommitId { high: 0, low: 0 }));
    match root.next_step(DeltaStage::Plain, reply(false, false, true), ColorScheme::Light) {
        DeltaStep::Git(DeltaStage::Root, args) => {
            assert_eq!(args[1], "4b825dc642cb6eb9a060e54bf899d15f3f9381b1");
            assert_eq!(args[2], "0".repeat(40));
        }
        _ => panic!("a commit without parent is compared with the empty tree"),
    }
    assert_eq!(
        root.next_step(DeltaStage::Root, reply(false, false, true), ColorScheme::Light),
        DeltaStep::Nothing
    );
}

#[test]
fn narrow_panels_ask_for_twenty_columns() {
    let mut params = make_params("a.rs", DiffType::WorkDir);
    params.side_by_side = true;
    params.width = 7;
    assert_eq!(
        params.next_step(DeltaStage::Plain, reply(true, false, false), ColorScheme::Light),
        DeltaStep::Delta(strings(&[
            "--file-style",
            "omit",
            "--line-numbers",
            "--width",
            "20",
            "--side-by-side",
            "--light",
            "--true-color=always"
        ]))
    );
}

#[test]
fn output_is_cut_at_its_blank_start_and_wrapped_by_columns() {
    let mut params = make_params("f.txt", DiffType::WorkDir);
    params.width = 40;
    let output = format!("\n\n{}\n", "中".repeat(45));
    let shown = process_output(&params, Some(&output), None).unwrap();
    assert_eq!(process_bytes(&params, Some(output.as_bytes()), None).as_ref(), Some(&shown));
    let rows: Vec<String> = shown
        .display_lines
        .iter()
        .map(|l| l.spans.iter().map(|s| s.content.as_str()).collect())
        .collect();
    let counts: Vec<usize> =
        rows.iter().map(|r: &String| r.chars().filter(|c| *c == '中').count()).collect();
    assert_eq!(counts, vec![20, 20, 5]);
    assert_eq!(shown.display_hunks.len(), 3);
    assert_eq!(shown.display_positions.len(), 3);

}

#[test]
fn a_delta_that_failed_renders_nothing() {
    let params = make_params("f.txt", DiffType::WorkDir);
    assert!(process_output(&params, None, None).is_none());
    assert!(process_bytes(&params, None, None).is_none());
    assert!(process_output(&params, Some(""), None).unwrap().display_lines.is_empty());
}

#[test]
fn the_cursor_keeps_its_place_when_the_content_changes() {
    let mut diff_comp = DiffComponent::new(false, DiffMode::DeltaSideBySide);
    diff_comp.set_area(122, 42);
    let (then, moved) =
        diff_comp.update("f.txt".to_string(), false, changed_fourth_line(), DiffType::WorkDir, 1);
    assert_eq!(then, DiffUpdate::RenderLater);
    assert!(moved);
    let render = ProcessedDelta {
        display_lines: Arc::new((0..8).map(|_| line_from(vec![raw("x".to_string())])).collect()),
        display_hunks: Arc::new(vec![0; 8]),
        display_positions: Arc::new(vec![None; 8]),
        line_level_bgs: Arc::new(vec![None; 8]),
    };
    diff_comp.apply_delta_result(render);
    for _ in 0..5 {
        diff_comp.move_selection(ScrollType::Down);
    }
    let before = diff_comp.selection;
    let (then, moved) =
        diff_comp.update("f.txt".to_string(), false, changed_fourth_line(), DiffType::WorkDir, 2);
    assert_eq!(then, DiffUpdate::RenderNow);
    assert!(!moved);
    assert_eq!(diff_comp.selection, before);
}
