//! Images, paragraphs, highlighting and the tools behind previews.
use gitui::asyncgit::progress::ProgressPercent;
use gitui::os_theme::ColorScheme;
use gitui::text::{Color, Line, Span, Style};
use gitui::ui::calc_scroll_top;
use gitui::ui::highlight::{
    choose_theme, Highlighting, Piece, RunStep, SyntaxChoice, SyntaxError, SyntaxRun, Syntaxes,
    ThemeChoice, DEFAULT_SYNTAX_THEME,
};
use gitui::ui::images::{
    decode, is_image, preview_of, thumbnail, Completion, ImageCache, ImageDraw, ImagePreview, Key,
    RequestStep, CACHE_ENTRIES,
};
use gitui::popups::PlacedRow;
use gitui::ui::stateful_paragraph::{get_line_offset, Alignment, ParagraphState, ScrollPos};
use gitui::ui::syntax_text::{
    bat_args, colored_bytes, colored_output, dir_listing_steps, executable_extensions,
    executable_names, find_in_dirs,
    AsyncProgressBuffer, AsyncSyntaxJob, Lister, SyntaxText, SyntectStyle,
};
use image::DynamicImage;
use std::sync::Arc;

// ------------------------------------------------------------- images

fn png() -> Vec<u8> {
    let source = DynamicImage::ImageRgba8(image::RgbaImage::from_pixel(
        20,
        30,
        image::Rgba([1, 2, 3, 255]),
    ));
    let mut encoded = std::io::Cursor::new(Vec::new());
    source.write_to(&mut encoded, image::ImageFormat::Png).unwrap();
    encoded.into_inner()
}

#[test]
fn detects_signatures_without_decoding() {
    assert!(is_image(b"\x89PNG\r\n\x1a\n"));
    assert!(decode(b"\x89PNG\r\n\x1a\n").is_err());
    assert!(!is_image(b"plain text"));
    assert_eq!(decode(&png()).unwrap().width(), 20);
}

#[test]
fn caps_preview_preserving_aspect_ratio_without_enlarging() {
    let resized = thumbnail(DynamicImage::new_rgba8(2048, 1024));
    assert_eq!((resized.width(), resized.height()), (800, 400));
    let small = thumbnail(DynamicImage::new_rgba8(20, 30));
    assert_eq!((small.width(), small.height()), (20, 30));
}

#[test]
fn the_shorter_side_gets_its_share() {
    let size = |width, height| {
        let scaled = thumbnail(DynamicImage::new_luma8(width, height));
        (scaled.width(), scaled.height())
    };
    assert_eq!(size(1024, 2048), (400, 800));
    assert_eq!(size(801, 801), (800, 800));
    assert_eq!(size(5000, 1), (800, 1));
    assert_eq!(size(1001, 700), (800, 559));
    assert_eq!(size(800, 3), (800, 3));
}

#[test]
fn decoded_pixels_are_kept() {
    let picture = decode(&png()).unwrap();
    assert_eq!((picture.width(), picture.height()), (20, 30));
    assert_eq!(&picture.as_bytes()[..4], &[1, 2, 3, 255]);
    assert!(decode(b"plain text").is_err());
    assert_eq!(preview_of(Err("bad".to_string())), Err("bad".to_string()));
    assert_eq!(preview_of(decode(&png())).unwrap().height(), 30);
}

#[test]
fn previews_keep_the_depth_of_their_image() {
    let preview = preview_of(Ok(DynamicImage::new_luma16(1600, 20))).unwrap();
    assert_eq!((preview.width(), preview.height()), (800, 10));
    assert_eq!(preview.color(), image::ColorType::L16);
    let long = preview_of(Ok(DynamicImage::new_luma16(160_001, 1))).unwrap();
    assert_eq!(long.width(), 160_001);
    let long = preview_of(Ok(DynamicImage::new_luma8(160_001, 1))).unwrap();
    assert_eq!((long.width(), long.height()), (800, 1));
}

/// Let a worker encode what is asked for, and show it.
fn complete(preview: &mut ImagePreview<u32>, cache: &mut ImageCache<u32>, size: (u16, u16)) -> Arc<u32> {
    if preview.request(size.0, size.1) == RequestStep::StartWorker {
        preview.worker_started(Ok(()));
    }
    if let Some(request) = preview.take_request() {
        let encoded = match cache.get(request.key) {
            Some(encoded) => encoded,
            None => {
                let encoded = preview_of(decode(&request.bytes)).map(|picture| Arc::new(picture.width()));
                cache.insert(request.key, encoded.clone());
                encoded
            }
        };
        preview.complete(Completion { generation: request.generation, key: request.key, encoded });
    }
    preview.collect();
    match preview.shown(size.0, size.1) {
        ImageDraw::Image(image) => image,
        _ => panic!("an image is shown"),
    }
}

#[test]
fn caches_content_and_dimensions_and_invalidates_changed_content() {
    let mut preview: ImagePreview<u32> = ImagePreview::new();
    let mut cache = ImageCache::new();
    assert!(!preview.has_worker);
    preview.set(png(), 1);
    let area = (10, 10);
    let first = complete(&mut preview, &mut cache, area);
    let moved = complete(&mut preview, &mut cache, area);
    assert!(Arc::ptr_eq(&first, &moved));
    let resized = complete(&mut preview, &mut cache, (1, 1));
    assert!(!Arc::ptr_eq(&first, &resized));
    let restored = complete(&mut preview, &mut cache, area);
    assert!(Arc::ptr_eq(&first, &restored));
    preview.set(png(), 2);
    let changed = complete(&mut preview, &mut cache, area);
    assert!(!Arc::ptr_eq(&first, &changed));
}

#[test]
fn clear_discards_completed_work_and_zero_area_does_not_start_worker() {
    let mut preview: ImagePreview<u32> = ImagePreview::new();
    preview.set(png(), 1);
    assert_eq!(preview.request(0, 0), RequestStep::Nothing);
    assert!(!preview.has_worker);
    assert_eq!(preview.request(10, 10), RequestStep::StartWorker);
    preview.worker_started(Ok(()));
    let request = preview.take_request().unwrap();
    preview.complete(Completion {
        generation: request.generation,
        key: request.key,
        encoded: Ok(Arc::new(1)),
    });
    preview.clear();
    assert!(!preview.is_pending());
    assert!(preview.completion.is_none());
    assert!(preview.encoded.is_none());
}

#[test]
fn latest_request_replaces_queued_work_and_stale_completion_is_ignored() {
    let mut preview: ImagePreview<u32> = ImagePreview::new();
    preview.has_worker = true;
    preview.set(png(), 1);
    assert!(!preview.is_pending());
    assert_eq!(preview.request(10, 10), RequestStep::Wake);
    let old_generation = preview.generation;
    let old_key = preview.requested.unwrap();
    preview.set(png(), 2);
    preview.request(10, 10);
    assert!(preview.is_pending());
    assert_eq!(preview.request.as_ref().unwrap().key.content, 2);
    preview.completion = Some(Completion {
        generation: old_generation,
        key: old_key,
        encoded: Err("stale result".to_string()),
    });
    preview.collect();
    assert!(preview.encoded.is_none());
    assert!(preview.is_pending());
    preview.request(0, 0);
    assert!(!preview.is_pending());
}

#[test]
fn cache_evicts_oldest_entry_at_capacity() {
    let mut preview: ImagePreview<u32> = ImagePreview::new();
    let mut cache = ImageCache::new();
    let area = (10, 10);
    preview.set(png(), 0);
    let first = complete(&mut preview, &mut cache, area);
    for content in 1..=CACHE_ENTRIES as u64 {
        preview.set(png(), content);
        complete(&mut preview, &mut cache, area);
    }
    preview.set(png(), 0);
    let evicted = complete(&mut preview, &mut cache, area);
    assert!(!Arc::ptr_eq(&first, &evicted));
}

#[test]
fn corrupt_image_reports_an_error() {
    let mut preview: ImagePreview<u32> = ImagePreview::new();
    preview.set(b"\x89PNG\r\n\x1a\n".to_vec(), 1);
    preview.request(60, 2);
    preview.worker_started(Ok(()));
    let request = preview.take_request().unwrap();
    preview.complete(Completion {
        generation: request.generation,
        key: request.key,
        encoded: preview_of(decode(&request.bytes)).map(|picture| Arc::new(picture.width())),
    });
    preview.collect();
    assert!(!preview.is_pending());
    assert!(preview.encoded.as_ref().unwrap().is_err());
    match preview.shown(60, 2) {
        ImageDraw::Text(message) => assert!(message.starts_with('I')),
        _ => panic!("an error is shown"),
    }
}

#[test]
fn a_worker_that_cannot_start_is_told() {
    let mut preview: ImagePreview<u32> = ImagePreview::new();
    preview.set(png(), 1);
    preview.request(4, 4);
    assert!(!preview.worker_started(Err("no threads".to_string())));
    assert!(matches!(preview.shown(4, 4), ImageDraw::Text(_)));
    assert!(!preview.complete(Completion {
        generation: preview.generation + 1,
        key: Key { content: 1, width: 4, height: 4 },
        encoded: Ok(Arc::new(0)),
    }));
}

// ------------------------------------------------------------- paragraphs

#[test]
fn deep_scroll_starts_from_cached_source_line() {
    let text = ["zero", "one", "two", "three", "four"];
    let mut state = ParagraphState::default();
    assert!(state.layout_changed(8, 1));
    state.measure_layout(8, 1, &vec![1; text.len()]);
    assert_eq!(state.lines(), 5);
    assert_eq!(state.line_offsets, vec![0, 1, 2, 3, 4]);
    assert!(!state.layout_changed(8, 1));

    state.set_scroll(ScrollPos { x: 0, y: 3 });
    let (line, row) = state.start_line();
    assert_eq!(text[line], "three");
    assert_eq!(row, 3);
    let shown = state.render(2, 8, 2, 1, &vec![1; text.len()]);
    let drawn: Vec<(u16, &str)> = shown.iter().map(|row| (row.y, text[row.line])).collect();
    assert_eq!(drawn, vec![(0, "three"), (1, "four")]);
}

#[test]
fn wrapped_lines_take_several_rows() {
    let mut state = ParagraphState::default();
    state.measure_layout(4, 1, &vec![3, 1, 2]);
    assert_eq!(state.lines(), 6);
    assert_eq!(state.line_offsets, vec![0, 3, 4]);
    state.set_scroll(ScrollPos { x: 0, y: 2 });
    assert_eq!(state.start_line(), (0, 0));
    let place = |line, row, y| PlacedRow { line, row, y };
    let shown = state.render(5, 4, 3, 1, &vec![3, 1, 2]);
    assert_eq!(shown, vec![place(0, 2, 0), place(1, 0, 1), place(2, 0, 2)]);
    assert_eq!(state.height(), 5);
    assert!(state.render(2, 4, 0, 1, &vec![3, 1, 2]).is_empty());
    assert_eq!(state.height(), 5);
    let mut fresh = ParagraphState::default();
    assert_eq!(fresh.render(5, 4, 3, 7, &vec![1, 1]), vec![place(0, 0, 0), place(1, 0, 1)]);
    assert_eq!(fresh.lines(), 2);
    assert_eq!(fresh.layout_key, 7);
    fresh.set_scroll(ScrollPos { x: 9, y: 0 });
    assert_eq!(fresh.horizontal_offset(false, Alignment::Left), 9);
    assert_eq!(fresh.horizontal_offset(true, Alignment::Left), 0);
    assert_eq!(fresh.horizontal_offset(false, Alignment::Right), 0);
    assert_eq!(state.max_scroll(), 3);
    assert_eq!(get_line_offset(4, 10, Alignment::Center), 3);
    assert_eq!(get_line_offset(4, 10, Alignment::Right), 6);
    assert_eq!(calc_scroll_top(0, 5, 7), 3);
}

// ------------------------------------------------------------- highlighting

#[test]
fn syntaxes_are_found_by_name_extension_and_first_line() {
    let syntaxes = Syntaxes::new();
    assert_eq!(
        syntaxes.choose_syntax("src/main.rs", None),
        SyntaxChoice::Extension("rs".to_string())
    );
    assert_eq!(
        syntaxes.choose_syntax("a/Makefile", None),
        SyntaxChoice::Extension("Makefile".to_string())
    );
    assert!(syntaxes.needs_first_line("script"));
    assert!(!syntaxes.needs_first_line("script.py"));
    assert_eq!(
        syntaxes.choose_syntax("script", Some("#!/usr/bin/env python")),
        SyntaxChoice::FirstLine("#!/usr/bin/env python".to_string())
    );
    assert_eq!(syntaxes.choose_syntax("script", Some("nothing known")), SyntaxChoice::PlainText);
}

#[test]
fn unknown_themes_fall_back_to_the_default_one() {
    for name in ["base16-ocean.dark", "base16-eighties.dark", "base16-mocha.dark",
        "base16-ocean.light", "InspiredGitHub", "Solarized (dark)", "Solarized (light)"]
    {
        assert_eq!(choose_theme(None, name).1, ThemeChoice::Bundled(name.to_string()));
    }
    let (theme, from) = choose_theme(None, "missing");
    assert_eq!(from, ThemeChoice::Bundled(DEFAULT_SYNTAX_THEME.to_string()));
    let (light, _) = choose_theme(None, "Solarized (light)");
    assert_ne!(light.settings.background, theme.settings.background);
    let (kept, from) = choose_theme(Some(light.clone()), "missing");
    assert_eq!(from, ThemeChoice::File);
    assert_eq!(kept.settings.background, light.settings.background);
}

#[test]
fn unknown_files_are_plain_text() {
    let syntaxes = Syntaxes::new();
    let (theme, _) = choose_theme(None, DEFAULT_SYNTAX_THEME);
    let (mut highlighting, choice) =
        Highlighting::new(&syntaxes, "a.no-such-syntax", None, theme).unwrap();
    assert_eq!(choice, SyntaxChoice::PlainText);
    let (mut run, _) = SyntaxRun::new("fn x".to_string(), "a.no-such-syntax".to_string(), 0);
    assert_eq!(run.step(&mut highlighting, 1), RunStep::Line);
    assert_eq!(run.lines[0].items.len(), 1);
}

#[test]
fn highlighting_keeps_the_text_and_colors_it() {
    let syntaxes = Syntaxes::new();
    let (theme, _) = choose_theme(None, DEFAULT_SYNTAX_THEME);
    let (mut highlighting, _) = Highlighting::new(&syntaxes, "a.rs", None, theme).unwrap();
    let source = "fn main() {\n    let x = \"ü\";\n}\n";
    let (mut run, first) = SyntaxRun::new(source.to_string(), "a.rs".to_string(), 0);
    assert_eq!(first.progress, 0);
    assert_eq!(run.step(&mut highlighting, 10), RunStep::Line);
    assert_eq!(
        run.step(&mut highlighting, 300),
        RunStep::Progress(ProgressPercent { progress: 33 })
    );
    assert_eq!(run.step(&mut highlighting, 310), RunStep::Line);
    assert_eq!(run.step(&mut highlighting, 320), RunStep::Done);
    let text = SyntaxText::new(run);
    assert_eq!(text.path(), "a.rs");
    assert_eq!(text.source_lines(), vec!["fn main() {", "    let x = \"ü\";", "}"]);
    let shown = text.to_owned_text();
    let plain: Vec<String> = shown
        .iter()
        .map(|line: &Line| line.spans.iter().map(|span| span.content.as_str()).collect())
        .collect();
    assert_eq!(plain, text.source_lines());
    let colors: Vec<Option<Color>> = shown[0].spans.iter().map(|span| span.style.fg).collect();
    assert!(colors.iter().any(|color| *color != colors[0]));
}

fn piece(text: &str, red: u8) -> Piece {
    Piece {
        style: SyntectStyle { red, green: 0, blue: 0, bold: red == 2, italic: false, underline: false },
        text: text.to_string(),
    }
}

#[test]
fn pieces_are_placed_by_characters() {
    let (mut run, _) = SyntaxRun::new("äb c\nx".to_string(), "f".to_string(), 0);
    let step = run.take_line(Ok(vec![piece("äb", 1), piece(" ", 2)]), 201);
    assert_eq!(step, RunStep::Progress(ProgressPercent { progress: 0 }));
    let places: Vec<(usize, usize)> = run.lines[0].items.iter().map(|i| (i.start, i.end)).collect();
    assert_eq!(places, vec![(0, 2), (2, 3)]);
    assert_eq!(run.take_line(Err(SyntaxError::Unparsable), 300), RunStep::Failed);
    assert_eq!(run.lines.len(), 1);
    let shown = SyntaxText::new(run).to_owned_text();
    assert_eq!(shown[0].spans[0].style.fg, Some(Color::Rgb(1, 0, 0)));
    assert!(shown[0].spans[1].style.add_modifier.bold);
}

#[test]
fn progress_is_told_at_intervals() {
    let mut buffer = AsyncProgressBuffer::new(200, 50);
    assert!(buffer.update(1, 0));
    assert_eq!(buffer.send_progress(0).progress, 1);
    assert!(!buffer.update(2, 50));
    assert!(buffer.update(3, 51));
}

#[test]
fn jobs_prefer_colored_output() {
    let colored = || SyntaxText::from_ansi(
        vec![Line { spans: vec![Span::styled("x".to_string(), Style::new())] }],
        "bat".to_string(),
    );
    let mut job = AsyncSyntaxJob::new("x".to_string(), "f".to_string(), "theme".to_string())
        .with_line_numbers(true)
        .with_generation(4);
    assert_eq!(job.generation(), 4);
    job.finish(Some(colored()), None);
    assert_eq!(job.result().unwrap().path(), "bat");
    assert!(job.result().is_none());

    let mut failed = AsyncSyntaxJob::new("x".to_string(), "f".to_string(), "theme".to_string());
    failed.finish(None, None);
    let text = failed.result().unwrap();
    assert_eq!(text.path(), "f");
    assert!(text.source_lines().is_empty());
}

// ------------------------------------------------------------- tools

#[test]
fn find_in_dirs_finds_exact_filename() {
    assert_eq!(
        find_in_dirs(&vec!["preview-tool"], &vec!["/usr/bin".to_string()], &vec![])[0],
        "/usr/bin/preview-tool"
    );
}

#[test]
fn only_the_name_of_a_program_has_an_extension() {
    let extensions = vec![".exe".to_string()];
    assert_eq!(executable_names("a.d/tool", &extensions), vec!["a.d/tool", "a.d/tool.exe"]);
    assert_eq!(executable_names("tool.sh", &extensions), vec!["tool.sh"]);
    assert_eq!(executable_names(".tool", &extensions), vec![".tool", ".tool.exe"]);
}

#[test]
fn find_in_dirs_honors_windows_pathext() {
    let extensions = executable_extensions(".COM;;.EXE");
    assert_eq!(extensions, vec![".COM", ".EXE"]);
    let candidates = find_in_dirs(&vec!["bat"], &vec!["/tools".to_string()], &extensions);
    assert_eq!(candidates, vec!["/tools/bat", "/tools/bat.COM", "/tools/bat.EXE"]);
    assert!(candidates.iter().any(|found| found.eq_ignore_ascii_case("/tools/bat.exe")));
}

#[test]
fn bat_is_told_the_file_and_the_theme() {
    assert_eq!(
        bat_args("a b.rs", true, ColorScheme::Light),
        vec!["--color=always", "--style=plain,numbers", "--paging=never", "--file-name", "a b.rs", "--theme=light"]
    );
    assert!(colored_output(false, "x", "f").is_none());
    assert!(colored_output(true, "", "f").is_none());
    assert_eq!(colored_bytes(true, b"\xff", "f").unwrap().source_lines(), vec!["\u{fffd}"]);
    assert!(colored_bytes(true, b"", "f").is_none());
    assert_eq!(colored_output(true, "\x1b[31mx", "f").unwrap().source_lines(), vec!["x"]);
}

#[test]
fn folders_are_listed_by_what_is_there() {
    let steps = dir_listing_steps("", 2, true, true);
    assert_eq!(steps[0].lister, Lister::Eza);
    assert_eq!(steps.last().unwrap().lister, Lister::Ls);
    assert!(dir_listing_steps("src", 2, false, false).is_empty());
}
