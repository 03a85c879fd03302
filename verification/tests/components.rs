//! The panels: commit details, trees of files and previews.
use gitui::asyncgit::sync::status::{StatusItem, StatusItemType};
use gitui::asyncgit::sync::tree::TreeFile;
use gitui::asyncgit::sync::CommitId;
use gitui::components::commit_details::details::{
    CommitDetails, CommitMessage, DetailsComponent, DetailsFocus, InfoLabels,
};
use gitui::components::revision_files::{
    CommitInfo, RevisionAction, RevisionFilesComponent, TreeLoadState, TreeRow,
};
use gitui::components::status_tree::{StatusTreeComponent, TreeAction, TreeDraw};
use gitui::components::statustree::{MoveSelection, TreeError};
use gitui::components::syntax_text::{
    case_insensitive_ranges, highlight_search, set_active_match_line, PreviewAction,
    PreviewContent, SyntaxTextComponent,
};
use gitui::components::{CommandBlocking, EventState, Key, KeyPress};
use gitui::text::{Line, Modifier, Span, Style};
use gitui::ui::syntax_text::SyntaxText;

fn id(n: u32) -> CommitId {
    CommitId { high: 0, low: n }
}

fn press(key: Key) -> KeyPress {
    KeyPress { matched: vec![key] }
}

// ------------------------------------------------------------- commit details

fn get_wrapped_lines(message: &CommitMessage, width: usize) -> Vec<String> {
    let (wrapped_title, wrapped_message) = DetailsComponent::wrap_commit_details(message, width);
    [&wrapped_title[..], &wrapped_message[..]].concat()
}

#[test]
fn test_textwrap() {
    let message = CommitMessage::from("Commit message");

    assert_eq!(get_wrapped_lines(&message, 7), vec!["Commit", "message"]);
    assert_eq!(get_wrapped_lines(&message, 14), vec!["Commit message"]);
    assert_eq!(get_wrapped_lines(&message, 0), vec!["Commit", "message"]);

    let message_with_newline = CommitMessage::from("Commit message\n");

    assert_eq!(get_wrapped_lines(&message_with_newline, 7), vec!["Commit", "message"]);
    assert_eq!(get_wrapped_lines(&message_with_newline, 14), vec!["Commit message"]);
    assert_eq!(get_wrapped_lines(&message, 0), vec!["Commit", "message"]);

    let message_with_body = CommitMessage::from("Commit message\nFirst line\nSecond line");

    assert_eq!(
        get_wrapped_lines(&message_with_body, 7),
        vec!["Commit", "message", "First", "line", "Second", "line"]
    );
    assert_eq!(
        get_wrapped_lines(&message_with_body, 14),
        vec!["Commit message", "First line", "Second line"]
    );
    assert_eq!(
        get_wrapped_lines(&message_with_body, 7),
        vec!["Commit", "message", "First", "line", "Second", "line"]
    );
}

#[test]
fn details_test_smoke() {
    let commit = CommitDetails {
        message: Some(CommitMessage {
            subject: String::from("subject line"),
            body: Some(String::from("body lone")),
        }),
        ..CommitDetails::default()
    };
    let lines = DetailsComponent::get_number_of_lines(Some(commit.clone()).as_ref(), 50);
    assert_eq!(lines, 2);

    let lines = DetailsComponent::get_number_of_lines(Some(commit).as_ref(), 8);
    assert_eq!(lines, 4);
}

#[test]
fn the_message_is_copied_whole() {
    let mut details = DetailsComponent::new(false);
    assert_eq!(details.message_to_copy(), None);
    details.set_commit(
        Some(CommitDetails {
            message: Some(CommitMessage::from("subject\nbody\nmore")),
            ..CommitDetails::default()
        }),
        None,
    );
    assert_eq!(details.message_to_copy(), Some("subject\nbody\nmore".to_string()));
    details.set_focus(DetailsFocus::Info);
    assert!(details.is_info_focused());
    assert_eq!(details.info_len(), 12);
    details.set_focused(false);
    assert_eq!(details.info_len(), 8);
}

// ------------------------------------------------------------- status tree

fn string_vec_to_status(items: &[&str]) -> Vec<StatusItem> {
    items
        .iter()
        .map(|a| StatusItem { path: String::from(*a), status: StatusItemType::Modified })
        .collect()
}

#[test]
fn deep_viewport_uses_visible_cache_and_keeps_selected_row() {
    let mut component = StatusTreeComponent::new("files", true);
    let items: Vec<StatusItem> = (0..1000)
        .map(|i| StatusItem { path: format!("file_{i:04}"), status: StatusItemType::Modified })
        .collect();
    component.update(&items, 1).unwrap();
    component.visible = true;
    component.tree.selection = Some(995);
    match component.draw(30, 5) {
        TreeDraw::Rows(rows, _) => assert!(rows[2].content.contains("file_0995")),
        _ => panic!("the panel is visible"),
    }
    assert_eq!(component.scroll_top, 993);
    assert!(component.draw_cache.as_ref().unwrap().iter().all(|row| row.visible));
}

#[test]
fn folded_cache_excludes_hidden_children_and_maps_source_selection() {
    let mut component = StatusTreeComponent::new("files", true);
    component
        .update(&string_vec_to_status(&["a/b/one", "a/b/two", "c/one", "c/two"]), 1)
        .unwrap();
    component.move_selection(MoveSelection::Left);
    component.move_selection(MoveSelection::Down);
    let rows = component.build_vec_text_draw_info_for_drawing();
    assert!(rows.iter().all(|row| row.visible));
    let source = component.tree.selection.unwrap();
    let selected = rows.partition_point(|row| row.source_index <= source).saturating_sub(1);
    assert_eq!(rows[selected].name, "c");
    assert_eq!(selected, 1);
}

#[test]
fn test_correct_scroll_position() {
    let items = string_vec_to_status(&[
        "a/b/b1", //
        "a/b/b2", //
        "a/c/c1", //
    ]);

    //0 a/
    //1   b/
    //2     b1
    //3     b2
    //4  c/
    //5    c1

    let mut ftc = StatusTreeComponent::new("title", true);
    ftc.update(&items, 1).expect("Updating FileTreeComponent failed");

    ftc.move_selection(MoveSelection::Down); // Move to b/
    ftc.move_selection(MoveSelection::Left); // Fold b/
    ftc.move_selection(MoveSelection::Down); // Move to c/

    ftc.draw(10, 5);

    assert_eq!(ftc.scroll_top, 0); // should still be at top
}

#[test]
fn test_correct_foldup_and_not_visible_scroll_position() {
    let items = string_vec_to_status(&[
        "a/b/b1", //
        "c/d1",   //
        "c/d2",   //
    ]);

    //0 a/b/
    //2     b1
    //3 c/
    //4   d1
    //5   d2

    let mut ftc = StatusTreeComponent::new("title", true);
    ftc.update(&items, 1).expect("Updating FileTreeComponent failed");

    ftc.move_selection(MoveSelection::Left); // Fold a/b/
    ftc.move_selection(MoveSelection::Down); // Move to c/

    ftc.draw(10, 5);

    assert_eq!(ftc.scroll_top, 0); // should still be at top
}

#[test]
fn too_deep_paths_are_refused() {
    let mut component = StatusTreeComponent::new("files", true);
    let deep = format!("{}x", "a/".repeat(300));
    assert_eq!(
        component.update(&string_vec_to_status(&[&deep]), 1),
        Err(TreeError::TooDeep)
    );
    assert!(component.is_empty());
}

#[test]
fn files_are_drawn_with_the_name_that_their_path_ends_in() {
    let mut component = StatusTreeComponent::new("files", true);
    component.set_visible(true);
    component.update(&string_vec_to_status(&["a/b/."]), 1).unwrap();
    let drawn = component.draw(20, 10);
    let TreeDraw::Rows(lines, _) = drawn else { panic!("no rows") };
    assert_eq!(lines.last().unwrap().content.trim_end(), "M     b");
    assert_eq!(
        component.update(&string_vec_to_status(&["a/.."]), 2),
        Err(TreeError::Nameless)
    );
    assert_eq!(component.file_count(), 1);
}

#[test]
fn collapsed_folders_stay_collapsed_and_files_stay_selected() {
    let mut component = StatusTreeComponent::new("files", true);
    component.update(&string_vec_to_status(&["a/one", "b/one", "b/two"]), 1).unwrap();
    component.move_selection(MoveSelection::End);
    assert_eq!(component.selection_file().unwrap().path, "b/two");
    component.move_selection(MoveSelection::Home);
    component.move_selection(MoveSelection::Left);
    component.update(&string_vec_to_status(&["a/one", "a/two", "b/two"]), 2).unwrap();
    let rows = component.build_vec_text_draw_info_for_drawing();
    let names: Vec<&str> = rows.iter().map(|row| row.name.as_str()).collect();
    assert_eq!(names, vec!["a", "b", "two"]);
    assert_eq!(component.file_count(), 3);
}

#[test]
fn tree_keys_ask_for_what_they_name() {
    let mut component = StatusTreeComponent::new("files", true);
    component.set_visible(true);
    component.update(&string_vec_to_status(&["one.rs"]), 1).unwrap();
    let (state, actions) = component.event(&press(Key::Blame));
    assert_eq!(state, EventState::Consumed);
    assert_eq!(actions, vec![TreeAction::BlameFile("one.rs".to_string(), None)]);
    assert_eq!(StatusTreeComponent::item_status_char(StatusItemType::New), '+');
}

#[test]
fn an_open_popup_takes_every_key() {
    let mut component = StatusTreeComponent::new("files", true);
    component.set_visible(true);
    component.update(&string_vec_to_status(&["one.rs", "two.rs"]), 1).unwrap();
    let (_, actions) = component.event(&press(Key::Copy));
    assert_eq!(actions, vec![TreeAction::CopyPath("one.rs".to_string(), true)]);
    component.set_copy_popup(true);
    for key in [Key::Blame, Key::MoveDown, Key::Copy] {
        let (state, actions) = component.event(&press(key));
        assert_eq!(state, EventState::Consumed);
        assert_eq!(actions, vec![TreeAction::PassToPopup]);
    }
    assert_eq!(component.selection_file().unwrap().path, "one.rs");
    let mut out = Vec::new();
    assert_eq!(component.commands(&mut out, false), CommandBlocking::Blocking);
    assert_eq!(out.len(), 5);
    component.set_copy_popup(false);
    assert_eq!(component.event(&press(Key::MoveDown)).1, vec![TreeAction::UpdateDiff]);

    let mut files = RevisionFilesComponent::new(None);
    files.set_copy_popup(true);
    assert!(!files.asks_tree(&press(Key::MoveDown)));
    let (state, actions) = files.event(&press(Key::MoveRight), true, &None);
    assert_eq!(state, EventState::Consumed);
    assert!(matches!(actions[..], [RevisionAction::PassToPopup]));
    let blocking = files.commands(&mut out, &None, true, false, true);
    assert_eq!(blocking, CommandBlocking::Blocking);
}

// ------------------------------------------------------------- revision files

fn info(n: u32) -> CommitInfo {
    CommitInfo { id: id(n), message: "message".to_string() }
}

#[test]
fn failed_tree_load_can_be_retried() {
    let mut files = RevisionFilesComponent::new(None);
    files.set_commit(id(7), Ok(info(7)), None);
    files.apply_tree_result(Err("no head found".to_string()));

    assert!(matches!(
        files.load_state,
        TreeLoadState::Failed(ref message)
            if message.contains("no head found")
    ));
    assert!(files.files.is_none());
    assert!(files.can_retry());

    let (state, actions) = files.event(&press(Key::Enter), false, &None);
    assert_eq!(state, EventState::Consumed);
    assert!(matches!(actions[0], RevisionAction::RequestFiles(commit) if commit == id(7)));
    assert_eq!(files.load_state, TreeLoadState::Loading);
}

#[test]
fn empty_commit_is_ready_without_files() {
    let mut files = RevisionFilesComponent::new(None);
    files.apply_tree_result(Ok(Vec::new()));
    assert_eq!(files.load_state, TreeLoadState::Ready);
    assert!(files.files.as_ref().is_some_and(Vec::is_empty));
    assert!(!files.can_retry());
}

#[test]
fn missing_commit_shows_retryable_error() {
    let mut files = RevisionFilesComponent::new(None);
    let missing = id(0);
    assert_eq!(missing.to_hex(), "0000000000000000000000000000000000000000");

    files.set_commit(missing, Err("object not found".to_string()), None);
    assert!(matches!(
        files.load_state,
        TreeLoadState::Failed(ref message)
            if message.starts_with("Unable to read commit:")
    ));
    assert!(files.revision().is_none());
    assert!(files.can_retry());
    assert!(files.retry_files().is_none());
    assert!(files.can_retry());
    assert_eq!(files.retry_commit(), Some(missing));
}

#[test]
fn listings_of_other_commits_lead_to_another_request() {
    let mut files = RevisionFilesComponent::new(Some("b.rs".to_string()));
    files.set_commit(id(1), Ok(info(1)), None);
    let late = vec![TreeFile { path: "a.rs".to_string(), filemode: 0o100644, id: id(9) }];
    let actions = files.refresh_files(Some((id(2), Ok(late))));
    assert!(matches!(actions[0], RevisionAction::RequestFiles(commit) if commit == id(1)));
    assert_eq!(files.load_state, TreeLoadState::Loading);
    let own = vec![TreeFile { path: "b.rs".to_string(), filemode: 0o100644, id: id(9) }];
    let actions = files.refresh_files(Some((id(1), Ok(own))));
    assert!(matches!(&actions[1], RevisionAction::FindFile(path) if path == "b.rs"));
    assert_eq!(files.load_state, TreeLoadState::Ready);
}

#[test]
fn rows_of_the_tree_are_drawn() {
    let row = |is_path, collapsed| TreeRow {
        path: "src".to_string(),
        indent: 1,
        is_path,
        collapsed,
    };
    let draw = gitui::components::revision_files::tree_item_to_text;
    assert_eq!(draw(&row(true, true), 8), "  \u{25b8}src");
    assert_eq!(draw(&row(true, false), 8), "  \u{25be}src");
    assert_eq!(draw(&row(false, false), 8), "  src   ");
}

// ------------------------------------------------------------- previews

fn plain(content: &str) -> Line {
    Line { spans: vec![Span::styled(content.to_string(), Style::new())] }
}

fn chars(s: &str) -> Vec<char> {
    s.chars().collect()
}

fn content(line: &Line) -> String {
    line.spans.iter().map(|span| span.content.as_str()).collect()
}

#[test]
fn unicode_case_matches_map_to_original_utf8_boundaries() {
    let text = "İstanbul K ΟΣ";
    let letters = chars(text);
    for (query, expected) in [("i", "İ"), ("i\u{307}", "İ"), ("k", "K"), ("ος", "ΟΣ")] {
        let ranges = case_insensitive_ranges(&letters, &chars(query));
        assert_eq!(ranges.len(), 1);
        let (start, end) = ranges[0];
        assert_eq!(letters[start..end].iter().collect::<String>(), expected);
    }
    let mut lines = vec![plain(text)];
    highlight_search(&mut lines, "i");
    assert_eq!(content(&lines[0]), text);
}

#[test]
fn long_shared_prefix_nonmatch_does_not_build_windows() {
    let text = format!("{}中", "a".repeat(100_000));
    let query = format!("{}b", "a".repeat(10_000));
    assert!(case_insensitive_ranges(&chars(&text), &chars(&query)).is_empty());
    let mut lines = vec![plain(&text)];
    let matches = highlight_search(&mut lines, &query);
    assert!(matches[0].is_empty());
    assert_eq!(lines[0].spans.len(), 1);
    assert_eq!(lines[0].spans[0].content, text);
}

#[test]
fn stale_same_path_highlighting_cannot_replace_new_source() {
    let mut component = SyntaxTextComponent::new();
    let old_generation = component.highlight_generation;
    component.load_text(
        "same.txt".to_string(),
        SyntaxText::from_ansi(vec![plain("new source")], "same.txt".to_string()),
    );
    let generation = component.render_generation;
    component.apply_highlighting(
        old_generation,
        SyntaxText::from_ansi(vec![plain("old source")], "same.txt".to_string()),
    );
    assert_eq!(component.file_lines(), vec!["new source"]);
    assert_eq!(component.render_generation, generation);
}

#[test]
fn navigating_matches_reuses_text_and_layout_generation() {
    let mut component = SyntaxTextComponent::new();
    component.current_file = Some((
        "search.txt".to_string(),
        PreviewContent::Plain("hit first\nunmatched\nhit last\n".to_string()),
    ));
    component.set_search_result("hit", 0, &vec![0, 2]);
    component.rebuild_render_cache();
    let generation = component.render_generation;
    let spans = component.render_cache.as_ref().unwrap().0[1].spans.as_ptr();
    for forward in [true, true, false, false] {
        component.move_match(forward);
        component.rebuild_render_cache();
        assert_eq!(component.render_generation, generation);
        let text = &component.render_cache.as_ref().unwrap().0;
        assert_eq!(text[1].spans.as_ptr(), spans);
        for line in [0, 2] {
            assert_eq!(
                text[line].spans[0].style.add_modifier.bold,
                line == component.search_matches[component.search_cursor],
            );
        }
    }
}

#[test]
fn moving_active_match_preserves_syntax_bold() {
    let bold = Modifier { bold: true, ..Modifier::empty() };
    let mut lines = vec![Line {
        spans: vec![Span::styled("hit".to_string(), Style::new().add_modifier(bold))],
    }];
    let styles = highlight_search(&mut lines, "hit");
    set_active_match_line(&mut lines, &styles, Some(0), true);
    set_active_match_line(&mut lines, &styles, Some(0), false);
    let shown = lines[0].spans[0].style.add_modifier;
    assert!(shown.bold && shown.reversed);
}

#[test]
fn identical_content_does_not_invalidate_preview() {
    let mut component = SyntaxTextComponent::new();
    let bytes = b"fn unchanged() {}\n".to_vec();
    component.load_hashed_bytes("preview.rs".to_string(), &bytes, 1, false);
    let generation = component.render_generation;

    let actions = component.load_hashed_bytes("preview.rs".to_string(), &bytes, 1, false);

    assert!(actions.is_empty());
    assert_eq!(component.render_generation, generation);
}

#[test]
fn previews_show_text_without_tabs() {
    let mut component = SyntaxTextComponent::new();
    let read = Ok((b"a\tb\n\xff\n".to_vec(), 7));
    let actions = component.load_file("a.txt".to_string(), read, false);
    assert!(matches!(
        &actions[2],
        PreviewAction::Highlight(text, path, _) if text == "a  b\n\u{fffd}\n" && path == "a.txt"
    ));
    assert_eq!(component.file_lines(), vec!["a  b", "\u{fffd}"]);

    // another content does not replace a file of a tree that is previewed
    let actions = component.load_file("a.txt".to_string(), Ok((b"new".to_vec(), 8)), false);
    assert!(actions.is_empty());
    component.load_commit_file("a.txt".to_string(), Ok((b"new".to_vec(), 8)), false);
    assert_eq!(component.file_lines(), vec!["new"]);
    component.load_commit_file("a.txt".to_string(), Err("gone".to_string()), false);
    assert_eq!(component.file_lines(), vec!["error loading file: gone"]);
}

#[test]
fn previews_tell_images_and_binary_files_apart() {
    let mut component = SyntaxTextComponent::new();
    let png = b"\x89PNG\r\n\x1a\n".to_vec();
    let actions = component.load_hashed_bytes("a.png".to_string(), &png, 3, false);
    assert!(matches!(actions[1], PreviewAction::SetImage(3)));
    assert!(component.shows_image());

    component.load_hashed_bytes("a.bin".to_string(), &vec![1, 0, 2], 4, false);
    assert!(!component.shows_image());
    assert_eq!(component.file_lines(), vec!["binary file"]);

    component.load_failed("gone".to_string(), "not found");
    assert_eq!(component.file_lines(), vec!["error loading file: not found"]);
    assert_eq!(component.title(), "gone");
}

#[test]
fn labels_of_details_are_shown() {
    let mut details = DetailsComponent::new(true);
    let labels = InfoLabels {
        author: "Author: ".to_string(),
        committer: "Committer: ".to_string(),
        date: "Date: ".to_string(),
        hash: "Sha: ".to_string(),
        tags: "Tags: ".to_string(),
    };
    details.set_commit(
        Some(CommitDetails { hash: "abc".to_string(), ..CommitDetails::default() }),
        Some(vec!["v1".to_string(), "v2".to_string()]),
    );
    let copied = details.info_to_copy(&labels).unwrap();
    assert!(copied.contains("Sha: abc"));
    assert!(copied.contains("v1"));
}
