//! Popups and tabs.
use gitui::asyncgit::progress::ProgressPercent;
use gitui::asyncgit::remote_progress::{RemoteProgress, RemoteProgressState};
use gitui::asyncgit::sync::remotes::push::PushType;
use gitui::asyncgit::sync::status::{StatusItem, StatusItemType};
use gitui::asyncgit::sync::{CommitId, DiffOptions};
use gitui::components::diff::DiffMode;
use gitui::components::revision_files::{CommitInfo, RevisionAction};
use gitui::components::{EventState, Key, KeyPress, ScrollType};
use gitui::options::Options;
use gitui::popups::content_search::{search_lines, substring_match_indices, ContentSearchPopup};
use gitui::popups::fuzzy_find::{rank, search_texts, FuzzyFindPopup, FuzzyFinderTarget, Scored};
use gitui::popups::inspect_commit::{
    self, InspectAction, InspectCommitOpen, InspectCommitPopup, InspectNotification, RightPane,
};
use gitui::popups::match_list::{marks, Hit, MatchList};
use gitui::popups::options::{AppOption, OptionLine, OptionsAction, OptionsPopup};
use gitui::popups::push::{
    format_bytes, group_digits, push_remote, PushPopup, PushProgress, PushStart, PushStep,
};
use gitui::popups::{place_rows, wrap_line};
use gitui::tabs::files::{FilesStep, FilesTab, Head};
use gitui::tabs::stashlist::{Action, ListState, StashList, StashOutcome, StashStep};
use gitui::tabs::status;
use gitui::tabs::status::file_preview::{preview_result, PreviewResult, StatusFilePreviewJob};
use gitui::text::{Line, Modifier, Span, Style};
use gitui::text::{tabs_to_spaces, trim_length_left};
use gitui::unicode::{trim_offset, truncate};

fn id(n: u32) -> CommitId {
    CommitId { high: 0, low: n }
}

fn press(key: Key) -> KeyPress {
    KeyPress { matched: vec![key] }
}

// ------------------------------------------------------------- wrapping

fn line(content: &str) -> Line {
    Line { spans: vec![Span::styled(content.to_string(), Style::new())] }
}

fn width(line: &Line) -> usize {
    line.spans.iter().map(|span| unicode_width::UnicodeWidthStr::width(span.content.as_str())).sum()
}

#[test]
fn wrap_line_keeps_ascii_together_when_it_fits() {
    let line = line("confirm reset hunk?");
    let wrapped = wrap_line(&line, 50);
    assert_eq!(wrapped.len(), 1);
    assert_eq!(width(&wrapped[0]), 19);
}

#[test]
fn wrap_line_wraps_ascii_when_too_long() {
    let line = line("confirm reset hunk?");
    let wrapped = wrap_line(&line, 10);
    assert!(wrapped.len() > 1);
    // each wrapped line fits within the limit
    for w in &wrapped {
        assert!(width(w) <= 10);
    }
}

#[test]
fn wrap_line_moves_wide_char_to_next_line_instead_of_overflowing() {
    // 8 ASCII + 1 CJK (width 2) = 10 cells; width limit 9 must not
    // place the CJK at the last cell (which would stomp the border).
    let line = line("12345678中");
    let wrapped = wrap_line(&line, 9);
    assert_eq!(wrapped.len(), 2);
    assert_eq!(width(&wrapped[0]), 8);
    assert_eq!(width(&wrapped[1]), 2);
}

#[test]
fn wrap_line_keeps_wide_char_when_it_fits_exactly() {
    let line = line("123456中");
    let wrapped = wrap_line(&line, 8);
    assert_eq!(wrapped.len(), 1);
    assert_eq!(width(&wrapped[0]), 8);
}

#[test]
fn wrap_line_drops_grapheme_wider_than_limit() {
    let line = line("中");
    let wrapped = wrap_line(&line, 1);
    // width-2 grapheme cannot fit in 1 cell; it is dropped
    assert_eq!(wrapped.len(), 1);
    assert_eq!(width(&wrapped[0]), 0);
}

#[test]
fn wrap_line_keeps_what_comes_from_one_span_together() {
    let span = |content: &str, bold| {
        let plain = Style::default();
        let add_modifier = Modifier { bold, ..plain.add_modifier };
        Span::styled(content.to_string(), Style { add_modifier, ..plain })
    };
    let line = Line { spans: vec![span("abc", false), span("de", true)] };
    let wrapped = wrap_line(&line, 4);
    assert_eq!(wrapped.len(), 2);
    assert_eq!(wrapped[0].spans, vec![span("abc", false), span("d", true)]);
    assert_eq!(wrapped[1].spans, vec![span("e", true)]);
}

#[test]
fn rows_are_placed_one_below_the_other_and_end_at_the_bottom() {
    let places = |counts: Vec<usize>, top, bottom| -> Vec<(usize, usize, u16)> {
        place_rows(&counts, top, bottom).iter().map(|p| (p.line, p.row, p.y)).collect()
    };
    assert_eq!(
        places(vec![1, 3, 0, 1], 5, 12),
        vec![(0, 0, 5), (1, 0, 6), (1, 1, 7), (1, 2, 8), (3, 0, 9)]
    );
    assert_eq!(places(vec![1, 3, 1], 5, 8), vec![(0, 0, 5), (1, 0, 6), (1, 1, 7)]);
    assert_eq!(places(vec![2], 5, 5), vec![]);
    assert_eq!(places(vec![2], u16::MAX - 1, u16::MAX), vec![(0, 0, u16::MAX - 1)]);
}

#[test]
fn truncation_counts_columns() {
    assert_eq!(truncate("a中b", 3), "a中");
    assert_eq!(truncate("a中b", 2), "a");
    assert_eq!(truncate("abc", 9), "abc");
}

// ------------------------------------------------------------- options

#[test]
fn diff_mode_is_part_of_diff_option_navigation() {
    let mut popup = OptionsPopup::new();

    popup.move_selection(false);
    assert_eq!(popup.selection, AppOption::DiffMode);
    popup.move_selection(false);
    assert_eq!(popup.selection, AppOption::DiffIgnoreWhitespaces);
    popup.move_selection(true);
    assert_eq!(popup.selection, AppOption::DiffMode);
}

#[test]
fn diff_mode_option_switches_to_unified() {
    let mut options = Options::test_env();
    let mut popup = OptionsPopup::new();
    popup.move_selection(false);

    popup.switch_option(true, &mut options, true);

    assert_eq!(options.diff_mode(), DiffMode::Unified);
}

#[test]
fn delta_has_to_be_there_to_be_chosen() {
    let mut options = Options::test_env();
    options.set_diff_mode(DiffMode::Unified);
    let mut popup = OptionsPopup::new();
    popup.move_selection(false);
    assert_eq!(popup.switch_option(true, &mut options, false), OptionsAction::DeltaNotFound);
    assert_eq!(options.diff_mode(), DiffMode::Unified);
    assert_eq!(
        popup.switch_option(true, &mut options, true),
        OptionsAction::OptionSwitched(AppOption::DiffMode)
    );
    assert_eq!(options.diff_mode(), DiffMode::DeltaSideBySide);
}

#[test]
fn options_are_listed_with_their_values() {
    let options = Options::test_env();
    let popup = OptionsPopup::new();
    let lines = popup.get_text(&options, 40);
    assert!(matches!(&lines[0], OptionLine::Header(_)));
    let selected: Vec<bool> = lines
        .iter()
        .filter_map(|line| match line {
            OptionLine::Entry { selected, .. } => Some(*selected),
            OptionLine::Header(_) => None,
        })
        .collect();
    assert_eq!(selected, vec![true, false, false, false, false]);
}

// ------------------------------------------------------------- push

#[test]
fn test_group_digits() {
    assert_eq!(group_digits(0), "0");
    assert_eq!(group_digits(999), "999");
    assert_eq!(group_digits(1_000), "1,000");
    assert_eq!(group_digits(12_345_678), "12,345,678");
}

#[test]
fn test_format_bytes() {
    assert_eq!(format_bytes(512), "512 B");
    assert_eq!(format_bytes(2_048), "2.0 KB");
    assert_eq!(format_bytes(1_500_000), "1.4 MB");
    assert_eq!(format_bytes(3_221_225_472), "3.0 GB");
}

#[test]
fn a_push_goes_from_start_to_end() {
    let mut popup = PushPopup::new();
    let start = popup.push("main".to_string(), PushType::Branch, true, false, Ok(true), false);
    assert_eq!(start, Ok(PushStart::AskCredential));
    assert!(popup.visible);
    match popup.push_to_remote("origin".to_string(), true, None) {
        PushStep::Request(request) => {
            assert_eq!(request.remote, "origin");
            assert_eq!(request.branch, "main");
            assert!(request.force);
            assert!(!request.delete);
        }
        PushStep::ShowError(_) => panic!("no hook has failed"),
    }
    assert!(popup.any_work_pending());
    assert_eq!(popup.detail_line(Some("1.5")), "connecting · 1.5s");
    popup.progress = Some(PushProgress {
        remote: RemoteProgress {
            state: RemoteProgressState::Pushing,
            progress: ProgressPercent { progress: 40 },
        },
        current: 1_200,
        total: 3_000,
        bytes: Some(2_048),
    });
    assert_eq!(popup.detail_line(None), "1,200/3,000 objects · 2.0 KB");
    assert_eq!(popup.gauge_content(), (Some(RemoteProgressState::Pushing), 40));
    let error = popup.update_git(true, false, None, Some("rejected".to_string()));
    assert!(error.unwrap().contains("rejected"));
    assert!(!popup.visible);
}

#[test]
fn hooks_can_stop_a_push() {
    let mut popup = PushPopup::new();
    assert_eq!(
        popup.push("main".to_string(), PushType::Branch, false, false, Ok(false), false),
        Ok(PushStart::Plain)
    );
    assert!(matches!(
        popup.push_to_remote("origin".to_string(), false, Some("no".to_string())),
        PushStep::ShowError(message) if message.contains("no")
    ));
    assert_eq!(push_remote(Some("a".to_string()), Err("none".to_string())), Ok("a".to_string()));
    assert_eq!(push_remote(None, Err("none".to_string())), Err("none".to_string()));
}

// ------------------------------------------------------------- searching

fn texts(items: &[&str]) -> Vec<String> {
    items.iter().map(|s| s.to_string()).collect()
}

#[test]
fn content_is_searched_without_regard_to_case() {
    assert_eq!(
        substring_match_indices("Hello Hello", "hello hello", "ell"),
        Some(vec![1, 2, 3, 7, 8, 9])
    );
    assert_eq!(substring_match_indices("Hello", "hello", "x"), None);
    let contents = texts(&["Alpha", "beta", "ALPHABET"]);
    let lower = texts(&["alpha", "beta", "alphabet"]);
    let hits = search_lines(&vec![0, 1, 2], &contents, &lower, "alpha");
    let found: Vec<usize> = hits.iter().map(|hit| hit.index).collect();
    assert_eq!(found, vec![0, 2]);
}

#[test]
fn a_content_search_is_narrowed_and_chosen_from() {
    let mut popup = ContentSearchPopup::new();
    popup.open(texts(&["one", "two", "TWOFOLD"]));
    let request = popup.update_query("tw").unwrap();
    let hits = popup.search(&request);
    popup.update(request.generation, request.query, hits);
    let narrower = popup.update_query("two").unwrap();
    assert_eq!(narrower.candidates, vec![1, 2]);
    let hits = popup.search(&narrower);
    popup.update(narrower.generation, narrower.query, hits);
    popup.event(Some(&press(Key::MoveDown)), None);
    let event = popup.event(Some(&press(Key::Enter)), None);
    let selected = event.selected.unwrap();
    assert_eq!(selected.line, 2);
    assert_eq!(selected.matching_lines, vec![1, 2]);
    assert_eq!(selected.query, "two");
    assert!(!popup.list.visible);
}

#[test]
fn fuzzy_hits_are_ranked_by_score() {
    let scored = |index, score| Scored { score, hit: Hit { index, matches: vec![] } };
    let ranked = rank(vec![scored(0, 5), scored(1, 9), scored(2, 5)]);
    let order: Vec<usize> = ranked.iter().map(|hit| hit.index).collect();
    assert_eq!(order, vec![1, 0, 2]);
}

#[test]
fn fuzzy_search_finds_scattered_letters() {
    let mut popup = FuzzyFindPopup::new();
    popup.open(texts(&["src/main.rs", "README.md", "src/lib.rs"]), FuzzyFinderTarget::Files);
    let request = popup.update_query("smn").unwrap();
    let hits = popup.search(&request);
    assert_eq!(hits.len(), 1);
    assert_eq!(hits[0].index, 0);
    assert_eq!(hits[0].matches.len(), 3);
    let changed = popup.update(request.generation, request.query, hits).unwrap();
    assert_eq!(changed.index, 0);
    assert_eq!(changed.text, "src/main.rs");
    assert_eq!(changed.target, FuzzyFinderTarget::Files);
}

#[test]
fn fuzzy_search_puts_the_best_match_first() {
    let contents = texts(&["zmzazizn", "src/main.rs", "other", "main"]);
    let hits = search_texts(&vec![0, 1, 2, 3], &contents, "main");
    let order: Vec<usize> = hits.iter().map(|hit| hit.index).collect();
    assert_eq!(order, vec![3, 1, 0]);
    assert_eq!(hits[0].matches, vec![0, 1, 2, 3]);
    assert_eq!(hits[1].matches, vec![4, 5, 6, 7]);
    assert_eq!(hits[2].matches, vec![1, 3, 5, 7]);

    let mut popup = FuzzyFindPopup::new();
    popup.open(contents, FuzzyFinderTarget::Files);
    let request = popup.update_query("main").unwrap();
    let hits = popup.search(&request);
    let changed = popup.update(request.generation, request.query, hits).unwrap();
    assert_eq!(changed.index, 3);
    assert_eq!(changed.text, "main");
}

#[test]
fn outdated_hits_are_dropped() {
    let mut list = MatchList::new();
    list.contents = texts(&["a", "ab"]);
    let first = list.set_query(Some("a".to_string())).unwrap();
    let second = list.set_query(Some("ab".to_string())).unwrap();
    let hit = |index| Hit { index, matches: vec![0] };
    assert!(!list.update(first.generation, first.query, vec![hit(0), hit(1)]));
    assert!(list.filtered.is_empty());
    assert!(list.update(second.generation, second.query, vec![hit(1)]));
    assert_eq!(list.selected_index(), Some(1));
    assert!(!list.move_selection(ScrollType::Down));
    assert_eq!(marks(4, 3, &vec![1, 3]), vec![true, false, true]);
    let rows = list.draw_matches_list(Some(1), 1, 3);
    let row = rows[0].as_ref().unwrap();
    assert_eq!((rows.len(), &row.letters, &row.marked), (1, &texts(&["b"]), &vec![false]));
    assert!(row.selected);
    let rows = list.draw_matches_list(Some(0), 9, 3);
    let row = rows[0].as_ref().unwrap();
    assert_eq!((&row.letters, &row.marked), (&texts(&["a", "b"]), &vec![true, false]));
    assert!(!row.selected);
    list.close();
    assert!(!list.visible);
}

// ------------------------------------------------------------- commits

#[test]
fn only_added_commit_files_use_full_file_preview() {
    let uses_full_file_preview = inspect_commit::uses_full_file_preview;
    assert!(uses_full_file_preview(StatusItemType::New));
    assert!(!uses_full_file_preview(StatusItemType::Modified));
    assert!(!uses_full_file_preview(StatusItemType::Deleted));
    assert!(!uses_full_file_preview(StatusItemType::Renamed));
    assert!(!uses_full_file_preview(StatusItemType::Typechange));
    assert!(!uses_full_file_preview(StatusItemType::Conflicted));
}

#[test]
fn an_inspected_commit_shows_its_tags() {
    let mut popup = InspectCommitPopup::new();
    let tags = Some(texts(&["v1", "v2"]));
    let actions = popup.open(InspectCommitOpen::new_with_tags(id(4), tags.clone()));
    assert!(matches!(
        &actions[..],
        [
            InspectAction::ShowDetails,
            InspectAction::FocusDetails(true),
            InspectAction::SetCommit(commit, told),
            InspectAction::UpdateDiff,
        ] if *commit == id(4) && *told == tags
    ));
    let actions = popup.update_git(InspectNotification::CommitFiles);
    assert!(matches!(
        &actions[..],
        [InspectAction::SetCommit(commit, told), InspectAction::UpdateDiff]
            if *commit == id(4) && *told == tags
    ));
}

#[test]
fn added_files_of_a_commit_are_previewed_once() {
    let mut popup = InspectCommitPopup::new();
    popup.open(InspectCommitOpen::new(id(4)));
    let file = Some(StatusItem { path: "new.rs".to_string(), status: StatusItemType::New });
    let options = DiffOptions { context: 3, interhunk_lines: 0, ignore_whitespace: false };
    let actions = popup.update_diff(&file, options, &None);
    assert!(actions
        .iter()
        .any(|a| matches!(a, InspectAction::LoadPreview(path, commit) if path == "new.rs" && *commit == id(4))));
    assert_eq!(popup.right_pane, RightPane::File);
    let again = popup.update_diff(&file, options, &None);
    assert!(!again.iter().any(|a| matches!(a, InspectAction::LoadPreview(_, _))));
    let changed = Some(StatusItem { path: "old.rs".to_string(), status: StatusItemType::Modified });
    let actions = popup.update_diff(&changed, options, &None);
    assert_eq!(popup.right_pane, RightPane::Diff);
    assert!(actions.iter().any(|a| matches!(a, InspectAction::RequestDiff(_))));
    assert_eq!(popup.columns(40), (40, 60));
}

// ------------------------------------------------------------- tabs

#[test]
fn only_new_status_items_use_full_file_preview() {
    let uses_full_file_preview = status::uses_full_file_preview;
    assert!(uses_full_file_preview(StatusItemType::New));
    assert!(!uses_full_file_preview(StatusItemType::Modified));
    assert!(!uses_full_file_preview(StatusItemType::Deleted));
    assert!(!uses_full_file_preview(StatusItemType::Renamed));
    assert!(!uses_full_file_preview(StatusItemType::Typechange));
    assert!(!uses_full_file_preview(StatusItemType::Conflicted));
}

#[test]
fn unborn_head_shows_empty_state_and_can_retry_after_commit() {
    let mut tab = FilesTab::new(None);
    tab.show();
    tab.update(Head::Unborn);

    assert!(tab.files.can_retry());
    assert!(tab.files.revision().is_none());

    let (state, step) = tab.event(&press(Key::Enter), false, &None);
    assert_eq!(state, EventState::Consumed);
    assert!(matches!(step, FilesStep::ReadHead));
    let head = id(12);
    let info = CommitInfo { id: head, message: "initial".to_string() };
    let actions = tab.update(Head::Commit(head, Ok(info), None));
    assert!(actions.iter().any(|a| matches!(a, RevisionAction::RequestFiles(commit) if *commit == head)));
    assert_eq!(tab.files.revision().map(|c| c.id), Some(head));
}

#[test]
fn unreadable_heads_are_told() {
    let mut tab = FilesTab::new(None);
    tab.show();
    tab.update(Head::Failed("locked".to_string()));
    let message = tab.files.list_message("loading", "press enter").unwrap();
    assert!(message.contains("Unable to read HEAD: locked"));
}

#[test]
fn stashes_change_only_when_confirmed() {
    let mut list = StashList::new();
    assert_eq!(list.show(), list.update());
    let state = ListState { selected: Some(id(1)), marked: vec![id(1), id(2)] };
    let (used, outcome) = list.event(false, Some(&press(Key::StashDrop)), &state);
    assert_eq!(used, EventState::NotConsumed);
    let action = match outcome {
        StashOutcome::Confirm(action) => action,
        _ => panic!("a drop has to be confirmed"),
    };
    assert_eq!(action, Action::StashDrop(vec![id(1), id(2)]));
    let steps = list.action_confirmed(&action);
    assert_eq!(steps[0], StashStep::Drop(id(1)));
    assert_eq!(steps[1], StashStep::Drop(id(2)));
    assert!(steps.contains(&StashStep::ClearMarked));
    assert_eq!(list.columns(50), (100, 0));
    list.event(false, Some(&press(Key::Enter)), &state);
    assert_eq!(list.columns(50), (50, 50));
}

#[test]
fn worktree_edits_are_detected_without_status_or_size_changes() {
    let first = preview_result(Ok((b"first".to_vec(), 11)), None);
    assert_eq!(first, PreviewResult::Changed { bytes: b"first".to_vec(), hash: 11 });
    assert_eq!(preview_result(Ok((b"first".to_vec(), 11)), Some(11)), PreviewResult::Unchanged);
    assert_eq!(
        preview_result(Ok((b"other".to_vec(), 12)), Some(11)),
        PreviewResult::Changed { bytes: b"other".to_vec(), hash: 12 }
    );
}

#[test]
fn read_errors_are_not_cached_as_unchanged() {
    assert!(matches!(
        preview_result(Err("not found".to_string()), Some(1)),
        PreviewResult::Error(_)
    ));
    let mut job = StatusFilePreviewJob::new("missing".to_string(), false, 5, None);
    assert!(job.result().is_none());
    job.finish(Ok((b"now exists".to_vec(), 3)));
    assert_eq!(
        job.result(),
        Some((5, PreviewResult::Changed { bytes: b"now exists".to_vec(), hash: 3 }))
    );
    assert!(job.result().is_none());
}

#[test]
fn texts_are_cut_at_their_start() {
    assert_eq!(trim_length_left("main.rs", 3), ".rs");
    assert_eq!(trim_length_left("main.rs", 9), "main.rs");
    // three bytes each
    assert_eq!(trim_length_left("\u{4e16}\u{754c}", 4), "\u{754c}");
    assert_eq!(trim_length_left("\u{4e16}\u{754c}", 2), "\u{4e16}\u{754c}");
    assert_eq!(trim_offset("test", 1), "est");
    assert_eq!(trim_offset("\u{4e16}x", 1), "\u{4e16}x");
    assert_eq!(trim_offset("\u{4e16}x", 2), "x");
    assert_eq!(tabs_to_spaces("\ta\tb"), "  a  b");
}
