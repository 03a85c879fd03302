//! Whole panels: the status tab, diffs and the details of commits.
use gitui::asyncgit::diff::{DiffParams, DiffType};
use gitui::asyncgit::sync::status::{DeltaKind, IndexChange, StatusFlags, StatusItem, StatusItemType};
use gitui::asyncgit::sync::{
    BranchCompare, CommitId, DiffLine, DiffLinePosition, DiffLineType, DiffOptions, FileDiff, Hunk,
    ShowUntrackedFilesConfig,
};
use gitui::components::async_delta::ProcessedDelta;
use gitui::components::commit_details::details::{CommitDetails, InfoLabels};
use gitui::components::commit_details::{self, CommitDetailsComponent, CommitFilesParams};
use gitui::components::diff::{
    delta_lines, get_text_binary, DiffAction, DiffBody, DiffComponent, DiffMode, DiffStyle,
    DiffUpdate, Selection,
};
use gitui::components::revision_files::{CommitInfo, RevisionFilesComponent, TreeSelection};
use gitui::components::syntax_text::SyntaxTextComponent;
use gitui::components::utils::scroll_vertical::VerticalScroll;
use gitui::components::{Command, CommandBlocking, Direction, EventState, Key, KeyPress, ScrollType};
use gitui::tabs::status::{
    repo_state_text, Focus, GitEvent, LineStats, Panel, Panels, RemoteStatus, RepoState,
    RepoStateInfo, RightPane, Status, StatusAction,
};
use gitui::text::{Color, Line, Span, Style};
use std::sync::Arc;

fn id(n: u32) -> CommitId {
    CommitId { high: 0x0123_4567_89ab_cdef_0123_4567_89ab_cdef, low: n }
}

fn press(key: Key) -> KeyPress {
    KeyPress { matched: vec![key] }
}

fn options() -> DiffOptions {
    DiffOptions { ignore_whitespace: false, context: 3, interhunk_lines: 0 }
}

// ------------------------------------------------------------- status tab

fn item(path: &str, status: StatusItemType) -> StatusItem {
    StatusItem { path: path.to_string(), status }
}

fn panels(index: Option<StatusItem>, workdir: Option<StatusItem>) -> Panels {
    Panels {
        index: Panel { empty: index.is_none(), file: index },
        workdir: Panel { empty: workdir.is_none(), file: workdir },
        diff: (String::new(), false),
        last_diff: None,
    }
}

#[test]
fn the_tab_previews_new_files_and_diffs_others() {
    let mut tab = Status::new();
    tab.set_visible(true);
    let fresh = panels(None, Some(item("new.rs", StatusItemType::New)));
    let actions = tab.update_diff(&fresh, options());
    assert!(actions
        .iter()
        .any(|a| matches!(a, StatusAction::LoadPreview(path, false) if path == "new.rs")));
    assert_eq!(tab.right_pane, RightPane::File);
    let again = tab.update_diff(&fresh, options());
    assert!(!again.iter().any(|a| matches!(a, StatusAction::LoadPreview(_, _))));

    let changed = panels(None, Some(item("old.rs", StatusItemType::Modified)));
    let actions = tab.update_diff(&changed, options());
    assert_eq!(tab.right_pane, RightPane::Diff);
    assert!(actions.iter().any(|a| matches!(
        a,
        StatusAction::ShowDiff(DiffParams { path, diff_type: DiffType::WorkDir, .. })
            | StatusAction::PollDiff(DiffParams { path, diff_type: DiffType::WorkDir, .. })
            if path == "old.rs"
    )));
}

#[test]
fn the_focus_moves_between_the_lists() {
    let mut tab = Status::new();
    tab.set_visible(true);
    let both = panels(
        Some(item("a", StatusItemType::Modified)),
        Some(item("b", StatusItemType::Modified)),
    );
    let mut out = Vec::new();
    assert!(tab.switch_focus(Focus::Stage, &both, options(), &mut out));
    assert!(!tab.switch_focus(Focus::Stage, &both, options(), &mut out));
    assert_eq!(tab.focus, Focus::Stage);
    assert_eq!(tab.selected_status_item(&both).map(|(file, _)| file.path), Some("a".to_string()));
    assert_eq!(Focus::Stage.toggled_focus(), Focus::WorkDir);
    assert_eq!(tab.rows(), tab.rows());
    assert_eq!(tab.columns(30), (30, 70));
}

#[test]
fn an_emptied_list_gives_the_focus_away() {
    let mut tab = Status::new();
    tab.git_action_executed = true;
    assert_eq!(tab.focus, Focus::WorkDir);
    assert_eq!(tab.focus_after_action(false, true), Some(Focus::Stage));
    assert_eq!(tab.focus_after_action(false, true), None);
}

#[test]
fn branches_are_compared_and_stale_comparisons_dropped() {
    let mut tab = Status::new();
    tab.set_visible(true);
    let actions = tab.update(
        Some("main".to_string()),
        ShowUntrackedFilesConfig::All,
        options(),
        false,
        RepoState::Clean,
    );
    assert!(actions.iter().any(|a| matches!(a, StatusAction::CompareBranch(b) if b == "main")));
    assert!(actions
        .iter()
        .any(|a| matches!(a, StatusAction::FetchStatus(ShowUntrackedFilesConfig::All))));
    let none = panels(None, None);
    let late = BranchCompare { ahead: 9, behind: 9 };
    tab.update_git(
        GitEvent::BranchCompare(Some(("other".to_string(), Some(late)))),
        &none,
        options(),
        false,
    );
    assert_eq!(tab.git_branch_state, None);
    let compared = BranchCompare { ahead: 2, behind: 1 };
    tab.update_git(
        GitEvent::BranchCompare(Some(("main".to_string(), Some(compared)))),
        &none,
        options(),
        false,
    );
    assert_eq!(tab.git_branch_state, Some(compared));
    assert_eq!(tab.branch_line(), "(main \u{2191}2 \u{2193}1)");
}

#[test]
fn counts_and_states_are_told() {
    let mut tab = Status::new();
    tab.staged_line_stats = (3, 1);
    tab.unstaged_line_stats = (0, 2);
    tab.git_branch_name = Some("main".to_string());
    assert_eq!(tab.staged_line(), "(+3 -1)");
    assert_eq!(tab.branch_line(), "(+0 -2) (main)");
    assert!(!tab.repo_state_unclean());
    tab.git_state = RepoState::Rebase;
    assert!(tab.repo_state_unclean());
    assert!(tab.state_title().starts_with("Pending "));
    assert_eq!(
        repo_state_text(&RepoStateInfo::Rebase(Some((1, 4, Some(id(1)))))),
        "Step: 2/4 Current Commit: 0123456"
    );
    assert_eq!(repo_state_text(&RepoStateInfo::Merge(vec![id(1), id(2)])), "Commits: 0123456,0123456");
    assert_eq!(repo_state_text(&RepoStateInfo::Rebase(None)), "");
    assert_eq!(repo_state_text(&RepoStateInfo::Revert(Some(id(1)))), "Revert 0123456");
    let none = panels(None, None);
    tab.update_git(
        GitEvent::LineStats(Some(LineStats { staged: (1, 1), unstaged: (2, 2) })),
        &none,
        options(),
        false,
    );
    assert_eq!(tab.staged_line(), "(+1 -1)");
}

#[test]
fn keys_of_the_tab_ask_for_what_they_name() {
    let mut tab = Status::new();
    tab.set_visible(true);
    tab.set_remotes(RemoteStatus { has_remote_for_fetch: true, has_remote_for_push: true });
    tab.git_branch_name = Some("main".to_string());
    let none = panels(None, None);
    assert!(!tab.can_fetch());
    tab.git_branch_state = Some(BranchCompare { ahead: 1, behind: 0 });
    tab.git_branch_state_branch = Some("main".to_string());
    assert!(tab.can_fetch());
    let (state, actions) = tab.event(&press(Key::Fetch), false, &none, options());
    assert_eq!(state, EventState::Consumed);
    assert!(matches!(actions[0], StatusAction::FetchRemotes));
    let (_, actions) = tab.event(&press(Key::SelectBranch), false, &none, options());
    assert!(matches!(actions[0], StatusAction::SelectBranch));
    assert!(!tab.can_commit(&none));
    assert!(tab.pumps_commands(false));
    let mut commands = Vec::new();
    tab.commands(&mut commands, &none, false);
    assert!(commands.iter().any(|c| c.command == Command::StatusFetch));
    let actions = tab.last_file_moved(&none, options());
    assert!(!actions.iter().any(|a| matches!(a, StatusAction::LoadPreview(_, _))));
    let actions = tab.items_set(&none, options());
    assert!(!actions.iter().any(|a| matches!(a, StatusAction::LoadPreview(_, _))));
}

#[test]
fn states_of_files_are_told_apart() {
    assert_eq!(StatusItemType::from_change(IndexChange::Rewrite), StatusItemType::Modified);
    assert_eq!(StatusItemType::from_delta(DeltaKind::Other), StatusItemType::Modified);
    let mut flags = StatusFlags {
        index_new: false,
        index_modified: false,
        index_deleted: false,
        index_renamed: false,
        index_typechange: false,
        wt_new: false,
        wt_modified: true,
        wt_deleted: false,
        wt_renamed: false,
        wt_typechange: false,
        conflicted: false,
    };
    assert_eq!(StatusItemType::from_flags(flags), StatusItemType::Modified);
    flags.conflicted = true;
    assert_eq!(StatusItemType::from_flags(flags), StatusItemType::Conflicted);
    flags.wt_renamed = true;
    assert_eq!(StatusItemType::from_flags(flags), StatusItemType::Renamed);
}

// ------------------------------------------------------------- diffs

fn line(kind: DiffLineType, old: Option<u32>, new: Option<u32>, content: &str) -> DiffLine {
    DiffLine {
        content: content.to_string(),
        line_type: kind,
        position: DiffLinePosition { old_lineno: old, new_lineno: new },
    }
}

fn two_hunks() -> FileDiff {
    let hunks = vec![
        Hunk {
            header_hash: 11,
            lines: vec![
                line(DiffLineType::Header, None, None, "@@ -1 +1 @@"),
                line(DiffLineType::Delete, Some(1), None, "old\n"),
                line(DiffLineType::Add, None, Some(1), "new\n"),
            ],
        },
        Hunk {
            header_hash: 22,
            lines: vec![
                line(DiffLineType::Header, None, None, "@@ -9 +9,2 @@"),
                line(DiffLineType::Context, Some(9), Some(9), "same\n"),
                line(DiffLineType::Add, None, Some(10), "more\n"),
            ],
        },
    ];
    FileDiff { hunks, lines: 6, untracked: false, sizes: (8, 13), size_delta: 5 }
}

fn unified() -> DiffComponent {
    let mut diff = DiffComponent::new(false, DiffMode::Unified);
    diff.set_area(42, 12);
    diff.focus(true);
    let then = diff.update("f.rs".to_string(), false, two_hunks(), DiffType::WorkDir, 1);
    assert_eq!(then, (DiffUpdate::Done, true));
    diff
}

#[test]
fn hunks_and_lines_are_staged() {
    let mut diff = unified();
    assert_eq!(diff.selected_hunk, Some(0));
    diff.diff_hunk_move_up_down(true);
    assert_eq!(diff.selected_hunk, Some(1));
    let (state, actions) = diff.event(&press(Key::StageUnstageItem));
    assert_eq!(state, EventState::Consumed);
    assert!(actions
        .iter()
        .any(|a| matches!(a, DiffAction::StageHunk { path, hash: 22 } if path == "f.rs")));
    diff.move_selection(ScrollType::End);
    let (_, actions) = diff.event(&press(Key::DiffStageLines));
    assert!(actions.iter().any(|a| matches!(
        a,
        DiffAction::StageLines { untracked: false, is_stage: false, lines, .. }
            if *lines == vec![DiffLinePosition { old_lineno: None, new_lineno: Some(10) }]
    )));
}

#[test]
fn selections_are_extended_and_copied() {
    let mut diff = unified();
    diff.move_selection(ScrollType::Down);
    diff.modify_selection(Direction::Down);
    assert_eq!(diff.selection, Selection::Multiple(1, 2));
    assert!(diff.selection.contains(2));
    let (_, actions) = diff.event(&press(Key::Copy));
    assert!(actions.iter().any(|a| matches!(a, DiffAction::Copy(text) if text == "old\nnew")));
    assert_eq!(diff.selected_lines().len(), 2);
}

#[test]
fn titles_count_changes_and_hunks() {
    let diff = unified();
    let title = diff.title("Diff: ");
    assert!(title.starts_with("Diff: f.rs"));
    assert!(title.contains("+2") && title.contains("-1"));
    assert_eq!(diff.body(false), DiffBody::Unified);
    let visible = diff.visible_lines(0, 4);
    assert_eq!(visible.len(), 5);
    assert!(visible[2].end_of_hunk);
    assert_eq!((visible[3].hunk, visible[3].line), (1, 0));
    assert_eq!(diff.max_scroll_right(), 0);
    assert!(diff.visible_lines(1, 0).is_empty());
    let text = diff.get_text(40, 4, 0, "+", 0);
    assert_eq!(text.len(), 5);
    let bars: Vec<&str> = text.iter().map(|line| line[0].content.as_str()).collect();
    assert_eq!(bars[2], "\u{2514}");
    assert!(text.iter().zip(&visible).all(|(line, shown)| line[0].style
        == DiffStyle::HunkMarker(shown.selected_hunk)));
    assert!(diff.get_text(40, 0, 0, "+", 0).is_empty());
    assert!(DiffComponent::new(false, DiffMode::Unified).get_text(40, 4, 0, "+", 0).is_empty());
}

#[test]
fn binary_files_show_their_sizes() {
    let diff = FileDiff { hunks: vec![], lines: 0, untracked: false, sizes: (1024, 3072), size_delta: 2048 };
    let text: String = get_text_binary(&diff).iter().map(|span| span.content.as_str()).collect();
    assert_eq!(text, "size: 1.0 KiB -> 3.0 KiB (+2.0 KiB)");
    let mut component = DiffComponent::new(false, DiffMode::Unified);
    component.update("f.bin".to_string(), false, diff, DiffType::WorkDir, 7);
    let lines = component.get_text(40, 4, 3, "+", 0);
    assert_eq!(lines.len(), 1);
    assert_eq!(lines[0].iter().map(|span| span.content.as_str()).collect::<String>(), text);
}

fn render(rows: usize) -> ProcessedDelta {
    ProcessedDelta {
        display_lines: Arc::new((0..rows).map(|_| styled("row")).collect()),
        display_hunks: Arc::new(vec![0; rows]),
        display_positions: Arc::new(vec![None; rows]),
        line_level_bgs: Arc::new(vec![None; rows]),
    }
}

fn styled(content: &str) -> Line {
    Line { spans: vec![Span::styled(content.to_string(), Style::new())] }
}

#[test]
fn renders_keep_the_cursor_inside() {
    let mut diff = DiffComponent::new(true, DiffMode::DeltaSideBySide);
    diff.set_area(42, 12);
    assert!(diff.toggle_needs_delta() != diff.is_delta_preview());
    let (then, _) = diff.update("f.rs".to_string(), false, two_hunks(), DiffType::WorkDir, 1);
    assert_eq!(then, DiffUpdate::RenderLater);
    assert_eq!(diff.body(true), DiffBody::Loading);
    diff.finish_update(Some(render(5)));
    diff.move_selection(ScrollType::End);
    assert_eq!(diff.selection, Selection::Single(4));
    diff.apply_delta(Some(render(2)));
    assert_eq!(diff.selection, Selection::Single(1));
    let params = diff.delta_params();
    assert_eq!((params.path.as_str(), params.width, params.side_by_side), ("f.rs", 40, true));
    assert!(!diff.needs_refresh());
    diff.set_area(62, 12);
    assert!(diff.needs_refresh());
}

#[test]
fn the_row_under_the_cursor_is_highlighted() {
    let rows = vec![styled("one"), styled("two"), styled("three")];
    let cursor = Style::new().bg(Color::Blue);
    let drawn = delta_lines(&rows, 1, 5, 2, 10, Style::new(), cursor);
    assert_eq!(drawn.len(), 2);
    assert!(drawn[0].spans.iter().all(|span| span.style.bg.is_none()));
    assert!(drawn[1].spans.iter().all(|span| span.style.bg == Some(Color::Blue)));
    let text = Style::new().fg(Color::Gray);
    let drawn = delta_lines(&vec![], 1, 5, 2, 10, text, cursor);
    assert_eq!(drawn.len(), 1);
    assert_eq!(drawn[0].spans, vec![Span::styled("No delta output available.".to_string(), text)]);
}

// ------------------------------------------------------------- commit details

#[test]
fn details_follow_the_commit_and_the_focus() {
    let mut details = CommitDetailsComponent::new();
    details.show();
    let params = CommitFilesParams { id: id(1), other: None };
    let data = CommitDetails { hash: id(1).to_hex(), ..CommitDetails::default() };
    let files = vec![item("a.rs", StatusItemType::Modified)];
    let fetched = Some((CommitFilesParams { id: id(1), other: None }, files, 7));
    let fetch = details.set_commits(Some(params), Some(data), None, fetched, "Files");
    assert_eq!(fetch, Ok(false));
    assert_eq!(details.files().file_count(), 1);
    assert!(!details.is_compare());
    details.set_focused(true);
    assert!(details.focused());
    assert_eq!(details.heights(), (false, 40, 60));
    details.set_focus(commit_details::Focus::Message);
    assert_eq!(details.heights(), (false, 60, 40));
    details.focus_details();
    assert!(!details.focused());
    details.files_fetched();
    assert!(!details.any_work_pending());
    let labels = InfoLabels {
        author: String::new(),
        date: String::new(),
        committer: String::new(),
        hash: String::new(),
        tags: String::new(),
    };
    let (state, _, _) = details.event(&press(Key::Blame), false, &labels);
    assert_eq!(state, EventState::NotConsumed);
    let mut commands = Vec::new();
    assert_eq!(details.commands(&mut commands, &vec![], false), CommandBlocking::PassingOn);
    assert_eq!(commands.len(), 7);
    // down to the message and back up
    details.set_focus(commit_details::Focus::Info);
    let (state, _, _) = details.event(&press(Key::PopupDown), false, &labels);
    assert_eq!((state, details.focus), (EventState::Consumed, commit_details::Focus::Message));
    let (state, _, _) = details.event(&press(Key::PopupUp), false, &labels);
    assert_eq!((state, details.focus), (EventState::Consumed, commit_details::Focus::Info));
}

#[test]
fn comparisons_have_a_fixed_height() {
    let mut details = CommitDetailsComponent::new();
    let params = CommitFilesParams { id: id(1), other: Some(id(2)) };
    let fetch = details.set_commits(Some(params), None, None, None, "Files");
    assert_eq!(fetch, Ok(true));
    assert!(details.is_compare());
    assert_eq!(details.heights(), (true, 10, 0));
}

// ------------------------------------------------------------- files

#[test]
fn titles_of_trees_are_cut_to_their_width() {
    let mut files = RevisionFilesComponent::new(None);
    assert_eq!(files.title_within(80), "Files at");
    let message = "a long subject line\nbody".to_string();
    files.set_commit(id(1), Ok(CommitInfo { id: id(1), message }), None);
    assert_eq!(files.title_within(80), "Files at {0123456} [a long subject line]");
    assert_eq!(files.title_within(29), "Files at {0123456} [a lon\u{2026}]");
    assert_eq!(files.draw_tree(Some((0, 3)), 6), 4);
    let selected = Some(TreeSelection { full_path: "src".to_string(), is_file: false });
    assert_eq!(files.selection_changed(&selected).len(), 1);
    assert!(files.asks_tree(&press(Key::MoveDown)));
}

#[test]
fn previews_scroll_within_their_text() {
    let mut preview = SyntaxTextComponent::new();
    preview.set_width(12);
    assert_eq!(preview.render_width, 10);
    preview.focus(true);
    assert!(preview.is_focused());
    preview.clamp_scroll();
    assert_eq!(preview.paragraph_state.scroll().y, 0);
}

#[test]
fn scrolling_stays_inside() {
    let mut scroll = VerticalScroll::new();
    assert_eq!(scroll.update_no_selection(10, 4), 0);
    assert!(scroll.move_top(ScrollType::End));
    assert_eq!(scroll.get_top(), 6);
    assert!(!scroll.move_top(ScrollType::Down));
    assert_eq!(scroll.update(0, 10, 4), 0);
    scroll.reset();
    assert_eq!(scroll.get_top(), 0);
}
