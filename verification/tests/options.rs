//! Options, color schemes and external diff tools.
use gitui::asyncgit::diff::DiffType;
use gitui::asyncgit::sync::{CommitId, ShowUntrackedFilesConfig};
use gitui::components::diff::DiffMode;
use gitui::external_diff::{
    arguments, exit_message, hand_over, launch_failed, missing_tool, removes_snapshots,
    repository_diff, snapshot_paths, snapshots, take_back, Argument, Comparison, Content,
    DeltaStatus, FileDelta, SnapshotError, TerminalStep, TreeRef, ViewerExit,
};
use gitui::options::{
    ExternalDiffCommand, ExternalDiffTool, ExternalDiffTools, GlobalOptions, Options,
};
use gitui::os_theme::{
    self,
    parse_gsettings_scheme, parse_portal_scheme, parse_registry_scheme, scheme_from_gsettings,
    scheme_from_portal, settings_action, ColorScheme, SettingsAction, SettingsPoll,
};
use gitui::paths::{absolute_path, compare_paths, extension, file_name, join_path, same_path};
use gitui::watcher::RefreshSlot;

#[test]
fn set_commit_draft_normalizes_empty_to_none() {
    let mut opts = Options::test_env();
    opts.set_commit_draft(Some("wip: draft".to_string()));
    assert_eq!(opts.commit_draft(), Some(&"wip: draft".to_string()));

    opts.set_commit_draft(Some(String::new()));
    assert_eq!(opts.commit_draft(), None);

    opts.set_commit_draft(None);
    assert_eq!(opts.commit_draft(), None);
}

/// Clearing the draft text must also clear the saved cursor, so a
/// stale cursor can never outlive its text.
#[test]
fn clearing_draft_clears_cursor() {
    let mut opts = Options::test_env();
    opts.set_commit_draft(Some("wip: draft".to_string()));
    opts.set_commit_draft_cursor(Some((2, 5)));
    assert_eq!(opts.commit_draft_cursor(), Some((2, 5)));

    // clearing via empty string clears the cursor too
    opts.set_commit_draft(Some(String::new()));
    assert_eq!(opts.commit_draft(), None);
    assert_eq!(opts.commit_draft_cursor(), None);

    // setting a cursor without a draft text is a no-op
    opts.set_commit_draft_cursor(Some((1, 1)));
    assert_eq!(opts.commit_draft_cursor(), None);
}

#[test]
fn changes_are_to_be_saved_once() {
    let mut opts = Options::new(None);
    assert!(!opts.take_unsaved());
    opts.set_current_tab(2);
    assert_eq!(opts.current_tab(), 2);
    assert!(opts.take_unsaved());
    assert!(!opts.take_unsaved());
    opts.set_status_show_untracked(Some(ShowUntrackedFilesConfig::All));
    assert_eq!(opts.status_show_untracked(), Some(ShowUntrackedFilesConfig::All));
    opts.set_diff_mode(DiffMode::Unified);
    assert_eq!(opts.diff_mode(), DiffMode::Unified);
}

#[test]
fn the_history_of_messages_is_bounded_and_starts_with_the_latest() {
    let mut opts = Options::test_env();
    assert!(!opts.has_commit_msg_history());
    opts.add_commit_msg("first");
    opts.add_commit_msg("second");
    opts.add_commit_msg("first");
    assert_eq!(opts.commit_msg(0), Some("first".to_string()));
    assert_eq!(opts.commit_msg(1), Some("second".to_string()));
    for n in 0..40 {
        opts.add_commit_msg(&format!("message {n}"));
    }
    assert_eq!(opts.data.commit_msgs.len(), 20);
    assert_eq!(opts.commit_msg(0), Some("message 39".to_string()));
}

#[test]
fn diff_options_stay_in_their_range() {
    let mut opts = Options::test_env();
    let context = opts.diff_options().context;
    opts.diff_context_change(true);
    assert_eq!(opts.diff_options().context, context + 1);
    opts.diff_hunk_lines_change(false);
    assert_eq!(opts.diff_options().interhunk_lines, 0);
    opts.diff_toggle_whitespace();
    assert!(opts.diff_options().ignore_whitespace);
}

#[test]
fn external_diff_selection_persists() {
    let mut opts = Options::new(None);
    opts.set_external_diff_tool(ExternalDiffTool::Vscode);
    assert!(opts.take_unsaved());
    assert_eq!(
        Options::new(Some(opts.data)).external_diff_tool(None),
        ExternalDiffTool::Vscode
    );
}

#[test]
fn commit_draft_persists_to_disk() {
    let mut opts1 = Options::new(None);
    opts1.set_commit_draft(Some("wip: from disk".to_string()));
    opts1.set_commit_draft_cursor(Some((1, 3)));
    assert!(opts1.take_unsaved());

    let mut opts2 = Options::new(Some(opts1.data));
    assert_eq!(opts2.commit_draft(), Some(&"wip: from disk".to_string()));
    assert_eq!(opts2.commit_draft_cursor(), Some((1, 3)));

    // clearing also persists (and clears the cursor)
    opts2.set_commit_draft(None);
    assert!(opts2.take_unsaved());
    let opts3 = Options::new(Some(opts2.data));
    assert_eq!(opts3.commit_draft(), None);
    assert_eq!(opts3.commit_draft_cursor(), None);
}

#[test]
fn paths_without_a_working_directory_stay() {
    assert_eq!(absolute_path(Some("/work"), "a/b"), "/work/a/b");
    assert_eq!(absolute_path(None, "a/b"), "a/b");
}

#[test]
fn the_tool_of_the_repository_goes_before_that_of_the_user() {
    let mut opts = Options::test_env();
    assert_eq!(opts.external_diff_tool(Some(ExternalDiffTool::Nvim)), ExternalDiffTool::Nvim);
    opts.set_external_diff_tool(ExternalDiffTool::Vscode);
    assert_eq!(opts.external_diff_tool(Some(ExternalDiffTool::Nvim)), ExternalDiffTool::Vscode);

    let command = ExternalDiffCommand { command: "my-code".to_string(), args: vec![] };
    let global = GlobalOptions {
        external_diff_tools: Some(ExternalDiffTools {
            beyondcompare: None,
            nvim: None,
            vscode: Some(command),
        }),
        ..GlobalOptions::default()
    };
    assert_eq!(opts.external_diff_command(&global, false).command, "my-code");
    opts.set_external_diff_tool(ExternalDiffTool::BeyondCompare);
    let usual = opts.external_diff_command(&global, true);
    assert_eq!(usual.command, "BComp.exe");
    assert_eq!(usual.args, vec!["{left}", "{right}"]);
    assert_eq!(ExternalDiffTool::Nvim.default_command(false).command, "nvim");
}

#[test]
fn ratios_have_limits() {
    let opts = Options::test_env();
    assert_eq!(opts.status_left_ratio(&None), opts.status_left_ratio(&Some(GlobalOptions::default())));
    let wide = GlobalOptions { status_left_ratio: Some(100), ..GlobalOptions::default() };
    assert!(opts.status_left_ratio(&Some(wide)) <= 100);
    let deep = GlobalOptions { preview_tree_depth: Some(3), ..GlobalOptions::default() };
    assert_eq!(opts.preview_tree_depth(&Some(deep)), 3);
}

// ------------------------------------------------------------- color schemes

#[test]
fn linux_settings_values() {
    for (text, expected) in [
        ("v v u 1", ColorScheme::Dark),
        ("v v u 2\n", ColorScheme::Light),
        ("v u 2", ColorScheme::Light),
        ("v v u 0", ColorScheme::Unknown),
        ("v v u 3", ColorScheme::Unknown),
        ("error 2", ColorScheme::Unknown),
        ("", ColorScheme::Unknown),
    ] {
        assert_eq!(parse_portal_scheme(text), expected, "{text}");
    }
    for (text, expected) in [
        ("'prefer-light'\n", ColorScheme::Light),
        ("'prefer-dark'", ColorScheme::Dark),
        ("'default'", ColorScheme::Unknown),
        ("", ColorScheme::Unknown),
        ("'unexpected'", ColorScheme::Unknown),
    ] {
        assert_eq!(parse_gsettings_scheme(text), expected, "{text}");
    }
}

#[test]
fn detected_scheme_maps_to_external_tool_modes() {
    assert_eq!(ColorScheme::Light.bat_theme(), Some("light"));
    assert_eq!(ColorScheme::Light.delta_flag(), Some("--light"));
    assert_eq!(ColorScheme::Dark.bat_theme(), Some("dark"));
    assert_eq!(ColorScheme::Dark.delta_flag(), Some("--dark"));
    assert_eq!(ColorScheme::Unknown.bat_theme(), None);
    assert_eq!(ColorScheme::Unknown.delta_flag(), None);
}

#[test]
fn settings_are_asked_in_turn_and_not_for_long() {
    assert_eq!(scheme_from_portal(Some("v v u 1")), Some(ColorScheme::Dark));
    assert_eq!(scheme_from_portal(Some("v v u 0")), None);
    assert_eq!(scheme_from_portal(None), None);
    assert_eq!(scheme_from_gsettings(None), ColorScheme::Unknown);
    assert_eq!(scheme_from_gsettings(Some("'prefer-dark'")), ColorScheme::Dark);
    assert_eq!(settings_action(SettingsPoll::Exited(true), true), SettingsAction::ReadOutput);
    assert_eq!(settings_action(SettingsPoll::Exited(false), true), SettingsAction::GiveUp);
    assert_eq!(settings_action(SettingsPoll::Running, true), SettingsAction::Sleep);
    assert_eq!(settings_action(SettingsPoll::Running, false), SettingsAction::Kill);
    assert_eq!(
        parse_registry_scheme("    AppsUseLightTheme    REG_DWORD    0x0"),
        ColorScheme::Dark
    );
    assert_eq!(parse_registry_scheme("nothing"), ColorScheme::Unknown);
}

#[test]
fn the_first_scheme_is_pinned() {
    let mut pinned = None;
    assert_eq!(os_theme::get(&pinned), ColorScheme::Unknown);
    os_theme::set(&mut pinned, ColorScheme::Dark);
    os_theme::set(&mut pinned, ColorScheme::Light);
    assert_eq!(os_theme::get(&pinned), ColorScheme::Dark);
}

// ------------------------------------------------------------- external diff

#[test]
fn arguments_preserve_spaces_and_shell_metacharacters() {
    let left = "/tmp/d/left & %value% $file.rs";
    let right = "/tmp/d/right (other); file.rs";
    let config = ExternalDiffCommand {
        command: "tool".to_string(),
        args: vec![
            "--label=a b & c; $(literal)".to_string(),
            "{left}".to_string(),
            "{right}".to_string(),
            "--left={left}".to_string(),
        ],
    };
    let args = arguments(&config, left, right);
    assert_eq!(args.len(), 4);
    assert_eq!(args[0], Argument::Text("--label=a b & c; $(literal)".to_string()));
    assert_eq!(args[1], Argument::Left);
    assert_eq!(args[2], Argument::Right);
    assert_eq!(args[3], Argument::Text(format!("--left={left}")));
}

fn id(n: u32) -> CommitId {
    CommitId { high: 0, low: n }
}

fn delta(old: &str, new: &str, status: DeltaStatus) -> FileDelta {
    FileDelta {
        old_path: Some(old.to_string()),
        new_path: Some(new.to_string()),
        old_id: Some(id(1)),
        new_id: Some(id(2)),
        status,
    }
}

#[test]
fn snapshots_are_taken_of_both_sides() {
    let renamed = vec![delta("x", "y", DeltaStatus::Other), delta("old.rs", "new.rs", DeltaStatus::Other)];
    let plan = snapshots("new.rs", DiffType::Stage, &renamed, None).unwrap();
    assert_eq!(plan.left, Content::Blob(id(1)));
    assert_eq!(plan.right, Ok(Content::Blob(id(2))));
    assert_eq!(plan.file_name, Ok("new.rs".to_string()));
    assert_eq!(
        snapshot_paths("/tmp/d", "new.rs"),
        ("/tmp/d/left/new.rs".to_string(), "/tmp/d/right/new.rs".to_string())
    );

    let plan = snapshots("new.rs", DiffType::WorkDir, &renamed, Some("/repo")).unwrap();
    assert_eq!(plan.right, Ok(Content::File("/repo/new.rs".to_string())));
    let plan = snapshots("new.rs", DiffType::WorkDir, &renamed, None).unwrap();
    assert_eq!(plan.right, Err(SnapshotError::NoWorkingDirectory));
}

#[test]
fn files_without_two_sides_are_told() {
    assert_eq!(
        snapshots("a", DiffType::Stage, &vec![], None).unwrap_err(),
        SnapshotError::NoDifference
    );
    let conflict = vec![delta("a", "a", DeltaStatus::Conflicted)];
    let error = snapshots("a", DiffType::Stage, &conflict, None).unwrap_err();
    assert_eq!(error, SnapshotError::Conflict);
    assert!(error.message().starts_with("Resolve the file's index conflict"));
    let up = vec![delta("..", "..", DeltaStatus::Other)];
    assert_eq!(
        snapshots("..", DiffType::Stage, &up, None).unwrap().file_name,
        Err(SnapshotError::NoFileName)
    );
    let mut gone = delta("a", "a", DeltaStatus::Other);
    gone.new_path = None;
    assert_eq!(
        snapshots("a", DiffType::WorkDir, &vec![gone], Some("/repo")).unwrap().right,
        Err(SnapshotError::NoFilePath)
    );
    let mut empty = delta("a", "a", DeltaStatus::Deleted);
    empty.new_id = None;
    assert_eq!(
        snapshots("a", DiffType::WorkDir, &vec![empty], Some("/repo")).unwrap().right,
        Ok(Content::Empty)
    );
    assert!(SnapshotError::NoBlob.message().contains("regular file"));
}

#[test]
fn comparisons_follow_the_kind_of_diff() {
    assert_eq!(repository_diff(DiffType::WorkDir, true, 0), Comparison::IndexToWorkdir);
    assert_eq!(repository_diff(DiffType::Stage, false, 0), Comparison::TreeToIndex(TreeRef::Nothing));
    assert_eq!(repository_diff(DiffType::Stage, true, 0), Comparison::TreeToIndex(TreeRef::Head));
    assert_eq!(
        repository_diff(DiffType::Commit(id(3)), true, 1),
        Comparison::TreeToTree(TreeRef::FirstParent(id(3)), TreeRef::Commit(id(3)))
    );
    assert_eq!(
        repository_diff(DiffType::Commit(id(3)), true, 0),
        Comparison::TreeToTree(TreeRef::Nothing, TreeRef::Commit(id(3)))
    );
}

#[test]
fn the_terminal_is_handed_over_and_taken_back() {
    assert_eq!(
        hand_over(true),
        vec![TerminalStep::DisableRawMode, TerminalStep::LeaveAlternateScreen]
    );
    assert_eq!(
        take_back(true),
        vec![TerminalStep::EnterAlternateScreen, TerminalStep::EnableRawMode]
    );
    assert_eq!(take_back(false), vec![TerminalStep::EnterAlternateScreen]);
    assert!(removes_snapshots(ViewerExit::Success));
    assert!(missing_tool("nvim").contains("nvim"));
    assert!(launch_failed("nvim").contains("nvim"));
    assert!(exit_message("nvim", "exit status: 1").contains("exit status: 1"));
}

// ------------------------------------------------------------- paths

#[test]
fn paths_are_taken_apart() {
    assert_eq!(file_name("a/b.rs"), Some("b.rs".to_string()));
    assert_eq!(file_name("a/.."), None);
    assert_eq!(extension("a/b.tar.gz"), Some("gz".to_string()));
    assert_eq!(extension("a/.bashrc"), None);
    assert_eq!(extension("a/name."), Some(String::new()));
    assert_eq!(extension("a.d/name"), None);
    assert!(same_path("a//b/", "a/b"));
    assert!(!same_path("a/b", "b/a"));
    assert_eq!(join_path("a", "b"), "a/b");
    assert!(compare_paths("a/b", "a.b") < 0);
}

// ------------------------------------------------------------- watcher

#[test]
fn one_refresh_answers_many_changes() {
    let mut slot = RefreshSlot::new();
    assert!(!slot.take());
    slot.changed(3);
    slot.changed(1);
    assert!(slot.take());
    assert!(!slot.take());
    slot.changed(0);
    assert!(!slot.take());
}
