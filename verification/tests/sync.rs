//! Repositories: status, trees, pushes, credentials, the reflog.
use gitui::asyncgit::sync::reflog::{get_reflog, RawEntry, ReflogAction};
use gitui::asyncgit::sync::remotes::callbacks::{
    ssh_key_path, AllowedTypes, BasicAuthCredential, Callbacks, CredentialError, CredentialStep,
    SshStep, SSH_KEYS,
};
use gitui::asyncgit::sync::remotes::push::{
    check_lease, push_plan, push_result, tracking_ref, PushType, Refspec, Refusal,
};
use gitui::asyncgit::sync::status::{
    get_status, get_status_split, is_workdir_clean, scans_nothing, staged_status_type, workdir_status_type,
    DeltaKind, IndexChange, Scanned, StatusEntry, StatusError, StatusFlags, StatusItem,
    StatusItemType, StatusType, WorktreeSummary,
};
use gitui::asyncgit::sync::tree::{
    path_cmp, sort_file_list, status_file_bytes, tree_files, FileSource, FileSourceError, TreeFile,
    TreeNode,
};
use gitui::asyncgit::sync::{CommitId, ShowUntrackedFilesConfig};
use std::cmp::Ordering;

fn id(n: u32) -> CommitId {
    CommitId { high: 0, low: n }
}

// --------------------------------------------------------------------- status

fn no_flags() -> StatusFlags {
    StatusFlags {
        index_new: false,
        index_modified: false,
        index_deleted: false,
        index_renamed: false,
        index_typechange: false,
        wt_new: false,
        wt_modified: false,
        wt_deleted: false,
        wt_renamed: false,
        wt_typechange: false,
        conflicted: false,
    }
}

fn entry(path: &str, flags: StatusFlags) -> StatusEntry {
    StatusEntry { flags, path: Some(path.to_string()), staged_path: None, workdir_path: None }
}

fn item(path: &str, status: StatusItemType) -> StatusItem {
    StatusItem { path: path.to_string(), status }
}

#[test]
fn test_get_status_split_maps_conflicts_only_to_workdir() {
    let conflict = StatusFlags { conflicted: true, index_modified: true, ..no_flags() };
    assert_eq!(staged_status_type(conflict), None);
    assert_eq!(workdir_status_type(conflict), Some(StatusItemType::Conflicted));
}

#[test]
fn test_get_status_split_maps_index_and_workdir_independently() {
    let flags = StatusFlags { index_new: true, wt_deleted: true, ..no_flags() };
    let (staged, workdir) =
        get_status_split(false, false, &vec![entry("new-then-deleted.txt", flags)]).unwrap();
    assert_eq!(staged, vec![item("new-then-deleted.txt", StatusItemType::New)]);
    assert_eq!(workdir, vec![item("new-then-deleted.txt", StatusItemType::Deleted)]);
}

#[test]
fn test_get_status_split_uses_staged_rename_destination() {
    let renamed = StatusEntry {
        staged_path: Some(Some("new-name.txt".to_string())),
        ..entry("old-name.txt", StatusFlags { index_renamed: true, ..no_flags() })
    };
    let (staged, workdir) = get_status_split(false, false, &vec![renamed]).unwrap();
    assert_eq!(staged, vec![item("new-name.txt", StatusItemType::Renamed)]);
    assert!(workdir.is_empty());
}

#[test]
fn test_get_status_split_is_empty_for_bare_repository() {
    let flags = StatusFlags { index_new: true, wt_new: true, ..no_flags() };
    let entries = vec![entry("x", flags), StatusEntry { path: None, ..entry("y", flags) }];
    assert!(scans_nothing(true, false));
    let (staged, workdir) = get_status_split(true, false, &entries).unwrap();
    assert!(staged.is_empty());
    assert!(workdir.is_empty());
    assert_eq!(get_status_split(true, true, &entries), Err(StatusError::EntryPath));
    assert_eq!(get_status_split(false, false, &entries), Err(StatusError::EntryPath));
    let (staged, workdir) = get_status_split(false, false, &vec![]).unwrap();
    assert!(staged.is_empty());
    assert!(workdir.is_empty());
    assert!(is_workdir_clean(true, false, 7));
    assert!(!is_workdir_clean(true, true, 7));
    assert!(!is_workdir_clean(false, false, 7));
    assert!(is_workdir_clean(false, false, 0));
}

#[test]
fn conflicts_are_listed_in_the_working_directory_alone() {
    let conflict = StatusFlags { conflicted: true, index_modified: true, ..no_flags() };
    let changed = StatusFlags { wt_modified: true, ..no_flags() };
    let entries = vec![entry("b", conflict), entry("a", changed)];
    let (staged, workdir) = get_status_split(false, false, &entries).unwrap();
    assert!(staged.is_empty());
    assert_eq!(
        workdir,
        vec![item("a", StatusItemType::Modified), item("b", StatusItemType::Conflicted)]
    );
    assert!(workdir.iter().all(|item| item.status != StatusItemType::New));
}

#[test]
fn untracked_files_are_listed_as_set() {
    assert_eq!(ShowUntrackedFilesConfig::of_setting(Some("no")), ShowUntrackedFilesConfig::No);
    assert_eq!(ShowUntrackedFilesConfig::of_setting(Some("normal")), ShowUntrackedFilesConfig::Normal);
    assert_eq!(ShowUntrackedFilesConfig::of_setting(Some("all")), ShowUntrackedFilesConfig::All);
    assert_eq!(ShowUntrackedFilesConfig::of_setting(None), ShowUntrackedFilesConfig::All);
    assert!(!ShowUntrackedFilesConfig::No.include_untracked());
    assert!(ShowUntrackedFilesConfig::Normal.include_untracked());
    assert!(!ShowUntrackedFilesConfig::Normal.recurse_untracked_dirs());
    assert!(ShowUntrackedFilesConfig::All.include_untracked() && ShowUntrackedFilesConfig::All.recurse_untracked_dirs());
}

#[test]
fn scans_are_sorted_by_path() {
    let scan = vec![
        Scanned::Worktree("b".to_string(), Some(WorktreeSummary::Removed)),
        Scanned::Worktree("same".to_string(), None),
        Scanned::Unreadable,
        Scanned::Index("a/z".to_string(), IndexChange::Addition),
        Scanned::Index("a-b".to_string(), IndexChange::Rewrite),
    ];
    assert_eq!(
        get_status(StatusType::WorkingDir, &scan).unwrap(),
        vec![
            item("a/z", StatusItemType::New),
            item("a-b", StatusItemType::Modified),
            item("b", StatusItemType::Deleted),
        ]
    );
    assert_eq!(get_status(StatusType::Both, &scan), None);
}

#[test]
fn unreadable_paths_fail_a_combined_scan() {
    let flags = StatusFlags { index_new: true, wt_new: true, ..no_flags() };
    let staged = StatusEntry { staged_path: Some(None), ..entry("x", flags) };
    assert_eq!(get_status_split(false, false, &vec![staged]), Err(StatusError::StagedPath));
    let worktree = StatusEntry { workdir_path: Some(None), ..entry("x", flags) };
    assert_eq!(get_status_split(false, false, &vec![worktree]), Err(StatusError::WorktreePath));
    let path = StatusEntry { path: None, ..entry("x", flags) };
    assert_eq!(get_status_split(false, false, &vec![path]), Err(StatusError::EntryPath));
    assert_eq!(
        StatusError::StagedPath.message(),
        Some("failed to get path to staged file.")
    );
    assert_eq!(
        StatusError::WorktreePath.message(),
        Some("failed to get path to worktree file.")
    );
    assert_eq!(StatusError::EntryPath.message(), None);
}

#[test]
fn kinds_of_changes() {
    assert_eq!(StatusItemType::from_delta(DeltaKind::Added), StatusItemType::New);
    assert_eq!(StatusItemType::from_delta(DeltaKind::Deleted), StatusItemType::Deleted);
    assert_eq!(StatusItemType::from_delta(DeltaKind::Renamed), StatusItemType::Renamed);
    assert_eq!(StatusItemType::from_delta(DeltaKind::Typechange), StatusItemType::Typechange);
    assert_eq!(StatusItemType::from_delta(DeltaKind::Other), StatusItemType::Modified);
    assert_eq!(
        StatusItemType::from_summary(WorktreeSummary::IntentToAdd),
        StatusItemType::New
    );
    assert_eq!(
        StatusItemType::from_summary(WorktreeSummary::Conflict),
        StatusItemType::Conflicted
    );
}

// ---------------------------------------------------------------------- trees

fn tree_file(path: &str) -> TreeFile {
    TreeFile { path: path.to_string(), filemode: 0, id: id(0) }
}

fn sorted(paths: &[&str]) -> Vec<String> {
    sort_file_list(paths.iter().map(|p| tree_file(p)).collect())
        .iter()
        .map(|f| f.path.clone())
        .collect()
}

#[test]
fn tree_test_smoke() {
    let file = |n| TreeNode::File { name: "test.txt".to_string(), filemode: 0o100644, id: id(n) };
    let files = tree_files(&vec![file(1)]);
    assert_eq!(files.len(), 1);
    assert_eq!(files[0].path, "./test.txt");
    let files_c2 = tree_files(&vec![file(2)]);
    assert_eq!(files_c2.len(), 1);
    assert_ne!(files_c2[0], files[0]);
}

#[test]
fn trees_are_walked_and_sorted() {
    let file = |name: &str| TreeNode::File { name: name.to_string(), filemode: 0, id: id(1) };
    let nodes = vec![
        file("b"),
        TreeNode::Other,
        TreeNode::Folder { name: "sub".to_string(), nodes: vec![file("z"), file("a")] },
        file("a"),
    ];
    let paths: Vec<String> = tree_files(&nodes).iter().map(|f| f.path.clone()).collect();
    assert_eq!(paths, vec!["./sub/a", "./sub/z", "./a", "./b"]);
}

#[test]
fn test_sorting() {
    assert_eq!(
        sorted(&["file", "folder/file", "folder/afile"]),
        vec![
            String::from("folder/afile"),
            String::from("folder/file"),
            String::from("file")
        ]
    );
}

#[test]
fn test_sorting_folders() {
    assert_eq!(
        sorted(&["bfolder/file", "afolder/file"]),
        vec![String::from("afolder/file"), String::from("bfolder/file")]
    );
}

#[test]
fn test_sorting_folders2() {
    assert_eq!(
        sorted(&["bfolder/sub/file", "afolder/file"]),
        vec![String::from("afolder/file"), String::from("bfolder/sub/file")]
    );
}

#[test]
fn test_path_cmp() {
    assert_eq!(path_cmp("bfolder/sub/file", "afolder/file"), Ordering::Greater);
}

#[test]
fn test_path_file_cmp() {
    assert_eq!(path_cmp("a", "afolder/file"), Ordering::Greater);
}

#[test]
fn status_file_bytes_distinguishes_index_and_worktree() {
    assert_eq!(
        status_file_bytes("new.txt", true, Some(id(4)), Some("/repo")),
        Ok(FileSource::Blob(id(4)))
    );
    assert_eq!(
        status_file_bytes("new.txt", false, Some(id(4)), Some("/repo")),
        Ok(FileSource::File("/repo/new.txt".to_string()))
    );
    assert_eq!(
        status_file_bytes("new.txt", true, None, Some("/repo")),
        Err(FileSourceError::NotInIndex(
            "file is not present in the index: new.txt".to_string()
        ))
    );
    assert_eq!(
        status_file_bytes("new.txt", false, None, None),
        Err(FileSourceError::NoWorkDir)
    );
}

// --------------------------------------------------------------------- pushes

fn fetch_spec(mapped: &str) -> Refspec {
    Refspec { fetch: true, matches: true, mapped: mapped.to_string() }
}

#[test]
fn test_force_push_requires_current_tracking_ref() {
    let (initial, newer) = (id(1), id(2));
    let plan = push_plan("master", PushType::Branch, true, false, None);
    assert_eq!(plan.push_ref, "+refs/heads/master");
    let destination = plan.lease.unwrap();
    assert_eq!(destination, "refs/heads/master");
    let specs = vec![fetch_spec("refs/remotes/origin/master")];
    assert_eq!(
        tracking_ref(&None, "/remote", &specs),
        Ok("refs/remotes/origin/master".to_string())
    );

    let heads = vec![("refs/heads/master".to_string(), initial)];
    let missing = check_lease(None, &heads, &destination).unwrap_err();
    assert!(missing.message("origin", &destination).contains("remote-tracking ref is missing"));

    let heads = vec![("refs/heads/master".to_string(), newer)];
    let stale = check_lease(Some(initial), &heads, &destination).unwrap_err();
    assert!(stale
        .message("origin", &destination)
        .contains("remote branch changed since last fetch"));

    assert_eq!(check_lease(Some(newer), &heads, &destination), Ok(()));
}

#[test]
fn test_force_push_leases_upstream_destination() {
    let plan = push_plan("master", PushType::Branch, true, false, Some("refs/heads/review"));
    assert_eq!(plan.push_ref, "+refs/heads/master:refs/heads/review");
    assert_eq!(plan.lease, Some("refs/heads/review".to_string()));
    assert!(plan.set_upstream);
    let pushed = id(1);
    let heads = vec![
        ("refs/heads/main".to_string(), id(9)),
        ("refs/heads/review".to_string(), pushed),
    ];
    assert_eq!(check_lease(Some(pushed), &heads, "refs/heads/review"), Ok(()));
}

#[test]
fn test_delete_remote_branch() {
    let push = push_plan("test_branch", PushType::Branch, false, false, None);
    assert_eq!(push.push_ref, "refs/heads/test_branch");
    assert_eq!(push.lease, None);
    assert!(push.set_upstream);
    let delete = push_plan("test_branch", PushType::Branch, false, true, Some("refs/heads/x"));
    assert_eq!(delete.push_ref, ":refs/heads/test_branch");
    assert_eq!(delete.lease, None);
    assert!(!delete.set_upstream);
    assert_eq!(push_result(&None), Ok(()));
}

#[test]
fn other_pushes_need_no_lease() {
    let tag = push_plan("v1", PushType::Tag, true, false, Some("refs/heads/x"));
    assert_eq!(tag.push_ref, "+refs/tags/v1");
    assert_eq!(tag.lease, None);
    let forced = push_plan("b", PushType::Branch, true, true, None);
    assert_eq!(forced.push_ref, "+:refs/heads/b");
    assert_eq!(forced.lease, None);
    assert_eq!(PushType::default(), PushType::Branch);
}

#[test]
fn forced_pushes_are_refused_without_a_tracking_ref() {
    let specs = vec![fetch_spec("refs/remotes/origin/a")];
    assert_eq!(
        tracking_ref(&Some("/other".to_string()), "/remote", &specs),
        Err(Refusal::PushUrlDiffers)
    );
    assert!(tracking_ref(&Some("/remote".to_string()), "/remote", &specs).is_ok());
    let two = vec![fetch_spec("refs/remotes/origin/a"), fetch_spec("refs/remotes/x/a")];
    assert_eq!(tracking_ref(&None, "/remote", &two), Err(Refusal::AmbiguousTrackingRefs));
    let none = vec![
        Refspec { fetch: false, matches: true, mapped: "x".to_string() },
        Refspec { fetch: true, matches: false, mapped: "y".to_string() },
    ];
    assert_eq!(tracking_ref(&None, "/remote", &none), Err(Refusal::NoMatchingRefspec));
    assert_eq!(
        Refusal::PushUrlDiffers.message("origin", "refs/heads/a"),
        "force push to 'refs/heads/a' refused: push URL differs from fetch URL; cannot verify the remote branch"
    );
    assert_eq!(
        Refusal::AmbiguousTrackingRefs.message("origin", "d"),
        "force push to 'd' refused: ambiguous remote-tracking refs; check fetch refspecs"
    );
    assert_eq!(
        Refusal::NoMatchingRefspec.message("origin", "d"),
        "force push to 'd' refused: no matching fetch refspec for the destination branch"
    );
    assert_eq!(
        Refusal::RemoteChanged.message("origin", "d"),
        "force push to 'd' refused: remote branch changed since last fetch; fetch 'origin' and retry"
    );
}

#[test]
fn rejected_pushes_are_errors() {
    let mut callbacks = Callbacks::new(None);
    assert!(callbacks.get_stats().push_rejected_msg.is_none());
    callbacks.push_update_reference("refs/heads/a", Some("denied"));
    assert_eq!(
        push_result(&callbacks.get_stats().push_rejected_msg),
        Err("push to 'refs/heads/a' rejected: denied".to_string())
    );
    callbacks.push_update_reference("refs/heads/b", None);
    assert_eq!(push_result(&callbacks.get_stats().push_rejected_msg), Ok(()));
}

// ---------------------------------------------------------------- credentials

const NOTHING: AllowedTypes =
    AllowedTypes { ssh_key: false, user_pass_plaintext: false, username: false, default: false };

#[test]
fn ssh_fallback_is_bounded_and_shared_between_clones() {
    // the files of the ed25519 and of the rsa key are there
    let present = vec![true, false, true];
    let mut callbacks = Callbacks::new(None);
    callbacks.ssh_attempt = 1;
    assert_eq!(
        callbacks.ssh_step(Some("/home/u"), &present),
        SshStep::Key("/home/u/.ssh/id_ed25519".to_string())
    );
    assert_eq!(callbacks.ssh_attempt, 2);
    assert_eq!(
        callbacks.ssh_step(Some("/home/u"), &present),
        SshStep::Key("/home/u/.ssh/id_rsa".to_string())
    );
    assert_eq!(callbacks.ssh_attempt, 4);
    assert_eq!(callbacks.ssh_step(Some("/home/u"), &present), SshStep::Failed);
    assert_eq!(callbacks.ssh_step(Some("/home/u"), &present), SshStep::Failed);
}

#[test]
fn ssh_fallback_without_home_terminates() {
    let mut callbacks = Callbacks::new(None);
    callbacks.ssh_attempt = 1;
    assert_eq!(callbacks.ssh_step(None, &vec![]), SshStep::Failed);
}

#[test]
fn the_agent_comes_first() {
    let mut callbacks = Callbacks::new(None);
    assert_eq!(callbacks.ssh_step(None, &vec![]), SshStep::Agent);
    assert_eq!(
        callbacks.ssh_step(Some("/h/"), &vec![false, true]),
        SshStep::Key("/h/.ssh/id_ecdsa".to_string())
    );
}

#[test]
fn password_credentials_are_not_retried() {
    let mut callbacks = Callbacks::new(Some(BasicAuthCredential {
        username: Some("user".to_string()),
        password: Some("password".to_string()),
    }));
    let kind = AllowedTypes { user_pass_plaintext: true, ..NOTHING };
    assert_eq!(
        callbacks.credentials(None, kind),
        CredentialStep::UserPass("user".to_string(), "password".to_string())
    );
    assert_eq!(
        callbacks.credentials(None, kind),
        CredentialStep::Refuse(CredentialError::BadCredentials)
    );
}

#[test]
fn credentials_by_what_is_allowed() {
    let cred = || {
        Some(BasicAuthCredential {
            username: Some("user".to_string()),
            password: Some("password".to_string()),
        })
    };
    let ssh = AllowedTypes { ssh_key: true, ..NOTHING };
    let mut c = Callbacks::new(None);
    assert_eq!(
        c.credentials(None, ssh),
        CredentialStep::Refuse(CredentialError::NoUsername)
    );
    assert_eq!(c.credentials(Some("git"), ssh), CredentialStep::Ssh("git".to_string()));
    let name = AllowedTypes { username: true, default: true, ..NOTHING };
    assert_eq!(
        Callbacks::new(cred()).credentials(None, name),
        CredentialStep::Username("user".to_string())
    );
    assert_eq!(Callbacks::new(None).credentials(None, name), CredentialStep::Default);
    assert_eq!(
        Callbacks::new(cred()).credentials(None, NOTHING),
        CredentialStep::Refuse(CredentialError::NotFound)
    );
    assert_eq!(CredentialError::NoUsername.message(), "Couldn't extract username from url.");
    assert_eq!(CredentialError::BadCredentials.message(), "Bad credentials.");
    assert_eq!(CredentialError::NotFound.message(), "Couldn't find credentials");
    assert_eq!(
        CredentialError::SshFailed.message(),
        "SSH authentication failed. Load your key into ssh-agent; default keys in ~/.ssh were also tried."
    );
}

// --------------------------------------------------------------------- reflog

#[test]
fn reflog_messages_tell_actions() {
    let parse = ReflogAction::from_message;
    assert_eq!(parse(""), ReflogAction::Unknown);
    assert_eq!(parse("Commit: x"), ReflogAction::Commit);
    assert_eq!(parse("commit (amend): x"), ReflogAction::Unknown);
    let checkout = parse("checkout: moving from main to feature");
    assert_eq!(
        checkout,
        ReflogAction::Checkout {
            from: Some("main".to_string()),
            to: Some("feature".to_string())
        }
    );
    assert_eq!(checkout.short_name(), "checkout");
    assert_eq!(checkout.change_description(), Some("main -> feature".to_string()));
    let unclear = parse("checkout: moving from a to b to c");
    assert_eq!(unclear, ReflogAction::Checkout { from: None, to: None });
    assert_eq!(unclear.change_description(), None);
    let plain = parse("checkout: v1");
    assert_eq!(plain, ReflogAction::Checkout { from: None, to: Some("v1".to_string()) });
    assert_eq!(plain.change_description(), Some("-> v1".to_string()));
    // the prefix is only taken off in lower case
    assert_eq!(
        parse("Checkout: v1"),
        ReflogAction::Checkout { from: None, to: Some("Checkout: v1".to_string()) }
    );
    let reset = parse("reset: moving to HEAD~1");
    assert_eq!(reset, ReflogAction::Reset { to: Some("HEAD~1".to_string()) });
    assert_eq!(reset.change_description(), Some("HEAD~1".to_string()));
    assert_eq!(
        parse("reset: x"),
        ReflogAction::Reset { to: Some("x".to_string()) }
    );
    assert_eq!(parse("rebase (finish): x"), ReflogAction::Rebase);
    assert_eq!(parse("merge: x"), ReflogAction::Merge);
    assert_eq!(parse("pull --rebase"), ReflogAction::Pull);
    assert_eq!(parse("clone: from x"), ReflogAction::Clone);
    assert_eq!(parse("branch: Created"), ReflogAction::Branch);
    assert_eq!(parse("amend: x"), ReflogAction::Amend);
    assert_eq!(parse("cherry-pick: x"), ReflogAction::CherryPick);
    assert_eq!(parse("cherry-pick: x").short_name(), "cherry-pick");
    assert_eq!(parse("ÄNDERUNG"), ReflogAction::Unknown);
    assert_eq!(parse("x").short_name(), "other");
    let half = ReflogAction::Checkout { from: Some("a".to_string()), to: None };
    assert_eq!(half.change_description(), Some("a -> ?".to_string()));
}

#[test]
fn reflog_entries_from_what_is_stored() {
    let raw = |old, message: Option<&str>| RawEntry {
        old,
        new: id(2),
        message: message.map(String::from),
        timestamp: -5,
        committer: Some("me".to_string()),
        subject: None,
    };
    let log = get_reflog(Some(vec![raw(id(1), Some("commit: a")), raw(id(0), None)]));
    assert_eq!(log.len(), 2);
    assert_eq!(log[0].ref_name, "HEAD");
    assert_eq!(log[0].old_oid, Some(id(1)));
    assert_eq!(log[0].action, ReflogAction::Commit);
    assert_eq!(log[0].timestamp, -5);
    assert_eq!(log[0].committer, "me");
    assert_eq!(log[0].commit_subject, "");
    assert_eq!(log[1].old_oid, None);
    assert_eq!(log[1].message, "");
    assert_eq!(log[1].action, ReflogAction::Unknown);
    assert!(get_reflog(None).is_empty());
}

#[test]
fn keys_are_looked_for_in_the_home_folder() {
    let paths: Vec<String> = (0..SSH_KEYS).map(|i| ssh_key_path("/home/u", i)).collect();
    assert_eq!(
        paths,
        vec!["/home/u/.ssh/id_ed25519", "/home/u/.ssh/id_ecdsa", "/home/u/.ssh/id_rsa"]
    );
}
