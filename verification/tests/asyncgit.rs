//! Work in the background: queues, diffs, status scans, logs, fetches.
use gitui::asyncgit::asyncjob::AsyncSingleJob;
use gitui::asyncgit::branch_compare::AsyncBranchCompareJob;
use gitui::asyncgit::diff::{AsyncDiff, DiffNotification, DiffParams, DiffStep, DiffType};
use gitui::asyncgit::fetch_job::{
    AsyncFetchJob, FetchProgress, FetchProgressStage, FetchReporter, JobState as FetchState,
};
use gitui::asyncgit::filter_commits::{
    chunk_entries, merge_entries, AsyncCommitFilterJob, CommitFilterResult, FilterEntry, Verdict,
};
use gitui::asyncgit::progress::{set_progress, ProgressPercent};
use gitui::asyncgit::remote_progress::{
    Notifier, ProgressReceiver, RemoteProgress, RemoteProgressState,
};
use gitui::asyncgit::revlog::{
    AsyncLog, BatchStep, FetchStatus, LogError, Lookup, SLEEP_BACKGROUND, SLEEP_FOREGROUND,
};
use gitui::asyncgit::status::{
    AsyncStatus, AsyncStatusPair, PairStep, Status, StatusPair, StatusParams, StatusStep,
};
use gitui::asyncgit::sync::remotes::push::{
    AsyncProgress, FetchPhase, PackBuilderStage, ProgressNotification,
};
use gitui::asyncgit::sync::status::{StatusItem, StatusItemType, StatusType};
use gitui::asyncgit::sync::{
    BranchCompare, CommitId, DiffOptions, FileDiff, ShowUntrackedFilesConfig,
};
use std::sync::Arc;

fn id(n: u32) -> CommitId {
    CommitId { high: 0, low: n }
}

// ---------------------------------------------------------------- single jobs

#[test]
fn queued_requests_only_run_latest() {
    let mut job = AsyncSingleJob::new();
    for value in 1..=20 {
        assert_eq!(job.spawn(value), value == 1);
        assert!(job.is_pending());
    }
    assert_eq!(job.take_next(), Some(20));
    assert_eq!(job.finish(Some(20)), None);
    assert!(!job.is_pending());
    assert_eq!(job.take_last(), Some(20));
}

#[test]
fn cancel_before_worker_starts() {
    let mut job = AsyncSingleJob::new();
    assert!(job.spawn(1));
    assert!(job.is_pending());
    assert!(job.cancel());
    assert!(!job.cancel());
    assert_eq!(job.take_next(), None);
    assert!(!job.is_pending());
    assert!(job.take_last().is_none());
}

#[test]
fn running_job_keeps_only_latest_successor() {
    let mut job = AsyncSingleJob::new();
    assert!(job.spawn(1));
    assert_eq!(job.take_next(), Some(1));
    for value in 2..=20 {
        assert!(!job.spawn(value));
    }
    assert_eq!(job.finish(Some(1)), Some(20));
    assert!(job.is_pending());
    assert_eq!(job.finish(Some(20)), None);
    assert!(!job.is_pending());
    assert_eq!(job.take_last().unwrap(), 20);
}

#[test]
fn cancel_successor_and_restart_idle_worker() {
    let mut job = AsyncSingleJob::new();
    assert!(job.spawn(1));
    assert_eq!(job.take_next(), Some(1));
    assert!(!job.spawn(2));
    assert!(job.cancel());
    assert_eq!(job.finish(Some(1)), None);
    assert!(!job.is_pending());
    assert!(job.spawn(3));
    assert_eq!(job.take_next(), Some(3));
    assert_eq!(job.finish(Some(3)), None);
    assert!(!job.is_pending());
}

#[test]
fn failed_job_does_not_strand_successor() {
    let mut job = AsyncSingleJob::new();
    assert!(job.spawn(1));
    assert_eq!(job.take_next(), Some(1));
    assert!(!job.spawn(2));
    assert_eq!(job.finish(None), Some(2));
    assert!(job.is_pending());
    assert_eq!(job.finish(Some(2)), None);
    assert!(!job.is_pending());
    assert_eq!(job.take_last().unwrap(), 2);
}

#[test]
fn completed_result_preserves_requested_branch() {
    let mut job = AsyncBranchCompareJob::new("feature/requested".to_string());
    assert_eq!(job.requested(), Some("feature/requested"));
    job.finish(Ok(BranchCompare { ahead: 1, behind: 2 }));
    assert_eq!(job.requested(), None);
    let (branch, result) = job.result().unwrap();
    assert_eq!(branch, "feature/requested");
    assert_eq!(result, Ok(BranchCompare { ahead: 1, behind: 2 }));
    assert!(job.result().is_none());
}

// ---------------------------------------------------------------------- diffs

fn params(path: &str) -> DiffParams {
    DiffParams {
        path: path.to_string(),
        diff_type: DiffType::WorkDir,
        options: DiffOptions::default(),
    }
}

fn file_diff(lines: usize) -> FileDiff {
    FileDiff { hunks: vec![], lines, untracked: false, sizes: (0, 0), size_delta: 0 }
}

#[test]
fn file_switches_only_compute_latest_queued_selection() {
    let mut diff = AsyncDiff::new();
    assert!(matches!(diff.request(params("first")), DiffStep::Start));
    assert!(diff.is_pending());
    let running = diff.take_queued().unwrap();
    assert_eq!(running.path, "first");
    for index in 0..100 {
        assert!(matches!(diff.request(params(&index.to_string())), DiffStep::Wait));
    }
    diff.request(params("latest"));
    let (notification, done) = diff.complete(running, Some(file_diff(0)));
    assert_eq!(notification, DiffNotification::FinishUnchanged);
    assert!(!done);
    let next = diff.take_queued().unwrap();
    assert_eq!(next.path, "latest");
    assert!(diff.last().is_none());
    assert!(diff.is_pending());
    let (notification, done) = diff.complete(next, Some(file_diff(0)));
    assert_eq!(notification, DiffNotification::Diff);
    assert!(done);
    assert!(!diff.is_pending());
    assert_eq!(diff.last().unwrap().0.path, "latest");
    assert!(matches!(diff.request(params("latest")), DiffStep::Ready(_)));
    assert!(!diff.is_pending());
    assert!(diff.take_queued().is_none());
}

#[test]
fn refresh_during_diff_publishes_and_reruns_current_selection() {
    let mut diff = AsyncDiff::new();
    diff.request(params("file"));
    let running = diff.take_queued().unwrap();
    assert!(diff.last().is_none());
    diff.refresh();
    diff.refresh();
    let (_, done) = diff.complete(running, Some(file_diff(1)));
    assert!(!done);
    let next = diff.take_queued().unwrap();
    assert_eq!(next.path, "file");
    assert_eq!(diff.last().unwrap().1.lines, 1);
    let (_, done) = diff.complete(next, Some(file_diff(2)));
    assert!(done);
    assert_eq!(diff.last().unwrap().1.lines, 2);
    assert!(!diff.is_pending());
}

#[test]
fn failed_diff_does_not_block_following_request() {
    let mut diff = AsyncDiff::new();
    diff.request(params("bad"));
    let bad = diff.take_queued().unwrap();
    diff.complete(bad, None);
    assert!(!diff.is_pending());
    assert!(matches!(diff.request(params("good")), DiffStep::Start));
    let good = diff.take_queued().unwrap();
    diff.complete(good, Some(file_diff(0)));
    assert!(!diff.is_pending());
    assert_eq!(diff.last().unwrap().0.path, "good");
}

// -------------------------------------------------------------------- fetches

#[test]
fn progress_tracks_fetch_stages_and_resets_for_tags() {
    let mut progress = FetchProgress::default();
    progress.apply(ProgressNotification::FetchPhase {
        remote: "origin".to_string(),
        current: 1,
        total: 2,
        phase: FetchPhase::Branches,
    });
    progress.apply(ProgressNotification::Transfer {
        objects: 2,
        total_objects: 4,
        indexed_objects: 0,
    });
    assert_eq!(progress.remote, "origin");
    assert_eq!((progress.current, progress.total), (1, 2));
    assert_eq!(progress.stage, FetchProgressStage::Branches);
    assert_eq!(progress.percent, 50);

    progress.apply(ProgressNotification::Transfer {
        objects: 4,
        total_objects: 4,
        indexed_objects: 2,
    });
    assert_eq!(progress.stage, FetchProgressStage::IndexingBranches);
    assert_eq!(progress.percent, 50);

    progress.apply(ProgressNotification::FetchPhase {
        remote: "origin".to_string(),
        current: 1,
        total: 2,
        phase: FetchPhase::Tags,
    });
    assert_eq!(progress.stage, FetchProgressStage::Tags);
    assert_eq!(progress.percent, 0);

    progress.apply(ProgressNotification::Transfer {
        objects: 1,
        total_objects: 2,
        indexed_objects: 0,
    });
    assert_eq!(progress.stage, FetchProgressStage::Tags);
    assert_eq!(progress.percent, 50);
}

#[test]
fn fetch_reports_tell_new_stages_at_once() {
    let transfer = |objects| ProgressNotification::Transfer {
        objects,
        total_objects: 100,
        indexed_objects: 0,
    };
    let mut reporter = FetchReporter::new();
    assert!(reporter.absorb(vec![transfer(1)], 1000));
    assert_eq!(reporter.shown.percent, 1);
    assert!(!reporter.absorb(vec![transfer(2)], 1032));
    assert_eq!(reporter.shown.percent, 1);
    assert!(reporter.absorb(vec![transfer(3), transfer(4)], 1033));
    assert_eq!(reporter.shown.percent, 4);
    // nothing new to show
    assert!(!reporter.absorb(vec![transfer(4)], 2000));
    assert!(reporter.absorb(vec![transfer(100)], 2001));
    assert_eq!(reporter.shown.stage, FetchProgressStage::IndexingBranches);
}

#[test]
fn fetch_fails_with_its_reports() {
    let mut job = AsyncFetchJob::new();
    job.finish(Ok(()), false);
    match job.state {
        Some(FetchState::Response(Err(e))) => assert_eq!(e, "fetch progress worker failed"),
        _ => panic!("no error"),
    }
    let mut job = AsyncFetchJob::new();
    job.finish(Ok(()), true);
    assert!(matches!(job.state, Some(FetchState::Response(Ok(())))));
    job.finish(Err("late".to_string()), true);
    assert!(matches!(job.state, Some(FetchState::Response(Ok(())))));
}

#[test]
fn percentages_are_rounded_and_bounded() {
    assert_eq!(ProgressPercent::new(1, 3).progress, 33);
    assert_eq!(ProgressPercent::new(2, 3).progress, 67);
    assert_eq!(ProgressPercent::new(1, 200).progress, 1);
    assert_eq!(ProgressPercent::new(0, 0).progress, 100);
    assert_eq!(ProgressPercent::new(5, 4).progress, 100);
    assert_eq!(ProgressPercent::empty().progress, 0);
    assert_eq!(ProgressPercent::full().progress, 100);
    let mut p = ProgressPercent::empty();
    assert!(set_progress(&mut p, ProgressPercent::full()));
    assert!(!set_progress(&mut p, ProgressPercent::full()));
}

#[test]
fn remote_progress_follows_the_reports() {
    let packing = ProgressNotification::Packing {
        stage: PackBuilderStage::Deltafication,
        total: 4,
        current: 1,
    };
    let p = RemoteProgress::from(&packing);
    assert_eq!(p.state, RemoteProgressState::PackingDeltafiction);
    assert_eq!(p.get_progress_percent(), 25);
    assert!(!packing.is_done());
    assert_eq!(packing.progress().progress, 25);
    let adding = ProgressNotification::Packing {
        stage: PackBuilderStage::AddingObjects,
        total: 2,
        current: 1,
    };
    assert_eq!(RemoteProgress::from(&adding).state, RemoteProgressState::PackingAddingObject);
    let push = ProgressNotification::PushTransfer { current: 3, total: 4, bytes: 10 };
    assert_eq!(RemoteProgress::from(&push).state, RemoteProgressState::Pushing);
    assert_eq!(RemoteProgress::from(&push).get_progress_percent(), 75);
    let transfer =
        ProgressNotification::Transfer { objects: 1, total_objects: 2, indexed_objects: 0 };
    assert_eq!(RemoteProgress::from(&transfer).state, RemoteProgressState::Transfer);
    assert!(ProgressNotification::Done.is_done());
    let done = RemoteProgress::from(&ProgressNotification::Done);
    assert_eq!(done.state, RemoteProgressState::Done);
    assert_eq!(done.get_progress_percent(), 100);
    let tips =
        ProgressNotification::UpdateTips { name: "x".to_string(), a: id(1), b: id(2) };
    assert_eq!(RemoteProgress::from(&tips).state, RemoteProgressState::Done);
    assert!(!tips.is_done());
}

#[test]
fn notifications_are_spaced() {
    let mut n = Notifier::new();
    assert!(n.should_notify(false, 5));
    assert!(!n.should_notify(false, 37));
    assert!(n.should_notify(false, 38));
    assert!(n.should_notify(true, 39));
}

#[test]
fn only_the_latest_report_counts() {
    let transfer = |objects| ProgressNotification::Transfer {
        objects,
        total_objects: 10,
        indexed_objects: 0,
    };
    let mut r = ProgressReceiver::new();
    assert!(r.receive(vec![transfer(1), transfer(2)], 0));
    assert_eq!(r.progress, Some(transfer(2)));
    assert!(!r.receive(vec![transfer(3)], 1));
    assert_eq!(r.progress, Some(transfer(3)));
    assert!(r.receive(vec![ProgressNotification::Done], 2));
    assert!(r.stopped);
    assert!(!r.receive(vec![transfer(4)], 100));
    assert_eq!(r.progress, Some(ProgressNotification::Done));
}

// ------------------------------------------------------------------------ log

#[test]
fn published_batches_are_unlocked_during_pause() {
    for background in [false, true] {
        let mut log = AsyncLog::new();
        assert_eq!(log.fetch(Ok(Some(id(7)))), Ok(FetchStatus::Started));
        if background {
            log.set_background();
        }
        assert_eq!(
            log.publish_batch(&vec![CommitId { high: 0, low: 0 }], 1, 5),
            BatchStep::Pause(if background { SLEEP_BACKGROUND } else { SLEEP_FOREGROUND })
        );
        assert_eq!(log.count(), 1);
        assert_eq!(log.publish_batch(&vec![], 0, 6), BatchStep::End);
        assert_eq!(log.get_last_duration(), 6);
    }
}

#[test]
fn reference_history_refreshes_without_changing_head() {
    let (head_id, tip, next) = (id(1), id(2), id(3));
    for reference in ["refs/heads/feature", "refs/remotes/origin/feature"] {
        let mut log = AsyncLog::new().with_reference(reference.to_string());
        assert_eq!(log.reference.as_deref(), Some(reference));
        assert_eq!(log.fetch(Ok(Some(tip))), Ok(FetchStatus::Started));
        assert_eq!(log.fetch(Ok(Some(next))), Ok(FetchStatus::Pending));
        log.publish_batch(&vec![tip, head_id], 2, 0);
        log.publish_batch(&vec![], 0, 0);
        assert!(log.finish(true));
        assert_eq!(log.get_items().unwrap(), vec![tip, head_id]);
        assert_eq!(log.fetch(Ok(Some(tip))), Ok(FetchStatus::NoChange));

        assert_eq!(log.fetch(Ok(Some(next))), Ok(FetchStatus::Started));
        log.publish_batch(&vec![next, tip, head_id], 3, 0);
        log.finish(true);
        assert_eq!(log.get_items().unwrap(), vec![next, tip, head_id]);

        let mut default_log = AsyncLog::new();
        assert_eq!(default_log.reference, None);
        assert_eq!(default_log.fetch(Ok(Some(head_id))), Ok(FetchStatus::Started));
        default_log.publish_batch(&vec![head_id], 1, 0);
        default_log.finish(true);
        assert_eq!(default_log.get_items().unwrap(), vec![head_id]);
        assert_eq!(default_log.fetch(Ok(Some(head_id))), Ok(FetchStatus::NoChange));

        assert!(log.fetch(Err("reference not found".to_string())).is_err());
        assert!(!log.is_pending());
    }
}

#[test]
fn replacing_target_cancels_old_log_and_starts_empty() {
    let mut log = AsyncLog::new();
    assert_eq!(log.fetch(Ok(Some(id(1)))), Ok(FetchStatus::Started));
    log.publish_batch(&vec![id(1)], 1, 0);
    log.cancel();
    assert!(!log.reads_on());
    assert!(!log.finish(true));
    let mut new_log = log.with_reference("refs/heads/missing".to_string());
    assert!(new_log.reads_on());
    assert_eq!(new_log.count(), 0);
    assert!(new_log.fetch(Err("missing".to_string())).is_err());
    assert!(!new_log.is_pending());
}

#[test]
fn log_slices_stop_at_the_end() {
    let mut log = AsyncLog::new();
    assert_eq!(log.fetch(Ok(None)), Ok(FetchStatus::NoChange));
    log.fetch(Ok(Some(id(1)))).unwrap();
    log.publish_batch(&vec![id(1), id(2), id(3)], 3, 0);
    assert_eq!(log.get_slice(1, 1).unwrap(), vec![id(2)]);
    assert_eq!(log.get_slice(1, 9).unwrap(), vec![id(2), id(3)]);
    assert_eq!(log.get_slice(5, 9).unwrap(), vec![]);
    assert_eq!(log.extract_items(), vec![id(1), id(2), id(3)]);
    assert_eq!(log.count(), 0);
    assert_eq!(log.get_slice(0, 1), Err(LogError::Extracted));
    assert_eq!(log.get_items(), Err(LogError::Extracted));
    assert!(LogError::Extracted.message().starts_with("Faulty usage of AsyncLog"));
    // a failed read is retried from the same commit
    log.finish(false);
    assert_eq!(log.fetch(Ok(Some(id(1)))), Ok(FetchStatus::Started));
    assert!(log.get_items().is_ok());
}

// --------------------------------------------------------------------- status

fn pair(path: &str) -> StatusPair {
    StatusPair {
        staged: Arc::new(vec![]),
        workdir: Arc::new(vec![StatusItem {
            path: path.to_string(),
            status: StatusItemType::New,
        }]),
    }
}

#[test]
fn poll_during_scan_publishes_before_rerun() {
    let mut status = AsyncStatusPair::new();
    assert!(status.fetch(None));
    let (generation, config) = status.scan_request();
    assert!(!status.fetch(None));
    assert_eq!(
        status.publish(generation, config, Some(pair("0"))),
        PairStep::Publish { changed: true, rerun: true }
    );
    let (generation, config) = status.scan_request();
    // the second scan is still running: the first must already be usable
    assert_eq!(status.last().workdir[0].path, "0");
    assert!(status.is_pending());
    assert_eq!(
        status.publish(generation, config, Some(pair("1"))),
        PairStep::Publish { changed: true, rerun: false }
    );
    assert_eq!(status.last().workdir[0].path, "1");
    assert!(!status.is_pending());
}

#[test]
fn changed_config_discards_inflight_snapshot() {
    let mut status = AsyncStatusPair::new();
    assert!(status.fetch(Some(ShowUntrackedFilesConfig::No)));
    let (generation, config) = status.scan_request();
    assert!(!status.fetch(Some(ShowUntrackedFilesConfig::All)));
    assert_eq!(
        status.publish(generation, config, Some(StatusPair::default())),
        PairStep::Discard
    );
    let (generation, config) = status.scan_request();
    assert!(config == Some(ShowUntrackedFilesConfig::All));
    assert!(status.last.is_none());
    assert!(status.is_pending());
    assert_eq!(
        status.publish(generation, config, Some(StatusPair::default())),
        PairStep::Publish { changed: true, rerun: false }
    );
    assert!(!status.is_pending());
}

#[test]
fn unchanged_scans_are_told_apart() {
    let mut status = AsyncStatusPair::new();
    status.fetch(None);
    let (generation, config) = status.scan_request();
    status.publish(generation, config, Some(pair("a")));
    status.fetch(None);
    let (generation, config) = status.scan_request();
    assert_eq!(
        status.publish(generation, config, Some(pair("a"))),
        PairStep::Publish { changed: false, rerun: false }
    );
    status.fetch(None);
    let (generation, config) = status.scan_request();
    assert_eq!(
        status.publish(generation, config, None),
        PairStep::Publish { changed: false, rerun: false }
    );
    assert_eq!(status.last().workdir[0].path, "a");
}

#[test]
fn each_status_request_scans_again() {
    let params = StatusParams::new(StatusType::Stage, None);
    let mut status = AsyncStatus::new();
    assert_eq!(status.last().items.len(), 0);
    let request = match status.fetch(params) {
        StatusStep::Start(request) => request,
        StatusStep::Known(_) => panic!("no scan"),
    };
    assert!(status.is_pending());
    assert!(matches!(status.fetch(params), StatusStep::Known(None)));
    let found = || Status {
        items: Arc::new(vec![StatusItem {
            path: "a".to_string(),
            status: StatusItemType::Modified,
        }]),
    };
    assert!(status.complete(request, Some(found())));
    assert_eq!(status.last().items[0].path, "a");
    let request = match status.fetch(params) {
        StatusStep::Start(request) => request,
        StatusStep::Known(_) => panic!("no scan"),
    };
    assert!(!status.complete(request, Some(found())));
}

// -------------------------------------------------------------------- filters

#[test]
fn filtered_commits_keep_their_order() {
    let first: Vec<CommitId> = (0..1000).map(id).collect();
    let second: Vec<CommitId> = (1000..1003).map(id).collect();
    let mut verdicts = vec![Verdict::Rejected; 1000];
    verdicts[0] = Verdict::Passes;
    verdicts[999] = Verdict::Passes;
    let a = chunk_entries(0, &first, &verdicts);
    let b = chunk_entries(
        1,
        &second,
        &vec![Verdict::Failed, Verdict::Passes, Verdict::Cancelled],
    );
    assert_eq!(b, vec![FilterEntry { index: 1001, commit: id(1001) }]);
    let mut entries = b;
    entries.extend(a);
    assert_eq!(merge_entries(entries), vec![id(0), id(999), id(1001)]);
}

#[test]
fn filter_jobs_hand_out_their_result_once() {
    let mut job = AsyncCommitFilterJob::new(vec![id(1)]);
    job.finish(Ok(CommitFilterResult { result: vec![id(1)], duration: 3 }));
    job.finish(Err("late".to_string()));
    assert_eq!(
        job.result(),
        Some(Ok(CommitFilterResult { result: vec![id(1)], duration: 3 }))
    );
    assert_eq!(job.result(), None);
}

#[test]
fn a_head_without_a_commit_is_no_error() {
    let head = AsyncLog::new();
    let branch = AsyncLog::new().with_reference("refs/heads/x".to_string());
    let id = CommitId { high: 1, low: 2 };
    assert_eq!(head.resolve_target(Lookup::Commit(id)), Ok(Some(id)));
    assert_eq!(head.resolve_target(Lookup::Missing("unborn".to_string())), Ok(None));
    assert_eq!(
        branch.resolve_target(Lookup::Missing("gone".to_string())),
        Err("gone".to_string())
    );
    assert_eq!(head.resolve_target(Lookup::Failed("io".to_string())), Err("io".to_string()));
}
