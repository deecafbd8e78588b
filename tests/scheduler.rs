use caesium_catalog::scheduler::{CompressionFlags, CompressionStatus, JobProgress, PauseTracker, PollAction};

#[test]
fn start_is_refused_while_running() {
    let mut f = CompressionFlags::new();
    assert!(f.start());
    f.pause();
    assert!(!f.start());
    assert!(f.is_compression_paused);
    f.finish();
    assert!(f.start());
    assert!(!f.is_compression_paused);
    assert!(!f.is_compression_cancelled);
}

#[test]
fn cancel_releases_pause() {
    let mut f = CompressionFlags::new();
    f.start();
    f.pause();
    f.cancel();
    assert!(f.is_compression_cancelled);
    assert!(!f.is_compression_paused);
    let mut t = PauseTracker::new(2);
    assert_eq!(t.poll(&f, &"a".to_string()), PollAction::Abandon);
}

#[test]
fn fully_paused_fires_once_per_pause() {
    let mut f = CompressionFlags::new();
    f.start();
    f.pause();
    let mut t = PauseTracker::new(2);
    let a = "a".to_string();
    let b = "b".to_string();
    assert_eq!(t.poll(&f, &a), PollAction::Wait { notify_paused: false });
    assert_eq!(t.poll(&f, &a), PollAction::Wait { notify_paused: false });
    assert_eq!(t.poll(&f, &b), PollAction::Wait { notify_paused: true });
    for _ in 0..10 {
        assert_eq!(t.poll(&f, &a), PollAction::Wait { notify_paused: false });
        assert_eq!(t.poll(&f, &b), PollAction::Wait { notify_paused: false });
    }
    f.resume();
    assert_eq!(t.poll(&f, &a), PollAction::Proceed);
    f.pause();
    assert_eq!(t.poll(&f, &a), PollAction::Wait { notify_paused: false });
    assert_eq!(t.poll(&f, &b), PollAction::Wait { notify_paused: true });
    assert_eq!(t.poll(&f, &b), PollAction::Wait { notify_paused: false });
}

#[test]
fn single_worker_pause_notice() {
    let mut f = CompressionFlags::new();
    f.start();
    f.pause();
    let mut t = PauseTracker::new(1);
    assert_eq!(t.poll(&f, &"x".to_string()), PollAction::Wait { notify_paused: true });
    assert_eq!(t.poll(&f, &"x".to_string()), PollAction::Wait { notify_paused: false });
}

#[test]
fn cancellation_after_first_item() {
    let n = 5;
    let mut f = CompressionFlags::new();
    f.start();
    let mut job = JobProgress::new(n);
    assert!(job.start_item(f.is_compression_cancelled, 100));
    assert!(job.start_item(f.is_compression_cancelled, 200));
    job.finish_item(CompressionStatus::Success, 40);
    f.cancel();
    for _ in 0..n {
        assert!(!job.start_item(f.is_compression_cancelled, 1));
    }
    job.finish_item(CompressionStatus::Warning, 200);
    job.finish_item(CompressionStatus::Error, 0);
    let s = job.summary(12);
    assert_eq!(s.total_images, n);
    assert_eq!(s.total_success, 1);
    assert_eq!(s.total_skipped, 1);
    assert_eq!(s.total_errors, 0);
    assert!(s.total_success + s.total_skipped + s.total_errors < n);
    assert_eq!(s.original_size, 300);
    assert_eq!(s.compressed_size, 240);
    assert_eq!(s.total_time, 12);
}

#[test]
fn job_runs_to_completion() {
    let mut job = JobProgress::new(2);
    assert!(job.start_item(false, 10));
    assert!(job.start_item(false, 10));
    assert!(!job.start_item(false, 10));
    job.finish_item(CompressionStatus::Success, 5);
    job.finish_item(CompressionStatus::Error, 0);
    let s = job.summary(0);
    assert_eq!(s.total_success + s.total_skipped + s.total_errors, 2);
}

#[test]
fn byte_counters_saturate() {
    let mut job = JobProgress::new(3);
    assert!(job.start_item(false, u64::MAX));
    assert!(job.start_item(false, 5));
    assert_eq!(job.original_size, u64::MAX);
}
