use block_repair::scrub::{
    randomize_next_scrub_run_time, migrate_scrub_persisted, BlockReadOutcome, ScanStepResult,
    ScrubWorker, ScrubWorkerCommand, ScrubWorkerPersisted, ScrubWorkerPersistedPrev,
    ScrubWorkerState, WaitPlan, CHECKPOINT_PERIOD_MS, INITIAL_SCRUB_TRANQUILITY,
    SCRUB_INTERVAL_MS, SCRUB_JITTER_MS,
};
use block_repair::walker::{DataDir, DirEntry, DirEntryKind};
use block_repair::worker::WorkerState;

fn dirs() -> Vec<DataDir> {
    vec![DataDir { path: "/data".to_string(), capacity: Some(4) }]
}

fn finished_worker() -> ScrubWorker {
    ScrubWorker::new(ScrubWorkerPersisted::initial(1_000), 1_000)
}

fn running_worker() -> ScrubWorker {
    let mut w = finished_worker();
    let warned = w.handle_cmd(ScrubWorkerCommand::Start, 2_000, &dirs());
    assert!(!warned);
    w
}

fn paused_worker() -> ScrubWorker {
    let mut w = running_worker();
    let warned = w.handle_cmd(ScrubWorkerCommand::Pause(500), 3_000, &dirs());
    assert!(!warned);
    w
}

fn is_running(w: &ScrubWorker) -> bool {
    matches!(w.work, ScrubWorkerState::Running { .. })
}

fn is_paused(w: &ScrubWorker) -> bool {
    matches!(w.work, ScrubWorkerState::Paused { .. })
}

fn is_finished(w: &ScrubWorker) -> bool {
    matches!(w.work, ScrubWorkerState::Finished)
}

#[test]
fn command_table_from_finished() {
    // Start works; Pause, Resume and Cancel are invalid and only warn.
    let mut w = finished_worker();
    assert!(w.handle_cmd(ScrubWorkerCommand::Pause(10), 5_000, &dirs()));
    assert!(is_finished(&w));
    assert!(w.handle_cmd(ScrubWorkerCommand::Resume, 5_000, &dirs()));
    assert!(is_finished(&w));
    assert!(w.handle_cmd(ScrubWorkerCommand::Cancel, 5_000, &dirs()));
    assert!(is_finished(&w));
    assert!(!w.handle_cmd(ScrubWorkerCommand::Start, 5_000, &dirs()));
    assert!(is_running(&w));
    // starting persists an immediate checkpoint
    assert!(w.persisted.checkpoint.is_some());
}

#[test]
fn command_table_from_running() {
    // Start warns and changes nothing; Pause pauses; Cancel finishes.
    let mut w = running_worker();
    assert!(w.handle_cmd(ScrubWorkerCommand::Start, 5_000, &dirs()));
    assert!(is_running(&w));
    assert!(w.handle_cmd(ScrubWorkerCommand::Resume, 5_000, &dirs()));
    assert!(is_running(&w));

    let mut w = running_worker();
    assert!(!w.handle_cmd(ScrubWorkerCommand::Pause(700), 5_000, &dirs()));
    match &w.work {
        ScrubWorkerState::Paused { t_resume, .. } => assert_eq!(*t_resume, 5_700),
        _ => panic!("expected paused"),
    }
    assert!(w.persisted.checkpoint.is_some());

    let mut w = running_worker();
    assert!(!w.handle_cmd(ScrubWorkerCommand::Cancel, 5_000, &dirs()));
    assert!(is_finished(&w));
    // the checkpoint is cleared so a later scrub starts fresh
    assert!(w.persisted.checkpoint.is_none());
}

#[test]
fn command_table_from_paused() {
    // Start warns; Pause re-pauses with a new deadline; Resume resumes;
    // Cancel finishes.
    let mut w = paused_worker();
    assert!(w.handle_cmd(ScrubWorkerCommand::Start, 6_000, &dirs()));
    assert!(is_paused(&w));

    let mut w = paused_worker();
    assert!(!w.handle_cmd(ScrubWorkerCommand::Pause(1_000), 6_000, &dirs()));
    match &w.work {
        ScrubWorkerState::Paused { t_resume, .. } => assert_eq!(*t_resume, 7_000),
        _ => panic!("expected paused"),
    }

    let mut w = paused_worker();
    assert!(!w.handle_cmd(ScrubWorkerCommand::Resume, 6_000, &dirs()));
    assert!(is_running(&w));

    let mut w = paused_worker();
    assert!(!w.handle_cmd(ScrubWorkerCommand::Cancel, 6_000, &dirs()));
    assert!(is_finished(&w));
    assert!(w.persisted.checkpoint.is_none());
}

#[test]
fn next_run_time_lies_in_the_jitter_window() {
    let t: u64 = 1_700_000_000_000;
    for _ in 0..32 {
        let next = randomize_next_scrub_run_time(t);
        assert!(next >= t + SCRUB_INTERVAL_MS);
        assert!(next < t + SCRUB_INTERVAL_MS + SCRUB_JITTER_MS);
    }
}

#[test]
fn initial_record_fields() {
    let now: u64 = 123_456;
    let r = ScrubWorkerPersisted::initial(now);
    assert_eq!(r.tranquility, INITIAL_SCRUB_TRANQUILITY);
    assert_eq!(r.time_last_complete_scrub, 0);
    assert_eq!(r.corruptions_detected, 0);
    assert!(r.checkpoint.is_none());
    assert!(r.time_next_run_scrub >= now + SCRUB_INTERVAL_MS);
    assert!(r.time_next_run_scrub < now + SCRUB_INTERVAL_MS + SCRUB_JITTER_MS);
}

#[test]
fn migration_synthesizes_next_run_and_drops_checkpoint() {
    let prev = ScrubWorkerPersistedPrev {
        tranquility: 7,
        time_last_complete_scrub: 55_000,
        corruptions_detected: 3,
    };
    let r = migrate_scrub_persisted(&prev);
    assert_eq!(r.tranquility, 7);
    assert_eq!(r.time_last_complete_scrub, 55_000);
    assert_eq!(r.corruptions_detected, 3);
    assert!(r.checkpoint.is_none());
    assert!(r.time_next_run_scrub >= 55_000 + SCRUB_INTERVAL_MS);
    assert!(r.time_next_run_scrub < 55_000 + SCRUB_INTERVAL_MS + SCRUB_JITTER_MS);
}

#[test]
fn corruption_counts_and_scan_goes_on() {
    // one corruption among many valid blocks raises the counter by exactly
    // one and never stops the scan
    let mut w = running_worker();
    let before = w.persisted.corruptions_detected;
    for i in 0..10 {
        let outcome = if i == 4 { BlockReadOutcome::Corrupt } else { BlockReadOutcome::Valid };
        let r = w.note_block_check(outcome);
        assert_eq!(r, ScanStepResult::Continue);
    }
    assert_eq!(w.persisted.corruptions_detected, before + 1);
    assert!(is_running(&w));
}

#[test]
fn io_error_aborts_without_counting() {
    let mut w = running_worker();
    let before = w.persisted.corruptions_detected;
    let r = w.note_block_check(BlockReadOutcome::IoError);
    assert_eq!(r, ScanStepResult::Abort);
    assert_eq!(w.persisted.corruptions_detected, before);
}

#[test]
fn checkpoint_at_most_once_per_period() {
    let mut w = running_worker();  // t_cp == 2_000
    assert!(!w.maybe_checkpoint(2_000 + CHECKPOINT_PERIOD_MS));
    assert!(w.maybe_checkpoint(2_001 + CHECKPOINT_PERIOD_MS));
    // the period restarts from the new checkpoint time
    assert!(!w.maybe_checkpoint(2_002 + CHECKPOINT_PERIOD_MS));
}

#[test]
fn finishing_schedules_and_clears() {
    let mut w = running_worker();
    w.persisted.corruptions_detected = 9;
    let now: u64 = 50_000;
    let r = w.finish_scan(now);
    assert_eq!(r, WorkerState::Idle);
    assert!(is_finished(&w));
    assert_eq!(w.persisted.time_last_complete_scrub, now);
    assert!(w.persisted.checkpoint.is_none());
    assert_eq!(w.persisted.corruptions_detected, 9);
    assert!(w.persisted.time_next_run_scrub >= now + SCRUB_INTERVAL_MS);
    assert!(w.persisted.time_next_run_scrub < now + SCRUB_INTERVAL_MS + SCRUB_JITTER_MS);
}

#[test]
fn throttling_scales_with_tranquility() {
    let mut w = running_worker();
    w.set_tranquility(4);
    w.begin_step(10_000);
    // the step took 100 ms; with one observation the pause is 100 * 4
    match w.end_step_throttle(10_100) {
        WorkerState::Throttled(d) => assert_eq!(d, 400),
        other => panic!("expected throttled, got {:?}", other),
    }
    // tranquility zero means no throttling
    w.set_tranquility(0);
    w.begin_step(20_000);
    assert_eq!(w.end_step_throttle(20_050), WorkerState::Busy);
}

#[test]
fn wait_plan_follows_state_and_deadlines() {
    let w = running_worker();
    assert!(matches!(w.wait_plan(0), WaitPlan::Proceed));

    let w = paused_worker();  // paused at 3_000 for 500
    match w.wait_plan(3_100) {
        WaitPlan::WaitUntil(t, ScrubWorkerCommand::Resume) => assert_eq!(t, 3_500),
        _ => panic!("expected a wait"),
    }
    assert!(matches!(
        w.wait_plan(3_500),
        WaitPlan::AutoCommand(ScrubWorkerCommand::Resume)
    ));

    let w = finished_worker();
    let next = w.persisted.time_next_run_scrub;
    match w.wait_plan(0) {
        WaitPlan::WaitUntil(t, ScrubWorkerCommand::Start) => assert_eq!(t, next),
        _ => panic!("expected a wait"),
    }
    assert!(matches!(
        w.wait_plan(next),
        WaitPlan::AutoCommand(ScrubWorkerCommand::Start)
    ));
}

#[test]
fn status_reports_each_state() {
    let w = running_worker();
    let st = w.status();
    assert_eq!(st.tranquility, Some(INITIAL_SCRUB_TRANQUILITY));
    assert_eq!(st.persistent_errors, Some(0));
    assert_eq!(st.progress.as_deref(), Some("0.00%"));
    assert!(st.freeform.is_empty());

    let w = paused_worker();
    let st = w.status();
    assert_eq!(st.progress.as_deref(), Some("0.00%"));
    assert_eq!(st.freeform, vec!["Scrub paused, resumes at 3500".to_string()]);

    let mut w = running_worker();
    w.finish_scan(42_000);
    let st = w.status();
    assert!(st.progress.is_none());
    assert_eq!(st.freeform.len(), 2);
    assert_eq!(st.freeform[0], "Last scrub completed at 42000");
    assert!(st.freeform[1].starts_with("Next scrub scheduled for "));
}

#[test]
fn full_scan_counts_one_corruption_and_reschedules() {
    const H1: &str = "0123456789abcdef0123456789abcdef0123456789abcdef0123456789abcdef";
    const H2: &str = "fedcba9876543210fedcba9876543210fedcba9876543210fedcba9876543210";
    let corrupt_hash = hex::decode(H2).unwrap();

    let mut w = running_worker();
    let mut scanned: Vec<Vec<u8>> = Vec::new();
    let mut clock: u64 = 10_000;
    loop {
        w.begin_step(clock);
        let it = w.running_iterator().expect("scan is running");
        let next = loop {
            if let Some(p) = it.next_dir_path() {
                let listing = if p == "/data" {
                    vec![
                        DirEntry { name: H1.to_string(), kind: DirEntryKind::RegularFile },
                        DirEntry { name: H2.to_string(), kind: DirEntryKind::RegularFile },
                    ]
                } else {
                    Vec::new()
                };
                it.expand_top_dir(&listing);
            } else if let Some(ph) = it.pop_file() {
                break Some(ph);
            } else {
                break None;
            }
        };
        match next {
            Some((_path, hash)) => {
                let outcome = if hash == corrupt_hash {
                    BlockReadOutcome::Corrupt
                } else {
                    BlockReadOutcome::Valid
                };
                assert_eq!(w.note_block_check(outcome), ScanStepResult::Continue);
                scanned.push(hash);
                clock += 10;
                let _ = w.end_step_throttle(clock);
            }
            None => {
                assert_eq!(w.finish_scan(clock), WorkerState::Idle);
                break;
            }
        }
    }
    assert_eq!(scanned.len(), 2);
    assert_eq!(w.persisted.corruptions_detected, 1);
    assert!(is_finished(&w));
    assert!(w.persisted.checkpoint.is_none());
    assert_eq!(w.persisted.time_last_complete_scrub, clock);
}

#[test]
fn restart_with_checkpoint_resumes_running() {
    let mut w = running_worker();
    assert!(w.maybe_checkpoint(2_001 + CHECKPOINT_PERIOD_MS));
    let record = w.persisted;
    let w2 = ScrubWorker::new(record, 99_000);
    match &w2.work {
        ScrubWorkerState::Running { t_cp, .. } => assert_eq!(*t_cp, 99_000),
        _ => panic!("expected to resume running"),
    }
}
