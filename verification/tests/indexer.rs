use codex_trace::indexer::{
    finish_run, finished_progress, is_current, measured_progress, publish_into, snapshot_action,
    start_run, walk_step, walk_tick, Indexed, Publish, Run, SnapshotAction, Walk, WalkEvent,
    WalkPhase,
};
use codex_trace::session::{CodexSessionInfo, IndexProgress};

#[test]
fn a_second_ask_for_the_same_directory_joins_the_walk_already_running() {
    let mut run: Option<Run> = None;
    let generation = start_run(&mut run, "/sessions").unwrap();
    assert_eq!(start_run(&mut run, "/sessions"), None, "a rival walk was started");
    assert_eq!(run.as_ref().map(|r| r.generation), Some(generation));
}

#[test]
fn a_walk_of_another_directory_supersedes_the_running_one() {
    let mut run: Option<Run> = None;
    let first = start_run(&mut run, "/a").unwrap();
    let second = start_run(&mut run, "/b").unwrap();
    assert_eq!(second, first + 1);
    assert!(!is_current(&run, first));
    assert!(is_current(&run, second));
    finish_run(&mut run, first);
    assert!(is_current(&run, second), "a superseded walk does not clear the run");
    finish_run(&mut run, second);
    assert!(run.is_none());
}

#[test]
fn a_snapshot_answers_before_the_directory_has_been_read() {
    assert_eq!(snapshot_action(None, "/s", false, 0), SnapshotAction::StartEmpty);
    assert_eq!(snapshot_action(Some("/other"), "/s", true, 0), SnapshotAction::StartEmpty);
    assert_eq!(snapshot_action(Some("/s"), "/s", false, 0), SnapshotAction::ServeAndStart);
    assert_eq!(snapshot_action(Some("/s"), "/s", true, 1999), SnapshotAction::Serve);
    assert_eq!(snapshot_action(Some("/s"), "/s", true, 2000), SnapshotAction::ServeAndStart);
}

#[test]
fn progress_never_reads_past_its_own_end() {
    let t = walk_tick(5, 100, 7, 150, 0, 300, 0, 0);
    assert_eq!(t.progress.total_files, 7);
    assert_eq!(t.progress.total_bytes, 150);
    assert!(!t.progress.done);
    assert!(t.publish_progress && !t.publish_sessions && !t.persist && !t.rest);

    let t = walk_tick(5, 100, 1, 10, 3000, 3000, 10000, 40000);
    assert!(t.publish_sessions && !t.publish_progress && t.persist && t.rest);
    assert_eq!(measured_progress(5, 100).files_read, 0);
    let done = finished_progress(5, 100);
    assert!(done.done && done.files_read == 5 && done.bytes_read == 100);
}

#[test]
fn a_directory_with_nothing_in_it_finishes_rather_than_running_forever() {
    let progress = finished_progress(0, 0);
    assert_eq!(progress.files_read, 0);
    assert!(progress.done);
}

#[test]
fn publishing_keeps_the_latest_results() {
    let mut indexed: Option<Indexed> = None;
    let p = IndexProgress { files_read: 1, total_files: 2, ..Default::default() };
    assert!(!publish_into(&mut indexed, "/s", None, p, 10));
    assert!(publish_into(&mut indexed, "/s", Some(vec![CodexSessionInfo::default()]), p, 20));
    assert_eq!(indexed.as_ref().unwrap().sessions.len(), 1);
    assert_eq!(indexed.as_ref().unwrap().at_ms, 20);
    assert!(!publish_into(&mut indexed, "/s", None, finished_progress(2, 0), 30));
    assert_eq!(indexed.as_ref().unwrap().at_ms, 20, "a progress tick keeps the list's age");
    assert!(indexed.as_ref().unwrap().progress.done);
    assert!(!publish_into(&mut indexed, "/t", None, p, 40));
    assert!(indexed.as_ref().unwrap().sessions.is_empty(), "another directory starts over");
}

fn ns(d: std::time::Duration) -> u64 {
    d.as_nanos() as u64
}

#[test]
fn a_throttled_walk_rests_longer_than_it_works() {
    // At a fifth of a core, 40ms of reading buys 160ms of rest.
    assert_eq!(
        codex_trace::indexer::throttle_pause(ns(std::time::Duration::from_millis(40))),
        ns(std::time::Duration::from_millis(160))
    );
}

#[test]
fn a_walk_that_did_no_reading_does_not_rest() {
    // Files served from the scan cache cost microseconds, so a warm re-walk must not
    // sit there sleeping between them.
    assert_eq!(codex_trace::indexer::throttle_pause(ns(std::time::Duration::ZERO)), 0);
}

#[test]
fn no_single_pause_stalls_the_walk() {
    // One 22GB file can take minutes; its pause must not be minutes long too.
    assert_eq!(
        codex_trace::indexer::throttle_pause(ns(std::time::Duration::from_secs(60))),
        codex_trace::indexer::MAX_PAUSE_NS
    );
}

fn report(current: bool, files_read: u64, bytes_read: u64, since_publish_ms: u64) -> WalkEvent {
    WalkEvent::Report {
        current,
        files_read,
        bytes_read,
        since_publish_ms,
        since_progress_ms: 300,
        since_persist_ms: 0,
        worked_us: 0,
    }
}

#[test]
fn a_complete_walk_marks_only_its_last_progress_done() {
    let mut walk = Walk::new();
    let s = walk_step(&mut walk, WalkEvent::Measured { total_files: 3, total_bytes: 300 });
    assert!(s.go_on);
    assert_eq!(s.publish, Publish::Progress);
    assert_eq!(s.progress, measured_progress(3, 300));

    let s = walk_step(&mut walk, report(true, 1, 100, 0));
    assert!(s.go_on && !s.finish && !s.progress.done);
    assert_eq!(s.publish, Publish::Progress);
    assert_eq!((s.progress.files_read, s.progress.total_files), (1, 3));

    let s = walk_step(&mut walk, report(true, 4, 400, 3000));
    assert_eq!(s.publish, Publish::Sessions);
    assert_eq!((s.progress.total_files, s.progress.total_bytes), (4, 400));
    assert!(!s.progress.done);

    let s = walk_step(&mut walk, WalkEvent::Ended { current: true, read_all: true });
    assert_eq!(s.publish, Publish::Sessions);
    assert!(s.finish && !s.go_on);
    assert_eq!(s.progress, finished_progress(3, 300));
    assert_eq!(walk.phase, WalkPhase::Over);

    let s = walk_step(&mut walk, report(true, 5, 500, 3000));
    assert!(!s.go_on && !s.finish && !s.persist && !s.rest);
    assert_eq!(s.publish, Publish::Nothing);
}

#[test]
fn a_superseded_walk_stops_and_publishes_nothing_more() {
    let mut walk = Walk::new();
    walk_step(&mut walk, WalkEvent::Measured { total_files: 3, total_bytes: 300 });
    let s = walk_step(&mut walk, report(false, 1, 100, 3000));
    assert!(!s.go_on && !s.finish);
    assert_eq!(s.publish, Publish::Nothing);
    let s = walk_step(&mut walk, WalkEvent::Ended { current: true, read_all: true });
    assert_eq!(s.publish, Publish::Nothing);
    assert!(!s.finish);
}

#[test]
fn a_walk_that_could_not_read_everything_finishes_nothing() {
    let mut walk = Walk::new();
    walk_step(&mut walk, WalkEvent::Measured { total_files: 3, total_bytes: 300 });
    let s = walk_step(&mut walk, WalkEvent::Ended { current: true, read_all: false });
    assert_eq!(s.publish, Publish::Nothing);
    assert!(!s.finish && !s.progress.done);
    assert_eq!(walk.phase, WalkPhase::Over);
    let mut early = Walk::new();
    let s = walk_step(&mut early, report(true, 1, 1, 0));
    assert_eq!(s.publish, Publish::Nothing, "a report before counting is out of order");
    assert_eq!(early.phase, WalkPhase::Measuring);
}
