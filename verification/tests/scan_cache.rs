use codex_trace::scan_cache::{format_matches, retain_and_persist, FileStamp, ScanCache, FORMAT_VERSION};
use codex_trace::session::CodexSessionInfo;

fn info_for(path: &str, turns: u32) -> CodexSessionInfo {
    CodexSessionInfo {
        path: path.to_string(),
        turn_count: turns,
        ..Default::default()
    }
}

fn stamp(secs: u64, len: u64) -> Option<FileStamp> {
    Some(FileStamp { modified_secs: secs, len })
}

#[test]
fn an_unchanged_file_is_served_from_the_cache() {
    let mut cache = ScanCache::new();
    let file = "/tmp/s/rollout-a.jsonl";
    cache.put(file, stamp(100, 4), info_for(file, 7));

    assert_eq!(cache.get(file, stamp(100, 4)).map(|i| i.turn_count), Some(7));
}

#[test]
fn appending_to_a_file_invalidates_its_entry() {
    let mut cache = ScanCache::new();
    let file = "/tmp/s/rollout-b.jsonl";
    cache.put(file, stamp(100, 4), info_for(file, 1));

    // A longer file is a different file as far as the stamp is concerned,
    // even inside the same filesystem second.
    assert!(cache.get(file, stamp(100, 8)).is_none());
}

#[test]
fn a_file_that_has_never_been_scanned_is_a_miss() {
    let cache = ScanCache::new();
    assert!(cache.get("/tmp/s/rollout-c.jsonl", stamp(1, 4)).is_none());
}

#[test]
fn a_missing_file_is_a_miss_rather_than_a_panic() {
    let mut cache = ScanCache::new();
    let file = "/tmp/s/gone.jsonl";

    assert!(cache.get(file, None).is_none());
    cache.put(file, None, info_for(file, 1));
    assert!(cache.get(file, None).is_none());
    assert!(cache.get(file, stamp(1, 1)).is_none(), "nothing was recorded");
}

#[test]
fn retaining_drops_entries_for_files_the_walk_did_not_see() {
    let mut cache = ScanCache::new();
    let kept = "/tmp/walk/rollout-kept.jsonl";
    let dropped = "/tmp/walk/rollout-dropped.jsonl";
    cache.put(kept, stamp(1, 4), info_for(kept, 1));
    cache.put(dropped, stamp(1, 4), info_for(dropped, 2));

    let mut persisted = None;
    retain_and_persist(&mut cache, "/tmp/walk", &[kept.to_string()], |c| {
        persisted = Some(c.get(dropped, stamp(1, 4)).is_none());
    });
    assert_eq!(persisted, Some(true), "what is written out is the pruned cache");

    assert!(cache.get(kept, stamp(1, 4)).is_some());
    assert!(cache.get(dropped, stamp(1, 4)).is_none());
}

#[test]
fn retaining_leaves_another_directorys_entries_alone() {
    let mut cache = ScanCache::new();
    let here = "/tmp/walked/rollout-here.jsonl";
    let there = "/tmp/elsewhere/rollout-there.jsonl";
    cache.put(here, stamp(1, 4), info_for(here, 1));
    cache.put(there, stamp(1, 4), info_for(there, 2));

    retain_and_persist(&mut cache, "/tmp/walked", &[here.to_string()], |_| {});

    assert!(cache.get(there, stamp(1, 4)).is_some());
}

#[test]
fn paths_are_compared_by_component() {
    let mut cache = ScanCache::new();
    cache.put("/tmp/a//b.jsonl", stamp(1, 1), info_for("/tmp/a/b.jsonl", 3));
    assert_eq!(cache.get("/tmp/a/b.jsonl", stamp(1, 1)).map(|i| i.turn_count), Some(3));
    cache.put("/tmp/a/b.jsonl", stamp(2, 2), info_for("/tmp/a/b.jsonl", 4));
    assert_eq!(cache.get("/tmp/a/./b.jsonl", stamp(2, 2)).map(|i| i.turn_count), Some(4));
    // `/tmp/ab` is not under `/tmp/a`.
    cache.put("/tmp/ab/c.jsonl", stamp(1, 1), info_for("/tmp/ab/c.jsonl", 5));
    cache.retain_seen("/tmp/a", &[]);
    assert!(cache.get("/tmp/ab/c.jsonl", stamp(1, 1)).is_some());
    assert!(cache.get("/tmp/a/b.jsonl", stamp(2, 2)).is_none());
}

#[test]
fn only_the_current_format_is_read_back() {
    assert!(format_matches(FORMAT_VERSION));
    assert!(!format_matches(0));
}
