//! The decisions of the background walk of the sessions directory.
//!
//! Discovery has to open every session file, and a real directory is
//! thousands of files and tens of gigabytes, so the walk runs on its own
//! thread and the app reads whatever it has got so far. The walk reports as it
//! goes, in bytes as well as files; holds itself back; and saves as it goes.
//!
//! The thread, the clock and the file reading belong to the caller; this
//! module decides, from the state and what just happened, what comes next.
//! Durations are whole milliseconds (microseconds for the work done); every
//! threshold is a whole number of them, so truncating an elapsed time to one
//! never changes a comparison against it.

use vstd::prelude::*;

use crate::session::{CodexSessionInfo, IndexProgress};

verus! {

/// How long a finished index stays good before a walk is started to refresh
/// it. Short: a warm re-walk is stat-only and costs almost nothing.
pub const REFRESH_AFTER_MS: u64 = 2000;

/// How often a running walk says how far it has got.
pub const PROGRESS_INTERVAL_MS: u64 = 250;

/// How often a running walk publishes the sessions it has read. Longer than
/// the progress tick: each publish re-sorts everything read so far and costs
/// the frontend a re-fetch of every row on screen.
pub const PUBLISH_INTERVAL_MS: u64 = 3000;

/// How often a running walk writes what it has read to the on-disk scan cache.
pub const PERSIST_INTERVAL_MS: u64 = 10000;

/// How much reading to do between pauses, in microseconds.
pub const WORK_SLICE_US: u64 = 40000;

/// The share of one core a walk may use, in percent. Reading a whole sessions
/// directory is minutes of solid work; taking a core for it is what made the
/// app feel like it had hung.
pub const DUTY_CYCLE_PERCENT: u64 = 20;

/// A pause is never longer than this (in nanoseconds), however slow the
/// preceding read was, so a walk cannot disappear for seconds at a time.
pub const MAX_PAUSE_NS: u64 = 400_000_000;

/// How long to rest after `worked_ns` spent reading, to hold a walk to
/// `DUTY_CYCLE_PERCENT` of a core: the work times (100 - duty) / duty, capped
/// at `MAX_PAUSE_NS`.
pub open spec fn pause_for(worked_ns: u64) -> int {
    let scaled = worked_ns * (100 - DUTY_CYCLE_PERCENT) / DUTY_CYCLE_PERCENT as int;
    if scaled < MAX_PAUSE_NS {
        scaled
    } else {
        MAX_PAUSE_NS as int
    }
}

/// How long to rest after `worked_ns` nanoseconds of reading (see `pause_for`).
pub fn throttle_pause(worked_ns: u64) -> (p: u64)
    ensures
        p == pause_for(worked_ns),
        p <= MAX_PAUSE_NS,
        worked_ns == 0 ==> p == 0,
        p < MAX_PAUSE_NS ==> p == 4 * worked_ns,
{
    if worked_ns >= MAX_PAUSE_NS / 4 {
        assert(worked_ns * 80 / 20 >= MAX_PAUSE_NS) by (nonlinear_arith)
            requires
                worked_ns >= 100_000_000u64,
        ;
        MAX_PAUSE_NS
    } else {
        assert(worked_ns * 80 / 20 == worked_ns * 4) by (nonlinear_arith)
            requires
                worked_ns < 100_000_000u64,
        ;
        worked_ns * (100 - DUTY_CYCLE_PERCENT) / DUTY_CYCLE_PERCENT
    }
}

/// The walk currently running.
pub struct Run {
    pub dir: String,
    /// Bumped every time a walk starts. A walk whose generation is no longer
    /// the current one has been superseded and stops at its next report.
    pub generation: u64,
}

pub open spec fn run_view(run: Option<Run>) -> Option<(Seq<char>, u64)> {
    match run {
        Some(r) => Some((r.dir@, r.generation)),
        None => None,
    }
}

/// Start walking `dir` unless a walk of it is already running: the new walk's
/// generation, one past the last one's (the first is 1), or `None` when the
/// ask joins the walk already under way.
pub fn start_run(run: &mut Option<Run>, dir: &str) -> (g: Option<u64>)
    requires
        *old(run) matches Some(r) ==> r.generation < u64::MAX,
    ensures
        match run_view(*old(run)) {
            Some((d, _)) => if d == dir@ {
                g is None && run_view(*final(run)) == run_view(*old(run))
            } else {
                g matches Some(n) && run_view(*final(run)) == Some((dir@, n))
            },
            None => g == Some(1u64) && run_view(*final(run)) == Some((dir@, 1u64)),
        },
        g matches Some(n) ==> (*old(run) matches Some(r) ==> n == r.generation + 1),
{
    let next = match run {
        Some(r) => {
            if crate::text::chars_eq(
                crate::text::chars_of(r.dir.as_str()).as_slice(),
                crate::text::chars_of(dir).as_slice(),
            ) {
                return None;
            }
            r.generation + 1
        },
        None => 1,
    };
    *run = Some(Run { dir: dir.to_owned(), generation: next });
    Some(next)
}

/// The walk of this generation is the one running.
pub open spec fn current_in(run: Option<(Seq<char>, u64)>, generation: u64) -> bool {
    run matches Some((_, g)) && g == generation
}

/// Whether the walk of this generation is still the one the app wants.
pub fn is_current(run: &Option<Run>, generation: u64) -> (r: bool)
    ensures
        r == current_in(run_view(*run), generation),
{
    match run {
        Some(r) => r.generation == generation,
        None => false,
    }
}

/// A finished walk clears the run, unless a newer walk has taken its place.
pub fn finish_run(run: &mut Option<Run>, generation: u64)
    ensures
        current_in(run_view(*old(run)), generation) ==> run_view(*final(run)) is None,
        !current_in(run_view(*old(run)), generation) ==> run_view(*final(run)) == run_view(
            *old(run),
        ),
{
    let done = match run {
        Some(r) => r.generation == generation,
        None => false,
    };
    if done {
        *run = None;
    }
}

/// What a snapshot of the index does.
#[derive(Clone, Copy, Debug, PartialEq, Eq, Structural)]
pub enum SnapshotAction {
    /// Serve what is held: it is complete and recent.
    Serve,
    /// Serve what is held (a stale list beats a blank one) and start a walk.
    ServeAndStart,
    /// Nothing is held for this directory: start a walk, serve an empty list.
    StartEmpty,
}

/// What to do with what the index holds for `dir`: serve it when it is
/// complete and younger than `REFRESH_AFTER_MS`, else (re)start a walk.
pub fn snapshot_action(held_dir: Option<&str>, dir: &str, done: bool, age_ms: u64) -> (a: SnapshotAction)
    ensures
        match held_dir {
            Some(h) => if h@ == dir@ {
                if done && age_ms < REFRESH_AFTER_MS {
                    a == SnapshotAction::Serve
                } else {
                    a == SnapshotAction::ServeAndStart
                }
            } else {
                a == SnapshotAction::StartEmpty
            },
            None => a == SnapshotAction::StartEmpty,
        },
{
    match held_dir {
        Some(h) => {
            if crate::text::chars_eq(
                crate::text::chars_of(h).as_slice(),
                crate::text::chars_of(dir).as_slice(),
            ) {
                if done && age_ms < REFRESH_AFTER_MS {
                    SnapshotAction::Serve
                } else {
                    SnapshotAction::ServeAndStart
                }
            } else {
                SnapshotAction::StartEmpty
            }
        },
        None => SnapshotAction::StartEmpty,
    }
}

/// The progress reported once the files have been counted, before any is read.
pub fn measured_progress(total_files: u64, total_bytes: u64) -> (p: IndexProgress)
    ensures
        p == (IndexProgress { files_read: 0, total_files, bytes_read: 0, total_bytes, done: false }),
{
    IndexProgress { files_read: 0, total_files, bytes_read: 0, total_bytes, done: false }
}

/// The progress reported when the walk is complete: everything counted is read.
pub fn finished_progress(total_files: u64, total_bytes: u64) -> (p: IndexProgress)
    ensures
        p == (IndexProgress {
            files_read: total_files,
            total_files,
            bytes_read: total_bytes,
            total_bytes,
            done: true,
        }),
{
    IndexProgress {
        files_read: total_files,
        total_files,
        bytes_read: total_bytes,
        total_bytes,
        done: true,
    }
}

/// What the walk does after a report from the reader.
pub struct WalkTick {
    pub progress: IndexProgress,
    /// Publish the sessions read so far (and the progress with them).
    pub publish_sessions: bool,
    /// Publish the progress alone.
    pub publish_progress: bool,
    /// Write the scan cache out.
    pub persist: bool,
    /// Rest now, in proportion to the reading just done.
    pub rest: bool,
}

pub open spec fn max_u64(a: u64, b: u64) -> u64 {
    if a >= b {
        a
    } else {
        b
    }
}

/// After a report: the progress (a directory written while it is walked can
/// hold more than was counted, and a bar reading past its own end looks
/// broken, so the totals never fall below what was read); a publish of the
/// sessions every `PUBLISH_INTERVAL_MS`, else of the progress every
/// `PROGRESS_INTERVAL_MS`; a cache write every `PERSIST_INTERVAL_MS`; and a
/// rest once `WORK_SLICE_US` of reading has piled up.
pub fn walk_tick(
    total_files: u64,
    total_bytes: u64,
    files_read: u64,
    bytes_read: u64,
    since_publish_ms: u64,
    since_progress_ms: u64,
    since_persist_ms: u64,
    worked_us: u64,
) -> (t: WalkTick)
    ensures
        t.progress == (IndexProgress {
            files_read,
            total_files: max_u64(total_files, files_read),
            bytes_read,
            total_bytes: max_u64(total_bytes, bytes_read),
            done: false,
        }),
        t.publish_sessions == (since_publish_ms >= PUBLISH_INTERVAL_MS),
        t.publish_progress == (since_publish_ms < PUBLISH_INTERVAL_MS && since_progress_ms
            >= PROGRESS_INTERVAL_MS),
        t.persist == (since_persist_ms >= PERSIST_INTERVAL_MS),
        t.rest == (worked_us >= WORK_SLICE_US),
        t.progress.files_read <= t.progress.total_files,
        t.progress.bytes_read <= t.progress.total_bytes,
{
    let progress = IndexProgress {
        files_read,
        total_files: if total_files >= files_read {
            total_files
        } else {
            files_read
        },
        bytes_read,
        total_bytes: if total_bytes >= bytes_read {
            total_bytes
        } else {
            bytes_read
        },
        done: false,
    };
    let publish_sessions = since_publish_ms >= PUBLISH_INTERVAL_MS;
    WalkTick {
        progress,
        publish_sessions,
        publish_progress: !publish_sessions && since_progress_ms >= PROGRESS_INTERVAL_MS,
        persist: since_persist_ms >= PERSIST_INTERVAL_MS,
        rest: worked_us >= WORK_SLICE_US,
    }
}

/// What a walk has read for one directory.
pub struct Indexed {
    pub dir: String,
    /// When the sessions were last replaced, in the caller's milliseconds.
    pub at_ms: u64,
    pub sessions: Vec<CodexSessionInfo>,
    pub progress: IndexProgress,
}

/// Keep a walk's latest results. `sessions` is `None` for a progress-only
/// tick. Results for the directory already held update it (the sessions and
/// their time only when there are new sessions); results for another
/// directory replace it. Returns whether the picker should re-fetch its rows,
/// which is only when there are new sessions to draw.
pub fn publish_into(
    indexed: &mut Option<Indexed>,
    dir: &str,
    sessions: Option<Vec<CodexSessionInfo>>,
    progress: IndexProgress,
    now_ms: u64,
) -> (refresh: bool)
    ensures
        refresh == sessions is Some,
        *final(indexed) matches Some(ix) && ix.dir@ == dir@ && ix.progress == progress,
        match (*old(indexed), sessions) {
            (Some(_), Some(s)) => (*final(indexed))->0.sessions == s && (*final(indexed))->0.at_ms == now_ms,
            (Some(prev), None) => if prev.dir@ == dir@ {
                (*final(indexed))->0.sessions == prev.sessions && (*final(indexed))->0.at_ms == prev.at_ms
            } else {
                (*final(indexed))->0.sessions@.len() == 0 && (*final(indexed))->0.at_ms == now_ms
            },
            (None, Some(s)) => (*final(indexed))->0.sessions == s && (*final(indexed))->0.at_ms == now_ms,
            (None, None) => (*final(indexed))->0.sessions@.len() == 0 && (*final(indexed))->0.at_ms == now_ms,
        },
{
    let refresh = sessions.is_some();
    let same = match indexed {
        Some(existing) => crate::text::chars_eq(
            crate::text::chars_of(existing.dir.as_str()).as_slice(),
            crate::text::chars_of(dir).as_slice(),
        ),
        None => false,
    };
    if same {
        let mut held = indexed.take().unwrap();
        match sessions {
            Some(s) => {
                held.sessions = s;
                held.at_ms = now_ms;
            },
            None => {},
        }
        held.progress = progress;
        *indexed = Some(held);
    } else {
        let fresh = match sessions {
            Some(s) => s,
            None => Vec::new(),
        };
        *indexed = Some(Indexed { dir: dir.to_owned(), at_ms: now_ms, sessions: fresh, progress });
    }
    refresh
}

// ---------------------------------------------------------------------------
// One walk, step by step
// ---------------------------------------------------------------------------

/// Where a walk stands.
#[derive(Clone, Copy, Debug, PartialEq, Eq, Structural)]
pub enum WalkPhase {
    /// Waits for the files to be counted.
    Measuring,
    /// Reads, reporting after each step.
    Reading,
    /// Over: finished, superseded, or failed. Nothing more comes of it.
    Over,
}

/// A walk of one directory: where it stands and what it counted.
pub struct Walk {
    pub phase: WalkPhase,
    pub total_files: u64,
    pub total_bytes: u64,
}

/// What happened in a walk, as the caller saw it. `current` is whether the
/// walk was still its directory's current one (`is_current`) when it looked.
pub enum WalkEvent {
    /// The session files were counted.
    Measured { total_files: u64, total_bytes: u64 },
    /// The reader reports after a step: what it has read, and the time since
    /// the last publish, progress report and cache write, and the reading
    /// done since the last rest.
    Report {
        current: bool,
        files_read: u64,
        bytes_read: u64,
        since_publish_ms: u64,
        since_progress_ms: u64,
        since_persist_ms: u64,
        worked_us: u64,
    },
    /// The reader is done: `read_all` when it read every session.
    Ended { current: bool, read_all: bool },
}

/// What to publish with a step.
#[derive(Clone, Copy, Debug, PartialEq, Eq, Structural)]
pub enum Publish {
    Nothing,
    /// The progress alone.
    Progress,
    /// The sessions read so far (all of them, at the end) with the progress.
    Sessions,
}

/// What the caller does after an event.
pub struct WalkStep {
    /// Tell the reader to go on (the answer to a report).
    pub go_on: bool,
    pub publish: Publish,
    /// The progress to publish with it.
    pub progress: IndexProgress,
    /// Write the scan cache out.
    pub persist: bool,
    /// Rest now (see `throttle_pause`).
    pub rest: bool,
    /// The walk is complete: mark the run finished (`finish_run`).
    pub finish: bool,
}

impl Walk {
    /// A walk that has counted nothing yet.
    pub fn new() -> (w: Walk)
        ensures
            w.phase == WalkPhase::Measuring,
    {
        Walk { phase: WalkPhase::Measuring, total_files: 0, total_bytes: 0 }
    }
}

/// The event answers what a walk in `phase` waits for.
pub open spec fn walk_expects(phase: WalkPhase, event: WalkEvent) -> bool {
    match (phase, event) {
        (WalkPhase::Measuring, WalkEvent::Measured { .. }) => true,
        (WalkPhase::Reading, WalkEvent::Report { .. }) => true,
        (WalkPhase::Reading, WalkEvent::Ended { .. }) => true,
        _ => false,
    }
}

/// The event completes the walk: the reader read everything and the walk is
/// still current.
pub open spec fn completes(event: WalkEvent) -> bool {
    event matches WalkEvent::Ended { current, read_all } && current && read_all
}

/// A step that does nothing and stops the reader.
fn idle_step() -> (s: WalkStep)
    ensures
        !s.go_on && s.publish == Publish::Nothing && !s.persist && !s.rest && !s.finish
            && !s.progress.done,
{
    WalkStep {
        go_on: false,
        publish: Publish::Nothing,
        progress: IndexProgress {
            files_read: 0,
            total_files: 0,
            bytes_read: 0,
            total_bytes: 0,
            done: false,
        },
        persist: false,
        rest: false,
        finish: false,
    }
}

/// Advance a walk by one event.
///
/// Counting publishes the measured progress. Each report of a current walk
/// goes on, publishing, persisting and resting as `walk_tick` decides; a
/// report of a superseded walk stops it, publishing nothing. The end of a
/// current walk that read everything publishes every session with the
/// progress marked done, and finishes the run; any other end publishes
/// nothing. An event the walk does not wait for, and anything after the
/// walk is over, changes nothing and does nothing.
pub fn walk_step(walk: &mut Walk, event: WalkEvent) -> (s: WalkStep)
    ensures
        !walk_expects(old(walk).phase, event) ==> (*final(walk) == *old(walk) && !s.go_on && s.publish
            == Publish::Nothing && !s.persist && !s.rest && !s.finish),
        // Only the last step of a walk is marked done, and only a complete
        // walk has one; after it, the walk is over.
        s.progress.done <==> (old(walk).phase == WalkPhase::Reading && completes(event)),
        s.finish <==> s.progress.done,
        s.progress.done ==> final(walk).phase == WalkPhase::Over && s.publish == Publish::Sessions,
        // A superseded walk publishes nothing more and stops.
        (event matches WalkEvent::Report { current, .. } && !current) ==> (!s.go_on && s.publish
            == Publish::Nothing && !s.persist && !s.rest && !s.finish),
        (event matches WalkEvent::Ended { current, .. } && !current) ==> (s.publish == Publish::Nothing
            && !s.finish),
        // A walk that goes on is reading, and a walk that stopped is over.
        s.go_on ==> final(walk).phase == WalkPhase::Reading,
        walk_expects(old(walk).phase, event) && !s.go_on ==> final(walk).phase == WalkPhase::Over,
        // What is published never reads past its own end.
        s.publish != Publish::Nothing ==> s.progress.files_read <= s.progress.total_files
            && s.progress.bytes_read <= s.progress.total_bytes,
        // Counting.
        old(walk).phase == WalkPhase::Measuring ==> (event matches WalkEvent::Measured {
            total_files,
            total_bytes,
        } ==> (s.go_on && s.publish == Publish::Progress && s.progress == (IndexProgress {
            files_read: 0,
            total_files,
            bytes_read: 0,
            total_bytes,
            done: false,
        }) && final(walk).total_files == total_files && final(walk).total_bytes == total_bytes)),
        // Reading.
        old(walk).phase == WalkPhase::Reading ==> (event matches WalkEvent::Report {
            current,
            files_read,
            bytes_read,
            since_publish_ms,
            since_progress_ms,
            since_persist_ms,
            worked_us,
        } ==> (current ==> {
            &&& s.go_on
            &&& *final(walk) == *old(walk)
            &&& s.progress == (IndexProgress {
                files_read,
                total_files: max_u64(old(walk).total_files, files_read),
                bytes_read,
                total_bytes: max_u64(old(walk).total_bytes, bytes_read),
                done: false,
            })
            &&& s.publish == (if since_publish_ms >= PUBLISH_INTERVAL_MS {
                Publish::Sessions
            } else if since_progress_ms >= PROGRESS_INTERVAL_MS {
                Publish::Progress
            } else {
                Publish::Nothing
            })
            &&& s.persist == (since_persist_ms >= PERSIST_INTERVAL_MS)
            &&& s.rest == (worked_us >= WORK_SLICE_US)
        })),
        // The end of a complete walk: everything counted is read.
        old(walk).phase == WalkPhase::Reading && completes(event) ==> s.progress == (IndexProgress {
            files_read: old(walk).total_files,
            total_files: old(walk).total_files,
            bytes_read: old(walk).total_bytes,
            total_bytes: old(walk).total_bytes,
            done: true,
        }),
{
    match event {
        WalkEvent::Measured { total_files, total_bytes } => {
            if walk.phase != WalkPhase::Measuring {
                return idle_step();
            }
            walk.phase = WalkPhase::Reading;
            walk.total_files = total_files;
            walk.total_bytes = total_bytes;
            WalkStep {
                go_on: true,
                publish: Publish::Progress,
                progress: measured_progress(total_files, total_bytes),
                persist: false,
                rest: false,
                finish: false,
            }
        },
        WalkEvent::Report {
            current,
            files_read,
            bytes_read,
            since_publish_ms,
            since_progress_ms,
            since_persist_ms,
            worked_us,
        } => {
            if walk.phase != WalkPhase::Reading {
                return idle_step();
            }
            if !current {
                walk.phase = WalkPhase::Over;
                return idle_step();
            }
            let tick = walk_tick(
                walk.total_files,
                walk.total_bytes,
                files_read,
                bytes_read,
                since_publish_ms,
                since_progress_ms,
                since_persist_ms,
                worked_us,
            );
            let publish = if tick.publish_sessions {
                Publish::Sessions
            } else if tick.publish_progress {
                Publish::Progress
            } else {
                Publish::Nothing
            };
            WalkStep {
                go_on: true,
                publish,
                progress: tick.progress,
                persist: tick.persist,
                rest: tick.rest,
                finish: false,
            }
        },
        WalkEvent::Ended { current, read_all } => {
            if walk.phase != WalkPhase::Reading {
                return idle_step();
            }
            walk.phase = WalkPhase::Over;
            if current && read_all {
                WalkStep {
                    go_on: false,
                    publish: Publish::Sessions,
                    progress: finished_progress(walk.total_files, walk.total_bytes),
                    persist: false,
                    rest: false,
                    finish: true,
                }
            } else {
                idle_step()
            }
        },
    }
}

// ---------------------------------------------------------------------------
// Laws
// ---------------------------------------------------------------------------

/// The walk a start begins is the current one, and the walk it replaces (of
/// the generation before) is not: a superseded walk stops at its next report.
/// Asking again for the directory being walked keeps the running walk current.
pub proof fn law_a_new_walk_supersedes_the_old(
    before: Option<(Seq<char>, u64)>,
    after: Option<(Seq<char>, u64)>,
    dir: Seq<char>,
    started: Option<u64>,
)
    requires
        before matches Some((_, p)) ==> p < u64::MAX,
        match before {
            Some((d, _)) => if d == dir {
                started is None && after == before
            } else {
                started matches Some(n) && after == Some((dir, n))
            },
            None => started == Some(1u64) && after == Some((dir, 1u64)),
        },
        started matches Some(n) ==> (before matches Some((_, p)) ==> n == p + 1),
    ensures
        started matches Some(n) ==> current_in(after, n),
        started is Some ==> (before matches Some((_, p)) ==> !current_in(after, p)),
        before matches Some((d, p)) ==> (d == dir ==> current_in(after, p)),
{
}

} // verus!
