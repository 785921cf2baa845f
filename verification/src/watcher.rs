//! The filesystem-watch state machine: a single restartable watch session,
//! event classification, an ignore list, and lossy debouncing.
//!
//! The background monitoring itself (the low-level watch primitive, its
//! channel, and the timeout ticks) is the caller's I/O; this module decides,
//! for each received event and each tick, what the watch loop does: which
//! events are noise, which paths are ignored, when the debounce window
//! suppresses an emission, and when the loop exits.

use vstd::prelude::*;

use crate::text::contains_substr;
use crate::text::has_substr;

verus! {

/// Minimum milliseconds between two emitted notifications; events inside
/// the window are dropped, not queued.
pub const DEBOUNCE_MS: u64 = 300;

/// Milliseconds the event wait may block before the stop signal is
/// re-checked; bounds shutdown latency.
pub const RECV_TIMEOUT_MS: u64 = 100;

/// A path is ignored when it contains any of the fixed noise patterns: the
/// application metadata folder, version-control and editor folders, and OS
/// artifact files.
pub open spec fn spec_ignored(s: Seq<char>) -> bool {
    ||| has_substr(s, ".hibiscus"@)
    ||| has_substr(s, ".git"@)
    ||| has_substr(s, ".vscode"@)
    ||| has_substr(s, "node_modules"@)
    ||| has_substr(s, "__pycache__"@)
    ||| has_substr(s, ".DS_Store"@)
    ||| has_substr(s, "Thumbs.db"@)
}

/// Whether a changed path should be ignored rather than reported.
pub fn should_ignore_path(path: &str) -> (r: bool)
    ensures
        r == spec_ignored(path@),
{
    contains_substr(path, ".hibiscus") || contains_substr(path, ".git") || contains_substr(
        path,
        ".vscode",
    ) || contains_substr(path, "node_modules") || contains_substr(path, "__pycache__")
        || contains_substr(path, ".DS_Store") || contains_substr(path, "Thumbs.db")
}

/// The single watch session: whether a watch is active and which root it
/// watches. Exactly one session exists; a new start replaces the old watch.
pub struct WatcherState {
    /// Whether the background watch task should keep running.
    pub running: bool,
    /// The most recently watched root; kept after a stop for logging.
    pub current_path: Option<String>,
}

/// The session after a start: active, watching the given root.
pub open spec fn after_start(s: WatcherState, path: String) -> WatcherState {
    WatcherState { running: true, current_path: Some(path) }
}

/// The session after a stop: inactive, the cached root retained.
pub open spec fn after_stop(s: WatcherState) -> WatcherState {
    WatcherState { running: false, current_path: s.current_path }
}

/// The root a session reports: none whenever it is not actively watching,
/// even if a stale root is cached internally.
pub open spec fn watched_path_of(s: WatcherState) -> Option<Seq<char>> {
    if s.running {
        match s.current_path {
            Some(p) => Some(p@),
            None => None,
        }
    } else {
        None
    }
}

impl Default for WatcherState {
    /// The session starts inactive with no root.
    fn default() -> (r: Self)
        ensures
            !r.running,
            r.current_path is None,
    {
        WatcherState { running: false, current_path: None }
    }
}

impl WatcherState {
    /// Starts watching the given root: records it and flips the signal to
    /// running. The caller first stops any previous watch (this method
    /// overwrites the signal, which is that stop) and gives the old
    /// background task a bounded grace period to observe it.
    pub fn watch_workspace(&mut self, path: String)
        ensures
            *final(self) == after_start(*old(self), path),
            final(self).running,
            final(self).current_path == Some(path),
            watched_path_of(*final(self)) == Some(path@),
    {
        self.current_path = Some(path);
        self.running = true;
    }

    /// Signals the watch task to stop. Idempotent: safe to call when
    /// already idle, in which case the session is unchanged. Returns
    /// whether a watch was running.
    pub fn stop_watching(&mut self) -> (was: bool)
        ensures
            *final(self) == after_stop(*old(self)),
            was == old(self).running,
            !old(self).running ==> *final(self) == *old(self),
            watched_path_of(*final(self)) is None,
    {
        let was = self.running;
        self.running = false;
        was
    }

    /// A monitor-creation or initial-watch failure is fatal for its
    /// session: the signal flips back to not running and the diagnostic is
    /// reported once downstream; there is no retry — restarting is a new
    /// explicit start. Returns the diagnostic to report.
    pub fn fail_start(&mut self, diagnostic: String) -> (r: String)
        ensures
            *final(self) == after_stop(*old(self)),
            r == diagnostic,
    {
        self.running = false;
        diagnostic
    }

    /// Whether a watch is currently active.
    pub fn is_watching(&self) -> (r: bool)
        ensures
            r == self.running,
    {
        self.running
    }

    /// The currently watched root, or none when not actively watching.
    pub fn get_watched_path(&self) -> (r: Option<String>)
        ensures
            match watched_path_of(*self) {
                Some(p) => r is Some && r->0@ == p,
                None => r is None,
            },
    {
        if self.running {
            match &self.current_path {
                Some(p) => Some(p.clone()),
                None => None,
            }
        } else {
            None
        }
    }
}

/// An idle session ignores a stop entirely; a start watches the given root;
/// and a start followed by a stop leaves the session reporting inactive
/// with no watched root.
pub proof fn lemma_stop_start_laws(s: WatcherState, path: String)
    ensures
        !s.running ==> after_stop(s) == s,
        !after_stop(s).running,
        watched_path_of(after_stop(s)) is None,
        watched_path_of(after_start(s, path)) == Some(path@),
        !after_stop(after_start(s, path)).running,
        watched_path_of(after_stop(after_start(s, path))) is None,
{
}

/// What a filesystem event is about: pure access, unclassified platform
/// noise, or an actual mutation of content, name, or metadata.
#[derive(Debug, PartialEq, Eq, Structural, Clone, Copy)]
pub enum EventClass {
    Access,
    Other,
    Mutation,
}

/// The event's paths that are not ignored, in their original order.
pub open spec fn relevant_of(paths: Seq<Seq<char>>) -> Seq<Seq<char>> {
    paths.filter(|p: Seq<char>| !spec_ignored(p))
}

/// Whether the debounce window is open: no emission happened yet, or at
/// least `DEBOUNCE_MS` milliseconds passed since the last one.
pub open spec fn debounce_open(now_ms: u64, last_emit_ms: Option<u64>) -> bool {
    match last_emit_ms {
        None => true,
        Some(t) => now_ms >= t && now_ms - t >= DEBOUNCE_MS,
    }
}

/// Whether an event leads to an emission: it must be a mutation, keep at
/// least one relevant path, and fall outside the debounce window.
pub open spec fn should_emit(
    class: EventClass,
    paths: Seq<Seq<char>>,
    now_ms: u64,
    last_emit_ms: Option<u64>,
) -> bool {
    class is Mutation && relevant_of(paths).len() > 0 && debounce_open(now_ms, last_emit_ms)
}

/// Classifies one filesystem event: access and noise events are discarded,
/// ignored paths are filtered out, and an event inside the debounce window
/// is dropped — a rate-limiting drop, not a queue. Returns the paths to
/// report, in order, when the event emits.
pub fn process_event(
    class: EventClass,
    paths: &Vec<String>,
    now_ms: u64,
    last_emit_ms: Option<u64>,
) -> (r: Option<Vec<String>>)
    ensures
        r is Some <==> should_emit(class, paths.deep_view(), now_ms, last_emit_ms),
        r is Some ==> r->0.deep_view() == relevant_of(paths.deep_view()),
{
    match class {
        EventClass::Access => return None,
        EventClass::Other => return None,
        EventClass::Mutation => {},
    }
    let ghost dv = paths.deep_view();
    let ghost pred = |p: Seq<char>| !spec_ignored(p);
    let mut relevant: Vec<String> = Vec::new();
    proof {
        assert(dv.subrange(0, 0) =~= Seq::<Seq<char>>::empty());
        assert(relevant.deep_view() =~= Seq::<Seq<char>>::empty().filter(pred));
    }
    let mut i: usize = 0;
    while i < paths.len()
        invariant
            pred == (|p: Seq<char>| !spec_ignored(p)),
            dv == paths.deep_view(),
            dv.len() == paths@.len(),
            i <= paths@.len(),
            relevant.deep_view() == dv.subrange(0, i as int).filter(pred),
        decreases paths@.len() - i,
    {
        let ghost seen = dv.subrange(0, i as int);
        let p = &paths[i];
        proof {
            reveal_with_fuel(Seq::<_>::filter, 2);
            assert(dv[i as int] == p@);
            assert(dv.subrange(0, i + 1) =~= seen.push(p@));
            assert(seen.push(p@).drop_last() =~= seen);
        }
        if !should_ignore_path(p.as_str()) {
            let ghost before = relevant.deep_view();
            relevant.push(p.clone());
            proof {
                assert(relevant.deep_view() =~= before.push(p@));
            }
        }
        i = i + 1;
    }
    proof {
        assert(dv.subrange(0, dv.len() as int) =~= dv);
    }
    if relevant.is_empty() {
        return None;
    }
    match last_emit_ms {
        None => Some(relevant),
        Some(t) => {
            if now_ms >= t && now_ms - t >= DEBOUNCE_MS {
                Some(relevant)
            } else {
                None
            }
        },
    }
}

/// One received item of the watch loop: a filesystem event, a transient
/// watcher error, the bounded timeout tick, or the channel's permanent
/// disconnection.
pub enum LoopEvent {
    FsEvent(EventClass, Vec<String>),
    WatchError(String),
    TimedOut,
    Disconnected,
}

/// What the watch loop does with one received item.
pub enum LoopAction {
    /// Report these changed paths downstream.
    Emit(Vec<String>),
    /// Keep looping.
    Continue,
    /// Release the monitor and end the session.
    Exit,
}

/// One iteration of the watch loop: exits when the stop signal is off or
/// the channel disconnected; logs and continues on transient errors and
/// timeout ticks; classifies, filters and debounces filesystem events, and
/// moves the last-emission clock only when it emits.
pub fn watcher_loop_step(
    running: bool,
    event: LoopEvent,
    now_ms: u64,
    last_emit_ms: Option<u64>,
) -> (r: (LoopAction, Option<u64>))
    ensures
        !running ==> r.0 is Exit && r.1 == last_emit_ms,
        running ==> match event {
            LoopEvent::FsEvent(c, ps) => {
                &&& should_emit(c, ps.deep_view(), now_ms, last_emit_ms) ==> r.0 is Emit
                    && r.0->Emit_0.deep_view() == relevant_of(ps.deep_view()) && r.1 == Some(
                    now_ms,
                )
                &&& !should_emit(c, ps.deep_view(), now_ms, last_emit_ms) ==> r.0 is Continue
                    && r.1 == last_emit_ms
            },
            LoopEvent::WatchError(_) => r.0 is Continue && r.1 == last_emit_ms,
            LoopEvent::TimedOut => r.0 is Continue && r.1 == last_emit_ms,
            LoopEvent::Disconnected => r.0 is Exit && r.1 == last_emit_ms,
        },
{
    if !running {
        return (LoopAction::Exit, last_emit_ms);
    }
    match event {
        LoopEvent::FsEvent(c, ps) => {
            match process_event(c, &ps, now_ms, last_emit_ms) {
                Some(relevant) => (LoopAction::Emit(relevant), Some(now_ms)),
                None => (LoopAction::Continue, last_emit_ms),
            }
        },
        LoopEvent::WatchError(_) => (LoopAction::Continue, last_emit_ms),
        LoopEvent::TimedOut => (LoopAction::Continue, last_emit_ms),
        LoopEvent::Disconnected => (LoopAction::Exit, last_emit_ms),
    }
}

/// The last-emission clock after a run of events: it moves to an event's
/// time exactly when that event emits.
pub open spec fn clock_after(
    events: Seq<(EventClass, Seq<Seq<char>>, u64)>,
    last: Option<u64>,
) -> Option<u64>
    decreases events.len(),
{
    if events.len() == 0 {
        last
    } else {
        let e = events[0];
        clock_after(
            events.skip(1),
            if should_emit(e.0, e.1, e.2, last) {
                Some(e.2)
            } else {
                last
            },
        )
    }
}

/// How many of a run of events emit.
pub open spec fn emissions_in(
    events: Seq<(EventClass, Seq<Seq<char>>, u64)>,
    last: Option<u64>,
) -> nat
    decreases events.len(),
{
    if events.len() == 0 {
        0
    } else {
        let e = events[0];
        if should_emit(e.0, e.1, e.2, last) {
            1 + emissions_in(events.skip(1), Some(e.2))
        } else {
            emissions_in(events.skip(1), last)
        }
    }
}

/// A burst of events arriving entirely before the debounce window reopens
/// collapses to no emission at all, and leaves the clock where it was: with
/// the emission that opened the window, at most one emission is observed
/// per window.
pub proof fn lemma_burst_collapses(events: Seq<(EventClass, Seq<Seq<char>>, u64)>, t_emit: u64)
    requires
        forall|i: int|
            0 <= i < events.len() ==> ((#[trigger] events[i]).2 as int) < t_emit + DEBOUNCE_MS,
    ensures
        emissions_in(events, Some(t_emit)) == 0,
        clock_after(events, Some(t_emit)) == Some(t_emit),
    decreases events.len(),
{
    if events.len() > 0 {
        let e = events[0];
        assert(!should_emit(e.0, e.1, e.2, Some(t_emit)));
        assert(forall|i: int|
            0 <= i < events.skip(1).len() ==> ((#[trigger] events.skip(1)[i]).2 as int) < t_emit
                + DEBOUNCE_MS);
        lemma_burst_collapses(events.skip(1), t_emit);
    }
}

/// Any event arriving before the debounce window reopens is dropped,
/// whatever it is: after an emission at `t_emit`, at most one emission can
/// be observed per window.
pub proof fn lemma_debounce_suppresses(
    class: EventClass,
    paths: Seq<Seq<char>>,
    t_emit: u64,
    t: u64,
)
    requires
        (t as int) < t_emit + DEBOUNCE_MS,
    ensures
        !should_emit(class, paths, t, Some(t_emit)),
{
}

/// Once the window has reopened, a mutation event with a relevant path
/// produces exactly one further emission.
pub proof fn lemma_debounce_reopens(
    class: EventClass,
    paths: Seq<Seq<char>>,
    t_emit: u64,
    t: u64,
)
    requires
        t >= t_emit,
        t - t_emit >= DEBOUNCE_MS,
        class is Mutation,
        relevant_of(paths).len() > 0,
    ensures
        should_emit(class, paths, t, Some(t_emit)),
{
}

} // verus!
