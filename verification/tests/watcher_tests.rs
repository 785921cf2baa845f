use hibiscus_core::watcher::process_event;
use hibiscus_core::watcher::should_ignore_path;
use hibiscus_core::watcher::watcher_loop_step;
use hibiscus_core::watcher::EventClass;
use hibiscus_core::watcher::LoopAction;
use hibiscus_core::watcher::LoopEvent;
use hibiscus_core::watcher::WatcherState;
use hibiscus_core::watcher::DEBOUNCE_MS;

fn paths(ps: &[&str]) -> Vec<String> {
    ps.iter().map(|p| p.to_string()).collect()
}

#[test]
fn ignore_list() {
    assert!(should_ignore_path("/ws/.hibiscus/workspace.json"));
    assert!(should_ignore_path("/ws/.git/HEAD"));
    assert!(should_ignore_path("/ws/sub/node_modules/x.js"));
    assert!(should_ignore_path("/ws/__pycache__/m.pyc"));
    assert!(should_ignore_path("/ws/.DS_Store"));
    assert!(should_ignore_path("/ws/Thumbs.db"));
    assert!(should_ignore_path("/ws/.vscode/settings.json"));
    assert!(!should_ignore_path("/ws/docs/readme.md"));
}

#[test]
fn access_and_noise_events_are_discarded() {
    assert!(process_event(EventClass::Access, &paths(&["/ws/a.txt"]), 10_000, None).is_none());
    assert!(process_event(EventClass::Other, &paths(&["/ws/a.txt"]), 10_000, None).is_none());
}

#[test]
fn fully_ignored_events_are_dropped() {
    let r = process_event(
        EventClass::Mutation,
        &paths(&["/ws/.hibiscus/workspace.json", "/ws/.git/index"]),
        10_000,
        None,
    );
    assert!(r.is_none());
}

#[test]
fn surviving_paths_keep_their_order() {
    let r = process_event(
        EventClass::Mutation,
        &paths(&["/ws/b.txt", "/ws/.git/index", "/ws/a.txt"]),
        10_000,
        None,
    )
    .unwrap();
    assert_eq!(r, paths(&["/ws/b.txt", "/ws/a.txt"]));
}

#[test]
fn debounce_rate_limits_to_one_emission_per_window() {
    let ps = paths(&["/ws/a.txt"]);
    // first event emits: no emission happened yet
    let first = process_event(EventClass::Mutation, &ps, 1_000, None);
    assert!(first.is_some());
    let mut last = Some(1_000u64);
    // a burst of rapid events inside the window: none emits, the clock stays
    for t in [1_001u64, 1_050, 1_150, 1_299] {
        assert!(process_event(EventClass::Mutation, &ps, t, last).is_none());
    }
    // the window reopens: exactly one further emission
    let t = 1_000 + DEBOUNCE_MS;
    let again = process_event(EventClass::Mutation, &ps, t, last);
    assert!(again.is_some());
    last = Some(t);
    assert!(process_event(EventClass::Mutation, &ps, t + 1, last).is_none());
    // a clock that reads earlier than the last emission stays suppressed
    assert!(process_event(EventClass::Mutation, &ps, t - 1, last).is_none());
}

#[test]
fn loop_step_decisions() {
    // stop signal off: exit whatever arrived
    let (action, last) = watcher_loop_step(false, LoopEvent::TimedOut, 0, None);
    assert!(matches!(action, LoopAction::Exit));
    assert!(last.is_none());

    // timeout tick and transient error: keep looping, clock untouched
    let (action, last) = watcher_loop_step(true, LoopEvent::TimedOut, 5, Some(2));
    assert!(matches!(action, LoopAction::Continue));
    assert_eq!(last, Some(2));
    let (action, _) = watcher_loop_step(
        true,
        LoopEvent::WatchError("transient".to_string()),
        5,
        Some(2),
    );
    assert!(matches!(action, LoopAction::Continue));

    // disconnection ends the session
    let (action, _) = watcher_loop_step(true, LoopEvent::Disconnected, 5, Some(2));
    assert!(matches!(action, LoopAction::Exit));

    // an emitting event moves the clock
    let ev = LoopEvent::FsEvent(EventClass::Mutation, paths(&["/ws/a.txt"]));
    let (action, last) = watcher_loop_step(true, ev, 9_000, None);
    match action {
        LoopAction::Emit(ps) => assert_eq!(ps, paths(&["/ws/a.txt"])),
        other => panic!("expected an emission, got a different action: {}", kind(&other)),
    }
    assert_eq!(last, Some(9_000));

    // a suppressed event leaves it alone
    let ev = LoopEvent::FsEvent(EventClass::Mutation, paths(&["/ws/a.txt"]));
    let (action, last) = watcher_loop_step(true, ev, 9_100, Some(9_000));
    assert!(matches!(action, LoopAction::Continue));
    assert_eq!(last, Some(9_000));
}

fn kind(a: &LoopAction) -> &'static str {
    match a {
        LoopAction::Emit(_) => "emit",
        LoopAction::Continue => "continue",
        LoopAction::Exit => "exit",
    }
}

#[test]
fn session_lifecycle() {
    let mut s = WatcherState::default();
    assert!(!s.is_watching());
    assert!(s.get_watched_path().is_none());

    // stop on an idle watcher is a no-op
    let was = s.stop_watching();
    assert!(!was);
    assert!(!s.is_watching());
    assert!(s.get_watched_path().is_none());

    s.watch_workspace("/ws".to_string());
    assert!(s.is_watching());
    assert_eq!(s.get_watched_path().as_deref(), Some("/ws"));

    // start over a running session replaces the watched root
    s.watch_workspace("/other".to_string());
    assert!(s.is_watching());
    assert_eq!(s.get_watched_path().as_deref(), Some("/other"));

    // start then stop: inactive, and no watched path even though one is cached
    let was = s.stop_watching();
    assert!(was);
    assert!(!s.is_watching());
    assert!(s.get_watched_path().is_none());
}
