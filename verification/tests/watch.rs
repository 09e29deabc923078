use mafis::watch::{
    is_source_change, watch_command, WatchAction, WatchEvent, WatchState, DEBOUNCE_MS,
};

fn ext(e: &str) -> Option<String> {
    Some(e.to_string())
}

#[test]
fn first_change_always_runs() {
    let s = WatchState::new();
    let (s, a) = s.on_event(WatchEvent::SourceChanged { now_ms: 0 });
    assert_eq!(a, WatchAction::RunCargo);
    assert_eq!(s.last_run_ms, Some(0));
}

#[test]
fn changes_within_the_debounce_interval_wait() {
    let s = WatchState::new();
    let (s, _) = s.on_event(WatchEvent::SourceChanged { now_ms: 1000 });
    let (s2, a) = s.on_event(WatchEvent::SourceChanged { now_ms: 1000 + DEBOUNCE_MS });
    assert_eq!(a, WatchAction::Wait);
    assert_eq!(s2, s);
    let (s3, a) = s2.on_event(WatchEvent::SourceChanged { now_ms: 1001 + DEBOUNCE_MS });
    assert_eq!(a, WatchAction::RunCargo);
    assert_eq!(s3.last_run_ms, Some(1001 + DEBOUNCE_MS));
}

#[test]
fn idle_waits_and_closed_stops() {
    let s = WatchState { last_run_ms: Some(5) };
    assert_eq!(s.on_event(WatchEvent::Idle), (s, WatchAction::Wait));
    assert_eq!(s.on_event(WatchEvent::Closed), (s, WatchAction::Stop));
}

#[test]
fn only_rust_sources_count() {
    assert!(is_source_change(true, &[None, ext("rs")]));
    assert!(!is_source_change(true, &[ext("toml"), None, ext("rsx")]));
    assert!(!is_source_change(false, &[ext("rs")]));
    assert!(!is_source_change(true, &[]));
}

#[test]
fn watch_command_names_the_mode() {
    assert_eq!(watch_command(true), "test");
    assert_eq!(watch_command(false), "check");
}
