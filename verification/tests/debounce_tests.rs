use transcription_uploader::debounce::{Debouncer, TimerVerdict};

const WINDOW: u64 = 3000;

#[test]
fn test_burst_extends_the_quiet_window() {
    let mut d = Debouncer::new();
    let p = "dir/file.txt".to_string();

    // Events at t=0s, t=1s, t=2s; the window is 3s.
    assert!(d.on_event(p.clone(), 0));
    assert!(!d.on_event(p.clone(), 1000)); // timer already outstanding
    assert!(!d.on_event(p.clone(), 2000));

    // The timer wakes at t=3s: the last event is only 1s old, so the path is
    // not yet stable; the rest of the window is 2s.
    assert_eq!(d.on_timer_fire(&p, 3000, WINDOW), TimerVerdict::Wait(2000));

    // At t=5s the path has been quiet for the full window: stable now, not
    // at t=3s.
    assert_eq!(d.on_timer_fire(&p, 5000, WINDOW), TimerVerdict::Stable);
}

#[test]
fn test_quiet_path_is_stable_after_one_window() {
    let mut d = Debouncer::new();
    let p = "a/b.mp3".to_string();
    assert!(d.on_event(p.clone(), 0));
    assert_eq!(d.on_timer_fire(&p, 3000, WINDOW), TimerVerdict::Stable);
}

#[test]
fn test_fresh_event_after_stability_starts_a_new_cycle() {
    let mut d = Debouncer::new();
    let p = "a/b.mp3".to_string();
    assert!(d.on_event(p.clone(), 0));
    assert_eq!(d.on_timer_fire(&p, 3000, WINDOW), TimerVerdict::Stable);
    // The path returned to idle: the next event starts a new timer.
    assert!(d.on_event(p.clone(), 10_000));
    assert_eq!(d.on_timer_fire(&p, 13_000, WINDOW), TimerVerdict::Stable);
}

#[test]
fn test_forgotten_path_is_abandoned() {
    let mut d = Debouncer::new();
    let p = "a/b.mp3".to_string();
    assert!(d.on_event(p.clone(), 0));
    d.forget_path(&p);
    assert_eq!(d.on_timer_fire(&p, 3000, WINDOW), TimerVerdict::Abandoned);
    // Abandonment also returns the path to idle.
    assert!(d.on_event(p.clone(), 4000));
}

#[test]
fn test_paths_are_debounced_independently() {
    let mut d = Debouncer::new();
    let p1 = "a/one.txt".to_string();
    let p2 = "a/two.txt".to_string();
    assert!(d.on_event(p1.clone(), 0));
    assert!(d.on_event(p2.clone(), 2000));
    assert_eq!(d.on_timer_fire(&p1, 3000, WINDOW), TimerVerdict::Stable);
    assert_eq!(d.on_timer_fire(&p2, 3000, WINDOW), TimerVerdict::Wait(2000));
    assert_eq!(d.on_timer_fire(&p2, 5000, WINDOW), TimerVerdict::Stable);
}
