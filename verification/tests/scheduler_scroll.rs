use list_monitor::engine::CycleKind;
use list_monitor::scheduler::{Scheduler, DEBOUNCE_MS};
use list_monitor::scroll::{ScrollBack, ScrollMode, BLIND_SCROLL_STEPS, MAX_SCROLL_STEPS};

#[test]
fn debounce_delays_trigger_by_quiet_window() {
    let mut s = Scheduler::new();
    assert!(!s.trigger_due(10_000));
    s.on_content_changed(10_000);
    assert!(!s.trigger_due(10_000 + DEBOUNCE_MS - 1));
    assert!(s.trigger_due(10_000 + DEBOUNCE_MS));
}

#[test]
fn burst_of_signals_coalesces_to_last_deadline() {
    let mut s = Scheduler::new();
    s.on_content_changed(1_000);
    s.on_content_changed(1_200);
    assert!(!s.trigger_due(1_400));
    assert!(s.trigger_due(1_600));
}

#[test]
fn trigger_waits_while_cycle_runs() {
    let mut s = Scheduler::new();
    s.on_content_changed(0);
    assert!(s.trigger_due(500));
    let kind = s.begin_cycle(500, 0, 5);
    assert_eq!(kind, CycleKind::Scanning);
    // A signal during the cycle must wait until the cycle completes.
    s.on_content_changed(600);
    assert!(!s.trigger_due(2_000));
    s.end_cycle();
    assert!(s.trigger_due(2_000));
}

#[test]
fn begin_cycle_dispatches_by_gap() {
    let mut s = Scheduler::new();
    assert_eq!(s.begin_cycle(300_000, 0, 5), CycleKind::CatchingUp);
    s.end_cycle();
    assert_eq!(s.begin_cycle(299_000, 0, 5), CycleKind::Scanning);
}

#[test]
fn reload_fires_after_refresh_interval() {
    let mut s = Scheduler::new();
    s.schedule_reload(0, 1);
    assert!(!s.reload_due(59_999));
    assert!(s.reload_due(60_000));
}

#[test]
fn blind_scroll_runs_fixed_steps() {
    let mut sb = ScrollBack::start(false);
    assert_eq!(sb.mode, ScrollMode::Blind);
    for step in 1..=BLIND_SCROLL_STEPS {
        let done = sb.blind_step();
        assert_eq!(done, step == BLIND_SCROLL_STEPS);
    }
}

#[test]
fn targeted_scroll_stops_when_last_id_visible() {
    let mut sb = ScrollBack::start(true);
    assert_eq!(sb.mode, ScrollMode::Targeted);
    assert!(!sb.should_stop(false, 100));
    sb.targeted_step(100);
    assert!(sb.should_stop(true, 200));
}

#[test]
fn targeted_scroll_stops_at_step_cap() {
    let mut sb = ScrollBack::start(true);
    for i in 0..MAX_SCROLL_STEPS {
        assert!(!sb.should_stop(false, 1_000 + i as u64));
        sb.targeted_step(1_000 + i as u64);
    }
    assert!(sb.should_stop(false, u64::MAX));
}

#[test]
fn stagnation_needs_enough_steps() {
    let mut sb = ScrollBack::start(true);
    // Height stuck at 500 from the start: the first four steps may not
    // conclude stagnation (slow initial rendering), the sixth check may.
    for _ in 0..4 {
        assert!(!sb.should_stop(false, 500));
        sb.targeted_step(500);
    }
    // steps == 4 now; stagnation requires steps > 4.
    assert!(!sb.should_stop(false, 500));
    sb.targeted_step(500);
    assert!(sb.should_stop(false, 500));
    // A growing height does not stop the scroll.
    assert!(!sb.should_stop(false, 501));
}
