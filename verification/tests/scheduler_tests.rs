use server_monitor::Scheduler;
use server_monitor::scheduler::DEFAULT_CHECK_INTERVAL_MS;

#[test]
fn a_new_scheduler_waits_a_full_interval() {
    let s = Scheduler::new(1_000, DEFAULT_CHECK_INTERVAL_MS);
    assert!(s.auto_check_enabled);
    assert!(!s.should_check(1_000));
    assert!(!s.should_check(30_999));
    assert!(s.should_check(31_000));
    assert!(s.should_check(50_000));
}

#[test]
fn marking_a_check_resets_the_interval() {
    let mut s = Scheduler::new(0, 30_000);
    assert!(s.should_check(30_000));
    s.mark_checked(30_000);
    assert!(!s.should_check(59_999));
    assert!(s.should_check(60_000));
}

#[test]
fn disabled_auto_check_never_triggers() {
    let mut s = Scheduler::new(0, 30_000);
    s.set_auto_check(false);
    assert!(!s.should_check(1_000_000));
    s.set_auto_check(true);
    assert!(s.should_check(1_000_000));
}

#[test]
fn an_explicit_check_now_also_resets_the_timer() {
    let mut s = Scheduler::new(0, 30_000);
    // the user pressed "check now" at 10 s; the automatic trigger then
    // waits a full interval from there
    s.mark_checked(10_000);
    assert!(!s.should_check(30_000));
    assert!(s.should_check(40_000));
}
