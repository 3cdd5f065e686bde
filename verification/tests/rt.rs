use async_std::monitor::{Monitor, MonitorAction, SCALE_DOWN_INTERVAL_MS};
use async_std::rt::{final_step, FinalStep, route_task, steal_order, thread_count, Backoff, IdleAction, Registry, Route, SearchResult, SearchStep, Slot, StealOutcome, TaskSearch};

#[test]
fn backoff_yields_then_sleeps_then_checks() {
    let mut b = Backoff::new();
    let mut actions = Vec::new();
    for _ in 0..15 {
        actions.push(b.missed());
    }
    assert_eq!(&actions[..3], &[IdleAction::Yield; 3]);
    assert_eq!(&actions[3..13], &[IdleAction::Sleep; 10]);
    assert_eq!(&actions[13..], &[IdleAction::FinalCheck; 2]);
    b.polled();
    assert_eq!(b.missed(), IdleAction::Yield);
}

#[test]
fn backoff_upkeep_every_64_runs() {
    let mut b = Backoff::new();
    let mut due = 0;
    for _ in 0..200 {
        if b.upkeep_due() {
            due += 1;
        }
        b.found();
    }
    assert_eq!(due, 3);
    b.missed();
    b.found();
    assert_eq!(b.missed(), IdleAction::Yield);
}

#[test]
fn search_order_and_results() {
    let mut s = TaskSearch::new();
    assert_eq!(s.step(), SearchStep::PopLocal);
    assert_eq!(s.record_pop(false), None);
    assert_eq!(s.step(), SearchStep::StealGlobal);
    assert_eq!(s.record_steal(StealOutcome::Retry), None);
    assert_eq!(s.step(), SearchStep::PollReactor);
    s.record_poll(true);
    assert_eq!(s.step(), SearchStep::PopLocalAgain);
    assert_eq!(s.record_pop(false), None);
    assert_eq!(s.step(), SearchStep::StealOthers);
    assert_eq!(s.record_steal(StealOutcome::Empty), Some(SearchResult::Retry));
    assert_eq!(s.step(), SearchStep::Done);

    let mut s = TaskSearch::new();
    s.record_pop(false);
    s.record_steal(StealOutcome::Empty);
    s.record_poll(false);
    assert_eq!(s.step(), SearchStep::StealOthers);
    assert_eq!(s.record_steal(StealOutcome::Empty), Some(SearchResult::Empty));

    let mut s = TaskSearch::new();
    s.record_pop(false);
    assert_eq!(s.record_steal(StealOutcome::Success), Some(SearchResult::Found));
    let mut s = TaskSearch::new();
    assert_eq!(s.record_pop(true), Some(SearchResult::Found));
}

#[test]
fn slot_displaces_older_task() {
    let mut slot = Slot::new();
    assert_eq!(slot.schedule(1), None);
    assert_eq!(slot.schedule(2), Some(1));
    assert_eq!(slot.flush(), Some(2));
    assert_eq!(slot.flush(), None);
}

#[test]
fn routes() {
    assert_eq!(route_task(true, false), Route::Local);
    assert_eq!(route_task(true, true), Route::Global);
    assert_eq!(route_task(false, false), Route::Global);
}

#[test]
fn registry_ids_and_termination() {
    let mut r: Registry<&str> = Registry::new(2);
    assert_eq!(r.register("a"), 0);
    assert_eq!(r.register("b"), 1);
    assert_eq!(r.register("c"), 2);
    assert!(r.request_scale_down());
    // A second request would leave fewer than two workers once both have stopped.
    assert!(!r.request_scale_down());
    assert!(!r.deregister(1));
    assert_eq!(*r.handle(0), "a");
    assert_eq!(*r.handle(1), "c");
    assert!(!r.request_scale_down());
    assert!(!r.deregister(7));
    assert_eq!(r.len(), 2);
    assert!(!r.deregister(0));
    assert!(r.deregister(2));
    assert_eq!(r.len(), 0);
    assert_eq!(r.register("d"), 3);
}

#[test]
fn thread_count_from_setting_or_cpus() {
    assert_eq!(thread_count(Some("4"), 8), Some(4));
    assert_eq!(thread_count(Some("+3"), 8), Some(3));
    assert_eq!(thread_count(Some("0"), 8), Some(1));
    assert_eq!(thread_count(None, 6), Some(6));
    assert_eq!(thread_count(None, 0), Some(1));
}

#[test]
fn thread_count_refuses_what_is_not_a_number() {
    assert_eq!(thread_count(Some("four"), 8), None);
    assert_eq!(thread_count(Some(" 4"), 8), None);
    assert_eq!(thread_count(Some("-1"), 8), None);
    assert_eq!(thread_count(Some(""), 8), None);
    assert_eq!(thread_count(Some("99999999999999999999999"), 8), None);
}

#[test]
fn steal_order_wraps_around() {
    assert_eq!(steal_order(5, 2), vec![2, 3, 4, 0, 1]);
    assert_eq!(steal_order(3, 0), vec![0, 1, 2]);
    assert_eq!(steal_order(3, 3), vec![0, 1, 2]);
    assert_eq!(steal_order(0, 0), Vec::<usize>::new());
}

#[test]
fn monitor_scales_up_when_probe_missed_and_down_every_interval() {
    let mut m = Monitor::new(1000);
    assert_eq!(m.next_due(), 1000 + SCALE_DOWN_INTERVAL_MS);
    assert_eq!(m.check(true, 1510), MonitorAction { scale_up: false, scale_down: false });
    assert_eq!(m.check(false, 2020), MonitorAction { scale_up: true, scale_down: false });
    assert_eq!(m.check(true, 6000), MonitorAction { scale_up: false, scale_down: true });
    assert_eq!(m.next_due(), 11000);
    // A late check lets only one worker go and moves the due time by one interval.
    assert_eq!(m.check(true, 30000), MonitorAction { scale_up: false, scale_down: true });
    assert_eq!(m.next_due(), 16000);
}

#[test]
fn final_step_searches_again_schedules_sleeps_or_blocks() {
    assert_eq!(final_step(SearchResult::Retry, true), FinalStep::SearchAgain);
    assert_eq!(final_step(SearchResult::Found, true), FinalStep::Schedule);
    assert_eq!(final_step(SearchResult::Empty, true), FinalStep::Sleep);
    assert_eq!(final_step(SearchResult::Empty, false), FinalStep::Block);
}
