use blurt::app::indexer::{IndexJob, Request, Schedule, WorkerAction, EDIT_QUIET_PERIOD_MS};

fn job(item: u128, edit: Option<u128>) -> IndexJob {
    IndexJob { item_id: item, edit_id: edit }
}

/// Steps the worker at `now` and returns the job it runs, if any.
fn ran(s: &mut Schedule, now: u64) -> Option<IndexJob> {
    match s.step(now) {
        WorkerAction::Run(j) => Some(j),
        _ => None,
    }
}

#[test]
fn a_capture_is_indexed_without_waiting() {
    let mut s = Schedule::new();
    let capture = job(1, None);

    s.apply(Request::Now(capture), 0);

    assert_eq!(s.step(10), WorkerAction::Run(capture));
}

#[test]
fn an_edit_waits_for_the_quiet_period() {
    let mut s = Schedule::new();
    let edit = job(1, Some(10));

    s.apply(Request::AfterQuiet(edit), 0);

    assert_eq!(s.step(0), WorkerAction::WaitUntil(1500));
    assert_eq!(ran(&mut s, 1400), None, "ran too early");
    assert_eq!(ran(&mut s, 1400 + 200), Some(edit));
}

#[test]
fn a_newer_edit_replaces_the_pending_one_and_restarts_the_wait() {
    let mut s = Schedule::new();
    let first = job(7, Some(70));
    let second = job(7, Some(71));

    s.apply(Request::AfterQuiet(first), 0);
    s.apply(Request::AfterQuiet(second), 1000);

    // The first edit's deadline (1500ms) has passed, but it was replaced.
    assert_eq!(s.step(1000 + 1400), WorkerAction::WaitUntil(2500));
    assert_eq!(ran(&mut s, 1000 + 1400 + 200), Some(second));
    assert_eq!(s.step(1000 + 1400 + 200 + 5000), WorkerAction::WaitForRequest, "the replaced edit must never run");
}

#[test]
fn edits_to_different_items_debounce_independently() {
    let mut s = Schedule::new();
    let a = job(2, Some(20));
    let b = job(1, Some(10));

    s.apply(Request::AfterQuiet(a), 0);
    s.apply(Request::AfterQuiet(b), 0);

    let mut got = vec![ran(&mut s, 1600).unwrap(), ran(&mut s, 1600 + 100).unwrap()];
    got.sort_by_key(|j| j.item_id);
    let mut want = vec![a, b];
    want.sort_by_key(|j| j.item_id);
    assert_eq!(got, want);
}

#[test]
fn clearing_discards_everything_queued() {
    let mut s = Schedule::new();

    s.apply(Request::AfterQuiet(job(3, Some(30))), 0);
    s.apply(Request::Clear, 0);

    assert_eq!(s.step(5000), WorkerAction::WaitForRequest);
}

#[test]
fn jobs_run_one_at_a_time() {
    let mut s = Schedule::new();
    for item in 0..3u128 {
        s.apply(Request::Now(job(item, None)), 0);
    }

    // Each step hands out exactly one job, in the order they were queued.
    assert_eq!(ran(&mut s, 0), Some(job(0, None)));
    assert_eq!(ran(&mut s, 100), Some(job(1, None)));
    assert_eq!(ran(&mut s, 200), Some(job(2, None)));
    assert_eq!(s.step(300), WorkerAction::WaitForRequest);
}

#[test]
fn a_capture_does_not_wait_behind_a_pending_edit() {
    let mut s = Schedule::new();
    let edit = job(1, Some(10));
    let capture = job(2, None);

    s.apply(Request::AfterQuiet(edit), 0);
    s.apply(Request::Now(capture), 100);

    assert_eq!(s.step(100), WorkerAction::Run(capture));
    assert_eq!(s.step(200), WorkerAction::WaitUntil(1500));
    assert_eq!(s.step(1500), WorkerAction::Run(edit));
}

#[test]
fn the_earliest_deadline_is_the_one_waited_for() {
    let mut s = Schedule::new();
    s.apply(Request::AfterQuiet(job(1, Some(10))), 400);
    s.apply(Request::AfterQuiet(job(2, Some(20))), 100);

    assert_eq!(s.step(200), WorkerAction::WaitUntil(100 + EDIT_QUIET_PERIOD_MS));
}

#[test]
fn a_due_edit_runs_after_jobs_already_ready() {
    let mut s = Schedule::new();
    let edit = job(1, Some(10));
    let capture = job(2, None);

    s.apply(Request::AfterQuiet(edit), 0);
    s.apply(Request::Now(capture), 0);

    assert_eq!(s.step(2000), WorkerAction::Run(capture));
    assert_eq!(s.step(2000), WorkerAction::Run(edit));
}

#[test]
fn clearing_drops_ready_captures_too() {
    let mut s = Schedule::new();
    s.apply(Request::Now(job(1, None)), 0);
    s.apply(Request::Clear, 0);
    assert_eq!(s.step(0), WorkerAction::WaitForRequest);
}

#[test]
fn a_sleeping_worker_woken_early_sleeps_to_the_same_time_then_runs() {
    let mut s = Schedule::new();
    s.apply(Request::AfterQuiet(job(4, Some(1))), 0);
    s.apply(Request::AfterQuiet(job(5, Some(2))), 300);
    assert_eq!(s.step(10), WorkerAction::WaitUntil(1500));
    assert_eq!(s.step(900), WorkerAction::WaitUntil(1500));
    assert_eq!(s.step(1499), WorkerAction::WaitUntil(1500));
    assert_eq!(s.step(1500), WorkerAction::Run(job(4, Some(1))));
    assert_eq!(s.step(1500), WorkerAction::WaitUntil(1800));
}
