//! Scheduling of background indexing.
//!
//! A capture is indexed as soon as the worker is free; an edit waits until
//! its item has had no newer edit for [`EDIT_QUIET_PERIOD_MS`], so that only
//! the settled version is embedded. One worker serves every request, one job
//! at a time. [`Schedule`] is that worker's state: the worker hands it each
//! request as it arrives, then asks it what to do next, and either runs the
//! job it is given or sleeps until the time or the next request it is told.
//! Times are milliseconds on the worker's monotonic clock.
//!
//! Nothing here is durable: whatever the schedule holds at quit, crash or
//! lock is gone, and the catch-up pass on unlock queues it again.
use vstd::prelude::*;

verus! {

/// How long an edit waits for the next edit of the same item, in ms.
pub const EDIT_QUIET_PERIOD_MS: u64 = 1500;

/// One version of one item to index. `edit_id: None` is the original capture.
#[derive(Debug, Clone, Copy, PartialEq, Eq, Structural)]
pub struct IndexJob {
    pub item_id: u128,
    pub edit_id: Option<u128>,
}

/// What the worker is asked to do.
#[derive(Debug, Clone, Copy, PartialEq, Eq, Structural)]
pub enum Request {
    /// Run as soon as the worker is free.
    Now(IndexJob),
    /// Run once this item has had no newer edit for the quiet period.
    AfterQuiet(IndexJob),
    /// Drop everything queued: the vault is locking.
    Clear,
}

/// A job waiting for its item's quiet period to end at `due_ms`.
#[derive(Debug, Clone, Copy, PartialEq, Eq, Structural)]
pub struct Pending {
    pub job: IndexJob,
    pub due_ms: u64,
}

/// What the worker does next.
#[derive(Debug, Clone, Copy, PartialEq, Eq, Structural)]
pub enum WorkerAction {
    /// Run this job, then ask again.
    Run(IndexJob),
    /// Wait for the next request, but no later than this time.
    WaitUntil(u64),
    /// Nothing is queued: wait for the next request.
    WaitForRequest,
}

/// The worker's queue: jobs ready to run in order, and at most one waiting
/// job per item.
pub struct Schedule {
    ready: Vec<IndexJob>,
    quiet: Vec<Pending>,
}

/// The mathematical value of a [`Schedule`].
pub struct ScheduleView {
    pub ready: Seq<IndexJob>,
    pub quiet: Seq<Pending>,
}

/// No two waiting jobs belong to the same item.
pub open spec fn one_per_item(quiet: Seq<Pending>) -> bool {
    forall|i: int, k: int|
        0 <= i < k < quiet.len() ==> #[trigger] quiet[i].job.item_id != #[trigger] quiet[k].job.item_id
}

/// Whether a job of `item` is waiting.
pub open spec fn waits_for(quiet: Seq<Pending>, item: u128) -> bool {
    exists|i: int| 0 <= i < quiet.len() && #[trigger] quiet[i].job.item_id == item
}

/// `quiet` with `p` as its item's waiting job: in place of the one waiting
/// for that item, or last if there was none.
pub open spec fn with_pending(quiet: Seq<Pending>, p: Pending) -> Seq<Pending> {
    if waits_for(quiet, p.job.item_id) {
        quiet.update(
            choose|i: int| 0 <= i < quiet.len() && #[trigger] quiet[i].job.item_id == p.job.item_id,
            p,
        )
    } else {
        quiet.push(p)
    }
}

/// The jobs of `quiet` whose quiet period has ended at `now`, in order.
pub open spec fn due_jobs(quiet: Seq<Pending>, now: int) -> Seq<IndexJob>
    decreases quiet.len(),
{
    if quiet.len() == 0 {
        seq![]
    } else {
        let rest = due_jobs(quiet.drop_last(), now);
        if quiet.last().due_ms <= now {
            rest.push(quiet.last().job)
        } else {
            rest
        }
    }
}

/// The entries of `quiet` still waiting at `now`, in order.
pub open spec fn still_waiting(quiet: Seq<Pending>, now: int) -> Seq<Pending>
    decreases quiet.len(),
{
    if quiet.len() == 0 {
        seq![]
    } else {
        let rest = still_waiting(quiet.drop_last(), now);
        if quiet.last().due_ms <= now {
            rest
        } else {
            rest.push(quiet.last())
        }
    }
}

/// The earliest time at which an entry of `quiet` is due.
pub open spec fn earliest_due(quiet: Seq<Pending>) -> int
    decreases quiet.len(),
{
    if quiet.len() <= 1 {
        quiet[0].due_ms as int
    } else {
        let rest = earliest_due(quiet.drop_last());
        if quiet.last().due_ms < rest {
            quiet.last().due_ms as int
        } else {
            rest
        }
    }
}

/// The schedule after `request` arrives at `now`.
pub open spec fn apply_spec(s: ScheduleView, request: Request, now: u64) -> ScheduleView {
    match request {
        Request::Now(job) => ScheduleView { ready: s.ready.push(job), quiet: s.quiet },
        Request::AfterQuiet(job) => ScheduleView {
            ready: s.ready,
            quiet: with_pending(
                s.quiet,
                Pending { job, due_ms: (now + EDIT_QUIET_PERIOD_MS) as u64 },
            ),
        },
        Request::Clear => ScheduleView { ready: seq![], quiet: seq![] },
    }
}

/// The schedule, and what the worker does, when it asks at `now`: every job
/// whose quiet period has ended joins the ready ones in order; the first
/// ready job runs; failing that the worker sleeps until the earliest waiting
/// job is due, or until the next request when nothing waits.
pub open spec fn step_spec(s: ScheduleView, now: u64) -> (ScheduleView, WorkerAction) {
    let ready = s.ready + due_jobs(s.quiet, now as int);
    let quiet = still_waiting(s.quiet, now as int);
    if ready.len() > 0 {
        (ScheduleView { ready: ready.drop_first(), quiet }, WorkerAction::Run(ready[0]))
    } else if quiet.len() > 0 {
        (ScheduleView { ready, quiet }, WorkerAction::WaitUntil(earliest_due(quiet) as u64))
    } else {
        (ScheduleView { ready, quiet }, WorkerAction::WaitForRequest)
    }
}

impl View for Schedule {
    type V = ScheduleView;

    closed spec fn view(&self) -> ScheduleView {
        ScheduleView { ready: self.ready@, quiet: self.quiet@ }
    }
}

impl Schedule {
    #[verifier::type_invariant]
    spec fn well_formed(self) -> bool {
        one_per_item(self.quiet@)
    }

    /// An empty schedule.
    pub fn new() -> (s: Schedule)
        ensures
            s@.ready == Seq::<IndexJob>::empty(),
            s@.quiet == Seq::<Pending>::empty(),
    {
        Schedule { ready: Vec::new(), quiet: Vec::new() }
    }

    /// Takes in a request that arrived at `now_ms`.
    pub fn apply(&mut self, request: Request, now_ms: u64)
        requires
            now_ms + EDIT_QUIET_PERIOD_MS <= u64::MAX,
        ensures
            final(self)@ == apply_spec(old(self)@, request, now_ms),
            one_per_item(final(self)@.quiet),
    {
        proof {
            use_type_invariant(&*self);
        }
        match request {
            Request::Now(job) => {
                let mut ready = Vec::new();
                std::mem::swap(&mut ready, &mut self.ready);
                ready.push(job);
                self.ready = ready;
            },
            Request::AfterQuiet(job) => {
                let p = Pending { job, due_ms: now_ms + EDIT_QUIET_PERIOD_MS };
                let mut quiet = Vec::new();
                std::mem::swap(&mut quiet, &mut self.quiet);
                put_pending(&mut quiet, p);
                self.quiet = quiet;
            },
            Request::Clear => {
                self.ready = Vec::new();
                self.quiet = Vec::new();
            },
        }
        proof {
            use_type_invariant(&*self);
        }
    }

    /// Decides what the worker does at `now_ms`, and updates the schedule
    /// to match: see [`step_spec`].
    pub fn step(&mut self, now_ms: u64) -> (action: WorkerAction)
        ensures
            (final(self)@, action) == step_spec(old(self)@, now_ms),
            one_per_item(final(self)@.quiet),
    {
        proof {
            use_type_invariant(&*self);
        }
        let (due, waiting) = split_due(&self.quiet, now_ms);
        proof {
            lemma_still_waiting_one_per_item(self.quiet@, now_ms as int);
        }
        let mut ready = Vec::new();
        std::mem::swap(&mut ready, &mut self.ready);
        let ghost old_ready = ready@;
        let mut due = due;
        ready.append(&mut due);
        assert(ready@ =~= old_ready + due_jobs(old(self)@.quiet, now_ms as int));
        self.quiet = waiting;
        if ready.len() > 0 {
            let job = ready.remove(0);
            self.ready = ready;
            assert(self.ready@ =~= (old_ready + due_jobs(old(self)@.quiet, now_ms as int)).drop_first());
            WorkerAction::Run(job)
        } else if self.quiet.len() > 0 {
            self.ready = ready;
            WorkerAction::WaitUntil(earliest(&self.quiet))
        } else {
            self.ready = ready;
            WorkerAction::WaitForRequest
        }
    }
}

/// Makes `p` its item's waiting job.
fn put_pending(quiet: &mut Vec<Pending>, p: Pending)
    requires
        one_per_item(old(quiet)@),
    ensures
        final(quiet)@ == with_pending(old(quiet)@, p),
        one_per_item(final(quiet)@),
{
    let mut i: usize = 0;
    while i < quiet.len()
        invariant
            i <= quiet.len(),
            quiet@ == old(quiet)@,
            one_per_item(quiet@),
            forall|k: int| 0 <= k < i ==> #[trigger] quiet@[k].job.item_id != p.job.item_id,
        decreases quiet.len() - i,
    {
        if quiet[i].job.item_id == p.job.item_id {
            proof {
                let c = choose|k: int|
                    0 <= k < quiet@.len() && #[trigger] quiet@[k].job.item_id == p.job.item_id;
                if c != i as int {
                    assert(quiet@[c].job.item_id == quiet@[i as int].job.item_id);
                }
            }
            quiet.set(i, p);
            return;
        }
        i += 1;
    }
    proof {
        assert(!waits_for(old(quiet)@, p.job.item_id));
    }
    quiet.push(p);
}

/// The due jobs and the still-waiting entries of `quiet` at `now`.
fn split_due(quiet: &Vec<Pending>, now: u64) -> (r: (Vec<IndexJob>, Vec<Pending>))
    ensures
        r.0@ == due_jobs(quiet@, now as int),
        r.1@ == still_waiting(quiet@, now as int),
{
    let mut due: Vec<IndexJob> = Vec::new();
    let mut waiting: Vec<Pending> = Vec::new();
    let mut i: usize = 0;
    while i < quiet.len()
        invariant
            i <= quiet.len(),
            due@ == due_jobs(quiet@.take(i as int), now as int),
            waiting@ == still_waiting(quiet@.take(i as int), now as int),
        decreases quiet.len() - i,
    {
        let p = quiet[i];
        assert(quiet@.take(i + 1).drop_last() =~= quiet@.take(i as int));
        if p.due_ms <= now {
            due.push(p.job);
        } else {
            waiting.push(p);
        }
        i += 1;
    }
    assert(quiet@.take(quiet.len() as int) =~= quiet@);
    (due, waiting)
}

/// The earliest due time among `quiet`, which is not empty.
fn earliest(quiet: &Vec<Pending>) -> (m: u64)
    requires
        quiet.len() > 0,
    ensures
        m == earliest_due(quiet@),
{
    let mut m = quiet[0].due_ms;
    let mut i: usize = 1;
    assert(quiet@.take(1).len() == 1);
    while i < quiet.len()
        invariant
            1 <= i <= quiet.len(),
            m == earliest_due(quiet@.take(i as int)),
        decreases quiet.len() - i,
    {
        assert(quiet@.take(i + 1).drop_last() =~= quiet@.take(i as int));
        if quiet[i].due_ms < m {
            m = quiet[i].due_ms;
        }
        i += 1;
    }
    assert(quiet@.take(quiet.len() as int) =~= quiet@);
    m
}

/// Every entry still waiting was waiting before.
proof fn lemma_still_waiting_from(quiet: Seq<Pending>, now: int)
    ensures
        forall|k: int|
            0 <= k < still_waiting(quiet, now).len() ==> exists|i: int|
                0 <= i < quiet.len() && quiet[i] == #[trigger] still_waiting(quiet, now)[k],
    decreases quiet.len(),
{
    if quiet.len() > 0 {
        let rest = quiet.drop_last();
        lemma_still_waiting_from(rest, now);
        let sw = still_waiting(quiet, now);
        assert forall|k: int| 0 <= k < sw.len() implies exists|i: int|
            0 <= i < quiet.len() && quiet[i] == #[trigger] sw[k] by {
            if k < still_waiting(rest, now).len() {
                let i = choose|i: int| 0 <= i < rest.len() && rest[i] == still_waiting(rest, now)[k];
                assert(quiet[i] == sw[k]);
            } else {
                assert(quiet[quiet.len() - 1] == sw[k]);
            }
        }
    }
}

/// Dropping the due entries keeps one waiting job per item.
proof fn lemma_still_waiting_one_per_item(quiet: Seq<Pending>, now: int)
    requires
        one_per_item(quiet),
    ensures
        one_per_item(still_waiting(quiet, now)),
    decreases quiet.len(),
{
    if quiet.len() > 0 {
        let rest = quiet.drop_last();
        assert(one_per_item(rest));
        lemma_still_waiting_one_per_item(rest, now);
        lemma_still_waiting_from(rest, now);
        let sw = still_waiting(quiet, now);
        let swr = still_waiting(rest, now);
        if quiet.last().due_ms > now {
            assert forall|i: int, k: int| 0 <= i < k < sw.len() implies #[trigger] sw[i].job.item_id
                != #[trigger] sw[k].job.item_id by {
                if k == sw.len() - 1 {
                    let j = choose|j: int| 0 <= j < rest.len() && rest[j] == #[trigger] swr[i];
                    assert(quiet[j] == rest[j]);
                    assert(quiet[j].job.item_id != quiet[quiet.len() - 1].job.item_id);
                } else {
                    assert(sw[i] == swr[i] && sw[k] == swr[k]);
                }
            }
        }
    }
}

/// Every due job comes from an entry of `quiet` that is due at `now`.
proof fn lemma_due_jobs_from(quiet: Seq<Pending>, now: int)
    ensures
        forall|k: int|
            0 <= k < due_jobs(quiet, now).len() ==> exists|i: int|
                0 <= i < quiet.len() && quiet[i].due_ms <= now && quiet[i].job
                    == #[trigger] due_jobs(quiet, now)[k],
    decreases quiet.len(),
{
    if quiet.len() > 0 {
        let rest = quiet.drop_last();
        lemma_due_jobs_from(rest, now);
        let d = due_jobs(quiet, now);
        assert forall|k: int| 0 <= k < d.len() implies exists|i: int|
            0 <= i < quiet.len() && quiet[i].due_ms <= now && quiet[i].job == #[trigger] d[k] by {
            if k < due_jobs(rest, now).len() {
                let i = choose|i: int|
                    0 <= i < rest.len() && rest[i].due_ms <= now && rest[i].job
                        == due_jobs(rest, now)[k];
                assert(quiet[i] == rest[i]);
            } else {
                assert(quiet[quiet.len() - 1].job == d[k]);
            }
        }
    }
}

/// An entry not yet due at `now` is still waiting at `now`.
proof fn lemma_still_waiting_keeps(quiet: Seq<Pending>, now: int, i: int)
    requires
        0 <= i < quiet.len(),
        quiet[i].due_ms > now,
    ensures
        still_waiting(quiet, now).contains(quiet[i]),
    decreases quiet.len(),
{
    let rest = quiet.drop_last();
    if i < quiet.len() - 1 {
        lemma_still_waiting_keeps(rest, now, i);
        let k = choose|k: int|
            0 <= k < still_waiting(rest, now).len() && still_waiting(rest, now)[k] == rest[i];
        assert(still_waiting(quiet, now)[k] == quiet[i]);
    } else {
        let sw = still_waiting(quiet, now);
        assert(sw[sw.len() - 1] == quiet[i]);
    }
}

/// An entry due at `now` has its job among the due jobs at `now`.
proof fn lemma_due_jobs_keeps(quiet: Seq<Pending>, now: int, i: int)
    requires
        0 <= i < quiet.len(),
        quiet[i].due_ms <= now,
    ensures
        due_jobs(quiet, now).contains(quiet[i].job),
    decreases quiet.len(),
{
    let rest = quiet.drop_last();
    if i < quiet.len() - 1 {
        lemma_due_jobs_keeps(rest, now, i);
        let k = choose|k: int|
            0 <= k < due_jobs(rest, now).len() && due_jobs(rest, now)[k] == rest[i].job;
        assert(due_jobs(quiet, now)[k] == quiet[i].job);
    } else {
        let d = due_jobs(quiet, now);
        assert(d[d.len() - 1] == quiet[i].job);
    }
}

/// Where `with_pending` puts `p`, and that it keeps one waiting job per item.
proof fn lemma_with_pending(quiet: Seq<Pending>, p: Pending)
    requires
        one_per_item(quiet),
    ensures
        one_per_item(with_pending(quiet, p)),
        with_pending(quiet, p).contains(p),
        forall|i: int|
            0 <= i < with_pending(quiet, p).len() && #[trigger] with_pending(quiet, p)[i].job.item_id
                == p.job.item_id ==> with_pending(quiet, p)[i] == p,
        forall|i: int|
            0 <= i < quiet.len() && #[trigger] quiet[i].job.item_id != p.job.item_id
                ==> with_pending(quiet, p).contains(quiet[i]),
{
    let w = with_pending(quiet, p);
    if waits_for(quiet, p.job.item_id) {
        let c = choose|i: int| 0 <= i < quiet.len() && #[trigger] quiet[i].job.item_id == p.job.item_id;
        assert(w[c] == p);
        assert forall|i: int, k: int| 0 <= i < k < w.len() implies #[trigger] w[i].job.item_id
            != #[trigger] w[k].job.item_id by {
            if i != c && k != c {
                assert(w[i] == quiet[i] && w[k] == quiet[k]);
            } else if i == c {
                assert(w[k] == quiet[k]);
                assert(quiet[c].job.item_id != quiet[k].job.item_id);
            } else {
                assert(w[i] == quiet[i]);
                assert(quiet[i].job.item_id != quiet[c].job.item_id);
            }
        }
        assert forall|i: int|
            0 <= i < w.len() && #[trigger] w[i].job.item_id == p.job.item_id implies w[i] == p by {
            if i != c {
                assert(w[i] == quiet[i]);
                if i < c {
                    assert(quiet[i].job.item_id != quiet[c].job.item_id);
                } else {
                    assert(quiet[c].job.item_id != quiet[i].job.item_id);
                }
            }
        }
        assert forall|i: int|
            0 <= i < quiet.len() && #[trigger] quiet[i].job.item_id != p.job.item_id implies w.contains(
                quiet[i],
            ) by {
            assert(w[i] == quiet[i]);
        }
    } else {
        assert(w[quiet.len() as int] == p);
        assert forall|i: int, k: int| 0 <= i < k < w.len() implies #[trigger] w[i].job.item_id
            != #[trigger] w[k].job.item_id by {
            if k == quiet.len() {
                assert(w[i] == quiet[i]);
                assert(!(quiet[i].job.item_id == p.job.item_id));
            } else {
                assert(w[i] == quiet[i] && w[k] == quiet[k]);
            }
        }
        assert forall|i: int|
            0 <= i < w.len() && #[trigger] w[i].job.item_id == p.job.item_id implies w[i] == p by {
            if i < quiet.len() {
                assert(w[i] == quiet[i]);
                assert(!(quiet[i].job.item_id == p.job.item_id));
            }
        }
        assert forall|i: int|
            0 <= i < quiet.len() && #[trigger] quiet[i].job.item_id != p.job.item_id implies w.contains(
                quiet[i],
            ) by {
            assert(w[i] == quiet[i]);
        }
    }
}

/// A capture runs at the worker's next step, without waiting, when nothing
/// else is ready before it.
pub proof fn lemma_capture_runs_without_waiting(s: ScheduleView, job: IndexJob, at: u64, now: u64)
    requires
        s.ready.len() == 0,
    ensures
        step_spec(apply_spec(s, Request::Now(job), at), now).1 == WorkerAction::Run(job),
{
}

/// An edit never runs before its quiet period has ended, unless the same job
/// was already queued to run.
pub proof fn lemma_edit_never_runs_early(s: ScheduleView, job: IndexJob, at: u64, now: u64)
    requires
        one_per_item(s.quiet),
        !s.ready.contains(job),
        at + EDIT_QUIET_PERIOD_MS <= u64::MAX,
        now < at + EDIT_QUIET_PERIOD_MS,
    ensures
        step_spec(apply_spec(s, Request::AfterQuiet(job), at), now).1 != WorkerAction::Run(job),
{
    let p = Pending { job, due_ms: (at + EDIT_QUIET_PERIOD_MS) as u64 };
    let q = with_pending(s.quiet, p);
    lemma_with_pending(s.quiet, p);
    lemma_due_jobs_from(q, now as int);
    let d = due_jobs(q, now as int);
    let ready = s.ready + d;
    if ready.len() > 0 && ready[0] == job {
        if s.ready.len() > 0 {
            assert(s.ready[0] == ready[0]);
        } else {
            assert(d[0] == ready[0]);
            let i = choose|i: int| 0 <= i < q.len() && q[i].due_ms <= now && q[i].job == #[trigger] d[0];
            assert(q[i].job.item_id == p.job.item_id);
        }
    }
}

/// An edit to an idle worker runs exactly when its quiet period ends: until
/// then the worker sleeps until that time.
pub proof fn lemma_edit_waits_for_quiet_period(job: IndexJob, at: u64, now: u64)
    requires
        at + EDIT_QUIET_PERIOD_MS <= u64::MAX,
    ensures
        ({
            let idle = ScheduleView { ready: seq![], quiet: seq![] };
            let action = step_spec(apply_spec(idle, Request::AfterQuiet(job), at), now).1;
            &&& now < at + EDIT_QUIET_PERIOD_MS ==> action == WorkerAction::WaitUntil(
                (at + EDIT_QUIET_PERIOD_MS) as u64,
            )
            &&& now >= at + EDIT_QUIET_PERIOD_MS ==> action == WorkerAction::Run(job)
        }),
{
    let idle = ScheduleView { ready: seq![], quiet: seq![] };
    let p = Pending { job, due_ms: (at + EDIT_QUIET_PERIOD_MS) as u64 };
    let q = apply_spec(idle, Request::AfterQuiet(job), at).quiet;
    assert(!waits_for(idle.quiet, job.item_id));
    assert(q == seq![p]);
    assert(q.drop_last() =~= Seq::<Pending>::empty());
    assert(q.last() == p);
    assert(still_waiting(q.drop_last(), now as int) == Seq::<Pending>::empty());
    assert(due_jobs(q.drop_last(), now as int) == Seq::<IndexJob>::empty());
    if now < at + EDIT_QUIET_PERIOD_MS {
        assert(still_waiting(q, now as int) =~= seq![p]);
        assert(due_jobs(q, now as int) =~= Seq::<IndexJob>::empty());
        assert(Seq::<IndexJob>::empty() + Seq::<IndexJob>::empty() =~= Seq::<IndexJob>::empty());
        assert(earliest_due(seq![p]) == p.due_ms);
    } else {
        assert(due_jobs(q, now as int) =~= seq![job]);
        assert(Seq::<IndexJob>::empty() + seq![job] =~= seq![job]);
    }
}

/// A newer edit of an item replaces the one waiting for it and restarts the
/// wait: the earlier request leaves no trace.
pub proof fn lemma_newer_edit_replaces_pending(
    s: ScheduleView,
    first: IndexJob,
    second: IndexJob,
    first_at: u64,
    second_at: u64,
)
    requires
        one_per_item(s.quiet),
        first.item_id == second.item_id,
        first_at + EDIT_QUIET_PERIOD_MS <= u64::MAX,
        second_at + EDIT_QUIET_PERIOD_MS <= u64::MAX,
    ensures
        apply_spec(
            apply_spec(s, Request::AfterQuiet(first), first_at),
            Request::AfterQuiet(second),
            second_at,
        ) == apply_spec(s, Request::AfterQuiet(second), second_at),
{
    let p1 = Pending { job: first, due_ms: (first_at + EDIT_QUIET_PERIOD_MS) as u64 };
    let p2 = Pending { job: second, due_ms: (second_at + EDIT_QUIET_PERIOD_MS) as u64 };
    let q = s.quiet;
    let q1 = with_pending(q, p1);
    lemma_with_pending(q, p1);
    if waits_for(q, first.item_id) {
        let c = choose|i: int| 0 <= i < q.len() && #[trigger] q[i].job.item_id == first.item_id;
        assert(q1 == q.update(c, p1));
        assert(q1[c].job.item_id == second.item_id);
        let c1 = choose|i: int| 0 <= i < q1.len() && #[trigger] q1[i].job.item_id == second.item_id;
        if c1 != c {
            if c1 < c {
                assert(q1[c1].job.item_id != q1[c].job.item_id);
            } else {
                assert(q1[c].job.item_id != q1[c1].job.item_id);
            }
        }
        assert(with_pending(q1, p2) =~= with_pending(q, p2));
    } else {
        let n = q.len() as int;
        assert(q1 == q.push(p1));
        assert(q1[n].job.item_id == second.item_id);
        let c1 = choose|i: int| 0 <= i < q1.len() && #[trigger] q1[i].job.item_id == second.item_id;
        if c1 != n {
            assert(q1[c1] == q[c1]);
        }
        assert(with_pending(q1, p2) =~= with_pending(q, p2));
    }
}

/// Edits of different items wait independently: both stay waiting, each
/// with its own deadline.
pub proof fn lemma_edits_wait_independently(
    s: ScheduleView,
    a: IndexJob,
    b: IndexJob,
    a_at: u64,
    b_at: u64,
)
    requires
        one_per_item(s.quiet),
        a.item_id != b.item_id,
        a_at + EDIT_QUIET_PERIOD_MS <= u64::MAX,
        b_at + EDIT_QUIET_PERIOD_MS <= u64::MAX,
    ensures
        ({
            let q = apply_spec(
                apply_spec(s, Request::AfterQuiet(a), a_at),
                Request::AfterQuiet(b),
                b_at,
            ).quiet;
            &&& q.contains(Pending { job: a, due_ms: (a_at + EDIT_QUIET_PERIOD_MS) as u64 })
            &&& q.contains(Pending { job: b, due_ms: (b_at + EDIT_QUIET_PERIOD_MS) as u64 })
        }),
{
    let pa = Pending { job: a, due_ms: (a_at + EDIT_QUIET_PERIOD_MS) as u64 };
    let pb = Pending { job: b, due_ms: (b_at + EDIT_QUIET_PERIOD_MS) as u64 };
    let q1 = with_pending(s.quiet, pa);
    lemma_with_pending(s.quiet, pa);
    lemma_with_pending(q1, pb);
    let i = choose|i: int| 0 <= i < q1.len() && q1[i] == pa;
    assert(q1[i].job.item_id != pb.job.item_id);
}

/// After a clear nothing runs: the worker waits for the next request.
pub proof fn lemma_clear_discards_everything(s: ScheduleView, at: u64, now: u64)
    ensures
        step_spec(apply_spec(s, Request::Clear, at), now).1 == WorkerAction::WaitForRequest,
        step_spec(apply_spec(s, Request::Clear, at), now).0 == (ScheduleView {
            ready: seq![],
            quiet: seq![],
        }),
{
    let e = ScheduleView { ready: Seq::<IndexJob>::empty(), quiet: Seq::<Pending>::empty() };
    assert(e.ready + due_jobs(e.quiet, now as int) =~= Seq::<IndexJob>::empty());
}

/// A step loses no job: each waiting entry either still waits, if it is not
/// yet due, or has its job run now or queued to run.
pub proof fn lemma_step_loses_no_job(s: ScheduleView, now: u64, i: int)
    requires
        0 <= i < s.quiet.len(),
    ensures
        ({
            let (after, action) = step_spec(s, now);
            &&& s.quiet[i].due_ms > now ==> after.quiet.contains(s.quiet[i])
            &&& s.quiet[i].due_ms <= now ==> (after.ready.contains(s.quiet[i].job)
                || action == WorkerAction::Run(s.quiet[i].job))
        }),
{
    let q = s.quiet;
    if q[i].due_ms > now {
        lemma_still_waiting_keeps(q, now as int, i);
    } else {
        lemma_due_jobs_keeps(q, now as int, i);
        let d = due_jobs(q, now as int);
        let ready = s.ready + d;
        let k = choose|k: int| 0 <= k < d.len() && d[k] == q[i].job;
        assert(ready[s.ready.len() + k] == q[i].job);
        if s.ready.len() + k > 0 {
            assert(ready.drop_first()[s.ready.len() + k - 1] == q[i].job);
        }
    }
}

/// Every entry still waiting at `now` is due after `now`.
proof fn lemma_still_waiting_not_due(quiet: Seq<Pending>, now: int)
    ensures
        forall|k: int| 0 <= k < still_waiting(quiet, now).len() ==> #[trigger] still_waiting(quiet, now)[k].due_ms > now,
    decreases quiet.len(),
{
    if quiet.len() > 0 {
        lemma_still_waiting_not_due(quiet.drop_last(), now);
        let rest = still_waiting(quiet.drop_last(), now);
        let sw = still_waiting(quiet, now);
        assert forall|k: int| 0 <= k < sw.len() implies #[trigger] sw[k].due_ms > now by {
            if k < rest.len() {
                assert(sw[k] == rest[k]);
            }
        }
    }
}

/// When nothing in `quiet` is due at `now`, nothing becomes ready and
/// everything keeps waiting.
proof fn lemma_nothing_due(quiet: Seq<Pending>, now: int)
    requires
        forall|k: int| 0 <= k < quiet.len() ==> #[trigger] quiet[k].due_ms > now,
    ensures
        due_jobs(quiet, now) == Seq::<IndexJob>::empty(),
        still_waiting(quiet, now) == quiet,
    decreases quiet.len(),
{
    if quiet.len() > 0 {
        let rest = quiet.drop_last();
        assert forall|k: int| 0 <= k < rest.len() implies #[trigger] rest[k].due_ms > now by {
            assert(rest[k] == quiet[k]);
        }
        lemma_nothing_due(rest, now);
        assert(rest.push(quiet.last()) =~= quiet);
    } else {
        assert(quiet =~= Seq::<Pending>::empty());
    }
}

/// The earliest due time is one of the entries' and no entry is due before
/// it.
proof fn lemma_earliest_due(quiet: Seq<Pending>)
    requires
        quiet.len() > 0,
    ensures
        exists|i: int| 0 <= i < quiet.len() && #[trigger] quiet[i].due_ms == earliest_due(quiet),
        forall|k: int| 0 <= k < quiet.len() ==> #[trigger] quiet[k].due_ms >= earliest_due(quiet),
    decreases quiet.len(),
{
    if quiet.len() > 1 {
        let rest = quiet.drop_last();
        lemma_earliest_due(rest);
        let i = choose|i: int| 0 <= i < rest.len() && #[trigger] rest[i].due_ms == earliest_due(rest);
        assert(quiet[i] == rest[i]);
        assert(quiet[quiet.len() - 1] == quiet.last());
        assert forall|k: int| 0 <= k < quiet.len() implies #[trigger] quiet[k].due_ms >= earliest_due(quiet) by {
            if k < rest.len() {
                assert(quiet[k] == rest[k]);
            }
        }
    } else {
        assert(quiet[0].due_ms == earliest_due(quiet));
    }
}

/// A worker told to sleep sleeps exactly until the earliest waiting job is
/// due: the time lies ahead; asked again any earlier, with no request in
/// between, it is told the same time; asked at that time, it runs a job.
pub proof fn lemma_worker_wakes_to_run(s: ScheduleView, now: u64)
    ensures
        ({
            let (after, action) = step_spec(s, now);
            action matches WorkerAction::WaitUntil(t) ==> {
                &&& t > now
                &&& step_spec(after, t).1 is Run
                &&& forall|u: u64| now <= u < t ==> #[trigger] step_spec(after, u).1 == WorkerAction::WaitUntil(t)
            }
        }),
{
    let (after, action) = step_spec(s, now);
    if action is WaitUntil {
        let q = after.quiet;
        let t = earliest_due(q) as u64;
        assert(after.ready.len() == 0);
        assert(q.len() > 0);
        lemma_still_waiting_not_due(s.quiet, now as int);
        lemma_earliest_due(q);
        let i = choose|i: int| 0 <= i < q.len() && #[trigger] q[i].due_ms == earliest_due(q);
        assert(q[i].due_ms > now);
        assert(t as int == earliest_due(q));
        lemma_due_jobs_keeps(q, t as int, i);
        let d = due_jobs(q, t as int);
        assert(d.len() > 0);
        assert((after.ready + d).len() > 0);
        assert forall|u: u64| now <= u < t implies #[trigger] step_spec(after, u).1 == WorkerAction::WaitUntil(t) by {
            assert forall|k: int| 0 <= k < q.len() implies #[trigger] q[k].due_ms > u by {
                assert(q[k].due_ms >= earliest_due(q));
            }
            lemma_nothing_due(q, u as int);
            assert(after.ready + due_jobs(q, u as int) =~= Seq::<IndexJob>::empty());
        }
    }
}

} // verus!
