//! The polling scheduler's decisions.
//!
//! The application runs a fixed-interval timer (plus one immediate run at
//! startup); each tick calls [`poll_tick`] and dispatches every returned
//! schedule to the supervisor as an independent job, never waiting for
//! completion. A tick that hits a store read error is treated as
//! "nothing due" by the application; the loop itself is never torn down
//! by one failed tick.

use vstd::prelude::*;

use crate::models::{MAX_INSTANT, Schedule, ScheduleStatus};
use crate::store::{ScheduleStore, is_due, schedule_with_status, sorted_by_start};

verus! {

/// Seconds of lookahead around a tick: a schedule whose padded start
/// falls this close is started; this is also the scheduling jitter
/// bound.
pub const SCHEDULING_WINDOW_SECONDS: i64 = 60;

/// Seconds after a missed nominal start during which a never-started
/// schedule is still picked up.
pub const MISSED_RECORDING_GRACE_SECONDS: i64 = 300;

/// Seconds between ticks.
pub const POLL_INTERVAL_SECONDS: i64 = 30;

/// The scheduler's own state: whether the timer loop is meant to run.
/// Starting is idempotent, and stopping never waits on in-flight
/// recordings — those belong to the supervisor.
pub struct Scheduler {
    running: bool,
}

impl Scheduler {
    pub closed spec fn is_running(self) -> bool {
        self.running
    }

    pub fn new() -> (r: Self)
        ensures
            !r.is_running(),
    {
        Scheduler { running: false }
    }

    /// Marks the scheduler running; returns whether this call started it
    /// (a second start is a no-op).
    pub fn start(&mut self) -> (r: bool)
        ensures
            final(self).is_running(),
            r == !old(self).is_running(),
    {
        let was_running = self.running;
        self.running = true;
        !was_running
    }

    /// Marks the scheduler stopped; in-flight recordings are untouched.
    pub fn stop(&mut self)
        ensures
            !final(self).is_running(),
    {
        self.running = false;
    }
}

/// One tick: if any schedule is still pending, snapshot the due ones,
/// mark them Recording, and hand them back for dispatch in ascending
/// start order. With nothing pending the store is left untouched.
pub fn poll_tick(store: &mut ScheduleStore, now: i64) -> (r: Vec<Schedule>)
    requires
        old(store).wf(),
        0 <= now <= MAX_INSTANT,
    ensures
        final(store).wf(),
        r@.to_multiset() == old(store).schedules().filter(
            |s: Schedule| is_due(s, now, SCHEDULING_WINDOW_SECONDS, MISSED_RECORDING_GRACE_SECONDS),
        ).to_multiset(),
        sorted_by_start(r@),
        final(store).schedules().len() == old(store).schedules().len(),
        forall|i: int|
            0 <= i < old(store).schedules().len() ==> final(store).schedules()[i] == (
            if is_due(
                old(store).schedules()[i],
                now,
                SCHEDULING_WINDOW_SECONDS,
                MISSED_RECORDING_GRACE_SECONDS,
            ) {
                schedule_with_status(old(store).schedules()[i], ScheduleStatus::Recording, now)
            } else {
                old(store).schedules()[i]
            }),
        old(store).same_but_schedules(*final(store)),
        final(store).next_schedule_id_spec() == old(store).next_schedule_id_spec(),
{
    let pending = store.count_scheduled();
    if pending == 0 {
        let r: Vec<Schedule> = Vec::new();
        proof {
            let scheds = store.schedules();
            let due_pred = |s: Schedule| is_due(
                s,
                now,
                SCHEDULING_WINDOW_SECONDS,
                MISSED_RECORDING_GRACE_SECONDS,
            );
            assert forall|i: int| 0 <= i < scheds.len() implies !due_pred(#[trigger] scheds[i]) by {
                if scheds[i].status == ScheduleStatus::Scheduled {
                    scheds.lemma_filter_contains(
                        |s: Schedule| s.status == ScheduleStatus::Scheduled,
                        i,
                    );
                    scheds.lemma_filter_len(|s: Schedule| s.status == ScheduleStatus::Scheduled);
                    assert(scheds.filter(|s: Schedule| s.status == ScheduleStatus::Scheduled)
                        .contains(scheds[i]));
                }
            }
            crate::store::lemma_filter_empty(scheds, due_pred);
            assert(r@ =~= Seq::<Schedule>::empty());
            assert(r@.to_multiset() =~= scheds.filter(due_pred).to_multiset());
        }
        return r;
    }
    store.take_due_for_dispatch(now, SCHEDULING_WINDOW_SECONDS, MISSED_RECORDING_GRACE_SECONDS)
}

} // verus!
