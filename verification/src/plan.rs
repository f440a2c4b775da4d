//! The mathematics of a render in progress: the state of every scanline, the
//! events that change it, and the laws that hold of every sequence of events.
//!
//! Row 0 is the top of the image. Rows are handed out top to bottom, finish in
//! any order, and are written strictly top to bottom.

use vstd::prelude::*;

verus! {

/// What the scheduler knows of one scanline.
pub enum Slot<T> {
    /// Not handed to a worker yet.
    Queued,
    /// A worker is computing it.
    Running,
    /// Its worker delivered this result.
    Done(T),
    /// Its worker failed.
    Failed,
}

/// What the caller should do next.
#[derive(Clone, Copy, Debug, PartialEq, Eq, Structural)]
pub enum Action {
    /// A worker slot is free and a row is left: call `start`.
    Start,
    /// The next row in image order is done: write `ready`, then call `advance`.
    Emit,
    /// Nothing can be done until a running row reports.
    Wait,
    /// Every row has been written.
    Finished,
    /// The row with this index failed: the render as a whole has failed.
    Abort(usize),
}

/// Why a scheduler cannot be built.
#[derive(Clone, Copy, Debug, PartialEq, Eq, Structural)]
pub enum ScheduleError {
    /// The image has no rows.
    NoRows,
    /// The worker pool is empty.
    NoWorkers,
}

/// Something that happens during a render.
pub enum Event<T> {
    /// The caller asks for the next row to hand to a worker.
    Start,
    /// The worker of a row delivers its result.
    Complete(nat, T),
    /// The worker of a row fails.
    Fail(nat),
    /// The caller has written the next row in image order.
    Emit,
}

/// The number of rows that are being computed.
pub open spec fn running<T>(slots: Seq<Slot<T>>) -> nat
    decreases slots.len(),
{
    if slots.len() == 0 {
        0
    } else {
        running(slots.drop_last()) + if slots.last() is Running {
            1nat
        } else {
            0nat
        }
    }
}

/// The state of a render, as mathematics.
pub struct Plan<T> {
    /// The most rows that may be in flight at once.
    pub workers: nat,
    /// One slot per row, top row first.
    pub slots: Seq<Slot<T>>,
    /// Rows `0..issued` have been handed out.
    pub issued: nat,
    /// Rows `0..emitted` have been written.
    pub emitted: nat,
    /// The row that failed first, if any did.
    pub failed: Option<nat>,
}

impl<T> Plan<T> {
    /// The plan of a render that has not begun.
    pub open spec fn fresh(height: nat, workers: nat) -> Plan<T> {
        Plan {
            workers,
            slots: Seq::new(height, |r: int| Slot::Queued),
            issued: 0,
            emitted: 0,
            failed: None,
        }
    }

    /// The number of rows of the image.
    pub open spec fn height(self) -> nat {
        self.slots.len()
    }

    /// The number of rows that are being computed.
    pub open spec fn in_flight(self) -> nat {
        running(self.slots)
    }

    /// What holds of every plan that a render can reach.
    pub open spec fn valid(self) -> bool {
        &&& self.workers >= 1
        &&& self.emitted <= self.issued <= self.slots.len()
        &&& forall|r: int| 0 <= r < self.emitted ==> self.slots[r] is Done
        &&& forall|r: int| self.emitted <= r < self.issued ==> !(self.slots[r] is Queued)
        &&& forall|r: int| self.issued <= r < self.slots.len() ==> self.slots[r] is Queued
        &&& running(self.slots) <= self.workers
        &&& match self.failed {
            Some(f) => self.emitted <= f < self.issued && self.slots[f as int] is Failed,
            None => forall|r: int| 0 <= r < self.slots.len() ==> !(self.slots[r] is Failed),
        }
    }

    /// A row is left, a worker slot is free and no row has failed.
    pub open spec fn can_start(self) -> bool {
        &&& self.failed is None
        &&& self.issued < self.slots.len()
        &&& running(self.slots) < self.workers
    }

    /// The plan after the next row went to a worker.
    pub open spec fn started(self) -> Plan<T> {
        Plan {
            slots: self.slots.update(self.issued as int, Slot::Running),
            issued: self.issued + 1,
            ..self
        }
    }

    /// A worker is computing `row`.
    pub open spec fn is_running(self, row: nat) -> bool {
        row < self.slots.len() && self.slots[row as int] is Running
    }

    /// The plan after the worker of `row` delivered `value`.
    pub open spec fn completed(self, row: nat, value: T) -> Plan<T> {
        Plan { slots: self.slots.update(row as int, Slot::Done(value)), ..self }
    }

    /// The plan after the worker of `row` failed.
    pub open spec fn failed_at(self, row: nat) -> Plan<T> {
        Plan {
            slots: self.slots.update(row as int, Slot::Failed),
            failed: if self.failed is None {
                Some(row)
            } else {
                self.failed
            },
            ..self
        }
    }

    /// The next row in image order is done and not written yet.
    pub open spec fn ready(self) -> bool {
        self.emitted < self.slots.len() && self.slots[self.emitted as int] is Done
    }

    /// The plan after the next row in image order was written.
    pub open spec fn advanced(self) -> Plan<T> {
        Plan { emitted: self.emitted + 1, ..self }
    }

    /// Every row has been written.
    pub open spec fn finished(self) -> bool {
        self.emitted == self.slots.len()
    }

    /// What has been written so far: the results of rows `0..emitted`, top
    /// row first.
    pub open spec fn output(self) -> Seq<T> {
        Seq::new(self.emitted, |r: int| self.slots[r]->Done_0)
    }

    /// What the caller should do next. A free worker is filled before a ready
    /// row is written; a failure overrides both.
    pub open spec fn action(self) -> Action {
        if let Some(f) = self.failed {
            Action::Abort(f as usize)
        } else if self.can_start() {
            Action::Start
        } else if self.ready() {
            Action::Emit
        } else if self.finished() {
            Action::Finished
        } else {
            Action::Wait
        }
    }

    /// The plan after one event. An event that does not apply (a start with
    /// no free worker, a report for a row that is not running, a write with
    /// no ready row) leaves the plan as it is.
    pub open spec fn step(self, event: Event<T>) -> Plan<T> {
        match event {
            Event::Start => if self.can_start() {
                self.started()
            } else {
                self
            },
            Event::Complete(row, value) => if self.is_running(row) {
                self.completed(row, value)
            } else {
                self
            },
            Event::Fail(row) => if self.is_running(row) {
                self.failed_at(row)
            } else {
                self
            },
            Event::Emit => if self.ready() {
                self.advanced()
            } else {
                self
            },
        }
    }

    /// The event applies to the plan: `step` changes something.
    pub open spec fn accepts(self, event: Event<T>) -> bool {
        match event {
            Event::Start => self.can_start(),
            Event::Complete(row, _) => self.is_running(row),
            Event::Fail(row) => self.is_running(row),
            Event::Emit => self.ready(),
        }
    }

    /// How far the render has come: every row is handed out, reported and
    /// written once, and each of these counts one.
    pub open spec fn progress(self) -> int {
        2 * self.issued - running(self.slots) + self.emitted
    }

    /// The number of events of a sequence that applied when they came.
    pub open spec fn steps(self, events: Seq<Event<T>>) -> nat
        decreases events.len(),
    {
        if events.len() == 0 {
            0
        } else {
            self.steps(events.drop_last()) + if self.run(events.drop_last()).accepts(
                events.last(),
            ) {
                1nat
            } else {
                0nat
            }
        }
    }

    /// The plan after a sequence of events, first event first.
    pub open spec fn run(self, events: Seq<Event<T>>) -> Plan<T>
        decreases events.len(),
    {
        if events.len() == 0 {
            self
        } else {
            self.run(events.drop_last()).step(events.last())
        }
    }

    /// The result that the worker of `row` delivered during `events`, if the
    /// row was completed.
    pub open spec fn delivered(self, events: Seq<Event<T>>, row: nat) -> Option<T>
        decreases events.len(),
    {
        if events.len() == 0 {
            None
        } else {
            let before = self.run(events.drop_last());
            match events.last() {
                Event::Complete(r, value) => if r == row && before.is_running(row) {
                    Some(value)
                } else {
                    self.delivered(events.drop_last(), row)
                },
                _ => self.delivered(events.drop_last(), row),
            }
        }
    }
}

/// Replacing one slot changes the number of running rows by what that slot
/// loses and gains.
pub proof fn lemma_running_update<T>(slots: Seq<Slot<T>>, i: int, slot: Slot<T>)
    requires
        0 <= i < slots.len(),
    ensures
        running(slots.update(i, slot)) + (if slots[i] is Running {
            1nat
        } else {
            0nat
        }) == running(slots) + (if slot is Running {
            1nat
        } else {
            0nat
        }),
    decreases slots.len(),
{
    let after = slots.update(i, slot);
    if i == slots.len() - 1 {
        assert(after.drop_last() =~= slots.drop_last());
    } else {
        assert(after.drop_last() =~= slots.drop_last().update(i, slot));
        lemma_running_update(slots.drop_last(), i, slot);
    }
}

/// A running row is counted.
pub proof fn lemma_running_positive<T>(slots: Seq<Slot<T>>, i: int)
    requires
        0 <= i < slots.len(),
        slots[i] is Running,
    ensures
        running(slots) >= 1,
    decreases slots.len(),
{
    if i < slots.len() - 1 {
        lemma_running_positive(slots.drop_last(), i);
    }
}

/// Where no row is running the count is zero.
pub proof fn lemma_running_none<T>(slots: Seq<Slot<T>>)
    requires
        forall|r: int| 0 <= r < slots.len() ==> !(slots[r] is Running),
    ensures
        running(slots) == 0,
    decreases slots.len(),
{
    if slots.len() > 0 {
        lemma_running_none(slots.drop_last());
    }
}

/// No more rows are running than there are rows at all, and none beyond the
/// last index at which a row may be running.
pub proof fn lemma_running_bounded<T>(slots: Seq<Slot<T>>, n: int)
    requires
        0 <= n,
        forall|r: int| n <= r < slots.len() ==> !(slots[r] is Running),
    ensures
        running(slots) <= n,
        running(slots) <= slots.len(),
    decreases slots.len(),
{
    if slots.len() > 0 {
        lemma_running_bounded(slots.drop_last(), n);
    }
}

/// Every event that applies takes the render one step further, and an event
/// that does not apply leaves it where it was.
pub proof fn lemma_step_progress<T>(plan: Plan<T>, event: Event<T>)
    requires
        plan.valid(),
    ensures
        plan.step(event).progress() == plan.progress() + (if plan.accepts(event) {
            1int
        } else {
            0int
        }),
        !plan.accepts(event) ==> plan.step(event) == plan,
{
    match event {
        Event::Start => {
            if plan.can_start() {
                lemma_running_update(plan.slots, plan.issued as int, Slot::Running);
            }
        },
        Event::Complete(row, value) => {
            if plan.is_running(row) {
                lemma_running_update(plan.slots, row as int, Slot::Done(value));
            }
        },
        Event::Fail(row) => {
            if plan.is_running(row) {
                lemma_running_update(plan.slots, row as int, Slot::Failed);
            }
        },
        Event::Emit => {},
    }
}

/// A render never takes more than three steps per row: a valid plan's
/// progress lies between zero and three times the height, and it reaches
/// that bound exactly when the render is finished.
pub proof fn lemma_progress_bounded<T>(plan: Plan<T>)
    requires
        plan.valid(),
    ensures
        0 <= plan.progress() <= 3 * plan.height(),
        plan.finished() <==> plan.progress() == 3 * plan.height(),
{
    lemma_running_bounded(plan.slots, plan.issued as int);
    if plan.finished() {
        lemma_running_none(plan.slots);
    }
}

/// However the events of a render come, those among them that apply number
/// at most three times the height: the render comes to an end.
pub proof fn lemma_run_terminates<T>(plan: Plan<T>, events: Seq<Event<T>>)
    requires
        plan.valid(),
    ensures
        plan.run(events).progress() == plan.progress() + plan.steps(events),
        plan.steps(events) <= 3 * plan.height(),
    decreases events.len(),
{
    lemma_progress_bounded(plan);
    lemma_run_valid(plan, events);
    lemma_progress_bounded(plan.run(events));
    if events.len() > 0 {
        lemma_run_terminates(plan, events.drop_last());
        lemma_run_valid(plan, events.drop_last());
        lemma_step_progress(plan.run(events.drop_last()), events.last());
    }
}

/// Every event keeps a valid plan valid. In particular the number of rows in
/// flight never exceeds the worker count.
pub proof fn lemma_step_valid<T>(plan: Plan<T>, event: Event<T>)
    requires
        plan.valid(),
    ensures
        plan.step(event).valid(),
        plan.step(event).workers == plan.workers,
        plan.step(event).height() == plan.height(),
{
    match event {
        Event::Start => {
            if plan.can_start() {
                lemma_running_update(plan.slots, plan.issued as int, Slot::Running);
            }
        },
        Event::Complete(row, value) => {
            if plan.is_running(row) {
                lemma_running_update(plan.slots, row as int, Slot::Done(value));
            }
        },
        Event::Fail(row) => {
            if plan.is_running(row) {
                lemma_running_update(plan.slots, row as int, Slot::Failed);
            }
        },
        Event::Emit => {},
    }
}

/// Whatever happens in whatever order, a render stays within its plan's
/// rules: at most `workers` rows are in flight, and rows are written in
/// image order.
pub proof fn lemma_run_valid<T>(plan: Plan<T>, events: Seq<Event<T>>)
    requires
        plan.valid(),
    ensures
        plan.run(events).valid(),
        plan.run(events).in_flight() <= plan.workers,
        plan.run(events).workers == plan.workers,
        plan.run(events).height() == plan.height(),
    decreases events.len(),
{
    if events.len() > 0 {
        lemma_run_valid(plan, events.drop_last());
        lemma_step_valid(plan.run(events.drop_last()), events.last());
    }
}

/// A plan that has not begun is valid.
pub proof fn lemma_fresh_valid<T>(height: nat, workers: nat)
    requires
        workers >= 1,
    ensures
        Plan::<T>::fresh(height, workers).valid(),
        Plan::<T>::fresh(height, workers).in_flight() == 0,
        Plan::<T>::fresh(height, workers).output() == Seq::<T>::empty(),
{
    let plan = Plan::<T>::fresh(height, workers);
    lemma_running_none(plan.slots);
    assert(plan.output() =~= Seq::<T>::empty());
}

/// What has been written is never taken back: a finished row keeps its
/// result, and the output after further events begins with the output before
/// them.
pub proof fn lemma_output_grows<T>(plan: Plan<T>, events: Seq<Event<T>>)
    requires
        plan.valid(),
    ensures
        forall|r: int|
            0 <= r < plan.height() && plan.slots[r] is Done ==> plan.run(events).slots[r]
                == plan.slots[r],
        plan.output().is_prefix_of(plan.run(events).output()),
    decreases events.len(),
{
    if events.len() == 0 {
        assert(plan.output() =~= plan.run(events).output());
    } else {
        let before = plan.run(events.drop_last());
        lemma_output_grows(plan, events.drop_last());
        lemma_run_valid(plan, events.drop_last());
        let after = before.step(events.last());
        assert(after == plan.run(events));
        assert forall|r: int| 0 <= r < plan.height() && plan.slots[r] is Done implies after.slots[r]
            == plan.slots[r] by {
            assert(before.slots[r] == plan.slots[r]);
        }
        assert(plan.emitted <= before.emitted <= after.emitted);
        assert forall|r: int| 0 <= r < plan.emitted implies plan.output()[r] == after.output()[r] by {
            assert(plan.slots[r] is Done);
        }
    }
}

/// The order in which workers report does not show in the output: once a
/// render that began fresh is finished, the output holds one result per row,
/// and the result at index `r` is the one that the worker of row `r`
/// delivered.
pub proof fn lemma_output_in_row_order<T>(height: nat, workers: nat, events: Seq<Event<T>>)
    requires
        workers >= 1,
        Plan::<T>::fresh(height, workers).run(events).finished(),
    ensures
        Plan::<T>::fresh(height, workers).run(events).output().len() == height,
        forall|r: int|
            0 <= r < height ==> Plan::<T>::fresh(height, workers).delivered(events, r as nat)
                == Some(#[trigger] Plan::<T>::fresh(height, workers).run(events).output()[r]),
{
    let plan = Plan::<T>::fresh(height, workers);
    lemma_fresh_valid::<T>(height, workers);
    lemma_run_valid(plan, events);
    lemma_delivered_matches_slots(plan, events);
    let end = plan.run(events);
    assert forall|r: int| 0 <= r < height implies plan.delivered(events, r as nat) == Some(
        #[trigger] end.output()[r],
    ) by {
        assert(end.slots[r] is Done);
    }
}

/// Two renders of the same image that both finish, and in which every row's
/// worker delivered the same result, have written the same output, however
/// their events were interleaved.
pub proof fn lemma_output_independent_of_schedule<T>(
    height: nat,
    workers_a: nat,
    workers_b: nat,
    events_a: Seq<Event<T>>,
    events_b: Seq<Event<T>>,
)
    requires
        workers_a >= 1,
        workers_b >= 1,
        Plan::<T>::fresh(height, workers_a).run(events_a).finished(),
        Plan::<T>::fresh(height, workers_b).run(events_b).finished(),
        forall|r: nat|
            r < height ==> Plan::<T>::fresh(height, workers_a).delivered(events_a, r)
                == Plan::<T>::fresh(height, workers_b).delivered(events_b, r),
    ensures
        Plan::<T>::fresh(height, workers_a).run(events_a).output() == Plan::<T>::fresh(
            height,
            workers_b,
        ).run(events_b).output(),
{
    let out_a = Plan::<T>::fresh(height, workers_a).run(events_a).output();
    let out_b = Plan::<T>::fresh(height, workers_b).run(events_b).output();
    lemma_output_in_row_order::<T>(height, workers_a, events_a);
    lemma_output_in_row_order::<T>(height, workers_b, events_b);
    assert forall|r: int| 0 <= r < height implies out_a[r] == out_b[r] by {
        assert(Plan::<T>::fresh(height, workers_a).delivered(events_a, r as nat) == Some(out_a[r]));
        assert(Plan::<T>::fresh(height, workers_b).delivered(events_b, r as nat) == Some(out_b[r]));
    }
    assert(out_a =~= out_b);
}

/// After a failure the render never finishes, and the first failed row is
/// remembered.
pub proof fn lemma_failure_is_final<T>(plan: Plan<T>, events: Seq<Event<T>>)
    requires
        plan.valid(),
        plan.failed is Some,
    ensures
        plan.run(events).failed == plan.failed,
        !plan.run(events).finished(),
        plan.run(events).action() == Action::Abort(plan.failed->Some_0 as usize),
    decreases events.len(),
{
    lemma_run_valid(plan, events);
    if events.len() > 0 {
        lemma_failure_is_final(plan, events.drop_last());
    }
}

/// In a render that began fresh, a row's slot holds a result exactly when its
/// worker delivered one, and then it holds that result.
proof fn lemma_delivered_matches_slots<T>(plan: Plan<T>, events: Seq<Event<T>>)
    requires
        plan.valid(),
        forall|r: int| 0 <= r < plan.height() ==> !(plan.slots[r] is Done),
    ensures
        forall|r: int|
            0 <= r < plan.height() ==> (match (#[trigger] plan.run(events).slots[r]) {
                Slot::Done(value) => plan.delivered(events, r as nat) == Some(value),
                _ => plan.delivered(events, r as nat) is None,
            }),
    decreases events.len(),
{
    if events.len() > 0 {
        lemma_run_valid(plan, events.drop_last());
        lemma_delivered_matches_slots(plan, events.drop_last());
        let before = plan.run(events.drop_last());
        let after = plan.run(events);
        assert(after == before.step(events.last()));
        assert forall|r: int| 0 <= r < plan.height() implies (match (#[trigger] after.slots[r]) {
            Slot::Done(value) => plan.delivered(events, r as nat) == Some(value),
            _ => plan.delivered(events, r as nat) is None,
        }) by {
            let _ = before.slots[r];
        }
    }
}

} // verus!
