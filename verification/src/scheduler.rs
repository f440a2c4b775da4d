//! The render scheduler: which scanline a worker takes next, how many may be
//! in flight, and when a finished scanline may be written.
//!
//! The scheduler only decides. The caller runs the workers, reports what
//! happened to them, and writes the rows that the scheduler releases. Each
//! method performs one event of the plan that the scheduler stands for.

use crate::plan::{lemma_fresh_valid, lemma_running_positive, lemma_running_update, running};
use crate::plan::{Action, Plan, ScheduleError, Slot};
use vstd::prelude::*;

verus! {

/// The state of one render: a bounded pool of workers over the rows of an
/// image, and the results that wait to be written in image order.
pub struct Scheduler<T> {
    workers: usize,
    slots: Vec<Slot<T>>,
    issued: usize,
    emitted: usize,
    in_flight: usize,
    failed: Option<usize>,
}

impl<T> View for Scheduler<T> {
    type V = Plan<T>;

    closed spec fn view(&self) -> Plan<T> {
        Plan {
            workers: self.workers as nat,
            slots: self.slots@,
            issued: self.issued as nat,
            emitted: self.emitted as nat,
            failed: match self.failed {
                Some(f) => Some(f as nat),
                None => None,
            },
        }
    }
}

impl<T> Scheduler<T> {
    /// The counter of running rows agrees with the slots.
    pub closed spec fn counted(&self) -> bool {
        self.in_flight == running(self.slots@)
    }

    /// The scheduler stands for a valid plan.
    pub open spec fn wf(&self) -> bool {
        self@.valid() && self.counted()
    }

    /// A scheduler for an image of `height` rows and a pool of `workers`
    /// workers. An image without rows and an empty pool are refused.
    pub fn new(height: usize, workers: usize) -> (r: Result<Scheduler<T>, ScheduleError>)
        ensures
            match r {
                Ok(s) => height >= 1 && workers >= 1 && s.wf() && s@ == Plan::<T>::fresh(
                    height as nat,
                    workers as nat,
                ) && s@.in_flight() == 0,
                Err(ScheduleError::NoRows) => height == 0,
                Err(ScheduleError::NoWorkers) => height >= 1 && workers == 0,
            },
    {
        if height == 0 {
            return Err(ScheduleError::NoRows);
        }
        if workers == 0 {
            return Err(ScheduleError::NoWorkers);
        }
        let mut slots: Vec<Slot<T>> = Vec::new();
        let mut row: usize = 0;
        while row < height
            invariant
                row <= height,
                slots@ =~= Seq::new(row as nat, |r: int| Slot::Queued),
            decreases height - row,
        {
            slots.push(Slot::Queued);
            row = row + 1;
        }
        let s = Scheduler { workers, slots, issued: 0, emitted: 0, in_flight: 0, failed: None };
        proof {
            lemma_fresh_valid::<T>(height as nat, workers as nat);
            assert(s@.slots =~= Plan::<T>::fresh(height as nat, workers as nat).slots);
        }
        Ok(s)
    }

    /// The number of rows of the image.
    pub fn height(&self) -> (h: usize)
        ensures
            h == self@.height(),
    {
        self.slots.len()
    }

    /// The most rows that may be in flight at once.
    pub fn workers(&self) -> (w: usize)
        ensures
            w == self@.workers,
    {
        self.workers
    }

    /// The number of rows handed out so far.
    pub fn issued(&self) -> (n: usize)
        ensures
            n == self@.issued,
    {
        self.issued
    }

    /// The number of rows written so far.
    pub fn emitted(&self) -> (n: usize)
        ensures
            n == self@.emitted,
    {
        self.emitted
    }

    /// The number of rows that are being computed.
    pub fn in_flight(&self) -> (n: usize)
        requires
            self.wf(),
        ensures
            n == self@.in_flight(),
            n <= self@.workers,
    {
        self.in_flight
    }

    /// The row that failed first, if any did.
    pub fn failed_row(&self) -> (f: Option<usize>)
        ensures
            match f {
                Some(row) => self@.failed == Some(row as nat),
                None => self@.failed is None,
            },
    {
        self.failed
    }

    /// Whether every row has been written.
    pub fn is_finished(&self) -> (b: bool)
        ensures
            b == self@.finished(),
    {
        self.emitted == self.slots.len()
    }

    /// Whether a worker is computing `row`.
    pub fn is_running(&self, row: usize) -> (b: bool)
        ensures
            b == self@.is_running(row as nat),
    {
        if row < self.slots.len() {
            match &self.slots[row] {
                Slot::Running => true,
                _ => false,
            }
        } else {
            false
        }
    }

    /// What the caller should do next. `Wait` is only answered while a row is
    /// running, so a report is certain to come.
    pub fn action(&self) -> (a: Action)
        requires
            self.wf(),
        ensures
            a == self@.action(),
            a == Action::Wait ==> self@.in_flight() >= 1,
            a == Action::Finished ==> self@.output().len() == self@.height(),
    {
        if let Some(f) = self.failed {
            Action::Abort(f)
        } else if self.issued < self.slots.len() && self.in_flight < self.workers {
            Action::Start
        } else if self.ready().is_some() {
            Action::Emit
        } else if self.emitted == self.slots.len() {
            Action::Finished
        } else {
            proof {
                if self.issued == self.slots.len() {
                    lemma_running_positive(self.slots@, self.emitted as int);
                }
            }
            Action::Wait
        }
    }

    /// Hands the next row to a worker, if a row is left, a worker slot is free
    /// and no row has failed. Returns the row's index, or `None` with the
    /// scheduler unchanged.
    pub fn start(&mut self) -> (row: Option<usize>)
        requires
            old(self).wf(),
        ensures
            final(self).wf(),
            final(self)@ == old(self)@.step(crate::plan::Event::Start),
            row == (if old(self)@.can_start() {
                Some(old(self)@.issued as usize)
            } else {
                None
            }),
            row is Some ==> final(self)@.in_flight() == old(self)@.in_flight() + 1,
    {
        if self.failed.is_none() && self.issued < self.slots.len() && self.in_flight
            < self.workers {
            let row: usize = self.issued;
            proof {
                lemma_running_update(self.slots@, row as int, Slot::Running);
            }
            self.slots.set(row, Slot::Running);
            self.issued = row + 1;
            self.in_flight = self.in_flight + 1;
            Some(row)
        } else {
            None
        }
    }

    /// Records the result that the worker of `row` delivered. Returns whether
    /// the row was running; if it was not, nothing changes.
    pub fn complete(&mut self, row: usize, value: T) -> (accepted: bool)
        requires
            old(self).wf(),
        ensures
            final(self).wf(),
            accepted == old(self)@.is_running(row as nat),
            final(self)@ == old(self)@.step(crate::plan::Event::Complete(row as nat, value)),
            accepted ==> final(self)@.in_flight() == old(self)@.in_flight() - 1,
    {
        if self.is_running(row) {
            proof {
                lemma_running_update(self.slots@, row as int, Slot::Done(value));
            }
            self.slots.set(row, Slot::Done(value));
            self.in_flight = self.in_flight - 1;
            true
        } else {
            false
        }
    }

    /// Records that the worker of `row` failed. Returns whether the row was
    /// running; if it was not, nothing changes. After a failure no row is
    /// started and the render cannot finish.
    pub fn fail(&mut self, row: usize) -> (accepted: bool)
        requires
            old(self).wf(),
        ensures
            final(self).wf(),
            accepted == old(self)@.is_running(row as nat),
            final(self)@ == old(self)@.step(crate::plan::Event::Fail(row as nat)),
            accepted ==> final(self)@.failed is Some,
            accepted ==> final(self)@.in_flight() == old(self)@.in_flight() - 1,
    {
        if self.is_running(row) {
            proof {
                lemma_running_update(self.slots@, row as int, Slot::<T>::Failed);
            }
            self.slots.set(row, Slot::Failed);
            self.in_flight = self.in_flight - 1;
            if self.failed.is_none() {
                self.failed = Some(row);
            }
            true
        } else {
            false
        }
    }

    /// The result of the next row in image order, if that row is done and not
    /// written yet.
    pub fn ready(&self) -> (r: Option<&T>)
        ensures
            match r {
                Some(value) => self@.ready() && self@.slots[self@.emitted as int] == Slot::Done(
                    *value,
                ),
                None => !self@.ready(),
            },
    {
        if self.emitted < self.slots.len() {
            match &self.slots[self.emitted] {
                Slot::Done(value) => Some(value),
                _ => None,
            }
        } else {
            None
        }
    }

    /// Marks the next row in image order as written, if it is done. Returns
    /// whether it was; the output then grows by that row's result.
    pub fn advance(&mut self) -> (moved: bool)
        requires
            old(self).wf(),
        ensures
            final(self).wf(),
            moved == old(self)@.ready(),
            final(self)@ == old(self)@.step(crate::plan::Event::Emit),
            moved ==> final(self)@.output() == old(self)@.output().push(
                old(self)@.slots[old(self)@.emitted as int]->Done_0,
            ),
    {
        if self.ready().is_some() {
            self.emitted = self.emitted + 1;
            proof {
                assert(self@.output() =~= old(self)@.output().push(
                    old(self)@.slots[old(self)@.emitted as int]->Done_0,
                ));
            }
            true
        } else {
            false
        }
    }
}

} // verus!
