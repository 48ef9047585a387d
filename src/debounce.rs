//! The decisions of the debouncer: when queued items leave as one batch.
//! The caller owns the timer and the upstream stream; it reports what
//! happened and carries out the returned action.

use vstd::prelude::*;

verus! {

/// What happened since the last step.
pub enum DebounceEvent<T> {
    /// The upstream stream produced an item.
    Item(T),
    /// The quiet-period timer expired.
    TimerFired,
    /// The upstream stream ended.
    UpstreamEnded,
}

/// What the caller does next.
pub enum DebounceAction<T> {
    /// Hand this non-empty batch downstream; the timer is off.
    Emit(Vec<T>),
    /// (Re)start the quiet-period timer.
    ArmTimer,
    /// Keep waiting.
    Wait,
    /// End the output stream.
    Finish,
}

/// The queue of items waiting for the quiet period to pass.
pub struct Debouncer<T> {
    queue: Vec<T>,
    capacity: usize,
}

impl<T> Debouncer<T> {
    pub closed spec fn queued(&self) -> Seq<T> {
        self.queue@
    }

    pub closed spec fn spec_capacity(&self) -> usize {
        self.capacity
    }

    pub open spec fn wf(&self) -> bool {
        0 < self.spec_capacity() && self.queued().len() < self.spec_capacity()
    }

    /// A debouncer that emits at the latest when `capacity` items wait.
    pub fn new(capacity: usize) -> (r: Self)
        requires
            capacity > 0,
        ensures
            r.wf(),
            r.queued() == Seq::<T>::empty(),
            r.spec_capacity() == capacity,
    {
        Debouncer { queue: Vec::new(), capacity }
    }

    pub fn capacity(&self) -> (r: usize)
        ensures
            r == self.spec_capacity(),
    {
        self.capacity
    }

    /// Whether items are waiting.
    pub fn is_idle(&self) -> (r: bool)
        ensures
            r == (self.queued().len() == 0),
    {
        self.queue.len() == 0
    }

    /// One step: an item joins the queue and re-arms the timer, or leaves
    /// with the queue at once when the queue is full; an expired timer
    /// drains a non-empty queue; the end of the upstream stream ends the
    /// output once nothing waits.
    pub fn step(&mut self, event: DebounceEvent<T>) -> (r: DebounceAction<T>)
        requires
            old(self).wf(),
        ensures
            final(self).wf(),
            final(self).spec_capacity() == old(self).spec_capacity(),
            match event {
                DebounceEvent::Item(x) => if old(self).queued().len() + 1 >= old(self).spec_capacity() {
                    r matches DebounceAction::Emit(b) && b@ == old(self).queued().push(x)
                        && final(self).queued().len() == 0
                } else {
                    r is ArmTimer && final(self).queued() == old(self).queued().push(x)
                },
                DebounceEvent::TimerFired => if old(self).queued().len() > 0 {
                    r matches DebounceAction::Emit(b) && b@ == old(self).queued()
                        && final(self).queued().len() == 0
                } else {
                    r is Wait && final(self).queued() == old(self).queued()
                },
                DebounceEvent::UpstreamEnded => final(self).queued() == old(self).queued() && if old(
                    self,
                ).queued().len() == 0 {
                    r is Finish
                } else {
                    r is Wait
                },
            },
    {
        match event {
            DebounceEvent::Item(x) => {
                self.queue.push(x);
                if self.queue.len() >= self.capacity {
                    let mut batch: Vec<T> = Vec::new();
                    batch.append(&mut self.queue);
                    DebounceAction::Emit(batch)
                } else {
                    DebounceAction::ArmTimer
                }
            },
            DebounceEvent::TimerFired => {
                if self.queue.len() > 0 {
                    let mut batch: Vec<T> = Vec::new();
                    batch.append(&mut self.queue);
                    DebounceAction::Emit(batch)
                } else {
                    DebounceAction::Wait
                }
            },
            DebounceEvent::UpstreamEnded => {
                if self.queue.len() == 0 {
                    DebounceAction::Finish
                } else {
                    DebounceAction::Wait
                }
            },
        }
    }
}

} // verus!
