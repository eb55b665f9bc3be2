//! A reduced scheduling core keyed on whole floors only: the car is always
//! at a floor. Requests are kept sorted and de-duplicated — a floor already
//! queued is not re-pushed — so every queued floor is served by exactly one
//! dispatch. The SCAN dispatch decision is the same as the full context's:
//! serve the current sweep, flip once when it is exhausted.

use vstd::prelude::*;

use crate::context::{
    insert_sorted_unique_asc, insert_sorted_unique_desc, spec_insert_unique_asc,
    spec_insert_unique_desc, strictly_decreasing, strictly_increasing,
};

verus! {

/// Mathematical model of an [`ElevatorData`].
pub struct DataView {
    pub current_floor: u8,
    pub direction_up: bool,
    pub up_queue: Seq<u8>,
    pub down_queue: Seq<u8>,
    pub active_target: Option<u8>,
}

impl DataView {
    /// Each queue is sorted in its sweep order, hence duplicate-free.
    pub open spec fn wf(self) -> bool {
        strictly_increasing(self.up_queue) && strictly_decreasing(self.down_queue)
    }

    /// A request lands in the queue of the direction it lies in; a request
    /// at the car's own floor is dropped, and a floor already queued is not
    /// re-pushed.
    pub open spec fn spec_enqueue(self, floor: u8) -> DataView {
        if floor > self.current_floor {
            DataView { up_queue: spec_insert_unique_asc(self.up_queue, floor), ..self }
        } else if floor < self.current_floor {
            DataView { down_queue: spec_insert_unique_desc(self.down_queue, floor), ..self }
        } else {
            self
        }
    }

    /// Pop of the nearest pending request in the current sweep direction;
    /// what was popped — or nothing — becomes the active target.
    pub open spec fn spec_pop_in_direction(self) -> (DataView, Option<u8>) {
        if self.direction_up {
            if self.up_queue.len() > 0 {
                (
                    DataView {
                        up_queue: self.up_queue.drop_first(),
                        active_target: Some(self.up_queue[0]),
                        ..self
                    },
                    Some(self.up_queue[0]),
                )
            } else {
                (DataView { active_target: None, ..self }, None)
            }
        } else {
            if self.down_queue.len() > 0 {
                (
                    DataView {
                        down_queue: self.down_queue.drop_first(),
                        active_target: Some(self.down_queue[0]),
                        ..self
                    },
                    Some(self.down_queue[0]),
                )
            } else {
                (DataView { active_target: None, ..self }, None)
            }
        }
    }

    /// The SCAN dispatch decision: serve the current sweep while it has
    /// requests, otherwise flip the sweep once and serve the other side.
    pub open spec fn spec_next_target(self) -> (DataView, Option<u8>) {
        let popped = self.spec_pop_in_direction();
        if popped.1 is Some {
            popped
        } else {
            let d2 = DataView { direction_up: !popped.0.direction_up, ..popped.0 };
            d2.spec_pop_in_direction()
        }
    }
}

/// Scheduling state keyed on whole floors: current floor, sweep direction,
/// the two pending-request queues and the committed target.
#[derive(Debug)]
pub struct ElevatorData {
    pub current_floor: u8,
    pub direction_up: bool,
    /// Pending requests above the car, nearest (lowest) first.
    pub up_queue: Vec<u8>,
    /// Pending requests below the car, nearest (highest) first.
    pub down_queue: Vec<u8>,
    pub active_target: Option<u8>,
}

impl View for ElevatorData {
    type V = DataView;

    open spec fn view(&self) -> DataView {
        DataView {
            current_floor: self.current_floor,
            direction_up: self.direction_up,
            up_queue: self.up_queue@,
            down_queue: self.down_queue@,
            active_target: self.active_target,
        }
    }
}

impl Default for ElevatorData {
    /// Car at floor zero, sweeping down, nothing queued, no target.
    fn default() -> (r: ElevatorData)
        ensures
            r@ == (DataView {
                current_floor: 0u8,
                direction_up: false,
                up_queue: Seq::<u8>::empty(),
                down_queue: Seq::<u8>::empty(),
                active_target: None::<u8>,
            }),
            r@.wf(),
    {
        let r = ElevatorData {
            current_floor: 0,
            direction_up: false,
            up_queue: Vec::new(),
            down_queue: Vec::new(),
            active_target: None,
        };
        proof {
            assert(r@ =~= (DataView {
                current_floor: 0u8,
                direction_up: false,
                up_queue: Seq::<u8>::empty(),
                down_queue: Seq::<u8>::empty(),
                active_target: None::<u8>,
            }));
        }
        r
    }
}

impl ElevatorData {
    /// Queues a floor request on the side of the car it lies on; a request
    /// at the car's own floor is dropped, and a floor already queued is
    /// not re-queued.
    pub fn enqueue_request(&mut self, floor: u8)
        requires
            old(self)@.wf(),
        ensures
            final(self)@ == old(self)@.spec_enqueue(floor),
            final(self)@.wf(),
    {
        if floor > self.current_floor {
            insert_sorted_unique_asc(&mut self.up_queue, floor);
        } else if floor < self.current_floor {
            insert_sorted_unique_desc(&mut self.down_queue, floor);
        }
    }

    /// Pops the nearest pending request in the current sweep direction and
    /// commits it as the active target; clears the target if that side of
    /// the sweep is empty.
    fn next_target_in_direction(&mut self) -> (r: Option<u8>)
        ensures
            final(self)@ == old(self)@.spec_pop_in_direction().0,
            r == old(self)@.spec_pop_in_direction().1,
    {
        let next = if self.direction_up {
            if self.up_queue.len() > 0 {
                Some(self.up_queue.remove(0))
            } else {
                None
            }
        } else {
            if self.down_queue.len() > 0 {
                Some(self.down_queue.remove(0))
            } else {
                None
            }
        };
        self.active_target = next;
        next
    }

    /// The SCAN dispatch decision: pop from the queue matching the current
    /// sweep direction; if that side is empty, flip the sweep once and pop
    /// from the other queue. Returns nothing exactly when both queues are
    /// empty.
    pub fn next_target(&mut self) -> (r: Option<u8>)
        ensures
            final(self)@ == old(self)@.spec_next_target().0,
            r == old(self)@.spec_next_target().1,
            old(self)@.wf() ==> final(self)@.wf(),
    {
        if let Some(floor) = self.next_target_in_direction() {
            proof {
                lemma_data_pop_preserves_wf(old(self)@);
            }
            return Some(floor);
        }
        self.direction_up = !self.direction_up;
        let r = self.next_target_in_direction();
        proof {
            let d1 = old(self)@.spec_pop_in_direction().0;
            let d2 = DataView { direction_up: !d1.direction_up, ..d1 };
            lemma_data_pop_preserves_wf(d2);
        }
        r
    }
}

/// Popping in direction only drops the head of a sorted queue, so
/// sortedness is preserved.
proof fn lemma_data_pop_preserves_wf(d: DataView)
    ensures
        d.wf() ==> d.spec_pop_in_direction().0.wf(),
{
    if d.wf() {
        let d2 = d.spec_pop_in_direction().0;
        assert(strictly_increasing(d2.up_queue)) by {
            assert forall|a: int, b: int|
                0 <= a < b < d2.up_queue.len() implies d2.up_queue[a] < d2.up_queue[b] by {
                if d2.up_queue != d.up_queue {
                    assert(d2.up_queue[a] == d.up_queue[a + 1]);
                    assert(d2.up_queue[b] == d.up_queue[b + 1]);
                }
            }
        }
        assert(strictly_decreasing(d2.down_queue)) by {
            assert forall|a: int, b: int|
                0 <= a < b < d2.down_queue.len() implies d2.down_queue[a] > d2.down_queue[b] by {
                if d2.down_queue != d.down_queue {
                    assert(d2.down_queue[a] == d.down_queue[a + 1]);
                    assert(d2.down_queue[b] == d.down_queue[b + 1]);
                }
            }
        }
    }
}

} // verus!
