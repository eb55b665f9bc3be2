//! Scheduling state of the controller: where the car is, which way the
//! sweep is going, the pending floor requests of each direction, and the
//! floor the car is currently committed to. Requests are kept as sorted,
//! duplicate-free queues so that the SCAN dispatcher always pops the
//! nearest request in sweep direction.

use vstd::prelude::*;

verus! {

/// Physical car location: at a floor, or between two adjacent floors while
/// the motor runs.
#[derive(Clone, Copy, Debug, PartialEq, Eq, Structural)]
pub enum Location {
    AtFloor(u8),
    BetweenFloors(u8, u8),
}

/// Twice the physical position of a location, so that the midpoint of two
/// adjacent floors is still an integer: a car at floor `f` sits at `2 * f`,
/// a car between two floors at the sum of the two.
pub open spec fn spec_position2(l: Location) -> int {
    match l {
        Location::AtFloor(f) => 2 * (f as int),
        Location::BetweenFloors(lo, hi) => lo as int + hi as int,
    }
}

/// A between-floors location names two adjacent floors.
pub open spec fn wf_location(l: Location) -> bool {
    match l {
        Location::AtFloor(_) => true,
        Location::BetweenFloors(lo, hi) => hi == lo + 1,
    }
}

impl Location {
    /// Twice the physical position, for order comparisons between
    /// locations.
    pub fn position2(&self) -> (p: u16)
        ensures
            p as int == spec_position2(*self),
    {
        match self {
            Location::AtFloor(f) => 2 * (*f as u16),
            Location::BetweenFloors(lo, hi) => *lo as u16 + *hi as u16,
        }
    }
}

pub open spec fn strictly_increasing(s: Seq<u8>) -> bool {
    forall|i: int, j: int| 0 <= i < j < s.len() ==> s[i] < s[j]
}

pub open spec fn strictly_decreasing(s: Seq<u8>) -> bool {
    forall|i: int, j: int| 0 <= i < j < s.len() ==> s[i] > s[j]
}

/// `s` with `f` inserted at its ascending-sorted position, unless already
/// present.
pub open spec fn spec_insert_unique_asc(s: Seq<u8>, f: u8) -> Seq<u8>
    decreases s.len(),
{
    if s.len() == 0 {
        seq![f]
    } else if f < s[0] {
        seq![f] + s
    } else if f == s[0] {
        s
    } else {
        seq![s[0]] + spec_insert_unique_asc(s.drop_first(), f)
    }
}

/// `s` with `f` inserted at its descending-sorted position, unless already
/// present.
pub open spec fn spec_insert_unique_desc(s: Seq<u8>, f: u8) -> Seq<u8>
    decreases s.len(),
{
    if s.len() == 0 {
        seq![f]
    } else if f > s[0] {
        seq![f] + s
    } else if f == s[0] {
        s
    } else {
        seq![s[0]] + spec_insert_unique_desc(s.drop_first(), f)
    }
}

/// Mathematical model of an [`ElevatorContext`].
pub struct CtxView {
    pub current_location: Location,
    pub direction_up: bool,
    pub up_queue: Seq<u8>,
    pub down_queue: Seq<u8>,
    pub active_target: Option<u8>,
    pub min_floor: u8,
    pub max_floor: u8,
}

impl CtxView {
    /// Well-formed scheduler state: a real building (bottom floor at least
    /// one, strictly below the top, top low enough that a car can still
    /// stand between it and the floor above on the wire), a sane location,
    /// and each queue sorted in its sweep order, hence duplicate-free.
    pub open spec fn wf(self) -> bool {
        &&& 1 <= self.min_floor
        &&& self.min_floor < self.max_floor
        &&& self.max_floor <= 254
        &&& wf_location(self.current_location)
        &&& strictly_increasing(self.up_queue)
        &&& strictly_decreasing(self.down_queue)
    }

    /// Twice the physical position of the car.
    pub open spec fn pos2(self) -> int {
        spec_position2(self.current_location)
    }

    /// One half-floor step in the sweep direction: a car at a floor moves
    /// between floors, a car between floors snaps to the next floor. The
    /// sweep flips when the car reaches a shaft bound.
    pub open spec fn spec_transit(self) -> CtxView {
        let l2 = match (self.current_location, self.direction_up) {
            (Location::AtFloor(f), true) => Location::BetweenFloors(f, (f + 1) as u8),
            (Location::AtFloor(f), false) => Location::BetweenFloors((f - 1) as u8, f),
            (Location::BetweenFloors(_lo, hi), true) => Location::AtFloor(hi),
            (Location::BetweenFloors(lo, _hi), false) => Location::AtFloor(lo),
        };
        let d2 = if l2 == Location::AtFloor(self.min_floor) {
            true
        } else if l2 == Location::AtFloor(self.max_floor) {
            false
        } else {
            self.direction_up
        };
        CtxView { current_location: l2, direction_up: d2, ..self }
    }

    /// Where the car stands right after the approach notice for `floor`:
    /// just below it when sweeping up, just above it when sweeping down.
    pub open spec fn spec_approach(self, floor: u8) -> CtxView {
        let l2 = if self.direction_up {
            Location::BetweenFloors((floor - 1) as u8, floor)
        } else {
            Location::BetweenFloors(floor, (floor + 1) as u8)
        };
        CtxView { current_location: l2, ..self }
    }

    /// A request lands in the queue of the direction it lies in — never in
    /// both — unless the car is already on that floor (dropped: no travel
    /// is needed) or the floor is already queued (dropped: de-duplicated).
    pub open spec fn spec_enqueue(self, floor: u8) -> CtxView {
        if 2 * (floor as int) > self.pos2() {
            CtxView { up_queue: spec_insert_unique_asc(self.up_queue, floor), ..self }
        } else if 2 * (floor as int) < self.pos2() {
            CtxView { down_queue: spec_insert_unique_desc(self.down_queue, floor), ..self }
        } else {
            self
        }
    }

    /// Pop of the nearest pending request in the current sweep direction;
    /// what was popped — or nothing — becomes the active target.
    pub open spec fn spec_pop_in_direction(self) -> (CtxView, Option<u8>) {
        if self.direction_up {
            if self.up_queue.len() > 0 {
                (
                    CtxView {
                        up_queue: self.up_queue.drop_first(),
                        active_target: Some(self.up_queue[0]),
                        ..self
                    },
                    Some(self.up_queue[0]),
                )
            } else {
                (CtxView { active_target: None, ..self }, None)
            }
        } else {
            if self.down_queue.len() > 0 {
                (
                    CtxView {
                        down_queue: self.down_queue.drop_first(),
                        active_target: Some(self.down_queue[0]),
                        ..self
                    },
                    Some(self.down_queue[0]),
                )
            } else {
                (CtxView { active_target: None, ..self }, None)
            }
        }
    }

    /// The SCAN dispatch decision: serve the current sweep while it has
    /// requests, otherwise flip the sweep once and serve the other side.
    pub open spec fn spec_next_target(self) -> (CtxView, Option<u8>) {
        let popped = self.spec_pop_in_direction();
        if popped.1 is Some {
            popped
        } else {
            let c2 = CtxView { direction_up: !popped.0.direction_up, ..popped.0 };
            c2.spec_pop_in_direction()
        }
    }
}

/// The scheduler's mutable model of the world: current physical location
/// (possibly mid-shaft), sweep direction, the two pending-request queues,
/// the committed target, and the shaft bounds.
#[derive(Debug)]
pub struct ElevatorContext {
    pub current_location: Location,
    pub direction_up: bool,
    /// Pending requests above the car at enqueue time, nearest (lowest)
    /// first.
    pub up_queue: Vec<u8>,
    /// Pending requests below the car at enqueue time, nearest (highest)
    /// first.
    pub down_queue: Vec<u8>,
    /// The floor the car is currently committed to reaching, at most one
    /// at a time.
    pub active_target: Option<u8>,
    pub min_floor: u8,
    pub max_floor: u8,
}

impl View for ElevatorContext {
    type V = CtxView;

    open spec fn view(&self) -> CtxView {
        CtxView {
            current_location: self.current_location,
            direction_up: self.direction_up,
            up_queue: self.up_queue@,
            down_queue: self.down_queue@,
            active_target: self.active_target,
            min_floor: self.min_floor,
            max_floor: self.max_floor,
        }
    }
}

/// Inserts `floor` into the ascending queue `q`, keeping it sorted and
/// duplicate-free.
pub(crate) fn insert_sorted_unique_asc(q: &mut Vec<u8>, floor: u8)
    requires
        strictly_increasing(old(q)@),
    ensures
        final(q)@ == spec_insert_unique_asc(old(q)@, floor),
        strictly_increasing(final(q)@),
{
    let mut i: usize = 0;
    while i < q.len() && q[i] < floor
        invariant
            0 <= i <= q@.len(),
            q@ == old(q)@,
            forall|j: int| 0 <= j < i ==> q@[j] < floor,
        decreases q@.len() - i,
    {
        i = i + 1;
    }
    proof {
        lemma_insert_unique_asc_at(q@, floor, i as int);
        lemma_insert_unique_asc_sorted(q@, floor, i as int);
    }
    if i < q.len() && q[i] == floor {
        return ;
    }
    q.insert(i, floor);
}

/// Inserts `floor` into the descending queue `q`, keeping it sorted and
/// duplicate-free.
pub(crate) fn insert_sorted_unique_desc(q: &mut Vec<u8>, floor: u8)
    requires
        strictly_decreasing(old(q)@),
    ensures
        final(q)@ == spec_insert_unique_desc(old(q)@, floor),
        strictly_decreasing(final(q)@),
{
    let mut i: usize = 0;
    while i < q.len() && q[i] > floor
        invariant
            0 <= i <= q@.len(),
            q@ == old(q)@,
            forall|j: int| 0 <= j < i ==> q@[j] > floor,
        decreases q@.len() - i,
    {
        i = i + 1;
    }
    proof {
        lemma_insert_unique_desc_at(q@, floor, i as int);
        lemma_insert_unique_desc_sorted(q@, floor, i as int);
    }
    if i < q.len() && q[i] == floor {
        return ;
    }
    q.insert(i, floor);
}

/// Where the search loop stopped is exactly where the recursive insert
/// puts the new floor.
proof fn lemma_insert_unique_asc_at(s: Seq<u8>, f: u8, i: int)
    requires
        strictly_increasing(s),
        0 <= i <= s.len(),
        forall|j: int| 0 <= j < i ==> s[j] < f,
        i < s.len() ==> f <= s[i],
    ensures
        i < s.len() && s[i] == f ==> spec_insert_unique_asc(s, f) == s,
        !(i < s.len() && s[i] == f) ==> spec_insert_unique_asc(s, f) == s.insert(i, f),
    decreases s.len(),
{
    if s.len() == 0 {
        assert(s.insert(0, f) =~= seq![f]);
    } else if i == 0 {
        if f < s[0] {
            assert(seq![f] + s =~= s.insert(0, f));
        }
    } else {
        let t = s.drop_first();
        assert(strictly_increasing(t)) by {
            assert forall|a: int, b: int| 0 <= a < b < t.len() implies t[a] < t[b] by {
                assert(t[a] == s[a + 1]);
                assert(t[b] == s[b + 1]);
            }
        }
        assert(forall|j: int| 0 <= j < i - 1 ==> t[j] == s[j + 1] && t[j] < f);
        assert(i - 1 < t.len() ==> f <= t[i - 1]);
        lemma_insert_unique_asc_at(t, f, i - 1);
        if i < s.len() && s[i] == f {
            assert(seq![s[0]] + t =~= s);
        } else {
            assert(seq![s[0]] + t.insert(i - 1, f) =~= s.insert(i, f));
        }
    }
}

/// Inserting at the found position keeps the queue strictly ascending.
proof fn lemma_insert_unique_asc_sorted(s: Seq<u8>, f: u8, i: int)
    requires
        strictly_increasing(s),
        0 <= i <= s.len(),
        forall|j: int| 0 <= j < i ==> s[j] < f,
        i < s.len() ==> f <= s[i],
    ensures
        strictly_increasing(s.insert(i, f)) || (i < s.len() && s[i] == f),
{
    if !(i < s.len() && s[i] == f) {
        let r = s.insert(i, f);
        assert forall|a: int, b: int| 0 <= a < b < r.len() implies r[a] < r[b] by {
            if b < i {
                assert(r[a] == s[a] && r[b] == s[b]);
            } else if a > i {
                assert(r[a] == s[a - 1] && r[b] == s[b - 1]);
            } else if a < i && b == i {
                assert(r[a] == s[a] && r[b] == f);
            } else if a == i && b > i {
                assert(r[a] == f && r[b] == s[b - 1]);
                assert(i < s.len() ==> f < s[i]);
                assert(s[b - 1] >= s[i]);
            } else {
                assert(a < i && b > i);
                assert(r[a] == s[a] && r[b] == s[b - 1]);
                assert(i < s.len() ==> f < s[i]);
            }
        }
    }
}

/// Where the search loop stopped is exactly where the recursive insert
/// puts the new floor (descending twin).
proof fn lemma_insert_unique_desc_at(s: Seq<u8>, f: u8, i: int)
    requires
        strictly_decreasing(s),
        0 <= i <= s.len(),
        forall|j: int| 0 <= j < i ==> s[j] > f,
        i < s.len() ==> f >= s[i],
    ensures
        i < s.len() && s[i] == f ==> spec_insert_unique_desc(s, f) == s,
        !(i < s.len() && s[i] == f) ==> spec_insert_unique_desc(s, f) == s.insert(i, f),
    decreases s.len(),
{
    if s.len() == 0 {
        assert(s.insert(0, f) =~= seq![f]);
    } else if i == 0 {
        if f > s[0] {
            assert(seq![f] + s =~= s.insert(0, f));
        }
    } else {
        let t = s.drop_first();
        assert(strictly_decreasing(t)) by {
            assert forall|a: int, b: int| 0 <= a < b < t.len() implies t[a] > t[b] by {
                assert(t[a] == s[a + 1]);
                assert(t[b] == s[b + 1]);
            }
        }
        assert(forall|j: int| 0 <= j < i - 1 ==> t[j] == s[j + 1] && t[j] > f);
        assert(i - 1 < t.len() ==> f >= t[i - 1]);
        lemma_insert_unique_desc_at(t, f, i - 1);
        if i < s.len() && s[i] == f {
            assert(seq![s[0]] + t =~= s);
        } else {
            assert(seq![s[0]] + t.insert(i - 1, f) =~= s.insert(i, f));
        }
    }
}

/// Inserting at the found position keeps the queue strictly descending.
proof fn lemma_insert_unique_desc_sorted(s: Seq<u8>, f: u8, i: int)
    requires
        strictly_decreasing(s),
        0 <= i <= s.len(),
        forall|j: int| 0 <= j < i ==> s[j] > f,
        i < s.len() ==> f >= s[i],
    ensures
        strictly_decreasing(s.insert(i, f)) || (i < s.len() && s[i] == f),
{
    if !(i < s.len() && s[i] == f) {
        let r = s.insert(i, f);
        assert forall|a: int, b: int| 0 <= a < b < r.len() implies r[a] > r[b] by {
            if b < i {
                assert(r[a] == s[a] && r[b] == s[b]);
            } else if a > i {
                assert(r[a] == s[a - 1] && r[b] == s[b - 1]);
            } else if a < i && b == i {
                assert(r[a] == s[a] && r[b] == f);
            } else if a == i && b > i {
                assert(r[a] == f && r[b] == s[b - 1]);
                assert(i < s.len() ==> f > s[i]);
                assert(s[b - 1] <= s[i]);
            } else {
                assert(a < i && b > i);
                assert(r[a] == s[a] && r[b] == s[b - 1]);
                assert(i < s.len() ==> f > s[i]);
            }
        }
    }
}

impl ElevatorContext {
    /// A fresh controller context: car at the bottom floor, sweeping up,
    /// nothing queued, no committed target.
    pub fn new(min_floor: u8, max_floor: u8) -> (r: ElevatorContext)
        requires
            1 <= min_floor < max_floor <= 254,
        ensures
            r@ == (CtxView {
                current_location: Location::AtFloor(min_floor),
                direction_up: true,
                up_queue: Seq::<u8>::empty(),
                down_queue: Seq::<u8>::empty(),
                active_target: None::<u8>,
                min_floor,
                max_floor,
            }),
            r@.wf(),
    {
        let r = ElevatorContext {
            current_location: Location::AtFloor(min_floor),
            direction_up: true,
            up_queue: Vec::new(),
            down_queue: Vec::new(),
            active_target: None,
            min_floor,
            max_floor,
        };
        proof {
            assert(r@ =~= (CtxView {
                current_location: Location::AtFloor(min_floor),
                direction_up: true,
                up_queue: Seq::<u8>::empty(),
                down_queue: Seq::<u8>::empty(),
                active_target: None::<u8>,
                min_floor,
                max_floor,
            }));
        }
        r
    }

    /// Advances the car half a floor in the sweep direction and flips the
    /// sweep at the shaft bounds, so the car never runs past them. The car
    /// must not already stand at the bound it is moving towards.
    pub fn transit_floor(&mut self)
        requires
            old(self)@.wf(),
            old(self)@.direction_up ==> old(self)@.pos2() < 2 * old(self)@.max_floor,
            !old(self)@.direction_up ==> old(self)@.pos2() > 2 * old(self)@.min_floor,
        ensures
            final(self)@ == old(self)@.spec_transit(),
            final(self)@.wf(),
    {
        self.current_location = match (self.current_location, self.direction_up) {
            (Location::AtFloor(f), true) => Location::BetweenFloors(f, f + 1),
            (Location::AtFloor(f), false) => Location::BetweenFloors(f - 1, f),
            (Location::BetweenFloors(_lo, hi), true) => Location::AtFloor(hi),
            (Location::BetweenFloors(lo, _hi), false) => Location::AtFloor(lo),
        };
        if let Location::AtFloor(f) = self.current_location {
            if f == self.min_floor {
                self.direction_up = true;
            }
            if f == self.max_floor {
                self.direction_up = false;
            }
        }
    }

    /// Places the car just before `floor` in the sweep direction, as the
    /// hardware's approach notice reports.
    pub fn approach_floor(&mut self, floor: u8)
        requires
            old(self)@.direction_up ==> floor >= 1,
            !old(self)@.direction_up ==> floor <= 254,
        ensures
            final(self)@ == old(self)@.spec_approach(floor),
            old(self)@.wf() ==> final(self)@.wf(),
    {
        if self.direction_up {
            self.current_location = Location::BetweenFloors(floor - 1, floor);
        } else {
            self.current_location = Location::BetweenFloors(floor, floor + 1);
        }
    }

    /// Queues a floor request: into the up queue if the floor is strictly
    /// above the car, into the down queue if strictly below, dropped if the
    /// car is already there. A floor already queued is not re-queued.
    pub fn enqueue_request(&mut self, floor: u8)
        requires
            old(self)@.wf(),
        ensures
            final(self)@ == old(self)@.spec_enqueue(floor),
            final(self)@.wf(),
    {
        let fp = 2 * (floor as u16);
        let cp = self.current_location.position2();
        if fp > cp {
            insert_sorted_unique_asc(&mut self.up_queue, floor);
        } else if fp < cp {
            insert_sorted_unique_desc(&mut self.down_queue, floor);
        }
    }

    /// Pops the nearest pending request in the current sweep direction and
    /// commits it as the active target; clears the target if that side of
    /// the sweep is empty.
    fn next_target_in_direction(&mut self) -> (r: Option<u8>)
        ensures
            final(self)@ == old(self)@.spec_pop_in_direction().0,
            r == old(self)@.spec_pop_in_direction().1,
    {
        let next = if self.direction_up {
            if self.up_queue.len() > 0 {
                Some(self.up_queue.remove(0))
            } else {
                None
            }
        } else {
            if self.down_queue.len() > 0 {
                Some(self.down_queue.remove(0))
            } else {
                None
            }
        };
        self.active_target = next;
        next
    }

    /// The SCAN dispatch decision: pop from the queue matching the current
    /// sweep direction; if that side is empty, flip the sweep once and pop
    /// from the other queue. Returns nothing exactly when both queues are
    /// empty, and then the only change is the single flip of the sweep and
    /// a cleared target.
    pub fn next_target(&mut self) -> (r: Option<u8>)
        ensures
            final(self)@ == old(self)@.spec_next_target().0,
            r == old(self)@.spec_next_target().1,
            old(self)@.wf() ==> final(self)@.wf(),
    {
        if let Some(floor) = self.next_target_in_direction() {
            proof {
                lemma_pop_preserves_wf(old(self)@);
            }
            return Some(floor);
        }
        self.direction_up = !self.direction_up;
        let r = self.next_target_in_direction();
        proof {
            let c1 = old(self)@.spec_pop_in_direction().0;
            let c2 = CtxView { direction_up: !c1.direction_up, ..c1 };
            lemma_pop_preserves_wf(c2);
        }
        r
    }
}

/// Popping in direction only drops the head of a sorted queue, so
/// well-formedness is preserved.
proof fn lemma_pop_preserves_wf(c: CtxView)
    ensures
        c.wf() ==> c.spec_pop_in_direction().0.wf(),
{
    if c.wf() {
        let c2 = c.spec_pop_in_direction().0;
        assert(strictly_increasing(c2.up_queue)) by {
            assert forall|a: int, b: int|
                0 <= a < b < c2.up_queue.len() implies c2.up_queue[a] < c2.up_queue[b] by {
                if c2.up_queue != c.up_queue {
                    assert(c2.up_queue[a] == c.up_queue[a + 1]);
                    assert(c2.up_queue[b] == c.up_queue[b + 1]);
                }
            }
        }
        assert(strictly_decreasing(c2.down_queue)) by {
            assert forall|a: int, b: int|
                0 <= a < b < c2.down_queue.len() implies c2.down_queue[a] > c2.down_queue[b] by {
                if c2.down_queue != c.down_queue {
                    assert(c2.down_queue[a] == c.down_queue[a + 1]);
                    assert(c2.down_queue[b] == c.down_queue[b + 1]);
                }
            }
        }
    }
}

/// The position the search for `f` in a strictly ascending `s` stops at.
proof fn find_insert_index_asc(s: Seq<u8>, f: u8) -> (i: int)
    requires
        strictly_increasing(s),
    ensures
        0 <= i <= s.len(),
        forall|j: int| 0 <= j < i ==> s[j] < f,
        i < s.len() ==> f <= s[i],
    decreases s.len(),
{
    if s.len() == 0 {
        0
    } else if s[0] >= f {
        0
    } else {
        let t = s.drop_first();
        assert(strictly_increasing(t)) by {
            assert forall|a: int, b: int| 0 <= a < b < t.len() implies t[a] < t[b] by {
                assert(t[a] == s[a + 1]);
                assert(t[b] == s[b + 1]);
            }
        }
        let j = find_insert_index_asc(t, f);
        assert(forall|k: int| 0 <= k < j + 1 ==> #[trigger] s[k] == if k == 0 { s[0] } else { t[k - 1] });
        j + 1
    }
}

/// The position the search for `f` in a strictly descending `s` stops at.
proof fn find_insert_index_desc(s: Seq<u8>, f: u8) -> (i: int)
    requires
        strictly_decreasing(s),
    ensures
        0 <= i <= s.len(),
        forall|j: int| 0 <= j < i ==> s[j] > f,
        i < s.len() ==> f >= s[i],
    decreases s.len(),
{
    if s.len() == 0 {
        0
    } else if s[0] <= f {
        0
    } else {
        let t = s.drop_first();
        assert(strictly_decreasing(t)) by {
            assert forall|a: int, b: int| 0 <= a < b < t.len() implies t[a] > t[b] by {
                assert(t[a] == s[a + 1]);
                assert(t[b] == s[b + 1]);
            }
        }
        let j = find_insert_index_desc(t, f);
        assert(forall|k: int| 0 <= k < j + 1 ==> #[trigger] s[k] == if k == 0 { s[0] } else { t[k - 1] });
        j + 1
    }
}

/// The sorted insert adds exactly the new floor — or nothing when it is
/// already present — keeps the queue sorted, and keeps every old floor.
proof fn lemma_insert_unique_asc_props(s: Seq<u8>, f: u8)
    requires
        strictly_increasing(s),
    ensures
        ({
            let r = spec_insert_unique_asc(s, f);
            &&& strictly_increasing(r)
            &&& (forall|x: u8| r.contains(x) <==> s.contains(x) || x == f)
            &&& (s.contains(f) ==> r == s)
            &&& (!s.contains(f) ==> r.to_multiset() == s.to_multiset().insert(f))
        }),
{
    broadcast use vstd::seq_lib::group_to_multiset_ensures;
    broadcast use vstd::multiset::group_multiset_axioms;

    let r = spec_insert_unique_asc(s, f);
    let i = find_insert_index_asc(s, f);
    lemma_insert_unique_asc_at(s, f, i);
    lemma_insert_unique_asc_sorted(s, f, i);
    if i < s.len() && s[i] == f {
        assert(s.contains(f));
    } else {
        assert(!s.contains(f)) by {
            if s.contains(f) {
                let k = choose|k: int| 0 <= k < s.len() && s[k] == f;
                assert(k >= i);
                assert(k > i ==> s[i] < s[k]);
            }
        }
        assert(r == s.insert(i, f));
        vstd::seq_lib::to_multiset_insert(s, i, f);
        assert(r.contains(f)) by {
            assert(r[i] == f);
        }
        assert forall|x: u8| r.contains(x) <==> s.contains(x) || x == f by {
            assert(r.to_multiset().count(x) == s.to_multiset().count(x) + if x == f {
                1int
            } else {
                0int
            });
            vstd::seq_lib::to_multiset_contains(r, x);
            vstd::seq_lib::to_multiset_contains(s, x);
        }
    }
}

/// The sorted insert adds exactly the new floor — or nothing when it is
/// already present — keeps the queue sorted, and keeps every old floor
/// (descending twin).
proof fn lemma_insert_unique_desc_props(s: Seq<u8>, f: u8)
    requires
        strictly_decreasing(s),
    ensures
        ({
            let r = spec_insert_unique_desc(s, f);
            &&& strictly_decreasing(r)
            &&& (forall|x: u8| r.contains(x) <==> s.contains(x) || x == f)
            &&& (s.contains(f) ==> r == s)
            &&& (!s.contains(f) ==> r.to_multiset() == s.to_multiset().insert(f))
        }),
{
    broadcast use vstd::seq_lib::group_to_multiset_ensures;
    broadcast use vstd::multiset::group_multiset_axioms;

    let r = spec_insert_unique_desc(s, f);
    let i = find_insert_index_desc(s, f);
    lemma_insert_unique_desc_at(s, f, i);
    lemma_insert_unique_desc_sorted(s, f, i);
    if i < s.len() && s[i] == f {
        assert(s.contains(f));
    } else {
        assert(!s.contains(f)) by {
            if s.contains(f) {
                let k = choose|k: int| 0 <= k < s.len() && s[k] == f;
                assert(k >= i);
                assert(k > i ==> s[i] > s[k]);
            }
        }
        assert(r == s.insert(i, f));
        vstd::seq_lib::to_multiset_insert(s, i, f);
        assert(r.contains(f)) by {
            assert(r[i] == f);
        }
        assert forall|x: u8| r.contains(x) <==> s.contains(x) || x == f by {
            assert(r.to_multiset().count(x) == s.to_multiset().count(x) + if x == f {
                1int
            } else {
                0int
            });
            vstd::seq_lib::to_multiset_contains(r, x);
            vstd::seq_lib::to_multiset_contains(s, x);
        }
    }
}

/// Law: a queued request lands in exactly one queue — the one matching its
/// side of the car — and only once; every request already pending stays
/// pending; a request at the car's own floor changes nothing. Location,
/// sweep direction and the committed target are untouched.
pub proof fn lemma_enqueue_exactly_one(c: CtxView, floor: u8)
    requires
        c.wf(),
    ensures
        ({
            let c2 = c.spec_enqueue(floor);
            &&& c2.wf()
            &&& c2.current_location == c.current_location
            &&& c2.direction_up == c.direction_up
            &&& c2.active_target == c.active_target
            &&& (forall|x: u8|
                c2.up_queue.contains(x) <==> c.up_queue.contains(x) || (x == floor && 2 * (
                floor as int) > c.pos2()))
            &&& (forall|x: u8|
                c2.down_queue.contains(x) <==> c.down_queue.contains(x) || (x == floor && 2 * (
                floor as int) < c.pos2()))
            &&& (2 * (floor as int) == c.pos2() ==> c2 == c)
        }),
{
    if 2 * (floor as int) > c.pos2() {
        lemma_insert_unique_asc_props(c.up_queue, floor);
    } else if 2 * (floor as int) < c.pos2() {
        lemma_insert_unique_desc_props(c.down_queue, floor);
    }
}

/// Law: a well-formed context never holds the same floor twice in a queue.
pub proof fn lemma_queues_duplicate_free(c: CtxView)
    requires
        c.wf(),
    ensures
        forall|i: int, j: int|
            0 <= i < j < c.up_queue.len() ==> c.up_queue[i] != c.up_queue[j],
        forall|i: int, j: int|
            0 <= i < j < c.down_queue.len() ==> c.down_queue[i] != c.down_queue[j],
{
}

/// Law: the SCAN dispatcher removes from the pending requests exactly the
/// floor it returns — the nearest one in sweep direction — and returns
/// nothing only when nothing is pending at all; in that case the queues are
/// untouched and the only change is the single mandatory flip of the sweep
/// and a cleared target. Every pending floor is therefore returned by
/// exactly one eventual dispatch decision.
pub proof fn lemma_next_target_scan(c: CtxView)
    requires
        c.wf(),
    ensures
        ({
            let (c2, r) = c.spec_next_target();
            &&& c2.wf()
            &&& c2.current_location == c.current_location
            &&& c2.min_floor == c.min_floor
            &&& c2.max_floor == c.max_floor
            &&& (r is None <==> c.up_queue.len() == 0 && c.down_queue.len() == 0)
            &&& (r is None ==> c2.up_queue == c.up_queue && c2.down_queue == c.down_queue
                && c2.direction_up == !c.direction_up && c2.active_target is None)
            &&& (match r {
                Some(f) => {
                    &&& c2.active_target == Some(f)
                    &&& c.up_queue.to_multiset().add(c.down_queue.to_multiset())
                        == c2.up_queue.to_multiset().add(c2.down_queue.to_multiset()).insert(f)
                    &&& (c.direction_up && c.up_queue.len() > 0 ==> f == c.up_queue[0]
                        && c2.direction_up == c.direction_up && (forall|k: int|
                        0 <= k < c.up_queue.len() ==> f <= c.up_queue[k]))
                    &&& (!c.direction_up && c.down_queue.len() > 0 ==> f == c.down_queue[0]
                        && c2.direction_up == c.direction_up && (forall|k: int|
                        0 <= k < c.down_queue.len() ==> f >= c.down_queue[k]))
                },
                None => true,
            })
        }),
{
    broadcast use vstd::seq_lib::group_to_multiset_ensures;
    broadcast use vstd::multiset::group_multiset_axioms;

    let (c2, r) = c.spec_next_target();
    lemma_pop_preserves_wf(c);
    if c.spec_pop_in_direction().1 is None {
        let c1 = c.spec_pop_in_direction().0;
        let cf = CtxView { direction_up: !c1.direction_up, ..c1 };
        lemma_pop_preserves_wf(cf);
    }
    match r {
        Some(f) => {
            if c.direction_up && c.up_queue.len() > 0 {
                lemma_drop_first_multiset(c.up_queue);
            } else if !c.direction_up && c.down_queue.len() > 0 {
                lemma_drop_first_multiset(c.down_queue);
            } else if c.direction_up {
                lemma_drop_first_multiset(c.down_queue);
            } else {
                lemma_drop_first_multiset(c.up_queue);
            }
            assert(c.up_queue.to_multiset().add(c.down_queue.to_multiset())
                =~= c2.up_queue.to_multiset().add(c2.down_queue.to_multiset()).insert(f));
        },
        None => {},
    }
}

/// A non-empty sequence is its tail plus its head.
proof fn lemma_drop_first_multiset(s: Seq<u8>)
    requires
        s.len() > 0,
    ensures
        s.to_multiset() == s.drop_first().to_multiset().insert(s[0]),
{
    broadcast use vstd::seq_lib::group_to_multiset_ensures;
    broadcast use vstd::multiset::group_multiset_axioms;

    assert(s.remove(0) =~= s.drop_first());
    vstd::seq_lib::to_multiset_remove(s, 0);
    assert(s.contains(s[0]));
    vstd::seq_lib::to_multiset_contains(s, s[0]);
    assert(s.to_multiset() =~= s.drop_first().to_multiset().insert(s[0]));
}

/// Law: while the sweep keeps going up, successive dispatch decisions
/// serve floors in ascending order.
pub proof fn lemma_scan_order_ascending(c: CtxView)
    requires
        c.wf(),
        c.direction_up,
        c.up_queue.len() >= 2,
    ensures
        ({
            let (c1, r1) = c.spec_next_target();
            let (_c2, r2) = c1.spec_next_target();
            match (r1, r2) {
                (Some(f1), Some(f2)) => f1 < f2,
                _ => false,
            }
        }),
{
    let (c1, r1) = c.spec_next_target();
    assert(r1 == Some(c.up_queue[0]));
    assert(c1.up_queue == c.up_queue.drop_first());
    assert(c1.up_queue[0] == c.up_queue[1]);
}

/// Law: while the sweep keeps going down, successive dispatch decisions
/// serve floors in descending order.
pub proof fn lemma_scan_order_descending(c: CtxView)
    requires
        c.wf(),
        !c.direction_up,
        c.down_queue.len() >= 2,
    ensures
        ({
            let (c1, r1) = c.spec_next_target();
            let (_c2, r2) = c1.spec_next_target();
            match (r1, r2) {
                (Some(f1), Some(f2)) => f1 > f2,
                _ => false,
            }
        }),
{
    let (c1, r1) = c.spec_next_target();
    assert(r1 == Some(c.down_queue[0]));
    assert(c1.down_queue == c.down_queue.drop_first());
    assert(c1.down_queue[0] == c.down_queue[1]);
}

} // verus!
