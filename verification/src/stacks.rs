//! The bounded table of captured call stacks.
use vstd::prelude::*;

verus! {

/// The most frames one captured stack holds.
pub const MAX_STACK_DEPTH: usize = 127;

/// What a capture returns when no stack could be stored.
pub const NO_STACK: i32 = -1;

/// The frames that are kept of a stack: its innermost `MAX_STACK_DEPTH`.
pub open spec fn kept(frames: Seq<u64>) -> Seq<u64> {
    if frames.len() > MAX_STACK_DEPTH {
        frames.subrange(0, MAX_STACK_DEPTH as int)
    } else {
        frames
    }
}

/// A sequence of distinct identifiers with `id` left out.
pub open spec fn without(order: Seq<i32>, id: i32) -> Seq<i32> {
    if order.contains(id) {
        order.remove(order.index_of(id))
    } else {
        order
    }
}

/// A table of at most `capacity` live stacks, identified by the numbers
/// `1..=capacity`. While an identifier is free a capture takes a free one;
/// once all are live a capture takes over the one assigned longest ago.
pub struct StackTable {
    slots: Vec<Option<Vec<u64>>>,
    live: Vec<usize>,
    free: Vec<usize>,
}

impl View for StackTable {
    type V = Map<i32, Seq<u64>>;

    /// The frames of each live identifier.
    closed spec fn view(&self) -> Map<i32, Seq<u64>> {
        Map::new(
            |id: i32| 1 <= id <= self.slots.len() && self.slots[id - 1].is_some(),
            |id: i32| self.slots[id - 1].unwrap()@,
        )
    }
}

impl StackTable {
    /// The most stacks live at once.
    pub closed spec fn capacity(&self) -> nat {
        self.slots.len() as nat
    }

    /// The live identifiers, the one assigned longest ago first.
    pub closed spec fn order(&self) -> Seq<i32> {
        Seq::new(self.live.len() as nat, |j: int| (self.live[j] + 1) as i32)
    }

    /// Whether every identifier is live.
    pub open spec fn full(&self) -> bool {
        forall|id: i32| 1 <= id <= self.capacity() ==> #[trigger] self@.contains_key(id)
    }

    /// The free identifiers, the one that the next capture takes last.
    pub closed spec fn spare(&self) -> Seq<i32> {
        Seq::new(self.free.len() as nat, |j: int| (self.free[j] + 1) as i32)
    }

    /// The identifier that the next capture returns: the last of the free
    /// ones, else the live one assigned longest ago, else none.
    pub open spec fn next_id(&self) -> i32 {
        if self.spare().len() > 0 {
            self.spare().last()
        } else if self.order().len() > 0 {
            self.order()[0]
        } else {
            NO_STACK
        }
    }

    /// That `after` is this table once a capture of `frames` has returned
    /// `id`: with no capacity nothing changes; a free identifier joins the
    /// order at its end; in a full table the head of the order is taken
    /// over and moves to the end.
    pub open spec fn captured(&self, frames: Seq<u64>, after: StackTable, id: i32) -> bool {
        &&& after.wf()
        &&& after.capacity() == self.capacity()
        &&& id == self.next_id()
        &&& after.spare() == if self.spare().len() > 0 {
            self.spare().drop_last()
        } else {
            self.spare()
        }
        &&& self.capacity() == 0 ==> id == NO_STACK && after@ == self@ && after.order()
            == self.order()
        &&& self.capacity() > 0 ==> 1 <= id <= self.capacity() && after@ == self@.insert(
            id,
            kept(frames),
        )
        &&& self.capacity() > 0 && !self.full() ==> !self@.contains_key(id) && after.order()
            == self.order().push(id)
        &&& self.capacity() > 0 && self.full() ==> self.order().len() > 0 && id == self.order()[0]
            && after.order() == self.order().drop_first().push(id)
    }

    /// Each slot is listed once, as live or as free, according to what it holds.
    pub closed spec fn wf(&self) -> bool {
        &&& self.slots.len() <= 0x7fff_ffff
        &&& self.live@.no_duplicates()
        &&& self.free@.no_duplicates()
        &&& forall|j: int|
            0 <= j < self.live.len() ==> (#[trigger] self.live[j]) < self.slots.len()
                && self.slots[self.live[j] as int].is_some()
        &&& forall|j: int|
            0 <= j < self.free.len() ==> (#[trigger] self.free[j]) < self.slots.len()
                && self.slots[self.free[j] as int].is_none()
        &&& forall|i: int|
            0 <= i < self.slots.len() && (#[trigger] self.slots[i]).is_some() ==> exists|j: int|
                0 <= j < self.live.len() && self.live[j] == i
        &&& forall|i: int|
            0 <= i < self.slots.len() && (#[trigger] self.slots[i]).is_none() ==> exists|j: int|
                0 <= j < self.free.len() && self.free[j] == i
        &&& forall|i: int|
            0 <= i < self.slots.len() && (#[trigger] self.slots[i]).is_some()
                ==> self.slots[i].unwrap().len() <= MAX_STACK_DEPTH
    }

    /// In a well-formed table the order lists exactly the live identifiers,
    /// each once, and these lie in `1..=capacity` with at most
    /// `MAX_STACK_DEPTH` frames each.
    pub proof fn lemma_order_lists_live(&self)
        requires
            self.wf(),
        ensures
            self.order().no_duplicates(),
            forall|id: i32| self.order().contains(id) <==> self@.contains_key(id),
            forall|id: i32| self@.contains_key(id) ==> 1 <= id <= self.capacity(),
            forall|id: i32| self@.contains_key(id) ==> self@[id].len() <= MAX_STACK_DEPTH,
            self.spare().no_duplicates(),
            forall|id: i32|
                self.spare().contains(id) <==> 1 <= id <= self.capacity() && !self@.contains_key(id),
            self.full() <==> self.spare().len() == 0,
    {
        let spare = self.spare();
        assert forall|id: i32| spare.contains(id) implies 1 <= id <= self.capacity()
            && !self@.contains_key(id) by {
            let j = choose|j: int| 0 <= j < spare.len() && spare[j] == id;
            assert(self.free[j] < self.slots.len());
        }
        assert forall|id: i32| 1 <= id <= self.capacity() && !self@.contains_key(id) implies spare.contains(
            id,
        ) by {
            assert(self.slots[id - 1].is_none());
            let j = choose|j: int| 0 <= j < self.free.len() && self.free[j] == id - 1;
            assert(spare[j] == id);
        }
        assert forall|a: int, b: int|
            0 <= a < spare.len() && 0 <= b < spare.len() && a != b implies spare[a] != spare[b] by {
            assert(self.free[a] < self.slots.len());
            assert(self.free[b] < self.slots.len());
        }
        if spare.len() > 0 {
            assert(spare.contains(spare[0]));
            assert(!self@.contains_key(spare[0]));
        } else {
            assert forall|id: i32| 1 <= id <= self.capacity() implies #[trigger] self@.contains_key(
                id,
            ) by {
                if !self@.contains_key(id) {
                    assert(spare.contains(id));
                }
            }
        }
        let ord = self.order();
        assert forall|id: i32| ord.contains(id) implies self@.contains_key(id) by {
            let j = choose|j: int| 0 <= j < ord.len() && ord[j] == id;
            assert(self.live[j] < self.slots.len());
        }
        assert forall|id: i32| self@.contains_key(id) implies ord.contains(id) by {
            assert(self.slots[id - 1].is_some());
            let j = choose|j: int| 0 <= j < self.live.len() && self.live[j] == id - 1;
            assert(ord[j] == id);
        }
        assert forall|a: int, b: int| 0 <= a < ord.len() && 0 <= b < ord.len() && a != b implies ord[a]
            != ord[b] by {
            assert(self.live[a] < self.slots.len());
            assert(self.live[b] < self.slots.len());
        }
        assert forall|id: i32| self@.contains_key(id) implies self@[id].len() <= MAX_STACK_DEPTH by {
            assert(self.slots[id - 1].is_some());
        }
    }

    /// An empty table with `capacity` identifiers.
    pub fn new(capacity: usize) -> (t: StackTable)
        requires
            capacity <= 0x7fff_ffff,
        ensures
            t.wf(),
            t.capacity() == capacity,
            t@ == Map::<i32, Seq<u64>>::empty(),
            t.order() == Seq::<i32>::empty(),
            t.spare() == Seq::new(capacity as nat, |j: int| (capacity - j) as i32),
    {
        let mut slots: Vec<Option<Vec<u64>>> = Vec::new();
        let mut free: Vec<usize> = Vec::new();
        let mut i: usize = 0;
        while i < capacity
            invariant
                i <= capacity,
                slots.len() == i,
                free.len() == i,
                forall|j: int| 0 <= j < i ==> (#[trigger] slots[j]).is_none(),
                forall|j: int| 0 <= j < i ==> (#[trigger] free[j]) == capacity - 1 - j,
            decreases capacity - i,
        {
            slots.push(None);
            free.push(capacity - 1 - i);
            i = i + 1;
        }
        let t = StackTable { slots, live: Vec::new(), free };
        assert(t@ =~= Map::<i32, Seq<u64>>::empty());
        assert(t.order() =~= Seq::<i32>::empty());
        assert(t.spare() =~= Seq::new(capacity as nat, |j: int| (capacity - j) as i32));
        assert forall|i: int| 0 <= i < t.slots.len() && (#[trigger] t.slots[i]).is_none() implies exists|
            j: int,
        |
            0 <= j < t.free.len() && t.free[j] == i by {
            assert(t.free[capacity - 1 - i] == i);
        }
        t
    }

    /// Number of live stacks.
    pub fn len(&self) -> (n: usize)
        ensures
            n == self.order().len(),
    {
        self.live.len()
    }

    /// Whether every identifier is live, so that the next capture takes
    /// one over.
    pub fn is_full(&self) -> (r: bool)
        requires
            self.wf(),
        ensures
            r == self.full(),
    {
        proof {
            if self.free.len() > 0 {
                let idx = self.free[0];
                assert(self.slots[idx as int].is_none());
                assert(!self@.contains_key((idx + 1) as i32));
            } else {
                assert forall|id: i32| 1 <= id <= self.capacity() implies #[trigger] self@.contains_key(
                    id,
                ) by {
                    if self.slots[id - 1].is_none() {
                        let j = choose|j: int| 0 <= j < self.free.len() && self.free[j] == id - 1;
                    }
                }
            }
        }
        self.free.len() == 0
    }

    /// A copy of the stack live under `stack_id`, if there is one. The
    /// table is left as it is.
    pub fn read(&self, stack_id: i32) -> (r: Option<Vec<u64>>)
        requires
            self.wf(),
        ensures
            match r {
                Some(frames) => self@.contains_key(stack_id) && frames@ == self@[stack_id],
                None => !self@.contains_key(stack_id),
            },
    {
        if stack_id < 1 || stack_id as usize > self.slots.len() {
            return None;
        }
        let idx: usize = (stack_id - 1) as usize;
        match &self.slots[idx] {
            Some(frames) => {
                let copy = frames.clone();
                assert(copy@ =~= frames@);
                Some(copy)
            },
            None => None,
        }
    }

    /// Stores a stack and returns its identifier. Frames beyond
    /// `MAX_STACK_DEPTH` are cut off. While an identifier is free, a free
    /// one is taken and nothing is lost. Once the table is full the
    /// identifier assigned longest ago is taken over, and the stack it
    /// stood for is gone. A table without capacity returns `NO_STACK`.
    pub fn capture(&mut self, frames: Vec<u64>) -> (id: i32)
        requires
            old(self).wf(),
        ensures
            old(self).captured(frames@, *final(self), id),
    {
        let ghost given = frames@;
        let mut stack = frames;
        if stack.len() > MAX_STACK_DEPTH {
            stack.truncate(MAX_STACK_DEPTH);
        }
        assert(stack@ == kept(given));
        if self.free.len() > 0 {
            let idx: usize = self.free.pop().unwrap();
            assert(old(self).free[old(self).free.len() - 1] == idx);
            assert(old(self).slots[idx as int].is_none());
            self.slots[idx] = Some(stack);
            self.live.push(idx);
            let id: i32 = (idx + 1) as i32;
            proof {
                assert(!old(self)@.contains_key(id));
                assert(final(self)@ =~= old(self)@.insert(id, kept(given)));
                assert(final(self).order() =~= old(self).order().push(id));
                assert(final(self).spare() =~= old(self).spare().drop_last());
                assert forall|i: int|
                    0 <= i < self.slots.len() && (#[trigger] self.slots[i]).is_some() implies exists|
                    j: int,
                | 0 <= j < self.live.len() && self.live[j] == i by {
                    if i == idx {
                        assert(self.live[self.live.len() - 1] == i);
                    } else {
                        assert(old(self).slots[i].is_some());
                        let j = choose|j: int|
                            0 <= j < old(self).live.len() && old(self).live[j] == i;
                        assert(self.live[j] == i);
                    }
                }
                assert forall|i: int|
                    0 <= i < self.slots.len() && (#[trigger] self.slots[i]).is_none() implies exists|
                    j: int,
                | 0 <= j < self.free.len() && self.free[j] == i by {
                    assert(old(self).slots[i].is_none());
                    let j = choose|j: int|
                        0 <= j < old(self).free.len() && old(self).free[j] == i;
                    assert(self.free[j] == i);
                }
            }
            id
        } else if self.live.len() > 0 {
            let idx: usize = self.live.remove(0);
            assert(old(self).live[0] == idx);
            self.slots[idx] = Some(stack);
            self.live.push(idx);
            let id: i32 = (idx + 1) as i32;
            proof {
                assert forall|i: i32| 1 <= i <= old(self).capacity() implies #[trigger] old(self)@.contains_key(i) by {
                    if old(self).slots[i - 1].is_none() {
                        let j = choose|j: int|
                            0 <= j < old(self).free.len() && old(self).free[j] == i - 1;
                    }
                }
                assert(final(self)@ =~= old(self)@.insert(id, kept(given)));
                assert(final(self).order() =~= old(self).order().drop_first().push(id));
                assert(final(self).spare() =~= old(self).spare());
                assert forall|i: int|
                    0 <= i < self.slots.len() && (#[trigger] self.slots[i]).is_some() implies exists|
                    j: int,
                | 0 <= j < self.live.len() && self.live[j] == i by {
                    if i == idx {
                        assert(self.live[self.live.len() - 1] == i);
                    } else {
                        assert(old(self).slots[i].is_some());
                        let j = choose|j: int|
                            0 <= j < old(self).live.len() && old(self).live[j] == i;
                        assert(self.live[j - 1] == i);
                    }
                }
                assert forall|a: int, b: int|
                    0 <= a < self.live.len() && 0 <= b < self.live.len() && a != b implies self.live[a]
                    != self.live[b] by {
                    assert(old(self).live[0] == idx);
                    if a < self.live.len() - 1 {
                        assert(self.live[a] == old(self).live[a + 1]);
                    }
                    if b < self.live.len() - 1 {
                        assert(self.live[b] == old(self).live[b + 1]);
                    }
                }
            }
            id
        } else {
            proof {
                if self.slots.len() > 0 {
                    if self.slots[0].is_some() {
                        let j = choose|j: int| 0 <= j < self.live.len() && self.live[j] == 0;
                    } else {
                        let j = choose|j: int| 0 <= j < self.free.len() && self.free[j] == 0;
                    }
                }
            }
            NO_STACK
        }
    }

    /// Frees the slot of `stack_id` for reuse. An identifier that is not
    /// live is left alone.
    pub fn remove(&mut self, stack_id: i32) -> (was_live: bool)
        requires
            old(self).wf(),
        ensures
            final(self).wf(),
            final(self).capacity() == old(self).capacity(),
            was_live == old(self)@.contains_key(stack_id),
            final(self)@ == old(self)@.remove(stack_id),
            final(self).order() == without(old(self).order(), stack_id),
            final(self).spare() == if was_live {
                old(self).spare().push(stack_id)
            } else {
                old(self).spare()
            },
    {
        if stack_id < 1 || stack_id as usize > self.slots.len() {
            assert(final(self)@ =~= old(self)@.remove(stack_id));
            proof {
                self.lemma_order_lists_live();
            }
            return false;
        }
        let idx: usize = (stack_id - 1) as usize;
        if self.slots[idx].is_none() {
            assert(final(self)@ =~= old(self)@.remove(stack_id));
            proof {
                self.lemma_order_lists_live();
            }
            return false;
        }
        let ghost at = choose|j: int| 0 <= j < self.live.len() && self.live[j] == idx;
        let mut pos: usize = 0;
        while self.live[pos] != idx
            invariant
                *self == *old(self),
                0 <= pos <= at < self.live.len(),
                self.live[at] == idx,
            decreases self.live.len() - pos,
        {
            pos = pos + 1;
        }
        assert(pos == at) by {
            assert(self.live@.no_duplicates());
        }
        self.live.remove(pos);
        self.slots[idx] = None;
        self.free.push(idx);
        proof {
            assert(final(self)@ =~= old(self)@.remove(stack_id));
            assert(old(self).order()[at] == stack_id);
            assert(final(self).order() =~= old(self).order().remove(at));
            assert(final(self).spare() =~= old(self).spare().push(stack_id));
            old(self).lemma_order_lists_live();
            assert(old(self).order().index_of(stack_id) == at);
            assert forall|i: int|
                0 <= i < self.slots.len() && (#[trigger] self.slots[i]).is_some() implies exists|
                j: int,
            | 0 <= j < self.live.len() && self.live[j] == i by {
                assert(old(self).slots[i].is_some());
                let j = choose|j: int| 0 <= j < old(self).live.len() && old(self).live[j] == i;
                if j < at {
                    assert(self.live[j] == i);
                } else {
                    assert(self.live[j - 1] == i);
                }
            }
            assert forall|i: int|
                0 <= i < self.slots.len() && (#[trigger] self.slots[i]).is_none() implies exists|
                j: int,
            | 0 <= j < self.free.len() && self.free[j] == i by {
                if i == idx {
                    assert(self.free[self.free.len() - 1] == i);
                } else {
                    assert(old(self).slots[i].is_none());
                    let j = choose|j: int|
                        0 <= j < old(self).free.len() && old(self).free[j] == i;
                    assert(self.free[j] == i);
                }
            }
            assert forall|a: int, b: int|
                0 <= a < self.live.len() && 0 <= b < self.live.len() && a != b implies self.live[a]
                != self.live[b] by {
                let a0 = if a < at { a } else { a + 1 };
                let b0 = if b < at { b } else { b + 1 };
                assert(self.live[a] == old(self).live[a0]);
                assert(self.live[b] == old(self).live[b0]);
            }
            assert forall|a: int, b: int|
                0 <= a < self.free.len() && 0 <= b < self.free.len() && a != b implies self.free[a]
                != self.free[b] by {
                if a < self.free.len() - 1 {
                    assert(self.free[a] == old(self).free[a]);
                }
                if b < self.free.len() - 1 {
                    assert(self.free[b] == old(self).free[b]);
                }
            }
        }
        true
    }
}

} // verus!
