//! The ring of audio blocks shared by the generator and the output device.
//!
//! The generator takes blocks in round-robin order, fills one at a time and
//! hands it to the device; the device gives blocks back in the order it got
//! them. `free` counts the blocks neither side holds.

use vstd::prelude::*;

verus! {

/// Who may touch a block's memory.
#[derive(Clone, Copy, Debug, PartialEq, Eq, Structural)]
pub enum BlockOwner {
    /// Neither side: the generator may take it.
    Free,
    /// The generator is filling it.
    Generator,
    /// Submitted to the device and not yet given back.
    Driver,
}

/// What can happen to the ring.
#[derive(Clone, Copy, Debug, PartialEq, Eq, Structural)]
pub enum RingEvent {
    /// The generator asks for the block under the cursor.
    Acquire,
    /// The generator hands the block it holds to the device.
    Submit,
    /// The device reports that it is done with its oldest block.
    Complete,
}

/// The block the generator was given.
#[derive(Clone, Copy, Debug, PartialEq, Eq, Structural)]
pub struct Slot {
    /// Position of the block in the ring.
    pub index: usize,
    /// Whether the block went to the device before, so that the device still
    /// holds a prepared header for it.
    pub reused: bool,
}

/// The ring as a mathematical value.
pub struct RingState {
    /// Blocks in the ring.
    pub block_count: nat,
    /// Blocks that neither the generator nor the device holds.
    pub free: nat,
    /// The block the generator takes next, or holds now.
    pub cursor: nat,
    /// Whether the generator holds the block under the cursor.
    pub filling: bool,
    /// Whether the cursor has gone round at least once.
    pub wrapped: bool,
}

impl RingState {
    /// A ring of `block_count` free blocks with the cursor on the first.
    pub open spec fn initial(block_count: nat) -> RingState {
        RingState { block_count, free: block_count, cursor: 0, filling: false, wrapped: false }
    }

    /// Blocks the device holds.
    pub open spec fn queued(self) -> int {
        self.block_count - self.free - (if self.filling {
            1int
        } else {
            0int
        })
    }

    /// The ring's invariant: the counter stays within `0..=block_count`, the
    /// cursor within the ring, and the device never holds more blocks than
    /// were submitted.
    pub open spec fn inv(self) -> bool {
        &&& self.block_count > 0
        &&& self.free <= self.block_count
        &&& self.cursor < self.block_count
        &&& self.queued() >= 0
        &&& !self.wrapped ==> self.queued() <= self.cursor
    }

    /// How many submissions ago the block at `index` was under the cursor:
    /// between `1`, for the block just behind the cursor, and `block_count`,
    /// for the block under it.
    pub open spec fn steps_behind(self, index: int) -> int {
        if index == self.cursor {
            self.block_count as int
        } else {
            (self.cursor - index) % (self.block_count as int)
        }
    }

    /// Who holds the block at `index`: the device holds the `queued()` blocks
    /// just behind the cursor, the generator the one under it while filling.
    pub open spec fn owner(self, index: int) -> BlockOwner {
        if self.filling && index == self.cursor {
            BlockOwner::Generator
        } else if self.steps_behind(index) <= self.queued() {
            BlockOwner::Driver
        } else {
            BlockOwner::Free
        }
    }

    /// The block the device has held longest.
    pub open spec fn oldest_queued(self) -> int {
        (self.cursor - self.queued()) % (self.block_count as int)
    }

    /// Whether the generator can take a block now.
    pub open spec fn can_acquire(self) -> bool {
        self.free > 0 && !self.filling
    }

    /// The ring after the generator asked for a block.
    pub open spec fn acquire(self) -> RingState {
        if self.can_acquire() {
            RingState { free: (self.free - 1) as nat, filling: true, ..self }
        } else {
            self
        }
    }

    /// The ring after the generator handed over the block it holds.
    pub open spec fn submit(self) -> RingState {
        if self.filling {
            RingState {
                cursor: (((self.cursor + 1) as int) % (self.block_count as int)) as nat,
                filling: false,
                wrapped: self.wrapped || self.cursor + 1 == self.block_count,
                ..self
            }
        } else {
            self
        }
    }

    /// The ring after the device reported a block done. A report with no
    /// block queued changes nothing.
    pub open spec fn complete(self) -> RingState {
        if self.queued() > 0 {
            RingState { free: self.free + 1, ..self }
        } else {
            self
        }
    }

    /// The ring after `event`.
    pub open spec fn after(self, event: RingEvent) -> RingState {
        match event {
            RingEvent::Acquire => self.acquire(),
            RingEvent::Submit => self.submit(),
            RingEvent::Complete => self.complete(),
        }
    }

    /// The ring after all of `events`, first to last.
    pub open spec fn run(self, events: Seq<RingEvent>) -> RingState
        decreases events.len(),
    {
        if events.len() == 0 {
            self
        } else {
            self.run(events.drop_last()).after(events.last())
        }
    }
}

/// One step past `cursor` in a ring of `count` blocks.
proof fn lemma_next_index(cursor: int, count: int)
    requires
        0 <= cursor < count,
    ensures
        cursor + 1 == count ==> (cursor + 1) % count == 0,
        cursor + 1 < count ==> (cursor + 1) % count == cursor + 1,
{
    if cursor + 1 == count {
        vstd::arithmetic::div_mod::lemma_mod_self_0(count);
    } else {
        vstd::arithmetic::div_mod::lemma_small_mod((cursor + 1) as nat, count as nat);
    }
}

/// `back` steps behind `cursor` in a ring of `count` blocks.
proof fn lemma_index_behind(cursor: int, back: int, count: int)
    requires
        0 <= cursor < count,
        0 <= back <= count,
    ensures
        cursor >= back ==> (cursor - back) % count == cursor - back,
        cursor < back ==> (cursor - back) % count == cursor - back + count,
        0 <= (cursor - back) % count < count,
{
    if cursor >= back {
        vstd::arithmetic::div_mod::lemma_small_mod((cursor - back) as nat, count as nat);
    } else {
        vstd::arithmetic::div_mod::lemma_mod_add_multiples_vanish(cursor - back, count);
        vstd::arithmetic::div_mod::lemma_small_mod((cursor - back + count) as nat, count as nat);
    }
}

/// No event breaks the ring's invariant.
pub proof fn lemma_event_keeps_invariant(ring: RingState, event: RingEvent)
    requires
        ring.inv(),
    ensures
        ring.after(event).inv(),
        ring.after(event).block_count == ring.block_count,
{
    lemma_next_index(ring.cursor as int, ring.block_count as int);
}

/// Whatever the generator and the device do, and in whatever order, the free
/// counter never leaves `0..=block_count`.
pub proof fn lemma_free_stays_bounded(ring: RingState, events: Seq<RingEvent>)
    requires
        ring.inv(),
    ensures
        ring.run(events).inv(),
        ring.run(events).block_count == ring.block_count,
        0 <= ring.run(events).free <= ring.block_count,
    decreases events.len(),
{
    if events.len() > 0 {
        lemma_free_stays_bounded(ring, events.drop_last());
        lemma_event_keeps_invariant(ring.run(events.drop_last()), events.last());
    }
}

/// The block the generator is given is one that nobody holds: while a block
/// is free, the device does not own the block under the cursor.
pub proof fn lemma_acquired_block_is_free(ring: RingState)
    requires
        ring.inv(),
        ring.can_acquire(),
    ensures
        ring.owner(ring.cursor as int) == BlockOwner::Free,
        ring.acquire().owner(ring.cursor as int) == BlockOwner::Generator,
{
}

/// A submitted block goes from the generator to the device, and no other
/// block changes hands.
pub proof fn lemma_submit_hands_to_driver(ring: RingState, index: int)
    requires
        ring.inv(),
        ring.filling,
        0 <= index < ring.block_count,
    ensures
        ring.owner(ring.cursor as int) == BlockOwner::Generator,
        ring.submit().owner(ring.cursor as int) == BlockOwner::Driver,
        index != ring.cursor ==> ring.submit().owner(index) == ring.owner(index),
{
    let n = ring.block_count as int;
    let c = ring.cursor as int;
    let after = ring.submit();
    lemma_next_index(c, n);
    lemma_index_behind(after.cursor as int, 1, n);
    assert(after.steps_behind(c) == 1) by {
        if n == 1 {
            assert(after.cursor == c);
        } else if c + 1 == n {
            vstd::arithmetic::div_mod::lemma_mod_add_multiples_vanish(-c, n);
            vstd::arithmetic::div_mod::lemma_small_mod(1, n as nat);
            assert(-c + n == 1);
        } else {
            vstd::arithmetic::div_mod::lemma_small_mod(1, n as nat);
        }
    }
    if index != c {
        // every other block is one step further behind the new cursor
        lemma_index_behind(c, index, n);
        lemma_index_behind(after.cursor as int, index, n);
        if index == after.cursor {
            assert(ring.steps_behind(index) == n - 1) by {
                if c + 1 == n {
                    assert(index == 0);
                } else {
                    assert(index == c + 1);
                    assert((c - index) % n == n - 1);
                }
            }
        } else {
            assert(after.steps_behind(index) == ring.steps_behind(index) + 1);
        }
    }
}

/// A completion frees exactly the block the device has held longest, and
/// moves no other block.
pub proof fn lemma_complete_frees_oldest(ring: RingState, index: int)
    requires
        ring.inv(),
        ring.queued() > 0,
        0 <= index < ring.block_count,
    ensures
        ring.owner(ring.oldest_queued()) == BlockOwner::Driver,
        ring.complete().owner(ring.oldest_queued()) == BlockOwner::Free,
        index != ring.oldest_queued() ==> ring.complete().owner(index) == ring.owner(index),
{
    let n = ring.block_count as int;
    let c = ring.cursor as int;
    let q = ring.queued();
    lemma_index_behind(c, q, n);
    let oldest = ring.oldest_queued();
    // the oldest block lies `q` steps behind the cursor
    lemma_index_behind(c, oldest, n);
    assert(ring.steps_behind(oldest) == q) by {
        if q == n {
            vstd::arithmetic::div_mod::lemma_mod_add_multiples_vanish(c - n, n);
            assert(oldest == c);
        } else if c >= q {
            assert(oldest == c - q);
        } else {
            assert(oldest == c - q + n);
        }
    }
    // no other block lies `q` steps behind the cursor
    if index != oldest {
        lemma_index_behind(c, index, n);
        assert(ring.steps_behind(index) != q);
    }
}

/// The ring of audio blocks: a fixed number of blocks, a round-robin cursor
/// and the free-block counter.
pub struct BlockRing {
    block_count: usize,
    free: usize,
    cursor: usize,
    filling: bool,
    wrapped: bool,
}

impl View for BlockRing {
    type V = RingState;

    closed spec fn view(&self) -> RingState {
        RingState {
            block_count: self.block_count as nat,
            free: self.free as nat,
            cursor: self.cursor as nat,
            filling: self.filling,
            wrapped: self.wrapped,
        }
    }
}

impl BlockRing {
    #[verifier::type_invariant]
    spec fn valid(&self) -> bool {
        self@.inv()
    }

    /// A ring of `block_count` free blocks, or `None` for an empty ring.
    pub fn new(block_count: usize) -> (r: Option<BlockRing>)
        ensures
            r is Some <==> block_count > 0,
            r matches Some(ring) ==> ring@ == RingState::initial(block_count as nat) && ring@.inv(),
    {
        if block_count == 0 {
            None
        } else {
            Some(BlockRing { block_count, free: block_count, cursor: 0, filling: false, wrapped: false })
        }
    }

    /// Blocks in the ring.
    pub fn block_count(&self) -> (r: usize)
        ensures
            r == self@.block_count,
            r > 0,
            self@.inv(),
    {
        proof {
            use_type_invariant(self);
        }
        self.block_count
    }

    /// Blocks that neither side holds.
    pub fn free(&self) -> (r: usize)
        ensures
            r == self@.free,
            r <= self@.block_count,
            self@.inv(),
    {
        proof {
            use_type_invariant(self);
        }
        self.free
    }

    /// The block the generator takes next, or holds now.
    pub fn cursor(&self) -> (r: usize)
        ensures
            r == self@.cursor,
            r < self@.block_count,
            self@.inv(),
    {
        proof {
            use_type_invariant(self);
        }
        self.cursor
    }

    /// Whether the generator holds the block under the cursor.
    pub fn is_filling(&self) -> (r: bool)
        ensures
            r == self@.filling,
            self@.inv(),
    {
        proof {
            use_type_invariant(self);
        }
        self.filling
    }

    /// The slot under the cursor.
    pub fn current(&self) -> (r: Slot)
        ensures
            r.index == self@.cursor,
            r.reused == self@.wrapped,
            self@.inv(),
    {
        proof {
            use_type_invariant(self);
        }
        Slot { index: self.cursor, reused: self.wrapped }
    }

    /// Blocks the device holds.
    pub fn queued(&self) -> (r: usize)
        ensures
            r == self@.queued(),
            self@.inv(),
        no_unwind
    {
        proof {
            use_type_invariant(self);
        }
        if self.filling {
            self.block_count - self.free - 1
        } else {
            self.block_count - self.free
        }
    }

    /// Takes the block under the cursor for the generator. Gives `None`, and
    /// changes nothing, while no block is free or the generator still holds
    /// one; otherwise the counter drops by one.
    pub fn try_acquire(&mut self) -> (r: Option<Slot>)
        ensures
            final(self)@ == old(self)@.after(RingEvent::Acquire),
            final(self)@.inv(),
            r is Some <==> old(self)@.can_acquire(),
            r matches Some(slot) ==> slot.index == old(self)@.cursor && slot.reused == old(
                self,
            )@.wrapped && old(self)@.owner(slot.index as int) == BlockOwner::Free,
        no_unwind
    {
        proof {
            use_type_invariant(&*self);
            if self@.can_acquire() {
                lemma_acquired_block_is_free(self@);
            }
        }
        if self.free > 0 && !self.filling {
            *self = BlockRing {
                block_count: self.block_count,
                free: self.free - 1,
                cursor: self.cursor,
                filling: true,
                wrapped: self.wrapped,
            };
            Some(Slot { index: self.cursor, reused: self.wrapped })
        } else {
            None
        }
    }

    /// Hands the block the generator holds to the device and moves the cursor
    /// on, round the ring. Gives the block's index, or `None`, changing
    /// nothing, when the generator holds no block.
    pub fn submit(&mut self) -> (r: Option<usize>)
        ensures
            final(self)@ == old(self)@.after(RingEvent::Submit),
            final(self)@.inv(),
            r is Some <==> old(self)@.filling,
            r matches Some(index) ==> index == old(self)@.cursor && final(self)@.owner(
                index as int,
            ) == BlockOwner::Driver,
        no_unwind
    {
        proof {
            use_type_invariant(&*self);
            lemma_next_index(self.cursor as int, self.block_count as int);
            if self@.filling {
                lemma_submit_hands_to_driver(self@, self.cursor as int);
            }
        }
        if self.filling {
            let index: usize = self.cursor;
            let last: bool = self.cursor + 1 == self.block_count;
            let next: usize = if last {
                0
            } else {
                self.cursor + 1
            };
            *self = BlockRing {
                block_count: self.block_count,
                free: self.free,
                cursor: next,
                filling: false,
                wrapped: self.wrapped || last,
            };
            Some(index)
        } else {
            None
        }
    }

    /// Records that the device is done with its oldest block: the counter
    /// rises by one. Gives that block's index, or `None`, changing nothing,
    /// when the device holds no block.
    pub fn complete(&mut self) -> (r: Option<usize>)
        ensures
            final(self)@ == old(self)@.after(RingEvent::Complete),
            final(self)@.inv(),
            r is Some <==> old(self)@.queued() > 0,
            r matches Some(index) ==> index == old(self)@.oldest_queued() && old(self)@.owner(
                index as int,
            ) == BlockOwner::Driver && final(self)@.owner(index as int) == BlockOwner::Free,
        no_unwind
    {
        proof {
            use_type_invariant(&*self);
            if self@.queued() > 0 {
                lemma_complete_frees_oldest(self@, 0);
            }
        }
        let queued: usize = self.queued();
        if queued > 0 {
            proof {
                lemma_index_behind(self.cursor as int, queued as int, self.block_count as int);
            }
            let index: usize = if self.cursor >= queued {
                self.cursor - queued
            } else {
                self.cursor + (self.block_count - queued)
            };
            *self = BlockRing {
                block_count: self.block_count,
                free: self.free + 1,
                cursor: self.cursor,
                filling: self.filling,
                wrapped: self.wrapped,
            };
            Some(index)
        } else {
            None
        }
    }
}

} // verus!
