//! UART ring of one directed edge: layout and index rules of the shared
//! segment, and the ring itself.
//!
//! Layout (the creator initializes it, peers attach):
//! ```text
//! [event ...][ring header][frame; capacity]
//! ```
//!
//! Single producer, single consumer. One slot stays free, so a ring of
//! capacity `n` holds `n - 1` frames. On overflow the oldest frame is dropped
//! and counted.

use vstd::prelude::*;

use crate::text::join2;

verus! {

/// UART frame carried on the ring (host endian).
#[derive(Clone, Copy, Debug, PartialEq, Eq, Structural)]
pub struct ShmUartFrame {
    pub data: u16,
    pub data_bits: u8,
    pub stop_bits: u8,
    pub parity: u8,
    pub inverted: u8,
    pub _pad: u16,
    pub bit_time_ns: u64,
}

impl ShmUartFrame {
    /// The frame whose fields are all zero.
    pub open spec fn zero() -> ShmUartFrame {
        ShmUartFrame {
            data: 0,
            data_bits: 0,
            stop_bits: 0,
            parity: 0,
            inverted: 0,
            _pad: 0,
            bit_time_ns: 0,
        }
    }
}

impl Default for ShmUartFrame {
    fn default() -> (r: ShmUartFrame)
        ensures
            r == ShmUartFrame::zero(),
    {
        ShmUartFrame {
            data: 0,
            data_bits: 0,
            stop_bits: 0,
            parity: 0,
            inverted: 0,
            _pad: 0,
            bit_time_ns: 0,
        }
    }
}

/// Marks an initialized ring header (`SUAR`).
pub const MAGIC: u32 = 0x5355_4152;

/// Alignment of the ring header, which is also its size.
pub const HEADER_ALIGN: usize = 64;

/// Size of a frame in the segment.
pub const FRAME_SIZE: usize = 16;

/// Bytes that are reserved for the event in front of the header.
pub const EVENT_RESERVE: usize = 512;

/// Errors from creating, attaching to and using a shared segment.
#[derive(Debug)]
pub enum ShmUartError {
    Shmem(String),
    Event(String),
    BadHeader,
    Message(String),
}

impl ShmUartError {
    /// Text of the failure for people.
    pub open spec fn shown(self) -> Seq<char> {
        match self {
            ShmUartError::Shmem(what) => "shared memory error: "@ + what@,
            ShmUartError::Event(what) => "event error: "@ + what@,
            ShmUartError::BadHeader => "invalid ring header (bad magic or capacity)"@,
            ShmUartError::Message(what) => what@,
        }
    }

    /// Text of the failure for people.
    pub fn shown_text(&self) -> (r: String)
        ensures
            r@ == self.shown(),
    {
        match self {
            ShmUartError::Shmem(what) => join2("shared memory error: ", what.as_str()),
            ShmUartError::Event(what) => join2("event error: ", what.as_str()),
            ShmUartError::BadHeader => "invalid ring header (bad magic or capacity)".to_owned(),
            ShmUartError::Message(what) => what.clone(),
        }
    }
}

/// Capacity that a segment is created with: at least two slots.
pub fn ring_capacity(requested: u32) -> (r: u32)
    ensures
        r == if requested < 2 {
            2u32
        } else {
            requested
        },
{
    if requested < 2 {
        2
    } else {
        requested
    }
}

/// Bytes of a segment with this many slots: the event, the aligned header, the
/// slots and some room for their alignment.
pub fn estimate_size(capacity: u32) -> (r: usize)
    requires
        512 + 2 * 64 + capacity * 16 + 64 <= usize::MAX,
    ensures
        r == 512 + 2 * 64 + capacity * 16 + 64,
{
    EVENT_RESERVE + HEADER_ALIGN + HEADER_ALIGN + capacity as usize * FRAME_SIZE + 64
}

/// The first multiple of `align` that is not below `addr`.
pub fn align_up(addr: usize, align: usize) -> (r: usize)
    requires
        align > 0,
        addr + align - 1 <= usize::MAX,
    ensures
        r >= addr,
        r < addr + align,
        r % align == 0,
{
    let k = (addr + (align - 1)) / align;
    proof {
        let n = addr + align - 1;
        assert(n == align * (n / align as int) + n % (align as int) && 0 <= n % (align as int)
            < align) by (nonlinear_arith)
            requires
                align > 0,
                n >= 0,
        ;
        assert(k * align == align * k) by (nonlinear_arith);
        assert((k * align) % (align as int) == 0) by (nonlinear_arith)
            requires
                align > 0,
        ;
    }
    k * align
}

/// Whether an attached header can be used.
pub fn check_header(magic: u32, capacity: u32) -> (r: Result<(), ShmUartError>)
    ensures
        r is Ok <==> magic == 0x5355_4152 && capacity >= 2,
        r matches Err(e) ==> e is BadHeader,
{
    if magic != MAGIC || capacity < 2 {
        Err(ShmUartError::BadHeader)
    } else {
        Ok(())
    }
}

/// The slot after this one; the first one comes after the last.
pub open spec fn slot_after(slot: u32, capacity: u32) -> u32 {
    if slot + 1 == capacity {
        0
    } else {
        (slot + 1) as u32
    }
}

/// The slot after this one.
pub fn next_slot(slot: u32, capacity: u32) -> (r: u32)
    requires
        slot < capacity,
    ensures
        r == slot_after(slot, capacity),
{
    if slot + 1 == capacity {
        0
    } else {
        slot + 1
    }
}

/// What a producer does next with a ring whose indices are these.
#[derive(Clone, Copy, Debug, PartialEq, Eq, Structural)]
pub enum PushStep {
    /// The ring is full: move the tail here and count a drop, then look again.
    DropOldest { tail: u32 },
    /// Store the frame in this slot, then move the head.
    Store { slot: u32, head: u32 },
}

/// Decide the next step of a push.
pub fn push_step(capacity: u32, head: u32, tail: u32) -> (r: PushStep)
    requires
        head < capacity,
        tail < capacity,
    ensures
        r == if slot_after(head, capacity) == tail {
            PushStep::DropOldest { tail: slot_after(tail, capacity) }
        } else {
            PushStep::Store { slot: head, head: slot_after(head, capacity) }
        },
{
    let next = next_slot(head, capacity);
    if next == tail {
        PushStep::DropOldest { tail: next_slot(tail, capacity) }
    } else {
        PushStep::Store { slot: head, head: next }
    }
}

/// What a consumer does with a ring that holds a frame: take it from this
/// slot, then move the tail.
#[derive(Clone, Copy, Debug, PartialEq, Eq, Structural)]
pub struct PopStep {
    pub slot: u32,
    pub tail: u32,
}

/// Decide the step of a pop; there is none on an empty ring.
pub fn pop_step(capacity: u32, head: u32, tail: u32) -> (r: Option<PopStep>)
    requires
        head < capacity,
        tail < capacity,
    ensures
        r == if head == tail {
            None
        } else {
            Some(PopStep { slot: tail, tail: slot_after(tail, capacity) })
        },
{
    if head == tail {
        None
    } else {
        Some(PopStep { slot: tail, tail: next_slot(tail, capacity) })
    }
}

/// A ring of frames.
#[derive(Debug)]
pub struct UartRing {
    pub capacity: u32,
    pub head: u32,
    pub tail: u32,
    /// Frames dropped on overflow so far.
    pub drops: u64,
    pub slots: Vec<ShmUartFrame>,
}

/// The frames of a ring of this capacity after one more was pushed: where the
/// ring was full, the oldest one has gone.
pub open spec fn after_push(frames: Seq<ShmUartFrame>, capacity: u32, frame: ShmUartFrame) -> Seq<
    ShmUartFrame,
> {
    if frames.len() == capacity - 1 {
        frames.skip(1).push(frame)
    } else {
        frames.push(frame)
    }
}

impl UartRing {
    /// There are at least two slots and the indices are within them.
    pub open spec fn wf(self) -> bool {
        &&& self.capacity >= 2
        &&& self.slots@.len() == self.capacity
        &&& self.head < self.capacity
        &&& self.tail < self.capacity
    }

    /// Number of frames held.
    pub open spec fn count(self) -> nat {
        if self.head >= self.tail {
            (self.head - self.tail) as nat
        } else {
            (self.head + self.capacity - self.tail) as nat
        }
    }

    /// The slot of the `i`-th frame.
    pub open spec fn slot_of(self, i: int) -> int {
        if self.tail + i < self.capacity {
            self.tail + i
        } else {
            self.tail + i - self.capacity
        }
    }

    /// The frames held, oldest first.
    pub open spec fn frames(self) -> Seq<ShmUartFrame> {
        Seq::new(self.count(), |i: int| self.slots@[self.slot_of(i)])
    }

    /// An empty ring with at least two slots.
    pub fn new(capacity: u32) -> (r: UartRing)
        ensures
            r.wf(),
            r.capacity == if capacity < 2 {
                2u32
            } else {
                capacity
            },
            r.frames() == Seq::<ShmUartFrame>::empty(),
            r.drops == 0,
    {
        let capacity = ring_capacity(capacity);
        let mut slots: Vec<ShmUartFrame> = Vec::new();
        let mut i: u32 = 0;
        while i < capacity
            invariant
                i <= capacity,
                slots@.len() == i,
            decreases capacity - i,
        {
            slots.push(ShmUartFrame::default());
            i += 1;
        }
        let ring = UartRing { capacity, head: 0, tail: 0, drops: 0, slots };
        assert(ring.frames() == Seq::<ShmUartFrame>::empty());
        ring
    }

    /// Push one frame. Returns `true` if an older frame was dropped.
    pub fn push(&mut self, frame: ShmUartFrame) -> (r: bool)
        requires
            old(self).wf(),
        ensures
            final(self).wf(),
            final(self).capacity == old(self).capacity,
            final(self).frames() == after_push(old(self).frames(), old(self).capacity, frame),
            r == (old(self).frames().len() == old(self).capacity - 1),
            final(self).drops == if r {
                old(self).drops.wrapping_add(1)
            } else {
                old(self).drops
            },
    {
        let ghost before = self.frames();
        let mut dropped = false;
        let mut step = push_step(self.capacity, self.head, self.tail);
        if let PushStep::DropOldest { tail } = step {
            self.tail = tail;
            self.drops = self.drops.wrapping_add(1);
            dropped = true;
            step = push_step(self.capacity, self.head, self.tail);
            assert(self.frames() == before.skip(1));
        }
        let ghost kept = self.frames();
        if let PushStep::Store { slot, head } = step {
            self.slots.set(slot as usize, frame);
            self.head = head;
            assert(self.frames() == kept.push(frame));
        }
        dropped
    }

    /// Pop the oldest frame, if there is one.
    pub fn try_pop(&mut self) -> (r: Option<ShmUartFrame>)
        requires
            old(self).wf(),
        ensures
            final(self).wf(),
            final(self).capacity == old(self).capacity,
            final(self).drops == old(self).drops,
            match r {
                None => old(self).frames().len() == 0 && final(self).frames() == old(
                    self,
                ).frames(),
                Some(frame) => old(self).frames().len() > 0 && frame == old(self).frames()[0]
                    && final(self).frames() == old(self).frames().skip(1),
            },
    {
        let ghost before = self.frames();
        match pop_step(self.capacity, self.head, self.tail) {
            None => None,
            Some(step) => {
                let frame = self.slots[step.slot as usize];
                self.tail = step.tail;
                assert(self.frames() == before.skip(1));
                Some(frame)
            },
        }
    }

    /// Frames dropped on overflow so far.
    pub fn drops(&self) -> (r: u64)
        ensures
            r == self.drops,
    {
        self.drops
    }
}

/// The frames of a ring after a sequence of pushes.
pub open spec fn after_pushes(
    frames: Seq<ShmUartFrame>,
    capacity: u32,
    pushed: Seq<ShmUartFrame>,
) -> Seq<ShmUartFrame>
    decreases pushed.len(),
{
    if pushed.len() == 0 {
        frames
    } else {
        after_push(after_pushes(frames, capacity, pushed.drop_last()), capacity, pushed.last())
    }
}

/// A ring keeps the latest frames in the order in which they were pushed, as
/// many as fit.
pub proof fn ring_keeps_latest(
    frames: Seq<ShmUartFrame>,
    capacity: u32,
    pushed: Seq<ShmUartFrame>,
)
    requires
        capacity >= 2,
        frames.len() <= capacity - 1,
    ensures
        after_pushes(frames, capacity, pushed) == (frames + pushed).skip(
            if frames.len() + pushed.len() > capacity - 1 {
                frames.len() + pushed.len() - (capacity - 1)
            } else {
                0
            },
        ),
    decreases pushed.len(),
{
    let all = frames + pushed;
    if pushed.len() == 0 {
        assert(all.skip(0) == frames);
    } else {
        let before = pushed.drop_last();
        ring_keeps_latest(frames, capacity, before);
        let held = after_pushes(frames, capacity, before);
        assert(frames + before == all.drop_last());
        let cut = if frames.len() + pushed.len() > capacity - 1 {
            frames.len() + pushed.len() - (capacity - 1)
        } else {
            0
        };
        assert(after_push(held, capacity, pushed.last()) == all.skip(cut));
    }
}

/// Slots follow each other around the ring.
pub proof fn slots_go_around(slot: u32, capacity: u32)
    requires
        slot < capacity,
    ensures
        slot_after(slot, capacity) == (slot + 1) % (capacity as int),
{
    if slot + 1 < capacity {
        vstd::arithmetic::div_mod::lemma_small_mod((slot + 1) as nat, capacity as nat);
    } else {
        vstd::arithmetic::div_mod::lemma_mod_self_0(capacity as int);
    }
}

/// The frames of a ring lie in the slots from its tail on up to its head,
/// around the end.
pub proof fn frames_lie_from_tail_to_head(ring: UartRing, i: int)
    requires
        ring.wf(),
    ensures
        ring.frames().len() < ring.capacity,
        (ring.tail + ring.frames().len()) % (ring.capacity as int) == ring.head,
        0 <= i < ring.frames().len() ==> ring.frames()[i] == ring.slots@[(ring.tail + i) % (
        ring.capacity as int)],
{
    let c = ring.capacity as int;
    let n = ring.frames().len();
    if ring.tail + n < c {
        vstd::arithmetic::div_mod::lemma_small_mod((ring.tail + n) as nat, c as nat);
    } else {
        vstd::arithmetic::div_mod::lemma_mod_add_multiples_vanish(ring.tail + n - c, c);
        vstd::arithmetic::div_mod::lemma_small_mod((ring.tail + n - c) as nat, c as nat);
    }
    if 0 <= i < n {
        if ring.tail + i < c {
            vstd::arithmetic::div_mod::lemma_small_mod((ring.tail + i) as nat, c as nat);
        } else {
            vstd::arithmetic::div_mod::lemma_mod_add_multiples_vanish(ring.tail + i - c, c);
            vstd::arithmetic::div_mod::lemma_small_mod((ring.tail + i - c) as nat, c as nat);
        }
    }
}

/// A push appends its frame, and drops the oldest frame only from a ring with
/// one slot left.
pub proof fn push_drops_only_the_oldest(
    frames: Seq<ShmUartFrame>,
    capacity: u32,
    frame: ShmUartFrame,
)
    requires
        capacity >= 2,
        frames.len() < capacity,
    ensures
        frames.len() + 1 < capacity ==> after_push(frames, capacity, frame) == frames.push(frame),
        frames.len() + 1 == capacity ==> after_push(frames, capacity, frame) == frames.push(
            frame,
        ).skip(1),
{
    if frames.len() > 0 {
        assert(frames.skip(1).push(frame) =~= frames.push(frame).skip(1));
    }
}

} // verus!
