//! Receive path: frames go from the shared ring into a process-local mailbox,
//! which the simulation drains at quantum entry.

use crossbeam_queue::ArrayQueue;
use vstd::prelude::*;

use crate::cluster::shm_uart::ShmUartFrame;

verus! {

/// `crossbeam_queue::ArrayQueue`, a bounded queue.
#[verifier::external_type_specification]
#[verifier::external_body]
#[verifier::reject_recursive_types(T)]
pub struct ExArrayQueue<T>(crossbeam_queue::ArrayQueue<T>);

/// The frames that an `ArrayQueue` holds, oldest first.
pub uninterp spec fn queue_frames(queue: ArrayQueue<ShmUartFrame>) -> Seq<ShmUartFrame>;

/// The number of elements that an `ArrayQueue` was made for.
pub uninterp spec fn queue_capacity(queue: ArrayQueue<ShmUartFrame>) -> nat;

/// `ArrayQueue::new`: an empty queue for this many elements. It panics on zero
/// and where the slots (24 bytes each) do not fit into an allocation.
#[verifier::external_body]
fn queue_new(capacity: usize) -> (r: ArrayQueue<ShmUartFrame>)
    requires
        0 < capacity,
        capacity * 24 <= isize::MAX,
    ensures
        queue_frames(r) == Seq::<ShmUartFrame>::empty(),
        queue_capacity(r) == capacity,
{
    ArrayQueue::new(capacity)
}

/// `ArrayQueue::push`: append the frame, or hand it back where the queue is full.
#[verifier::external_body]
fn queue_push(queue: &mut ArrayQueue<ShmUartFrame>, frame: ShmUartFrame) -> (r: Result<
    (),
    ShmUartFrame,
>)
    ensures
        queue_capacity(*final(queue)) == queue_capacity(*old(queue)),
        r is Ok <==> queue_frames(*old(queue)).len() < queue_capacity(*old(queue)),
        r is Ok ==> queue_frames(*final(queue)) == queue_frames(*old(queue)).push(frame),
        r matches Err(back) ==> back == frame && queue_frames(*final(queue)) == queue_frames(
            *old(queue),
        ),
{
    queue.push(frame)
}

/// `ArrayQueue::force_push`: append the frame; where the queue is full, the
/// oldest element makes room and is handed back.
#[verifier::external_body]
fn queue_force_push(queue: &mut ArrayQueue<ShmUartFrame>, frame: ShmUartFrame) -> (r: Option<
    ShmUartFrame,
>)
    ensures
        queue_capacity(*final(queue)) == queue_capacity(*old(queue)),
        r is None <==> queue_frames(*old(queue)).len() < queue_capacity(*old(queue)),
        r is None ==> queue_frames(*final(queue)) == queue_frames(*old(queue)).push(frame),
        r matches Some(oldest) ==> oldest == queue_frames(*old(queue))[0] && queue_frames(
            *final(queue),
        ) == queue_frames(*old(queue)).skip(1).push(frame),
{
    queue.force_push(frame)
}

/// `ArrayQueue::pop`: take the oldest element, if there is one.
#[verifier::external_body]
fn queue_pop(queue: &mut ArrayQueue<ShmUartFrame>) -> (r: Option<ShmUartFrame>)
    ensures
        queue_capacity(*final(queue)) == queue_capacity(*old(queue)),
        r is None <==> queue_frames(*old(queue)).len() == 0,
        r is None ==> queue_frames(*final(queue)) == queue_frames(*old(queue)),
        r matches Some(frame) ==> frame == queue_frames(*old(queue))[0] && queue_frames(
            *final(queue),
        ) == queue_frames(*old(queue)).skip(1),
{
    queue.pop()
}

/// Process-local UART receive mailbox.
#[derive(Debug)]
pub struct UartInbox {
    queue: ArrayQueue<ShmUartFrame>,
    overflow_warns: bool,
}

/// The frames of a mailbox for `capacity` frames after one more came in: where
/// it was full, the oldest one has gone.
pub open spec fn after_arrival(
    frames: Seq<ShmUartFrame>,
    capacity: nat,
    frame: ShmUartFrame,
) -> Seq<ShmUartFrame> {
    if frames.len() < capacity {
        frames.push(frame)
    } else {
        frames.skip(1).push(frame)
    }
}

/// The lesser of two counts.
pub open spec fn at_most(limit: nat, len: nat) -> nat {
    if limit < len {
        limit
    } else {
        len
    }
}

impl UartInbox {
    /// The frames held, oldest first.
    pub closed spec fn frames(self) -> Seq<ShmUartFrame> {
        queue_frames(self.queue)
    }

    /// The number of frames that fit.
    pub closed spec fn capacity(self) -> nat {
        queue_capacity(self.queue)
    }

    /// Whether a frame was lost since the warning was last taken.
    pub closed spec fn warned(self) -> bool {
        self.overflow_warns
    }

    /// The mailbox holds no more than fits, and at least one frame fits.
    pub open spec fn wf(self) -> bool {
        self.frames().len() <= self.capacity() && self.capacity() >= 1
    }

    /// An empty mailbox for this many frames, but at least one.
    pub fn new(capacity: usize) -> (r: UartInbox)
        requires
            capacity * 24 <= isize::MAX,
        ensures
            r.wf(),
            r.frames() == Seq::<ShmUartFrame>::empty(),
            r.capacity() == if capacity < 1 {
                1nat
            } else {
                capacity as nat
            },
            !r.warned(),
    {
        let capacity = if capacity < 1 {
            1
        } else {
            capacity
        };
        UartInbox { queue: queue_new(capacity), overflow_warns: false }
    }

    /// Push a received frame. Drops the oldest if full and sets a warning latch.
    pub fn push(&mut self, frame: ShmUartFrame)
        requires
            old(self).wf(),
        ensures
            final(self).wf(),
            final(self).capacity() == old(self).capacity(),
            final(self).frames() == after_arrival(old(self).frames(), old(self).capacity(), frame),
            final(self).warned() == (old(self).warned() || old(self).frames().len() == old(
                self,
            ).capacity()),
    {
        if queue_push(&mut self.queue, frame).is_err() {
            let _ = queue_force_push(&mut self.queue, frame);
            self.overflow_warns = true;
        }
    }

    /// Drain up to `limit` frames for the simulation.
    pub fn drain(&mut self, limit: usize) -> (r: Vec<ShmUartFrame>)
        requires
            old(self).wf(),
        ensures
            final(self).wf(),
            final(self).capacity() == old(self).capacity(),
            final(self).warned() == old(self).warned(),
            r@ == old(self).frames().take(
                at_most(limit as nat, old(self).frames().len()) as int,
            ),
            final(self).frames() == old(self).frames().skip(
                at_most(limit as nat, old(self).frames().len()) as int,
            ),
    {
        let ghost all = self.frames();
        let ghost capacity = self.capacity();
        let ghost warned = self.warned();
        let mut out: Vec<ShmUartFrame> = Vec::new();
        let mut n: usize = 0;
        assert(all.skip(0) == all);
        while n < limit
            invariant
                n <= limit,
                n <= all.len(),
                self.capacity() == capacity,
                self.warned() == warned,
                self.wf(),
                all == old(self).frames(),
                capacity == old(self).capacity(),
                warned == old(self).warned(),
                all.len() <= capacity,
                out@ == all.take(n as int),
                self.frames() == all.skip(n as int),
            decreases limit - n,
        {
            match queue_pop(&mut self.queue) {
                Some(frame) => {
                    out.push(frame);
                    n += 1;
                    assert(out@ == all.take(n as int));
                    assert(self.frames() == all.skip(n as int));
                },
                None => {
                    return out;
                },
            }
        }
        out
    }

    /// Take and clear the overflow warning latch.
    pub fn take_overflow_warning(&mut self) -> (r: bool)
        requires
            old(self).wf(),
        ensures
            final(self).wf(),
            final(self).capacity() == old(self).capacity(),
            final(self).frames() == old(self).frames(),
            r == old(self).warned(),
            !final(self).warned(),
    {
        let warned = self.overflow_warns;
        self.overflow_warns = false;
        warned
    }

    /// Take in a frame that was popped off the ring while its drop counter
    /// stood at `drops`. The counter is cumulative: the warning is latched only
    /// when it has grown past `seen_drops`.
    pub fn receive(&mut self, frame: ShmUartFrame, drops: u64, seen_drops: &mut u64)
        requires
            old(self).wf(),
        ensures
            final(self).wf(),
            final(self).capacity() == old(self).capacity(),
            final(self).frames() == after_arrival(old(self).frames(), old(self).capacity(), frame),
            final(self).warned() == (old(self).warned() || drops > *old(seen_drops) || old(
                self,
            ).frames().len() == old(self).capacity()),
            *final(seen_drops) == if drops > *old(seen_drops) {
                drops
            } else {
                *old(seen_drops)
            },
    {
        if drops > *seen_drops {
            self.overflow_warns = true;
            *seen_drops = drops;
        }
        self.push(frame);
    }
}

/// A mailbox never holds more than fits, and the latest frame is its last.
pub proof fn arrival_keeps_latest(frames: Seq<ShmUartFrame>, capacity: nat, frame: ShmUartFrame)
    requires
        capacity >= 1,
        frames.len() <= capacity,
    ensures
        after_arrival(frames, capacity, frame).len() <= capacity,
        after_arrival(frames, capacity, frame).last() == frame,
{
}

/// Draining in two steps gives the same frames in the same order as at once.
pub proof fn drains_compose(frames: Seq<ShmUartFrame>, first: nat, second: nat)
    ensures
        frames.take(at_most(first, frames.len()) as int) + frames.skip(
            at_most(first, frames.len()) as int,
        ).take(
            at_most(second, frames.skip(at_most(first, frames.len()) as int).len()) as int,
        ) == frames.take(at_most(first + second, frames.len()) as int),
{
}

/// An arrival drops the oldest frame where the mailbox is full and nothing
/// else: what is held afterwards are the last frames of all that came, as many
/// as fit, in order.
pub proof fn arrival_drops_only_the_oldest(
    frames: Seq<ShmUartFrame>,
    capacity: nat,
    frame: ShmUartFrame,
)
    requires
        capacity >= 1,
        frames.len() <= capacity,
    ensures
        ({
            let all = frames.push(frame);
            let after = after_arrival(frames, capacity, frame);
            &&& frames.len() < capacity ==> after == all
            &&& frames.len() == capacity ==> after == all.skip(1)
        }),
{
    if frames.len() > 0 {
        assert(frames.skip(1).push(frame) =~= frames.push(frame).skip(1));
    }
}

/// A drain takes everything, or as much as its limit allows.
pub proof fn drain_takes_what_it_may(limit: nat, len: nat)
    ensures
        at_most(limit, len) <= limit,
        at_most(limit, len) <= len,
        at_most(limit, len) == limit || at_most(limit, len) == len,
{
}

} // verus!
