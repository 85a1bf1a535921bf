//! Host-side UART capture (not a guest peripheral).

use vstd::prelude::*;

use crate::cluster::ipc::wire::UartFrame;

verus! {

/// Buffer filled by board UART TX wiring, not by a guest peripheral.
#[derive(Debug)]
pub struct ByteCapture {
    pub frames: Vec<UartFrame>,
}

impl ByteCapture {
    /// An empty buffer.
    pub fn new() -> (r: ByteCapture)
        ensures
            r.frames@ == Seq::<UartFrame>::empty(),
    {
        ByteCapture { frames: Vec::new() }
    }

    /// The captured frames, oldest first.
    pub fn frames(&self) -> (r: &[UartFrame])
        ensures
            r@ == self.frames@,
    {
        self.frames.as_slice()
    }

    /// The low byte of each captured frame.
    pub open spec fn byte_seq(self) -> Seq<u8> {
        self.frames@.map_values(|f: UartFrame| (f.data & 0xFF) as u8)
    }

    /// The low byte of each captured frame.
    pub fn bytes(&self) -> (r: Vec<u8>)
        ensures
            r@ == self.byte_seq(),
    {
        let mut out: Vec<u8> = Vec::new();
        let mut i: usize = 0;
        while i < self.frames.len()
            invariant
                i <= self.frames@.len(),
                out@ == self.byte_seq().take(i as int),
            decreases self.frames@.len() - i,
        {
            out.push((self.frames[i].data & 0xFF) as u8);
            i += 1;
            assert(out@ == self.byte_seq().take(i as int));
        }
        assert(out@ == self.byte_seq());
        out
    }

    /// Append a frame.
    pub fn push(&mut self, frame: UartFrame)
        ensures
            final(self).frames@ == old(self).frames@.push(frame),
    {
        self.frames.push(frame);
    }

    /// Forget every frame.
    pub fn clear(&mut self)
        ensures
            final(self).frames@ == Seq::<UartFrame>::empty(),
    {
        self.frames = Vec::new();
    }

    /// Take in the line that has changed among these, if there is one.
    pub fn on_input(&mut self, values: &[UartFrame], changed: usize)
        ensures
            final(self).frames@ == if changed < values@.len() {
                old(self).frames@.push(values@[changed as int])
            } else {
                old(self).frames@
            },
    {
        if changed < values.len() {
            self.push(values[changed]);
        }
    }
}

/// Each captured frame gives one byte, its data without what lies above eight
/// bits.
pub proof fn captured_bytes_are_low_bytes(capture: ByteCapture, i: int)
    requires
        0 <= i < capture.frames@.len(),
    ensures
        capture.byte_seq().len() == capture.frames@.len(),
        capture.byte_seq()[i] == capture.frames@[i].data % 256,
{
    let data = capture.frames@[i].data;
    assert((data & 0xFF) as u8 == data % 256) by (bit_vector);
}

} // verus!
