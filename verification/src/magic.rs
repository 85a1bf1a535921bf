//! Magic probe: a mapped logger device.

use vstd::prelude::*;

use crate::kernel::{out_of_range, BusError};
use crate::map::MAGIC_PROBE_SIZE;

verus! {

/// Destination for probe bytes.
pub trait ProbeSink {
    /// What was handed over so far, one entry per call.
    spec fn chunks(&self) -> Seq<Seq<u8>>;

    /// Take over these bytes.
    fn emit(&mut self, bytes: &[u8])
        ensures
            final(self).chunks() == old(self).chunks().push(bytes@),
    ;
}

/// The bytes of each entry.
pub open spec fn entries(log: Seq<Vec<u8>>) -> Seq<Seq<u8>> {
    log.map_values(|chunk: Vec<u8>| chunk@)
}

/// A log keeps what is handed to it, one entry per call.
impl ProbeSink for Vec<Vec<u8>> {
    open spec fn chunks(&self) -> Seq<Seq<u8>> {
        entries(self@)
    }

    fn emit(&mut self, bytes: &[u8]) {
        let mut chunk: Vec<u8> = Vec::new();
        let mut i: usize = 0;
        while i < bytes.len()
            invariant
                i <= bytes@.len(),
                chunk@ == bytes@.take(i as int),
            decreases bytes@.len() - i,
        {
            chunk.push(bytes[i]);
            i += 1;
            assert(chunk@ == bytes@.take(i as int));
        }
        assert(chunk@ == bytes@);
        let ghost before = self@;
        self.push(chunk);
        assert(entries(self@) == entries(before).push(bytes@));
    }
}

/// MMIO window: any store is forwarded to the sink; loads return 0.
#[derive(Debug)]
pub struct MagicProbe<S> {
    pub sink: S,
}

impl<S: ProbeSink> MagicProbe<S> {
    /// A probe that forwards to this sink.
    pub fn new(sink: S) -> (r: MagicProbe<S>)
        ensures
            r.sink == sink,
    {
        MagicProbe { sink }
    }

    /// Bytes of the window.
    pub fn len(&self) -> (r: u64)
        ensures
            r == 256,
    {
        MAGIC_PROBE_SIZE as u64
    }

    /// Loads within the window read as zero.
    pub fn read(&self, offset: u64, buf: &mut [u8]) -> (r: Result<(), BusError>)
        ensures
            final(buf)@.len() == old(buf)@.len(),
            if offset + old(buf)@.len() > 256 {
                &&& r matches Err(e) && e == out_of_range(offset, old(buf)@.len())
                &&& final(buf)@ == old(buf)@
            } else {
                &&& r is Ok
                &&& forall|i: int| 0 <= i < old(buf)@.len() ==> (#[trigger] final(buf)@[i]) == 0
            },
    {
        let n = buf.len();
        if offset.saturating_add(n as u64) > MAGIC_PROBE_SIZE as u64 {
            return Err(BusError::OutOfRange { addr: offset, offset, len: n });
        }
        let mut i: usize = 0;
        while i < n
            invariant
                i <= n,
                n == buf@.len(),
                n == old(buf)@.len(),
                forall|k: int| 0 <= k < i ==> (#[trigger] buf@[k]) == 0,
            decreases n - i,
        {
            buf[i] = 0;
            i += 1;
        }
        Ok(())
    }

    /// A store within the window goes to the sink, whole and in one call.
    pub fn write(&mut self, offset: u64, buf: &[u8]) -> (r: Result<(), BusError>)
        ensures
            if offset + buf@.len() > 256 {
                &&& r matches Err(e) && e == out_of_range(offset, buf@.len())
                &&& final(self).sink == old(self).sink
            } else {
                &&& r is Ok
                &&& final(self).sink.chunks() == old(self).sink.chunks().push(buf@)
            },
    {
        let n = buf.len();
        if offset.saturating_add(n as u64) > MAGIC_PROBE_SIZE as u64 {
            return Err(BusError::OutOfRange { addr: offset, offset, len: n });
        }
        self.sink.emit(buf);
        Ok(())
    }
}

} // verus!
