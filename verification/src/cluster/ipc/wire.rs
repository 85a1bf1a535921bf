//! Wire payload of a UART edge.

use vstd::prelude::*;

verus! {

/// UART frame (host endian).
#[derive(Clone, Copy, Debug, PartialEq, Eq, Structural)]
pub struct UartFrame {
    pub data: u16,
    pub data_bits: u8,
    pub stop_bits: u8,
    pub parity: u8,
    pub inverted: u8,
    pub _pad: u16,
    pub bit_time_ns: u64,
}

impl UartFrame {
    /// The frame whose fields are all zero.
    pub open spec fn zero() -> UartFrame {
        UartFrame {
            data: 0,
            data_bits: 0,
            stop_bits: 0,
            parity: 0,
            inverted: 0,
            _pad: 0,
            bit_time_ns: 0,
        }
    }
}

impl Default for UartFrame {
    fn default() -> (r: UartFrame)
        ensures
            r == UartFrame::zero(),
    {
        UartFrame {
            data: 0,
            data_bits: 0,
            stop_bits: 0,
            parity: 0,
            inverted: 0,
            _pad: 0,
            bit_time_ns: 0,
        }
    }
}

/// The zero frame carries nothing.
pub proof fn zero_frame_is_zero()
    ensures
        UartFrame::zero().data == 0,
        UartFrame::zero().data_bits == 0,
        UartFrame::zero().stop_bits == 0,
        UartFrame::zero().parity == 0,
        UartFrame::zero().inverted == 0,
        UartFrame::zero()._pad == 0,
        UartFrame::zero().bit_time_ns == 0,
{
}

} // verus!
