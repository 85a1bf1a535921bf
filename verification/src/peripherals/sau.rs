//! Serial Array Unit 0: register file and UART transmission.
//!
//! Bus addresses are applied by the SoC map, not this module.

use vstd::prelude::*;

use crate::kernel::{out_of_range, BusError};
use crate::peripherals::clock::{cycle_time_is_whole_nanoseconds, cycles_time, cycles_to_tick};

verus! {

/// Channels of the unit.
pub const CHANNELS: usize = 4;

/// Transmission enabled, in SCR.
pub const SCR_TXE: u16 = 0x8000;

/// Transfer in progress, in SSR.
pub const SSR_TSF: u16 = 0x0040;

/// Selects the second operation clock, in SMR.
pub const SMR_CKS: u16 = 0x8000;

/// Bytes of the control window.
pub const CTRL_SIZE: u64 = 0x40;

/// Bytes of a data window.
pub const SDR_SIZE: u64 = 4;

/// Serial Array Unit 0.
#[derive(Clone, Debug)]
pub struct SauUnit {
    pub sdr: [u16; 4],
    pub smr: [u16; 4],
    pub scr: [u16; 4],
    pub baud_div: [u16; 4],
    pub ck_divisor: [u8; 2],
    pub se: u16,
    pub so: u16,
    pub soe: u16,
    pub sol: u16,
    /// When the frame of each transmitting channel has gone out.
    pub tx_due: [Option<u64>; 4],
}

/// State of the unit.
#[verifier::ext_equal]
pub struct SauModel {
    pub sdr: Seq<u16>,
    pub smr: Seq<u16>,
    pub scr: Seq<u16>,
    pub baud_div: Seq<u16>,
    pub ck_divisor: Seq<u8>,
    pub se: u16,
    pub so: u16,
    pub soe: u16,
    pub sol: u16,
    pub tx_due: Seq<Option<u64>>,
}

/// Whether bit `ch` of a word is set.
pub open spec fn channel_bit(word: u16, ch: int) -> bool {
    word & (1u16 << ch) != 0
}

/// `a + b`, or the latest time where that does not fit.
pub open spec fn time_sum(a: u64, b: u64) -> u64 {
    if a + b > u64::MAX {
        u64::MAX
    } else {
        (a + b) as u64
    }
}

impl SauModel {
    /// Whether a frame is on its way out.
    pub open spec fn busy(self, ch: int) -> bool {
        self.tx_due[ch] is Some
    }

    /// Whether a write to the data register sends a frame: the channel is
    /// enabled with its output and for transmission, and is idle.
    pub open spec fn can_start(self, ch: int) -> bool {
        &&& channel_bit(self.se, ch)
        &&& channel_bit(self.soe, ch)
        &&& self.scr[ch] & SCR_TXE != 0
        &&& !self.busy(ch)
    }

    /// Exponent of the prescaler that a channel has selected.
    pub open spec fn prescaler(self, ch: int) -> u8 {
        if self.smr[ch] & SMR_CKS != 0 {
            self.ck_divisor[1] & 0x0F
        } else {
            self.ck_divisor[0] & 0x0F
        }
    }

    /// Cycles of fCLK that a frame takes: ten bits of two operation clocks,
    /// each of them prescaled and divided by the baud divider plus one.
    pub open spec fn frame_cycles(self, ch: int) -> int {
        (1u64 << self.prescaler(ch)) * (self.baud_div[ch] + 1) * 2 * 10
    }

    /// Time that a frame takes; none while fCLK is stopped.
    pub open spec fn frame_time(self, ch: int, f_clk: u32) -> Option<u64> {
        cycles_time(self.frame_cycles(ch) as u64, f_clk)
    }

    /// State after a transmission was started where that is possible.
    pub open spec fn started(self, ch: int, now: u64, f_clk: u32) -> SauModel {
        match self.frame_time(ch, f_clk) {
            Some(period) => if self.can_start(ch) {
                SauModel { tx_due: self.tx_due.update(ch, Some(time_sum(now, period))), ..self }
            } else {
                self
            },
            None => self,
        }
    }

    /// What a read of a data register gives: with the baud divider while the
    /// channel is stopped, the data alone while it is enabled.
    pub open spec fn data_at(self, ch: int) -> u16 {
        if !channel_bit(self.se, ch) {
            self.sdr[ch] | (self.baud_div[ch] << 9)
        } else {
            self.sdr[ch] & 0x1FF
        }
    }

    /// State after a write to a data register, before a frame is sent: a
    /// stopped channel takes the baud divider too.
    pub open spec fn with_data(self, ch: int, value: u16) -> SauModel {
        SauModel {
            baud_div: if !channel_bit(self.se, ch) {
                self.baud_div.update(ch, value >> 9)
            } else {
                self.baud_div
            },
            sdr: self.sdr.update(ch, value & 0x1FF),
            ..self
        }
    }

    /// What a read of a control register gives.
    pub open spec fn control_at(self, offset: u64) -> u16 {
        if offset % 2 != 0 {
            0
        } else if offset < 0x08 {
            if self.busy((offset / 2) as int) {
                SSR_TSF
            } else {
                0
            }
        } else if 0x10 <= offset < 0x18 {
            self.smr[(offset - 0x10) / 2]
        } else if 0x18 <= offset < 0x20 {
            self.scr[(offset - 0x18) / 2]
        } else if offset == 0x20 {
            self.se
        } else if offset == 0x26 {
            (self.ck_divisor[0] & 0x0F) as u16 | ((self.ck_divisor[1] & 0x0F) as u16) << 4
        } else if offset == 0x28 {
            self.so
        } else if offset == 0x2A {
            self.soe
        } else if offset == 0x34 {
            self.sol
        } else {
            0
        }
    }

    /// State after a write to a control register. SS enables channels; ST
    /// stops them and drops their frames.
    pub open spec fn after_control(self, offset: u64, value: u16) -> SauModel {
        if offset % 2 != 0 {
            self
        } else if 0x10 <= offset < 0x18 {
            SauModel { smr: self.smr.update((offset - 0x10) / 2, value), ..self }
        } else if 0x18 <= offset < 0x20 {
            SauModel { scr: self.scr.update((offset - 0x18) / 2, value), ..self }
        } else if offset == 0x22 {
            SauModel { se: self.se | (value & 0x000F), ..self }
        } else if offset == 0x24 {
            SauModel {
                se: self.se & !(value & 0x000F),
                tx_due: Seq::new(
                    4,
                    |ch: int|
                        if channel_bit(value, ch) {
                            None
                        } else {
                            self.tx_due[ch]
                        },
                ),
                ..self
            }
        } else if offset == 0x26 {
            SauModel {
                ck_divisor: seq![(value & 0x0F) as u8, ((value >> 4) & 0x0F) as u8],
                ..self
            }
        } else if offset == 0x28 {
            SauModel { so: value, ..self }
        } else if offset == 0x2A {
            SauModel { soe: value & 0x000F, ..self }
        } else if offset == 0x34 {
            SauModel { sol: value & 0x0005, ..self }
        } else {
            self
        }
    }
}

impl SauUnit {
    /// The state.
    pub open spec fn model(self) -> SauModel {
        SauModel {
            sdr: self.sdr@,
            smr: self.smr@,
            scr: self.scr@,
            baud_div: self.baud_div@,
            ck_divisor: self.ck_divisor@,
            se: self.se,
            so: self.so,
            soe: self.soe,
            sol: self.sol,
            tx_due: self.tx_due@,
        }
    }

    /// Every register clear but for these mode and communication settings,
    /// and nothing being sent.
    pub open spec fn is_clear(self, smr: u16, scr: u16) -> bool {
        &&& forall|ch: int|
            0 <= ch < 4 ==> (#[trigger] self.sdr@[ch]) == 0 && self.smr@[ch] == smr && self.scr@[ch]
                == scr && self.baud_div@[ch] == 0 && self.tx_due@[ch] is None
        &&& self.ck_divisor@[0] == 0
        &&& self.ck_divisor@[1] == 0
        &&& self.se == 0
        &&& self.so == 0
        &&& self.soe == 0
        &&& self.sol == 0
    }

    /// Unit before its first reset.
    pub fn new() -> (r: SauUnit)
        ensures
            r.is_clear(0, 0),
    {
        SauUnit {
            sdr: [0;4],
            smr: [0;4],
            scr: [0;4],
            baud_div: [0;4],
            ck_divisor: [0;2],
            se: 0,
            so: 0,
            soe: 0,
            sol: 0,
            tx_due: [None;4],
        }
    }

    /// Apply an MCU reset; frames on their way are dropped.
    pub fn reset(&mut self)
        ensures
            final(self).is_clear(0x0020, 0x0004),
    {
        self.tx_due = [None;4];
        self.sdr = [0;4];
        self.smr = [0x0020;4];
        self.scr = [0x0004;4];
        self.baud_div = [0;4];
        self.ck_divisor = [0;2];
        self.se = 0;
        self.so = 0;
        self.soe = 0;
        self.sol = 0;
    }

    fn can_start_tx(&self, channel: usize) -> (r: bool)
        requires
            channel < 4,
        ensures
            r == self.model().can_start(channel as int),
    {
        self.se & (1u16 << channel) != 0 && self.soe & (1u16 << channel) != 0 && self.scr[channel]
            & SCR_TXE != 0 && self.tx_due[channel].is_none()
    }

    /// Time that a frame of this channel takes.
    pub fn frame_time(&self, channel: usize, f_clk: u32) -> (r: Option<u64>)
        requires
            channel < 4,
        ensures
            r == self.model().frame_time(channel as int, f_clk),
    {
        let divisor: u8 = if self.smr[channel] & SMR_CKS != 0 {
            self.ck_divisor[1]
        } else {
            self.ck_divisor[0]
        };
        let prs: u8 = divisor & 0x0F;
        assert(prs <= 15 && 1u64 << prs <= 0x8000) by (bit_vector)
            requires
                prs == divisor & 0x0F,
        ;
        let clocks: u64 = 1u64 << prs;
        let div: u64 = self.baud_div[channel] as u64 + 1;
        assert(clocks * div <= 0x8000 * 0x10000) by (nonlinear_arith)
            requires
                clocks <= 0x8000,
                div <= 0x10000,
        ;
        cycles_to_tick(clocks * div * 2 * 10, f_clk)
    }

    fn start_tx(&mut self, channel: usize, now: u64, f_clk: u32)
        requires
            channel < 4,
        ensures
            final(self).model() == old(self).model().started(channel as int, now, f_clk),
    {
        if !self.can_start_tx(channel) {
            return;
        }
        if let Some(period) = self.frame_time(channel, f_clk) {
            self.tx_due[channel] = Some(now.saturating_add(period));
            assert(self.model() =~= old(self).model().started(channel as int, now, f_clk));
        }
    }

    /// Read a data register.
    pub fn read_sdr(&self, channel: usize) -> (r: u16)
        requires
            channel < 4,
        ensures
            r == self.model().data_at(channel as int),
    {
        if self.se & (1u16 << channel) == 0 {
            self.sdr[channel] | (self.baud_div[channel] << 9)
        } else {
            self.sdr[channel] & 0x1FF
        }
    }

    /// Write a data register, which sends a frame where the channel can.
    pub fn write_sdr(&mut self, channel: usize, value: u16, now: u64, f_clk: u32)
        requires
            channel < 4,
        ensures
            final(self).model() == old(self).model().with_data(channel as int, value).started(
                channel as int,
                now,
                f_clk,
            ),
    {
        if self.se & (1u16 << channel) == 0 {
            self.baud_div[channel] = value >> 9;
        }
        self.sdr[channel] = value & 0x1FF;
        assert(self.model() =~= old(self).model().with_data(channel as int, value));
        self.start_tx(channel, now, f_clk);
    }

    /// Read a control register.
    pub fn read_ctrl(&self, offset: u64) -> (r: u16)
        ensures
            r == self.model().control_at(offset),
    {
        if offset % 2 != 0 {
            return 0;
        }
        if offset < 0x08 {
            let ch: usize = (offset / 2) as usize;
            if self.tx_due[ch].is_some() {
                SSR_TSF
            } else {
                0
            }
        } else if 0x10 <= offset && offset < 0x18 {
            self.smr[((offset - 0x10) / 2) as usize]
        } else if 0x18 <= offset && offset < 0x20 {
            self.scr[((offset - 0x18) / 2) as usize]
        } else {
            match offset {
                0x20 => self.se,
                0x26 => (self.ck_divisor[0] & 0x0F) as u16 | (((self.ck_divisor[1] & 0x0F) as u16)
                    << 4),
                0x28 => self.so,
                0x2A => self.soe,
                0x34 => self.sol,
                _ => 0,
            }
        }
    }

    /// Write a control register.
    pub fn write_ctrl(&mut self, offset: u64, value: u16)
        ensures
            final(self).model() == old(self).model().after_control(offset, value),
    {
        if offset % 2 != 0 {
            return;
        }
        if 0x10 <= offset && offset < 0x18 {
            self.smr[((offset - 0x10) / 2) as usize] = value;
        } else if 0x18 <= offset && offset < 0x20 {
            self.scr[((offset - 0x18) / 2) as usize] = value;
        } else {
            match offset {
                0x22 => {
                    self.se = self.se | (value & 0x000F);
                },
                0x24 => {
                    self.se = self.se & !(value & 0x000F);
                    self.cancel_tx(value);
                },
                0x26 => {
                    self.ck_divisor[0] = (value & 0x0F) as u8;
                    self.ck_divisor[1] = ((value >> 4) & 0x0F) as u8;
                },
                0x28 => {
                    self.so = value;
                },
                0x2A => {
                    self.soe = value & 0x000F;
                },
                0x34 => {
                    self.sol = value & 0x0005;
                },
                _ => {},
            }
        }
        assert(self.model() =~= old(self).model().after_control(offset, value));
    }

    /// Drop the frames of the channels whose bits are set.
    fn cancel_tx(&mut self, channels: u16)
        ensures
            final(self).model() == (SauModel {
                tx_due: Seq::new(
                    4,
                    |ch: int|
                        if channel_bit(channels, ch) {
                            None
                        } else {
                            old(self).tx_due@[ch]
                        },
                ),
                ..old(self).model()
            }),
    {
        let ghost before = self.model();
        let mut ch: usize = 0;
        while ch < 4
            invariant
                ch <= 4,
                before == old(self).model(),
                self.model() == (SauModel { tx_due: self.tx_due@, ..before }),
                forall|k: int|
                    0 <= k < 4 ==> (#[trigger] self.tx_due@[k]) == if k < ch && channel_bit(
                        channels,
                        k,
                    ) {
                        None
                    } else {
                        before.tx_due[k]
                    },
            decreases 4 - ch,
        {
            if channels & (1u16 << ch) != 0 {
                self.tx_due[ch] = None;
            }
            ch += 1;
        }
        assert(self.model() =~= (SauModel {
            tx_due: Seq::new(
                4,
                |ch: int|
                    if channel_bit(channels, ch) {
                        None
                    } else {
                        old(self).tx_due@[ch]
                    },
            ),
            ..old(self).model()
        }));
    }

    /// The frame of a channel has gone out: the channel is idle again, and the
    /// byte that was sent is handed over.
    pub fn tx_done(&mut self, channel: usize) -> (r: u8)
        requires
            channel < 4,
        ensures
            r == (old(self).sdr@[channel as int] & 0xFF) as u8,
            final(self).model() == (SauModel {
                tx_due: old(self).tx_due@.update(channel as int, None),
                ..old(self).model()
            }),
    {
        self.tx_due[channel] = None;
        assert(self.model() =~= (SauModel {
            tx_due: old(self).tx_due@.update(channel as int, None),
            ..old(self).model()
        }));
        (self.sdr[channel] & 0xFF) as u8
    }
}

/// Whether an access can read word registers: two bytes at an even offset, or
/// one byte, within the window.
pub open spec fn readable(offset: u64, len: nat, size: u64) -> bool {
    ||| len == 2 && offset % 2 == 0 && offset + 2 <= size
    ||| len == 1 && offset < size
}

/// Whether an access can write a word register: two bytes at an even offset
/// within the window. Single bytes are refused.
pub open spec fn writable(offset: u64, len: nat, size: u64) -> bool {
    len == 2 && offset % 2 == 0 && offset + 2 <= size
}

/// The buffer holds what such an access reads of the word at the even offset.
pub open spec fn holds_word(buf: Seq<u8>, offset: u64, word: u16) -> bool {
    if buf.len() == 2 {
        buf[0] == word % 256 && buf[1] == word / 256
    } else if offset % 2 == 0 {
        buf[0] == word % 256
    } else {
        buf[0] == word / 256
    }
}

fn is_readable(offset: u64, len: usize, size: u64) -> (r: bool)
    ensures
        r == readable(offset, len as nat, size),
{
    (len == 2 && offset % 2 == 0 && size >= 2 && offset <= size - 2) || (len == 1 && offset < size)
}

fn is_writable(offset: u64, len: usize, size: u64) -> (r: bool)
    ensures
        r == writable(offset, len as nat, size),
{
    len == 2 && offset % 2 == 0 && size >= 2 && offset <= size - 2
}

fn fill_word(buf: &mut [u8], offset: u64, word: u16)
    requires
        old(buf)@.len() == 1 || old(buf)@.len() == 2,
    ensures
        final(buf)@.len() == old(buf)@.len(),
        holds_word(final(buf)@, offset, word),
{
    if buf.len() == 2 {
        buf[0] = (word % 256) as u8;
        buf[1] = (word / 256) as u8;
    } else if offset % 2 == 0 {
        buf[0] = (word % 256) as u8;
    } else {
        buf[0] = (word / 256) as u8;
    }
}

/// The mapped data registers of two channels.
#[derive(Clone, Copy, Debug, PartialEq, Eq, Structural)]
pub struct SauSdrMmio {
    pub channel_base: usize,
}

impl SauSdrMmio {
    /// The channel of a register of the window.
    pub open spec fn channel(self, offset: u64) -> int {
        self.channel_base + offset / 2
    }

    /// The window of this channel and the next.
    pub fn new(channel_base: usize) -> (r: SauSdrMmio)
        ensures
            r == (SauSdrMmio { channel_base }),
    {
        SauSdrMmio { channel_base }
    }

    /// Bytes of the window.
    pub fn len(&self) -> (r: u64)
        ensures
            r == 4,
    {
        SDR_SIZE
    }

    /// A read gives the data register, or one byte of it. Other accesses are refused.
    pub open spec fn reads(
        self,
        sau: SauUnit,
        offset: u64,
        before: Seq<u8>,
        after: Seq<u8>,
        r: Result<(), BusError>,
    ) -> bool {
        &&& after.len() == before.len()
        &&& if readable(offset, before.len(), SDR_SIZE) {
            &&& r is Ok
            &&& holds_word(after, offset, sau.model().data_at(self.channel(offset)))
        } else {
            &&& r matches Err(e) && e == out_of_range(offset, before.len())
            &&& after == before
        }
    }

    /// A write stores the data register and sends a frame where the channel
    /// can. Other accesses are refused.
    pub open spec fn writes(
        self,
        before: SauUnit,
        after: SauUnit,
        offset: u64,
        bytes: Seq<u8>,
        now: u64,
        f_clk: u32,
        r: Result<(), BusError>,
    ) -> bool {
        if writable(offset, bytes.len(), SDR_SIZE) {
            let ch = self.channel(offset);
            &&& r is Ok
            &&& after.model() == before.model().with_data(
                ch,
                (bytes[0] + 256 * bytes[1]) as u16,
            ).started(ch, now, f_clk)
        } else {
            &&& r matches Err(e) && e == out_of_range(offset, bytes.len())
            &&& after == before
        }
    }

    /// Read a data register or one of its bytes.
    pub fn read(&self, sau: &SauUnit, offset: u64, buf: &mut [u8]) -> (r: Result<(), BusError>)
        requires
            readable(offset, old(buf)@.len(), SDR_SIZE) ==> self.channel(offset) < 4,
        ensures
            self.reads(*sau, offset, old(buf)@, final(buf)@, r),
    {
        let n = buf.len();
        if !is_readable(offset, n, SDR_SIZE) {
            return Err(BusError::OutOfRange { addr: offset, offset, len: n });
        }
        let word = sau.read_sdr(self.channel_base + (offset / 2) as usize);
        fill_word(buf, offset, word);
        Ok(())
    }

    /// Write a data register.
    pub fn write(&self, sau: &mut SauUnit, offset: u64, buf: &[u8], now: u64, f_clk: u32) -> (r:
        Result<(), BusError>)
        requires
            writable(offset, buf@.len(), SDR_SIZE) ==> self.channel(offset) < 4,
        ensures
            self.writes(*old(sau), *final(sau), offset, buf@, now, f_clk, r),
    {
        let n = buf.len();
        if !is_writable(offset, n, SDR_SIZE) {
            return Err(BusError::OutOfRange { addr: offset, offset, len: n });
        }
        let value: u16 = buf[0] as u16 + 256 * buf[1] as u16;
        sau.write_sdr(self.channel_base + (offset / 2) as usize, value, now, f_clk);
        Ok(())
    }

    /// Registers cannot be loaded.
    pub fn load(&self, offset: u64) -> (r: Result<(), BusError>)
        ensures
            r matches Err(e) && e == (BusError::NotLoadable { addr: offset }),
    {
        Err(BusError::NotLoadable { addr: offset })
    }
}

/// The mapped control registers.
#[derive(Clone, Copy, Debug, PartialEq, Eq, Structural)]
pub struct SauCtrlMmio {}

impl SauCtrlMmio {
    /// The window.
    pub fn new() -> (r: SauCtrlMmio)
        ensures
            r == (SauCtrlMmio {  }),
    {
        SauCtrlMmio {  }
    }

    /// Bytes of the window.
    pub fn len(&self) -> (r: u64)
        ensures
            r == 0x40,
    {
        CTRL_SIZE
    }

    /// A read gives the control register, or one byte of it. Other accesses are refused.
    pub open spec fn reads(
        self,
        sau: SauUnit,
        offset: u64,
        before: Seq<u8>,
        after: Seq<u8>,
        r: Result<(), BusError>,
    ) -> bool {
        &&& after.len() == before.len()
        &&& if readable(offset, before.len(), CTRL_SIZE) {
            &&& r is Ok
            &&& holds_word(after, offset, sau.model().control_at((offset - offset % 2) as u64))
        } else {
            &&& r matches Err(e) && e == out_of_range(offset, before.len())
            &&& after == before
        }
    }

    /// A write stores the control register. Other accesses are refused.
    pub open spec fn writes(
        self,
        before: SauUnit,
        after: SauUnit,
        offset: u64,
        bytes: Seq<u8>,
        r: Result<(), BusError>,
    ) -> bool {
        if writable(offset, bytes.len(), CTRL_SIZE) {
            &&& r is Ok
            &&& after.model() == before.model().after_control(
                offset,
                (bytes[0] + 256 * bytes[1]) as u16,
            )
        } else {
            &&& r matches Err(e) && e == out_of_range(offset, bytes.len())
            &&& after == before
        }
    }

    /// Read a control register or one of its bytes.
    pub fn read(&self, sau: &SauUnit, offset: u64, buf: &mut [u8]) -> (r: Result<(), BusError>)
        ensures
            self.reads(*sau, offset, old(buf)@, final(buf)@, r),
    {
        let n = buf.len();
        if !is_readable(offset, n, CTRL_SIZE) {
            return Err(BusError::OutOfRange { addr: offset, offset, len: n });
        }
        let word = sau.read_ctrl(offset - offset % 2);
        fill_word(buf, offset, word);
        Ok(())
    }

    /// Write a control register.
    pub fn write(&self, sau: &mut SauUnit, offset: u64, buf: &[u8]) -> (r: Result<(), BusError>)
        ensures
            self.writes(*old(sau), *final(sau), offset, buf@, r),
    {
        let n = buf.len();
        if !is_writable(offset, n, CTRL_SIZE) {
            return Err(BusError::OutOfRange { addr: offset, offset, len: n });
        }
        let value: u16 = buf[0] as u16 + 256 * buf[1] as u16;
        sau.write_ctrl(offset, value);
        Ok(())
    }

    /// Registers cannot be loaded.
    pub fn load(&self, offset: u64) -> (r: Result<(), BusError>)
        ensures
            r matches Err(e) && e == (BusError::NotLoadable { addr: offset }),
    {
        Err(BusError::NotLoadable { addr: offset })
    }
}

/// A channel that sends does not take another frame: a write changes its data
/// register alone, and the frame goes out when it would have.
pub proof fn busy_channel_keeps_its_frame(
    sau: SauModel,
    ch: int,
    value: u16,
    now: u64,
    f_clk: u32,
)
    requires
        0 <= ch < 4,
        sau.tx_due.len() == 4,
        sau.busy(ch),
    ensures
        sau.with_data(ch, value).started(ch, now, f_clk).tx_due == sau.tx_due,
{
}

/// While fCLK is stopped nothing is sent.
pub proof fn stopped_clock_sends_nothing(sau: SauModel, ch: int, value: u16, now: u64)
    ensures
        sau.with_data(ch, value).started(ch, now, 0).tx_due == sau.tx_due,
{
}

/// A stopped channel reads back the data and the baud divider that were
/// written to it; an enabled one reads back the data alone.
pub proof fn data_register_reads_back(sau: SauModel, ch: int, value: u16)
    requires
        0 <= ch < 4,
        sau.sdr.len() == 4,
        sau.baud_div.len() == 4,
    ensures
        sau.with_data(ch, value).data_at(ch) == if channel_bit(sau.se, ch) {
            value & 0x1FF
        } else {
            value
        },
{
    lemma_data_fields(value);
}

/// The data and the baud divider of a word of the data register.
proof fn lemma_data_fields(value: u16)
    ensures
        (value & 0x1FF) | ((value >> 9) << 9) == value,
        (value & 0x1FF) & 0x1FF == value & 0x1FF,
        value & 0x1FF == value % 512,
        value >> 9 == value / 512,
{
    assert((value & 0x1FF) | ((value >> 9) << 9) == value && (value & 0x1FF) & 0x1FF == value
        & 0x1FF && value & 0x1FF == value % 512 && value >> 9 == value / 512) by (bit_vector);
}

/// The prescalers of a word of SPS.
proof fn lemma_prescalers(value: u16, first: u8, second: u8)
    ensures
        (value & 0x0F) as u8 == value % 16,
        ((value >> 4) & 0x0F) as u8 == value / 16 % 16,
        ({
            let word = (first & 0x0F) as u16 | ((second & 0x0F) as u16) << 4;
            word == first % 16 + 16 * (second % 16)
        }),
        first & 0x0F == first % 16,
        second & 0x0F == second % 16,
{
    assert((value & 0x0F) as u8 == value % 16 && ((value >> 4) & 0x0F) as u8 == value / 16 % 16 && (
    first & 0x0F) as u16 | ((second & 0x0F) as u16) << 4 == first % 16 + 16 * (second % 16) && first
        & 0x0F == first % 16 && second & 0x0F == second % 16) by (bit_vector);
}

/// A frame takes `20 * 2^p * (d + 1)` cycles of fCLK, where `p` is the
/// prescaler that bit 15 of SMR selects of the two in SPS, and `d` the baud
/// divider of the channel.
pub proof fn frame_length_follows_prescaler_and_divider(sau: SauModel, ch: int)
    requires
        0 <= ch < 4,
        sau.baud_div[ch] < 128,
    ensures
        ({
            let smr = sau.control_at((0x10 + 2 * ch) as u64);
            let sps = sau.control_at(0x26);
            let p = if smr & 0x8000 != 0 {
                sps / 16 % 16
            } else {
                sps % 16
            };
            let d = sau.baud_div[ch];
            sau.frame_cycles(ch) == 20 * vstd::arithmetic::power2::pow2(p as nat) * (d + 1)
        }),
{
    lemma_prescalers(0, sau.ck_divisor[0], sau.ck_divisor[1]);
    let p = sau.prescaler(ch) as nat;
    lemma_shifted_one(p);
    vstd::arithmetic::mul::lemma_mul_is_associative(
        20,
        vstd::arithmetic::power2::pow2(p) as int,
        sau.baud_div[ch] + 1,
    );
}

/// While a channel is stopped, the upper seven bits that are written to its
/// data register are its baud divider `d` and read back; a frame then takes
/// `20 * 2^p * (d + 1)` cycles of fCLK in whole nanoseconds, for whichever
/// prescalers are written to SPS.
pub proof fn written_divider_sets_frame_time(
    sau: SauModel,
    ch: int,
    value: u16,
    sps: u16,
    f_clk: u32,
)
    requires
        0 <= ch < 4,
        sau.sdr.len() == 4,
        sau.baud_div.len() == 4,
        sau.se & (1u16 << ch) == 0,
    ensures
        ({
            let set = sau.after_control(0x26, sps).with_data(ch, value);
            let d = value / 512;
            let p = if sau.control_at((0x10 + 2 * ch) as u64) & 0x8000 != 0 {
                sps / 16 % 16
            } else {
                sps % 16
            };
            let cycles = 20 * vstd::arithmetic::power2::pow2(p as nat) * (d + 1);
            &&& set.data_at(ch) / 512 == d
            &&& set.data_at(ch) == value
            &&& set.control_at(0x26) == sps % 256
            &&& match set.frame_time(ch, f_clk) {
                Some(ns) => {
                    &&& f_clk > 0
                    &&& ns > 0
                    &&& ns * f_clk <= cycles * 1_000_000_000
                    &&& cycles * 1_000_000_000 < (ns + 1) * f_clk
                },
                None => f_clk == 0 || cycles * 1_000_000_000 < f_clk,
            }
        }),
{
    let set = sau.after_control(0x26, sps).with_data(ch, value);
    lemma_data_fields(value);
    lemma_prescalers(sps, (sps % 16) as u8, (sps / 16 % 16) as u8);
    data_register_reads_back(sau.after_control(0x26, sps), ch, value);
    frame_length_follows_prescaler_and_divider(set, ch);
    let p = set.prescaler(ch) as nat;
    let d = value / 512;
    lemma_frame_fits(p, d);
    let cycles = 20 * vstd::arithmetic::power2::pow2(p) * (d + 1);
    cycle_time_is_whole_nanoseconds(cycles as u64, f_clk);
    if f_clk > 0 {
        let ns = cycles * 1_000_000_000 / f_clk as int;
        assert(ns <= cycles * 1_000_000_000) by {
            vstd::arithmetic::div_mod::lemma_div_nonincreasing(cycles * 1_000_000_000, f_clk as int);
        }
    }
}

/// No frame takes longer than with the largest prescaler and divider.
proof fn lemma_frame_fits(p: nat, d: u16)
    requires
        p < 16,
        d < 128,
    ensures
        0 < 20 * vstd::arithmetic::power2::pow2(p) * (d + 1) <= 20 * 0x8000 * 128,
{
    vstd::arithmetic::power2::lemma2_to64();
    vstd::arithmetic::power2::lemma_pow2_pos(p);
    if p < 15 {
        vstd::arithmetic::power2::lemma_pow2_strictly_increases(p, 15);
    }
    let two_p = vstd::arithmetic::power2::pow2(p);
    vstd::arithmetic::mul::lemma_mul_inequality(20int * two_p, 20int * 0x8000, d + 1);
    vstd::arithmetic::mul::lemma_mul_strictly_positive(20int * two_p, d + 1);
}

/// A larger baud divider makes every frame longer.
pub proof fn frames_lengthen_with_divider(sau: SauModel, ch: int, value: u16, larger: u16)
    requires
        0 <= ch < 4,
        sau.sdr.len() == 4,
        sau.baud_div.len() == 4,
        sau.se & (1u16 << ch) == 0,
        value / 512 < larger / 512,
    ensures
        sau.with_data(ch, value).frame_cycles(ch) < sau.with_data(ch, larger).frame_cycles(ch),
{
    lemma_data_fields(value);
    lemma_data_fields(larger);
    let a = sau.with_data(ch, value);
    let b = sau.with_data(ch, larger);
    frame_length_follows_prescaler_and_divider(a, ch);
    frame_length_follows_prescaler_and_divider(b, ch);
    lemma_prescalers(0, sau.ck_divisor[0], sau.ck_divisor[1]);
    let p = sau.prescaler(ch) as nat;
    let two_p = vstd::arithmetic::power2::pow2(p);
    vstd::arithmetic::power2::lemma_pow2_pos(p);
    vstd::arithmetic::mul::lemma_mul_left_inequality(
        20int * two_p,
        value / 512 + 1,
        larger / 512 + 1,
    );
}

/// A larger prescaler makes every frame longer, of the two in SPS that which
/// the channel has selected.
pub proof fn frames_lengthen_with_prescaler(sau: SauModel, ch: int, sps: u16, larger: u16)
    requires
        0 <= ch < 4,
        sau.baud_div[ch] < 128,
        sau.smr[ch] & 0x8000 == 0 ==> sps % 16 < larger % 16,
        sau.smr[ch] & 0x8000 != 0 ==> sps / 16 % 16 < larger / 16 % 16,
    ensures
        sau.after_control(0x26, sps).frame_cycles(ch) < sau.after_control(
            0x26,
            larger,
        ).frame_cycles(ch),
{
    let a = sau.after_control(0x26, sps);
    let b = sau.after_control(0x26, larger);
    lemma_prescalers(sps, a.ck_divisor[0], a.ck_divisor[1]);
    lemma_prescalers(larger, b.ck_divisor[0], b.ck_divisor[1]);
    let p = a.prescaler(ch) as nat;
    let q = b.prescaler(ch) as nat;
    lemma_shifted_one(p);
    lemma_shifted_one(q);
    vstd::arithmetic::power2::lemma_pow2_strictly_increases(p, q);
    vstd::arithmetic::mul::lemma_mul_strict_inequality(
        vstd::arithmetic::power2::pow2(p) as int,
        vstd::arithmetic::power2::pow2(q) as int,
        sau.baud_div[ch] + 1,
    );
}

/// One moved up is a power of two.
proof fn lemma_shifted_one(p: nat)
    requires
        p < 16,
    ensures
        1u64 << p == vstd::arithmetic::power2::pow2(p),
        vstd::arithmetic::power2::pow2(p) <= 0x8000,
{
    vstd::arithmetic::power2::lemma2_to64();
    if p < 15 {
        vstd::arithmetic::power2::lemma_pow2_strictly_increases(p, 15);
    }
    vstd::bits::lemma_u64_shl_is_mul(1, p as u64);
}

/// A write to the data register of an enabled channel sends a frame exactly
/// when its output and its transmission are enabled and no frame is on its
/// way, as SE, SOE, SCR and SSR read. It is out as many nanoseconds later as
/// the frame takes. The baud divider and the other channels are not touched.
pub proof fn enabled_channel_sends_when_idle(
    sau: SauModel,
    ch: int,
    other: int,
    value: u16,
    now: u64,
    f_clk: u32,
)
    requires
        0 <= ch < 4,
        0 <= other < 4,
        sau.sdr.len() == 4,
        sau.baud_div.len() == 4,
        sau.tx_due.len() == 4,
        sau.control_at(0x20) & (1u16 << ch) != 0,
    ensures
        ({
            let after = sau.with_data(ch, value).started(ch, now, f_clk);
            let ready = {
                &&& sau.control_at(0x2A) & (1u16 << ch) != 0
                &&& sau.control_at((0x18 + 2 * ch) as u64) & 0x8000 != 0
                &&& sau.control_at((2 * ch) as u64) == 0
            };
            &&& after.tx_due[ch] == match sau.frame_time(ch, f_clk) {
                Some(ns) => if !ready {
                    sau.tx_due[ch]
                } else if now + ns <= u64::MAX {
                    Some((now + ns) as u64)
                } else {
                    Some(u64::MAX)
                },
                None => sau.tx_due[ch],
            }
            &&& after.data_at(ch) == value % 512
            &&& after.baud_div == sau.baud_div
            &&& other != ch ==> after.tx_due[other] == sau.tx_due[other] && after.data_at(other)
                == sau.data_at(other)
        }),
{
    lemma_data_fields(value);
}

/// A stopped channel takes the data and the divider and sends nothing.
pub proof fn stopped_channel_sends_nothing(
    sau: SauModel,
    ch: int,
    other: int,
    value: u16,
    now: u64,
    f_clk: u32,
)
    requires
        0 <= ch < 4,
        0 <= other < 4,
        sau.sdr.len() == 4,
        sau.baud_div.len() == 4,
        sau.control_at(0x20) & (1u16 << ch) == 0,
    ensures
        ({
            let after = sau.with_data(ch, value).started(ch, now, f_clk);
            &&& after.tx_due == sau.tx_due
            &&& after.data_at(ch) == value
            &&& after.baud_div[ch] == value / 512
            &&& other != ch ==> after.data_at(other) == sau.data_at(other)
                && after.baud_div[other] == sau.baud_div[other]
        }),
{
    lemma_data_fields(value);
    data_register_reads_back(sau, ch, value);
}

/// Control registers read back the bits that they take. SS and ST set and
/// clear bits of SE and read as nothing, and so does SSR of an idle channel.
pub proof fn control_registers_read_back(sau: SauModel, offset: u64, value: u16)
    requires
        sau.smr.len() == 4,
        sau.scr.len() == 4,
    ensures
        ({
            let after = sau.after_control(offset, value);
            &&& 0x10 <= offset < 0x20 && offset % 2 == 0 ==> after.control_at(offset) == value
            &&& offset == 0x22 ==> after.control_at(0x20) == sau.control_at(0x20) | (value & 0x0F)
            &&& offset == 0x24 ==> after.control_at(0x20) == sau.control_at(0x20) & !(value & 0x0F)
            &&& offset == 0x26 ==> after.control_at(0x26) == value % 256
            &&& offset == 0x28 ==> after.control_at(0x28) == value
            &&& offset == 0x2A ==> after.control_at(0x2A) == value & 0x0F
            &&& offset == 0x34 ==> after.control_at(0x34) == value & 0x05
        }),
{
    lemma_prescalers(value, (value % 16) as u8, (value / 16 % 16) as u8);
}

/// A write to a control register changes no other register: SS and ST change
/// SE alone, and ST the transfer flags of the channels that it stops.
pub proof fn control_write_touches_one_register(
    sau: SauModel,
    offset: u64,
    value: u16,
    other: u64,
    ch: int,
)
    requires
        sau.smr.len() == 4,
        sau.scr.len() == 4,
        other != offset,
        0 <= ch < 4,
    ensures
        ({
            let after = sau.after_control(offset, value);
            &&& !((offset == 0x22 || offset == 0x24) && other == 0x20) && !(offset == 0x24 && other
                < 8) ==> after.control_at(other) == sau.control_at(other)
            &&& offset == 0x24 ==> after.control_at((2 * ch) as u64) == if value & (1u16 << ch)
                != 0 {
                0
            } else {
                sau.control_at((2 * ch) as u64)
            }
            &&& after.sdr == sau.sdr
            &&& after.baud_div == sau.baud_div
            &&& offset != 0x24 ==> after.tx_due == sau.tx_due
        }),
{
}

/// SSR shows a frame on its way in bit 6 and nothing else.
pub proof fn transfer_flag_shows_frames(sau: SauModel, ch: int)
    requires
        0 <= ch < 4,
    ensures
        sau.control_at((2 * ch) as u64) == if sau.tx_due[ch] is Some {
            0x40u16
        } else {
            0u16
        },
{
}

/// A data window takes two bytes, low byte first, at its offset 0 for its
/// first channel and at its offset 2 for the next one, and nothing else. They
/// are the word that the channel takes.
pub proof fn data_window_reaches_two_channels(
    base: usize,
    before: SauUnit,
    after: SauUnit,
    offset: u64,
    bytes: Seq<u8>,
    now: u64,
    f_clk: u32,
    r: Result<(), BusError>,
)
    requires
        base <= 2,
        (SauSdrMmio { channel_base: base }).writes(before, after, offset, bytes, now, f_clk, r),
    ensures
        r is Ok <==> bytes.len() == 2 && (offset == 0 || offset == 2),
        r is Err ==> after == before,
        r is Ok ==> {
            let ch = base + offset / 2;
            let value = bytes[0] + 256 * bytes[1];
            &&& after.sdr@[ch] == value % 512
            &&& after.baud_div@[ch] == if before.se & (1u16 << ch) == 0 {
                value / 512
            } else {
                before.baud_div@[ch] as int
            }
            &&& forall|other: int|
                #![trigger after.sdr@[other]]
                0 <= other < 4 && other != ch ==> after.sdr@[other] == before.sdr@[other]
                    && after.baud_div@[other] == before.baud_div@[other] && after.tx_due@[other]
                    == before.tx_due@[other]
        },
{
    if r is Ok {
        lemma_data_fields((bytes[0] + 256 * bytes[1]) as u16);
        assert(after.model().sdr == after.sdr@);
        assert(after.model().baud_div == after.baud_div@);
        assert(after.model().tx_due == after.tx_due@);
    }
}

/// A read of a data window gives the data register of its first channel at
/// offsets 0 and 1 and that of the next one at offsets 2 and 3, low byte first.
pub proof fn data_window_reads_two_channels(
    base: usize,
    sau: SauUnit,
    offset: u64,
    before: Seq<u8>,
    after: Seq<u8>,
    r: Result<(), BusError>,
)
    requires
        base <= 2,
        (SauSdrMmio { channel_base: base }).reads(sau, offset, before, after, r),
    ensures
        r is Ok <==> before.len() == 1 && offset < 4 || before.len() == 2 && (offset == 0 || offset
            == 2),
        r is Err ==> after == before,
        r is Ok ==> {
            let word = sau.model().data_at(base + offset / 2);
            &&& offset % 2 == 0 ==> after[0] == word % 256
            &&& offset % 2 == 1 ==> after[0] == word / 256
            &&& before.len() == 2 ==> after[1] == word / 256
        },
{
}

/// The control window takes two bytes at even offsets, low byte first, and
/// shows them byte by byte too.
pub proof fn control_window_is_byte_ordered(
    before: SauUnit,
    after: SauUnit,
    offset: u64,
    bytes: Seq<u8>,
    written: Result<(), BusError>,
    buf: Seq<u8>,
    shown: Seq<u8>,
    read: Result<(), BusError>,
)
    requires
        (SauCtrlMmio {  }).writes(before, after, offset, bytes, written),
        (SauCtrlMmio {  }).reads(before, offset, buf, shown, read),
    ensures
        written is Ok <==> bytes.len() == 2 && offset % 2 == 0 && offset < 0x40,
        written is Ok ==> after.model() == before.model().after_control(
            offset,
            (bytes[0] + 256 * bytes[1]) as u16,
        ),
        written is Err ==> after == before,
        read is Ok <==> offset < 0x40 && (buf.len() == 1 || buf.len() == 2 && offset % 2 == 0),
        read is Err ==> shown == buf,
        read is Ok && offset % 2 == 0 ==> shown[0] == before.model().control_at(offset) % 256,
        read is Ok && offset % 2 == 1 ==> shown[0] == before.model().control_at((offset - 1) as u64)
            / 256,
        read is Ok && buf.len() == 2 ==> shown[1] == before.model().control_at(offset) / 256,
{
}

/// Stopping channels drops their frames and no others.
pub proof fn stop_drops_frames(sau: SauModel, value: u16, ch: int)
    requires
        0 <= ch < 4,
    ensures
        sau.after_control(0x24, value).tx_due[ch] == if channel_bit(value, ch) {
            None
        } else {
            sau.tx_due[ch]
        },
{
}

/// After a reset the unit reads its reset values: SMR and SCR what they are
/// reset to, everything else zero, and no frame is on its way.
pub proof fn reset_unit_reads_its_values(sau: SauUnit, smr: u16, scr: u16, offset: u64, ch: int)
    requires
        sau.is_clear(smr, scr),
        0 <= ch < 4,
    ensures
        sau.model().control_at(offset) == if offset % 2 == 0 && 0x10 <= offset < 0x18 {
            smr
        } else if offset % 2 == 0 && 0x18 <= offset < 0x20 {
            scr
        } else {
            0u16
        },
        sau.model().data_at(ch) == 0,
        sau.tx_due@[ch] is None,
{
    lemma_prescalers(0, 0, 0);
    assert(sau.sdr@[ch] == 0);
    if offset % 2 == 0 && offset < 8 {
        assert(sau.sdr@[(offset / 2) as int] == 0);
    } else if offset % 2 == 0 && 0x10 <= offset < 0x18 {
        assert(sau.sdr@[(offset - 0x10) / 2] == 0);
    } else if offset % 2 == 0 && 0x18 <= offset < 0x20 {
        assert(sau.sdr@[(offset - 0x18) / 2] == 0);
    }
    assert(0u16 | (0u16 << 9) == 0 && 0u16 & 0x1FF == 0) by (bit_vector);
}

} // verus!
