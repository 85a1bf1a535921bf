//! Timer Array Unit 0: register file and interval timers.
//!
//! A channel that is started counts TDR + 1 cycles of fCLK, sets its overflow
//! flag and begins anew. The prescaler is held in TPS and does not slow the count.

use vstd::prelude::*;

use crate::kernel::{out_of_range, BusError};
use crate::peripherals::clock::{cycles_time, cycles_to_tick};

verus! {

/// Channels of the unit.
pub const CHANNELS: usize = 8;

/// Address of TDR00 and TDR01.
pub const TDR0: u32 = 0xFFF18;

/// Address of TDR02 to TDR07.
pub const TDR2: u32 = 0xFFF64;

/// Address of the control registers.
pub const TAU_ESFR: u32 = 0xF0180;

/// Address of the input selection registers.
pub const TIS: u32 = 0xF0074;

/// Overflow flag in TSR.
pub const TSR_OVF: u16 = 0x0001;

/// Timer Array Unit 0.
#[derive(Clone, Debug)]
pub struct TauUnit {
    pub tdr: [u16; 8],
    pub tcr: [u16; 8],
    pub tmr: [u16; 8],
    pub tsr: [u16; 8],
    pub tps: u16,
    pub te: u16,
    pub to: u16,
    pub toe: u16,
    pub tol: u16,
    pub tom: u16,
    pub tis0: u8,
    pub tis1: u8,
    /// When each counting channel overflows next.
    pub due: [Option<u64>; 8],
}

/// Registers of the unit.
#[verifier::ext_equal]
pub struct TauModel {
    pub tdr: Seq<u16>,
    pub tcr: Seq<u16>,
    pub tmr: Seq<u16>,
    pub tsr: Seq<u16>,
    pub tps: u16,
    pub te: u16,
    pub to: u16,
    pub toe: u16,
    pub tol: u16,
    pub tom: u16,
    pub tis0: u8,
    pub tis1: u8,
}

/// Channel of a data register.
pub open spec fn tdr_index(addr: u32) -> Option<int> {
    if TDR0 <= addr < TDR0 + 4 {
        Some((addr - TDR0) / 2)
    } else if TDR2 <= addr < TDR2 + 0x0C {
        Some(2 + (addr - TDR2) / 2)
    } else {
        None
    }
}

/// Whether the unit has a register at this address.
pub open spec fn owned(addr: u32) -> bool {
    ||| tdr_index(addr) is Some
    ||| TAU_ESFR <= addr < TAU_ESFR + 0x40
    ||| addr == TIS
    ||| addr == TIS + 1
}

/// The even address at or below this one.
pub open spec fn word_addr(addr: u32) -> u32 {
    (addr - addr % 2) as u32
}

/// A word with its low or its high byte replaced.
pub open spec fn with_byte(word: u16, high: bool, value: u8) -> u16 {
    if high {
        (word % 256 + 256 * value) as u16
    } else {
        (word - word % 256 + value) as u16
    }
}

impl TauModel {
    /// What a read of this word gives. TS and TT read as zero.
    pub open spec fn word_at(self, addr: u32) -> u16 {
        let off = addr - TAU_ESFR;
        let ch = (off / 2) % 8;
        match tdr_index(addr) {
            Some(ch) => self.tdr[ch],
            None => if off < 0 {
                0
            } else if off <= 0x0E {
                self.tcr[ch]
            } else if 0x10 <= off <= 0x1E {
                self.tmr[ch]
            } else if 0x20 <= off <= 0x2E {
                self.tsr[ch]
            } else if off == 0x30 {
                self.te
            } else if off == 0x36 {
                self.tps
            } else if off == 0x38 {
                self.to
            } else if off == 0x3A {
                self.toe
            } else if off == 0x3C {
                self.tol
            } else if off == 0x3E {
                self.tom
            } else {
                0
            },
        }
    }

    /// Registers after a word was written. Counters, flags and TE are
    /// read-only; TS sets bits of TE and TT clears them.
    pub open spec fn after_word(self, addr: u32, value: u16) -> TauModel {
        let off = addr - TAU_ESFR;
        let ch = (off / 2) % 8;
        match tdr_index(addr) {
            Some(ch) => TauModel { tdr: self.tdr.update(ch, value), ..self },
            None => if 0x10 <= off <= 0x1E {
                TauModel { tmr: self.tmr.update(ch, value), ..self }
            } else if off == 0x32 {
                TauModel { te: self.te | value, ..self }
            } else if off == 0x34 {
                TauModel { te: self.te & !value, ..self }
            } else if off == 0x36 {
                TauModel { tps: value, ..self }
            } else if off == 0x38 {
                TauModel { to: value, ..self }
            } else if off == 0x3A {
                TauModel { toe: value, ..self }
            } else if off == 0x3C {
                TauModel { tol: value, ..self }
            } else if off == 0x3E {
                TauModel { tom: value, ..self }
            } else {
                self
            },
        }
    }

    /// What a read of this byte gives.
    pub open spec fn byte_at(self, addr: u32) -> u8 {
        if addr == TIS {
            self.tis0
        } else if addr == TIS + 1 {
            self.tis1
        } else if addr % 2 == 0 {
            (self.word_at(addr) % 256) as u8
        } else {
            (self.word_at(word_addr(addr)) / 256) as u8
        }
    }

    /// Registers after a byte was written: the word that it lies in is read,
    /// the byte replaced, and the word written.
    pub open spec fn after_byte(self, addr: u32, value: u8) -> TauModel {
        if addr == TIS {
            TauModel { tis0: value, ..self }
        } else if addr == TIS + 1 {
            TauModel { tis1: value, ..self }
        } else {
            self.after_word(
                word_addr(addr),
                with_byte(self.word_at(word_addr(addr)), addr % 2 != 0, value),
            )
        }
    }
}

/// Time from a start to an overflow: TDR + 1 cycles.
pub open spec fn interval(tdr: u16, f_clk: u32) -> Option<u64> {
    cycles_time((tdr + 1) as u64, f_clk)
}

/// The time `period` after `now`, where it can be told.
pub open spec fn later(now: u64, period: Option<u64>) -> Option<u64> {
    match period {
        Some(p) => if now + p > u64::MAX {
            None
        } else {
            Some((now + p) as u64)
        },
        None => None,
    }
}

fn time_after(now: u64, period: Option<u64>) -> (r: Option<u64>)
    ensures
        r == later(now, period),
{
    match period {
        Some(p) => now.checked_add(p),
        None => None,
    }
}

/// Deadlines after a byte was written: TS starts the channels of its set bits,
/// TT stops them.
pub open spec fn due_after(
    due: Seq<Option<u64>>,
    tdr: Seq<u16>,
    addr: u32,
    value: u8,
    now: u64,
    f_clk: u32,
) -> Seq<Option<u64>> {
    if addr == TAU_ESFR + 0x32 {
        Seq::new(
            8,
            |ch: int|
                if value & (1u8 << ch) != 0 {
                    later(now, interval(tdr[ch], f_clk))
                } else {
                    due[ch]
                },
        )
    } else if addr == TAU_ESFR + 0x34 {
        Seq::new(
            8,
            |ch: int|
                if value & (1u8 << ch) != 0 {
                    None
                } else {
                    due[ch]
                },
        )
    } else {
        due
    }
}

impl TauUnit {
    /// The registers.
    pub open spec fn model(self) -> TauModel {
        TauModel {
            tdr: self.tdr@,
            tcr: self.tcr@,
            tmr: self.tmr@,
            tsr: self.tsr@,
            tps: self.tps,
            te: self.te,
            to: self.to,
            toe: self.toe,
            tol: self.tol,
            tom: self.tom,
            tis0: self.tis0,
            tis1: self.tis1,
        }
    }

    /// State after a reset: data and count registers all ones, the others
    /// clear, nothing counting.
    pub open spec fn is_reset(self) -> bool {
        &&& forall|ch: int|
            0 <= ch < 8 ==> (#[trigger] self.tdr@[ch]) == 0xFFFF && self.tcr@[ch] == 0xFFFF
                && self.tmr@[ch] == 0 && self.tsr@[ch] == 0 && self.due@[ch] is None
        &&& self.tps == 0
        &&& self.te == 0
        &&& self.to == 0
        &&& self.toe == 0
        &&& self.tol == 0
        &&& self.tom == 0
        &&& self.tis0 == 0
        &&& self.tis1 == 0
    }

    /// Enabled channels.
    pub fn te(&self) -> (r: u16)
        ensures
            r == self.te,
    {
        self.te
    }

    /// Whether a channel is enabled.
    pub fn channel_enabled(&self, channel: usize) -> (r: bool)
        requires
            channel < 8,
        ensures
            r == (self.te & (1u16 << channel) != 0),
    {
        self.te & (1u16 << channel) != 0
    }

    /// Read one byte.
    pub fn read_u8(&self, addr: u32) -> (r: u8)
        ensures
            r == self.model().byte_at(addr),
    {
        if addr == TIS {
            return self.tis0;
        }
        if addr == TIS + 1 {
            return self.tis1;
        }
        let word = self.read_u16(addr - addr % 2);
        if addr % 2 == 0 {
            (word % 256) as u8
        } else {
            (word / 256) as u8
        }
    }

    /// Write one byte.
    pub fn write_u8(&mut self, addr: u32, value: u8)
        ensures
            final(self).model() == old(self).model().after_byte(addr, value),
            final(self).due == old(self).due,
    {
        if addr == TIS {
            self.tis0 = value;
            return;
        }
        if addr == TIS + 1 {
            self.tis1 = value;
            return;
        }
        let aligned: u32 = addr - addr % 2;
        let word = self.read_u16(aligned);
        let merged: u16 = if addr % 2 == 0 {
            word - word % 256 + value as u16
        } else {
            word % 256 + 256 * value as u16
        };
        self.write_u16(aligned, merged);
    }

    fn tdr_channel(addr: u32) -> (r: Option<usize>)
        ensures
            match r {
                Some(ch) => ch < 8 && tdr_index(addr) == Some(ch as int),
                None => tdr_index(addr) is None,
            },
    {
        if TDR0 <= addr && addr < TDR0 + 4 {
            return Some(((addr - TDR0) / 2) as usize);
        }
        if TDR2 <= addr && addr < TDR2 + 0x0C {
            return Some(2 + ((addr - TDR2) / 2) as usize);
        }
        None
    }

    fn read_u16(&self, addr: u32) -> (r: u16)
        ensures
            r == self.model().word_at(addr),
    {
        if let Some(ch) = Self::tdr_channel(addr) {
            return self.tdr[ch];
        }
        if addr < TAU_ESFR {
            return 0;
        }
        let off: u32 = addr - TAU_ESFR;
        let ch: usize = ((off / 2) % 8) as usize;
        if off <= 0x0E {
            self.tcr[ch]
        } else if 0x10 <= off && off <= 0x1E {
            self.tmr[ch]
        } else if 0x20 <= off && off <= 0x2E {
            self.tsr[ch]
        } else {
            match off {
                0x30 => self.te,
                0x36 => self.tps,
                0x38 => self.to,
                0x3A => self.toe,
                0x3C => self.tol,
                0x3E => self.tom,
                _ => 0,
            }
        }
    }

    fn write_u16(&mut self, addr: u32, value: u16)
        ensures
            final(self).model() == old(self).model().after_word(addr, value),
            final(self).due == old(self).due,
    {
        if let Some(ch) = Self::tdr_channel(addr) {
            self.tdr[ch] = value;
            assert(self.model() =~= old(self).model().after_word(addr, value));
            return;
        }
        if addr < TAU_ESFR {
            return;
        }
        let off: u32 = addr - TAU_ESFR;
        let ch: usize = ((off / 2) % 8) as usize;
        if 0x10 <= off && off <= 0x1E {
            self.tmr[ch] = value;
            assert(self.model() =~= old(self).model().after_word(addr, value));
            return;
        }
        match off {
            0x32 => {
                self.te = self.te | value;
            },
            0x34 => {
                self.te = self.te & !value;
            },
            0x36 => {
                self.tps = value;
            },
            0x38 => {
                self.to = value;
            },
            0x3A => {
                self.toe = value;
            },
            0x3C => {
                self.tol = value;
            },
            0x3E => {
                self.tom = value;
            },
            _ => {},
        }
    }

    /// Whether the unit has a register at this address.
    pub fn owns(addr: u32) -> (r: bool)
        ensures
            r == owned(addr),
    {
        Self::tdr_channel(addr).is_some() || (TAU_ESFR <= addr && addr < TAU_ESFR + 0x40) || addr
            == TIS || addr == TIS + 1
    }

    /// Write one byte at this time: besides the registers, TS starts the
    /// channels of its set bits and TT stops them. Where fCLK is stopped, a
    /// started channel does not count.
    pub fn store(&mut self, addr: u32, value: u8, now: u64, f_clk: u32)
        ensures
            final(self).model() == old(self).model().after_byte(addr, value),
            final(self).due@ == due_after(
                old(self).due@,
                old(self).tdr@,
                addr,
                value,
                now,
                f_clk,
            ),
    {
        self.write_u8(addr, value);
        let start = addr == TAU_ESFR + 0x32;
        let stop = addr == TAU_ESFR + 0x34;
        let ghost tdr = self.tdr@;
        let ghost before = self.due@;
        let ghost registers = self.model();
        if start || stop {
            let mut ch: usize = 0;
            while ch < 8
                invariant
                    ch <= 8,
                    start == (addr == TAU_ESFR + 0x32),
                    stop == (addr == TAU_ESFR + 0x34),
                    start || stop,
                    self.model() == registers,
                    self.tdr@ == tdr,
                    forall|k: int|
                        0 <= k < 8 ==> (#[trigger] self.due@[k]) == if k < ch {
                            due_after(before, tdr, addr, value, now, f_clk)[k]
                        } else {
                            before[k]
                        },
                decreases 8 - ch,
            {
                if value & (1u8 << ch) != 0 {
                    self.due[ch] = if start {
                        time_after(now, cycles_to_tick(self.tdr[ch] as u64 + 1, f_clk))
                    } else {
                        None
                    };
                }
                ch += 1;
            }
        }
        assert(self.due@ =~= due_after(before, tdr, addr, value, now, f_clk));
    }

    /// A counting channel overflows: its flag is set and it begins anew.
    pub fn overflow(&mut self, channel: usize, f_clk: u32)
        requires
            channel < 8,
            old(self).due@[channel as int] is Some,
        ensures
            final(self).model() == (TauModel {
                tsr: old(self).tsr@.update(
                    channel as int,
                    old(self).tsr@[channel as int] | TSR_OVF,
                ),
                ..old(self).model()
            }),
            final(self).due@ == old(self).due@.update(
                channel as int,
                later(
                    old(self).due@[channel as int]->0,
                    interval(old(self).tdr@[channel as int], f_clk),
                ),
            ),
    {
        self.tsr[channel] = self.tsr[channel] | TSR_OVF;
        if let Some(at) = self.due[channel] {
            self.due[channel] = time_after(
                at,
                cycles_to_tick(self.tdr[channel] as u64 + 1, f_clk),
            );
        }
        assert(self.model() =~= (TauModel {
            tsr: old(self).tsr@.update(channel as int, old(self).tsr@[channel as int] | TSR_OVF),
            ..old(self).model()
        }));
    }
}

impl Default for TauUnit {
    /// The unit after a reset.
    fn default() -> (r: TauUnit)
        ensures
            r.is_reset(),
    {
        TauUnit {
            tdr: [0xFFFF;8],
            tcr: [0xFFFF;8],
            tmr: [0;8],
            tsr: [0;8],
            tps: 0,
            te: 0,
            to: 0,
            toe: 0,
            tol: 0,
            tom: 0,
            tis0: 0,
            tis1: 0,
            due: [None;8],
        }
    }
}

/// Windows of the unit on the bus.
#[derive(Clone, Copy, Debug, PartialEq, Eq, Structural)]
pub enum TauBank {
    /// TDR00 and TDR01.
    Tdr0,
    /// TDR02 to TDR07.
    Tdr2,
    /// Control registers.
    Ctrl,
    /// Input selection.
    Tis,
}

impl TauBank {
    /// Bus address of the window.
    pub open spec fn base_addr(self) -> u32 {
        match self {
            TauBank::Tdr0 => TDR0,
            TauBank::Tdr2 => TDR2,
            TauBank::Ctrl => TAU_ESFR,
            TauBank::Tis => TIS,
        }
    }

    /// Bytes of the window.
    pub open spec fn len(self) -> u64 {
        match self {
            TauBank::Tdr0 => 4,
            TauBank::Tdr2 => 0x0C,
            TauBank::Ctrl => 0x40,
            TauBank::Tis => 2,
        }
    }

    /// Bus address of the window.
    pub fn base(self) -> (r: u32)
        ensures
            r == self.base_addr(),
    {
        match self {
            TauBank::Tdr0 => TDR0,
            TauBank::Tdr2 => TDR2,
            TauBank::Ctrl => TAU_ESFR,
            TauBank::Tis => TIS,
        }
    }

    /// Bytes of the window.
    pub fn size(self) -> (r: u64)
        ensures
            r == self.len(),
    {
        match self {
            TauBank::Tdr0 => 4,
            TauBank::Tdr2 => 0x0C,
            TauBank::Ctrl => 0x40,
            TauBank::Tis => 2,
        }
    }
}

/// One mapped window of the unit, accessed byte by byte.
#[derive(Clone, Copy, Debug, PartialEq, Eq, Structural)]
pub struct TauMmio {
    pub bank: TauBank,
}

/// Registers and deadlines after the first `n` of these bytes were stored from
/// `addr` on, in order.
pub open spec fn after_stores(
    unit: (TauModel, Seq<Option<u64>>),
    addr: u32,
    bytes: Seq<u8>,
    now: u64,
    f_clk: u32,
    n: nat,
) -> (TauModel, Seq<Option<u64>>)
    decreases n,
{
    if n == 0 {
        unit
    } else {
        let (registers, due) = after_stores(unit, addr, bytes, now, f_clk, (n - 1) as nat);
        let at = (addr + (n - 1)) as u32;
        (
            registers.after_byte(at, bytes[n - 1]),
            due_after(due, registers.tdr, at, bytes[n - 1], now, f_clk),
        )
    }
}

impl TauMmio {
    /// The window of a bank.
    pub fn new(bank: TauBank) -> (r: TauMmio)
        ensures
            r == (TauMmio { bank }),
    {
        TauMmio { bank }
    }

    /// Bytes of the window.
    pub fn len(&self) -> (r: u64)
        ensures
            r == self.bank.len(),
    {
        self.bank.size()
    }

    /// A read gives the bytes of the registers. An access that does not lie
    /// within the window is refused.
    pub open spec fn reads(
        self,
        tau: TauUnit,
        offset: u64,
        before: Seq<u8>,
        after: Seq<u8>,
        r: Result<(), BusError>,
    ) -> bool {
        &&& after.len() == before.len()
        &&& if offset + before.len() > self.bank.len() {
            &&& r matches Err(e) && e == out_of_range(offset, before.len())
            &&& after == before
        } else {
            &&& r is Ok
            &&& forall|i: int|
                0 <= i < before.len() ==> #[trigger] after[i] == tau.model().byte_at(
                    (self.bank.base_addr() + offset + i) as u32,
                )
        }
    }

    /// A write stores the bytes in order. An access that does not lie within
    /// the window is refused.
    pub open spec fn writes(
        self,
        before: TauUnit,
        after: TauUnit,
        offset: u64,
        bytes: Seq<u8>,
        now: u64,
        f_clk: u32,
        r: Result<(), BusError>,
    ) -> bool {
        if offset + bytes.len() > self.bank.len() {
            &&& r matches Err(e) && e == out_of_range(offset, bytes.len())
            &&& after == before
        } else {
            &&& r is Ok
            &&& (after.model(), after.due@) == after_stores(
                (before.model(), before.due@),
                (self.bank.base_addr() + offset) as u32,
                bytes,
                now,
                f_clk,
                bytes.len(),
            )
        }
    }

    /// Read registers into the buffer.
    pub fn read(&self, tau: &TauUnit, offset: u64, buf: &mut [u8]) -> (r: Result<(), BusError>)
        ensures
            self.reads(*tau, offset, old(buf)@, final(buf)@, r),
    {
        let n = buf.len();
        if offset.saturating_add(n as u64) > self.bank.size() {
            return Err(BusError::OutOfRange { addr: offset, offset, len: n });
        }
        let base: u32 = self.bank.base() + offset as u32;
        let mut i: usize = 0;
        while i < n
            invariant
                i <= n,
                n == buf@.len(),
                n == old(buf)@.len(),
                offset + n <= self.bank.len(),
                base == self.bank.base_addr() + offset,
                forall|k: int|
                    0 <= k < i ==> (#[trigger] buf@[k]) == tau.model().byte_at(
                        (self.bank.base_addr() + offset + k) as u32,
                    ),
            decreases n - i,
        {
            buf[i] = tau.read_u8(base + i as u32);
            i += 1;
        }
        Ok(())
    }

    /// Store the bytes at this time.
    pub fn write(&self, tau: &mut TauUnit, offset: u64, buf: &[u8], now: u64, f_clk: u32) -> (r:
        Result<(), BusError>)
        ensures
            self.writes(*old(tau), *final(tau), offset, buf@, now, f_clk, r),
    {
        let n = buf.len();
        if offset.saturating_add(n as u64) > self.bank.size() {
            return Err(BusError::OutOfRange { addr: offset, offset, len: n });
        }
        let base: u32 = self.bank.base() + offset as u32;
        let ghost before = (tau.model(), tau.due@);
        let mut i: usize = 0;
        while i < n
            invariant
                i <= n,
                n == buf@.len(),
                offset + n <= self.bank.len(),
                base == self.bank.base_addr() + offset,
                before == (old(tau).model(), old(tau).due@),
                (tau.model(), tau.due@) == after_stores(before, base, buf@, now, f_clk, i as nat),
            decreases n - i,
        {
            tau.store(base + i as u32, buf[i], now, f_clk);
            i += 1;
        }
        Ok(())
    }
}

/// A data register reads back the two bytes that were written to it.
pub proof fn data_register_reads_back(unit: TauModel, addr: u32, low: u8, high: u8)
    requires
        unit.tdr.len() == 8,
        addr % 2 == 0,
        tdr_index(addr) is Some,
    ensures
        ({
            let after = unit.after_byte(addr, low).after_byte((addr + 1) as u32, high);
            after.byte_at(addr) == low && after.byte_at((addr + 1) as u32) == high
        }),
{
    let ch = tdr_index(addr)->0;
    let one = unit.after_byte(addr, low);
    assert(one.tdr[ch] == with_byte(unit.tdr[ch], false, low));
    let two = one.after_byte((addr + 1) as u32, high);
    assert(word_addr((addr + 1) as u32) == addr);
    assert(two.tdr[ch] == with_byte(one.tdr[ch], true, high));
}

/// An address at which the unit has no register reads as zero, and a write
/// there changes nothing.
pub proof fn unowned_addresses_are_inert(unit: TauModel, addr: u32, value: u8)
    requires
        !owned(addr),
    ensures
        unit.byte_at(addr) == 0,
        unit.after_byte(addr, value) == unit,
{
    assert(tdr_index(word_addr(addr)) is None);
}

/// Channels are enabled only through TS and disabled only through TT.
pub proof fn only_start_and_stop_change_te(unit: TauModel, addr: u32, value: u8)
    ensures
        unit.after_byte(addr, value).te == if word_addr(addr) == TAU_ESFR + 0x32 {
            unit.te | with_byte(0, addr % 2 != 0, value)
        } else if word_addr(addr) == TAU_ESFR + 0x34 {
            unit.te & !with_byte(0, addr % 2 != 0, value)
        } else {
            unit.te
        },
{
}

/// TDR00 and TDR01 lie at `0xFFF18`, TDR02 to TDR07 at `0xFFF64`, two bytes
/// each, low byte first. The two bytes that are written are the word of that
/// channel alone, and no other register is touched.
pub proof fn data_register_belongs_to_its_channel(
    unit: TauModel,
    ch: int,
    low: u8,
    high: u8,
    other: u32,
)
    requires
        unit.tdr.len() == 8,
        unit.tmr.len() == 8,
        0 <= ch < 8,
    ensures
        ({
            let addr = if ch < 2 {
                (0xFFF18 + 2 * ch) as u32
            } else {
                (0xFFF64 + 2 * (ch - 2)) as u32
            };
            let after = unit.after_byte(addr, low).after_byte((addr + 1) as u32, high);
            &&& after.tdr =~= unit.tdr.update(ch, (low + 256 * high) as u16)
            &&& after.byte_at(addr) == low
            &&& after.byte_at((addr + 1) as u32) == high
            &&& other != addr && other != addr + 1 ==> after.byte_at(other) == unit.byte_at(other)
        }),
{
    let addr = if ch < 2 {
        (0xFFF18 + 2 * ch) as u32
    } else {
        (0xFFF64 + 2 * (ch - 2)) as u32
    };
    assert(tdr_index(addr) == Some(ch));
    assert(word_addr(addr) == addr);
    assert(word_addr((addr + 1) as u32) == addr);
    let one = unit.after_byte(addr, low);
    let after = one.after_byte((addr + 1) as u32, high);
    assert(one.tdr[ch] == with_byte(unit.tdr[ch], false, low));
    assert(after.tdr[ch] == with_byte(one.tdr[ch], true, high));
    assert(after.tdr =~= unit.tdr.update(ch, (low + 256 * high) as u16));
    data_register_reads_back(unit, addr, low, high);
    if other != addr && other != addr + 1 {
        write_touches_one_byte(unit, addr, low, other);
        write_touches_one_byte(one, (addr + 1) as u32, high, other);
    }
}

/// A byte that is written changes no other byte that can be read, but for TS
/// and TT, which change TE.
pub proof fn write_touches_one_byte(unit: TauModel, addr: u32, value: u8, other: u32)
    requires
        unit.tdr.len() == 8,
        unit.tmr.len() == 8,
        other != addr,
        0xF01B2 <= addr < 0xF01B6 ==> other != 0xF01B0 && other != 0xF01B1,
    ensures
        unit.after_byte(addr, value).byte_at(other) == unit.byte_at(other),
{
    let word = unit.word_at(word_addr(addr));
    let merged = with_byte(word, addr % 2 != 0, value);
    let a = word_addr(addr);
    let b = word_addr(other);
    if a == b {
        assert(merged % 256 == if addr % 2 != 0 {
            word % 256
        } else {
            value as u16
        });
        assert(merged / 256 == if addr % 2 != 0 {
            value as u16
        } else {
            word / 256
        });
    } else if tdr_index(a) is Some && tdr_index(b) is Some {
        assert(tdr_index(a) != tdr_index(b));
    }
}

/// The mode registers at `0xF0190` to `0xF019F`, TPS at `0xF01B6`, and TO, TOE,
/// TOL and TOM at `0xF01B8` to `0xF01BF` read back every byte that is written
/// to them, and so do the input selections at `0xF0074` and `0xF0075`.
pub proof fn control_registers_read_back(unit: TauModel, addr: u32, value: u8)
    requires
        unit.tmr.len() == 8,
        0xF0190 <= addr < 0xF01A0 || 0xF01B6 <= addr < 0xF01C0 || addr == 0xF0074 || addr
            == 0xF0075,
    ensures
        unit.after_byte(addr, value).byte_at(addr) == value,
{
    let word = unit.word_at(word_addr(addr));
    let merged = with_byte(word, addr % 2 != 0, value);
    assert(addr % 2 == 0 ==> merged % 256 == value);
    assert(addr % 2 != 0 ==> merged / 256 == value);
}

/// Each control register lies at its own address: counts at `0xF0180`, modes
/// at `0xF0190` and flags at `0xF01A0`, two bytes for each channel, then TE,
/// TPS, TO, TOE, TOL and TOM. TS and TT read as zero.
pub proof fn control_registers_have_addresses(unit: TauModel, ch: int, high: bool)
    requires
        0 <= ch < 8,
    ensures
        ({
            let odd: int = if high {
                1
            } else {
                0
            };
            let half = |word: u16|
                if high {
                    word / 256
                } else {
                    word % 256
                };
            &&& unit.byte_at((0xF0180 + 2 * ch + odd) as u32) == half(unit.tcr[ch])
            &&& unit.byte_at((0xF0190 + 2 * ch + odd) as u32) == half(unit.tmr[ch])
            &&& unit.byte_at((0xF01A0 + 2 * ch + odd) as u32) == half(unit.tsr[ch])
            &&& unit.byte_at((0xF01B0 + odd) as u32) == half(unit.te)
            &&& unit.byte_at((0xF01B2 + odd) as u32) == 0
            &&& unit.byte_at((0xF01B4 + odd) as u32) == 0
            &&& unit.byte_at((0xF01B6 + odd) as u32) == half(unit.tps)
            &&& unit.byte_at((0xF01B8 + odd) as u32) == half(unit.to)
            &&& unit.byte_at((0xF01BA + odd) as u32) == half(unit.toe)
            &&& unit.byte_at((0xF01BC + odd) as u32) == half(unit.tol)
            &&& unit.byte_at((0xF01BE + odd) as u32) == half(unit.tom)
            &&& unit.byte_at((0xF0074 + odd) as u32) == if high {
                unit.tis1
            } else {
                unit.tis0
            }
        }),
{
}

/// Counts, flags and TE do not take writes; TE changes through TS at `0xF01B2`,
/// which sets the bits that are written, and TT at `0xF01B4`, which clears them.
pub proof fn status_registers_are_read_only(unit: TauModel, addr: u32, value: u8)
    ensures
        unit.after_byte(addr, value).tcr == unit.tcr,
        unit.after_byte(addr, value).tsr == unit.tsr,
        unit.after_byte(addr, value).te == if addr == 0xF01B2 {
            unit.te | (value as u16)
        } else if addr == 0xF01B3 {
            unit.te | ((256 * value) as u16)
        } else if addr == 0xF01B4 {
            unit.te & !(value as u16)
        } else if addr == 0xF01B5 {
            unit.te & !((256 * value) as u16)
        } else {
            unit.te
        },
{
    only_start_and_stop_change_te(unit, addr, value);
}

/// A byte stored to TS at `0xF01B2` starts the channels of its set bits: each
/// overflows when TDR + 1 cycles of fCLK have passed, in whole nanoseconds,
/// and never while fCLK is stopped. A byte stored to TT at `0xF01B4` stops the
/// channels of its set bits. Channels whose bit is clear go on, and no other
/// store starts or stops any.
pub proof fn start_and_stop_reach_their_channels(
    due: Seq<Option<u64>>,
    tdr: Seq<u16>,
    addr: u32,
    value: u8,
    now: u64,
    f_clk: u32,
    ch: int,
)
    requires
        due.len() == 8,
        0 <= ch < 8,
    ensures
        ({
            let after = due_after(due, tdr, addr, value, now, f_clk);
            let cycles = tdr[ch] + 1;
            &&& after.len() == 8
            &&& addr == 0xF01B2 && value & (1u8 << ch) != 0 ==> match after[ch] {
                Some(at) => {
                    &&& f_clk > 0
                    &&& now < at
                    &&& (at - now) * f_clk <= cycles * 1_000_000_000
                    &&& cycles * 1_000_000_000 < (at - now + 1) * f_clk
                },
                None => f_clk == 0 || cycles * 1_000_000_000 < f_clk || cycles * 1_000_000_000 >= (
                u64::MAX - now + 1) * f_clk,
            }
            &&& addr == 0xF01B4 && value & (1u8 << ch) != 0 ==> after[ch] is None
            &&& addr != 0xF01B2 && addr != 0xF01B4 || value & (1u8 << ch) == 0 ==> after[ch]
                == due[ch]
        }),
{
    let cycles = (tdr[ch] + 1) as u64;
    lemma_interval_bounds(tdr[ch], f_clk);
    if let Some(ns) = cycles_time(cycles, f_clk) {
        let room = u64::MAX - now + 1;
        if now + ns > u64::MAX {
            vstd::arithmetic::mul::lemma_mul_inequality(room, ns as int, f_clk as int);
        }
    }
}

/// TDR + 1 cycles, in whole nanoseconds.
proof fn lemma_interval_bounds(tdr: u16, f_clk: u32)
    ensures
        match interval(tdr, f_clk) {
            Some(ns) => {
                &&& f_clk > 0
                &&& 0 < ns
                &&& ns * f_clk <= (tdr + 1) * 1_000_000_000
                &&& (tdr + 1) * 1_000_000_000 < (ns + 1) * f_clk
            },
            None => f_clk == 0 || (tdr + 1) * 1_000_000_000 < f_clk,
        },
{
    let cycles = (tdr + 1) as u64;
    crate::peripherals::clock::cycle_time_is_whole_nanoseconds(cycles, f_clk);
    if f_clk > 0 {
        let total = cycles * 1_000_000_000;
        let ns = total / f_clk as int;
        assert(ns <= total) by {
            vstd::arithmetic::div_mod::lemma_div_nonincreasing(total, f_clk as int);
        }
    }
}

/// A channel that began its interval at `at` overflows TDR + 1 cycles later,
/// in whole nanoseconds, if that time can be told.
pub proof fn interval_is_one_more_than_data(tdr: u16, at: u64, f_clk: u32)
    ensures
        match later(at, interval(tdr, f_clk)) {
            Some(next) => {
                &&& f_clk > 0
                &&& at < next
                &&& (next - at) * f_clk <= (tdr + 1) * 1_000_000_000
                &&& (tdr + 1) * 1_000_000_000 < (next - at + 1) * f_clk
            },
            None => f_clk == 0 || (tdr + 1) * 1_000_000_000 < f_clk || (tdr + 1) * 1_000_000_000
                >= (u64::MAX - at + 1) * f_clk,
        },
{
    lemma_interval_bounds(tdr, f_clk);
    if let Some(ns) = interval(tdr, f_clk) {
        let room = u64::MAX - at + 1;
        if at + ns > u64::MAX {
            vstd::arithmetic::mul::lemma_mul_inequality(room, ns as int, f_clk as int);
        }
    }
}

/// A window takes accesses that lie within it, and refuses others without
/// effect. A byte at offset `o` is stored at address `0xFFF18 + o`,
/// `0xFFF64 + o`, `0xF0180 + o` or `0xF0074 + o`; of two bytes the first is
/// stored first.
pub proof fn window_stores_at_its_addresses(
    bank: TauBank,
    before: TauUnit,
    after: TauUnit,
    offset: u64,
    bytes: Seq<u8>,
    now: u64,
    f_clk: u32,
    r: Result<(), BusError>,
)
    requires
        (TauMmio { bank }).writes(before, after, offset, bytes, now, f_clk, r),
    ensures
        ({
            let base: int = match bank {
                TauBank::Tdr0 => 0xFFF18,
                TauBank::Tdr2 => 0xFFF64,
                TauBank::Ctrl => 0xF0180,
                TauBank::Tis => 0xF0074,
            };
            let size: int = match bank {
                TauBank::Tdr0 => 4,
                TauBank::Tdr2 => 12,
                TauBank::Ctrl => 64,
                TauBank::Tis => 2,
            };
            let addr = (base + offset) as u32;
            &&& r is Ok <==> offset + bytes.len() <= size
            &&& r is Err ==> after == before
            &&& r is Ok && bytes.len() == 1 ==> {
                &&& after.model() == before.model().after_byte(addr, bytes[0])
                &&& after.due@ == due_after(before.due@, before.tdr@, addr, bytes[0], now, f_clk)
            }
            &&& r is Ok && bytes.len() == 2 ==> {
                let half = before.model().after_byte(addr, bytes[0]);
                let started = due_after(before.due@, before.tdr@, addr, bytes[0], now, f_clk);
                &&& after.model() == half.after_byte((addr + 1) as u32, bytes[1])
                &&& after.due@ == due_after(
                    started,
                    half.tdr,
                    (addr + 1) as u32,
                    bytes[1],
                    now,
                    f_clk,
                )
            }
        }),
{
    reveal_with_fuel(after_stores, 3);
}

/// A read of a window gives the bytes at its addresses in order.
pub proof fn window_reads_at_its_addresses(
    bank: TauBank,
    tau: TauUnit,
    offset: u64,
    before: Seq<u8>,
    after: Seq<u8>,
    r: Result<(), BusError>,
    i: int,
)
    requires
        (TauMmio { bank }).reads(tau, offset, before, after, r),
        0 <= i < before.len(),
    ensures
        ({
            let base: int = match bank {
                TauBank::Tdr0 => 0xFFF18,
                TauBank::Tdr2 => 0xFFF64,
                TauBank::Ctrl => 0xF0180,
                TauBank::Tis => 0xF0074,
            };
            let size: int = match bank {
                TauBank::Tdr0 => 4,
                TauBank::Tdr2 => 12,
                TauBank::Ctrl => 64,
                TauBank::Tis => 2,
            };
            &&& after.len() == before.len()
            &&& r is Ok <==> offset + before.len() <= size
            &&& r is Err ==> after == before
            &&& r is Ok ==> after[i] == tau.model().byte_at((base + offset + i) as u32)
        }),
{
}

/// After a reset data registers and counts read as all ones and everything
/// else as zero; no channel counts.
pub proof fn reset_unit_reads_its_values(tau: TauUnit, addr: u32, ch: int)
    requires
        tau.is_reset(),
        0 <= ch < 8,
    ensures
        tau.model().byte_at(addr) == if 0xFFF18 <= addr < 0xFFF1C || 0xFFF64 <= addr < 0xFFF70
            || 0xF0180 <= addr < 0xF0190 {
            0xFFu8
        } else {
            0u8
        },
        tau.due@[ch] is None,
{
    let word = word_addr(addr);
    assert(tau.tdr@[ch] == 0xFFFF);
    if let Some(k) = tdr_index(word) {
        assert(tau.tdr@[k] == 0xFFFF);
    } else if word >= TAU_ESFR {
        let k = ((word - TAU_ESFR) / 2) % 8;
        assert(tau.tdr@[k] == 0xFFFF);
    }
}

/// The addresses at which the unit has registers.
pub proof fn unit_owns_its_addresses(addr: u32)
    ensures
        owned(addr) <==> 0xFFF18 <= addr <= 0xFFF1B || 0xFFF64 <= addr <= 0xFFF6F || 0xF0180 <= addr
            <= 0xF01BF || 0xF0074 <= addr <= 0xF0075,
{
}

} // verus!
