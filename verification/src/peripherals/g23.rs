//! RL78/G23 on-chip peripherals behind their bus windows, and the R7F100GxL part.

use vstd::prelude::*;

use crate::cluster::ipc::wire::UartFrame;
use crate::kernel::{Addr, BusError};
use crate::map::{disjoint, MemoryLayout, Window};
use crate::peripherals::byte_capture::ByteCapture;
use crate::peripherals::clock::{
    after_bytes, reset_applies_option_byte, ClockBank, ClockGenerator, ClockMmio,
};
use crate::peripherals::irq::{
    flag_write_reaches_its_lines, level_of, lines_are_distinct, mask_write_reaches_its_lines,
    raise_sets_one_flag, read_shows_its_lines, reset_masks_everything, takes_line_bits, CpuLine,
    IrqBankMmio, IrqController, IrqId, LineLevel, NUM_IRQS,
};
use crate::peripherals::sau::{SauCtrlMmio, SauModel, SauSdrMmio, SauUnit};
use crate::peripherals::tau::{
    due_after, interval, interval_is_one_more_than_data, later, window_reads_at_its_addresses,
    window_stores_at_its_addresses, TauBank, TauMmio, TauModel, TauUnit, TSR_OVF,
};

verus! {

/// A peripheral window of the core.
#[derive(Clone, Copy, Debug, PartialEq, Eq, Structural)]
pub enum G23Window {
    Clock(ClockBank),
    SauCtrl,
    /// Data registers of channels 0 and 1.
    SauSdr,
    Tau(TauBank),
    /// IF0, IF1 and their companions.
    IrqLow,
    /// IF2, IF3 and their companions.
    IrqHigh,
}

impl G23Window {
    /// Place of the window on the bus.
    pub open spec fn place(self) -> Window {
        match self {
            G23Window::Clock(bank) => Window { base: bank.base_addr(), size: bank.len() },
            G23Window::SauCtrl => Window { base: 0xF0100, size: 0x40 },
            G23Window::SauSdr => Window { base: 0xFFF10, size: 4 },
            G23Window::Tau(bank) => Window { base: bank.base_addr() as u64, size: bank.len() },
            G23Window::IrqLow => Window { base: 0xFFFE0, size: 0x10 },
            G23Window::IrqHigh => Window { base: 0xFFFD0, size: 0x10 },
        }
    }

    /// Place of the window on the bus.
    pub fn window(self) -> (r: Window)
        ensures
            r == self.place(),
    {
        match self {
            G23Window::Clock(bank) => Window { base: bank.base(), size: bank.size() },
            G23Window::SauCtrl => Window { base: 0xF0100, size: 0x40 },
            G23Window::SauSdr => Window { base: 0xFFF10, size: 4 },
            G23Window::Tau(bank) => Window { base: bank.base() as u64, size: bank.size() },
            G23Window::IrqLow => Window { base: 0xFFFE0, size: 0x10 },
            G23Window::IrqHigh => Window { base: 0xFFFD0, size: 0x10 },
        }
    }

    /// Every window.
    pub open spec fn all_windows() -> Seq<G23Window> {
        seq![
            G23Window::Clock(ClockBank::Sfr),
            G23Window::Clock(ClockBank::OscDiv),
            G23Window::Clock(ClockBank::Hoco),
            G23Window::Clock(ClockBank::Trim),
            G23Window::SauCtrl,
            G23Window::SauSdr,
            G23Window::Tau(TauBank::Tdr0),
            G23Window::Tau(TauBank::Tdr2),
            G23Window::Tau(TauBank::Ctrl),
            G23Window::Tau(TauBank::Tis),
            G23Window::IrqLow,
            G23Window::IrqHigh,
        ]
    }

    /// Every window, in the order in which they are mapped.
    pub fn all() -> (r: [G23Window; 12])
        ensures
            r@ == G23Window::all_windows(),
    {
        let r = [
            G23Window::Clock(ClockBank::Sfr),
            G23Window::Clock(ClockBank::OscDiv),
            G23Window::Clock(ClockBank::Hoco),
            G23Window::Clock(ClockBank::Trim),
            G23Window::SauCtrl,
            G23Window::SauSdr,
            G23Window::Tau(TauBank::Tdr0),
            G23Window::Tau(TauBank::Tdr2),
            G23Window::Tau(TauBank::Ctrl),
            G23Window::Tau(TauBank::Tis),
            G23Window::IrqLow,
            G23Window::IrqHigh,
        ];
        assert(r@ == G23Window::all_windows());
        r
    }

    /// The window that an address lies in.
    pub fn at(addr: Addr) -> (r: Option<G23Window>)
        ensures
            match r {
                Some(w) => w.place().covers(addr),
                None => forall|w: G23Window| !(#[trigger] w.place()).covers(addr),
            },
    {
        let all = G23Window::all();
        let mut i: usize = 0;
        while i < 12
            invariant
                i <= 12,
                all@ == G23Window::all_windows(),
                forall|k: int| 0 <= k < i ==> !(#[trigger] all@[k]).place().covers(addr),
            decreases 12 - i,
        {
            if all[i].window().contains(addr) {
                return Some(all[i]);
            }
            i += 1;
        }
        proof {
            assert forall|w: G23Window| !(#[trigger] w.place()).covers(addr) by {
                window_is_listed(w);
                let k = choose|k: int| 0 <= k < 12 && #[trigger] G23Window::all_windows()[k] == w;
                assert(!all@[k].place().covers(addr));
            }
        }
        None
    }
}

/// Every window is on the list.
pub proof fn window_is_listed(w: G23Window)
    ensures
        exists|k: int| 0 <= k < 12 && #[trigger] G23Window::all_windows()[k] == w,
{
    let all = G23Window::all_windows();
    let k: int = match w {
        G23Window::Clock(ClockBank::Sfr) => 0,
        G23Window::Clock(ClockBank::OscDiv) => 1,
        G23Window::Clock(ClockBank::Hoco) => 2,
        G23Window::Clock(ClockBank::Trim) => 3,
        G23Window::SauCtrl => 4,
        G23Window::SauSdr => 5,
        G23Window::Tau(TauBank::Tdr0) => 6,
        G23Window::Tau(TauBank::Tdr2) => 7,
        G23Window::Tau(TauBank::Ctrl) => 8,
        G23Window::Tau(TauBank::Tis) => 9,
        G23Window::IrqLow => 10,
        G23Window::IrqHigh => 11,
    };
    assert(all[k] == w);
}

/// Distinct windows of the core do not overlap.
pub proof fn windows_are_disjoint(a: G23Window, b: G23Window)
    requires
        a != b,
    ensures
        disjoint(a.place(), b.place()),
{
}

/// Something that happens at a time.
#[derive(Clone, Copy, Debug, PartialEq, Eq, Structural)]
pub enum G23Event {
    /// A timer channel overflows.
    TauOverflow { channel: usize },
    /// A serial channel has sent its frame.
    SauSent { channel: usize },
}

/// Request line of a timer channel.
pub open spec fn tau_line(channel: int) -> IrqId {
    if channel == 0 {
        IrqId::INTTM00
    } else if channel == 1 {
        IrqId::INTTM01
    } else if channel == 2 {
        IrqId::INTTM02
    } else if channel == 3 {
        IrqId::INTTM03
    } else if channel == 4 {
        IrqId::INTTM04
    } else if channel == 5 {
        IrqId::INTTM05
    } else if channel == 6 {
        IrqId::INTTM06
    } else {
        IrqId::INTTM07
    }
}

/// Request line of a timer channel.
pub fn tau_irq(channel: usize) -> (r: IrqId)
    ensures
        r == tau_line(channel as int),
{
    match channel {
        0 => IrqId::INTTM00,
        1 => IrqId::INTTM01,
        2 => IrqId::INTTM02,
        3 => IrqId::INTTM03,
        4 => IrqId::INTTM04,
        5 => IrqId::INTTM05,
        6 => IrqId::INTTM06,
        _ => IrqId::INTTM07,
    }
}

/// Request line of a serial channel.
pub open spec fn sau_line(channel: int) -> IrqId {
    if channel == 0 {
        IrqId::INTST0
    } else if channel == 1 {
        IrqId::INTSR0
    } else if channel == 2 {
        IrqId::INTST1
    } else {
        IrqId::INTSR1
    }
}

/// Request line of a serial channel.
pub fn sau_irq(channel: usize) -> (r: IrqId)
    ensures
        r == sau_line(channel as int),
{
    match channel {
        0 => IrqId::INTST0,
        1 => IrqId::INTSR0,
        2 => IrqId::INTST1,
        _ => IrqId::INTSR1,
    }
}

/// Generic G23 core: clock, SAU0, TAU0 and interrupt controller, with the
/// capture that its UART output goes to.
#[derive(Debug)]
pub struct Rl78G23Core {
    pub clock: ClockGenerator,
    pub sau: SauUnit,
    pub tau: TauUnit,
    pub irq: IrqController,
    pub uart_tx: ByteCapture,
}

impl Rl78G23Core {
    /// The pending request follows the interrupt latches.
    pub open spec fn wf(self) -> bool {
        self.irq.wf()
    }

    /// Core before its first reset.
    pub fn new() -> (r: Rl78G23Core)
        ensures
            r.wf(),
            r.clock == ClockGenerator::cleared(),
            r.sau.is_clear(0, 0),
            r.tau.is_reset(),
            r.irq.flag == 0,
            r.irq.mask == 0,
            forall|i: int| 0 <= i < 64 ==> (#[trigger] r.irq.priority@[i]) == 0,
            forall|i: int| 0 <= i < 12 ==> (#[trigger] r.irq.edge@[i]) == 0,
            r.irq.pending is None,
            r.uart_tx.frames@ == Seq::<UartFrame>::empty(),
    {
        Rl78G23Core {
            clock: ClockGenerator::new(),
            sau: SauUnit::new(),
            tau: TauUnit::default(),
            irq: IrqController::new(),
            uart_tx: ByteCapture::new(),
        }
    }

    /// Reset the clock generator with this option byte. The other units keep
    /// their state.
    pub fn reset(&mut self, option_byte: Option<u8>)
        ensures
            final(self).clock == ClockGenerator::after_reset(option_byte),
            final(self).sau == old(self).sau,
            final(self).tau == old(self).tau,
            final(self).irq == old(self).irq,
            final(self).uart_tx == old(self).uart_tx,
    {
        self.clock.reset(option_byte);
    }

    /// A read of this window at this offset.
    pub open spec fn reads(
        self,
        w: G23Window,
        offset: u64,
        before: Seq<u8>,
        after: Seq<u8>,
        r: Result<(), BusError>,
    ) -> bool {
        match w {
            G23Window::Clock(bank) => (ClockMmio { bank }).reads(
                self.clock,
                offset,
                before,
                after,
                r,
            ),
            G23Window::SauCtrl => (SauCtrlMmio {  }).reads(self.sau, offset, before, after, r),
            G23Window::SauSdr => (SauSdrMmio { channel_base: 0 }).reads(
                self.sau,
                offset,
                before,
                after,
                r,
            ),
            G23Window::Tau(bank) => (TauMmio { bank }).reads(self.tau, offset, before, after, r),
            G23Window::IrqLow => (IrqBankMmio { window: 0 }).reads(
                self.irq,
                offset,
                before,
                after,
                r,
            ),
            G23Window::IrqHigh => (IrqBankMmio { window: 1 }).reads(
                self.irq,
                offset,
                before,
                after,
                r,
            ),
        }
    }

    /// Read from the window that the address lies in.
    pub fn read(&self, addr: Addr, buf: &mut [u8]) -> (r: Result<(), BusError>)
        ensures
            final(buf)@.len() == old(buf)@.len(),
            forall|w: G23Window|
                (#[trigger] w.place()).covers(addr) ==> self.reads(
                    w,
                    (addr - w.place().base) as u64,
                    old(buf)@,
                    final(buf)@,
                    r,
                ),
            (forall|w: G23Window| !(#[trigger] w.place()).covers(addr)) ==> (r matches Err(e) && e
                == (BusError::Unmapped { addr }) && final(buf)@ == old(buf)@),
    {
        let w = match G23Window::at(addr) {
            Some(w) => w,
            None => {
                return Err(BusError::Unmapped { addr });
            },
        };
        proof {
            assert forall|v: G23Window| (#[trigger] v.place()).covers(addr) implies v == w by {
                if v != w {
                    windows_are_disjoint(v, w);
                }
            }
        }
        let offset: u64 = addr - w.window().base;
        match w {
            G23Window::Clock(bank) => ClockMmio::new(bank).read(&self.clock, offset, buf),
            G23Window::SauCtrl => SauCtrlMmio::new().read(&self.sau, offset, buf),
            G23Window::SauSdr => SauSdrMmio::new(0).read(&self.sau, offset, buf),
            G23Window::Tau(bank) => TauMmio::new(bank).read(&self.tau, offset, buf),
            G23Window::IrqLow => IrqBankMmio::new(0).read(&self.irq, offset, buf),
            G23Window::IrqHigh => IrqBankMmio::new(1).read(&self.irq, offset, buf),
        }
    }

    /// A write to this window at this offset and time. The other peripherals
    /// keep their state.
    pub open spec fn writes(
        self,
        after: Rl78G23Core,
        w: G23Window,
        offset: u64,
        bytes: Seq<u8>,
        now: u64,
        r: Result<(), BusError>,
    ) -> bool {
        let f_clk = self.clock.tree.f_clk;
        &&& after.uart_tx == self.uart_tx
        &&& match w {
            G23Window::Clock(bank) => {
                &&& (ClockMmio { bank }).writes(self.clock, after.clock, offset, bytes, r)
                &&& after.sau == self.sau
                &&& after.tau == self.tau
                &&& after.irq == self.irq
            },
            G23Window::SauCtrl => {
                &&& (SauCtrlMmio {  }).writes(self.sau, after.sau, offset, bytes, r)
                &&& after.clock == self.clock
                &&& after.tau == self.tau
                &&& after.irq == self.irq
            },
            G23Window::SauSdr => {
                &&& (SauSdrMmio { channel_base: 0 }).writes(
                    self.sau,
                    after.sau,
                    offset,
                    bytes,
                    now,
                    f_clk,
                    r,
                )
                &&& after.clock == self.clock
                &&& after.tau == self.tau
                &&& after.irq == self.irq
            },
            G23Window::Tau(bank) => {
                &&& (TauMmio { bank }).writes(
                    self.tau,
                    after.tau,
                    offset,
                    bytes,
                    now,
                    f_clk,
                    r,
                )
                &&& after.clock == self.clock
                &&& after.sau == self.sau
                &&& after.irq == self.irq
            },
            G23Window::IrqLow => {
                &&& (IrqBankMmio { window: 0 }).writes(self.irq, after.irq, offset, bytes, r)
                &&& after.clock == self.clock
                &&& after.sau == self.sau
                &&& after.tau == self.tau
            },
            G23Window::IrqHigh => {
                &&& (IrqBankMmio { window: 1 }).writes(self.irq, after.irq, offset, bytes, r)
                &&& after.clock == self.clock
                &&& after.sau == self.sau
                &&& after.tau == self.tau
            },
        }
    }

    /// A write goes to the window that the address lies in, and is refused
    /// where there is none.
    pub open spec fn stores(
        self,
        after: Rl78G23Core,
        addr: Addr,
        bytes: Seq<u8>,
        now: u64,
        r: Result<(), BusError>,
    ) -> bool {
        &&& forall|w: G23Window|
            (#[trigger] w.place()).covers(addr) ==> self.writes(
                after,
                w,
                (addr - w.place().base) as u64,
                bytes,
                now,
                r,
            )
        &&& (forall|w: G23Window| !(#[trigger] w.place()).covers(addr)) ==> (r matches Err(e) && e
            == (BusError::Unmapped { addr }) && after == self)
    }

    /// Write to the window that the address lies in.
    pub fn write(&mut self, addr: Addr, buf: &[u8], now: u64) -> (r: Result<(), BusError>)
        requires
            old(self).wf(),
        ensures
            final(self).wf(),
            old(self).stores(*final(self), addr, buf@, now, r),
    {
        let w = match G23Window::at(addr) {
            Some(w) => w,
            None => {
                return Err(BusError::Unmapped { addr });
            },
        };
        proof {
            assert forall|v: G23Window| (#[trigger] v.place()).covers(addr) implies v == w by {
                if v != w {
                    windows_are_disjoint(v, w);
                }
            }
        }
        let offset: u64 = addr - w.window().base;
        let f_clk = self.clock.f_clk_hz();
        match w {
            G23Window::Clock(bank) => ClockMmio::new(bank).write(&mut self.clock, offset, buf),
            G23Window::SauCtrl => SauCtrlMmio::new().write(&mut self.sau, offset, buf),
            G23Window::SauSdr => SauSdrMmio::new(0).write(&mut self.sau, offset, buf, now, f_clk),
            G23Window::Tau(bank) => TauMmio::new(bank).write(
                &mut self.tau,
                offset,
                buf,
                now,
                f_clk,
            ),
            G23Window::IrqLow => IrqBankMmio::new(0).write(&mut self.irq, offset, buf),
            G23Window::IrqHigh => IrqBankMmio::new(1).write(&mut self.irq, offset, buf),
        }
    }

    /// When an event happens, if it is to happen.
    pub open spec fn due(self, event: G23Event) -> Option<u64> {
        match event {
            G23Event::TauOverflow { channel } => if channel < 8 {
                self.tau.due@[channel as int]
            } else {
                None
            },
            G23Event::SauSent { channel } => if channel < 4 {
                self.sau.tx_due@[channel as int]
            } else {
                None
            },
        }
    }

    /// The next event with its time: no other one happens earlier.
    pub fn next_event(&self) -> (r: Option<(u64, G23Event)>)
        ensures
            match r {
                Some((at, event)) => self.due(event) == Some(at) && (forall|other: G23Event|
                    (#[trigger] self.due(other)) matches Some(t) ==> at <= t),
                None => forall|other: G23Event| (#[trigger] self.due(other)) is None,
            },
    {
        let mut best: Option<(u64, G23Event)> = None;
        let mut ch: usize = 0;
        while ch < 8
            invariant
                ch <= 8,
                match best {
                    Some((at, event)) => self.due(event) == Some(at) && (forall|k: usize|
                        k < ch ==> ((#[trigger] self.due(G23Event::TauOverflow { channel: k }))
                            matches Some(t) ==> at <= t)),
                    None => forall|k: usize|
                        k < ch ==> (#[trigger] self.due(G23Event::TauOverflow { channel: k }))
                            is None,
                },
            decreases 8 - ch,
        {
            if let Some(t) = self.tau.due[ch] {
                let earlier = match best {
                    Some((at, _)) => t < at,
                    None => true,
                };
                if earlier {
                    best = Some((t, G23Event::TauOverflow { channel: ch }));
                }
            }
            ch += 1;
        }
        let mut ch: usize = 0;
        while ch < 4
            invariant
                ch <= 4,
                match best {
                    Some((at, event)) => self.due(event) == Some(at) && (forall|k: usize|
                        k < 8 ==> ((#[trigger] self.due(G23Event::TauOverflow { channel: k }))
                            matches Some(t) ==> at <= t)) && (forall|k: usize|
                        k < ch ==> ((#[trigger] self.due(G23Event::SauSent { channel: k }))
                            matches Some(t) ==> at <= t)),
                    None => (forall|k: usize|
                        k < 8 ==> (#[trigger] self.due(G23Event::TauOverflow { channel: k }))
                            is None) && (forall|k: usize|
                        k < ch ==> (#[trigger] self.due(G23Event::SauSent { channel: k })) is None),
                },
            decreases 4 - ch,
        {
            if let Some(t) = self.sau.tx_due[ch] {
                let earlier = match best {
                    Some((at, _)) => t < at,
                    None => true,
                };
                if earlier {
                    best = Some((t, G23Event::SauSent { channel: ch }));
                }
            }
            ch += 1;
        }
        proof {
            assert forall|other: G23Event| #[trigger] self.due(other) is Some implies match best {
                Some((at, _)) => at <= self.due(other)->0,
                None => false,
            } by {
                match other {
                    G23Event::TauOverflow { channel } => {
                        assert(channel < 8);
                        assert(self.due(G23Event::TauOverflow { channel }) is Some);
                    },
                    G23Event::SauSent { channel } => {
                        assert(channel < 4);
                        assert(self.due(G23Event::SauSent { channel }) is Some);
                    },
                }
            }
        }
        best
    }

    /// What an event leaves behind: an overflow sets the flag of the timer
    /// channel and raises its line; a sent frame reaches the capture and raises
    /// the line of the serial channel.
    pub open spec fn fired(self, after: Rl78G23Core, event: G23Event) -> bool {
        &&& after.clock == self.clock
        &&& after.irq.mask == self.irq.mask
        &&& after.irq.priority == self.irq.priority
        &&& after.irq.edge == self.irq.edge
        &&& match event {
            G23Event::TauOverflow { channel } => {
                &&& after.irq.flag == self.irq.flag | (1u64 << tau_line(
                    channel as int,
                ).line())
                &&& after.sau == self.sau
                &&& after.uart_tx == self.uart_tx
                &&& after.tau.model() == (TauModel {
                    tsr: self.tau.tsr@.update(
                        channel as int,
                        self.tau.tsr@[channel as int] | TSR_OVF,
                    ),
                    ..self.tau.model()
                })
                &&& after.tau.due@ == self.tau.due@.update(
                    channel as int,
                    later(
                        self.due(event)->0,
                        interval(
                            self.tau.tdr@[channel as int],
                            self.clock.tree.f_clk,
                        ),
                    ),
                )
            },
            G23Event::SauSent { channel } => {
                &&& after.irq.flag == self.irq.flag | (1u64 << sau_line(
                    channel as int,
                ).line())
                &&& after.tau == self.tau
                &&& after.sau.model() == (SauModel {
                    tx_due: self.sau.tx_due@.update(channel as int, None),
                    ..self.sau.model()
                })
                &&& after.uart_tx.frames@ == self.uart_tx.frames@.push(
                    UartFrame {
                        data: (self.sau.sdr@[channel as int] & 0xFF) as u8 as u16,
                        ..UartFrame::zero()
                    },
                )
            },
        }
    }

    /// Let an event happen.
    pub fn fire(&mut self, event: G23Event)
        requires
            old(self).wf(),
            old(self).due(event) is Some,
        ensures
            final(self).wf(),
            old(self).fired(*final(self), event),
    {
        match event {
            G23Event::TauOverflow { channel } => {
                self.tau.overflow(channel, self.clock.f_clk_hz());
                self.irq.raise(tau_irq(channel));
            },
            G23Event::SauSent { channel } => {
                let byte = self.sau.tx_done(channel);
                self.uart_tx.push(UartFrame { data: byte as u16, ..UartFrame::default() });
                self.irq.raise(sau_irq(channel));
            },
        }
    }
}

/// R7F100GxL: G23 core plus this part's ROM/RAM windows.
#[derive(Debug)]
pub struct R7F100Gxl {
    pub core: Rl78G23Core,
}

/// Address of the option byte with the oscillator selection.
pub const OPTION_BYTE: usize = 0xC2;

impl R7F100Gxl {
    /// ROM and RAM windows of the part.
    pub open spec fn layout() -> MemoryLayout {
        MemoryLayout { rom_base: 0x00000, rom_size: 0x20000, ram_base: 0xF3F00, ram_size: 0xC000 }
    }

    /// ROM and RAM windows of the part.
    pub fn memory_layout() -> (r: MemoryLayout)
        ensures
            r == R7F100Gxl::layout(),
    {
        MemoryLayout { rom_base: 0x00000, rom_size: 0x20000, ram_base: 0xF3F00, ram_size: 0xC000 }
    }

    /// The part before its first reset.
    pub fn new() -> (r: R7F100Gxl)
        ensures
            r.core.wf(),
            r.core.clock == ClockGenerator::cleared(),
            r.core.sau.is_clear(0, 0),
            r.core.tau.is_reset(),
            r.core.irq.flag == 0,
            r.core.irq.mask == 0,
            forall|i: int| 0 <= i < 64 ==> (#[trigger] r.core.irq.priority@[i]) == 0,
            forall|i: int| 0 <= i < 12 ==> (#[trigger] r.core.irq.edge@[i]) == 0,
            r.core.irq.pending is None,
            r.core.uart_tx.frames@ == Seq::<UartFrame>::empty(),
    {
        R7F100Gxl { core: Rl78G23Core::new() }
    }

    /// Apply an MCU reset to every unit: the option byte is taken from ROM,
    /// where it reaches that far.
    pub fn reset(&mut self, rom: &[u8])
        ensures
            final(self).core.wf(),
            final(self).core.clock == ClockGenerator::after_reset(
                if rom@.len() > OPTION_BYTE {
                    Some(rom@[OPTION_BYTE as int])
                } else {
                    None
                },
            ),
            final(self).core.sau.is_clear(0x0020, 0x0004),
            final(self).core.tau.is_reset(),
            final(self).core.irq.is_reset(),
            final(self).core.uart_tx.frames@ == Seq::<UartFrame>::empty(),
    {
        let option_byte = if rom.len() > OPTION_BYTE {
            Some(rom[OPTION_BYTE])
        } else {
            None
        };
        self.core.reset(option_byte);
        self.core.sau.reset();
        self.core.tau = TauUnit::default();
        self.core.irq.reset();
        self.core.uart_tx.clear();
    }
}

/// The part with its interrupt controller connected to the CPU. Each operation
/// hands over the levels that the CPU is to be given.
#[derive(Debug)]
pub struct G23Machine {
    pub part: R7F100Gxl,
    pub line: CpuLine,
}

/// Whether an address lies in a window of the interrupt latches.
pub open spec fn is_latch_address(addr: Addr) -> bool {
    G23Window::IrqLow.place().covers(addr) || G23Window::IrqHigh.place().covers(addr)
}

impl G23Machine {
    /// The line is connected and carries the pending request.
    pub open spec fn wf(self) -> bool {
        &&& self.part.core.wf()
        &&& self.line.bound
        &&& self.line.follows(self.part.core.irq)
    }

    /// State of the part after a reset with this ROM.
    pub open spec fn is_reset(self, rom: Seq<u8>) -> bool {
        &&& self.part.core.clock == ClockGenerator::after_reset(
            if rom.len() > OPTION_BYTE {
                Some(rom[OPTION_BYTE as int])
            } else {
                None
            },
        )
        &&& self.part.core.sau.is_clear(0x0020, 0x0004)
        &&& self.part.core.tau.is_reset()
        &&& self.part.core.irq.is_reset()
        &&& self.part.core.uart_tx.frames@ == Seq::<UartFrame>::empty()
    }

    /// A part that was reset with this ROM, connected to the CPU.
    pub fn new(rom: &[u8]) -> (r: (G23Machine, LineLevel))
        ensures
            r.0.wf(),
            r.0.is_reset(rom@),
            r.1 == r.0.line.level,
    {
        let mut part = R7F100Gxl::new();
        part.reset(rom);
        let mut line = CpuLine::new();
        let level = line.bind(&part.core.irq);
        (G23Machine { part, line }, level)
    }

    /// Apply an MCU reset.
    pub fn reset(&mut self, rom: &[u8]) -> (r: Option<LineLevel>)
        requires
            old(self).wf(),
        ensures
            final(self).wf(),
            final(self).is_reset(rom@),
            r == Some(level_of(final(self).part.core.irq.pending)),
    {
        self.part.reset(rom);
        self.line.drive(&self.part.core.irq)
    }

    /// Write to the window that the address lies in. The line is driven where
    /// the write has reached the interrupt latches.
    pub fn write(&mut self, addr: Addr, buf: &[u8], now: u64) -> (r: (
        Result<(), BusError>,
        Option<LineLevel>,
    ))
        requires
            old(self).wf(),
        ensures
            final(self).wf(),
            old(self).part.core.stores(final(self).part.core, addr, buf@, now, r.0),
            r.1 == if r.0 is Ok && is_latch_address(addr) {
                Some(level_of(final(self).part.core.irq.pending))
            } else {
                None
            },
    {
        let stored = self.part.core.write(addr, buf, now);
        let window = G23Window::at(addr);
        let latches = match window {
            Some(G23Window::IrqLow) | Some(G23Window::IrqHigh) => true,
            _ => false,
        };
        proof {
            if let Some(w) = window {
                assert(w.place().covers(addr));
                if w != G23Window::IrqLow {
                    windows_are_disjoint(w, G23Window::IrqLow);
                }
                if w != G23Window::IrqHigh {
                    windows_are_disjoint(w, G23Window::IrqHigh);
                }
            }
        }
        let level = if latches && stored.is_ok() {
            self.line.drive(&self.part.core.irq)
        } else {
            None
        };
        (stored, level)
    }

    /// Let an event happen: it raises a line, and what is pending then is driven.
    pub fn fire(&mut self, event: G23Event) -> (r: Option<LineLevel>)
        requires
            old(self).wf(),
            old(self).part.core.due(event) is Some,
        ensures
            final(self).wf(),
            old(self).part.core.fired(final(self).part.core, event),
            r == Some(level_of(final(self).part.core.irq.pending)),
    {
        self.part.core.fire(event);
        self.line.drive(&self.part.core.irq)
    }

    /// The CPU has accepted the request with this index (its low eight bits
    /// count). A line that does not exist is ignored.
    pub fn on_ack(&mut self, index: u32) -> (r: Option<LineLevel>)
        requires
            old(self).wf(),
        ensures
            final(self).wf(),
            final(self).part.core.clock == old(self).part.core.clock,
            final(self).part.core.sau == old(self).part.core.sau,
            final(self).part.core.tau == old(self).part.core.tau,
            final(self).part.core.uart_tx == old(self).part.core.uart_tx,
            if index % 256 < NUM_IRQS {
                &&& final(self).part.core.irq.flag == old(self).part.core.irq.flag & !(1u64 << ((
                index % 256) as u8))
                &&& final(self).part.core.irq.mask == old(self).part.core.irq.mask
                &&& final(self).part.core.irq.priority == old(self).part.core.irq.priority
                &&& final(self).part.core.irq.edge == old(self).part.core.irq.edge
                &&& r == Some(level_of(final(self).part.core.irq.pending))
            } else {
                &&& final(self).part.core.irq == old(self).part.core.irq
                &&& r is None
            },
    {
        self.line.on_ack(&mut self.part.core.irq, index)
    }
}

/// Neither ROM nor RAM of the part covers a peripheral window, and they do not
/// overlap each other.
pub proof fn part_memory_is_clear_of_peripherals(w: G23Window)
    ensures
        ({
            let layout = R7F100Gxl::layout();
            let rom = Window { base: layout.rom_base, size: layout.rom_size as u64 };
            let ram = Window { base: layout.ram_base, size: layout.ram_size as u64 };
            &&& disjoint(rom, w.place())
            &&& disjoint(ram, w.place())
            &&& disjoint(rom, ram)
        }),
{
}

/// Vector index of the request line of each timer and each serial channel.
pub proof fn channels_have_their_lines(channel: int)
    ensures
        0 <= channel < 8 ==> tau_line(channel).line() == if channel == 0 {
            14
        } else if channel < 4 {
            20 + channel
        } else {
            27 + channel
        },
        0 <= channel < 4 ==> sau_line(channel).line() == if channel == 0 {
            13int
        } else if channel == 1 {
            20
        } else {
            14 + channel
        },
{
}

/// Addresses of each window.
pub proof fn windows_lie_at_their_addresses(addr: Addr)
    ensures
        G23Window::Clock(ClockBank::Sfr).place().covers(addr) <==> 0xFFFA0 <= addr <= 0xFFFA7,
        G23Window::Clock(ClockBank::OscDiv).place().covers(addr) <==> 0xF00F2 <= addr <= 0xF00F3,
        G23Window::Clock(ClockBank::Hoco).place().covers(addr) <==> 0xF00A0 <= addr <= 0xF00A8,
        G23Window::Clock(ClockBank::Trim).place().covers(addr) <==> 0xF0212 <= addr <= 0xF0215,
        G23Window::SauCtrl.place().covers(addr) <==> 0xF0100 <= addr <= 0xF013F,
        G23Window::SauSdr.place().covers(addr) <==> 0xFFF10 <= addr <= 0xFFF13,
        G23Window::Tau(TauBank::Tdr0).place().covers(addr) <==> 0xFFF18 <= addr <= 0xFFF1B,
        G23Window::Tau(TauBank::Tdr2).place().covers(addr) <==> 0xFFF64 <= addr <= 0xFFF6F,
        G23Window::Tau(TauBank::Ctrl).place().covers(addr) <==> 0xF0180 <= addr <= 0xF01BF,
        G23Window::Tau(TauBank::Tis).place().covers(addr) <==> 0xF0074 <= addr <= 0xF0075,
        G23Window::IrqLow.place().covers(addr) <==> 0xFFFE0 <= addr <= 0xFFFEF,
        G23Window::IrqHigh.place().covers(addr) <==> 0xFFFD0 <= addr <= 0xFFFDF,
{
}

/// A store to MK0 and MK1 at `0xFFFE4` masks lines 0 to 31, one to MK2 and MK3
/// at `0xFFFD4` lines 32 to 63, eight lines for each byte. Stores to IF0, IF1
/// at `0xFFFE0` and to IF2, IF3 at `0xFFFD0` set their flags in the same way.
pub proof fn latch_store_reaches_its_lines(
    core: Rl78G23Core,
    after: Rl78G23Core,
    addr: Addr,
    bytes: Seq<u8>,
    now: u64,
)
    requires
        core.stores(after, addr, bytes, now, Ok(())),
        bytes.len() == 1 || bytes.len() == 2 && addr % 2 == 0,
    ensures
        0xFFFE0 <= addr < 0xFFFE4 ==> takes_line_bits(
            core.irq.flag,
            after.irq.flag,
            8 * (addr - 0xFFFE0),
            bytes,
        ) && after.irq.mask == core.irq.mask,
        0xFFFD0 <= addr < 0xFFFD4 ==> takes_line_bits(
            core.irq.flag,
            after.irq.flag,
            32 + 8 * (addr - 0xFFFD0),
            bytes,
        ) && after.irq.mask == core.irq.mask,
        0xFFFE4 <= addr < 0xFFFE8 ==> takes_line_bits(
            core.irq.mask,
            after.irq.mask,
            8 * (addr - 0xFFFE4),
            bytes,
        ) && after.irq.flag == core.irq.flag,
        0xFFFD4 <= addr < 0xFFFD8 ==> takes_line_bits(
            core.irq.mask,
            after.irq.mask,
            32 + 8 * (addr - 0xFFFD4),
            bytes,
        ) && after.irq.flag == core.irq.flag,
        !(0xFFFD0 <= addr < 0xFFFF0) ==> after.irq == core.irq,
{
    if 0xFFFE0 <= addr < 0xFFFF0 {
        let w = G23Window::IrqLow;
        assert(w.place().covers(addr));
        if addr < 0xFFFE4 {
            flag_write_reaches_its_lines(0, core.irq, after.irq, (addr - 0xFFFE0) as u64, bytes);
        } else if addr < 0xFFFE8 {
            mask_write_reaches_its_lines(0, core.irq, after.irq, (addr - 0xFFFE0) as u64, bytes);
        }
    } else if 0xFFFD0 <= addr < 0xFFFE0 {
        let w = G23Window::IrqHigh;
        assert(w.place().covers(addr));
        if addr < 0xFFFD4 {
            flag_write_reaches_its_lines(1, core.irq, after.irq, (addr - 0xFFFD0) as u64, bytes);
        } else if addr < 0xFFFD8 {
            mask_write_reaches_its_lines(1, core.irq, after.irq, (addr - 0xFFFD0) as u64, bytes);
        }
    } else {
        lemma_other_stores_keep_latches(core, after, addr, bytes, now, Ok(()));
    }
}

/// A store outside the latch windows leaves the latches alone.
proof fn lemma_other_stores_keep_latches(
    core: Rl78G23Core,
    after: Rl78G23Core,
    addr: Addr,
    bytes: Seq<u8>,
    now: u64,
    r: Result<(), BusError>,
)
    requires
        core.stores(after, addr, bytes, now, r),
        !(0xFFFD0 <= addr < 0xFFFF0),
    ensures
        after.irq == core.irq,
{
    if exists|w: G23Window| (#[trigger] w.place()).covers(addr) {
        let w = choose|w: G23Window| (#[trigger] w.place()).covers(addr);
        assert(core.writes(after, w, (addr - w.place().base) as u64, bytes, now, r));
        windows_lie_at_their_addresses(addr);
    }
}

/// A word stored at `0xFFF10` or `0xFFF12` is written to the data register of
/// serial channel 0 or 1 at that time and under the clock of the core.
pub proof fn data_store_reaches_its_channel(
    core: Rl78G23Core,
    after: Rl78G23Core,
    ch: int,
    bytes: Seq<u8>,
    now: u64,
    r: Result<(), BusError>,
)
    requires
        0 <= ch < 2,
        bytes.len() == 2,
        core.stores(after, (0xFFF10 + 2 * ch) as u64, bytes, now, r),
    ensures
        r is Ok,
        after.sau.model() == core.sau.model().with_data(
            ch,
            (bytes[0] + 256 * bytes[1]) as u16,
        ).started(ch, now, core.clock.tree.f_clk),
        after.clock == core.clock,
        after.tau == core.tau,
        after.irq == core.irq,
        after.uart_tx == core.uart_tx,
{
    let addr = (0xFFF10 + 2 * ch) as u64;
    assert(G23Window::SauSdr.place().covers(addr));
}

/// A byte stored to a register of the timer unit is stored there at that time
/// and under the clock of the core.
pub proof fn timer_store_reaches_its_register(
    core: Rl78G23Core,
    after: Rl78G23Core,
    addr: u32,
    value: u8,
    now: u64,
    r: Result<(), BusError>,
)
    requires
        0xFFF18 <= addr < 0xFFF1C || 0xFFF64 <= addr < 0xFFF70 || 0xF0180 <= addr < 0xF01C0
            || 0xF0074 <= addr < 0xF0076,
        core.stores(after, addr as u64, seq![value], now, r),
    ensures
        r is Ok,
        after.tau.model() == core.tau.model().after_byte(addr, value),
        after.tau.due@ == due_after(
            core.tau.due@,
            core.tau.tdr@,
            addr,
            value,
            now,
            core.clock.tree.f_clk,
        ),
        after.clock == core.clock,
        after.sau == core.sau,
        after.irq == core.irq,
        after.uart_tx == core.uart_tx,
{
    let bank = if addr >= 0xFFF64 {
        TauBank::Tdr2
    } else if addr >= 0xFFF18 {
        TauBank::Tdr0
    } else if addr >= 0xF0180 {
        TauBank::Ctrl
    } else {
        TauBank::Tis
    };
    let w = G23Window::Tau(bank);
    assert(w.place().covers(addr as u64));
    window_stores_at_its_addresses(
        bank,
        core.tau,
        after.tau,
        (addr - bank.base_addr()) as u64,
        seq![value],
        now,
        core.clock.tree.f_clk,
        r,
    );
}

/// A byte stored to a register of the clock generator is written there, and
/// nothing else changes.
pub proof fn clock_store_reaches_its_register(
    core: Rl78G23Core,
    after: Rl78G23Core,
    addr: Addr,
    value: u8,
    now: u64,
    r: Result<(), BusError>,
)
    requires
        0xFFFA0 <= addr < 0xFFFA8 || 0xF00F2 <= addr < 0xF00F4 || 0xF00A0 <= addr < 0xF00A9
            || 0xF0212 <= addr < 0xF0216,
        core.stores(after, addr, seq![value], now, r),
    ensures
        r is Ok,
        after.clock == if addr >= 0xFFFA0 {
            core.clock.after_write(ClockBank::Sfr, (addr - 0xFFFA0) as u64, value)
        } else if addr >= 0xF0212 {
            core.clock.after_write(ClockBank::Trim, (addr - 0xF0212) as u64, value)
        } else if addr >= 0xF00F2 {
            core.clock.after_write(ClockBank::OscDiv, (addr - 0xF00F2) as u64, value)
        } else {
            core.clock.after_write(ClockBank::Hoco, (addr - 0xF00A0) as u64, value)
        },
        after.sau == core.sau,
        after.tau == core.tau,
        after.irq == core.irq,
        after.uart_tx == core.uart_tx,
{
    let bank = if addr >= 0xFFFA0 {
        ClockBank::Sfr
    } else if addr >= 0xF0212 {
        ClockBank::Trim
    } else if addr >= 0xF00F2 {
        ClockBank::OscDiv
    } else {
        ClockBank::Hoco
    };
    let w = G23Window::Clock(bank);
    assert(w.place().covers(addr));
    reveal_with_fuel(after_bytes, 2);
}

/// An overflow of a timer channel sets bit 0 of its flags, raises its line and
/// no other, and begins an interval of TDR + 1 cycles at the time at which it
/// was due. The other channels go on.
pub proof fn overflow_raises_its_line(
    core: Rl78G23Core,
    after: Rl78G23Core,
    channel: usize,
    other: IrqId,
)
    requires
        channel < 8,
        core.tau.due@[channel as int] is Some,
        core.fired(after, G23Event::TauOverflow { channel }),
    ensures
        ({
            let ch = channel as int;
            let line: u8 = if channel == 0 {
                14
            } else if channel < 4 {
                (20 + channel) as u8
            } else {
                (27 + channel) as u8
            };
            let at = core.tau.due@[ch]->0;
            let cycles = core.tau.tdr@[ch] + 1;
            let f_clk = core.clock.tree.f_clk;
            &&& after.irq.flag & (1u64 << other.line()) != 0 <==> core.irq.flag & (1u64
                << other.line()) != 0 || other.line() == line
            &&& after.tau.tsr@[ch] == core.tau.tsr@[ch] | 0x0001
            &&& match after.tau.due@[ch] {
                Some(next) => {
                    &&& at < next
                    &&& (next - at) * f_clk <= cycles * 1_000_000_000
                    &&& cycles * 1_000_000_000 < (next - at + 1) * f_clk
                },
                None => f_clk == 0 || cycles * 1_000_000_000 < f_clk || cycles * 1_000_000_000 >= (
                u64::MAX - at + 1) * f_clk,
            }
            &&& forall|k: int|
                #![trigger after.tau.due@[k]]
                0 <= k < 8 && k != ch ==> after.tau.due@[k] == core.tau.due@[k]
                    && after.tau.tsr@[k] == core.tau.tsr@[k]
            &&& after.tau.te == core.tau.te
            &&& after.tau.tdr@ == core.tau.tdr@
            &&& after.sau == core.sau
            &&& after.uart_tx == core.uart_tx
        }),
{
    let ch = channel as int;
    channels_have_their_lines(ch);
    raise_sets_one_flag(core.irq.flag, tau_line(ch), other);
    lines_are_distinct(tau_line(ch), other);
    interval_is_one_more_than_data(
        core.tau.tdr@[ch],
        core.tau.due@[ch]->0,
        core.clock.tree.f_clk,
    );
    assert(after.tau.model().tsr == after.tau.tsr@);
    assert(after.tau.model().tdr == after.tau.tdr@);
    assert(after.tau.model().te == after.tau.te);
}

/// A frame that has gone out is captured last, with the low eight bits of the
/// data register as its data. The channel is idle again, its line is raised
/// and no other is, and the other channels go on.
pub proof fn sent_frame_is_captured(
    core: Rl78G23Core,
    after: Rl78G23Core,
    channel: usize,
    other: IrqId,
)
    requires
        channel < 4,
        core.fired(after, G23Event::SauSent { channel }),
    ensures
        ({
            let ch = channel as int;
            let line: u8 = if channel == 0 {
                13
            } else if channel == 1 {
                20
            } else {
                (14 + channel) as u8
            };
            &&& after.irq.flag & (1u64 << other.line()) != 0 <==> core.irq.flag & (1u64
                << other.line()) != 0 || other.line() == line
            &&& after.uart_tx.frames@.len() == core.uart_tx.frames@.len() + 1
            &&& after.uart_tx.frames@.drop_last() == core.uart_tx.frames@
            &&& after.uart_tx.frames@.last().data == core.sau.sdr@[ch] % 256
            &&& after.sau.tx_due@[ch] is None
            &&& forall|k: int|
                #![trigger after.sau.tx_due@[k]]
                0 <= k < 4 && k != ch ==> after.sau.tx_due@[k] == core.sau.tx_due@[k]
            &&& after.sau.sdr@ == core.sau.sdr@
            &&& after.sau.se == core.sau.se
            &&& after.tau == core.tau
        }),
{
    let ch = channel as int;
    channels_have_their_lines(ch);
    raise_sets_one_flag(core.irq.flag, sau_line(ch), other);
    lines_are_distinct(sau_line(ch), other);
    let word = core.sau.sdr@[ch];
    assert((word & 0xFF) as u8 as u16 == word % 256) by (bit_vector);
    assert(after.sau.model().tx_due == after.sau.tx_due@);
    assert(after.sau.model().sdr == after.sau.sdr@);
    assert(after.sau.model().se == after.sau.se);
    assert(after.uart_tx.frames@.drop_last() =~= core.uart_tx.frames@);
}

/// Each of the eight timer channels and the four serial channels has its
/// event; there are no others.
pub proof fn channels_have_their_events(core: Rl78G23Core, channel: usize)
    ensures
        core.due(G23Event::TauOverflow { channel }) == if channel < 8 {
            core.tau.due@[channel as int]
        } else {
            None
        },
        core.due(G23Event::SauSent { channel }) == if channel < 4 {
            core.sau.tx_due@[channel as int]
        } else {
            None
        },
{
}

/// A reset takes the oscillator from the byte at `0xC2` of ROM: 32 MHz where
/// its bit 3 is set and 24 MHz where it is not, halved as often as its low
/// three bits say. A ROM that does not reach so far gives 32 MHz.
pub proof fn reset_takes_oscillator_from_rom(machine: G23Machine, rom: Seq<u8>)
    requires
        machine.is_reset(rom),
    ensures
        ({
            let f_clk = machine.part.core.clock.tree.f_clk;
            if rom.len() <= 0xC2 {
                f_clk == 32_000_000
            } else {
                let h = (rom[0xC2] % 8) as nat;
                if rom[0xC2] / 8 % 2 == 1 {
                    &&& h <= 5 ==> f_clk * vstd::arithmetic::power2::pow2(h) == 32_000_000
                    &&& h > 5 ==> f_clk == 32_000_000
                } else {
                    &&& h <= 3 ==> f_clk * vstd::arithmetic::power2::pow2(h) == 24_000_000
                    &&& h > 3 ==> f_clk == 24_000_000
                }
            }
        }),
{
    let option_byte = if rom.len() > 0xC2 {
        Some(rom[0xC2])
    } else {
        None
    };
    reset_applies_option_byte(option_byte);
    vstd::arithmetic::power2::lemma2_to64();
}

/// The part has 128 KiB of ROM from address 0 on, and 48 KiB of RAM up to the
/// special function registers at `0xFFF00`.
pub proof fn part_memory_is_sized()
    ensures
        ({
            let layout = R7F100Gxl::layout();
            &&& layout.rom_base == 0
            &&& layout.rom_size == 128 * 1024
            &&& layout.ram_size == 48 * 1024
            &&& layout.ram_base + layout.ram_size == 0xFFF00
        }),
{
}

/// A byte that is read at an address comes from the register that lies there:
/// the clock generator, the serial unit, the timer unit, or the interrupt
/// latches, of which `0xFFFE0` to `0xFFFEF` hold lines 0 to 31 and `0xFFFD0` to
/// `0xFFFDF` the others.
pub proof fn read_reaches_its_register(
    core: Rl78G23Core,
    w: G23Window,
    addr: Addr,
    before: Seq<u8>,
    after: Seq<u8>,
    r: Result<(), BusError>,
    k: u64,
)
    requires
        w.place().covers(addr),
        before.len() == 1,
        k < 8,
        core.reads(w, (addr - w.place().base) as u64, before, after, r),
    ensures
        r is Ok,
        0xFFFA0 <= addr < 0xFFFA8 ==> after[0] == core.clock.value_at(
            ClockBank::Sfr,
            (addr - 0xFFFA0) as u64,
        ),
        0xF00F2 <= addr < 0xF00F4 ==> after[0] == core.clock.value_at(
            ClockBank::OscDiv,
            (addr - 0xF00F2) as u64,
        ),
        0xF00A0 <= addr < 0xF00A9 ==> after[0] == core.clock.value_at(
            ClockBank::Hoco,
            (addr - 0xF00A0) as u64,
        ),
        0xF0212 <= addr < 0xF0216 ==> after[0] == core.clock.value_at(
            ClockBank::Trim,
            (addr - 0xF0212) as u64,
        ),
        0xFFF10 <= addr < 0xFFF14 ==> {
            let word = core.sau.model().data_at((addr - 0xFFF10) / 2);
            after[0] == if addr % 2 == 0 {
                word % 256
            } else {
                word / 256
            }
        },
        0xF0100 <= addr < 0xF0140 ==> {
            let word = core.sau.model().control_at((addr - 0xF0100 - addr % 2) as u64);
            after[0] == if addr % 2 == 0 {
                word % 256
            } else {
                word / 256
            }
        },
        0xFFF18 <= addr < 0xFFF1C || 0xFFF64 <= addr < 0xFFF70 || 0xF0180 <= addr < 0xF01C0
            || 0xF0074 <= addr < 0xF0076 ==> after[0] == core.tau.model().byte_at(addr as u32),
        0xFFFE0 <= addr < 0xFFFE4 ==> (after[0] >> k) & 1 == (core.irq.flag >> ((8 * (addr
            - 0xFFFE0) + k) as u64)) & 1,
        0xFFFE4 <= addr < 0xFFFE8 ==> (after[0] >> k) & 1 == (core.irq.mask >> ((8 * (addr
            - 0xFFFE4) + k) as u64)) & 1,
        0xFFFD0 <= addr < 0xFFFD4 ==> (after[0] >> k) & 1 == (core.irq.flag >> ((32 + 8 * (addr
            - 0xFFFD0) + k) as u64)) & 1,
        0xFFFD4 <= addr < 0xFFFD8 ==> (after[0] >> k) & 1 == (core.irq.mask >> ((32 + 8 * (addr
            - 0xFFFD4) + k) as u64)) & 1,
{
    windows_lie_at_their_addresses(addr);
    match w {
        G23Window::Tau(bank) => {
            window_reads_at_its_addresses(
                bank,
                core.tau,
                (addr - w.place().base) as u64,
                before,
                after,
                r,
                0,
            );
        },
        G23Window::IrqLow => {
            read_shows_its_lines(0, core.irq, (addr - 0xFFFE0) as u64, before, after, 0, k);
        },
        G23Window::IrqHigh => {
            read_shows_its_lines(1, core.irq, (addr - 0xFFFD0) as u64, before, after, 0, k);
        },
        _ => {},
    }
}

/// A word stored at an even address from `0xF0100` on is written to that
/// control register of the serial unit, and nothing else changes.
pub proof fn control_store_reaches_its_register(
    core: Rl78G23Core,
    after: Rl78G23Core,
    addr: Addr,
    bytes: Seq<u8>,
    now: u64,
    r: Result<(), BusError>,
)
    requires
        0xF0100 <= addr < 0xF0140,
        addr % 2 == 0,
        bytes.len() == 2,
        core.stores(after, addr, bytes, now, r),
    ensures
        r is Ok,
        after.sau.model() == core.sau.model().after_control(
            (addr - 0xF0100) as u64,
            (bytes[0] + 256 * bytes[1]) as u16,
        ),
        after.clock == core.clock,
        after.tau == core.tau,
        after.irq == core.irq,
        after.uart_tx == core.uart_tx,
{
    assert(G23Window::SauCtrl.place().covers(addr));
}

/// A store outside every window is refused and changes nothing.
pub proof fn unmapped_store_is_refused(
    core: Rl78G23Core,
    after: Rl78G23Core,
    addr: Addr,
    bytes: Seq<u8>,
    now: u64,
    r: Result<(), BusError>,
)
    requires
        core.stores(after, addr, bytes, now, r),
        forall|w: G23Window| !(#[trigger] w.place()).covers(addr),
    ensures
        after == core,
        r matches Err(e) && e == (BusError::Unmapped { addr }),
{
}

/// The addresses of the interrupt latches are those from `0xFFFD0` to `0xFFFEF`.
pub proof fn latch_addresses(addr: Addr)
    ensures
        is_latch_address(addr) <==> 0xFFFD0 <= addr <= 0xFFFEF,
{
}

/// After a reset SMR and SCR of every serial channel read `0x0020` and
/// `0x0004`, the timer data registers all ones, every line is masked, nothing
/// is pending, and nothing was captured.
pub proof fn reset_part_reads_its_values(machine: G23Machine, rom: Seq<u8>, ch: int)
    requires
        machine.wf(),
        machine.is_reset(rom),
        0 <= ch < 4,
    ensures
        machine.part.core.sau.model().control_at((0x10 + 2 * ch) as u64) == 0x0020,
        machine.part.core.sau.model().control_at((0x18 + 2 * ch) as u64) == 0x0004,
        machine.part.core.tau.tdr@[ch] == 0xFFFF,
        machine.part.core.irq.mask == 0xFFFF_FFFF_FFFF_FFFF,
        machine.part.core.irq.flag == 0,
        machine.part.core.irq.pending is None,
        machine.line.level.level == 0,
        machine.part.core.uart_tx.frames@.len() == 0,
{
    assert(machine.part.core.sau.sdr@[ch] == 0);
    assert(machine.part.core.tau.tdr@[ch] == 0xFFFF);
    reset_masks_everything(machine.part.core.irq);
}

} // verus!
