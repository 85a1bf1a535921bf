//! Clock generator: register file and the oscillator tree derived from it.
//!
//! Registers are offsets within [`ClockBank`] windows mapped on the bus.

use vstd::prelude::*;

use crate::kernel::{out_of_range, Addr, BusError};

verus! {

/// Derived oscillator outputs in Hz (0 means stopped).
#[derive(Clone, Copy, Debug, PartialEq, Eq, Structural)]
pub struct ClockTree {
    pub f_ihp: u32,
    pub f_imp: u32,
    pub f_mxp: u32,
    pub f_clk: u32,
    pub f_main: u32,
    pub f_il: u32,
    pub f_sxp: u32,
    pub f_rtcck: u32,
}

impl ClockTree {
    /// Every output stopped.
    pub open spec fn stopped() -> ClockTree {
        ClockTree {
            f_ihp: 0,
            f_imp: 0,
            f_mxp: 0,
            f_clk: 0,
            f_main: 0,
            f_il: 0,
            f_sxp: 0,
            f_rtcck: 0,
        }
    }
}

impl Default for ClockTree {
    fn default() -> (r: ClockTree)
        ensures
            r == ClockTree::stopped(),
    {
        ClockTree {
            f_ihp: 0,
            f_imp: 0,
            f_mxp: 0,
            f_clk: 0,
            f_main: 0,
            f_il: 0,
            f_sxp: 0,
            f_rtcck: 0,
        }
    }
}

/// Windows of the clock generator on the bus.
#[derive(Clone, Copy, Debug, PartialEq, Eq, Structural)]
pub enum ClockBank {
    /// `0xFFFA0`, size 8: CMC..CKSEL.
    Sfr,
    /// `0xF00F2`, size 2: MOCODIV, OSMC.
    OscDiv,
    /// `0xF00A0`, size 9: HIOTRM, HOCODIV.
    Hoco,
    /// `0xF0212`, size 4: MIOTRM..WKUPMD.
    Trim,
}

impl ClockBank {
    /// Bus address of the window.
    pub open spec fn base_addr(self) -> Addr {
        match self {
            ClockBank::Sfr => 0xFFFA0,
            ClockBank::OscDiv => 0xF00F2,
            ClockBank::Hoco => 0xF00A0,
            ClockBank::Trim => 0xF0212,
        }
    }

    /// Bytes of the window.
    pub open spec fn len(self) -> u64 {
        match self {
            ClockBank::Sfr => 8,
            ClockBank::OscDiv => 2,
            ClockBank::Hoco => 9,
            ClockBank::Trim => 4,
        }
    }

    /// Every window.
    pub fn all() -> (r: [ClockBank; 4])
        ensures
            r@ == seq![ClockBank::Sfr, ClockBank::OscDiv, ClockBank::Hoco, ClockBank::Trim],
    {
        [ClockBank::Sfr, ClockBank::OscDiv, ClockBank::Hoco, ClockBank::Trim]
    }

    /// Bus address of the window.
    pub fn base(self) -> (r: Addr)
        ensures
            r == self.base_addr(),
    {
        match self {
            ClockBank::Sfr => 0xFFFA0,
            ClockBank::OscDiv => 0xF00F2,
            ClockBank::Hoco => 0xF00A0,
            ClockBank::Trim => 0xF0212,
        }
    }

    /// Bytes of the window.
    pub fn size(self) -> (r: u64)
        ensures
            r == self.len(),
    {
        match self {
            ClockBank::Sfr => 8,
            ClockBank::OscDiv => 2,
            ClockBank::Hoco => 9,
            ClockBank::Trim => 4,
        }
    }
}

pub const CSC_HIOSTOP: u8 = 0x01;

pub const CSC_MIOEN: u8 = 0x02;

pub const CSC_XTSTOP: u8 = 0x40;

pub const CSC_MSTOP: u8 = 0x80;

/// CSC bits that can be written: HIOSTOP, MIOEN, XTSTOP and MSTOP.
pub const CSC_WRITABLE: u8 = 0xC3;

pub const CKC_MCM1: u8 = 0x01;

pub const CKC_MCS1: u8 = 0x02;

pub const CKC_MCM0: u8 = 0x10;

pub const CKC_MCS: u8 = 0x20;

pub const CKC_CSS: u8 = 0x40;

pub const CKC_CLS: u8 = 0x80;

/// CKC bits that can be written: MCM1, MCM0 and CSS.
pub const CKC_WRITABLE: u8 = 0x51;

pub const CKSEL_SELLOSC: u8 = 0x01;

pub const OSMC_HIPREC: u8 = 0x01;

pub const OSMC_WUTMMCK: u8 = 0x10;

/// OSMC bits that can be written: WUTMMCK and RTCLPC.
pub const OSMC_WRITABLE: u8 = 0x90;

pub const WKUPMD_BIT: u8 = 0x01;

pub const OSTS_MASK: u8 = 0x07;

pub const HOCODIV_MASK: u8 = 0x07;

pub const MOCODIV_MASK: u8 = 0x03;

pub const MOSCDIV_MASK: u8 = 0x07;

pub const HIOTRM_MASK: u8 = 0x3F;

/// High-speed oscillator by HOCODIV, where FRQSEL3 is clear.
pub const HIGH_OSC_24_MHZ: [u32; 8] = [24, 12, 6, 3, 24, 24, 24, 24];

/// High-speed oscillator by HOCODIV, where FRQSEL3 is set.
pub const HIGH_OSC_32_MHZ: [u32; 8] = [32, 16, 8, 4, 2, 1, 32, 32];

/// Middle-speed oscillator by MOCODIV.
pub const MID_OSC_MHZ: [u32; 4] = [4, 2, 1, 4];

pub const MHZ: u32 = 1_000_000;

/// Low-speed oscillator in Hz.
pub const LOW_OSC: u32 = 32_768;

/// Clock generator register file and derived `fCLK` tree.
#[derive(Clone, Copy, Debug, PartialEq, Eq, Structural)]
pub struct ClockGenerator {
    pub cmc: u8,
    pub csc: u8,
    pub osts: u8,
    pub ckc: u8,
    pub cks0: u8,
    pub cks1: u8,
    pub osmc: u8,
    pub cksel: u8,
    pub hocodiv: u8,
    pub mocodiv: u8,
    pub moscdiv: u8,
    pub hiotrm: u8,
    pub miotrm: u8,
    pub liotrm: u8,
    pub wkupmd: u8,
    pub frqsel3: bool,
    pub cmc_dirty: bool,
    pub tree: ClockTree,
}

/// Some bit of the mask is set.
pub open spec fn any_set(register: u8, mask: u8) -> bool {
    register & mask != 0
}

/// CKC with each status bit following its selection bit.
pub open spec fn with_status(ckc: u8) -> u8 {
    let cls = if any_set(ckc, CKC_CSS) {
        ckc | CKC_CLS
    } else {
        ckc & !CKC_CLS
    };
    let mcs = if any_set(cls, CKC_MCM0) {
        cls | CKC_MCS
    } else {
        cls & !CKC_MCS
    };
    if any_set(mcs, CKC_MCM1) {
        mcs | CKC_MCS1
    } else {
        mcs & !CKC_MCS1
    }
}

/// Bits of `value` under the mask, the others as they were.
pub open spec fn merged(register: u8, value: u8, mask: u8) -> u8 {
    (value & mask) | (register & !mask)
}

impl ClockGenerator {
    /// High-speed on-chip oscillator, unless stopped by HIOSTOP.
    pub open spec fn high_osc(self) -> u32 {
        if any_set(self.csc, CSC_HIOSTOP) {
            0
        } else if self.frqsel3 {
            (HIGH_OSC_32_MHZ[(self.hocodiv & 7) as int] * MHZ) as u32
        } else {
            (HIGH_OSC_24_MHZ[(self.hocodiv & 7) as int] * MHZ) as u32
        }
    }

    /// Middle-speed on-chip oscillator, once enabled by MIOEN.
    pub open spec fn mid_osc(self) -> u32 {
        if any_set(self.csc, CSC_MIOEN) {
            (MID_OSC_MHZ[(self.mocodiv & 3) as int] * MHZ) as u32
        } else {
            0
        }
    }

    /// Main clock: the on-chip oscillator that MCM1 selects, unless MCM0
    /// selects the external clock, which is not there.
    pub open spec fn main_clock(self) -> u32 {
        if any_set(self.ckc, CKC_MCM0) {
            0
        } else if any_set(self.ckc, CKC_MCM1) {
            self.mid_osc()
        } else {
            self.high_osc()
        }
    }

    /// Sub clock: the low-speed oscillator, once SELLOSC selects it.
    pub open spec fn sub_clock(self) -> u32 {
        if any_set(self.cksel, CKSEL_SELLOSC) {
            LOW_OSC
        } else {
            0
        }
    }

    /// CPU and peripheral clock: the sub clock where CSS is set, else the main clock.
    pub open spec fn cpu_clock(self) -> u32 {
        if any_set(self.ckc, CKC_CSS) {
            self.sub_clock()
        } else {
            self.main_clock()
        }
    }

    /// Clock of the sub-system peripherals.
    pub open spec fn sub_peripheral_clock(self) -> u32 {
        if any_set(self.osmc, OSMC_WUTMMCK) {
            LOW_OSC
        } else {
            0
        }
    }

    /// The tree that the registers amount to.
    pub open spec fn derived(self) -> ClockTree {
        ClockTree {
            f_ihp: self.high_osc(),
            f_imp: self.mid_osc(),
            f_mxp: 0,
            f_clk: self.cpu_clock(),
            f_main: self.main_clock(),
            f_il: LOW_OSC,
            f_sxp: self.sub_peripheral_clock(),
            f_rtcck: self.sub_peripheral_clock(),
        }
    }

    /// The registers with the tree derived from them.
    pub open spec fn committed(self) -> ClockGenerator {
        ClockGenerator { tree: self.derived(), ..self }
    }

    /// Every register clear and every clock stopped.
    pub open spec fn cleared() -> ClockGenerator {
        ClockGenerator {
            cmc: 0,
            csc: 0,
            osts: 0,
            ckc: 0,
            cks0: 0,
            cks1: 0,
            osmc: 0,
            cksel: 0,
            hocodiv: 0,
            mocodiv: 0,
            moscdiv: 0,
            hiotrm: 0,
            miotrm: 0,
            liotrm: 0,
            wkupmd: 0,
            frqsel3: false,
            cmc_dirty: false,
            tree: ClockTree::stopped(),
        }
    }

    /// State after an MCU reset with this option byte.
    pub open spec fn after_reset(option_byte: Option<u8>) -> ClockGenerator {
        ClockGenerator {
            csc: 0xC0,
            osts: 0x07,
            osmc: 0x01,
            hiotrm: 0x20,
            miotrm: 0x90,
            liotrm: 0x80,
            hocodiv: match option_byte {
                Some(b) => b & 0x07,
                None => 0,
            },
            frqsel3: match option_byte {
                Some(b) => any_set(b, 0x08),
                None => true,
            },
            ..ClockGenerator::cleared()
        }.committed()
    }

    /// Uninitialized (pre-reset) instance. Apply [`Self::reset`] at MCU reset.
    pub fn new() -> (r: ClockGenerator)
        ensures
            r == ClockGenerator::cleared(),
    {
        ClockGenerator {
            cmc: 0,
            csc: 0,
            osts: 0,
            ckc: 0,
            cks0: 0,
            cks1: 0,
            osmc: 0,
            cksel: 0,
            hocodiv: 0,
            mocodiv: 0,
            moscdiv: 0,
            hiotrm: 0,
            miotrm: 0,
            liotrm: 0,
            wkupmd: 0,
            frqsel3: false,
            cmc_dirty: false,
            tree: ClockTree::default(),
        }
    }

    /// Apply option byte `0x000C2` (`FRQSEL`). `None` uses FRQSEL3=1, HOCODIV=0.
    pub fn reset(&mut self, option_byte: Option<u8>)
        ensures
            *final(self) == ClockGenerator::after_reset(option_byte),
    {
        let (hocodiv, frqsel3) = match option_byte {
            Some(b) => (b & 0x07, (b & 0x08) != 0),
            None => (0, true),
        };
        self.cmc = 0x00;
        self.ckc = 0x00;
        self.csc = 0xC0;
        self.osts = 0x07;
        self.cks0 = 0x00;
        self.cks1 = 0x00;
        self.osmc = 0x01;
        self.cksel = 0x00;
        self.hocodiv = hocodiv;
        self.mocodiv = 0x00;
        self.moscdiv = 0x00;
        self.hiotrm = 0x20;
        self.miotrm = 0x90;
        self.liotrm = 0x80;
        self.wkupmd = 0x00;
        self.frqsel3 = frqsel3;
        self.cmc_dirty = false;
        self.commit();
    }

    /// The derived outputs.
    pub fn tree(&self) -> (r: ClockTree)
        ensures
            r == self.tree,
    {
        self.tree
    }

    /// CPU and peripheral clock in Hz; zero while stopped.
    pub fn f_clk_hz(&self) -> (r: u32)
        ensures
            r == self.tree.f_clk,
    {
        self.tree.f_clk
    }

    /// What a read of this register gives. There is nothing at other offsets.
    pub open spec fn value_at(self, bank: ClockBank, offset: u64) -> u8 {
        match (bank, offset) {
            (ClockBank::Sfr, 0) => self.cmc,
            (ClockBank::Sfr, 1) => self.csc,
            (ClockBank::Sfr, 3) => self.osts,
            (ClockBank::Sfr, 4) => with_status(self.ckc),
            (ClockBank::Sfr, 5) => self.cks0,
            (ClockBank::Sfr, 6) => self.cks1,
            (ClockBank::Sfr, 7) => self.cksel,
            (ClockBank::OscDiv, 0) => self.mocodiv,
            (ClockBank::OscDiv, 1) => self.osmc | OSMC_HIPREC,
            (ClockBank::Hoco, 0) => self.hiotrm,
            (ClockBank::Hoco, 8) => self.hocodiv,
            (ClockBank::Trim, 0) => self.miotrm,
            (ClockBank::Trim, 1) => self.liotrm,
            (ClockBank::Trim, 2) => self.moscdiv,
            (ClockBank::Trim, 3) => self.wkupmd,
            _ => 0,
        }
    }

    /// Read one register.
    pub fn read_offset(&self, bank: ClockBank, offset: u64) -> (r: u8)
        ensures
            r == self.value_at(bank, offset),
    {
        match (bank, offset) {
            (ClockBank::Sfr, 0) => self.cmc,
            (ClockBank::Sfr, 1) => self.csc,
            (ClockBank::Sfr, 2) => 0,
            (ClockBank::Sfr, 3) => self.osts,
            (ClockBank::Sfr, 4) => self.read_ckc(),
            (ClockBank::Sfr, 5) => self.cks0,
            (ClockBank::Sfr, 6) => self.cks1,
            (ClockBank::Sfr, 7) => self.cksel,
            (ClockBank::OscDiv, 0) => self.mocodiv,
            (ClockBank::OscDiv, 1) => self.osmc | OSMC_HIPREC,
            (ClockBank::Hoco, 0) => self.hiotrm,
            (ClockBank::Hoco, 8) => self.hocodiv,
            (ClockBank::Trim, 0) => self.miotrm,
            (ClockBank::Trim, 1) => self.liotrm,
            (ClockBank::Trim, 2) => self.moscdiv,
            (ClockBank::Trim, 3) => self.wkupmd,
            _ => 0,
        }
    }

    /// The registers after a write, before the tree follows. CMC takes one
    /// new value after a reset; the others take the bits that can be written.
    pub open spec fn registers_after(self, bank: ClockBank, offset: u64, value: u8) -> ClockGenerator {
        match (bank, offset) {
            (ClockBank::Sfr, 0) => if !self.cmc_dirty && self.cmc != value {
                ClockGenerator { cmc: value, cmc_dirty: true, ..self }
            } else {
                self
            },
            (ClockBank::Sfr, 1) => ClockGenerator { csc: value & CSC_WRITABLE, ..self },
            (ClockBank::Sfr, 3) => ClockGenerator { osts: value & OSTS_MASK, ..self },
            (ClockBank::Sfr, 4) => ClockGenerator {
                ckc: with_status((self.ckc & !CKC_WRITABLE) | (value & CKC_WRITABLE)),
                ..self
            },
            (ClockBank::Sfr, 5) => ClockGenerator { cks0: value, ..self },
            (ClockBank::Sfr, 6) => ClockGenerator { cks1: value, ..self },
            (ClockBank::Sfr, 7) => ClockGenerator {
                cksel: merged(self.cksel, value, CKSEL_SELLOSC),
                ..self
            },
            (ClockBank::OscDiv, 0) => ClockGenerator { mocodiv: value & MOCODIV_MASK, ..self },
            (ClockBank::OscDiv, 1) => ClockGenerator {
                osmc: merged(self.osmc, value, OSMC_WRITABLE),
                ..self
            },
            (ClockBank::Hoco, 0) => ClockGenerator { hiotrm: value & HIOTRM_MASK, ..self },
            (ClockBank::Hoco, 8) => ClockGenerator { hocodiv: value & HOCODIV_MASK, ..self },
            (ClockBank::Trim, 0) => ClockGenerator { miotrm: value, ..self },
            (ClockBank::Trim, 1) => ClockGenerator { liotrm: value, ..self },
            (ClockBank::Trim, 2) => ClockGenerator { moscdiv: value & MOSCDIV_MASK, ..self },
            (ClockBank::Trim, 3) => ClockGenerator {
                wkupmd: merged(self.wkupmd, value, WKUPMD_BIT),
                ..self
            },
            _ => self,
        }
    }

    /// State after a write.
    pub open spec fn after_write(self, bank: ClockBank, offset: u64, value: u8) -> ClockGenerator {
        self.registers_after(bank, offset, value).committed()
    }

    /// Write one register.
    pub fn write_offset(&mut self, bank: ClockBank, offset: u64, value: u8)
        ensures
            *final(self) == old(self).after_write(bank, offset, value),
    {
        match (bank, offset) {
            (ClockBank::Sfr, 0) => {
                if !self.cmc_dirty && self.cmc != value {
                    self.cmc = value;
                    self.cmc_dirty = true;
                }
            },
            (ClockBank::Sfr, 1) => {
                self.csc = value & CSC_WRITABLE;
            },
            (ClockBank::Sfr, 2) => {},
            (ClockBank::Sfr, 3) => {
                self.osts = value & OSTS_MASK;
            },
            (ClockBank::Sfr, 4) => self.write_ckc(value),
            (ClockBank::Sfr, 5) => {
                self.cks0 = value;
            },
            (ClockBank::Sfr, 6) => {
                self.cks1 = value;
            },
            (ClockBank::Sfr, 7) => {
                self.cksel = (value & CKSEL_SELLOSC) | (self.cksel & !CKSEL_SELLOSC);
            },
            (ClockBank::OscDiv, 0) => {
                self.mocodiv = value & MOCODIV_MASK;
            },
            (ClockBank::OscDiv, 1) => {
                self.osmc = (value & OSMC_WRITABLE) | (self.osmc & !OSMC_WRITABLE);
            },
            (ClockBank::Hoco, 0) => {
                self.hiotrm = value & HIOTRM_MASK;
            },
            (ClockBank::Hoco, 8) => {
                self.hocodiv = value & HOCODIV_MASK;
            },
            (ClockBank::Trim, 0) => {
                self.miotrm = value;
            },
            (ClockBank::Trim, 1) => {
                self.liotrm = value;
            },
            (ClockBank::Trim, 2) => {
                self.moscdiv = value & MOSCDIV_MASK;
            },
            (ClockBank::Trim, 3) => {
                self.wkupmd = (value & WKUPMD_BIT) | (self.wkupmd & !WKUPMD_BIT);
            },
            _ => {},
        }
        self.commit();
    }

    fn read_ckc(&self) -> (r: u8)
        ensures
            r == with_status(self.ckc),
    {
        self.with_status_bits(self.ckc)
    }

    fn write_ckc(&mut self, value: u8)
        ensures
            *final(self) == (ClockGenerator {
                ckc: with_status((old(self).ckc & !CKC_WRITABLE) | (value & CKC_WRITABLE)),
                ..*old(self)
            }),
    {
        self.ckc = (self.ckc & !CKC_WRITABLE) | (value & CKC_WRITABLE);
        self.ckc = self.with_status_bits(self.ckc);
    }

    fn with_status_bits(&self, ckc: u8) -> (r: u8)
        ensures
            r == with_status(ckc),
    {
        let mut out = ckc;
        if out & CKC_CSS != 0 {
            out = out | CKC_CLS;
        } else {
            out = out & !CKC_CLS;
        }
        if out & CKC_MCM0 != 0 {
            out = out | CKC_MCS;
        } else {
            out = out & !CKC_MCS;
        }
        if out & CKC_MCM1 != 0 {
            out = out | CKC_MCS1;
        } else {
            out = out & !CKC_MCS1;
        }
        out
    }

    fn commit(&mut self)
        ensures
            *final(self) == old(self).committed(),
    {
        let hocodiv = self.hocodiv;
        let mocodiv = self.mocodiv;
        proof {
            lemma_divider_settings(hocodiv, mocodiv);
        }
        let high_mhz = if self.frqsel3 {
            HIGH_OSC_32_MHZ[(hocodiv & 7) as usize]
        } else {
            HIGH_OSC_24_MHZ[(hocodiv & 7) as usize]
        };
        let mid_mhz = MID_OSC_MHZ[(mocodiv & 3) as usize];
        proof {
            lemma_oscillators_fit();
        }
        let high_osc = if self.csc & CSC_HIOSTOP != 0 {
            0
        } else {
            high_mhz * MHZ
        };
        let mid_osc = if self.csc & CSC_MIOEN != 0 {
            mid_mhz * MHZ
        } else {
            0
        };
        let f_sub = if self.cksel & CKSEL_SELLOSC != 0 {
            LOW_OSC
        } else {
            0
        };
        let f_oco = if self.ckc & CKC_MCM1 != 0 {
            mid_osc
        } else {
            high_osc
        };
        let f_main = if self.ckc & CKC_MCM0 != 0 {
            0
        } else {
            f_oco
        };
        let f_clk = if self.ckc & CKC_CSS != 0 {
            f_sub
        } else {
            f_main
        };
        let f_sxp = if self.osmc & OSMC_WUTMMCK != 0 {
            LOW_OSC
        } else {
            0
        };
        self.tree =
        ClockTree {
            f_ihp: high_osc,
            f_imp: mid_osc,
            f_mxp: 0,
            f_clk,
            f_main,
            f_il: LOW_OSC,
            f_sxp,
            f_rtcck: f_sxp,
        };
    }
}

/// A divider has as many settings as its table.
proof fn lemma_divider_settings(hocodiv: u8, mocodiv: u8)
    ensures
        (hocodiv & 7) < 8,
        (mocodiv & 3) < 4,
{
    assert((hocodiv & 7) < 8 && (mocodiv & 3) < 4) by (bit_vector);
}

/// No on-chip oscillator is faster than 32 MHz.
proof fn lemma_oscillators_fit()
    ensures
        forall|i: int| 0 <= i < 8 ==> 1 <= #[trigger] HIGH_OSC_32_MHZ[i] <= 32,
        forall|i: int| 0 <= i < 8 ==> 1 <= #[trigger] HIGH_OSC_24_MHZ[i] <= 24,
        forall|i: int| 0 <= i < 4 ==> 1 <= #[trigger] MID_OSC_MHZ[i] <= 4,
{
}

impl Default for ClockGenerator {
    /// The generator after a reset without an option byte.
    fn default() -> (r: ClockGenerator)
        ensures
            r == ClockGenerator::after_reset(None),
    {
        let mut s = ClockGenerator::new();
        s.reset(None);
        s
    }
}

/// State after the first `n` of these bytes were written from `offset` on, in order.
pub open spec fn after_bytes(
    clock: ClockGenerator,
    bank: ClockBank,
    offset: u64,
    bytes: Seq<u8>,
    n: nat,
) -> ClockGenerator
    decreases n,
{
    if n == 0 {
        clock
    } else {
        after_bytes(clock, bank, offset, bytes, (n - 1) as nat).after_write(
            bank,
            (offset + (n - 1)) as u64,
            bytes[n - 1],
        )
    }
}

/// One mapped clock window. 8-bit SFRs: a 16-bit access updates two adjacent
/// registers once each (not a 16-bit timer-style RMW).
#[derive(Clone, Copy, Debug, PartialEq, Eq, Structural)]
pub struct ClockMmio {
    pub bank: ClockBank,
}

impl ClockMmio {
    /// The window of a bank.
    pub fn new(bank: ClockBank) -> (r: ClockMmio)
        ensures
            r == (ClockMmio { bank }),
    {
        ClockMmio { bank }
    }

    /// Bytes of the window.
    pub fn len(&self) -> (r: u64)
        ensures
            r == self.bank.len(),
    {
        self.bank.size()
    }

    /// A read gives each byte the register at its offset. An access that does
    /// not lie within the window is refused.
    pub open spec fn reads(
        self,
        clock: ClockGenerator,
        offset: u64,
        before: Seq<u8>,
        after: Seq<u8>,
        r: Result<(), BusError>,
    ) -> bool {
        &&& after.len() == before.len()
        &&& if offset + before.len() > self.bank.len() {
            &&& r matches Err(e) && e == out_of_range(offset, before.len())
            &&& after == before
        } else {
            &&& r is Ok
            &&& forall|i: int|
                0 <= i < before.len() ==> #[trigger] after[i] == clock.value_at(
                    self.bank,
                    (offset + i) as u64,
                )
        }
    }

    /// A write stores each byte in the register at its offset, in order. An
    /// access that does not lie within the window is refused.
    pub open spec fn writes(
        self,
        before: ClockGenerator,
        after: ClockGenerator,
        offset: u64,
        bytes: Seq<u8>,
        r: Result<(), BusError>,
    ) -> bool {
        if offset + bytes.len() > self.bank.len() {
            &&& r matches Err(e) && e == out_of_range(offset, bytes.len())
            &&& after == before
        } else {
            &&& r is Ok
            &&& after == after_bytes(before, self.bank, offset, bytes, bytes.len())
        }
    }

    /// Read registers into the buffer, one per byte.
    pub fn read(&self, clock: &ClockGenerator, offset: u64, buf: &mut [u8]) -> (r: Result<
        (),
        BusError,
    >)
        ensures
            self.reads(*clock, offset, old(buf)@, final(buf)@, r),
    {
        let n = buf.len();
        if offset.saturating_add(n as u64) > self.bank.size() {
            return Err(BusError::OutOfRange { addr: offset, offset, len: n });
        }
        let mut i: usize = 0;
        while i < n
            invariant
                i <= n,
                n == buf@.len(),
                n == old(buf)@.len(),
                offset + n <= self.bank.len(),
                forall|k: int|
                    0 <= k < i ==> (#[trigger] buf@[k]) == clock.value_at(
                        self.bank,
                        (offset + k) as u64,
                    ),
            decreases n - i,
        {
            buf[i] = clock.read_offset(self.bank, offset + i as u64);
            i += 1;
        }
        Ok(())
    }

    /// Write registers from the buffer, one per byte.
    pub fn write(&self, clock: &mut ClockGenerator, offset: u64, buf: &[u8]) -> (r: Result<
        (),
        BusError,
    >)
        ensures
            self.writes(*old(clock), *final(clock), offset, buf@, r),
    {
        let n = buf.len();
        if offset.saturating_add(n as u64) > self.bank.size() {
            return Err(BusError::OutOfRange { addr: offset, offset, len: n });
        }
        let ghost before = *clock;
        let mut i: usize = 0;
        while i < n
            invariant
                i <= n,
                n == buf@.len(),
                offset + n <= self.bank.len(),
                before == *old(clock),
                *clock == after_bytes(before, self.bank, offset, buf@, i as nat),
            decreases n - i,
        {
            clock.write_offset(self.bank, offset + i as u64, buf[i]);
            i += 1;
        }
        Ok(())
    }

    /// Registers cannot be loaded.
    pub fn load(&self, offset: u64) -> (r: Result<(), BusError>)
        ensures
            r matches Err(e) && e == (BusError::NotLoadable { addr: offset }),
    {
        Err(BusError::NotLoadable { addr: offset })
    }
}

/// The windows of the generator do not overlap.
pub proof fn clock_windows_are_disjoint(a: ClockBank, b: ClockBank)
    requires
        a != b,
    ensures
        a.base_addr() + a.len() <= b.base_addr() || b.base_addr() + b.len() <= a.base_addr(),
{
}

/// Whatever is written to CKC, each status bit reads back as its selection
/// bit, and the selection bits read back as written.
pub proof fn ckc_status_follows_selection(clock: ClockGenerator, value: u8)
    ensures
        ({
            let read = clock.after_write(ClockBank::Sfr, 4, value).value_at(ClockBank::Sfr, 4);
            &&& any_set(read, CKC_CLS) == any_set(value, CKC_CSS)
            &&& any_set(read, CKC_MCS) == any_set(value, CKC_MCM0)
            &&& any_set(read, CKC_MCS1) == any_set(value, CKC_MCM1)
            &&& read & CKC_WRITABLE == value & CKC_WRITABLE
        }),
{
    let ckc = clock.ckc;
    let merged_ckc = (ckc & !CKC_WRITABLE) | (value & CKC_WRITABLE);
    let read = with_status(with_status(merged_ckc));
    assert(merged_ckc & 0x51 == value & 0x51 && (merged_ckc & 0x40 != 0 <==> value & 0x40 != 0) && (
    merged_ckc & 0x10 != 0 <==> value & 0x10 != 0) && (merged_ckc & 0x01 != 0 <==> value & 0x01
        != 0)) by (bit_vector)
        requires
            merged_ckc == (ckc & !0x51u8) | (value & 0x51u8),
    ;
    lemma_status_bits(merged_ckc);
    lemma_status_bits(with_status(merged_ckc));
    let once = with_status(merged_ckc);
    assert((once & 0x40 != 0 <==> value & 0x40 != 0) && (once & 0x10 != 0 <==> value & 0x10 != 0)
        && (once & 0x01 != 0 <==> value & 0x01 != 0)) by (bit_vector)
        requires
            once & 0x51u8 == value & 0x51u8,
    ;
}

/// Setting the status bits keeps the other bits.
proof fn lemma_status_bits(ckc: u8)
    ensures
        with_status(ckc) & CKC_WRITABLE == ckc & CKC_WRITABLE,
        with_status(ckc) & 0x0C == ckc & 0x0C,
        any_set(with_status(ckc), CKC_CLS) == any_set(ckc, CKC_CSS),
        any_set(with_status(ckc), CKC_MCS) == any_set(ckc, CKC_MCM0),
        any_set(with_status(ckc), CKC_MCS1) == any_set(ckc, CKC_MCM1),
{
    let cls = if any_set(ckc, CKC_CSS) {
        ckc | CKC_CLS
    } else {
        ckc & !CKC_CLS
    };
    let mcs = if any_set(cls, CKC_MCM0) {
        cls | CKC_MCS
    } else {
        cls & !CKC_MCS
    };
    let out = with_status(ckc);
    assert((out & 0x51 == ckc & 0x51) && (out & 0x0C == ckc & 0x0C) && (out & 0x80 != 0 <==> ckc
        & 0x40 != 0) && (out & 0x20 != 0 <==> ckc & 0x10 != 0) && (out & 0x02 != 0 <==> ckc & 0x01 != 0)) by (bit_vector)
        requires
            cls == (if ckc & 0x40u8 != 0 {
                ckc | 0x80u8
            } else {
                ckc & !0x80u8
            }),
            mcs == (if cls & 0x10u8 != 0 {
                cls | 0x20u8
            } else {
                cls & !0x20u8
            }),
            out == (if mcs & 0x01u8 != 0 {
                mcs | 0x02u8
            } else {
                mcs & !0x02u8
            }),
    ;
}

/// CMC can be changed once after a reset: a second new value is ignored.
pub proof fn cmc_is_write_once(clock: ClockGenerator, first: u8, second: u8)
    requires
        first != clock.cmc,
    ensures
        clock.after_write(ClockBank::Sfr, 0, first).after_write(
            ClockBank::Sfr,
            0,
            second,
        ).value_at(ClockBank::Sfr, 0) == if clock.cmc_dirty {
            clock.cmc
        } else {
            first
        },
{
}

/// A write reaches no register but its own.
pub proof fn write_touches_one_register(
    clock: ClockGenerator,
    bank: ClockBank,
    offset: u64,
    value: u8,
    other_bank: ClockBank,
    other_offset: u64,
)
    requires
        bank != other_bank || offset != other_offset,
    ensures
        clock.after_write(bank, offset, value).value_at(other_bank, other_offset)
            == clock.value_at(other_bank, other_offset),
{
}

/// What a write leaves to be read: the bits that the register takes as they
/// were written, its other bits as they were or zero.
pub proof fn write_reads_back(clock: ClockGenerator, value: u8)
    ensures
        clock.after_write(ClockBank::Sfr, 1, value).value_at(ClockBank::Sfr, 1) == value & 0xC3,
        clock.after_write(ClockBank::Sfr, 3, value).value_at(ClockBank::Sfr, 3) == value % 8,
        clock.after_write(ClockBank::Sfr, 5, value).value_at(ClockBank::Sfr, 5) == value,
        clock.after_write(ClockBank::Sfr, 6, value).value_at(ClockBank::Sfr, 6) == value,
        clock.after_write(ClockBank::Sfr, 7, value).value_at(ClockBank::Sfr, 7) == clock.value_at(
            ClockBank::Sfr,
            7,
        ) / 2 * 2 + value % 2,
        clock.after_write(ClockBank::OscDiv, 0, value).value_at(ClockBank::OscDiv, 0) == value % 4,
        clock.after_write(ClockBank::OscDiv, 1, value).value_at(ClockBank::OscDiv, 1) == (
        clock.value_at(ClockBank::OscDiv, 1) & 0x6F) | (value & 0x90),
        clock.after_write(ClockBank::Hoco, 0, value).value_at(ClockBank::Hoco, 0) == value % 64,
        clock.after_write(ClockBank::Hoco, 8, value).value_at(ClockBank::Hoco, 8) == value % 8,
        clock.after_write(ClockBank::Trim, 0, value).value_at(ClockBank::Trim, 0) == value,
        clock.after_write(ClockBank::Trim, 1, value).value_at(ClockBank::Trim, 1) == value,
        clock.after_write(ClockBank::Trim, 2, value).value_at(ClockBank::Trim, 2) == value % 8,
        clock.after_write(ClockBank::Trim, 3, value).value_at(ClockBank::Trim, 3) == clock.value_at(
            ClockBank::Trim,
            3,
        ) / 2 * 2 + value % 2,
{
    let cksel = clock.cksel;
    let osmc = clock.osmc;
    let wkupmd = clock.wkupmd;
    assert(value & 0x07 == value % 8 && value & 0x03 == value % 4 && value & 0x3F == value % 64 && (
    value & 0x01) | (cksel & !0x01u8) == cksel / 2 * 2 + value % 2 && (value & 0x01) | (wkupmd
        & !0x01u8) == wkupmd / 2 * 2 + value % 2 && ((value & 0x90) | (osmc & !0x90u8)) | 0x01 == ((
    osmc | 0x01) & 0x6F) | (value & 0x90)) by (bit_vector);
}

/// The clock that the registers select is stopped exactly when they select a
/// source that is not running, and it is never faster than 32 MHz.
pub proof fn cpu_clock_follows_selection(clock: ClockGenerator)
    ensures
        clock.derived().f_clk <= 32 * MHZ,
        clock.derived().f_clk == 0 <==> if any_set(clock.ckc, CKC_CSS) {
            !any_set(clock.cksel, CKSEL_SELLOSC)
        } else {
            ||| any_set(clock.ckc, CKC_MCM0)
            ||| any_set(clock.ckc, CKC_MCM1) && !any_set(clock.csc, CSC_MIOEN)
            ||| !any_set(clock.ckc, CKC_MCM1) && any_set(clock.csc, CSC_HIOSTOP)
        },
{
    let hocodiv = clock.hocodiv;
    let mocodiv = clock.mocodiv;
    lemma_divider_settings(hocodiv, mocodiv);
    lemma_oscillators_fit();
    assert(1 <= HIGH_OSC_32_MHZ[(hocodiv & 7) as int] <= 32);
    assert(1 <= HIGH_OSC_24_MHZ[(hocodiv & 7) as int] <= 24);
    assert(1 <= MID_OSC_MHZ[(mocodiv & 3) as int] <= 4);
}

/// Each output of the tree, told from what the registers read as: the
/// high-speed oscillator runs at 24 MHz, or at 32 MHz where FRQSEL3 is set,
/// divided by two to the power of HOCODIV; the middle-speed one at 4 MHz
/// divided by two to the power of MOCODIV; settings without a divider leave
/// the full rate. fCLK is the sub clock, the main clock, or stopped.
proof fn lemma_tree_follows_registers(clock: ClockGenerator)
    ensures
        ({
            let now = clock.committed();
            let csc = now.value_at(ClockBank::Sfr, 1);
            let ckc = now.value_at(ClockBank::Sfr, 4);
            let cksel = now.value_at(ClockBank::Sfr, 7);
            let osmc = now.value_at(ClockBank::OscDiv, 1);
            let h = (now.value_at(ClockBank::Hoco, 8) % 8) as nat;
            let m = (now.value_at(ClockBank::OscDiv, 0) % 4) as nat;
            let full: int = if now.frqsel3 {
                32_000_000
            } else {
                24_000_000
            };
            let last: nat = if now.frqsel3 {
                5
            } else {
                3
            };
            &&& csc & 0x01 != 0 ==> now.tree.f_ihp == 0
            &&& csc & 0x01 == 0 && h <= last ==> now.tree.f_ihp * vstd::arithmetic::power2::pow2(h)
                == full
            &&& csc & 0x01 == 0 && h > last ==> now.tree.f_ihp == full
            &&& csc & 0x02 == 0 ==> now.tree.f_imp == 0
            &&& csc & 0x02 != 0 && m <= 2 ==> now.tree.f_imp * vstd::arithmetic::power2::pow2(m)
                == 4_000_000
            &&& csc & 0x02 != 0 && m > 2 ==> now.tree.f_imp == 4_000_000
            &&& ckc & 0x10 != 0 ==> now.tree.f_main == 0
            &&& ckc & 0x11 == 0x01 ==> now.tree.f_main == now.tree.f_imp
            &&& ckc & 0x11 == 0 ==> now.tree.f_main == now.tree.f_ihp
            &&& ckc & 0x40 == 0 ==> now.tree.f_clk == now.tree.f_main
            &&& ckc & 0x40 != 0 ==> now.tree.f_clk == 32_768 * (cksel % 2)
            &&& now.tree.f_mxp == 0
            &&& now.tree.f_il == 32_768
            &&& now.tree.f_sxp == if osmc & 0x10 != 0 {
                32_768int
            } else {
                0
            }
            &&& now.tree.f_rtcck == now.tree.f_sxp
        }),
{
    let ckc = clock.ckc;
    let read = with_status(ckc);
    let cksel = clock.cksel;
    let osmc = clock.osmc;
    let hocodiv = clock.hocodiv;
    let mocodiv = clock.mocodiv;
    lemma_status_bits(ckc);
    assert((read & 0x40 != 0 <==> ckc & 0x40 != 0) && (read & 0x10 != 0 <==> ckc & 0x10 != 0) && (
    read & 0x11 == 0x01 <==> ckc & 0x10 == 0 && ckc & 0x01 != 0) && (read & 0x11 == 0 <==> ckc
        & 0x10 == 0 && ckc & 0x01 == 0) && cksel & 0x01 == cksel % 2 && (osmc | 0x01) & 0x10 == osmc
        & 0x10 && hocodiv & 7 == hocodiv % 8 && mocodiv & 3 == mocodiv % 4) by (bit_vector)
        requires
            read & 0x51u8 == ckc & 0x51u8,
    ;
    lemma_divided_rates(hocodiv % 8, mocodiv % 4);
}

/// Settings of the dividers and the rates that they give.
proof fn lemma_divided_rates(h: u8, m: u8)
    requires
        h < 8,
        m < 4,
    ensures
        h <= 3 ==> ((HIGH_OSC_24_MHZ[h as int] * MHZ) as u32) * vstd::arithmetic::power2::pow2(
            h as nat,
        ) == 24_000_000,
        h > 3 ==> HIGH_OSC_24_MHZ[h as int] == 24,
        h <= 5 ==> ((HIGH_OSC_32_MHZ[h as int] * MHZ) as u32) * vstd::arithmetic::power2::pow2(
            h as nat,
        ) == 32_000_000,
        h > 5 ==> HIGH_OSC_32_MHZ[h as int] == 32,
        m <= 2 ==> ((MID_OSC_MHZ[m as int] * MHZ) as u32) * vstd::arithmetic::power2::pow2(
            m as nat,
        ) == 4_000_000,
        m > 2 ==> MID_OSC_MHZ[m as int] == 4,
{
    vstd::arithmetic::power2::lemma2_to64();
    assert(h == 0 || h == 1 || h == 2 || h == 3 || h == 4 || h == 5 || h == 6 || h == 7);
    assert(m == 0 || m == 1 || m == 2 || m == 3);
}

/// After any register write, each output of the tree is what the registers
/// then read as amount to. HOCODIV divides 24 MHz, or 32 MHz where FRQSEL3 is
/// set, by a power of two, and MOCODIV divides 4 MHz so; HIOSTOP and MIOEN
/// stop and start them; MCM0, MCM1 and CSS select.
pub proof fn clocks_follow_registers(
    clock: ClockGenerator,
    bank: ClockBank,
    offset: u64,
    value: u8,
)
    ensures
        ({
            let now = clock.after_write(bank, offset, value);
            let csc = now.value_at(ClockBank::Sfr, 1);
            let ckc = now.value_at(ClockBank::Sfr, 4);
            let cksel = now.value_at(ClockBank::Sfr, 7);
            let osmc = now.value_at(ClockBank::OscDiv, 1);
            let h = (now.value_at(ClockBank::Hoco, 8) % 8) as nat;
            let m = (now.value_at(ClockBank::OscDiv, 0) % 4) as nat;
            let full: int = if clock.frqsel3 {
                32_000_000
            } else {
                24_000_000
            };
            let last: nat = if clock.frqsel3 {
                5
            } else {
                3
            };
            &&& csc & 0x01 != 0 ==> now.tree.f_ihp == 0
            &&& csc & 0x01 == 0 && h <= last ==> now.tree.f_ihp * vstd::arithmetic::power2::pow2(h)
                == full
            &&& csc & 0x01 == 0 && h > last ==> now.tree.f_ihp == full
            &&& csc & 0x02 == 0 ==> now.tree.f_imp == 0
            &&& csc & 0x02 != 0 && m <= 2 ==> now.tree.f_imp * vstd::arithmetic::power2::pow2(m)
                == 4_000_000
            &&& csc & 0x02 != 0 && m > 2 ==> now.tree.f_imp == 4_000_000
            &&& ckc & 0x10 != 0 ==> now.tree.f_main == 0
            &&& ckc & 0x11 == 0x01 ==> now.tree.f_main == now.tree.f_imp
            &&& ckc & 0x11 == 0 ==> now.tree.f_main == now.tree.f_ihp
            &&& ckc & 0x40 == 0 ==> now.tree.f_clk == now.tree.f_main
            &&& ckc & 0x40 != 0 ==> now.tree.f_clk == 32_768 * (cksel % 2)
            &&& now.tree.f_mxp == 0
            &&& now.tree.f_il == 32_768
            &&& now.tree.f_sxp == if osmc & 0x10 != 0 {
                32_768int
            } else {
                0
            }
            &&& now.tree.f_rtcck == now.tree.f_sxp
        }),
{
    lemma_tree_follows_registers(clock.registers_after(bank, offset, value));
}

/// With the high-speed oscillator selected and running, a write to HOCODIV
/// makes fCLK 24 MHz / 2^HOCODIV for dividers up to 3 where FRQSEL3 is clear,
/// and 32 MHz / 2^HOCODIV for dividers up to 5 where it is set. Other dividers
/// leave the full rate.
pub proof fn hocodiv_halves_the_clock(clock: ClockGenerator, value: u8)
    requires
        clock.value_at(ClockBank::Sfr, 4) & 0x51 == 0,
        clock.value_at(ClockBank::Sfr, 1) & 0x01 == 0,
    ensures
        ({
            let f_clk = clock.after_write(ClockBank::Hoco, 8, value).tree.f_clk;
            let h = (value % 8) as nat;
            if clock.frqsel3 {
                &&& h <= 5 ==> f_clk * vstd::arithmetic::power2::pow2(h) == 32_000_000
                &&& h > 5 ==> f_clk == 32_000_000
            } else {
                &&& h <= 3 ==> f_clk * vstd::arithmetic::power2::pow2(h) == 24_000_000
                &&& h > 3 ==> f_clk == 24_000_000
            }
        }),
{
    clocks_follow_registers(clock, ClockBank::Hoco, 8, value);
    write_reads_back(clock, value);
    let ckc = clock.value_at(ClockBank::Sfr, 4);
    write_touches_one_register(clock, ClockBank::Hoco, 8, value, ClockBank::Sfr, 4);
    write_touches_one_register(clock, ClockBank::Hoco, 8, value, ClockBank::Sfr, 1);
    assert(ckc & 0x11 == 0 && ckc & 0x40 == 0) by (bit_vector)
        requires
            ckc & 0x51u8 == 0,
    ;
}

/// A reset takes the low three bits of the option byte as HOCODIV and bit 3 as
/// FRQSEL3, without one 0 and set. The CPU runs from the high-speed oscillator
/// that they amount to, and every other register has its reset value.
pub proof fn reset_applies_option_byte(option_byte: Option<u8>)
    ensures
        ({
            let now = ClockGenerator::after_reset(option_byte);
            let option = option_byte.unwrap_or(0x08);
            let h = (option % 8) as nat;
            &&& if option / 8 % 2 == 1 {
                &&& h <= 5 ==> now.tree.f_clk * vstd::arithmetic::power2::pow2(h) == 32_000_000
                &&& h > 5 ==> now.tree.f_clk == 32_000_000
            } else {
                &&& h <= 3 ==> now.tree.f_clk * vstd::arithmetic::power2::pow2(h) == 24_000_000
                &&& h > 3 ==> now.tree.f_clk == 24_000_000
            }
            &&& now.tree.f_main == now.tree.f_clk
            &&& now.tree.f_ihp == now.tree.f_clk
            &&& now.tree.f_imp == 0
            &&& now.tree.f_mxp == 0
            &&& now.tree.f_il == 32_768
            &&& now.tree.f_sxp == 0
            &&& now.tree.f_rtcck == 0
            &&& now.value_at(ClockBank::Sfr, 0) == 0
            &&& now.value_at(ClockBank::Sfr, 1) == 0xC0
            &&& now.value_at(ClockBank::Sfr, 3) == 0x07
            &&& now.value_at(ClockBank::Sfr, 4) == 0
            &&& now.value_at(ClockBank::Sfr, 5) == 0
            &&& now.value_at(ClockBank::Sfr, 6) == 0
            &&& now.value_at(ClockBank::Sfr, 7) == 0
            &&& now.value_at(ClockBank::OscDiv, 0) == 0
            &&& now.value_at(ClockBank::OscDiv, 1) == 0x01
            &&& now.value_at(ClockBank::Hoco, 0) == 0x20
            &&& now.value_at(ClockBank::Hoco, 8) == h
            &&& now.value_at(ClockBank::Trim, 0) == 0x90
            &&& now.value_at(ClockBank::Trim, 1) == 0x80
            &&& now.value_at(ClockBank::Trim, 2) == 0
            &&& now.value_at(ClockBank::Trim, 3) == 0
            &&& !now.cmc_dirty
        }),
{
    let now = ClockGenerator::after_reset(option_byte);
    let option = option_byte.unwrap_or(0x08);
    lemma_tree_follows_registers(now);
    assert(now.committed() == now);
    assert(option & 0x07 == option % 8 && (option & 0x08 != 0 <==> option / 8 % 2 == 1)
        && 0xC0u8 & 0x01 == 0 && 0xC0u8 & 0x02 == 0 && 0u8 & 0x40 == 0 && 0u8 & 0x10 == 0 && 0u8
        & 0x01 == 0 && 0u8 & !0x80u8 == 0 && 0u8 & !0x20u8 == 0 && 0u8 & !0x02u8 == 0 && 0u8 & 0x11
        == 0 && 0x01u8 | 0x01 == 0x01 && 0x01u8 & 0x10 == 0) by (bit_vector);
}

/// CMC takes the first value that differs from what it holds, whole, and
/// CKC takes MCM1, MCM0 and CSS.
pub proof fn selection_registers_take_writes(clock: ClockGenerator, value: u8)
    ensures
        clock.after_write(ClockBank::Sfr, 0, value).value_at(ClockBank::Sfr, 0)
            == if clock.cmc_dirty {
            clock.value_at(ClockBank::Sfr, 0)
        } else {
            value
        },
        clock.after_write(ClockBank::Sfr, 4, value).value_at(ClockBank::Sfr, 4) & 0x51 == value
            & 0x51,
        clock.after_write(ClockBank::Sfr, 4, value).value_at(ClockBank::Sfr, 4) & 0xA2 == (value
            & 0x51) * 2,
        clock.after_write(ClockBank::Sfr, 4, value).value_at(ClockBank::Sfr, 4) & 0x0C
            == clock.value_at(ClockBank::Sfr, 4) & 0x0C,
{
    ckc_status_follows_selection(clock, value);
    let before = clock.value_at(ClockBank::Sfr, 4);
    let after = clock.after_write(ClockBank::Sfr, 4, value).value_at(ClockBank::Sfr, 4);
    let ckc = clock.ckc;
    let merged_ckc = (ckc & !CKC_WRITABLE) | (value & CKC_WRITABLE);
    lemma_status_bits(ckc);
    lemma_status_bits(merged_ckc);
    lemma_status_bits(with_status(merged_ckc));
    assert(merged_ckc & 0x0C == ckc & 0x0C) by (bit_vector)
        requires
            merged_ckc == (ckc & !0x51u8) | (value & 0x51u8),
    ;
    assert(after & 0xA2 == (value & 0x51) * 2) by (bit_vector)
        requires
            after & 0x80u8 != 0 <==> value & 0x40u8 != 0,
            after & 0x20u8 != 0 <==> value & 0x10u8 != 0,
            after & 0x02u8 != 0 <==> value & 0x01u8 != 0,
    ;
}

/// Nanoseconds in a second.
pub const NS_PER_SECOND: u128 = 1_000_000_000;

/// Time that this many cycles of a clock take, in whole nanoseconds. A stopped
/// clock, and a time below one nanosecond, give none.
pub open spec fn cycles_time(cycles: u64, f_hz: u32) -> Option<u64> {
    if f_hz == 0 {
        None
    } else {
        let ns = (cycles * 1_000_000_000) / f_hz as int;
        if ns == 0 {
            None
        } else if ns > u64::MAX {
            Some(u64::MAX)
        } else {
            Some(ns as u64)
        }
    }
}

/// Time that this many cycles of a clock take.
pub fn cycles_to_tick(cycles: u64, f_hz: u32) -> (r: Option<u64>)
    ensures
        r == cycles_time(cycles, f_hz),
{
    if f_hz == 0 {
        return None;
    }
    let ns: u128 = (cycles as u128 * NS_PER_SECOND) / f_hz as u128;
    if ns == 0 {
        None
    } else if ns > u64::MAX as u128 {
        Some(u64::MAX)
    } else {
        Some(ns as u64)
    }
}

/// The time of some cycles is the whole nanoseconds that pass in them: that
/// many nanoseconds take no more than the cycles, and one more takes longer.
/// Nothing is told of a stopped clock, or where no nanosecond passes.
pub proof fn cycle_time_is_whole_nanoseconds(cycles: u64, f_hz: u32)
    ensures
        match cycles_time(cycles, f_hz) {
            Some(ns) => {
                &&& f_hz > 0
                &&& ns > 0
                &&& ns * f_hz <= cycles * 1_000_000_000
                &&& ns < u64::MAX ==> cycles * 1_000_000_000 < (ns + 1) * f_hz
            },
            None => f_hz == 0 || cycles * 1_000_000_000 < f_hz,
        },
{
    if f_hz != 0 {
        let total = cycles * 1_000_000_000;
        let f = f_hz as int;
        let q = total / f;
        vstd::arithmetic::div_mod::lemma_fundamental_div_mod(total, f);
        vstd::arithmetic::div_mod::lemma_mod_bound(total, f);
        vstd::arithmetic::mul::lemma_mul_is_commutative(f, q);
        vstd::arithmetic::mul::lemma_mul_is_distributive_add_other_way(f, q, 1);
        if q > u64::MAX {
            vstd::arithmetic::mul::lemma_mul_inequality(u64::MAX as int, q, f);
        }
    }
}

/// Writes to different registers do not disturb each other.
proof fn lemma_writes_are_independent(
    clock: ClockGenerator,
    bank: ClockBank,
    offset: u64,
    value: u8,
    other: u64,
    other_value: u8,
)
    requires
        offset != other,
    ensures
        clock.after_write(bank, offset, value).after_write(bank, other, other_value).value_at(
            bank,
            other,
        ) == clock.after_write(bank, other, other_value).value_at(bank, other),
{
}

/// Of the bytes of an access each goes to the register at its own offset, as if
/// it were written alone; registers outside the access keep what they read.
pub proof fn window_write_stores_each_byte(
    clock: ClockGenerator,
    bank: ClockBank,
    offset: u64,
    bytes: Seq<u8>,
    n: nat,
    at: u64,
    value: u8,
)
    requires
        offset + n <= 16,
        n <= bytes.len(),
    ensures
        offset <= at < offset + n ==> after_bytes(clock, bank, offset, bytes, n).value_at(bank, at)
            == clock.after_write(bank, at, bytes[at - offset]).value_at(bank, at),
        at < offset || at >= offset + n ==> {
            let after = after_bytes(clock, bank, offset, bytes, n);
            &&& after.value_at(bank, at) == clock.value_at(bank, at)
            &&& after.after_write(bank, at, value).value_at(bank, at) == clock.after_write(
                bank,
                at,
                value,
            ).value_at(bank, at)
        },
    decreases n,
{
    if n > 0 {
        let m = (n - 1) as nat;
        let last = (offset + m) as u64;
        let before = after_bytes(clock, bank, offset, bytes, m);
        window_write_stores_each_byte(clock, bank, offset, bytes, m, at, value);
        window_write_stores_each_byte(clock, bank, offset, bytes, m, last, bytes[m as int]);
        if at != last {
            write_touches_one_register(before, bank, last, bytes[m as int], bank, at);
            lemma_writes_are_independent(before, bank, last, bytes[m as int], at, value);
        }
    }
}

/// A clock window takes accesses that lie within it and refuses others without
/// effect; a read shows the register at the offset of each byte.
pub proof fn window_access_stays_within(
    bank: ClockBank,
    before: ClockGenerator,
    after: ClockGenerator,
    offset: u64,
    bytes: Seq<u8>,
    written: Result<(), BusError>,
    buf: Seq<u8>,
    shown: Seq<u8>,
    read: Result<(), BusError>,
    i: int,
)
    requires
        (ClockMmio { bank }).writes(before, after, offset, bytes, written),
        (ClockMmio { bank }).reads(before, offset, buf, shown, read),
        0 <= i < buf.len(),
    ensures
        ({
            let size: int = match bank {
                ClockBank::Sfr => 8,
                ClockBank::OscDiv => 2,
                ClockBank::Hoco => 9,
                ClockBank::Trim => 4,
            };
            &&& written is Ok <==> offset + bytes.len() <= size
            &&& written is Err ==> after == before
            &&& written is Ok ==> after == after_bytes(before, bank, offset, bytes, bytes.len())
            &&& read is Ok <==> offset + buf.len() <= size
            &&& read is Err ==> shown == buf
            &&& read is Ok ==> shown[i] == before.value_at(bank, (offset + i) as u64)
        }),
{
}

/// Before its first reset the generator reads as zero, but for the bit of OSMC
/// that is always set, and every clock is stopped.
pub proof fn unset_generator_reads_zero(bank: ClockBank, offset: u64)
    ensures
        ({
            let clock = ClockGenerator::cleared();
            &&& clock.value_at(bank, offset) == if bank == ClockBank::OscDiv && offset == 1 {
                1u8
            } else {
                0u8
            }
            &&& clock.tree.f_clk == 0
            &&& clock.tree.f_main == 0
            &&& clock.tree.f_ihp == 0
            &&& clock.tree.f_imp == 0
            &&& clock.tree.f_mxp == 0
            &&& clock.tree.f_il == 0
            &&& clock.tree.f_sxp == 0
            &&& clock.tree.f_rtcck == 0
        }),
{
    assert(0u8 & 0x40 == 0 && 0u8 & 0x10 == 0 && 0u8 & 0x01 == 0 && 0u8 & !0x80u8 == 0 && 0u8
        & !0x20u8 == 0 && 0u8 & !0x02u8 == 0 && 0u8 | 0x01 == 0x01) by (bit_vector);
}

} // verus!
