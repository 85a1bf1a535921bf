//! Interrupt controller: request flags, masks, priorities and edge selection.
//!
//! [`IrqController::pending`] is the request that the CPU line carries. An
//! acknowledge clears the accepted flag and lets the next request come up.

use vstd::prelude::*;

use crate::kernel::{out_of_range, BusError};

verus! {

/// Vector index. Aliases that share a vector keep one name.
#[derive(Clone, Copy, Debug, PartialEq, Eq, Hash, Structural)]
pub enum IrqId {
    INTWDTI,
    INTLVI,
    INTP0,
    INTP1,
    INTP2,
    INTP3,
    INTP4,
    INTP5,
    INTST2,
    INTSR2,
    INTSRE2,
    INTELCL,
    INTSMSE,
    INTST0,
    INTTM00,
    INTSRE0,
    INTST1,
    INTSR1,
    INTSRE1,
    INTIICA0,
    INTSR0,
    INTTM01,
    INTTM02,
    INTTM03,
    INTAD,
    INTRTC,
    INTITL,
    INTKR,
    INTST3,
    INTSR3,
    INTTM13,
    INTTM04,
    INTTM05,
    INTTM06,
    INTTM07,
    INTP6,
    INTP7,
    INTP8,
    INTP9,
    INTFL,
    INTP10,
    INTP11,
    INTURE0,
    INTURE1,
    INTTM12,
    INTSRE3,
    INTCTSUWR,
    INTIICA1,
    INTCTSURD,
    INTCTSUFN,
    INTREMC,
    INTUT0,
    INTUR0,
    INTUT1,
    INTUR1,
    INTTM14,
    INTTM15,
    INTTM16,
    INTTM17,
}

/// Number of vectors.
pub const NUM_IRQS: u8 = 59;

/// Number of priority levels; level 0 goes first.
pub const PRIORITY_LEVELS: u8 = 4;

/// External interrupt pins with an edge selection.
pub const EXT_PINS: usize = 12;

impl IrqId {
    /// Vector index of this line.
    pub open spec fn line(self) -> u8 {
        match self {
            IrqId::INTWDTI => 0,
            IrqId::INTLVI => 1,
            IrqId::INTP0 => 2,
            IrqId::INTP1 => 3,
            IrqId::INTP2 => 4,
            IrqId::INTP3 => 5,
            IrqId::INTP4 => 6,
            IrqId::INTP5 => 7,
            IrqId::INTST2 => 8,
            IrqId::INTSR2 => 9,
            IrqId::INTSRE2 => 10,
            IrqId::INTELCL => 11,
            IrqId::INTSMSE => 12,
            IrqId::INTST0 => 13,
            IrqId::INTTM00 => 14,
            IrqId::INTSRE0 => 15,
            IrqId::INTST1 => 16,
            IrqId::INTSR1 => 17,
            IrqId::INTSRE1 => 18,
            IrqId::INTIICA0 => 19,
            IrqId::INTSR0 => 20,
            IrqId::INTTM01 => 21,
            IrqId::INTTM02 => 22,
            IrqId::INTTM03 => 23,
            IrqId::INTAD => 24,
            IrqId::INTRTC => 25,
            IrqId::INTITL => 26,
            IrqId::INTKR => 27,
            IrqId::INTST3 => 28,
            IrqId::INTSR3 => 29,
            IrqId::INTTM13 => 30,
            IrqId::INTTM04 => 31,
            IrqId::INTTM05 => 32,
            IrqId::INTTM06 => 33,
            IrqId::INTTM07 => 34,
            IrqId::INTP6 => 35,
            IrqId::INTP7 => 36,
            IrqId::INTP8 => 37,
            IrqId::INTP9 => 38,
            IrqId::INTFL => 39,
            IrqId::INTP10 => 40,
            IrqId::INTP11 => 41,
            IrqId::INTURE0 => 42,
            IrqId::INTURE1 => 43,
            IrqId::INTTM12 => 44,
            IrqId::INTSRE3 => 45,
            IrqId::INTCTSUWR => 46,
            IrqId::INTIICA1 => 47,
            IrqId::INTCTSURD => 48,
            IrqId::INTCTSUFN => 49,
            IrqId::INTREMC => 50,
            IrqId::INTUT0 => 51,
            IrqId::INTUR0 => 52,
            IrqId::INTUT1 => 53,
            IrqId::INTUR1 => 54,
            IrqId::INTTM14 => 55,
            IrqId::INTTM15 => 56,
            IrqId::INTTM16 => 57,
            IrqId::INTTM17 => 58,
        }
    }

    /// Vector index of this line.
    pub fn index(self) -> (r: u8)
        ensures
            r == self.line(),
            r < NUM_IRQS,
    {
        match self {
            IrqId::INTWDTI => 0,
            IrqId::INTLVI => 1,
            IrqId::INTP0 => 2,
            IrqId::INTP1 => 3,
            IrqId::INTP2 => 4,
            IrqId::INTP3 => 5,
            IrqId::INTP4 => 6,
            IrqId::INTP5 => 7,
            IrqId::INTST2 => 8,
            IrqId::INTSR2 => 9,
            IrqId::INTSRE2 => 10,
            IrqId::INTELCL => 11,
            IrqId::INTSMSE => 12,
            IrqId::INTST0 => 13,
            IrqId::INTTM00 => 14,
            IrqId::INTSRE0 => 15,
            IrqId::INTST1 => 16,
            IrqId::INTSR1 => 17,
            IrqId::INTSRE1 => 18,
            IrqId::INTIICA0 => 19,
            IrqId::INTSR0 => 20,
            IrqId::INTTM01 => 21,
            IrqId::INTTM02 => 22,
            IrqId::INTTM03 => 23,
            IrqId::INTAD => 24,
            IrqId::INTRTC => 25,
            IrqId::INTITL => 26,
            IrqId::INTKR => 27,
            IrqId::INTST3 => 28,
            IrqId::INTSR3 => 29,
            IrqId::INTTM13 => 30,
            IrqId::INTTM04 => 31,
            IrqId::INTTM05 => 32,
            IrqId::INTTM06 => 33,
            IrqId::INTTM07 => 34,
            IrqId::INTP6 => 35,
            IrqId::INTP7 => 36,
            IrqId::INTP8 => 37,
            IrqId::INTP9 => 38,
            IrqId::INTFL => 39,
            IrqId::INTP10 => 40,
            IrqId::INTP11 => 41,
            IrqId::INTURE0 => 42,
            IrqId::INTURE1 => 43,
            IrqId::INTTM12 => 44,
            IrqId::INTSRE3 => 45,
            IrqId::INTCTSUWR => 46,
            IrqId::INTIICA1 => 47,
            IrqId::INTCTSURD => 48,
            IrqId::INTCTSUFN => 49,
            IrqId::INTREMC => 50,
            IrqId::INTUT0 => 51,
            IrqId::INTUR0 => 52,
            IrqId::INTUT1 => 53,
            IrqId::INTUR1 => 54,
            IrqId::INTTM14 => 55,
            IrqId::INTTM15 => 56,
            IrqId::INTTM16 => 57,
            IrqId::INTTM17 => 58,
        }
    }

    /// The line with this vector index.
    pub fn from_index(index: u8) -> (r: Option<IrqId>)
        ensures
            r is Some <==> index < NUM_IRQS,
            r matches Some(id) ==> id.line() == index,
    {
        match index {
            0 => Some(IrqId::INTWDTI),
            1 => Some(IrqId::INTLVI),
            2 => Some(IrqId::INTP0),
            3 => Some(IrqId::INTP1),
            4 => Some(IrqId::INTP2),
            5 => Some(IrqId::INTP3),
            6 => Some(IrqId::INTP4),
            7 => Some(IrqId::INTP5),
            8 => Some(IrqId::INTST2),
            9 => Some(IrqId::INTSR2),
            10 => Some(IrqId::INTSRE2),
            11 => Some(IrqId::INTELCL),
            12 => Some(IrqId::INTSMSE),
            13 => Some(IrqId::INTST0),
            14 => Some(IrqId::INTTM00),
            15 => Some(IrqId::INTSRE0),
            16 => Some(IrqId::INTST1),
            17 => Some(IrqId::INTSR1),
            18 => Some(IrqId::INTSRE1),
            19 => Some(IrqId::INTIICA0),
            20 => Some(IrqId::INTSR0),
            21 => Some(IrqId::INTTM01),
            22 => Some(IrqId::INTTM02),
            23 => Some(IrqId::INTTM03),
            24 => Some(IrqId::INTAD),
            25 => Some(IrqId::INTRTC),
            26 => Some(IrqId::INTITL),
            27 => Some(IrqId::INTKR),
            28 => Some(IrqId::INTST3),
            29 => Some(IrqId::INTSR3),
            30 => Some(IrqId::INTTM13),
            31 => Some(IrqId::INTTM04),
            32 => Some(IrqId::INTTM05),
            33 => Some(IrqId::INTTM06),
            34 => Some(IrqId::INTTM07),
            35 => Some(IrqId::INTP6),
            36 => Some(IrqId::INTP7),
            37 => Some(IrqId::INTP8),
            38 => Some(IrqId::INTP9),
            39 => Some(IrqId::INTFL),
            40 => Some(IrqId::INTP10),
            41 => Some(IrqId::INTP11),
            42 => Some(IrqId::INTURE0),
            43 => Some(IrqId::INTURE1),
            44 => Some(IrqId::INTTM12),
            45 => Some(IrqId::INTSRE3),
            46 => Some(IrqId::INTCTSUWR),
            47 => Some(IrqId::INTIICA1),
            48 => Some(IrqId::INTCTSURD),
            49 => Some(IrqId::INTCTSUFN),
            50 => Some(IrqId::INTREMC),
            51 => Some(IrqId::INTUT0),
            52 => Some(IrqId::INTUR0),
            53 => Some(IrqId::INTUT1),
            54 => Some(IrqId::INTUR1),
            55 => Some(IrqId::INTTM14),
            56 => Some(IrqId::INTTM15),
            57 => Some(IrqId::INTTM16),
            58 => Some(IrqId::INTTM17),
            _ => None,
        }
    }
}

/// Lines differ exactly when their vector indices do.
pub proof fn lines_are_distinct(a: IrqId, b: IrqId)
    ensures
        a.line() == b.line() <==> a == b,
        a.line() < NUM_IRQS,
{
}

/// Highest-priority unmasked request.
#[derive(Clone, Copy, Debug, PartialEq, Eq, Structural)]
pub struct IrqRequest {
    pub index: IrqId,
    pub priority: u8,
}

/// Sixteen consecutive lines packed in one IF/MK/PR word (`IF0`..`IF3`).
#[derive(Clone, Copy, Debug, PartialEq, Eq, Structural)]
pub struct IrqGroup(pub u8);

impl IrqGroup {
    /// There are four groups.
    pub open spec fn wf(self) -> bool {
        self.0 < 4
    }

    /// First line of the group.
    pub open spec fn first(self) -> int {
        self.0 * 16
    }

    fn first_line(self) -> (r: u8)
        requires
            self.wf(),
        ensures
            r == self.first(),
    {
        self.0 * 16
    }
}

/// One 16-bit IF/MK/PR register. Window 0 holds `IF0`, `MK0`, `PR00` and so on; window 1 begins with `IF2`.
#[derive(Clone, Copy, Debug, PartialEq, Eq, Structural)]
pub enum IfMkReg {
    If(IrqGroup),
    Mk(IrqGroup),
    /// `PRn0`: priority bit 0 of each line in the group.
    PrLow(IrqGroup),
    /// `PRn1`: priority bit 1 of each line in the group.
    PrHigh(IrqGroup),
}

impl IfMkReg {
    /// The group exists.
    pub open spec fn wf(self) -> bool {
        match self {
            IfMkReg::If(g) => g.wf(),
            IfMkReg::Mk(g) => g.wf(),
            IfMkReg::PrLow(g) => g.wf(),
            IfMkReg::PrHigh(g) => g.wf(),
        }
    }

    /// The register at an even offset of a window: IF, MK, PR0 and PR1 of the
    /// two groups of the window, four bytes each.
    pub open spec fn reg_at(window: u8, offset: u64) -> Option<IfMkReg> {
        if window >= 2 || offset % 2 != 0 || offset >= 0x10 {
            None
        } else {
            let group = IrqGroup((2 * window + (offset / 2) % 2) as u8);
            if offset < 4 {
                Some(IfMkReg::If(group))
            } else if offset < 8 {
                Some(IfMkReg::Mk(group))
            } else if offset < 12 {
                Some(IfMkReg::PrLow(group))
            } else {
                Some(IfMkReg::PrHigh(group))
            }
        }
    }

    /// The register at an offset of a window: window 0 is at `0xFFFE0`, window
    /// 1 at `0xFFFD0`, and `offset` is the even register address.
    pub fn at(window: u8, offset: u64) -> (r: Option<IfMkReg>)
        ensures
            r == IfMkReg::reg_at(window, offset),
            r matches Some(reg) ==> reg.wf(),
    {
        if window >= 2 || offset % 2 != 0 || offset >= 0x10 {
            return None;
        }
        let slot: u8 = (offset / 2) as u8;
        let group = IrqGroup(2 * window + slot % 2);
        match slot / 2 {
            0 => Some(IfMkReg::If(group)),
            1 => Some(IfMkReg::Mk(group)),
            2 => Some(IfMkReg::PrLow(group)),
            3 => Some(IfMkReg::PrHigh(group)),
            _ => None,
        }
    }
}

/// An edge-selection register of the external pins.
#[derive(Clone, Copy, Debug, PartialEq, Eq, Structural)]
pub enum EdgeReg {
    Egp0,
    Egn0,
    Egp1,
    Egn1,
}

impl EdgeReg {
    /// The register at this offset.
    pub open spec fn reg_at(offset: u64) -> Option<EdgeReg> {
        match offset {
            0 => Some(EdgeReg::Egp0),
            1 => Some(EdgeReg::Egn0),
            2 => Some(EdgeReg::Egp1),
            3 => Some(EdgeReg::Egn1),
            _ => None,
        }
    }

    /// The register at this offset.
    pub fn at(offset: u64) -> (r: Option<EdgeReg>)
        ensures
            r == EdgeReg::reg_at(offset),
    {
        match offset {
            0 => Some(EdgeReg::Egp0),
            1 => Some(EdgeReg::Egn0),
            2 => Some(EdgeReg::Egp1),
            3 => Some(EdgeReg::Egn1),
            _ => None,
        }
    }

    /// Whether the register selects rising edges.
    pub open spec fn is_rising(self) -> bool {
        self == EdgeReg::Egp0 || self == EdgeReg::Egp1
    }

    /// First pin of the register.
    pub open spec fn first_pin(self) -> int {
        match self {
            EdgeReg::Egp0 | EdgeReg::Egn0 => 0,
            EdgeReg::Egp1 | EdgeReg::Egn1 => 8,
        }
    }

    fn rising(self) -> (r: bool)
        ensures
            r == self.is_rising(),
    {
        match self {
            EdgeReg::Egp0 | EdgeReg::Egp1 => true,
            EdgeReg::Egn0 | EdgeReg::Egn1 => false,
        }
    }

    fn pin_base(self) -> (r: u8)
        ensures
            r == self.first_pin(),
    {
        match self {
            EdgeReg::Egp0 | EdgeReg::Egn0 => 0,
            EdgeReg::Egp1 | EdgeReg::Egn1 => 8,
        }
    }
}

/// Whether bit `i` of a word is set.
pub open spec fn bit(word: u64, i: u8) -> bool {
    word & (1u64 << i) != 0
}

/// The 16 bits of a word from this bit on.
pub open spec fn lines_from(word: u64, shift: u64) -> u16 {
    ((word >> shift) & 0xFFFF) as u16
}

/// The word with the bits under `mask`, moved up by `shift`, taken from `field`.
pub open spec fn deposited(word: u64, shift: u64, mask: u64, field: u64) -> u64 {
    (word & !(mask << shift)) | ((field & mask) << shift)
}

/// Priority bit 0, or priority bit 1, of a line.
pub open spec fn priority_bit(priority: u8, high: bool) -> u8 {
    if high {
        (priority >> 1) & 1
    } else {
        priority & 1
    }
}

/// A priority with its bit 0, or its bit 1, replaced.
pub open spec fn with_priority_bit(priority: u8, high: bool, value: u8) -> u8 {
    if high {
        (priority & !2) | (value << 1)
    } else {
        (priority & !1) | value
    }
}

/// Priority bits of the first `n` lines from `first` on, packed. Lines that do
/// not exist read as zero.
pub open spec fn packed_priority(priority: Seq<u8>, first: int, high: bool, n: nat) -> u16
    decreases n,
{
    if n == 0 {
        0
    } else {
        let before = packed_priority(priority, first, high, (n - 1) as nat);
        if first + n - 1 >= NUM_IRQS {
            before
        } else {
            before | ((priority_bit(priority[first + n - 1], high) as u16) << (n - 1))
        }
    }
}

/// Priorities after bits of `value` were given to the lines of a group from
/// its `start`-th to before its `end`-th.
pub open spec fn unpacked_priority(
    priority: Seq<u8>,
    first: int,
    high: bool,
    value: u16,
    start: int,
    end: int,
) -> Seq<u8> {
    Seq::new(
        priority.len(),
        |line: int|
            if first + start <= line < first + end && line < NUM_IRQS {
                with_priority_bit(
                    priority[line],
                    high,
                    ((value >> ((line - first - start) as u16)) & 1) as u8,
                )
            } else {
                priority[line]
            },
    )
}

/// Edge bits of the first `n` pins from `first` on, packed.
pub open spec fn packed_edges(edge: Seq<u8>, first: int, rising: bool, n: nat) -> u8
    decreases n,
{
    if n == 0 {
        0
    } else {
        let before = packed_edges(edge, first, rising, (n - 1) as nat);
        let mask: u8 = if rising {
            0x02
        } else {
            0x01
        };
        if first + n - 1 < EXT_PINS && edge[first + n - 1] & mask != 0 {
            before | (1u8 << (n - 1))
        } else {
            before
        }
    }
}

/// Edge selections after a register was written.
pub open spec fn edges_after(edge: Seq<u8>, first: int, rising: bool, value: u8) -> Seq<u8> {
    Seq::new(
        edge.len(),
        |pin: int|
            if first <= pin < first + 8 {
                let field: u8 = (value >> ((pin - first) as u8)) & 1;
                if rising {
                    (edge[pin] & !0x02) | (field << 1)
                } else {
                    (edge[pin] & !0x01) | field
                }
            } else {
                edge[pin]
            },
    )
}

/// IF/MK/PR/EGP-EGN latch. Reset: IF=0, MK=all-1, PR=3.
#[derive(Debug)]
pub struct IrqController {
    pub flag: u64,
    pub mask: u64,
    pub priority: [u8; 64],
    pub edge: [u8; 12],
    pub pending: Option<IrqRequest>,
}

impl IrqController {
    /// Whether a line asks for service: it exists, its flag is set, its mask is
    /// clear, and its priority is a level.
    pub open spec fn requests(self, line: u8) -> bool {
        &&& line < NUM_IRQS
        &&& bit(self.flag, line)
        &&& !bit(self.mask, line)
        &&& self.priority@[line as int] < PRIORITY_LEVELS
    }

    /// Whether line `a` goes before line `b`: the lower priority level first,
    /// then the lower index.
    pub open spec fn goes_before(self, a: u8, b: u8) -> bool {
        let pa = self.priority@[a as int];
        let pb = self.priority@[b as int];
        pa < pb || (pa == pb && a <= b)
    }

    /// The pending request is that of the line that goes before all others
    /// that ask for service; there is none where no line does.
    pub open spec fn wf(self) -> bool {
        match self.pending {
            None => forall|line: u8| !#[trigger] self.requests(line),
            Some(req) => {
                &&& self.requests(req.index.line())
                &&& req.priority == self.priority@[req.index.line() as int]
                &&& forall|line: u8| #[trigger]
                    self.requests(line) ==> self.goes_before(req.index.line(), line)
            },
        }
    }

    /// Controller before its first reset.
    pub fn new() -> (r: IrqController)
        ensures
            r.wf(),
            r.flag == 0,
            r.mask == 0,
            forall|i: int| 0 <= i < 64 ==> (#[trigger] r.priority@[i]) == 0,
            forall|i: int| 0 <= i < 12 ==> (#[trigger] r.edge@[i]) == 0,
            r.pending is None,
    {
        let r = IrqController {
            flag: 0,
            mask: 0,
            priority: [0;64],
            edge: [0;12],
            pending: None,
        };
        proof {
            assert forall|line: u8| !#[trigger] r.requests(line) by {
                if line < 59 {
                    lemma_no_line_of_zero(line);
                }
            }
        }
        r
    }

    /// Set the request flag of a line.
    pub fn raise(&mut self, irq: IrqId)
        ensures
            final(self).wf(),
            final(self).flag == old(self).flag | (1u64 << irq.line()),
            final(self).mask == old(self).mask,
            final(self).priority == old(self).priority,
            final(self).edge == old(self).edge,
    {
        self.flag = self.flag | (1u64 << irq.index());
        self.recompute();
    }

    /// Clear the request flag of a line that was accepted.
    pub fn ack(&mut self, irq: IrqId)
        ensures
            final(self).wf(),
            final(self).flag == old(self).flag & !(1u64 << irq.line()),
            final(self).mask == old(self).mask,
            final(self).priority == old(self).priority,
            final(self).edge == old(self).edge,
    {
        self.flag = self.flag & !(1u64 << irq.index());
        self.recompute();
    }

    /// The request that goes to the CPU.
    pub fn pending(&self) -> (r: Option<IrqRequest>)
        ensures
            r == self.pending,
    {
        self.pending
    }

    /// Whether the request flag of a line is set.
    pub fn is_flag_set(&self, irq: IrqId) -> (r: bool)
        ensures
            r == bit(self.flag, irq.line()),
    {
        self.flag & (1u64 << irq.index()) != 0
    }

    /// The lowest line of this priority that asks for service.
    fn first_of(&self, priority: u8) -> (r: Option<u8>)
        requires
            priority < PRIORITY_LEVELS,
        ensures
            match r {
                Some(line) => self.requests(line) && self.priority@[line as int] == priority && (
                forall|other: u8|
                    other < line && self.priority@[other as int] == priority ==> !#[trigger]
                        self.requests(other)),
                None => forall|other: u8|
                    other < NUM_IRQS && self.priority@[other as int] == priority ==> !#[trigger]
                        self.requests(other),
            },
    {
        let flag = self.flag;
        let mask = self.mask;
        let unmasked = flag & !mask;
        let mut i: u8 = 0;
        while i < NUM_IRQS
            invariant
                i <= NUM_IRQS,
                priority < PRIORITY_LEVELS,
                flag == self.flag,
                mask == self.mask,
                unmasked == flag & !mask,
                forall|other: u8|
                    other < i && self.priority@[other as int] == priority ==> !#[trigger]
                        self.requests(other),
            decreases NUM_IRQS - i,
        {
            assert((unmasked & (1u64 << i) != 0) <==> (flag & (1u64 << i) != 0 && mask & (1u64 << i)
                == 0)) by (bit_vector)
                requires
                    unmasked == flag & !mask,
                    i < 59,
            ;
            if self.priority[i as usize] == priority && unmasked & (1u64 << i) != 0 {
                return Some(i);
            }
            i += 1;
        }
        None
    }

    fn recompute(&mut self)
        ensures
            final(self).wf(),
            final(self).flag == old(self).flag,
            final(self).mask == old(self).mask,
            final(self).priority == old(self).priority,
            final(self).edge == old(self).edge,
    {
        self.pending = None;
        let mut priority: u8 = 0;
        while priority < PRIORITY_LEVELS
            invariant
                priority <= PRIORITY_LEVELS,
                self.pending is None,
                self.flag == old(self).flag,
                self.mask == old(self).mask,
                self.priority == old(self).priority,
                self.edge == old(self).edge,
                forall|line: u8|
                    #![trigger self.requests(line)]
                    line < NUM_IRQS && self.priority@[line as int] < priority ==> !self.requests(
                        line,
                    ),
            decreases PRIORITY_LEVELS - priority,
        {
            if let Some(line) = self.first_of(priority) {
                let ghost before = *self;
                if let Some(index) = IrqId::from_index(line) {
                    self.pending = Some(IrqRequest { index, priority });
                    proof {
                        assert(before.requests(line));
                        assert(self.requests(line));
                        assert forall|other: u8| #[trigger] self.requests(
                            other,
                        ) implies self.goes_before(line, other) by {
                            assert(before.requests(other));
                        }
                    }
                }
                return;
            }
            priority += 1;
        }
    }

    fn pack_lines(value: u64, group: IrqGroup) -> (r: u16)
        requires
            group.wf(),
        ensures
            r == lines_from(value, group.first() as u64),
    {
        ((value >> (group.first_line() as u64)) & 0xFFFF) as u16
    }

    fn pack_priority(&self, group: IrqGroup, high: bool) -> (r: u16)
        requires
            group.wf(),
        ensures
            r == packed_priority(self.priority@, group.first(), high, 16),
    {
        let mut bits: u16 = 0;
        let mut i: u8 = 0;
        while i < 16
            invariant
                i <= 16,
                group.wf(),
                bits == packed_priority(self.priority@, group.first(), high, i as nat),
            decreases 16 - i,
        {
            let line: u8 = group.first_line() + i;
            if line < NUM_IRQS {
                let pr = self.priority[line as usize];
                let b: u8 = if high {
                    (pr >> 1) & 1
                } else {
                    pr & 1
                };
                bits = bits | ((b as u16) << (i as u16));
            }
            i += 1;
        }
        bits
    }

    fn unpack_priority(&mut self, group: IrqGroup, high: bool, value: u16, start: u8, width: u8)
        requires
            group.wf(),
            start + width <= 16,
        ensures
            final(self).wf(),
            final(self).flag == old(self).flag,
            final(self).mask == old(self).mask,
            final(self).edge == old(self).edge,
            final(self).priority@ == unpacked_priority(
                old(self).priority@,
                group.first(),
                high,
                value,
                start as int,
                start + width,
            ),
    {
        let ghost before = self.priority@;
        let end: u8 = start + width;
        let mut i: u8 = start;
        while i < end
            invariant
                start <= i <= end <= 16,
                group.wf(),
                end == start + width,
                before == old(self).priority@,
                self.flag == old(self).flag,
                self.mask == old(self).mask,
                self.edge == old(self).edge,
                self.priority@ == unpacked_priority(
                    before,
                    group.first(),
                    high,
                    value,
                    start as int,
                    i as int,
                ),
            decreases end - i,
        {
            let line: u8 = group.first_line() + i;
            if line < NUM_IRQS {
                let field_bit: u8 = ((value >> ((i - start) as u16)) & 1) as u8;
                let slot = self.priority[line as usize];
                self.priority[line as usize] = if high {
                    (slot & !2) | (field_bit << 1)
                } else {
                    (slot & !1) | field_bit
                };
            }
            i += 1;
            assert(self.priority@ =~= unpacked_priority(
                before,
                group.first(),
                high,
                value,
                start as int,
                i as int,
            ));
        }
        self.recompute();
    }

    /// What a read of this register gives.
    pub open spec fn word_at(self, reg: IfMkReg) -> u16 {
        match reg {
            IfMkReg::If(g) => lines_from(self.flag, g.first() as u64),
            IfMkReg::Mk(g) => lines_from(self.mask, g.first() as u64),
            IfMkReg::PrLow(g) => packed_priority(self.priority@, g.first(), false, 16),
            IfMkReg::PrHigh(g) => packed_priority(self.priority@, g.first(), true, 16),
        }
    }

    /// Read one register.
    pub fn read_if_mk(&self, reg: IfMkReg) -> (r: u16)
        requires
            reg.wf(),
        ensures
            r == self.word_at(reg),
    {
        match reg {
            IfMkReg::If(g) => Self::pack_lines(self.flag, g),
            IfMkReg::Mk(g) => Self::pack_lines(self.mask, g),
            IfMkReg::PrLow(g) => self.pack_priority(g, false),
            IfMkReg::PrHigh(g) => self.pack_priority(g, true),
        }
    }

    /// The latches after `width` bits of `value` were written to a register
    /// from its bit `start` on. Other latches keep what they held.
    pub open spec fn latches_after(
        self,
        after: IrqController,
        reg: IfMkReg,
        value: u16,
        start: u8,
        width: u8,
    ) -> bool {
        let mask: u64 = if width == 8 {
            0xFF
        } else {
            0xFFFF
        };
        match reg {
            IfMkReg::If(g) => {
                &&& after.flag == deposited(
                    self.flag,
                    (g.first() + start) as u64,
                    mask,
                    value as u64,
                )
                &&& after.mask == self.mask
                &&& after.priority == self.priority
                &&& after.edge == self.edge
            },
            IfMkReg::Mk(g) => {
                &&& after.flag == self.flag
                &&& after.mask == deposited(
                    self.mask,
                    (g.first() + start) as u64,
                    mask,
                    value as u64,
                )
                &&& after.priority == self.priority
                &&& after.edge == self.edge
            },
            IfMkReg::PrLow(g) => {
                &&& after.flag == self.flag
                &&& after.mask == self.mask
                &&& after.priority@ == unpacked_priority(
                    self.priority@,
                    g.first(),
                    false,
                    value,
                    start as int,
                    start + width,
                )
                &&& after.edge == self.edge
            },
            IfMkReg::PrHigh(g) => {
                &&& after.flag == self.flag
                &&& after.mask == self.mask
                &&& after.priority@ == unpacked_priority(
                    self.priority@,
                    g.first(),
                    true,
                    value,
                    start as int,
                    start + width,
                )
                &&& after.edge == self.edge
            },
        }
    }

    fn write_bits(&mut self, reg: IfMkReg, value: u16, start: u8, width: u8)
        requires
            reg.wf(),
            (start == 0 && width == 16) || (start == 0 && width == 8) || (start == 8 && width == 8),
        ensures
            final(self).wf(),
            old(self).latches_after(*final(self), reg, value, start, width),
    {
        let mask: u64 = if width == 8 {
            0xFF
        } else {
            0xFFFF
        };
        match reg {
            IfMkReg::If(g) => {
                let shift: u64 = (g.first_line() + start) as u64;
                self.flag = (self.flag & !(mask << shift)) | ((value as u64 & mask) << shift);
                self.recompute();
            },
            IfMkReg::Mk(g) => {
                let shift: u64 = (g.first_line() + start) as u64;
                self.mask = (self.mask & !(mask << shift)) | ((value as u64 & mask) << shift);
                self.recompute();
            },
            IfMkReg::PrLow(g) => self.unpack_priority(g, false, value, start, width),
            IfMkReg::PrHigh(g) => self.unpack_priority(g, true, value, start, width),
        }
    }

    /// Write one register as a word.
    pub fn write_if_mk_word(&mut self, reg: IfMkReg, value: u16)
        requires
            reg.wf(),
        ensures
            final(self).wf(),
            old(self).latches_after(*final(self), reg, value, 0, 16),
    {
        self.write_bits(reg, value, 0, 16);
    }

    /// Write the low or the high byte of one register.
    pub fn write_if_mk_byte(&mut self, reg: IfMkReg, high: bool, value: u8)
        requires
            reg.wf(),
        ensures
            final(self).wf(),
            old(self).latches_after(
                *final(self),
                reg,
                value as u16,
                if high {
                    8
                } else {
                    0
                },
                8,
            ),
    {
        if high {
            self.write_bits(reg, value as u16, 8, 8);
        } else {
            self.write_bits(reg, value as u16, 0, 8);
        }
    }

    /// Read one edge-selection register.
    pub fn read_edge(&self, reg: EdgeReg) -> (r: u8)
        ensures
            r == packed_edges(self.edge@, reg.first_pin(), reg.is_rising(), 8),
    {
        let mut bits: u8 = 0;
        let mask: u8 = if reg.rising() {
            0x02
        } else {
            0x01
        };
        let mut i: u8 = 0;
        while i < 8
            invariant
                i <= 8,
                mask == if reg.is_rising() {
                    0x02u8
                } else {
                    0x01u8
                },
                bits == packed_edges(self.edge@, reg.first_pin(), reg.is_rising(), i as nat),
            decreases 8 - i,
        {
            let pin: u8 = reg.pin_base() + i;
            if (pin as usize) < EXT_PINS && self.edge[pin as usize] & mask != 0 {
                bits = bits | (1u8 << i);
            }
            i += 1;
        }
        bits
    }

    /// Write one edge-selection register.
    pub fn write_edge(&mut self, reg: EdgeReg, value: u8)
        ensures
            final(self).flag == old(self).flag,
            final(self).mask == old(self).mask,
            final(self).priority == old(self).priority,
            final(self).pending == old(self).pending,
            final(self).edge@ == edges_after(
                old(self).edge@,
                reg.first_pin(),
                reg.is_rising(),
                value,
            ),
    {
        let ghost before = self.edge@;
        let mut i: u8 = 0;
        while i < 8
            invariant
                i <= 8,
                self.flag == old(self).flag,
                self.mask == old(self).mask,
                self.priority == old(self).priority,
                self.pending == old(self).pending,
                before == old(self).edge@,
                forall|pin: int|
                    0 <= pin < 12 ==> (#[trigger] self.edge@[pin]) == if pin < reg.first_pin() + i {
                        edges_after(before, reg.first_pin(), reg.is_rising(), value)[pin]
                    } else {
                        before[pin]
                    },
            decreases 8 - i,
        {
            let pin: u8 = reg.pin_base() + i;
            if (pin as usize) < EXT_PINS {
                let field: u8 = (value >> i) & 1;
                let e = self.edge[pin as usize];
                self.edge[pin as usize] = if reg.rising() {
                    (e & !0x02) | (field << 1)
                } else {
                    (e & !0x01) | field
                };
            }
            i += 1;
        }
        assert(self.edge@ =~= edges_after(before, reg.first_pin(), reg.is_rising(), value));
    }

    /// Clear every mask bit.
    pub fn unmask_all(&mut self)
        ensures
            final(self).wf(),
            final(self).mask == 0,
            final(self).flag == old(self).flag,
            final(self).priority == old(self).priority,
            final(self).edge == old(self).edge,
    {
        self.mask = 0;
        self.recompute();
    }

    /// Set the priority of a line.
    pub fn set_priority(&mut self, irq: IrqId, priority: u8)
        ensures
            final(self).wf(),
            final(self).flag == old(self).flag,
            final(self).mask == old(self).mask,
            final(self).edge == old(self).edge,
            final(self).priority@ == old(self).priority@.update(irq.line() as int, priority),
    {
        self.priority[irq.index() as usize] = priority;
        self.recompute();
    }

    /// State after an MCU reset: nothing requested, everything masked at the
    /// lowest priority, no edge selected.
    pub open spec fn is_reset(self) -> bool {
        &&& self.flag == 0
        &&& self.mask == u64::MAX
        &&& forall|i: int| 0 <= i < 64 ==> (#[trigger] self.priority@[i]) == 3
        &&& forall|i: int| 0 <= i < 12 ==> (#[trigger] self.edge@[i]) == 0
    }

    /// Apply an MCU reset.
    pub fn reset(&mut self)
        ensures
            final(self).wf(),
            final(self).is_reset(),
    {
        self.flag = 0;
        self.mask = u64::MAX;
        self.priority = [3;64];
        self.edge = [0;12];
        self.recompute();
    }
}

impl Default for IrqController {
    /// The controller after a reset.
    fn default() -> (r: IrqController)
        ensures
            r.wf(),
            r.is_reset(),
    {
        let mut s = IrqController::new();
        s.reset();
        s
    }
}

/// One mapped IF/MK/PR window.
#[derive(Clone, Copy, Debug, PartialEq, Eq, Structural)]
pub struct IrqBankMmio {
    pub window: u8,
}

/// Bytes of an IF/MK/PR window.
pub const IRQ_BANK_SIZE: u64 = 0x10;

/// Bytes of the edge-selection window.
pub const IRQ_EDGE_SIZE: u64 = 4;

/// The even offset at or below this one.
pub open spec fn even(offset: u64) -> u64 {
    (offset - offset % 2) as u64
}

impl IrqBankMmio {
    /// The window with this number.
    pub fn new(window: u8) -> (r: IrqBankMmio)
        ensures
            r == (IrqBankMmio { window }),
    {
        IrqBankMmio { window }
    }

    /// Bytes of the window.
    pub fn len(&self) -> (r: u64)
        ensures
            r == 0x10,
    {
        IRQ_BANK_SIZE
    }

    /// The register that an access of `len` bytes at `offset` reaches: a byte
    /// reaches the register that it lies in, two bytes one that begins there.
    pub open spec fn target(self, offset: u64, len: nat) -> Option<IfMkReg> {
        if len == 1 {
            IfMkReg::reg_at(self.window, even(offset))
        } else if len == 2 {
            IfMkReg::reg_at(self.window, offset)
        } else {
            None
        }
    }

    /// A read gives the word of the register, low byte first, or the byte of
    /// it that lies at the offset. Other accesses are refused.
    pub open spec fn reads(
        self,
        irq: IrqController,
        offset: u64,
        before: Seq<u8>,
        after: Seq<u8>,
        r: Result<(), BusError>,
    ) -> bool {
        &&& after.len() == before.len()
        &&& match self.target(offset, before.len()) {
            None => {
                &&& r matches Err(e) && e == out_of_range(offset, before.len())
                &&& after == before
            },
            Some(reg) => {
                let word = irq.word_at(reg);
                &&& r is Ok
                &&& before.len() == 1 ==> after[0] == if offset % 2 == 0 {
                    word % 256
                } else {
                    word / 256
                }
                &&& before.len() == 2 ==> after[0] == word % 256 && after[1] == word / 256
            },
        }
    }

    /// A write stores the word in the register, or the byte in the half of it
    /// that lies at the offset. Other accesses are refused.
    pub open spec fn writes(
        self,
        before: IrqController,
        after: IrqController,
        offset: u64,
        bytes: Seq<u8>,
        r: Result<(), BusError>,
    ) -> bool {
        match self.target(offset, bytes.len()) {
            None => {
                &&& r matches Err(e) && e == out_of_range(offset, bytes.len())
                &&& after == before
            },
            Some(reg) => {
                &&& r is Ok
                &&& after.wf()
                &&& bytes.len() == 1 ==> before.latches_after(
                    after,
                    reg,
                    bytes[0] as u16,
                    if offset % 2 == 0 {
                        0
                    } else {
                        8
                    },
                    8,
                )
                &&& bytes.len() == 2 ==> before.latches_after(
                    after,
                    reg,
                    (bytes[0] + 256 * bytes[1]) as u16,
                    0,
                    16,
                )
            },
        }
    }

    /// Read a register or one of its bytes.
    pub fn read(&self, irq: &IrqController, offset: u64, buf: &mut [u8]) -> (r: Result<(), BusError>)
        ensures
            self.reads(*irq, offset, old(buf)@, final(buf)@, r),
    {
        let n = buf.len();
        if n == 1 {
            match IfMkReg::at(self.window, offset - offset % 2) {
                None => Err(BusError::OutOfRange { addr: offset, offset, len: 1 }),
                Some(reg) => {
                    let word = irq.read_if_mk(reg);
                    buf[0] = if offset % 2 == 0 {
                        (word % 256) as u8
                    } else {
                        (word / 256) as u8
                    };
                    Ok(())
                },
            }
        } else if n == 2 {
            match IfMkReg::at(self.window, offset) {
                None => Err(BusError::OutOfRange { addr: offset, offset, len: 2 }),
                Some(reg) => {
                    let word = irq.read_if_mk(reg);
                    buf[0] = (word % 256) as u8;
                    buf[1] = (word / 256) as u8;
                    Ok(())
                },
            }
        } else {
            Err(BusError::OutOfRange { addr: offset, offset, len: n })
        }
    }

    /// Write a register or one of its bytes.
    pub fn write(&self, irq: &mut IrqController, offset: u64, buf: &[u8]) -> (r: Result<
        (),
        BusError,
    >)
        ensures
            self.writes(*old(irq), *final(irq), offset, buf@, r),
    {
        let n = buf.len();
        if n == 1 {
            match IfMkReg::at(self.window, offset - offset % 2) {
                None => Err(BusError::OutOfRange { addr: offset, offset, len: 1 }),
                Some(reg) => {
                    irq.write_if_mk_byte(reg, offset % 2 != 0, buf[0]);
                    Ok(())
                },
            }
        } else if n == 2 {
            match IfMkReg::at(self.window, offset) {
                None => Err(BusError::OutOfRange { addr: offset, offset, len: 2 }),
                Some(reg) => {
                    irq.write_if_mk_word(reg, buf[0] as u16 + 256 * buf[1] as u16);
                    Ok(())
                },
            }
        } else {
            Err(BusError::OutOfRange { addr: offset, offset, len: n })
        }
    }

    /// Registers cannot be loaded.
    pub fn load(&self, offset: u64) -> (r: Result<(), BusError>)
        ensures
            r matches Err(e) && e == (BusError::NotLoadable { addr: offset }),
    {
        Err(BusError::NotLoadable { addr: offset })
    }
}

/// The mapped edge-selection window. It takes single bytes.
#[derive(Clone, Copy, Debug, PartialEq, Eq, Structural)]
pub struct IrqEdgeMmio {}

impl IrqEdgeMmio {
    /// The window.
    pub fn new() -> (r: IrqEdgeMmio)
        ensures
            r == (IrqEdgeMmio {  }),
    {
        IrqEdgeMmio {  }
    }

    /// Bytes of the window.
    pub fn len(&self) -> (r: u64)
        ensures
            r == 4,
    {
        IRQ_EDGE_SIZE
    }

    /// Read one register.
    pub fn read(&self, irq: &IrqController, offset: u64, buf: &mut [u8]) -> (r: Result<(), BusError>)
        ensures
            final(buf)@.len() == old(buf)@.len(),
            if old(buf)@.len() != 1 || EdgeReg::reg_at(offset) is None {
                &&& r matches Err(e) && e == out_of_range(offset, old(buf)@.len())
                &&& final(buf)@ == old(buf)@
            } else {
                let reg = EdgeReg::reg_at(offset)->0;
                &&& r is Ok
                &&& final(buf)@[0] == packed_edges(irq.edge@, reg.first_pin(), reg.is_rising(), 8)
            },
    {
        let n = buf.len();
        if n != 1 {
            return Err(BusError::OutOfRange { addr: offset, offset, len: n });
        }
        match EdgeReg::at(offset) {
            None => Err(BusError::OutOfRange { addr: offset, offset, len: 1 }),
            Some(reg) => {
                buf[0] = irq.read_edge(reg);
                Ok(())
            },
        }
    }

    /// Write one register.
    pub fn write(&self, irq: &mut IrqController, offset: u64, buf: &[u8]) -> (r: Result<
        (),
        BusError,
    >)
        ensures
            final(irq).flag == old(irq).flag,
            final(irq).mask == old(irq).mask,
            final(irq).priority == old(irq).priority,
            final(irq).pending == old(irq).pending,
            if buf@.len() != 1 || EdgeReg::reg_at(offset) is None {
                &&& r matches Err(e) && e == out_of_range(offset, buf@.len())
                &&& final(irq).edge == old(irq).edge
            } else {
                let reg = EdgeReg::reg_at(offset)->0;
                &&& r is Ok
                &&& final(irq).edge@ == edges_after(
                    old(irq).edge@,
                    reg.first_pin(),
                    reg.is_rising(),
                    buf@[0],
                )
            },
    {
        let n = buf.len();
        if n != 1 {
            return Err(BusError::OutOfRange { addr: offset, offset, len: n });
        }
        match EdgeReg::at(offset) {
            None => Err(BusError::OutOfRange { addr: offset, offset, len: 1 }),
            Some(reg) => {
                irq.write_edge(reg, buf[0]);
                Ok(())
            },
        }
    }

    /// Registers cannot be loaded.
    pub fn load(&self, offset: u64) -> (r: Result<(), BusError>)
        ensures
            r matches Err(e) && e == (BusError::NotLoadable { addr: offset }),
    {
        Err(BusError::NotLoadable { addr: offset })
    }
}

/// Levels that are driven onto the interrupt input of the CPU.
#[derive(Clone, Copy, Debug, PartialEq, Eq, Structural)]
pub struct LineLevel {
    pub index: i32,
    pub priority: i32,
    pub level: i32,
}

/// Levels for a request: its index and priority at level 1, or all low.
pub open spec fn level_of(pending: Option<IrqRequest>) -> LineLevel {
    match pending {
        Some(req) => LineLevel {
            index: req.index.line() as i32,
            priority: req.priority as i32,
            level: 1,
        },
        None => LineLevel { index: 0, priority: 0, level: 0 },
    }
}

fn line_level(pending: Option<IrqRequest>) -> (r: LineLevel)
    ensures
        r == level_of(pending),
{
    match pending {
        Some(req) => LineLevel {
            index: req.index.index() as i32,
            priority: req.priority as i32,
            level: 1,
        },
        None => LineLevel { index: 0, priority: 0, level: 0 },
    }
}

/// Connection between the controller and the CPU.
#[derive(Clone, Copy, Debug, PartialEq, Eq, Structural)]
pub struct CpuLine {
    pub bound: bool,
    /// Levels that were driven last.
    pub level: LineLevel,
}

impl CpuLine {
    /// A connected line carries the pending request of the controller.
    pub open spec fn follows(self, irq: IrqController) -> bool {
        self.bound ==> self.level == level_of(irq.pending)
    }

    /// `after` is this line once it was driven from the controller, and `r` are
    /// the levels that the CPU is given. Without a connection nothing is driven.
    pub open spec fn drives(
        self,
        after: CpuLine,
        irq: IrqController,
        r: Option<LineLevel>,
    ) -> bool {
        if self.bound {
            &&& after == (CpuLine { bound: true, level: level_of(irq.pending) })
            &&& r == Some(level_of(irq.pending))
        } else {
            &&& after == self
            &&& r is None
        }
    }

    /// A line that is not connected.
    pub fn new() -> (r: CpuLine)
        ensures
            !r.bound,
            r.level == level_of(None),
    {
        CpuLine { bound: false, level: line_level(None) }
    }

    /// Connect the controller: its pending request is driven at once.
    pub fn bind(&mut self, irq: &IrqController) -> (r: LineLevel)
        ensures
            *final(self) == (CpuLine { bound: true, level: level_of(irq.pending) }),
            r == level_of(irq.pending),
    {
        self.bound = true;
        self.level = line_level(irq.pending);
        self.level
    }

    /// Disconnect: the line is driven low if it was connected.
    pub fn unbind(&mut self) -> (r: Option<LineLevel>)
        ensures
            if old(self).bound {
                &&& *final(self) == (CpuLine { bound: false, level: level_of(None) })
                &&& r == Some(level_of(None))
            } else {
                &&& *final(self) == *old(self)
                &&& r is None
            },
    {
        if self.bound {
            self.bound = false;
            self.level = line_level(None);
            Some(self.level)
        } else {
            None
        }
    }

    /// Drive the line after the controller has changed.
    pub fn drive(&mut self, irq: &IrqController) -> (r: Option<LineLevel>)
        ensures
            old(self).drives(*final(self), *irq, r),
            final(self).follows(*irq),
    {
        if self.bound {
            self.level = line_level(irq.pending);
            Some(self.level)
        } else {
            None
        }
    }

    /// Set the request flag of a line and drive what is pending then.
    pub fn raise(&mut self, irq: &mut IrqController, id: IrqId) -> (r: Option<LineLevel>)
        ensures
            final(irq).wf(),
            final(irq).flag == old(irq).flag | (1u64 << id.line()),
            final(irq).mask == old(irq).mask,
            final(irq).priority == old(irq).priority,
            final(irq).edge == old(irq).edge,
            old(self).drives(*final(self), *final(irq), r),
            final(self).follows(*final(irq)),
    {
        irq.raise(id);
        self.drive(irq)
    }

    /// Write to a register window and drive what is pending then. An access
    /// that is refused changes nothing and drives nothing.
    pub fn write(
        &mut self,
        bank: &IrqBankMmio,
        irq: &mut IrqController,
        offset: u64,
        buf: &[u8],
    ) -> (r: (Result<(), BusError>, Option<LineLevel>))
        ensures
            bank.writes(*old(irq), *final(irq), offset, buf@, r.0),
            r.0 is Ok ==> old(self).drives(*final(self), *final(irq), r.1),
            r.0 is Err ==> *final(self) == *old(self) && r.1 is None,
            old(self).follows(*old(irq)) ==> final(self).follows(*final(irq)),
    {
        let stored = bank.write(irq, offset, buf);
        if stored.is_ok() {
            let level = self.drive(irq);
            (stored, level)
        } else {
            (stored, None)
        }
    }

    /// Reset the controller and drive what is pending then.
    pub fn reset(&mut self, irq: &mut IrqController) -> (r: Option<LineLevel>)
        ensures
            final(irq).wf(),
            final(irq).is_reset(),
            old(self).drives(*final(self), *final(irq), r),
            final(self).follows(*final(irq)),
    {
        irq.reset();
        self.drive(irq)
    }

    /// The CPU has accepted the request with this index (its low eight bits
    /// count): clear its flag and drive what is pending then. Without a
    /// connection, or for a line that does not exist, nothing happens.
    pub fn on_ack(&mut self, irq: &mut IrqController, index: u32) -> (r: Option<LineLevel>)
        ensures
            if old(self).bound && index % 256 < NUM_IRQS {
                &&& final(irq).wf()
                &&& final(irq).flag == old(irq).flag & !(1u64 << ((index % 256) as u8))
                &&& final(irq).mask == old(irq).mask
                &&& final(irq).priority == old(irq).priority
                &&& final(irq).edge == old(irq).edge
                &&& old(self).drives(*final(self), *final(irq), r)
            } else {
                &&& r is None
                &&& *final(irq) == *old(irq)
                &&& *final(self) == *old(self)
            },
            old(self).follows(*old(irq)) ==> final(self).follows(*final(irq)),
    {
        if !self.bound {
            return None;
        }
        match IrqId::from_index((index % 256) as u8) {
            None => None,
            Some(id) => {
                irq.ack(id);
                self.drive(irq)
            },
        }
    }
}

/// The pending request is a function of flags, masks and priorities.
pub proof fn pending_is_determined(a: IrqController, b: IrqController)
    requires
        a.wf(),
        b.wf(),
        a.flag == b.flag,
        a.mask == b.mask,
        a.priority == b.priority,
    ensures
        a.pending == b.pending,
{
    if a.pending is Some {
        let i = a.pending->0.index;
        assert(b.requests(i.line()));
        let j = b.pending->0.index;
        assert(a.requests(j.line()));
        assert(a.goes_before(i.line(), j.line()));
        assert(b.goes_before(j.line(), i.line()));
        lines_are_distinct(i, j);
    } else if b.pending is Some {
        assert(a.requests(b.pending->0.index.line()));
    }
}

/// A masked line is never pending, and neither is one whose flag is clear.
pub proof fn only_unmasked_requests_are_pending(irq: IrqController)
    requires
        irq.wf(),
        irq.pending is Some,
    ensures
        bit(irq.flag, irq.pending->0.index.line()),
        !bit(irq.mask, irq.pending->0.index.line()),
        irq.pending->0.priority < PRIORITY_LEVELS,
{
}

/// Zero has no bit set.
proof fn lemma_no_line_of_zero(line: u8)
    ensures
        0u64 & (1u64 << line) == 0,
{
    assert(0u64 & (1u64 << line) == 0) by (bit_vector);
}

/// While everything is masked nothing is pending.
pub proof fn reset_masks_everything(irq: IrqController)
    requires
        irq.wf(),
        irq.is_reset(),
    ensures
        irq.pending is None,
{
    if irq.pending is Some {
        let line = irq.pending->0.index.line();
        lemma_no_line_of_zero(line);
    }
}

/// Raising a line sets its flag and no other.
pub proof fn raise_sets_one_flag(flag: u64, irq: IrqId, other: IrqId)
    ensures
        bit(flag | (1u64 << irq.line()), irq.line()),
        irq != other ==> bit(flag | (1u64 << irq.line()), other.line()) == bit(flag, other.line()),
{
    let i = irq.line();
    let j = other.line();
    lines_are_distinct(irq, other);
    assert((flag | (1u64 << i)) & (1u64 << i) != 0 && (i != j ==> (((flag | (1u64 << i)) & (1u64
        << j) != 0) <==> (flag & (1u64 << j) != 0)))) by (bit_vector)
        requires
            i < 59,
            j < 59,
    ;
}

/// Acknowledging a line clears its flag and no other.
pub proof fn ack_clears_one_flag(flag: u64, irq: IrqId, other: IrqId)
    ensures
        !bit(flag & !(1u64 << irq.line()), irq.line()),
        irq != other ==> bit(flag & !(1u64 << irq.line()), other.line()) == bit(flag, other.line()),
{
    let i = irq.line();
    let j = other.line();
    lines_are_distinct(irq, other);
    assert((flag & !(1u64 << i)) & (1u64 << i) == 0 && (i != j ==> (((flag & !(1u64 << i)) & (1u64
        << j) != 0) <==> (flag & (1u64 << j) != 0)))) by (bit_vector)
        requires
            i < 59,
            j < 59,
    ;
}

/// A word written to IF or MK reads back, and the words of other groups keep
/// what they held.
pub proof fn word_write_reads_back(word: u64, group: IrqGroup, other: IrqGroup, value: u16)
    requires
        group.wf(),
        other.wf(),
    ensures
        lines_from(
            deposited(word, group.first() as u64, 0xFFFF, value as u64),
            group.first() as u64,
        ) == value,
        group != other ==> lines_from(
            deposited(word, group.first() as u64, 0xFFFF, value as u64),
            other.first() as u64,
        ) == lines_from(word, other.first() as u64),
{
    let s = group.first() as u64;
    let t = other.first() as u64;
    let field = value as u64;
    let after = deposited(word, s, 0xFFFF, field);
    assert(((after >> s) & 0xFFFF) as u16 == value) by (bit_vector)
        requires
            after == (word & !(0xFFFFu64 << s)) | ((field & 0xFFFFu64) << s),
            field == value as u64,
            s == 0 || s == 16 || s == 32 || s == 48,
    ;
    if group != other {
        assert((after >> t) & 0xFFFF == (word >> t) & 0xFFFF) by (bit_vector)
            requires
                after == (word & !(0xFFFFu64 << s)) | ((field & 0xFFFFu64) << s),
                s == 0 || s == 16 || s == 32 || s == 48,
                t == 0 || t == 16 || t == 32 || t == 48,
                s != t,
        ;
    }
}

/// A byte written to IF or MK touches only its half of the word.
pub proof fn byte_write_touches_one_half(word: u64, group: IrqGroup, high: bool, value: u8)
    requires
        group.wf(),
    ensures
        ({
            let s = group.first() as u64;
            let shift = if high {
                (s + 8) as u64
            } else {
                s
            };
            let before = lines_from(word, s);
            let after = lines_from(deposited(word, shift, 0xFF, value as u64), s);
            if high {
                after % 256 == before % 256 && after / 256 == value
            } else {
                after % 256 == value && after / 256 == before / 256
            }
        }),
{
    let s = group.first() as u64;
    let shift = if high {
        (s + 8) as u64
    } else {
        s
    };
    let field = value as u64;
    let result = deposited(word, shift, 0xFF, field);
    let before = lines_from(word, s);
    let after = lines_from(result, s);
    assert(if high {
        after % 256 == before % 256 && after / 256 == field
    } else {
        after % 256 == field && after / 256 == before / 256
    }) by (bit_vector)
        requires
            result == (word & !(0xFFu64 << shift)) | ((field & 0xFFu64) << shift),
            before == ((word >> s) & 0xFFFF) as u16,
            after == ((result >> s) & 0xFFFF) as u16,
            field <= 0xFF,
            s == 0 || s == 16 || s == 32 || s == 48,
            shift == if high {
                (s + 8) as u64
            } else {
                s
            },
    ;
}

/// Bit `k` of packed priorities is the priority bit of the `k`-th line.
proof fn lemma_packed_priority_bit(priority: Seq<u8>, first: int, high: bool, n: nat, k: u16)
    requires
        n <= 16,
        k < 16,
    ensures
        (packed_priority(priority, first, high, n) >> k) & 1 == if k < n && first + k < NUM_IRQS {
            priority_bit(priority[first + k], high) as u16
        } else {
            0u16
        },
    decreases n,
{
    if n == 0 {
        assert((0u16 >> k) & 1 == 0) by (bit_vector);
    } else {
        lemma_packed_priority_bit(priority, first, high, (n - 1) as nat, k);
        if first + n - 1 < NUM_IRQS {
            let before = packed_priority(priority, first, high, (n - 1) as nat);
            let p = priority[first + n - 1];
            let b = priority_bit(p, high) as u16;
            let m = (n - 1) as u16;
            assert(((before | (b << m)) >> k) & 1 == if k == m {
                ((before >> k) & 1) | b
            } else {
                (before >> k) & 1
            } && 0u16 | b == b) by (bit_vector)
                requires
                    b == ((p >> 1) & 1) as u16 || b == (p & 1) as u16,
                    m < 16,
                    k < 16,
            ;
        }
    }
}

/// A word written to a priority register reads back bit by bit for the lines
/// that exist, and leaves the other priority bit of every line alone.
pub proof fn priority_write_reads_back(
    before: IrqController,
    after: IrqController,
    group: IrqGroup,
    high: bool,
    value: u16,
    k: u16,
)
    requires
        group.wf(),
        k < 16,
        before.latches_after(
            after,
            if high {
                IfMkReg::PrHigh(group)
            } else {
                IfMkReg::PrLow(group)
            },
            value,
            0,
            16,
        ),
    ensures
        (packed_priority(after.priority@, group.first(), high, 16) >> k) & 1 == if group.first() + k
            < NUM_IRQS {
            (value >> k) & 1
        } else {
            0u16
        },
        (packed_priority(after.priority@, group.first(), !high, 16) >> k) & 1 == (packed_priority(
            before.priority@,
            group.first(),
            !high,
            16,
        ) >> k) & 1,
{
    lemma_packed_priority_bit(after.priority@, group.first(), high, 16, k);
    lemma_packed_priority_bit(after.priority@, group.first(), !high, 16, k);
    lemma_packed_priority_bit(before.priority@, group.first(), !high, 16, k);
    let line = group.first() + k;
    if line < NUM_IRQS {
        let p = before.priority@[line];
        let v = ((value >> k) & 1) as u8;
        assert(v as u16 == (value >> k) & 1 && (((p & !2) | (v << 1)) >> 1) & 1 == v && ((p & !2) | (
        v << 1)) & 1 == p & 1 && ((p & !1) | v) & 1 == v && (((p & !1) | v) >> 1) & 1 == (p >> 1)
            & 1) by (bit_vector)
            requires
                v == ((value >> k) & 1) as u8,
        ;
        assert(after.priority@[line] == with_priority_bit(p, high, v));
    }
}

/// Bits of a word after a field was put into it.
proof fn lemma_deposited_bits(word: u64, shift: u64, mask: u64, field: u64, line: u64)
    requires
        shift <= 48 && mask == 0xFFFF || shift <= 56 && mask == 0xFF,
        line < 64,
    ensures
        ({
            let width: u64 = if mask == 0xFF {
                8
            } else {
                16
            };
            (deposited(word, shift, mask, field) >> line) & 1 == if shift <= line < shift + width {
                (field >> ((line - shift) as u64)) & 1
            } else {
                (word >> line) & 1
            }
        }),
{
    let width: u64 = if mask == 0xFF {
        8
    } else {
        16
    };
    let after = deposited(word, shift, mask, field);
    if shift <= line < shift + width {
        let k = (line - shift) as u64;
        assert((after >> line) & 1 == (field >> k) & 1) by (bit_vector)
            requires
                after == (word & !(mask << shift)) | ((field & mask) << shift),
                shift <= 48 && mask == 0xFFFF && k < 16 || shift <= 56 && mask == 0xFF && k < 8,
                line == shift + k,
        ;
    } else {
        assert((after >> line) & 1 == (word >> line) & 1) by (bit_vector)
            requires
                after == (word & !(mask << shift)) | ((field & mask) << shift),
                shift <= 48 && mask == 0xFFFF && (line < shift || line >= shift + 16) || shift <= 56
                    && mask == 0xFF && (line < shift || line >= shift + 8),
                line < 64,
        ;
    }
}

/// Bits of a word that was put together from two bytes.
proof fn lemma_word_bits(lo: u8, hi: u8, k: u64)
    requires
        k < 16,
    ensures
        (((lo + 256 * hi) as u16) as u64 >> k) & 1 == if k < 8 {
            ((lo >> k) & 1) as u64
        } else {
            ((hi >> ((k - 8) as u64)) & 1) as u64
        },
{
    let word: u16 = (lo + 256 * hi) as u16;
    let high = (k - 8) as u64;
    assert((word as u64 >> k) & 1 == if k < 8 {
        ((lo >> k) & 1) as u64
    } else {
        ((hi >> high) & 1) as u64
    }) by (bit_vector)
        requires
            word == lo + 256 * hi,
            k < 8 || k == high + 8 && high < 8,
    ;
}

/// Which accesses a window takes: single bytes within its sixteen bytes, and
/// two bytes at an even offset. Others are refused and change nothing.
pub proof fn window_takes_bytes_and_words(
    window: u8,
    before: IrqController,
    after: IrqController,
    offset: u64,
    bytes: Seq<u8>,
    r: Result<(), BusError>,
)
    requires
        (IrqBankMmio { window }).writes(before, after, offset, bytes, r),
    ensures
        r is Ok <==> window < 2 && offset < 16 && (bytes.len() == 1 || bytes.len() == 2 && offset
            % 2 == 0),
        r is Err ==> after == before,
{
}

/// Different even offsets below 16 of the two windows reach different registers.
pub proof fn registers_are_distinct(window: u8, offset: u64, other_window: u8, other_offset: u64)
    requires
        window < 2,
        other_window < 2,
        offset < 16,
        other_offset < 16,
        offset % 2 == 0,
        other_offset % 2 == 0,
    ensures
        IfMkReg::reg_at(window, offset) is Some,
        IfMkReg::reg_at(window, offset) == IfMkReg::reg_at(other_window, other_offset) <==> window
            == other_window && offset == other_offset,
{
}

/// What a write to a window leaves in a set of sixty-four latches of which
/// each byte of a register holds eight: the bits of the bytes go to the lines
/// of those bytes, and every other line keeps its bit.
pub open spec fn takes_line_bits(
    before: u64,
    after: u64,
    first: int,
    bytes: Seq<u8>,
) -> bool {
    forall|line: u64|
        #![trigger (after >> line)]
        line < 64 ==> (after >> line) & 1 == if first <= line < first + 8 * bytes.len() {
            ((bytes[(line - first) / 8] >> ((line - first) % 8)) & 1) as u64
        } else {
            (before >> line) & 1
        }
}

/// The bits of bytes that were written to a register of one bit per line.
proof fn lemma_takes_line_bits(word: u64, group: IrqGroup, high: bool, bytes: Seq<u8>)
    requires
        group.wf(),
        bytes.len() == 1 || bytes.len() == 2 && !high,
    ensures
        bytes.len() == 2 ==> takes_line_bits(
            word,
            deposited(
                word,
                group.first() as u64,
                0xFFFF,
                ((bytes[0] + 256 * bytes[1]) as u16) as u64,
            ),
            group.first(),
            bytes,
        ),
        bytes.len() == 1 && !high ==> takes_line_bits(
            word,
            deposited(word, group.first() as u64, 0xFF, (bytes[0] as u16) as u64),
            group.first(),
            bytes,
        ),
        bytes.len() == 1 && high ==> takes_line_bits(
            word,
            deposited(word, (group.first() + 8) as u64, 0xFF, (bytes[0] as u16) as u64),
            group.first() + 8,
            bytes,
        ),
{
    let shift: u64 = if high {
        (group.first() + 8) as u64
    } else {
        group.first() as u64
    };
    let mask: u64 = if bytes.len() == 2 {
        0xFFFF
    } else {
        0xFF
    };
    let field: u64 = if bytes.len() == 2 {
        ((bytes[0] + 256 * bytes[1]) as u16) as u64
    } else {
        (bytes[0] as u16) as u64
    };
    assert forall|line: u64|
        #![trigger (deposited(word, shift, mask, field) >> line)]
        line < 64 implies (deposited(word, shift, mask, field) >> line) & 1 == if shift <= line
        < shift + 8 * bytes.len() {
        ((bytes[(line - shift) / 8] >> ((line - shift) % 8)) & 1) as u64
    } else {
        (word >> line) & 1
    } by {
        lemma_deposited_bits(word, shift, mask, field, line);
        if shift <= line < shift + 8 * bytes.len() {
            let k = (line - shift) as u64;
            if bytes.len() == 2 {
                lemma_word_bits(bytes[0], bytes[1], k);
            } else {
                let b = bytes[0];
                assert((b as u64 >> k) & 1 == ((b >> k) & 1) as u64) by (bit_vector)
                    requires
                        k < 8,
                ;
            }
        }
    }
}

/// A write at offset 4 to 7 of window `w` sets the masks of lines
/// `32 w + 8 (offset - 4)` and on, eight for each byte, to the bits of the
/// bytes. It leaves every other mask, and all that is no mask, alone. A word
/// at offset `4 + 2 g` so reaches lines `16 (2 w + g)` to `16 (2 w + g) + 15`.
pub proof fn mask_write_reaches_its_lines(
    window: u8,
    before: IrqController,
    after: IrqController,
    offset: u64,
    bytes: Seq<u8>,
)
    requires
        window < 2,
        4 <= offset < 8,
        bytes.len() == 1 || bytes.len() == 2 && offset % 2 == 0,
        (IrqBankMmio { window }).writes(before, after, offset, bytes, Ok(())),
    ensures
        takes_line_bits(before.mask, after.mask, 32 * window + 8 * (offset - 4), bytes),
        after.flag == before.flag,
        after.priority == before.priority,
        after.edge == before.edge,
        after.wf(),
{
    lemma_takes_line_bits(
        before.mask,
        IrqGroup((2 * window + (offset - 4) / 2) as u8),
        offset % 2 != 0,
        bytes,
    );
}

/// A write at offset 0 to 3 of window `w` sets the request flags of lines
/// `32 w + 8 offset` and on, eight for each byte, to the bits of the bytes,
/// and leaves everything else alone.
pub proof fn flag_write_reaches_its_lines(
    window: u8,
    before: IrqController,
    after: IrqController,
    offset: u64,
    bytes: Seq<u8>,
)
    requires
        window < 2,
        offset < 4,
        bytes.len() == 1 || bytes.len() == 2 && offset % 2 == 0,
        (IrqBankMmio { window }).writes(before, after, offset, bytes, Ok(())),
    ensures
        takes_line_bits(before.flag, after.flag, 32 * window + 8 * offset, bytes),
        after.mask == before.mask,
        after.priority == before.priority,
        after.edge == before.edge,
        after.wf(),
{
    lemma_takes_line_bits(
        before.flag,
        IrqGroup((2 * window + offset / 2) as u8),
        offset % 2 != 0,
        bytes,
    );
}

/// A write at offset 8 to 15 of window `w` gives the lines from `32 w + 8 n`
/// on, eight for each byte, one bit of their priorities, where `n` is the
/// offset within PR0 or PR1: offsets 8 to 11 hold the low bits and offsets 12
/// to 15 the high ones. The other bit of each line, the lines beyond the last,
/// and all that is no priority stay as they were.
pub proof fn priority_write_reaches_its_lines(
    window: u8,
    before: IrqController,
    after: IrqController,
    offset: u64,
    bytes: Seq<u8>,
    line: int,
)
    requires
        window < 2,
        8 <= offset < 16,
        bytes.len() == 1 || bytes.len() == 2 && offset % 2 == 0,
        (IrqBankMmio { window }).writes(before, after, offset, bytes, Ok(())),
        0 <= line < 64,
    ensures
        after.flag == before.flag,
        after.mask == before.mask,
        after.edge == before.edge,
        after.wf(),
        ({
            let first = 32 * window + 8 * ((offset - 8) % 4);
            let was = before.priority@[line];
            let taken = (bytes[(line - first) / 8] >> ((line - first) % 8)) & 1;
            after.priority@[line] == if first <= line < first + 8 * bytes.len() && line < 59 {
                if offset < 12 {
                    was / 2 * 2 + taken
                } else {
                    was / 4 * 4 + 2 * taken + was % 2
                }
            } else {
                was as int
            }
        }),
{
    let first = 32 * window + 8 * ((offset - 8) % 4);
    let was = before.priority@[line];
    if first <= line < first + 8 * bytes.len() {
        let k = (line - first) as u64;
        let value: u16 = if bytes.len() == 2 {
            (bytes[0] + 256 * bytes[1]) as u16
        } else {
            bytes[0] as u16
        };
        let shift = k as u16;
        let v = ((value >> shift) & 1) as u8;
        if bytes.len() == 2 {
            lemma_word_bits(bytes[0], bytes[1], k);
        }
        let b = bytes[(line - first) / 8];
        let j = ((line - first) % 8) as u64;
        let low = bytes[0];
        assert((value as u64 >> k) & 1 == ((value >> shift) & 1) as u64 && (low as u16 >> shift) & 1
            == ((low >> k) & 1) as u16 || k >= 8 && (value as u64 >> k) & 1 == ((value >> shift)
            & 1) as u64) by (bit_vector)
            requires
                k == shift,
                k < 16,
        ;
        assert(v == (b >> j) & 1);
        assert(v <= 1 && (was & !1) | v == was / 2 * 2 + v && (was & !2) | (v << 1) == was / 4 * 4
            + 2 * v + was % 2) by (bit_vector)
            requires
                v == (b >> j) & 1,
        ;
    }
}

/// A read of a window shows the latches as a write sets them: bit `k` of the
/// byte at offset `o` is that of line `32 w + 8 (o % 4) + k`: its flag at
/// offsets 0 to 3, its mask at 4 to 7, the low bit of its priority at 8 to 11
/// and the high bit at 12 to 15. Lines beyond the last have no priority to show.
pub proof fn read_shows_its_lines(
    window: u8,
    irq: IrqController,
    offset: u64,
    before: Seq<u8>,
    after: Seq<u8>,
    i: int,
    k: u64,
)
    requires
        window < 2,
        offset < 16,
        before.len() == 1 || before.len() == 2 && offset % 2 == 0,
        (IrqBankMmio { window }).reads(irq, offset, before, after, Ok(())),
        0 <= i < before.len(),
        k < 8,
    ensures
        ({
            let line = 32 * window + 8 * ((offset + i) % 4) + k;
            let shown = (after[i] >> k) & 1;
            if offset < 4 {
                shown == (irq.flag >> (line as u64)) & 1
            } else if offset < 8 {
                shown == (irq.mask >> (line as u64)) & 1
            } else if line >= 59 {
                shown == 0
            } else if offset < 12 {
                shown == irq.priority@[line] % 2
            } else {
                shown == irq.priority@[line] / 2 % 2
            }
        }),
{
    let reg = (IrqBankMmio { window }).target(offset, before.len())->0;
    let word = irq.word_at(reg);
    let at = if (offset + i) % 2 == 0 {
        k
    } else {
        (k + 8) as u64
    };
    let shift = at as u16;
    let b = after[i];
    let line = 32 * window + 8 * ((offset + i) % 4) + k;
    assert(b == if (offset + i) % 2 == 0 {
        word % 256
    } else {
        word / 256
    });
    assert((b >> k) & 1 == (word >> shift) & 1) by (bit_vector)
        requires
            k < 8,
            b == word % 256 && shift == k || b == word / 256 && shift == k + 8,
    ;
    let first = (line - at) as u64;
    if offset < 8 {
        let lines = if offset < 4 {
            irq.flag
        } else {
            irq.mask
        };
        let l = line as u64;
        assert(word == lines_from(lines, first));
        assert((word >> shift) & 1 == ((lines >> l) & 1) as u16) by (bit_vector)
            requires
                word == ((lines >> first) & 0xFFFF) as u16,
                l == first + shift,
                shift < 16,
                first <= 48,
        ;
        assert((lines >> l) & 1 <= 1) by (bit_vector);
    } else {
        lemma_packed_priority_bit(irq.priority@, first as int, offset >= 12, 16, shift);
        if line < 59 {
            let was = irq.priority@[line];
            assert(was & 1 == was % 2 && (was >> 1) & 1 == was / 2 % 2) by (bit_vector);
        }
    }
}

/// The CPU is offered a line whose flag is set, whose mask is clear and which
/// has one of the four levels, unless another such line has a lower level, or
/// the same level and a lower index. Nothing else is ever offered.
pub proof fn most_urgent_line_is_pending(irq: IrqController, id: IrqId)
    requires
        irq.wf(),
        irq.flag & (1u64 << id.line()) != 0,
        irq.mask & (1u64 << id.line()) == 0,
        irq.priority@[id.line() as int] <= 3,
    ensures
        irq.pending matches Some(req) && {
            let level = irq.priority@[id.line() as int];
            &&& req.priority < level || req.priority == level && req.index.line() <= id.line()
            &&& req.priority == irq.priority@[req.index.line() as int]
            &&& irq.flag & (1u64 << req.index.line()) != 0
            &&& irq.mask & (1u64 << req.index.line()) == 0
        },
{
    lines_are_distinct(id, id);
    assert(irq.requests(id.line()));
}

/// A write at offset 0 to 3 of the edge-selection window selects edges of pins
/// 0 to 7, from offset 2 on those of pins 8 to 11: rising ones at even
/// offsets, falling ones at odd offsets. The other selection of each pin stays.
pub proof fn edge_write_reaches_its_pins(edge: Seq<u8>, offset: u64, value: u8, pin: int)
    requires
        edge.len() == 12,
        offset < 4,
        0 <= pin < 12,
    ensures
        EdgeReg::reg_at(offset) matches Some(reg) && {
            let after = edges_after(edge, reg.first_pin(), reg.is_rising(), value);
            let selected = (value >> (pin % 8)) & 1;
            &&& after.len() == 12
            &&& after[pin] == if pin / 8 != offset / 2 {
                edge[pin] as int
            } else if offset % 2 == 0 {
                edge[pin] / 4 * 4 + 2 * selected + edge[pin] % 2
            } else {
                edge[pin] / 2 * 2 + selected
            }
        },
{
    let was = edge[pin];
    let k = (pin % 8) as u8;
    let field: u8 = (value >> k) & 1;
    assert((was & !1) | field == was / 2 * 2 + field && (was & !2) | (field << 1) == was / 4 * 4 + 2
        * field + was % 2) by (bit_vector)
        requires
            field == (value >> k) & 1,
    ;
}

/// A read of the edge-selection window shows what a write selects.
pub proof fn edge_read_shows_its_pins(edge: Seq<u8>, offset: u64, k: u8)
    requires
        edge.len() == 12,
        offset < 4,
        k < 8,
    ensures
        EdgeReg::reg_at(offset) matches Some(reg) && {
            let shown = (packed_edges(edge, reg.first_pin(), reg.is_rising(), 8) >> k) & 1;
            let pin = 8 * (offset / 2) + k;
            if pin >= 12 {
                shown == 0
            } else if offset % 2 == 0 {
                shown == edge[pin] / 2 % 2
            } else {
                shown == edge[pin] % 2
            }
        },
{
    let reg = EdgeReg::reg_at(offset)->0;
    lemma_packed_edge_bit(edge, reg.first_pin(), reg.is_rising(), 8, k);
    let pin = 8 * (offset / 2) + k;
    if pin < 12 {
        let was = edge[pin];
        assert((was & 2 != 0 <==> was / 2 % 2 == 1) && (was & 1 != 0 <==> was % 2 == 1)) by (
            bit_vector);
    }
}

/// Bit `k` of packed edges is the selection of the `k`-th pin.
proof fn lemma_packed_edge_bit(edge: Seq<u8>, first: int, rising: bool, n: nat, k: u8)
    requires
        n <= 8,
        k < 8,
    ensures
        (packed_edges(edge, first, rising, n) >> k) & 1 == if k < n && first + k < 12 && edge[first
            + k] & (if rising {
            0x02u8
        } else {
            0x01u8
        }) != 0 {
            1u8
        } else {
            0u8
        },
    decreases n,
{
    if n == 0 {
        assert((0u8 >> k) & 1 == 0) by (bit_vector);
    } else {
        lemma_packed_edge_bit(edge, first, rising, (n - 1) as nat, k);
        let before = packed_edges(edge, first, rising, (n - 1) as nat);
        let m = (n - 1) as u8;
        assert(((before | (1u8 << m)) >> k) & 1 == if k == m {
            1u8
        } else {
            (before >> k) & 1
        }) by (bit_vector)
            requires
                m < 8,
                k < 8,
        ;
    }
}

/// The CPU is shown the index and the priority of a request at level 1, and
/// all levels low without one.
pub proof fn line_shows_the_request(pending: Option<IrqRequest>)
    ensures
        match pending {
            Some(req) => level_of(pending).level == 1 && level_of(pending).index
                == req.index.line() && level_of(pending).priority == req.priority,
            None => level_of(pending).level == 0 && level_of(pending).index == 0 && level_of(
                pending,
            ).priority == 0,
        },
{
}

/// A connected line carries the pending request once it was driven, and hands
/// the CPU just that; a line that is not connected stays as it is and hands
/// over nothing.
pub proof fn driven_line_carries_the_request(
    line: CpuLine,
    after: CpuLine,
    irq: IrqController,
    r: Option<LineLevel>,
)
    requires
        line.drives(after, irq, r),
    ensures
        after.bound == line.bound,
        line.bound ==> r == Some(after.level) && after.follows(irq) && (after.level.level == 1
            <==> irq.pending is Some),
        line.bound ==> (irq.pending matches Some(req) ==> after.level.index == req.index.line()
            && after.level.priority == req.priority),
        !line.bound ==> after.level == line.level && r is None,
{
}

/// After a reset no flag is set, every line is masked at the lowest level, and
/// no edge is selected.
pub proof fn reset_controller_is_quiet(irq: IrqController, id: IrqId)
    requires
        irq.wf(),
        irq.is_reset(),
    ensures
        irq.flag == 0,
        irq.mask == 0xFFFF_FFFF_FFFF_FFFF,
        irq.priority@[id.line() as int] == 3,
        forall|pin: int| 0 <= pin < 12 ==> #[trigger] irq.edge@[pin] == 0,
        irq.pending is None,
{
    lines_are_distinct(id, id);
    reset_masks_everything(irq);
}

/// Vector index of each line.
pub proof fn lines_have_their_vectors()
    ensures
        IrqId::INTWDTI.line() == 0,
        IrqId::INTLVI.line() == 1,
        IrqId::INTP0.line() == 2,
        IrqId::INTP1.line() == 3,
        IrqId::INTP2.line() == 4,
        IrqId::INTP3.line() == 5,
        IrqId::INTP4.line() == 6,
        IrqId::INTP5.line() == 7,
        IrqId::INTST2.line() == 8,
        IrqId::INTSR2.line() == 9,
        IrqId::INTSRE2.line() == 10,
        IrqId::INTELCL.line() == 11,
        IrqId::INTSMSE.line() == 12,
        IrqId::INTST0.line() == 13,
        IrqId::INTTM00.line() == 14,
        IrqId::INTSRE0.line() == 15,
        IrqId::INTST1.line() == 16,
        IrqId::INTSR1.line() == 17,
        IrqId::INTSRE1.line() == 18,
        IrqId::INTIICA0.line() == 19,
        IrqId::INTSR0.line() == 20,
        IrqId::INTTM01.line() == 21,
        IrqId::INTTM02.line() == 22,
        IrqId::INTTM03.line() == 23,
        IrqId::INTAD.line() == 24,
        IrqId::INTRTC.line() == 25,
        IrqId::INTITL.line() == 26,
        IrqId::INTKR.line() == 27,
        IrqId::INTST3.line() == 28,
        IrqId::INTSR3.line() == 29,
        IrqId::INTTM13.line() == 30,
        IrqId::INTTM04.line() == 31,
        IrqId::INTTM05.line() == 32,
        IrqId::INTTM06.line() == 33,
        IrqId::INTTM07.line() == 34,
        IrqId::INTP6.line() == 35,
        IrqId::INTP7.line() == 36,
        IrqId::INTP8.line() == 37,
        IrqId::INTP9.line() == 38,
        IrqId::INTFL.line() == 39,
        IrqId::INTP10.line() == 40,
        IrqId::INTP11.line() == 41,
        IrqId::INTURE0.line() == 42,
        IrqId::INTURE1.line() == 43,
        IrqId::INTTM12.line() == 44,
        IrqId::INTSRE3.line() == 45,
        IrqId::INTCTSUWR.line() == 46,
        IrqId::INTIICA1.line() == 47,
        IrqId::INTCTSURD.line() == 48,
        IrqId::INTCTSUFN.line() == 49,
        IrqId::INTREMC.line() == 50,
        IrqId::INTUT0.line() == 51,
        IrqId::INTUR0.line() == 52,
        IrqId::INTUT1.line() == 53,
        IrqId::INTUR1.line() == 54,
        IrqId::INTTM14.line() == 55,
        IrqId::INTTM15.line() == 56,
        IrqId::INTTM16.line() == 57,
        IrqId::INTTM17.line() == 58,
{
}

} // verus!
