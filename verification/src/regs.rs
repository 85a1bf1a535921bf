//! Register numbers and exit codes of the emulated core.

use vstd::prelude::*;

verus! {

/// Exit codes of the core.
pub const EXCP_INTERRUPT: i32 = 0x10000;

pub const EXCP_WFI: i32 = 0x10001;

pub const EXCP_DEBUG: i32 = 0x10002;

pub const EXCP_WATCHPOINT: i32 = 0x10004;

pub const EXCP_RETURN_REQUEST: i32 = 0x10005;

/// RL78 registers of the core.
#[derive(Clone, Copy, Debug, PartialEq, Eq, Structural)]
pub enum Rl78Reg {
    X,
    A,
    C,
    B,
    E,
    D,
    L,
    H,
    Pc,
    Sp,
    Es,
    Cs,
    PswCy,
    PswIsp,
    PswRbs,
    PswAc,
    PswZ,
    PswIe,
}

impl Rl78Reg {
    /// Number of the register: its place in the list.
    pub open spec fn index(self) -> i32 {
        match self {
            Rl78Reg::X => 0,
            Rl78Reg::A => 1,
            Rl78Reg::C => 2,
            Rl78Reg::B => 3,
            Rl78Reg::E => 4,
            Rl78Reg::D => 5,
            Rl78Reg::L => 6,
            Rl78Reg::H => 7,
            Rl78Reg::Pc => 8,
            Rl78Reg::Sp => 9,
            Rl78Reg::Es => 10,
            Rl78Reg::Cs => 11,
            Rl78Reg::PswCy => 12,
            Rl78Reg::PswIsp => 13,
            Rl78Reg::PswRbs => 14,
            Rl78Reg::PswAc => 15,
            Rl78Reg::PswZ => 16,
            Rl78Reg::PswIe => 17,
        }
    }

    /// Number of the register.
    pub fn number(self) -> (r: i32)
        ensures
            r == self.index(),
    {
        match self {
            Rl78Reg::X => 0,
            Rl78Reg::A => 1,
            Rl78Reg::C => 2,
            Rl78Reg::B => 3,
            Rl78Reg::E => 4,
            Rl78Reg::D => 5,
            Rl78Reg::L => 6,
            Rl78Reg::H => 7,
            Rl78Reg::Pc => 8,
            Rl78Reg::Sp => 9,
            Rl78Reg::Es => 10,
            Rl78Reg::Cs => 11,
            Rl78Reg::PswCy => 12,
            Rl78Reg::PswIsp => 13,
            Rl78Reg::PswRbs => 14,
            Rl78Reg::PswAc => 15,
            Rl78Reg::PswZ => 16,
            Rl78Reg::PswIe => 17,
        }
    }
}

/// The eight-bit registers are numbered by pairs, the low one of each pair
/// first: X and A, C and B, E and D, L and H.
pub proof fn register_pairs_are_adjacent()
    ensures
        Rl78Reg::X.index() == 0,
        Rl78Reg::A.index() == Rl78Reg::X.index() + 1,
        Rl78Reg::C.index() == Rl78Reg::A.index() + 1,
        Rl78Reg::B.index() == Rl78Reg::C.index() + 1,
        Rl78Reg::E.index() == Rl78Reg::B.index() + 1,
        Rl78Reg::D.index() == Rl78Reg::E.index() + 1,
        Rl78Reg::L.index() == Rl78Reg::D.index() + 1,
        Rl78Reg::H.index() == Rl78Reg::L.index() + 1,
        Rl78Reg::Pc.index() == Rl78Reg::H.index() + 1,
        Rl78Reg::Sp.index() == Rl78Reg::Pc.index() + 1,
        Rl78Reg::Es.index() == Rl78Reg::Sp.index() + 1,
        Rl78Reg::Cs.index() == Rl78Reg::Es.index() + 1,
        Rl78Reg::PswCy.index() == Rl78Reg::Cs.index() + 1,
        Rl78Reg::PswIsp.index() == Rl78Reg::PswCy.index() + 1,
        Rl78Reg::PswRbs.index() == Rl78Reg::PswIsp.index() + 1,
        Rl78Reg::PswAc.index() == Rl78Reg::PswRbs.index() + 1,
        Rl78Reg::PswZ.index() == Rl78Reg::PswAc.index() + 1,
        Rl78Reg::PswIe.index() == Rl78Reg::PswZ.index() + 1,
{
}

/// Registers differ exactly when their numbers do.
pub proof fn registers_are_distinct(a: Rl78Reg, b: Rl78Reg)
    ensures
        a.index() == b.index() <==> a == b,
        0 <= a.index() < 18,
{
}

/// Exit codes of the core.
pub proof fn exit_codes_are_numbered()
    ensures
        EXCP_INTERRUPT == 0x10000,
        EXCP_WFI == 0x10001,
        EXCP_DEBUG == 0x10002,
        EXCP_WATCHPOINT == 0x10004,
        EXCP_RETURN_REQUEST == 0x10005,
{
}

} // verus!
