//! On-chip RL78 peripherals (clock, SAU, TAU, IRQ) for the G23-class map.

pub mod byte_capture;
pub mod clock;
pub mod g23;
pub mod irq;
pub mod sau;
pub mod tau;
