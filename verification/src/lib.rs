//! RL78 simulation support: on-chip peripherals, guest memory plumbing, and
//! the control and data planes of a multi-board cluster.

pub mod callbacks;
pub mod cluster;
pub mod cpu;
pub mod elf;
pub mod kernel;
pub mod magic;
pub mod map;
pub mod peripherals;
pub mod regs;
pub mod text;
