//! Cluster IPC: service names, board-id hashing, wire payloads and UART ports.

pub mod control_bus;
pub mod hash;
pub mod names;
pub mod runtime;
pub mod uart_bus;
pub mod wire;
