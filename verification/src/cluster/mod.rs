//! Multi-board cluster: logical topology, control plane and data plane.

pub mod arbiter;
pub mod blit;
pub mod board_runtime;
pub mod cli;
pub mod cluster_stop;
pub mod control;
pub mod data_plane;
pub mod ipc;
pub mod lifecycle;
pub mod node;
pub mod server;
pub mod shm_uart;
pub mod time_sync;
pub mod topology;
