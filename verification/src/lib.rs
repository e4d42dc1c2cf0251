//! Logic of an interactive RDMA, NVLink and XGMI monitor.
//!
//! The library decodes kernel netlink replies, turns counter readings into
//! rates, keeps the state of the terminal interface and lays out its text,
//! records traces and drives background captures. Everything that touches a
//! device, a file or a terminal is left to the program around it, which hands
//! plain readings in and performs the decisions that come back.

pub mod capture;
pub mod ffi;
pub mod gpu;
pub mod lists;
pub mod metrics;
pub mod netlink;
pub mod nvlink;
pub mod rdma;
pub mod sampler;
pub mod stat;
pub mod text;
pub mod trace;
pub mod tui;
pub mod xgmi;
