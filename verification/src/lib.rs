//! Host-side core of a GPU prefix-sum (scan) library.
//!
//! The crate plans every dispatch of four scan strategies (step-efficient,
//! work-efficient, block-recursive and subgroup-accelerated), lays out the
//! per-pass parameter table, frames the bytes that cross the host/device
//! boundary, drives the readback handshake, and states what each sequence of
//! passes computes over a mathematical model of device memory.
//!
//! Every context is a plan: it holds sizes, steps, wirings and grids as plain
//! values, and a driver records them for the device. `run_on_host` executes
//! the same plan on host memory and is proved to give the scan.
//!
//! Conventions differ by strategy and are not hidden: the step-efficient and
//! the subgroup scan are inclusive, the work-efficient and the
//! block-recursive scan are exclusive. `scan_model::exclusive_to_inclusive`
//! converts. All sums are taken modulo 2^32.

pub mod block_blelloch_scan;
pub mod blelloch_scan;
pub mod cpu_prefix_scan;
pub mod dispatch;
pub mod equivalence;
pub mod error;
pub mod hillis_steele;
pub mod layout;
pub mod plan;
pub mod scan_model;
pub mod subgroup_scan;
pub mod sync;
pub mod uniform_table;
pub mod utils;

pub use cpu_prefix_scan::cpu_prefix_sum;
pub use hillis_steele::GpuContext;
