//! Symbolication of instruction-level execution traces.
//!
//! From a textual virtual-memory map and locally available copies of the
//! ELF binaries it references, the crate builds a queryable index from
//! virtual address to (binary, section, symbol), and aggregates per-symbol
//! instruction counts over a trace.
//!
//! - [`range`], [`perms`], [`bytes`]: address ranges, permission flags and
//!   byte-string helpers.
//! - [`elfdata`]: the structural data of a local ELF, as plain records.
//! - [`mapping`]: one mapping built from a VM-map record, its sections and
//!   symbols re-based into process-virtual space.
//! - [`vmmap`]: the whole map, sorted and non-overlapping.
//! - [`resolve`]: the three-tier address lookup and its laws.
//! - [`counts`], [`report`]: the identity-keyed aggregate and its collated
//!   report.
//! - [`text`], [`trace`]: the VM-map text and the trace-line grammar.

pub mod bytes;
pub mod counts;
pub mod elfdata;
pub mod mapping;
pub mod perms;
pub mod range;
pub mod report;
pub mod resolve;
pub mod text;
pub mod trace;
pub mod vmmap;
