//! A verified parsing core for Erlang/OTP crash dumps.
//!
//! A crash dump is a large line-oriented text file made of sections, each
//! introduced by a header line `=tag` or `=tag:id`.  This crate scans a dump
//! for its section headers, builds a byte-range index, parses the sections
//! that matter globally (the preamble, the memory totals, the per-process
//! summaries), merges the heap-address bindings into one address map, and
//! decodes the textual term encoding used inside heap, stack and message
//! sections.  It also derives process-group ancestry and per-group memory
//! sums.
//!
//! Everything here is pure computation over bytes handed in by the caller;
//! reading the file belongs to the embedding program.

pub mod bytes;
pub mod dump;
pub mod groups;
pub mod index;
pub mod num;
pub mod procs;
pub mod scan;
pub mod section;
pub mod stack;
pub mod tags;
pub mod terms;
