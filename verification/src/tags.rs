//! The closed enumeration of crash-dump section kinds, and the mapping from
//! a header's tag text to it.  Tags that the enumeration does not know are
//! preserved verbatim by the scanner and bucketed as [`Tag::Other`] rather
//! than aborting the scan.

use crate::bytes::{ascii8, bytes_eq, lit};
use vstd::prelude::*;

verus! {

/// A section kind, as named by the tag of its `=tag[:id]` header line.
#[derive(Debug, PartialEq, Eq, Structural, Clone, Copy)]
pub enum Tag {
    Preamble,
    Abort,
    AllocatedAreas,
    Allocator,
    Atoms,
    Binary,
    DirtyCpuScheduler,
    DirtyCpuRunQueue,
    DirtyIoScheduler,
    DirtyIoRunQueue,
    Ende,
    Ets,
    Fun,
    HashTable,
    HiddenNode,
    IndexTable,
    InstrData,
    InternalEts,
    Literals,
    LoadedModules,
    Memory,
    MemoryMap,
    MemoryStatus,
    Mod,
    NoDistribution,
    Node,
    NotConnected,
    OldInstrData,
    PersistentTerms,
    Port,
    Proc,
    ProcDictionary,
    ProcHeap,
    ProcMessages,
    ProcStack,
    Scheduler,
    Timer,
    VisibleNode,
    End,
    Other,
}

/// The section kind a tag text names; unknown texts map to `Other`.
pub open spec fn spec_tag_of(s: Seq<u8>) -> Tag {
    if s == ascii8("erl_crash_dump"@) {
        Tag::Preamble
    } else if s == ascii8("abort"@) {
        Tag::Abort
    } else if s == ascii8("allocated_areas"@) {
        Tag::AllocatedAreas
    } else if s == ascii8("allocator"@) {
        Tag::Allocator
    } else if s == ascii8("atoms"@) {
        Tag::Atoms
    } else if s == ascii8("binary"@) {
        Tag::Binary
    } else if s == ascii8("dirty_cpu_scheduler"@) {
        Tag::DirtyCpuScheduler
    } else if s == ascii8("dirty_cpu_run_queue"@) {
        Tag::DirtyCpuRunQueue
    } else if s == ascii8("dirty_io_scheduler"@) {
        Tag::DirtyIoScheduler
    } else if s == ascii8("dirty_io_run_queue"@) {
        Tag::DirtyIoRunQueue
    } else if s == ascii8("ende"@) {
        Tag::Ende
    } else if s == ascii8("ets"@) {
        Tag::Ets
    } else if s == ascii8("fun"@) {
        Tag::Fun
    } else if s == ascii8("hash_table"@) {
        Tag::HashTable
    } else if s == ascii8("hidden_node"@) {
        Tag::HiddenNode
    } else if s == ascii8("index_table"@) {
        Tag::IndexTable
    } else if s == ascii8("instr_data"@) {
        Tag::InstrData
    } else if s == ascii8("internal_ets"@) {
        Tag::InternalEts
    } else if s == ascii8("literals"@) {
        Tag::Literals
    } else if s == ascii8("loaded_modules"@) {
        Tag::LoadedModules
    } else if s == ascii8("memory"@) {
        Tag::Memory
    } else if s == ascii8("memory_map"@) {
        Tag::MemoryMap
    } else if s == ascii8("memory_status"@) {
        Tag::MemoryStatus
    } else if s == ascii8("mod"@) {
        Tag::Mod
    } else if s == ascii8("no_distribution"@) {
        Tag::NoDistribution
    } else if s == ascii8("node"@) {
        Tag::Node
    } else if s == ascii8("not_connected"@) {
        Tag::NotConnected
    } else if s == ascii8("old_instr_data"@) {
        Tag::OldInstrData
    } else if s == ascii8("persistent_terms"@) {
        Tag::PersistentTerms
    } else if s == ascii8("port"@) {
        Tag::Port
    } else if s == ascii8("proc"@) {
        Tag::Proc
    } else if s == ascii8("proc_dictionary"@) {
        Tag::ProcDictionary
    } else if s == ascii8("proc_heap"@) {
        Tag::ProcHeap
    } else if s == ascii8("proc_messages"@) {
        Tag::ProcMessages
    } else if s == ascii8("proc_stack"@) {
        Tag::ProcStack
    } else if s == ascii8("scheduler"@) {
        Tag::Scheduler
    } else if s == ascii8("timer"@) {
        Tag::Timer
    } else if s == ascii8("visible_node"@) {
        Tag::VisibleNode
    } else if s == ascii8("end"@) {
        Tag::End
    } else {
        Tag::Other
    }
}

fn tag_is(tag: &[u8], s: &str) -> (r: bool)
    requires
        vstd::string::is_ascii(s),
    ensures
        r <==> tag@ == ascii8(s@),
{
    let l = lit(s);
    bytes_eq(tag, l.as_slice())
}

/// Map a tag's text to the enumeration, as executable code.
pub fn string_tag_to_enum(tag: &[u8]) -> (r: Tag)
    ensures
        r == spec_tag_of(tag@),
{
    proof {
        reveal_strlit("erl_crash_dump");
        reveal_strlit("abort");
        reveal_strlit("allocated_areas");
        reveal_strlit("allocator");
        reveal_strlit("atoms");
        reveal_strlit("binary");
        reveal_strlit("dirty_cpu_scheduler");
        reveal_strlit("dirty_cpu_run_queue");
        reveal_strlit("dirty_io_scheduler");
        reveal_strlit("dirty_io_run_queue");
        reveal_strlit("ende");
        reveal_strlit("ets");
        reveal_strlit("fun");
        reveal_strlit("hash_table");
        reveal_strlit("hidden_node");
        reveal_strlit("index_table");
        reveal_strlit("instr_data");
        reveal_strlit("internal_ets");
        reveal_strlit("literals");
        reveal_strlit("loaded_modules");
        reveal_strlit("memory");
        reveal_strlit("memory_map");
        reveal_strlit("memory_status");
        reveal_strlit("mod");
        reveal_strlit("no_distribution");
        reveal_strlit("node");
        reveal_strlit("not_connected");
        reveal_strlit("old_instr_data");
        reveal_strlit("persistent_terms");
        reveal_strlit("port");
        reveal_strlit("proc");
        reveal_strlit("proc_dictionary");
        reveal_strlit("proc_heap");
        reveal_strlit("proc_messages");
        reveal_strlit("proc_stack");
        reveal_strlit("scheduler");
        reveal_strlit("timer");
        reveal_strlit("visible_node");
        reveal_strlit("end");
    }
    if tag_is(tag, "erl_crash_dump") {
        Tag::Preamble
    } else if tag_is(tag, "abort") {
        Tag::Abort
    } else if tag_is(tag, "allocated_areas") {
        Tag::AllocatedAreas
    } else if tag_is(tag, "allocator") {
        Tag::Allocator
    } else if tag_is(tag, "atoms") {
        Tag::Atoms
    } else if tag_is(tag, "binary") {
        Tag::Binary
    } else if tag_is(tag, "dirty_cpu_scheduler") {
        Tag::DirtyCpuScheduler
    } else if tag_is(tag, "dirty_cpu_run_queue") {
        Tag::DirtyCpuRunQueue
    } else if tag_is(tag, "dirty_io_scheduler") {
        Tag::DirtyIoScheduler
    } else if tag_is(tag, "dirty_io_run_queue") {
        Tag::DirtyIoRunQueue
    } else if tag_is(tag, "ende") {
        Tag::Ende
    } else if tag_is(tag, "ets") {
        Tag::Ets
    } else if tag_is(tag, "fun") {
        Tag::Fun
    } else if tag_is(tag, "hash_table") {
        Tag::HashTable
    } else if tag_is(tag, "hidden_node") {
        Tag::HiddenNode
    } else if tag_is(tag, "index_table") {
        Tag::IndexTable
    } else if tag_is(tag, "instr_data") {
        Tag::InstrData
    } else if tag_is(tag, "internal_ets") {
        Tag::InternalEts
    } else if tag_is(tag, "literals") {
        Tag::Literals
    } else if tag_is(tag, "loaded_modules") {
        Tag::LoadedModules
    } else if tag_is(tag, "memory") {
        Tag::Memory
    } else if tag_is(tag, "memory_map") {
        Tag::MemoryMap
    } else if tag_is(tag, "memory_status") {
        Tag::MemoryStatus
    } else if tag_is(tag, "mod") {
        Tag::Mod
    } else if tag_is(tag, "no_distribution") {
        Tag::NoDistribution
    } else if tag_is(tag, "node") {
        Tag::Node
    } else if tag_is(tag, "not_connected") {
        Tag::NotConnected
    } else if tag_is(tag, "old_instr_data") {
        Tag::OldInstrData
    } else if tag_is(tag, "persistent_terms") {
        Tag::PersistentTerms
    } else if tag_is(tag, "port") {
        Tag::Port
    } else if tag_is(tag, "proc") {
        Tag::Proc
    } else if tag_is(tag, "proc_dictionary") {
        Tag::ProcDictionary
    } else if tag_is(tag, "proc_heap") {
        Tag::ProcHeap
    } else if tag_is(tag, "proc_messages") {
        Tag::ProcMessages
    } else if tag_is(tag, "proc_stack") {
        Tag::ProcStack
    } else if tag_is(tag, "scheduler") {
        Tag::Scheduler
    } else if tag_is(tag, "timer") {
        Tag::Timer
    } else if tag_is(tag, "visible_node") {
        Tag::VisibleNode
    } else if tag_is(tag, "end") {
        Tag::End
    } else {
        Tag::Other
    }
}

} // verus!
