//! The crash-dump model: the parsed global sections, the merged address
//! map, the binary length index, the derived process groups, and the
//! section index kept for on-demand decoding.
//!
//! Building a dump is two phases.  The scanner and index locate every
//! section; then the globally needed sections are parsed up front — the
//! preamble, the memory totals, every `=proc` summary — while the address
//! bindings of every `=proc_heap`, `=literals` and `=persistent_terms`
//! section are merged into one address map, and each `=binary` entry's
//! length is recorded.  Heaps, stacks and message queues stay as index
//! entries and are decoded only when asked for.

use crate::bytes::{split2_slice, views};
use crate::groups::{
    ancestry_root, calculate_group_info, create_descendants_table, group_matches,
    lemma_groups_keep_roots, tbl, GroupInfo,
};
use crate::index::{build_index, sum_len, Index, IndexRow};
use crate::num::parse_hex_u64;
use crate::procs::{MemoryInfo, Preamble, ProcInfo};
use crate::scan::{has_nul, scan, spec_has_dup, spec_scan, FormatError};
use crate::section::GenericSection;
use crate::tags::Tag;
use crate::terms::env_of;
use std::collections::HashMap;
use vstd::prelude::*;

verus! {

broadcast use vstd::std_specs::hash::group_hash_axioms, vstd::seq_lib::group_to_multiset_ensures;

/// The recommended recursion bound for the term decoder.
pub const MAX_DEPTH_PARSE_DATATYPE: usize = 5;

/// Some group has this root, with this pid among its children.
pub open spec fn group_contains(gs: Seq<GroupInfo>, root: Seq<u8>, pid: Seq<u8>) -> bool {
    exists|k: int|
        0 <= k < gs.len() && (#[trigger] gs[k]).pid@ == root && views(gs[k].children@).contains(
            pid,
        )
}

/// The group table is sound for the processes: every named process roots a
/// group holding itself, and every process whose ancestry walk found a
/// root is in that root's group.
pub open spec fn groups_sound(procs: Seq<ProcInfo>, gs: Seq<GroupInfo>) -> bool {
    &&& forall|i: int|
        0 <= i < procs.len() && (#[trigger] procs[i]).name is Some ==> group_contains(
            gs,
            procs[i].pid@,
            procs[i].pid@,
        )
    &&& forall|i: int|
        0 <= i < procs.len() ==> match ancestry_root(procs, #[trigger] procs[i]) {
            Some(root) => group_contains(gs, root, procs[i].pid@),
            None => true,
        }
}

/// The address map merged from every heap, literal and persistent-term
/// section among the index rows, in file order; a later binding wins.
pub open spec fn amap_of(data: Seq<u8>, rows: Seq<IndexRow>) -> Map<u64, Seq<u8>>
    decreases rows.len(),
{
    if rows.len() == 0 {
        Map::empty()
    } else {
        let m = amap_of(data, rows.drop_last());
        let row = rows.last();
        let text = data.subrange(row.start as int, row.start + row.length);
        if row.tag == Tag::ProcHeap || row.tag == Tag::Literals {
            match crate::section::spec_parse_section(text) {
                Ok(ss) => merge_lines(m, ss.raw, ':' as u8),
                Err(_) => m,
            }
        } else if row.tag == Tag::PersistentTerms {
            match crate::section::spec_parse_section(text) {
                Ok(ss) => merge_lines(m, ss.raw, '|' as u8),
                Err(_) => m,
            }
        } else {
            m
        }
    }
}

/// The binary index built from every `=binary` row: the id's address value
/// mapped to the section's byte length.
pub open spec fn bmap_of(rows: Seq<IndexRow>) -> Map<u64, u64>
    decreases rows.len(),
{
    if rows.len() == 0 {
        Map::empty()
    } else {
        let m = bmap_of(rows.drop_last());
        let row = rows.last();
        if row.tag == Tag::Binary {
            match row.id {
                Some(id) => match crate::num::parse_hex(id@) {
                    Some(a) => m.insert(a, row.length as u64),
                    None => m,
                },
                None => m,
            }
        } else {
            m
        }
    }
}

/// The last row of this kind whose section text parses, if any: the one
/// whose decode the build keeps.
pub open spec fn last_sec_of(data: Seq<u8>, rows: Seq<IndexRow>, tag: Tag) -> Option<
    crate::section::SpecSection,
>
    decreases rows.len(),
{
    if rows.len() == 0 {
        None
    } else {
        let row = rows.last();
        if row.tag == tag {
            match crate::section::spec_parse_section(
                data.subrange(row.start as int, row.start + row.length),
            ) {
                Ok(ss) => Some(ss),
                Err(_) => last_sec_of(data, rows.drop_last(), tag),
            }
        } else {
            last_sec_of(data, rows.drop_last(), tag)
        }
    }
}

/// The parseable `=proc` sections among the index rows, in file order.
pub open spec fn proc_secs_of(data: Seq<u8>, rows: Seq<IndexRow>) -> Seq<
    crate::section::SpecSection,
>
    decreases rows.len(),
{
    if rows.len() == 0 {
        Seq::empty()
    } else {
        let rest = proc_secs_of(data, rows.drop_last());
        let row = rows.last();
        if row.tag == Tag::Proc {
            match crate::section::spec_parse_section(
                data.subrange(row.start as int, row.start + row.length),
            ) {
                Ok(ss) => rest.push(ss),
                Err(_) => rest,
            }
        } else {
            rest
        }
    }
}

/// Every decoded process matches its section, one per parseable `=proc`
/// section, in file order.
pub open spec fn procs_match_sections(
    procs: Seq<ProcInfo>,
    secs: Seq<crate::section::SpecSection>,
) -> bool {
    &&& procs.len() == secs.len()
    &&& forall|i: int|
        0 <= i < procs.len() ==> crate::procs::proc_fields_ok(
            #[trigger] procs[i],
            secs[i].kv,
            secs[i].raw,
            secs[i].id,
        )
}

/// The parsed model of one crash dump.
#[derive(Debug)]
pub struct CrashDump {
    pub preamble: Preamble,
    pub memory: MemoryInfo,
    pub processes: Vec<ProcInfo>,
    /// The merged `hex address -> encoded term` bindings of every heap,
    /// literal and persistent-term section, keyed by the address value.
    pub all_heap_addresses: HashMap<u64, Vec<u8>>,
    /// Byte length of each `=binary` section, keyed by the address value
    /// of its id.
    pub visited_binaries: HashMap<u64, u64>,
    pub group_info_map: Vec<GroupInfo>,
    pub index: Index,
    pub max_depth: usize,
}

impl CrashDump {
    /// The decode context this dump's term decoder runs against.
    pub open spec fn env(self) -> crate::terms::DecodeEnv {
        env_of(self.all_heap_addresses@, self.visited_binaries@, self.max_depth as nat)
    }

    /// Well-formedness: the depth bound leaves room for one increment,
    /// every index range lies inside the file, every process satisfies the
    /// binary-virtual-heap sum, and the group table is sound.
    pub open spec fn wf(self) -> bool {
        &&& self.max_depth < usize::MAX
        &&& forall|k: int|
            0 <= k < self.index.rows@.len() ==> (#[trigger] self.index.rows@[k]).start
                + self.index.rows@[k].length <= self.index.file_len
        &&& forall|i: int|
            0 <= i < self.processes@.len() ==> (#[trigger] self.processes@[i]).total_ok()
        &&& groups_sound(self.processes@, self.group_info_map@)
    }

    /// Build the whole model from the dump's bytes: scan, index, parse the
    /// global sections, merge the address map, record binary lengths,
    /// derive the groups.  Fatal are only binary data met while scanning,
    /// a dump with no sections or whose first section is not the
    /// crash-dump preamble, and colliding section ids.
    pub fn build(data: &Vec<u8>) -> (r: Result<CrashDump, FormatError>)
        ensures
            match r {
                Ok(d) => {
                    &&& d.wf()
                    &&& d.index.file_len == data@.len()
                    &&& d.max_depth == MAX_DEPTH_PARSE_DATATYPE
                    &&& !has_nul(data@)
                    &&& spec_scan(data@).len() > 0
                    &&& crate::tags::spec_tag_of(spec_scan(data@)[0].tag) == Tag::Preamble
                    &&& !spec_has_dup(spec_scan(data@))
                    &&& procs_match_sections(
                        d.processes@,
                        proc_secs_of(data@, d.index.rows@),
                    )
                    &&& d.all_heap_addresses@.map_values(|v: Vec<u8>| v@) == amap_of(
                        data@,
                        d.index.rows@,
                    )
                    &&& d.visited_binaries@ == bmap_of(d.index.rows@)
                    &&& match last_sec_of(data@, d.index.rows@, Tag::Preamble) {
                        Some(ss) => crate::procs::preamble_fields_ok(
                            d.preamble,
                            ss.kv,
                            ss.raw,
                            ss.id,
                        ),
                        None => crate::procs::preamble_is_empty(d.preamble),
                    }
                    &&& match last_sec_of(data@, d.index.rows@, Tag::Memory) {
                        Some(ss) => crate::procs::memory_fields_ok(d.memory, ss.kv),
                        None => crate::procs::memory_is_empty(d.memory),
                    }
                    &&& forall|k: int|
                        0 <= k < d.group_info_map@.len() ==> group_matches(
                            d.processes@,
                            (
                                (#[trigger] d.group_info_map@[k]).pid@,
                                views(d.group_info_map@[k].children@),
                            ),
                            d.group_info_map@[k],
                        )
                    &&& spec_scan(data@)[0].offset == 0 ==> sum_len(d.index.rows@)
                        == data@.len()
                },
                Err(e) => match e {
                    FormatError::BinaryData => has_nul(data@),
                    FormatError::NoSections => !has_nul(data@) && spec_scan(data@).len() == 0,
                    FormatError::NotACrashDump => !has_nul(data@) && spec_scan(data@).len() > 0
                        && crate::tags::spec_tag_of(spec_scan(data@)[0].tag) != Tag::Preamble,
                    FormatError::DuplicateId => !has_nul(data@) && spec_scan(data@).len() > 0
                        && crate::tags::spec_tag_of(spec_scan(data@)[0].tag) == Tag::Preamble
                        && spec_has_dup(spec_scan(data@)),
                },
            },
    {
        let triples = match scan(data.as_slice()) {
            Ok(ts) => ts,
            Err(e) => {
                return Err(e);
            },
        };
        if triples.len() == 0 {
            return Err(FormatError::NoSections);
        }
        if !matches!(triples[0].tag, Tag::Preamble) {
            return Err(FormatError::NotACrashDump);
        }
        let file_len = data.len();
        proof {
            assert(file_len == data@.len());
            crate::scan::lemma_scan_offsets(data@, data@.len() as int);
            assert forall|k: int| 0 <= k < triples@.len() implies (#[trigger] triples@[k].offset)
                < data@.len() by {
                assert(triples@[k].offset as int == spec_scan(data@)[k].offset);
            }
            assert forall|k1: int, k2: int|
                0 <= k1 < k2 < triples@.len() implies #[trigger] triples@[k1].offset
                < #[trigger] triples@[k2].offset by {
                assert(triples@[k1].offset as int == spec_scan(data@)[k1].offset);
                assert(triples@[k2].offset as int == spec_scan(data@)[k2].offset);
            }
        }
        let index = match build_index(&triples, file_len) {
            Ok(ix) => ix,
            Err(e) => {
                proof {
                    crate::index::lemma_dup_transfer(triples@, spec_scan(data@));
                }
                return Err(e);
            },
        };
        proof {
            crate::index::lemma_dup_transfer(triples@, spec_scan(data@));
        }
        proof {
            assert(triples@[0].offset as int == spec_scan(data@)[0].offset);
        }
        let mut preamble = Preamble::empty();
        let mut memory = MemoryInfo::empty();
        let mut processes: Vec<ProcInfo> = Vec::new();
        let mut all_heap_addresses: HashMap<u64, Vec<u8>> = HashMap::new();
        let mut visited_binaries: HashMap<u64, u64> = HashMap::new();
        let mut k: usize = 0;
        proof {
            assert(index.rows@.take(0) =~= Seq::<IndexRow>::empty());
            assert(all_heap_addresses@.map_values(|v: Vec<u8>| v@) =~= Map::<u64, Seq<u8>>::empty());
            assert(visited_binaries@ =~= Map::<u64, u64>::empty());
        }
        while k < index.rows.len()
            invariant
                k <= index.rows@.len(),
                data@.len() <= usize::MAX,
                index.file_len == data@.len(),
                forall|j: int|
                    0 <= j < index.rows@.len() ==> (#[trigger] index.rows@[j]).start
                        + index.rows@[j].length <= index.file_len,
                forall|i: int|
                    0 <= i < processes@.len() ==> (#[trigger] processes@[i]).total_ok(),
                procs_match_sections(
                    processes@,
                    proc_secs_of(data@, index.rows@.take(k as int)),
                ),
                all_heap_addresses@.map_values(|v: Vec<u8>| v@) == amap_of(
                    data@,
                    index.rows@.take(k as int),
                ),
                visited_binaries@ == bmap_of(index.rows@.take(k as int)),
                match last_sec_of(data@, index.rows@.take(k as int), Tag::Preamble) {
                    Some(ss) => crate::procs::preamble_fields_ok(preamble, ss.kv, ss.raw, ss.id),
                    None => crate::procs::preamble_is_empty(preamble),
                },
                match last_sec_of(data@, index.rows@.take(k as int), Tag::Memory) {
                    Some(ss) => crate::procs::memory_fields_ok(memory, ss.kv),
                    None => crate::procs::memory_is_empty(memory),
                },
            decreases index.rows@.len() - k,
        {
            let row = &index.rows[k];
            proof {
                assert(index.rows@.take(k + 1).drop_last() =~= index.rows@.take(k as int));
                assert(index.rows@.take(k + 1).last() == index.rows@[k as int]);
            }
            match row.tag {
                Tag::Preamble => {
                    let text = load_section(data.as_slice(), row);
                    match GenericSection::from_text(text.as_slice()) {
                        Ok(g) => {
                            preamble = Preamble::from_generic_section(&g);
                        },
                        Err(_) => {},
                    }
                },
                Tag::Memory => {
                    let text = load_section(data.as_slice(), row);
                    match GenericSection::from_text(text.as_slice()) {
                        Ok(g) => {
                            memory = MemoryInfo::from_generic_section(&g);
                        },
                        Err(_) => {},
                    }
                },
                Tag::Proc => {
                    let text = load_section(data.as_slice(), row);
                    match GenericSection::from_text(text.as_slice()) {
                        Ok(g) => {
                            let p = ProcInfo::from_generic_section(&g);
                            proof {
                                let ss = crate::section::spec_parse_section(text@)->Ok_0;
                                assert(crate::procs::proc_fields_ok(p, ss.kv, ss.raw, ss.id));
                                let secs = proc_secs_of(data@, index.rows@.take(k + 1));
                                assert(secs =~= proc_secs_of(
                                    data@,
                                    index.rows@.take(k as int),
                                ).push(ss));
                            }
                            processes.push(p);
                        },
                        Err(_) => {},
                    }
                },
                Tag::Binary => {
                    match &row.id {
                        Some(idv) => {
                            match parse_hex_u64(idv.as_slice()) {
                                Some(a) => {
                                    proof {
                                        assert(index.rows@[k as int].id->Some_0@ == idv@);
                                    }
                                    visited_binaries.insert(a, row.length as u64);
                                },
                                None => {},
                            }
                        },
                        None => {},
                    }
                },
                Tag::ProcHeap => {
                    let text = load_section(data.as_slice(), row);
                    merge_bindings(&mut all_heap_addresses, &text, ':' as u8);
                },
                Tag::Literals => {
                    let text = load_section(data.as_slice(), row);
                    merge_bindings(&mut all_heap_addresses, &text, ':' as u8);
                },
                Tag::PersistentTerms => {
                    let text = load_section(data.as_slice(), row);
                    merge_bindings(&mut all_heap_addresses, &text, '|' as u8);
                },
                _ => {},
            }
            k = k + 1;
        }
        proof {
            assert(index.rows@.take(index.rows@.len() as int) =~= index.rows@);
        }
        let table = create_descendants_table(&processes);
        let group_info_map = calculate_group_info(&table, &processes);
        proof {
            assert forall|k: int| 0 <= k < group_info_map@.len() implies group_matches(
                processes@,
                ((#[trigger] group_info_map@[k]).pid@, views(group_info_map@[k].children@)),
                group_info_map@[k],
            ) by {
                assert(group_matches(processes@, tbl(table@)[k], group_info_map@[k]));
                assert(tbl(table@)[k].0 == group_info_map@[k].pid@);
                assert(tbl(table@)[k].1 == views(group_info_map@[k].children@));
            }
            assert forall|i: int|
                0 <= i < processes@.len() && (#[trigger] processes@[i]).name is Some implies
                group_contains(group_info_map@, processes@[i].pid@, processes@[i].pid@) by {
                lemma_groups_keep_roots(
                    tbl(table@),
                    processes@,
                    group_info_map@,
                    processes@[i].pid@,
                    processes@[i].pid@,
                );
            }
            assert forall|i: int| 0 <= i < processes@.len() implies match ancestry_root(
                processes@,
                #[trigger] processes@[i],
            ) {
                Some(root) => group_contains(group_info_map@, root, processes@[i].pid@),
                None => true,
            } by {
                match ancestry_root(processes@, processes@[i]) {
                    Some(root) => {
                        lemma_groups_keep_roots(
                            tbl(table@),
                            processes@,
                            group_info_map@,
                            root,
                            processes@[i].pid@,
                        );
                    },
                    None => {},
                }
            }
        }
        Ok(
            CrashDump {
                preamble,
                memory,
                processes,
                all_heap_addresses,
                visited_binaries,
                group_info_map,
                index,
                max_depth: MAX_DEPTH_PARSE_DATATYPE,
            },
        )
    }
}

/// Copy one section's byte range out of the dump.
pub fn load_section(data: &[u8], row: &IndexRow) -> (r: Vec<u8>)
    requires
        row.start + row.length <= data@.len(),
        data@.len() <= usize::MAX,
    ensures
        r@ == data@.subrange(row.start as int, row.start + row.length),
{
    vstd::slice::slice_to_vec(&data[row.start..row.start + row.length])
}

/// One `ADDR<sep>TERM` line folded into the address map; lines without
/// the separator, or whose address is no `u64` hex value, change nothing.
pub open spec fn merge_line(m: Map<u64, Seq<u8>>, line: Seq<u8>, sep: u8) -> Map<u64, Seq<u8>> {
    match crate::bytes::split2(line, sep).1 {
        Some(term) => match crate::num::parse_hex(crate::bytes::split2(line, sep).0) {
            Some(a) => m.insert(a, term),
            None => m,
        },
        None => m,
    }
}

/// The lines folded into the address map in order; a later binding of an
/// address wins.
pub open spec fn merge_lines(m: Map<u64, Seq<u8>>, lines: Seq<Seq<u8>>, sep: u8) -> Map<
    u64,
    Seq<u8>,
>
    decreases lines.len(),
{
    if lines.len() == 0 {
        m
    } else {
        merge_line(merge_lines(m, lines.drop_last(), sep), lines.last(), sep)
    }
}

/// Merge the `ADDR<sep>TERM` bindings of one section's raw lines into the
/// address map; a section text that does not parse changes nothing.
fn merge_bindings(amap: &mut HashMap<u64, Vec<u8>>, text: &Vec<u8>, sep: u8)
    ensures
        final(amap)@.map_values(|v: Vec<u8>| v@) == match crate::section::spec_parse_section(
            text@,
        ) {
            Ok(ss) => merge_lines(old(amap)@.map_values(|v: Vec<u8>| v@), ss.raw, sep),
            Err(_) => old(amap)@.map_values(|v: Vec<u8>| v@),
        },
{
    match GenericSection::from_text(text.as_slice()) {
        Err(_) => {},
        Ok(g) => {
            let ghost m0 = amap@.map_values(|v: Vec<u8>| v@);
            let ghost raw = views(g.raw_lines@);
            let mut i: usize = 0;
            proof {
                assert(raw.take(0) =~= Seq::<Seq<u8>>::empty());
            }
            while i < g.raw_lines.len()
                invariant
                    i <= g.raw_lines@.len(),
                    raw == views(g.raw_lines@),
                    amap@.map_values(|v: Vec<u8>| v@) == merge_lines(
                        m0,
                        raw.take(i as int),
                        sep,
                    ),
                decreases g.raw_lines@.len() - i,
            {
                let line = g.raw_lines[i].as_slice();
                proof {
                    assert(line@ == raw[i as int]);
                    assert(raw.take(i + 1).drop_last() =~= raw.take(i as int));
                    assert(raw.take(i + 1).last() == raw[i as int]);
                }
                let (addr, restop) = split2_slice(line, sep);
                match restop {
                    Some(term) => {
                        match parse_hex_u64(addr) {
                            Some(a) => {
                                let tv = vstd::slice::slice_to_vec(term);
                                let ghost before = amap@.map_values(|v: Vec<u8>| v@);
                                amap.insert(a, tv);
                                proof {
                                    assert(amap@.map_values(|v: Vec<u8>| v@)
                                        =~= before.insert(a, term@));
                                }
                            },
                            None => {},
                        }
                    },
                    None => {},
                }
                i = i + 1;
            }
            proof {
                assert(raw.take(raw.len() as int) =~= raw);
            }
        },
    }
}

/// Law: every named process roots a group that holds the process itself.
pub proof fn lemma_named_process_is_group_root(d: CrashDump, i: int)
    requires
        d.wf(),
        0 <= i < d.processes@.len(),
        d.processes@[i].name is Some,
    ensures
        group_contains(d.group_info_map@, d.processes@[i].pid@, d.processes@[i].pid@),
{
}

/// Law: every process whose ancestry walk reaches a root stands among that
/// root's group children.
pub proof fn lemma_descendant_in_root_group(d: CrashDump, i: int, root: Seq<u8>)
    requires
        d.wf(),
        0 <= i < d.processes@.len(),
        ancestry_root(d.processes@, d.processes@[i]) == Some(root),
    ensures
        group_contains(d.group_info_map@, root, d.processes@[i].pid@),
{
}


/// Render a decode result: the rendering on success, the error's own text
/// on a local decode failure.
pub open spec fn unwrap_render(r: Result<Seq<u8>, Seq<u8>>) -> Seq<u8> {
    match r {
        Ok(v) => v,
        Err(m) => m,
    }
}

/// Index of the first row of this kind carrying this id, or the row count.
pub open spec fn row_ix(rows: Seq<IndexRow>, tag: Tag, id: Seq<u8>) -> int
    decreases rows.len(),
{
    if rows.len() == 0 {
        0
    } else if rows[0].tag == tag && rows[0].id is Some && rows[0].id->Some_0@ == id {
        0
    } else {
        1 + row_ix(rows.skip(1), tag, id)
    }
}

pub proof fn lemma_row_ix(rows: Seq<IndexRow>, tag: Tag, id: Seq<u8>)
    ensures
        0 <= row_ix(rows, tag, id) <= rows.len(),
        row_ix(rows, tag, id) < rows.len() ==> {
            let row = rows[row_ix(rows, tag, id)];
            row.tag == tag && row.id is Some && row.id->Some_0@ == id
        },
    decreases rows.len(),
{
    if rows.len() == 0 {
    } else if rows[0].tag == tag && rows[0].id is Some && rows[0].id->Some_0@ == id {
    } else {
        lemma_row_ix(rows.skip(1), tag, id);
        let i = row_ix(rows, tag, id);
        if i < rows.len() {
            assert(rows.skip(1)[i - 1] == rows[i]);
        }
    }
}

pub proof fn lemma_row_ix_is(rows: Seq<IndexRow>, tag: Tag, id: Seq<u8>, j: int)
    requires
        0 <= j <= rows.len(),
        forall|k: int|
            0 <= k < j ==> !((#[trigger] rows[k]).tag == tag && rows[k].id is Some
                && rows[k].id->Some_0@ == id),
        j < rows.len() ==> rows[j].tag == tag && rows[j].id is Some && rows[j].id->Some_0@ == id,
    ensures
        row_ix(rows, tag, id) == j,
    decreases rows.len(),
{
    if rows.len() == 0 {
    } else if rows[0].tag == tag && rows[0].id is Some && rows[0].id->Some_0@ == id {
        assert(j == 0);
    } else {
        assert(j >= 1);
        assert forall|k: int|
            0 <= k < j - 1 implies !((#[trigger] rows.skip(1)[k]).tag == tag && rows.skip(
            1,
        )[k].id is Some && rows.skip(1)[k].id->Some_0@ == id) by {
            assert(rows.skip(1)[k] == rows[k + 1]);
        }
        assert(j - 1 < rows.skip(1).len() ==> rows.skip(1)[j - 1] == rows[j]);
        lemma_row_ix_is(rows.skip(1), tag, id, j - 1);
    }
}

/// Find the first row of this kind with this id, as executable code.
pub fn find_row<'a>(rows: &'a Vec<IndexRow>, tag: Tag, id: &[u8]) -> (r: Option<&'a IndexRow>)
    ensures
        match r {
            Some(row) => row_ix(rows@, tag, id@) < rows@.len() && *row == rows@[row_ix(
                rows@,
                tag,
                id@,
            )],
            None => row_ix(rows@, tag, id@) == rows@.len(),
        },
{
    let mut i: usize = 0;
    while i < rows.len()
        invariant
            i <= rows@.len(),
            forall|k: int|
                0 <= k < i ==> !((#[trigger] rows@[k]).tag == tag && rows@[k].id is Some
                    && rows@[k].id->Some_0@ == id@),
        decreases rows@.len() - i,
    {
        if rows[i].tag == tag {
            match &rows[i].id {
                Some(rid) => {
                    if crate::bytes::bytes_eq(rid.as_slice(), id) {
                        proof {
                            lemma_row_ix_is(rows@, tag, id@, i as int);
                        }
                        return Some(&rows[i]);
                    }
                },
                None => {},
            }
        }
        i = i + 1;
    }
    proof {
        lemma_row_ix_is(rows@, tag, id@, rows@.len() as int);
    }
    None
}

/// One heap line rendered: `ADDR - decoded term`, or the line itself when
/// it has no separator.
pub open spec fn render_heap_line(env: crate::terms::DecodeEnv, line: Seq<u8>) -> Seq<u8> {
    match crate::bytes::split2(line, ':' as u8).1 {
        Some(term) => crate::bytes::split2(line, ':' as u8).0 + crate::bytes::ascii8(" - "@)
            + unwrap_render(crate::terms::spec_decode(env, term, 0)),
        None => line,
    }
}

/// A heap section rendered: each raw line decoded, newline-joined; empty
/// when the section text does not parse.
pub open spec fn spec_render_heap(env: crate::terms::DecodeEnv, text: Seq<u8>) -> Seq<u8> {
    match crate::section::spec_parse_section(text) {
        Err(_) => Seq::empty(),
        Ok(ss) => crate::bytes::join(
            ss.raw.map_values(|l: Seq<u8>| render_heap_line(env, l)),
            crate::bytes::ascii8("\n"@),
        ),
    }
}

/// Variables decoded for display, each error shown as its own text.
pub open spec fn decode_all(env: crate::terms::DecodeEnv, vars: Seq<Seq<u8>>) -> Seq<Seq<u8>> {
    vars.map_values(|v: Seq<u8>| unwrap_render(crate::terms::spec_decode(env, v, 0)))
}

/// One stack frame rendered: address, module, function, and the decoded
/// variables as the argument list.
pub open spec fn render_frame(env: crate::terms::DecodeEnv, f: crate::stack::SpecFrame) -> Seq<
    u8,
> {
    f.hdr.address + crate::bytes::ascii8(" - M: "@) + f.hdr.module + crate::bytes::ascii8(
        " F: "@,
    ) + f.hdr.function + crate::bytes::ascii8(" A: ("@) + crate::bytes::join(
        decode_all(env, f.vars),
        crate::bytes::ascii8(","@),
    ) + crate::bytes::ascii8(")"@)
}

/// Frames rendered in order with duplicate consecutive addresses dropped:
/// the rendered lines so far and the address last kept.
pub open spec fn render_frames_upto(
    env: crate::terms::DecodeEnv,
    frames: Seq<crate::stack::SpecFrame>,
    n: int,
) -> (Seq<Seq<u8>>, Seq<u8>)
    decreases n,
{
    if n <= 0 {
        (Seq::empty(), Seq::empty())
    } else {
        let p = render_frames_upto(env, frames, n - 1);
        if frames[n - 1].hdr.address == p.1 {
            p
        } else {
            (p.0.push(render_frame(env, frames[n - 1])), frames[n - 1].hdr.address)
        }
    }
}

/// A stack section rendered; empty when the text does not parse as a stack
/// section.
pub open spec fn spec_render_stack(env: crate::terms::DecodeEnv, text: Seq<u8>) -> Seq<u8> {
    match crate::section::spec_parse_section(text) {
        Err(_) => Seq::empty(),
        Ok(ss) => if crate::tags::spec_tag_of(ss.tag) == Tag::ProcStack {
            let frames = crate::stack::spec_stack_frames(ss.raw);
            crate::bytes::join(
                render_frames_upto(env, frames, frames.len() as int).0,
                crate::bytes::ascii8("\n"@),
            )
        } else {
            Seq::empty()
        },
    }
}

/// One message rendered: decoded address, then the decoded value.
pub open spec fn render_msg(env: crate::terms::DecodeEnv, pair: (Seq<u8>, Seq<u8>)) -> Seq<u8> {
    unwrap_render(crate::terms::spec_decode(env, pair.0, 0)) + crate::bytes::ascii8(" - "@)
        + unwrap_render(crate::terms::spec_decode(env, pair.1, 0))
}

/// A message-queue section rendered; empty when the text does not parse as
/// one.
pub open spec fn spec_render_messages(env: crate::terms::DecodeEnv, text: Seq<u8>) -> Seq<u8> {
    match crate::section::spec_parse_section(text) {
        Err(_) => Seq::empty(),
        Ok(ss) => if crate::tags::spec_tag_of(ss.tag) == Tag::ProcMessages {
            crate::bytes::join(
                crate::stack::msgs_of(ss.raw).map_values(
                    |pair: (Seq<u8>, Seq<u8>)| render_msg(env, pair),
                ),
                crate::bytes::ascii8("\n"@),
            )
        } else {
            Seq::empty()
        },
    }
}

impl CrashDump {
    /// Decode one encoded term against this dump's maps, starting at the
    /// given recursion depth.
    pub fn parse_datatype(&self, data: &[u8], depth: usize) -> (r: Result<
        Vec<u8>,
        crate::terms::DecodeError,
    >)
        requires
            self.max_depth < usize::MAX,
        ensures
            crate::terms::res_view(r) == crate::terms::spec_decode(
                self.env(),
                data@,
                depth as nat,
            ),
    {
        crate::terms::decode_term(
            &self.all_heap_addresses,
            &self.visited_binaries,
            self.max_depth,
            data,
            depth,
        )
    }

    /// The process with this pid, if the dump has one.
    pub fn get_proc<'a>(&'a self, pid: &[u8]) -> (r: Option<&'a ProcInfo>)
        ensures
            match r {
                Some(p) => crate::groups::proc_ix(self.processes@, pid@) < self.processes@.len()
                    && *p == self.processes@[crate::groups::proc_ix(self.processes@, pid@)],
                None => crate::groups::proc_ix(self.processes@, pid@) == self.processes@.len(),
            },
    {
        crate::groups::find_proc(&self.processes, pid)
    }

    /// The decoded heap of one process: every `ADDR:TERM` line of its heap
    /// section decoded through the address map, newline-joined.  Empty when
    /// the dump has no heap section for the pid.
    pub fn get_heap_info(&self, data: &[u8], pid: &[u8]) -> (r: Vec<u8>)
        requires
            self.wf(),
            data@.len() == self.index.file_len,
        ensures
            ({
                let rows = self.index.rows@;
                let i = row_ix(rows, Tag::ProcHeap, pid@);
                if i < rows.len() {
                    r@ == spec_render_heap(
                        self.env(),
                        data@.subrange(rows[i].start as int, rows[i].start + rows[i].length),
                    )
                } else {
                    r@ == Seq::<u8>::empty()
                }
            }),
    {
        let row = match find_row(&self.index.rows, Tag::ProcHeap, pid) {
            Some(row) => row,
            None => {
                let v: Vec<u8> = Vec::new();
                proof {
                    assert(v@ =~= Seq::<u8>::empty());
                }
                return v;
            },
        };
        proof {
            lemma_row_ix(self.index.rows@, Tag::ProcHeap, pid@);
            let i = row_ix(self.index.rows@, Tag::ProcHeap, pid@);
            assert(self.index.rows@[i].start + self.index.rows@[i].length
                <= self.index.file_len);
        }
        let text = load_section(data, row);
        let g = match GenericSection::from_text(text.as_slice()) {
            Ok(g) => g,
            Err(_) => {
                let v: Vec<u8> = Vec::new();
                proof {
                    assert(v@ =~= Seq::<u8>::empty());
                }
                return v;
            },
        };
        let ghost env = self.env();
        let ghost raw = views(g.raw_lines@);
        let mut lines: Vec<Vec<u8>> = Vec::new();
        let mut i: usize = 0;
        proof {
            reveal_strlit(" - ");
            reveal_strlit("\n");
            assert(views(lines@) =~= raw.map_values(
                |l: Seq<u8>| render_heap_line(env, l),
            ).take(0));
        }
        while i < g.raw_lines.len()
            invariant
                i <= g.raw_lines@.len(),
                raw == views(g.raw_lines@),
                env == self.env(),
                self.max_depth < usize::MAX,
                views(lines@) == raw.map_values(|l: Seq<u8>| render_heap_line(env, l)).take(
                    i as int,
                ),
            decreases g.raw_lines@.len() - i,
        {
            let line = g.raw_lines[i].as_slice();
            proof {
                assert(line@ == raw[i as int]);
            }
            let (addr, restop) = split2_slice(line, ':' as u8);
            let rendered: Vec<u8> = match restop {
                Some(term) => {
                    proof {
                        reveal_strlit(" - ");
                    }
                    let mut out = vstd::slice::slice_to_vec(addr);
                    crate::bytes::push_all(&mut out, crate::bytes::lit(" - ").as_slice());
                    let dec = match self.parse_datatype(term, 0) {
                        Ok(v) => v,
                        Err(e) => e.msg,
                    };
                    crate::bytes::push_all(&mut out, dec.as_slice());
                    out
                },
                None => vstd::slice::slice_to_vec(line),
            };
            proof {
                assert(rendered@ == render_heap_line(env, raw[i as int]));
                crate::bytes::lemma_views_push(lines@, rendered);
                let mapped = raw.map_values(|l: Seq<u8>| render_heap_line(env, l));
                assert(mapped.take(i + 1) =~= mapped.take(i as int).push(mapped[i as int]));
            }
            lines.push(rendered);
            i = i + 1;
        }
        proof {
            reveal_strlit("\n");
            let mapped = raw.map_values(|l: Seq<u8>| render_heap_line(env, l));
            assert(mapped.take(mapped.len() as int) =~= mapped);
        }
        crate::bytes::join_list(&lines, crate::bytes::lit("\n").as_slice())
    }
}


impl CrashDump {
    /// The decoded stack of one process: its frames rendered in file
    /// order, consecutive duplicate frame addresses dropped.  Empty when
    /// the dump has no stack section for the pid, or the section does not
    /// parse as one.
    pub fn get_stack_info(&self, data: &[u8], pid: &[u8]) -> (r: Vec<u8>)
        requires
            self.wf(),
            data@.len() == self.index.file_len,
        ensures
            ({
                let rows = self.index.rows@;
                let i = row_ix(rows, Tag::ProcStack, pid@);
                if i < rows.len() {
                    r@ == spec_render_stack(
                        self.env(),
                        data@.subrange(rows[i].start as int, rows[i].start + rows[i].length),
                    )
                } else {
                    r@ == Seq::<u8>::empty()
                }
            }),
    {
        let row = match find_row(&self.index.rows, Tag::ProcStack, pid) {
            Some(row) => row,
            None => {
                let v: Vec<u8> = Vec::new();
                proof {
                    assert(v@ =~= Seq::<u8>::empty());
                }
                return v;
            },
        };
        proof {
            lemma_row_ix(self.index.rows@, Tag::ProcStack, pid@);
            let i = row_ix(self.index.rows@, Tag::ProcStack, pid@);
            assert(self.index.rows@[i].start + self.index.rows@[i].length
                <= self.index.file_len);
        }
        let text = load_section(data, row);
        let g = match GenericSection::from_text(text.as_slice()) {
            Ok(g) => g,
            Err(_) => {
                let v: Vec<u8> = Vec::new();
                proof {
                    assert(v@ =~= Seq::<u8>::empty());
                }
                return v;
            },
        };
        let si = match crate::stack::ProcStackInfo::from_generic_section(&g) {
            Ok(si) => si,
            Err(_) => {
                let v: Vec<u8> = Vec::new();
                proof {
                    assert(v@ =~= Seq::<u8>::empty());
                }
                return v;
            },
        };
        let ghost env = self.env();
        let ghost fsp = crate::stack::spec_stack_frames(views(g.raw_lines@));
        let mut lines: Vec<Vec<u8>> = Vec::new();
        let mut last: Vec<u8> = Vec::new();
        let mut i: usize = 0;
        proof {
            assert(views(lines@) =~= render_frames_upto(env, fsp, 0).0);
            assert(last@ =~= render_frames_upto(env, fsp, 0).1);
        }
        while i < si.frames.len()
            invariant
                i <= si.frames@.len(),
                si.frames@.len() == fsp.len(),
                forall|k: int|
                    0 <= k < fsp.len() ==> crate::stack::frame_matches(
                        #[trigger] si.frames@[k],
                        fsp[k],
                    ),
                env == self.env(),
                self.max_depth < usize::MAX,
                views(lines@) == render_frames_upto(env, fsp, i as int).0,
                last@ == render_frames_upto(env, fsp, i as int).1,
            decreases si.frames@.len() - i,
        {
            let f = &si.frames[i];
            proof {
                assert(crate::stack::frame_matches(si.frames@[i as int], fsp[i as int]));
            }
            if !crate::bytes::bytes_eq(f.address.as_slice(), last.as_slice()) {
                proof {
                    reveal_strlit(" - M: ");
                    reveal_strlit(" F: ");
                    reveal_strlit(" A: (");
                    reveal_strlit(",");
                    reveal_strlit(")");
                }
                let ghost vsp = fsp[i as int].vars;
                let mut dec: Vec<Vec<u8>> = Vec::new();
                let mut j: usize = 0;
                proof {
                    assert(views(dec@) =~= decode_all(env, vsp).take(0));
                }
                while j < f.variables.len()
                    invariant
                        j <= f.variables@.len(),
                        views(f.variables@) == vsp,
                        env == self.env(),
                        self.max_depth < usize::MAX,
                        views(dec@) == decode_all(env, vsp).take(j as int),
                    decreases f.variables@.len() - j,
                {
                    let d = match self.parse_datatype(f.variables[j].as_slice(), 0) {
                        Ok(v) => v,
                        Err(e) => e.msg,
                    };
                    proof {
                        assert(f.variables@[j as int]@ == vsp[j as int]);
                        assert(d@ == decode_all(env, vsp)[j as int]);
                        crate::bytes::lemma_views_push(dec@, d);
                        assert(decode_all(env, vsp).take(j + 1) =~= decode_all(
                            env,
                            vsp,
                        ).take(j as int).push(decode_all(env, vsp)[j as int]));
                    }
                    dec.push(d);
                    j = j + 1;
                }
                proof {
                    assert(decode_all(env, vsp).take(decode_all(env, vsp).len() as int)
                        =~= decode_all(env, vsp));
                }
                let mut line = vstd::slice::slice_to_vec(f.address.as_slice());
                crate::bytes::push_all(&mut line, crate::bytes::lit(" - M: ").as_slice());
                crate::bytes::push_all(&mut line, f.module.as_slice());
                crate::bytes::push_all(&mut line, crate::bytes::lit(" F: ").as_slice());
                crate::bytes::push_all(&mut line, f.function.as_slice());
                crate::bytes::push_all(&mut line, crate::bytes::lit(" A: (").as_slice());
                let joined = crate::bytes::join_list(&dec, crate::bytes::lit(",").as_slice());
                crate::bytes::push_all(&mut line, joined.as_slice());
                crate::bytes::push_all(&mut line, crate::bytes::lit(")").as_slice());
                proof {
                    assert(line@ == render_frame(env, fsp[i as int]));
                    crate::bytes::lemma_views_push(lines@, line);
                }
                lines.push(line);
                last = vstd::slice::slice_to_vec(f.address.as_slice());
            }
            i = i + 1;
        }
        proof {
            reveal_strlit("\n");
        }
        crate::bytes::join_list(&lines, crate::bytes::lit("\n").as_slice())
    }

    /// The decoded message queue of one process: each `ADDR:TERM` pair
    /// decoded, newline-joined, in file order.  Empty when the dump has no
    /// message section for the pid, or the section does not parse as one.
    pub fn get_message_queue_info(&self, data: &[u8], pid: &[u8]) -> (r: Vec<u8>)
        requires
            self.wf(),
            data@.len() == self.index.file_len,
        ensures
            ({
                let rows = self.index.rows@;
                let i = row_ix(rows, Tag::ProcMessages, pid@);
                if i < rows.len() {
                    r@ == spec_render_messages(
                        self.env(),
                        data@.subrange(rows[i].start as int, rows[i].start + rows[i].length),
                    )
                } else {
                    r@ == Seq::<u8>::empty()
                }
            }),
    {
        let row = match find_row(&self.index.rows, Tag::ProcMessages, pid) {
            Some(row) => row,
            None => {
                let v: Vec<u8> = Vec::new();
                proof {
                    assert(v@ =~= Seq::<u8>::empty());
                }
                return v;
            },
        };
        proof {
            lemma_row_ix(self.index.rows@, Tag::ProcMessages, pid@);
            let i = row_ix(self.index.rows@, Tag::ProcMessages, pid@);
            assert(self.index.rows@[i].start + self.index.rows@[i].length
                <= self.index.file_len);
        }
        let text = load_section(data, row);
        let g = match GenericSection::from_text(text.as_slice()) {
            Ok(g) => g,
            Err(_) => {
                let v: Vec<u8> = Vec::new();
                proof {
                    assert(v@ =~= Seq::<u8>::empty());
                }
                return v;
            },
        };
        let mi = match crate::stack::ProcMessagesInfo::from_generic_section(&g) {
            Ok(mi) => mi,
            Err(_) => {
                let v: Vec<u8> = Vec::new();
                proof {
                    assert(v@ =~= Seq::<u8>::empty());
                }
                return v;
            },
        };
        let ghost env = self.env();
        let ghost msp = crate::stack::msgs_of(views(g.raw_lines@));
        let ghost rendered = msp.map_values(|pair: (Seq<u8>, Seq<u8>)| render_msg(env, pair));
        let mut lines: Vec<Vec<u8>> = Vec::new();
        let mut i: usize = 0;
        proof {
            assert(views(lines@) =~= rendered.take(0));
        }
        while i < mi.messages.len()
            invariant
                i <= mi.messages@.len(),
                crate::section::kv_views(mi.messages@) == msp,
                rendered == msp.map_values(|pair: (Seq<u8>, Seq<u8>)| render_msg(env, pair)),
                env == self.env(),
                self.max_depth < usize::MAX,
                views(lines@) == rendered.take(i as int),
            decreases mi.messages@.len() - i,
        {
            proof {
                reveal_strlit(" - ");
                assert(crate::section::kv_views(mi.messages@)[i as int] == (
                    mi.messages@[i as int].0@,
                    mi.messages@[i as int].1@,
                ));
            }
            let a = match self.parse_datatype(mi.messages[i].0.as_slice(), 0) {
                Ok(v) => v,
                Err(e) => e.msg,
            };
            let b = match self.parse_datatype(mi.messages[i].1.as_slice(), 0) {
                Ok(v) => v,
                Err(e) => e.msg,
            };
            let mut line = a;
            crate::bytes::push_all(&mut line, crate::bytes::lit(" - ").as_slice());
            crate::bytes::push_all(&mut line, b.as_slice());
            proof {
                assert(line@ == rendered[i as int]);
                crate::bytes::lemma_views_push(lines@, line);
                assert(rendered.take(i + 1) =~= rendered.take(i as int).push(
                    rendered[i as int],
                ));
            }
            lines.push(line);
            i = i + 1;
        }
        proof {
            reveal_strlit("\n");
            assert(rendered.take(rendered.len() as int) =~= rendered);
        }
        crate::bytes::join_list(&lines, crate::bytes::lit("\n").as_slice())
    }
}


/// The metrics a process list can be ordered by.
#[derive(Debug, PartialEq, Eq, Structural, Clone, Copy)]
pub enum SortMetric {
    BinVheap,
    Memory,
    Reductions,
    MessageQueueLength,
}

/// A process's value under a metric.
pub open spec fn proc_metric(p: ProcInfo, m: SortMetric) -> u128 {
    match m {
        SortMetric::BinVheap => p.bin_vheap as u128,
        SortMetric::Memory => p.memory as u128,
        SortMetric::Reductions => p.reductions as u128,
        SortMetric::MessageQueueLength => p.message_queue_length as u128,
    }
}

/// The metric value of the process at position `k` of an index list.
pub open spec fn metric_at(procs: Seq<ProcInfo>, r: Seq<usize>, m: SortMetric, k: int) -> u128 {
    proc_metric(procs[r[k] as int], m)
}

/// The total memory of the group at position `k` of an index list.
pub open spec fn group_mem_at(gs: Seq<GroupInfo>, r: Seq<usize>, k: int) -> u128 {
    gs[r[k] as int].total_memory_size
}

/// Some position of the index list holds `i`.
pub open spec fn contains_ix(r: Seq<usize>, i: int) -> bool {
    exists|k: int| 0 <= k < r.len() && (#[trigger] r[k]) as int == i
}

pub open spec fn sorted_desc(s: Seq<(u128, usize)>) -> bool {
    forall|a: int, b: int| 0 <= a < b < s.len() ==> (#[trigger] s[a]).0 >= (#[trigger] s[b]).0
}

/// Sort key-index pairs by key, largest first; the result holds exactly
/// the input's pairs.
fn sort_pairs_desc(input: Vec<(u128, usize)>) -> (r: Vec<(u128, usize)>)
    ensures
        sorted_desc(r@),
        r@.to_multiset() == input@.to_multiset(),
        r@.len() == input@.len(),
{
    let ghost orig = input@;
    let mut v = input;
    let mut out: Vec<(u128, usize)> = Vec::new();
    proof {
        assert(out@.to_multiset().add(v@.to_multiset()) =~= orig.to_multiset());
    }
    while v.len() > 0
        invariant
            sorted_desc(out@),
            out@.to_multiset().add(v@.to_multiset()) == orig.to_multiset(),
            out@.len() + v@.len() == orig.len(),
            forall|j: int|
                0 <= j < v@.len() ==> out@.len() == 0 || out@.last().0 >= (#[trigger] v@[j]).0,
        decreases v@.len(),
    {
        let mut jm: usize = 0;
        let mut j: usize = 1;
        while j < v.len()
            invariant
                jm < j <= v@.len(),
                v@.len() > 0,
                forall|p: int| 0 <= p < j ==> (#[trigger] v@[p]).0 <= v@[jm as int].0,
            decreases v@.len() - j,
        {
            if v[j].0 > v[jm].0 {
                jm = j;
            }
            j = j + 1;
        }
        let ghost v0 = v@;
        let x = v.remove(jm);
        proof {
            assert(v@ =~= v0.remove(jm as int));
            assert(v0[jm as int] == x);
            assert(v0.contains(x)) by {
                assert(0 <= jm < v0.len() && v0[jm as int] == x);
            }
            assert(v0.remove(jm as int).to_multiset() =~= v0.to_multiset().remove(x));
            assert(v@.to_multiset() == v0.remove(jm as int).to_multiset());
            assert(v0.to_multiset().count(x) >= 1);
            let ghost out0 = out@;
            assert(out0.push(x).to_multiset() =~= out0.to_multiset().insert(x));
            assert(out0.to_multiset().insert(x).add(v0.to_multiset().remove(x))
                =~= out0.to_multiset().add(v0.to_multiset()));
            // the popped maximum keeps the output sorted
            assert forall|a: int| 0 <= a < out0.len() implies (#[trigger] out0[a]).0 >= x.0 by {
                if out0.len() > 0 {
                    assert(out0[a].0 >= out0.last().0);
                    assert(out0.last().0 >= v0[jm as int].0);
                }
            }
            assert forall|a: int, b: int|
                0 <= a < b < out0.push(x).len() implies (#[trigger] out0.push(x)[a]).0
                >= (#[trigger] out0.push(x)[b]).0 by {
                if b < out0.len() {
                    assert(out0.push(x)[a] == out0[a]);
                    assert(out0.push(x)[b] == out0[b]);
                } else {
                    assert(out0.push(x)[a] == out0[a]);
                    assert(out0.push(x)[b] == x);
                }
            }
            // every remaining element stays below the new last
            assert forall|q: int|
                0 <= q < v@.len() implies x.0 >= (#[trigger] v@[q]).0 by {
                if q < jm as int {
                    assert(v@[q] == v0[q]);
                } else {
                    assert(v@[q] == v0[q + 1]);
                }
            }
        }
        out.push(x);
    }
    proof {
        assert(v@.to_multiset().len() == 0);
        assert(v@.to_multiset() =~= vstd::multiset::Multiset::<(u128, usize)>::empty());
        assert(out@.to_multiset().add(vstd::multiset::Multiset::<(u128, usize)>::empty())
            =~= out@.to_multiset());
    }
    out
}

impl CrashDump {
    /// Indices of the processes ordered by a metric, largest first.  Every
    /// process index appears.
    pub fn processes_sorted_by(&self, metric: SortMetric) -> (r: Vec<usize>)
        ensures
            r@.len() == self.processes@.len(),
            forall|k: int| 0 <= k < r@.len() ==> (#[trigger] r@[k]) < self.processes@.len(),
            forall|a: int, b: int|
                0 <= a < b < r@.len() ==> #[trigger] metric_at(self.processes@, r@, metric, a)
                    >= #[trigger] metric_at(self.processes@, r@, metric, b),
            forall|i: int| 0 <= i < self.processes@.len() ==> #[trigger] contains_ix(r@, i),
    {
        let mut pairs: Vec<(u128, usize)> = Vec::new();
        let mut i: usize = 0;
        while i < self.processes.len()
            invariant
                i <= self.processes@.len(),
                pairs@.len() == i,
                forall|j: int|
                    0 <= j < i ==> (#[trigger] pairs@[j]) == (
                        proc_metric(self.processes@[j], metric),
                        j as usize,
                    ),
            decreases self.processes@.len() - i,
        {
            let p = &self.processes[i];
            let key: u128 = match metric {
                SortMetric::BinVheap => p.bin_vheap as u128,
                SortMetric::Memory => p.memory as u128,
                SortMetric::Reductions => p.reductions as u128,
                SortMetric::MessageQueueLength => p.message_queue_length as u128,
            };
            pairs.push((key, i));
            i = i + 1;
        }
        let ghost ps = pairs@;
        let sorted = sort_pairs_desc(pairs);
        proof {
            assert forall|k: int| 0 <= k < sorted@.len() implies {
                &&& (#[trigger] sorted@[k]).1 < self.processes@.len()
                &&& sorted@[k].0 == proc_metric(self.processes@[sorted@[k].1 as int], metric)
            } by {
                assert(sorted@.contains(sorted@[k]));
                assert(sorted@.to_multiset().count(sorted@[k]) > 0);
                assert(ps.to_multiset().count(sorted@[k]) > 0);
                assert(ps.contains(sorted@[k]));
                let j = choose|j: int| 0 <= j < ps.len() && ps[j] == sorted@[k];
            }
        }
        let mut out: Vec<usize> = Vec::new();
        let mut k: usize = 0;
        while k < sorted.len()
            invariant
                k <= sorted@.len(),
                out@.len() == k,
                sorted@.len() == self.processes@.len(),
                forall|j: int| 0 <= j < k ==> (#[trigger] out@[j]) == sorted@[j].1,
                forall|j: int| 0 <= j < sorted@.len() ==> {
                    &&& (#[trigger] sorted@[j]).1 < self.processes@.len()
                    &&& sorted@[j].0 == proc_metric(
                        self.processes@[sorted@[j].1 as int],
                        metric,
                    )
                },
                sorted_desc(sorted@),
                sorted@.to_multiset() == ps.to_multiset(),
                ps.len() == self.processes@.len(),
                forall|j: int|
                    0 <= j < ps.len() ==> (#[trigger] ps[j]) == (
                        proc_metric(self.processes@[j], metric),
                        j as usize,
                    ),
            decreases sorted@.len() - k,
        {
            out.push(sorted[k].1);
            k = k + 1;
        }
        proof {
            assert forall|i2: int|
                0 <= i2 < self.processes@.len() implies #[trigger] contains_ix(out@, i2) by {
                let pr = (proc_metric(self.processes@[i2], metric), i2 as usize);
                assert(ps[i2] == pr);
                assert(ps.contains(pr));
                assert(ps.to_multiset().count(pr) > 0);
                assert(sorted@.to_multiset().count(pr) > 0);
                assert(sorted@.contains(pr));
                let k2 = choose|k2: int| 0 <= k2 < sorted@.len() && sorted@[k2] == pr;
                assert(out@[k2] as int == i2);
                assert(contains_ix(out@, i2));
            }
        }
        out
    }

    /// Indices of the groups ordered by total memory, largest first.
    /// Every group index appears.
    pub fn groups_sorted_by_memory(&self) -> (r: Vec<usize>)
        ensures
            r@.len() == self.group_info_map@.len(),
            forall|k: int| 0 <= k < r@.len() ==> (#[trigger] r@[k]) < self.group_info_map@.len(),
            forall|a: int, b: int|
                0 <= a < b < r@.len() ==> #[trigger] group_mem_at(self.group_info_map@, r@, a)
                    >= #[trigger] group_mem_at(self.group_info_map@, r@, b),
            forall|i: int|
                0 <= i < self.group_info_map@.len() ==> #[trigger] contains_ix(r@, i),
    {
        let mut pairs: Vec<(u128, usize)> = Vec::new();
        let mut i: usize = 0;
        while i < self.group_info_map.len()
            invariant
                i <= self.group_info_map@.len(),
                pairs@.len() == i,
                forall|j: int|
                    0 <= j < i ==> (#[trigger] pairs@[j]) == (
                        self.group_info_map@[j].total_memory_size,
                        j as usize,
                    ),
            decreases self.group_info_map@.len() - i,
        {
            pairs.push((self.group_info_map[i].total_memory_size, i));
            i = i + 1;
        }
        let ghost ps = pairs@;
        let sorted = sort_pairs_desc(pairs);
        proof {
            assert forall|k: int| 0 <= k < sorted@.len() implies {
                &&& (#[trigger] sorted@[k]).1 < self.group_info_map@.len()
                &&& sorted@[k].0 == self.group_info_map@[sorted@[k].1 as int].total_memory_size
            } by {
                assert(sorted@.contains(sorted@[k]));
                assert(sorted@.to_multiset().count(sorted@[k]) > 0);
                assert(ps.to_multiset().count(sorted@[k]) > 0);
                assert(ps.contains(sorted@[k]));
                let j = choose|j: int| 0 <= j < ps.len() && ps[j] == sorted@[k];
            }
        }
        let mut out: Vec<usize> = Vec::new();
        let mut k: usize = 0;
        while k < sorted.len()
            invariant
                k <= sorted@.len(),
                out@.len() == k,
                sorted@.len() == self.group_info_map@.len(),
                forall|j: int| 0 <= j < k ==> (#[trigger] out@[j]) == sorted@[j].1,
                forall|j: int| 0 <= j < sorted@.len() ==> {
                    &&& (#[trigger] sorted@[j]).1 < self.group_info_map@.len()
                    &&& sorted@[j].0 == self.group_info_map@[sorted@[j].1
                        as int].total_memory_size
                },
                sorted_desc(sorted@),
                sorted@.to_multiset() == ps.to_multiset(),
                ps.len() == self.group_info_map@.len(),
                forall|j: int|
                    0 <= j < ps.len() ==> (#[trigger] ps[j]) == (
                        self.group_info_map@[j].total_memory_size,
                        j as usize,
                    ),
            decreases sorted@.len() - k,
        {
            out.push(sorted[k].1);
            k = k + 1;
        }
        proof {
            assert forall|i2: int|
                0 <= i2 < self.group_info_map@.len() implies #[trigger] contains_ix(out@, i2) by {
                let pr = (self.group_info_map@[i2].total_memory_size, i2 as usize);
                assert(ps[i2] == pr);
                assert(ps.contains(pr));
                assert(ps.to_multiset().count(pr) > 0);
                assert(sorted@.to_multiset().count(pr) > 0);
                assert(sorted@.contains(pr));
                let k2 = choose|k2: int| 0 <= k2 < sorted@.len() && sorted@[k2] == pr;
                assert(out@[k2] as int == i2);
                assert(contains_ix(out@, i2));
            }
        }
        out
    }
}

} // verus!
