//! Typed decoders for the globally parsed sections: the preamble, the
//! memory totals, and the per-process summaries.
//!
//! Every numeric field of a process defaults to zero when the dump omits it
//! (a process may have been spawned but never run).  A process's
//! `total_bin_vheap` is always the sum of its current and old binary
//! virtual heaps; the sum is kept wide enough that it never wraps.

use crate::bytes::{
    ascii8, has_prefix, lit, split2, split_all, split_all_pat, split_list, split_list_pat,
    starts_with, trim_slice, trim_ws, views,
};
use crate::num::{parse_dec_u64, parse_dec_u64_bytes, parse_i64, parse_i64_bytes};
use crate::section::{kv_lookup, kv_views, GenericSection};
use crate::terms::{find_non_hex, first_non_hex};
use vstd::prelude::*;

verus! {

/// The value under an ASCII key, or empty when absent.
pub open spec fn kv_str(kvs: Seq<(Seq<u8>, Seq<u8>)>, key: Seq<char>) -> Seq<u8> {
    match kv_lookup(kvs, ascii8(key)) {
        Some(v) => v,
        None => Seq::empty(),
    }
}

/// The value under an ASCII key as a number; absent or unparsable values
/// count zero.
pub open spec fn kv_u64(kvs: Seq<(Seq<u8>, Seq<u8>)>, key: Seq<char>) -> u64 {
    match kv_lookup(kvs, ascii8(key)) {
        Some(v) => match parse_dec_u64(v) {
            Some(n) => n,
            None => 0,
        },
        None => 0,
    }
}

/// The signed value under an ASCII key; absent or unparsable values count
/// zero.
pub open spec fn kv_i64(kvs: Seq<(Seq<u8>, Seq<u8>)>, key: Seq<char>) -> i64 {
    match kv_lookup(kvs, ascii8(key)) {
        Some(v) => match parse_i64(v) {
            Some(n) => n,
            None => 0,
        },
        None => 0,
    }
}

/// The value under an ASCII key when present and nonempty.
pub open spec fn kv_opt(kvs: Seq<(Seq<u8>, Seq<u8>)>, key: Seq<char>) -> Option<Seq<u8>> {
    match kv_lookup(kvs, ascii8(key)) {
        Some(v) => if v.len() > 0 {
            Some(v)
        } else {
            None
        },
        None => None,
    }
}

fn get_str(g: &GenericSection, key: &str) -> (r: Vec<u8>)
    requires
        vstd::string::is_ascii(key),
    ensures
        r@ == kv_str(kv_views(g.data@), key@),
{
    match g.get(lit(key).as_slice()) {
        Some(v) => vstd::slice::slice_to_vec(v.as_slice()),
        None => Vec::new(),
    }
}

fn get_u64(g: &GenericSection, key: &str) -> (r: u64)
    requires
        vstd::string::is_ascii(key),
    ensures
        r == kv_u64(kv_views(g.data@), key@),
{
    match g.get(lit(key).as_slice()) {
        Some(v) => match parse_dec_u64_bytes(v.as_slice()) {
            Some(n) => n,
            None => 0,
        },
        None => 0,
    }
}

fn get_i64(g: &GenericSection, key: &str) -> (r: i64)
    requires
        vstd::string::is_ascii(key),
    ensures
        r == kv_i64(kv_views(g.data@), key@),
{
    match g.get(lit(key).as_slice()) {
        Some(v) => match parse_i64_bytes(v.as_slice()) {
            Some(n) => n,
            None => 0,
        },
        None => 0,
    }
}

fn get_opt(g: &GenericSection, key: &str) -> (r: Option<Vec<u8>>)
    requires
        vstd::string::is_ascii(key),
    ensures
        match r {
            Some(v) => kv_opt(kv_views(g.data@), key@) == Some(v@),
            None => kv_opt(kv_views(g.data@), key@) is None,
        },
{
    match g.get(lit(key).as_slice()) {
        Some(v) => {
            if v.len() > 0 {
                Some(vstd::slice::slice_to_vec(v.as_slice()))
            } else {
                None
            }
        },
        None => None,
    }
}

/// The dump's preamble: version, crash time, slogan, runtime banner,
/// taints, atom count, and the thread that called the dump.
#[derive(Debug)]
pub struct Preamble {
    pub version: Vec<u8>,
    pub time: Vec<u8>,
    pub slogan: Vec<u8>,
    pub erts: Vec<u8>,
    pub taints: Vec<u8>,
    pub atom_count: i64,
    pub calling_thread: Vec<u8>,
}

/// Every field of a decoded preamble, stated against its section.
pub open spec fn preamble_fields_ok(
    p: Preamble,
    kv: Seq<(Seq<u8>, Seq<u8>)>,
    raw: Seq<Seq<u8>>,
    id: Option<Seq<u8>>,
) -> bool {
    &&& p.version@ == match id {
        Some(v) => v,
        None => Seq::<u8>::empty(),
    }
    &&& p.time@ == if raw.len() > 0 {
        raw[0]
    } else {
        Seq::<u8>::empty()
    }
    &&& p.slogan@ == kv_str(kv, "Slogan"@)
    &&& p.erts@ == kv_str(kv, "System version"@)
    &&& p.taints@ == kv_str(kv, "Taints"@)
    &&& p.atom_count == kv_i64(kv, "Atoms"@)
    &&& p.calling_thread@ == kv_str(kv, "Calling Thread"@)
}

/// A preamble with nothing read into it yet.
pub open spec fn preamble_is_empty(p: Preamble) -> bool {
    &&& p.version@ == Seq::<u8>::empty()
    &&& p.time@ == Seq::<u8>::empty()
    &&& p.slogan@ == Seq::<u8>::empty()
    &&& p.erts@ == Seq::<u8>::empty()
    &&& p.taints@ == Seq::<u8>::empty()
    &&& p.atom_count == 0
    &&& p.calling_thread@ == Seq::<u8>::empty()
}

impl Preamble {
    /// An empty preamble, used until the dump's own is parsed.
    pub fn empty() -> (r: Preamble)
        ensures
            preamble_is_empty(r),
    {
        Preamble {
            version: Vec::new(),
            time: Vec::new(),
            slogan: Vec::new(),
            erts: Vec::new(),
            taints: Vec::new(),
            atom_count: 0,
            calling_thread: Vec::new(),
        }
    }

    /// Read the preamble out of its parsed section: the id carries the
    /// version, the first raw line the crash time, and the key-value pairs
    /// the rest.
    pub fn from_generic_section(g: &GenericSection) -> (r: Preamble)
        ensures
            preamble_fields_ok(
                r,
                kv_views(g.data@),
                views(g.raw_lines@),
                match g.id {
                    Some(v) => Some(v@),
                    None => None,
                },
            ),
    {
        proof {
            reveal_strlit("Slogan");
            reveal_strlit("System version");
            reveal_strlit("Taints");
            reveal_strlit("Atoms");
            reveal_strlit("Calling Thread");
        }
        let version: Vec<u8> = match &g.id {
            Some(v) => vstd::slice::slice_to_vec(v.as_slice()),
            None => Vec::new(),
        };
        let time: Vec<u8> = if g.raw_lines.len() > 0 {
            vstd::slice::slice_to_vec(g.raw_lines[0].as_slice())
        } else {
            Vec::new()
        };
        Preamble {
            version,
            time,
            slogan: get_str(g, "Slogan"),
            erts: get_str(g, "System version"),
            taints: get_str(g, "Taints"),
            atom_count: get_i64(g, "Atoms"),
            calling_thread: get_str(g, "Calling Thread"),
        }
    }
}

/// Process memory totals of the `=memory` section.
#[derive(Debug)]
pub struct Processes {
    pub total: u64,
    pub used: u64,
}

/// Atom memory totals of the `=memory` section.
#[derive(Debug)]
pub struct Atom {
    pub total: u64,
    pub used: u64,
}

/// The `=memory` section: system-wide totals in bytes.
#[derive(Debug)]
pub struct MemoryInfo {
    pub total: u64,
    pub processes: Processes,
    pub system: u64,
    pub atom: Atom,
    pub binary: u64,
    pub code: u64,
    pub ets: u64,
}

/// Every figure of the decoded memory totals, stated against its
/// section's key-value pairs.
pub open spec fn memory_fields_ok(m: MemoryInfo, kv: Seq<(Seq<u8>, Seq<u8>)>) -> bool {
    &&& m.total == kv_u64(kv, "total"@)
    &&& m.processes.total == kv_u64(kv, "processes"@)
    &&& m.processes.used == kv_u64(kv, "processes_used"@)
    &&& m.system == kv_u64(kv, "system"@)
    &&& m.atom.total == kv_u64(kv, "atom"@)
    &&& m.atom.used == kv_u64(kv, "atom_used"@)
    &&& m.binary == kv_u64(kv, "binary"@)
    &&& m.code == kv_u64(kv, "code"@)
    &&& m.ets == kv_u64(kv, "ets"@)
}

/// Memory totals with nothing read into them yet.
pub open spec fn memory_is_empty(m: MemoryInfo) -> bool {
    &&& m.total == 0
    &&& m.processes.total == 0
    &&& m.processes.used == 0
    &&& m.system == 0
    &&& m.atom.total == 0
    &&& m.atom.used == 0
    &&& m.binary == 0
    &&& m.code == 0
    &&& m.ets == 0
}

impl MemoryInfo {
    /// Zeroed totals, used until the dump's own are parsed.
    pub fn empty() -> (r: MemoryInfo)
        ensures
            memory_is_empty(r),
    {
        MemoryInfo {
            total: 0,
            processes: Processes { total: 0, used: 0 },
            system: 0,
            atom: Atom { total: 0, used: 0 },
            binary: 0,
            code: 0,
            ets: 0,
        }
    }

    /// Read the totals out of the parsed `=memory` section; a missing or
    /// unparsable entry counts zero.
    pub fn from_generic_section(g: &GenericSection) -> (r: MemoryInfo)
        ensures
            memory_fields_ok(r, kv_views(g.data@)),
    {
        proof {
            reveal_strlit("total");
            reveal_strlit("processes");
            reveal_strlit("processes_used");
            reveal_strlit("system");
            reveal_strlit("atom");
            reveal_strlit("atom_used");
            reveal_strlit("binary");
            reveal_strlit("code");
            reveal_strlit("ets");
        }
        MemoryInfo {
            total: get_u64(g, "total"),
            processes: Processes {
                total: get_u64(g, "processes"),
                used: get_u64(g, "processes_used"),
            },
            system: get_u64(g, "system"),
            atom: Atom { total: get_u64(g, "atom"), used: get_u64(g, "atom_used") },
            binary: get_u64(g, "binary"),
            code: get_u64(g, "code"),
            ets: get_u64(g, "ets"),
        }
    }
}

/// A parsed program counter `0xADDR (module:function/arity + offset)`.
#[derive(Debug)]
pub struct ProgramCounter {
    pub address: Vec<u8>,
    pub module: Vec<u8>,
    pub function: Vec<u8>,
    pub arity: u64,
    pub offset: u64,
}

/// The spec-level content of a parsed program counter.
pub struct SpecPc {
    pub address: Seq<u8>,
    pub module: Seq<u8>,
    pub function: Seq<u8>,
    pub arity: u64,
    pub offset: u64,
}

/// What the program-counter pattern accepts: a hex address, then
/// `(module:function/arity + offset)`.
pub open spec fn spec_parse_pc(s: Seq<u8>) -> Option<SpecPc> {
    if !has_prefix(s, ascii8("0x"@)) {
        None
    } else {
        let rest = s.skip(2);
        let i = first_non_hex(rest);
        if i == 0 {
            None
        } else {
            let address = s.take(2 + i);
            let after = rest.skip(i);
            if !has_prefix(after, ascii8(" ("@)) {
                None
            } else {
                let inner0 = after.skip(2);
                if inner0.len() == 0 || inner0.last() != ')' as u8 {
                    None
                } else {
                    let inner = inner0.drop_last();
                    match split2(inner, ':' as u8).1 {
                        None => None,
                        Some(rest2) => {
                            let module = split2(inner, ':' as u8).0;
                            match split2(rest2, '/' as u8).1 {
                                None => None,
                                Some(rest3) => {
                                    let function = split2(rest2, '/' as u8).0;
                                    let parts = split_all(rest3, ' ' as u8);
                                    if parts.len() == 3 && parts[1] == ascii8("+"@) {
                                        match (parse_dec_u64(parts[0]), parse_dec_u64(
                                            parts[2],
                                        )) {
                                            (Some(a), Some(o)) => Some(
                                                SpecPc {
                                                    address,
                                                    module,
                                                    function,
                                                    arity: a,
                                                    offset: o,
                                                },
                                            ),
                                            _ => None,
                                        }
                                    } else {
                                        None
                                    }
                                },
                            }
                        },
                    }
                }
            }
        }
    }
}

pub open spec fn pc_matches(pc: ProgramCounter, s: SpecPc) -> bool {
    &&& pc.address@ == s.address
    &&& pc.module@ == s.module
    &&& pc.function@ == s.function
    &&& pc.arity == s.arity
    &&& pc.offset == s.offset
}

impl ProgramCounter {
    /// Parse the program-counter pattern out of its key's value.
    pub fn from_string(s: &[u8]) -> (r: Option<ProgramCounter>)
        ensures
            match r {
                Some(pc) => spec_parse_pc(s@) is Some && pc_matches(pc, spec_parse_pc(s@)->0),
                None => spec_parse_pc(s@) is None,
            },
    {
        proof {
            reveal_strlit("0x");
            reveal_strlit(" (");
            reveal_strlit("+");
        }
        let p0x = lit("0x");
        if !starts_with(s, p0x.as_slice()) {
            return None;
        }
        let rest = &s[2..s.len()];
        proof {
            assert(rest@ =~= s@.skip(2));
        }
        let i = find_non_hex(rest);
        if i == 0 {
            return None;
        }
        let address = vstd::slice::slice_to_vec(&s[0..2 + i]);
        proof {
            assert(address@ =~= s@.take(2 + i));
        }
        let after = &rest[i..rest.len()];
        proof {
            assert(after@ =~= rest@.skip(i as int));
        }
        let popen = lit(" (");
        if !starts_with(after, popen.as_slice()) {
            return None;
        }
        let inner0 = &after[2..after.len()];
        proof {
            assert(inner0@ =~= after@.skip(2));
        }
        if inner0.len() == 0 {
            return None;
        }
        if inner0[inner0.len() - 1] != ')' as u8 {
            return None;
        }
        let inner = &inner0[0..inner0.len() - 1];
        proof {
            assert(inner@ =~= inner0@.drop_last());
        }
        let (module_s, rest2op) = crate::bytes::split2_slice(inner, ':' as u8);
        let rest2 = match rest2op {
            Some(r2) => r2,
            None => {
                return None;
            },
        };
        let (func_s, rest3op) = crate::bytes::split2_slice(rest2, '/' as u8);
        let rest3 = match rest3op {
            Some(r3) => r3,
            None => {
                return None;
            },
        };
        let parts = split_list(rest3, ' ' as u8);
        if parts.len() != 3 {
            return None;
        }
        proof {
            assert(views(parts@)[0] == parts@[0]@);
            assert(views(parts@)[1] == parts@[1]@);
            assert(views(parts@)[2] == parts@[2]@);
        }
        let plus = lit("+");
        if !crate::bytes::bytes_eq(parts[1].as_slice(), plus.as_slice()) {
            return None;
        }
        let a = match parse_dec_u64_bytes(parts[0].as_slice()) {
            Some(a) => a,
            None => {
                return None;
            },
        };
        let o = match parse_dec_u64_bytes(parts[2].as_slice()) {
            Some(o) => o,
            None => {
                return None;
            },
        };
        Some(
            ProgramCounter {
                address,
                module: vstd::slice::slice_to_vec(module_s),
                function: vstd::slice::slice_to_vec(func_s),
                arity: a,
                offset: o,
            },
        )
    }
}


/// A bracket byte, as trimmed off a link list's value.
pub open spec fn is_br(b: u8) -> bool {
    b == '[' as u8 || b == ']' as u8
}

pub open spec fn trim_brs_left(s: Seq<u8>) -> Seq<u8>
    decreases s.len(),
{
    if s.len() > 0 && is_br(s[0]) {
        trim_brs_left(s.skip(1))
    } else {
        s
    }
}

pub open spec fn trim_brs_right(s: Seq<u8>) -> Seq<u8>
    decreases s.len(),
{
    if s.len() > 0 && is_br(s.last()) {
        trim_brs_right(s.drop_last())
    } else {
        s
    }
}

/// Both ends trimmed of brackets, as `str::trim_matches` does.
pub open spec fn trim_brs(s: Seq<u8>) -> Seq<u8> {
    trim_brs_left(trim_brs_right(s))
}

proof fn lemma_trim_brs_left_skip(s: Seq<u8>, k: int)
    requires
        0 <= k <= s.len(),
        forall|j: int| 0 <= j < k ==> is_br(s[j]),
        k < s.len() ==> !is_br(s[k]),
    ensures
        trim_brs_left(s) == s.skip(k),
    decreases s.len(),
{
    if s.len() > 0 && is_br(s[0]) {
        assert(k >= 1);
        assert forall|j: int| 0 <= j < k - 1 implies is_br(s.skip(1)[j]) by {
            assert(s.skip(1)[j] == s[j + 1]);
        }
        assert(k - 1 < s.skip(1).len() ==> s.skip(1)[k - 1] == s[k]);
        lemma_trim_brs_left_skip(s.skip(1), k - 1);
        assert(s.skip(1).skip(k - 1) =~= s.skip(k));
    } else {
        assert(k == 0);
        assert(s.skip(0) =~= s);
    }
}

proof fn lemma_trim_brs_right_take(s: Seq<u8>, k: int)
    requires
        0 <= k <= s.len(),
        forall|j: int| k <= j < s.len() ==> is_br(s[j]),
        k > 0 ==> !is_br(s[k - 1]),
    ensures
        trim_brs_right(s) == s.take(k),
    decreases s.len(),
{
    if s.len() > 0 && is_br(s.last()) {
        assert(k < s.len());
        lemma_trim_brs_right_take(s.drop_last(), k);
    } else {
        assert(k == s.len());
        assert(s.take(k) =~= s);
    }
}

/// Trim brackets from both ends, as executable code.
fn trim_brackets<'a>(s: &'a [u8]) -> (r: &'a [u8])
    ensures
        r@ == trim_brs(s@),
{
    let mut hi: usize = s.len();
    while hi > 0 && (s[hi - 1] == '[' as u8 || s[hi - 1] == ']' as u8)
        invariant
            hi <= s@.len(),
            forall|j: int| hi <= j < s@.len() ==> is_br(s@[j]),
        decreases hi,
    {
        hi = hi - 1;
    }
    proof {
        lemma_trim_brs_right_take(s@, hi as int);
    }
    let mut lo: usize = 0;
    while lo < hi && (s[lo] == '[' as u8 || s[lo] == ']' as u8)
        invariant
            lo <= hi <= s@.len(),
            trim_brs_right(s@) == s@.take(hi as int),
            forall|j: int| 0 <= j < lo ==> is_br(s@[j]),
        decreases hi - lo,
    {
        lo = lo + 1;
    }
    let r = &s[lo..hi];
    proof {
        let t = s@.take(hi as int);
        assert forall|j: int| 0 <= j < lo implies is_br(t[j]) by {
            assert(t[j] == s@[j]);
        }
        if lo < hi {
            assert(t[lo as int] == s@[lo as int]);
        }
        lemma_trim_brs_left_skip(t, lo as int);
        assert(r@ =~= t.skip(lo as int));
    }
    r
}

/// The linked pids of a `Link list` value: brackets trimmed, then split at
/// `, `.
pub open spec fn spec_link_list(kvs: Seq<(Seq<u8>, Seq<u8>)>) -> Seq<Seq<u8>> {
    match kv_lookup(kvs, ascii8("Link list"@)) {
        Some(v) => split_all_pat(trim_brs(v), ',' as u8, ' ' as u8),
        None => Seq::empty(),
    }
}

/// The flags of an `Internal State` value: split at `|`, each part
/// trimmed.
pub open spec fn spec_internal_state(kvs: Seq<(Seq<u8>, Seq<u8>)>) -> Seq<Seq<u8>> {
    match kv_lookup(kvs, ascii8("Internal State"@)) {
        Some(v) => split_all(v, '|' as u8).map_values(|p: Seq<u8>| trim_ws(p)),
        None => Seq::empty(),
    }
}

/// The arity read from the first raw line, of the shape `arity = N`.
pub open spec fn spec_arity(raw: Seq<Seq<u8>>) -> u64 {
    if raw.len() == 0 {
        0
    } else {
        let parts = split_all(raw[0], '=' as u8);
        match parse_dec_u64(trim_ws(parts.last())) {
            Some(n) => n,
            None => 0,
        }
    }
}

/// Every field of a decoded process, stated against the key-value pairs,
/// raw lines and id of its `=proc` section.
pub open spec fn proc_fields_ok(
    p: ProcInfo,
    kv: Seq<(Seq<u8>, Seq<u8>)>,
    raw: Seq<Seq<u8>>,
    id: Option<Seq<u8>>,
) -> bool {
    &&& p.pid@ == match id {
        Some(v) => v,
        None => Seq::<u8>::empty(),
    }
    &&& p.state@ == kv_str(kv, "State"@)
    &&& match p.name {
        Some(v) => kv_opt(kv, "Name"@) == Some(v@),
        None => kv_opt(kv, "Name"@) is None,
    }
    &&& match p.spawned_as {
        Some(v) => kv_opt(kv, "Spawned as"@) == Some(v@),
        None => kv_opt(kv, "Spawned as"@) is None,
    }
    &&& match p.spawned_by {
        Some(v) => kv_opt(kv, "Spawned by"@) == Some(v@),
        None => kv_opt(kv, "Spawned by"@) is None,
    }
    &&& p.message_queue_length == kv_u64(kv, "Message queue length"@)
    &&& p.number_of_heap_fragments == kv_u64(kv, "Number of heap fragments"@)
    &&& p.heap_fragment_data == kv_u64(kv, "Heap fragment data"@)
    &&& views(p.link_list@) == spec_link_list(kv)
    &&& p.reductions == kv_u64(kv, "Reductions"@)
    &&& p.stack_heap == kv_u64(kv, "Stack+heap"@)
    &&& p.old_heap == kv_u64(kv, "OldHeap"@)
    &&& p.heap_unused == kv_u64(kv, "Heap unused"@)
    &&& p.old_heap_unused == kv_u64(kv, "OldHeap unused"@)
    &&& p.bin_vheap == kv_u64(kv, "BinVHeap"@)
    &&& p.old_bin_vheap == kv_u64(kv, "OldBinVHeap"@)
    &&& p.bin_vheap_unused == kv_u64(kv, "BinVHeap unused"@)
    &&& p.old_bin_vheap_unused == kv_u64(kv, "OldBinVHeap unused"@)
    &&& p.memory == kv_u64(kv, "Memory"@)
    &&& p.arity == spec_arity(raw)
    &&& match p.program_counter {
        Some(pc) => spec_parse_pc(kv_str(kv, "Program counter"@)) is Some && pc_matches(
            pc,
            spec_parse_pc(kv_str(kv, "Program counter"@))->0,
        ),
        None => spec_parse_pc(kv_str(kv, "Program counter"@)) is None,
    }
    &&& views(p.internal_state@) == spec_internal_state(kv)
    &&& p.total_bin_vheap == p.bin_vheap + p.old_bin_vheap
}

/// One process's summary, as the `=proc` section carries it.  Sizes are in
/// bytes or words as the dump reports them; missing fields count zero.
#[derive(Debug)]
pub struct ProcInfo {
    pub pid: Vec<u8>,
    pub state: Vec<u8>,
    pub name: Option<Vec<u8>>,
    pub spawned_as: Option<Vec<u8>>,
    pub spawned_by: Option<Vec<u8>>,
    pub message_queue_length: u64,
    pub number_of_heap_fragments: u64,
    pub heap_fragment_data: u64,
    pub link_list: Vec<Vec<u8>>,
    pub reductions: u64,
    pub stack_heap: u64,
    pub old_heap: u64,
    pub heap_unused: u64,
    pub old_heap_unused: u64,
    pub bin_vheap: u64,
    pub old_bin_vheap: u64,
    pub bin_vheap_unused: u64,
    pub old_bin_vheap_unused: u64,
    pub total_bin_vheap: u128,
    pub memory: u64,
    pub arity: u64,
    pub program_counter: Option<ProgramCounter>,
    pub internal_state: Vec<Vec<u8>>,
}

impl ProcInfo {
    /// The invariant every decoded process satisfies: its total binary
    /// virtual heap is the sum of the current and old ones.
    pub open spec fn total_ok(&self) -> bool {
        self.total_bin_vheap == self.bin_vheap + self.old_bin_vheap
    }

    /// Read one process out of its parsed `=proc` section.  The id is the
    /// pid; names and spawn fields count absent when empty; every numeric
    /// field defaults to zero; `total_bin_vheap` is derived as the sum of
    /// the two binary virtual heaps.
    pub fn from_generic_section(g: &GenericSection) -> (r: ProcInfo)
        ensures
            r.total_ok(),
            proc_fields_ok(
                r,
                kv_views(g.data@),
                views(g.raw_lines@),
                match g.id {
                    Some(v) => Some(v@),
                    None => None,
                },
            ),
    {
        proof {
            reveal_strlit("State");
            reveal_strlit("Name");
            reveal_strlit("Spawned as");
            reveal_strlit("Spawned by");
            reveal_strlit("Message queue length");
            reveal_strlit("Number of heap fragments");
            reveal_strlit("Heap fragment data");
            reveal_strlit("Link list");
            reveal_strlit("Reductions");
            reveal_strlit("Stack+heap");
            reveal_strlit("OldHeap");
            reveal_strlit("Heap unused");
            reveal_strlit("OldHeap unused");
            reveal_strlit("BinVHeap");
            reveal_strlit("OldBinVHeap");
            reveal_strlit("BinVHeap unused");
            reveal_strlit("OldBinVHeap unused");
            reveal_strlit("Memory");
            reveal_strlit("Program counter");
            reveal_strlit("Internal State");
        }
        let pid: Vec<u8> = match &g.id {
            Some(v) => vstd::slice::slice_to_vec(v.as_slice()),
            None => Vec::new(),
        };
        let link_list: Vec<Vec<u8>> = match g.get(lit("Link list").as_slice()) {
            Some(v) => split_list_pat(trim_brackets(v.as_slice()), ',' as u8, ' ' as u8),
            None => {
                let e: Vec<Vec<u8>> = Vec::new();
                proof {
                    assert(views(e@) =~= Seq::<Seq<u8>>::empty());
                }
                e
            },
        };
        let internal_state: Vec<Vec<u8>> = match g.get(lit("Internal State").as_slice()) {
            Some(v) => {
                let ghost before = split_all(v@, '|' as u8);
                let mut parts = split_list(v.as_slice(), '|' as u8);
                let mut i: usize = 0;
                while i < parts.len()
                    invariant
                        i <= parts@.len(),
                        parts@.len() == before.len(),
                        forall|j: int| i <= j < parts@.len() ==> parts@[j]@ == before[j],
                        forall|j: int| 0 <= j < i ==> parts@[j]@ == trim_ws(before[j]),
                    decreases parts@.len() - i,
                {
                    let ghost old_part = parts@[i as int]@;
                    let t = vstd::slice::slice_to_vec(trim_slice(parts[i].as_slice()));
                    parts.set(i, t);
                    i = i + 1;
                }
                proof {
                    assert(views(parts@) =~= before.map_values(|p: Seq<u8>| trim_ws(p)));
                }
                parts
            },
            None => {
                let e: Vec<Vec<u8>> = Vec::new();
                proof {
                    assert(views(e@) =~= Seq::<Seq<u8>>::empty());
                }
                e
            },
        };
        let arity: u64 = if g.raw_lines.len() > 0 {
            let parts = split_list(g.raw_lines[0].as_slice(), '=' as u8);
            proof {
                assert(views(parts@).last() == parts@[parts@.len() - 1]@);
            }
            match parse_dec_u64_bytes(trim_slice(parts[parts.len() - 1].as_slice())) {
                Some(n) => n,
                None => 0,
            }
        } else {
            0
        };
        let program_counter: Option<ProgramCounter> = {
            let pcs = get_str(g, "Program counter");
            ProgramCounter::from_string(pcs.as_slice())
        };
        let bin_vheap = get_u64(g, "BinVHeap");
        let old_bin_vheap = get_u64(g, "OldBinVHeap");
        let total_bin_vheap: u128 = bin_vheap as u128 + old_bin_vheap as u128;
        ProcInfo {
            pid,
            state: get_str(g, "State"),
            name: get_opt(g, "Name"),
            spawned_as: get_opt(g, "Spawned as"),
            spawned_by: get_opt(g, "Spawned by"),
            message_queue_length: get_u64(g, "Message queue length"),
            number_of_heap_fragments: get_u64(g, "Number of heap fragments"),
            heap_fragment_data: get_u64(g, "Heap fragment data"),
            link_list,
            reductions: get_u64(g, "Reductions"),
            stack_heap: get_u64(g, "Stack+heap"),
            old_heap: get_u64(g, "OldHeap"),
            heap_unused: get_u64(g, "Heap unused"),
            old_heap_unused: get_u64(g, "OldHeap unused"),
            bin_vheap,
            old_bin_vheap,
            bin_vheap_unused: get_u64(g, "BinVHeap unused"),
            old_bin_vheap_unused: get_u64(g, "OldBinVHeap unused"),
            total_bin_vheap,
            memory: get_u64(g, "Memory"),
            arity,
            program_counter,
            internal_state,
        }
    }
}

/// Law: for every decoded process, the total binary virtual heap is
/// exactly the sum of the current and old binary virtual heaps.
pub proof fn lemma_total_bin_vheap(p: ProcInfo)
    requires
        p.total_ok(),
    ensures
        p.total_bin_vheap == p.bin_vheap + p.old_bin_vheap,
{
}


/// The plain-text summary a preamble formats to.
pub open spec fn spec_preamble_format(p: Preamble) -> Seq<u8> {
    ascii8("Version: "@) + p.version@ + ascii8("\nCrash Dump Created On: "@) + p.time@ + ascii8(
        "\nSlogan: "@,
    ) + p.slogan@ + ascii8("\nERTS: "@) + p.erts@ + ascii8("\nTaints: "@) + p.taints@ + ascii8(
        "\nAtom Count: "@,
    ) + crate::num::dec_seq_signed(p.atom_count as int) + ascii8("\nCalling Thread: "@)
        + p.calling_thread@
}

impl Preamble {
    /// The preamble as display text, one labelled line per field.
    pub fn format(&self) -> (r: Vec<u8>)
        ensures
            r@ == spec_preamble_format(*self),
    {
        proof {
            reveal_strlit("Version: ");
            reveal_strlit("\nCrash Dump Created On: ");
            reveal_strlit("\nSlogan: ");
            reveal_strlit("\nERTS: ");
            reveal_strlit("\nTaints: ");
            reveal_strlit("\nAtom Count: ");
            reveal_strlit("\nCalling Thread: ");
        }
        let mut v = lit("Version: ");
        crate::bytes::push_all(&mut v, self.version.as_slice());
        crate::bytes::push_all(&mut v, lit("\nCrash Dump Created On: ").as_slice());
        crate::bytes::push_all(&mut v, self.time.as_slice());
        crate::bytes::push_all(&mut v, lit("\nSlogan: ").as_slice());
        crate::bytes::push_all(&mut v, self.slogan.as_slice());
        crate::bytes::push_all(&mut v, lit("\nERTS: ").as_slice());
        crate::bytes::push_all(&mut v, self.erts.as_slice());
        crate::bytes::push_all(&mut v, lit("\nTaints: ").as_slice());
        crate::bytes::push_all(&mut v, self.taints.as_slice());
        crate::bytes::push_all(&mut v, lit("\nAtom Count: ").as_slice());
        crate::bytes::push_all(&mut v, crate::num::i64_to_dec(self.atom_count).as_slice());
        crate::bytes::push_all(&mut v, lit("\nCalling Thread: ").as_slice());
        crate::bytes::push_all(&mut v, self.calling_thread.as_slice());
        v
    }
}

/// The plain-text summary the memory totals format to.
pub open spec fn spec_memory_format(m: MemoryInfo) -> Seq<u8> {
    ascii8("Total: "@) + crate::num::dec_seq(m.total as int) + ascii8("\nProcesses: "@)
        + crate::num::dec_seq(m.processes.total as int) + ascii8(" used "@)
        + crate::num::dec_seq(m.processes.used as int) + ascii8("\nSystem: "@)
        + crate::num::dec_seq(m.system as int) + ascii8("\nAtom: "@) + crate::num::dec_seq(
        m.atom.total as int,
    ) + ascii8(" used "@) + crate::num::dec_seq(m.atom.used as int) + ascii8("\nBinary: "@)
        + crate::num::dec_seq(m.binary as int) + ascii8("\nCode: "@) + crate::num::dec_seq(
        m.code as int,
    ) + ascii8("\nETS: "@) + crate::num::dec_seq(m.ets as int)
}

impl MemoryInfo {
    /// The totals as display text, one labelled line per figure.
    pub fn format(&self) -> (r: Vec<u8>)
        ensures
            r@ == spec_memory_format(*self),
    {
        proof {
            reveal_strlit("Total: ");
            reveal_strlit("\nProcesses: ");
            reveal_strlit(" used ");
            reveal_strlit("\nSystem: ");
            reveal_strlit("\nAtom: ");
            reveal_strlit("\nBinary: ");
            reveal_strlit("\nCode: ");
            reveal_strlit("\nETS: ");
        }
        let mut v = lit("Total: ");
        crate::bytes::push_all(&mut v, crate::num::u64_to_dec(self.total).as_slice());
        crate::bytes::push_all(&mut v, lit("\nProcesses: ").as_slice());
        crate::bytes::push_all(&mut v, crate::num::u64_to_dec(self.processes.total).as_slice());
        crate::bytes::push_all(&mut v, lit(" used ").as_slice());
        crate::bytes::push_all(&mut v, crate::num::u64_to_dec(self.processes.used).as_slice());
        crate::bytes::push_all(&mut v, lit("\nSystem: ").as_slice());
        crate::bytes::push_all(&mut v, crate::num::u64_to_dec(self.system).as_slice());
        crate::bytes::push_all(&mut v, lit("\nAtom: ").as_slice());
        crate::bytes::push_all(&mut v, crate::num::u64_to_dec(self.atom.total).as_slice());
        crate::bytes::push_all(&mut v, lit(" used ").as_slice());
        crate::bytes::push_all(&mut v, crate::num::u64_to_dec(self.atom.used).as_slice());
        crate::bytes::push_all(&mut v, lit("\nBinary: ").as_slice());
        crate::bytes::push_all(&mut v, crate::num::u64_to_dec(self.binary).as_slice());
        crate::bytes::push_all(&mut v, lit("\nCode: ").as_slice());
        crate::bytes::push_all(&mut v, crate::num::u64_to_dec(self.code).as_slice());
        crate::bytes::push_all(&mut v, lit("\nETS: ").as_slice());
        crate::bytes::push_all(&mut v, crate::num::u64_to_dec(self.ets).as_slice());
        v
    }
}

impl ProcInfo {
    /// The table headers matching [`ProcInfo::ref_array`].
    pub fn headers() -> (r: Vec<Vec<u8>>)
        ensures
            r@.len() == 9,
    {
        proof {
            reveal_strlit("OldBinVHeap");
            reveal_strlit("Pid");
            reveal_strlit("Name");
            reveal_strlit("Memory");
            reveal_strlit("TotalBinVHeap");
            reveal_strlit("BinVHeap");
            reveal_strlit("BinVHeap unused");
            reveal_strlit("OldBinVHeap Unused");
        }
        let mut r: Vec<Vec<u8>> = Vec::new();
        r.push(lit("OldBinVHeap"));
        r.push(lit("Pid"));
        r.push(lit("Name"));
        r.push(lit("Memory"));
        r.push(lit("TotalBinVHeap"));
        r.push(lit("BinVHeap"));
        r.push(lit("BinVHeap unused"));
        r.push(lit("OldBinVHeap"));
        r.push(lit("OldBinVHeap Unused"));
        r
    }

    /// The name as display text: the registered name, or empty.
    pub open spec fn spec_name_text(&self) -> Seq<u8> {
        match self.name {
            Some(n) => n@,
            None => Seq::empty(),
        }
    }

    /// The row of memory figures a process contributes to the process
    /// table, in header order.
    pub fn ref_array(&self) -> (r: Vec<Vec<u8>>)
        ensures
            r@.len() == 9,
            r@[0]@ == crate::num::dec_seq(self.old_bin_vheap as int),
            r@[1]@ == self.pid@,
            r@[2]@ == self.spec_name_text(),
            r@[3]@ == crate::num::dec_seq(self.memory as int),
            r@[4]@ == crate::num::dec_seq(self.bin_vheap + self.old_bin_vheap),
            r@[5]@ == crate::num::dec_seq(self.bin_vheap as int),
            r@[6]@ == crate::num::dec_seq(self.bin_vheap_unused as int),
            r@[7]@ == crate::num::dec_seq(self.old_bin_vheap as int),
            r@[8]@ == crate::num::dec_seq(self.old_bin_vheap_unused as int),
    {
        let name: Vec<u8> = match &self.name {
            Some(n) => vstd::slice::slice_to_vec(n.as_slice()),
            None => Vec::new(),
        };
        let total: u128 = self.bin_vheap as u128 + self.old_bin_vheap as u128;
        let mut r: Vec<Vec<u8>> = Vec::new();
        r.push(crate::num::u64_to_dec(self.old_bin_vheap));
        r.push(vstd::slice::slice_to_vec(self.pid.as_slice()));
        r.push(name);
        r.push(crate::num::u64_to_dec(self.memory));
        r.push(crate::num::u128_to_dec(total));
        r.push(crate::num::u64_to_dec(self.bin_vheap));
        r.push(crate::num::u64_to_dec(self.bin_vheap_unused));
        r.push(crate::num::u64_to_dec(self.old_bin_vheap));
        r.push(crate::num::u64_to_dec(self.old_bin_vheap_unused));
        r
    }

    /// The shorter row shown for a group's children, in the order pid,
    /// name, memory, reductions, message-queue length.
    pub fn summary_ref_array(&self) -> (r: Vec<Vec<u8>>)
        ensures
            r@.len() == 5,
            r@[0]@ == self.pid@,
            r@[1]@ == self.spec_name_text(),
            r@[2]@ == crate::num::dec_seq(self.memory as int),
            r@[3]@ == crate::num::dec_seq(self.reductions as int),
            r@[4]@ == crate::num::dec_seq(self.message_queue_length as int),
    {
        let name: Vec<u8> = match &self.name {
            Some(n) => vstd::slice::slice_to_vec(n.as_slice()),
            None => Vec::new(),
        };
        let mut r: Vec<Vec<u8>> = Vec::new();
        r.push(vstd::slice::slice_to_vec(self.pid.as_slice()));
        r.push(name);
        r.push(crate::num::u64_to_dec(self.memory));
        r.push(crate::num::u64_to_dec(self.reductions));
        r.push(crate::num::u64_to_dec(self.message_queue_length));
        r
    }

    /// The process as display text, one labelled line per main field.
    pub fn format(&self) -> (r: Vec<u8>)
        ensures
            r@ == ascii8("Pid: "@) + self.pid@ + ascii8("\nState: "@) + self.state@ + ascii8(
                "\nName: "@,
            ) + self.spec_name_text() + ascii8("\nMemory: "@) + crate::num::dec_seq(
                self.memory as int,
            ) + ascii8("\nReductions: "@) + crate::num::dec_seq(self.reductions as int) + ascii8(
                "\nMessage Queue Length: "@,
            ) + crate::num::dec_seq(self.message_queue_length as int) + ascii8("\nBin Vheap: "@)
                + crate::num::dec_seq(self.bin_vheap as int) + ascii8("\nOld Bin Vheap: "@)
                + crate::num::dec_seq(self.old_bin_vheap as int),
    {
        proof {
            reveal_strlit("Pid: ");
            reveal_strlit("\nState: ");
            reveal_strlit("\nName: ");
            reveal_strlit("\nMemory: ");
            reveal_strlit("\nReductions: ");
            reveal_strlit("\nMessage Queue Length: ");
            reveal_strlit("\nBin Vheap: ");
            reveal_strlit("\nOld Bin Vheap: ");
        }
        let mut v = lit("Pid: ");
        crate::bytes::push_all(&mut v, self.pid.as_slice());
        crate::bytes::push_all(&mut v, lit("\nState: ").as_slice());
        crate::bytes::push_all(&mut v, self.state.as_slice());
        crate::bytes::push_all(&mut v, lit("\nName: ").as_slice());
        match &self.name {
            Some(n) => {
                crate::bytes::push_all(&mut v, n.as_slice());
            },
            None => {},
        }
        crate::bytes::push_all(&mut v, lit("\nMemory: ").as_slice());
        crate::bytes::push_all(&mut v, crate::num::u64_to_dec(self.memory).as_slice());
        crate::bytes::push_all(&mut v, lit("\nReductions: ").as_slice());
        crate::bytes::push_all(&mut v, crate::num::u64_to_dec(self.reductions).as_slice());
        crate::bytes::push_all(&mut v, lit("\nMessage Queue Length: ").as_slice());
        crate::bytes::push_all(
            &mut v,
            crate::num::u64_to_dec(self.message_queue_length).as_slice(),
        );
        crate::bytes::push_all(&mut v, lit("\nBin Vheap: ").as_slice());
        crate::bytes::push_all(&mut v, crate::num::u64_to_dec(self.bin_vheap).as_slice());
        crate::bytes::push_all(&mut v, lit("\nOld Bin Vheap: ").as_slice());
        crate::bytes::push_all(&mut v, crate::num::u64_to_dec(self.old_bin_vheap).as_slice());
        v
    }
}

} // verus!
