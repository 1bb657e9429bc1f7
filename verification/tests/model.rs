use cdparser::dump::{CrashDump, SortMetric};
use cdparser::procs::ProgramCounter;
use cdparser::scan::{scan, FormatError};
use cdparser::section::GenericSection;
use cdparser::tags::{string_tag_to_enum, Tag};

fn s(v: Vec<u8>) -> String {
    String::from_utf8(v).unwrap()
}

const SMALL_DUMP: &str = "=erl_crash_dump:0.5\n\
Sat Jan  4 19:32:02 2025\n\
Slogan: forced_dump\n\
System version: Erlang/OTP 27\n\
Taints: \n\
Atoms: 10568\n\
Calling Thread: scheduler:4\n\
=memory\n\
total: 1000\n\
processes: 600\n\
processes_used: 500\n\
system: 400\n\
atom: 30\n\
atom_used: 20\n\
binary: 50\n\
code: 60\n\
ets: 70\n\
=proc:<0.1.0>\n\
Name: root\n\
State: Running\n\
Memory: 10\n\
BinVHeap: 3\n\
OldBinVHeap: 4\n\
=proc:<0.2.0>\n\
Spawned by: <0.1.0>\n\
Memory: 30\n\
=proc:<0.3.0>\n\
Spawned by: <0.2.0>\n\
Memory: 20\n\
=proc_heap:<0.1.0>\n\
ABCD:t2:I1,I2\n\
FF01:I7\n\
=proc_stack:<0.1.0>\n\
y0:I5\n\
y1:A2:ok\n\
0x00007f98:SReturn addr 0x00007f99 (gen_server:loop/7 + 152)\n\
y0:HFF01\n\
0x00007fa0:SReturn addr 0x00007fa1 (<terminate process normally>)\n\
=proc_messages:<0.1.0>\n\
1F:I42\n\
=binary:AB12\n\
payload bytes here\n\
=end\n";

fn build_small() -> (CrashDump, Vec<u8>) {
    let data: Vec<u8> = SMALL_DUMP.as_bytes().to_vec();
    let d = CrashDump::build(&data).expect("the small dump must build");
    (d, data)
}

#[test]
fn index_entries_cover_the_whole_file() {
    let (d, data) = build_small();
    let total: usize = d.index.rows.iter().map(|r| r.length).sum();
    assert_eq!(total, data.len());
    assert_eq!(d.index.file_len, data.len());
    assert_eq!(d.index.rows[0].start, 0);
}

#[test]
fn total_bin_vheap_is_the_sum_of_both_vheaps() {
    let (d, _) = build_small();
    assert!(!d.processes.is_empty());
    for p in &d.processes {
        assert_eq!(p.total_bin_vheap, p.bin_vheap as u128 + p.old_bin_vheap as u128);
    }
    let p1 = d.get_proc(b"<0.1.0>").unwrap();
    assert_eq!(p1.bin_vheap, 3);
    assert_eq!(p1.old_bin_vheap, 4);
    assert_eq!(p1.total_bin_vheap, 7);
}

#[test]
fn ancestry_groups_the_three_processes_under_the_root() {
    let (d, _) = build_small();
    let g = d
        .group_info_map
        .iter()
        .find(|g| g.pid == b"<0.1.0>".to_vec())
        .expect("the named process must root a group");
    assert_eq!(g.name, b"root".to_vec());
    let children: Vec<&[u8]> = g.children.iter().map(|c| c.as_slice()).collect();
    assert!(children.contains(&b"<0.1.0>".as_slice()));
    assert!(children.contains(&b"<0.2.0>".as_slice()));
    assert!(children.contains(&b"<0.3.0>".as_slice()));
    assert_eq!(children.len(), 3);
    // root 10 + child 30 + child 20
    assert_eq!(g.total_memory_size, 60);
    assert_eq!(g.total_binary_size, 0);
}

#[test]
fn preamble_fields_come_from_the_first_section() {
    let (d, _) = build_small();
    assert_eq!(d.preamble.version, b"0.5".to_vec());
    assert_eq!(d.preamble.time, b"Sat Jan  4 19:32:02 2025".to_vec());
    assert_eq!(d.preamble.slogan, b"forced_dump".to_vec());
    assert_eq!(d.preamble.erts, b"Erlang/OTP 27".to_vec());
    assert_eq!(d.preamble.atom_count, 10568);
    assert_eq!(d.preamble.calling_thread, b"scheduler:4".to_vec());
}

#[test]
fn memory_totals_parse() {
    let (d, _) = build_small();
    assert_eq!(d.memory.total, 1000);
    assert_eq!(d.memory.processes.total, 600);
    assert_eq!(d.memory.processes.used, 500);
    assert_eq!(d.memory.system, 400);
    assert_eq!(d.memory.atom.total, 30);
    assert_eq!(d.memory.atom.used, 20);
    assert_eq!(d.memory.binary, 50);
    assert_eq!(d.memory.code, 60);
    assert_eq!(d.memory.ets, 70);
}

#[test]
fn heap_lines_decode_through_the_address_map() {
    let (d, data) = build_small();
    let text = s(d.get_heap_info(&data, b"<0.1.0>"));
    assert_eq!(text, "ABCD - {1, 2}\nFF01 - 7");
}

#[test]
fn stack_frames_render_with_variables_and_dedup() {
    let (d, data) = build_small();
    let text = s(d.get_stack_info(&data, b"<0.1.0>"));
    assert_eq!(
        text,
        "0x00007f98 - M: gen_server F: loop A: (7)\n0x00007fa0 - M:  F: <terminate process normally> A: ()"
    );
}

#[test]
fn message_queue_renders_addr_and_value() {
    let (d, data) = build_small();
    let text = s(d.get_message_queue_info(&data, b"<0.1.0>"));
    assert_eq!(text, "---don't know how to parse 1F at depth 1--- - 42");
}

#[test]
fn unknown_pid_renders_nothing() {
    let (d, data) = build_small();
    assert_eq!(d.get_heap_info(&data, b"<9.9.9>"), Vec::<u8>::new());
    assert_eq!(d.get_stack_info(&data, b"<9.9.9>"), Vec::<u8>::new());
    assert_eq!(d.get_message_queue_info(&data, b"<9.9.9>"), Vec::<u8>::new());
}

#[test]
fn binary_sections_record_their_lengths() {
    let (d, _) = build_small();
    let key = u64::from_str_radix("AB12", 16).unwrap();
    // "=binary:AB12\n" + "payload bytes here\n"
    assert_eq!(d.visited_binaries.get(&key).copied(), Some(32));
}

#[test]
fn processes_sort_by_memory_descending() {
    let (d, _) = build_small();
    let order = d.processes_sorted_by(SortMetric::Memory);
    let mems: Vec<u64> = order.iter().map(|&i| d.processes[i].memory).collect();
    assert_eq!(mems, vec![30, 20, 10]);
}

#[test]
fn groups_sort_by_total_memory() {
    let (d, _) = build_small();
    let order = d.groups_sorted_by_memory();
    assert_eq!(order.len(), d.group_info_map.len());
    for w in order.windows(2) {
        assert!(
            d.group_info_map[w[0]].total_memory_size >= d.group_info_map[w[1]].total_memory_size
        );
    }
}

#[test]
fn nul_bytes_abort_the_scan() {
    let data: Vec<u8> = b"=erl_crash_dump:0.5\n\x00junk\n".to_vec();
    assert_eq!(CrashDump::build(&data).unwrap_err(), FormatError::BinaryData);
}

#[test]
fn a_file_without_sections_is_refused() {
    let data: Vec<u8> = b"hello world\n".to_vec();
    assert_eq!(CrashDump::build(&data).unwrap_err(), FormatError::NoSections);
}

#[test]
fn a_file_not_starting_with_the_preamble_is_refused() {
    let data: Vec<u8> = b"=memory\ntotal: 5\n".to_vec();
    assert_eq!(CrashDump::build(&data).unwrap_err(), FormatError::NotACrashDump);
}

#[test]
fn colliding_section_ids_are_refused() {
    let data: Vec<u8> =
        b"=erl_crash_dump:0.5\n=proc:<0.1.0>\nMemory: 1\n=proc:<0.1.0>\nMemory: 2\n".to_vec();
    assert_eq!(CrashDump::build(&data).unwrap_err(), FormatError::DuplicateId);
}

#[test]
fn scanner_reports_offsets_of_the_equals_signs() {
    let triples = scan(b"=erl_crash_dump:0.5\nbody\n=end\n").unwrap();
    assert_eq!(triples.len(), 2);
    assert_eq!(triples[0].offset, 0);
    assert_eq!(triples[0].tag, Tag::Preamble);
    assert_eq!(triples[0].id.as_deref(), Some(b"0.5".as_slice()));
    assert_eq!(triples[1].offset, 25);
    assert_eq!(triples[1].tag, Tag::End);
    assert_eq!(triples[1].id, None);
}

#[test]
fn unknown_tags_are_kept_verbatim_as_other() {
    let triples = scan(b"=strange_new_section:x\n").unwrap();
    assert_eq!(triples[0].tag, Tag::Other);
    assert_eq!(triples[0].tag_raw, b"strange_new_section".to_vec());
    assert_eq!(string_tag_to_enum(b"proc_heap"), Tag::ProcHeap);
    assert_eq!(string_tag_to_enum(b"nonsense"), Tag::Other);
}

#[test]
fn section_text_splits_into_header_kv_and_raw_lines() {
    let g = GenericSection::from_text(b"=proc:<0.1.0>\nState: Waiting\narity = 0\n").unwrap();
    assert_eq!(g.tag, b"proc".to_vec());
    assert_eq!(g.tag_enum, Tag::Proc);
    assert_eq!(g.id.as_deref(), Some(b"<0.1.0>".as_slice()));
    assert_eq!(g.get(b"State").map(|v| v.as_slice()), Some(b"Waiting".as_slice()));
    assert_eq!(g.raw_lines, vec![b"arity = 0".to_vec()]);
}

#[test]
fn program_counter_pattern_parses() {
    let pc = ProgramCounter::from_string(b"0x123abc (gen_server:loop/7 + 152)").unwrap();
    assert_eq!(pc.address, b"0x123abc".to_vec());
    assert_eq!(pc.module, b"gen_server".to_vec());
    assert_eq!(pc.function, b"loop".to_vec());
    assert_eq!(pc.arity, 7);
    assert_eq!(pc.offset, 152);
    assert!(ProgramCounter::from_string(b"not a pc").is_none());
}

#[test]
fn proc_fields_parse_with_defaults() {
    let g = GenericSection::from_text(
        b"=proc:<0.7.0>\nState: Waiting\nName: logger\nSpawned by: <0.1.0>\n\
Message queue length: 4\nReductions: 99\nLink list: [<0.2.0>, <0.3.0>]\n\
Internal State: ACT_PRIO_NORMAL | USR_PRIO_NORMAL\narity = 2\n",
    )
    .unwrap();
    let p = cdparser::procs::ProcInfo::from_generic_section(&g);
    assert_eq!(p.pid, b"<0.7.0>".to_vec());
    assert_eq!(p.state, b"Waiting".to_vec());
    assert_eq!(p.name.as_deref(), Some(b"logger".as_slice()));
    assert_eq!(p.spawned_by.as_deref(), Some(b"<0.1.0>".as_slice()));
    assert_eq!(p.spawned_as, None);
    assert_eq!(p.message_queue_length, 4);
    assert_eq!(p.reductions, 99);
    assert_eq!(p.memory, 0);
    assert_eq!(p.link_list, vec![b"<0.2.0>".to_vec(), b"<0.3.0>".to_vec()]);
    assert_eq!(
        p.internal_state,
        vec![b"ACT_PRIO_NORMAL".to_vec(), b"USR_PRIO_NORMAL".to_vec()]
    );
    assert_eq!(p.arity, 2);
}

#[test]
fn preamble_formats_as_labelled_lines() {
    let (d, _) = build_small();
    let t = s(d.preamble.format());
    assert!(t.starts_with("Version: 0.5\nCrash Dump Created On: Sat Jan  4 19:32:02 2025\n"));
    assert!(t.contains("\nSlogan: forced_dump\n"));
    assert!(t.ends_with("\nCalling Thread: scheduler:4"));
}

#[test]
fn memory_formats_as_labelled_lines() {
    let (d, _) = build_small();
    let t = s(d.memory.format());
    assert!(t.starts_with("Total: 1000\nProcesses: 600 used 500\n"));
    assert!(t.ends_with("\nETS: 70"));
}

#[test]
fn group_info_formats_tab_separated() {
    let (d, _) = build_small();
    let g = d.group_info_map.iter().find(|g| g.pid == b"<0.1.0>".to_vec()).unwrap();
    assert_eq!(s(g.format()), "60\t<0.1.0>\troot\t3");
    let row = g.ref_array();
    assert_eq!(row.len(), 4);
    assert_eq!(row[0], b"60".to_vec());
    assert_eq!(row[3], b"3".to_vec());
}

#[test]
fn proc_ref_array_holds_the_memory_figures() {
    let (d, _) = build_small();
    let p = d.get_proc(b"<0.1.0>").unwrap();
    let row = p.ref_array();
    let want: Vec<&[u8]> = vec![
        b"4", b"<0.1.0>", b"root", b"10", b"7", b"3", b"0", b"4", b"0",
    ];
    let got: Vec<&[u8]> = row.iter().map(|v| v.as_slice()).collect();
    assert_eq!(got, want);
    let summary = p.summary_ref_array();
    assert_eq!(summary[0], b"<0.1.0>".to_vec());
    assert_eq!(summary[2], b"10".to_vec());
}

#[test]
fn index_formats_one_line_per_row() {
    let (d, _) = build_small();
    let lines = d.index.format_index();
    assert_eq!(lines.len(), d.index.rows.len());
    let first = s(lines[0].clone());
    assert!(first.starts_with("erl_crash_dump:0.5 0 "));
}
