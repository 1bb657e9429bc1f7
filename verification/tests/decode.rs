use cdparser::dump::CrashDump;
use cdparser::index::Index;
use cdparser::procs::{MemoryInfo, Preamble};
use std::collections::HashMap;

fn dump_with(amap: &[(&str, &str)], bmap: &[(&str, u64)], max_depth: usize) -> CrashDump {
    let mut a: HashMap<u64, Vec<u8>> = HashMap::new();
    for (k, v) in amap {
        a.insert(u64::from_str_radix(k, 16).unwrap(), v.as_bytes().to_vec());
    }
    let mut b: HashMap<u64, u64> = HashMap::new();
    for (k, n) in bmap {
        b.insert(u64::from_str_radix(k, 16).unwrap(), *n);
    }
    CrashDump {
        preamble: Preamble::empty(),
        memory: MemoryInfo::empty(),
        processes: Vec::new(),
        all_heap_addresses: a,
        visited_binaries: b,
        group_info_map: Vec::new(),
        index: Index { rows: Vec::new(), file_len: 0 },
        max_depth,
    }
}

fn decode(d: &CrashDump, term: &str) -> String {
    match d.parse_datatype(term.as_bytes(), 0) {
        Ok(v) => String::from_utf8(v).unwrap(),
        Err(e) => panic!("decode failed: {}", String::from_utf8(e.msg).unwrap()),
    }
}

fn decode_err(d: &CrashDump, term: &str) -> String {
    match d.parse_datatype(term.as_bytes(), 0) {
        Ok(v) => panic!("expected a decode error, got: {}", String::from_utf8(v).unwrap()),
        Err(e) => String::from_utf8(e.msg).unwrap(),
    }
}

#[test]
fn atom_renders_its_name() {
    let d = dump_with(&[], &[], 5);
    assert_eq!(decode(&d, "A05:hello"), "hello");
}

#[test]
fn tuple_of_ints() {
    let d = dump_with(&[], &[], 5);
    assert_eq!(decode(&d, "t3:I1,I2,I3"), "{1, 2, 3}");
}

#[test]
fn cons_list_with_heap_reference() {
    let d = dump_with(&[("FF01", "I7")], &[], 5);
    assert_eq!(decode(&d, "lI5|HFF01|N"), "[5, 7]");
}

#[test]
fn unresolved_heap_reference() {
    let d = dump_with(&[], &[], 5);
    assert_eq!(decode(&d, "HDEAD"), "*U - DEAD");
}

#[test]
fn ref_counted_binary_present() {
    let d = dump_with(&[], &[("ABCD", 16)], 5);
    let r = decode(&d, "YcABCD:0:8");
    assert!(r.contains("sz=8"));
    assert!(r.contains("len=16"));
    assert_eq!(r, "[ref-counted binary: binp0=0xabcd, offset=0, sz=8, len=16]");
}

#[test]
fn ref_counted_binary_missing() {
    let d = dump_with(&[], &[], 5);
    assert_eq!(
        decode(&d, "YcABCD:0:8"),
        "[ref-counted binary: binp0=0xabcd, offset=0, sz=8, not found]"
    );
}

#[test]
fn sub_binary_out_of_bounds() {
    let d = dump_with(&[], &[("ABCD", 4)], 5);
    let m = decode_err(&d, "YsABCD:2:8");
    assert_eq!(m, "Sub binary out of bounds: start=2, end=10, len=4");
}

#[test]
fn sub_binary_in_bounds() {
    let d = dump_with(&[], &[("ABCD", 16)], 5);
    assert_eq!(
        decode(&d, "YsABCD:2:8"),
        "[sub binary: binp0=0xabcd, offset=2, sz=8, start=2, end=10]"
    );
}

#[test]
fn sub_binary_missing() {
    let d = dump_with(&[], &[], 5);
    assert_eq!(decode(&d, "YsABCD:2:8"), "[sub binary: binp0=0xabcd, offset=2, sz=8, not found]");
}

#[test]
fn depth_bound_emits_one_marker() {
    let d = dump_with(&[("A", "HB"), ("B", "HC"), ("C", "HA")], &[], 2);
    let r = decode(&d, "HA");
    assert_eq!(r, "(*HA)");
    assert_eq!(r.matches("(*").count(), 1);
}

#[test]
fn decoding_is_idempotent() {
    let d = dump_with(&[("FF01", "t2:I1,HDEAD")], &[("AB", 7)], 5);
    for term in ["HFF01", "lI5|HFF01|N", "YcAB:0:1", "A2:xy", "q?", "F2:ab"] {
        let first = d.parse_datatype(term.as_bytes(), 0);
        let second = d.parse_datatype(term.as_bytes(), 0);
        assert_eq!(first, second);
    }
}

#[test]
fn nil_renders_empty() {
    let d = dump_with(&[], &[], 5);
    assert_eq!(decode(&d, "N"), "");
}

#[test]
fn integer_renders_decimal() {
    let d = dump_with(&[], &[], 5);
    assert_eq!(decode(&d, "I42"), "42");
    assert_eq!(decode(&d, "I-7"), "-7");
    assert_eq!(decode(&d, "I007"), "7");
}

#[test]
fn invalid_integer_is_an_error() {
    let d = dump_with(&[], &[], 5);
    assert_eq!(decode_err(&d, "Ix"), "Invalid integer format: Ix");
}

#[test]
fn invalid_tuple_size_is_an_error() {
    let d = dump_with(&[], &[], 5);
    assert_eq!(decode_err(&d, "tZZ:I1"), "Invalid tuple size format: tZZ:I1");
}

#[test]
fn string_renders_its_bytes() {
    let d = dump_with(&[], &[], 5);
    assert_eq!(decode(&d, "S3:abc"), "abc");
}

#[test]
fn external_term_renders_its_size() {
    let d = dump_with(&[], &[], 5);
    assert_eq!(decode(&d, "E10:payload"), "<<bin size 16>>");
    assert_eq!(decode_err(&d, "E5"), "Invalid heap binary format: 5");
}

#[test]
fn bignum_renders_its_magnitude_size() {
    let d = dump_with(&[], &[], 5);
    assert_eq!(decode(&d, "B123"), "[bignum size: 3]");
    assert_eq!(decode(&d, "B16#FF"), "[bignum size: 2]");
    assert_eq!(decode(&d, "B-16#FF"), "[bignum size: 3]");
}

#[test]
fn float_checks_its_length() {
    let d = dump_with(&[], &[], 5);
    assert_eq!(decode(&d, "F2:ab"), "[float: ab]");
    assert_eq!(decode_err(&d, "F3:ab"), "Float length mismatch: expected 3, got 2");
    assert_eq!(decode_err(&d, "F3"), "Invalid float format: F3");
}

#[test]
fn external_pid_and_port() {
    let d = dump_with(&[], &[], 5);
    assert_eq!(decode(&d, "P<0.1.0>"), "[external pid: <0.1.0>]");
    assert_eq!(decode(&d, "p#Port<0.2>"), "[external port: #Port<0.2>]");
}

#[test]
fn heap_binary_inline() {
    let d = dump_with(&[], &[], 5);
    assert_eq!(decode(&d, "Yh:abc"), "[heap binary: abc]");
}

#[test]
fn invalid_binary_forms() {
    let d = dump_with(&[], &[], 5);
    assert_eq!(decode_err(&d, "Y"), "Invalid binary type: Y");
    assert_eq!(decode_err(&d, "Yz1"), "Invalid binary type: Yz1");
    assert_eq!(decode_err(&d, "Yc1:2"), "Invalid reference-counted binary format: Yc1:2");
    assert_eq!(decode_err(&d, "Ys1:2"), "Invalid sub binary format: Ys1:2");
}

#[test]
fn flatmap_renders_pairs() {
    let d = dump_with(&[], &[], 5);
    assert_eq!(decode(&d, "Mf1:I1:I2"), "[flatmap: size=1, {1: 2}]");
    assert_eq!(decode(&d, "Mf0:"), "[flatmap: size=0, {}]");
    assert_eq!(decode_err(&d, "Mf"), "Invalid flatmap format: Mf");
    assert_eq!(decode_err(&d, "Mf1:I1"), "Invalid flatmap format: Mf1:I1");
}

#[test]
fn hashmap_nodes_render_in_order() {
    let d = dump_with(&[], &[], 5);
    assert_eq!(decode(&d, "Mh2:1|I3|I4"), "[hashmap head: size=2, nodes=[3, 4]]");
    assert_eq!(decode(&d, "Mn1|I3"), "[hashmap interior: nodes=[3]]");
    assert_eq!(decode_err(&d, "M"), "Invalid map type: M");
    assert_eq!(decode_err(&d, "Mz"), "Invalid map type: Mz");
    assert_eq!(decode_err(&d, "Mh1"), "Invalid hashmap head node format: Mh1");
}

#[test]
fn fun_reference_renders_its_id() {
    let d = dump_with(&[], &[], 5);
    assert_eq!(decode(&d, "Rf12"), "[fun ref: 12]");
}

#[test]
fn list_with_unresolved_tail_is_truncated() {
    let d = dump_with(&[], &[], 5);
    assert_eq!(decode(&d, "lI1|HBEEF"), "[1...< heap truncated >]");
}

#[test]
fn improper_list_renders_all_parts() {
    let d = dump_with(&[], &[], 5);
    assert_eq!(decode(&d, "lI1|I2"), "[1, 2]");
}

#[test]
fn unknown_prefix_is_reported_not_fatal() {
    let d = dump_with(&[], &[], 5);
    assert_eq!(decode(&d, "q"), "---don't know how to parse q at depth 1---");
    assert_eq!(decode(&d, ""), "---don't know how to parse  at depth 1---");
}

#[test]
fn heap_reference_is_never_silently_dropped() {
    // Every H reference either resolves or its rendering carries the
    // unresolved marker, wherever it stands in the term.
    let d = dump_with(&[("10", "I3")], &[], 5);
    assert_eq!(decode(&d, "H10"), "3");
    assert_eq!(decode(&d, "HFF"), "*U - FF");
    assert_eq!(decode(&d, "t2:H10,HFF"), "{3, *U - FF}");
}

#[test]
fn hex_fields_parse_case_insensitively() {
    let d = dump_with(&[("FF01", "I7")], &[], 5);
    assert_eq!(decode(&d, "Hff01"), "7");
    assert_eq!(decode(&d, "HFF01"), "7");
}
