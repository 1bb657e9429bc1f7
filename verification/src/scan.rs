//! The scanner: one linear pass over the dump locating every section header.
//!
//! A header is a line whose first byte is `=`, of the shape `=tag` or
//! `=tag:id`.  The scanner reports the absolute byte offset of the `=`, the
//! tag (mapped to the closed [`Tag`] enumeration, unknown tags kept verbatim
//! and bucketed as `Other`) and the trimmed id.  A NUL byte anywhere in the
//! input aborts the scan with a format error, as binary data where text was
//! expected.

use crate::bytes::{first_ix, split2, trim_slice, trim_ws};
use crate::tags::{spec_tag_of, string_tag_to_enum, Tag};
use vstd::prelude::*;

verus! {

/// A fatal shape problem found while scanning or indexing a dump.
#[derive(Debug, PartialEq, Eq, Structural, Clone, Copy)]
pub enum FormatError {
    /// A NUL byte was met while scanning for section headers.
    BinaryData,
    /// No section header at all was found.
    NoSections,
    /// The first section is not an `erl_crash_dump` preamble.
    NotACrashDump,
    /// Two keyed sections of one kind carry the same id.
    DuplicateId,
}

/// One section header found by the scanner.
#[derive(Debug)]
pub struct ScanTriple {
    pub tag: Tag,
    pub tag_raw: Vec<u8>,
    pub id: Option<Vec<u8>>,
    pub offset: usize,
}

/// The spec-level content of a header: trimmed tag text, trimmed id, byte
/// offset of the `=`.
pub struct SpecHeader {
    pub tag: Seq<u8>,
    pub id: Option<Seq<u8>>,
    pub offset: int,
}

/// Offset `i` starts a header line: it holds `=` at the start of a line.
pub open spec fn is_header_start(s: Seq<u8>, i: int) -> bool {
    0 <= i < s.len() && s[i] == '=' as u8 && (i == 0 || s[i - 1] == '\n' as u8)
}

/// End of the line beginning at `i`: the next newline, or the input's end.
pub open spec fn line_end_at(s: Seq<u8>, i: int) -> int
    recommends
        0 <= i <= s.len(),
{
    i + first_ix(s.skip(i), '\n' as u8)
}

/// The header whose `=` stands at offset `i`.
pub open spec fn header_of(s: Seq<u8>, i: int) -> SpecHeader
    recommends
        is_header_start(s, i),
{
    let line = s.subrange(i + 1, line_end_at(s, i));
    let (t, idop) = split2(line, ':' as u8);
    SpecHeader {
        tag: trim_ws(t),
        id: match idop {
            Some(x) => Some(trim_ws(x)),
            None => None,
        },
        offset: i,
    }
}

/// All headers whose `=` stands before offset `n`, in file order.
pub open spec fn spec_scan_upto(s: Seq<u8>, n: int) -> Seq<SpecHeader>
    decreases n,
{
    if n <= 0 {
        Seq::empty()
    } else if is_header_start(s, n - 1) {
        spec_scan_upto(s, n - 1).push(header_of(s, n - 1))
    } else {
        spec_scan_upto(s, n - 1)
    }
}

/// All headers of the input, in file order.
pub open spec fn spec_scan(s: Seq<u8>) -> Seq<SpecHeader> {
    spec_scan_upto(s, s.len() as int)
}

pub open spec fn has_nul(s: Seq<u8>) -> bool {
    exists|i: int| 0 <= i < s.len() && s[i] == 0
}

/// An executable triple carries the same content as a spec header.
pub open spec fn triple_matches(t: ScanTriple, h: SpecHeader) -> bool {
    &&& t.tag_raw@ == h.tag
    &&& t.tag == spec_tag_of(h.tag)
    &&& match (t.id, h.id) {
        (Some(a), Some(b)) => a@ == b,
        (None, None) => true,
        _ => false,
    }
    &&& t.offset as int == h.offset
}

pub open spec fn triples_match(ts: Seq<ScanTriple>, hs: Seq<SpecHeader>) -> bool {
    ts.len() == hs.len() && forall|k: int|
        0 <= k < ts.len() ==> triple_matches(#[trigger] ts[k], hs[k])
}

/// Scan the whole input for section headers.  Returns them in file order,
/// or the binary-data error exactly when the input holds a NUL byte.
pub fn scan(data: &[u8]) -> (r: Result<Vec<ScanTriple>, FormatError>)
    ensures
        match r {
            Ok(ts) => !has_nul(data@) && triples_match(ts@, spec_scan(data@)),
            Err(e) => e == FormatError::BinaryData && has_nul(data@),
        },
{
    let mut out: Vec<ScanTriple> = Vec::new();
    let mut i: usize = 0;
    while i < data.len()
        invariant
            i <= data@.len(),
            forall|j: int| 0 <= j < i ==> data@[j] != 0,
            triples_match(out@, spec_scan_upto(data@, i as int)),
        decreases data@.len() - i,
    {
        let b = data[i];
        if b == 0 {
            return Err(FormatError::BinaryData);
        }
        if b == '=' as u8 && (i == 0 || data[i - 1] == '\n' as u8) {
            let j = crate::bytes::find_from(data, i, '\n' as u8);
            let line = &data[i + 1..j];
            proof {
                assert(line@ =~= data@.subrange(i + 1, line_end_at(data@, i as int)));
            }
            let (t, idop) = crate::bytes::split2_slice(line, ':' as u8);
            let tag_t = trim_slice(t);
            let tag_enum = string_tag_to_enum(tag_t);
            let id: Option<Vec<u8>> = match idop {
                Some(x) => Some(vstd::slice::slice_to_vec(trim_slice(x))),
                None => None,
            };
            let triple = ScanTriple {
                tag: tag_enum,
                tag_raw: vstd::slice::slice_to_vec(tag_t),
                id,
                offset: i,
            };
            proof {
                assert(triple_matches(triple, header_of(data@, i as int)));
            }
            out.push(triple);
        }
        i = i + 1;
    }
    Ok(out)
}

/// Law supporting index construction: scanned offsets are strictly
/// increasing, and each lies inside the input.
pub proof fn lemma_scan_offsets(s: Seq<u8>, n: int)
    requires
        n <= s.len(),
    ensures
        forall|k: int|
            0 <= k < spec_scan_upto(s, n).len() ==> 0 <= (
            #[trigger] spec_scan_upto(s, n)[k]).offset < n,
        forall|k1: int, k2: int|
            0 <= k1 < k2 < spec_scan_upto(s, n).len() ==> #[trigger] spec_scan_upto(s, n)[k1].offset
                < #[trigger] spec_scan_upto(s, n)[k2].offset,
    decreases n,
{
    if n > 0 {
        lemma_scan_offsets(s, n - 1);
    }
}


/// Two headers collide: one section kind, and the same id on both.
pub open spec fn hdr_dup(hs: Seq<SpecHeader>, k1: int, k2: int) -> bool {
    &&& spec_tag_of(hs[k1].tag) == spec_tag_of(hs[k2].tag)
    &&& hs[k1].id is Some
    &&& hs[k2].id is Some
    &&& hs[k1].id->Some_0 == hs[k2].id->Some_0
}

pub open spec fn spec_has_dup(hs: Seq<SpecHeader>) -> bool {
    exists|k1: int, k2: int| 0 <= k1 < k2 < hs.len() && #[trigger] hdr_dup(hs, k1, k2)
}

} // verus!
