//! The section index: each header becomes a byte range `[start, start +
//! length)`.  The length of an entry runs to the next header's offset, and
//! the last entry runs to the end of the file, so the entries partition the
//! file from the first header onward: the sum of all lengths is the file
//! length minus the first offset (the whole file when the dump starts with
//! its first header at offset zero).

use crate::scan::{hdr_dup, spec_has_dup, triple_matches, triples_match, FormatError, ScanTriple, SpecHeader};
use crate::tags::Tag;
use vstd::prelude::*;

verus! {

/// One indexed section: its kind, raw tag text, optional id, and byte
/// range.
#[derive(Debug)]
pub struct IndexRow {
    pub tag: Tag,
    pub tag_raw: Vec<u8>,
    pub id: Option<Vec<u8>>,
    pub start: usize,
    pub length: usize,
}

/// The index over one dump: its rows in file order, and the file length
/// the ranges were closed against.
#[derive(Debug)]
pub struct Index {
    pub rows: Vec<IndexRow>,
    pub file_len: usize,
}

pub open spec fn sum_len(rows: Seq<IndexRow>) -> int
    decreases rows.len(),
{
    if rows.len() == 0 {
        0
    } else {
        sum_len(rows.drop_last()) + rows.last().length
    }
}

/// Two triples collide: same kind, and the same id present on both.
pub open spec fn dup_at(ts: Seq<ScanTriple>, k1: int, k2: int) -> bool {
    &&& ts[k1].tag == ts[k2].tag
    &&& ts[k1].id is Some
    &&& ts[k2].id is Some
    &&& ts[k1].id->Some_0@ == ts[k2].id->Some_0@
}

pub open spec fn has_dup(ts: Seq<ScanTriple>) -> bool {
    exists|k1: int, k2: int| 0 <= k1 < k2 < ts.len() && #[trigger] dup_at(ts, k1, k2)
}

/// The row built for triple `k` of `n`, against a file of `file_len`
/// bytes.
pub open spec fn row_matches(ts: Seq<ScanTriple>, k: int, file_len: int, row: IndexRow) -> bool {
    &&& row.tag == ts[k].tag
    &&& row.tag_raw@ == ts[k].tag_raw@
    &&& match (row.id, ts[k].id) {
        (Some(a), Some(b)) => a@ == b@,
        (None, None) => true,
        _ => false,
    }
    &&& row.start == ts[k].offset
    &&& row.length == if k + 1 < ts.len() {
        ts[k + 1].offset - ts[k].offset
    } else {
        file_len - ts[k].offset
    }
}

/// Build the index from the scanner's triples.  Keyed collisions are a
/// format error; otherwise every triple becomes a row whose range runs to
/// the next triple's offset, the last to the end of the file.
pub fn build_index(triples: &Vec<ScanTriple>, file_len: usize) -> (r: Result<Index, FormatError>)
    requires
        forall|k: int|
            0 <= k < triples@.len() ==> (#[trigger] triples@[k].offset) < file_len,
        forall|k1: int, k2: int|
            0 <= k1 < k2 < triples@.len() ==> #[trigger] triples@[k1].offset
                < #[trigger] triples@[k2].offset,
    ensures
        match r {
            Ok(ix) => {
                &&& !has_dup(triples@)
                &&& ix.file_len == file_len
                &&& ix.rows@.len() == triples@.len()
                &&& forall|k: int|
                    0 <= k < triples@.len() ==> row_matches(
                        triples@,
                        k,
                        file_len as int,
                        #[trigger] ix.rows@[k],
                    )
                &&& forall|k: int|
                    0 <= k < ix.rows@.len() ==> (#[trigger] ix.rows@[k]).start + ix.rows@[k].length
                        <= file_len
                &&& triples@.len() > 0 ==> sum_len(ix.rows@) == file_len - triples@[0].offset
            },
            Err(e) => e == FormatError::DuplicateId && has_dup(triples@),
        },
{
    let ghost ts = triples@;
    let mut rows: Vec<IndexRow> = Vec::new();
    let mut k: usize = 0;
    while k < triples.len()
        invariant
            k <= ts.len(),
            ts == triples@,
            forall|i: int| 0 <= i < ts.len() ==> (#[trigger] ts[i].offset) < file_len,
            forall|i1: int, i2: int|
                0 <= i1 < i2 < ts.len() ==> #[trigger] ts[i1].offset < #[trigger] ts[i2].offset,
            rows@.len() == k,
            forall|i: int| 0 <= i < k ==> row_matches(ts, i, file_len as int, #[trigger] rows@[i]),
            forall|i: int|
                0 <= i < k ==> (#[trigger] rows@[i]).start + rows@[i].length <= file_len,
            forall|i1: int, i2: int| 0 <= i1 < i2 < k ==> !dup_at(ts, i1, i2),
            k > 0 ==> sum_len(rows@) == (if k < ts.len() {
                ts[k as int].offset as int
            } else {
                file_len as int
            }) - ts[0].offset,
        decreases ts.len() - k,
    {
        let t = &triples[k];
        // Keyed collision check against every earlier triple of this kind.
        match &t.id {
            Some(idv) => {
                let ttag = t.tag;
                let mut p: usize = 0;
                while p < k
                    invariant
                        p <= k < ts.len(),
                        ts == triples@,
                        ts[k as int].id is Some,
                        ts[k as int].id->Some_0@ == idv@,
                        ttag == ts[k as int].tag,
                        forall|i: int| 0 <= i < p ==> !dup_at(ts, i, k as int),
                    decreases k - p,
                {
                    let e = &triples[p];
                    proof {
                        assert(*e == ts[p as int]);
                    }
                    if e.tag == ttag {
                        proof {
                            assert(ts[p as int].tag == ts[k as int].tag);
                        }
                        match &e.id {
                            Some(eid) => {
                                proof {
                                    assert(e.id is Some);
                                    assert(e.id->Some_0 == *eid);
                                }
                                if crate::bytes::bytes_eq(eid.as_slice(), idv.as_slice()) {
                                    proof {
                                        assert(ts[p as int].id is Some);
                                        assert(ts[k as int].id is Some);
                                        assert(ts[p as int].id->Some_0@ == eid@);
                                        assert(ts[k as int].id->Some_0@ == idv@);
                                        assert(dup_at(ts, p as int, k as int));
                                    }
                                    return Err(FormatError::DuplicateId);
                                }
                            },
                            None => {},
                        }
                    }
                    proof {
                        assert(!dup_at(ts, p as int, k as int));
                    }
                    p = p + 1;
                }
            },
            None => {},
        }
        let length: usize = if k + 1 < triples.len() {
            triples[k + 1].offset - t.offset
        } else {
            file_len - t.offset
        };
        let id_copy: Option<Vec<u8>> = match &t.id {
            Some(v) => Some(vstd::slice::slice_to_vec(v.as_slice())),
            None => None,
        };
        let row = IndexRow {
            tag: t.tag,
            tag_raw: vstd::slice::slice_to_vec(t.tag_raw.as_slice()),
            id: id_copy,
            start: t.offset,
            length,
        };
        proof {
            assert(rows@.push(row).drop_last() =~= rows@);
            assert(rows@.push(row).last() == row);
            assert(sum_len(rows@.push(row)) == sum_len(rows@) + row.length);
        }
        rows.push(row);
        k = k + 1;
    }
    Ok(Index { rows, file_len })
}

/// Law: the index entries partition the file.  When the entries sit back
/// to back — each starting where the previous one ends, the first at
/// offset zero, the last ending at the file's end — the sum of their
/// lengths is exactly the file length.
pub proof fn lemma_index_covers(rows: Seq<IndexRow>, file_len: int)
    requires
        rows.len() > 0,
        rows[0].start == 0,
        forall|k: int|
            0 < k < rows.len() ==> (#[trigger] rows[k].start) == rows[k - 1].start + rows[k
                - 1].length,
        rows.last().start + rows.last().length == file_len,
    ensures
        sum_len(rows) == file_len,
    decreases rows.len(),
{
    if rows.len() == 1 {
        assert(rows.drop_last().len() == 0);
        assert(sum_len(rows.drop_last()) == 0);
        assert(rows.last() == rows[0]);
    } else {
        let fewer = rows.drop_last();
        assert(fewer[0].start == rows[0].start);
        assert forall|k: int|
            0 < k < fewer.len() implies (#[trigger] fewer[k].start) == fewer[k - 1].start + fewer[k
            - 1].length by {
            assert(fewer[k] == rows[k]);
            assert(fewer[k - 1] == rows[k - 1]);
        }
        assert(fewer.last() == rows[rows.len() - 2]);
        assert(fewer.last().start + fewer.last().length == rows.last().start);
        lemma_index_covers(fewer, rows.last().start as int);
        assert(sum_len(rows) == sum_len(fewer) + rows.last().length);
    }
}


/// One index row as display text: the raw tag, `:id` when keyed, then the
/// start offset and the length.
pub open spec fn spec_format_row(row: IndexRow) -> Seq<u8> {
    row.tag_raw@ + (match row.id {
        Some(id) => crate::bytes::ascii8(":"@) + id@,
        None => Seq::<u8>::empty(),
    }) + crate::bytes::ascii8(" "@) + crate::num::dec_seq(row.start as int) + crate::bytes::ascii8(
        " "@,
    ) + crate::num::dec_seq(row.length as int)
}

impl Index {
    /// The whole index as display lines, one per row, in file order.
    pub fn format_index(&self) -> (r: Vec<Vec<u8>>)
        ensures
            r@.len() == self.rows@.len(),
            forall|k: int|
                0 <= k < r@.len() ==> (#[trigger] r@[k])@ == spec_format_row(self.rows@[k]),
    {
        proof {
            reveal_strlit(":");
            reveal_strlit(" ");
        }
        let mut r: Vec<Vec<u8>> = Vec::new();
        let mut k: usize = 0;
        while k < self.rows.len()
            invariant
                k <= self.rows@.len(),
                r@.len() == k,
                forall|j: int|
                    0 <= j < k ==> (#[trigger] r@[j])@ == spec_format_row(self.rows@[j]),
        decreases self.rows@.len() - k,
        {
            proof {
                reveal_strlit(":");
                reveal_strlit(" ");
            }
            let row = &self.rows[k];
            let mut line = vstd::slice::slice_to_vec(row.tag_raw.as_slice());
            match &row.id {
                Some(id) => {
                    crate::bytes::push_all(&mut line, crate::bytes::lit(":").as_slice());
                    crate::bytes::push_all(&mut line, id.as_slice());
                },
                None => {},
            }
            crate::bytes::push_all(&mut line, crate::bytes::lit(" ").as_slice());
            crate::bytes::push_all(&mut line, crate::num::u64_to_dec(row.start as u64).as_slice());
            crate::bytes::push_all(&mut line, crate::bytes::lit(" ").as_slice());
            crate::bytes::push_all(
                &mut line,
                crate::num::u64_to_dec(row.length as u64).as_slice(),
            );
            r.push(line);
            k = k + 1;
        }
        r
    }
}


/// Collisions among the executable triples are exactly collisions among
/// the spec-level headers they match.
pub proof fn lemma_dup_transfer(ts: Seq<ScanTriple>, hs: Seq<SpecHeader>)
    requires
        triples_match(ts, hs),
    ensures
        has_dup(ts) <==> spec_has_dup(hs),
{
    if has_dup(ts) {
        let (k1, k2) = choose|k1: int, k2: int|
            0 <= k1 < k2 < ts.len() && #[trigger] dup_at(ts, k1, k2);
        assert(triple_matches(ts[k1], hs[k1]));
        assert(triple_matches(ts[k2], hs[k2]));
        assert(hdr_dup(hs, k1, k2));
        assert(spec_has_dup(hs));
    }
    if spec_has_dup(hs) {
        let (k1, k2) = choose|k1: int, k2: int|
            0 <= k1 < k2 < hs.len() && #[trigger] hdr_dup(hs, k1, k2);
        assert(triple_matches(ts[k1], hs[k1]));
        assert(triple_matches(ts[k2], hs[k2]));
        assert(dup_at(ts, k1, k2));
        assert(has_dup(ts));
    }
}

} // verus!
