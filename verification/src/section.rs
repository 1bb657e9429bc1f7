//! The section parser: one section's text becomes a header (tag and
//! optional id) plus classified body lines.
//!
//! Sections that carry repeating or non-keyed content — process stacks,
//! message queues, heaps, literals, persistent terms — keep every body line
//! raw.  In any other section, a line holding `key: value` (a colon
//! followed by a space) contributes to the key-value map, and the rest stay
//! raw lines.

use crate::bytes::{
    first_ix2, lines_of, split2, split2_slice, split_lines, trim_slice, trim_ws, views,
};
use crate::tags::{spec_tag_of, string_tag_to_enum, Tag};
use vstd::prelude::*;

verus! {

/// A section text that does not even have a parseable header.
#[derive(Debug, PartialEq, Eq, Structural, Clone, Copy)]
pub enum SectionError {
    MissingHeader,
    InvalidHeader,
}

/// The spec-level content of a parsed section.
pub struct SpecSection {
    pub tag: Seq<u8>,
    pub id: Option<Seq<u8>>,
    pub kv: Seq<(Seq<u8>, Seq<u8>)>,
    pub raw: Seq<Seq<u8>>,
}

/// Kinds whose body is raw lines only, never key-value pairs.
pub open spec fn is_raw_tag(t: Tag) -> bool {
    t == Tag::ProcStack || t == Tag::ProcMessages || t == Tag::ProcHeap || t == Tag::Literals
        || t == Tag::PersistentTerms
}

/// Position of the `: ` separator in a key-value line, or the line length
/// when the line has none.
pub open spec fn kv_sep(line: Seq<u8>) -> int {
    first_ix2(line, ':' as u8, ' ' as u8)
}

pub open spec fn is_kv_line(line: Seq<u8>) -> bool {
    kv_sep(line) + 1 < line.len()
}

pub open spec fn kv_key(line: Seq<u8>) -> Seq<u8> {
    trim_ws(line.take(kv_sep(line)))
}

pub open spec fn kv_val(line: Seq<u8>) -> Seq<u8> {
    trim_ws(line.skip(kv_sep(line) + 2))
}

/// The key-value pairs of the body lines, in order.
pub open spec fn kv_of(lines: Seq<Seq<u8>>) -> Seq<(Seq<u8>, Seq<u8>)>
    decreases lines.len(),
{
    if lines.len() == 0 {
        Seq::empty()
    } else if is_kv_line(lines.last()) {
        kv_of(lines.drop_last()).push((kv_key(lines.last()), kv_val(lines.last())))
    } else {
        kv_of(lines.drop_last())
    }
}

/// The body lines that are not key-value pairs, in order.
pub open spec fn rawlines_of(lines: Seq<Seq<u8>>) -> Seq<Seq<u8>>
    decreases lines.len(),
{
    if lines.len() == 0 {
        Seq::empty()
    } else if is_kv_line(lines.last()) {
        rawlines_of(lines.drop_last())
    } else {
        rawlines_of(lines.drop_last()).push(lines.last())
    }
}

/// What parsing one section's text yields.
pub open spec fn spec_parse_section(text: Seq<u8>) -> Result<SpecSection, SectionError> {
    let ls = lines_of(text);
    if ls.len() == 0 {
        Err(SectionError::MissingHeader)
    } else {
        let header = ls[0];
        if header.len() == 0 || header[0] != '=' as u8 {
            Err(SectionError::InvalidHeader)
        } else {
            let (t, idop) = split2(header.skip(1), ':' as u8);
            let tag = trim_ws(t);
            let id = match idop {
                Some(x) => Some(trim_ws(x)),
                None => None,
            };
            let body = ls.drop_first();
            if is_raw_tag(spec_tag_of(tag)) {
                Ok(SpecSection { tag, id, kv: Seq::empty(), raw: body })
            } else {
                Ok(SpecSection { tag, id, kv: kv_of(body), raw: rawlines_of(body) })
            }
        }
    }
}

/// A parsed section: tag text and kind, optional id, key-value pairs, and
/// the remaining raw lines.
#[derive(Debug)]
pub struct GenericSection {
    pub tag: Vec<u8>,
    pub tag_enum: Tag,
    pub id: Option<Vec<u8>>,
    pub data: Vec<(Vec<u8>, Vec<u8>)>,
    pub raw_lines: Vec<Vec<u8>>,
}

/// Views of a key-value vector.
pub open spec fn kv_views(kvs: Seq<(Vec<u8>, Vec<u8>)>) -> Seq<(Seq<u8>, Seq<u8>)> {
    kvs.map_values(|p: (Vec<u8>, Vec<u8>)| (p.0@, p.1@))
}

pub open spec fn sec_matches(g: GenericSection, s: SpecSection) -> bool {
    &&& g.tag@ == s.tag
    &&& g.tag_enum == spec_tag_of(s.tag)
    &&& match (g.id, s.id) {
        (Some(a), Some(b)) => a@ == b,
        (None, None) => true,
        _ => false,
    }
    &&& kv_views(g.data@) == s.kv
    &&& views(g.raw_lines@) == s.raw
}

/// Look a key up among key-value pairs; the last write wins.
pub open spec fn kv_lookup(kvs: Seq<(Seq<u8>, Seq<u8>)>, key: Seq<u8>) -> Option<Seq<u8>>
    decreases kvs.len(),
{
    if kvs.len() == 0 {
        None
    } else if kvs.last().0 == key {
        Some(kvs.last().1)
    } else {
        kv_lookup(kvs.drop_last(), key)
    }
}

impl GenericSection {
    /// The value stored under `key`, if any.
    pub fn get(&self, key: &[u8]) -> (r: Option<&Vec<u8>>)
        ensures
            match r {
                Some(v) => kv_lookup(kv_views(self.data@), key@) == Some(v@),
                None => kv_lookup(kv_views(self.data@), key@) is None,
            },
    {
        let ghost kvs = kv_views(self.data@);
        let mut i: usize = self.data.len();
        proof {
            assert(kvs.take(i as int) =~= kvs);
        }
        while i > 0
            invariant
                i <= self.data@.len(),
                kvs == kv_views(self.data@),
                kv_lookup(kvs, key@) == kv_lookup(kvs.take(i as int), key@),
            decreases i,
        {
            proof {
                assert(kvs.take(i as int).last() == kvs[i - 1]);
                assert(kvs.take(i as int).drop_last() =~= kvs.take(i - 1));
                assert(kvs[i - 1].0 == self.data@[i - 1].0@);
                assert(kvs[i - 1].1 == self.data@[i - 1].1@);
            }
            if crate::bytes::bytes_eq(self.data[i - 1].0.as_slice(), key) {
                return Some(&self.data[i - 1].1);
            }
            i = i - 1;
        }
        proof {
            assert(kvs.take(0).len() == 0);
        }
        None
    }

    /// Parse one section's text: the header line, then the classified body
    /// lines.
    pub fn from_text(text: &[u8]) -> (r: Result<GenericSection, SectionError>)
        ensures
            match r {
                Ok(g) => spec_parse_section(text@) is Ok && sec_matches(
                    g,
                    spec_parse_section(text@)->Ok_0,
                ),
                Err(e) => spec_parse_section(text@) == Err::<SpecSection, SectionError>(e),
            },
    {
        let ls = split_lines(text);
        if ls.len() == 0 {
            return Err(SectionError::MissingHeader);
        }
        let header = ls[0].as_slice();
        proof {
            assert(header@ == lines_of(text@)[0]);
        }
        if header.len() == 0 {
            return Err(SectionError::InvalidHeader);
        }
        if header[0] != '=' as u8 {
            return Err(SectionError::InvalidHeader);
        }
        let hrest = &header[1..header.len()];
        proof {
            assert(hrest@ =~= header@.skip(1));
        }
        let (t, idop) = split2_slice(hrest, ':' as u8);
        let tag = vstd::slice::slice_to_vec(trim_slice(t));
        let tag_enum = string_tag_to_enum(tag.as_slice());
        let id: Option<Vec<u8>> = match idop {
            Some(x) => Some(vstd::slice::slice_to_vec(trim_slice(x))),
            None => None,
        };
        let ghost body = lines_of(text@).drop_first();
        let mut data: Vec<(Vec<u8>, Vec<u8>)> = Vec::new();
        let mut raw_lines: Vec<Vec<u8>> = Vec::new();
        let raw_only = match tag_enum {
            Tag::ProcStack => true,
            Tag::ProcMessages => true,
            Tag::ProcHeap => true,
            Tag::Literals => true,
            Tag::PersistentTerms => true,
            _ => false,
        };
        let mut i: usize = 1;
        proof {
            assert(body.take(0) =~= Seq::<Seq<u8>>::empty());
            assert(kv_views(data@) =~= Seq::<(Seq<u8>, Seq<u8>)>::empty());
            assert(views(raw_lines@) =~= Seq::<Seq<u8>>::empty());
        }
        while i < ls.len()
            invariant
                1 <= i <= ls@.len(),
                views(ls@) == lines_of(text@),
                lines_of(text@).len() == ls@.len(),
                body == lines_of(text@).drop_first(),
                raw_only == is_raw_tag(spec_tag_of(trim_ws(
                    split2(lines_of(text@)[0].skip(1), ':' as u8).0,
                ))),
                spec_tag_of(trim_ws(split2(lines_of(text@)[0].skip(1), ':' as u8).0))
                    == tag_enum,
                raw_only ==> data@.len() == 0 && views(raw_lines@) == body.take(i - 1),
                !raw_only ==> kv_views(data@) == kv_of(body.take(i - 1)) && views(raw_lines@)
                    == rawlines_of(body.take(i - 1)),
            decreases ls@.len() - i,
        {
            let line = ls[i].as_slice();
            proof {
                assert(line@ == body[i - 1]);
                assert(body.take(i as int).last() == body[i - 1]);
                assert(body.take(i as int).drop_last() =~= body.take(i - 1));
            }
            if raw_only {
                raw_lines.push(vstd::slice::slice_to_vec(line));
                proof {
                    crate::bytes::lemma_views_push(raw_lines@.drop_last(), raw_lines@.last());
                    assert(raw_lines@.drop_last() =~= raw_lines@.drop_last());
                    assert(views(raw_lines@) =~= body.take(i as int));
                }
            } else {
                let j = crate::bytes::find2(line, ':' as u8, ' ' as u8);
                if j < line.len() && j + 1 < line.len() {
                    let key = vstd::slice::slice_to_vec(trim_slice(&line[0..j]));
                    let value = vstd::slice::slice_to_vec(
                        trim_slice(&line[j + 2..line.len()]),
                    );
                    proof {
                        assert(is_kv_line(line@));
                        assert(key@ == kv_key(line@));
                        assert(value@ == kv_val(line@));
                        assert(kv_views(data@.push((key, value))) =~= kv_views(data@).push(
                            (key@, value@),
                        ));
                    }
                    data.push((key, value));
                    proof {
                        assert(kv_views(data@) =~= kv_of(body.take(i as int)));
                        assert(views(raw_lines@) =~= rawlines_of(body.take(i as int)));
                    }
                } else {
                    proof {
                        crate::bytes::lemma_first_ix2(line@, ':' as u8, ' ' as u8);
                        assert(!is_kv_line(line@));
                    }
                    raw_lines.push(vstd::slice::slice_to_vec(line));
                    proof {
                        crate::bytes::lemma_views_push(
                            raw_lines@.drop_last(),
                            raw_lines@.last(),
                        );
                        assert(views(raw_lines@) =~= rawlines_of(body.take(i as int)));
                        assert(kv_views(data@) =~= kv_of(body.take(i as int)));
                    }
                }
            }
            i = i + 1;
        }
        proof {
            assert(body.take(body.len() as int) =~= body);
            let sp = spec_parse_section(text@);
            assert(sp is Ok);
            let ss = sp->Ok_0;
            assert(tag@ == ss.tag);
            if raw_only {
                assert(kv_views(data@) =~= Seq::<(Seq<u8>, Seq<u8>)>::empty());
                assert(kv_views(data@) == ss.kv);
                assert(views(raw_lines@) == ss.raw);
            } else {
                assert(kv_views(data@) == ss.kv);
                assert(views(raw_lines@) == ss.raw);
            }
        }
        Ok(GenericSection { tag, tag_enum, id, data, raw_lines })
    }
}

} // verus!
