//! Decoders for the per-process stack and message-queue sections.
//!
//! A stack section alternates `y<i>:<term>` variable lines with frame lines
//! `0x<addr>:SReturn addr 0x<ret> (module:function/arity + offset)` (or
//! `:SCatch`, or a module-less `(<text>)` form).  The decoder is a state
//! machine: variable values collect until a frame line closes the frame
//! that preceded them; the first frame emitted is therefore a synthetic
//! base with empty fields, and the last open frame is flushed at the end of
//! the section.
//!
//! A message-queue section's lines are `ADDR:TERM`; they keep file order.

use crate::bytes::{ascii8, has_prefix, split2, split_all, starts_with, trim_slice, trim_ws, views};
use crate::num::{parse_dec_u64, parse_dec_u64_bytes};
use crate::section::{kv_views, GenericSection};
use crate::tags::Tag;
use crate::terms::{find_non_hex, first_non_hex};
use vstd::prelude::*;

verus! {

/// A section handed to a typed decoder that expects another kind.
#[derive(Debug, PartialEq, Eq, Structural, Clone, Copy)]
pub enum WrongSection {
    NotProcStack,
    NotProcMessages,
}

/// One stack frame: the buffered variable values, then the fields of the
/// frame line that closed it.
#[derive(Debug)]
pub struct StackFrame {
    pub variables: Vec<Vec<u8>>,
    pub address: Vec<u8>,
    pub return_addr: Vec<u8>,
    pub function: Vec<u8>,
    pub module: Vec<u8>,
    pub offset: u64,
    pub arity: u64,
}

/// The spec-level fields of a frame line.
pub struct SpecFrameHdr {
    pub address: Seq<u8>,
    pub return_addr: Seq<u8>,
    pub function: Seq<u8>,
    pub module: Seq<u8>,
    pub offset: u64,
    pub arity: u64,
}

/// A spec-level frame: variables plus header fields.
pub struct SpecFrame {
    pub vars: Seq<Seq<u8>>,
    pub hdr: SpecFrameHdr,
}

pub open spec fn empty_hdr() -> SpecFrameHdr {
    SpecFrameHdr {
        address: Seq::empty(),
        return_addr: Seq::empty(),
        function: Seq::empty(),
        module: Seq::empty(),
        offset: 0,
        arity: 0,
    }
}

/// Parse `module:function/arity + offset` out of the parenthesised part of
/// a frame line.
pub open spec fn spec_parse_mfa(inner: Seq<u8>) -> Option<(Seq<u8>, Seq<u8>, u64, u64)> {
    match split2(inner, ':' as u8).1 {
        None => None,
        Some(rest2) => {
            let module = split2(inner, ':' as u8).0;
            match split2(rest2, '/' as u8).1 {
                None => None,
                Some(rest3) => {
                    let function = split2(rest2, '/' as u8).0;
                    let parts = split_all(rest3, ' ' as u8);
                    if parts.len() == 3 && parts[1] == ascii8("+"@) {
                        match (parse_dec_u64(parts[0]), parse_dec_u64(parts[2])) {
                            (Some(a), Some(o)) => Some((module, function, a, o)),
                            _ => None,
                        }
                    } else {
                        None
                    }
                },
            }
        },
    }
}

/// What a frame line yields: the frame's address, the return address, and
/// either `module:function/arity + offset` or a module-less `<text>` body.
pub open spec fn spec_parse_frame(line: Seq<u8>) -> Option<SpecFrameHdr> {
    if !has_prefix(line, ascii8("0x"@)) {
        None
    } else {
        let rest = line.skip(2);
        let i = first_non_hex(rest);
        if i == 0 {
            None
        } else {
            let address = line.take(2 + i);
            let after = rest.skip(i);
            let rest2 = if has_prefix(after, ascii8(":SReturn addr "@)) {
                Some(after.skip(14))
            } else if has_prefix(after, ascii8(":SCatch "@)) {
                Some(after.skip(8))
            } else {
                None
            };
            match rest2 {
                None => None,
                Some(r2) => {
                    if !has_prefix(r2, ascii8("0x"@)) {
                        None
                    } else {
                        let rrest = r2.skip(2);
                        let j = first_non_hex(rrest);
                        if j == 0 {
                            None
                        } else {
                            let ret = r2.take(2 + j);
                            let after3 = rrest.skip(j);
                            if !has_prefix(after3, ascii8(" ("@)) {
                                None
                            } else {
                                let inner0 = after3.skip(2);
                                if inner0.len() == 0 || inner0.last() != ')' as u8 {
                                    None
                                } else {
                                    let inner = inner0.drop_last();
                                    if inner.len() >= 2 && inner[0] == '<' as u8
                                        && inner.last() == '>' as u8 {
                                        Some(
                                            SpecFrameHdr {
                                                address,
                                                return_addr: ret,
                                                function: inner,
                                                module: Seq::empty(),
                                                offset: 0,
                                                arity: 0,
                                            },
                                        )
                                    } else {
                                        match spec_parse_mfa(inner) {
                                            Some((m, f, a, o)) => Some(
                                                SpecFrameHdr {
                                                    address,
                                                    return_addr: ret,
                                                    function: f,
                                                    module: m,
                                                    offset: o,
                                                    arity: a,
                                                },
                                            ),
                                            None => None,
                                        }
                                    }
                                }
                            }
                        }
                    }
                },
            }
        }
    }
}

/// The decoder's state: closed frames, buffered variables, and the header
/// fields of the currently open frame.
pub struct SpecStackSt {
    pub frames: Seq<SpecFrame>,
    pub vars: Seq<Seq<u8>>,
    pub hdr: SpecFrameHdr,
}

pub open spec fn stack_init() -> SpecStackSt {
    SpecStackSt { frames: Seq::empty(), vars: Seq::empty(), hdr: empty_hdr() }
}

/// One line drives the state machine: a `y` line buffers a variable, a
/// frame line closes the open frame (an unparsable frame line keeps the
/// previous header fields), anything else is ignored.
pub open spec fn stack_step(st: SpecStackSt, line: Seq<u8>) -> SpecStackSt {
    if line.len() >= 1 && line[0] == 'y' as u8 {
        match split2(line, ':' as u8).1 {
            Some(rest) => SpecStackSt {
                frames: st.frames,
                vars: st.vars.push(trim_ws(rest)),
                hdr: st.hdr,
            },
            None => st,
        }
    } else if has_prefix(line, ascii8("0x"@)) {
        let closed = SpecStackSt {
            frames: st.frames.push(SpecFrame { vars: st.vars, hdr: st.hdr }),
            vars: Seq::empty(),
            hdr: st.hdr,
        };
        match spec_parse_frame(line) {
            Some(h) => SpecStackSt { frames: closed.frames, vars: closed.vars, hdr: h },
            None => closed,
        }
    } else {
        st
    }
}

pub open spec fn stack_fold(lines: Seq<Seq<u8>>, n: int) -> SpecStackSt
    decreases n,
{
    if n <= 0 {
        stack_init()
    } else {
        stack_step(stack_fold(lines, n - 1), lines[n - 1])
    }
}

/// All frames of a stack section's raw lines, the last open frame flushed.
pub open spec fn spec_stack_frames(lines: Seq<Seq<u8>>) -> Seq<SpecFrame> {
    let st = stack_fold(lines, lines.len() as int);
    st.frames.push(SpecFrame { vars: st.vars, hdr: st.hdr })
}

pub open spec fn hdr_matches(f: StackFrame, h: SpecFrameHdr) -> bool {
    &&& f.address@ == h.address
    &&& f.return_addr@ == h.return_addr
    &&& f.function@ == h.function
    &&& f.module@ == h.module
    &&& f.offset == h.offset
    &&& f.arity == h.arity
}

pub open spec fn frame_matches(f: StackFrame, sf: SpecFrame) -> bool {
    views(f.variables@) == sf.vars && hdr_matches(f, sf.hdr)
}

pub open spec fn frames_match(fs: Seq<StackFrame>, sfs: Seq<SpecFrame>) -> bool {
    fs.len() == sfs.len() && forall|k: int|
        0 <= k < fs.len() ==> frame_matches(#[trigger] fs[k], sfs[k])
}

/// Parse one frame line, as executable code.
fn parse_frame_line(line: &[u8]) -> (r: Option<StackFrame>)
    ensures
        match r {
            Some(f) => spec_parse_frame(line@) is Some && f.variables@.len() == 0 && hdr_matches(
                f,
                spec_parse_frame(line@)->0,
            ),
            None => spec_parse_frame(line@) is None,
        },
{
    proof {
        reveal_strlit("0x");
        reveal_strlit(":SReturn addr ");
        reveal_strlit(":SCatch ");
        reveal_strlit(" (");
        reveal_strlit("+");
    }
    let p0x = lit_0x();
    if !starts_with(line, p0x.as_slice()) {
        return None;
    }
    let rest = &line[2..line.len()];
    proof {
        assert(rest@ =~= line@.skip(2));
    }
    let i = find_non_hex(rest);
    if i == 0 {
        return None;
    }
    let address = vstd::slice::slice_to_vec(&line[0..2 + i]);
    proof {
        assert(address@ =~= line@.take(2 + i));
    }
    let after = &rest[i..rest.len()];
    proof {
        assert(after@ =~= rest@.skip(i as int));
    }
    let pret = crate::bytes::lit(":SReturn addr ");
    let pcatch = crate::bytes::lit(":SCatch ");
    let r2: &[u8] = if starts_with(after, pret.as_slice()) {
        let t = &after[14..after.len()];
        proof {
            assert(t@ =~= after@.skip(14));
        }
        t
    } else if starts_with(after, pcatch.as_slice()) {
        let t = &after[8..after.len()];
        proof {
            assert(t@ =~= after@.skip(8));
        }
        t
    } else {
        return None;
    };
    if !starts_with(r2, p0x.as_slice()) {
        return None;
    }
    let rrest = &r2[2..r2.len()];
    proof {
        assert(rrest@ =~= r2@.skip(2));
    }
    let j = find_non_hex(rrest);
    if j == 0 {
        return None;
    }
    let ret = vstd::slice::slice_to_vec(&r2[0..2 + j]);
    proof {
        assert(ret@ =~= r2@.take(2 + j));
    }
    let after3 = &rrest[j..rrest.len()];
    proof {
        assert(after3@ =~= rrest@.skip(j as int));
    }
    let popen = crate::bytes::lit(" (");
    if !starts_with(after3, popen.as_slice()) {
        return None;
    }
    let inner0 = &after3[2..after3.len()];
    proof {
        assert(inner0@ =~= after3@.skip(2));
    }
    if inner0.len() == 0 {
        return None;
    }
    if inner0[inner0.len() - 1] != ')' as u8 {
        return None;
    }
    let inner = &inner0[0..inner0.len() - 1];
    proof {
        assert(inner@ =~= inner0@.drop_last());
    }
    if inner.len() >= 2 && inner[0] == '<' as u8 && inner[inner.len() - 1] == '>' as u8 {
        return Some(
            StackFrame {
                variables: Vec::new(),
                address,
                return_addr: ret,
                function: vstd::slice::slice_to_vec(inner),
                module: Vec::new(),
                offset: 0,
                arity: 0,
            },
        );
    }
    let (module_s, rest2op) = crate::bytes::split2_slice(inner, ':' as u8);
    let mrest2 = match rest2op {
        Some(x) => x,
        None => {
            return None;
        },
    };
    let (func_s, rest3op) = crate::bytes::split2_slice(mrest2, '/' as u8);
    let mrest3 = match rest3op {
        Some(x) => x,
        None => {
            return None;
        },
    };
    let parts = crate::bytes::split_list(mrest3, ' ' as u8);
    if parts.len() != 3 {
        return None;
    }
    proof {
        assert(views(parts@)[0] == parts@[0]@);
        assert(views(parts@)[1] == parts@[1]@);
        assert(views(parts@)[2] == parts@[2]@);
    }
    let plus = crate::bytes::lit("+");
    if !crate::bytes::bytes_eq(parts[1].as_slice(), plus.as_slice()) {
        return None;
    }
    let a = match parse_dec_u64_bytes(parts[0].as_slice()) {
        Some(a) => a,
        None => {
            return None;
        },
    };
    let o = match parse_dec_u64_bytes(parts[2].as_slice()) {
        Some(o) => o,
        None => {
            return None;
        },
    };
    Some(
        StackFrame {
            variables: Vec::new(),
            address,
            return_addr: ret,
            function: vstd::slice::slice_to_vec(func_s),
            module: vstd::slice::slice_to_vec(module_s),
            offset: o,
            arity: a,
        },
    )
}

fn lit_0x() -> (r: Vec<u8>)
    ensures
        r@ == ascii8("0x"@),
{
    proof {
        reveal_strlit("0x");
    }
    crate::bytes::lit("0x")
}

/// A process's decoded stack: its pid and its frames in file order.
#[derive(Debug)]
pub struct ProcStackInfo {
    pub pid: Vec<u8>,
    pub frames: Vec<StackFrame>,
}

impl ProcStackInfo {
    /// Run the frame state machine over a parsed `=proc_stack` section.
    pub fn from_generic_section(g: &GenericSection) -> (r: Result<ProcStackInfo, WrongSection>)
        ensures
            match r {
                Ok(si) => {
                    &&& g.tag_enum == Tag::ProcStack
                    &&& si.pid@ == match g.id {
                        Some(v) => v@,
                        None => Seq::<u8>::empty(),
                    }
                    &&& frames_match(si.frames@, spec_stack_frames(views(g.raw_lines@)))
                },
                Err(_) => g.tag_enum != Tag::ProcStack,
            },
    {
        if !matches!(g.tag_enum, Tag::ProcStack) {
            return Err(WrongSection::NotProcStack);
        }
        let pid: Vec<u8> = match &g.id {
            Some(v) => vstd::slice::slice_to_vec(v.as_slice()),
            None => Vec::new(),
        };
        let ghost lines = views(g.raw_lines@);
        let mut frames: Vec<StackFrame> = Vec::new();
        let mut vars: Vec<Vec<u8>> = Vec::new();
        let mut cur = StackFrame {
            variables: Vec::new(),
            address: Vec::new(),
            return_addr: Vec::new(),
            function: Vec::new(),
            module: Vec::new(),
            offset: 0,
            arity: 0,
        };
        let mut i: usize = 0;
        proof {
            assert(views(vars@) =~= Seq::<Seq<u8>>::empty());
            assert(hdr_matches(cur, empty_hdr()));
            assert(frames_match(frames@, stack_fold(lines, 0).frames));
        }
        while i < g.raw_lines.len()
            invariant
                i <= g.raw_lines@.len(),
                lines == views(g.raw_lines@),
                frames_match(frames@, stack_fold(lines, i as int).frames),
                views(vars@) == stack_fold(lines, i as int).vars,
                hdr_matches(cur, stack_fold(lines, i as int).hdr),
                cur.variables@.len() == 0,
            decreases g.raw_lines@.len() - i,
        {
            let line = g.raw_lines[i].as_slice();
            proof {
                assert(line@ == lines[i as int]);
            }
            let ghost st = stack_fold(lines, i as int);
            if line.len() >= 1 && line[0] == 'y' as u8 {
                let (_, restop) = crate::bytes::split2_slice(line, ':' as u8);
                match restop {
                    Some(rest) => {
                        let v = vstd::slice::slice_to_vec(trim_slice(rest));
                        proof {
                            crate::bytes::lemma_views_push(vars@, v);
                        }
                        vars.push(v);
                    },
                    None => {},
                }
            } else if line.len() >= 2 && line[0] == '0' as u8 && line[1] == 'x' as u8 {
                proof {
                    reveal_strlit("0x");
                    assert(ascii8("0x"@).len() == 2);
                    assert(ascii8("0x"@)[0] == '0' as u8);
                    assert(ascii8("0x"@)[1] == 'x' as u8);
                    assert(line@.take(2) =~= ascii8("0x"@));
                    assert(has_prefix(line@, ascii8("0x"@)));
                }
                let closed = StackFrame {
                    variables: vars,
                    address: cur.address,
                    return_addr: cur.return_addr,
                    function: cur.function,
                    module: cur.module,
                    offset: cur.offset,
                    arity: cur.arity,
                };
                let ghost prev_hdr = stack_fold(lines, i as int).hdr;
                proof {
                    assert(frame_matches(
                        closed,
                        SpecFrame { vars: st.vars, hdr: st.hdr },
                    ));
                }
                frames.push(closed);
                vars = Vec::new();
                proof {
                    assert(views(vars@) =~= Seq::<Seq<u8>>::empty());
                }
                match parse_frame_line(line) {
                    Some(h) => {
                        cur = h;
                    },
                    None => {
                        cur = StackFrame {
                            variables: Vec::new(),
                            address: frames[frames.len() - 1].address.clone(),
                            return_addr: frames[frames.len() - 1].return_addr.clone(),
                            function: frames[frames.len() - 1].function.clone(),
                            module: frames[frames.len() - 1].module.clone(),
                            offset: frames[frames.len() - 1].offset,
                            arity: frames[frames.len() - 1].arity,
                        };
                        proof {
                            assert(hdr_matches(cur, prev_hdr));
                        }
                    },
                }
            } else {
                proof {
                    reveal_strlit("0x");
                    assert(ascii8("0x"@).len() == 2);
                    assert(ascii8("0x"@)[0] == '0' as u8);
                    assert(ascii8("0x"@)[1] == 'x' as u8);
                    if line@.len() >= 2 {
                        assert(line@.take(2)[0] == line@[0]);
                        assert(line@.take(2)[1] == line@[1]);
                    }
                    assert(!has_prefix(line@, ascii8("0x"@)));
                }
            }
            i = i + 1;
        }
        let last = StackFrame {
            variables: vars,
            address: cur.address,
            return_addr: cur.return_addr,
            function: cur.function,
            module: cur.module,
            offset: cur.offset,
            arity: cur.arity,
        };
        proof {
            let st = stack_fold(lines, lines.len() as int);
            assert(frame_matches(last, SpecFrame { vars: st.vars, hdr: st.hdr }));
        }
        frames.push(last);
        Ok(ProcStackInfo { pid, frames })
    }
}

/// The ordered `ADDR:TERM` pairs of a message-queue section's lines; lines
/// without a colon are skipped.
pub open spec fn msgs_of(lines: Seq<Seq<u8>>) -> Seq<(Seq<u8>, Seq<u8>)>
    decreases lines.len(),
{
    if lines.len() == 0 {
        Seq::empty()
    } else {
        let rest = msgs_of(lines.drop_last());
        match split2(lines.last(), ':' as u8).1 {
            Some(v) => rest.push((split2(lines.last(), ':' as u8).0, v)),
            None => rest,
        }
    }
}

/// A process's message queue: its pid and the `ADDR:TERM` pairs in file
/// order.
#[derive(Debug)]
pub struct ProcMessagesInfo {
    pub pid: Vec<u8>,
    pub messages: Vec<(Vec<u8>, Vec<u8>)>,
}

impl ProcMessagesInfo {
    /// Read the ordered message pairs out of a parsed `=proc_messages`
    /// section.
    pub fn from_generic_section(g: &GenericSection) -> (r: Result<
        ProcMessagesInfo,
        WrongSection,
    >)
        ensures
            match r {
                Ok(mi) => {
                    &&& g.tag_enum == Tag::ProcMessages
                    &&& mi.pid@ == match g.id {
                        Some(v) => v@,
                        None => Seq::<u8>::empty(),
                    }
                    &&& kv_views(mi.messages@) == msgs_of(views(g.raw_lines@))
                },
                Err(_) => g.tag_enum != Tag::ProcMessages,
            },
    {
        if !matches!(g.tag_enum, Tag::ProcMessages) {
            return Err(WrongSection::NotProcMessages);
        }
        let pid: Vec<u8> = match &g.id {
            Some(v) => vstd::slice::slice_to_vec(v.as_slice()),
            None => Vec::new(),
        };
        let ghost lines = views(g.raw_lines@);
        let mut messages: Vec<(Vec<u8>, Vec<u8>)> = Vec::new();
        let mut i: usize = 0;
        proof {
            assert(lines.take(0) =~= Seq::<Seq<u8>>::empty());
            assert(kv_views(messages@) =~= Seq::<(Seq<u8>, Seq<u8>)>::empty());
        }
        while i < g.raw_lines.len()
            invariant
                i <= g.raw_lines@.len(),
                lines == views(g.raw_lines@),
                kv_views(messages@) == msgs_of(lines.take(i as int)),
            decreases g.raw_lines@.len() - i,
        {
            let line = g.raw_lines[i].as_slice();
            proof {
                assert(line@ == lines[i as int]);
                assert(lines.take(i + 1).last() == lines[i as int]);
                assert(lines.take(i + 1).drop_last() =~= lines.take(i as int));
            }
            let (addr, restop) = crate::bytes::split2_slice(line, ':' as u8);
            match restop {
                Some(rest) => {
                    let pair = (
                        vstd::slice::slice_to_vec(addr),
                        vstd::slice::slice_to_vec(rest),
                    );
                    proof {
                        assert(kv_views(messages@.push(pair)) =~= kv_views(messages@).push(
                            (pair.0@, pair.1@),
                        ));
                    }
                    messages.push(pair);
                },
                None => {},
            }
            i = i + 1;
        }
        proof {
            assert(lines.take(lines.len() as int) =~= lines);
        }
        Ok(ProcMessagesInfo { pid, messages })
    }
}

} // verus!
