//! The encoded-term decoder.
//!
//! A term inside a heap, stack, message, literal or persistent-term section
//! is a byte string whose first character names its type: `I` integer, `A`
//! atom, `S` string, `N` nil, `l` cons list, `t` tuple, `H` heap reference,
//! `E` external term, `B` bignum, `F` float, `P`/`p` external pid or port,
//! `Y` binary, `M` map, `R` fun reference.  Decoding renders such a term as
//! human-readable text, resolving `H` references through the address map and
//! `Y` binary references through the binary index.
//!
//! Recursion is bounded by a configurable depth: past it the decoder emits a
//! single `(*raw)` marker and stops, which is what keeps cyclic heap graphs
//! from looping.  Unresolved heap references render as `*U - addr`; missing
//! binaries render a `not found` marker; a sub-binary whose range exceeds
//! its parent renders an out-of-bounds message.  Everything the decoder does
//! is a pure function of the two maps, the depth bound and the input bytes:
//! the spec function [`spec_decode`] is that function, and every executable
//! entry point is proved to return exactly it.

use crate::bytes::{
    ascii8, find_from, first_ix, has_prefix, join, join_list, lit, push_all, split2,
    split2_slice, split_all, split_list, starts_with, views,
};
use crate::num::{
    dec_seq, dec_seq_signed, hex_seq, is_hex_digit, parse_hex, parse_hex_u64, parse_i64,
    parse_i64_bytes, u128_to_dec, u64_to_dec, u64_to_hex,
};
use std::collections::HashMap;
use vstd::prelude::*;

verus! {

/// The frozen context a decode runs against: the merged address map, the
/// binary length index, and the recursion bound.
pub struct DecodeEnv {
    pub amap: Map<u64, Seq<u8>>,
    pub bmap: Map<u64, u64>,
    pub max: nat,
}

/// Index of the first byte that is not a hex digit, or `s.len()`.
pub open spec fn first_non_hex(s: Seq<u8>) -> int
    decreases s.len(),
{
    if s.len() == 0 {
        0
    } else if !is_hex_digit(s[0]) {
        0
    } else {
        1 + first_non_hex(s.skip(1))
    }
}

pub proof fn lemma_first_non_hex_is(s: Seq<u8>, j: int)
    requires
        0 <= j <= s.len(),
        forall|k: int| 0 <= k < j ==> is_hex_digit(s[k]),
        j < s.len() ==> !is_hex_digit(s[j]),
    ensures
        first_non_hex(s) == j,
    decreases s.len(),
{
    if s.len() == 0 {
    } else if !is_hex_digit(s[0]) {
        assert(j == 0);
    } else {
        assert(j >= 1);
        assert forall|k: int| 0 <= k < j - 1 implies is_hex_digit(s.skip(1)[k]) by {
            assert(s.skip(1)[k] == s[k + 1]);
        }
        assert(j - 1 < s.skip(1).len() ==> s.skip(1)[j - 1] == s[j]);
        lemma_first_non_hex_is(s.skip(1), j - 1);
    }
}

/// The marker text for an unknown term prefix.
pub open spec fn unknown_msg(s: Seq<u8>, d: nat) -> Seq<u8> {
    ascii8("---don't know how to parse "@) + s + ascii8(" at depth "@) + dec_seq(d as int)
        + ascii8("---"@)
}

/// Whether a heap address fails to resolve in the address map.
pub open spec fn unresolved(amap: Map<u64, Seq<u8>>, addr: Seq<u8>) -> bool {
    match parse_hex(addr) {
        Some(a) => !amap.contains_key(a),
        None => true,
    }
}

/// Render decoded flatmap items, pairwise, as `key: value`.
pub open spec fn pair_items(items: Seq<Seq<u8>>) -> Seq<Seq<u8>>
    decreases items.len(),
{
    if items.len() < 2 {
        Seq::empty()
    } else {
        seq![items[0] + ascii8(": "@) + items[1]] + pair_items(items.skip(2))
    }
}

/// What decoding returns for one encoded term: the rendering, or the text
/// of a local decode error.
pub open spec fn spec_decode(env: DecodeEnv, s: Seq<u8>, depth: nat) -> Result<Seq<u8>, Seq<u8>>
    decreases env.max + 2 - depth, 0nat, 0nat,
{
    if depth > env.max {
        Ok(ascii8("(*"@) + s + ascii8(")"@))
    } else {
        let d = (depth + 1) as nat;
        if s.len() == 0 {
            Ok(unknown_msg(s, d))
        } else {
            let c = s[0];
            if c == 't' as u8 {
                spec_tuple(env, s, d)
            } else if c == 'A' as u8 {
                match split2(s, ':' as u8).1 {
                    Some(rest) => Ok(rest),
                    None => Ok(Seq::empty()),
                }
            } else if c == 'I' as u8 {
                match parse_i64(s.skip(1)) {
                    Some(n) => Ok(dec_seq_signed(n as int)),
                    None => Err(ascii8("Invalid integer format: "@) + s),
                }
            } else if c == 'N' as u8 {
                Ok(Seq::empty())
            } else if c == 'l' as u8 {
                spec_list(env, s, d)
            } else if c == 'H' as u8 {
                let addr = s.skip(1);
                if unresolved(env.amap, addr) {
                    Ok(ascii8("*U - "@) + addr)
                } else {
                    spec_decode(env, env.amap[parse_hex(addr)->Some_0], d)
                }
            } else if c == 'E' as u8 {
                spec_encoded(s)
            } else if c == 'B' as u8 {
                let rest = if has_prefix(s, ascii8("B16#"@)) || has_prefix(
                    s,
                    ascii8("B-16#"@),
                ) {
                    s.skip(4)
                } else {
                    s.skip(1)
                };
                Ok(ascii8("[bignum size: "@) + dec_seq(rest.len() as int) + ascii8("]"@))
            } else if c == 'F' as u8 {
                spec_float(s)
            } else if c == 'P' as u8 {
                Ok(ascii8("[external pid: "@) + s.skip(1) + ascii8("]"@))
            } else if c == 'p' as u8 {
                Ok(ascii8("[external port: "@) + s.skip(1) + ascii8("]"@))
            } else if c == 'Y' as u8 {
                spec_binary(env.bmap, s)
            } else if c == 'M' as u8 {
                if s.len() < 2 {
                    Err(ascii8("Invalid map type: "@) + s)
                } else if s[1] == 'f' as u8 {
                    spec_flatmap(env, s, d)
                } else if s[1] == 'h' as u8 {
                    spec_maphead(env, s, d)
                } else if s[1] == 'n' as u8 {
                    spec_mapint(env, s, d)
                } else {
                    Err(ascii8("Invalid map type: "@) + s)
                }
            } else if c == 'R' as u8 {
                let body = if s.len() >= 2 {
                    s.skip(2)
                } else {
                    Seq::<u8>::empty()
                };
                Ok(ascii8("[fun ref: "@) + body + ascii8("]"@))
            } else if c == 'S' as u8 {
                match split2(s, ':' as u8).1 {
                    Some(rest) => Ok(rest),
                    None => Ok(Seq::empty()),
                }
            } else {
                Ok(unknown_msg(s, d))
            }
        }
    }
}

/// Tuple rendering: hex arity (unused beyond validation), `:`, then the
/// comma-separated elements inside braces.
pub open spec fn spec_tuple(env: DecodeEnv, s: Seq<u8>, d: nat) -> Result<Seq<u8>, Seq<u8>>
    decreases env.max + 2 - d, 2nat, 0nat,
{
    let body = s.skip(1);
    let i = first_non_hex(body);
    if i < body.len() && body[i] != ':' as u8 {
        Err(ascii8("Invalid tuple size format: "@) + s)
    } else {
        let remaining = if i < body.len() {
            body.skip(i + 1)
        } else {
            Seq::<u8>::empty()
        };
        match spec_decode_each(env, split_all(remaining, ',' as u8), d) {
            Err(e) => Err(e),
            Ok(items) => Ok(ascii8("{"@) + join(items, ascii8(", "@)) + ascii8("}"@)),
        }
    }
}

/// List rendering: `|`-separated elements in brackets.  A bare `N` tail is
/// the end of the list; an unresolvable heap-reference tail renders the
/// heap-truncated marker instead of an element.
pub open spec fn spec_list(env: DecodeEnv, s: Seq<u8>, d: nat) -> Result<Seq<u8>, Seq<u8>>
    decreases env.max + 2 - d, 2nat, 0nat,
{
    let parts = split_all(s.skip(1), '|' as u8);
    let tail = parts.last();
    if tail == seq!['N' as u8] {
        match spec_decode_each(env, parts.drop_last(), d) {
            Err(e) => Err(e),
            Ok(items) => Ok(ascii8("["@) + join(items, ascii8(", "@)) + ascii8("]"@)),
        }
    } else if tail.len() >= 1 && tail[0] == 'H' as u8 && unresolved(env.amap, tail.skip(1)) {
        match spec_decode_each(env, parts.drop_last(), d) {
            Err(e) => Err(e),
            Ok(items) => Ok(
                ascii8("["@) + join(items, ascii8(", "@)) + ascii8("...< heap truncated >"@)
                    + ascii8("]"@),
            ),
        }
    } else {
        match spec_decode_each(env, parts, d) {
            Err(e) => Err(e),
            Ok(items) => Ok(ascii8("["@) + join(items, ascii8(", "@)) + ascii8("]"@)),
        }
    }
}

/// External term `E<hexlen>:<payload>`: only the length is rendered.
pub open spec fn spec_encoded(s: Seq<u8>) -> Result<Seq<u8>, Seq<u8>> {
    let body = s.skip(1);
    match split2(body, ':' as u8).1 {
        None => Err(ascii8("Invalid heap binary format: "@) + body),
        Some(_) => match parse_hex(split2(body, ':' as u8).0) {
            Some(len) => Ok(ascii8("<<bin size "@) + dec_seq(len as int) + ascii8(">>"@)),
            None => Err(ascii8("Invalid heap binary format: "@) + body),
        },
    }
}

/// Float `F<hexlen>:<repr>`: the length must match the representation.
pub open spec fn spec_float(s: Seq<u8>) -> Result<Seq<u8>, Seq<u8>> {
    let body = s.skip(1);
    match split2(body, ':' as u8).1 {
        None => Err(ascii8("Invalid float format: "@) + s),
        Some(fl) => match parse_hex(split2(body, ':' as u8).0) {
            None => Err(ascii8("Invalid float format: "@) + s),
            Some(len) => if len as int != fl.len() {
                Err(
                    ascii8("Float length mismatch: expected "@) + dec_seq(len as int) + ascii8(
                        ", got "@,
                    ) + dec_seq(fl.len() as int),
                )
            } else {
                Ok(ascii8("[float: "@) + fl + ascii8("]"@))
            },
        },
    }
}

/// Binary terms: `Yh:<bytes>` inline, `Yc<addr>:<off>:<sz>` ref-counted
/// (length looked up), `Ys<addr>:<off>:<sz>` sub-binary (bounds-checked
/// against the parent length).
pub open spec fn spec_binary(bmap: Map<u64, u64>, s: Seq<u8>) -> Result<Seq<u8>, Seq<u8>> {
    if s.len() < 2 {
        Err(ascii8("Invalid binary type: "@) + s)
    } else if s[1] == 'h' as u8 {
        let body = if s.len() >= 3 {
            s.skip(3)
        } else {
            Seq::<u8>::empty()
        };
        Ok(ascii8("[heap binary: "@) + body + ascii8("]"@))
    } else if s[1] == 'c' as u8 {
        let parts = split_all(s.skip(2), ':' as u8);
        if parts.len() != 3 {
            Err(ascii8("Invalid reference-counted binary format: "@) + s)
        } else {
            match (parse_hex(parts[0]), parse_hex(parts[1]), parse_hex(parts[2])) {
                (Some(a), Some(o), Some(z)) => if bmap.contains_key(a) {
                    Ok(
                        ascii8("[ref-counted binary: binp0=0x"@) + hex_seq(a as int) + ascii8(
                            ", offset="@,
                        ) + dec_seq(o as int) + ascii8(", sz="@) + dec_seq(z as int) + ascii8(
                            ", len="@,
                        ) + dec_seq(bmap[a] as int) + ascii8("]"@),
                    )
                } else {
                    Ok(
                        ascii8("[ref-counted binary: binp0=0x"@) + hex_seq(a as int) + ascii8(
                            ", offset="@,
                        ) + dec_seq(o as int) + ascii8(", sz="@) + dec_seq(z as int) + ascii8(
                            ", not found]"@,
                        ),
                    )
                },
                _ => Err(ascii8("Invalid reference-counted binary format: "@) + s),
            }
        }
    } else if s[1] == 's' as u8 {
        let parts = split_all(s.skip(2), ':' as u8);
        if parts.len() != 3 {
            Err(ascii8("Invalid sub binary format: "@) + s)
        } else {
            match (parse_hex(parts[0]), parse_hex(parts[1]), parse_hex(parts[2])) {
                (Some(a), Some(o), Some(z)) => if bmap.contains_key(a) {
                    if o + z > bmap[a] {
                        Err(
                            ascii8("Sub binary out of bounds: start="@) + dec_seq(o as int)
                                + ascii8(", end="@) + dec_seq(o + z) + ascii8(", len="@) + dec_seq(
                                bmap[a] as int,
                            ),
                        )
                    } else {
                        Ok(
                            ascii8("[sub binary: binp0=0x"@) + hex_seq(a as int) + ascii8(
                                ", offset="@,
                            ) + dec_seq(o as int) + ascii8(", sz="@) + dec_seq(z as int) + ascii8(
                                ", start="@,
                            ) + dec_seq(o as int) + ascii8(", end="@) + dec_seq(o + z) + ascii8(
                                "]"@,
                            ),
                        )
                    }
                } else {
                    Ok(
                        ascii8("[sub binary: binp0=0x"@) + hex_seq(a as int) + ascii8(", offset="@)
                            + dec_seq(o as int) + ascii8(", sz="@) + dec_seq(z as int) + ascii8(
                            ", not found]"@,
                        ),
                    )
                },
                _ => Err(ascii8("Invalid sub binary format: "@) + s),
            }
        }
    } else {
        Err(ascii8("Invalid binary type: "@) + s)
    }
}

/// Flatmap `Mf<hexsize>:<k1>:<v1>:...`: `2 * size` colon-separated entries,
/// rendered as `key: value` pairs.
pub open spec fn spec_flatmap(env: DecodeEnv, s: Seq<u8>, d: nat) -> Result<Seq<u8>, Seq<u8>>
    decreases env.max + 2 - d, 2nat, 0nat,
{
    let body = s.skip(2);
    let i = first_ix(body, ':' as u8);
    if i >= body.len() {
        Err(ascii8("Invalid flatmap format: "@) + s)
    } else {
        match parse_hex(body.take(i)) {
            None => Err(ascii8("Invalid flatmap format: "@) + s),
            Some(size) => if size == 0 {
                Ok(ascii8("[flatmap: size="@) + dec_seq(0) + ascii8(", {"@) + ascii8("}]"@))
            } else {
                let parts = split_all(body.skip(i + 1), ':' as u8);
                if parts.len() != 2 * size {
                    Err(ascii8("Invalid flatmap format: "@) + s)
                } else {
                    match spec_decode_each(env, parts, d) {
                        Err(e) => Err(e),
                        Ok(items) => Ok(
                            ascii8("[flatmap: size="@) + dec_seq(size as int) + ascii8(", {"@)
                                + join(pair_items(items), ascii8(", "@)) + ascii8("}]"@),
                        ),
                    }
                }
            },
        }
    }
}

/// Hashmap head `Mh<hexsize>:<n>|<node1>|...`: the nodes after the first
/// `|`-separated field are rendered in order.
pub open spec fn spec_maphead(env: DecodeEnv, s: Seq<u8>, d: nat) -> Result<Seq<u8>, Seq<u8>>
    decreases env.max + 2 - d, 2nat, 0nat,
{
    let body = s.skip(2);
    let i = first_ix(body, ':' as u8);
    if i >= body.len() {
        Err(ascii8("Invalid hashmap head node format: "@) + s)
    } else {
        match parse_hex(body.take(i)) {
            None => Err(ascii8("Invalid hashmap head node format: "@) + s),
            Some(size) => {
                let parts = split_all(body.skip(i + 1), '|' as u8);
                match parse_hex(parts[0]) {
                    None => Err(ascii8("Invalid hashmap head node format: "@) + s),
                    Some(_) => match spec_decode_each(env, parts.drop_first(), d) {
                        Err(e) => Err(e),
                        Ok(items) => Ok(
                            ascii8("[hashmap head: size="@) + dec_seq(size as int) + ascii8(
                                ", nodes=["@,
                            ) + join(items, ascii8(", "@)) + ascii8("]]"@),
                        ),
                    },
                }
            },
        }
    }
}

/// Hashmap interior node `Mn<n>|<node1>|...`.
pub open spec fn spec_mapint(env: DecodeEnv, s: Seq<u8>, d: nat) -> Result<Seq<u8>, Seq<u8>>
    decreases env.max + 2 - d, 2nat, 0nat,
{
    let parts = split_all(s.skip(2), '|' as u8);
    match parse_hex(parts[0]) {
        None => Err(ascii8("Invalid hashmap interior node format: "@) + s),
        Some(_) => match spec_decode_each(env, parts.drop_first(), d) {
            Err(e) => Err(e),
            Ok(items) => Ok(
                ascii8("[hashmap interior: nodes=["@) + join(items, ascii8(", "@)) + ascii8("]]"@),
            ),
        },
    }
}

/// Decode every part in order; the first error wins.
pub open spec fn spec_decode_each(env: DecodeEnv, parts: Seq<Seq<u8>>, d: nat) -> Result<
    Seq<Seq<u8>>,
    Seq<u8>,
>
    decreases env.max + 2 - d, 1nat, parts.len(),
{
    if parts.len() == 0 {
        Ok(Seq::empty())
    } else {
        match spec_decode(env, parts[0], d) {
            Err(e) => Err(e),
            Ok(r) => match spec_decode_each(env, parts.drop_first(), d) {
                Err(e) => Err(e),
                Ok(rs) => Ok(seq![r] + rs),
            },
        }
    }
}


broadcast use vstd::std_specs::hash::group_hash_axioms;

/// A locally recovered decode failure, carrying its rendered message.
#[derive(Debug, PartialEq, Eq)]
pub struct DecodeError {
    pub msg: Vec<u8>,
}

/// The view a decode result has in contracts.
pub open spec fn res_view(r: Result<Vec<u8>, DecodeError>) -> Result<Seq<u8>, Seq<u8>> {
    match r {
        Ok(v) => Ok(v@),
        Err(e) => Err(e.msg@),
    }
}

pub open spec fn items_view(r: Result<Vec<Vec<u8>>, DecodeError>) -> Result<
    Seq<Seq<u8>>,
    Seq<u8>,
> {
    match r {
        Ok(v) => Ok(views(v@)),
        Err(e) => Err(e.msg@),
    }
}

/// The decode context built from the executable maps.
pub open spec fn env_of(amap: Map<u64, Vec<u8>>, bmap: Map<u64, u64>, max: nat) -> DecodeEnv {
    DecodeEnv { amap: amap.map_values(|v: Vec<u8>| v@), bmap, max }
}

fn mk_err(p: &str, data: &[u8]) -> (r: DecodeError)
    requires
        vstd::string::is_ascii(p),
    ensures
        r.msg@ == ascii8(p@) + data@,
{
    let mut m = lit(p);
    push_all(&mut m, data);
    DecodeError { msg: m }
}

fn wrap3(pre: Vec<u8>, mid: &[u8], post: Vec<u8>) -> (r: Vec<u8>)
    ensures
        r@ == pre@ + mid@ + post@,
{
    let mut v = pre;
    push_all(&mut v, mid);
    push_all(&mut v, post.as_slice());
    v
}

fn unknown_term(data: &[u8], d: usize) -> (r: Vec<u8>)
    ensures
        r@ == unknown_msg(data@, d as nat),
{
    proof {
        reveal_strlit("---don't know how to parse ");
        reveal_strlit(" at depth ");
        reveal_strlit("---");
    }
    let mut v = lit("---don't know how to parse ");
    push_all(&mut v, data);
    push_all(&mut v, lit(" at depth ").as_slice());
    let ds = u64_to_dec(d as u64);
    push_all(&mut v, ds.as_slice());
    push_all(&mut v, lit("---").as_slice());
    v
}

fn is_unresolved(amap: &HashMap<u64, Vec<u8>>, addr: &[u8]) -> (r: bool)
    ensures
        r == unresolved(amap@.map_values(|v: Vec<u8>| v@), addr@),
{
    match parse_hex_u64(addr) {
        Some(a) => !amap.contains_key(&a),
        None => true,
    }
}

/// Index of the first non-hex-digit byte, as executable code.
pub fn find_non_hex(s: &[u8]) -> (r: usize)
    ensures
        r <= s@.len(),
        r == first_non_hex(s@),
{
    let mut i: usize = 0;
    while i < s.len()
        invariant
            i <= s@.len(),
            forall|j: int| 0 <= j < i ==> is_hex_digit(s@[j]),
        decreases s@.len() - i,
    {
        let b = s[i];
        if !((48 <= b && b <= 57) || (97 <= b && b <= 102) || (65 <= b && b <= 70)) {
            proof {
                lemma_first_non_hex_is(s@, i as int);
            }
            return i;
        }
        i = i + 1;
    }
    proof {
        lemma_first_non_hex_is(s@, i as int);
    }
    i
}

/// Render decoded flatmap items pairwise, as executable code.
fn make_pairs(items: &Vec<Vec<u8>>) -> (r: Vec<Vec<u8>>)
    ensures
        views(r@) == pair_items(views(items@)),
{
    let ghost ps = views(items@);
    let mut r: Vec<Vec<u8>> = Vec::new();
    let mut i: usize = 0;
    proof {
        reveal_strlit(": ");
        assert(ps.skip(0) =~= ps);
        assert(views(r@) =~= Seq::<Seq<u8>>::empty());
        assert(pair_items(ps) =~= views(r@) + pair_items(ps.skip(0)));
    }
    while i < items.len() && i + 1 < items.len()
        invariant
            i <= items@.len(),
            ps == views(items@),
            pair_items(ps) == views(r@) + pair_items(ps.skip(i as int)),
        decreases items@.len() - i,
    {
        let mut p = vstd::slice::slice_to_vec(items[i].as_slice());
        proof {
            reveal_strlit(": ");
        }
        push_all(&mut p, lit(": ").as_slice());
        push_all(&mut p, items[i + 1].as_slice());
        proof {
            assert(ps.skip(i as int)[0] == items@[i as int]@);
            assert(ps.skip(i as int)[1] == items@[i + 1]@);
            assert(ps.skip(i as int).skip(2) =~= ps.skip(i + 2));
            lemma_views_push_pairs(r@, p, ps, i as int);
        }
        r.push(p);
        i = i + 2;
    }
    proof {
        assert(ps.skip(i as int).len() < 2);
        assert(views(r@) + pair_items(ps.skip(i as int)) =~= views(r@));
    }
    r
}

proof fn lemma_views_push_pairs(rs: Seq<Vec<u8>>, p: Vec<u8>, ps: Seq<Seq<u8>>, i: int)
    requires
        0 <= i,
        i + 2 <= ps.len(),
        p@ == ps[i] + ascii8(": "@) + ps[i + 1],
        ps.skip(i).skip(2) == ps.skip(i + 2),
    ensures
        views(rs) + pair_items(ps.skip(i)) == views(rs.push(p)) + pair_items(ps.skip(i + 2)),
{
    crate::bytes::lemma_views_push(rs, p);
    assert(ps.skip(i)[0] == ps[i]);
    assert(ps.skip(i)[1] == ps[i + 1]);
    assert(pair_items(ps.skip(i)) == seq![ps[i] + ascii8(": "@) + ps[i + 1]] + pair_items(
        ps.skip(i + 2),
    ));
    assert(views(rs) + (seq![p@] + pair_items(ps.skip(i + 2))) =~= views(rs).push(p@)
        + pair_items(ps.skip(i + 2)));
}

/// Decode of the binary forms `Yh`, `Yc`, `Ys`.
fn parse_binary(bmap: &HashMap<u64, u64>, data: &[u8]) -> (r: Result<Vec<u8>, DecodeError>)
    ensures
        res_view(r) == spec_binary(bmap@, data@),
{
    proof {
        reveal_strlit("Invalid binary type: ");
    }
    if data.len() < 2 {
        return Err(mk_err("Invalid binary type: ", data));
    }
    let k = data[1];
    if k == 'h' as u8 {
        proof {
            reveal_strlit("[heap binary: ");
            reveal_strlit("]");
        }
        let body = if data.len() >= 3 {
            let b = &data[3..data.len()];
            proof {
                assert(b@ =~= data@.skip(3));
            }
            b
        } else {
            let b = &data[0..0];
            proof {
                assert(b@ =~= Seq::<u8>::empty());
            }
            b
        };
        Ok(wrap3(lit("[heap binary: "), body, lit("]")))
    } else if k == 'c' as u8 {
        proof {
            reveal_strlit("Invalid reference-counted binary format: ");
        }
        let rest = &data[2..data.len()];
        proof {
            assert(rest@ =~= data@.skip(2));
        }
        let parts = split_list(rest, ':' as u8);
        if parts.len() != 3 {
            return Err(mk_err("Invalid reference-counted binary format: ", data));
        }
        proof {
            assert(views(parts@)[0] == parts@[0]@);
            assert(views(parts@)[1] == parts@[1]@);
            assert(views(parts@)[2] == parts@[2]@);
        }
        let pa = parse_hex_u64(parts[0].as_slice());
        let po = parse_hex_u64(parts[1].as_slice());
        let pz = parse_hex_u64(parts[2].as_slice());
        match (pa, po, pz) {
            (Some(a), Some(o), Some(z)) => {
                proof {
                    reveal_strlit("[ref-counted binary: binp0=0x");
                    reveal_strlit(", offset=");
                    reveal_strlit(", sz=");
                    reveal_strlit(", len=");
                    reveal_strlit(", not found]");
                    reveal_strlit("]");
                }
                let mut out = lit("[ref-counted binary: binp0=0x");
                push_all(&mut out, u64_to_hex(a).as_slice());
                push_all(&mut out, lit(", offset=").as_slice());
                push_all(&mut out, u64_to_dec(o).as_slice());
                push_all(&mut out, lit(", sz=").as_slice());
                push_all(&mut out, u64_to_dec(z).as_slice());
                match bmap.get(&a) {
                    Some(len) => {
                        push_all(&mut out, lit(", len=").as_slice());
                        push_all(&mut out, u64_to_dec(*len).as_slice());
                        push_all(&mut out, lit("]").as_slice());
                    },
                    None => {
                        push_all(&mut out, lit(", not found]").as_slice());
                    },
                }
                Ok(out)
            },
            _ => Err(mk_err("Invalid reference-counted binary format: ", data)),
        }
    } else if k == 's' as u8 {
        proof {
            reveal_strlit("Invalid sub binary format: ");
        }
        let rest = &data[2..data.len()];
        proof {
            assert(rest@ =~= data@.skip(2));
        }
        let parts = split_list(rest, ':' as u8);
        if parts.len() != 3 {
            return Err(mk_err("Invalid sub binary format: ", data));
        }
        proof {
            assert(views(parts@)[0] == parts@[0]@);
            assert(views(parts@)[1] == parts@[1]@);
            assert(views(parts@)[2] == parts@[2]@);
        }
        let pa = parse_hex_u64(parts[0].as_slice());
        let po = parse_hex_u64(parts[1].as_slice());
        let pz = parse_hex_u64(parts[2].as_slice());
        match (pa, po, pz) {
            (Some(a), Some(o), Some(z)) => {
                match bmap.get(&a) {
                    Some(len_ref) => {
                        let len = *len_ref;
                        if o > len || z > len - o {
                            proof {
                                reveal_strlit("Sub binary out of bounds: start=");
                                reveal_strlit(", end=");
                                reveal_strlit(", len=");
                            }
                            let end: u128 = o as u128 + z as u128;
                            let mut m = lit("Sub binary out of bounds: start=");
                            push_all(&mut m, u64_to_dec(o).as_slice());
                            push_all(&mut m, lit(", end=").as_slice());
                            push_all(&mut m, u128_to_dec(end).as_slice());
                            push_all(&mut m, lit(", len=").as_slice());
                            push_all(&mut m, u64_to_dec(len).as_slice());
                            Err(DecodeError { msg: m })
                        } else {
                            proof {
                                reveal_strlit("[sub binary: binp0=0x");
                                reveal_strlit(", offset=");
                                reveal_strlit(", sz=");
                                reveal_strlit(", start=");
                                reveal_strlit(", end=");
                                reveal_strlit("]");
                            }
                            let mut out = lit("[sub binary: binp0=0x");
                            push_all(&mut out, u64_to_hex(a).as_slice());
                            push_all(&mut out, lit(", offset=").as_slice());
                            push_all(&mut out, u64_to_dec(o).as_slice());
                            push_all(&mut out, lit(", sz=").as_slice());
                            push_all(&mut out, u64_to_dec(z).as_slice());
                            push_all(&mut out, lit(", start=").as_slice());
                            push_all(&mut out, u64_to_dec(o).as_slice());
                            push_all(&mut out, lit(", end=").as_slice());
                            push_all(&mut out, u64_to_dec(o + z).as_slice());
                            push_all(&mut out, lit("]").as_slice());
                            Ok(out)
                        }
                    },
                    None => {
                        proof {
                            reveal_strlit("[sub binary: binp0=0x");
                            reveal_strlit(", offset=");
                            reveal_strlit(", sz=");
                            reveal_strlit(", not found]");
                        }
                        let mut out = lit("[sub binary: binp0=0x");
                        push_all(&mut out, u64_to_hex(a).as_slice());
                        push_all(&mut out, lit(", offset=").as_slice());
                        push_all(&mut out, u64_to_dec(o).as_slice());
                        push_all(&mut out, lit(", sz=").as_slice());
                        push_all(&mut out, u64_to_dec(z).as_slice());
                        push_all(&mut out, lit(", not found]").as_slice());
                        Ok(out)
                    },
                }
            },
            _ => Err(mk_err("Invalid sub binary format: ", data)),
        }
    } else {
        Err(mk_err("Invalid binary type: ", data))
    }
}

/// Decode of the float form `F<hexlen>:<repr>`.
fn parse_float(data: &[u8]) -> (r: Result<Vec<u8>, DecodeError>)
    requires
        data@.len() >= 1,
    ensures
        res_view(r) == spec_float(data@),
{
    proof {
        reveal_strlit("Invalid float format: ");
    }
    let body = &data[1..data.len()];
    proof {
        assert(body@ =~= data@.skip(1));
    }
    let (len_s, rest) = split2_slice(body, ':' as u8);
    match rest {
        None => Err(mk_err("Invalid float format: ", data)),
        Some(fl) => {
            match parse_hex_u64(len_s) {
                None => Err(mk_err("Invalid float format: ", data)),
                Some(len) => {
                    if len != fl.len() as u64 {
                        proof {
                            reveal_strlit("Float length mismatch: expected ");
                            reveal_strlit(", got ");
                        }
                        let mut m = lit("Float length mismatch: expected ");
                        push_all(&mut m, u64_to_dec(len).as_slice());
                        push_all(&mut m, lit(", got ").as_slice());
                        push_all(&mut m, u64_to_dec(fl.len() as u64).as_slice());
                        Err(DecodeError { msg: m })
                    } else {
                        proof {
                            reveal_strlit("[float: ");
                            reveal_strlit("]");
                        }
                        Ok(wrap3(lit("[float: "), fl, lit("]")))
                    }
                },
            }
        },
    }
}

/// Decode of the external-term form `E<hexlen>:<payload>`.
fn parse_encoded(data: &[u8]) -> (r: Result<Vec<u8>, DecodeError>)
    requires
        data@.len() >= 1,
    ensures
        res_view(r) == spec_encoded(data@),
{
    proof {
        reveal_strlit("Invalid heap binary format: ");
    }
    let body = &data[1..data.len()];
    proof {
        assert(body@ =~= data@.skip(1));
    }
    let (len_s, rest) = split2_slice(body, ':' as u8);
    match rest {
        None => Err(mk_err("Invalid heap binary format: ", body)),
        Some(_) => {
            match parse_hex_u64(len_s) {
                None => Err(mk_err("Invalid heap binary format: ", body)),
                Some(len) => {
                    proof {
                        reveal_strlit("<<bin size ");
                        reveal_strlit(">>");
                    }
                    let mut out = lit("<<bin size ");
                    push_all(&mut out, u64_to_dec(len).as_slice());
                    push_all(&mut out, lit(">>").as_slice());
                    Ok(out)
                },
            }
        },
    }
}


/// Decode each part in order; the first error wins.
fn decode_each(
    amap: &HashMap<u64, Vec<u8>>,
    bmap: &HashMap<u64, u64>,
    max_depth: usize,
    parts: &Vec<Vec<u8>>,
    depth: usize,
) -> (r: Result<Vec<Vec<u8>>, DecodeError>)
    requires
        max_depth < usize::MAX,
        depth <= max_depth + 1,
    ensures
        items_view(r) == spec_decode_each(
            env_of(amap@, bmap@, max_depth as nat),
            views(parts@),
            depth as nat,
        ),
    decreases max_depth + 2 - depth, 1int,
{
    let ghost env = env_of(amap@, bmap@, max_depth as nat);
    let ghost ps = views(parts@);
    let ghost dn = depth as nat;
    let mut items: Vec<Vec<u8>> = Vec::new();
    let mut i: usize = 0;
    proof {
        assert(ps.skip(0) =~= ps);
        assert(views(items@) =~= Seq::<Seq<u8>>::empty());
        assert(match spec_decode_each(env, ps.skip(0), dn) {
            Ok(rest) => views(items@) + rest =~= rest,
            Err(_) => true,
        });
    }
    while i < parts.len()
        invariant
            max_depth < usize::MAX,
            depth <= max_depth + 1,
            i <= parts@.len(),
            env == env_of(amap@, bmap@, max_depth as nat),
            ps == views(parts@),
            dn == depth as nat,
            spec_decode_each(env, ps, dn) == match spec_decode_each(env, ps.skip(i as int), dn) {
                Ok(rest) => Ok::<Seq<Seq<u8>>, Seq<u8>>(views(items@) + rest),
                Err(e) => Err::<Seq<Seq<u8>>, Seq<u8>>(e),
            },
        decreases parts@.len() - i,
    {
        proof {
            assert(ps.skip(i as int)[0] == parts@[i as int]@);
            assert(ps.skip(i as int).drop_first() =~= ps.skip(i + 1));
        }
        match decode_term(amap, bmap, max_depth, parts[i].as_slice(), depth) {
            Err(e) => {
                proof {
                    assert(spec_decode_each(env, ps.skip(i as int), dn) == Err::<
                        Seq<Seq<u8>>,
                        Seq<u8>,
                    >(e.msg@));
                }
                return Err(e);
            },
            Ok(rv) => {
                proof {
                    crate::bytes::lemma_views_push(items@, rv);
                    let r2 = spec_decode_each(env, ps.skip(i + 1), dn);
                    match r2 {
                        Ok(rest) => {
                            assert(views(items@) + (seq![rv@] + rest) =~= views(items@).push(rv@)
                                + rest);
                        },
                        Err(_) => {},
                    }
                }
                items.push(rv);
                i = i + 1;
            },
        }
    }
    proof {
        assert(ps.skip(i as int) =~= Seq::<Seq<u8>>::empty());
        assert(spec_decode_each(env, ps.skip(i as int), dn) == Ok::<Seq<Seq<u8>>, Seq<u8>>(
            Seq::empty(),
        ));
        assert(views(items@) + Seq::<Seq<u8>>::empty() =~= views(items@));
    }
    Ok(items)
}

/// Decode of the tuple form `t<hexsize>:<e1>,<e2>,...`.
fn parse_tuple(
    amap: &HashMap<u64, Vec<u8>>,
    bmap: &HashMap<u64, u64>,
    max_depth: usize,
    data: &[u8],
    d: usize,
) -> (r: Result<Vec<u8>, DecodeError>)
    requires
        max_depth < usize::MAX,
        d <= max_depth + 1,
        data@.len() >= 1,
    ensures
        res_view(r) == spec_tuple(env_of(amap@, bmap@, max_depth as nat), data@, d as nat),
    decreases max_depth + 2 - d, 2int,
{
    let body = &data[1..data.len()];
    proof {
        assert(body@ =~= data@.skip(1));
    }
    let i = find_non_hex(body);
    if i < body.len() {
        if body[i] != ':' as u8 {
            proof {
                reveal_strlit("Invalid tuple size format: ");
            }
            return Err(mk_err("Invalid tuple size format: ", data));
        }
    }
    let remaining: &[u8] = if i < body.len() {
        let t = &body[i + 1..body.len()];
        proof {
            assert(t@ =~= body@.skip(i + 1));
        }
        t
    } else {
        let t = &body[0..0];
        proof {
            assert(t@ =~= Seq::<u8>::empty());
        }
        t
    };
    let parts = split_list(remaining, ',' as u8);
    match decode_each(amap, bmap, max_depth, &parts, d) {
        Err(e) => Err(e),
        Ok(items) => {
            proof {
                reveal_strlit("{");
                reveal_strlit("}");
                reveal_strlit(", ");
            }
            let j = join_list(&items, lit(", ").as_slice());
            Ok(wrap3(lit("{"), j.as_slice(), lit("}")))
        },
    }
}

/// Decode of the cons-list form `l<e1>|<e2>|...|<tail>`.
fn parse_list(
    amap: &HashMap<u64, Vec<u8>>,
    bmap: &HashMap<u64, u64>,
    max_depth: usize,
    data: &[u8],
    d: usize,
) -> (r: Result<Vec<u8>, DecodeError>)
    requires
        max_depth < usize::MAX,
        d <= max_depth + 1,
        data@.len() >= 1,
    ensures
        res_view(r) == spec_list(env_of(amap@, bmap@, max_depth as nat), data@, d as nat),
    decreases max_depth + 2 - d, 2int,
{
    let rest = &data[1..data.len()];
    proof {
        assert(rest@ =~= data@.skip(1));
    }
    let mut parts = split_list(rest, '|' as u8);
    let ghost ps = views(parts@);
    let li = parts.len() - 1;
    proof {
        assert(ps.last() == parts@[li as int]@);
    }
    let tail_is_nil = parts[li].len() == 1 && parts[li].as_slice()[0] == 'N' as u8;
    proof {
        if tail_is_nil {
            assert(ps.last() =~= seq!['N' as u8]);
        } else {
            if parts@[li as int]@.len() == 1 {
                assert(ps.last()[0] != 'N' as u8);
            }
            assert(ps.last() != seq!['N' as u8]);
        }
    }
    let tail_trunc: bool = if !tail_is_nil && parts[li].len() >= 1 && parts[li].as_slice()[0]
        == 'H' as u8 {
        let tl = parts[li].as_slice();
        let addr = &tl[1..tl.len()];
        proof {
            assert(addr@ =~= ps.last().skip(1));
        }
        is_unresolved(amap, addr)
    } else {
        false
    };
    let drop_tail = tail_is_nil || tail_trunc;
    if drop_tail {
        parts.pop();
        proof {
            assert(views(parts@) =~= ps.drop_last());
        }
    }
    match decode_each(amap, bmap, max_depth, &parts, d) {
        Err(e) => Err(e),
        Ok(items) => {
            proof {
                reveal_strlit("[");
                reveal_strlit("]");
                reveal_strlit(", ");
                reveal_strlit("...< heap truncated >");
            }
            let mut out = lit("[");
            let j = join_list(&items, lit(", ").as_slice());
            push_all(&mut out, j.as_slice());
            if tail_trunc {
                push_all(&mut out, lit("...< heap truncated >").as_slice());
            }
            push_all(&mut out, lit("]").as_slice());
            Ok(out)
        },
    }
}

/// Decode of the flatmap form `Mf<hexsize>:<k1>:<v1>:...`.
fn parse_flatmap(
    amap: &HashMap<u64, Vec<u8>>,
    bmap: &HashMap<u64, u64>,
    max_depth: usize,
    data: &[u8],
    d: usize,
) -> (r: Result<Vec<u8>, DecodeError>)
    requires
        max_depth < usize::MAX,
        d <= max_depth + 1,
        data@.len() >= 2,
    ensures
        res_view(r) == spec_flatmap(env_of(amap@, bmap@, max_depth as nat), data@, d as nat),
    decreases max_depth + 2 - d, 2int,
{
    proof {
        reveal_strlit("Invalid flatmap format: ");
    }
    let body = &data[2..data.len()];
    proof {
        assert(body@ =~= data@.skip(2));
    }
    let i = find_from(body, 0, ':' as u8);
    proof {
        assert(body@.skip(0) =~= body@);
    }
    if i >= body.len() {
        return Err(mk_err("Invalid flatmap format: ", data));
    }
    let size_s = &body[0..i];
    proof {
        assert(size_s@ =~= body@.take(i as int));
    }
    match parse_hex_u64(size_s) {
        None => Err(mk_err("Invalid flatmap format: ", data)),
        Some(size) => {
            proof {
                reveal_strlit("[flatmap: size=");
                reveal_strlit(", {");
                reveal_strlit("}]");
                reveal_strlit(", ");
            }
            if size == 0 {
                let mut out = lit("[flatmap: size=");
                push_all(&mut out, u64_to_dec(0).as_slice());
                push_all(&mut out, lit(", {").as_slice());
                push_all(&mut out, lit("}]").as_slice());
                Ok(out)
            } else {
                let rest = &body[i + 1..body.len()];
                proof {
                    assert(rest@ =~= body@.skip(i + 1));
                }
                let parts = split_list(rest, ':' as u8);
                if (parts.len() as u128) != 2u128 * (size as u128) {
                    return Err(mk_err("Invalid flatmap format: ", data));
                }
                match decode_each(amap, bmap, max_depth, &parts, d) {
                    Err(e) => Err(e),
                    Ok(items) => {
                        let pairs = make_pairs(&items);
                        let mut out = lit("[flatmap: size=");
                        push_all(&mut out, u64_to_dec(size).as_slice());
                        push_all(&mut out, lit(", {").as_slice());
                        let j = join_list(&pairs, lit(", ").as_slice());
                        push_all(&mut out, j.as_slice());
                        push_all(&mut out, lit("}]").as_slice());
                        Ok(out)
                    },
                }
            }
        },
    }
}

/// Decode of the hashmap head form `Mh<hexsize>:<n>|<node1>|...`.
fn parse_maphead(
    amap: &HashMap<u64, Vec<u8>>,
    bmap: &HashMap<u64, u64>,
    max_depth: usize,
    data: &[u8],
    d: usize,
) -> (r: Result<Vec<u8>, DecodeError>)
    requires
        max_depth < usize::MAX,
        d <= max_depth + 1,
        data@.len() >= 2,
    ensures
        res_view(r) == spec_maphead(env_of(amap@, bmap@, max_depth as nat), data@, d as nat),
    decreases max_depth + 2 - d, 2int,
{
    proof {
        reveal_strlit("Invalid hashmap head node format: ");
    }
    let body = &data[2..data.len()];
    proof {
        assert(body@ =~= data@.skip(2));
    }
    let i = find_from(body, 0, ':' as u8);
    proof {
        assert(body@.skip(0) =~= body@);
    }
    if i >= body.len() {
        return Err(mk_err("Invalid hashmap head node format: ", data));
    }
    let size_s = &body[0..i];
    proof {
        assert(size_s@ =~= body@.take(i as int));
    }
    match parse_hex_u64(size_s) {
        None => Err(mk_err("Invalid hashmap head node format: ", data)),
        Some(size) => {
            let rest = &body[i + 1..body.len()];
            proof {
                assert(rest@ =~= body@.skip(i + 1));
            }
            let mut parts = split_list(rest, '|' as u8);
            let ghost ps = views(parts@);
            proof {
                assert(ps[0] == parts@[0]@);
            }
            match parse_hex_u64(parts[0].as_slice()) {
                None => Err(mk_err("Invalid hashmap head node format: ", data)),
                Some(_) => {
                    parts.remove(0);
                    proof {
                        assert(views(parts@) =~= ps.drop_first());
                    }
                    match decode_each(amap, bmap, max_depth, &parts, d) {
                        Err(e) => Err(e),
                        Ok(items) => {
                            proof {
                                reveal_strlit("[hashmap head: size=");
                                reveal_strlit(", nodes=[");
                                reveal_strlit("]]");
                                reveal_strlit(", ");
                            }
                            let mut out = lit("[hashmap head: size=");
                            push_all(&mut out, u64_to_dec(size).as_slice());
                            push_all(&mut out, lit(", nodes=[").as_slice());
                            let j = join_list(&items, lit(", ").as_slice());
                            push_all(&mut out, j.as_slice());
                            push_all(&mut out, lit("]]").as_slice());
                            Ok(out)
                        },
                    }
                },
            }
        },
    }
}

/// Decode of the hashmap interior form `Mn<n>|<node1>|...`.
fn parse_mapint(
    amap: &HashMap<u64, Vec<u8>>,
    bmap: &HashMap<u64, u64>,
    max_depth: usize,
    data: &[u8],
    d: usize,
) -> (r: Result<Vec<u8>, DecodeError>)
    requires
        max_depth < usize::MAX,
        d <= max_depth + 1,
        data@.len() >= 2,
    ensures
        res_view(r) == spec_mapint(env_of(amap@, bmap@, max_depth as nat), data@, d as nat),
    decreases max_depth + 2 - d, 2int,
{
    proof {
        reveal_strlit("Invalid hashmap interior node format: ");
    }
    let body = &data[2..data.len()];
    proof {
        assert(body@ =~= data@.skip(2));
    }
    let mut parts = split_list(body, '|' as u8);
    let ghost ps = views(parts@);
    proof {
        assert(ps[0] == parts@[0]@);
    }
    match parse_hex_u64(parts[0].as_slice()) {
        None => Err(mk_err("Invalid hashmap interior node format: ", data)),
        Some(_) => {
            parts.remove(0);
            proof {
                assert(views(parts@) =~= ps.drop_first());
            }
            match decode_each(amap, bmap, max_depth, &parts, d) {
                Err(e) => Err(e),
                Ok(items) => {
                    proof {
                        reveal_strlit("[hashmap interior: nodes=[");
                        reveal_strlit("]]");
                        reveal_strlit(", ");
                    }
                    let mut out = lit("[hashmap interior: nodes=[");
                    let j = join_list(&items, lit(", ").as_slice());
                    push_all(&mut out, j.as_slice());
                    push_all(&mut out, lit("]]").as_slice());
                    Ok(out)
                },
            }
        },
    }
}

/// Decode one encoded term against the frozen address map and binary index,
/// bounded at `max_depth`.  The result is exactly [`spec_decode`] of the
/// input: a pure function of the two maps, the bound and the bytes.
pub fn decode_term(
    amap: &HashMap<u64, Vec<u8>>,
    bmap: &HashMap<u64, u64>,
    max_depth: usize,
    data: &[u8],
    depth: usize,
) -> (r: Result<Vec<u8>, DecodeError>)
    requires
        max_depth < usize::MAX,
    ensures
        res_view(r) == spec_decode(env_of(amap@, bmap@, max_depth as nat), data@, depth as nat),
    decreases max_depth + 2 - depth, 0int,
{
    let ghost env = env_of(amap@, bmap@, max_depth as nat);
    if depth > max_depth {
        proof {
            reveal_strlit("(*");
            reveal_strlit(")");
        }
        return Ok(wrap3(lit("(*"), data, lit(")")));
    }
    let d = depth + 1;
    if data.len() == 0 {
        return Ok(unknown_term(data, d));
    }
    let c = data[0];
    if c == 't' as u8 {
        parse_tuple(amap, bmap, max_depth, data, d)
    } else if c == 'A' as u8 {
        match split2_slice(data, ':' as u8).1 {
            Some(rest) => Ok(vstd::slice::slice_to_vec(rest)),
            None => {
                let v: Vec<u8> = Vec::new();
                proof {
                    assert(v@ =~= Seq::<u8>::empty());
                }
                Ok(v)
            },
        }
    } else if c == 'I' as u8 {
        let body = &data[1..data.len()];
        proof {
            assert(body@ =~= data@.skip(1));
        }
        match parse_i64_bytes(body) {
            Some(n) => Ok(crate::num::i64_to_dec(n)),
            None => {
                proof {
                    reveal_strlit("Invalid integer format: ");
                }
                Err(mk_err("Invalid integer format: ", data))
            },
        }
    } else if c == 'N' as u8 {
        let v: Vec<u8> = Vec::new();
        proof {
            assert(v@ =~= Seq::<u8>::empty());
        }
        Ok(v)
    } else if c == 'l' as u8 {
        parse_list(amap, bmap, max_depth, data, d)
    } else if c == 'H' as u8 {
        let addr = &data[1..data.len()];
        proof {
            assert(addr@ =~= data@.skip(1));
        }
        match parse_hex_u64(addr) {
            Some(a) => {
                match amap.get(&a) {
                    Some(v) => {
                        proof {
                            assert(env.amap.contains_key(a));
                            assert(env.amap[a] == v@);
                        }
                        decode_term(amap, bmap, max_depth, v.as_slice(), d)
                    },
                    None => {
                        proof {
                            reveal_strlit("*U - ");
                            assert(!env.amap.contains_key(a));
                        }
                        let mut out = lit("*U - ");
                        push_all(&mut out, addr);
                        Ok(out)
                    },
                }
            },
            None => {
                proof {
                    reveal_strlit("*U - ");
                }
                let mut out = lit("*U - ");
                push_all(&mut out, addr);
                Ok(out)
            },
        }
    } else if c == 'E' as u8 {
        parse_encoded(data)
    } else if c == 'B' as u8 {
        proof {
            reveal_strlit("B16#");
            reveal_strlit("B-16#");
            reveal_strlit("[bignum size: ");
            reveal_strlit("]");
        }
        let p1 = lit("B16#");
        let p2 = lit("B-16#");
        let skipn: usize = if starts_with(data, p1.as_slice()) || starts_with(
            data,
            p2.as_slice(),
        ) {
            4
        } else {
            1
        };
        let rest = &data[skipn..data.len()];
        proof {
            assert(rest@ =~= data@.skip(skipn as int));
        }
        let mut out = lit("[bignum size: ");
        push_all(&mut out, u64_to_dec(rest.len() as u64).as_slice());
        push_all(&mut out, lit("]").as_slice());
        Ok(out)
    } else if c == 'F' as u8 {
        parse_float(data)
    } else if c == 'P' as u8 {
        proof {
            reveal_strlit("[external pid: ");
            reveal_strlit("]");
        }
        let body = &data[1..data.len()];
        proof {
            assert(body@ =~= data@.skip(1));
        }
        Ok(wrap3(lit("[external pid: "), body, lit("]")))
    } else if c == 'p' as u8 {
        proof {
            reveal_strlit("[external port: ");
            reveal_strlit("]");
        }
        let body = &data[1..data.len()];
        proof {
            assert(body@ =~= data@.skip(1));
        }
        Ok(wrap3(lit("[external port: "), body, lit("]")))
    } else if c == 'Y' as u8 {
        parse_binary(bmap, data)
    } else if c == 'M' as u8 {
        if data.len() < 2 {
            proof {
                reveal_strlit("Invalid map type: ");
            }
            Err(mk_err("Invalid map type: ", data))
        } else {
            let k = data[1];
            if k == 'f' as u8 {
                parse_flatmap(amap, bmap, max_depth, data, d)
            } else if k == 'h' as u8 {
                parse_maphead(amap, bmap, max_depth, data, d)
            } else if k == 'n' as u8 {
                parse_mapint(amap, bmap, max_depth, data, d)
            } else {
                proof {
                    reveal_strlit("Invalid map type: ");
                }
                Err(mk_err("Invalid map type: ", data))
            }
        }
    } else if c == 'R' as u8 {
        proof {
            reveal_strlit("[fun ref: ");
            reveal_strlit("]");
        }
        let body: &[u8] = if data.len() >= 2 {
            let t = &data[2..data.len()];
            proof {
                assert(t@ =~= data@.skip(2));
            }
            t
        } else {
            let t = &data[0..0];
            proof {
                assert(t@ =~= Seq::<u8>::empty());
            }
            t
        };
        Ok(wrap3(lit("[fun ref: "), body, lit("]")))
    } else if c == 'S' as u8 {
        match split2_slice(data, ':' as u8).1 {
            Some(rest) => Ok(vstd::slice::slice_to_vec(rest)),
            None => {
                let v: Vec<u8> = Vec::new();
                proof {
                    assert(v@ =~= Seq::<u8>::empty());
                }
                Ok(v)
            },
        }
    } else {
        Ok(unknown_term(data, d))
    }
}


/// Law: past the depth bound, decoding any term emits exactly the single
/// depth marker `(*raw)` and nothing else, so every decode terminates.
pub proof fn lemma_decode_depth_bound(env: DecodeEnv, s: Seq<u8>, depth: nat)
    requires
        depth > env.max,
    ensures
        spec_decode(env, s, depth) == Ok::<Seq<u8>, Seq<u8>>(ascii8("(*"@) + s + ascii8(")"@)),
{
}

/// Law: decoding is deterministic.  Two contexts with the same address map,
/// binary index and depth bound decode every term to the same result.
pub proof fn lemma_decode_deterministic(e1: DecodeEnv, e2: DecodeEnv, s: Seq<u8>, depth: nat)
    requires
        e1.amap == e2.amap,
        e1.bmap == e2.bmap,
        e1.max == e2.max,
    ensures
        spec_decode(e1, s, depth) == spec_decode(e2, s, depth),
{
    assert(e1 == e2);
}

/// Law: a heap reference is never silently dropped.  Below the depth bound,
/// a term `H<addr>` either resolves through the address map and decodes to
/// what the map holds there, or renders the unresolved marker `*U - <addr>`.
pub proof fn lemma_heap_ref_marked(env: DecodeEnv, s: Seq<u8>, depth: nat)
    requires
        depth <= env.max,
        s.len() >= 1,
        s[0] == 'H' as u8,
    ensures
        unresolved(env.amap, s.skip(1)) ==> spec_decode(env, s, depth) == Ok::<Seq<u8>, Seq<u8>>(
            ascii8("*U - "@) + s.skip(1),
        ),
        !unresolved(env.amap, s.skip(1)) ==> spec_decode(env, s, depth) == spec_decode(
            env,
            env.amap[parse_hex(s.skip(1))->Some_0],
            (depth + 1) as nat,
        ),
{
}

/// Law: a sub-binary `Ys<addr>:<off>:<sz>` whose address resolves in the
/// binary index renders successfully exactly when `off + sz` fits in the
/// parent length; past the parent length it renders the out-of-bounds
/// message instead, and never anything else.
pub proof fn lemma_sub_binary_bounds(
    env: DecodeEnv,
    s: Seq<u8>,
    depth: nat,
    a: u64,
    o: u64,
    z: u64,
)
    requires
        depth <= env.max,
        s.len() >= 2,
        s[0] == 'Y' as u8,
        s[1] == 's' as u8,
        split_all(s.skip(2), ':' as u8).len() == 3,
        parse_hex(split_all(s.skip(2), ':' as u8)[0]) == Some(a),
        parse_hex(split_all(s.skip(2), ':' as u8)[1]) == Some(o),
        parse_hex(split_all(s.skip(2), ':' as u8)[2]) == Some(z),
        env.bmap.contains_key(a),
    ensures
        spec_decode(env, s, depth) == spec_binary(env.bmap, s),
        spec_decode(env, s, depth) is Ok <==> o + z <= env.bmap[a],
        o + z > env.bmap[a] ==> spec_decode(env, s, depth) == Err::<Seq<u8>, Seq<u8>>(
            ascii8("Sub binary out of bounds: start="@) + dec_seq(o as int) + ascii8(", end="@)
                + dec_seq(o + z) + ascii8(", len="@) + dec_seq(env.bmap[a] as int),
        ),
{
}


/// Law: the other face of unresolved references.  A list whose tail is a
/// heap reference that does not resolve never renders the tail silently:
/// below the depth bound, its rendering ends the list with the
/// heap-truncated marker.
pub proof fn lemma_list_truncation_marked(env: DecodeEnv, s: Seq<u8>, depth: nat)
    requires
        depth <= env.max,
        s.len() >= 1,
        s[0] == 'l' as u8,
        split_all(s.skip(1), '|' as u8).last() != seq!['N' as u8],
        split_all(s.skip(1), '|' as u8).last().len() >= 1,
        split_all(s.skip(1), '|' as u8).last()[0] == 'H' as u8,
        unresolved(env.amap, split_all(s.skip(1), '|' as u8).last().skip(1)),
    ensures
        ({
            let parts = split_all(s.skip(1), '|' as u8);
            match spec_decode_each(env, parts.drop_last(), (depth + 1) as nat) {
                Ok(items) => spec_decode(env, s, depth) == Ok::<Seq<u8>, Seq<u8>>(
                    ascii8("["@) + join(items, ascii8(", "@)) + ascii8(
                        "...< heap truncated >"@,
                    ) + ascii8("]"@),
                ),
                Err(e) => spec_decode(env, s, depth) == Err::<Seq<u8>, Seq<u8>>(e),
            }
        }),
{
    let d = (depth + 1) as nat;
    assert(spec_decode(env, s, depth) == spec_list(env, s, d));
    assert(spec_list(env, s, d) == match spec_decode_each(
        env,
        split_all(s.skip(1), '|' as u8).drop_last(),
        d,
    ) {
        Ok(items) => Ok::<Seq<u8>, Seq<u8>>(
            ascii8("["@) + join(items, ascii8(", "@)) + ascii8("...< heap truncated >"@)
                + ascii8("]"@),
        ),
        Err(e) => Err::<Seq<u8>, Seq<u8>>(e),
    });
}

} // verus!
