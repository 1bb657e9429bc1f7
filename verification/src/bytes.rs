//! Byte-sequence utilities shared by the scanner, the section parser and the
//! term decoder: locating a byte, splitting once or repeatedly at a
//! separator, joining rendered pieces, and comparing slices.
//!
//! Each executable function is pinned to a spec-level definition over
//! `Seq<u8>`, so that every caller's contract can be stated purely over
//! mathematical sequences.

use vstd::prelude::*;

verus! {

broadcast use vstd::string::is_ascii_spec_bytes;

/// The bytes of an ASCII character sequence.
pub open spec fn ascii8(s: Seq<char>) -> Seq<u8> {
    Seq::new(s.len(), |i: int| s[i] as u8)
}

/// The bytes of an ASCII string literal, for building renderings whose
/// contracts speak of `ascii8` of the same literal.
pub fn lit(s: &str) -> (r: Vec<u8>)
    requires
        vstd::string::is_ascii(s),
    ensures
        r@ == ascii8(s@),
{
    let b = s.as_bytes();
    proof {
        assert(b@ =~= ascii8(s@));
    }
    vstd::slice::slice_to_vec(b)
}

/// Index of the first occurrence of `b` in `s`, or `s.len()` if absent.
pub open spec fn first_ix(s: Seq<u8>, b: u8) -> int
    decreases s.len(),
{
    if s.len() == 0 {
        0
    } else if s[0] == b {
        0
    } else {
        1 + first_ix(s.skip(1), b)
    }
}

pub proof fn lemma_first_ix(s: Seq<u8>, b: u8)
    ensures
        0 <= first_ix(s, b) <= s.len(),
        forall|j: int| 0 <= j < first_ix(s, b) ==> s[j] != b,
        first_ix(s, b) < s.len() ==> s[first_ix(s, b)] == b,
    decreases s.len(),
{
    if s.len() == 0 {
    } else if s[0] == b {
    } else {
        lemma_first_ix(s.skip(1), b);
        let i = first_ix(s, b);
        assert forall|j: int| 0 <= j < i implies s[j] != b by {
            if j > 0 {
                assert(s.skip(1)[j - 1] == s[j]);
            }
        }
        if i < s.len() {
            assert(s.skip(1)[i - 1] == s[i]);
        }
    }
}

/// A position with no earlier occurrence, holding `b` unless it is the
/// length, is exactly `first_ix`.
pub proof fn lemma_first_ix_is(s: Seq<u8>, b: u8, j: int)
    requires
        0 <= j <= s.len(),
        forall|k: int| 0 <= k < j ==> s[k] != b,
        j < s.len() ==> s[j] == b,
    ensures
        first_ix(s, b) == j,
    decreases s.len(),
{
    if s.len() == 0 {
    } else if s[0] == b {
        assert(j == 0);
    } else {
        assert(s[0] != b);
        assert(j >= 1);
        assert forall|k: int| 0 <= k < j - 1 implies s.skip(1)[k] != b by {
            assert(s.skip(1)[k] == s[k + 1]);
        }
        assert(j - 1 < s.skip(1).len() ==> s.skip(1)[j - 1] == s[j]);
        lemma_first_ix_is(s.skip(1), b, j - 1);
    }
}

/// First position `>= from` holding `b`, or the length if there is none.
pub fn find_from(s: &[u8], from: usize, b: u8) -> (r: usize)
    requires
        from <= s@.len(),
    ensures
        from <= r <= s@.len(),
        forall|j: int| from <= j < r ==> s@[j] != b,
        r < s@.len() ==> s@[r as int] == b,
        r - from == first_ix(s@.skip(from as int), b),
{
    let mut i = from;
    while i < s.len()
        invariant
            from <= i <= s@.len(),
            forall|j: int| from <= j < i ==> s@[j] != b,
        decreases s@.len() - i,
    {
        if s[i] == b {
            proof {
                assert forall|k: int| 0 <= k < i - from implies s@.skip(from as int)[k] != b by {
                    assert(s@.skip(from as int)[k] == s@[k + from]);
                }
                assert(s@.skip(from as int)[i - from] == s@[i as int]);
                lemma_first_ix_is(s@.skip(from as int), b, i - from);
            }
            return i;
        }
        i = i + 1;
    }
    proof {
        assert forall|k: int| 0 <= k < i - from implies s@.skip(from as int)[k] != b by {
            assert(s@.skip(from as int)[k] == s@[k + from]);
        }
        lemma_first_ix_is(s@.skip(from as int), b, i - from);
    }
    i
}

/// Split at the first occurrence of `b`: the part before it, and what
/// follows it, or `None` when `b` does not occur.
pub open spec fn split2(s: Seq<u8>, b: u8) -> (Seq<u8>, Option<Seq<u8>>) {
    let i = first_ix(s, b);
    if i < s.len() {
        (s.take(i), Some(s.skip(i + 1)))
    } else {
        (s, None)
    }
}

pub fn split2_slice<'a>(s: &'a [u8], b: u8) -> (r: (&'a [u8], Option<&'a [u8]>))
    ensures
        r.0@ == split2(s@, b).0,
        match r.1 {
            Some(t) => split2(s@, b).1 == Some(t@),
            None => split2(s@, b).1 is None,
        },
{
    let i = find_from(s, 0, b);
    proof {
        assert(s@.skip(0) =~= s@);
    }
    if i < s.len() {
        let head = &s[0..i];
        let tail = &s[i + 1..s.len()];
        proof {
            assert(head@ =~= s@.take(i as int));
            assert(tail@ =~= s@.skip(i + 1));
        }
        (head, Some(tail))
    } else {
        (s, None)
    }
}

/// The views of a sequence of byte vectors.
pub open spec fn views(vs: Seq<Vec<u8>>) -> Seq<Seq<u8>> {
    vs.map_values(|v: Vec<u8>| v@)
}

pub proof fn lemma_views_push(vs: Seq<Vec<u8>>, v: Vec<u8>)
    ensures
        views(vs.push(v)) =~= views(vs).push(v@),
{
}

/// Split at every occurrence of `b`; always at least one part.
pub open spec fn split_all(s: Seq<u8>, b: u8) -> Seq<Seq<u8>>
    decreases s.len(),
    via split_all_dec
{
    let i = first_ix(s, b);
    if i < s.len() {
        seq![s.take(i)] + split_all(s.skip(i + 1), b)
    } else {
        seq![s]
    }
}

#[via_fn]
proof fn split_all_dec(s: Seq<u8>, b: u8) {
    lemma_first_ix(s, b);
}

pub proof fn lemma_split_all_len(s: Seq<u8>, b: u8)
    ensures
        split_all(s, b).len() >= 1,
{
    lemma_first_ix(s, b);
}

pub fn split_list(s: &[u8], b: u8) -> (r: Vec<Vec<u8>>)
    ensures
        views(r@) == split_all(s@, b),
        r@.len() >= 1,
{
    let mut r: Vec<Vec<u8>> = Vec::new();
    let mut start: usize = 0;
    proof {
        assert(views(r@) =~= Seq::<Seq<u8>>::empty());
        assert(s@.skip(0) =~= s@);
        assert(split_all(s@, b) =~= views(r@) + split_all(s@.skip(0), b));
    }
    loop
        invariant
            start <= s@.len(),
            split_all(s@, b) == views(r@) + split_all(s@.skip(start as int), b),
        decreases s@.len() - start,
    {
        let i = find_from(s, start, b);
        let ghost rest = s@.skip(start as int);
        proof {
            lemma_first_ix(rest, b);
        }
        if i < s.len() {
            let part = vstd::slice::slice_to_vec(&s[start..i]);
            proof {
                let fi = first_ix(rest, b);
                assert(fi == i - start);
                assert(rest.take(fi) =~= s@.subrange(start as int, i as int));
                assert(rest.skip(fi + 1) =~= s@.skip(i + 1));
                lemma_views_push(r@, part);
                assert(views(r@.push(part)) + split_all(s@.skip(i + 1), b) =~= views(r@)
                    + split_all(rest, b));
            }
            r.push(part);
            start = i + 1;
        } else {
            let part = vstd::slice::slice_to_vec(&s[start..s.len()]);
            proof {
                assert(part@ =~= rest);
                assert(first_ix(rest, b) == rest.len());
                assert(split_all(rest, b) =~= seq![rest]);
                lemma_views_push(r@, part);
                assert(views(r@.push(part)) =~= views(r@) + seq![rest]);
                lemma_split_all_len(s@, b);
            }
            r.push(part);
            return r;
        }
    }
}

/// Join parts with a separator between consecutive parts.
pub open spec fn join(parts: Seq<Seq<u8>>, sep: Seq<u8>) -> Seq<u8>
    decreases parts.len(),
{
    if parts.len() == 0 {
        Seq::empty()
    } else if parts.len() == 1 {
        parts[0]
    } else {
        parts[0] + sep + join(parts.drop_first(), sep)
    }
}

pub proof fn lemma_join_push(parts: Seq<Seq<u8>>, sep: Seq<u8>, x: Seq<u8>)
    ensures
        join(parts.push(x), sep) == if parts.len() == 0 {
            x
        } else {
            join(parts, sep) + sep + x
        },
    decreases parts.len(),
{
    if parts.len() == 0 {
        assert(parts.push(x).len() == 1);
        assert(join(parts.push(x), sep) == parts.push(x)[0]);
    } else if parts.len() == 1 {
        assert(parts.push(x).drop_first() =~= seq![x]);
        assert(parts.push(x).len() == 2);
        assert(join(parts.push(x).drop_first(), sep) == parts.push(x).drop_first()[0]);
        assert(join(parts.push(x), sep) == parts[0] + sep + x);
    } else {
        assert(parts.push(x).drop_first() =~= parts.drop_first().push(x));
        lemma_join_push(parts.drop_first(), sep, x);
    }
}

/// Append all of `s` to `v`.
pub fn push_all(v: &mut Vec<u8>, s: &[u8])
    ensures
        final(v)@ == old(v)@ + s@,
{
    let mut i: usize = 0;
    while i < s.len()
        invariant
            i <= s@.len(),
            v@ == old(v)@ + s@.take(i as int),
        decreases s@.len() - i,
    {
        let ghost prev = v@;
        v.push(s[i]);
        proof {
            assert(prev.push(s@[i as int]) =~= old(v)@ + s@.take(i + 1));
        }
        i = i + 1;
    }
    proof {
        assert(s@.take(s@.len() as int) =~= s@);
    }
}

/// Join the parts with `sep`, as executable code.
pub fn join_list(parts: &Vec<Vec<u8>>, sep: &[u8]) -> (r: Vec<u8>)
    ensures
        r@ == join(views(parts@), sep@),
{
    let mut r: Vec<u8> = Vec::new();
    let mut i: usize = 0;
    while i < parts.len()
        invariant
            i <= parts@.len(),
            r@ == join(views(parts@).take(i as int), sep@),
        decreases parts@.len() - i,
    {
        if i > 0 {
            push_all(&mut r, sep);
        }
        push_all(&mut r, parts[i].as_slice());
        proof {
            let vs = views(parts@);
            assert(vs.take(i + 1) =~= vs.take(i as int).push(vs[i as int]));
            lemma_join_push(vs.take(i as int), sep@, vs[i as int]);
            assert(vs[i as int] == parts@[i as int]@);
        }
        i = i + 1;
    }
    proof {
        assert(views(parts@).take(parts@.len() as int) =~= views(parts@));
    }
    r
}

/// Byte-wise equality of two slices.
pub fn bytes_eq(a: &[u8], b: &[u8]) -> (r: bool)
    ensures
        r <==> a@ == b@,
{
    if a.len() != b.len() {
        return false;
    }
    let mut i: usize = 0;
    while i < a.len()
        invariant
            a@.len() == b@.len(),
            i <= a@.len(),
            forall|j: int| 0 <= j < i ==> a@[j] == b@[j],
        decreases a@.len() - i,
    {
        if a[i] != b[i] {
            return false;
        }
        i = i + 1;
    }
    proof {
        assert(a@ =~= b@);
    }
    true
}

/// `p` is a prefix of `s`.
pub open spec fn has_prefix(s: Seq<u8>, p: Seq<u8>) -> bool {
    p.len() <= s.len() && s.take(p.len() as int) == p
}

pub fn starts_with(s: &[u8], p: &[u8]) -> (r: bool)
    ensures
        r <==> has_prefix(s@, p@),
{
    if p.len() > s.len() {
        return false;
    }
    let head = &s[0..p.len()];
    proof {
        assert(head@ =~= s@.take(p@.len() as int));
    }
    bytes_eq(head, p)
}


/// A whitespace byte: space, tab, carriage return or newline.
pub open spec fn is_ws(b: u8) -> bool {
    b == 32 || b == 9 || b == 13 || b == 10
}

pub open spec fn trim_left(s: Seq<u8>) -> Seq<u8>
    decreases s.len(),
{
    if s.len() > 0 && is_ws(s[0]) {
        trim_left(s.skip(1))
    } else {
        s
    }
}

pub open spec fn trim_right(s: Seq<u8>) -> Seq<u8>
    decreases s.len(),
{
    if s.len() > 0 && is_ws(s.last()) {
        trim_right(s.drop_last())
    } else {
        s
    }
}

/// Both ends trimmed of whitespace, as `str::trim` does for ASCII input.
pub open spec fn trim_ws(s: Seq<u8>) -> Seq<u8> {
    trim_left(trim_right(s))
}

proof fn lemma_trim_left_skip(s: Seq<u8>, k: int)
    requires
        0 <= k <= s.len(),
        forall|j: int| 0 <= j < k ==> is_ws(s[j]),
        k < s.len() ==> !is_ws(s[k]),
    ensures
        trim_left(s) == s.skip(k),
    decreases s.len(),
{
    if s.len() > 0 && is_ws(s[0]) {
        assert(k >= 1);
        assert forall|j: int| 0 <= j < k - 1 implies is_ws(s.skip(1)[j]) by {
            assert(s.skip(1)[j] == s[j + 1]);
        }
        assert(k - 1 < s.skip(1).len() ==> s.skip(1)[k - 1] == s[k]);
        lemma_trim_left_skip(s.skip(1), k - 1);
        assert(s.skip(1).skip(k - 1) =~= s.skip(k));
    } else {
        assert(k == 0);
        assert(s.skip(0) =~= s);
    }
}

proof fn lemma_trim_right_take(s: Seq<u8>, k: int)
    requires
        0 <= k <= s.len(),
        forall|j: int| k <= j < s.len() ==> is_ws(s[j]),
        k > 0 ==> !is_ws(s[k - 1]),
    ensures
        trim_right(s) == s.take(k),
    decreases s.len(),
{
    if s.len() > 0 && is_ws(s.last()) {
        assert(k < s.len());
        lemma_trim_right_take(s.drop_last(), k);
    } else {
        assert(k == s.len());
        assert(s.take(k) =~= s);
    }
}

/// Trim whitespace from both ends, as executable code.
pub fn trim_slice<'a>(s: &'a [u8]) -> (r: &'a [u8])
    ensures
        r@ == trim_ws(s@),
{
    let mut hi: usize = s.len();
    while hi > 0 && (s[hi - 1] == 32 || s[hi - 1] == 9 || s[hi - 1] == 13 || s[hi - 1] == 10)
        invariant
            hi <= s@.len(),
            forall|j: int| hi <= j < s@.len() ==> is_ws(s@[j]),
        decreases hi,
    {
        hi = hi - 1;
    }
    proof {
        lemma_trim_right_take(s@, hi as int);
    }
    let mut lo: usize = 0;
    while lo < hi && (s[lo] == 32 || s[lo] == 9 || s[lo] == 13 || s[lo] == 10)
        invariant
            lo <= hi <= s@.len(),
            trim_right(s@) == s@.take(hi as int),
            forall|j: int| 0 <= j < lo ==> is_ws(s@[j]),
        decreases hi - lo,
    {
        lo = lo + 1;
    }
    let r = &s[lo..hi];
    proof {
        let t = s@.take(hi as int);
        assert forall|j: int| 0 <= j < lo implies is_ws(t[j]) by {
            assert(t[j] == s@[j]);
        }
        if lo < hi {
            assert(t[lo as int] == s@[lo as int]);
        }
        lemma_trim_left_skip(t, lo as int);
        assert(r@ =~= t.skip(lo as int));
    }
    r
}

/// Index of the first occurrence of the two-byte pattern `a b`, or
/// `s.len()` when it does not occur.
pub open spec fn first_ix2(s: Seq<u8>, a: u8, b: u8) -> int
    decreases s.len(),
{
    if s.len() < 2 {
        s.len() as int
    } else if s[0] == a && s[1] == b {
        0
    } else {
        1 + first_ix2(s.skip(1), a, b)
    }
}

pub proof fn lemma_first_ix2(s: Seq<u8>, a: u8, b: u8)
    ensures
        0 <= first_ix2(s, a, b) <= s.len(),
        first_ix2(s, a, b) + 1 >= s.len() ==> first_ix2(s, a, b) == s.len(),
        first_ix2(s, a, b) + 1 < s.len() ==> s[first_ix2(s, a, b)] == a && s[first_ix2(s, a, b)
            + 1] == b,
        forall|j: int|
            0 <= j < first_ix2(s, a, b) && j + 1 < s.len() ==> !(#[trigger] s[j] == a && s[j + 1]
                == b),
    decreases s.len(),
{
    if s.len() < 2 {
    } else if s[0] == a && s[1] == b {
    } else {
        lemma_first_ix2(s.skip(1), a, b);
        let i = first_ix2(s, a, b);
        assert forall|j: int| 0 <= j < i && j + 1 < s.len() implies !(#[trigger] s[j] == a && s[j
            + 1] == b) by {
            if j > 0 {
                assert(s.skip(1)[j - 1] == s[j]);
                assert(s.skip(1)[j] == s[j + 1]);
            }
        }
        if i + 1 < s.len() {
            assert(s.skip(1)[i - 1] == s[i]);
            assert(s.skip(1)[i] == s[i + 1]);
        }
    }
}

pub proof fn lemma_first_ix2_is(s: Seq<u8>, a: u8, b: u8, j: int)
    requires
        0 <= j <= s.len(),
        j + 1 < s.len() ==> s[j] == a && s[j + 1] == b,
        j + 1 >= s.len() ==> j == s.len(),
        forall|k: int| 0 <= k < j && k + 1 < s.len() ==> !(#[trigger] s[k] == a && s[k + 1] == b),
    ensures
        first_ix2(s, a, b) == j,
    decreases s.len(),
{
    if s.len() < 2 {
        assert(j == s.len() as int);
    } else if s[0] == a && s[1] == b {
        assert(j == 0);
    } else {
        assert(j >= 1);
        assert forall|k: int|
            0 <= k < j - 1 && k + 1 < s.skip(1).len() implies !(#[trigger] s.skip(1)[k] == a
            && s.skip(1)[k + 1] == b) by {
            assert(s.skip(1)[k] == s[k + 1]);
            assert(s.skip(1)[k + 1] == s[k + 2]);
        }
        if j - 1 + 1 < s.skip(1).len() {
            assert(s.skip(1)[j - 1] == s[j]);
            assert(s.skip(1)[j] == s[j + 1]);
        }
        lemma_first_ix2_is(s.skip(1), a, b, j - 1);
    }
}

/// First position of the two-byte pattern `a b`, as executable code.
pub fn find2(s: &[u8], a: u8, b: u8) -> (r: usize)
    ensures
        r == first_ix2(s@, a, b),
        r <= s@.len(),
        r + 1 < s@.len() ==> s@[r as int] == a && s@[r as int + 1] == b,
{
    if s.len() < 2 {
        proof {
            lemma_first_ix2(s@, a, b);
        }
        return s.len();
    }
    let mut i: usize = 0;
    while i < s.len() && i + 1 < s.len()
        invariant
            s@.len() >= 2,
            i <= s@.len() - 1,
            forall|k: int|
                0 <= k < i && k + 1 < s@.len() ==> !(#[trigger] s@[k] == a && s@[k + 1] == b),
        decreases s@.len() - i,
    {
        if s[i] == a && s[i + 1] == b {
            proof {
                lemma_first_ix2_is(s@, a, b, i as int);
            }
            return i;
        }
        i = i + 1;
    }
    proof {
        lemma_first_ix2_is(s@, a, b, s@.len() as int);
    }
    s.len()
}

/// Split at the first occurrence of the two-byte pattern: the part before
/// it, and what follows it, or `None` when the pattern does not occur.
pub open spec fn split2_pat(s: Seq<u8>, a: u8, b: u8) -> (Seq<u8>, Option<Seq<u8>>) {
    let i = first_ix2(s, a, b);
    if i + 1 < s.len() {
        (s.take(i), Some(s.skip(i + 2)))
    } else {
        (s, None)
    }
}

pub fn split2_pat_slice<'a>(s: &'a [u8], a: u8, b: u8) -> (r: (&'a [u8], Option<&'a [u8]>))
    ensures
        r.0@ == split2_pat(s@, a, b).0,
        match r.1 {
            Some(t) => split2_pat(s@, a, b).1 == Some(t@),
            None => split2_pat(s@, a, b).1 is None,
        },
{
    let i = find2(s, a, b);
    if i < s.len() && i + 1 < s.len() {
        let head = &s[0..i];
        let tail = &s[i + 2..s.len()];
        proof {
            assert(head@ =~= s@.take(i as int));
            assert(tail@ =~= s@.skip(i as int + 2));
        }
        (head, Some(tail))
    } else {
        (s, None)
    }
}

/// Split at every occurrence of the two-byte pattern `a b`.
pub open spec fn split_all_pat(s: Seq<u8>, a: u8, b: u8) -> Seq<Seq<u8>>
    decreases s.len(),
    via split_all_pat_dec
{
    let i = first_ix2(s, a, b);
    if i + 1 < s.len() {
        seq![s.take(i)] + split_all_pat(s.skip(i + 2), a, b)
    } else {
        seq![s]
    }
}

#[via_fn]
proof fn split_all_pat_dec(s: Seq<u8>, a: u8, b: u8) {
    lemma_first_ix2(s, a, b);
}

pub fn split_list_pat(s: &[u8], a: u8, b: u8) -> (r: Vec<Vec<u8>>)
    ensures
        views(r@) == split_all_pat(s@, a, b),
        r@.len() >= 1,
    decreases s@.len(),
{
    let i = find2(s, a, b);
    if i < s.len() && i + 1 < s.len() {
        let head = vstd::slice::slice_to_vec(&s[0..i]);
        let tail = &s[i + 2..s.len()];
        proof {
            assert(head@ =~= s@.take(i as int));
            assert(tail@ =~= s@.skip(i as int + 2));
        }
        let mut rest = split_list_pat(tail, a, b);
        rest.insert(0, head);
        proof {
            assert(views(rest@) =~= seq![s@.take(i as int)] + split_all_pat(
                s@.skip(i as int + 2),
                a,
                b,
            ));
        }
        rest
    } else {
        let mut r: Vec<Vec<u8>> = Vec::new();
        let all = vstd::slice::slice_to_vec(&s[0..s.len()]);
        proof {
            assert(all@ =~= s@);
        }
        r.push(all);
        proof {
            assert(views(r@) =~= seq![s@]);
        }
        r
    }
}

/// The lines of a byte text, as `str::lines` produces them: split at
/// newlines, no trailing empty line, carriage returns stripped from line
/// ends.
pub open spec fn strip_cr(line: Seq<u8>) -> Seq<u8> {
    if line.len() > 0 && line.last() == 13 {
        line.drop_last()
    } else {
        line
    }
}

pub open spec fn lines_of(s: Seq<u8>) -> Seq<Seq<u8>> {
    if s.len() == 0 {
        Seq::empty()
    } else {
        let parts = split_all(s, 10);
        let parts2 = if s.last() == 10 {
            parts.drop_last()
        } else {
            parts
        };
        parts2.map_values(|l: Seq<u8>| strip_cr(l))
    }
}

/// Split a text into its lines, as executable code.
pub fn split_lines(s: &[u8]) -> (r: Vec<Vec<u8>>)
    ensures
        views(r@) == lines_of(s@),
{
    if s.len() == 0 {
        let r: Vec<Vec<u8>> = Vec::new();
        proof {
            assert(views(r@) =~= lines_of(s@));
        }
        return r;
    }
    let mut parts = split_list(s, 10);
    let ghost ps = views(parts@);
    if s[s.len() - 1] == 10 {
        proof {
            assert(s@.last() == 10);
        }
        parts.pop();
        proof {
            assert(views(parts@) =~= ps.drop_last());
        }
    }
    let ghost parts2 = views(parts@);
    let mut i: usize = 0;
    while i < parts.len()
        invariant
            i <= parts@.len(),
            parts@.len() == parts2.len(),
            forall|j: int| i <= j < parts@.len() ==> parts@[j]@ == parts2[j],
            forall|j: int| 0 <= j < i ==> parts@[j]@ == strip_cr(parts2[j]),
        decreases parts@.len() - i,
    {
        let ln = parts[i].len();
        if ln > 0 && parts[i].as_slice()[ln - 1] == 13 {
            let ghost before = parts@[i as int]@;
            let mut line = parts.remove(i);
            line.pop();
            proof {
                assert(line@ =~= strip_cr(before));
            }
            parts.insert(i, line);
            proof {
                assert forall|j: int| i < j < parts@.len() implies parts@[j]@ == parts2[j] by {}
            }
        }
        i = i + 1;
    }
    proof {
        assert(views(parts@) =~= parts2.map_values(|l: Seq<u8>| strip_cr(l)));
        if s@.last() == 10 {
            assert(views(parts@) =~= lines_of(s@));
        } else {
            assert(views(parts@) =~= lines_of(s@));
        }
    }
    parts
}

} // verus!
