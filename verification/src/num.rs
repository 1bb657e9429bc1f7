//! Parsing and rendering of the numbers that occur in a crash dump: hex
//! fields (sizes, addresses, offsets), decimal integers, and the decimal
//! and hex renderings used by the decoder's output.

use vstd::prelude::*;

verus! {

pub open spec fn is_hex_digit(b: u8) -> bool {
    (48 <= b <= 57) || (97 <= b <= 102) || (65 <= b <= 70)
}

/// Value of a hex digit; bytes that are no hex digit count 0.
pub open spec fn hex_digit_val(b: u8) -> int {
    if 48 <= b <= 57 {
        b - 48
    } else if 97 <= b <= 102 {
        b - 87
    } else if 65 <= b <= 70 {
        b - 55
    } else {
        0
    }
}

pub open spec fn all_hex(s: Seq<u8>) -> bool {
    forall|i: int| 0 <= i < s.len() ==> is_hex_digit(s[i])
}

/// Numeric value of `s` read as big-endian hex digits.
pub open spec fn hex_int(s: Seq<u8>) -> int
    decreases s.len(),
{
    if s.len() == 0 {
        0
    } else {
        hex_int(s.drop_last()) * 16 + hex_digit_val(s.last())
    }
}

/// What `u64::from_str_radix(s, 16)` accepts: nonempty, all hex digits,
/// value within `u64`.
pub open spec fn parse_hex(s: Seq<u8>) -> Option<u64> {
    if s.len() > 0 && all_hex(s) && hex_int(s) <= u64::MAX {
        Some(hex_int(s) as u64)
    } else {
        None
    }
}

pub proof fn lemma_hex_int_nonneg(s: Seq<u8>)
    ensures
        hex_int(s) >= 0,
    decreases s.len(),
{
    if s.len() > 0 {
        lemma_hex_int_nonneg(s.drop_last());
    }
}

pub proof fn lemma_hex_int_step(s: Seq<u8>, i: int)
    requires
        0 <= i < s.len(),
    ensures
        hex_int(s.take(i + 1)) == hex_int(s.take(i)) * 16 + hex_digit_val(s[i]),
{
    assert(s.take(i + 1).drop_last() =~= s.take(i));
    assert(s.take(i + 1).last() == s[i]);
}

pub proof fn lemma_hex_int_take_mono(s: Seq<u8>, i: int, j: int)
    requires
        0 <= i <= j <= s.len(),
    ensures
        hex_int(s.take(i)) <= hex_int(s.take(j)),
    decreases j - i,
{
    if i < j {
        lemma_hex_int_take_mono(s, i, j - 1);
        lemma_hex_int_step(s, j - 1);
        lemma_hex_int_nonneg(s.take(j - 1));
    }
}

fn hex_val_of(b: u8) -> (r: Option<u64>)
    ensures
        match r {
            Some(v) => is_hex_digit(b) && v == hex_digit_val(b),
            None => !is_hex_digit(b),
        },
{
    if 48 <= b && b <= 57 {
        Some((b - 48) as u64)
    } else if 97 <= b && b <= 102 {
        Some((b - 87) as u64)
    } else if 65 <= b && b <= 70 {
        Some((b - 55) as u64)
    } else {
        None
    }
}

/// Hex parse of a whole slice, as `u64::from_str_radix(_, 16)` would do it.
pub fn parse_hex_u64(s: &[u8]) -> (r: Option<u64>)
    ensures
        r == parse_hex(s@),
{
    if s.len() == 0 {
        return None;
    }
    let mut acc: u64 = 0;
    let mut i: usize = 0;
    while i < s.len()
        invariant
            i <= s@.len(),
            all_hex(s@.take(i as int)),
            acc == hex_int(s@.take(i as int)),
        decreases s@.len() - i,
    {
        let b = s[i];
        match hex_val_of(b) {
            None => {
                return None;
            },
            Some(v) => {
                proof {
                    lemma_hex_int_step(s@, i as int);
                }
                if acc > (u64::MAX - v) / 16 {
                    proof {
                        assert(all_hex(s@.take(i + 1)));
                        assert(hex_int(s@.take(i + 1)) > u64::MAX);
                        lemma_hex_int_take_mono(s@, i + 1, s@.len() as int);
                        assert(s@.take(s@.len() as int) =~= s@);
                    }
                    return None;
                }
                acc = acc * 16 + v;
                proof {
                    assert(all_hex(s@.take(i + 1)));
                }
                i = i + 1;
            },
        }
    }
    proof {
        assert(s@.take(s@.len() as int) =~= s@);
    }
    Some(acc)
}

pub open spec fn is_dec_digit(b: u8) -> bool {
    48 <= b <= 57
}

pub open spec fn dec_digit_val(b: u8) -> int {
    if 48 <= b <= 57 {
        b - 48
    } else {
        0
    }
}

pub open spec fn all_dec(s: Seq<u8>) -> bool {
    forall|i: int| 0 <= i < s.len() ==> is_dec_digit(s[i])
}

pub open spec fn dec_int(s: Seq<u8>) -> int
    decreases s.len(),
{
    if s.len() == 0 {
        0
    } else {
        dec_int(s.drop_last()) * 10 + dec_digit_val(s.last())
    }
}

pub proof fn lemma_dec_int_nonneg(s: Seq<u8>)
    ensures
        dec_int(s) >= 0,
    decreases s.len(),
{
    if s.len() > 0 {
        lemma_dec_int_nonneg(s.drop_last());
    }
}

pub proof fn lemma_dec_int_step(s: Seq<u8>, i: int)
    requires
        0 <= i < s.len(),
    ensures
        dec_int(s.take(i + 1)) == dec_int(s.take(i)) * 10 + dec_digit_val(s[i]),
{
    assert(s.take(i + 1).drop_last() =~= s.take(i));
    assert(s.take(i + 1).last() == s[i]);
}

pub proof fn lemma_dec_int_take_mono(s: Seq<u8>, i: int, j: int)
    requires
        0 <= i <= j <= s.len(),
    ensures
        dec_int(s.take(i)) <= dec_int(s.take(j)),
    decreases j - i,
{
    if i < j {
        lemma_dec_int_take_mono(s, i, j - 1);
        lemma_dec_int_step(s, j - 1);
        lemma_dec_int_nonneg(s.take(j - 1));
    }
}

/// What `str::parse::<i64>` accepts: an optional sign, then at least one
/// decimal digit, the value within `i64`.
pub open spec fn parse_i64(s: Seq<u8>) -> Option<i64> {
    let ds = if s.len() > 0 && (s[0] == 43 || s[0] == 45) {
        s.skip(1)
    } else {
        s
    };
    let neg = s.len() > 0 && s[0] == 45;
    if ds.len() > 0 && all_dec(ds) {
        if neg && dec_int(ds) <= 0x8000_0000_0000_0000 {
            Some((-dec_int(ds)) as i64)
        } else if !neg && dec_int(ds) <= i64::MAX {
            Some(dec_int(ds) as i64)
        } else {
            None
        }
    } else {
        None
    }
}

fn parse_dec_mag(s: &[u8], limit: u64) -> (r: Option<u64>)
    ensures
        match r {
            Some(v) => s@.len() > 0 && all_dec(s@) && dec_int(s@) == v && v <= limit,
            None => !(s@.len() > 0 && all_dec(s@) && dec_int(s@) <= limit),
        },
{
    if s.len() == 0 {
        return None;
    }
    let mut acc: u64 = 0;
    let mut i: usize = 0;
    while i < s.len()
        invariant
            i <= s@.len(),
            all_dec(s@.take(i as int)),
            acc == dec_int(s@.take(i as int)),
            acc <= limit,
        decreases s@.len() - i,
    {
        let b = s[i];
        if b < 48 || b > 57 {
            return None;
        }
        let v: u64 = (b - 48) as u64;
        proof {
            lemma_dec_int_step(s@, i as int);
        }
        if acc > limit / 10 || (acc == limit / 10 && v > limit % 10) {
            proof {
                assert(all_dec(s@.take(i + 1)));
                assert(dec_int(s@.take(i + 1)) > limit);
                lemma_dec_int_take_mono(s@, i + 1, s@.len() as int);
                assert(s@.take(s@.len() as int) =~= s@);
            }
            return None;
        }
        acc = acc * 10 + v;
        proof {
            assert(all_dec(s@.take(i + 1)));
        }
        i = i + 1;
    }
    proof {
        assert(s@.take(s@.len() as int) =~= s@);
    }
    Some(acc)
}

/// Signed decimal parse of a whole slice, as `str::parse::<i64>` would do
/// it.
pub fn parse_i64_bytes(s: &[u8]) -> (r: Option<i64>)
    ensures
        r == parse_i64(s@),
{
    let (digits, neg) = if s.len() > 0 && (s[0] == 43 || s[0] == 45) {
        let rest = &s[1..s.len()];
        proof {
            assert(rest@ =~= s@.skip(1));
        }
        (rest, s[0] == 45)
    } else {
        (s, false)
    };
    if neg {
        match parse_dec_mag(digits, 0x8000_0000_0000_0000) {
            Some(v) => {
                if v == 0x8000_0000_0000_0000 {
                    Some(i64::MIN)
                } else {
                    Some(-(v as i64))
                }
            },
            None => None,
        }
    } else {
        match parse_dec_mag(digits, i64::MAX as u64) {
            Some(v) => Some(v as i64),
            None => None,
        }
    }
}

/// Unsigned decimal parse of a whole slice (no sign accepted).
pub open spec fn parse_dec_u64(s: Seq<u8>) -> Option<u64> {
    if s.len() > 0 && all_dec(s) && dec_int(s) <= u64::MAX {
        Some(dec_int(s) as u64)
    } else {
        None
    }
}

pub fn parse_dec_u64_bytes(s: &[u8]) -> (r: Option<u64>)
    ensures
        r == parse_dec_u64(s@),
{
    parse_dec_mag(s, u64::MAX)
}

/// Decimal rendering of a nonnegative number, with no leading zeros.
pub open spec fn dec_seq(n: int) -> Seq<u8>
    decreases n,
{
    if n < 0 {
        Seq::empty()
    } else if n < 10 {
        seq![(48 + n) as u8]
    } else {
        dec_seq(n / 10).push((48 + n % 10) as u8)
    }
}

/// Decimal rendering with a leading minus sign for negative numbers.
pub open spec fn dec_seq_signed(n: int) -> Seq<u8> {
    if n < 0 {
        seq![45u8] + dec_seq(-n)
    } else {
        dec_seq(n)
    }
}

pub fn u128_to_dec(n: u128) -> (r: Vec<u8>)
    ensures
        r@ == dec_seq(n as int),
    decreases n,
{
    if n < 10 {
        let mut v: Vec<u8> = Vec::new();
        v.push(48 + (n as u8));
        proof {
            assert(v@ =~= dec_seq(n as int));
        }
        v
    } else {
        let mut v = u128_to_dec(n / 10);
        v.push(48 + ((n % 10) as u8));
        v
    }
}

pub fn u64_to_dec(n: u64) -> (r: Vec<u8>)
    ensures
        r@ == dec_seq(n as int),
{
    u128_to_dec(n as u128)
}

pub fn i64_to_dec(n: i64) -> (r: Vec<u8>)
    ensures
        r@ == dec_seq_signed(n as int),
{
    if n < 0 {
        let mag: u128 = (-(n as i128)) as u128;
        let mut v: Vec<u8> = Vec::new();
        v.push(45);
        let ds = u128_to_dec(mag);
        crate::bytes::push_all(&mut v, ds.as_slice());
        proof {
            assert(v@ =~= dec_seq_signed(n as int));
        }
        v
    } else {
        u128_to_dec(n as u128)
    }
}

/// Lower-case hex rendering of a nonnegative number, as `{:x}` formats it.
pub open spec fn hex_seq(n: int) -> Seq<u8>
    decreases n,
{
    if n < 0 {
        Seq::empty()
    } else if n < 16 {
        seq![hex_digit_lower(n)]
    } else {
        hex_seq(n / 16).push(hex_digit_lower(n % 16))
    }
}

pub open spec fn hex_digit_lower(d: int) -> u8 {
    if d < 10 {
        (48 + d) as u8
    } else {
        (87 + d) as u8
    }
}

pub fn u64_to_hex(n: u64) -> (r: Vec<u8>)
    ensures
        r@ == hex_seq(n as int),
    decreases n,
{
    let d = (n % 16) as u8;
    let digit: u8 = if d < 10 {
        48 + d
    } else {
        87 + d
    };
    if n < 16 {
        let mut v: Vec<u8> = Vec::new();
        v.push(digit);
        proof {
            assert(v@ =~= hex_seq(n as int));
        }
        v
    } else {
        let mut v = u64_to_hex(n / 16);
        v.push(digit);
        v
    }
}

} // verus!
