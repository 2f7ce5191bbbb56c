use vstd::prelude::*;

use crate::escape::{all_digits, decimal_value, is_digit};

verus! {

/// The value of a decimal integer written with an optional `+` sign, as Rust's unsigned
/// `from_str` reads it; `None` when it is empty, signless digits are missing, or a byte is
/// not a digit.
pub open spec fn unsigned_value(s: Seq<u8>) -> Option<int> {
    let digits = if s.len() > 0 && s[0] == 0x2bu8 {
        s.skip(1)
    } else {
        s
    };
    if digits.len() > 0 && all_digits(digits) {
        Some(decimal_value(digits))
    } else {
        None
    }
}

/// The value of a decimal integer with an optional `+` or `-` sign, as Rust's signed
/// `from_str` reads it.
pub open spec fn signed_value(s: Seq<u8>) -> Option<int> {
    if s.len() > 0 && s[0] == 0x2du8 {
        let digits = s.skip(1);
        if digits.len() > 0 && all_digits(digits) {
            Some(-decimal_value(digits))
        } else {
            None
        }
    } else {
        unsigned_value(s)
    }
}

proof fn lemma_decimal_prefix(s: Seq<u8>, n: int)
    requires
        all_digits(s),
        0 <= n <= s.len(),
    ensures
        decimal_value(s.subrange(0, n)) <= decimal_value(s),
        0 <= decimal_value(s.subrange(0, n)),
    decreases s.len(),
{
    if s.len() > 0 {
        assert(all_digits(s.drop_last()));
        if n == s.len() {
            assert(s.subrange(0, n) =~= s);
            lemma_decimal_prefix(s.drop_last(), n - 1);
        } else {
            assert(s.drop_last().subrange(0, n) =~= s.subrange(0, n));
            lemma_decimal_prefix(s.drop_last(), n);
        }
    } else {
        assert(s.subrange(0, n) =~= s);
    }
}

/// The value of the digits `s[from..]` when all are digits and the value is at most `limit`.
fn digits_up_to(s: &[u8], from: usize, limit: u64) -> (r: Option<u64>)
    requires
        from <= s@.len(),
        limit >= 9,
    ensures
        match r {
            Some(v) => s@.len() > from && all_digits(s@.skip(from as int)) && v == decimal_value(
                s@.skip(from as int),
            ) && v <= limit,
            None => s@.len() == from || !all_digits(s@.skip(from as int)) || decimal_value(
                s@.skip(from as int),
            ) > limit,
        },
{
    let n = s.len();
    if from == n {
        return None;
    }
    let ghost whole = s@.skip(from as int);
    let mut value: u64 = 0;
    let mut i = from;
    while i < n
        invariant
            n == s@.len(),
            from <= i <= n,
            whole == s@.skip(from as int),
            value <= limit,
            limit >= 9,
            all_digits(s@.subrange(from as int, i as int)),
            value == decimal_value(s@.subrange(from as int, i as int)),
        decreases n - i,
    {
        let b = s[i];
        let prefix = Ghost(s@.subrange(from as int, i as int));
        let next = Ghost(s@.subrange(from as int, i + 1));
        assert(next@.drop_last() =~= prefix@);
        if !(0x30u8 <= b && b <= 0x39u8) {
            assert(whole[i - from] == b);
            return None;
        }
        assert forall|j: int| 0 <= j < next@.len() implies is_digit(#[trigger] next@[j]) by {
            if j < prefix@.len() {
                assert(next@[j] == prefix@[j]);
            }
        }
        if value > (limit - (b - 0x30u8) as u64) / 10 {
            proof {
                let k = i + 1 - from;
                assert(whole.subrange(0, k) =~= next@);
                if all_digits(whole) {
                    lemma_decimal_prefix(whole, k);
                }
                assert(decimal_value(next@) == value * 10 + (b - 0x30u8));
                assert(value * 10 + (b - 0x30u8) > limit) by (nonlinear_arith)
                    requires
                        value > (limit - (b - 0x30u8) as u64) / 10,
                        b - 0x30u8 <= limit,
                        0 <= b - 0x30u8 <= 9,
                ;
            }
            return None;
        }
        proof {
            assert(value * 10 + (b - 0x30u8) <= limit) by (nonlinear_arith)
                requires
                    value <= (limit - (b - 0x30u8) as u64) / 10,
                    0 <= b - 0x30u8 <= 9,
                    b - 0x30u8 <= limit,
            ;
        }
        value = value * 10 + (b - 0x30u8) as u64;
        i += 1;
    }
    assert(s@.subrange(from as int, n as int) =~= whole);
    Some(value)
}

/// Reads a `u32` the way `str::parse::<u32>` does.
pub fn parse_u32(s: &[u8]) -> (r: Option<u32>)
    ensures
        match r {
            Some(v) => unsigned_value(s@) == Some(v as int),
            None => unsigned_value(s@) is None || unsigned_value(s@)->0 > u32::MAX,
        },
{
    let from: usize = if s.len() > 0 && s[0] == 0x2bu8 {
        1
    } else {
        0
    };
    assert(from == 0 ==> s@.skip(0) =~= s@);
    match digits_up_to(s, from, u32::MAX as u64) {
        Some(v) => Some(v as u32),
        None => None,
    }
}

/// Reads a `usize` the way `str::parse::<usize>` does.
pub fn parse_usize(s: &[u8]) -> (r: Option<usize>)
    ensures
        match r {
            Some(v) => unsigned_value(s@) == Some(v as int),
            None => unsigned_value(s@) is None || unsigned_value(s@)->0 > usize::MAX,
        },
{
    let from: usize = if s.len() > 0 && s[0] == 0x2bu8 {
        1
    } else {
        0
    };
    assert(from == 0 ==> s@.skip(0) =~= s@);
    match digits_up_to(s, from, usize::MAX as u64) {
        Some(v) => Some(v as usize),
        None => None,
    }
}

/// Reads an `i64` the way `str::parse::<i64>` does.
pub fn parse_i64(s: &[u8]) -> (r: Option<i64>)
    ensures
        match r {
            Some(v) => signed_value(s@) == Some(v as int),
            None => signed_value(s@) is None || signed_value(s@)->0 > i64::MAX
                || signed_value(s@)->0 < i64::MIN,
        },
{
    if s.len() > 0 && s[0] == 0x2du8 {
        match digits_up_to(s, 1, 9223372036854775808u64) {
            Some(v) => {
                if v == 9223372036854775808u64 {
                    Some(i64::MIN)
                } else {
                    Some(-(v as i64))
                }
            },
            None => None,
        }
    } else {
        let from: usize = if s.len() > 0 && s[0] == 0x2bu8 {
            1
        } else {
            0
        };
        assert(from == 0 ==> s@.skip(0) =~= s@);
        match digits_up_to(s, from, i64::MAX as u64) {
            Some(v) => Some(v as i64),
            None => None,
        }
    }
}

/// Reads an `i32` the way `str::parse::<i32>` does.
pub fn parse_i32(s: &[u8]) -> (r: Option<i32>)
    ensures
        match r {
            Some(v) => signed_value(s@) == Some(v as int),
            None => signed_value(s@) is None || signed_value(s@)->0 > i32::MAX
                || signed_value(s@)->0 < i32::MIN,
        },
{
    match parse_i64(s) {
        Some(v) => {
            if v < i32::MIN as i64 || v > i32::MAX as i64 {
                None
            } else {
                Some(v as i32)
            }
        },
        None => None,
    }
}

/// The decimal digits of a number, most significant first, without leading zeros.
pub open spec fn decimal_digits(v: nat) -> Seq<u8>
    decreases v,
{
    if v < 10 {
        seq![(0x30 + v) as u8]
    } else {
        decimal_digits(v / 10).push((0x30 + v % 10) as u8)
    }
}

/// A byte below 0x80 is valid UTF-8 on its own.
pub proof fn lemma_ascii_byte_utf8(b: u8)
    requires
        b < 0x80,
    ensures
        vstd::utf8::valid_utf8(seq![b]),
{
    reveal_with_fuel(vstd::utf8::valid_utf8, 2);
    assert(vstd::utf8::pop_first_scalar(seq![b]) =~= Seq::<u8>::empty());
}

/// Decimal digits are valid UTF-8.
pub proof fn lemma_decimal_digits_utf8(v: nat)
    ensures
        vstd::utf8::valid_utf8(decimal_digits(v)),
    decreases v,
{
    if v < 10 {
        lemma_ascii_byte_utf8((0x30 + v) as u8);
    } else {
        lemma_decimal_digits_utf8(v / 10);
        lemma_ascii_byte_utf8((0x30 + v % 10) as u8);
        vstd::utf8::valid_utf8_concat(decimal_digits(v / 10), seq![(0x30 + v % 10) as u8]);
        assert(decimal_digits(v / 10) + seq![(0x30 + v % 10) as u8] =~= decimal_digits(v));
    }
}

/// The decimal text of a signed number.
pub open spec fn signed_digits(v: int) -> Seq<u8> {
    if v < 0 {
        seq![0x2du8] + decimal_digits((-v) as nat)
    } else {
        decimal_digits(v as nat)
    }
}

/// Writes the decimal digits of `v`.
pub fn format_u64(v: u64) -> (r: Vec<u8>)
    ensures
        r@ == decimal_digits(v as nat),
    decreases v,
{
    if v < 10 {
        let mut out: Vec<u8> = Vec::new();
        out.push(0x30u8 + v as u8);
        assert(out@ =~= seq![(0x30 + v) as u8]);
        out
    } else {
        let mut out = format_u64(v / 10);
        out.push(0x30u8 + (v % 10) as u8);
        out
    }
}

/// Writes the decimal text of a signed number.
pub fn format_i64(v: i64) -> (r: Vec<u8>)
    ensures
        r@ == signed_digits(v as int),
{
    if v < 0 {
        let magnitude: u64 = if v == i64::MIN {
            9223372036854775808u64
        } else {
            (-v) as u64
        };
        let digits = format_u64(magnitude);
        let mut out: Vec<u8> = Vec::new();
        out.push(0x2du8);
        crate::bytes::push_bytes(&mut out, digits.as_slice());
        assert(out@ =~= seq![0x2du8] + decimal_digits((-v) as nat));
        out
    } else {
        format_u64(v as u64)
    }
}

proof fn lemma_digits_all_digits(v: nat)
    ensures
        all_digits(decimal_digits(v)),
        decimal_digits(v).len() > 0,
        decimal_value(decimal_digits(v)) == v,
    decreases v,
{
    let d = decimal_digits(v);
    if v < 10 {
        assert(d.drop_last() =~= Seq::<u8>::empty());
        assert(decimal_value(d.drop_last()) == 0);
        assert(d.last() - 0x30 == v);
    } else {
        lemma_digits_all_digits(v / 10);
        assert(d.drop_last() =~= decimal_digits(v / 10));
        assert((v / 10) * 10 + v % 10 == v) by (nonlinear_arith);
        assert(d.last() == (0x30 + v % 10) as u8);
        assert(d.last() - 0x30 == v % 10);
        assert(decimal_value(d) == decimal_value(d.drop_last()) * 10 + (d.last() - 0x30));
        assert forall|i: int| 0 <= i < d.len() implies is_digit(#[trigger] d[i]) by {
            if i < d.len() - 1 {
                assert(d[i] == decimal_digits(v / 10)[i]);
            }
        }
    }
}

/// Reading the decimal text written for a number gives the number back.
pub proof fn lemma_unsigned_round_trip(v: nat)
    ensures
        unsigned_value(decimal_digits(v)) == Some(v as int),
{
    lemma_digits_all_digits(v);
}

/// Reading the signed decimal text written for a number gives the number back.
pub proof fn lemma_signed_round_trip(v: int)
    ensures
        signed_value(signed_digits(v)) == Some(v),
{
    if v < 0 {
        lemma_digits_all_digits((-v) as nat);
        let s = signed_digits(v);
        assert(s.skip(1) =~= decimal_digits((-v) as nat));
    } else {
        lemma_digits_all_digits(v as nat);
    }
}

} // verus!
