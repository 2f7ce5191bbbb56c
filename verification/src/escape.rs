use vstd::prelude::*;
use vstd::utf8::{encode_scalar, is_scalar, has_width_1_encoding, has_width_2_encoding, has_width_3_encoding, leading_byte_width_1, leading_byte_width_2, leading_byte_width_3, leading_byte_width_4, last_continuation_byte, second_last_continuation_byte, third_last_continuation_byte};

verus! {

// ---------------------------------------------------------------------------
// Escaping
// ---------------------------------------------------------------------------

/// The XML replacement of one byte: the five markup characters and carriage return
/// become references, every other byte stands for itself.
pub open spec fn escape_byte(b: u8) -> Seq<u8> {
    if b == 0x3cu8 {
        seq![0x26u8, 0x6cu8, 0x74u8, 0x3bu8]
    } else if b == 0x3eu8 {
        seq![0x26u8, 0x67u8, 0x74u8, 0x3bu8]
    } else if b == 0x26u8 {
        seq![0x26u8, 0x61u8, 0x6du8, 0x70u8, 0x3bu8]
    } else if b == 0x27u8 {
        seq![0x26u8, 0x61u8, 0x70u8, 0x6fu8, 0x73u8, 0x3bu8]
    } else if b == 0x22u8 {
        seq![0x26u8, 0x71u8, 0x75u8, 0x6fu8, 0x74u8, 0x3bu8]
    } else if b == 13u8 {
        seq![0x26u8, 0x23u8, 0x31u8, 0x33u8, 0x3bu8]
    } else {
        seq![b]
    }
}

/// The escaped form of a byte string: each byte replaced by `escape_byte`.
pub open spec fn escaped(s: Seq<u8>) -> Seq<u8>
    decreases s.len(),
{
    if s.len() == 0 {
        seq![]
    } else {
        escape_byte(s[0]) + escaped(s.skip(1))
    }
}

proof fn lemma_escaped_push(s: Seq<u8>, b: u8)
    ensures
        escaped(s.push(b)) == escaped(s) + escape_byte(b),
    decreases s.len(),
{
    if s.len() == 0 {
        assert(s.push(b).skip(1) =~= seq![]);
        assert(escaped(seq![]) == Seq::<u8>::empty());
        assert(escaped(s.push(b)) =~= escaped(s) + escape_byte(b));
    } else {
        assert(s.push(b).skip(1) =~= s.skip(1).push(b));
        lemma_escaped_push(s.skip(1), b);
        assert(escaped(s.push(b)) =~= escaped(s) + escape_byte(b));
    }
}

fn push_all(out: &mut Vec<u8>, bytes: &[u8])
    ensures
        final(out)@ == old(out)@ + bytes@,
{
    let mut i: usize = 0;
    while i < bytes.len()
        invariant
            i <= bytes@.len(),
            out@ == old(out)@ + bytes@.subrange(0, i as int),
        decreases bytes@.len() - i,
    {
        out.push(bytes[i]);
        i += 1;
        assert(out@ =~= old(out)@ + bytes@.subrange(0, i as int));
    }
    assert(bytes@.subrange(0, bytes@.len() as int) =~= bytes@);
}

/// Replaces the XML markup characters of a text with references, so that the text
/// can stand in element content and in quoted attribute values.
pub fn escape(text: &[u8]) -> (r: Vec<u8>)
    ensures
        r@ == escaped(text@),
{
    let mut out: Vec<u8> = Vec::new();
    let mut i: usize = 0;
    while i < text.len()
        invariant
            i <= text@.len(),
            out@ == escaped(text@.subrange(0, i as int)),
        decreases text@.len() - i,
    {
        let b = text[i];
        if b == 0x3cu8 {
            push_all(&mut out, &[0x26u8, 0x6cu8, 0x74u8, 0x3bu8]);
        } else if b == 0x3eu8 {
            push_all(&mut out, &[0x26u8, 0x67u8, 0x74u8, 0x3bu8]);
        } else if b == 0x26u8 {
            push_all(&mut out, &[0x26u8, 0x61u8, 0x6du8, 0x70u8, 0x3bu8]);
        } else if b == 0x27u8 {
            push_all(&mut out, &[0x26u8, 0x61u8, 0x70u8, 0x6fu8, 0x73u8, 0x3bu8]);
        } else if b == 0x22u8 {
            push_all(&mut out, &[0x26u8, 0x71u8, 0x75u8, 0x6fu8, 0x74u8, 0x3bu8]);
        } else if b == 13u8 {
            push_all(&mut out, &[0x26u8, 0x23u8, 0x31u8, 0x33u8, 0x3bu8]);
        } else {
            out.push(b);
        }
        proof {
            assert(text@.subrange(0, i + 1) =~= text@.subrange(0, i as int).push(b));
            lemma_escaped_push(text@.subrange(0, i as int), b);
            assert(out@ =~= escaped(text@.subrange(0, i as int)) + escape_byte(b));
        }
        i += 1;
    }
    assert(text@.subrange(0, text@.len() as int) =~= text@);
    out
}

// ---------------------------------------------------------------------------
// Decoding references
// ---------------------------------------------------------------------------

/// The index of the first `b` in `s` at or after `from`, or `s.len()` when there is none.
pub open spec fn find_byte(s: Seq<u8>, from: int, b: u8) -> int
    decreases s.len() - from,
{
    if from < 0 || from >= s.len() {
        s.len() as int
    } else if s[from] == b {
        from
    } else {
        find_byte(s, from + 1, b)
    }
}

pub open spec fn is_digit(b: u8) -> bool {
    0x30u8 <= b <= 0x39u8
}

pub open spec fn is_hex_digit(b: u8) -> bool {
    is_digit(b) || (0x61u8 <= b <= 0x66u8) || (0x41u8 <= b <= 0x46u8)
}

pub open spec fn hex_digit_value(b: u8) -> int {
    if is_digit(b) {
        b - 0x30u8
    } else if 0x61u8 <= b <= 0x66u8 {
        b - 0x61u8 + 10
    } else {
        b - 0x41u8 + 10
    }
}

pub open spec fn all_digits(s: Seq<u8>) -> bool {
    forall|i: int| 0 <= i < s.len() ==> is_digit(#[trigger] s[i])
}

pub open spec fn all_hex_digits(s: Seq<u8>) -> bool {
    forall|i: int| 0 <= i < s.len() ==> is_hex_digit(#[trigger] s[i])
}

/// The value of a string of decimal digits.
pub open spec fn decimal_value(s: Seq<u8>) -> int
    decreases s.len(),
{
    if s.len() == 0 {
        0
    } else {
        decimal_value(s.drop_last()) * 10 + (s.last() - 0x30u8)
    }
}

/// The value of a string of hexadecimal digits.
pub open spec fn hex_value(s: Seq<u8>) -> int
    decreases s.len(),
{
    if s.len() == 0 {
        0
    } else {
        hex_value(s.drop_last()) * 16 + hex_digit_value(s.last())
    }
}

/// The character a reference with the given code point stands for, UTF-8 encoded.
pub open spec fn scalar_bytes(v: int) -> Option<Seq<u8>> {
    if 0 < v <= 0x10FFFF && is_scalar(v as u32) {
        Some(encode_scalar(v as u32))
    } else {
        None
    }
}

/// What the name between `&` and `;` of a reference stands for.
pub open spec fn reference_value(name: Seq<u8>) -> Option<Seq<u8>> {
    if name == seq![0x6cu8, 0x74u8] {
        Some(seq![0x3cu8])
    } else if name == seq![0x67u8, 0x74u8] {
        Some(seq![0x3eu8])
    } else if name == seq![0x61u8, 0x6du8, 0x70u8] {
        Some(seq![0x26u8])
    } else if name == seq![0x71u8, 0x75u8, 0x6fu8, 0x74u8] {
        Some(seq![0x22u8])
    } else if name == seq![0x61u8, 0x70u8, 0x6fu8, 0x73u8] {
        Some(seq![0x27u8])
    } else if name.len() >= 3 && name[0] == 0x23u8 && name[1] == 0x78u8 && all_hex_digits(name.skip(2)) {
        scalar_bytes(hex_value(name.skip(2)))
    } else if name.len() >= 2 && name[0] == 0x23u8 && all_digits(name.skip(1)) {
        scalar_bytes(decimal_value(name.skip(1)))
    } else {
        None
    }
}

/// The decoded form of character data: references replaced by what they stand for.
/// `None` when a reference is unterminated or unknown.
pub open spec fn decoded(s: Seq<u8>) -> Option<Seq<u8>>
    decreases s.len(),
{
    if s.len() == 0 {
        Some(seq![])
    } else if s[0] != 0x26u8 {
        match decoded(s.skip(1)) {
            Some(t) => Some(seq![s[0]] + t),
            None => None,
        }
    } else {
        let k = find_byte(s, 1, 0x3bu8);
        if k < 1 || k >= s.len() {
            None
        } else {
            match reference_value(s.subrange(1, k)) {
                Some(v) => match decoded(s.skip(k + 1)) {
                    Some(t) => Some(v + t),
                    None => None,
                },
                None => None,
            }
        }
    }
}

proof fn lemma_find_byte_bounds(s: Seq<u8>, from: int, b: u8)
    requires
        0 <= from,
    ensures
        from <= find_byte(s, from, b) <= s.len() || (from > s.len() && find_byte(s, from, b)
            == s.len()),
        find_byte(s, from, b) < s.len() ==> s[find_byte(s, from, b)] == b,
        forall|j: int| from <= j < find_byte(s, from, b) ==> s[j] != b,
    decreases s.len() - from,
{
    if from < s.len() && s[from] != b {
        lemma_find_byte_bounds(s, from + 1, b);
    }
}

proof fn lemma_decimal_monotone(s: Seq<u8>, n: int)
    requires
        all_digits(s),
        0 <= n <= s.len(),
    ensures
        decimal_value(s.subrange(0, n)) <= decimal_value(s),
        decimal_value(s) >= 0,
    decreases s.len(),
{
    if s.len() > 0 {
        assert(all_digits(s.drop_last()));
        if n == s.len() {
            assert(s.subrange(0, n) =~= s);
            lemma_decimal_monotone(s.drop_last(), n - 1);
        } else {
            assert(s.drop_last().subrange(0, n) =~= s.subrange(0, n));
            lemma_decimal_monotone(s.drop_last(), n);
        }
    } else {
        assert(s.subrange(0, n) =~= s);
    }
}

proof fn lemma_hex_monotone(s: Seq<u8>, n: int)
    requires
        all_hex_digits(s),
        0 <= n <= s.len(),
    ensures
        hex_value(s.subrange(0, n)) <= hex_value(s),
        hex_value(s) >= 0,
    decreases s.len(),
{
    if s.len() > 0 {
        assert(all_hex_digits(s.drop_last()));
        if n == s.len() {
            assert(s.subrange(0, n) =~= s);
            lemma_hex_monotone(s.drop_last(), n - 1);
        } else {
            assert(s.drop_last().subrange(0, n) =~= s.subrange(0, n));
            lemma_hex_monotone(s.drop_last(), n);
        }
    } else {
        assert(s.subrange(0, n) =~= s);
    }
}

/// Encodes a Unicode scalar value as UTF-8.
fn encode_scalar_exec(scalar: u32) -> (r: Vec<u8>)
    requires
        is_scalar(scalar),
    ensures
        r@ == encode_scalar(scalar),
{
    let mut v: Vec<u8> = Vec::new();
    if scalar <= 0x7F {
        v.push((scalar & 0x7F) as u8);
        assert(v@ =~= seq![leading_byte_width_1(scalar)]);
    } else if scalar <= 0x7FF {
        v.push(0xC0 | ((scalar >> 6) & 0x1F) as u8);
        v.push(0x80 | (scalar & 0x3F) as u8);
        assert(v@ =~= seq![leading_byte_width_2(scalar), last_continuation_byte(scalar)]);
    } else if scalar <= 0xFFFF {
        v.push(0xE0 | ((scalar >> 12) & 0x0F) as u8);
        v.push(0x80 | ((scalar >> 6) & 0x3F) as u8);
        v.push(0x80 | (scalar & 0x3F) as u8);
        assert(v@ =~= seq![
            leading_byte_width_3(scalar),
            second_last_continuation_byte(scalar),
            last_continuation_byte(scalar),
        ]);
    } else {
        v.push(0xF0 | ((scalar >> 18) & 0x7) as u8);
        v.push(0x80 | ((scalar >> 12) & 0x3F) as u8);
        v.push(0x80 | ((scalar >> 6) & 0x3F) as u8);
        v.push(0x80 | (scalar & 0x3F) as u8);
        assert(v@ =~= seq![
            leading_byte_width_4(scalar),
            third_last_continuation_byte(scalar),
            second_last_continuation_byte(scalar),
            last_continuation_byte(scalar),
        ]);
    }
    v
}

fn scalar_bytes_exec(v: u32) -> (r: Option<Vec<u8>>)
    ensures
        match r {
            Some(b) => scalar_bytes(v as int) == Some(b@),
            None => scalar_bytes(v as int) is None,
        },
{
    if v == 0 || v > 0x10FFFF || (0xD800 <= v && v <= 0xDFFF) {
        return None;
    }
    Some(encode_scalar_exec(v))
}

/// The value of the digits `s[from..to]`, or `None` when it exceeds the largest
/// Unicode code point or a byte is not a digit of the base.
fn digits_value(s: &[u8], from: usize, to: usize, hex: bool) -> (r: Option<u32>)
    requires
        from <= to <= s@.len(),
    ensures
        hex ==> match r {
            Some(v) => all_hex_digits(s@.subrange(from as int, to as int)) && v == hex_value(
                s@.subrange(from as int, to as int),
            ),
            None => !all_hex_digits(s@.subrange(from as int, to as int)) || hex_value(
                s@.subrange(from as int, to as int),
            ) > 0x10FFFF,
        },
        !hex ==> match r {
            Some(v) => all_digits(s@.subrange(from as int, to as int)) && v == decimal_value(
                s@.subrange(from as int, to as int),
            ),
            None => !all_digits(s@.subrange(from as int, to as int)) || decimal_value(
                s@.subrange(from as int, to as int),
            ) > 0x10FFFF,
        },
{
    let ghost whole = s@.subrange(from as int, to as int);
    let mut value: u32 = 0;
    let mut i = from;
    while i < to
        invariant
            from <= i <= to <= s@.len(),
            whole == s@.subrange(from as int, to as int),
            value <= 0x10FFFF,
            hex ==> all_hex_digits(s@.subrange(from as int, i as int)) && value == hex_value(
                s@.subrange(from as int, i as int),
            ),
            !hex ==> all_digits(s@.subrange(from as int, i as int)) && value == decimal_value(
                s@.subrange(from as int, i as int),
            ),
        decreases to - i,
    {
        let b = s[i];
        let ghost prefix = s@.subrange(from as int, i as int);
        let ghost next = s@.subrange(from as int, i + 1);
        assert(next.drop_last() =~= prefix);
        assert(next.last() == b);
        let d: u32;
        if 0x30u8 <= b && b <= 0x39u8 {
            d = (b - 0x30u8) as u32;
        } else if hex && 0x61u8 <= b && b <= 0x66u8 {
            d = (b - 0x61u8) as u32 + 10;
        } else if hex && 0x41u8 <= b && b <= 0x46u8 {
            d = (b - 0x41u8) as u32 + 10;
        } else {
            proof {
                let k = i - from;
                assert(whole[k] == b);
                assert(hex ==> !is_hex_digit(whole[k]));
                assert(!hex ==> !is_digit(whole[k]));
            }
            return None;
        }
        let base: u32 = if hex { 16 } else { 10 };
        let nv = value * base + d;
        proof {
            if hex {
                assert(forall|j: int| 0 <= j < next.len() ==> is_hex_digit(#[trigger] next[j])) by {
                    assert forall|j: int| 0 <= j < next.len() implies is_hex_digit(#[trigger] next[j]) by {
                        if j < prefix.len() {
                            assert(next[j] == prefix[j]);
                        }
                    }
                }
            } else {
                assert(forall|j: int| 0 <= j < next.len() ==> is_digit(#[trigger] next[j])) by {
                    assert forall|j: int| 0 <= j < next.len() implies is_digit(#[trigger] next[j]) by {
                        if j < prefix.len() {
                            assert(next[j] == prefix[j]);
                        }
                    }
                }
            }
        }
        if nv > 0x10FFFF {
            proof {
                let n = (i + 1 - from) as int;
                assert(whole.subrange(0, n) =~= next);
                if hex {
                    if all_hex_digits(whole) {
                        lemma_hex_monotone(whole, n);
                    }
                } else {
                    if all_digits(whole) {
                        lemma_decimal_monotone(whole, n);
                    }
                }
            }
            return None;
        }
        value = nv;
        i += 1;
    }
    Some(value)
}

/// The length and value of the reference that starts at `s[i] == '&'`, up to its `;`.
fn reference_at(s: &[u8], i: usize) -> (r: Option<(usize, Vec<u8>)>)
    requires
        i < s@.len(),
        s@[i as int] == 0x26u8,
    ensures
        ({
            let t = s@.skip(i as int);
            let k = find_byte(t, 1, 0x3bu8);
            match r {
                Some((n, v)) => k < t.len() && n == k + 1 && reference_value(t.subrange(1, k))
                    == Some(v@),
                None => k >= t.len() || reference_value(t.subrange(1, k)) is None,
            }
        }),
{
    let ghost t = s@.skip(i as int);
    let n = s.len();
    let mut k = i + 1;
    while k < s.len() && s[k] != 0x3bu8
        invariant
            i < k <= s@.len(),
            t == s@.skip(i as int),
            find_byte(t, 1, 0x3bu8) == find_byte(t, (k - i) as int, 0x3bu8),
        decreases s@.len() - k,
    {
        k += 1;
    }
    if k >= s.len() {
        return None;
    }
    let ghost name = t.subrange(1, (k - i) as int);
    assert(name =~= s@.subrange(i + 1, k as int));
    let len = k - i - 1;
    let a = i + 1;
    let r: Option<Vec<u8>>;
    if len == 2 && s[a] == 0x6cu8 && s[a + 1] == 0x74u8 {
        assert(name =~= seq![0x6cu8, 0x74u8]);
        r = Some(vec![0x3cu8]);
        assert(r.unwrap()@ =~= seq![0x3cu8]);
    } else if len == 2 && s[a] == 0x67u8 && s[a + 1] == 0x74u8 {
        assert(name =~= seq![0x67u8, 0x74u8]);
        r = Some(vec![0x3eu8]);
        assert(r.unwrap()@ =~= seq![0x3eu8]);
    } else if len == 3 && s[a] == 0x61u8 && s[a + 1] == 0x6du8 && s[a + 2] == 0x70u8 {
        assert(name =~= seq![0x61u8, 0x6du8, 0x70u8]);
        r = Some(vec![0x26u8]);
        assert(r.unwrap()@ =~= seq![0x26u8]);
    } else if len == 4 && s[a] == 0x71u8 && s[a + 1] == 0x75u8 && s[a + 2] == 0x6fu8 && s[a + 3]
        == 0x74u8 {
        assert(name =~= seq![0x71u8, 0x75u8, 0x6fu8, 0x74u8]);
        r = Some(vec![0x22u8]);
        assert(r.unwrap()@ =~= seq![0x22u8]);
    } else if len == 4 && s[a] == 0x61u8 && s[a + 1] == 0x70u8 && s[a + 2] == 0x6fu8 && s[a + 3]
        == 0x73u8 {
        assert(name =~= seq![0x61u8, 0x70u8, 0x6fu8, 0x73u8]);
        r = Some(vec![0x27u8]);
        assert(r.unwrap()@ =~= seq![0x27u8]);
    } else {
        assert(name != seq![0x6cu8, 0x74u8]);
        assert(name != seq![0x67u8, 0x74u8]);
        assert(name != seq![0x61u8, 0x6du8, 0x70u8]);
        assert(name != seq![0x71u8, 0x75u8, 0x6fu8, 0x74u8]);
        assert(name != seq![0x61u8, 0x70u8, 0x6fu8, 0x73u8]);
        if len >= 3 && s[a] == 0x23u8 && s[a + 1] == 0x78u8 {
            assert(name.skip(2) =~= s@.subrange(a + 2, k as int));
            assert(!is_digit(name.skip(1)[0]));
            r = match digits_value(s, a + 2, k, true) {
                Some(v) => scalar_bytes_exec(v),
                None => None,
            };
        } else if len >= 2 && s[a] == 0x23u8 {
            assert(name.skip(1) =~= s@.subrange(a + 1, k as int));
            r = match digits_value(s, a + 1, k, false) {
                Some(v) => scalar_bytes_exec(v),
                None => None,
            };
        } else {
            r = None;
        }
    }
    match r {
        Some(v) => Some((k - i + 1, v)),
        None => None,
    }
}

/// Prepends `o` to a decoding result.
pub open spec fn prepend(o: Seq<u8>, x: Option<Seq<u8>>) -> Option<Seq<u8>> {
    match x {
        Some(t) => Some(o + t),
        None => None,
    }
}

/// Decodes character data: replaces each predefined entity and character reference
/// with what it stands for. `None` when a reference is unterminated or unknown.
pub fn unescape(s: &[u8]) -> (r: Option<Vec<u8>>)
    ensures
        match r {
            Some(v) => decoded(s@) == Some(v@),
            None => decoded(s@) is None,
        },
{
    let n = s.len();
    let mut out: Vec<u8> = Vec::new();
    let mut i: usize = 0;
    assert(s@.skip(0) =~= s@);
    while i < n
        invariant
            n == s@.len(),
            i <= n,
            decoded(s@) == prepend(out@, decoded(s@.skip(i as int))),
        decreases n - i,
    {
        let ghost t = s@.skip(i as int);
        if s[i] != 0x26u8 {
            assert(t.skip(1) =~= s@.skip(i + 1));
            out.push(s[i]);
            proof {
                let old_out = out@.drop_last();
                assert(old_out + (seq![s@[i as int]] + Seq::<u8>::empty()) =~= out@);
                match decoded(s@.skip(i + 1)) {
                    Some(u) => {
                        assert(old_out + (seq![s@[i as int]] + u) =~= out@ + u);
                    },
                    None => {},
                }
            }
            i += 1;
        } else {
            match reference_at(s, i) {
                Some((len, value)) => {
                    proof {
                        lemma_find_byte_bounds(t, 1, 0x3bu8);
                        let k = find_byte(t, 1, 0x3bu8);
                        assert(t.skip(k + 1) =~= s@.skip(i + len));
                        match decoded(s@.skip(i + len)) {
                            Some(u) => {
                                assert(out@ + (value@ + u) =~= (out@ + value@) + u);
                            },
                            None => {},
                        }
                    }
                    let mut value = value;
                    out.append(&mut value);
                    i += len;
                },
                None => {
                    proof {
                        lemma_find_byte_bounds(t, 1, 0x3bu8);
                    }
                    return None;
                },
            }
        }
    }
    assert(s@.skip(n as int) =~= Seq::<u8>::empty());
    assert(out@ + Seq::<u8>::empty() =~= out@);
    Some(out)
}

proof fn lemma_decoded_concat_entity(e: Seq<u8>, name: Seq<u8>, v: Seq<u8>, rest: Seq<u8>)
    requires
        e.len() == name.len() + 2,
        e[0] == 0x26u8,
        e.last() == 0x3bu8,
        e.subrange(1, e.len() - 1) == name,
        forall|j: int| 0 <= j < name.len() ==> name[j] != 0x3bu8,
        reference_value(name) == Some(v),
    ensures
        decoded(e + rest) == prepend(v, decoded(rest)),
{
    let s = e + rest;
    let k = name.len() + 1int;
    assert forall|j: int| 1 <= j < k implies s[j] != 0x3bu8 by {
        assert(s[j] == name[j - 1]);
    }
    lemma_find_byte_prefix(s, 1, k);
    assert(s.subrange(1, k) =~= name);
    assert(s.skip(k + 1) =~= rest);
}

proof fn lemma_find_byte_prefix(s: Seq<u8>, from: int, k: int)
    requires
        1 <= from <= k < s.len(),
        s[k] == 0x3bu8,
        forall|j: int| from <= j < k ==> s[j] != 0x3bu8,
    ensures
        find_byte(s, from, 0x3bu8) == k,
    decreases k - from,
{
    if from < k {
        lemma_find_byte_prefix(s, from + 1, k);
    }
}

/// Decoding the escaped form of any byte string gives the byte string back.
pub proof fn lemma_decoded_escaped(s: Seq<u8>)
    ensures
        decoded(escaped(s)) == Some(s),
    decreases s.len(),
{
    if s.len() == 0 {
        assert(escaped(s) =~= Seq::<u8>::empty());
    } else {
        let b = s[0];
        let rest = escaped(s.skip(1));
        lemma_decoded_escaped(s.skip(1));
        let e = escape_byte(b);
        if b == 0x3cu8 || b == 0x3eu8 || b == 0x26u8 || b == 0x27u8 || b == 0x22u8 || b == 13u8 {
            let name = e.subrange(1, e.len() - 1);
            if b == 13u8 {
                let digits = name.skip(1);
                assert(digits =~= seq![0x31u8, 0x33u8]);
                let d1 = digits.drop_last();
                assert(d1 =~= seq![0x31u8]);
                assert(d1.drop_last() =~= Seq::<u8>::empty());
                assert(decimal_value(d1.drop_last()) == 0);
                assert(decimal_value(d1) == 1);
                assert(decimal_value(digits) == 13);
                assert((13u32 & 0x7Fu32) as u8 == 13u8) by (bit_vector);
                assert(encode_scalar(13u32) =~= seq![13u8]);
                assert(name =~= seq![0x23u8, 0x31u8, 0x33u8]);
                assert(name != seq![0x6cu8, 0x74u8]);
                assert(name != seq![0x67u8, 0x74u8]);
                assert(name != seq![0x61u8, 0x6du8, 0x70u8]);
                assert(name != seq![0x71u8, 0x75u8, 0x6fu8, 0x74u8]);
                assert(name != seq![0x61u8, 0x70u8, 0x6fu8, 0x73u8]);
            } else if b == 0x3cu8 {
                assert(name =~= seq![0x6cu8, 0x74u8]);
            } else if b == 0x3eu8 {
                assert(name =~= seq![0x67u8, 0x74u8]);
            } else if b == 0x26u8 {
                assert(name =~= seq![0x61u8, 0x6du8, 0x70u8]);
            } else if b == 0x27u8 {
                assert(name =~= seq![0x61u8, 0x70u8, 0x6fu8, 0x73u8]);
            } else {
                assert(name =~= seq![0x71u8, 0x75u8, 0x6fu8, 0x74u8]);
            }
            assert(reference_value(name) == Some(seq![b]));
            lemma_decoded_concat_entity(e, name, seq![b], rest);
        } else {
            let t = e + rest;
            assert(t.skip(1) =~= rest);
        }
        assert(escaped(s) == e + rest);
        assert(seq![b] + s.skip(1) =~= s);
    }
}

// ---------------------------------------------------------------------------
// Text references as quick-xml reads them
// ---------------------------------------------------------------------------

/// The text that `quick_xml::escape::unescape` makes of `raw`; `None` where it reports
/// an unterminated or unrecognised reference.
pub uninterp spec fn xml_unescaped(raw: Seq<char>) -> Option<Seq<char>>;

/// Calls `quick_xml::escape::unescape`. Its result is named `xml_unescaped` of the input;
/// the source also shows that text without `&` comes back unchanged.
#[verifier::external_body]
pub(crate) fn unescape_text(raw: &str) -> (r: Option<String>)
    ensures
        match r {
            Some(s) => xml_unescaped(raw@) == Some(s@) && ((forall|i: int| 0 <= i < raw@.len() ==> raw@[i] != '&')
                ==> s@ == raw@),
            None => xml_unescaped(raw@) is None && exists|i: int| 0 <= i < raw@.len() && raw@[i] == '&',
        },
{
    match quick_xml::escape::unescape(raw) {
        Ok(value) => Some(value.into_owned()),
        Err(_) => None,
    }
}

} // verus!
