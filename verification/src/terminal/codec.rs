//! Base64 and hex codecs used by the graphics and clipboard escape sequences.

use vstd::prelude::*;

verus! {

/// Value of a byte of the standard base64 alphabet.
pub open spec fn b64_value(b: u8) -> Option<u8> {
    if 0x41 <= b && b <= 0x5a {
        Some((b - 0x41) as u8)
    } else if 0x61 <= b && b <= 0x7a {
        Some((b - 0x61 + 26) as u8)
    } else if 0x30 <= b && b <= 0x39 {
        Some((b - 0x30 + 52) as u8)
    } else if b == 0x2b {
        Some(62u8)
    } else if b == 0x2f {
        Some(63u8)
    } else {
        None
    }
}

/// Bytes that base64 decoding always skips: padding and line/space separators.
pub open spec fn b64_skippable(b: u8) -> bool {
    b == 0x3d || b == 0x0a || b == 0x0d || b == 0x20
}

/// The 6-bit values of the alphabet bytes of `input`, in order; every other
/// byte is skipped.
pub open spec fn sextets(input: Seq<u8>) -> Seq<u8>
    decreases input.len(),
{
    if input.len() == 0 {
        Seq::empty()
    } else {
        let p = sextets(input.drop_last());
        match b64_value(input.last()) {
            Some(v) => p.push(v),
            None => p,
        }
    }
}

/// The bytes packed in a stream of 6-bit values: each value after the first of
/// a group of four completes one byte together with its predecessor; a lone
/// trailing value carries no whole byte.
pub open spec fn unpack_sextets(s: Seq<u8>) -> Seq<u8>
    decreases s.len(),
{
    if s.len() == 0 {
        Seq::empty()
    } else {
        let p = unpack_sextets(s.drop_last());
        let n = s.len() as int;
        if n % 4 == 1 {
            p
        } else if n % 4 == 2 {
            p.push(((s[n - 2] << 2) | (s[n - 1] >> 4)) as u8)
        } else if n % 4 == 3 {
            p.push((((s[n - 2] & 0x0f) << 4) | (s[n - 1] >> 2)) as u8)
        } else {
            p.push((((s[n - 2] & 0x03) << 6) | s[n - 1]) as u8)
        }
    }
}

/// Lenient base64 decoding: bytes outside the alphabet are skipped.
pub open spec fn b64_decode_lenient(input: Seq<u8>) -> Seq<u8> {
    unpack_sextets(sextets(input))
}

/// Strict base64 decoding: fails on any byte that is neither in the alphabet
/// nor padding or a line/space separator.
pub open spec fn b64_decode_strict(input: Seq<u8>) -> Option<Seq<u8>> {
    if exists|i: int| 0 <= i < input.len() && b64_value(#[trigger] input[i]) is None
        && !b64_skippable(input[i]) {
        None
    } else {
        Some(b64_decode_lenient(input))
    }
}

/// Bit buffer state after `n` sextets, the last of which is `last`.
spec fn bitbuf_ok(n: nat, last: u8, buf: u32, bits: u32) -> bool {
    if n % 4 == 0 {
        bits == 0 && buf == 0
    } else if n % 4 == 1 {
        bits == 6 && buf == last as u32
    } else if n % 4 == 2 {
        bits == 4 && buf == (last & 0x0f) as u32
    } else {
        bits == 2 && buf == (last & 0x03) as u32
    }
}

/// One step of the bit buffer: what shifting in `val` produces.
proof fn lemma_bitbuf_step(pv: u8, val: u8, buf: u32, bits: u32, m: nat)
    requires
        val < 64,
        pv < 64,
        bitbuf_ok(m, pv, buf, bits),
    ensures
        ({
            let b2 = (buf << 6) | val as u32;
            let k2 = (bits + 6) as u32;
            if m % 4 == 0 {
                k2 < 8 && b2 == val as u32 && bitbuf_ok(m + 1, val, b2, k2)
            } else {
                let k3 = (k2 - 8) as u32;
                &&& k2 >= 8
                &&& (1u32 << k3) >= 1
                &&& bitbuf_ok(m + 1, val, b2 & ((1u32 << k3) - 1) as u32, k3)
                &&& (b2 >> k3) < 256
                &&& (m % 4 == 1 ==> (b2 >> k3) as u8 == ((pv << 2) | (val >> 4)) as u8)
                &&& (m % 4 == 2 ==> (b2 >> k3) as u8 == (((pv & 0x0f) << 4) | (val >> 2)) as u8)
                &&& (m % 4 == 3 ==> (b2 >> k3) as u8 == (((pv & 0x03) << 6) | val) as u8)
            }
        }),
{
    if m % 4 == 0 {
        assert(buf == 0 && val < 64 ==> (buf << 6) | val as u32 == val as u32) by (bit_vector);
    } else if m % 4 == 1 {
        assert(buf == pv as u32 && pv < 64 && val < 64 ==> {
            let b2 = (buf << 6) | val as u32;
            &&& (b2 >> 4u32) < 256
            &&& (b2 >> 4u32) as u8 == ((pv << 2) | (val >> 4)) as u8
            &&& b2 & ((1u32 << 4u32) - 1) as u32 == (val & 0x0f) as u32
            &&& (1u32 << 4u32) >= 1
        }) by (bit_vector);
    } else if m % 4 == 2 {
        assert(buf == (pv & 0x0f) as u32 && pv < 64 && val < 64 ==> {
            let b2 = (buf << 6) | val as u32;
            &&& (b2 >> 2u32) < 256
            &&& (b2 >> 2u32) as u8 == (((pv & 0x0f) << 4) | (val >> 2)) as u8
            &&& b2 & ((1u32 << 2u32) - 1) as u32 == (val & 0x03) as u32
            &&& (1u32 << 2u32) >= 1
        }) by (bit_vector);
    } else {
        assert(buf == (pv & 0x03) as u32 && pv < 64 && val < 64 ==> {
            let b2 = (buf << 6) | val as u32;
            &&& (b2 >> 0u32) < 256
            &&& (b2 >> 0u32) as u8 == (((pv & 0x03) << 6) | val) as u8
            &&& b2 & ((1u32 << 0u32) - 1) as u32 == 0u32
            &&& (1u32 << 0u32) >= 1
        }) by (bit_vector);
    }
}

/// Base64 decoding as done by the graphics protocol: lenient, never fails.
pub fn base64_decode(input: &[u8]) -> (r: Option<Vec<u8>>)
    ensures
        r matches Some(v) && v@ == b64_decode_lenient(input@),
{
    let (out, _) = base64_decode_inner(input, false);
    Some(out)
}

/// Base64 decoding as done for clipboard data: strict.
pub fn base64_decode_strict(input: &[u8]) -> (r: Option<Vec<u8>>)
    ensures
        match r {
            Some(v) => b64_decode_strict(input@) == Some(v@),
            None => b64_decode_strict(input@) is None,
        },
{
    let (out, bad) = base64_decode_inner(input, true);
    if bad {
        None
    } else {
        Some(out)
    }
}

fn base64_decode_inner(input: &[u8], strict: bool) -> (r: (Vec<u8>, bool))
    ensures
        r.0@ == b64_decode_lenient(input@) || (strict && r.1),
        r.1 <==> (strict && exists|i: int|
            0 <= i < input.len() && b64_value(#[trigger] input@[i]) is None && !b64_skippable(
                input@[i],
            )),
{
    let mut output: Vec<u8> = Vec::new();
    let mut buf: u32 = 0;
    let mut bits: u32 = 0;
    let mut i: usize = 0;
    let ghost mut last: u8 = 0;
    proof {
        assert(input@.subrange(0, 0) =~= Seq::<u8>::empty());
    }
    while i < input.len()
        invariant
            0 <= i <= input.len(),
            bitbuf_ok(sextets(input@.subrange(0, i as int)).len(), last, buf, bits),
            last < 64,
            sextets(input@.subrange(0, i as int)).len() > 0 ==> last == sextets(
                input@.subrange(0, i as int),
            ).last(),
            output@ == unpack_sextets(sextets(input@.subrange(0, i as int))),
            strict ==> forall|j: int|
                0 <= j < i ==> b64_value(#[trigger] input@[j]) is Some || b64_skippable(input@[j]),
        decreases input.len() - i,
    {
        let byte = input[i];
        let ghost prev = input@.subrange(0, i as int);
        let ghost cur = input@.subrange(0, i + 1);
        proof {
            assert(cur.drop_last() =~= prev);
            assert(cur.last() == byte);
        }
        let val: u8 = if 0x41 <= byte && byte <= 0x5a {
            byte - 0x41
        } else if 0x61 <= byte && byte <= 0x7a {
            byte - 0x61 + 26
        } else if 0x30 <= byte && byte <= 0x39 {
            byte - 0x30 + 52
        } else if byte == 0x2b {
            62
        } else if byte == 0x2f {
            63
        } else {
            if strict && !(byte == 0x3d || byte == 0x0a || byte == 0x0d || byte == 0x20) {
                return (output, true);
            }
            i = i + 1;
            continue;
        };
        let ghost s_prev = sextets(prev);
        let ghost s_cur = sextets(cur);
        proof {
            assert(s_cur == s_prev.push(val));
            assert(s_cur.drop_last() =~= s_prev);
        }
        let ghost n = s_cur.len();
        let ghost pv = last;
        proof {
            assert(val < 64);
            lemma_bitbuf_step(pv, val, buf, bits, s_prev.len());
        }
        buf = (buf << 6) | val as u32;
        bits = bits + 6;
        if bits >= 8 {
            bits = bits - 8;
            let byte_out = (buf >> bits) as u8;
            output.push(byte_out);
            buf = buf & ((1u32 << bits) - 1);
        }
        proof {
            last = val;
        }
        i = i + 1;
    }
    proof {
        assert(input@.subrange(0, input.len() as int) =~= input@);
    }
    (output, false)
}

/// Upper-case hex digit for a nibble.
pub open spec fn hex_upper(n: u8) -> u8 {
    if n < 10 {
        (0x30 + n) as u8
    } else {
        (0x41 + n - 10) as u8
    }
}

/// Upper-case hex encoding: two digits per byte, high nibble first.
pub open spec fn hex_encoded(input: Seq<u8>) -> Seq<u8> {
    Seq::new(
        2 * input.len(),
        |i: int|
            if i % 2 == 0 {
                hex_upper(input[i / 2] >> 4)
            } else {
                hex_upper(input[i / 2] & 0x0f)
            },
    )
}

fn hex_upper_exec(n: u8) -> (r: u8)
    requires
        n < 16,
    ensures
        r == hex_upper(n),
{
    if n < 10 {
        0x30 + n
    } else {
        0x41 + n - 10
    }
}

/// Hex encoding (used for termcap replies).
pub fn hex_encode(input: &[u8]) -> (r: Vec<u8>)
    ensures
        r@ == hex_encoded(input@),
{
    let mut output: Vec<u8> = Vec::new();
    let mut i: usize = 0;
    while i < input.len()
        invariant
            0 <= i <= input.len(),
            output@.len() == 2 * i,
            forall|k: int| 0 <= k < 2 * i ==> output@[k] == hex_encoded(input@)[k],
        decreases input.len() - i,
    {
        let byte = input[i];
        assert(byte >> 4 < 16) by (bit_vector);
        assert(byte & 0x0f < 16) by (bit_vector);
        output.push(hex_upper_exec(byte >> 4));
        output.push(hex_upper_exec(byte & 0x0f));
        proof {
            assert forall|k: int| 0 <= k < 2 * (i + 1) implies output@[k] == hex_encoded(input@)[k] by {
                if k >= 2 * i {
                    assert(k / 2 == i);
                }
            }
        }
        i = i + 1;
    }
    proof {
        assert(output@ =~= hex_encoded(input@));
    }
    output
}

/// Hex decoding of byte pairs: pairs holding a non-hex byte are skipped, and a
/// trailing odd byte is ignored.
pub open spec fn hex_decoded_pairs(input: Seq<u8>, k: nat) -> Seq<u8>
    decreases k,
{
    if k == 0 {
        Seq::empty()
    } else {
        let p = hex_decoded_pairs(input, (k - 1) as nat);
        match (crate::ascii::hex_digit(input[2 * k - 2]), crate::ascii::hex_digit(input[2 * k - 1])) {
            (Some(h), Some(l)) => p.push((h * 16 + l) as u8),
            _ => p,
        }
    }
}

pub open spec fn hex_decoded(input: Seq<u8>) -> Seq<u8> {
    hex_decoded_pairs(input, input.len() / 2)
}

/// Hex decoding (used for termcap queries).
pub fn hex_decode(input: &[u8]) -> (r: Vec<u8>)
    ensures
        r@ == hex_decoded(input@),
{
    let mut output: Vec<u8> = Vec::new();
    let mut k: usize = 0;
    let pairs = input.len() / 2;
    while k < pairs
        invariant
            0 <= k <= pairs,
            pairs == input.len() / 2,
            output@ == hex_decoded_pairs(input@, k as nat),
        decreases pairs - k,
    {
        let hi = crate::ascii::digit_of(input[2 * k], true);
        let lo = crate::ascii::digit_of(input[2 * k + 1], true);
        match (hi, lo) {
            (Some(h), Some(l)) => {
                output.push(h * 16 + l);
            },
            _ => {},
        }
        k = k + 1;
    }
    output
}

/// The base64 alphabet byte for a 6-bit value.
pub open spec fn b64_char(v: u8) -> u8 {
    if v < 26 {
        (0x41 + v) as u8
    } else if v < 52 {
        (0x61 + v - 26) as u8
    } else if v < 62 {
        (0x30 + v - 52) as u8
    } else if v == 62 {
        0x2bu8
    } else {
        0x2fu8
    }
}

/// Base64 encoding of one group of 1 to 3 bytes, padded with `=` to four characters.
pub open spec fn b64_group(g: Seq<u8>) -> Seq<u8> {
    let b0 = g[0];
    let b1: u8 = if g.len() > 1 { g[1] } else { 0 };
    let b2: u8 = if g.len() > 2 { g[2] } else { 0 };
    seq![
        b64_char(b0 >> 2),
        b64_char(((b0 & 0x03) << 4) | (b1 >> 4)),
        if g.len() > 1 { b64_char(((b1 & 0x0f) << 2) | (b2 >> 6)) } else { 0x3du8 },
        if g.len() > 2 { b64_char(b2 & 0x3f) } else { 0x3du8 },
    ]
}

/// Padded base64 encoding.
pub open spec fn b64_encoded(input: Seq<u8>) -> Seq<u8>
    decreases input.len(),
{
    if input.len() == 0 {
        Seq::empty()
    } else if input.len() <= 3 {
        b64_group(input)
    } else {
        b64_group(input.take(3)) + b64_encoded(input.skip(3))
    }
}

fn b64_char_exec(v: u8) -> (r: u8)
    requires
        v < 64,
    ensures
        r == b64_char(v),
{
    if v < 26 {
        0x41 + v
    } else if v < 52 {
        0x61 + v - 26
    } else if v < 62 {
        0x30 + v - 52
    } else if v == 62 {
        0x2b
    } else {
        0x2f
    }
}

/// Padded base64 encoding (used for clipboard replies).
pub fn base64_encode(input: &[u8]) -> (r: Vec<u8>)
    ensures
        r@ == b64_encoded(input@),
{
    let mut output: Vec<u8> = Vec::new();
    let mut i: usize = 0;
    proof {
        assert(input@.skip(0) =~= input@);
    }
    while i < input.len()
        invariant
            0 <= i <= input.len(),
            output@ + b64_encoded(input@.skip(i as int)) == b64_encoded(input@),
        decreases input.len() - i,
    {
        let rest = input.len() - i;
        let b0 = input[i];
        let b1: u8 = if rest > 1 { input[i + 1] } else { 0 };
        let b2: u8 = if rest > 2 { input[i + 2] } else { 0 };
        let ghost g = if rest <= 3 { input@.skip(i as int) } else { input@.skip(i as int).take(3) };
        proof {
            assert(g[0] == b0);
            assert(g.len() > 1 ==> g[1] == b1);
            assert(g.len() > 2 ==> g[2] == b2);
        }
        assert(b0 >> 2 < 64) by (bit_vector);
        assert(((b0 & 0x03) << 4) | (b1 >> 4) < 64) by (bit_vector);
        assert(((b1 & 0x0f) << 2) | (b2 >> 6) < 64) by (bit_vector);
        assert(b2 & 0x3f < 64) by (bit_vector);
        let c0 = b64_char_exec(b0 >> 2);
        let c1 = b64_char_exec(((b0 & 0x03) << 4) | (b1 >> 4));
        let c2 = if rest > 1 {
            b64_char_exec(((b1 & 0x0f) << 2) | (b2 >> 6))
        } else {
            0x3d
        };
        let c3 = if rest > 2 {
            b64_char_exec(b2 & 0x3f)
        } else {
            0x3d
        };
        let ghost before = output@;
        output.push(c0);
        output.push(c1);
        output.push(c2);
        output.push(c3);
        proof {
            assert(output@ =~= before + b64_group(g));
            let s = input@.skip(i as int);
            if rest <= 3 {
                assert(b64_encoded(s) == b64_group(s));
                assert(input@.skip(input.len() as int) =~= Seq::<u8>::empty());
            } else {
                assert(s.skip(3) =~= input@.skip(i + 3));
            }
        }
        if rest <= 3 {
            i = input.len();
        } else {
            i = i + 3;
        }
    }
    proof {
        assert(input@.skip(input.len() as int) =~= Seq::<u8>::empty());
        assert(output@ + Seq::<u8>::empty() =~= output@);
    }
    output
}

// ============================================================================
// Round trips
// ============================================================================
/// A hex digit written by [`hex_upper`] reads back as its nibble.
proof fn lemma_hex_digit_upper(n: u8)
    requires
        n < 16,
    ensures
        crate::ascii::hex_digit(hex_upper(n)) == Some(n as nat),
{
}

/// Hex decoding undoes hex encoding: `hex_decode(hex_encode(s)) == s`.
pub proof fn lemma_hex_round_trip(s: Seq<u8>)
    ensures
        hex_decoded(hex_encoded(s)) == s,
{
    let e = hex_encoded(s);
    assert(e.len() / 2 == s.len()) by {
        assert(e.len() == 2 * s.len());
    }
    lemma_hex_pairs(s, s.len());
    assert(s.take(s.len() as int) =~= s);
}

proof fn lemma_hex_pairs(s: Seq<u8>, k: nat)
    requires
        k <= s.len(),
    ensures
        hex_decoded_pairs(hex_encoded(s), k) == s.take(k as int),
    decreases k,
{
    let e = hex_encoded(s);
    if k == 0 {
        assert(s.take(0) =~= Seq::<u8>::empty());
    } else {
        lemma_hex_pairs(s, (k - 1) as nat);
        let b = s[k - 1];
        let i = 2 * k - 2;
        assert(i % 2 == 0 && i / 2 == k - 1);
        assert((i + 1) % 2 == 1 && (i + 1) / 2 == k - 1);
        assert(e[i] == hex_upper(b >> 4));
        assert(e[i + 1] == hex_upper(b & 0x0f));
        assert(b >> 4 < 16) by (bit_vector);
        assert(b & 0x0f < 16) by (bit_vector);
        lemma_hex_digit_upper(b >> 4);
        lemma_hex_digit_upper(b & 0x0f);
        assert(((b >> 4) as nat * 16 + (b & 0x0f) as nat) as u8 == b) by (bit_vector);
        assert(s.take(k as int) =~= s.take(k - 1).push(b));
    }
}

/// An alphabet byte written by [`b64_char`] reads back as its value.
proof fn lemma_b64_char_value(v: u8)
    requires
        v < 64,
    ensures
        b64_value(b64_char(v)) == Some(v),
{
}

/// The 6-bit values of a concatenation are those of its parts.
proof fn lemma_sextets_concat(a: Seq<u8>, b: Seq<u8>)
    ensures
        sextets(a + b) == sextets(a) + sextets(b),
    decreases b.len(),
{
    if b.len() == 0 {
        assert(a + b =~= a);
        assert(sextets(a) + sextets(b) =~= sextets(a));
    } else {
        assert((a + b).drop_last() =~= a + b.drop_last());
        assert((a + b).last() == b.last());
        lemma_sextets_concat(a, b.drop_last());
        match b64_value(b.last()) {
            Some(v) => {
                assert(sextets(a) + sextets(b.drop_last()).push(v) =~= (sextets(a) + sextets(
                    b.drop_last(),
                )).push(v));
            },
            None => {},
        }
    }
}

/// Unpacking distributes over a split at a whole number of 4-value groups.
proof fn lemma_unpack_concat(a: Seq<u8>, b: Seq<u8>)
    requires
        a.len() % 4 == 0,
    ensures
        unpack_sextets(a + b) == unpack_sextets(a) + unpack_sextets(b),
    decreases b.len(),
{
    if b.len() == 0 {
        assert(a + b =~= a);
        assert(unpack_sextets(a) + unpack_sextets(b) =~= unpack_sextets(a));
    } else {
        let s = a + b;
        let n = s.len() as int;
        let m = b.len() as int;
        assert(s.drop_last() =~= a + b.drop_last());
        lemma_unpack_concat(a, b.drop_last());
        assert(n % 4 == m % 4) by {
            vstd::arithmetic::div_mod::lemma_mod_adds(a.len() as int, m, 4);
            vstd::arithmetic::div_mod::lemma_mod_self_0(4);
            vstd::arithmetic::div_mod::lemma_small_mod((m % 4) as nat, 4);
        }
        if m % 4 != 1 {
            assert(m >= 2);
            assert(s[n - 2] == b[m - 2]);
            assert(s[n - 1] == b[m - 1]);
        }
        let p = unpack_sextets(a);
        let q = unpack_sextets(b.drop_last());
        if m % 4 == 2 {
            let x = ((b[m - 2] << 2) | (b[m - 1] >> 4)) as u8;
            assert(p + q.push(x) =~= (p + q).push(x));
        } else if m % 4 == 3 {
            let x = (((b[m - 2] & 0x0f) << 4) | (b[m - 1] >> 2)) as u8;
            assert(p + q.push(x) =~= (p + q).push(x));
        } else if m % 4 == 0 {
            let x = (((b[m - 2] & 0x03) << 6) | b[m - 1]) as u8;
            assert(p + q.push(x) =~= (p + q).push(x));
        }
    }
}

/// One group encodes to one more 6-bit value than it has bytes, and those
/// values unpack to the group.
proof fn lemma_group_round_trip(g: Seq<u8>)
    requires
        1 <= g.len() <= 3,
    ensures
        sextets(b64_group(g)).len() == g.len() + 1,
        unpack_sextets(sextets(b64_group(g))) == g,
{
    let b0 = g[0];
    let b1: u8 = if g.len() > 1 { g[1] } else { 0 };
    let b2: u8 = if g.len() > 2 { g[2] } else { 0 };
    let v0 = b0 >> 2;
    let v1 = ((b0 & 0x03) << 4) | (b1 >> 4);
    let v2 = ((b1 & 0x0f) << 2) | (b2 >> 6);
    let v3 = b2 & 0x3f;
    assert(v0 < 64 && v1 < 64 && v2 < 64 && v3 < 64) by (bit_vector)
        requires
            v0 == b0 >> 2,
            v1 == ((b0 & 0x03) << 4) | (b1 >> 4),
            v2 == ((b1 & 0x0f) << 2) | (b2 >> 6),
            v3 == b2 & 0x3f,
    ;
    lemma_b64_char_value(v0);
    lemma_b64_char_value(v1);
    lemma_b64_char_value(v2);
    lemma_b64_char_value(v3);
    let e = b64_group(g);
    assert(((v0 << 2) | (v1 >> 4)) as u8 == b0) by (bit_vector)
        requires
            v0 == b0 >> 2,
            v1 == ((b0 & 0x03) << 4) | (b1 >> 4),
    ;
    assert((((v1 & 0x0f) << 4) | (v2 >> 2)) as u8 == b1) by (bit_vector)
        requires
            v1 == ((b0 & 0x03) << 4) | (b1 >> 4),
            v2 == ((b1 & 0x0f) << 2) | (b2 >> 6),
    ;
    assert((((v2 & 0x03) << 6) | v3) as u8 == b2) by (bit_vector)
        requires
            v2 == ((b1 & 0x0f) << 2) | (b2 >> 6),
            v3 == b2 & 0x3f,
    ;
    let e1 = e.drop_last();
    let e2 = e1.drop_last();
    let e3 = e2.drop_last();
    assert(e3.drop_last() =~= Seq::<u8>::empty());
    assert(sextets(e3) =~= seq![v0]) by {
        assert(e3.last() == b64_char(v0));
        assert(sextets(e3.drop_last()) =~= Seq::<u8>::empty());
    }
    assert(sextets(e2) =~= seq![v0, v1]) by {
        assert(e2.last() == b64_char(v1));
    }
    if g.len() == 1 {
        assert(b64_value(0x3du8) is None);
        assert(sextets(e1) =~= seq![v0, v1]);
        assert(sextets(e) =~= seq![v0, v1]);
        let t = seq![v0, v1];
        assert(t.drop_last() =~= seq![v0]);
        assert(seq![v0].drop_last() =~= Seq::<u8>::empty());
        assert(unpack_sextets(Seq::<u8>::empty()) =~= Seq::<u8>::empty());
        assert(unpack_sextets(seq![v0]) == unpack_sextets(seq![v0].drop_last()));
        assert(unpack_sextets(seq![v0]) =~= Seq::<u8>::empty());
        assert(unpack_sextets(t) =~= seq![b0]);
        assert(g =~= seq![b0]);
    } else if g.len() == 2 {
        assert(sextets(e1) =~= seq![v0, v1, v2]);
        assert(sextets(e) =~= seq![v0, v1, v2]);
        let t = seq![v0, v1, v2];
        assert(t.drop_last() =~= seq![v0, v1]);
        assert(seq![v0, v1].drop_last() =~= seq![v0]);
        assert(seq![v0].drop_last() =~= Seq::<u8>::empty());
        assert(unpack_sextets(Seq::<u8>::empty()) =~= Seq::<u8>::empty());
        assert(unpack_sextets(seq![v0]) == unpack_sextets(seq![v0].drop_last()));
        assert(unpack_sextets(seq![v0]) =~= Seq::<u8>::empty());
        assert(unpack_sextets(seq![v0, v1]) =~= seq![b0]);
        assert(unpack_sextets(t) =~= seq![b0, b1]);
        assert(g =~= seq![b0, b1]);
    } else {
        assert(sextets(e1) =~= seq![v0, v1, v2]);
        assert(sextets(e) =~= seq![v0, v1, v2, v3]);
        let t = seq![v0, v1, v2, v3];
        assert(t.drop_last() =~= seq![v0, v1, v2]);
        assert(seq![v0, v1, v2].drop_last() =~= seq![v0, v1]);
        assert(seq![v0, v1].drop_last() =~= seq![v0]);
        assert(seq![v0].drop_last() =~= Seq::<u8>::empty());
        assert(unpack_sextets(Seq::<u8>::empty()) =~= Seq::<u8>::empty());
        assert(unpack_sextets(seq![v0]) == unpack_sextets(seq![v0].drop_last()));
        assert(unpack_sextets(seq![v0]) =~= Seq::<u8>::empty());
        assert(unpack_sextets(seq![v0, v1]) =~= seq![b0]);
        assert(unpack_sextets(seq![v0, v1, v2]) =~= seq![b0, b1]);
        assert(unpack_sextets(t) =~= seq![b0, b1, b2]);
        assert(g =~= seq![b0, b1, b2]);
    }
}

/// Every byte of an encoding is in the alphabet or is padding.
proof fn lemma_encoded_bytes(s: Seq<u8>)
    ensures
        forall|i: int|
            0 <= i < b64_encoded(s).len() ==> b64_value(#[trigger] b64_encoded(s)[i]) is Some
                || b64_encoded(s)[i] == 0x3d,
    decreases s.len(),
{
    if s.len() == 0 {
    } else {
        let g = if s.len() <= 3 { s } else { s.take(3) };
        let b0 = g[0];
        let b1: u8 = if g.len() > 1 { g[1] } else { 0 };
        let b2: u8 = if g.len() > 2 { g[2] } else { 0 };
        assert(b0 >> 2 < 64) by (bit_vector);
        assert(((b0 & 0x03) << 4) | (b1 >> 4) < 64) by (bit_vector);
        assert(((b1 & 0x0f) << 2) | (b2 >> 6) < 64) by (bit_vector);
        assert(b2 & 0x3f < 64) by (bit_vector);
        lemma_b64_char_value(b0 >> 2);
        lemma_b64_char_value(((b0 & 0x03) << 4) | (b1 >> 4));
        lemma_b64_char_value(((b1 & 0x0f) << 2) | (b2 >> 6));
        lemma_b64_char_value(b2 & 0x3f);
        if s.len() > 3 {
            lemma_encoded_bytes(s.skip(3));
        }
    }
}

/// Lenient base64 decoding undoes base64 encoding.
proof fn lemma_b64_lenient_round_trip(s: Seq<u8>)
    ensures
        b64_decode_lenient(b64_encoded(s)) == s,
    decreases s.len(),
{
    if s.len() == 0 {
        assert(sextets(Seq::<u8>::empty()) =~= Seq::<u8>::empty());
    } else if s.len() <= 3 {
        lemma_group_round_trip(s);
    } else {
        let g = s.take(3);
        let rest = s.skip(3);
        lemma_group_round_trip(g);
        lemma_b64_lenient_round_trip(rest);
        lemma_sextets_concat(b64_group(g), b64_encoded(rest));
        lemma_unpack_concat(sextets(b64_group(g)), sextets(b64_encoded(rest)));
        assert(g + rest =~= s);
    }
}

/// Base64 decoding, as the clipboard sequence does it, undoes base64
/// encoding: `base64_decode_strict(base64_encode(s)) == Some(s)`.
pub proof fn lemma_base64_round_trip(s: Seq<u8>)
    ensures
        b64_decode_strict(b64_encoded(s)) == Some(s),
        b64_decode_lenient(b64_encoded(s)) == s,
{
    lemma_encoded_bytes(s);
    lemma_b64_lenient_round_trip(s);
    let e = b64_encoded(s);
    assert(!(exists|i: int| 0 <= i < e.len() && b64_value(#[trigger] e[i]) is None
        && !b64_skippable(e[i])));
}

} // verus!
