//! Byte-level text helpers shared by the escape-sequence decoders:
//! decimal and hexadecimal number parsing with the exact acceptance rules of
//! `str::parse` / `from_str_radix` for integer types, and splitting on a
//! separator byte.

use vstd::prelude::*;

verus! {

/// Value of an ASCII decimal digit.
pub open spec fn dec_digit(b: u8) -> Option<nat> {
    if 0x30 <= b && b <= 0x39 {
        Some((b - 0x30) as nat)
    } else {
        None
    }
}

/// Value of an ASCII hexadecimal digit (either case).
pub open spec fn hex_digit(b: u8) -> Option<nat> {
    if 0x30 <= b && b <= 0x39 {
        Some((b - 0x30) as nat)
    } else if 0x61 <= b && b <= 0x66 {
        Some((b - 0x61 + 10) as nat)
    } else if 0x41 <= b && b <= 0x46 {
        Some((b - 0x41 + 10) as nat)
    } else {
        None
    }
}

/// Big-endian value of a run of decimal digits (`Some(0)` for no digits).
pub open spec fn dec_value(s: Seq<u8>) -> Option<nat>
    decreases s.len(),
{
    if s.len() == 0 {
        Some(0)
    } else {
        match (dec_value(s.drop_last()), dec_digit(s.last())) {
            (Some(v), Some(d)) => Some(v * 10 + d),
            _ => None,
        }
    }
}

/// Big-endian value of a run of hexadecimal digits (`Some(0)` for no digits).
pub open spec fn hex_value(s: Seq<u8>) -> Option<nat>
    decreases s.len(),
{
    if s.len() == 0 {
        Some(0)
    } else {
        match (hex_value(s.drop_last()), hex_digit(s.last())) {
            (Some(v), Some(d)) => Some(v * 16 + d),
            _ => None,
        }
    }
}

/// Digit run value in base 16 (`hex`) or base 10.
pub open spec fn digits_value(s: Seq<u8>, hex: bool) -> Option<nat> {
    if hex {
        hex_value(s)
    } else {
        dec_value(s)
    }
}

/// Magnitude that `from_str_radix` reads for an unsigned integer type, before
/// the range check: an optional leading `+`, then at least one digit.
pub open spec fn unsigned_magnitude(s: Seq<u8>, hex: bool) -> Option<nat> {
    if s.len() == 0 {
        None
    } else if s[0] == 0x2b {
        if s.len() == 1 {
            None
        } else {
            digits_value(s.drop_first(), hex)
        }
    } else {
        digits_value(s, hex)
    }
}

/// Result of `str::parse` / `from_str_radix` for an unsigned integer type whose
/// largest value is `max`.
pub open spec fn parse_unsigned(s: Seq<u8>, hex: bool, max: nat) -> Option<nat> {
    match unsigned_magnitude(s, hex) {
        Some(v) => if v <= max {
            Some(v)
        } else {
            None
        },
        None => None,
    }
}

/// Result of `str::parse` for a signed decimal integer type whose range is
/// `-neg_max ..= max`.
pub open spec fn parse_signed(s: Seq<u8>, neg_max: nat, max: nat) -> Option<int> {
    if s.len() >= 2 && s[0] == 0x2d {
        match dec_value(s.drop_first()) {
            Some(v) => if v <= neg_max {
                Some(-(v as int))
            } else {
                None
            },
            None => None,
        }
    } else if s.len() == 1 && s[0] == 0x2d {
        None
    } else {
        match parse_unsigned(s, false, max) {
            Some(v) => Some(v as int),
            None => None,
        }
    }
}

/// `s.parse::<T>().unwrap_or(default)` for an unsigned type `T` with largest value `max`.
pub open spec fn parse_or(s: Seq<u8>, max: nat, default: nat) -> nat {
    match parse_unsigned(s, false, max) {
        Some(v) => v,
        None => default,
    }
}

/// `s.parse::<i32>().unwrap_or(0)`.
pub open spec fn parse_i32_or_zero(s: Seq<u8>) -> int {
    match parse_signed(s, 0x8000_0000, 0x7fff_ffff) {
        Some(v) => v,
        None => 0,
    }
}

/// The pieces that `str::split(sep)` yields, as byte sequences: always one more
/// piece than there are separators.
pub open spec fn split_bytes(s: Seq<u8>, sep: u8) -> Seq<Seq<u8>>
    decreases s.len(),
{
    if s.len() == 0 {
        seq![Seq::<u8>::empty()]
    } else {
        let p = split_bytes(s.drop_last(), sep);
        if s.last() == sep {
            p.push(Seq::<u8>::empty())
        } else {
            p.update(p.len() - 1, p.last().push(s.last()))
        }
    }
}

/// Position of the first `sep` in `s`, if any (`str::find` / `split_once`).
pub open spec fn find_byte(s: Seq<u8>, sep: u8) -> Option<int>
    decreases s.len(),
{
    if s.len() == 0 {
        None
    } else if s[0] == sep {
        Some(0)
    } else {
        match find_byte(s.drop_first(), sep) {
            Some(i) => Some(i + 1),
            None => None,
        }
    }
}

pub proof fn lemma_split_nonempty(s: Seq<u8>, sep: u8)
    ensures
        split_bytes(s, sep).len() >= 1,
    decreases s.len(),
{
    if s.len() > 0 {
        lemma_split_nonempty(s.drop_last(), sep);
    }
}

pub proof fn lemma_find_byte(s: Seq<u8>, sep: u8)
    ensures
        match find_byte(s, sep) {
            Some(i) => 0 <= i < s.len() && s[i] == sep && forall|j: int| 0 <= j < i ==> s[j] != sep,
            None => forall|j: int| 0 <= j < s.len() ==> s[j] != sep,
        },
    decreases s.len(),
{
    if s.len() > 0 && s[0] != sep {
        lemma_find_byte(s.drop_first(), sep);
        match find_byte(s.drop_first(), sep) {
            Some(i) => {
                assert forall|j: int| 0 <= j < i + 1 implies s[j] != sep by {
                    if j > 0 {
                        assert(s[j] == s.drop_first()[j - 1]);
                    }
                }
            },
            None => {
                assert forall|j: int| 0 <= j < s.len() implies s[j] != sep by {
                    if j > 0 {
                        assert(s[j] == s.drop_first()[j - 1]);
                    }
                }
            },
        }
    }
}

/// The digit-run value grows monotonically as digits are appended.
proof fn lemma_value_step(v: nat, d: nat, base: nat, cap: nat)
    requires
        d < base,
        base == 10 || base == 16,
    ensures
        (if v <= cap { v } else { cap + 1 }) * base + d > cap ==> v * base + d > cap,
        v > cap ==> v * base + d > cap,
{
}

/// Value of a digit byte in the given base.
pub fn digit_of(b: u8, hex: bool) -> (r: Option<u8>)
    ensures
        match r {
            Some(d) => if hex {
                hex_digit(b) == Some(d as nat)
            } else {
                dec_digit(b) == Some(d as nat)
            },
            None => if hex {
                hex_digit(b) is None
            } else {
                dec_digit(b) is None
            },
        },
{
    if 0x30 <= b && b <= 0x39 {
        Some(b - 0x30)
    } else if hex && 0x61 <= b && b <= 0x66 {
        Some(b - 0x61 + 10)
    } else if hex && 0x41 <= b && b <= 0x46 {
        Some(b - 0x41 + 10)
    } else {
        None
    }
}

/// Parses `s[start..end]` as a run of digits; the value is reported capped at
/// `max + 1`.
fn parse_digits_capped(s: &[u8], start: usize, end: usize, hex: bool, max: u64) -> (r: Option<u64>)
    requires
        start <= end <= s.len(),
        max < 0x1000_0000_0000_0000,
    ensures
        match r {
            Some(v) => digits_value(s@.subrange(start as int, end as int), hex) matches Some(w) && (
            if w <= max {
                v == w
            } else {
                v == max + 1
            }),
            None => digits_value(s@.subrange(start as int, end as int), hex) is None,
        },
{
    let mut acc: u64 = 0;
    let mut i = start;
    proof {
        assert(s@.subrange(start as int, start as int) =~= Seq::<u8>::empty());
    }
    while i < end
        invariant
            start <= i <= end <= s.len(),
            max < 0x1000_0000_0000_0000,
            acc <= max + 1,
            digits_value(s@.subrange(start as int, i as int), hex) matches Some(w) && (if w <= max {
                acc == w
            } else {
                acc == max + 1
            }),
        decreases end - i,
    {
        let d = digit_of(s[i], hex);
        let ghost prev = s@.subrange(start as int, i as int);
        let ghost cur = s@.subrange(start as int, i + 1);
        proof {
            assert(cur.drop_last() =~= prev);
            assert(cur.last() == s@[i as int]);
        }
        match d {
            None => {
                proof {
                    let rest = s@.subrange(start as int, end as int);
                    lemma_digits_prefix_none(rest, (i - start) as int + 1, hex);
                    assert(rest.subrange(0, (i - start) as int + 1) =~= cur);
                }
                return None;
            },
            Some(d) => {
                let base: u64 = if hex { 16 } else { 10 };
                let ghost w = digits_value(prev, hex).unwrap();
                proof {
                    lemma_value_step(w, d as nat, base as nat, max as nat);
                }
                if acc > max {
                    acc = max + 1;
                } else {
                    let next = acc * base + d as u64;
                    if next > max {
                        acc = max + 1;
                    } else {
                        acc = next;
                    }
                }
                i = i + 1;
            },
        }
    }
    Some(acc)
}

/// If some prefix of a digit run is invalid, the whole run is invalid.
proof fn lemma_digits_prefix_none(s: Seq<u8>, k: int, hex: bool)
    requires
        0 <= k <= s.len(),
        digits_value(s.subrange(0, k), hex) is None,
    ensures
        digits_value(s, hex) is None,
    decreases s.len() - k,
{
    if k < s.len() {
        let t = s.subrange(0, k + 1);
        assert(t.drop_last() =~= s.subrange(0, k));
        lemma_digits_prefix_none(s, k + 1, hex);
    } else {
        assert(s.subrange(0, k) =~= s);
    }
}

/// `from_str_radix` / `str::parse` for an unsigned type with largest value
/// `max`, applied to `s[start..end]`.
pub fn parse_unsigned_at(s: &[u8], start: usize, end: usize, hex: bool, max: u64) -> (r: Option<u64>)
    requires
        start <= end <= s.len(),
        max < 0x1000_0000_0000_0000,
    ensures
        match r {
            Some(v) => parse_unsigned(s@.subrange(start as int, end as int), hex, max as nat)
                == Some(v as nat),
            None => parse_unsigned(s@.subrange(start as int, end as int), hex, max as nat) is None,
        },
{
    let ghost t = s@.subrange(start as int, end as int);
    if start == end {
        return None;
    }
    let mut from = start;
    if s[start] == 0x2b {
        if end - start == 1 {
            return None;
        }
        from = start + 1;
        proof {
            assert(t.drop_first() =~= s@.subrange(from as int, end as int));
        }
    } else {
        proof {
            assert(t =~= s@.subrange(from as int, end as int));
        }
    }
    match parse_digits_capped(s, from, end, hex, max) {
        Some(v) => {
            if v > max {
                None
            } else {
                Some(v)
            }
        },
        None => None,
    }
}

/// `str::parse::<i32>()` applied to `s[start..end]`.
pub fn parse_i32_at(s: &[u8], start: usize, end: usize) -> (r: Option<i32>)
    requires
        start <= end <= s.len(),
    ensures
        match r {
            Some(v) => parse_signed(s@.subrange(start as int, end as int), 0x8000_0000, 0x7fff_ffff)
                == Some(v as int),
            None => parse_signed(s@.subrange(start as int, end as int), 0x8000_0000, 0x7fff_ffff) is None,
        },
{
    let ghost t = s@.subrange(start as int, end as int);
    if end - start >= 2 && s[start] == 0x2d {
        proof {
            assert(t.drop_first() =~= s@.subrange(start + 1, end as int));
        }
        match parse_digits_capped(s, start + 1, end, false, 0x8000_0000) {
            Some(v) => {
                if v > 0x8000_0000 {
                    None
                } else if v == 0x8000_0000 {
                    Some(i32::MIN)
                } else {
                    Some(-(v as i32))
                }
            },
            None => None,
        }
    } else if end - start == 1 && s[start] == 0x2d {
        None
    } else {
        match parse_unsigned_at(s, start, end, false, 0x7fff_ffff) {
            Some(v) => Some(v as i32),
            None => None,
        }
    }
}

/// First position of `sep` in `s[start..end]`, relative to `start`.
pub fn find_byte_at(s: &[u8], start: usize, end: usize, sep: u8) -> (r: Option<usize>)
    requires
        start <= end <= s.len(),
    ensures
        match r {
            Some(i) => i < end - start && find_byte(s@.subrange(start as int, end as int), sep)
                == Some(i as int),
            None => find_byte(s@.subrange(start as int, end as int), sep) is None,
        },
{
    let ghost t = s@.subrange(start as int, end as int);
    proof {
        lemma_find_byte(t, sep);
    }
    let mut i = start;
    while i < end
        invariant
            start <= i <= end <= s.len(),
            t == s@.subrange(start as int, end as int),
            forall|j: int| start <= j < i ==> s@[j] != sep,
        decreases end - i,
    {
        if s[i] == sep {
            proof {
                lemma_find_first_unique(t, sep, (i - start) as int);
            }
            return Some(i - start);
        }
        i = i + 1;
    }
    proof {
        match find_byte(t, sep) {
            Some(k) => {
                assert(t[k] == s@[start + k]);
            },
            None => {},
        }
    }
    None
}

/// A position holding `sep` with no earlier `sep` is what `find_byte` reports.
pub proof fn lemma_find_first_unique(t: Seq<u8>, sep: u8, k: int)
    requires
        0 <= k < t.len(),
        t[k] == sep,
        forall|j: int| 0 <= j < k ==> t[j] != sep,
    ensures
        find_byte(t, sep) == Some(k),
{
    lemma_find_byte(t, sep);
    match find_byte(t, sep) {
        Some(i) => {
            if i < k {
                assert(t[i] != sep);
            }
            if i > k {
                assert(t[k] != sep);
            }
        },
        None => {
            assert(t[k] != sep);
        },
    }
}

/// Byte ranges `(start, end)` of the pieces of `s[start..end]` split on `sep`.
pub fn split_ranges(s: &[u8], start: usize, end: usize, sep: u8) -> (r: Vec<(usize, usize)>)
    requires
        start <= end <= s.len(),
    ensures
        r@.len() == split_bytes(s@.subrange(start as int, end as int), sep).len(),
        forall|k: int|
            0 <= k < r@.len() ==> {
                &&& start <= (#[trigger] r@[k]).0 <= r@[k].1 <= end
                &&& s@.subrange(r@[k].0 as int, r@[k].1 as int) == split_bytes(
                    s@.subrange(start as int, end as int),
                    sep,
                )[k]
            },
{
    let mut r: Vec<(usize, usize)> = Vec::new();
    let mut piece_start = start;
    let mut i = start;
    proof {
        assert(s@.subrange(start as int, start as int) =~= Seq::<u8>::empty());
        assert(split_bytes(Seq::<u8>::empty(), sep) == seq![Seq::<u8>::empty()]);
    }
    while i < end
        invariant
            start <= piece_start <= i <= end <= s.len(),
            r@.len() + 1 == split_bytes(s@.subrange(start as int, i as int), sep).len(),
            forall|k: int|
                0 <= k < r@.len() ==> {
                    &&& start <= (#[trigger] r@[k]).0 <= r@[k].1 <= i
                    &&& s@.subrange(r@[k].0 as int, r@[k].1 as int) == split_bytes(
                        s@.subrange(start as int, i as int),
                        sep,
                    )[k]
                },
            s@.subrange(piece_start as int, i as int) == split_bytes(
                s@.subrange(start as int, i as int),
                sep,
            ).last(),
        decreases end - i,
    {
        let ghost prev = s@.subrange(start as int, i as int);
        let ghost cur = s@.subrange(start as int, i + 1);
        proof {
            assert(cur.drop_last() =~= prev);
            assert(cur.last() == s@[i as int]);
            lemma_split_nonempty(prev, sep);
        }
        if s[i] == sep {
            r.push((piece_start, i));
            piece_start = i + 1;
            proof {
                assert(s@.subrange(piece_start as int, i + 1) =~= Seq::<u8>::empty());
            }
        } else {
            proof {
                assert(s@.subrange(piece_start as int, i + 1) =~= s@.subrange(
                    piece_start as int,
                    i as int,
                ).push(s@[i as int]));
            }
        }
        i = i + 1;
    }
    r.push((piece_start, end));
    r
}

} // verus!
