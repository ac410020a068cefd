//! Colour specification parsing: `RRGGBB` / `RGB` hex colours and the OSC
//! colour formats `#RRGGBB`, `#RGB` and `rgb:R/G/B` with 1, 2 or 4 hex digits
//! per component.

use vstd::prelude::*;
use vstd::utf8::*;
use vstd::string::StringSliceAdditionalSpecFns;

use crate::ascii::{digit_of, hex_digit, hex_value, parse_unsigned, parse_unsigned_at, split_bytes, split_ranges};

verus! {

/// `str::trim_start_matches('#')` on the bytes of a string.
pub open spec fn strip_hashes(s: Seq<u8>) -> Seq<u8>
    decreases s.len(),
{
    if s.len() > 0 && s[0] == 0x23 {
        strip_hashes(s.drop_first())
    } else {
        s
    }
}

/// A colour field of one or two hex digits and its value: `None` unless
/// every byte is a hex digit (no sign, no other character).
pub open spec fn hex_u8(field: Seq<u8>) -> Option<nat> {
    if field.len() == 0 {
        None
    } else {
        hex_value(field)
    }
}

/// The colour that a hex colour string (without leading `#`) denotes:
/// six digits `RRGGBB`, or three digits `RGB` where each digit is repeated.
pub open spec fn hex_color(h: Seq<u8>) -> Option<(u8, u8, u8)> {
    if h.len() == 6 {
        match (hex_u8(h.subrange(0, 2)), hex_u8(h.subrange(2, 4)), hex_u8(h.subrange(4, 6))) {
            (Some(r), Some(g), Some(b)) => Some((r as u8, g as u8, b as u8)),
            _ => None,
        }
    } else if h.len() == 3 {
        match (hex_u8(h.subrange(0, 1)), hex_u8(h.subrange(1, 2)), hex_u8(h.subrange(2, 3))) {
            (Some(r), Some(g), Some(b)) => Some(((r * 17) as u8, (g * 17) as u8, (b * 17) as u8)),
            _ => None,
        }
    } else {
        None
    }
}

/// One component of `rgb:` notation: 4 digits give the high byte of a 16-bit
/// value, 2 digits the byte itself, 1 digit is repeated. A component is hex
/// digits only: a sign makes it invalid.
pub open spec fn rgb_component(s: Seq<u8>) -> Option<u8> {
    if s.len() > 0 && s[0] == 0x2b {
        None
    } else {
        rgb_digits(s)
    }
}

/// [`rgb_component`] of a component that does not start with a sign.
pub open spec fn rgb_digits(s: Seq<u8>) -> Option<u8> {
    match parse_unsigned(s, true, 0xffff) {
        Some(v) => if s.len() == 4 {
            Some((v / 256) as u8)
        } else if s.len() == 2 {
            Some(v as u8)
        } else if s.len() == 1 {
            Some((v * 17) as u8)
        } else {
            None
        },
        None => None,
    }
}

/// The colour of an `rgb:R/G/B` body (after the `rgb:` prefix).
pub open spec fn rgb_color(body: Seq<u8>) -> Option<(u8, u8, u8)> {
    let parts = split_bytes(body, 0x2f);
    if parts.len() != 3 {
        None
    } else {
        match (rgb_component(parts[0]), rgb_component(parts[1]), rgb_component(parts[2])) {
            (Some(r), Some(g), Some(b)) => Some((r, g, b)),
            _ => None,
        }
    }
}

pub open spec fn is_rgb_prefix(d: Seq<u8>) -> bool {
    d.len() >= 4 && d[0] == 0x72 && d[1] == 0x67 && d[2] == 0x62 && d[3] == 0x3a
}

/// The colour an OSC colour specification denotes: `None` unless the bytes are
/// UTF-8 and in one of the accepted notations.
pub open spec fn osc_color(d: Seq<u8>) -> Option<(u8, u8, u8)> {
    if !valid_utf8(d) {
        None
    } else if d.len() >= 1 && d[0] == 0x23 {
        hex_color(strip_hashes(d.drop_first()))
    } else if is_rgb_prefix(d) {
        rgb_color(d.skip(4))
    } else {
        None
    }
}

/// `std::str::from_utf8(data).is_ok()`: whether the bytes are well-formed UTF-8.
#[verifier::external_body]
pub(crate) fn is_valid_utf8(data: &[u8]) -> (r: bool)
    ensures
        r == valid_utf8(data@),
{
    std::str::from_utf8(data).is_ok()
}

/// Number of leading `#` bytes from `start`, with what stripping them leaves.
fn skip_hashes(b: &[u8], start: usize) -> (r: usize)
    requires
        start <= b.len(),
    ensures
        start <= r <= b.len(),
        strip_hashes(b@.subrange(start as int, b.len() as int)) == b@.subrange(
            r as int,
            b.len() as int,
        ),
{
    let mut i = start;
    while i < b.len() && b[i] == 0x23
        invariant
            start <= i <= b.len(),
            strip_hashes(b@.subrange(start as int, b.len() as int)) == strip_hashes(
                b@.subrange(i as int, b.len() as int),
            ),
        decreases b.len() - i,
    {
        proof {
            let t = b@.subrange(i as int, b.len() as int);
            assert(t.drop_first() =~= b@.subrange(i + 1, b.len() as int));
        }
        i = i + 1;
    }
    proof {
        let t = b@.subrange(i as int, b.len() as int);
        assert(strip_hashes(t) == t);
    }
    i
}

/// [`hex_u8`] of the one- or two-byte field `b[start..end]`.
fn hex_field_at(b: &[u8], start: usize, end: usize) -> (r: Option<u8>)
    requires
        start < end <= b.len(),
        end - start <= 2,
    ensures
        match r {
            Some(v) => hex_u8(b@.subrange(start as int, end as int)) == Some(v as nat),
            None => hex_u8(b@.subrange(start as int, end as int)) is None,
        },
        end - start == 1 && r is Some ==> r->0 <= 15,
{
    let ghost t = b@.subrange(start as int, end as int);
    let ghost first = b@.subrange(start as int, start + 1);
    proof {
        assert(first.drop_last() =~= Seq::<u8>::empty());
        assert(first.last() == b@[start as int]);
        assert(hex_value(first.drop_last()) == Some(0nat));
        assert(hex_value(first) == (match hex_digit(b@[start as int]) {
            Some(d) => Some(d),
            None => None::<nat>,
        }));
    }
    let hi = digit_of(b[start], true);
    if end - start == 1 {
        proof {
            assert(t =~= first);
        }
        match hi {
            Some(d) => Some(d),
            None => None,
        }
    } else {
        proof {
            assert(t.drop_last() =~= first);
            assert(t.last() == b@[start + 1]);
        }
        let lo = digit_of(b[start + 1], true);
        match (hi, lo) {
            (Some(h), Some(l)) => Some(h * 16 + l),
            _ => None,
        }
    }
}

/// Hex colour of `b[start..]`.
pub(crate) fn hex_color_at(b: &[u8], start: usize) -> (r: Option<(u8, u8, u8)>)
    requires
        start <= b.len(),
    ensures
        r == hex_color(b@.subrange(start as int, b.len() as int)),
{
    let ghost h = b@.subrange(start as int, b.len() as int);
    let n = b.len() - start;
    if n == 6 {
        proof {
            assert(h.subrange(0, 2) =~= b@.subrange(start as int, start + 2));
            assert(h.subrange(2, 4) =~= b@.subrange(start + 2, start + 4));
            assert(h.subrange(4, 6) =~= b@.subrange(start + 4, start + 6));
        }
        let r = hex_field_at(b, start, start + 2);
        let g = hex_field_at(b, start + 2, start + 4);
        let bl = hex_field_at(b, start + 4, start + 6);
        match (r, g, bl) {
            (Some(r), Some(g), Some(bl)) => Some((r as u8, g as u8, bl as u8)),
            _ => None,
        }
    } else if n == 3 {
        proof {
            assert(h.subrange(0, 1) =~= b@.subrange(start as int, start + 1));
            assert(h.subrange(1, 2) =~= b@.subrange(start + 1, start + 2));
            assert(h.subrange(2, 3) =~= b@.subrange(start + 2, start + 3));
        }
        let r = hex_field_at(b, start, start + 1);
        let g = hex_field_at(b, start + 1, start + 2);
        let bl = hex_field_at(b, start + 2, start + 3);
        match (r, g, bl) {
            (Some(r), Some(g), Some(bl)) => Some((r * 17, g * 17, bl * 17)),
            _ => None,
        }
    } else {
        None
    }
}

/// Parses a hex colour such as `ff0000`, `#ff0000`, `f00` or `#f00`
/// (any number of leading `#` are skipped).
pub fn parse_hex_color(hex: &str) -> (r: Option<(u8, u8, u8)>)
    ensures
        r == hex_color(strip_hashes(hex.spec_bytes())),
{
    let b = hex.as_bytes();
    let start = skip_hashes(b, 0);
    proof {
        assert(b@.subrange(0, b@.len() as int) =~= b@);
    }
    hex_color_at(b, start)
}

/// Parses an OSC colour specification: `#RRGGBB`, `#RGB`, or
/// `rgb:R/G/B` with 1, 2 or 4 hex digits per component.
pub fn parse_osc_color(data: &[u8]) -> (r: Option<(u8, u8, u8)>)
    ensures
        r == osc_color(data@),
{
    if !is_valid_utf8(data) {
        return None;
    }
    if data.len() >= 1 && data[0] == 0x23 {
        let start = skip_hashes(data, 1);
        proof {
            assert(data@.drop_first() =~= data@.subrange(1, data@.len() as int));
        }
        hex_color_at(data, start)
    } else if data.len() >= 4 && data[0] == 0x72 && data[1] == 0x67 && data[2] == 0x62 && data[3]
        == 0x3a {
        proof {
            assert(data@.skip(4) =~= data@.subrange(4, data@.len() as int));
        }
        rgb_color_at(data, 4)
    } else {
        None
    }
}

/// `rgb_component` of `b[start..end]`.
fn rgb_component_at(b: &[u8], start: usize, end: usize) -> (r: Option<u8>)
    requires
        start <= end <= b.len(),
    ensures
        r == rgb_component(b@.subrange(start as int, end as int)),
{
    if start < end && b[start] == 0x2b {
        return None;
    }
    match parse_unsigned_at(b, start, end, true, 0xffff) {
        Some(v) => {
            let n = end - start;
            if n == 4 {
                Some((v / 256) as u8)
            } else if n == 2 {
                Some(v as u8)
            } else if n == 1 {
                Some((v * 17) as u8)
            } else {
                None
            }
        },
        None => None,
    }
}

/// `rgb_color` of `b[start..]`.
pub(crate) fn rgb_color_at(b: &[u8], start: usize) -> (r: Option<(u8, u8, u8)>)
    requires
        start <= b.len(),
    ensures
        r == rgb_color(b@.subrange(start as int, b.len() as int)),
{
    let parts = split_ranges(b, start, b.len(), 0x2f);
    if parts.len() != 3 {
        return None;
    }
    let (s0, e0) = parts[0];
    let (s1, e1) = parts[1];
    let (s2, e2) = parts[2];
    let r = rgb_component_at(b, s0, e0);
    let g = rgb_component_at(b, s1, e1);
    let bl = rgb_component_at(b, s2, e2);
    match (r, g, bl) {
        (Some(r), Some(g), Some(bl)) => Some((r, g, bl)),
        _ => None,
    }
}

} // verus!
