//! The binary static-data frame of an aircraft (type 0x05, 44 bytes):
//! address, callsign, category, squawk, type, registration and route in
//! fixed, zero-filled fields.
use vstd::prelude::*;
use vstd::string::StringSliceAdditionalSpecFns;
use vstd::utf8::encode_utf8;
use crate::aircraft::{Aircraft, AircraftView};

verus! {

/// The ASCII digit of `n` at the decimal place `p`.
pub open spec fn digit(n: int, p: int) -> u8 {
    (48 + (n / p) % 10) as u8
}

/// The first four characters of a squawk written with at least four
/// digits, zero-padded.
pub open spec fn squawk_text(sq: u16) -> Seq<u8> {
    if sq >= 10000 {
        seq![digit(sq as int, 10000), digit(sq as int, 1000), digit(sq as int, 100), digit(sq as int, 10)]
    } else {
        seq![digit(sq as int, 1000), digit(sq as int, 100), digit(sq as int, 10), digit(sq as int, 1)]
    }
}

/// The UTF-8 bytes of an optional text; none for none.
pub open spec fn text_bytes(s: Option<Seq<char>>) -> Seq<u8> {
    match s {
        Some(t) => encode_utf8(t),
        None => Seq::empty(),
    }
}

/// Byte `j` of a field of width `n` holding `b`: `b` cut to the width,
/// then zeros.
pub open spec fn field_byte(b: Seq<u8>, n: int, j: int) -> u8 {
    if j < b.len() && j < n {
        b[j]
    } else {
        0
    }
}

/// Byte `i` of the static frame of `ac`: type 0x05, the 24-bit address
/// (big-endian), callsign (8), category (1, zero when unknown), squawk (4),
/// type (4), registration (12), route (11).
pub open spec fn static_byte(ac: AircraftView, i: int) -> u8 {
    let squawk = match ac.squawk {
        Some(sq) => squawk_text(sq),
        None => Seq::empty(),
    };
    if i == 0 {
        5
    } else if i == 1 {
        (ac.hex >> 16u32) as u8
    } else if i == 2 {
        (ac.hex >> 8u32) as u8
    } else if i == 3 {
        ac.hex as u8
    } else if i < 12 {
        field_byte(text_bytes(ac.flight), 8, i - 4)
    } else if i == 12 {
        match ac.category {
            Some(c) => c,
            None => 0,
        }
    } else if i < 17 {
        field_byte(squawk, 4, i - 13)
    } else if i < 21 {
        field_byte(text_bytes(ac.typecode), 4, i - 17)
    } else if i < 33 {
        field_byte(text_bytes(ac.reg), 12, i - 21)
    } else {
        field_byte(text_bytes(ac.route), 11, i - 33)
    }
}

/// The static frame of `ac`; none when neither callsign nor type is known.
pub open spec fn static_frame_of(ac: AircraftView) -> Option<Seq<u8>> {
    if ac.flight is None && ac.typecode is None {
        None
    } else {
        Some(Seq::new(44, |i: int| static_byte(ac, i)))
    }
}

/// Writes `src` cut to `n` bytes at `at`.
fn put_field(buf: &mut [u8; 44], at: usize, src: &[u8], n: usize)
    requires
        at + n <= 44,
    ensures
        forall|i: int|
            0 <= i < 44 ==> #[trigger] final(buf)@[i] == if at <= i < at + n && i - at < src@.len() {
                src@[i - at]
            } else {
                old(buf)@[i]
            },
{
    let mut j: usize = 0;
    while j < n && j < src.len()
        invariant
            at + n <= 44,
            j <= n,
            forall|i: int|
                0 <= i < 44 ==> #[trigger] buf@[i] == if at <= i < at + j && i - at < src@.len() {
                    src@[i - at]
                } else {
                    old(buf)@[i]
                },
        decreases n - j,
    {
        buf[at + j] = src[j];
        j += 1;
    }
}

/// The digits written for a squawk.
fn squawk_digits(sq: u16) -> (d: [u8; 4])
    ensures
        d@ == squawk_text(sq),
{
    let n = sq as u32;
    let d = if n >= 10000 {
        [
            (48 + (n / 10000) % 10) as u8,
            (48 + (n / 1000) % 10) as u8,
            (48 + (n / 100) % 10) as u8,
            (48 + (n / 10) % 10) as u8,
        ]
    } else {
        [
            (48 + (n / 1000) % 10) as u8,
            (48 + (n / 100) % 10) as u8,
            (48 + (n / 10) % 10) as u8,
            (48 + n % 10) as u8,
        ]
    };
    assert(d@ =~= squawk_text(sq));
    d
}

/// The static frame of an aircraft, when its callsign or type is known.
pub fn encode_static(ac: &Aircraft) -> (r: Option<[u8; 44]>)
    ensures
        match r {
            Some(b) => static_frame_of(ac@) == Some(b@),
            None => static_frame_of(ac@) is None,
        },
{
    if ac.flight.is_none() && ac.typecode.is_none() {
        return None;
    }
    let mut buf = [0u8; 44];
    buf[0] = 0x05;
    buf[1] = (ac.hex >> 16) as u8;
    buf[2] = (ac.hex >> 8) as u8;
    buf[3] = ac.hex as u8;
    let ghost b0 = buf@;
    match &ac.flight {
        Some(cs) => put_field(&mut buf, 4, cs.as_str().as_bytes(), 8),
        None => {},
    }
    buf[12] = match ac.category {
        Some(c) => c,
        None => 0,
    };
    match ac.squawk {
        Some(sq) => {
            let d = squawk_digits(sq);
            put_field(&mut buf, 13, d.as_slice(), 4);
        },
        None => {},
    }
    match &ac.typecode {
        Some(t) => put_field(&mut buf, 17, t.as_str().as_bytes(), 4),
        None => {},
    }
    match &ac.reg {
        Some(t) => put_field(&mut buf, 21, t.as_str().as_bytes(), 12),
        None => {},
    }
    match &ac.route {
        Some(t) => put_field(&mut buf, 33, t.as_str().as_bytes(), 11),
        None => {},
    }
    proof {
        assert forall|i: int| 0 <= i < 44 implies #[trigger] buf@[i] == static_byte(ac@, i) by {
            assert(b0[i] == if i == 0 {
                5u8
            } else if i == 1 {
                (ac.hex >> 16u32) as u8
            } else if i == 2 {
                (ac.hex >> 8u32) as u8
            } else if i == 3 {
                ac.hex as u8
            } else {
                0u8
            });
        }
        assert(buf@ =~= Seq::new(44, |i: int| static_byte(ac@, i)));
    }
    Some(buf)
}

} // verus!
