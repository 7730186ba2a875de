//! The 112-byte binCraft aircraft record: where each field goes and the
//! flag bytes that tell which fields are present. The fields arrive already
//! scaled to integers; multi-byte fields are little-endian.
use vstd::prelude::*;

verus! {

/// Size of one aircraft record.
pub const RECORD_SIZE: usize = 112;

/// The integer fields of one aircraft record.
pub struct BincraftFields {
    /// ICAO address.
    pub hex: u32,
    /// Tenths of a second since the aircraft was last heard.
    pub seen_ds: i32,
    /// Longitude and latitude in millionths of a degree, and the tenths of
    /// a second since the position was received: present only while the
    /// position is fresh.
    pub position: Option<(i32, i32, i32)>,
    /// Barometric vertical rate in units of 8 ft/min.
    pub baro_rate: Option<i16>,
    /// Geometric vertical rate in units of 8 ft/min.
    pub geom_rate: Option<i16>,
    /// Barometric altitude in units of 25 ft.
    pub alt_baro: Option<i16>,
    /// Geometric altitude in units of 25 ft.
    pub alt_geom: Option<i16>,
    pub squawk: Option<u16>,
    /// Ground speed in tenths of a knot.
    pub gs: Option<i16>,
    /// Track in 1/90 degree.
    pub track: Option<i16>,
    /// Magnetic heading in 1/90 degree.
    pub mag_heading: Option<i16>,
    pub tas: Option<u16>,
    pub ias: Option<u16>,
    /// Messages received from the aircraft.
    pub messages: u64,
    pub category: Option<u8>,
    pub nic: Option<u8>,
    /// The callsign's bytes.
    pub flight: Option<Vec<u8>>,
}

/// Byte `k` (0 = least significant) of `v`.
pub open spec fn le_byte(v: u32, k: int) -> u8 {
    (v >> ((8 * k) as u32)) as u8
}

/// Byte `k` of a 16-bit field, or 0 when absent.
pub open spec fn opt16_byte(v: Option<u16>, k: int) -> u8 {
    match v {
        Some(x) => le_byte(x as u32, k),
        None => 0,
    }
}

/// An optional signed 16-bit field as its two's complement bits.
pub open spec fn bits16(v: Option<i16>) -> Option<u16> {
    match v {
        Some(x) => Some(x as u16),
        None => None,
    }
}

/// The message count as stored: capped at 65535.
pub open spec fn capped_messages(n: u64) -> u16 {
    if n > 65535 {
        65535
    } else {
        n as u16
    }
}

/// Presence flags at offset 73: callsign 8, barometric altitude 16,
/// geometric altitude 32, fresh position 64, ground speed 128.
pub open spec fn flags73(f: BincraftFields) -> u8 {
    ((if f.flight is Some { 8int } else { 0 }) + (if f.alt_baro is Some { 16int } else { 0 }) + (
    if f.alt_geom is Some { 32int } else { 0 }) + (if f.position is Some { 64int } else { 0 }) + (
    if f.gs is Some { 128int } else { 0 })) as u8
}

/// Presence flags at offset 74: IAS 1, TAS 2, track 8, magnetic heading 64.
pub open spec fn flags74(f: BincraftFields) -> u8 {
    ((if f.ias is Some { 1int } else { 0 }) + (if f.tas is Some { 2int } else { 0 }) + (
    if f.track is Some { 8int } else { 0 }) + (if f.mag_heading is Some { 64int } else { 0 })) as u8
}

/// Presence flags at offset 75: barometric rate 1, geometric rate 2.
pub open spec fn flags75(f: BincraftFields) -> u8 {
    ((if f.baro_rate is Some { 1int } else { 0 }) + (if f.geom_rate is Some { 2int } else { 0 })) as u8
}

/// Byte `k` of the record of `f`: hex at 0, seen at 4, longitude and
/// latitude at 8 and 12, the rates at 16 and 18, the altitudes at 20 and
/// 22, squawk at 32, ground speed at 34, track at 40, heading at 44, TAS
/// and IAS at 56 and 58, messages at 62, category and NIC at 64 and 65,
/// the flag bytes at 73 to 76 (squawk: 4 at 76), up to eight callsign
/// bytes from 78, the position's age at 108; every other byte is 0.
pub open spec fn record_byte(f: BincraftFields, k: int) -> u8 {
    if k < 4 {
        le_byte(f.hex, k)
    } else if k < 8 {
        le_byte(f.seen_ds as u32, k - 4)
    } else if k < 16 {
        match f.position {
            Some((lon, lat, _)) => if k < 12 {
                le_byte(lon as u32, k - 8)
            } else {
                le_byte(lat as u32, k - 12)
            },
            None => 0,
        }
    } else if k < 18 {
        opt16_byte(bits16(f.baro_rate), k - 16)
    } else if k < 20 {
        opt16_byte(bits16(f.geom_rate), k - 18)
    } else if k < 22 {
        opt16_byte(bits16(f.alt_baro), k - 20)
    } else if k < 24 {
        opt16_byte(bits16(f.alt_geom), k - 22)
    } else if 32 <= k < 34 {
        opt16_byte(f.squawk, k - 32)
    } else if 34 <= k < 36 {
        opt16_byte(bits16(f.gs), k - 34)
    } else if 40 <= k < 42 {
        opt16_byte(bits16(f.track), k - 40)
    } else if 44 <= k < 46 {
        opt16_byte(bits16(f.mag_heading), k - 44)
    } else if 56 <= k < 58 {
        opt16_byte(f.tas, k - 56)
    } else if 58 <= k < 60 {
        opt16_byte(f.ias, k - 58)
    } else if 62 <= k < 64 {
        le_byte(capped_messages(f.messages) as u32, k - 62)
    } else if k == 64 {
        match f.category {
            Some(c) => c,
            None => 0,
        }
    } else if k == 65 {
        match f.nic {
            Some(c) => c,
            None => 0,
        }
    } else if k == 73 {
        flags73(f)
    } else if k == 74 {
        flags74(f)
    } else if k == 75 {
        flags75(f)
    } else if k == 76 {
        if f.squawk is Some {
            4
        } else {
            0
        }
    } else if 78 <= k < 86 {
        match f.flight {
            Some(cs) => if k - 78 < cs@.len() {
                cs@[k - 78]
            } else {
                0
            },
            None => 0,
        }
    } else if 108 <= k < 112 {
        match f.position {
            Some((_, _, age)) => le_byte(age as u32, k - 108),
            None => 0,
        }
    } else {
        0
    }
}

fn put32(r: &mut [u8; 112], off: usize, v: u32)
    requires
        off + 4 <= 112,
    ensures
        forall|k: int|
            0 <= k < 112 ==> #[trigger] final(r)@[k] == if off <= k < off + 4 {
                le_byte(v, k - off)
            } else {
                old(r)@[k]
            },
{
    r[off] = (v >> 0u32) as u8;
    r[off + 1] = (v >> 8u32) as u8;
    r[off + 2] = (v >> 16u32) as u8;
    r[off + 3] = (v >> 24u32) as u8;
}

fn put16(r: &mut [u8; 112], off: usize, v: u16)
    requires
        off + 2 <= 112,
    ensures
        forall|k: int|
            0 <= k < 112 ==> #[trigger] final(r)@[k] == if off <= k < off + 2 {
                le_byte(v as u32, k - off)
            } else {
                old(r)@[k]
            },
{
    let w = v as u32;
    r[off] = (w >> 0u32) as u8;
    r[off + 1] = (w >> 8u32) as u8;
}

fn put_opt16(r: &mut [u8; 112], off: usize, v: Option<u16>)
    requires
        off + 2 <= 112,
        forall|k: int| off <= k < off + 2 ==> old(r)@[k] == 0,
    ensures
        forall|k: int|
            0 <= k < 112 ==> #[trigger] final(r)@[k] == if off <= k < off + 2 {
                opt16_byte(v, k - off)
            } else {
                old(r)@[k]
            },
{
    match v {
        Some(x) => put16(r, off, x),
        None => {},
    }
}

fn signed16(v: Option<i16>) -> (r: Option<u16>)
    ensures
        r == bits16(v),
{
    match v {
        Some(x) => Some(x as u16),
        None => None,
    }
}

/// The record of an aircraft's fields.
#[verifier::rlimit(40)]
pub fn encode_bincraft(f: &BincraftFields) -> (r: [u8; 112])
    ensures
        forall|k: int| 0 <= k < 112 ==> #[trigger] r@[k] == record_byte(*f, k),
{
    let mut r = [0u8; 112];
    assert(forall|k: int| 0 <= k < 112 ==> r@[k] == 0);
    put32(&mut r, 0, f.hex);
    put32(&mut r, 4, f.seen_ds as u32);
    match f.position {
        Some((lon, lat, _)) => {
            put32(&mut r, 8, lon as u32);
            put32(&mut r, 12, lat as u32);
        },
        None => {},
    }
    put_opt16(&mut r, 16, signed16(f.baro_rate));
    put_opt16(&mut r, 18, signed16(f.geom_rate));
    put_opt16(&mut r, 20, signed16(f.alt_baro));
    put_opt16(&mut r, 22, signed16(f.alt_geom));
    put_opt16(&mut r, 32, f.squawk);
    put_opt16(&mut r, 34, signed16(f.gs));
    put_opt16(&mut r, 40, signed16(f.track));
    put_opt16(&mut r, 44, signed16(f.mag_heading));
    put_opt16(&mut r, 56, f.tas);
    put_opt16(&mut r, 58, f.ias);
    let msgs: u16 = if f.messages > 65535 {
        65535
    } else {
        f.messages as u16
    };
    put16(&mut r, 62, msgs);
    match f.category {
        Some(c) => {
            r[64] = c;
        },
        None => {},
    }
    match f.nic {
        Some(c) => {
            r[65] = c;
        },
        None => {},
    }
    let mut v73: u8 = 0;
    if f.flight.is_some() {
        v73 = v73 + 8;
    }
    if f.alt_baro.is_some() {
        v73 = v73 + 16;
    }
    if f.alt_geom.is_some() {
        v73 = v73 + 32;
    }
    if f.position.is_some() {
        v73 = v73 + 64;
    }
    if f.gs.is_some() {
        v73 = v73 + 128;
    }
    r[73] = v73;
    let mut v74: u8 = 0;
    if f.ias.is_some() {
        v74 = v74 + 1;
    }
    if f.tas.is_some() {
        v74 = v74 + 2;
    }
    if f.track.is_some() {
        v74 = v74 + 8;
    }
    if f.mag_heading.is_some() {
        v74 = v74 + 64;
    }
    r[74] = v74;
    let mut v75: u8 = 0;
    if f.baro_rate.is_some() {
        v75 = v75 + 1;
    }
    if f.geom_rate.is_some() {
        v75 = v75 + 2;
    }
    r[75] = v75;
    r[76] = if f.squawk.is_some() {
        4
    } else {
        0
    };
    match f.position {
        Some((_, _, age)) => {
            put32(&mut r, 108, age as u32);
        },
        None => {},
    }
    assert(forall|k: int| 0 <= k < 112 && !(78 <= k < 86) ==> #[trigger] r@[k] == record_byte(*f, k));
    assert(forall|k: int| 78 <= k < 86 ==> #[trigger] r@[k] == 0);
    match &f.flight {
        Some(cs) => {
            let mut i: usize = 0;
            while i < 8 && i < cs.len()
                invariant
                    i <= 8,
                    i <= cs@.len(),
                    forall|k: int|
                        0 <= k < 112 && !(78 <= k < 86) ==> #[trigger] r@[k] == record_byte(*f, k),
                    forall|k: int| 78 <= k < 78 + i ==> #[trigger] r@[k] == cs@[k - 78],
                    forall|k: int| 78 + i <= k < 86 ==> #[trigger] r@[k] == 0,
                    f.flight == Some(*cs),
                decreases 8 - i,
            {
                r[78 + i] = cs[i];
                i += 1;
            }
        },
        None => {},
    }
    r
}

} // verus!
