//! Mode-S downlink message parsing and ADS-B (DF17/18) extended-squitter
//! decoding.
//!
//! Quantities the wire carries as fractions or as velocity components are
//! kept exactly as received (`Speed`, `Angle`, the raw QNH step); turning
//! them into floating-point knots and degrees is left to the caller.
use vstd::prelude::*;
use crate::crc::{
    checksum, flip_bit, repairs, lowest_repair, lemma_lowest_repair_unique, modes_checksum,
    modes_fix_single_bit,
};
use crate::text::{latin1_chars, latin1_string};

verus! {

/// A ground speed as received.
#[derive(Clone, Copy, Debug, PartialEq, Eq)]
pub enum Speed {
    /// `n` eighths of a knot.
    Eighths(u32),
    /// The length of the velocity vector (`vx` knots east, `vy` knots north).
    Vector { vx: i32, vy: i32 },
}

/// An angle as received.
#[derive(Clone, Copy, Debug, PartialEq, Eq)]
pub enum Angle {
    /// `raw` steps of `360 / steps` degrees.
    Fraction { raw: u16, steps: u16 },
    /// The direction of the velocity vector (`vx` east, `vy` north),
    /// clockwise from north.
    Vector { vx: i32, vy: i32 },
}

/// One decoded Mode-S message.
#[derive(Clone, Debug)]
pub struct ModeS {
    pub df: u8,
    pub icao: u32,
    pub receiver_id: u64,
    pub altitude: Option<i32>,
    pub squawk: Option<u16>,
    pub callsign: Option<String>,
    pub category: Option<u8>,
    pub cpr_lat: Option<u32>,
    pub cpr_lon: Option<u32>,
    pub cpr_odd: Option<bool>,
    pub airborne: bool,
    pub gs: Option<Speed>,
    pub track: Option<Angle>,
    pub baro_rate: Option<i32>,
    pub geom_rate: Option<i32>,
    pub ias: Option<u16>,
    pub tas: Option<u16>,
    pub mag_heading: Option<Angle>,
    pub adsb_version: Option<u8>,
    pub nic: Option<u8>,
    pub nac_p: Option<u8>,
    pub nac_v: Option<u8>,
    pub sil: Option<u8>,
    pub gva: Option<u8>,
    pub sda: Option<u8>,
    pub nic_baro: Option<u8>,
    pub nav_altitude_mcp: Option<u32>,
    /// Raw barometric setting `n` (1-511): the QNH is 800 + 0.8·(n − 1) hPa.
    pub nav_qnh: Option<u16>,
    pub nav_heading: Option<Angle>,
    pub emergency: Option<u8>,
    pub alt_gnss: Option<i32>,
    /// 0: ADS-B with ICAO address, 8: DF18 non-transponder, 7: plain Mode-S.
    pub addr_type: u8,
    pub valid: bool,
}

/// A `ModeS` with its callsign as characters.
pub struct ModeSView {
    pub df: u8,
    pub icao: u32,
    pub receiver_id: u64,
    pub altitude: Option<i32>,
    pub squawk: Option<u16>,
    pub callsign: Option<Seq<char>>,
    pub category: Option<u8>,
    pub cpr_lat: Option<u32>,
    pub cpr_lon: Option<u32>,
    pub cpr_odd: Option<bool>,
    pub airborne: bool,
    pub gs: Option<Speed>,
    pub track: Option<Angle>,
    pub baro_rate: Option<i32>,
    pub geom_rate: Option<i32>,
    pub ias: Option<u16>,
    pub tas: Option<u16>,
    pub mag_heading: Option<Angle>,
    pub adsb_version: Option<u8>,
    pub nic: Option<u8>,
    pub nac_p: Option<u8>,
    pub nac_v: Option<u8>,
    pub sil: Option<u8>,
    pub gva: Option<u8>,
    pub sda: Option<u8>,
    pub nic_baro: Option<u8>,
    pub nav_altitude_mcp: Option<u32>,
    pub nav_qnh: Option<u16>,
    pub nav_heading: Option<Angle>,
    pub emergency: Option<u8>,
    pub alt_gnss: Option<i32>,
    pub addr_type: u8,
    pub valid: bool,
}

impl View for ModeS {
    type V = ModeSView;

    open spec fn view(&self) -> ModeSView {
        ModeSView {
            df: self.df,
            icao: self.icao,
            receiver_id: self.receiver_id,
            altitude: self.altitude,
            squawk: self.squawk,
            callsign: match self.callsign {
                Some(s) => Some(s@),
                None => None,
            },
            category: self.category,
            cpr_lat: self.cpr_lat,
            cpr_lon: self.cpr_lon,
            cpr_odd: self.cpr_odd,
            airborne: self.airborne,
            gs: self.gs,
            track: self.track,
            baro_rate: self.baro_rate,
            geom_rate: self.geom_rate,
            ias: self.ias,
            tas: self.tas,
            mag_heading: self.mag_heading,
            adsb_version: self.adsb_version,
            nic: self.nic,
            nac_p: self.nac_p,
            nac_v: self.nac_v,
            sil: self.sil,
            gva: self.gva,
            sda: self.sda,
            nic_baro: self.nic_baro,
            nav_altitude_mcp: self.nav_altitude_mcp,
            nav_qnh: self.nav_qnh,
            nav_heading: self.nav_heading,
            emergency: self.emergency,
            alt_gnss: self.alt_gnss,
            addr_type: self.addr_type,
            valid: self.valid,
        }
    }
}

/// A message with nothing decoded yet: no fields, airborne, not valid.
pub open spec fn empty_view() -> ModeSView {
    ModeSView {
        df: 0,
        icao: 0,
        receiver_id: 0,
        altitude: None,
        squawk: None,
        callsign: None,
        category: None,
        cpr_lat: None,
        cpr_lon: None,
        cpr_odd: None,
        airborne: true,
        gs: None,
        track: None,
        baro_rate: None,
        geom_rate: None,
        ias: None,
        tas: None,
        mag_heading: None,
        adsb_version: None,
        nic: None,
        nac_p: None,
        nac_v: None,
        sil: None,
        gva: None,
        sda: None,
        nic_baro: None,
        nav_altitude_mcp: None,
        nav_qnh: None,
        nav_heading: None,
        emergency: None,
        alt_gnss: None,
        addr_type: 0,
        valid: false,
    }
}

impl ModeS {
    fn new() -> (m: Self)
        ensures
            m@ == empty_view(),
    {
        ModeS {
            df: 0,
            icao: 0,
            receiver_id: 0,
            altitude: None,
            squawk: None,
            callsign: None,
            category: None,
            cpr_lat: None,
            cpr_lon: None,
            cpr_odd: None,
            airborne: true,
            gs: None,
            track: None,
            baro_rate: None,
            geom_rate: None,
            ias: None,
            tas: None,
            mag_heading: None,
            adsb_version: None,
            nic: None,
            nac_p: None,
            nac_v: None,
            sil: None,
            gva: None,
            sda: None,
            nic_baro: None,
            nav_altitude_mcp: None,
            nav_qnh: None,
            nav_heading: None,
            emergency: None,
            alt_gnss: None,
            addr_type: 0,
            valid: false,
        }
    }
}

// === Altitude and identity codes ===

/// Altitude of a 12-bit AC field (ME bits 9-20): with the Q bit (bit 4)
/// set, the remaining 11 bits count 25 ft steps from -1000 ft; an all-zero
/// field or Gillham coding gives none.
pub open spec fn ac12_altitude(ac12: u16) -> Option<i32> {
    if ac12 == 0 || (ac12 >> 4u16) & 1u16 != 1 {
        None
    } else {
        let n = ((ac12 & 0xFE0u16) >> 1u16) | (ac12 & 0x00Fu16);
        Some((n * 25 - 1000) as i32)
    }
}

/// Altitude of the 13-bit AC field of a surveillance reply: with the M bit
/// (bit 6) clear and the Q bit (bit 4) set, the remaining 11 bits count 25 ft
/// steps from -1000 ft; otherwise none.
pub open spec fn ac13_altitude(hi: u8, lo: u8) -> Option<i32> {
    let ac13 = (((hi as u16) << 8u16) | lo as u16) & 0x1FFFu16;
    if ac13 == 0 || (ac13 >> 6u16) & 1u16 != 0 || (ac13 >> 4u16) & 1u16 != 1 {
        None
    } else {
        let n = ((ac13 & 0x1F80u16) >> 2u16) | ((ac13 & 0x0020u16) >> 1u16) | (ac13 & 0x000Fu16);
        Some((n * 25 - 1000) as i32)
    }
}

/// The squawk a 13-bit identity field spells, as four octal digits read as
/// a decimal number: A = C1 A2 A4... interleaving per the Mode A code layout.
pub open spec fn squawk_of(id13: u16) -> u16 {
    let a = (id13 >> 10u16) & 0x07u16;
    let b = (id13 >> 4u16) & 0x07u16;
    let c = (id13 >> 1u16) & 0x07u16;
    let d = (id13 & 0x01u16) | ((id13 >> 12u16) & 0x02u16) | ((id13 >> 7u16) & 0x04u16);
    (a * 1000 + b * 100 + c * 10 + d) as u16
}

/// Every decimal digit of `n` is an octal digit (0-7) and `n` has at most four.
pub open spec fn is_octal_squawk(n: u16) -> bool {
    &&& n <= 7777
    &&& n % 10 <= 7
    &&& (n / 10) % 10 <= 7
    &&& (n / 100) % 10 <= 7
}

fn decode_ac12(ac12: u16) -> (r: Option<i32>)
    requires
        ac12 <= 0xFFF,
    ensures
        r == ac12_altitude(ac12),
{
    if ac12 == 0 {
        return None;
    }
    let q_bit = (ac12 >> 4) & 1;
    if q_bit == 1 {
        let n = ((ac12 & 0xFE0) >> 1) | (ac12 & 0x00F);
        assert(n <= 2047) by (bit_vector)
            requires
                n == ((ac12 & 0xFE0u16) >> 1u16) | (ac12 & 0x00Fu16),
                ac12 <= 0xFFF,
        ;
        Some(n as i32 * 25 - 1000)
    } else {
        None
    }
}

fn decode_ac13(bytes: &[u8]) -> (r: Option<i32>)
    requires
        bytes@.len() >= 2,
    ensures
        r == ac13_altitude(bytes@[0], bytes@[1]),
{
    let ac13 = (((bytes[0] as u16) << 8) | bytes[1] as u16) & 0x1FFF;
    if ac13 == 0 {
        return None;
    }
    let m_bit = (ac13 >> 6) & 1;
    let q_bit = (ac13 >> 4) & 1;
    if m_bit == 0 && q_bit == 1 {
        let n = ((ac13 & 0x1F80) >> 2) | ((ac13 & 0x0020) >> 1) | (ac13 & 0x000F);
        assert(n <= 2047) by (bit_vector)
            requires
                n == ((ac13 & 0x1F80u16) >> 2u16) | ((ac13 & 0x0020u16) >> 1u16) | (ac13 & 0x000Fu16),
        ;
        Some(n as i32 * 25 - 1000)
    } else {
        None
    }
}

/// Decodes the Mode A identity (squawk) of a surveillance reply from its
/// third and fourth bytes.
pub fn decode_id13(bytes: &[u8]) -> (sq: u16)
    requires
        bytes@.len() >= 2,
    ensures
        sq == squawk_of((((bytes@[0] as u16) << 8u16) | bytes@[1] as u16) & 0x1FFFu16),
        is_octal_squawk(sq),
        ({
            let f = (((bytes@[0] as u16) << 8u16) | bytes@[1] as u16) & 0x1FFFu16;
            &&& sq / 1000 == (f >> 10u16) & 7u16
            &&& (sq / 100) % 10 == (f >> 4u16) & 7u16
            &&& (sq / 10) % 10 == (f >> 1u16) & 7u16
            &&& sq % 10 == (f & 1u16) | ((f >> 12u16) & 2u16) | ((f >> 7u16) & 4u16)
        }),
{
    let id13 = (((bytes[0] as u16) << 8) | bytes[1] as u16) & 0x1FFF;
    proof {
        lemma_squawk_digits(id13);
    }
    decode_id13_raw(id13)
}

/// Decodes a Mode A identity from its 13-bit field.
fn decode_id13_raw(sq: u16) -> (r: u16)
    ensures
        r == squawk_of(sq),
        is_octal_squawk(r),
{
    let a = (sq >> 10) & 0x07;
    let b = (sq >> 4) & 0x07;
    let c = (sq >> 1) & 0x07;
    let d = (sq & 0x01) | ((sq >> 12) & 0x02) | ((sq >> 7) & 0x04);
    assert(a <= 7 && b <= 7 && c <= 7) by (bit_vector)
        requires
            a == (sq >> 10u16) & 0x07u16,
            b == (sq >> 4u16) & 0x07u16,
            c == (sq >> 1u16) & 0x07u16,
    ;
    assert(d <= 7) by (bit_vector)
        requires
            d == (sq & 0x01u16) | ((sq >> 12u16) & 0x02u16) | ((sq >> 7u16) & 0x04u16),
    ;
    let r = a * 1000 + b * 100 + c * 10 + d;
    proof {
        lemma_octal_digits(a as int, b as int, c as int, d as int);
    }
    r
}

/// Four digits of at most 7, read in decimal, give an octal-looking squawk.
proof fn lemma_octal_digits(a: int, b: int, c: int, d: int)
    requires
        0 <= a <= 7,
        0 <= b <= 7,
        0 <= c <= 7,
        0 <= d <= 7,
    ensures
        ({
            let n = a * 1000 + b * 100 + c * 10 + d;
            &&& n <= 7777
            &&& n % 10 == d
            &&& (n / 10) % 10 == c
            &&& (n / 100) % 10 == b
        }),
{
    let n = a * 1000 + b * 100 + c * 10 + d;
    assert(n % 10 == d) by (nonlinear_arith)
        requires
            n == a * 1000 + b * 100 + c * 10 + d,
            0 <= d <= 7,
            0 <= a,
            0 <= b,
            0 <= c,
    ;
    assert(n / 10 == a * 100 + b * 10 + c) by (nonlinear_arith)
        requires
            n == a * 1000 + b * 100 + c * 10 + d,
            0 <= d <= 7,
            0 <= a,
            0 <= b,
            0 <= c,
    ;
    assert((a * 100 + b * 10 + c) % 10 == c) by (nonlinear_arith)
        requires
            0 <= c <= 7,
            0 <= a,
            0 <= b,
    ;
    assert(n / 100 == a * 10 + b) by (nonlinear_arith)
        requires
            n == a * 1000 + b * 100 + c * 10 + d,
            0 <= d <= 7,
            0 <= c <= 7,
            0 <= a,
            0 <= b,
    ;
    assert((a * 10 + b) % 10 == b) by (nonlinear_arith)
        requires
            0 <= b <= 7,
            0 <= a,
    ;
}

/// The decimal digits of a number made of four digits 0-7.
proof fn lemma_four_digits(a: int, b: int, c: int, d: int)
    requires
        0 <= a <= 7,
        0 <= b <= 7,
        0 <= c <= 7,
        0 <= d <= 7,
    ensures
        ({
            let n = a * 1000 + b * 100 + c * 10 + d;
            &&& n / 1000 == a
            &&& (n / 100) % 10 == b
            &&& (n / 10) % 10 == c
            &&& n % 10 == d
        }),
{
    let n = a * 1000 + b * 100 + c * 10 + d;
    assert(n / 1000 == a) by (nonlinear_arith)
        requires
            n == a * 1000 + b * 100 + c * 10 + d,
            0 <= a <= 7,
            0 <= b <= 7,
            0 <= c <= 7,
            0 <= d <= 7,
    ;
    assert(n / 100 == a * 10 + b && (a * 10 + b) % 10 == b) by (nonlinear_arith)
        requires
            n == a * 1000 + b * 100 + c * 10 + d,
            0 <= a <= 7,
            0 <= b <= 7,
            0 <= c <= 7,
            0 <= d <= 7,
    ;
    assert(n / 10 == a * 100 + b * 10 + c && (a * 100 + b * 10 + c) % 10 == c) by (nonlinear_arith)
        requires
            n == a * 1000 + b * 100 + c * 10 + d,
            0 <= a <= 7,
            0 <= b <= 7,
            0 <= c <= 7,
            0 <= d <= 7,
    ;
    assert(n % 10 == d) by (nonlinear_arith)
        requires
            n == a * 1000 + b * 100 + c * 10 + d,
            0 <= a <= 7,
            0 <= b <= 7,
            0 <= c <= 7,
            0 <= d <= 7,
    ;
}

/// The squawk of a 13-bit identity field, digit by digit: A (thousands)
/// is field bits 10-12, B (hundreds) bits 4-6, C (tens) bits 1-3, and D
/// (units) is bit 0 plus twice bit 13 plus four times bit 9 (bits counted
/// from the least significant; e.g. 0x0420 gives 1200).
pub proof fn lemma_squawk_digits(f: u16)
    ensures
        squawk_of(f) / 1000 == (f >> 10u16) & 7u16,
        (squawk_of(f) / 100) % 10 == (f >> 4u16) & 7u16,
        (squawk_of(f) / 10) % 10 == (f >> 1u16) & 7u16,
        squawk_of(f) % 10 == (f & 1u16) | ((f >> 12u16) & 2u16) | ((f >> 7u16) & 4u16),
{
    let a = (f >> 10u16) & 7u16;
    let b = (f >> 4u16) & 7u16;
    let c = (f >> 1u16) & 7u16;
    let d = (f & 1u16) | ((f >> 12u16) & 2u16) | ((f >> 7u16) & 4u16);
    assert(a <= 7 && b <= 7 && c <= 7 && d <= 7) by (bit_vector)
        requires
            a == (f >> 10u16) & 7u16,
            b == (f >> 4u16) & 7u16,
            c == (f >> 1u16) & 7u16,
            d == (f & 1u16) | ((f >> 12u16) & 2u16) | ((f >> 7u16) & 4u16),
    ;
    lemma_four_digits(a as int, b as int, c as int, d as int);
}

/// A surveillance identity reply (DF5) whose parity leaves a non-zero
/// address decodes with the squawk its identity field (bytes 2-3) spells,
/// A digit from field bits 10-12 and B digit from bits 4-6.
pub proof fn lemma_df5_squawk(msg: Seq<u8>)
    requires
        msg.len() >= 7,
        msg[0] >> 3u8 == 5,
        checksum(msg.take(7)) != 0,
    ensures
        mode_s_message(msg) matches Some(m) && m.squawk matches Some(sq) && ({
            let f = (((msg[2] as u16) << 8u16) | msg[3] as u16) & 0x1FFFu16;
            &&& sq / 1000 == (f >> 10u16) & 7u16
            &&& (sq / 100) % 10 == (f >> 4u16) & 7u16
            &&& (sq / 10) % 10 == (f >> 1u16) & 7u16
            &&& sq % 10 == (f & 1u16) | ((f >> 12u16) & 2u16) | ((f >> 7u16) & 4u16)
        }),
{
    lemma_squawk_digits((((msg[2] as u16) << 8u16) | msg[3] as u16) & 0x1FFFu16);
}

// === ADS-B ME field layout (bit 1 is the most significant bit of byte 0) ===

/// Type code: ME bits 1-5.
pub open spec fn me_type_code(me: Seq<u8>) -> u8 {
    me[0] >> 3u8
}

/// Subtype or emitter category: ME bits 6-8.
pub open spec fn me_subtype(me: Seq<u8>) -> u8 {
    me[0] & 0x07u8
}

/// CPR format (odd) flag: ME bit 22.
pub open spec fn me_cpr_odd(me: Seq<u8>) -> bool {
    (me[2] >> 2u8) & 1u8 == 1
}

/// CPR-encoded latitude: ME bits 23-39.
pub open spec fn me_cpr_lat(me: Seq<u8>) -> u32 {
    (((me[2] as u32 & 0x03u32) << 15u32) | ((me[3] as u32) << 7u32) | ((me[4] as u32) >> 1u32))
        & 0x1FFFFu32
}

/// CPR-encoded longitude: ME bits 40-56.
pub open spec fn me_cpr_lon(me: Seq<u8>) -> u32 {
    (((me[4] as u32 & 0x01u32) << 16u32) | ((me[5] as u32) << 8u32) | (me[6] as u32)) & 0x1FFFFu32
}

/// The ME field as a 56-bit big-endian number.
pub open spec fn me_bits(me: Seq<u8>) -> u64 {
    ((me[0] as u64) << 48u64) | ((me[1] as u64) << 40u64) | ((me[2] as u64) << 32u64) | ((
    me[3] as u64) << 24u64) | ((me[4] as u64) << 16u64) | ((me[5] as u64) << 8u64) | (me[6] as u64)
}

/// Character `i` (0-7) of an identification message: ME bits 9+6i to 14+6i.
pub open spec fn ident_code(me: Seq<u8>, i: int) -> u8 {
    ((me_bits(me) >> ((42 - 6 * i) as u64)) & 0x3Fu64) as u8
}

/// The character a 6-bit identification code stands for: 1-26 letters,
/// 32 space, 48-57 digits, anything else '?'.
pub open spec fn ident_char(code: u8) -> u8 {
    if 1 <= code <= 26 {
        (64 + code) as u8
    } else if code == 32 {
        0x20
    } else if 48 <= code <= 57 {
        code
    } else {
        0x3F
    }
}

/// `s` without leading spaces.
pub open spec fn trim_leading_spaces(s: Seq<u8>) -> Seq<u8>
    decreases s.len(),
{
    if s.len() > 0 && s[0] == 0x20 {
        trim_leading_spaces(s.drop_first())
    } else {
        s
    }
}

/// `s` without trailing spaces.
pub open spec fn trim_trailing_spaces(s: Seq<u8>) -> Seq<u8>
    decreases s.len(),
{
    if s.len() > 0 && s.last() == 0x20 {
        trim_trailing_spaces(s.drop_last())
    } else {
        s
    }
}

/// The eight characters of an identification message.
pub open spec fn ident_chars(me: Seq<u8>) -> Seq<u8> {
    Seq::new(8, |i: int| ident_char(ident_code(me, i)))
}

/// The callsign of an identification message: the eight characters without
/// surrounding spaces; none when that is empty or a lone '?'.
pub open spec fn ident_callsign(me: Seq<u8>) -> Option<Seq<char>> {
    let t = trim_trailing_spaces(trim_leading_spaces(ident_chars(me)));
    if t.len() == 0 || t == seq![0x3Fu8] {
        None
    } else {
        Some(latin1_chars(t))
    }
}

/// Identification and category (TC 1-4): category is (14 − TC) in the high
/// nibble, the ME emitter category in the low bits.
pub open spec fn apply_ident(me: Seq<u8>, tc: u8, m: ModeSView) -> ModeSView {
    let cat = (((0x0Eu8 - tc) as u8) << 4u8) | me_subtype(me);
    ModeSView {
        category: Some(cat),
        callsign: match ident_callsign(me) {
            Some(c) => Some(c),
            None => m.callsign,
        },
        ..m
    }
}

/// Ground speed of a surface movement code, in eighths of a knot: 1 is
/// stopped, then steps of 1/8, 1/4, 1/2, 1, 2 and 5 knots up to code 123,
/// 124 is 175 kt or more; 0 and 125-127 give none.
pub open spec fn movement_speed(mov: u16) -> Option<u32> {
    if mov == 0 {
        None
    } else if mov == 1 {
        Some(0)
    } else if mov <= 8 {
        Some((mov - 1) as u32)
    } else if mov <= 12 {
        Some((8 + 2 * (mov - 9)) as u32)
    } else if mov <= 38 {
        Some((16 + 4 * (mov - 13)) as u32)
    } else if mov <= 93 {
        Some((120 + 8 * (mov - 39)) as u32)
    } else if mov <= 108 {
        Some((560 + 16 * (mov - 94)) as u32)
    } else if mov <= 123 {
        Some((800 + 40 * (mov - 109)) as u32)
    } else if mov == 124 {
        Some(1400)
    } else {
        None
    }
}

/// Surface movement code: ME bits 6-12.
pub open spec fn me_movement(me: Seq<u8>) -> u16 {
    ((me[0] as u16 & 0x07u16) << 4u16) | ((me[1] as u16) >> 4u16)
}

/// Surface position (TC 5-8): on the ground, movement speed, ground track
/// (ME bit 13 valid, bits 14-20 in 128ths of a circle) and the CPR fields.
pub open spec fn apply_surface_pos(me: Seq<u8>, m: ModeSView) -> ModeSView {
    let track_raw = ((me[1] as u16 & 0x07u16) << 4u16) | ((me[2] as u16) >> 4u16);
    ModeSView {
        airborne: false,
        gs: match movement_speed(me_movement(me)) {
            Some(e) => Some(Speed::Eighths(e)),
            None => None,
        },
        track: if (me[1] >> 3u8) & 1u8 == 1 {
            Some(Angle::Fraction { raw: track_raw, steps: 128 })
        } else {
            m.track
        },
        cpr_lat: Some(me_cpr_lat(me)),
        cpr_lon: Some(me_cpr_lon(me)),
        cpr_odd: Some(me_cpr_odd(me)),
        ..m
    }
}

/// Navigation integrity category of an airborne position type code (TC 9-18).
pub open spec fn nic_of_type_code(tc: u8) -> u8 {
    if 9 <= tc <= 18 {
        (20 - tc) as u8
    } else {
        0
    }
}

/// Altitude code of an airborne position: ME bits 9-20.
pub open spec fn me_ac12(me: Seq<u8>) -> u16 {
    (((me[1] as u16) << 4u16) | ((me[2] as u16) >> 4u16)) & 0xFFFu16
}

/// Airborne position (TC 9-18, 20-22): airborne, altitude, CPR fields, NIC.
pub open spec fn apply_airborne_pos(me: Seq<u8>, m: ModeSView) -> ModeSView {
    ModeSView {
        airborne: true,
        altitude: ac12_altitude(me_ac12(me)),
        cpr_lat: Some(me_cpr_lat(me)),
        cpr_lon: Some(me_cpr_lon(me)),
        cpr_odd: Some(me_cpr_odd(me)),
        nic: Some(nic_of_type_code(me_type_code(me))),
        ..m
    }
}

/// Vertical rate field (ME bits 38-46) and its sign (bit 37).
pub open spec fn me_vertical_rate(me: Seq<u8>) -> Option<i32> {
    let raw = ((me[4] as i32 & 0x07i32) << 6i32) | ((me[5] as i32) >> 2i32);
    if raw > 0 {
        let rate = (raw - 1) * 64;
        Some(
            if (me[4] >> 3u8) & 1u8 == 1 {
                -rate
            } else {
                rate
            } as i32,
        )
    } else {
        None
    }
}

/// One signed velocity component: raw value (1 + speed), sign bit, scale.
pub open spec fn velocity_component(raw: i32, negative: bool, mult: i32) -> i32 {
    let v = (raw - 1) * mult;
    (if negative {
        -v
    } else {
        v
    }) as i32
}

/// Airborne velocity (TC 19): NACv always; for ground-speed subtypes 1-2
/// the E-W (ME bits 14-24) and N-S (bits 25-35) components, ×4 for
/// subtype 2, and the vertical rate (barometric or geometric by bit 36);
/// for airspeed subtypes 3-4 the magnetic heading (bit 14 valid, bits
/// 15-24 in 1024ths of a circle), IAS or TAS (bit 25, bits 26-35, ×4 for
/// subtype 4) and the barometric vertical rate.
pub open spec fn apply_velocity(me: Seq<u8>, m: ModeSView) -> ModeSView {
    let subtype = me_subtype(me);
    let m1 = ModeSView { nac_v: Some((me[1] >> 3u8) & 0x07u8), ..m };
    if subtype == 1 || subtype == 2 {
        let mult: i32 = if subtype == 2 {
            4
        } else {
            1
        };
        let ew_raw = ((me[1] as i32 & 0x03i32) << 8i32) | me[2] as i32;
        let ns_raw = ((me[3] as i32 & 0x7Fi32) << 3i32) | ((me[4] as i32) >> 5i32);
        let m2 = if ew_raw > 0 && ns_raw > 0 {
            let vx = velocity_component(ew_raw, (me[1] >> 2u8) & 1u8 == 1, mult);
            let vy = velocity_component(ns_raw, (me[3] >> 7u8) & 1u8 == 1, mult);
            ModeSView {
                gs: Some(Speed::Vector { vx, vy }),
                track: Some(Angle::Vector { vx, vy }),
                ..m1
            }
        } else {
            m1
        };
        match me_vertical_rate(me) {
            Some(rate) => if (me[4] >> 4u8) & 1u8 == 0 {
                ModeSView { baro_rate: Some(rate), ..m2 }
            } else {
                ModeSView { geom_rate: Some(rate), ..m2 }
            },
            None => m2,
        }
    } else if subtype == 3 || subtype == 4 {
        let mult: u16 = if subtype == 4 {
            4
        } else {
            1
        };
        let hdg_raw = ((me[1] as u16 & 0x03u16) << 8u16) | me[2] as u16;
        let m2 = if (me[1] >> 2u8) & 1u8 == 1 {
            ModeSView { mag_heading: Some(Angle::Fraction { raw: hdg_raw, steps: 1024 }), ..m1 }
        } else {
            m1
        };
        let as_field = ((me[3] as u16 & 0x7Fu16) << 3u16) | ((me[4] as u16) >> 5u16);
        let m3 = if 1 <= as_field <= 0x3FE {
            let speed = ((as_field - 1) * mult) as u16;
            if (me[3] >> 7u8) & 1u8 == 0 {
                ModeSView { ias: Some(speed), ..m2 }
            } else {
                ModeSView { tas: Some(speed), ..m2 }
            }
        } else {
            m2
        };
        match me_vertical_rate(me) {
            Some(rate) => ModeSView { baro_rate: Some(rate), ..m3 },
            None => m3,
        }
    } else {
        m1
    }
}

/// Emergency / priority status (TC 28, subtype 1): emergency state (ME
/// bits 9-11) and the Mode A code (bits 12-24).
pub open spec fn apply_emergency(me: Seq<u8>, m: ModeSView) -> ModeSView {
    if me_subtype(me) == 1 {
        let sq = ((me[1] as u16 & 0x1Fu16) << 8u16) | me[2] as u16;
        ModeSView { emergency: Some((me[1] >> 5u8) & 0x07u8), squawk: Some(squawk_of(sq)), ..m }
    } else {
        m
    }
}

/// Target state and status (TC 29, subtype 1): SIL, selected altitude
/// (ME bits 10-20, 32 ft steps from 0, 0 = none), barometric setting (bits
/// 21-29, 0 = none), selected heading (bit 30 valid, bits 31-39 in 512ths
/// of a circle), NACp and NIC-baro.
pub open spec fn apply_target_state(me: Seq<u8>, m: ModeSView) -> ModeSView {
    if me_subtype(me) == 1 {
        let alt_raw = ((me[1] as u32 & 0x3Fu32) << 5u32) | ((me[2] as u32) >> 3u32);
        let baro_raw = ((me[2] as u16 & 0x07u16) << 6u16) | ((me[3] as u16) >> 2u16);
        let hdg = ((me[3] as u16 & 0x01u16) << 8u16) | me[4] as u16;
        ModeSView {
            sil: Some((me[1] >> 6u8) & 0x03u8),
            nav_altitude_mcp: if alt_raw > 0 {
                Some(((alt_raw - 1) * 32) as u32)
            } else {
                m.nav_altitude_mcp
            },
            nav_qnh: if baro_raw > 0 {
                Some(baro_raw)
            } else {
                m.nav_qnh
            },
            nav_heading: if (me[3] >> 1u8) & 1u8 == 1 {
                Some(Angle::Fraction { raw: hdg, steps: 512 })
            } else {
                m.nav_heading
            },
            nac_p: Some((me[5] >> 5u8) & 0x0Fu8),
            nic_baro: Some((me[5] >> 3u8) & 1u8),
            ..m
        }
    } else {
        m
    }
}

/// Operational status (TC 31): version, NIC supplement (also taken as NACp),
/// SIL, GVA and SDA.
pub open spec fn apply_op_status(me: Seq<u8>, m: ModeSView) -> ModeSView {
    ModeSView {
        adsb_version: Some((me[5] >> 5u8) & 0x07u8),
        nic: Some(me[5] & 0x0Fu8),
        nac_p: Some(me[5] & 0x0Fu8),
        sil: Some((me[6] >> 6u8) & 0x03u8),
        gva: Some((me[6] >> 2u8) & 0x03u8),
        sda: Some(me[6] & 0x03u8),
        ..m
    }
}

/// Track and ground speed report (BDS 5,0) in a Comm-B field: taken when at
/// least three of the roll, track, ground-speed and TAS status bits are set;
/// ground speed in 2 kt steps (kept below 700 kt), TAS in knots (below 600),
/// track in 512ths of a circle (non-zero).
pub open spec fn apply_bds(mb: Seq<u8>, m: ModeSView) -> ModeSView {
    let roll_valid = (mb[0] >> 7u8) & 1u8;
    let track_valid = (mb[0] >> 2u8) & 1u8;
    let gs_valid = (mb[1] >> 7u8) & 1u8;
    let tas_valid = (mb[3] >> 4u8) & 1u8;
    if roll_valid + track_valid + gs_valid + tas_valid < 3 {
        m
    } else {
        let gs_raw = ((mb[1] as u16 & 0x7Fu16) << 3u16) | ((mb[2] as u16) >> 5u16);
        let tas_raw = ((mb[3] as u16 & 0x0Fu16) << 6u16) | ((mb[4] as u16) >> 2u16);
        let trk_raw = ((mb[0] as u16 & 0x03u16) << 7u16) | (((mb[1] as u16) >> 1u16) & 0x1FFu16);
        let m1 = if gs_valid == 1 && 0 < gs_raw < 350 {
            ModeSView { gs: Some(Speed::Eighths((gs_raw * 16) as u32)), ..m }
        } else {
            m
        };
        let m2 = if tas_valid == 1 && 0 < tas_raw < 600 {
            ModeSView { tas: Some(tas_raw), ..m1 }
        } else {
            m1
        };
        if track_valid == 1 && trk_raw > 0 {
            ModeSView { track: Some(Angle::Fraction { raw: trk_raw, steps: 512 }), ..m2 }
        } else {
            m2
        }
    }
}

fn ident_char_exec(code: u8) -> (c: u8)
    ensures
        c == ident_char(code),
{
    if 1 <= code && code <= 26 {
        64 + code
    } else if code == 32 {
        0x20
    } else if 48 <= code && code <= 57 {
        code
    } else {
        0x3F
    }
}

/// The bytes of `s` from `start` to `end`.
fn copy_range(s: &[u8], start: usize, end: usize) -> (v: Vec<u8>)
    requires
        start <= end <= s@.len(),
    ensures
        v@ == s@.subrange(start as int, end as int),
{
    let mut v: Vec<u8> = Vec::new();
    let mut i = start;
    while i < end
        invariant
            start <= i <= end,
            end <= s@.len(),
            v@ == s@.subrange(start as int, i as int),
        decreases end - i,
    {
        v.push(s[i]);
        assert(s@.subrange(start as int, i as int).push(s@[i as int]) =~= s@.subrange(
            start as int,
            i + 1,
        ));
        i += 1;
    }
    v
}

proof fn lemma_trim_leading_skip(s: Seq<u8>, i: int)
    requires
        0 <= i <= s.len(),
        forall|j: int| 0 <= j < i ==> s[j] == 0x20,
    ensures
        trim_leading_spaces(s) == trim_leading_spaces(s.subrange(i, s.len() as int)),
    decreases i,
{
    if i > 0 {
        assert(s.drop_first().subrange(i - 1, s.drop_first().len() as int) =~= s.subrange(
            i,
            s.len() as int,
        ));
        lemma_trim_leading_skip(s.drop_first(), i - 1);
    } else {
        assert(s.subrange(0, s.len() as int) =~= s);
    }
}

proof fn lemma_trim_trailing_skip(s: Seq<u8>, e: int)
    requires
        0 <= e <= s.len(),
        forall|j: int| e <= j < s.len() ==> s[j] == 0x20,
    ensures
        trim_trailing_spaces(s) == trim_trailing_spaces(s.subrange(0, e)),
    decreases s.len() - e,
{
    if e < s.len() {
        assert(s.drop_last().subrange(0, e) =~= s.subrange(0, e));
        lemma_trim_trailing_skip(s.drop_last(), e);
    } else {
        assert(s.subrange(0, e) =~= s);
    }
}

/// The identification characters without surrounding spaces.
fn trim_spaces(s: &[u8]) -> (t: Vec<u8>)
    ensures
        t@ == trim_trailing_spaces(trim_leading_spaces(s@)),
{
    let n = s.len();
    let mut a: usize = 0;
    while a < n && s[a] == 0x20
        invariant
            a <= n,
            n == s@.len(),
            forall|j: int| 0 <= j < a ==> s@[j] == 0x20,
        decreases n - a,
    {
        a += 1;
    }
    proof {
        lemma_trim_leading_skip(s@, a as int);
        let r = s@.subrange(a as int, n as int);
        if r.len() > 0 {
            assert(r[0] != 0x20);
        }
        assert(trim_leading_spaces(r) == r);
    }
    let ghost r = s@.subrange(a as int, n as int);
    let mut e: usize = n;
    while e > a && s[e - 1] == 0x20
        invariant
            a <= e <= n,
            n == s@.len(),
            r == s@.subrange(a as int, n as int),
            forall|j: int| e <= j < n ==> s@[j] == 0x20,
        decreases e,
    {
        e -= 1;
    }
    proof {
        let k = (e - a) as int;
        assert forall|j: int| k <= j < r.len() implies r[j] == 0x20 by {
            assert(r[j] == s@[a + j]);
        }
        lemma_trim_trailing_skip(r, k);
        let q = r.subrange(0, k);
        if q.len() > 0 {
            assert(q.last() == s@[e - 1]);
        }
        assert(trim_trailing_spaces(q) == q);
        assert(q =~= s@.subrange(a as int, e as int));
    }
    copy_range(s, a, e)
}

/// Identification (TC 1-4): category and callsign.
fn decode_ident(me: &[u8], tc: u8, m: &mut ModeS)
    requires
        me@.len() >= 7,
        1 <= tc <= 4,
    ensures
        final(m)@ == apply_ident(me@, tc, old(m)@),
{
    let ca = me[0] & 0x07;
    m.category = Some(((0x0E - tc) << 4) | ca);
    let bits: u64 = ((me[0] as u64) << 48) | ((me[1] as u64) << 40) | ((me[2] as u64) << 32) | ((
    me[3] as u64) << 24) | ((me[4] as u64) << 16) | ((me[5] as u64) << 8) | (me[6] as u64);
    let mut cs: Vec<u8> = Vec::with_capacity(8);
    let mut i: usize = 0;
    while i < 8
        invariant
            i <= 8,
            me@.len() >= 7,
            bits == me_bits(me@),
            cs@ == ident_chars(me@).take(i as int),
        decreases 8 - i,
    {
        let idx = ((bits >> (42 - i * 6) as u64) & 0x3F) as u8;
        cs.push(ident_char_exec(idx));
        assert(ident_chars(me@).take(i as int).push(ident_char(idx)) =~= ident_chars(me@).take(
            i + 1,
        ));
        i += 1;
    }
    assert(cs@ =~= ident_chars(me@));
    let t = trim_spaces(cs.as_slice());
    if t.len() > 0 && !(t.len() == 1 && t[0] == 0x3F) {
        m.callsign = Some(latin1_string(t.as_slice()));
    } else {
        proof {
            if t@.len() == 1 {
                assert(t@ =~= seq![0x3Fu8]);
            }
        }
    }
    proof {
        if t@.len() > 0 && !(t@.len() == 1 && t@[0] == 0x3F) {
            assert(t@ != seq![0x3Fu8]);
        }
    }
}

fn movement_speed_exec(mov: u16) -> (r: Option<u32>)
    ensures
        r == movement_speed(mov),
{
    if mov == 0 {
        None
    } else if mov == 1 {
        Some(0)
    } else if mov <= 8 {
        Some((mov - 1) as u32)
    } else if mov <= 12 {
        Some((8 + 2 * (mov - 9)) as u32)
    } else if mov <= 38 {
        Some((16 + 4 * (mov - 13)) as u32)
    } else if mov <= 93 {
        Some((120 + 8 * (mov - 39)) as u32)
    } else if mov <= 108 {
        Some((560 + 16 * (mov - 94)) as u32)
    } else if mov <= 123 {
        Some((800 + 40 * (mov - 109)) as u32)
    } else if mov == 124 {
        Some(1400)
    } else {
        None
    }
}

/// Ground speed of a surface movement code, in eighths of a knot.
pub fn decode_movement(mov: u16) -> (r: Option<Speed>)
    ensures
        r == (match movement_speed(mov) {
            Some(e) => Some(Speed::Eighths(e)),
            None => None,
        }),
{
    match movement_speed_exec(mov) {
        Some(e) => Some(Speed::Eighths(e)),
        None => None,
    }
}

fn cpr_fields(me: &[u8], m: &mut ModeS)
    requires
        me@.len() >= 7,
    ensures
        final(m)@ == (ModeSView {
            cpr_lat: Some(me_cpr_lat(me@)),
            cpr_lon: Some(me_cpr_lon(me@)),
            cpr_odd: Some(me_cpr_odd(me@)),
            ..old(m)@
        }),
{
    let odd = (me[2] >> 2) & 1;
    m.cpr_lat = Some((((me[2] as u32 & 0x03) << 15) | ((me[3] as u32) << 7) | ((me[4] as u32) >> 1))
        & 0x1FFFF);
    m.cpr_lon = Some((((me[4] as u32 & 0x01) << 16) | ((me[5] as u32) << 8) | (me[6] as u32))
        & 0x1FFFF);
    m.cpr_odd = Some(odd == 1);
}

/// Surface position (TC 5-8).
fn decode_surface_pos(me: &[u8], m: &mut ModeS)
    requires
        me@.len() >= 7,
    ensures
        final(m)@ == apply_surface_pos(me@, old(m)@),
{
    m.airborne = false;
    let movement = ((me[0] as u16 & 0x07) << 4) | ((me[1] as u16) >> 4);
    m.gs = decode_movement(movement);
    if (me[1] >> 3) & 1 == 1 {
        let raw = ((me[1] as u16 & 0x07) << 4) | ((me[2] as u16) >> 4);
        m.track = Some(Angle::Fraction { raw, steps: 128 });
    }
    cpr_fields(me, m);
}

/// Airborne position (TC 9-18, 20-22).
fn decode_airborne_pos(me: &[u8], m: &mut ModeS)
    requires
        me@.len() >= 7,
    ensures
        final(m)@ == apply_airborne_pos(me@, old(m)@),
{
    m.airborne = true;
    let b1 = me[1];
    let b2 = me[2];
    let ac12 = (((b1 as u16) << 4) | ((b2 as u16) >> 4)) & 0xFFF;
    assert(ac12 <= 0xFFF) by (bit_vector)
        requires
            ac12 == (((b1 as u16) << 4u16) | ((b2 as u16) >> 4u16)) & 0xFFFu16,
    ;
    m.altitude = decode_ac12(ac12);
    cpr_fields(me, m);
    let tc = me[0] >> 3;
    m.nic = Some(if 9 <= tc && tc <= 18 {
        20 - tc
    } else {
        0
    });
}

fn vertical_rate(me: &[u8]) -> (r: Option<i32>)
    requires
        me@.len() >= 7,
    ensures
        r == me_vertical_rate(me@),
{
    let b4 = me[4];
    let b5 = me[5];
    let vr_raw = ((b4 as i32 & 0x07) << 6) | ((b5 as i32) >> 2);
    assert(0 <= vr_raw <= 511) by (bit_vector)
        requires
            vr_raw == ((b4 as i32 & 0x07i32) << 6i32) | ((b5 as i32) >> 2i32),
    ;
    if vr_raw > 0 {
        let rate = (vr_raw - 1) * 64;
        Some(
            if (me[4] >> 3) & 1 == 1 {
                -rate
            } else {
                rate
            },
        )
    } else {
        None
    }
}

/// Airborne velocity (TC 19).
fn decode_velocity(me: &[u8], m: &mut ModeS)
    requires
        me@.len() >= 7,
    ensures
        final(m)@ == apply_velocity(me@, old(m)@),
{
    let subtype = me[0] & 0x07;
    m.nac_v = Some((me[1] >> 3) & 0x07);
    if subtype == 1 || subtype == 2 {
        let mult: i32 = if subtype == 2 {
            4
        } else {
            1
        };
        let b1 = me[1];
        let b2 = me[2];
        let b3 = me[3];
        let b4 = me[4];
        let ew_raw = ((b1 as i32 & 0x03) << 8) | b2 as i32;
        let ns_raw = ((b3 as i32 & 0x7F) << 3) | ((b4 as i32) >> 5);
        assert(0 <= ew_raw <= 1023) by (bit_vector)
            requires
                ew_raw == ((b1 as i32 & 0x03i32) << 8i32) | b2 as i32,
        ;
        assert(0 <= ns_raw <= 1023) by (bit_vector)
            requires
                ns_raw == ((b3 as i32 & 0x7Fi32) << 3i32) | ((b4 as i32) >> 5i32),
        ;
        if ew_raw > 0 && ns_raw > 0 {
            let ew_vel = (ew_raw - 1) * mult;
            let ns_vel = (ns_raw - 1) * mult;
            let vx = if (me[1] >> 2) & 1 == 1 {
                -ew_vel
            } else {
                ew_vel
            };
            let vy = if (me[3] >> 7) & 1 == 1 {
                -ns_vel
            } else {
                ns_vel
            };
            m.gs = Some(Speed::Vector { vx, vy });
            m.track = Some(Angle::Vector { vx, vy });
        }
        match vertical_rate(me) {
            Some(rate) => {
                if (me[4] >> 4) & 1 == 0 {
                    m.baro_rate = Some(rate);
                } else {
                    m.geom_rate = Some(rate);
                }
            },
            None => {},
        }
    } else if subtype == 3 || subtype == 4 {
        let mult: u16 = if subtype == 4 {
            4
        } else {
            1
        };
        if (me[1] >> 2) & 1 == 1 {
            let hdg_raw = ((me[1] as u16 & 0x03) << 8) | me[2] as u16;
            m.mag_heading = Some(Angle::Fraction { raw: hdg_raw, steps: 1024 });
        }
        let as_field = ((me[3] as u16 & 0x7F) << 3) | ((me[4] as u16) >> 5);
        let as_raw = as_field.wrapping_sub(1);
        if as_raw < 0x3FE {
            assert(1 <= as_field <= 0x3FE);
            let speed = as_raw * mult;
            if (me[3] >> 7) & 1 == 0 {
                m.ias = Some(speed);
            } else {
                m.tas = Some(speed);
            }
        } else {
            assert(!(1 <= as_field <= 0x3FE));
        }
        match vertical_rate(me) {
            Some(rate) => {
                m.baro_rate = Some(rate);
            },
            None => {},
        }
    }
}

/// Emergency / priority status (TC 28).
fn decode_emergency(me: &[u8], m: &mut ModeS)
    requires
        me@.len() >= 7,
    ensures
        final(m)@ == apply_emergency(me@, old(m)@),
{
    let subtype = me[0] & 0x07;
    if subtype == 1 {
        m.emergency = Some((me[1] >> 5) & 0x07);
        let sq = ((me[1] as u16 & 0x1F) << 8) | me[2] as u16;
        m.squawk = Some(decode_id13_raw(sq));
    }
}

/// Target state and status (TC 29).
fn decode_target_state(me: &[u8], m: &mut ModeS)
    requires
        me@.len() >= 7,
    ensures
        final(m)@ == apply_target_state(me@, old(m)@),
{
    let subtype = me[0] & 0x07;
    if subtype == 1 {
        m.sil = Some((me[1] >> 6) & 0x03);
        let b1 = me[1];
        let b2 = me[2];
        let alt_raw = ((b1 as u32 & 0x3F) << 5) | ((b2 as u32) >> 3);
        assert(alt_raw <= 2047) by (bit_vector)
            requires
                alt_raw == ((b1 as u32 & 0x3Fu32) << 5u32) | ((b2 as u32) >> 3u32),
        ;
        if alt_raw > 0 {
            m.nav_altitude_mcp = Some((alt_raw - 1) * 32);
        }
        let baro_raw = ((me[2] as u16 & 0x07) << 6) | ((me[3] as u16) >> 2);
        if baro_raw > 0 {
            m.nav_qnh = Some(baro_raw);
        }
        if (me[3] >> 1) & 1 == 1 {
            let hdg = ((me[3] as u16 & 0x01) << 8) | me[4] as u16;
            m.nav_heading = Some(Angle::Fraction { raw: hdg, steps: 512 });
        }
        m.nac_p = Some((me[5] >> 5) & 0x0F);
        m.nic_baro = Some((me[5] >> 3) & 1);
    }
}

/// Operational status (TC 31).
fn decode_op_status(me: &[u8], m: &mut ModeS)
    requires
        me@.len() >= 7,
    ensures
        final(m)@ == apply_op_status(me@, old(m)@),
{
    m.adsb_version = Some((me[5] >> 5) & 0x07);
    m.nic = Some(me[5] & 0x0F);
    m.nac_p = Some(me[5] & 0x0F);
    m.sil = Some((me[6] >> 6) & 0x03);
    m.gva = Some((me[6] >> 2) & 0x03);
    m.sda = Some(me[6] & 0x03);
}

/// Track and ground speed report (BDS 5,0) of a DF20/21 Comm-B field.
fn decode_bds(mb: &[u8], m: &mut ModeS)
    requires
        mb@.len() >= 7,
    ensures
        final(m)@ == apply_bds(mb@, old(m)@),
{
    let b0 = mb[0];
    let b1 = mb[1];
    let b3 = mb[3];
    let roll_valid = (b0 >> 7) & 1;
    let track_valid = (b0 >> 2) & 1;
    let gs_valid = (b1 >> 7) & 1;
    let tas_valid = (b3 >> 4) & 1;
    assert(roll_valid <= 1 && track_valid <= 1 && gs_valid <= 1 && tas_valid <= 1) by (bit_vector)
        requires
            roll_valid == (b0 >> 7u8) & 1u8,
            track_valid == (b0 >> 2u8) & 1u8,
            gs_valid == (b1 >> 7u8) & 1u8,
            tas_valid == (b3 >> 4u8) & 1u8,
    ;
    let valid_count = roll_valid + track_valid + gs_valid + tas_valid;
    if valid_count < 3 {
        return ;
    }
    if gs_valid == 1 {
        let gs_raw = ((mb[1] as u16 & 0x7F) << 3) | ((mb[2] as u16) >> 5);
        if gs_raw > 0 && gs_raw < 350 {
            m.gs = Some(Speed::Eighths(gs_raw as u32 * 16));
        }
    }
    if tas_valid == 1 {
        let tas_raw = ((mb[3] as u16 & 0x0F) << 6) | ((mb[4] as u16) >> 2);
        if tas_raw > 0 && tas_raw < 600 {
            m.tas = Some(tas_raw);
        }
    }
    if track_valid == 1 {
        let trk_raw = ((mb[0] as u16 & 0x03) << 7) | (((mb[1] as u16) >> 1) & 0x1FF);
        if trk_raw > 0 {
            m.track = Some(Angle::Fraction { raw: trk_raw, steps: 512 });
        }
    }
}

// === Whole messages ===

/// The 24-bit address in bytes 1-3 of a message.
pub open spec fn announced_address(msg: Seq<u8>) -> u32 {
    ((msg[1] as u32) << 16u32) | ((msg[2] as u32) << 8u32) | (msg[3] as u32)
}

/// The 13-bit identity field in bytes 2-3 of a surveillance reply.
pub open spec fn id13_field(msg: Seq<u8>) -> u16 {
    (((msg[2] as u16) << 8u16) | msg[3] as u16) & 0x1FFFu16
}

/// Length in bytes of a surveillance / Comm-B reply of format `df`.
pub open spec fn short_long_len(df: u8) -> nat {
    if df == 16 || df == 20 || df == 21 {
        14
    } else {
        7
    }
}

/// A surveillance, all-call or Comm-B reply (DF 0/4/5/11/16/20/21). DF11
/// carries its address and needs a zero residual; the others overlay the
/// address on the parity, so the residual is the address. A zero address
/// is refused. Altitude (DF 0/4/16/20), identity (DF 5/21) and, in DF 20/21,
/// a BDS 5,0 report are decoded.
pub open spec fn short_long_message(msg: Seq<u8>, df: u8) -> Option<ModeSView> {
    let len = short_long_len(df);
    if msg.len() < len {
        None
    } else {
        let crc = checksum(msg.take(len as int));
        if df == 11 && crc != 0 {
            None
        } else {
            let icao = if df == 11 {
                announced_address(msg)
            } else {
                crc
            };
            if icao == 0 {
                None
            } else {
                let m = ModeSView { df, icao, addr_type: 7, valid: true, ..empty_view() };
                Some(
                    if df == 0 || df == 16 {
                        ModeSView { altitude: ac13_altitude(msg[2], msg[3]), airborne: true, ..m }
                    } else if df == 4 || df == 20 {
                        let m1 = ModeSView {
                            altitude: ac13_altitude(msg[2], msg[3]),
                            airborne: true,
                            ..m
                        };
                        if df == 20 {
                            apply_bds(msg.subrange(4, 11), m1)
                        } else {
                            m1
                        }
                    } else if df == 5 || df == 21 {
                        let m1 = ModeSView { squawk: Some(squawk_of(id13_field(msg))), ..m };
                        if df == 21 {
                            apply_bds(msg.subrange(4, 11), m1)
                        } else {
                            m1
                        }
                    } else {
                        m
                    },
                )
            }
        }
    }
}

/// The 14 message bytes as accepted: intact, or with the lowest single bit
/// whose flip gives a zero residual flipped; none when no such bit exists.
pub open spec fn corrected_squitter(msg: Seq<u8>) -> Option<Seq<u8>> {
    let b = msg.take(14);
    if checksum(b) == 0 {
        Some(b)
    } else if exists|k: int| repairs(b, k) {
        Some(flip_bit(b, lowest_repair(b)))
    } else {
        None
    }
}

/// The ME field decoded into `m` according to its type code.
pub open spec fn apply_me(me: Seq<u8>, m: ModeSView) -> ModeSView {
    let tc = me_type_code(me);
    if 1 <= tc <= 4 {
        apply_ident(me, tc, m)
    } else if 5 <= tc <= 8 {
        apply_surface_pos(me, m)
    } else if 9 <= tc <= 18 {
        apply_airborne_pos(me, m)
    } else if tc == 19 {
        apply_velocity(me, m)
    } else if 20 <= tc <= 22 {
        let m1 = apply_airborne_pos(me, m);
        match m1.altitude {
            Some(a) => ModeSView { alt_gnss: Some(a), altitude: None, ..m1 },
            None => m1,
        }
    } else if tc == 28 {
        apply_emergency(me, m)
    } else if tc == 29 {
        apply_target_state(me, m)
    } else if tc == 31 {
        apply_op_status(me, m)
    } else {
        m
    }
}

/// An extended squitter (DF17/18): 14 bytes, with at most one bit repaired,
/// a non-zero announced address, and the ME field decoded.
pub open spec fn squitter_message(msg: Seq<u8>, df: u8) -> Option<ModeSView> {
    if msg.len() < 14 {
        None
    } else {
        match corrected_squitter(msg) {
            None => None,
            Some(buf) => {
                let icao = announced_address(buf);
                if icao == 0 {
                    None
                } else {
                    let m = ModeSView {
                        df,
                        icao,
                        addr_type: if df == 18 {
                            8
                        } else {
                            0
                        },
                        valid: true,
                        ..empty_view()
                    };
                    Some(apply_me(buf.subrange(4, 11), m))
                }
            },
        }
    }
}

/// What a Mode-S message decodes to, by downlink format (the first five
/// bits); none for messages under 7 bytes and other formats.
pub open spec fn mode_s_message(msg: Seq<u8>) -> Option<ModeSView> {
    if msg.len() < 7 {
        None
    } else {
        let df = msg[0] >> 3u8;
        if df == 0 || df == 4 || df == 5 || df == 11 || df == 16 || df == 20 || df == 21 {
            short_long_message(msg, df)
        } else if df == 17 || df == 18 {
            squitter_message(msg, df)
        } else {
            None
        }
    }
}

/// An intact extended squitter (DF17/18, zero parity residual, non-zero
/// address) whose type code (the top five bits of byte 4) is 5-8 is a
/// surface position: it decodes, with the aircraft on the ground.
pub proof fn lemma_surface_position_on_ground(msg: Seq<u8>)
    requires
        msg.len() >= 14,
        msg[0] >> 3u8 == 17 || msg[0] >> 3u8 == 18,
        checksum(msg.take(14)) == 0,
        msg[1] != 0 || msg[2] != 0 || msg[3] != 0,
        5 <= msg[4] >> 3u8 <= 8,
    ensures
        mode_s_message(msg) matches Some(m) && !m.airborne,
{
    let buf = msg.take(14);
    assert(corrected_squitter(msg) == Some(buf));
    let (a, b, c) = (buf[1], buf[2], buf[3]);
    assert(((a as u32) << 16u32) | ((b as u32) << 8u32) | (c as u32) != 0) by (bit_vector)
        requires
            a != 0 || b != 0 || c != 0,
    ;
    assert(announced_address(buf) != 0);
    let me = buf.subrange(4, 11);
    assert(me[0] == msg[4]);
    assert(5 <= me_type_code(me) <= 8);
}

/// Decodes a Mode-S message; none when its parity does not check out or its
/// format is not handled.
pub fn decode(msg: &[u8]) -> (r: Option<ModeS>)
    ensures
        match r {
            Some(m) => mode_s_message(msg@) == Some(m@),
            None => mode_s_message(msg@) is None,
        },
        msg@.len() >= 14 && (msg@[0] >> 3u8 == 17 || msg@[0] >> 3u8 == 18) && checksum(
            msg@.take(14),
        ) == 0 && (msg@[1] != 0 || msg@[2] != 0 || msg@[3] != 0) && 5 <= msg@[4] >> 3u8 <= 8
            ==> (r matches Some(m) && !m.airborne),
{
    proof {
        if msg@.len() >= 14 && (msg@[0] >> 3u8 == 17 || msg@[0] >> 3u8 == 18) && checksum(
            msg@.take(14),
        ) == 0 && (msg@[1] != 0 || msg@[2] != 0 || msg@[3] != 0) && 5 <= msg@[4] >> 3u8 <= 8 {
            lemma_surface_position_on_ground(msg@);
        }
    }
    if msg.len() < 7 {
        return None;
    }
    let df = msg[0] >> 3;
    if df == 0 || df == 4 || df == 5 || df == 11 || df == 16 || df == 20 || df == 21 {
        decode_short_long(msg, df)
    } else if df == 17 || df == 18 {
        decode_df17(msg, df)
    } else {
        None
    }
}

fn decode_short_long(msg: &[u8], df: u8) -> (r: Option<ModeS>)
    ensures
        match r {
            Some(m) => short_long_message(msg@, df) == Some(m@),
            None => short_long_message(msg@, df) is None,
        },
{
    let len: usize = if df == 16 || df == 20 || df == 21 {
        14
    } else {
        7
    };
    if msg.len() < len {
        return None;
    }
    let head = copy_range(msg, 0, len);
    assert(head@ =~= msg@.take(len as int));
    let crc = modes_checksum(head.as_slice());
    let icao = if df == 11 {
        let addr = ((msg[1] as u32) << 16) | ((msg[2] as u32) << 8) | (msg[3] as u32);
        if crc != 0 {
            return None;
        }
        addr
    } else {
        crc
    };
    if icao == 0 {
        return None;
    }
    let mut m = ModeS::new();
    m.df = df;
    m.icao = icao;
    m.addr_type = 7;
    m.valid = true;
    if df == 0 || df == 16 {
        let alt_bytes = copy_range(msg, 2, 4);
        m.altitude = decode_ac13(alt_bytes.as_slice());
        m.airborne = true;
    } else if df == 4 || df == 20 {
        let alt_bytes = copy_range(msg, 2, 4);
        m.altitude = decode_ac13(alt_bytes.as_slice());
        m.airborne = true;
        if df == 20 {
            let mb = copy_range(msg, 4, 11);
            decode_bds(mb.as_slice(), &mut m);
        }
    } else if df == 5 || df == 21 {
        let id_bytes = copy_range(msg, 2, 4);
        m.squawk = Some(decode_id13(id_bytes.as_slice()));
        if df == 21 {
            let mb = copy_range(msg, 4, 11);
            decode_bds(mb.as_slice(), &mut m);
        }
    }
    Some(m)
}

fn decode_df17(msg: &[u8], df: u8) -> (r: Option<ModeS>)
    ensures
        match r {
            Some(m) => squitter_message(msg@, df) == Some(m@),
            None => squitter_message(msg@, df) is None,
        },
{
    if msg.len() < 14 {
        return None;
    }
    let mut buf = [0u8; 14];
    let mut i: usize = 0;
    while i < 14
        invariant
            i <= 14,
            msg@.len() >= 14,
            forall|j: int| 0 <= j < i ==> buf@[j] == msg@[j],
        decreases 14 - i,
    {
        buf[i] = msg[i];
        i += 1;
    }
    let ghost orig = msg@.take(14);
    assert(buf@ =~= orig);
    if modes_checksum(buf.as_slice()) != 0 {
        if !modes_fix_single_bit(&mut buf) {
            return None;
        }
        proof {
            let b = choose|b: int|
                {
                    &&& repairs(orig, b)
                    &&& buf@ == flip_bit(orig, b)
                    &&& forall|c: int| 0 <= c < b ==> !repairs(orig, c)
                };
            lemma_lowest_repair_unique(orig, b);
        }
    }
    assert(corrected_squitter(msg@) == Some(buf@));
    let icao = ((buf[1] as u32) << 16) | ((buf[2] as u32) << 8) | (buf[3] as u32);
    if icao == 0 {
        return None;
    }
    let mut m = ModeS::new();
    m.df = df;
    m.icao = icao;
    m.addr_type = if df == 18 {
        8
    } else {
        0
    };
    m.valid = true;
    let me = copy_range(buf.as_slice(), 4, 11);
    let tc = me[0] >> 3;
    if 1 <= tc && tc <= 4 {
        decode_ident(me.as_slice(), tc, &mut m);
    } else if 5 <= tc && tc <= 8 {
        decode_surface_pos(me.as_slice(), &mut m);
    } else if 9 <= tc && tc <= 18 {
        decode_airborne_pos(me.as_slice(), &mut m);
    } else if tc == 19 {
        decode_velocity(me.as_slice(), &mut m);
    } else if 20 <= tc && tc <= 22 {
        decode_airborne_pos(me.as_slice(), &mut m);
        match m.altitude {
            Some(alt) => {
                m.alt_gnss = Some(alt);
                m.altitude = None;
            },
            None => {},
        }
    } else if tc == 28 {
        decode_emergency(me.as_slice(), &mut m);
    } else if tc == 29 {
        decode_target_state(me.as_slice(), &mut m);
    } else if tc == 31 {
        decode_op_status(me.as_slice(), &mut m);
    }
    Some(m)
}

} // verus!
