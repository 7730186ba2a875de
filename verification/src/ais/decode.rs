//! AIS NMEA payload → binary frames (position 0x01, static 0x05, AtoN 0x15).
use vstd::arithmetic::power2::{lemma2_to64, lemma_pow2_strictly_increases, lemma_pow2_unfold, pow2};
use vstd::bits::{lemma_u32_pow2_no_overflow, lemma_u32_shl_is_mul};
use crate::text::{latin1_chars, latin1_string};
pub use crate::ais::fragments::FragmentAssembler;
use vstd::prelude::*;
use vstd::string::StringSliceAdditionalSpecFns;

verus! {

/// A decoded AIS message as a binary frame.
#[allow(inconsistent_fields)]
pub enum AisFrame {
    /// Position report (0x01).
    Position { data: [u8; POSITION_SIZE], mmsi: u32 },
    /// Static and voyage data (0x05), with the decoded text fields.
    Static { data: [u8; STATIC_SIZE], mmsi: u32, name: String, callsign: String, ship_type: u8 },
    /// Aid-to-navigation report (0x15).
    AtoN { data: [u8; ATON_SIZE], mmsi: u32 },
}

/// What an `AisFrame` holds, as plain values.
pub enum AisFrameModel {
    Position { data: Seq<u8>, mmsi: u32 },
    Static { data: Seq<u8>, mmsi: u32, name: Seq<char>, callsign: Seq<char>, ship_type: u8 },
    AtoN { data: Seq<u8>, mmsi: u32 },
}

impl View for AisFrame {
    type V = AisFrameModel;

    open spec fn view(&self) -> AisFrameModel {
        match self {
            AisFrame::Position { data, mmsi } => AisFrameModel::Position { data: data@, mmsi: *mmsi },
            AisFrame::Static { data, mmsi, name, callsign, ship_type } => AisFrameModel::Static {
                data: data@,
                mmsi: *mmsi,
                name: name@,
                callsign: callsign@,
                ship_type: *ship_type,
            },
            AisFrame::AtoN { data, mmsi } => AisFrameModel::AtoN { data: data@, mmsi: *mmsi },
        }
    }
}

/// The view of an optional frame.
pub open spec fn frame_view(f: Option<AisFrame>) -> Option<AisFrameModel> {
    match f {
        Some(fr) => Some(fr@),
        None => None,
    }
}

/// Size of a position frame.
pub const POSITION_SIZE: usize = 19;

/// Size of a static-data frame.
pub const STATIC_SIZE: usize = 44;

/// Size of an aid-to-navigation frame.
pub const ATON_SIZE: usize = 34;

/// The 6-bit value of an armored payload character.
pub open spec fn sixbit_value(b: u8) -> u8
    recommends
        b >= 48,
{
    let v = (b - 48) as u8;
    if v > 40 {
        (v - 8) as u8
    } else {
        v
    }
}

/// The bit stream of an armored payload: six bits per character, MSB first.
pub open spec fn payload_bits(p: Seq<u8>) -> Seq<u8> {
    Seq::new(6 * p.len(), |i: int| (sixbit_value(p[i / 6]) >> ((5 - i % 6) as u8)) & 1u8)
}

/// Every character of the payload is at least '0' (48).
pub open spec fn payload_armor_ok(p: Seq<u8>) -> bool {
    forall|i: int| 0 <= i < p.len() ==> #[trigger] p[i] >= 48
}

proof fn lemma_bit_is_01(x: u8, s: u8)
    ensures
        (x >> s) & 1u8 <= 1,
{
    assert((x >> s) & 1u8 <= 1) by (bit_vector);
}

proof fn lemma_six_bits(b0: u8, b1: u8, b2: u8, b3: u8, b4: u8, b5: u8)
    requires
        b0 <= 1,
        b1 <= 1,
        b2 <= 1,
        b3 <= 1,
        b4 <= 1,
        b5 <= 1,
    ensures
        ({
            let v = (32 * b0 + 16 * b1 + 8 * b2 + 4 * b3 + 2 * b4 + b5) as u8;
            &&& v < 64
            &&& (v >> 5u8) & 1u8 == b0
            &&& (v >> 4u8) & 1u8 == b1
            &&& (v >> 3u8) & 1u8 == b2
            &&& (v >> 2u8) & 1u8 == b3
            &&& (v >> 1u8) & 1u8 == b4
            &&& (v >> 0u8) & 1u8 == b5
        }),
{
    assert({
        let v = (32 * b0 + 16 * b1 + 8 * b2 + 4 * b3 + 2 * b4 + b5) as u8;
        &&& v < 64
        &&& (v >> 5u8) & 1u8 == b0
        &&& (v >> 4u8) & 1u8 == b1
        &&& (v >> 3u8) & 1u8 == b2
        &&& (v >> 2u8) & 1u8 == b3
        &&& (v >> 1u8) & 1u8 == b4
        &&& (v >> 0u8) & 1u8 == b5
    }) by (bit_vector)
        requires
            b0 <= 1,
            b1 <= 1,
            b2 <= 1,
            b3 <= 1,
            b4 <= 1,
            b5 <= 1,
    ;
}

proof fn lemma_armor_undone(v: u8)
    requires
        v < 64,
    ensures
        crate::nmea::armor(v) as u8 >= 48,
        sixbit_value(crate::nmea::armor(v) as u8) == v,
{
    let c = if v < 40 {
        v + 48
    } else {
        v + 56
    };
    assert(c < 128);
    assert((c as u8 as char) as u8 == c as u8);
}

/// Unpacking the armored payload of `data` gives back its bits, most
/// significant first, for every whole 6-bit group: the armor the NMEA
/// encoder puts on is undone exactly, and every armored character is at
/// least '0'.
pub proof fn lemma_unpack_undoes_armor(data: Seq<u8>)
    ensures
        ({
            let p = crate::nmea::armored_payload(data).map_values(|c: char| c as u8);
            &&& payload_armor_ok(p)
            &&& payload_bits(p) == Seq::new(
                6 * (data.len() * 8 / 6),
                |k: int| (data[k / 8] >> ((7 - k % 8) as u8)) & 1u8,
            )
        }),
{
    let n = data.len() * 8 / 6;
    let p = crate::nmea::armored_payload(data).map_values(|c: char| c as u8);
    assert forall|i: int| 0 <= i < n implies p[i] >= 48 && sixbit_value(#[trigger] p[i])
        == crate::nmea::sextet(data, i) by {
        let d = |q: int| crate::nmea::data_bit(data, q);
        lemma_bit_is_01_at(data, 6 * i);
        lemma_bit_is_01_at(data, 6 * i + 1);
        lemma_bit_is_01_at(data, 6 * i + 2);
        lemma_bit_is_01_at(data, 6 * i + 3);
        lemma_bit_is_01_at(data, 6 * i + 4);
        lemma_bit_is_01_at(data, 6 * i + 5);
        lemma_six_bits(d(6 * i), d(6 * i + 1), d(6 * i + 2), d(6 * i + 3), d(6 * i + 4), d(6 * i + 5));
        lemma_armor_undone(crate::nmea::sextet(data, i));
    }
    let target = Seq::new(6 * n, |k: int| (data[k / 8] >> ((7 - k % 8) as u8)) & 1u8);
    assert forall|k: int| 0 <= k < 6 * n implies #[trigger] payload_bits(p)[k] == target[k] by {
        let i = k / 6;
        let j = k % 6;
        assert(0 <= i < n && 0 <= j < 6 && k == 6 * i + j) by (nonlinear_arith)
            requires
                0 <= k < 6 * n,
                i == k / 6,
                j == k % 6,
        ;
        assert(k < data.len() * 8) by (nonlinear_arith)
            requires
                k < 6 * n,
                n == data.len() * 8 / 6,
        ;
        assert(k / 8 < data.len()) by (nonlinear_arith)
            requires
                0 <= k < data.len() * 8,
        ;
        let d = |q: int| crate::nmea::data_bit(data, q);
        lemma_bit_is_01_at(data, 6 * i);
        lemma_bit_is_01_at(data, 6 * i + 1);
        lemma_bit_is_01_at(data, 6 * i + 2);
        lemma_bit_is_01_at(data, 6 * i + 3);
        lemma_bit_is_01_at(data, 6 * i + 4);
        lemma_bit_is_01_at(data, 6 * i + 5);
        lemma_six_bits(d(6 * i), d(6 * i + 1), d(6 * i + 2), d(6 * i + 3), d(6 * i + 4), d(6 * i + 5));
        assert(d(k) == target[k]);
    }
    assert(payload_bits(p) =~= target);
}

/// The same for the text itself: unpacking a string whose characters are
/// the armored payload of `data` (as `bits_to_nmea_payload` makes it)
/// gives back the bits of `data`, every whole 6-bit group of them.
pub proof fn lemma_unpack_armored_text(payload: &str, data: Seq<u8>)
    requires
        payload@ == crate::nmea::armored_payload(data),
    ensures
        payload_armor_ok(payload.spec_bytes()),
        payload_bits(payload.spec_bytes()) == Seq::new(
            6 * (data.len() * 8 / 6),
            |k: int| (data[k / 8] >> ((7 - k % 8) as u8)) & 1u8,
        ),
{
    let chars = payload@;
    assert forall|i: int| 0 <= i < chars.len() implies '\0' <= #[trigger] chars[i] <= '\u{7f}' by {
        let d = |q: int| crate::nmea::data_bit(data, q);
        lemma_bit_is_01_at(data, 6 * i);
        lemma_bit_is_01_at(data, 6 * i + 1);
        lemma_bit_is_01_at(data, 6 * i + 2);
        lemma_bit_is_01_at(data, 6 * i + 3);
        lemma_bit_is_01_at(data, 6 * i + 4);
        lemma_bit_is_01_at(data, 6 * i + 5);
        lemma_six_bits(d(6 * i), d(6 * i + 1), d(6 * i + 2), d(6 * i + 3), d(6 * i + 4), d(6 * i + 5));
        let v = crate::nmea::sextet(data, i);
        let c = if v < 40 {
            v + 48
        } else {
            v + 56
        };
        assert(c < 128);
        assert((c as u8 as char) as u32 == c);
    }
    vstd::utf8::is_ascii_chars_encode_utf8(chars);
    assert(payload.spec_bytes() =~= crate::nmea::armored_payload(data).map_values(|c: char| c as u8));
    lemma_unpack_undoes_armor(data);
}

proof fn lemma_bit_is_01_at(data: Seq<u8>, q: int)
    ensures
        crate::nmea::data_bit(data, q) <= 1,
{
    if q / 8 < data.len() {
        lemma_bit_is_01(data[q / 8], (7 - q % 8) as u8);
    }
}

/// Unpacks an armored AIS payload into one byte (0 or 1) per bit.
pub fn payload_to_bits(payload: &str) -> (bits: Vec<u8>)
    requires
        payload_armor_ok(payload.spec_bytes()),
        payload.spec_bytes().len() * 6 <= usize::MAX,
    ensures
        bits@ == payload_bits(payload.spec_bytes()),
{
    let p = payload.as_bytes();
    let mut bits: Vec<u8> = Vec::with_capacity(p.len() * 6);
    let mut k: usize = 0;
    while k < p.len()
        invariant
            p@ == payload.spec_bytes(),
            payload_armor_ok(p@),
            p@.len() * 6 <= usize::MAX,
            k <= p@.len(),
            bits@.len() == 6 * k,
            forall|i: int| 0 <= i < 6 * k ==> bits@[i] == #[trigger] payload_bits(p@)[i],
        decreases p@.len() - k,
    {
        let b = p[k];
        let mut v = b - 48;
        if v > 40 {
            v -= 8;
        }
        assert(v == sixbit_value(p@[k as int]));
        let mut j: usize = 0;
        while j < 6
            invariant
                k < p@.len(),
                p@.len() * 6 <= usize::MAX,
                v == sixbit_value(p@[k as int]),
                j <= 6,
                bits@.len() == 6 * k + j,
                forall|i: int| 0 <= i < 6 * k + j ==> bits@[i] == #[trigger] payload_bits(p@)[i],
            decreases 6 - j,
        {
            let i = 5 - j;
            bits.push((v >> (i as u8)) & 1);
            proof {
                let n = 6 * k + j;
                assert(n / 6 == k as int && n % 6 == j as int) by (nonlinear_arith)
                    requires
                        n == 6 * k + j,
                        j < 6,
                ;
            }
            j += 1;
        }
        k += 1;
    }
    assert(bits@ =~= payload_bits(p@));
    bits
}

/// `len` bits from `off` shifted into a 32-bit register, MSB first (bits
/// beyond 32 push the oldest ones out).
pub open spec fn bits_value(bits: Seq<u8>, off: int, len: nat) -> u32
    decreases len,
{
    if len == 0 {
        0
    } else {
        (bits_value(bits, off, (len - 1) as nat) << 1u32) | (bits[off + len - 1] as u32)
    }
}

/// Reads `len` bits from `off` as an unsigned number, MSB first.
pub fn bits_uint(bits: &[u8], off: usize, len: usize) -> (v: u32)
    requires
        off + len <= bits@.len(),
    ensures
        v == bits_value(bits@, off as int, len as nat),
{
    let n = bits.len();
    let mut val: u32 = 0;
    let mut i: usize = 0;
    while i < len
        invariant
            n == bits@.len(),
            off + len <= bits@.len(),
            i <= len,
            val == bits_value(bits@, off as int, i as nat),
        decreases len - i,
    {
        val = (val << 1) | (bits[off + i] as u32);
        i += 1;
    }
    val
}

/// The two's-complement adjustment of `bits_signed` stays inside `i32`.
pub open spec fn signed_read_ok(bits: Seq<u8>, off: int, len: nat) -> bool {
    bits[off] == 1 ==> len < 32 && i32::MIN <= (bits_value(bits, off, len) as i32) - ((1u32
        << (len as u32)) as i32) <= i32::MAX
}

/// The value `bits_signed` reads.
pub open spec fn signed_value(bits: Seq<u8>, off: int, len: nat) -> i32 {
    if bits[off] == 1 {
        ((bits_value(bits, off, len) as i32) - ((1u32 << (len as u32)) as i32)) as i32
    } else {
        bits_value(bits, off, len) as i32
    }
}

/// Reads `len` bits from `off` as a two's-complement signed number.
pub fn bits_signed(bits: &[u8], off: usize, len: usize) -> (v: i32)
    requires
        off + len <= bits@.len(),
        off < bits@.len(),
        signed_read_ok(bits@, off as int, len as nat),
    ensures
        v == signed_value(bits@, off as int, len as nat),
{
    let raw = bits_uint(bits, off, len);
    if bits[off] == 1 {
        let mask = 1u32 << (len as u32);
        (raw as i32) - (mask as i32)
    } else {
        raw as i32
    }
}

/// Six-bit AIS text code to its character code: 0-31 map to '@'..'_'.
pub open spec fn armor_code(c: u8) -> u8 {
    if c < 32 {
        (c + 64) as u8
    } else {
        c
    }
}

/// The character codes of `n` six-bit characters starting at bit `off`.
pub open spec fn text_codes(bits: Seq<u8>, off: int, n: nat) -> Seq<u8> {
    Seq::new(n, |i: int| armor_code(bits_value(bits, off + 6 * i, 6) as u8))
}

/// `s` without its trailing '@' padding.
pub open spec fn trim_trailing_at(s: Seq<u8>) -> Seq<u8>
    decreases s.len(),
{
    if s.len() > 0 && s.last() == 0x40 {
        trim_trailing_at(s.drop_last())
    } else {
        s
    }
}

/// Whether a character with this (single-byte) code point is white space.
pub open spec fn is_latin1_whitespace(c: u8) -> bool {
    c == 0x20 || (0x09 <= c <= 0x0d) || c == 0x85 || c == 0xa0
}

/// `s` without its trailing white space.
pub open spec fn trim_trailing_space(s: Seq<u8>) -> Seq<u8>
    decreases s.len(),
{
    if s.len() > 0 && is_latin1_whitespace(s.last()) {
        trim_trailing_space(s.drop_last())
    } else {
        s
    }
}

/// The text field of `len` bits at `off`: `len / 6` characters, trailing '@'
/// padding removed, then trailing white space removed.
pub open spec fn ais_text(bits: Seq<u8>, off: int, len: nat) -> Seq<u8> {
    trim_trailing_space(trim_trailing_at(text_codes(bits, off, len / 6)))
}

/// The character codes of an AIS text field (see `ais_text`).
fn text_field(bits: &[u8], off: usize, len: usize) -> (t: Vec<u8>)
    requires
        off + (len / 6) * 6 <= bits@.len(),
    ensures
        t@ == ais_text(bits@, off as int, len as nat),
{
    let chars = len / 6;
    let n = bits.len();
    let mut codes: Vec<u8> = Vec::with_capacity(chars);
    let mut i: usize = 0;
    while i < chars
        invariant
            n == bits@.len(),
            chars == len / 6,
            off + chars * 6 <= bits@.len(),
            i <= chars,
            codes@ =~= text_codes(bits@, off as int, i as nat),
        decreases chars - i,
    {
        proof {
            assert(off + i * 6 + 6 <= off + chars * 6) by (nonlinear_arith)
                requires
                    i < chars,
            ;
            assert(off + i * 6 + 6 <= n);
        }
        let c = bits_uint(bits, off + i * 6, 6) as u8;
        let ch = if c < 32 {
            c + 64
        } else {
            c
        };
        codes.push(ch);
        i += 1;
        assert(codes@ =~= text_codes(bits@, off as int, i as nat));
    }
    let ghost all = codes@;
    let mut end = codes.len();
    assert(all.take(end as int) =~= all);
    while end > 0 && codes[end - 1] == 0x40
        invariant
            end <= codes@.len(),
            codes@ == all,
            trim_trailing_at(all) == trim_trailing_at(all.take(end as int)),
        decreases end,
    {
        assert(all.take(end as int).drop_last() =~= all.take(end - 1));
        end -= 1;
    }
    let ghost mid = all.take(end as int);
    assert(trim_trailing_at(mid) == mid);
    while end > 0 && (codes[end - 1] == 0x20 || (0x09 <= codes[end - 1] && codes[end - 1] <= 0x0d)
        || codes[end - 1] == 0x85 || codes[end - 1] == 0xa0)
        invariant
            end <= mid.len(),
            mid.len() <= codes@.len(),
            codes@ == all,
            mid == all.take(mid.len() as int),
            trim_trailing_space(mid) == trim_trailing_space(all.take(end as int)),
        decreases end,
    {
        assert(all.take(end as int).drop_last() =~= all.take(end - 1));
        end -= 1;
    }
    codes.truncate(end);
    assert(codes@ =~= all.take(end as int));
    codes
}

/// Reads a six-bit AIS text field of `len` bits at `off` (trailing '@' padding
/// and white space removed).
pub fn bits_text(bits: &[u8], off: usize, len: usize) -> (s: String)
    requires
        off + (len / 6) * 6 <= bits@.len(),
    ensures
        s@ == latin1_chars(ais_text(bits@, off as int, len as nat)),
{
    let t = text_field(bits, off, len);
    latin1_string(t.as_slice())
}

/// Little-endian bytes of a 32-bit value.
pub open spec fn le_u32(x: u32) -> Seq<u8> {
    seq![x as u8, (x >> 8u32) as u8, (x >> 16u32) as u8, (x >> 24u32) as u8]
}

/// Little-endian bytes of a 16-bit value.
pub open spec fn le_u16(x: u16) -> Seq<u8> {
    seq![x as u8, (x >> 8u16) as u8]
}

/// `s` cut or space-padded to exactly `n` bytes.
pub open spec fn space_padded(s: Seq<u8>, n: nat) -> Seq<u8> {
    Seq::new(n, |i: int| if i < s.len() { s[i] } else { 0x20u8 })
}

/// A position frame: type 0x01, MMSI, longitude and latitude (1/10000 minute),
/// speed (1/10 knot), course (1/10 degree), heading, all little-endian.
pub open spec fn position_frame(mmsi: u32, lon: i32, lat: i32, sog: u16, cog: u16, hdg: u16) -> Seq<u8> {
    seq![0x01u8] + le_u32(mmsi) + le_u32(lon as u32) + le_u32(lat as u32) + le_u16(sog) + le_u16(cog)
        + le_u16(hdg)
}

/// A static frame: type 0x05, MMSI, ship type, 20-byte name, 7-byte call
/// sign, IMO, bow, stern, port, starboard and one zero byte.
pub open spec fn static_frame(
    mmsi: u32,
    ship_type: u8,
    name: Seq<u8>,
    callsign: Seq<u8>,
    imo: u32,
    bow: u16,
    stern: u16,
    port: u8,
    starboard: u8,
) -> Seq<u8> {
    seq![0x05u8] + le_u32(mmsi) + seq![ship_type] + space_padded(name, 20) + space_padded(callsign, 7)
        + le_u32(imo) + le_u16(bow) + le_u16(stern) + seq![port, starboard, 0u8]
}

/// An aid-to-navigation frame: type 0x15, MMSI, AtoN type, longitude,
/// latitude and a 20-byte name.
pub open spec fn aton_frame(mmsi: u32, aton_type: u8, lon: i32, lat: i32, name: Seq<u8>) -> Seq<u8> {
    seq![0x15u8] + le_u32(mmsi) + seq![aton_type] + le_u32(lon as u32) + le_u32(lat as u32)
        + space_padded(name, 20)
}

/// Whether a reported position is usable: a nonzero MMSI, neither coordinate
/// the "not available" value (lon 181°, lat 91°), not exactly (0, 0), and
/// within ±180° / ±90° (one unit is 1/600000 degree).
pub open spec fn position_ok(lon: i32, lat: i32, mmsi: u32) -> bool {
    &&& mmsi != 0
    &&& lon != 0x6791AC0
    &&& lat != 0x3412140
    &&& !(lon == 0 && lat == 0)
    &&& -108000000 <= lon <= 108000000
    &&& -54000000 <= lat <= 54000000
}

/// Checks a reported position (see `position_ok`).
pub fn validate_position(lon_raw: i32, lat_raw: i32, mmsi: u32) -> (ok: bool)
    ensures
        ok == position_ok(lon_raw, lat_raw, mmsi),
{
    if mmsi == 0 {
        return false;
    }
    if lon_raw == 0x6791AC0i32 || lat_raw == 0x3412140i32 {
        return false;
    }
    if lon_raw == 0 && lat_raw == 0 {
        return false;
    }
    // 180° × 600000 = 108000000, 90° × 600000 = 54000000
    if lon_raw > 108000000 || lon_raw < -108000000 || lat_raw > 54000000 || lat_raw < -54000000 {
        return false;
    }
    true
}

fn put_u32_le(d: &mut [u8], at: usize, x: u32)
    requires
        at + 4 <= old(d)@.len(),
    ensures
        final(d)@ == old(d)@.take(at as int) + le_u32(x) + old(d)@.skip(at + 4),
{
    d[at] = x as u8;
    d[at + 1] = (x >> 8) as u8;
    d[at + 2] = (x >> 16) as u8;
    d[at + 3] = (x >> 24) as u8;
    assert(d@ =~= old(d)@.take(at as int) + le_u32(x) + old(d)@.skip(at + 4));
}

fn put_u16_le(d: &mut [u8], at: usize, x: u16)
    requires
        at + 2 <= old(d)@.len(),
    ensures
        final(d)@ == old(d)@.take(at as int) + le_u16(x) + old(d)@.skip(at + 2),
{
    d[at] = x as u8;
    d[at + 1] = (x >> 8) as u8;
    assert(d@ =~= old(d)@.take(at as int) + le_u16(x) + old(d)@.skip(at + 2));
}

fn put_padded(d: &mut [u8], at: usize, s: &[u8], n: usize)
    requires
        at + n <= old(d)@.len(),
    ensures
        final(d)@ == old(d)@.take(at as int) + space_padded(s@, n as nat) + old(d)@.skip(at + n),
{
    let dlen = d.len();
    let mut i: usize = 0;
    while i < n
        invariant
            dlen == d@.len(),
            at + n <= d@.len(),
            d@.len() == old(d)@.len(),
            i <= n,
            forall|j: int| 0 <= j < at ==> d@[j] == old(d)@[j],
            forall|j: int| at + n <= j < d@.len() ==> d@[j] == old(d)@[j],
            forall|j: int| 0 <= j < i ==> d@[at + j] == space_padded(s@, n as nat)[j],
        decreases n - i,
    {
        d[at + i] = if i < s.len() {
            s[i]
        } else {
            0x20u8
        };
        i += 1;
    }
    assert(d@ =~= old(d)@.take(at as int) + space_padded(s@, n as nat) + old(d)@.skip(at + n));
}

fn encode_position(mmsi: u32, lon: i32, lat: i32, sog: u16, cog: u16, hdg: u16) -> (d: [u8; POSITION_SIZE])
    ensures
        d@ == position_frame(mmsi, lon, lat, sog, cog, hdg),
{
    let mut d = [0u8; POSITION_SIZE];
    d[0] = 0x01;
    put_u32_le(&mut d, 1, mmsi);
    put_u32_le(&mut d, 5, lon as u32);
    put_u32_le(&mut d, 9, lat as u32);
    put_u16_le(&mut d, 13, sog);
    put_u16_le(&mut d, 15, cog);
    put_u16_le(&mut d, 17, hdg);
    assert(d@ =~= position_frame(mmsi, lon, lat, sog, cog, hdg));
    d
}

fn encode_static(
    mmsi: u32,
    ship_type: u8,
    name: &[u8],
    callsign: &[u8],
    imo: u32,
    bow: u16,
    stern: u16,
    port: u8,
    starboard: u8,
) -> (d: [u8; STATIC_SIZE])
    ensures
        d@ == static_frame(mmsi, ship_type, name@, callsign@, imo, bow, stern, port, starboard),
{
    let mut d = [0u8; STATIC_SIZE];
    d[0] = 0x05;
    put_u32_le(&mut d, 1, mmsi);
    d[5] = ship_type;
    put_padded(&mut d, 6, name, 20);
    put_padded(&mut d, 26, callsign, 7);
    put_u32_le(&mut d, 33, imo);
    put_u16_le(&mut d, 37, bow);
    put_u16_le(&mut d, 39, stern);
    d[41] = port;
    d[42] = starboard;
    // d[43] unused/padding
    assert(d@ =~= static_frame(mmsi, ship_type, name@, callsign@, imo, bow, stern, port, starboard));
    d
}

fn encode_aton(mmsi: u32, aton_type: u8, lon: i32, lat: i32, name: &[u8]) -> (d: [u8; ATON_SIZE])
    ensures
        d@ == aton_frame(mmsi, aton_type, lon, lat, name@),
{
    let mut d = [0u8; ATON_SIZE];
    d[0] = 0x15;
    put_u32_le(&mut d, 1, mmsi);
    d[5] = aton_type;
    put_u32_le(&mut d, 6, lon as u32);
    put_u32_le(&mut d, 10, lat as u32);
    put_padded(&mut d, 14, name, 20);
    assert(d@ =~= aton_frame(mmsi, aton_type, lon, lat, name@));
    d
}

/// The bits in `off..off + len` are all 0 or 1.
pub open spec fn bits_binary(bits: Seq<u8>, off: int, len: nat) -> bool {
    forall|i: int| off <= i < off + len ==> #[trigger] bits[i] <= 1
}

/// The number that bits `off..off + len` spell, MSB first.
pub open spec fn bits_number(bits: Seq<u8>, off: int, len: nat) -> nat
    decreases len,
{
    if len == 0 {
        0
    } else {
        2 * bits_number(bits, off, (len - 1) as nat) + bits[off + len - 1] as nat
    }
}

/// Every element of an unpacked payload is a single bit.
pub proof fn lemma_payload_bits_binary(p: Seq<u8>)
    ensures
        bits_binary(payload_bits(p), 0, payload_bits(p).len()),
{
    assert forall|i: int| 0 <= i < payload_bits(p).len() implies #[trigger] payload_bits(p)[i] <= 1 by {
        let v = sixbit_value(p[i / 6]);
        let k = (5 - i % 6) as u8;
        assert((v >> k) & 1u8 <= 1) by (bit_vector);
    }
}

/// On single bits and at most 32 of them, `bits_uint` reads the plain binary
/// number, which is below 2^len.
pub proof fn lemma_bits_value_is_number(bits: Seq<u8>, off: int, len: nat)
    requires
        0 <= off,
        off + len <= bits.len(),
        len <= 32,
        bits_binary(bits, off, len),
    ensures
        bits_value(bits, off, len) as nat == bits_number(bits, off, len),
        bits_number(bits, off, len) < pow2(len),
    decreases len,
{
    if len > 0 {
        let l1 = (len - 1) as nat;
        lemma_bits_value_is_number(bits, off, l1);
        let v = bits_value(bits, off, l1);
        let b = bits[off + len - 1];
        assert(b <= 1);
        lemma_pow2_unfold(len);
        lemma2_to64();
        if l1 < 31 {
            lemma_pow2_strictly_increases(l1, 31);
        }
        assert(v < 0x80000000u32);
        assert(bits_number(bits, off, len) == 2 * bits_number(bits, off, l1) + b as nat);
        assert(pow2(len) == 2 * pow2(l1));
        assert(bits_number(bits, off, l1) < pow2(l1));
        assert(b as nat <= 1);
        assert(bits_number(bits, off, len) < pow2(len));
        assert((v << 1u32) | (b as u32) == 2 * v + b) by (bit_vector)
            requires
                v < 0x80000000u32,
                b <= 1u8,
        ;
    } else {
        lemma2_to64();
    }
}

/// On single bits and 1 to 30 of them, `bits_signed` never overflows and
/// reads the two's-complement number: the plain number minus 2^len when the
/// first bit is set.
pub proof fn lemma_bits_signed_twos_complement(bits: Seq<u8>, off: int, len: nat)
    requires
        0 <= off,
        off + len <= bits.len(),
        1 <= len <= 30,
        bits_binary(bits, off, len),
    ensures
        signed_read_ok(bits, off, len),
        signed_value(bits, off, len) == bits_number(bits, off, len) - (bits[off] as int) * pow2(
            len,
        ),
        -pow2((len - 1) as nat) <= signed_value(bits, off, len) < pow2((len - 1) as nat),
{
    lemma_bits_value_is_number(bits, off, len);
    lemma_first_bit_weight(bits, off, len);
    lemma_u32_pow2_no_overflow(len);
    lemma_u32_shl_is_mul(1u32, len as u32);
    lemma2_to64();
    lemma_pow2_unfold(len);
    if len < 30 {
        lemma_pow2_strictly_increases(len, 30);
    }
    assert(bits[off] <= 1);
    if bits[off] == 1 {
        assert(((bits[off] as int) + 1) * pow2((len - 1) as nat) == 2 * pow2((len - 1) as nat))
            by (nonlinear_arith)
            requires
                bits[off] == 1,
        ;
        assert(pow2((len - 1) as nat) <= bits_number(bits, off, len) < 2 * pow2((len - 1) as nat));
    } else {
        assert(((bits[off] as int) + 1) * pow2((len - 1) as nat) == pow2((len - 1) as nat))
            by (nonlinear_arith)
            requires
                bits[off] == 0,
        ;
        assert(bits_number(bits, off, len) < pow2((len - 1) as nat));
    }
}

/// The first of `len` bits carries weight 2^(len-1).
proof fn lemma_first_bit_weight(bits: Seq<u8>, off: int, len: nat)
    requires
        0 <= off,
        off + len <= bits.len(),
        1 <= len,
        bits_binary(bits, off, len),
    ensures
        (bits[off] as int) * pow2((len - 1) as nat) <= bits_number(bits, off, len) < (bits[off] as int
            + 1) * pow2((len - 1) as nat),
    decreases len,
{
    lemma_pow2_unfold(len);
    if len == 1 {
        assert(pow2(0) == 1) by {
            lemma2_to64();
        }
        let x = bits[off] as int;
        assert(bits_number(bits, off, 0) == 0);
        assert(bits_number(bits, off, 1) == x);
        assert(x * 1 <= x < (x + 1) * 1) by (nonlinear_arith);
    } else {
        let l1 = (len - 1) as nat;
        lemma_first_bit_weight(bits, off, l1);
        lemma_pow2_unfold(l1);
        assert(bits[off + len - 1] <= 1);
        let x = bits[off] as int;
        let n1 = bits_number(bits, off, l1) as int;
        let p1 = pow2((l1 - 1) as nat) as int;
        assert(bits_number(bits, off, len) == 2 * n1 + bits[off + len - 1] as int);
        assert(pow2(l1) == 2 * p1);
        assert(x * (2 * p1) <= 2 * n1 + bits[off + len - 1] < (x + 1) * (2 * p1)) by (nonlinear_arith)
            requires
                x * p1 <= n1 < (x + 1) * p1,
                0 <= bits[off + len - 1] <= 1,
        ;
    }
}

/// A position report laid out like types 1-3, 18 and 19: speed, longitude,
/// latitude, course and heading at the given bit offsets; `None` when the
/// message is shorter than `min_len` bits or the position is not usable.
pub open spec fn position_report(
    bits: Seq<u8>,
    mmsi: u32,
    min_len: nat,
    sog_off: int,
    lon_off: int,
    lat_off: int,
    cog_off: int,
    hdg_off: int,
) -> Option<AisFrameModel> {
    if bits.len() < min_len {
        None
    } else {
        let sog = bits_value(bits, sog_off, 10) as u16;
        let lon = signed_value(bits, lon_off, 28);
        let lat = signed_value(bits, lat_off, 27);
        let cog = bits_value(bits, cog_off, 12) as u16;
        let hdg = bits_value(bits, hdg_off, 9) as u16;
        if !position_ok(lon, lat, mmsi) {
            None
        } else {
            Some(
                AisFrameModel::Position { data: position_frame(mmsi, lon, lat, sog, cog, hdg), mmsi },
            )
        }
    }
}

/// Type 5 (static and voyage data).
pub open spec fn static_report_5(bits: Seq<u8>, mmsi: u32) -> Option<AisFrameModel> {
    if bits.len() < 424 {
        None
    } else {
        let callsign = ais_text(bits, 70, 42);
        let name = ais_text(bits, 112, 120);
        let ship_type = bits_value(bits, 232, 8) as u8;
        Some(
            AisFrameModel::Static {
                data: static_frame(
                    mmsi,
                    ship_type,
                    name,
                    callsign,
                    bits_value(bits, 40, 30),
                    bits_value(bits, 240, 9) as u16,
                    bits_value(bits, 249, 9) as u16,
                    bits_value(bits, 258, 6) as u8,
                    bits_value(bits, 264, 6) as u8,
                ),
                mmsi,
                name: latin1_chars(name),
                callsign: latin1_chars(callsign),
                ship_type,
            },
        )
    }
}

proof fn lemma_trim_at_shape(s: Seq<u8>)
    ensures
        trim_trailing_at(s).len() <= s.len(),
        trim_trailing_at(s) == s.take(trim_trailing_at(s).len() as int),
        forall|k: int| trim_trailing_at(s).len() <= k < s.len() ==> #[trigger] s[k] == 0x40,
    decreases s.len(),
{
    if s.len() > 0 && s.last() == 0x40 {
        lemma_trim_at_shape(s.drop_last());
        let r = trim_trailing_at(s.drop_last());
        assert(s.drop_last().take(r.len() as int) =~= s.take(r.len() as int));
        assert forall|k: int| r.len() <= k < s.len() implies #[trigger] s[k] == 0x40 by {
            if k < s.len() - 1 {
                assert(s.drop_last()[k] == s[k]);
            }
        }
    } else {
        assert(s.take(s.len() as int) =~= s);
    }
}

proof fn lemma_trim_space_shape(s: Seq<u8>)
    ensures
        trim_trailing_space(s).len() <= s.len(),
        trim_trailing_space(s) == s.take(trim_trailing_space(s).len() as int),
        forall|k: int|
            trim_trailing_space(s).len() <= k < s.len() ==> is_latin1_whitespace(#[trigger] s[k]),
    decreases s.len(),
{
    if s.len() > 0 && is_latin1_whitespace(s.last()) {
        lemma_trim_space_shape(s.drop_last());
        let r = trim_trailing_space(s.drop_last());
        assert(s.drop_last().take(r.len() as int) =~= s.take(r.len() as int));
        assert forall|k: int| r.len() <= k < s.len() implies is_latin1_whitespace(#[trigger] s[k]) by {
            if k < s.len() - 1 {
                assert(s.drop_last()[k] == s[k]);
            }
        }
    } else {
        assert(s.take(s.len() as int) =~= s);
    }
}

/// The character code of the six-bit character at bit `off`: values 0-31
/// stand for '@'-'_' (64-95), values 32-63 for themselves.
pub open spec fn sixbit_code_at(bits: Seq<u8>, off: int) -> u8 {
    let v = bits_value(bits, off, 6) as u8;
    if v < 32 {
        (v + 64) as u8
    } else {
        v
    }
}

/// `t` is the text of the `n` six-bit characters from bit `off` with its
/// padding dropped: a prefix of them, character for character, and every
/// character after it '@' or white space.
pub open spec fn is_sixbit_text(t: Seq<char>, bits: Seq<u8>, off: int, n: nat) -> bool {
    &&& t.len() <= n
    &&& forall|k: int| 0 <= k < t.len() ==> #[trigger] t[k] == sixbit_code_at(bits, off + 6 * k) as char
    &&& forall|k: int|
        t.len() <= k < n ==> {
            let c = #[trigger] sixbit_code_at(bits, off + 6 * k);
            c == 0x40 || c == 0x20 || (0x09 <= c <= 0x0d) || c == 0x85 || c == 0xa0
        }
}

proof fn lemma_ais_text_shape(bits: Seq<u8>, off: int, n: nat)
    ensures
        is_sixbit_text(latin1_chars(ais_text(bits, off, 6 * n)), bits, off, n),
{
    assert((6 * n) / 6 == n) by (nonlinear_arith);
    let codes = text_codes(bits, off, n);
    lemma_trim_at_shape(codes);
    let a = trim_trailing_at(codes);
    lemma_trim_space_shape(a);
    let t = trim_trailing_space(a);
    assert(ais_text(bits, off, 6 * n) == t);
    assert forall|k: int| 0 <= k < n implies #[trigger] codes[k] == sixbit_code_at(bits, off + 6 * k) by {}
    let tc = latin1_chars(t);
    assert forall|k: int| 0 <= k < tc.len() implies #[trigger] tc[k] == sixbit_code_at(bits, off + 6 * k)
        as char by {
        assert(t[k] == a[k]);
        assert(a[k] == codes[k]);
    }
    assert forall|k: int| tc.len() <= k < n implies {
        let c = #[trigger] sixbit_code_at(bits, off + 6 * k);
        c == 0x40 || c == 0x20 || (0x09 <= c <= 0x0d) || c == 0x85 || c == 0xa0
    } by {
        assert(codes[k] == sixbit_code_at(bits, off + 6 * k));
        if k < a.len() {
            assert(a[k] == codes[k]);
            assert(is_latin1_whitespace(a[k]));
        }
    }
}

/// A type 5 report (ITU-R M.1371 layout) decodes to static data whose
/// name is the 20-character text at bits 112-231 and whose call sign is
/// the 7-character text at bits 70-111, padding dropped.
pub proof fn lemma_type5_name_and_callsign(bits: Seq<u8>)
    requires
        bits.len() >= 424,
        bits_value(bits, 0, 6) == 5,
        bits_value(bits, 8, 30) != 0,
    ensures
        decode_bits(bits) matches Some(AisFrameModel::Static { name, callsign, .. }) && is_sixbit_text(
            name,
            bits,
            112,
            20,
        ) && is_sixbit_text(callsign, bits, 70, 7),
{
    lemma_ais_text_shape(bits, 112, 20);
    lemma_ais_text_shape(bits, 70, 7);
}

/// Type 21 (aid-to-navigation report).
pub open spec fn aton_report_21(bits: Seq<u8>, mmsi: u32) -> Option<AisFrameModel> {
    if bits.len() < 272 {
        None
    } else {
        let lon = signed_value(bits, 164, 28);
        let lat = signed_value(bits, 192, 27);
        if !position_ok(lon, lat, mmsi) {
            None
        } else {
            Some(
                AisFrameModel::AtoN {
                    data: aton_frame(
                        mmsi,
                        bits_value(bits, 38, 5) as u8,
                        lon,
                        lat,
                        ais_text(bits, 43, 120),
                    ),
                    mmsi,
                },
            )
        }
    }
}

/// Type 24 (static data report, part A: name; part B: type, call sign, size).
pub open spec fn static_report_24(bits: Seq<u8>, mmsi: u32) -> Option<AisFrameModel> {
    if bits.len() < 160 {
        None
    } else {
        let part = bits_value(bits, 38, 2);
        if part == 0 {
            let name = ais_text(bits, 40, 120);
            Some(
                AisFrameModel::Static {
                    data: static_frame(mmsi, 0, name, Seq::empty(), 0, 0, 0, 0, 0),
                    mmsi,
                    name: latin1_chars(name),
                    callsign: Seq::empty(),
                    ship_type: 0,
                },
            )
        } else if part == 1 {
            if bits.len() < 168 {
                None
            } else {
                let ship_type = bits_value(bits, 40, 8) as u8;
                let callsign = ais_text(bits, 90, 42);
                Some(
                    AisFrameModel::Static {
                        data: static_frame(
                            mmsi,
                            ship_type,
                            Seq::empty(),
                            callsign,
                            0,
                            bits_value(bits, 132, 9) as u16,
                            bits_value(bits, 141, 9) as u16,
                            bits_value(bits, 150, 6) as u8,
                            bits_value(bits, 156, 6) as u8,
                        ),
                        mmsi,
                        name: Seq::empty(),
                        callsign: latin1_chars(callsign),
                        ship_type,
                    },
                )
            }
        } else {
            None
        }
    }
}

/// Type 27 (long-range position): speed in knots, position in 1/10 minute and
/// course in degrees, rescaled to the units of the position frame; heading
/// not available (511).
pub open spec fn position_report_27(bits: Seq<u8>, mmsi: u32) -> Option<AisFrameModel> {
    if bits.len() < 96 {
        None
    } else {
        let sog = ((bits_value(bits, 79, 6) as u16) * 10) as u16;
        let lon = (signed_value(bits, 44, 18) * 600) as i32;
        let lat = (signed_value(bits, 62, 17) * 600) as i32;
        let cog = ((bits_value(bits, 85, 9) as u16) * 10) as u16;
        if !position_ok(lon, lat, mmsi) {
            None
        } else {
            Some(
                AisFrameModel::Position { data: position_frame(mmsi, lon, lat, sog, cog, 511), mmsi },
            )
        }
    }
}

/// The frame an AIS message (as a bit stream) decodes to: message type in
/// bits 0-5, MMSI in bits 8-37; types 1, 2, 3, 5, 18, 19, 21, 24 and 27
/// are decoded, all others and MMSI 0 give `None`.
pub open spec fn decode_bits(bits: Seq<u8>) -> Option<AisFrameModel> {
    if bits.len() < 38 {
        None
    } else {
        let msg_type = bits_value(bits, 0, 6);
        let mmsi = bits_value(bits, 8, 30);
        if mmsi == 0 {
            None
        } else if msg_type == 1 || msg_type == 2 || msg_type == 3 {
            position_report(bits, mmsi, 168, 50, 61, 89, 116, 128)
        } else if msg_type == 5 {
            static_report_5(bits, mmsi)
        } else if msg_type == 18 {
            position_report(bits, mmsi, 168, 46, 57, 85, 112, 124)
        } else if msg_type == 19 {
            position_report(bits, mmsi, 312, 46, 57, 85, 112, 124)
        } else if msg_type == 21 {
            aton_report_21(bits, mmsi)
        } else if msg_type == 24 {
            static_report_24(bits, mmsi)
        } else if msg_type == 27 {
            position_report_27(bits, mmsi)
        } else {
            None
        }
    }
}

/// All bits of the message are 0 or 1.
pub open spec fn all_binary(bits: Seq<u8>) -> bool {
    bits_binary(bits, 0, bits.len())
}

/// Reads a signed field of a binary bit stream.
fn read_signed(bits: &[u8], off: usize, len: usize) -> (v: i32)
    requires
        all_binary(bits@),
        off + len <= bits@.len(),
        1 <= len <= 30,
    ensures
        v == signed_value(bits@, off as int, len as nat),
        -pow2((len - 1) as nat) <= v < pow2((len - 1) as nat),
{
    proof {
        lemma_bits_signed_twos_complement(bits@, off as int, len as nat);
    }
    bits_signed(bits, off, len)
}

fn decode_position(
    bits: &[u8],
    mmsi: u32,
    min_len: usize,
    sog_off: usize,
    lon_off: usize,
    lat_off: usize,
    cog_off: usize,
    hdg_off: usize,
) -> (r: Option<AisFrame>)
    requires
        all_binary(bits@),
        sog_off + 10 <= min_len,
        lon_off + 28 <= min_len,
        lat_off + 27 <= min_len,
        cog_off + 12 <= min_len,
        hdg_off + 9 <= min_len,
    ensures
        frame_view(r) == position_report(
            bits@,
            mmsi,
            min_len as nat,
            sog_off as int,
            lon_off as int,
            lat_off as int,
            cog_off as int,
            hdg_off as int,
        ),
{
    if bits.len() < min_len {
        return None;
    }
    let sog_raw = bits_uint(bits, sog_off, 10) as u16;  // 1/10 knot
    let lon_raw = read_signed(bits, lon_off, 28);
    let lat_raw = read_signed(bits, lat_off, 27);
    let cog_raw = bits_uint(bits, cog_off, 12) as u16;  // 1/10 degree
    let hdg = bits_uint(bits, hdg_off, 9) as u16;
    if !validate_position(lon_raw, lat_raw, mmsi) {
        return None;
    }
    let data = encode_position(mmsi, lon_raw, lat_raw, sog_raw, cog_raw, hdg);
    Some(AisFrame::Position { data, mmsi })
}

fn decode_pos_123(bits: &[u8], mmsi: u32) -> (r: Option<AisFrame>)
    requires
        all_binary(bits@),
    ensures
        frame_view(r) == position_report(bits@, mmsi, 168, 50, 61, 89, 116, 128),
{
    decode_position(bits, mmsi, 168, 50, 61, 89, 116, 128)
}

fn decode_pos_18(bits: &[u8], mmsi: u32) -> (r: Option<AisFrame>)
    requires
        all_binary(bits@),
    ensures
        frame_view(r) == position_report(bits@, mmsi, 168, 46, 57, 85, 112, 124),
{
    decode_position(bits, mmsi, 168, 46, 57, 85, 112, 124)
}

fn decode_pos_19(bits: &[u8], mmsi: u32) -> (r: Option<AisFrame>)
    requires
        all_binary(bits@),
    ensures
        frame_view(r) == position_report(bits@, mmsi, 312, 46, 57, 85, 112, 124),
{
    decode_position(bits, mmsi, 312, 46, 57, 85, 112, 124)
}

fn decode_static_5(bits: &[u8], mmsi: u32) -> (r: Option<AisFrame>)
    ensures
        frame_view(r) == static_report_5(bits@, mmsi),
{
    if bits.len() < 424 {
        return None;
    }
    let imo = bits_uint(bits, 40, 30);
    let callsign = text_field(bits, 70, 42);
    let name = text_field(bits, 112, 120);
    let ship_type = bits_uint(bits, 232, 8) as u8;
    let bow = bits_uint(bits, 240, 9) as u16;
    let stern = bits_uint(bits, 249, 9) as u16;
    let port = bits_uint(bits, 258, 6) as u8;
    let starboard = bits_uint(bits, 264, 6) as u8;
    let data = encode_static(
        mmsi,
        ship_type,
        name.as_slice(),
        callsign.as_slice(),
        imo,
        bow,
        stern,
        port,
        starboard,
    );
    let name = latin1_string(name.as_slice());
    let callsign = latin1_string(callsign.as_slice());
    Some(AisFrame::Static { data, mmsi, name, callsign, ship_type })
}

fn decode_aton_21(bits: &[u8], mmsi: u32) -> (r: Option<AisFrame>)
    requires
        all_binary(bits@),
    ensures
        frame_view(r) == aton_report_21(bits@, mmsi),
{
    if bits.len() < 272 {
        return None;
    }
    let aton_type = bits_uint(bits, 38, 5) as u8;
    let name = text_field(bits, 43, 120);
    let lon_raw = read_signed(bits, 164, 28);
    let lat_raw = read_signed(bits, 192, 27);
    if !validate_position(lon_raw, lat_raw, mmsi) {
        return None;
    }
    let data = encode_aton(mmsi, aton_type, lon_raw, lat_raw, name.as_slice());
    Some(AisFrame::AtoN { data, mmsi })
}

fn decode_static_24(bits: &[u8], mmsi: u32) -> (r: Option<AisFrame>)
    ensures
        frame_view(r) == static_report_24(bits@, mmsi),
{
    if bits.len() < 160 {
        return None;
    }
    let part = bits_uint(bits, 38, 2);
    let empty: Vec<u8> = Vec::new();
    if part == 0 {
        // Part A: name only
        let name = text_field(bits, 40, 120);
        let data = encode_static(mmsi, 0, name.as_slice(), empty.as_slice(), 0, 0, 0, 0, 0);
        let name = latin1_string(name.as_slice());
        assert(latin1_chars(Seq::<u8>::empty()) =~= Seq::<char>::empty());
        Some(AisFrame::Static { data, mmsi, name, callsign: String::new(), ship_type: 0 })
    } else if part == 1 {
        if bits.len() < 168 {
            return None;
        }
        let ship_type = bits_uint(bits, 40, 8) as u8;
        let callsign = text_field(bits, 90, 42);
        let bow = bits_uint(bits, 132, 9) as u16;
        let stern = bits_uint(bits, 141, 9) as u16;
        let port = bits_uint(bits, 150, 6) as u8;
        let starboard = bits_uint(bits, 156, 6) as u8;
        let data = encode_static(
            mmsi,
            ship_type,
            empty.as_slice(),
            callsign.as_slice(),
            0,
            bow,
            stern,
            port,
            starboard,
        );
        let callsign = latin1_string(callsign.as_slice());
        Some(AisFrame::Static { data, mmsi, name: String::new(), callsign, ship_type })
    } else {
        None
    }
}

fn decode_pos_27(bits: &[u8], mmsi: u32) -> (r: Option<AisFrame>)
    requires
        all_binary(bits@),
    ensures
        frame_view(r) == position_report_27(bits@, mmsi),
{
    if bits.len() < 96 {
        return None;
    }
    proof {
        lemma2_to64();
        lemma_bits_value_is_number(bits@, 79, 6);
        lemma_bits_value_is_number(bits@, 85, 9);
    }
    let sog_raw = (bits_uint(bits, 79, 6) as u16) * 10;  // knots -> 1/10 knot
    let lon_raw = read_signed(bits, 44, 18) * 600;  // 1/10 minute -> 1/10000 minute
    let lat_raw = read_signed(bits, 62, 17) * 600;
    let cog_raw = (bits_uint(bits, 85, 9) as u16) * 10;  // degrees -> 1/10 degree
    let hdg = 511u16;  // not available in type 27
    if !validate_position(lon_raw, lat_raw, mmsi) {
        return None;
    }
    let data = encode_position(mmsi, lon_raw, lat_raw, sog_raw, cog_raw, hdg);
    Some(AisFrame::Position { data, mmsi })
}

/// Decodes an armored AIS payload (the sixth NMEA field) into a binary frame.
pub fn decode_ais(payload: &str) -> (r: Option<AisFrame>)
    requires
        payload_armor_ok(payload.spec_bytes()),
        payload.spec_bytes().len() * 6 <= usize::MAX,
    ensures
        frame_view(r) == decode_bits(payload_bits(payload.spec_bytes())),
{
    let bits = payload_to_bits(payload);
    proof {
        lemma_payload_bits_binary(payload.spec_bytes());
    }
    if bits.len() < 38 {
        return None;
    }
    let msg_type = bits_uint(bits.as_slice(), 0, 6);
    let mmsi = bits_uint(bits.as_slice(), 8, 30);
    if mmsi == 0 {
        return None;
    }
    match msg_type {
        1 | 2 | 3 => decode_pos_123(bits.as_slice(), mmsi),
        5 => decode_static_5(bits.as_slice(), mmsi),
        18 => decode_pos_18(bits.as_slice(), mmsi),
        19 => decode_pos_19(bits.as_slice(), mmsi),
        21 => decode_aton_21(bits.as_slice(), mmsi),
        24 => decode_static_24(bits.as_slice(), mmsi),
        27 => decode_pos_27(bits.as_slice(), mmsi),
        _ => None,
    }
}

} // verus!
