//! NMEA 0183 encapsulation of AIS payloads: 6-bit ASCII armoring, the XOR
//! checksum, and `!AIVDM` sentence assembly.
use vstd::prelude::*;
use vstd::string::StringSliceAdditionalSpecFns;
use crate::text::string_push;

verus! {

/// The armor character of a 6-bit value: 0-39 map to '0'-'W', 40-63 to '`'-'w'.
pub open spec fn armor(val: u8) -> char {
    (if val < 40 {
        val + 48
    } else {
        val + 56
    }) as u8 as char
}

/// Bit `p` of `data`, most significant bit of byte 0 first; 0 past the end.
pub open spec fn data_bit(data: Seq<u8>, p: int) -> u8 {
    if p / 8 < data.len() {
        (data[p / 8] >> ((7 - p % 8) as u8)) & 1u8
    } else {
        0
    }
}

/// The `i`-th 6-bit group of `data`, as a number.
pub open spec fn sextet(data: Seq<u8>, i: int) -> u8 {
    (32 * data_bit(data, 6 * i) + 16 * data_bit(data, 6 * i + 1) + 8 * data_bit(data, 6 * i + 2) + 4
        * data_bit(data, 6 * i + 3) + 2 * data_bit(data, 6 * i + 4) + data_bit(data, 6 * i + 5)) as u8
}

/// The armored payload of `data`: one character per whole 6-bit group.
pub open spec fn armored_payload(data: Seq<u8>) -> Seq<char> {
    Seq::new(data.len() * 8 / 6, |i: int| armor(sextet(data, i)))
}

/// XOR of the (single-byte) characters of `s`.
pub open spec fn xor_chars(s: Seq<char>) -> u8
    decreases s.len(),
{
    if s.len() == 0 {
        0
    } else {
        xor_chars(s.drop_last()) ^ (s.last() as u8)
    }
}

/// XOR of bytes.
pub open spec fn xor_bytes(s: Seq<u8>) -> u8
    decreases s.len(),
{
    if s.len() == 0 {
        0
    } else {
        xor_bytes(s.drop_last()) ^ s.last()
    }
}

/// Upper-case hexadecimal digit of `n` (0-15).
pub open spec fn hex_digit(n: u8) -> char {
    (if n < 10 {
        48 + n
    } else {
        55 + n
    }) as u8 as char
}

/// `!` + body + `*` + the body's checksum in two upper-case hex digits.
pub open spec fn with_checksum(body: Seq<char>) -> Seq<char> {
    let cs = xor_chars(body);
    seq!['!'] + body + seq!['*', hex_digit(cs >> 4u8), hex_digit(cs & 0x0Fu8)]
}

/// The decimal digit of `d` (0-9).
pub open spec fn digit_char(d: u8) -> char {
    (48 + d) as u8 as char
}

/// `n` in decimal, without leading zeros.
pub open spec fn decimal_u8(n: u8) -> Seq<char> {
    if n < 10 {
        seq![digit_char(n)]
    } else if n < 100 {
        seq![digit_char(n / 10), digit_char(n % 10)]
    } else {
        seq![digit_char(n / 100), digit_char((n / 10) % 10), digit_char(n % 10)]
    }
}

/// A single-sentence `!AIVDM` report on channel A with the given payload and
/// fill-bit count (in decimal).
pub open spec fn aivdm_sentence(payload: Seq<char>, fill: u8) -> Seq<char> {
    with_checksum(
        seq!['A', 'I', 'V', 'D', 'M', ',', '1', ',', '1', ',', ',', 'A', ','] + payload + seq![',']
            + decimal_u8(fill),
    )
}

fn push_decimal_u8(s: &mut String, n: u8)
    ensures
        final(s)@ == old(s)@ + decimal_u8(n),
{
    if n < 10 {
        string_push(s, (48 + n) as char);
    } else if n < 100 {
        string_push(s, (48 + n / 10) as char);
        string_push(s, (48 + n % 10) as char);
    } else {
        string_push(s, (48 + n / 100) as char);
        string_push(s, (48 + (n / 10) % 10) as char);
        string_push(s, (48 + n % 10) as char);
    }
    assert(final(s)@ =~= old(s)@ + decimal_u8(n));
}

fn armor_char(val: u8) -> (c: char)
    requires
        val < 64,
    ensures
        c == armor(val),
{
    (if val < 40 {
        val + 48
    } else {
        val + 56
    }) as char
}

fn data_bit_at(data: &[u8], p: usize) -> (b: u8)
    ensures
        b == data_bit(data@, p as int),
        b <= 1,
{
    let n = data.len();
    if p / 8 < n {
        let x = data[p / 8];
        let sh = (7 - p % 8) as u8;
        assert((x >> sh) & 1u8 <= 1) by (bit_vector);
        (x >> sh) & 1
    } else {
        0
    }
}

/// The `i`-th 6-bit group of `data`, read bit by bit.
fn sextet_at(data: &[u8], i: usize) -> (v: u8)
    requires
        i < data@.len() * 8 / 6,
        data@.len() * 8 <= usize::MAX,
    ensures
        v == sextet(data@, i as int),
        v < 64,
{
    let p = i * 6;
    let v = 32 * data_bit_at(data, p) + 16 * data_bit_at(data, p + 1) + 8 * data_bit_at(data, p + 2)
        + 4 * data_bit_at(data, p + 3) + 2 * data_bit_at(data, p + 4) + data_bit_at(data, p + 5);
    v
}

/// Armors binary data into NMEA payload characters, one per whole 6-bit
/// group (trailing bits that do not fill a group are dropped).
pub fn bits_to_nmea_payload(data: &[u8]) -> (s: String)
    requires
        data@.len() * 8 <= usize::MAX,
    ensures
        s@ == armored_payload(data@),
{
    let total_bits = data.len() * 8;
    let chars = total_bits / 6;
    let mut out = String::new();
    let mut i: usize = 0;
    while i < chars
        invariant
            chars == data@.len() * 8 / 6,
            data@.len() * 8 <= usize::MAX,
            i <= chars,
            out@ == armored_payload(data@).take(i as int),
        decreases chars - i,
    {
        let val = sextet_at(data, i);
        string_push(&mut out, armor_char(val));
        assert(armored_payload(data@).take(i as int).push(armor(val)) =~= armored_payload(
            data@,
        ).take(i + 1));
        i += 1;
    }
    assert(armored_payload(data@).take(chars as int) =~= armored_payload(data@));
    out
}

/// The NMEA checksum: XOR of all bytes of `s`.
pub fn nmea_checksum(s: &str) -> (cs: u8)
    ensures
        cs == xor_bytes(s.spec_bytes()),
{
    let b = s.as_bytes();
    let mut acc: u8 = 0;
    let mut i: usize = 0;
    while i < b.len()
        invariant
            b@ == s.spec_bytes(),
            i <= b@.len(),
            acc == xor_bytes(b@.take(i as int)),
        decreases b@.len() - i,
    {
        assert(b@.take(i + 1).drop_last() =~= b@.take(i as int));
        acc = acc ^ b[i];
        i += 1;
    }
    assert(b@.take(b@.len() as int) =~= b@);
    acc
}

/// Appends `cs` to `s`.
pub(crate) fn push_chars(s: &mut String, cs: &[char])
    ensures
        final(s)@ == old(s)@ + cs@,
{
    let mut i: usize = 0;
    while i < cs.len()
        invariant
            i <= cs@.len(),
            s@ == old(s)@ + cs@.take(i as int),
        decreases cs@.len() - i,
    {
        string_push(s, cs[i]);
        assert(old(s)@ + cs@.take(i as int) + seq![cs@[i as int]] =~= old(s)@ + cs@.take(i + 1));
        i += 1;
    }
    assert(cs@.take(cs@.len() as int) =~= cs@);
}

fn hex_char(n: u8) -> (c: char)
    requires
        n < 16,
    ensures
        c == hex_digit(n),
{
    (if n < 10 {
        48 + n
    } else {
        55 + n
    }) as char
}

/// XOR of the characters of `s` taken as bytes.
fn xor_of(s: &String) -> (cs: u8)
    ensures
        cs == xor_chars(s@),
{
    let v = crate::text::str_chars(s.as_str());
    let mut acc: u8 = 0;
    let mut i: usize = 0;
    while i < v.len()
        invariant
            v@ == s@,
            i <= v@.len(),
            acc == xor_chars(v@.take(i as int)),
        decreases v@.len() - i,
    {
        assert(v@.take(i + 1).drop_last() =~= v@.take(i as int));
        acc = acc ^ (v[i] as u8);
        i += 1;
    }
    assert(v@.take(v@.len() as int) =~= v@);
    acc
}

/// `!` + body + `*` + checksum.
pub(crate) fn finish_sentence(body: String) -> (s: String)
    ensures
        s@ == with_checksum(body@),
{
    let cs = xor_of(&body);
    let mut s = String::new();
    string_push(&mut s, '!');
    let b = crate::text::str_chars(body.as_str());
    push_chars(&mut s, b.as_slice());
    string_push(&mut s, '*');
    assert(cs >> 4u8 < 16 && cs & 0x0Fu8 < 16) by (bit_vector);
    string_push(&mut s, hex_char(cs >> 4));
    string_push(&mut s, hex_char(cs & 0x0F));
    assert(s@ =~= with_checksum(body@));
    s
}

/// A single-sentence `!AIVDM` report for an armored payload and fill count.
pub fn aivdm(payload: &String, fill: u8) -> (s: String)
    ensures
        s@ == aivdm_sentence(payload@, fill),
{
    let mut body = String::new();
    push_chars(&mut body, &['A', 'I', 'V', 'D', 'M', ',', '1', ',', '1', ',', ',', 'A', ',']);
    let p = crate::text::str_chars(payload.as_str());
    push_chars(&mut body, p.as_slice());
    string_push(&mut body, ',');
    push_decimal_u8(&mut body, fill);
    let ghost b = body@;
    assert(b =~= seq!['A', 'I', 'V', 'D', 'M', ',', '1', ',', '1', ',', ',', 'A', ','] + payload@
        + seq![','] + decimal_u8(fill));
    finish_sentence(body)
}

} // verus!
