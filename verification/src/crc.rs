//! Mode-S CRC-24 (generator polynomial 0xfff409), byte-at-a-time (table) algorithm.
use vstd::prelude::*;

verus! {

/// The Mode-S CRC generator polynomial (without the x^24 term).
pub const GENERATOR_POLY: u32 = 0xfff409;

/// One shift of the 24-bit CRC register used when building table entries.
pub open spec fn poly_step(c: u32) -> u32 {
    if c & 0x800000u32 != 0 {
        (c << 1u32) ^ 0xfff409u32
    } else {
        c << 1u32
    }
}

/// Four register shifts.
pub open spec fn poly_step4(c: u32) -> u32 {
    poly_step(poly_step(poly_step(poly_step(c))))
}

/// Entry `i` of the byte-wise CRC table: eight register shifts of `i << 16`.
pub open spec fn crc_table_entry(i: u32) -> u32 {
    poly_step4(poly_step4(i << 16u32)) & 0xffffffu32
}

/// One byte of the table-driven remainder computation.
pub open spec fn table_step(rem: u32, b: u8) -> u32 {
    ((rem << 8u32) ^ crc_table_entry((b ^ ((rem >> 16u32) as u8)) as u32)) & 0xffffffu32
}

/// Remainder after feeding the first `n` bytes of `msg` through the table algorithm.
pub open spec fn crc_remainder(msg: Seq<u8>, n: nat) -> u32
    decreases n,
{
    if n == 0 {
        0
    } else {
        table_step(crc_remainder(msg, (n - 1) as nat), msg[n - 1])
    }
}

/// The three trailing (parity) bytes of a message as a 24-bit number.
pub open spec fn parity_field(msg: Seq<u8>) -> u32
    recommends
        msg.len() >= 3,
{
    let n = msg.len();
    ((msg[n - 3] as u32) << 16u32) ^ ((msg[n - 2] as u32) << 8u32) ^ (msg[n - 1] as u32)
}

/// Mode-S checksum residual: CRC of all but the last three bytes, XORed with
/// the parity field. Messages shorter than three bytes give 0xffffff.
pub open spec fn checksum(msg: Seq<u8>) -> u32 {
    if msg.len() < 3 {
        0xffffff
    } else {
        crc_remainder(msg, (msg.len() - 3) as nat) ^ parity_field(msg)
    }
}

fn poly_step_exec(c: u32) -> (r: u32)
    ensures
        r == poly_step(c),
{
    if c & 0x800000 != 0 {
        (c << 1) ^ GENERATOR_POLY
    } else {
        c << 1
    }
}

/// Computes entry `i` of the byte-wise CRC table.
fn table_entry(i: u8) -> (r: u32)
    ensures
        r == crc_table_entry(i as u32),
{
    let mut c: u32 = (i as u32) << 16;
    c = poly_step_exec(c);
    c = poly_step_exec(c);
    c = poly_step_exec(c);
    c = poly_step_exec(c);
    c = poly_step_exec(c);
    c = poly_step_exec(c);
    c = poly_step_exec(c);
    c = poly_step_exec(c);
    c & 0x00ffffff
}

/// Computes the CRC-24 residual of a Mode-S message.
/// For DF17/18 (112 bits) a residual of 0 means the message is intact; for
/// DF0/4/5/11/16/20/21 the residual is the address overlaid on the parity.
pub fn modes_checksum(msg: &[u8]) -> (r: u32)
    ensures
        r == checksum(msg@),
{
    let n = msg.len();
    if n < 3 {
        return 0xffffff;
    }
    let mut rem: u32 = 0;
    let mut i: usize = 0;
    while i < n - 3
        invariant
            n == msg@.len(),
            n >= 3,
            i <= n - 3,
            rem == crc_remainder(msg@, i as nat),
        decreases n - 3 - i,
    {
        let idx = msg[i] ^ (#[verifier::truncate] ((rem >> 16) as u8));
        rem = (rem << 8) ^ table_entry(idx);
        rem &= 0xffffff;
        i += 1;
    }
    let a = (msg[n - 3] as u32) << 16;
    let b = (msg[n - 2] as u32) << 8;
    let c = msg[n - 1] as u32;
    assert(rem ^ a ^ b ^ c == rem ^ (a ^ b ^ c)) by (bit_vector);
    rem ^ a ^ b ^ c
}

/// `msg` with bit `bit` flipped; bit 0 is the most significant bit of byte 0.
pub open spec fn flip_bit(msg: Seq<u8>, bit: int) -> Seq<u8> {
    msg.update(bit / 8, msg[bit / 8] ^ (1u8 << ((7 - bit % 8) as u8)))
}

/// Flipping bit `bit` (inside the message) gives a zero residual.
pub open spec fn repairs(msg: Seq<u8>, bit: int) -> bool {
    0 <= bit < msg.len() * 8 && checksum(flip_bit(msg, bit)) == 0
}

/// Tries to repair a single-bit error in a DF17/18 message in place.
/// A message with residual 0 is left alone and reported fixed; otherwise the
/// lowest-numbered bit whose flip gives residual 0 is flipped. If no single
/// flip repairs the message it is left unchanged and `false` is returned.
pub fn modes_fix_single_bit(msg: &mut [u8]) -> (fixed: bool)
    requires
        old(msg)@.len() * 8 <= usize::MAX,
    ensures
        fixed == (checksum(old(msg)@) == 0 || exists|b: int| repairs(old(msg)@, b)),
        checksum(old(msg)@) == 0 ==> final(msg)@ == old(msg)@,
        !fixed ==> final(msg)@ == old(msg)@,
        fixed && checksum(old(msg)@) != 0 ==> exists|b: int|
            {
                &&& repairs(old(msg)@, b)
                &&& final(msg)@ == flip_bit(old(msg)@, b)
                &&& forall|c: int| 0 <= c < b ==> !repairs(old(msg)@, c)
            },
{
    let ghost orig = msg@;
    let syndrome = modes_checksum(msg);
    if syndrome == 0 {
        return true;
    }
    let bits = msg.len() * 8;
    let mut bit: usize = 0;
    while bit < bits
        invariant
            bits == orig.len() * 8,
            orig == old(msg)@,
            msg@ == orig,
            bit <= bits,
            checksum(orig) != 0,
            forall|c: int| 0 <= c < bit ==> !repairs(orig, c),
        decreases bits - bit,
    {
        let byte_idx = bit / 8;
        let bit_idx = 7 - (bit % 8);
        let mask: u8 = 1u8 << (bit_idx as u8);
        let before = msg[byte_idx];
        msg[byte_idx] = before ^ mask;
        assert(msg@ == flip_bit(orig, bit as int));
        if modes_checksum(msg) == 0 {
            assert(repairs(orig, bit as int));
            return true;
        }
        msg[byte_idx] = msg[byte_idx] ^ mask;
        assert(before ^ mask ^ mask == before) by (bit_vector);
        assert(msg@ =~= orig);
        bit += 1;
    }
    assert forall|b: int| !repairs(orig, b) by {
        if 0 <= b < bits {
        }
    }
    false
}

/// The lowest bit whose flip repairs `msg`, when there is one.
pub open spec fn lowest_repair(msg: Seq<u8>) -> int {
    choose|b: int| repairs(msg, b) && forall|c: int| 0 <= c < b ==> !repairs(msg, c)
}

/// The bit found by a successful repair is the lowest repairing bit.
pub proof fn lemma_lowest_repair_unique(msg: Seq<u8>, b: int)
    requires
        repairs(msg, b),
        forall|c: int| 0 <= c < b ==> !repairs(msg, c),
    ensures
        lowest_repair(msg) == b,
{
    let l = lowest_repair(msg);
    assert(repairs(msg, l) && forall|c: int| 0 <= c < l ==> !repairs(msg, c));
    if l < b {
        assert(0 <= l);
    } else if b < l {
        assert(!repairs(msg, b));
    }
}

/// One input bit `b` (0 or 1) into the bit-serial CRC-24 register, most
/// significant bit first: the bit is added at the top, the register
/// shifts, and the generator is added when a one falls out.
pub open spec fn serial_bit(crc: u32, b: u32) -> u32 {
    (if (crc ^ (b << 23u32)) & 0x800000u32 != 0 {
        (crc << 1u32) ^ 0xfff409u32
    } else {
        crc << 1u32
    }) & 0xffffffu32
}

/// The eight bits of `byte` into the register, most significant first.
pub open spec fn serial_byte(crc: u32, byte: u8) -> u32 {
    let x = byte as u32;
    serial_bit(
        serial_bit(
            serial_bit(
                serial_bit(
                    serial_bit(
                        serial_bit(
                            serial_bit(serial_bit(crc, (x >> 7u32) & 1u32), (x >> 6u32) & 1u32),
                            (x >> 5u32) & 1u32,
                        ),
                        (x >> 4u32) & 1u32,
                    ),
                    (x >> 3u32) & 1u32,
                ),
                (x >> 2u32) & 1u32,
            ),
            (x >> 1u32) & 1u32,
        ),
        x & 1u32,
    )
}

/// The bit-serial register after the first `n` bytes of `msg`, from zero.
pub open spec fn serial_register(msg: Seq<u8>, n: nat) -> u32
    decreases n,
{
    if n == 0 {
        0
    } else {
        serial_byte(serial_register(msg, (n - 1) as nat), msg[n - 1])
    }
}

/// The bit-serial CRC-24 residual: the register over all but the last
/// three bytes, XORed with them; 0xffffff for messages under three bytes.
pub open spec fn serial_checksum(msg: Seq<u8>) -> u32 {
    if msg.len() < 3 {
        0xffffff
    } else {
        (serial_register(msg, (msg.len() - 3) as nat) ^ parity_field(msg)) & 0xffffffu32
    }
}

proof fn lemma_table_step_is_serial(rem: u32, b: u8)
    requires
        rem < 0x1000000,
    ensures
        table_step(rem, b) == serial_byte(rem, b),
        table_step(rem, b) < 0x1000000,
{
    assert(table_step(rem, b) == serial_byte(rem, b) && table_step(rem, b) < 0x1000000) by (bit_vector)
        requires
            rem < 0x1000000,
    ;
}

proof fn lemma_remainder_is_serial(msg: Seq<u8>, n: nat)
    requires
        n <= msg.len(),
    ensures
        crc_remainder(msg, n) == serial_register(msg, n),
        crc_remainder(msg, n) < 0x1000000,
    decreases n,
{
    if n > 0 {
        lemma_remainder_is_serial(msg, (n - 1) as nat);
        lemma_table_step_is_serial(crc_remainder(msg, (n - 1) as nat), msg[n - 1]);
    }
}

/// The table-driven residual equals the bit-serial CRC-24 of the message
/// (generator 0xfff409, zero start, most significant bit first), and is
/// always below 2^24.
pub proof fn lemma_checksum_is_serial_crc(msg: Seq<u8>)
    ensures
        checksum(msg) == serial_checksum(msg),
        checksum(msg) < 0x1000000,
{
    if msg.len() >= 3 {
        let n = (msg.len() - 3) as nat;
        lemma_remainder_is_serial(msg, n);
        let r = crc_remainder(msg, n);
        let a = msg[msg.len() - 3];
        let b = msg[msg.len() - 2];
        let c = msg[msg.len() - 1];
        assert((r ^ (((a as u32) << 16u32) ^ ((b as u32) << 8u32) ^ (c as u32))) < 0x1000000 && (r ^ (((
        a as u32) << 16u32) ^ ((b as u32) << 8u32) ^ (c as u32))) & 0xffffffu32 == r ^ (((a as u32)
            << 16u32) ^ ((b as u32) << 8u32) ^ (c as u32))) by (bit_vector)
            requires
                r < 0x1000000,
        ;
    }
}

} // verus!
