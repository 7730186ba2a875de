//! Feeder identity: UUID text and the 64-bit receiver id derived from it.
//!
//! A UUID's text is handled through its UTF-8 bytes. Dashes and hex digits
//! are ASCII, so a non-ASCII character never counts as a digit, and the
//! byte-level statements below say the same as the character-level ones.
use vstd::prelude::*;
use vstd::string::StringSliceAdditionalSpecFns;

verus! {

/// ASCII hex digit: 0-9, a-f, A-F.
pub open spec fn is_hex_digit(c: u8) -> bool {
    (0x30 <= c <= 0x39) || (0x61 <= c <= 0x66) || (0x41 <= c <= 0x46)
}

/// Value of an ASCII hex digit.
pub open spec fn hex_digit_value(c: u8) -> nat {
    if 0x30 <= c <= 0x39 {
        (c - 0x30) as nat
    } else if 0x61 <= c <= 0x66 {
        (c - 0x61 + 10) as nat
    } else {
        (c - 0x41 + 10) as nat
    }
}

/// Every byte of `s` is an ASCII hex digit.
pub open spec fn all_hex(s: Seq<u8>) -> bool {
    forall|i: int| 0 <= i < s.len() ==> is_hex_digit(#[trigger] s[i])
}

/// The number that a string of hex digits spells, most significant first.
pub open spec fn hex_value(s: Seq<u8>) -> nat
    decreases s.len(),
{
    if s.len() == 0 {
        0
    } else {
        hex_value(s.drop_last()) * 16 + hex_digit_value(s.last())
    }
}

/// `s` with every '-' removed.
pub open spec fn strip_dashes(s: Seq<u8>) -> Seq<u8>
    decreases s.len(),
{
    if s.len() == 0 {
        s
    } else if s.last() == 0x2d {
        strip_dashes(s.drop_last())
    } else {
        strip_dashes(s.drop_last()).push(s.last())
    }
}

/// What `u64::from_str_radix(text, 16)` accepts for text of at most 16
/// characters: hex digits, optionally after one '+'.
pub open spec fn parse_hex_u64(h: Seq<u8>) -> Option<u64> {
    if h.len() > 0 && all_hex(h) {
        Some(hex_value(h) as u64)
    } else if h.len() > 1 && h[0] == 0x2b && all_hex(h.skip(1)) {
        Some(hex_value(h.skip(1)) as u64)
    } else {
        None
    }
}

/// The receiver id of a UUID: its first 16 non-dash characters read as hex,
/// or 0 when there are fewer or they are not hex.
pub open spec fn receiver_id_from_uuid(text: Seq<u8>) -> u64 {
    let digits = strip_dashes(text);
    if digits.len() < 16 {
        0
    } else {
        match parse_hex_u64(digits.take(16)) {
            Some(v) => v,
            None => 0,
        }
    }
}

/// A UUID in its 36-character text form: 32 hex digits and dashes.
pub open spec fn uuid_text_ok(text: Seq<u8>) -> bool {
    text.len() == 36 && strip_dashes(text).len() == 32 && all_hex(strip_dashes(text))
}

/// 16 to the power `n`.
pub open spec fn pow16(n: nat) -> nat
    decreases n,
{
    if n == 0 {
        1
    } else {
        16 * pow16((n - 1) as nat)
    }
}

proof fn lemma_pow16_mono(a: nat, b: nat)
    requires
        a <= b,
    ensures
        pow16(a) <= pow16(b),
    decreases b,
{
    if a < b {
        lemma_pow16_mono(a, (b - 1) as nat);
    }
}

proof fn lemma_hex_value_bound(s: Seq<u8>)
    requires
        all_hex(s),
    ensures
        hex_value(s) < pow16(s.len()),
    decreases s.len(),
{
    if s.len() > 0 {
        let t = s.drop_last();
        assert(all_hex(t)) by {
            assert forall|i: int| 0 <= i < t.len() implies is_hex_digit(#[trigger] t[i]) by {
                assert(t[i] == s[i]);
            }
        }
        lemma_hex_value_bound(t);
        assert(is_hex_digit(s[s.len() - 1]));
        assert(hex_value(s) < pow16(s.len())) by (nonlinear_arith)
            requires
                hex_value(s) == hex_value(t) * 16 + hex_digit_value(s.last()),
                hex_digit_value(s.last()) < 16,
                hex_value(t) < pow16(t.len()),
                pow16(s.len()) == pow16(t.len()) * 16,
        ;
    }
}

fn hex_digit(c: u8) -> (r: Option<u64>)
    ensures
        r is Some <==> is_hex_digit(c),
        r matches Some(v) ==> v == hex_digit_value(c) && v < 16,
{
    if 0x30 <= c && c <= 0x39 {
        Some((c - 0x30) as u64)
    } else if 0x61 <= c && c <= 0x66 {
        Some((c - 0x61 + 10) as u64)
    } else if 0x41 <= c && c <= 0x46 {
        Some((c - 0x41 + 10) as u64)
    } else {
        None
    }
}

/// Reads `h[from..]` (at most 16 bytes) as hex digits.
fn read_hex(h: &Vec<u8>, from: usize) -> (r: Option<u64>)
    requires
        from <= h@.len(),
        h@.len() - from <= 16,
    ensures
        r is Some <==> all_hex(h@.skip(from as int)),
        r matches Some(v) ==> v == hex_value(h@.skip(from as int)),
{
    let mut acc: u64 = 0;
    let mut i = from;
    while i < h.len()
        invariant
            from <= i <= h@.len(),
            h@.len() - from <= 16,
            all_hex(h@.subrange(from as int, i as int)),
            acc == hex_value(h@.subrange(from as int, i as int)),
        decreases h@.len() - i,
    {
        let ghost prev = h@.subrange(from as int, i as int);
        let ghost next = h@.subrange(from as int, i + 1);
        assert(next.drop_last() =~= prev);
        match hex_digit(h[i]) {
            Some(d) => {
                proof {
                    lemma_hex_value_bound(prev);
                    lemma_pow16_mono(prev.len(), 15);
                    reveal_with_fuel(pow16, 16);
                    assert(pow16(15) == 0x1000000000000000nat);
                }
                acc = acc * 16 + d;
                i += 1;
                assert(all_hex(next)) by {
                    assert forall|j: int| 0 <= j < next.len() implies is_hex_digit(#[trigger] next[j]) by {
                        if j < prev.len() {
                            assert(next[j] == prev[j]);
                        }
                    }
                }
            },
            None => {
                assert(!is_hex_digit(h@.skip(from as int)[i - from]));
                return None;
            },
        }
    }
    assert(h@.subrange(from as int, h@.len() as int) =~= h@.skip(from as int));
    Some(acc)
}

proof fn lemma_strip_prefix(s: Seq<u8>, i: int)
    requires
        0 <= i < s.len(),
    ensures
        strip_dashes(s.take(i + 1)) == if s[i] == 0x2d {
            strip_dashes(s.take(i))
        } else {
            strip_dashes(s.take(i)).push(s[i])
        },
{
    assert(s.take(i + 1).drop_last() =~= s.take(i));
}

/// The first (at most 16) non-dash bytes of `text`, with how many non-dash
/// bytes there are when that is below 16.
fn first_non_dash(text: &[u8], limit: usize) -> (r: Vec<u8>)
    requires
        limit <= 36,
    ensures
        r@ == strip_dashes(text@).take(
            if strip_dashes(text@).len() < limit {
                strip_dashes(text@).len() as int
            } else {
                limit as int
            },
        ),
{
    let mut out: Vec<u8> = Vec::new();
    let mut i: usize = 0;
    while i < text.len()
        invariant
            i <= text@.len(),
            limit <= 36,
            out@ == strip_dashes(text@.take(i as int)).take(
                if strip_dashes(text@.take(i as int)).len() < limit {
                    strip_dashes(text@.take(i as int)).len() as int
                } else {
                    limit as int
                },
            ),
        decreases text@.len() - i,
    {
        proof {
            lemma_strip_prefix(text@, i as int);
        }
        let c = text[i];
        if c != 0x2d && out.len() < limit {
            out.push(c);
        }
        i += 1;
        assert(out@ =~= strip_dashes(text@.take(i as int)).take(
            if strip_dashes(text@.take(i as int)).len() < limit {
                strip_dashes(text@.take(i as int)).len() as int
            } else {
                limit as int
            },
        ));
    }
    assert(text@.take(text@.len() as int) =~= text@);
    out
}

/// Converts a UUID string to the 64-bit receiver id (the first 16 hex
/// nibbles, dashes skipped); 0 when those are missing or not hex.
pub fn uuid_to_receiver_id(uuid: &str) -> (id: u64)
    ensures
        id == receiver_id_from_uuid(uuid.spec_bytes()),
{
    let hex = first_non_dash(uuid.as_bytes(), 16);
    if hex.len() < 16 {
        return 0;
    }
    assert(strip_dashes(uuid.spec_bytes()).len() >= 16);
    match read_hex(&hex, 0) {
        Some(v) => {
            assert(hex@.skip(0) =~= hex@);
            return v;
        },
        None => {
            assert(hex@.skip(0) =~= hex@);
        },
    }
    if hex[0] == 0x2b {
        match read_hex(&hex, 1) {
            Some(v) => {
                return v;
            },
            None => {},
        }
    }
    0
}

fn all_hex_digits(v: &Vec<u8>) -> (r: bool)
    ensures
        r == all_hex(v@),
{
    let mut i: usize = 0;
    while i < v.len()
        invariant
            i <= v@.len(),
            forall|j: int| 0 <= j < i ==> is_hex_digit(#[trigger] v@[j]),
        decreases v@.len() - i,
    {
        if hex_digit(v[i]).is_none() {
            return false;
        }
        i += 1;
    }
    true
}

proof fn lemma_strip_len(s: Seq<u8>)
    ensures
        strip_dashes(s).len() <= s.len(),
    decreases s.len(),
{
    if s.len() > 0 {
        lemma_strip_len(s.drop_last());
    }
}

/// Whether `s` is a 36-character UUID: 32 hex digits once dashes are removed.
pub fn is_valid_uuid(s: &str) -> (ok: bool)
    ensures
        ok == uuid_text_ok(s.spec_bytes()),
{
    let bytes = s.as_bytes();
    if bytes.len() != 36 {
        return false;
    }
    let stripped = first_non_dash(bytes, 36);
    proof {
        lemma_strip_len(bytes@);
    }
    assert(stripped@ =~= strip_dashes(bytes@));
    stripped.len() == 32 && all_hex_digits(&stripped)
}

} // verus!
