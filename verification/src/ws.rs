//! WebSocket handshake and framing for the live feed: the
//! `Sec-WebSocket-Accept` answer (SHA-1 and base64 of the key) and the
//! header of a binary frame. The server loop itself lives with the caller.
use vstd::prelude::*;
use vstd::string::StringSliceAdditionalSpecFns;
use crate::text::{
    latin1_chars, latin1_string, split_chars, split_fields, str_chars, str_trim, string_from_chars,
    trim_ws,
};

verus! {

/// SHA-1 state: five 32-bit words.
pub type Sha1State = (u32, u32, u32, u32, u32);

/// Addition modulo 2^32.
pub open spec fn wadd(x: u32, y: u32) -> u32 {
    if x + y > u32::MAX {
        (x + y - 0x1_0000_0000) as u32
    } else {
        (x + y) as u32
    }
}

/// Left rotation of a word by `n` bits (0 < n < 32).
pub open spec fn rotl(x: u32, n: u32) -> u32 {
    (x << n) | (x >> ((32 - n) as u32))
}

fn rotl_exec(x: u32, n: u32) -> (r: u32)
    requires
        0 < n < 32,
    ensures
        r == rotl(x, n),
{
    (x << n) | (x >> (32 - n))
}

/// The big-endian word at word index `t` of a block.
pub open spec fn word_at(block: Seq<u8>, t: int) -> u32 {
    ((block[4 * t] as u32) << 24u32) | ((block[4 * t + 1] as u32) << 16u32) | ((
    block[4 * t + 2] as u32) << 8u32) | (block[4 * t + 3] as u32)
}

/// The message schedule word `W_t` of a 64-byte block.
pub open spec fn schedule(block: Seq<u8>, t: nat) -> u32
    decreases t,
{
    if t < 16 {
        word_at(block, t as int)
    } else {
        rotl(
            schedule(block, (t - 3) as nat) ^ schedule(block, (t - 8) as nat) ^ schedule(
                block,
                (t - 14) as nat,
            ) ^ schedule(block, (t - 16) as nat),
            1,
        )
    }
}

/// The round function of round `t`.
pub open spec fn sha1_f(t: int, b: u32, c: u32, d: u32) -> u32 {
    if t < 20 {
        (b & c) | (!b & d)
    } else if t < 40 {
        b ^ c ^ d
    } else if t < 60 {
        (b & c) | (b & d) | (c & d)
    } else {
        b ^ c ^ d
    }
}

/// The round constant of round `t`.
pub open spec fn sha1_k(t: int) -> u32 {
    if t < 20 {
        0x5A827999
    } else if t < 40 {
        0x6ED9EBA1
    } else if t < 60 {
        0x8F1BBCDC
    } else {
        0xCA62C1D6
    }
}

/// The working variables after the first `n` rounds over `block`.
pub open spec fn sha1_rounds(h: Sha1State, block: Seq<u8>, n: nat) -> Sha1State
    decreases n,
{
    if n == 0 {
        h
    } else {
        let (a, b, c, d, e) = sha1_rounds(h, block, (n - 1) as nat);
        let t = n - 1;
        let tmp = wadd(
            wadd(wadd(wadd(rotl(a, 5), sha1_f(t, b, c, d)), e), sha1_k(t)),
            schedule(block, t as nat),
        );
        (tmp, a, rotl(b, 30), c, d)
    }
}

/// The state after compressing one 64-byte block into `h`.
pub open spec fn sha1_compress(h: Sha1State, block: Seq<u8>) -> Sha1State {
    let (a, b, c, d, e) = sha1_rounds(h, block, 80);
    (wadd(h.0, a), wadd(h.1, b), wadd(h.2, c), wadd(h.3, d), wadd(h.4, e))
}

/// The initial SHA-1 state.
pub open spec fn sha1_init() -> Sha1State {
    (0x67452301, 0xEFCDAB89, 0x98BADCFE, 0x10325476, 0xC3D2E1F0)
}

/// The state after the first `n` blocks of a padded message.
pub open spec fn sha1_blocks(p: Seq<u8>, n: nat) -> Sha1State
    decreases n,
{
    if n == 0 {
        sha1_init()
    } else {
        sha1_compress(sha1_blocks(p, (n - 1) as nat), p.subrange(64 * (n - 1), 64 * n as int))
    }
}

/// Zero bytes that bring a message of `len` bytes plus the 0x80 marker to
/// 56 modulo 64.
pub open spec fn pad_zeros(len: nat) -> nat {
    let r = len % 64;
    if r <= 55 {
        (55 - r) as nat
    } else {
        (119 - r) as nat
    }
}

/// The big-endian bytes of a 32-bit word.
pub open spec fn be32(x: u32) -> Seq<u8> {
    seq![(x >> 24u32) as u8, (x >> 16u32) as u8, (x >> 8u32) as u8, x as u8]
}

/// The big-endian bytes of a 64-bit word.
pub open spec fn be64(x: u64) -> Seq<u8> {
    seq![
        (x >> 56u64) as u8,
        (x >> 48u64) as u8,
        (x >> 40u64) as u8,
        (x >> 32u64) as u8,
        (x >> 24u64) as u8,
        (x >> 16u64) as u8,
        (x >> 8u64) as u8,
        x as u8,
    ]
}

/// The padded message: the 0x80 marker, zeros, and the bit length.
pub open spec fn sha1_pad(msg: Seq<u8>) -> Seq<u8> {
    msg.push(0x80) + Seq::new(pad_zeros(msg.len()), |i: int| 0u8) + be64((msg.len() * 8) as u64)
}

/// The SHA-1 digest of `msg` (FIPS 180-4), as 20 bytes.
pub open spec fn sha1_spec(msg: Seq<u8>) -> Seq<u8> {
    let p = sha1_pad(msg);
    let (a, b, c, d, e) = sha1_blocks(p, p.len() / 64);
    be32(a) + be32(b) + be32(c) + be32(d) + be32(e)
}

proof fn lemma_pad_len(len: nat)
    ensures
        (len + 1 + pad_zeros(len) + 8) % 64 == 0,
{
    let r = len % 64;
    let q = len / 64;
    assert(len == 64 * q + r);
    if r <= 55 {
        assert(len + 1 + pad_zeros(len) + 8 == 64 * (q + 1));
    } else {
        assert(len + 1 + pad_zeros(len) + 8 == 64 * (q + 2));
    }
}

fn push_be32(out: &mut Vec<u8>, x: u32)
    ensures
        final(out)@ == old(out)@ + be32(x),
{
    out.push((x >> 24) as u8);
    out.push((x >> 16) as u8);
    out.push((x >> 8) as u8);
    out.push(x as u8);
    assert(final(out)@ =~= old(out)@ + be32(x));
}

/// One compression of the 64-byte block at `base` of `p` into `h`.
fn compress(h: Sha1State, p: &Vec<u8>, base: usize) -> (r: Sha1State)
    requires
        base + 64 <= p.len(),
    ensures
        r == sha1_compress(h, p@.subrange(base as int, base + 64)),
{
    let ghost block = p@.subrange(base as int, base + 64);
    let mut w: Vec<u32> = Vec::new();
    let mut t: usize = 0;
    while t < 16
        invariant
            t <= 16,
            base + 64 <= p.len(),
            block == p@.subrange(base as int, base + 64),
            w@.len() == t,
            forall|j: int| 0 <= j < t ==> #[trigger] w@[j] == schedule(block, j as nat),
        decreases 16 - t,
    {
        let i = base + 4 * t;
        let word = ((p[i] as u32) << 24) | ((p[i + 1] as u32) << 16) | ((p[i + 2] as u32) << 8)
            | (p[i + 3] as u32);
        proof {
            assert(block[4 * t as int] == p@[i as int]);
            assert(block[4 * t + 1] == p@[i + 1]);
            assert(block[4 * t + 2] == p@[i + 2]);
            assert(block[4 * t + 3] == p@[i + 3]);
            assert(word == word_at(block, t as int));
        }
        w.push(word);
        t += 1;
    }
    while t < 80
        invariant
            16 <= t <= 80,
            w@.len() == t,
            forall|j: int| 0 <= j < t ==> #[trigger] w@[j] == schedule(block, j as nat),
        decreases 80 - t,
    {
        let x = w[t - 3] ^ w[t - 8] ^ w[t - 14] ^ w[t - 16];
        let v = rotl_exec(x, 1);
        proof {
            assert(w@[t - 3] == schedule(block, (t - 3) as nat));
            assert(w@[t - 8] == schedule(block, (t - 8) as nat));
            assert(w@[t - 14] == schedule(block, (t - 14) as nat));
            assert(w@[t - 16] == schedule(block, (t - 16) as nat));
        }
        w.push(v);
        t += 1;
    }
    let (mut a, mut b, mut c, mut d, mut e) = h;
    let mut i: usize = 0;
    while i < 80
        invariant
            i <= 80,
            w@.len() == 80,
            forall|j: int| 0 <= j < 80 ==> #[trigger] w@[j] == schedule(block, j as nat),
            (a, b, c, d, e) == sha1_rounds(h, block, i as nat),
        decreases 80 - i,
    {
        let (f, k) = if i < 20 {
            ((b & c) | (!b & d), 0x5A827999u32)
        } else if i < 40 {
            (b ^ c ^ d, 0x6ED9EBA1u32)
        } else if i < 60 {
            ((b & c) | (b & d) | (c & d), 0x8F1BBCDCu32)
        } else {
            (b ^ c ^ d, 0xCA62C1D6u32)
        };
        let tmp = rotl_exec(a, 5).wrapping_add(f).wrapping_add(e).wrapping_add(k).wrapping_add(w[i]);
        proof {
            assert(w@[i as int] == schedule(block, i as nat));
        }
        e = d;
        d = c;
        c = rotl_exec(b, 30);
        b = a;
        a = tmp;
        i += 1;
    }
    (
        h.0.wrapping_add(a),
        h.1.wrapping_add(b),
        h.2.wrapping_add(c),
        h.3.wrapping_add(d),
        h.4.wrapping_add(e),
    )
}

/// The SHA-1 digest of `msg`.
pub fn sha1(msg: &[u8]) -> (digest: Vec<u8>)
    requires
        msg@.len() * 8 <= u64::MAX,
        msg@.len() + 72 <= usize::MAX,
    ensures
        digest@ == sha1_spec(msg@),
{
    let len = msg.len();
    let bit_len: u64 = (len as u64) * 8;
    let mut padded: Vec<u8> = Vec::new();
    let mut i: usize = 0;
    while i < len
        invariant
            i <= len,
            len == msg@.len(),
            padded@ == msg@.take(i as int),
        decreases len - i,
    {
        padded.push(msg[i]);
        assert(msg@.take(i as int).push(msg@[i as int]) =~= msg@.take(i + 1));
        i += 1;
    }
    assert(msg@.take(len as int) =~= msg@);
    padded.push(0x80);
    let r = len % 64;
    let zeros = if r <= 55 {
        55 - r
    } else {
        119 - r
    };
    let mut z: usize = 0;
    while z < zeros
        invariant
            z <= zeros,
            zeros == pad_zeros(msg@.len()),
            len == msg@.len(),
            msg@.len() + 72 <= usize::MAX,
            padded@ == msg@.push(0x80) + Seq::new(z as nat, |j: int| 0u8),
        decreases zeros - z,
    {
        padded.push(0);
        assert(msg@.push(0x80) + Seq::new((z + 1) as nat, |j: int| 0u8) =~= (msg@.push(0x80)
            + Seq::new(z as nat, |j: int| 0u8)).push(0));
        z += 1;
    }
    let ghost before = padded@;
    padded.push((bit_len >> 56) as u8);
    padded.push((bit_len >> 48) as u8);
    padded.push((bit_len >> 40) as u8);
    padded.push((bit_len >> 32) as u8);
    padded.push((bit_len >> 24) as u8);
    padded.push((bit_len >> 16) as u8);
    padded.push((bit_len >> 8) as u8);
    padded.push(bit_len as u8);
    proof {
        assert(padded@ =~= before + be64(bit_len));
        assert(padded@ =~= sha1_pad(msg@));
        lemma_pad_len(msg@.len());
    }
    let nb = padded.len() / 64;
    let mut h: Sha1State = (0x67452301, 0xEFCDAB89, 0x98BADCFE, 0x10325476, 0xC3D2E1F0);
    let mut b: usize = 0;
    while b < nb
        invariant
            b <= nb,
            nb == padded@.len() / 64,
            padded@ == sha1_pad(msg@),
            h == sha1_blocks(padded@, b as nat),
        decreases nb - b,
    {
        assert(64 * b + 64 <= padded.len()) by (nonlinear_arith)
            requires
                b < nb,
                nb == padded.len() / 64,
        ;
        h = compress(h, &padded, 64 * b);
        b += 1;
    }
    let mut out: Vec<u8> = Vec::new();
    push_be32(&mut out, h.0);
    push_be32(&mut out, h.1);
    push_be32(&mut out, h.2);
    push_be32(&mut out, h.3);
    push_be32(&mut out, h.4);
    assert(out@ =~= sha1_spec(msg@));
    out
}

/// The symbol of a six-bit value in the base64 alphabet (RFC 4648).
pub open spec fn b64_symbol(v: int) -> u8 {
    if v < 26 {
        (65 + v) as u8
    } else if v < 52 {
        (71 + v) as u8
    } else if v < 62 {
        (v - 4) as u8
    } else if v == 62 {
        43
    } else {
        47
    }
}

fn b64_symbol_exec(v: u32) -> (r: u8)
    requires
        v < 64,
    ensures
        r == b64_symbol(v as int),
{
    if v < 26 {
        (65 + v) as u8
    } else if v < 52 {
        (71 + v) as u8
    } else if v < 62 {
        (v - 4) as u8
    } else if v == 62 {
        43
    } else {
        47
    }
}

/// The four symbols of a group of one to three bytes, padded with '='.
pub open spec fn b64_group(c: Seq<u8>) -> Seq<u8> {
    let b0 = c[0];
    let b1: u8 = if c.len() > 1 {
        c[1]
    } else {
        0
    };
    let b2: u8 = if c.len() > 2 {
        c[2]
    } else {
        0
    };
    seq![
        b64_symbol((b0 >> 2u8) as int),
        b64_symbol((((b0 & 3u8) << 4u8) | (b1 >> 4u8)) as int),
        if c.len() > 1 {
            b64_symbol((((b1 & 15u8) << 2u8) | (b2 >> 6u8)) as int)
        } else {
            61u8
        },
        if c.len() > 2 {
            b64_symbol((b2 & 63u8) as int)
        } else {
            61u8
        },
    ]
}

/// The padded base64 encoding of `data` (RFC 4648, standard alphabet).
pub open spec fn b64_encode(data: Seq<u8>) -> Seq<u8>
    decreases data.len(),
{
    if data.len() == 0 {
        Seq::empty()
    } else if data.len() <= 3 {
        b64_group(data)
    } else {
        b64_group(data.take(3)) + b64_encode(data.skip(3))
    }
}

/// The padded base64 encoding of `data`.
pub fn b64(data: &[u8]) -> (r: String)
    ensures
        r@ == latin1_chars(b64_encode(data@)),
{
    let len = data.len();
    let mut out: Vec<u8> = Vec::new();
    let mut i: usize = 0;
    assert(data@.skip(0) =~= data@);
    while i < len
        invariant
            i <= len,
            len == data@.len(),
            out@ + b64_encode(data@.skip(i as int)) == b64_encode(data@),
        decreases len - i,
    {
        let ghost rest = data@.skip(i as int);
        let b0 = data[i];
        let b1: u8 = if len - i > 1 {
            data[i + 1]
        } else {
            0
        };
        let b2: u8 = if len - i > 2 {
            data[i + 2]
        } else {
            0
        };
        let n: u32 = ((b0 as u32) << 16) | ((b1 as u32) << 8) | (b2 as u32);
        proof {
            assert((n >> 18u32) & 0x3f == (b0 >> 2u8) as u32) by (bit_vector)
                requires
                    n == ((b0 as u32) << 16u32) | ((b1 as u32) << 8u32) | (b2 as u32),
            ;
            assert((n >> 12u32) & 0x3f == (((b0 & 3u8) << 4u8) | (b1 >> 4u8)) as u32)
                by (bit_vector)
                requires
                    n == ((b0 as u32) << 16u32) | ((b1 as u32) << 8u32) | (b2 as u32),
            ;
            assert((n >> 6u32) & 0x3f == (((b1 & 15u8) << 2u8) | (b2 >> 6u8)) as u32)
                by (bit_vector)
                requires
                    n == ((b0 as u32) << 16u32) | ((b1 as u32) << 8u32) | (b2 as u32),
            ;
            assert(n & 0x3f == (b2 & 63u8) as u32) by (bit_vector)
                requires
                    n == ((b0 as u32) << 16u32) | ((b1 as u32) << 8u32) | (b2 as u32),
            ;
            assert((n >> 18u32) & 0x3f < 64 && (n >> 12u32) & 0x3f < 64 && (n >> 6u32) & 0x3f < 64
                && n & 0x3f < 64) by (bit_vector);
        }
        let ghost o0 = out@;
        out.push(b64_symbol_exec((n >> 18) & 0x3f));
        out.push(b64_symbol_exec((n >> 12) & 0x3f));
        if len - i > 1 {
            out.push(b64_symbol_exec((n >> 6) & 0x3f));
        } else {
            out.push(61);
        }
        if len - i > 2 {
            out.push(b64_symbol_exec(n & 0x3f));
        } else {
            out.push(61);
        }
        proof {
            let g = if rest.len() <= 3 {
                rest
            } else {
                rest.take(3)
            };
            assert(g[0] == b0);
            assert(g.len() > 1 ==> g[1] == b1);
            assert(g.len() > 2 ==> g[2] == b2);
            assert(out@ =~= o0 + b64_group(g));
        }
        if len - i > 3 {
            assert(rest.skip(3) =~= data@.skip(i + 3));
            i += 3;
        } else {
            assert(data@.skip(len as int) =~= Seq::<u8>::empty());
            i = len;
        }
    }
    assert(data@.skip(len as int) =~= Seq::<u8>::empty());
    assert(out@ =~= b64_encode(data@));
    latin1_string(&out)
}

/// The GUID appended to a client key before hashing (RFC 6455).
pub const WS_GUID: &'static str = "258EAFA5-E914-47DA-95CA-C5AB0DC85B11";

/// The `Sec-WebSocket-Accept` value for a client key: the base64 of the
/// SHA-1 of the key followed by the GUID.
pub open spec fn ws_accept_spec(key: Seq<u8>) -> Seq<char> {
    latin1_chars(b64_encode(sha1_spec(key + WS_GUID.spec_bytes())))
}

/// The `Sec-WebSocket-Accept` answer to `key`.
pub fn ws_accept(key: &str) -> (r: String)
    requires
        key.spec_bytes().len() + 108 <= usize::MAX,
        (key.spec_bytes().len() + 36) * 8 <= u64::MAX,
    ensures
        r@ == ws_accept_spec(key.spec_bytes()),
{
    proof {
        reveal_strlit("258EAFA5-E914-47DA-95CA-C5AB0DC85B11");
        vstd::string::is_ascii_spec_bytes(WS_GUID);
        assert(WS_GUID.spec_bytes().len() == 36);
    }
    let kb = key.as_bytes();
    let gb = WS_GUID.as_bytes();
    let mut input: Vec<u8> = Vec::new();
    let mut i: usize = 0;
    while i < kb.len()
        invariant
            i <= kb@.len(),
            input@ == kb@.take(i as int),
        decreases kb@.len() - i,
    {
        input.push(kb[i]);
        assert(kb@.take(i as int).push(kb@[i as int]) =~= kb@.take(i + 1));
        i += 1;
    }
    let mut j: usize = 0;
    while j < gb.len()
        invariant
            j <= gb@.len(),
            input@ == kb@ + gb@.take(j as int),
        decreases gb@.len() - j,
    {
        input.push(gb[j]);
        assert(kb@ + gb@.take(j as int).push(gb@[j as int]) =~= kb@ + gb@.take(j + 1));
        j += 1;
    }
    assert(input@ =~= key.spec_bytes() + WS_GUID.spec_bytes());
    let hash = sha1(&input);
    b64(&hash)
}

/// ASCII lower case of a character; other characters are unchanged.
pub open spec fn lower_ascii(c: char) -> char {
    if 'A' <= c <= 'Z' {
        ((c as u32) + 32) as char
    } else {
        c
    }
}

/// The header name that introduces the client key, in lower case.
pub open spec fn key_header() -> Seq<char> {
    "sec-websocket-key:"@
}

/// A line that starts with the key header, in any ASCII case.
pub open spec fn is_key_line(line: Seq<char>) -> bool {
    &&& line.len() >= key_header().len()
    &&& forall|i: int| 0 <= i < key_header().len() ==> lower_ascii(#[trigger] line[i]) == key_header()[i]
}

/// The trimmed value of the first key line at or after line `from`.
pub open spec fn key_from(lines: Seq<Seq<char>>, from: int) -> Option<Seq<char>>
    decreases lines.len() - from,
{
    if from < 0 || from >= lines.len() {
        None
    } else if is_key_line(lines[from]) {
        Some(trim_ws(lines[from].skip(key_header().len() as int)))
    } else {
        key_from(lines, from + 1)
    }
}

/// The client key of a handshake request: the trimmed value of its first
/// `Sec-WebSocket-Key` header line. Lines end at '\n'; a '\r' before it is
/// white space and goes with the trimming.
pub open spec fn request_key(req: Seq<char>) -> Option<Seq<char>> {
    key_from(split_fields(req, '\n'), 0)
}

fn lower_ascii_exec(c: char) -> (r: char)
    ensures
        r == lower_ascii(c),
{
    if 'A' <= c && c <= 'Z' {
        let u = (c as u32) + 32;
        proof {
            assert(u <= 0x7f);
        }
        (u as u8) as char
    } else {
        c
    }
}

fn is_key_line_exec(line: &Vec<char>, header: &Vec<char>) -> (r: bool)
    requires
        header@ == key_header(),
    ensures
        r == is_key_line(line@),
{
    if line.len() < header.len() {
        return false;
    }
    let mut i: usize = 0;
    while i < header.len()
        invariant
            i <= header@.len(),
            header@.len() <= line@.len(),
            header@ == key_header(),
            forall|j: int| 0 <= j < i ==> lower_ascii(#[trigger] line@[j]) == key_header()[j],
        decreases header@.len() - i,
    {
        if lower_ascii_exec(line[i]) != header[i] {
            return false;
        }
        i += 1;
    }
    true
}

/// The client key of a handshake request, if it has one.
pub fn extract_key(req: &str) -> (r: Option<String>)
    ensures
        match r {
            Some(k) => request_key(req@) == Some(k@),
            None => request_key(req@) is None,
        },
{
    let header = str_chars("sec-websocket-key:");
    let chars = str_chars(req);
    let lines = split_chars(&chars, '\n');
    let ghost all = split_fields(chars@, '\n');
    let mut k: usize = 0;
    while k < lines.len()
        invariant
            k <= lines@.len(),
            lines@.len() == all.len(),
            forall|i: int| 0 <= i < lines@.len() ==> #[trigger] lines@[i]@ == all[i],
            header@ == key_header(),
            all == split_fields(req@, '\n'),
            key_from(all, 0) == key_from(all, k as int),
        decreases lines@.len() - k,
    {
        if is_key_line_exec(&lines[k], &header) {
            let line = &lines[k];
            let mut value: Vec<char> = Vec::new();
            let mut j: usize = header.len();
            while j < line.len()
                invariant
                    header@.len() <= j <= line@.len(),
                    value@ == line@.subrange(header@.len() as int, j as int),
                decreases line@.len() - j,
            {
                value.push(line[j]);
                assert(line@.subrange(header@.len() as int, j as int).push(line@[j as int])
                    =~= line@.subrange(header@.len() as int, j + 1));
                j += 1;
            }
            assert(value@ =~= all[k as int].skip(key_header().len() as int));
            let s = string_from_chars(&value);
            let t = str_trim(s.as_str());
            return Some(t.to_owned());
        }
        k += 1;
    }
    None
}

/// The header of an unmasked binary frame (FIN set) carrying `len` bytes.
pub open spec fn frame_header(len: nat) -> Seq<u8> {
    if len < 126 {
        seq![0x82u8, len as u8]
    } else if len < 65536 {
        seq![0x82u8, 126u8, (len / 256) as u8, (len % 256) as u8]
    } else {
        seq![0x82u8, 127u8] + be64(len as u64)
    }
}

/// The header of a binary frame carrying `len` bytes.
pub fn ws_frame_header(len: usize) -> (hdr: Vec<u8>)
    ensures
        hdr@ == frame_header(len as nat),
{
    let mut hdr: Vec<u8> = Vec::new();
    hdr.push(0x82);
    if len < 126 {
        hdr.push(len as u8);
        assert(hdr@ =~= frame_header(len as nat));
    } else if len < 65536 {
        assert(len >> 8usize == len / 256usize) by (bit_vector);
        assert(len & 0xFFusize == len % 256usize) by (bit_vector);
        hdr.push(126);
        hdr.push((len >> 8) as u8);
        hdr.push((len & 0xFF) as u8);
        assert(hdr@ =~= frame_header(len as nat));
    } else {
        hdr.push(127);
        let l = len as u64;
        let ghost h0 = hdr@;
        hdr.push((l >> 56) as u8);
        hdr.push((l >> 48) as u8);
        hdr.push((l >> 40) as u8);
        hdr.push((l >> 32) as u8);
        hdr.push((l >> 24) as u8);
        hdr.push((l >> 16) as u8);
        hdr.push((l >> 8) as u8);
        hdr.push(l as u8);
        assert(hdr@ =~= h0 + be64(l));
    }
    assert(hdr@ =~= frame_header(len as nat));
    hdr
}

} // verus!
