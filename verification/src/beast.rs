//! Beast binary protocol: frame types, the streaming framer, and the
//! receiver-id (0xe3) and UUID (0xe4) frames.
use crate::buffers::{
    bytes_contents, bytes_mut_at, bytes_mut_contents, bytes_mut_freeze, bytes_mut_len,
    bytes_mut_put_slice, bytes_mut_put_u8, bytes_mut_split_to, bytes_mut_with_capacity,
};
use bytes::{Bytes, BytesMut};
use vstd::prelude::*;
use vstd::slice::slice_subrange;
use vstd::string::StringSliceAdditionalSpecFns;
use vstd::utf8::valid_utf8;

verus! {

/// The byte that starts every Beast frame; inside a frame body it is doubled.
pub const BEAST_ESCAPE: u8 = 0x1a;

/// Beast frame types, by their type byte.
#[derive(Debug, Clone, Copy, PartialEq, Eq, Structural)]
pub enum FrameType {
    /// 0x31: Mode A/C, 6 timestamp + 1 signal + 2 payload bytes.
    ModeAC,
    /// 0x32: Mode-S short, 6 + 1 + 7 bytes.
    ModeSShort,
    /// 0x33: Mode-S long, 6 + 1 + 14 bytes.
    ModeSLong,
    /// 0x34: configuration, 21 bytes.
    Config,
    /// 0x35: extended, 22 bytes.
    Extended,
    /// 0xe3: receiver id, 8 bytes, no timestamp or signal.
    ReceiverID,
    /// 0xe4: UUID, 36 ASCII bytes, not escaped.
    UUID,
}

/// The frame type a type byte announces.
pub open spec fn frame_type_of(b: u8) -> Option<FrameType> {
    if b == 0x31 {
        Some(FrameType::ModeAC)
    } else if b == 0x32 {
        Some(FrameType::ModeSShort)
    } else if b == 0x33 {
        Some(FrameType::ModeSLong)
    } else if b == 0x34 {
        Some(FrameType::Config)
    } else if b == 0x35 {
        Some(FrameType::Extended)
    } else if b == 0xe3 {
        Some(FrameType::ReceiverID)
    } else if b == 0xe4 {
        Some(FrameType::UUID)
    } else {
        None
    }
}

/// Unescaped body length of a frame type (bytes after 0x1a and the type byte).
pub open spec fn body_length(t: FrameType) -> nat {
    match t {
        FrameType::ModeAC => 9,
        FrameType::ModeSShort => 14,
        FrameType::ModeSLong => 21,
        FrameType::Config => 21,
        FrameType::Extended => 22,
        FrameType::ReceiverID => 8,
        FrameType::UUID => 36,
    }
}

/// Whether the body of a frame type doubles 0x1a bytes.
pub open spec fn is_escaped(t: FrameType) -> bool {
    t != FrameType::UUID
}

impl FrameType {
    /// The frame type for a type byte, if it is one.
    pub fn from_byte(b: u8) -> (r: Option<Self>)
        ensures
            r == frame_type_of(b),
    {
        match b {
            0x31 => Some(Self::ModeAC),
            0x32 => Some(Self::ModeSShort),
            0x33 => Some(Self::ModeSLong),
            0x34 => Some(Self::Config),
            0x35 => Some(Self::Extended),
            0xe3 => Some(Self::ReceiverID),
            0xe4 => Some(Self::UUID),
            _ => None,
        }
    }

    /// Unescaped body length after the 0x1a + type byte.
    pub fn body_len(self) -> (n: usize)
        ensures
            n == body_length(self),
    {
        match self {
            Self::ModeAC => 6 + 1 + 2,
            Self::ModeSShort => 6 + 1 + 7,
            Self::ModeSLong => 6 + 1 + 14,
            Self::Config => 6 + 1 + 14,
            Self::Extended => 14 + 8,
            Self::ReceiverID => 8,
            Self::UUID => 36,
        }
    }

    /// Whether body bytes use escape doubling (all but UUID frames).
    pub fn has_escaping(self) -> (r: bool)
        ensures
            r == is_escaped(self),
    {
        !matches!(self, Self::UUID)
    }
}

/// Index of the first 0x1a at or after `from`.
pub open spec fn find_escape(buf: Seq<u8>, from: int) -> Option<int>
    decreases buf.len() - from,
{
    if from < 0 || from >= buf.len() {
        None
    } else if buf[from] == 0x1a {
        Some(from)
    } else {
        find_escape(buf, from + 1)
    }
}

/// Outcome of scanning an escaped frame body.
pub enum BodyScan {
    /// The buffer ends before the body is complete.
    NeedMore,
    /// The body is complete; the frame ends before this wire position.
    Complete(int),
    /// A lone 0x1a starts a new frame at this wire position.
    Truncated(int),
}

/// Scans an escaped body from wire position `pos`, having `count` of `needed`
/// unescaped bytes so far.
pub open spec fn scan_escaped(buf: Seq<u8>, pos: int, count: int, needed: int) -> BodyScan
    decreases needed - count,
{
    if count >= needed {
        BodyScan::Complete(pos)
    } else if pos < 0 || pos >= buf.len() {
        BodyScan::NeedMore
    } else if buf[pos] == 0x1a {
        if pos + 1 >= buf.len() {
            BodyScan::NeedMore
        } else if buf[pos + 1] == 0x1a {
            scan_escaped(buf, pos + 2, count + 1, needed)
        } else {
            BodyScan::Truncated(pos)
        }
    } else {
        scan_escaped(buf, pos + 1, count + 1, needed)
    }
}

/// What one call of `next_frame` does to the buffered bytes `buf`: the frame
/// it returns (raw wire bytes from 0x1a through the body) and the bytes left.
/// Bytes before the first 0x1a are kept while no 0x1a is buffered; an
/// unknown type byte drops everything up to it; a frame cut short by a new
/// 0x1a is dropped.
pub open spec fn frame_step(buf: Seq<u8>) -> (Option<Seq<u8>>, Seq<u8>)
    decreases buf.len(), 2int,
{
    match find_escape(buf, 0) {
        None => (None, buf),
        Some(start) => frame_step_at(buf, start),
    }
}

/// `frame_step` once the first 0x1a is known to be at `start`.
pub open spec fn frame_step_at(buf: Seq<u8>, start: int) -> (Option<Seq<u8>>, Seq<u8>)
    recommends
        0 <= start < buf.len(),
    decreases buf.len(), 1int,
{
    if start < 0 {
        (None, buf)
    } else if start + 1 >= buf.len() {
        (None, buf.skip(start))
    } else {
        match frame_type_of(buf[start + 1]) {
            None => frame_step(buf.skip(start + 2)),
            Some(ft) => frame_body_step(buf.skip(start), ft),
        }
    }
}

/// `frame_step` once the buffer starts with 0x1a and a known type byte.
pub open spec fn frame_body_step(b: Seq<u8>, ft: FrameType) -> (Option<Seq<u8>>, Seq<u8>)
    decreases b.len(), 0int,
{
    let needed = body_length(ft) as int;
    if is_escaped(ft) {
        match scan_escaped(b, 2, 0, needed) {
            BodyScan::NeedMore => (None, b),
            BodyScan::Complete(p) => if 2 <= p <= b.len() {
                (Some(b.take(p)), b.skip(p))
            } else {
                (None, b)
            },
            BodyScan::Truncated(p) => if 2 <= p <= b.len() {
                frame_step(b.skip(p))
            } else {
                (None, b)
            },
        }
    } else if b.len() < 2 + needed {
        (None, b)
    } else {
        (Some(b.take(2 + needed)), b.skip(2 + needed))
    }
}

proof fn lemma_find_escape(buf: Seq<u8>, from: int)
    requires
        0 <= from,
    ensures
        find_escape(buf, from) matches Some(i) ==> from <= i < buf.len() && buf[i] == 0x1a,
    decreases buf.len() - from,
{
    if from < buf.len() && buf[from] != 0x1a {
        lemma_find_escape(buf, from + 1);
    }
}

proof fn lemma_scan_bounds(buf: Seq<u8>, pos: int, count: int, needed: int)
    requires
        0 <= pos <= buf.len(),
    ensures
        scan_escaped(buf, pos, count, needed) matches BodyScan::Complete(p) ==> pos <= p <= buf.len(),
        scan_escaped(buf, pos, count, needed) matches BodyScan::Truncated(p) ==> pos <= p < buf.len(),
    decreases needed - count,
{
    if count < needed && pos < buf.len() {
        if buf[pos] == 0x1a {
            if pos + 1 < buf.len() && buf[pos + 1] == 0x1a {
                lemma_scan_bounds(buf, pos + 2, count + 1, needed);
            }
        } else {
            lemma_scan_bounds(buf, pos + 1, count + 1, needed);
        }
    }
}

/// `s` as it goes on the wire: every 0x1a doubled.
pub open spec fn escaped(s: Seq<u8>) -> Seq<u8>
    decreases s.len(),
{
    if s.len() == 0 {
        Seq::empty()
    } else {
        (if s[0] == 0x1a {
            seq![0x1au8, 0x1au8]
        } else {
            seq![s[0]]
        }) + escaped(s.drop_first())
    }
}

proof fn lemma_scan_escaped_body(w: Seq<u8>, pos: int, body: Seq<u8>, count: int, needed: int)
    requires
        0 <= pos,
        pos + escaped(body).len() <= w.len(),
        w.subrange(pos, pos + escaped(body).len()) == escaped(body),
        count + body.len() == needed,
    ensures
        scan_escaped(w, pos, count, needed) == BodyScan::Complete(pos + escaped(body).len()),
    decreases body.len(),
{
    if body.len() > 0 {
        let rest = body.drop_first();
        let e = escaped(body);
        let er = escaped(rest);
        let head_len: int = if body[0] == 0x1a {
            2
        } else {
            1
        };
        assert(e.len() == head_len + er.len());
        assert(w[pos] == e[0]);
        if body[0] == 0x1a {
            assert(w[pos + 1] == e[1]);
        }
        assert(w.subrange(pos + head_len, pos + head_len + er.len()) =~= er) by {
            assert forall|k: int| 0 <= k < er.len() implies w.subrange(
                pos + head_len,
                pos + head_len + er.len(),
            )[k] == er[k] by {
                assert(w[pos + head_len + k] == w.subrange(pos, pos + e.len())[head_len + k]);
                assert(e[head_len + k] == er[k]);
            }
        }
        lemma_scan_escaped_body(w, pos + head_len, rest, count + 1, needed);
    }
}

/// The number of body bytes (timestamp, signal, message) of a Mode A/C
/// (0x31), Mode-S short (0x32) or Mode-S long (0x33) frame: 6 + 1 + 2,
/// 6 + 1 + 7 and 6 + 1 + 14.
pub open spec fn mode_frame_body(type_byte: u8) -> int {
    if type_byte == 0x31 {
        9
    } else if type_byte == 0x32 {
        14
    } else {
        21
    }
}

/// A Mode A/C or Mode-S frame on the wire (0x1a, the type byte, then the
/// six timestamp bytes, the signal byte and the 2, 7 or 14 message bytes,
/// every 0x1a doubled) is framed whole: `next_frame` gives exactly those
/// wire bytes and leaves what follows them.
pub proof fn lemma_mode_frame_whole(type_byte: u8, ts: Seq<u8>, signal: u8, msg: Seq<u8>, rest: Seq<u8>)
    requires
        type_byte == 0x31 || type_byte == 0x32 || type_byte == 0x33,
        ts.len() == 6,
        ts.len() + 1 + msg.len() == mode_frame_body(type_byte),
    ensures
        ({
            let wire = seq![0x1au8, type_byte] + escaped(ts.push(signal) + msg);
            frame_step(wire + rest) == (Some(wire), rest)
        }),
{
    let body = ts.push(signal) + msg;
    let wire = seq![0x1au8, type_byte] + escaped(body);
    let w = wire + rest;
    assert(w[0] == 0x1a);
    assert(find_escape(w, 0) == Some(0int));
    assert(w.skip(0) =~= w);
    assert(w[1] == type_byte);
    let ft = frame_type_of(type_byte).unwrap();
    assert(body_length(ft) == body.len());
    assert(w.subrange(2, 2 + escaped(body).len() as int) =~= escaped(body));
    lemma_scan_escaped_body(w, 2, body, 0, body.len() as int);
    assert(w.take(wire.len() as int) =~= wire);
    assert(w.skip(wire.len() as int) =~= rest);
    assert(is_escaped(ft));
    assert(scan_escaped(w, 2, 0, body_length(ft) as int) == BodyScan::Complete(wire.len() as int));
    assert(frame_body_step(w, ft) == (Some(wire), rest));
    assert(frame_step_at(w, 0) == frame_body_step(w.skip(0), ft));
    assert(frame_step(w) == frame_step_at(w, 0));
}

/// The body sizes of the other frame types: configuration (0x34) 21 bytes,
/// extended (0x35) 22, receiver id (0xe3) 8, UUID (0xe4) 36.
pub open spec fn other_frame_body(type_byte: u8) -> int {
    if type_byte == 0x34 {
        21
    } else if type_byte == 0x35 {
        22
    } else if type_byte == 0xe3 {
        8
    } else {
        36
    }
}

/// A configuration, extended or receiver-id frame on the wire (its body
/// with every 0x1a doubled), or a UUID frame (body as is), is framed whole.
pub proof fn lemma_other_frame_whole(type_byte: u8, body: Seq<u8>, rest: Seq<u8>)
    requires
        type_byte == 0x34 || type_byte == 0x35 || type_byte == 0xe3 || type_byte == 0xe4,
        body.len() == other_frame_body(type_byte),
    ensures
        ({
            let wire = seq![0x1au8, type_byte] + if type_byte == 0xe4 {
                body
            } else {
                escaped(body)
            };
            frame_step(wire + rest) == (Some(wire), rest)
        }),
{
    let wire = seq![0x1au8, type_byte] + if type_byte == 0xe4 {
        body
    } else {
        escaped(body)
    };
    let w = wire + rest;
    assert(w[0] == 0x1a);
    assert(find_escape(w, 0) == Some(0int));
    assert(w.skip(0) =~= w);
    assert(w[1] == type_byte);
    let ft = frame_type_of(type_byte).unwrap();
    assert(body_length(ft) == body.len());
    assert(w.take(wire.len() as int) =~= wire);
    assert(w.skip(wire.len() as int) =~= rest);
    if type_byte != 0xe4 {
        assert(w.subrange(2, 2 + escaped(body).len() as int) =~= escaped(body));
        lemma_scan_escaped_body(w, 2, body, 0, body.len() as int);
        assert(is_escaped(ft));
        assert(scan_escaped(w, 2, 0, body_length(ft) as int) == BodyScan::Complete(wire.len() as int));
    }
    assert(frame_body_step(w, ft) == (Some(wire), rest));
    assert(frame_step_at(w, 0) == frame_body_step(w.skip(0), ft));
    assert(frame_step(w) == frame_step_at(w, 0));
}

/// A frame taken out of the buffer leaves it strictly shorter.
pub proof fn lemma_frame_step_shrinks(buf: Seq<u8>)
    ensures
        frame_step(buf).0 is Some ==> frame_step(buf).1.len() < buf.len(),
    decreases buf.len(), 2int,
{
    lemma_find_escape(buf, 0);
    match find_escape(buf, 0) {
        None => {},
        Some(start) => lemma_frame_step_at_shrinks(buf, start),
    }
}

proof fn lemma_frame_step_at_shrinks(buf: Seq<u8>, start: int)
    requires
        0 <= start < buf.len(),
    ensures
        frame_step_at(buf, start).0 is Some ==> frame_step_at(buf, start).1.len() < buf.len(),
    decreases buf.len(), 1int,
{
    if start + 1 < buf.len() {
        match frame_type_of(buf[start + 1]) {
            None => lemma_frame_step_shrinks(buf.skip(start + 2)),
            Some(ft) => lemma_frame_body_step_shrinks(buf.skip(start), ft),
        }
    }
}

proof fn lemma_frame_body_step_shrinks(b: Seq<u8>, ft: FrameType)
    ensures
        frame_body_step(b, ft).0 is Some ==> frame_body_step(b, ft).1.len() < b.len(),
    decreases b.len(), 0int,
{
    let needed = body_length(ft) as int;
    if is_escaped(ft) {
        match scan_escaped(b, 2, 0, needed) {
            BodyScan::Truncated(p) => if 2 <= p <= b.len() {
                lemma_frame_step_shrinks(b.skip(p));
            },
            _ => {},
        }
    }
}

/// Streaming Beast frame parser.
pub struct BeastFramer {
    buf: BytesMut,
}

impl View for BeastFramer {
    type V = Seq<u8>;

    /// The bytes received and not yet framed or dropped.
    closed spec fn view(&self) -> Seq<u8> {
        bytes_mut_contents(self.buf)
    }
}

impl BeastFramer {
    /// An empty framer.
    pub fn new() -> (f: Self)
        ensures
            f@ == Seq::<u8>::empty(),
    {
        Self { buf: bytes_mut_with_capacity(8192) }
    }

    /// How many bytes are held.
    pub fn len(&self) -> (n: usize)
        ensures
            n == self@.len(),
    {
        bytes_mut_len(&self.buf)
    }

    /// Appends received bytes.
    pub fn push(&mut self, data: &[u8])
        requires
            old(self)@.len() + data@.len() <= isize::MAX,
        ensures
            final(self)@ == old(self)@ + data@,
    {
        bytes_mut_put_slice(&mut self.buf, data);
    }

    /// Extracts the next complete frame as raw wire bytes (including 0x1a + type).
    pub fn next_frame(&mut self) -> (r: Option<Bytes>)
        ensures
            frame_step(old(self)@) == (
            match r {
                Some(b) => Some(bytes_contents(b)),
                None => None,
            },
            final(self)@,
            ),
    {
        loop
            invariant
                frame_step(old(self)@) == frame_step(self@),
            decreases self@.len(),
        {
            let len = bytes_mut_len(&self.buf);
            let ghost cur = self@;
            let mut start: usize = 0;
            while start < len && bytes_mut_at(&self.buf, start) != BEAST_ESCAPE
                invariant
                    len == cur.len(),
                    self@ == cur,
                    start <= len,
                    find_escape(cur, 0) == find_escape(cur, start as int),
                decreases len - start,
            {
                start += 1;
            }
            if start >= len {
                assert(find_escape(cur, start as int) == None::<int>);
                return None;
            }
            assert(find_escape(cur, 0) == Some(start as int));
            assert(frame_step(cur) == frame_step_at(cur, start as int));
            if start + 1 >= len {
                if start > 0 {
                    let _ = bytes_mut_split_to(&mut self.buf, start);
                }
                assert(cur.skip(0) =~= cur);
                return None;
            }
            let type_byte = bytes_mut_at(&self.buf, start + 1);
            let frame_type = match FrameType::from_byte(type_byte) {
                Some(ft) => ft,
                None => {
                    let _ = bytes_mut_split_to(&mut self.buf, start + 2);
                    continue ;
                },
            };
            if start > 0 {
                let _ = bytes_mut_split_to(&mut self.buf, start);
            }
            assert(cur.skip(0) =~= cur);
            let ghost b = self@;
            assert(b == cur.skip(start as int));
            assert(cur[start + 1] == type_byte);
            assert(frame_step(cur) == frame_body_step(b, frame_type));
            let needed = frame_type.body_len();
            let len = bytes_mut_len(&self.buf);
            let mut wire_pos: usize = 2;
            let mut count: usize = 0;
            if frame_type.has_escaping() {
                let mut truncated = false;
                while count < needed
                    invariant_except_break
                        !truncated,
                    invariant
                        frame_step(old(self)@) == frame_body_step(b, frame_type),
                        is_escaped(frame_type),
                        self@ == b,
                        len == b.len(),
                        len >= 2,
                        2 <= wire_pos <= len,
                        count <= needed,
                        needed == body_length(frame_type),
                        scan_escaped(b, 2, 0, needed as int) == scan_escaped(
                            b,
                            wire_pos as int,
                            count as int,
                            needed as int,
                        ),
                    ensures
                        self@ == b,
                        2 <= wire_pos <= len,
                        truncated ==> scan_escaped(b, 2, 0, needed as int) == BodyScan::Truncated(
                            wire_pos as int,
                        ),
                        !truncated ==> scan_escaped(b, 2, 0, needed as int) == BodyScan::Complete(
                            wire_pos as int,
                        ),
                    decreases needed - count,
                {
                    if wire_pos >= len {
                        assert(scan_escaped(b, 2, 0, needed as int) == BodyScan::NeedMore);
                        return None;
                    }
                    if bytes_mut_at(&self.buf, wire_pos) == BEAST_ESCAPE {
                        if wire_pos + 1 >= len {
                            assert(scan_escaped(b, 2, 0, needed as int) == BodyScan::NeedMore);
                            return None;
                        }
                        if bytes_mut_at(&self.buf, wire_pos + 1) == BEAST_ESCAPE {
                            wire_pos += 2;
                            count += 1;
                        } else {
                            truncated = true;
                            assert(scan_escaped(b, 2, 0, needed as int) == BodyScan::Truncated(
                                wire_pos as int,
                            ));
                            break;
                        }
                    } else {
                        wire_pos += 1;
                        count += 1;
                    }
                }
                if truncated {
                    let _ = bytes_mut_split_to(&mut self.buf, wire_pos);
                    continue ;
                }
            } else {
                if len < 2 + needed {
                    return None;
                }
                wire_pos = 2 + needed;
                count = needed;
            }
            let frame = bytes_mut_split_to(&mut self.buf, wire_pos);
            return Some(bytes_mut_freeze(frame));
        }
    }
}

/// Byte `i` (0 = least significant) of a receiver id.
pub open spec fn id_byte(id: u64, i: u64) -> u8 {
    ((id >> (i * 8)) & 0xff) as u8
}

/// A body byte as it goes on the wire: 0x1a is doubled.
pub open spec fn escape_byte(b: u8) -> Seq<u8> {
    if b == 0x1a {
        seq![b, b]
    } else {
        seq![b]
    }
}

/// The first `k` body bytes of a receiver-id frame, most significant first, escaped.
pub open spec fn e3_body(id: u64, k: nat) -> Seq<u8>
    decreases k,
{
    if k == 0 {
        Seq::empty()
    } else {
        e3_body(id, (k - 1) as nat) + escape_byte(id_byte(id, (8 - k) as u64))
    }
}

/// The wire encoding of a receiver-id frame: 0x1a 0xe3 and the eight id bytes,
/// big-endian, with 0x1a doubled.
pub open spec fn e3_encoding(id: u64) -> Seq<u8> {
    seq![0x1au8, 0xe3u8] + e3_body(id, 8)
}

/// Encodes 0x1a 0xe3 followed by the 8-byte receiver id with escape doubling.
pub fn encode_e3_prefix(recv_id: u64) -> (r: Bytes)
    ensures
        bytes_contents(r) == e3_encoding(recv_id),
{
    let mut out = bytes_mut_with_capacity(18);
    bytes_mut_put_u8(&mut out, BEAST_ESCAPE);
    bytes_mut_put_u8(&mut out, 0xe3);
    let mut k: u64 = 0;
    while k < 8
        invariant
            k <= 8,
            bytes_mut_contents(out) == seq![0x1au8, 0xe3u8] + e3_body(recv_id, k as nat),
            e3_body(recv_id, k as nat).len() <= 2 * k,
        decreases 8 - k,
    {
        let i = 7 - k;
        let b = ((recv_id >> (i * 8)) & 0xff) as u8;
        bytes_mut_put_u8(&mut out, b);
        if b == BEAST_ESCAPE {
            bytes_mut_put_u8(&mut out, BEAST_ESCAPE);
        }
        k += 1;
        assert(bytes_mut_contents(out) =~= seq![0x1au8, 0xe3u8] + e3_body(recv_id, k as nat));
    }
    bytes_mut_freeze(out)
}

/// The id bytes above byte `8 - k`, i.e. the value after reading `k` bytes.
pub open spec fn id_prefix(id: u64, k: nat) -> u64 {
    if k == 0 {
        0
    } else {
        id >> (((8 - k) as u64) * 8)
    }
}

proof fn lemma_e3_body_extends(id: u64, k: nat, m: nat)
    requires
        k <= m,
    ensures
        e3_body(id, m).len() >= e3_body(id, k).len(),
        e3_body(id, m).take(e3_body(id, k).len() as int) == e3_body(id, k),
    decreases m - k,
{
    if k < m {
        lemma_e3_body_extends(id, k, (m - 1) as nat);
        assert(e3_body(id, m).take(e3_body(id, k).len() as int) =~= e3_body(id, (m - 1) as nat).take(
            e3_body(id, k).len() as int,
        ));
    } else {
        assert(e3_body(id, m).take(e3_body(id, k).len() as int) =~= e3_body(id, k));
    }
}

proof fn lemma_id_prefix_step(id: u64, k: nat)
    requires
        k < 8,
    ensures
        (id_prefix(id, k) << 8u64) | (id_byte(id, (7 - k) as u64) as u64) == id_prefix(id, k + 1),
{
    let s: u64 = ((7 - k) * 8) as u64;
    if k == 0 {
        assert(((0u64 << 8u64) | ((((id >> 56u64) & 0xff) as u8) as u64)) == id >> 56u64)
            by (bit_vector);
    } else {
        assert(s <= 48);
        assert(((id >> (s + 8)) << 8u64) | ((((id >> s) & 0xff) as u8) as u64) == id >> s)
            by (bit_vector)
            requires
                s <= 48u64,
        ;
        assert(((8 - k) as u64) * 8 == s + 8);
    }
}

/// Where the encoding of the first `k` id bytes ends, and the body that follows it.
proof fn lemma_e3_next_byte(id: u64, rest: Seq<u8>, k: nat)
    requires
        k < 8,
    ensures
        ({
            let w = e3_encoding(id) + rest;
            let p = 2 + e3_body(id, k).len() as int;
            let b = id_byte(id, (7 - k) as u64);
            &&& p < w.len()
            &&& w[p] == b
            &&& b == 0x1a ==> p + 1 < w.len() && w[p + 1] == 0x1a
            &&& 2 + e3_body(id, k + 1).len() == p + escape_byte(b).len()
        }),
{
    let w = e3_encoding(id) + rest;
    let p = 2 + e3_body(id, k).len() as int;
    let b = id_byte(id, (7 - k) as u64);
    lemma_e3_body_extends(id, k + 1, 8);
    let body1 = e3_body(id, k + 1);
    assert(body1 == e3_body(id, k) + escape_byte(b));
    assert(e3_body(id, 8).take(body1.len() as int) == body1);
    assert(w[p] == e3_body(id, 8)[p - 2]);
    assert(body1[p - 2] == b);
    if b == 0x1a {
        assert(body1[p - 1] == 0x1a);
        assert(w[p + 1] == e3_body(id, 8)[p - 1]);
    }
}

proof fn lemma_parse_e3_from(id: u64, rest: Seq<u8>, k: nat)
    requires
        k <= 8,
    ensures
        parse_id_from(
            e3_encoding(id) + rest,
            2 + e3_body(id, k).len() as int,
            (8 - k) as nat,
            id_prefix(id, k),
        ) == Some(id),
    decreases 8 - k,
{
    if k == 8 {
        assert(id >> 0u64 == id) by (bit_vector);
    } else {
        lemma_e3_next_byte(id, rest, k);
        lemma_id_prefix_step(id, k);
        lemma_parse_e3_from(id, rest, k + 1);
    }
}

proof fn lemma_scan_e3_from(id: u64, rest: Seq<u8>, k: nat)
    requires
        k <= 8,
    ensures
        scan_escaped(e3_encoding(id) + rest, 2 + e3_body(id, k).len() as int, k as int, 8) == BodyScan::Complete(
            2 + e3_body(id, 8).len() as int,
        ),
    decreases 8 - k,
{
    if k < 8 {
        lemma_e3_next_byte(id, rest, k);
        lemma_scan_e3_from(id, rest, k + 1);
    }
}

/// Reading back a receiver-id frame: whatever follows it on the wire,
/// `parse_receiver_id` recovers the id that `encode_e3_prefix` wrote, and the
/// framer delivers exactly the encoded frame and leaves what follows.
pub proof fn lemma_e3_roundtrip(id: u64, rest: Seq<u8>)
    ensures
        receiver_id_of(e3_encoding(id) + rest) == Some(id),
        frame_step(e3_encoding(id) + rest) == (Some(e3_encoding(id)), rest),
{
    let w = e3_encoding(id) + rest;
    lemma_parse_e3_from(id, rest, 0);
    assert(e3_body(id, 0).len() == 0);
    lemma_scan_e3_from(id, rest, 0);
    assert(find_escape(w, 0) == Some(0int));
    assert(frame_type_of(w[1]) == Some(FrameType::ReceiverID));
    assert(w.skip(0) =~= w);
    let p = 2 + e3_body(id, 8).len() as int;
    assert(w.take(p) =~= e3_encoding(id));
    assert(w.skip(p) =~= rest);
    assert(scan_escaped(w.skip(0), 2, 0, 8) == BodyScan::Complete(p));
    assert(frame_body_step(w.skip(0), FrameType::ReceiverID) == (Some(e3_encoding(id)), rest));
    assert(frame_step_at(w, 0) == (Some(e3_encoding(id)), rest));
}

/// Parses the id starting at wire position `pos` after `k` more id bytes,
/// given the bytes `acc` read so far. A 0x1a byte skips the byte after it.
pub open spec fn parse_id_from(wire: Seq<u8>, pos: int, k: nat, acc: u64) -> Option<u64>
    decreases k,
{
    if k == 0 {
        Some(acc)
    } else if pos < 0 || pos >= wire.len() {
        None
    } else if wire[pos] == 0x1a {
        if pos + 1 >= wire.len() {
            None
        } else {
            parse_id_from(wire, pos + 2, (k - 1) as nat, (acc << 8u64) | (wire[pos] as u64))
        }
    } else {
        parse_id_from(wire, pos + 1, (k - 1) as nat, (acc << 8u64) | (wire[pos] as u64))
    }
}

/// The receiver id a 0xe3 frame carries, if `wire` starts with 0x1a 0xe3 and
/// holds all eight id bytes.
pub open spec fn receiver_id_of(wire: Seq<u8>) -> Option<u64> {
    if wire.len() < 2 || wire[0] != 0x1a || wire[1] != 0xe3 {
        None
    } else {
        parse_id_from(wire, 2, 8, 0)
    }
}

/// Parses the receiver id from a 0xe3 frame (0x1a 0xe3 then 8 escaped bytes).
pub fn parse_receiver_id(wire: &[u8]) -> (r: Option<u64>)
    ensures
        r == receiver_id_of(wire@),
{
    if wire.len() < 2 || wire[0] != BEAST_ESCAPE || wire[1] != 0xe3 {
        return None;
    }
    let mut id: u64 = 0;
    let mut pos: usize = 2;
    let mut k: usize = 0;
    while k < 8
        invariant
            k <= 8,
            2 <= pos <= wire@.len(),
            pos <= 2 + 2 * k,
            receiver_id_of(wire@) == parse_id_from(wire@, pos as int, (8 - k) as nat, id),
        decreases 8 - k,
    {
        if pos >= wire.len() {
            return None;
        }
        let b = wire[pos];
        pos += 1;
        if b == BEAST_ESCAPE {
            if pos >= wire.len() {
                return None;
            }
            pos += 1;
        }
        id = id << 8 | b as u64;
        k += 1;
    }
    Some(id)
}

/// Extracts the UUID text of a 0xe4 frame: the 36 bytes after 0x1a 0xe4,
/// when they are valid UTF-8.
pub fn parse_uuid_frame(wire: &[u8]) -> (r: Option<&str>)
    ensures
        wire@.len() < 38 || wire@[0] != 0x1a || wire@[1] != 0xe4 ==> r is None,
        wire@.len() >= 38 && wire@[0] == 0x1a && wire@[1] == 0xe4 ==> (r is Some <==> valid_utf8(
            wire@.subrange(2, 38),
        )),
        r matches Some(s) ==> s.spec_bytes() == wire@.subrange(2, 38),
{
    if wire.len() < 38 || wire[0] != BEAST_ESCAPE || wire[1] != 0xe4 {
        return None;
    }
    str_from_utf8(slice_subrange(wire, 2, 38))
}

/// `std::str::from_utf8`: the text whose UTF-8 encoding is `bytes`, when
/// `bytes` is valid UTF-8 (`Err` is turned into `None`).
#[verifier::external_body]
fn str_from_utf8(bytes: &[u8]) -> (r: Option<&str>)
    ensures
        r is Some <==> valid_utf8(bytes@),
        r matches Some(s) ==> s.spec_bytes() == bytes@,
{
    std::str::from_utf8(bytes).ok()
}

} // verus!
