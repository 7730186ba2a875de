//! Per-feeder connection state: frames the raw Beast stream, takes the
//! feeder's identity from UUID or receiver-id frames, rate-limits, and routes
//! each frame to the clean or the garbage output.
use std::time::Instant;
use vstd::prelude::*;
use vstd::string::StringSliceAdditionalSpecFns;
use vstd::utf8::encode_utf8;
use crate::beast::{
    BeastFramer, FrameType, encode_e3_prefix, parse_uuid_frame, parse_receiver_id, frame_step,
    frame_type_of, receiver_id_of, e3_encoding, lemma_frame_step_shrinks,
};
use crate::buffers::{bytes_to_vec, bytes_contents};
use crate::clock::{instant_now, nanos_since};
use crate::receiver::{uuid_to_receiver_id, is_valid_uuid, receiver_id_from_uuid, uuid_text_ok};

verus! {

/// Frames per second above which a feeder's output is routed as garbage.
pub const RATE_LIMIT: u64 = 5420;

/// Length of a rate-measuring window, in seconds.
pub const RATE_WINDOW_SECS: u64 = 2;

/// A rate window in nanoseconds.
pub const RATE_WINDOW_NS: u128 = 2_000_000_000;

/// The frames `frame_step` extracts one after another from `buf`, and the
/// bytes left when it extracts none.
pub open spec fn frames_of(buf: Seq<u8>) -> (Seq<Seq<u8>>, Seq<u8>)
    decreases buf.len(),
{
    match frame_step(buf) {
        (Some(f), rest) => if rest.len() < buf.len() {
            let (fs, left) = frames_of(rest);
            (seq![f] + fs, left)
        } else {
            (seq![f], rest)
        },
        (None, rest) => (Seq::empty(), rest),
    }
}

/// The connection state as plain values (`uuid` as its UTF-8 bytes).
pub struct ClientModel {
    pub uuid: Option<Seq<u8>>,
    pub receiver_id: u64,
    pub id_locked: bool,
    pub garbage: bool,
    pub msg_count: u64,
    pub bytes_recv: u64,
    pub buffered: Seq<u8>,
    pub rate_count: u64,
    pub rate_reset: u128,
    pub e3_prefix: Option<Seq<u8>>,
}

/// One routed frame: counted, and at the end of a rate window the window's
/// mean rate decides whether the feeder is garbage.
pub open spec fn rate_checked(s: ClientModel, now: u128) -> ClientModel {
    let count = (s.rate_count + 1) as u64;
    let s1 = ClientModel { msg_count: (s.msg_count + 1) as u64, rate_count: count, ..s };
    if now >= s.rate_reset {
        ClientModel {
            garbage: count / RATE_WINDOW_SECS > RATE_LIMIT,
            rate_count: 0,
            rate_reset: if now <= u128::MAX - RATE_WINDOW_NS {
                (now + RATE_WINDOW_NS) as u128
            } else {
                u128::MAX
            },
            ..s1
        }
    } else {
        s1
    }
}

/// The UUID text bytes of a 0xe4 frame, when present and valid UTF-8.
pub open spec fn uuid_frame_text(f: Seq<u8>) -> Option<Seq<u8>> {
    if f.len() >= 38 && f[0] == 0x1a && f[1] == 0xe4 && vstd::utf8::valid_utf8(f.subrange(2, 38)) {
        Some(f.subrange(2, 38))
    } else {
        None
    }
}

/// One frame through the connection state: the state after and the
/// (bytes, garbage) pairs emitted. A UUID frame of an unlocked feeder with a
/// valid UUID locks its identity (and, when prepending, its 0xe3 prefix) and
/// is not forwarded; a receiver-id frame locks an unlocked feeder's id and
/// prefix and is forwarded as is; any other frame is forwarded, after the
/// 0xe3 prefix when prepending and a prefix is set. Frames under 2 bytes are
/// skipped.
pub open spec fn route_frame(s: ClientModel, f: Seq<u8>, prepend: bool, now: u128) -> (
    ClientModel,
    Seq<(Seq<u8>, bool)>,
) {
    if f.len() < 2 {
        (s, Seq::empty())
    } else {
        match frame_type_of(f[1]) {
            Some(FrameType::UUID) => {
                let s1 = match uuid_frame_text(f) {
                    Some(u) => if !s.id_locked && uuid_text_ok(u) {
                        ClientModel {
                            receiver_id: receiver_id_from_uuid(u),
                            uuid: Some(u),
                            id_locked: true,
                            e3_prefix: if prepend {
                                Some(e3_encoding(receiver_id_from_uuid(u)))
                            } else {
                                s.e3_prefix
                            },
                            ..s
                        }
                    } else {
                        s
                    },
                    None => s,
                };
                (s1, Seq::empty())
            },
            Some(FrameType::ReceiverID) => {
                let s1 = match receiver_id_of(f) {
                    Some(id) => if !s.id_locked {
                        ClientModel {
                            receiver_id: id,
                            id_locked: true,
                            e3_prefix: Some(e3_encoding(id)),
                            ..s
                        }
                    } else {
                        s
                    },
                    None => s,
                };
                let s2 = rate_checked(s1, now);
                (s2, seq![(f, s2.garbage)])
            },
            _ => {
                let s2 = rate_checked(s, now);
                let head = if prepend && s2.e3_prefix is Some {
                    seq![(s2.e3_prefix.unwrap(), s2.garbage)]
                } else {
                    Seq::empty()
                };
                (s2, head + seq![(f, s2.garbage)])
            },
        }
    }
}

/// The first `n` frames through the connection state.
pub open spec fn route_frames(s: ClientModel, fs: Seq<Seq<u8>>, n: nat, prepend: bool, now: u128) -> (
    ClientModel,
    Seq<(Seq<u8>, bool)>,
)
    decreases n,
{
    if n == 0 {
        (s, Seq::empty())
    } else {
        let (s1, out1) = route_frames(s, fs, (n - 1) as nat, prepend, now);
        let (s2, out2) = route_frame(s1, fs[n - 1], prepend, now);
        (s2, out1 + out2)
    }
}

/// Received bytes through the connection: counted, buffered, framed, and
/// every complete frame routed.
pub open spec fn feed_step(s: ClientModel, data: Seq<u8>, prepend: bool, now: u128) -> (
    ClientModel,
    Seq<(Seq<u8>, bool)>,
) {
    let (fs, left) = frames_of(s.buffered + data);
    let s0 = ClientModel { bytes_recv: (s.bytes_recv + data.len()) as u64, buffered: left, ..s };
    route_frames(s0, fs, fs.len(), prepend, now)
}

/// A data frame (neither a UUID nor a receiver-id frame) is forwarded
/// unchanged, preceded by the feeder's 0xe3 prefix when prepending and a
/// prefix is known, and every piece carries the feeder's garbage flag.
pub proof fn lemma_data_frame_forwarded(s: ClientModel, f: Seq<u8>, prepend: bool, now: u128)
    requires
        f.len() >= 2,
        !(frame_type_of(f[1]) matches Some(FrameType::UUID)),
        !(frame_type_of(f[1]) matches Some(FrameType::ReceiverID)),
    ensures
        ({
            let (s2, out) = route_frame(s, f, prepend, now);
            &&& out.len() == if prepend && s.e3_prefix is Some {
                2int
            } else {
                1int
            }
            &&& out.last() == (f, s2.garbage)
            &&& prepend && s.e3_prefix is Some ==> out[0] == (s.e3_prefix.unwrap(), s2.garbage)
            &&& s2.e3_prefix == s.e3_prefix
            &&& s2.receiver_id == s.receiver_id
        }),
{
}

/// A UUID frame is never forwarded, whatever the state.
pub proof fn lemma_uuid_frame_not_forwarded(s: ClientModel, f: Seq<u8>, prepend: bool, now: u128)
    requires
        f.len() >= 2,
        frame_type_of(f[1]) matches Some(FrameType::UUID),
    ensures
        route_frame(s, f, prepend, now).1 == Seq::<(Seq<u8>, bool)>::empty(),
{
}

/// Routing frames keeps the byte count and the buffered bytes, and keeps a
/// locked identity (receiver id, UUID, 0xe3 prefix) as it is.
proof fn lemma_route_frames_keeps(s: ClientModel, fs: Seq<Seq<u8>>, n: nat, prepend: bool, now: u128)
    ensures
        ({
            let r = route_frames(s, fs, n, prepend, now).0;
            &&& r.bytes_recv == s.bytes_recv
            &&& r.buffered == s.buffered
            &&& s.id_locked ==> {
                &&& r.id_locked
                &&& r.receiver_id == s.receiver_id
                &&& r.uuid == s.uuid
                &&& r.e3_prefix == s.e3_prefix
            }
        }),
    decreases n,
{
    if n > 0 {
        lemma_route_frames_keeps(s, fs, (n - 1) as nat, prepend, now);
    }
}

/// Feeding bytes adds exactly their number to the byte count; once the
/// feeder's identity is locked, its receiver id, UUID and 0xe3 prefix
/// never change again.
pub proof fn lemma_feed_keeps_locked_identity(s: ClientModel, data: Seq<u8>, prepend: bool, now: u128)
    requires
        s.bytes_recv + data.len() <= u64::MAX,
    ensures
        ({
            let s2 = feed_step(s, data, prepend, now).0;
            &&& s2.bytes_recv == s.bytes_recv + data.len()
            &&& s2.buffered == frames_of(s.buffered + data).1
            &&& s.id_locked ==> {
                &&& s2.id_locked
                &&& s2.receiver_id == s.receiver_id
                &&& s2.uuid == s.uuid
                &&& s2.e3_prefix == s.e3_prefix
            }
        }),
{
    let (fs, left) = frames_of(s.buffered + data);
    let s0 = ClientModel { bytes_recv: (s.bytes_recv + data.len()) as u64, buffered: left, ..s };
    lemma_route_frames_keeps(s0, fs, fs.len(), prepend, now);
}

/// Once the identity is locked, the 0xe3 prefix is that of the receiver id.
pub open spec fn prefix_matches_id(s: ClientModel) -> bool {
    s.id_locked ==> s.e3_prefix == Some(e3_encoding(s.receiver_id))
}

proof fn lemma_route_frames_prefix(s: ClientModel, fs: Seq<Seq<u8>>, n: nat, now: u128)
    requires
        prefix_matches_id(s),
    ensures
        prefix_matches_id(route_frames(s, fs, n, true, now).0),
    decreases n,
{
    if n > 0 {
        lemma_route_frames_prefix(s, fs, (n - 1) as nat, now);
    }
}

/// A feeder always fed with prepending keeps, once its identity is
/// locked, the 0xe3 prefix of its receiver id; with the data-frame law
/// above, every data frame it forwards then comes right after that prefix.
pub proof fn lemma_feed_keeps_prefix(s: ClientModel, data: Seq<u8>, now: u128)
    requires
        prefix_matches_id(s),
    ensures
        prefix_matches_id(feed_step(s, data, true, now).0),
{
    let (fs, left) = frames_of(s.buffered + data);
    let s0 = ClientModel { bytes_recv: (s.bytes_recv + data.len()) as u64, buffered: left, ..s };
    lemma_route_frames_prefix(s0, fs, fs.len(), now);
}

/// A frame that routing passes on: two bytes or more, and no UUID frame.
pub open spec fn forwarded_frame(f: Seq<u8>) -> bool {
    f.len() >= 2 && !(frame_type_of(f[1]) matches Some(FrameType::UUID))
}

proof fn lemma_route_frames_forwards(s: ClientModel, fs: Seq<Seq<u8>>, n: nat, now: u128)
    requires
        n <= fs.len(),
    ensures
        route_frames(s, fs, n, false, now).1.map_values(|p: (Seq<u8>, bool)| p.0) == fs.take(
            n as int,
        ).filter(|f: Seq<u8>| forwarded_frame(f)),
    decreases n,
{
    if n == 0 {
        assert(fs.take(0) =~= Seq::<Seq<u8>>::empty());
        reveal(Seq::filter);
        assert(route_frames(s, fs, 0, false, now).1.map_values(|p: (Seq<u8>, bool)| p.0)
            =~= Seq::<Seq<u8>>::empty());
    } else {
        lemma_route_frames_forwards(s, fs, (n - 1) as nat, now);
        let (s1, out1) = route_frames(s, fs, (n - 1) as nat, false, now);
        let f = fs[n - 1];
        let (s2, out2) = route_frame(s1, f, false, now);
        assert(fs.take(n as int).drop_last() =~= fs.take(n - 1));
        assert(fs.take(n as int).last() == f);
        let m1 = out1.map_values(|p: (Seq<u8>, bool)| p.0);
        let tf = fs.take(n as int).filter(|f: Seq<u8>| forwarded_frame(f));
        let tf1 = fs.take(n - 1).filter(|f: Seq<u8>| forwarded_frame(f));
        assert(fs.take(n as int) =~= fs.take(n - 1).push(f));
        fs.take(n - 1).lemma_filter_push(f, |f: Seq<u8>| forwarded_frame(f));
        if forwarded_frame(f) {
            assert(tf == tf1.push(f));
            assert(out2.len() == 1 && out2[0].0 == f);
            assert((out1 + out2).map_values(|p: (Seq<u8>, bool)| p.0) =~= m1.push(f));
        } else {
            assert(tf == tf1);
            assert(out2 =~= Seq::<(Seq<u8>, bool)>::empty());
            assert((out1 + out2).map_values(|p: (Seq<u8>, bool)| p.0) =~= m1);
        }
    }
}

/// Without prepending, the frames passed on from received bytes are
/// exactly the complete frames of the stream that are no UUID frames (nor
/// under two bytes), unchanged and in stream order.
pub proof fn lemma_feed_forwards_in_order(s: ClientModel, data: Seq<u8>, now: u128)
    ensures
        feed_step(s, data, false, now).1.map_values(|p: (Seq<u8>, bool)| p.0) == frames_of(
            s.buffered + data,
        ).0.filter(|f: Seq<u8>| forwarded_frame(f)),
{
    let (fs, left) = frames_of(s.buffered + data);
    let s0 = ClientModel { bytes_recv: (s.bytes_recv + data.len()) as u64, buffered: left, ..s };
    lemma_route_frames_forwards(s0, fs, fs.len(), now);
    assert(fs.take(fs.len() as int) =~= fs);
}

/// Views of routed frames.
pub open spec fn routed_view(v: Seq<(Vec<u8>, bool)>) -> Seq<(Seq<u8>, bool)> {
    v.map_values(|p: (Vec<u8>, bool)| (p.0@, p.1))
}

/// Per-feeder connection state.
pub struct ClientState {
    pub addr: String,
    pub uuid: Option<String>,
    pub receiver_id: u64,
    pub id_locked: bool,
    pub garbage: bool,
    pub msg_count: u64,
    pub bytes_recv: u64,
    framer: BeastFramer,
    rate_count: u64,
    rate_reset: u128,
    e3_prefix: Option<Vec<u8>>,
    origin: Instant,
}

impl ClientState {
    /// The state as plain values.
    pub closed spec fn model(&self) -> ClientModel {
        ClientModel {
            uuid: match self.uuid {
                Some(u) => Some(encode_utf8(u@)),
                None => None,
            },
            receiver_id: self.receiver_id,
            id_locked: self.id_locked,
            garbage: self.garbage,
            msg_count: self.msg_count,
            bytes_recv: self.bytes_recv,
            buffered: self.framer@,
            rate_count: self.rate_count,
            rate_reset: self.rate_reset,
            e3_prefix: match self.e3_prefix {
                Some(p) => Some(p@),
                None => None,
            },
        }
    }

    /// The peer address.
    pub closed spec fn address(&self) -> Seq<char> {
        self.addr@
    }

    /// A fresh connection from `addr`: nothing known, first rate window
    /// ending 2 s after now.
    pub fn new(addr: String) -> (c: Self)
        ensures
            c.address() == addr@,
            c.model() == (ClientModel {
                uuid: None,
                receiver_id: 0,
                id_locked: false,
                garbage: false,
                msg_count: 0,
                bytes_recv: 0,
                buffered: Seq::empty(),
                rate_count: 0,
                rate_reset: RATE_WINDOW_NS,
                e3_prefix: None,
            }),
    {
        ClientState {
            addr,
            uuid: None,
            receiver_id: 0,
            id_locked: false,
            garbage: false,
            msg_count: 0,
            bytes_recv: 0,
            framer: BeastFramer::new(),
            rate_count: 0,
            rate_reset: RATE_WINDOW_NS,
            e3_prefix: None,
            origin: instant_now(),
        }
    }

    /// Whether feeding `n` more bytes keeps every counter in range.
    pub open spec fn room_for(&self, n: nat) -> bool {
        &&& self.model().bytes_recv + n <= u64::MAX
        &&& self.model().msg_count + self.model().buffered.len() + n <= u64::MAX
        &&& self.model().rate_count + self.model().buffered.len() + n <= u64::MAX
        &&& self.model().buffered.len() + n <= isize::MAX
    }

    /// Tells whether feeding `n` more bytes keeps every counter in range,
    /// the condition `feed` asks of its caller.
    pub fn has_room_for(&self, n: usize) -> (r: bool)
        ensures
            r == self.room_for(n as nat),
    {
        let buffered = self.framer.len() as u128;
        let n = n as u128;
        let max = u64::MAX as u128;
        self.bytes_recv as u128 + n <= max
            && self.msg_count as u128 + buffered + n <= max
            && self.rate_count as u128 + buffered + n <= max
            && buffered + n <= isize::MAX as u128
    }

    /// Feeds received bytes, reading the clock; returns the frames to
    /// forward with their garbage flag, in order.
    pub fn feed(&mut self, data: &[u8], prepend_recv_id: bool) -> (out: Vec<(Vec<u8>, bool)>)
        requires
            old(self).room_for(data@.len()),
        ensures
            final(self).address() == old(self).address(),
            exists|now: u128|
                #[trigger] feed_step(old(self).model(), data@, prepend_recv_id, now) == (
                    final(self).model(),
                    routed_view(out@),
                ),
    {
        let now = nanos_since(&self.origin);
        self.feed_at(data, prepend_recv_id, now)
    }

    /// `feed` with the clock reading `now` (nanoseconds since the
    /// connection was set up).
    pub fn feed_at(&mut self, data: &[u8], prepend_recv_id: bool, now: u128) -> (out: Vec<(Vec<u8>, bool)>)
        requires
            old(self).room_for(data@.len()),
        ensures
            final(self).address() == old(self).address(),
            feed_step(old(self).model(), data@, prepend_recv_id, now) == (
                final(self).model(),
                routed_view(out@),
            ),
    {
        let ghost s0 = self.model();
        self.bytes_recv = self.bytes_recv + data.len() as u64;
        self.framer.push(data);
        let ghost all = s0.buffered + data@;
        let ghost fr = frames_of(all);
        let ghost start = ClientModel {
            bytes_recv: (s0.bytes_recv + data@.len()) as u64,
            buffered: fr.1,
            ..s0
        };
        let mut out: Vec<(Vec<u8>, bool)> = Vec::new();
        let ghost mut k: nat = 0;
        proof {
            assert(fr.0.skip(0) =~= fr.0);
        }
        loop
            invariant_except_break
                frames_of(self.framer@) == (fr.0.skip(k as int), fr.1),
                self.msg_count + self.framer@.len() <= u64::MAX,
                self.rate_count + self.framer@.len() <= u64::MAX,
            invariant
                fr == frames_of(all),
                k <= fr.0.len(),
                self.model() == (ClientModel {
                    buffered: self.framer@,
                    ..route_frames(start, fr.0, k, prepend_recv_id, now).0
                }),
                routed_view(out@) == route_frames(start, fr.0, k, prepend_recv_id, now).1,
                self.addr@ == old(self).addr@,
            ensures
                k == fr.0.len(),
                self.framer@ == fr.1,
            decreases self.framer@.len(),
        {
            let ghost before_buf = self.framer@;
            let next = self.framer.next_frame();
            match next {
                None => {
                    proof {
                        assert(frames_of(before_buf) == (Seq::<Seq<u8>>::empty(), self.framer@));
                        assert(fr.0.skip(k as int).len() == 0);
                    }
                    break;
                },
                Some(b) => {
                    proof {
                        lemma_frame_step_shrinks(before_buf);
                        assert(fr.0.skip(k as int)[0] == bytes_contents(b));
                        assert(fr.0.skip(k as int).drop_first() =~= fr.0.skip((k + 1) as int));
                    }
                    let frame = bytes_to_vec(&b);
                    let ghost out_before = out@;
                    self.route(frame, prepend_recv_id, now, &mut out);
                    proof {
                        assert(routed_view(out@) =~= routed_view(out_before) + route_frame(
                            route_frames(start, fr.0, k, prepend_recv_id, now).0,
                            fr.0[k as int],
                            prepend_recv_id,
                            now,
                        ).1);
                        k = k + 1;
                    }
                },
            }
        }
        proof {
            lemma_route_frames_keep(start, fr.0, k, prepend_recv_id, now);
        }
        out
    }

    /// Routes one frame.
    fn route(&mut self, frame: Vec<u8>, prepend: bool, now: u128, out: &mut Vec<(Vec<u8>, bool)>)
        requires
            old(self).msg_count < u64::MAX,
            old(self).rate_count < u64::MAX,
        ensures
            final(self).model() == route_frame(old(self).model(), frame@, prepend, now).0,
            routed_view(final(out)@) == routed_view(old(out)@) + route_frame(
                old(self).model(),
                frame@,
                prepend,
                now,
            ).1,
            final(self).addr@ == old(self).addr@,
            final(self).framer@ == old(self).framer@,
            final(self).msg_count <= old(self).msg_count + 1,
            final(self).rate_count <= old(self).rate_count + 1,
    {
        let ghost out0 = out@;
        if frame.len() < 2 {
            assert(routed_view(out@) =~= routed_view(out0) + Seq::<(Seq<u8>, bool)>::empty());
            return ;
        }
        let typ = FrameType::from_byte(frame[1]);
        match typ {
            Some(FrameType::UUID) => {
                if !self.id_locked {
                    match parse_uuid_frame(frame.as_slice()) {
                        Some(uuid) => {
                            if is_valid_uuid(uuid) {
                                self.lock_uuid(uuid.to_owned(), prepend);
                            }
                        },
                        None => {},
                    }
                }
                assert(routed_view(out@) =~= routed_view(out0) + Seq::<(Seq<u8>, bool)>::empty());
                return ;
            },
            Some(FrameType::ReceiverID) => {
                match parse_receiver_id(frame.as_slice()) {
                    Some(id) => {
                        if !self.id_locked {
                            self.receiver_id = id;
                            self.id_locked = true;
                            let prefix = encode_e3_prefix(id);
                            self.e3_prefix = Some(bytes_to_vec(&prefix));
                        }
                    },
                    None => {},
                }
                self.rate_check(now);
                let g = self.garbage;
                let ghost fv = frame@;
                out.push((frame, g));
                assert(routed_view(out@) =~= routed_view(out0) + seq![(fv, g)]);
                return ;
            },
            _ => {},
        }
        self.rate_check(now);
        let g = self.garbage;
        if prepend {
            match &self.e3_prefix {
                Some(prefix) => {
                    out.push((prefix.clone(), g));
                },
                None => {},
            }
        }
        let ghost fv = frame@;
        out.push((frame, g));
        assert(routed_view(out@) =~= routed_view(out0) + route_frame(old(self).model(), fv, prepend, now).1);
    }

    /// Counts a routed frame; at the end of a window decides on garbage.
    fn rate_check(&mut self, now: u128)
        requires
            old(self).msg_count < u64::MAX,
            old(self).rate_count < u64::MAX,
        ensures
            final(self).model() == rate_checked(old(self).model(), now),
            final(self).addr@ == old(self).addr@,
            final(self).framer@ == old(self).framer@,
            final(self).e3_prefix == old(self).e3_prefix,
            final(self).msg_count == old(self).msg_count + 1,
            final(self).rate_count <= old(self).rate_count + 1,
    {
        self.msg_count = self.msg_count + 1;
        self.rate_count = self.rate_count + 1;
        if now >= self.rate_reset {
            let rate = self.rate_count / RATE_WINDOW_SECS;
            self.garbage = rate > RATE_LIMIT;
            self.rate_count = 0;
            self.rate_reset = if now <= u128::MAX - RATE_WINDOW_NS {
                now + RATE_WINDOW_NS
            } else {
                u128::MAX
            };
        }
    }

    /// Takes the feeder's identity from a valid UUID.
    fn lock_uuid(&mut self, uuid: String, prepend: bool)
        requires
            uuid_text_ok(encode_utf8(uuid@)),
        ensures
            final(self).model() == (ClientModel {
                receiver_id: receiver_id_from_uuid(encode_utf8(uuid@)),
                uuid: Some(encode_utf8(uuid@)),
                id_locked: true,
                e3_prefix: if prepend {
                    Some(e3_encoding(receiver_id_from_uuid(encode_utf8(uuid@))))
                } else {
                    old(self).model().e3_prefix
                },
                ..old(self).model()
            }),
            final(self).addr@ == old(self).addr@,
            final(self).framer@ == old(self).framer@,
            final(self).msg_count == old(self).msg_count,
            final(self).rate_count == old(self).rate_count,
    {
        self.receiver_id = uuid_to_receiver_id(uuid.as_str());
        self.uuid = Some(uuid);
        self.id_locked = true;
        if prepend {
            let prefix = encode_e3_prefix(self.receiver_id);
            self.e3_prefix = Some(bytes_to_vec(&prefix));
        }
    }
}

/// Routing leaves the counted bytes and the buffered bytes alone.
proof fn lemma_route_frames_keep(s: ClientModel, fs: Seq<Seq<u8>>, n: nat, prepend: bool, now: u128)
    ensures
        route_frames(s, fs, n, prepend, now).0.buffered == s.buffered,
        route_frames(s, fs, n, prepend, now).0.bytes_recv == s.bytes_recv,
    decreases n,
{
    if n > 0 {
        lemma_route_frames_keep(s, fs, (n - 1) as nat, prepend, now);
    }
}

proof fn lemma_frames_of_bound(buf: Seq<u8>)
    ensures
        frames_of(buf).0.len() <= buf.len(),
    decreases buf.len(),
{
    match frame_step(buf) {
        (Some(f), rest) => if rest.len() < buf.len() {
            lemma_frames_of_bound(rest);
        } else {
            lemma_frame_step_shrinks(buf);
        },
        (None, rest) => {},
    }
}

} // verus!
