//! HDLC deframing of the AIS bit stream: NRZI decoding, flag detection,
//! bit unstuffing, CRC-16 check and NMEA sentence output.
use vstd::prelude::*;
use crate::nmea::{aivdm, aivdm_sentence, armored_payload, bits_to_nmea_payload};

verus! {

/// The HDLC flag byte 01111110.
pub const HDLC_FLAG: u8 = 0x7E;

/// One shift of the CRC-16/CCITT register (polynomial 0x1021, MSB first).
pub open spec fn ccitt_shift(c: u16) -> u16 {
    if c & 0x8000u16 != 0 {
        ((c << 1u16) ^ 0x1021u16) as u16
    } else {
        (c << 1u16) as u16
    }
}

/// The register after one byte.
pub open spec fn ccitt_byte(crc: u16, b: u8) -> u16 {
    let c = crc ^ ((b as u16) << 8u16);
    ccitt_shift(
        ccitt_shift(ccitt_shift(ccitt_shift(ccitt_shift(ccitt_shift(ccitt_shift(ccitt_shift(c))))))),
    )
}

/// The register after the first `n` bytes, from 0xFFFF.
pub open spec fn ccitt_register(data: Seq<u8>, n: nat) -> u16
    decreases n,
{
    if n == 0 {
        0xFFFF
    } else {
        ccitt_byte(ccitt_register(data, (n - 1) as nat), data[n - 1])
    }
}

/// CRC-16/CCITT of `data` with initial 0xFFFF and final inversion.
pub open spec fn crc16_of(data: Seq<u8>) -> u16 {
    ccitt_register(data, data.len()) ^ 0xFFFFu16
}

fn ccitt_shift_exec(c: u16) -> (r: u16)
    ensures
        r == ccitt_shift(c),
{
    if c & 0x8000 != 0 {
        (c << 1) ^ 0x1021
    } else {
        c << 1
    }
}

/// CRC-16/CCITT (initial 0xFFFF, final XOR 0xFFFF) of `data`.
pub fn crc16_ccitt(data: &[u8]) -> (crc: u16)
    ensures
        crc == crc16_of(data@),
{
    let mut crc: u16 = 0xFFFF;
    let mut i: usize = 0;
    while i < data.len()
        invariant
            i <= data@.len(),
            crc == ccitt_register(data@, i as nat),
        decreases data@.len() - i,
    {
        let mut c = crc ^ ((data[i] as u16) << 8);
        c = ccitt_shift_exec(c);
        c = ccitt_shift_exec(c);
        c = ccitt_shift_exec(c);
        c = ccitt_shift_exec(c);
        c = ccitt_shift_exec(c);
        c = ccitt_shift_exec(c);
        c = ccitt_shift_exec(c);
        c = ccitt_shift_exec(c);
        crc = c;
        i += 1;
    }
    crc ^ 0xFFFF
}

/// The deframer's state as plain values.
pub struct HdlcModel {
    pub shift_reg: u8,
    pub bit_count: u8,
    pub frame: Seq<u8>,
    pub ones_count: u8,
    pub in_frame: bool,
    pub ok: u64,
    pub fail: u64,
}

/// A completed frame (at least 5 bytes): its last two bytes are the
/// big-endian CRC of the rest. A mismatch counts a failure; a match counts
/// a success and gives the payload as an `!AIVDM` sentence.
pub open spec fn finish_frame(s: HdlcModel) -> (HdlcModel, Option<Seq<char>>) {
    let n = s.frame.len();
    let payload = s.frame.take(n - 2);
    let recv = (((s.frame[n - 2] as u16) << 8u16) | s.frame[n - 1] as u16) as u16;
    if crc16_of(payload) != recv {
        (HdlcModel { fail: (s.fail + 1) as u64, ..s }, None)
    } else {
        let nmea = armored_payload(payload);
        (
            HdlcModel { ok: (s.ok + 1) as u64, ..s },
            if nmea.len() == 0 {
                None
            } else {
                Some(aivdm_sentence(nmea, 0))
            },
        )
    }
}

/// Appends the register to the frame after every eighth data bit; a frame
/// longer than 512 bytes is abandoned.
pub open spec fn accumulate(s: HdlcModel) -> HdlcModel {
    let bc = s.bit_count + 1;
    if bc >= 8 {
        let frame = s.frame.push(s.shift_reg);
        HdlcModel { bit_count: 0, frame, in_frame: s.in_frame && frame.len() <= 512, ..s }
    } else {
        HdlcModel { bit_count: bc as u8, ..s }
    }
}

/// One decoded bit into the deframer: a flag ends the frame under way (if
/// it holds 5 bytes or more) and starts a new one; inside a frame a 0 after
/// five 1s is a stuffed bit and dropped, more than six 1s abort the frame.
pub open spec fn hdlc_step(s: HdlcModel, bit: u8) -> (HdlcModel, Option<Seq<char>>) {
    let sr = ((s.shift_reg << 1u8) | bit) as u8;
    let s0 = HdlcModel { shift_reg: sr, ..s };
    if sr == HDLC_FLAG {
        let (s1, out) = if s.in_frame && s.frame.len() >= 5 {
            finish_frame(s0)
        } else {
            (s0, None)
        };
        (
            HdlcModel {
                in_frame: true,
                frame: Seq::empty(),
                ones_count: 0,
                bit_count: 0,
                ..s1
            },
            out,
        )
    } else if !s.in_frame {
        (s0, None)
    } else if bit == 1 {
        let ones = (s.ones_count + 1) as u8;
        if ones > 6 {
            (HdlcModel { ones_count: ones, in_frame: false, ..s0 }, None)
        } else {
            (accumulate(HdlcModel { ones_count: ones, ..s0 }), None)
        }
    } else if s.ones_count == 5 {
        (HdlcModel { ones_count: 0, ..s0 }, None)
    } else {
        (accumulate(HdlcModel { ones_count: 0, ..s0 }), None)
    }
}

/// NRZI: a sliced level equal to the register's top bit decodes as 1.
pub open spec fn nrzi_bit(shift_reg: u8, level: bool) -> u8 {
    if (if level {
        1u8
    } else {
        0u8
    }) == (shift_reg >> 7u8) & 1u8 {
        1
    } else {
        0
    }
}

/// The bit-level part of the AIS demodulator.
pub struct AisHdlc {
    shift_reg: u8,
    bit_count: u8,
    frame_buf: Vec<u8>,
    ones_count: u8,
    in_frame: bool,
    pub frames_ok: u64,
    pub frames_crc_fail: u64,
}

impl AisHdlc {
    /// The state as plain values.
    pub closed spec fn model(&self) -> HdlcModel {
        HdlcModel {
            shift_reg: self.shift_reg,
            bit_count: self.bit_count,
            frame: self.frame_buf@,
            ones_count: self.ones_count,
            in_frame: self.in_frame,
            ok: self.frames_ok,
            fail: self.frames_crc_fail,
        }
    }

    /// Counters below their limit, frame within its bound.
    pub closed spec fn wf(&self) -> bool {
        &&& self.ones_count <= 7
        &&& self.bit_count < 8
        &&& self.frame_buf@.len() <= 513
        &&& self.in_frame ==> self.ones_count <= 6 && self.frame_buf@.len() <= 512
    }

    /// A deframer outside any frame, with zeroed counters.
    pub fn new() -> (h: Self)
        ensures
            h.wf(),
            h.model() == (HdlcModel {
                shift_reg: 0,
                bit_count: 0,
                frame: Seq::empty(),
                ones_count: 0,
                in_frame: false,
                ok: 0,
                fail: 0,
            }),
    {
        AisHdlc {
            shift_reg: 0,
            bit_count: 0,
            frame_buf: Vec::new(),
            ones_count: 0,
            in_frame: false,
            frames_ok: 0,
            frames_crc_fail: 0,
        }
    }

    /// Whether both counters can still be incremented.
    pub fn counters_below_limit(&self) -> (ok: bool)
        ensures
            ok == (self.model().ok < u64::MAX && self.model().fail < u64::MAX),
    {
        self.frames_ok < u64::MAX && self.frames_crc_fail < u64::MAX
    }

    /// Takes one sliced level (true for a positive discriminator output):
    /// NRZI-decodes it and feeds the bit to the deframer; returns the
    /// sentence of a frame it completes.
    pub fn push_level(&mut self, level: bool) -> (out: Option<String>)
        requires
            old(self).wf(),
            old(self).model().ok < u64::MAX,
            old(self).model().fail < u64::MAX,
        ensures
            final(self).wf(),
            ({
                let (m, o) = hdlc_step(old(self).model(), nrzi_bit(old(self).model().shift_reg, level));
                &&& final(self).model() == m
                &&& match out {
                    Some(s) => o == Some(s@),
                    None => o is None,
                }
            }),
    {
        let bit: u8 = if level {
            1
        } else {
            0
        };
        let top = (self.shift_reg >> 7) & 1;
        let nrzi: u8 = if bit == top {
            1
        } else {
            0
        };
        self.process_bit(nrzi)
    }

    fn process_bit(&mut self, bit: u8) -> (out: Option<String>)
        requires
            old(self).wf(),
            bit <= 1,
            old(self).model().ok < u64::MAX,
            old(self).model().fail < u64::MAX,
        ensures
            final(self).wf(),
            ({
                let (m, o) = hdlc_step(old(self).model(), bit);
                &&& final(self).model() == m
                &&& match out {
                    Some(s) => o == Some(s@),
                    None => o is None,
                }
            }),
    {
        self.shift_reg = (self.shift_reg << 1) | bit;
        if self.shift_reg == HDLC_FLAG {
            let mut out = None;
            if self.in_frame && self.frame_buf.len() >= 5 {
                out = self.finish_frame();
            }
            self.in_frame = true;
            self.frame_buf.clear();
            self.ones_count = 0;
            self.bit_count = 0;
            return out;
        }
        if !self.in_frame {
            return None;
        }
        if bit == 1 {
            self.ones_count = self.ones_count + 1;
            if self.ones_count > 6 {
                self.in_frame = false;
                return None;
            }
        } else {
            if self.ones_count == 5 {
                self.ones_count = 0;
                return None;
            }
            self.ones_count = 0;
        }
        self.bit_count = self.bit_count + 1;
        if self.bit_count >= 8 {
            self.frame_buf.push(self.shift_reg);
            self.bit_count = 0;
            if self.frame_buf.len() > 512 {
                self.in_frame = false;
            }
        }
        None
    }

    fn finish_frame(&mut self) -> (out: Option<String>)
        requires
            old(self).frame_buf@.len() >= 5,
            old(self).frame_buf@.len() <= 513,
            old(self).model().ok < u64::MAX,
            old(self).model().fail < u64::MAX,
        ensures
            ({
                let (m, o) = finish_frame(old(self).model());
                &&& final(self).model() == m
                &&& match out {
                    Some(s) => o == Some(s@),
                    None => o is None,
                }
            }),
    {
        let n = self.frame_buf.len();
        let payload_len = n - 2;
        let mut payload: Vec<u8> = Vec::with_capacity(payload_len);
        let mut i: usize = 0;
        while i < payload_len
            invariant
                payload_len == self.frame_buf@.len() - 2,
                i <= payload_len,
                payload@ == self.frame_buf@.take(i as int),
            decreases payload_len - i,
        {
            payload.push(self.frame_buf[i]);
            assert(self.frame_buf@.take(i as int).push(self.frame_buf@[i as int]) =~= self.frame_buf@.take(
                i + 1,
            ));
            i += 1;
        }
        let recv_crc = ((self.frame_buf[payload_len] as u16) << 8) | self.frame_buf[payload_len
            + 1] as u16;
        let calc_crc = crc16_ccitt(payload.as_slice());
        if calc_crc != recv_crc {
            self.frames_crc_fail = self.frames_crc_fail + 1;
            return None;
        }
        self.frames_ok = self.frames_ok + 1;
        let nmea_payload = bits_to_nmea_payload(payload.as_slice());
        if nmea_payload.as_str().is_empty() {
            return None;
        }
        Some(aivdm(&nmea_payload, 0))
    }
}

} // verus!
