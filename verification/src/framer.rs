//! The link layer receiver: a byte stream in, CRC-checked frames out.
//!
//! The receiver hunts for a preamble, de-escapes the body, and on the `7E 08`
//! trailer checks length and CRC. Malformed input never stops it: every error
//! is counted and the machine resynchronizes on the next preamble.

use vstd::prelude::*;

use crate::crc::crc16_spec;
use crate::escape::{is_escape_code, unescape_code, unescaped_byte};
use crate::link::{addr_of_u16, u16_be, Frame, FrameView, GatewayID, Type, MAX_BODY};

verus! {

/// The receiver's synchronization state.
#[derive(Debug, Copy, Clone, Eq, PartialEq, Structural)]
pub enum RxMode {
    /// Between frames, seeing idle or preamble filler bytes.
    Idle,
    /// Discarding unexpected bytes until the next preamble.
    Noise,
    /// An escape marker was seen outside a frame; `07` would open a body.
    StartOfFrame,
    /// Accumulating de-escaped body bytes.
    Body,
    /// An escape marker was seen inside a body.
    BodyEscape,
    /// Discarding an overlong frame.
    Giant,
    /// An escape marker was seen while discarding an overlong frame.
    GiantEscape,
}

/// Event counters, each monotonically non-decreasing, all bounded by
/// `bytes_in`.
///
/// A resynchronization is counted once in `resyncs` whether it came from
/// unexpected bytes or from body overflow; an illegal escape sequence counts
/// in `escape_errors` and, as a resynchronization, in `resyncs` as well.
#[derive(Debug, Copy, Clone, Eq, PartialEq, Structural, Default)]
pub struct Counters {
    /// Bytes consumed.
    pub bytes_in: u64,
    /// Frames that passed length and CRC checks and were handed on.
    pub frames_emitted: u64,
    /// Completed bodies dropped for a CRC mismatch.
    pub crc_failures: u64,
    /// Completed bodies dropped for being shorter than six bytes.
    pub short_frames: u64,
    /// Resynchronization events.
    pub resyncs: u64,
    /// Escape markers followed by a byte that is neither a control nor a
    /// valid escape code.
    pub escape_errors: u64,
}

/// The mathematical state of a receiver, including the history of every frame
/// it has emitted.
#[verifier::ext_equal]
pub struct RxView {
    pub mode: RxMode,
    pub buf: Seq<u8>,
    pub bytes_in: nat,
    pub frames_emitted: nat,
    pub crc_failures: nat,
    pub short_frames: nat,
    pub resyncs: nat,
    pub escape_errors: nat,
    pub emitted: Seq<FrameView>,
}

/// The state of a freshly constructed receiver.
pub open spec fn rx_init() -> RxView {
    RxView {
        mode: RxMode::Idle,
        buf: Seq::empty(),
        bytes_in: 0,
        frames_emitted: 0,
        crc_failures: 0,
        short_frames: 0,
        resyncs: 0,
        escape_errors: 0,
        emitted: Seq::empty(),
    }
}

/// Does a completed body carry a correct CRC? The stored CRC is little-endian
/// and covers the address, type and payload bytes before it.
pub open spec fn body_crc_ok(w: Seq<u8>) -> bool {
    crc16_spec(w.take(w.len() - 2)) == u16_be(w[w.len() - 1], w[w.len() - 2])
}

/// The frame a completed body of sufficient length describes.
pub open spec fn body_frame(w: Seq<u8>) -> FrameView {
    FrameView {
        address: addr_of_u16(u16_be(w[0], w[1])),
        frame_type: u16_be(w[2], w[3]),
        payload: w.subrange(4, w.len() - 2),
    }
}

/// One byte of progress for the receiver machine.
pub open spec fn rx_step(s: RxView, b: u8) -> RxView {
    let s = RxView { bytes_in: s.bytes_in + 1, ..s };
    match s.mode {
        RxMode::Idle => {
            if b == 0x00 || b == 0xff {
                s
            } else if b == 0x7e {
                RxView { mode: RxMode::StartOfFrame, ..s }
            } else {
                RxView { mode: RxMode::Noise, resyncs: s.resyncs + 1, ..s }
            }
        }
        RxMode::Noise => {
            if b == 0x00 || b == 0xff {
                RxView { mode: RxMode::Idle, ..s }
            } else if b == 0x7e {
                RxView { mode: RxMode::StartOfFrame, ..s }
            } else {
                s
            }
        }
        RxMode::StartOfFrame => {
            if b == 0x07 {
                RxView { mode: RxMode::Body, ..s }
            } else {
                RxView { mode: RxMode::Noise, resyncs: s.resyncs + 1, ..s }
            }
        }
        RxMode::Body => {
            if b == 0x7e {
                RxView { mode: RxMode::BodyEscape, ..s }
            } else if s.buf.len() < MAX_BODY {
                RxView { buf: s.buf.push(b), ..s }
            } else {
                RxView {
                    mode: RxMode::Giant,
                    buf: Seq::empty(),
                    resyncs: s.resyncs + 1,
                    ..s
                }
            }
        }
        RxMode::BodyEscape => {
            if b == 0x08 {
                let done = RxView { mode: RxMode::Idle, buf: Seq::empty(), ..s };
                if s.buf.len() < 6 {
                    RxView { short_frames: s.short_frames + 1, ..done }
                } else if !body_crc_ok(s.buf) {
                    RxView { crc_failures: s.crc_failures + 1, ..done }
                } else {
                    RxView {
                        frames_emitted: s.frames_emitted + 1,
                        emitted: s.emitted.push(body_frame(s.buf)),
                        ..done
                    }
                }
            } else if is_escape_code(b) {
                if s.buf.len() < MAX_BODY {
                    RxView { mode: RxMode::Body, buf: s.buf.push(unescape_code(b)), ..s }
                } else {
                    RxView {
                        mode: RxMode::GiantEscape,
                        buf: Seq::empty(),
                        resyncs: s.resyncs + 1,
                        ..s
                    }
                }
            } else {
                RxView {
                    mode: RxMode::Noise,
                    buf: Seq::empty(),
                    escape_errors: s.escape_errors + 1,
                    resyncs: s.resyncs + 1,
                    ..s
                }
            }
        }
        RxMode::Giant => {
            if b == 0x7e {
                RxView { mode: RxMode::GiantEscape, ..s }
            } else {
                s
            }
        }
        RxMode::GiantEscape => {
            if b == 0x07 {
                RxView { mode: RxMode::Body, ..s }
            } else if b == 0x08 {
                RxView { mode: RxMode::Idle, ..s }
            } else {
                RxView { mode: RxMode::Giant, ..s }
            }
        }
    }
}

/// The receiver machine run over a whole byte sequence.
pub open spec fn rx_run(s: RxView, bytes: Seq<u8>) -> RxView
    decreases bytes.len(),
{
    if bytes.len() == 0 {
        s
    } else {
        rx_run(rx_step(s, bytes[0]), bytes.skip(1))
    }
}

/// Running over a concatenation is running over each part in turn.
pub proof fn lemma_rx_run_append(s: RxView, a: Seq<u8>, b: Seq<u8>)
    ensures
        rx_run(s, a + b) == rx_run(rx_run(s, a), b),
    decreases a.len(),
{
    if a.len() == 0 {
        assert(a + b =~= b);
    } else {
        lemma_rx_run_append(rx_step(s, a[0]), a.skip(1), b);
        assert((a + b).skip(1) =~= a.skip(1) + b);
    }
}

/// Structural invariants of every reachable receiver state: the body buffer
/// is bounded and empty outside body accumulation, and no counter exceeds the
/// byte count.
pub open spec fn rx_wf(s: RxView) -> bool {
    &&& s.buf.len() <= MAX_BODY
    &&& (s.mode != RxMode::Body && s.mode != RxMode::BodyEscape ==> s.buf.len() == 0)
    &&& s.frames_emitted <= s.bytes_in
    &&& s.crc_failures <= s.bytes_in
    &&& s.short_frames <= s.bytes_in
    &&& s.resyncs <= s.bytes_in
    &&& s.escape_errors <= s.bytes_in
    &&& s.frames_emitted == s.emitted.len()
}

/// One step preserves the structural invariants, consumes one byte, and keeps
/// the emission history monotone.
pub proof fn lemma_rx_step_wf(s: RxView, b: u8)
    requires
        rx_wf(s),
    ensures
        rx_wf(rx_step(s, b)),
        rx_step(s, b).bytes_in == s.bytes_in + 1,
        rx_step(s, b).emitted.len() >= s.emitted.len(),
        rx_step(s, b).emitted.take(s.emitted.len() as int) == s.emitted,
{
    let t = rx_step(s, b);
    if t.emitted.len() == s.emitted.len() {
        assert(t.emitted.take(s.emitted.len() as int) =~= s.emitted);
    } else {
        assert(t.emitted.take(s.emitted.len() as int) =~= s.emitted);
    }
}

/// A whole run preserves the invariants and keeps the emission history
/// monotone.
pub proof fn lemma_rx_run_wf(s: RxView, bytes: Seq<u8>)
    requires
        rx_wf(s),
    ensures
        rx_wf(rx_run(s, bytes)),
        rx_run(s, bytes).bytes_in == s.bytes_in + bytes.len(),
        rx_run(s, bytes).emitted.len() >= s.emitted.len(),
        rx_run(s, bytes).emitted.take(s.emitted.len() as int) == s.emitted,
    decreases bytes.len(),
{
    if bytes.len() > 0 {
        lemma_rx_step_wf(s, bytes[0]);
        lemma_rx_run_wf(rx_step(s, bytes[0]), bytes.skip(1));
        let t = rx_step(s, bytes[0]);
        let u = rx_run(s, bytes);
        assert(u.emitted.take(s.emitted.len() as int) =~= u.emitted.take(
            t.emitted.len() as int,
        ).take(s.emitted.len() as int));
    }
}

/// A receiver which converts a series of bytes into a series of frames.
///
/// The receiver tolerates line errors and resynchronizes whenever possible;
/// errors are reported by incrementing [`Counters`].
pub struct Receiver {
    state: RxMode,
    buffer: Vec<u8>,
    counters: Counters,
    emitted: Ghost<Seq<FrameView>>,
}

impl View for Receiver {
    type V = RxView;

    closed spec fn view(&self) -> RxView {
        RxView {
            mode: self.state,
            buf: self.buffer@,
            bytes_in: self.counters.bytes_in as nat,
            frames_emitted: self.counters.frames_emitted as nat,
            crc_failures: self.counters.crc_failures as nat,
            short_frames: self.counters.short_frames as nat,
            resyncs: self.counters.resyncs as nat,
            escape_errors: self.counters.escape_errors as nat,
            emitted: self.emitted@,
        }
    }
}

/// The deep view of a sequence of frames.
pub open spec fn frames_view(s: Seq<Frame>) -> Seq<FrameView> {
    s.map_values(|f: Frame| f@)
}

impl Receiver {
    /// Instantiate a receiver in its initial state.
    pub fn new() -> (r: Receiver)
        ensures
            r@ == rx_init(),
            rx_wf(r@),
    {
        let r = Receiver {
            state: RxMode::Idle,
            buffer: Vec::new(),
            counters: Counters {
                bytes_in: 0,
                frames_emitted: 0,
                crc_failures: 0,
                short_frames: 0,
                resyncs: 0,
                escape_errors: 0,
            },
            emitted: Ghost(Seq::empty()),
        };
        proof {
            assert(r@ =~= rx_init());
        }
        r
    }

    /// The counters describing the receiver's activity so far.
    pub fn counters(&self) -> (r: Counters)
        ensures
            r.bytes_in == self@.bytes_in,
            r.frames_emitted == self@.frames_emitted,
            r.crc_failures == self@.crc_failures,
            r.short_frames == self@.short_frames,
            r.resyncs == self@.resyncs,
            r.escape_errors == self@.escape_errors,
    {
        self.counters
    }

    /// Check a completed body, and either emit its frame or count why not.
    fn parse_frame_from_buffer(&mut self, frames: &mut Vec<Frame>)
        requires
            rx_wf(old(self)@),
            old(self)@.mode == RxMode::BodyEscape,
            old(self)@.bytes_in < u64::MAX,
        ensures
            final(self)@ == rx_step(old(self)@, 0x08),
            rx_wf(final(self)@),
            frames_view(final(frames)@) == frames_view(old(frames)@) + final(self)@.emitted.skip(
                old(self)@.emitted.len() as int,
            ),
    {
        self.counters.bytes_in = self.counters.bytes_in + 1;
        let n = self.buffer.len();
        if n < 6 {
            self.counters.short_frames = self.counters.short_frames + 1;
            self.buffer.clear();
            self.state = RxMode::Idle;
            proof {
                assert(self@ =~= rx_step(old(self)@, 0x08));
                assert(self@.emitted.skip(old(self)@.emitted.len() as int)
                    =~= Seq::<FrameView>::empty());
                assert(frames_view(frames@) =~= frames_view(old(frames)@) + self@.emitted.skip(
                    old(self)@.emitted.len() as int,
                ));
            }
            return;
        }
        let body = vstd::slice::slice_subrange(self.buffer.as_slice(), 0, n - 2);
        let crc = crate::crc::crc16(body);
        let stored_lo = self.buffer[n - 2];
        let stored_hi = self.buffer[n - 1];
        let stored: u16 = ((stored_hi as u16) << 8) | (stored_lo as u16);
        proof {
            assert(self.buffer@.take(n - 2) =~= self.buffer@.subrange(0, n - 2));
        }
        if crc != stored {
            self.counters.crc_failures = self.counters.crc_failures + 1;
            self.buffer.clear();
            self.state = RxMode::Idle;
            proof {
                assert(self@ =~= rx_step(old(self)@, 0x08));
                assert(self@.emitted.skip(old(self)@.emitted.len() as int)
                    =~= Seq::<FrameView>::empty());
                assert(frames_view(frames@) =~= frames_view(old(frames)@) + self@.emitted.skip(
                    old(self)@.emitted.len() as int,
                ));
            }
            return;
        }
        let a16: u16 = ((self.buffer[0] as u16) << 8) | (self.buffer[1] as u16);
        let address = if a16 & 0x8000 == 0x8000 {
            crate::link::Address::From(a16 & 0x3fff)
        } else {
            crate::link::Address::To(a16 & 0x3fff)
        };
        let frame_type = Type(((self.buffer[2] as u16) << 8) | (self.buffer[3] as u16));
        let payload_slice = vstd::slice::slice_subrange(self.buffer.as_slice(), 4, n - 2);
        let payload = vstd::slice::slice_to_vec(payload_slice);
        let frame = Frame { address, frame_type, payload };
        self.counters.frames_emitted = self.counters.frames_emitted + 1;
        proof {
            let w = old(self)@.buf;
            assert(frame@ =~= body_frame(w));
            self.emitted@ = self.emitted@.push(body_frame(w));
        }
        frames.push(frame);
        self.buffer.clear();
        self.state = RxMode::Idle;
        proof {
            let w = old(self)@.buf;
            assert(body_crc_ok(w));
            assert(self@ =~= rx_step(old(self)@, 0x08));
            assert(self@.emitted.skip(old(self)@.emitted.len() as int) =~= seq![body_frame(w)]);
            assert(frames_view(frames@) =~= frames_view(old(frames)@) + seq![body_frame(w)]);
        }
    }

    /// Feed the receiver one byte.
    fn push_u8(&mut self, byte: u8, frames: &mut Vec<Frame>)
        requires
            rx_wf(old(self)@),
            old(self)@.bytes_in < u64::MAX,
        ensures
            final(self)@ == rx_step(old(self)@, byte),
            rx_wf(final(self)@),
            frames_view(final(frames)@) == frames_view(old(frames)@) + final(self)@.emitted.skip(
                old(self)@.emitted.len() as int,
            ),
    {
        proof {
            lemma_rx_step_wf(old(self)@, byte);
        }
        if self.state == RxMode::BodyEscape && byte == 0x08 {
            self.parse_frame_from_buffer(frames);
            return;
        }
        self.counters.bytes_in = self.counters.bytes_in + 1;
        match self.state {
            RxMode::Idle => {
                if byte == 0x00 || byte == 0xff {
                } else if byte == 0x7e {
                    self.state = RxMode::StartOfFrame;
                } else {
                    self.state = RxMode::Noise;
                    self.counters.resyncs = self.counters.resyncs + 1;
                }
            }
            RxMode::Noise => {
                if byte == 0x00 || byte == 0xff {
                    self.state = RxMode::Idle;
                } else if byte == 0x7e {
                    self.state = RxMode::StartOfFrame;
                }
            }
            RxMode::StartOfFrame => {
                if byte == 0x07 {
                    self.state = RxMode::Body;
                } else {
                    self.state = RxMode::Noise;
                    self.counters.resyncs = self.counters.resyncs + 1;
                }
            }
            RxMode::Body => {
                if byte == 0x7e {
                    self.state = RxMode::BodyEscape;
                } else if self.buffer.len() < MAX_BODY {
                    self.buffer.push(byte);
                } else {
                    self.state = RxMode::Giant;
                    self.buffer.clear();
                    self.counters.resyncs = self.counters.resyncs + 1;
                }
            }
            RxMode::BodyEscape => {
                match unescaped_byte(byte) {
                    Some(unescaped) => {
                        if self.buffer.len() < MAX_BODY {
                            self.state = RxMode::Body;
                            self.buffer.push(unescaped);
                        } else {
                            self.state = RxMode::GiantEscape;
                            self.buffer.clear();
                            self.counters.resyncs = self.counters.resyncs + 1;
                        }
                    }
                    None => {
                        self.state = RxMode::Noise;
                        self.buffer.clear();
                        self.counters.escape_errors = self.counters.escape_errors + 1;
                        self.counters.resyncs = self.counters.resyncs + 1;
                    }
                }
            }
            RxMode::Giant => {
                if byte == 0x7e {
                    self.state = RxMode::GiantEscape;
                }
            }
            RxMode::GiantEscape => {
                if byte == 0x07 {
                    self.state = RxMode::Body;
                } else if byte == 0x08 {
                    self.state = RxMode::Idle;
                } else {
                    self.state = RxMode::Giant;
                }
            }
        }
        proof {
            assert(self@ =~= rx_step(old(self)@, byte));
            assert(self@.emitted.skip(old(self)@.emitted.len() as int)
                =~= Seq::<FrameView>::empty());
            assert(frames_view(frames@) =~= frames_view(old(frames)@) + self@.emitted.skip(
                old(self)@.emitted.len() as int,
            ));
        }
    }

    /// Feed the receiver a slice of bytes, consuming all of it.
    ///
    /// Every frame the bytes complete is appended to `frames`, in order of
    /// arrival.
    pub fn extend_from_slice(&mut self, input: &[u8], frames: &mut Vec<Frame>)
        requires
            rx_wf(old(self)@),
            old(self)@.bytes_in + input@.len() <= u64::MAX,
        ensures
            final(self)@ == rx_run(old(self)@, input@),
            rx_wf(final(self)@),
            frames_view(final(frames)@) == frames_view(old(frames)@) + final(self)@.emitted.skip(
                old(self)@.emitted.len() as int,
            ),
    {
        let mut i: usize = 0;
        while i < input.len()
            invariant
                i <= input@.len(),
                rx_wf(self@),
                self@ == rx_run(old(self)@, input@.take(i as int)),
                self@.bytes_in == old(self)@.bytes_in + i,
                old(self)@.bytes_in + input@.len() <= u64::MAX,
                frames_view(frames@) == frames_view(old(frames)@) + self@.emitted.skip(
                    old(self)@.emitted.len() as int,
                ),
                self@.emitted.len() >= old(self)@.emitted.len(),
                self@.emitted.take(old(self)@.emitted.len() as int) == old(self)@.emitted,
            decreases input@.len() - i,
        {
            let ghost pre = self@;
            self.push_u8(input[i], frames);
            proof {
                lemma_rx_run_snoc(old(self)@, input@, i as int);
                lemma_rx_step_wf(pre, input@[i as int]);
                assert(self@.emitted.skip(old(self)@.emitted.len() as int) =~= pre.emitted.skip(
                    old(self)@.emitted.len() as int,
                ) + self@.emitted.skip(pre.emitted.len() as int));
                assert(self@.emitted.take(old(self)@.emitted.len() as int) =~= pre.emitted.take(
                    old(self)@.emitted.len() as int,
                ));
            }
            i = i + 1;
        }
        proof {
            assert(input@.take(input@.len() as int) =~= input@);
        }
    }
}

/// Running over one more byte is a run then a step.
pub proof fn lemma_rx_run_snoc(s: RxView, bytes: Seq<u8>, i: int)
    requires
        0 <= i < bytes.len(),
    ensures
        rx_run(s, bytes.take(i + 1)) == rx_step(rx_run(s, bytes.take(i)), bytes[i]),
{
    assert(bytes.take(i + 1) =~= bytes.take(i) + seq![bytes[i]]);
    lemma_rx_run_append(s, bytes.take(i), seq![bytes[i]]);
    let t = rx_run(s, bytes.take(i));
    assert(seq![bytes[i]].skip(1) =~= Seq::<u8>::empty());
    reveal_with_fuel(rx_run, 2);
    assert(rx_run(t, seq![bytes[i]]) == rx_step(t, bytes[i]));
}

} // verus!

// The receiver's laws, stated over its mathematical machine.
use crate::escape::{escape_byte, escape_code, escape_seq, is_special};
use crate::link::{
    addr_u16, addr_wf, encode_spec, frame_body, frame_wf, lemma_addr_roundtrip,
    lemma_u16_be_roundtrip, preamble, u16_hi, u16_lo, MAX_PAYLOAD,
};

verus! {

/// The number of `7E 08` trailer pairs in a byte sequence.
pub open spec fn trailer_count(bytes: Seq<u8>) -> nat
    decreases bytes.len(),
{
    if bytes.len() < 2 {
        0
    } else {
        (if bytes[0] == 0x7e && bytes[1] == 0x08 {
            1nat
        } else {
            0nat
        }) + trailer_count(bytes.skip(1))
    }
}

/// The frames emitted plus the bodies dropped for CRC or length.
pub open spec fn outcome_sum(s: RxView) -> nat {
    s.frames_emitted + s.crc_failures + s.short_frames
}

/// A sequence holds at least as many trailers as its tail.
proof fn lemma_trailer_count_skip(bytes: Seq<u8>)
    requires
        bytes.len() > 0,
    ensures
        trailer_count(bytes) >= trailer_count(bytes.skip(1)),
        bytes.len() >= 2 && bytes[0] == 0x7e && bytes[1] == 0x08 ==> trailer_count(bytes) >= 1
            + trailer_count(bytes.skip(1)),
{
    if bytes.len() < 2 {
        assert(bytes.skip(1).len() < 2);
    }
}

/// Outcome accounting for one run: each trailer pair can account for at most
/// one outcome, plus one for a trailer whose marker was consumed before the
/// run began.
proof fn lemma_rx_accounting_run(s: RxView, bytes: Seq<u8>)
    ensures
        outcome_sum(rx_run(s, bytes)) <= outcome_sum(s) + trailer_count(bytes) + (if s.mode
            == RxMode::BodyEscape && bytes.len() > 0 && bytes[0] == 0x08 {
            1nat
        } else {
            0nat
        }),
    decreases bytes.len(),
{
    if bytes.len() > 0 {
        let b0 = bytes[0];
        let t = rx_step(s, b0);
        lemma_rx_accounting_run(t, bytes.skip(1));
        lemma_trailer_count_skip(bytes);
        if s.mode == RxMode::BodyEscape && b0 == 0x08 {
            assert(outcome_sum(t) == outcome_sum(s) + 1);
            assert(t.mode == RxMode::Idle);
        } else {
            assert(outcome_sum(t) == outcome_sum(s));
            if t.mode == RxMode::BodyEscape {
                assert(b0 == 0x7e);
            }
        }
    }
}

/// Framer accounting: over any byte sequence fed to a fresh receiver, the
/// frames emitted plus the bodies dropped for a bad CRC plus the bodies
/// dropped short never exceed the number of `7E 08` trailer pairs in the
/// input, and the receiver consumes exactly the input.
pub proof fn lemma_framer_accounting(bytes: Seq<u8>)
    ensures
        outcome_sum(rx_run(rx_init(), bytes)) <= trailer_count(bytes),
        rx_run(rx_init(), bytes).bytes_in == bytes.len(),
{
    lemma_rx_accounting_run(rx_init(), bytes);
    lemma_rx_run_wf(rx_init(), bytes);
}

/// Feeding a preamble to a receiver between frames, or one discarding noise,
/// opens an empty body.
proof fn lemma_run_preamble(s: RxView, a: crate::link::Address)
    requires
        s.mode == RxMode::Idle || s.mode == RxMode::Noise,
        s.buf.len() == 0,
    ensures
        rx_run(s, preamble(a)) == (RxView {
            mode: RxMode::Body,
            bytes_in: s.bytes_in + preamble(a).len(),
            ..s
        }),
{
    let p = preamble(a);
    reveal_with_fuel(rx_run, 6);
    match a {
        crate::link::Address::From(_) => {
            assert(p =~= seq![0xffu8, 0x7e, 0x07]);
            assert(p.skip(1) =~= seq![0x7eu8, 0x07]);
            assert(p.skip(1).skip(1) =~= seq![0x07u8]);
            assert(p.skip(1).skip(1).skip(1) =~= Seq::<u8>::empty());
            assert(rx_run(s, p) =~= (RxView {
                mode: RxMode::Body,
                bytes_in: s.bytes_in + 3,
                ..s
            }));
        }
        crate::link::Address::To(_) => {
            assert(p =~= seq![0x00u8, 0xff, 0xff, 0x7e, 0x07]);
            assert(p.skip(1) =~= seq![0xffu8, 0xff, 0x7e, 0x07]);
            assert(p.skip(1).skip(1) =~= seq![0xffu8, 0x7e, 0x07]);
            assert(p.skip(1).skip(1).skip(1) =~= seq![0x7eu8, 0x07]);
            assert(p.skip(1).skip(1).skip(1).skip(1) =~= seq![0x07u8]);
            assert(p.skip(1).skip(1).skip(1).skip(1).skip(1) =~= Seq::<u8>::empty());
            assert(rx_run(s, p) =~= (RxView {
                mode: RxMode::Body,
                bytes_in: s.bytes_in + 5,
                ..s
            }));
        }
    }
}

/// Unescaping the escape code of a special byte yields the byte back.
proof fn lemma_code_roundtrip(b: u8)
    requires
        is_special(b),
    ensures
        is_escape_code(escape_code(b)),
        unescape_code(escape_code(b)) == b,
{
}

/// Feeding the escaped form of `u` to a receiver in body accumulation appends
/// `u` to the body buffer, de-escaped.
proof fn lemma_run_escaped(s: RxView, u: Seq<u8>)
    requires
        s.mode == RxMode::Body,
        s.buf.len() + u.len() <= MAX_BODY,
    ensures
        rx_run(s, escape_seq(u)) == (RxView {
            buf: s.buf + u,
            bytes_in: s.bytes_in + escape_seq(u).len(),
            ..s
        }),
    decreases u.len(),
{
    if u.len() == 0 {
        assert(escape_seq(u).len() == 0);
        assert(rx_run(s, escape_seq(u)) == s);
        assert(s.buf + u =~= s.buf);
        assert(rx_run(s, escape_seq(u)) =~= (RxView {
            buf: s.buf + u,
            bytes_in: s.bytes_in + escape_seq(u).len(),
            ..s
        }));
    } else {
        let b = u[0];
        let rest = u.skip(1);
        assert(escape_seq(u) == escape_byte(b) + escape_seq(rest));
        lemma_rx_run_append(s, escape_byte(b), escape_seq(rest));
        let mid = rx_run(s, escape_byte(b));
        if is_special(b) {
            lemma_code_roundtrip(b);
            assert(escape_byte(b) =~= seq![0x7eu8, escape_code(b)]);
            assert(escape_byte(b).skip(1) =~= seq![escape_code(b)]);
            assert(escape_byte(b).skip(1).skip(1) =~= Seq::<u8>::empty());
            reveal_with_fuel(rx_run, 3);
            assert(escape_code(b) != 0x08 && is_escape_code(escape_code(b)));
            assert(mid =~= (RxView {
                buf: s.buf.push(b),
                bytes_in: s.bytes_in + 2,
                ..s
            }));
        } else {
            assert(escape_byte(b) =~= seq![b]);
            assert(escape_byte(b).skip(1) =~= Seq::<u8>::empty());
            reveal_with_fuel(rx_run, 2);
            assert(b != 0x7e);
            assert(mid =~= (RxView {
                buf: s.buf.push(b),
                bytes_in: s.bytes_in + 1,
                ..s
            }));
        }
        lemma_run_escaped(mid, rest);
        assert(s.buf.push(b) + rest =~= s.buf + u);
        assert(rx_run(s, escape_seq(u)) =~= (RxView {
            buf: s.buf + u,
            bytes_in: s.bytes_in + escape_seq(u).len(),
            ..s
        }));
    }
}

/// Decoding the encoding of a legal frame, from any state between frames or
/// discarding noise, emits exactly that frame and nothing else, and counts no
/// new errors.
proof fn lemma_frame_roundtrip_from(s0: RxView, f: FrameView)
    requires
        frame_wf(f),
        s0.mode == RxMode::Idle || s0.mode == RxMode::Noise,
        s0.buf.len() == 0,
    ensures
        rx_run(s0, encode_spec(f)).emitted == s0.emitted.push(f),
        rx_run(s0, encode_spec(f)).mode == RxMode::Idle,
        rx_run(s0, encode_spec(f)).buf.len() == 0,
        rx_run(s0, encode_spec(f)).frames_emitted == s0.frames_emitted + 1,
        rx_run(s0, encode_spec(f)).crc_failures == s0.crc_failures,
        rx_run(s0, encode_spec(f)).short_frames == s0.short_frames,
        rx_run(s0, encode_spec(f)).resyncs == s0.resyncs,
        rx_run(s0, encode_spec(f)).escape_errors == s0.escape_errors,
{
    let w = frame_body(f);
    let e = encode_spec(f);
    assert(e == preamble(f.address) + escape_seq(w) + seq![0x7eu8, 0x08]);
    lemma_rx_run_append(s0, preamble(f.address) + escape_seq(w), seq![0x7eu8, 0x08]);
    lemma_rx_run_append(s0, preamble(f.address), escape_seq(w));
    assert((preamble(f.address) + escape_seq(w) + seq![0x7eu8, 0x08]) =~= (preamble(f.address)
        + escape_seq(w)) + seq![0x7eu8, 0x08]);
    lemma_run_preamble(s0, f.address);
    let s1 = rx_run(s0, preamble(f.address));
    assert(w.len() == f.payload.len() + 6);
    lemma_run_escaped(s1, w);
    let s2 = rx_run(s1, escape_seq(w));
    assert(s2.mode == RxMode::Body);
    assert(s2.buf =~= w);
    // The trailer: the marker, then the close.
    let s3 = rx_step(s2, 0x7e);
    assert(s3.mode == RxMode::BodyEscape);
    let s4 = rx_step(s3, 0x08);
    reveal_with_fuel(rx_run, 3);
    assert(seq![0x7eu8, 0x08].skip(1) =~= seq![0x08u8]);
    assert(seq![0x7eu8, 0x08].skip(1).skip(1) =~= Seq::<u8>::empty());
    assert(rx_run(s2, seq![0x7eu8, 0x08]) == s4);
    // The completed body parses back to the frame itself.
    let head = seq![
        u16_hi(addr_u16(f.address)),
        u16_lo(addr_u16(f.address)),
        u16_hi(f.frame_type),
        u16_lo(f.frame_type),
    ] + f.payload;
    assert(w == head + seq![u16_lo(crc16_spec(head)), u16_hi(crc16_spec(head))]);
    assert(w.take(w.len() - 2) =~= head);
    lemma_u16_be_roundtrip(crc16_spec(head));
    assert(w[w.len() - 1] == u16_hi(crc16_spec(head)) && w[w.len() - 2] == u16_lo(
        crc16_spec(head),
    ));
    assert(body_crc_ok(w));
    lemma_u16_be_roundtrip(addr_u16(f.address));
    assert(w[0] == u16_hi(addr_u16(f.address)) && w[1] == u16_lo(addr_u16(f.address)));
    lemma_addr_roundtrip(f.address);
    lemma_u16_be_roundtrip(f.frame_type);
    assert(w[2] == u16_hi(f.frame_type) && w[3] == u16_lo(f.frame_type));
    assert(body_frame(w).payload =~= f.payload);
    assert(body_frame(w) =~= f);
    assert(s4.emitted =~= s0.emitted.push(f));
}

/// Frame round trip: decoding the encoding of any legal frame with a fresh
/// receiver emits exactly that frame, leaves the receiver idle again, and
/// counts no errors.
pub proof fn lemma_frame_roundtrip(f: FrameView)
    requires
        frame_wf(f),
    ensures
        rx_run(rx_init(), encode_spec(f)).emitted == seq![f],
        rx_run(rx_init(), encode_spec(f)).mode == RxMode::Idle,
        rx_run(rx_init(), encode_spec(f)).crc_failures == 0,
        rx_run(rx_init(), encode_spec(f)).short_frames == 0,
        rx_run(rx_init(), encode_spec(f)).resyncs == 0,
        rx_run(rx_init(), encode_spec(f)).escape_errors == 0,
{
    lemma_frame_roundtrip_from(rx_init(), f);
    assert(rx_init().emitted.push(f) =~= seq![f]);
}

/// Bytes that never hold the escape marker keep the receiver hunting between
/// frames: nothing is buffered, emitted, or dropped.
proof fn lemma_run_garbage(s: RxView, g: Seq<u8>)
    requires
        s.mode == RxMode::Idle || s.mode == RxMode::Noise,
        s.buf.len() == 0,
        forall|i: int| 0 <= i < g.len() ==> g[i] != 0x7e,
    ensures
        rx_run(s, g).mode == RxMode::Idle || rx_run(s, g).mode == RxMode::Noise,
        rx_run(s, g).buf.len() == 0,
        rx_run(s, g).emitted == s.emitted,
        rx_run(s, g).frames_emitted == s.frames_emitted,
        rx_run(s, g).crc_failures == s.crc_failures,
        rx_run(s, g).short_frames == s.short_frames,
        rx_run(s, g).escape_errors == s.escape_errors,
    decreases g.len(),
{
    if g.len() > 0 {
        let t = rx_step(s, g[0]);
        assert(forall|i: int| 0 <= i < g.skip(1).len() ==> g.skip(1)[i] != 0x7e);
        lemma_run_garbage(t, g.skip(1));
    }
}

/// Resynchronization after garbage: any byte sequence free of the escape
/// marker, followed by the encoding of a legal frame, makes a fresh receiver
/// emit exactly that frame; the garbage is absorbed without any frame
/// outcome.
pub proof fn lemma_resync_after_garbage(g: Seq<u8>, f: FrameView)
    requires
        forall|i: int| 0 <= i < g.len() ==> g[i] != 0x7e,
        frame_wf(f),
    ensures
        rx_run(rx_init(), g + encode_spec(f)).emitted == seq![f],
        rx_run(rx_init(), g + encode_spec(f)).mode == RxMode::Idle,
        rx_run(rx_init(), g + encode_spec(f)).frames_emitted == 1,
        rx_run(rx_init(), g + encode_spec(f)).crc_failures == 0,
        rx_run(rx_init(), g + encode_spec(f)).short_frames == 0,
        rx_run(rx_init(), g + encode_spec(f)).escape_errors == 0,
{
    lemma_rx_run_append(rx_init(), g, encode_spec(f));
    lemma_run_garbage(rx_init(), g);
    let mid = rx_run(rx_init(), g);
    lemma_frame_roundtrip_from(mid, f);
    assert(mid.emitted.push(f) =~= seq![f]);
}

} // verus!
