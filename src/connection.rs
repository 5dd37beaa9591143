//! One connection's byte pipeline: the policy probe check, framing,
//! decryption, message assembly, rate limiting and the keepalive touch, in
//! arrival order. The caller performs the I/O: it hands over the bytes it
//! read and sends or closes as the outcome says.

use vstd::prelude::*;
use vstd::string::StringSliceAdditionalSpecFns;
use crate::frame::{FrameStep, GameByteFrameDecoder, frame_step};
use crate::idle::{IdleTimeoutHandler, PONG_EVENT_HEADER};
use crate::message::{ClientMessage, GameByteDecoder, GameByteDecryption, frame_opcode};
use crate::policy::{GamePolicyDecoder, POLICY_PROBE_BYTE, POLICY_XML};
use crate::rate_limit::{GameMessageRateLimit, RateCounters, RateModel, rate_allows, rate_next};
use crate::rc4::{HabboRC4, Rc4State, advance, keystream, xor_seq};

verus! {

/// Frames cut from the front of `buf`, what stays buffered, and whether
/// framing stopped at an invalid length.
pub open spec fn split_frames(buf: Seq<u8>, max: nat) -> (Seq<Seq<u8>>, Seq<u8>, bool)
    decreases buf.len(),
{
    match frame_step(buf, max) {
        FrameStep::NeedMore => (Seq::empty(), buf, false),
        FrameStep::Invalid => (Seq::empty(), buf, true),
        FrameStep::Frame(f, rest) => if rest.len() < buf.len() {
            let (fs, r, invalid) = split_frames(rest, max);
            (seq![f] + fs, r, invalid)
        } else {
            (Seq::empty(), buf, false)
        },
    }
}

/// A frame after the cipher, if one is installed.
pub open spec fn plain_frame(f: Seq<u8>, cipher: Option<Rc4State>) -> Seq<u8> {
    match cipher {
        None => f,
        Some(s) => xor_seq(f, keystream(s, f.len())),
    }
}

pub open spec fn cipher_after(f: Seq<u8>, cipher: Option<Rc4State>) -> Option<Rc4State> {
    match cipher {
        None => None,
        Some(s) => Some(advance(s, f.len())),
    }
}

/// Where the pipeline stands after some frames: messages delivered so far
/// (opcode and body), the cipher's state, the rate counters, and whether a
/// pong was among the delivered messages.
pub struct PipelineModel {
    pub delivered: Seq<(u16, Seq<u8>)>,
    pub cipher: Option<Rc4State>,
    pub rate: RateModel,
    pub pong_seen: bool,
}

/// One frame through decryption, message assembly and rate limiting.
pub open spec fn process_frame(
    m: PipelineModel,
    f: Seq<u8>,
    now: u64,
    reset_time: u64,
    max: u32,
) -> PipelineModel {
    let plain = plain_frame(f, m.cipher);
    let cipher = cipher_after(f, m.cipher);
    if plain.len() < 2 {
        PipelineModel { cipher, ..m }
    } else {
        let op = frame_opcode(plain);
        if rate_allows(m.rate, op, now, reset_time, max) {
            PipelineModel {
                delivered: m.delivered.push((op, plain.skip(2))),
                cipher,
                rate: rate_next(m.rate, op, now, reset_time, max),
                pong_seen: m.pong_seen || op == PONG_EVENT_HEADER,
            }
        } else {
            PipelineModel { cipher, rate: rate_next(m.rate, op, now, reset_time, max), ..m }
        }
    }
}

pub open spec fn process_frames(
    m: PipelineModel,
    fs: Seq<Seq<u8>>,
    now: u64,
    reset_time: u64,
    max: u32,
) -> PipelineModel
    decreases fs.len(),
{
    if fs.len() == 0 {
        m
    } else {
        process_frame(
            process_frames(m, fs.drop_last(), now, reset_time, max),
            fs.last(),
            now,
            reset_time,
            max,
        )
    }
}

pub open spec fn message_views(ms: Seq<ClientMessage>) -> Seq<(u16, Seq<u8>)> {
    Seq::new(ms.len(), |i: int| (ms[i].spec_header(), ms[i].spec_body()))
}

#[derive(Clone, Copy, Debug, PartialEq, Eq, Structural)]
pub enum ConnectionState {
    Registered,
    Active,
    Closing,
    Closed,
}

/// What the caller does after a read: send `reply` if there is one, hand
/// `messages` to the dispatcher in order, and close the connection when
/// `close` is set.
pub struct ReadOutcome {
    pub reply: Option<Vec<u8>>,
    pub messages: Vec<ClientMessage>,
    pub close: bool,
}

/// The decoding state of one connection.
pub struct GameConnection {
    policy: GamePolicyDecoder,
    frames: GameByteFrameDecoder,
    decryption: GameByteDecryption,
    decoder: GameByteDecoder,
    cipher: Option<HabboRC4>,
    limiter: GameMessageRateLimit,
    counters: RateCounters,
    state: ConnectionState,
}

impl GameConnection {
    pub closed spec fn policy_checked(&self) -> bool {
        self.policy.spec_checked()
    }

    /// Bytes held by the frame decoder.
    pub closed spec fn buffered(&self) -> Seq<u8> {
        self.frames.buffered()
    }

    pub closed spec fn max_len(&self) -> nat {
        self.frames.max_len()
    }

    pub closed spec fn cipher_state(&self) -> Option<Rc4State> {
        match self.cipher {
            Some(c) => Some(c.state()),
            None => None,
        }
    }

    pub closed spec fn rate(&self) -> RateModel {
        self.counters.model()
    }

    pub closed spec fn reset_time(&self) -> u64 {
        self.limiter.spec_reset_time()
    }

    pub closed spec fn max_counter(&self) -> u32 {
        self.limiter.spec_max_counter()
    }

    pub closed spec fn spec_state(&self) -> ConnectionState {
        self.state
    }

    pub closed spec fn wf(&self) -> bool {
        &&& self.frames.wf()
        &&& (self.cipher matches Some(c) ==> c.wf())
    }

    /// A connection accepted at `now`, with the standard limits and no cipher.
    pub fn new(now: u64) -> (r: Self)
        ensures
            r.wf(),
            !r.policy_checked(),
            r.buffered() == Seq::<u8>::empty(),
            r.max_len() == crate::frame::MAX_PACKET_LENGTH,
            r.cipher_state() is None,
            r.rate() == (RateModel { counts: Map::empty(), last_reset: now }),
            r.reset_time() == crate::rate_limit::RESET_TIME_MS,
            r.max_counter() == crate::rate_limit::MAX_COUNTER,
            r.spec_state() == ConnectionState::Registered,
    {
        GameConnection {
            policy: GamePolicyDecoder::new(),
            frames: GameByteFrameDecoder::new(),
            decryption: GameByteDecryption::new(),
            decoder: GameByteDecoder::new(),
            cipher: None,
            limiter: GameMessageRateLimit::new(),
            counters: RateCounters::new(now),
            state: ConnectionState::Registered,
        }
    }

    /// A connection accepted at `now`, with the configured ceiling on the
    /// declared frame length and the configured rate limits.
    pub fn with_limits(now: u64, max_packet_length: usize, limiter: GameMessageRateLimit) -> (r:
        Self)
        requires
            max_packet_length < 0x8000_0000,
        ensures
            r.wf(),
            !r.policy_checked(),
            r.buffered() == Seq::<u8>::empty(),
            r.max_len() == max_packet_length,
            r.cipher_state() is None,
            r.rate() == (RateModel { counts: Map::empty(), last_reset: now }),
            r.reset_time() == limiter.spec_reset_time(),
            r.max_counter() == limiter.spec_max_counter(),
            r.spec_state() == ConnectionState::Registered,
    {
        GameConnection {
            policy: GamePolicyDecoder::new(),
            frames: GameByteFrameDecoder::with_max_packet_length(max_packet_length),
            decryption: GameByteDecryption::new(),
            decoder: GameByteDecoder::new(),
            cipher: None,
            limiter,
            counters: RateCounters::new(now),
            state: ConnectionState::Registered,
        }
    }

    pub fn state(&self) -> (r: ConnectionState)
        ensures
            r == self.spec_state(),
    {
        self.state
    }

    /// Registration with the client manager succeeded.
    pub fn activate(&mut self)
        ensures
            final(self).spec_state() == if old(self).spec_state() == ConnectionState::Registered {
                ConnectionState::Active
            } else {
                old(self).spec_state()
            },
            final(self).wf() == old(self).wf(),
            final(self).buffered() == old(self).buffered(),
            final(self).cipher_state() == old(self).cipher_state(),
            final(self).policy_checked() == old(self).policy_checked(),
            final(self).rate() == old(self).rate(),
    {
        if self.state == ConnectionState::Registered {
            self.state = ConnectionState::Active;
        }
    }

    /// Installs the stream cipher keyed with the shared secret. A cipher,
    /// once installed, is never replaced: returns whether this call
    /// installed it.
    pub fn install_cipher(&mut self, key: &[u8]) -> (r: bool)
        requires
            old(self).wf(),
            key@.len() > 0,
        ensures
            final(self).wf(),
            r == (old(self).cipher_state() is None),
            r ==> final(self).cipher_state() == Some(crate::rc4::initial_state(key@)),
            !r ==> final(self).cipher_state() == old(self).cipher_state(),
            final(self).buffered() == old(self).buffered(),
            final(self).policy_checked() == old(self).policy_checked(),
            final(self).rate() == old(self).rate(),
            final(self).spec_state() == old(self).spec_state(),
    {
        if self.cipher.is_some() {
            return false;
        }
        self.cipher = Some(HabboRC4::new(key));
        true
    }

    /// Starts teardown; returns `true` the first time only, so that the
    /// caller stops the keepalive task, deregisters the client and drops the
    /// cipher exactly once.
    pub fn begin_close(&mut self) -> (r: bool)
        ensures
            r == (old(self).spec_state() != ConnectionState::Closing && old(self).spec_state()
                != ConnectionState::Closed),
            final(self).spec_state() == if r {
                ConnectionState::Closing
            } else {
                old(self).spec_state()
            },
            final(self).wf() == old(self).wf(),
    {
        if self.state == ConnectionState::Closing || self.state == ConnectionState::Closed {
            return false;
        }
        self.state = ConnectionState::Closing;
        true
    }

    /// Teardown is done: the cipher and buffers are released.
    pub fn finish_close(&mut self)
        requires
            old(self).wf(),
        ensures
            final(self).spec_state() == ConnectionState::Closed,
            final(self).cipher_state() is None,
            final(self).buffered() == Seq::<u8>::empty(),
            final(self).wf(),
    {
        self.cipher = None;
        self.frames.clear();
        self.state = ConnectionState::Closed;
    }

    /// Runs the bytes of one read through the pipeline at time `now`
    /// (milliseconds). On a fresh connection whose first byte is `<` the
    /// policy document is the reply and the connection closes; the frame
    /// decoder never sees those bytes. Otherwise every whole frame is cut,
    /// decrypted and split into opcode and body, messages over the rate
    /// limit are dropped, a delivered pong moves the keepalive deadline,
    /// and a declared length out of range closes the connection. Closing is
    /// left to the caller, through `begin_close`.
    pub fn on_read(&mut self, bytes: &[u8], now: u64, idle: &mut IdleTimeoutHandler) -> (r:
        ReadOutcome)
        requires
            old(self).wf(),
        ensures
            final(self).wf(),
            final(self).max_len() == old(self).max_len(),
            final(self).spec_state() == old(self).spec_state(),
            final(idle).spec_state() == old(idle).spec_state(),
            final(idle).spec_pong_timeout() == old(idle).spec_pong_timeout(),
            final(idle).spec_ping_schedule() == old(idle).spec_ping_schedule(),
            bytes@.len() > 0 ==> final(self).policy_checked(),
            bytes@.len() == 0 ==> {
                &&& r.reply is None
                &&& !r.close
                &&& r.messages@.len() == 0
                &&& final(self).policy_checked() == old(self).policy_checked()
                &&& final(self).buffered() == old(self).buffered()
                &&& final(self).cipher_state() == old(self).cipher_state()
                &&& final(self).rate() == old(self).rate()
                &&& final(idle).spec_last_pong() == old(idle).spec_last_pong()
            },
            bytes@.len() > 0 && !old(self).policy_checked() && bytes@[0] == POLICY_PROBE_BYTE
                ==> {
                &&& r.reply matches Some(p) && p@ == POLICY_XML.spec_bytes()
                &&& r.close
                &&& r.messages@.len() == 0
                &&& final(self).buffered() == old(self).buffered()
                &&& final(self).cipher_state() == old(self).cipher_state()
                &&& final(self).rate() == old(self).rate()
                &&& final(idle).spec_last_pong() == old(idle).spec_last_pong()
            },
            bytes@.len() > 0 && (old(self).policy_checked() || bytes@[0] != POLICY_PROBE_BYTE)
                ==> {
                let (fs, rest, invalid) = split_frames(
                    old(self).buffered() + bytes@,
                    old(self).max_len(),
                );
                let m0 = PipelineModel {
                    delivered: Seq::empty(),
                    cipher: old(self).cipher_state(),
                    rate: old(self).rate(),
                    pong_seen: false,
                };
                let m = process_frames(
                    m0,
                    fs,
                    now,
                    old(self).reset_time(),
                    old(self).max_counter(),
                );
                &&& r.reply is None
                &&& r.close == invalid
                &&& final(self).buffered() == rest
                &&& message_views(r.messages@) == m.delivered
                &&& final(self).cipher_state() == m.cipher
                &&& final(self).rate() == m.rate
                &&& final(idle).spec_last_pong() == if m.pong_seen {
                    now
                } else {
                    old(idle).spec_last_pong()
                }
            },
    {
        let mut messages: Vec<ClientMessage> = Vec::new();
        let data = match self.policy.decode(bytes) {
            None => {
                return ReadOutcome { reply: None, messages, close: false };
            },
            Some((data, is_policy)) => {
                if is_policy {
                    return ReadOutcome { reply: Some(data), messages, close: true };
                }
                data
            },
        };
        let ghost b0 = self.frames.buffered() + bytes@;
        let ghost max = self.frames.max_len();
        let ghost reset_time = self.limiter.spec_reset_time();
        let ghost max_counter = self.limiter.spec_max_counter();
        let ghost idle0 = idle.spec_last_pong();
        let ghost m0 = PipelineModel {
            delivered: Seq::empty(),
            cipher: self.cipher_state(),
            rate: self.counters.model(),
            pong_seen: false,
        };
        let ghost mut done: Seq<Seq<u8>> = Seq::empty();
        let mut input: Vec<u8> = data;
        let mut close = false;
        proof {
            assert(self.frames.buffered() + input@ == b0);
            assert(message_views(messages@) =~= Seq::<(u16, Seq<u8>)>::empty());
        }
        loop
            invariant_except_break
                self.wf(),
                self.policy.spec_checked(),
                self.state == old(self).state,
                self.frames.max_len() == max,
                self.limiter.spec_reset_time() == reset_time,
                self.limiter.spec_max_counter() == max_counter,
                !close,
                split_frames(b0, max) == ({
                    let (fs, r, inv) = split_frames(self.frames.buffered() + input@, max);
                    (done + fs, r, inv)
                }),
                ({
                    let m = process_frames(m0, done, now, reset_time, max_counter);
                    &&& message_views(messages@) == m.delivered
                    &&& self.cipher_state() == m.cipher
                    &&& self.counters.model() == m.rate
                    &&& idle.spec_last_pong() == if m.pong_seen {
                        now
                    } else {
                        idle0
                    }
                }),
                idle.spec_state() == old(idle).spec_state(),
                idle.spec_pong_timeout() == old(idle).spec_pong_timeout(),
                idle.spec_ping_schedule() == old(idle).spec_ping_schedule(),
            ensures
                self.wf(),
                self.policy.spec_checked(),
                self.state == old(self).state,
                self.frames.max_len() == max,
                ({
                    let (fs, rest, invalid) = split_frames(b0, max);
                    let m = process_frames(m0, fs, now, reset_time, max_counter);
                    &&& close == invalid
                    &&& self.frames.buffered() == rest
                    &&& message_views(messages@) == m.delivered
                    &&& self.cipher_state() == m.cipher
                    &&& self.counters.model() == m.rate
                    &&& idle.spec_last_pong() == if m.pong_seen {
                        now
                    } else {
                        idle0
                    }
                }),
                idle.spec_state() == old(idle).spec_state(),
                idle.spec_pong_timeout() == old(idle).spec_pong_timeout(),
                idle.spec_ping_schedule() == old(idle).spec_ping_schedule(),
            decreases self.frames.buffered().len() + input@.len(),
        {
            let ghost cur = self.frames.buffered() + input@;
            let step = self.frames.decode(input.as_slice());
            input = Vec::new();
            match step {
                Err(_) => {
                    close = true;
                    proof {
                        assert(done + Seq::<Seq<u8>>::empty() =~= done);
                    }
                    break;
                },
                Ok(None) => {
                    proof {
                        assert(done + Seq::<Seq<u8>>::empty() =~= done);
                    }
                    break;
                },
                Ok(Some(frame)) => {
                    let ghost f = frame@;
                    let ghost rest = self.frames.buffered();
                    proof {
                        assert(rest.len() < cur.len());
                        assert(split_frames(cur, max) == ({
                            let (fs, r, inv) = split_frames(rest, max);
                            (seq![f] + fs, r, inv)
                        }));
                        assert(self.frames.buffered() + input@ =~= rest);
                        let (fs2, r2, inv2) = split_frames(rest, max);
                        assert(done + (seq![f] + fs2) =~= done.push(f) + fs2);
                    }
                    self.handle_frame(frame, now, idle, &mut messages);
                    proof {
                        let new_done = done.push(f);
                        assert(new_done.drop_last() =~= done);
                        assert(new_done.last() == f);
                        done = new_done;
                    }
                },
            }
        }
        ReadOutcome { reply: None, messages, close }
    }

    /// One frame: decrypt, split into a message, rate-limit, touch the
    /// keepalive on a pong, and deliver.
    fn handle_frame(
        &mut self,
        frame: Vec<u8>,
        now: u64,
        idle: &mut IdleTimeoutHandler,
        messages: &mut Vec<ClientMessage>,
    )
        requires
            old(self).wf(),
        ensures
            final(self).wf(),
            final(self).frames == old(self).frames,
            final(self).limiter == old(self).limiter,
            final(self).policy == old(self).policy,
            final(self).state == old(self).state,
            final(idle).spec_state() == old(idle).spec_state(),
            final(idle).spec_pong_timeout() == old(idle).spec_pong_timeout(),
            final(idle).spec_ping_schedule() == old(idle).spec_ping_schedule(),
            ({
                let m1 = process_frame(
                    PipelineModel {
                        delivered: message_views(old(messages)@),
                        cipher: old(self).cipher_state(),
                        rate: old(self).rate(),
                        pong_seen: false,
                    },
                    frame@,
                    now,
                    old(self).reset_time(),
                    old(self).max_counter(),
                );
                &&& message_views(final(messages)@) == m1.delivered
                &&& final(self).cipher_state() == m1.cipher
                &&& final(self).rate() == m1.rate
                &&& final(idle).spec_last_pong() == if m1.pong_seen {
                    now
                } else {
                    old(idle).spec_last_pong()
                }
            }),
    {
        let mut data = frame;
        self.decryption.decode(&mut self.cipher, &mut data);
        match self.decoder.decode(data.as_slice()) {
            None => {},
            Some(message) => {
                let op = message.get_header();
                if self.limiter.decode(&mut self.counters, op, now) {
                    idle.on_client_message(&message, now);
                    let ghost before = messages@;
                    messages.push(message);
                    proof {
                        assert(message_views(messages@) =~= message_views(before).push(
                            (op, data@.skip(2)),
                        ));
                    }
                }
            },
        }
    }
}

} // verus!
