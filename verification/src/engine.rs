//! The protocol engine: routes complete messages to their channels,
//! answers allocation requests on the broadcast channel, and coordinates
//! the two shutdown styles.

use vstd::prelude::*;
use crate::packet::{
    packet_model_of, be32_bytes, push_be32, decode_packet, BROADCAST_CHANNEL, CMD_INIT,
    CMD_ERROR, ERR_INVALID_LEN, ERR_CHANNEL_BUSY, ERR_INVALID_CHANNEL, PACKET_SIZE,
};
use crate::reassembly::{
    copy_prefix, feed_st, feed_out, AsmModel, FeedOut, FeedOutcome, Message, MsgModel,
    Reassembler,
};
use crate::registry::{
    allocatable, first_free, ChannelRegistry, ALLOC_SEARCH_BOUND,
};

verus! {

/// Length of the nonce an allocation request must carry.
pub const INIT_NONCE_LEN: usize = 8;

/// CTAP-HID protocol version advertised in allocation responses.
pub const PROTOCOL_VERSION: u8 = 2;

/// Major device version advertised in allocation responses.
pub const DEVICE_VERSION_MAJOR: u8 = 1;

/// Minor device version advertised in allocation responses.
pub const DEVICE_VERSION_MINOR: u8 = 0;

/// Build device version advertised in allocation responses.
pub const DEVICE_VERSION_BUILD: u8 = 0;

/// Capability flags advertised in allocation responses: CBOR messages
/// are understood.
pub const CAPABILITY_FLAGS: u8 = 0x04;

/// Which of the two shutdown styles the environment selected.
pub enum ShutdownType {
    /// Stop accepting new channels, let in-flight work finish.
    Graceful,
    /// Terminate at the end of the current cycle.
    Quick,
}

/// The engine over the device lifetime.
#[derive(Clone, Copy, Debug, PartialEq, Eq, Structural)]
pub enum EngineState {
    Running,
    DrainingGraceful,
    Terminated,
}

/// The mathematical state of the engine.
#[verifier::ext_equal]
pub struct EngineModel {
    pub state: EngineState,
    pub channels: Set<u32>,
    pub counter: u32,
    pub reasm: Map<u32, AsmModel>,
}

/// What the engine asks its caller to do after one report.
pub enum EngineAction {
    /// Nothing: the report was absorbed mid-message.
    Idle,
    /// Send this message back to the host.
    Reply(Message),
    /// Hand this complete message to the external command handler.
    Dispatch(Message),
}

/// The mathematical shape of an engine action.
pub enum ActModel {
    Idle,
    Reply(MsgModel),
    Dispatch(MsgModel),
}

impl View for EngineAction {
    type V = ActModel;

    open spec fn view(&self) -> ActModel {
        match self {
            EngineAction::Idle => ActModel::Idle,
            EngineAction::Reply(m) => ActModel::Reply(m@),
            EngineAction::Dispatch(m) => ActModel::Dispatch(m@),
        }
    }
}

/// The error message reported on `channel`.
pub open spec fn error_msg(channel: u32, code: u8) -> MsgModel {
    MsgModel { channel, command: CMD_ERROR, payload: seq![code] }
}

/// Payload of an allocation (or re-initialization) response: the echoed
/// nonce, the channel identifier big-endian, then version fields and
/// capability flags.
pub open spec fn init_response_payload(nonce: Seq<u8>, id: u32) -> Seq<u8> {
    nonce + be32_bytes(id) + seq![
        PROTOCOL_VERSION,
        DEVICE_VERSION_MAJOR,
        DEVICE_VERSION_MINOR,
        DEVICE_VERSION_BUILD,
        CAPABILITY_FLAGS,
    ]
}

/// Routing of one complete message: allocation requests on the broadcast
/// channel, re-initialization on a bound channel, dispatch of other
/// commands on bound channels, and the error answered in every other case.
pub open spec fn engine_route(m: EngineModel, msg: MsgModel) -> (EngineModel, ActModel) {
    if msg.command == CMD_INIT && msg.channel == BROADCAST_CHANNEL {
        if msg.payload.len() != INIT_NONCE_LEN {
            (m, ActModel::Reply(error_msg(BROADCAST_CHANNEL, ERR_INVALID_LEN)))
        } else if m.state is DrainingGraceful {
            (m, ActModel::Reply(error_msg(BROADCAST_CHANNEL, ERR_CHANNEL_BUSY)))
        } else {
            match first_free(m.channels, m.counter, ALLOC_SEARCH_BOUND as nat) {
                Some(id) => (
                    EngineModel {
                        state: m.state,
                        channels: m.channels.insert(id),
                        counter: id,
                        reasm: m.reasm,
                    },
                    ActModel::Reply(
                        MsgModel {
                            channel: BROADCAST_CHANNEL,
                            command: CMD_INIT,
                            payload: init_response_payload(msg.payload, id),
                        },
                    ),
                ),
                None => (m, ActModel::Reply(error_msg(BROADCAST_CHANNEL, ERR_CHANNEL_BUSY))),
            }
        }
    } else if msg.command == CMD_INIT {
        if m.channels.contains(msg.channel) {
            if msg.payload.len() != INIT_NONCE_LEN {
                (m, ActModel::Reply(error_msg(msg.channel, ERR_INVALID_LEN)))
            } else {
                (
                    m,
                    ActModel::Reply(
                        MsgModel {
                            channel: msg.channel,
                            command: CMD_INIT,
                            payload: init_response_payload(msg.payload, msg.channel),
                        },
                    ),
                )
            }
        } else {
            (m, ActModel::Reply(error_msg(msg.channel, ERR_INVALID_CHANNEL)))
        }
    } else {
        if msg.channel != BROADCAST_CHANNEL && m.channels.contains(msg.channel) {
            (m, ActModel::Dispatch(msg))
        } else {
            (m, ActModel::Reply(error_msg(msg.channel, ERR_INVALID_CHANNEL)))
        }
    }
}

/// One read cycle of the engine on a raw 64-byte report: classify, feed
/// the reassembler, then route whatever completed.
pub open spec fn engine_step(m: EngineModel, report: Seq<u8>) -> (EngineModel, ActModel) {
    let pkt = packet_model_of(report);
    let m1 = EngineModel {
        state: m.state,
        channels: m.channels,
        counter: m.counter,
        reasm: feed_st(m.reasm, pkt),
    };
    match feed_out(m.reasm, pkt) {
        FeedOut::Progress => (m1, ActModel::Idle),
        FeedOut::Reject { channel, code } => (m1, ActModel::Reply(error_msg(channel, code))),
        FeedOut::Done(msg) => engine_route(m1, msg),
    }
}

/// The state a shutdown signal moves the engine to: a quick shutdown
/// terminates outright, a graceful one starts draining a running engine
/// and otherwise changes nothing.
pub open spec fn shutdown_next(s: EngineState, k: ShutdownType) -> EngineState {
    match k {
        ShutdownType::Quick => EngineState::Terminated,
        ShutdownType::Graceful => if s is Running {
            EngineState::DrainingGraceful
        } else {
            s
        },
    }
}

/// The event loop's state: channel registry, reassembly buffers, and the
/// lifetime state machine.
pub struct ProtocolEngine {
    state: EngineState,
    registry: ChannelRegistry,
    reasm: Reassembler,
}

impl View for ProtocolEngine {
    type V = EngineModel;

    closed spec fn view(&self) -> EngineModel {
        EngineModel {
            state: self.state,
            channels: self.registry.active_set(),
            counter: self.registry.counter_spec(),
            reasm: self.reasm@,
        }
    }
}

impl ProtocolEngine {
    /// The registry and the reassembly buffers are sound.
    pub closed spec fn inv(&self) -> bool {
        self.registry.inv() && self.reasm.inv()
    }

    /// A fresh engine runs with no channels and nothing in flight.
    pub fn new() -> (r: Self)
        ensures
            r@.state is Running,
            r@.channels == Set::<u32>::empty(),
            r@.counter == 0,
            r@.reasm == Map::<u32, AsmModel>::empty(),
            r.inv(),
    {
        ProtocolEngine {
            state: EngineState::Running,
            registry: ChannelRegistry::new(),
            reasm: Reassembler::new(),
        }
    }

    /// The lifetime state the engine is in.
    pub fn state(&self) -> (s: EngineState)
        ensures
            s == self@.state,
    {
        self.state
    }

    /// How many channels are bound to sessions.
    pub fn active_sessions(&self) -> (n: usize)
        ensures
            n == self@.channels.len(),
    {
        self.registry.active_count()
    }

    /// Processes one raw 64-byte report and says what to do next, exactly
    /// as the step function describes.
    pub fn handle_report(&mut self, report: &Vec<u8>) -> (act: EngineAction)
        requires
            old(self).inv(),
            report@.len() == PACKET_SIZE,
            !(old(self)@.state is Terminated),
        ensures
            final(self).inv(),
            final(self)@ == engine_step(old(self)@, report@).0,
            act@ == engine_step(old(self)@, report@).1,
    {
        let ghost m0 = self@;
        let pkt = decode_packet(report);
        let out = self.reasm.feed(&pkt);
        let ghost m1 = EngineModel {
            state: m0.state,
            channels: m0.channels,
            counter: m0.counter,
            reasm: feed_st(m0.reasm, pkt@),
        };
        assert(self@ =~~= m1);
        match out {
            FeedOutcome::InProgress => EngineAction::Idle,
            FeedOutcome::Rejected { channel, code } => EngineAction::Reply(
                error_message(channel, code),
            ),
            FeedOutcome::Complete(msg) => {
                if msg.command == CMD_INIT && msg.channel == BROADCAST_CHANNEL {
                    if msg.payload.len() != INIT_NONCE_LEN {
                        EngineAction::Reply(
                            error_message(BROADCAST_CHANNEL, ERR_INVALID_LEN),
                        )
                    } else {
                        let draining = match self.state {
                            EngineState::DrainingGraceful => true,
                            _ => false,
                        };
                        if draining {
                            EngineAction::Reply(
                                error_message(BROADCAST_CHANNEL, ERR_CHANNEL_BUSY),
                            )
                        } else {
                            match self.registry.allocate() {
                                Ok(id) => {
                                    let payload = build_init_response(&msg.payload, id);
                                    assert(self@ =~~= engine_route(m1, msg@).0);
                                    EngineAction::Reply(
                                        Message {
                                            channel: BROADCAST_CHANNEL,
                                            command: CMD_INIT,
                                            payload,
                                        },
                                    )
                                },
                                Err(_) => EngineAction::Reply(
                                    error_message(BROADCAST_CHANNEL, ERR_CHANNEL_BUSY),
                                ),
                            }
                        }
                    }
                } else if msg.command == CMD_INIT {
                    let bound = self.registry.reset(msg.channel);
                    if bound {
                        if msg.payload.len() != INIT_NONCE_LEN {
                            EngineAction::Reply(error_message(msg.channel, ERR_INVALID_LEN))
                        } else {
                            let payload = build_init_response(&msg.payload, msg.channel);
                            EngineAction::Reply(
                                Message { channel: msg.channel, command: CMD_INIT, payload },
                            )
                        }
                    } else {
                        EngineAction::Reply(error_message(msg.channel, ERR_INVALID_CHANNEL))
                    }
                } else {
                    if msg.channel != BROADCAST_CHANNEL && self.registry.is_active(
                        msg.channel,
                    ) {
                        EngineAction::Dispatch(msg)
                    } else {
                        EngineAction::Reply(error_message(msg.channel, ERR_INVALID_CHANNEL))
                    }
                }
            },
        }
    }

    /// Reacts to whichever shutdown signal arrived: quick termination or
    /// the start of the graceful drain.
    pub fn handle_shutdown(&mut self, kind: ShutdownType)
        requires
            old(self).inv(),
        ensures
            final(self).inv(),
            final(self)@ == (EngineModel {
                state: shutdown_next(old(self)@.state, kind),
                channels: old(self)@.channels,
                counter: old(self)@.counter,
                reasm: old(self)@.reasm,
            }),
    {
        match kind {
            ShutdownType::Quick => {
                self.state = EngineState::Terminated;
            },
            ShutdownType::Graceful => {
                match self.state {
                    EngineState::Running => {
                        self.state = EngineState::DrainingGraceful;
                    },
                    _ => {},
                }
            },
        }
        assert(self@ =~~= EngineModel {
            state: shutdown_next(old(self)@.state, kind),
            channels: old(self)@.channels,
            counter: old(self)@.counter,
            reasm: old(self)@.reasm,
        });
    }

    /// Ends the graceful drain once its grace period has elapsed.
    pub fn finish_drain(&mut self)
        requires
            old(self).inv(),
            old(self)@.state is DrainingGraceful,
        ensures
            final(self).inv(),
            final(self)@ == (EngineModel {
                state: EngineState::Terminated,
                channels: old(self)@.channels,
                counter: old(self)@.counter,
                reasm: old(self)@.reasm,
            }),
    {
        self.state = EngineState::Terminated;
        assert(self@ =~~= EngineModel {
            state: EngineState::Terminated,
            channels: old(self)@.channels,
            counter: old(self)@.counter,
            reasm: old(self)@.reasm,
        });
    }
}

/// Builds the error message reported on `channel`.
fn error_message(channel: u32, code: u8) -> (m: Message)
    ensures
        m@ == error_msg(channel, code),
{
    let mut payload: Vec<u8> = Vec::new();
    payload.push(code);
    assert(payload@ =~= seq![code]);
    Message { channel, command: CMD_ERROR, payload }
}

/// Builds the payload of an allocation or re-initialization response.
fn build_init_response(nonce: &Vec<u8>, id: u32) -> (r: Vec<u8>)
    ensures
        r@ == init_response_payload(nonce@, id),
{
    let mut r = copy_prefix(nonce, nonce.len());
    push_be32(&mut r, id);
    r.push(PROTOCOL_VERSION);
    r.push(DEVICE_VERSION_MAJOR);
    r.push(DEVICE_VERSION_MINOR);
    r.push(DEVICE_VERSION_BUILD);
    r.push(CAPABILITY_FLAGS);
    assert(r@ =~= init_response_payload(nonce@, id));
    r
}

/// Broadcast-only allocation: a complete INIT on a non-broadcast channel
/// that is not bound is answered with the invalid-channel error and
/// allocates nothing.
pub proof fn lemma_broadcast_only_allocation(m: EngineModel, msg: MsgModel)
    requires
        msg.command == CMD_INIT,
        msg.channel != BROADCAST_CHANNEL,
        !m.channels.contains(msg.channel),
    ensures
        engine_route(m, msg).1 == ActModel::Reply(error_msg(msg.channel, ERR_INVALID_CHANNEL)),
        engine_route(m, msg).0 == m,
{
}

/// Nonce echo: a complete eight-byte INIT on the broadcast channel of a
/// running engine with a free identifier is answered on the broadcast
/// channel; the response payload opens with the request's nonce, followed
/// by the freshly allocated, non-reserved identifier big-endian.
pub proof fn lemma_init_nonce_echo(m: EngineModel, msg: MsgModel)
    requires
        msg.command == CMD_INIT,
        msg.channel == BROADCAST_CHANNEL,
        msg.payload.len() == INIT_NONCE_LEN,
        m.state is Running,
        first_free(m.channels, m.counter, ALLOC_SEARCH_BOUND as nat) is Some,
    ensures
        ({
            let id = first_free(m.channels, m.counter, ALLOC_SEARCH_BOUND as nat).unwrap();
            let (m2, act) = engine_route(m, msg);
            &&& act == ActModel::Reply(
                MsgModel {
                    channel: BROADCAST_CHANNEL,
                    command: CMD_INIT,
                    payload: init_response_payload(msg.payload, id),
                },
            )
            &&& init_response_payload(msg.payload, id).take(INIT_NONCE_LEN as int)
                == msg.payload
            &&& init_response_payload(msg.payload, id).subrange(8, 12) == be32_bytes(id)
            &&& allocatable(m.channels, id)
            &&& m2.channels == m.channels.insert(id)
        }),
{
    let id = first_free(m.channels, m.counter, ALLOC_SEARCH_BOUND as nat).unwrap();
    crate::registry::lemma_first_free_allocatable(
        m.channels,
        m.counter,
        ALLOC_SEARCH_BOUND as nat,
    );
    assert(init_response_payload(msg.payload, id).take(8) =~= msg.payload);
    assert(init_response_payload(msg.payload, id).subrange(8, 12) =~= be32_bytes(id));
}

/// Re-initialization idempotence: a complete eight-byte INIT on a channel
/// that is already bound is answered on that same channel, echoing the
/// identifier, and neither allocates nor removes anything.
pub proof fn lemma_reinit_preserves_channel(m: EngineModel, msg: MsgModel)
    requires
        msg.command == CMD_INIT,
        msg.channel != BROADCAST_CHANNEL,
        m.channels.contains(msg.channel),
        msg.payload.len() == INIT_NONCE_LEN,
    ensures
        engine_route(m, msg).1 == ActModel::Reply(
            MsgModel {
                channel: msg.channel,
                command: CMD_INIT,
                payload: init_response_payload(msg.payload, msg.channel),
            },
        ),
        engine_route(m, msg).0 == m,
        init_response_payload(msg.payload, msg.channel).subrange(8, 12) == be32_bytes(
            msg.channel,
        ),
{
    assert(init_response_payload(msg.payload, msg.channel).subrange(8, 12) =~= be32_bytes(
        msg.channel,
    ));
}

/// A framing error is answered with an error message on the offending
/// channel and nothing is handed to the command handler for it.
pub proof fn lemma_framing_error_never_dispatched(m: EngineModel, report: Seq<u8>)
    ensures
        feed_out(m.reasm, packet_model_of(report)) matches FeedOut::Reject { channel, code }
            ==> engine_step(m, report).1 == ActModel::Reply(error_msg(channel, code)),
{
}

/// Graceful shutdown: while the engine drains, no report allocates a new
/// channel; a complete broadcast allocation request is answered with the
/// transient-busy error; and a complete non-INIT message on a bound
/// channel is still dispatched.
pub proof fn lemma_graceful_drain(m: EngineModel, report: Seq<u8>)
    requires
        m.state is DrainingGraceful,
    ensures
        engine_step(m, report).0.channels == m.channels,
        engine_step(m, report).0.counter == m.counter,
        ({
            let out = feed_out(m.reasm, packet_model_of(report));
            out matches FeedOut::Done(msg) ==> {
                &&& (msg.command == CMD_INIT && msg.channel == BROADCAST_CHANNEL
                    && msg.payload.len() == INIT_NONCE_LEN ==> engine_step(m, report).1
                    == ActModel::Reply(error_msg(BROADCAST_CHANNEL, ERR_CHANNEL_BUSY)))
                &&& (msg.command != CMD_INIT && msg.channel != BROADCAST_CHANNEL
                    && m.channels.contains(msg.channel) ==> engine_step(m, report).1
                    == ActModel::Dispatch(msg))
            }
        }),
{
}

} // verus!
