//! Per-channel reassembly of logical messages from packet sequences, and
//! serialization of a message back into its packet sequence.

use vstd::prelude::*;
use vstd::assert_maps_equal;
use vstd::map::*;
use std::collections::HashMap;
use crate::packet::{
    Packet, PacketModel, packet_wf, packet_bytes, packet_model_of, encode_packet,
    lemma_packet_round_trip, INIT_PACKET_DATA, CONT_PACKET_DATA, MAX_PAYLOAD_LEN, PACKET_SIZE,
    ERR_INVALID_LEN, ERR_INVALID_SEQ,
};

verus! {

/// A complete logical message carried over one channel.
pub struct Message {
    pub channel: u32,
    pub command: u8,
    pub payload: Vec<u8>,
}

/// The mathematical shape of a message.
pub struct MsgModel {
    pub channel: u32,
    pub command: u8,
    pub payload: Seq<u8>,
}

impl View for Message {
    type V = MsgModel;

    open spec fn view(&self) -> MsgModel {
        MsgModel { channel: self.channel, command: self.command, payload: self.payload@ }
    }
}

/// One channel's in-progress reassembly.
pub struct Assembly {
    pub command: u8,
    pub total_len: u16,
    pub buf: Vec<u8>,
    pub next_seq: u8,
}

/// The mathematical shape of an in-progress reassembly.
pub struct AsmModel {
    pub command: u8,
    pub total_len: u16,
    pub buf: Seq<u8>,
    pub next_seq: nat,
}

impl View for Assembly {
    type V = AsmModel;

    open spec fn view(&self) -> AsmModel {
        AsmModel {
            command: self.command,
            total_len: self.total_len,
            buf: self.buf@,
            next_seq: self.next_seq as nat,
        }
    }
}

/// What feeding one packet produced.
pub enum FeedOutcome {
    /// The packet was absorbed; its message is not complete yet.
    InProgress,
    /// The packet completed a message.
    Complete(Message),
    /// The packet broke framing on its channel; the code is the CTAP-HID
    /// error to report there.
    Rejected { channel: u32, code: u8 },
}

/// The mathematical shape of a feed outcome.
pub enum FeedOut {
    Progress,
    Done(MsgModel),
    Reject { channel: u32, code: u8 },
}

impl View for FeedOutcome {
    type V = FeedOut;

    open spec fn view(&self) -> FeedOut {
        match self {
            FeedOutcome::InProgress => FeedOut::Progress,
            FeedOutcome::Complete(m) => FeedOut::Done(m@),
            FeedOutcome::Rejected { channel, code } => FeedOut::Reject {
                channel: *channel,
                code: *code,
            },
        }
    }
}

/// An in-progress entry is sound: the buffer holds exactly the packets
/// absorbed so far and stays strictly short of the declared total, which
/// itself respects the protocol bound.
pub open spec fn asm_wf(a: AsmModel) -> bool {
    &&& a.command >= 0x80
    &&& a.buf.len() == INIT_PACKET_DATA + CONT_PACKET_DATA * a.next_seq
    &&& a.buf.len() < a.total_len
    &&& a.total_len <= MAX_PAYLOAD_LEN
}

/// State transition of the reassembly map on one packet.
pub open spec fn feed_st(st: Map<u32, AsmModel>, p: PacketModel) -> Map<u32, AsmModel> {
    match p {
        PacketModel::Init { channel, command, total_len, data } => {
            if total_len > MAX_PAYLOAD_LEN || total_len <= INIT_PACKET_DATA {
                st.remove(channel)
            } else {
                st.insert(
                    channel,
                    AsmModel { command, total_len, buf: data, next_seq: 0 },
                )
            }
        },
        PacketModel::Cont { channel, seq, data } => {
            if !st.dom().contains(channel) {
                st
            } else if seq as nat != st[channel].next_seq {
                st.remove(channel)
            } else if st[channel].total_len - st[channel].buf.len() <= CONT_PACKET_DATA {
                st.remove(channel)
            } else {
                st.insert(
                    channel,
                    AsmModel {
                        command: st[channel].command,
                        total_len: st[channel].total_len,
                        buf: st[channel].buf + data,
                        next_seq: st[channel].next_seq + 1,
                    },
                )
            }
        },
    }
}

/// Outcome of feeding one packet into the reassembly map.
pub open spec fn feed_out(st: Map<u32, AsmModel>, p: PacketModel) -> FeedOut {
    match p {
        PacketModel::Init { channel, command, total_len, data } => {
            if total_len > MAX_PAYLOAD_LEN {
                FeedOut::Reject { channel, code: ERR_INVALID_LEN }
            } else if total_len <= INIT_PACKET_DATA {
                FeedOut::Done(
                    MsgModel { channel, command, payload: data.take(total_len as int) },
                )
            } else {
                FeedOut::Progress
            }
        },
        PacketModel::Cont { channel, seq, data } => {
            if !st.dom().contains(channel) || seq as nat != st[channel].next_seq {
                FeedOut::Reject { channel, code: ERR_INVALID_SEQ }
            } else if st[channel].total_len - st[channel].buf.len() <= CONT_PACKET_DATA {
                FeedOut::Done(
                    MsgModel {
                        channel,
                        command: st[channel].command,
                        payload: st[channel].buf + data.take(
                            st[channel].total_len - st[channel].buf.len(),
                        ),
                    },
                )
            } else {
                FeedOut::Progress
            }
        },
    }
}

/// Lifts a map of assemblies to its mathematical view.
pub open spec fn asm_map(m: Map<u32, Assembly>) -> Map<u32, AsmModel> {
    Map::new(|c: u32| m.dom().contains(c), |c: u32| m[c]@)
}

proof fn lemma_asm_map_insert(m: Map<u32, Assembly>, ch: u32, a: Assembly)
    ensures
        asm_map(m.insert(ch, a)) == asm_map(m).insert(ch, a@),
{
    assert_maps_equal!(asm_map(m.insert(ch, a)), asm_map(m).insert(ch, a@));
}

proof fn lemma_asm_map_remove(m: Map<u32, Assembly>, ch: u32)
    ensures
        asm_map(m.remove(ch)) == asm_map(m).remove(ch),
{
    assert_maps_equal!(asm_map(m.remove(ch)), asm_map(m).remove(ch));
}

/// Accumulates packets, one in-progress buffer per channel.
pub struct Reassembler {
    channels: HashMap<u32, Assembly>,
}

impl View for Reassembler {
    type V = Map<u32, AsmModel>;

    closed spec fn view(&self) -> Map<u32, AsmModel> {
        asm_map(self.channels@)
    }
}

impl Reassembler {
    /// Every tracked channel holds a sound in-progress entry.
    pub open spec fn inv(&self) -> bool {
        forall|c: u32| self@.dom().contains(c) ==> asm_wf(#[trigger] self@[c])
    }

    /// A fresh reassembler tracks nothing.
    pub fn new() -> (r: Self)
        ensures
            r@ == Map::<u32, AsmModel>::empty(),
            r.inv(),
    {
        let r = Reassembler { channels: HashMap::new() };
        proof {
            assert_maps_equal!(r@, Map::<u32, AsmModel>::empty());
        }
        r
    }

    /// Feeds one decoded packet.  An initialization packet (re)starts its
    /// channel, completing at once when the declared length fits in it and
    /// rejecting lengths over the protocol bound; a continuation packet must
    /// carry the next expected sequence number on a channel that is mid
    /// reassembly, and completes its message when the declared length is
    /// reached.  A rejection discards the channel's in-progress buffer and
    /// names the CTAP-HID error code to report.
    pub fn feed(&mut self, pkt: &Packet) -> (out: FeedOutcome)
        requires
            old(self).inv(),
            packet_wf(pkt@),
        ensures
            final(self).inv(),
            final(self)@ == feed_st(old(self)@, pkt@),
            out@ == feed_out(old(self)@, pkt@),
    {
        match pkt {
            Packet::Init { channel, command, total_len, data } => {
                if *total_len as usize > MAX_PAYLOAD_LEN {
                    self.channels.remove(channel);
                    proof {
                        lemma_asm_map_remove(old(self).channels@, *channel);
                    }
                    FeedOutcome::Rejected { channel: *channel, code: ERR_INVALID_LEN }
                } else if *total_len as usize <= INIT_PACKET_DATA {
                    self.channels.remove(channel);
                    proof {
                        lemma_asm_map_remove(old(self).channels@, *channel);
                    }
                    let payload = copy_prefix(data, *total_len as usize);
                    FeedOutcome::Complete(
                        Message { channel: *channel, command: *command, payload },
                    )
                } else {
                    let buf = copy_prefix(data, 57);
                    assert(buf@ =~= data@);
                    let a = Assembly {
                        command: *command,
                        total_len: *total_len,
                        buf,
                        next_seq: 0,
                    };
                    self.channels.insert(*channel, a);
                    proof {
                        lemma_asm_map_insert(old(self).channels@, *channel, a);
                    }
                    FeedOutcome::InProgress
                }
            },
            Packet::Cont { channel, seq, data } => {
                let found: bool;
                let mut command: u8 = 0;
                let mut total_len: u16 = 0;
                let mut next_seq: u8 = 0;
                let mut buf: Vec<u8> = Vec::new();
                match self.channels.get(channel) {
                    None => {
                        found = false;
                    },
                    Some(a) => {
                        found = true;
                        command = a.command;
                        total_len = a.total_len;
                        next_seq = a.next_seq;
                        buf = copy_prefix(&a.buf, a.buf.len());
                        assert(buf@ =~= old(self)@[*channel].buf);
                    },
                }
                if !found {
                    FeedOutcome::Rejected { channel: *channel, code: ERR_INVALID_SEQ }
                } else if *seq != next_seq {
                    self.channels.remove(channel);
                    proof {
                        lemma_asm_map_remove(old(self).channels@, *channel);
                    }
                    FeedOutcome::Rejected { channel: *channel, code: ERR_INVALID_SEQ }
                } else {
                    assert(asm_wf(old(self)@[*channel]));
                    let have = buf.len();
                    let need = total_len as usize - have;
                    if need <= CONT_PACKET_DATA {
                        let mut tail = copy_prefix(data, need);
                        buf.append(&mut tail);
                        self.channels.remove(channel);
                        proof {
                            lemma_asm_map_remove(old(self).channels@, *channel);
                        }
                        FeedOutcome::Complete(
                            Message { channel: *channel, command, payload: buf },
                        )
                    } else {
                        let mut tail = copy_prefix(data, 59);
                        assert(tail@ =~= data@);
                        buf.append(&mut tail);
                        proof {
                            assert(old(self)@[*channel].next_seq < 128) by {
                                assert(old(self)@[*channel].buf.len() == 57 + 59 * old(
                                    self,
                                )@[*channel].next_seq);
                                assert(old(self)@[*channel].buf.len() < 7609);
                            };
                        }
                        let b = Assembly { command, total_len, buf, next_seq: next_seq + 1 };
                        self.channels.insert(*channel, b);
                        proof {
                            lemma_asm_map_insert(old(self).channels@, *channel, b);
                        }
                        FeedOutcome::InProgress
                    }
                }
            },
        }
    }
}

/// The channel a packet is addressed to.
pub open spec fn packet_channel(p: PacketModel) -> u32 {
    match p {
        PacketModel::Init { channel, .. } => channel,
        PacketModel::Cont { channel, .. } => channel,
    }
}

/// Bytes `start .. start + n` of a payload, zero-filled past its end.
pub open spec fn padded_chunk(p: Seq<u8>, start: int, n: int) -> Seq<u8> {
    Seq::new(n as nat, |i: int| if start + i < p.len() { p[start + i] } else { 0u8 })
}

/// How many continuation packets a payload of `len` bytes needs.
pub open spec fn n_cont_packets(len: nat) -> nat {
    if len <= INIT_PACKET_DATA {
        0
    } else {
        (((len - INIT_PACKET_DATA) + (CONT_PACKET_DATA - 1)) / (CONT_PACKET_DATA as int)) as nat
    }
}

/// The packet sequence that carries a message: one initialization packet
/// with the first 57 payload bytes and the big-endian total length, then
/// continuation packets of 59 bytes each under increasing sequence numbers.
pub open spec fn packet_plan(channel: u32, command: u8, payload: Seq<u8>) -> Seq<PacketModel> {
    seq![
        PacketModel::Init {
            channel,
            command,
            total_len: payload.len() as u16,
            data: padded_chunk(payload, 0, INIT_PACKET_DATA as int),
        },
    ] + Seq::new(
        n_cont_packets(payload.len()),
        |i: int|
            PacketModel::Cont {
                channel,
                seq: i as u8,
                data: padded_chunk(
                    payload,
                    INIT_PACKET_DATA + CONT_PACKET_DATA * i,
                    CONT_PACKET_DATA as int,
                ),
            },
    )
}

/// Every packet of a plan is well formed.
pub proof fn lemma_plan_wf(channel: u32, command: u8, payload: Seq<u8>)
    requires
        command >= 0x80,
        payload.len() <= MAX_PAYLOAD_LEN,
    ensures
        forall|i: int|
            0 <= i < packet_plan(channel, command, payload).len() ==> packet_wf(
                #[trigger] packet_plan(channel, command, payload)[i],
            ),
{
    let plan = packet_plan(channel, command, payload);
    assert(n_cont_packets(payload.len()) <= 128);
    assert forall|i: int| 0 <= i < plan.len() implies packet_wf(#[trigger] plan[i]) by {
        if i >= 1 {
            assert(plan[i] matches PacketModel::Cont { seq, data, .. } && seq == (i - 1) as u8
                && data.len() == CONT_PACKET_DATA);
        }
    }
}

/// Copies `p[start .. start + n]` into a fresh vector, zero-filling past
/// the end of `p`.
fn chunk_vec(p: &Vec<u8>, start: usize, n: usize) -> (r: Vec<u8>)
    requires
        start + n <= usize::MAX,
    ensures
        r@ == padded_chunk(p@, start as int, n as int),
{
    let len = p.len();
    let mut r: Vec<u8> = Vec::new();
    let mut i: usize = 0;
    while i < n
        invariant
            i <= n,
            start + n <= usize::MAX,
            len == p@.len(),
            r@ == padded_chunk(p@, start as int, i as int),
        decreases n - i,
    {
        if start + i < len {
            r.push(p[start + i]);
        } else {
            r.push(0);
        }
        i = i + 1;
        assert(r@ =~= padded_chunk(p@, start as int, i as int));
    }
    r
}

/// Serializes a message into the raw 64-byte reports of its packet plan.
pub fn serialize_message(msg: &Message) -> (r: Vec<Vec<u8>>)
    requires
        msg.command >= 0x80,
        msg.payload@.len() <= MAX_PAYLOAD_LEN,
    ensures
        r@.len() == packet_plan(msg@.channel, msg@.command, msg@.payload).len(),
        forall|i: int|
            0 <= i < r@.len() ==> #[trigger] r@[i]@ == packet_bytes(
                packet_plan(msg@.channel, msg@.command, msg@.payload)[i],
            ) && r@[i]@.len() == PACKET_SIZE,
{
    let ghost plan = packet_plan(msg@.channel, msg@.command, msg@.payload);
    proof {
        lemma_plan_wf(msg@.channel, msg@.command, msg@.payload);
    }
    let total = msg.payload.len();
    let mut r: Vec<Vec<u8>> = Vec::new();
    let init_data = chunk_vec(&msg.payload, 0, 57);
    let p0 = Packet::Init {
        channel: msg.channel,
        command: msg.command,
        total_len: total as u16,
        data: init_data,
    };
    assert(p0@ == plan[0]);
    proof {
        lemma_packet_round_trip(plan[0]);
    }
    r.push(encode_packet(&p0));
    let n: usize = if total <= 57 {
        0
    } else {
        (total - 57 + 58) / 59
    };
    assert(n == n_cont_packets(msg.payload@.len()));
    let mut k: usize = 0;
    while k < n
        invariant
            k <= n,
            n == n_cont_packets(msg@.payload.len()),
            n <= 128,
            msg@.payload.len() <= MAX_PAYLOAD_LEN,
            msg@.command >= 0x80,
            plan == packet_plan(msg@.channel, msg@.command, msg@.payload),
            r@.len() == 1 + k,
            forall|i: int|
                0 <= i < r@.len() ==> #[trigger] r@[i]@ == packet_bytes(plan[i])
                    && r@[i]@.len() == PACKET_SIZE,
        decreases n - k,
    {
        proof {
            lemma_plan_wf(msg@.channel, msg@.command, msg@.payload);
        }
        let data = chunk_vec(&msg.payload, 57 + 59 * k, 59);
        let pk = Packet::Cont { channel: msg.channel, seq: k as u8, data };
        assert(pk@ == plan[1 + k]);
        proof {
            lemma_packet_round_trip(plan[1 + k]);
        }
        r.push(encode_packet(&pk));
        k = k + 1;
    }
    r
}

/// The reassembly state after feeding a packet sequence in order.
pub open spec fn feed_all_st(st: Map<u32, AsmModel>, pkts: Seq<PacketModel>) -> Map<
    u32,
    AsmModel,
>
    decreases pkts.len(),
{
    if pkts.len() == 0 {
        st
    } else {
        feed_st(feed_all_st(st, pkts.drop_last()), pkts.last())
    }
}

/// The in-progress entry sitting on `channel` after the initialization
/// packet and the first `k` continuation packets of a plan.
pub open spec fn plan_asm(command: u8, payload: Seq<u8>, k: int) -> AsmModel {
    AsmModel {
        command,
        total_len: payload.len() as u16,
        buf: payload.take(INIT_PACKET_DATA + CONT_PACKET_DATA * k),
        next_seq: k as nat,
    }
}

proof fn lemma_plan_feed_prefix(
    st0: Map<u32, AsmModel>,
    channel: u32,
    command: u8,
    payload: Seq<u8>,
    k: int,
)
    requires
        command >= 0x80,
        INIT_PACKET_DATA < payload.len() <= MAX_PAYLOAD_LEN,
        0 <= k < n_cont_packets(payload.len()),
    ensures
        feed_all_st(st0, packet_plan(channel, command, payload).take(1 + k)) == st0.insert(
            channel,
            plan_asm(command, payload, k),
        ),
    decreases k,
{
    let plan = packet_plan(channel, command, payload);
    let total = payload.len() as int;
    let n = n_cont_packets(payload.len()) as int;
    assert(59 * n >= total - 57 && 59 * (n - 1) < total - 57);
    if k == 0 {
        assert(plan.take(1).drop_last() =~= Seq::<PacketModel>::empty());
        assert(plan.take(1).last() == plan[0]);
        assert(feed_all_st(st0, Seq::<PacketModel>::empty()) == st0);
        assert(padded_chunk(payload, 0, 57) =~= payload.take(57));
    } else {
        lemma_plan_feed_prefix(st0, channel, command, payload, k - 1);
        let prior = st0.insert(channel, plan_asm(command, payload, k - 1));
        assert(plan.take(1 + k).drop_last() =~= plan.take(k));
        assert(plan.take(1 + k).last() == plan[k]);
        assert(plan[k] matches PacketModel::Cont { channel: c, seq, data } && c == channel && seq
            == (k - 1) as u8 && data == padded_chunk(payload, 57 + 59 * (k - 1), 59));
        assert(prior[channel].next_seq == (k - 1) as nat);
        assert(prior[channel].buf.len() == 57 + 59 * (k - 1));
        assert(total - 57 > 59 * k);
        assert(prior[channel].total_len - prior[channel].buf.len() > 59);
        assert(payload.take(57 + 59 * (k - 1)) + padded_chunk(payload, 57 + 59 * (k - 1), 59)
            =~= payload.take(57 + 59 * k));
        assert(feed_st(prior, plan[k]) == st0.insert(channel, plan_asm(command, payload, k)))
            by {
            assert(prior.insert(channel, plan_asm(command, payload, k)) == st0.insert(
                channel,
                plan_asm(command, payload, k),
            ));
        };
    }
}

proof fn lemma_plan_completes(
    st0: Map<u32, AsmModel>,
    channel: u32,
    command: u8,
    payload: Seq<u8>,
)
    requires
        command >= 0x80,
        payload.len() <= MAX_PAYLOAD_LEN,
    ensures
        ({
            let plan = packet_plan(channel, command, payload);
            feed_out(feed_all_st(st0, plan.drop_last()), plan.last()) == FeedOut::Done(
                MsgModel { channel, command, payload },
            )
        }),
{
    let plan = packet_plan(channel, command, payload);
    let total = payload.len() as int;
    let n = n_cont_packets(payload.len()) as int;
    if total <= 57 {
        assert(plan.len() == 1);
        assert(plan.drop_last() =~= Seq::<PacketModel>::empty());
        assert(feed_all_st(st0, Seq::<PacketModel>::empty()) == st0);
        assert(plan.last() == plan[0]);
        assert(padded_chunk(payload, 0, 57).take(total) =~= payload);
    } else {
        assert(59 * n >= total - 57 && 59 * (n - 1) < total - 57);
        lemma_plan_feed_prefix(st0, channel, command, payload, n - 1);
        let prior = st0.insert(channel, plan_asm(command, payload, n - 1));
        assert(plan.drop_last() =~= plan.take(1 + (n - 1)));
        assert(plan.last() == plan[n]);
        assert(plan[n] matches PacketModel::Cont { channel: c, seq, data } && c == channel && seq
            == (n - 1) as u8 && data == padded_chunk(payload, 57 + 59 * (n - 1), 59));
        assert(prior[channel].next_seq == (n - 1) as nat);
        assert(prior[channel].buf.len() == 57 + 59 * (n - 1));
        let need = total - (57 + 59 * (n - 1));
        assert(0 < need <= 59);
        assert(payload.take(57 + 59 * (n - 1)) + padded_chunk(
            payload,
            57 + 59 * (n - 1),
            59,
        ).take(need) =~= payload);
    }
}

proof fn lemma_plan_progresses(
    st0: Map<u32, AsmModel>,
    channel: u32,
    command: u8,
    payload: Seq<u8>,
    i: int,
)
    requires
        command >= 0x80,
        payload.len() <= MAX_PAYLOAD_LEN,
        0 <= i < packet_plan(channel, command, payload).len() - 1,
    ensures
        ({
            let plan = packet_plan(channel, command, payload);
            feed_out(feed_all_st(st0, plan.take(i)), plan[i]) is Progress
        }),
{
    let plan = packet_plan(channel, command, payload);
    let total = payload.len() as int;
    let n = n_cont_packets(payload.len()) as int;
    assert(59 * n >= total - 57 && 59 * (n - 1) < total - 57);
    if i == 0 {
        assert(plan.take(0) =~= Seq::<PacketModel>::empty());
        assert(feed_all_st(st0, plan.take(0)) == st0);
        assert(total > 57);
    } else {
        lemma_plan_feed_prefix(st0, channel, command, payload, i - 1);
        assert(plan.take(i) =~= plan.take(1 + (i - 1)));
        let prior = st0.insert(channel, plan_asm(command, payload, i - 1));
        assert(plan[i] matches PacketModel::Cont { channel: c, seq, .. } && c == channel && seq
            == (i - 1) as u8);
        assert(prior[channel].next_seq == (i - 1) as nat);
        assert(prior[channel].buf.len() == 57 + 59 * (i - 1));
        assert(total - 57 > 59 * i);
        assert(prior[channel].total_len - prior[channel].buf.len() > 59);
    }
}

/// Round trip: reassembling a serialized message reproduces it.  Feeding
/// the packets of a message's plan, in order, into any reassembly state
/// completes exactly that message on the final packet, every earlier packet
/// reporting progress; and each plan packet survives its trip through the
/// 64-byte wire form unchanged.
pub proof fn lemma_serialize_reassemble_round_trip(
    st0: Map<u32, AsmModel>,
    channel: u32,
    command: u8,
    payload: Seq<u8>,
)
    requires
        command >= 0x80,
        payload.len() <= MAX_PAYLOAD_LEN,
    ensures
        ({
            let plan = packet_plan(channel, command, payload);
            &&& forall|i: int|
                0 <= i < plan.len() ==> packet_model_of(
                    packet_bytes(#[trigger] plan[i]),
                ) == plan[i]
            &&& feed_out(feed_all_st(st0, plan.drop_last()), plan.last()) == FeedOut::Done(
                MsgModel { channel, command, payload },
            )
            &&& forall|i: int|
                0 <= i < plan.len() - 1 ==> feed_out(
                    feed_all_st(st0, #[trigger] plan.take(i)),
                    plan[i],
                ) is Progress
        }),
{
    let plan = packet_plan(channel, command, payload);
    lemma_plan_wf(channel, command, payload);
    assert forall|i: int| 0 <= i < plan.len() implies packet_model_of(
        packet_bytes(#[trigger] plan[i]),
    ) == plan[i] by {
        lemma_packet_round_trip(plan[i]);
    }
    lemma_plan_completes(st0, channel, command, payload);
    assert forall|i: int| 0 <= i < plan.len() - 1 implies feed_out(
        feed_all_st(st0, #[trigger] plan.take(i)),
        plan[i],
    ) is Progress by {
        lemma_plan_progresses(st0, channel, command, payload, i);
    }
}

/// Continuation ordering: a continuation packet whose sequence number is
/// not the next expected one on its channel (or whose channel has nothing
/// in progress) is rejected with the sequencing error, the channel's
/// in-progress buffer is discarded, and no other channel's buffer changes.
pub proof fn lemma_out_of_order_rejected(st: Map<u32, AsmModel>, p: PacketModel, other: u32)
    requires
        p matches PacketModel::Cont { channel, seq, .. } && (!st.dom().contains(channel) || seq
            as nat != st[channel].next_seq),
        other != packet_channel(p),
    ensures
        feed_out(st, p) == (FeedOut::Reject {
            channel: packet_channel(p),
            code: ERR_INVALID_SEQ,
        }),
        !feed_all_st(st, seq![p]).dom().contains(packet_channel(p)),
        feed_all_st(st, seq![p]).dom().contains(other) == st.dom().contains(other),
        st.dom().contains(other) ==> feed_all_st(st, seq![p])[other] == st[other],
{
    assert(seq![p].drop_last() =~= Seq::<PacketModel>::empty());
    assert(feed_all_st(st, Seq::<PacketModel>::empty()) == st);
    assert(seq![p].last() == p);
    assert(feed_all_st(st, seq![p]) == feed_st(st, p));
}

/// Feeding a packet never touches another channel's in-progress buffer.
pub proof fn lemma_channel_isolation(st: Map<u32, AsmModel>, p: PacketModel, other: u32)
    requires
        other != packet_channel(p),
    ensures
        feed_st(st, p).dom().contains(other) == st.dom().contains(other),
        st.dom().contains(other) ==> feed_st(st, p)[other] == st[other],
{
}

/// Oversized declared length: an initialization packet whose declared total
/// exceeds the protocol bound is rejected at once with the length error and
/// leaves nothing in progress on its channel.
pub proof fn lemma_oversized_init_rejected(st: Map<u32, AsmModel>, p: PacketModel)
    requires
        p matches PacketModel::Init { total_len, .. } && total_len > MAX_PAYLOAD_LEN,
    ensures
        feed_out(st, p) == (FeedOut::Reject {
            channel: packet_channel(p),
            code: ERR_INVALID_LEN,
        }),
        !feed_st(st, p).dom().contains(packet_channel(p)),
{
}

/// Copies the first `n` bytes of `src` into a fresh vector.
pub(crate) fn copy_prefix(src: &Vec<u8>, n: usize) -> (r: Vec<u8>)
    requires
        n <= src@.len(),
    ensures
        r@ == src@.take(n as int),
{
    let mut r: Vec<u8> = Vec::new();
    let mut i: usize = 0;
    while i < n
        invariant
            i <= n,
            n <= src@.len(),
            r@ == src@.take(i as int),
        decreases n - i,
    {
        r.push(src[i]);
        i = i + 1;
        assert(r@ =~= src@.take(i as int));
    }
    r
}

} // verus!

