//! CTAP-HID packet framing: classification of raw 64-byte HID reports into
//! initialization and continuation packets, and the inverse encoding.

use vstd::prelude::*;

verus! {

/// Size of every HID report exchanged with the host.
pub const PACKET_SIZE: usize = 64;

/// Payload bytes carried by an initialization packet.
pub const INIT_PACKET_DATA: usize = 57;

/// Payload bytes carried by a continuation packet.
pub const CONT_PACKET_DATA: usize = 59;

/// Largest payload a logical message may declare: one initialization packet
/// plus 128 continuation packets (sequence numbers 0 to 127).
pub const MAX_PAYLOAD_LEN: usize = 7609;

/// Reserved channel on which only allocation requests travel.
pub const BROADCAST_CHANNEL: u32 = 0xFFFF_FFFF;

/// Command byte of an echo request.
pub const CMD_PING: u8 = 0x81;

/// Command byte of a channel allocation / re-initialization request.
pub const CMD_INIT: u8 = 0x86;

/// Command byte of a CTAP2 CBOR message.
pub const CMD_CBOR: u8 = 0x90;

/// Command byte of a cancellation request.
pub const CMD_CANCEL: u8 = 0x91;

/// Command byte of a keepalive notification.
pub const CMD_KEEPALIVE: u8 = 0xBB;

/// Command byte of an error response.
pub const CMD_ERROR: u8 = 0xBF;

/// Error code: declared message length is not acceptable.
pub const ERR_INVALID_LEN: u8 = 0x03;

/// Error code: continuation packet out of order or unexpected.
pub const ERR_INVALID_SEQ: u8 = 0x04;

/// Error code: no channel can be allocated right now.
pub const ERR_CHANNEL_BUSY: u8 = 0x06;

/// Error code: message addressed to a channel that is not allocated.
pub const ERR_INVALID_CHANNEL: u8 = 0x0B;

/// The 32-bit value stored big-endian in the first four bytes of a report.
pub open spec fn be32_value(b: Seq<u8>) -> u32
    recommends
        b.len() == 4,
{
    ((b[0] as u32) << 24) | ((b[1] as u32) << 16) | ((b[2] as u32) << 8) | (b[3] as u32)
}

/// The four big-endian bytes of a 32-bit value.
pub open spec fn be32_bytes(v: u32) -> Seq<u8> {
    seq![(v >> 24) as u8, (v >> 16) as u8, (v >> 8) as u8, v as u8]
}

/// The 16-bit value stored big-endian in two bytes.
pub open spec fn be16_value(hi: u8, lo: u8) -> u16 {
    ((hi as u16) << 8) | (lo as u16)
}

pub proof fn lemma_be32_round_trip(v: u32)
    ensures
        be32_value(be32_bytes(v)) == v,
{
    assert((((v >> 24) as u8 as u32) << 24) | (((v >> 16) as u8 as u32) << 16) | (((v
        >> 8) as u8 as u32) << 8) | (v as u8 as u32) == v) by (bit_vector);
}

pub proof fn lemma_be16_round_trip(v: u16)
    ensures
        be16_value((v >> 8) as u8, v as u8) == v,
{
    assert((((v >> 8) as u8 as u16) << 8) | (v as u8 as u16) == v) by (bit_vector);
}

/// A classified HID report: either the start of a logical message or one
/// of its continuations, told apart by the high bit of the fifth byte.
pub enum PacketModel {
    Init { channel: u32, command: u8, total_len: u16, data: Seq<u8> },
    Cont { channel: u32, seq: u8, data: Seq<u8> },
}

/// Structural bounds every decoded packet meets: an initialization packet
/// has its command high bit set and carries exactly 57 data bytes, a
/// continuation packet has it clear and carries exactly 59.
pub open spec fn packet_wf(p: PacketModel) -> bool {
    match p {
        PacketModel::Init { command, data, .. } => command >= 0x80 && data.len()
            == INIT_PACKET_DATA,
        PacketModel::Cont { seq, data, .. } => seq < 0x80 && data.len() == CONT_PACKET_DATA,
    }
}

/// What a raw 64-byte report means as a packet.
pub open spec fn packet_model_of(raw: Seq<u8>) -> PacketModel
    recommends
        raw.len() == PACKET_SIZE,
{
    if raw[4] >= 0x80 {
        PacketModel::Init {
            channel: be32_value(raw.subrange(0, 4)),
            command: raw[4],
            total_len: be16_value(raw[5], raw[6]),
            data: raw.subrange(7, 64),
        }
    } else {
        PacketModel::Cont {
            channel: be32_value(raw.subrange(0, 4)),
            seq: raw[4],
            data: raw.subrange(5, 64),
        }
    }
}

/// The raw 64 bytes that carry a packet on the wire.
pub open spec fn packet_bytes(p: PacketModel) -> Seq<u8>
    recommends
        packet_wf(p),
{
    match p {
        PacketModel::Init { channel, command, total_len, data } => be32_bytes(channel) + seq![
            command,
            (total_len >> 8) as u8,
            total_len as u8,
        ] + data,
        PacketModel::Cont { channel, seq, data } => be32_bytes(channel) + seq![seq] + data,
    }
}

/// Encoding a well-formed packet and classifying the bytes again gives the
/// packet back.
pub proof fn lemma_packet_round_trip(p: PacketModel)
    requires
        packet_wf(p),
    ensures
        packet_bytes(p).len() == PACKET_SIZE,
        packet_model_of(packet_bytes(p)) == p,
{
    match p {
        PacketModel::Init { channel, command, total_len, data } => {
            let raw = packet_bytes(p);
            assert(raw.len() == 64);
            lemma_be32_round_trip(channel);
            assert(raw.subrange(0, 4) =~= be32_bytes(channel));
            lemma_be16_round_trip(total_len);
            assert(raw.subrange(7, 64) =~= data);
        },
        PacketModel::Cont { channel, seq, data } => {
            let raw = packet_bytes(p);
            assert(raw.len() == 64);
            lemma_be32_round_trip(channel);
            assert(raw.subrange(0, 4) =~= be32_bytes(channel));
            assert(raw.subrange(5, 64) =~= data);
        },
    }
}

/// An owned, classified HID report.
pub enum Packet {
    Init { channel: u32, command: u8, total_len: u16, data: Vec<u8> },
    Cont { channel: u32, seq: u8, data: Vec<u8> },
}

impl View for Packet {
    type V = PacketModel;

    open spec fn view(&self) -> PacketModel {
        match self {
            Packet::Init { channel, command, total_len, data } => PacketModel::Init {
                channel: *channel,
                command: *command,
                total_len: *total_len,
                data: data@,
            },
            Packet::Cont { channel, seq, data } => PacketModel::Cont {
                channel: *channel,
                seq: *seq,
                data: data@,
            },
        }
    }
}

/// Copies `raw[from .. from + n]` into a fresh vector.
fn copy_range(raw: &Vec<u8>, from: usize, n: usize) -> (r: Vec<u8>)
    requires
        from + n <= raw@.len(),
    ensures
        r@ == raw@.subrange(from as int, from + n),
{
    let total = raw.len();
    assert(from + n <= total);
    let mut r: Vec<u8> = Vec::new();
    let mut i: usize = 0;
    while i < n
        invariant
            i <= n,
            from + n <= raw@.len(),
            from + n <= usize::MAX,
            r@ == raw@.subrange(from as int, from + i),
        decreases n - i,
    {
        r.push(raw[from + i]);
        i = i + 1;
        assert(r@ =~= raw@.subrange(from as int, from + i));
    }
    r
}

/// Reads the big-endian channel identifier from the head of a report.
fn read_channel(raw: &Vec<u8>) -> (c: u32)
    requires
        raw@.len() >= 4,
    ensures
        c == be32_value(raw@.subrange(0, 4)),
{
    let c = ((raw[0] as u32) << 24) | ((raw[1] as u32) << 16) | ((raw[2] as u32) << 8) | (
    raw[3] as u32);
    assert(raw@.subrange(0, 4)[0] == raw@[0]);
    assert(raw@.subrange(0, 4)[1] == raw@[1]);
    assert(raw@.subrange(0, 4)[2] == raw@[2]);
    assert(raw@.subrange(0, 4)[3] == raw@[3]);
    c
}

/// Classifies a raw 64-byte HID report as an initialization or a
/// continuation packet and extracts its fields.
pub fn decode_packet(raw: &Vec<u8>) -> (p: Packet)
    requires
        raw@.len() == PACKET_SIZE,
    ensures
        p@ == packet_model_of(raw@),
        packet_wf(p@),
{
    let channel = read_channel(raw);
    if raw[4] >= 0x80 {
        let total_len = ((raw[5] as u16) << 8) | (raw[6] as u16);
        let data = copy_range(raw, 7, 57);
        Packet::Init { channel, command: raw[4], total_len, data }
    } else {
        let data = copy_range(raw, 5, 59);
        Packet::Cont { channel, seq: raw[4], data }
    }
}

/// Appends the four big-endian bytes of `v` to `out`.
pub(crate) fn push_be32(out: &mut Vec<u8>, v: u32)
    ensures
        final(out)@ == old(out)@ + be32_bytes(v),
{
    out.push((v >> 24) as u8);
    out.push((v >> 16) as u8);
    out.push((v >> 8) as u8);
    out.push(v as u8);
    assert(out@ =~= old(out)@ + be32_bytes(v));
}

/// Writes a well-formed packet back into its 64-byte wire form.
pub fn encode_packet(p: &Packet) -> (r: Vec<u8>)
    requires
        packet_wf(p@),
    ensures
        r@ == packet_bytes(p@),
        r@.len() == PACKET_SIZE,
{
    proof {
        lemma_packet_round_trip(p@);
    }
    let mut r: Vec<u8> = Vec::new();
    match p {
        Packet::Init { channel, command, total_len, data } => {
            push_be32(&mut r, *channel);
            r.push(*command);
            r.push((*total_len >> 8) as u8);
            r.push(*total_len as u8);
            let mut i: usize = 0;
            while i < data.len()
                invariant
                    i <= data@.len(),
                    p@ matches PacketModel::Init { data: d, .. } && d == data@,
                    packet_wf(p@),
                    r@ == packet_bytes(p@).subrange(0, 7 + i),
                decreases data@.len() - i,
            {
                r.push(data[i]);
                i = i + 1;
                assert(r@ =~= packet_bytes(p@).subrange(0, 7 + i));
            }
            assert(r@ =~= packet_bytes(p@));
        },
        Packet::Cont { channel, seq, data } => {
            push_be32(&mut r, *channel);
            r.push(*seq);
            let mut i: usize = 0;
            while i < data.len()
                invariant
                    i <= data@.len(),
                    p@ matches PacketModel::Cont { data: d, .. } && d == data@,
                    packet_wf(p@),
                    r@ == packet_bytes(p@).subrange(0, 5 + i),
                decreases data@.len() - i,
            {
                r.push(data[i]);
                i = i + 1;
                assert(r@ =~= packet_bytes(p@).subrange(0, 5 + i));
            }
            assert(r@ =~= packet_bytes(p@));
        },
    }
    r
}

} // verus!
