use ctaphid::packet::{
    decode_packet, encode_packet, Packet, BROADCAST_CHANNEL, CMD_CANCEL, CMD_CBOR, CMD_ERROR,
    CMD_INIT, CMD_KEEPALIVE, CMD_PING, ERR_INVALID_LEN, ERR_INVALID_SEQ, MAX_PAYLOAD_LEN,
    PACKET_SIZE,
};
use ctaphid::reassembly::{serialize_message, FeedOutcome, Message, Reassembler};

fn init_report(channel: u32, command: u8, total_len: u16, data: &[u8]) -> Vec<u8> {
    assert!(data.len() <= 57);
    let mut r = vec![0u8; 64];
    r[0..4].copy_from_slice(&channel.to_be_bytes());
    r[4] = command;
    r[5..7].copy_from_slice(&total_len.to_be_bytes());
    r[7..7 + data.len()].copy_from_slice(data);
    r
}

fn cont_report(channel: u32, seq: u8, data: &[u8]) -> Vec<u8> {
    assert!(data.len() <= 59);
    let mut r = vec![0u8; 64];
    r[0..4].copy_from_slice(&channel.to_be_bytes());
    r[4] = seq;
    r[5..5 + data.len()].copy_from_slice(data);
    r
}

fn reassemble_all(reports: &[Vec<u8>]) -> Message {
    let mut reasm = Reassembler::new();
    for (i, report) in reports.iter().enumerate() {
        let pkt = decode_packet(report);
        match reasm.feed(&pkt) {
            FeedOutcome::InProgress => assert!(i + 1 < reports.len()),
            FeedOutcome::Complete(m) => {
                assert_eq!(i + 1, reports.len());
                return m;
            }
            FeedOutcome::Rejected { .. } => panic!("packet rejected"),
        }
    }
    panic!("message never completed");
}

fn round_trip(channel: u32, command: u8, payload: Vec<u8>) {
    let msg = Message { channel, command, payload: payload.clone() };
    let reports = serialize_message(&msg);
    for r in &reports {
        assert_eq!(r.len(), PACKET_SIZE);
    }
    let back = reassemble_all(&reports);
    assert_eq!(back.channel, channel);
    assert_eq!(back.command, command);
    assert_eq!(back.payload, payload);
}

#[test]
fn round_trip_empty_payload() {
    round_trip(0x0000_0001, CMD_PING, vec![]);
}

#[test]
fn round_trip_one_packet() {
    round_trip(0xDEAD_BEEF, CMD_CBOR, (0..57u8).collect());
}

#[test]
fn round_trip_two_packets() {
    round_trip(0x0000_0042, CMD_CBOR, (0..58u16).map(|x| x as u8).collect());
}

#[test]
fn round_trip_many_packets() {
    let payload: Vec<u8> = (0..1000u32).map(|x| (x % 251) as u8).collect();
    round_trip(7, CMD_CBOR, payload);
}

#[test]
fn round_trip_max_payload() {
    let payload: Vec<u8> = (0..MAX_PAYLOAD_LEN as u32).map(|x| (x % 241) as u8).collect();
    round_trip(0x1234_5678, CMD_CBOR, payload);
}

#[test]
fn serialized_init_packet_layout() {
    let msg = Message {
        channel: 0x0102_0304,
        command: CMD_INIT,
        payload: vec![0xAA, 0xBB, 0xCC, 0xDD, 0xEE],
    };
    let reports = serialize_message(&msg);
    assert_eq!(reports.len(), 1);
    let r = &reports[0];
    assert_eq!(&r[0..4], &[0x01, 0x02, 0x03, 0x04]);
    assert_eq!(r[4], 0x86);
    assert_eq!(&r[5..7], &[0x00, 0x05]);
    assert_eq!(&r[7..12], &[0xAA, 0xBB, 0xCC, 0xDD, 0xEE]);
    assert!(r[12..64].iter().all(|b| *b == 0));
}

#[test]
fn serialized_continuation_layout() {
    let payload: Vec<u8> = (0..120u8).collect();
    let msg = Message { channel: 5, command: CMD_CBOR, payload };
    let reports = serialize_message(&msg);
    assert_eq!(reports.len(), 3);
    assert_eq!(&reports[1][0..4], &[0, 0, 0, 5]);
    assert_eq!(reports[1][4], 0);
    assert_eq!(&reports[1][5..64], &(57..116u8).collect::<Vec<u8>>()[..]);
    assert_eq!(&reports[2][0..4], &[0, 0, 0, 5]);
    assert_eq!(reports[2][4], 1);
    assert_eq!(&reports[2][5..9], &[116, 117, 118, 119]);
    assert!(reports[2][9..64].iter().all(|b| *b == 0));
}

#[test]
fn decode_classifies_by_high_bit() {
    let raw = init_report(9, CMD_PING, 3, &[1, 2, 3]);
    match decode_packet(&raw) {
        Packet::Init { channel, command, total_len, data } => {
            assert_eq!(channel, 9);
            assert_eq!(command, CMD_PING);
            assert_eq!(total_len, 3);
            assert_eq!(data.len(), 57);
            assert_eq!(&data[0..3], &[1, 2, 3]);
        }
        Packet::Cont { .. } => panic!("classified as continuation"),
    }
    let raw = cont_report(9, 0x05, &[7; 59]);
    match decode_packet(&raw) {
        Packet::Cont { channel, seq, data } => {
            assert_eq!(channel, 9);
            assert_eq!(seq, 5);
            assert_eq!(data, vec![7u8; 59]);
        }
        Packet::Init { .. } => panic!("classified as initialization"),
    }
}

#[test]
fn encode_decode_packet_round_trip() {
    let p = Packet::Init {
        channel: 0xCAFE_F00D,
        command: CMD_CBOR,
        total_len: 300,
        data: vec![3; 57],
    };
    let raw = encode_packet(&p);
    assert_eq!(raw.len(), 64);
    match decode_packet(&raw) {
        Packet::Init { channel, command, total_len, data } => {
            assert_eq!(channel, 0xCAFE_F00D);
            assert_eq!(command, CMD_CBOR);
            assert_eq!(total_len, 300);
            assert_eq!(data, vec![3u8; 57]);
        }
        Packet::Cont { .. } => panic!("classified as continuation"),
    }
}

#[test]
fn continuation_out_of_order_rejected() {
    let mut reasm = Reassembler::new();
    let init = decode_packet(&init_report(3, CMD_CBOR, 150, &[1; 57]));
    assert!(matches!(reasm.feed(&init), FeedOutcome::InProgress));
    // seq 1 arrives where seq 0 is expected
    let bad = decode_packet(&cont_report(3, 1, &[2; 59]));
    match reasm.feed(&bad) {
        FeedOutcome::Rejected { channel, code } => {
            assert_eq!(channel, 3);
            assert_eq!(code, ERR_INVALID_SEQ);
        }
        _ => panic!("out-of-order continuation accepted"),
    }
    // the buffer was discarded: even the right sequence is now unexpected
    let cont0 = decode_packet(&cont_report(3, 0, &[2; 59]));
    assert!(matches!(reasm.feed(&cont0), FeedOutcome::Rejected { .. }));
}

#[test]
fn out_of_order_leaves_other_channels_alone() {
    let mut reasm = Reassembler::new();
    let init_a = decode_packet(&init_report(0xA, CMD_CBOR, 100, &[1; 57]));
    assert!(matches!(reasm.feed(&init_a), FeedOutcome::InProgress));
    let init_b = decode_packet(&init_report(0xB, CMD_CBOR, 100, &[9; 57]));
    assert!(matches!(reasm.feed(&init_b), FeedOutcome::InProgress));
    let bad_b = decode_packet(&cont_report(0xB, 2, &[9; 59]));
    assert!(matches!(reasm.feed(&bad_b), FeedOutcome::Rejected { channel: 0xB, .. }));
    // channel 0xA still completes
    let cont_a = decode_packet(&cont_report(0xA, 0, &[2; 59]));
    match reasm.feed(&cont_a) {
        FeedOutcome::Complete(m) => {
            assert_eq!(m.channel, 0xA);
            assert_eq!(m.payload.len(), 100);
            assert_eq!(&m.payload[0..57], &[1u8; 57][..]);
            assert_eq!(&m.payload[57..100], &[2u8; 43][..]);
        }
        _ => panic!("channel 0xA lost its buffer"),
    }
}

#[test]
fn unexpected_continuation_rejected() {
    let mut reasm = Reassembler::new();
    let stray = decode_packet(&cont_report(12, 0, &[0; 59]));
    match reasm.feed(&stray) {
        FeedOutcome::Rejected { channel, code } => {
            assert_eq!(channel, 12);
            assert_eq!(code, ERR_INVALID_SEQ);
        }
        _ => panic!("stray continuation accepted"),
    }
}

#[test]
fn oversized_declared_length_rejected() {
    let mut reasm = Reassembler::new();
    let too_big = decode_packet(&init_report(4, CMD_CBOR, (MAX_PAYLOAD_LEN + 1) as u16, &[1; 57]));
    match reasm.feed(&too_big) {
        FeedOutcome::Rejected { channel, code } => {
            assert_eq!(channel, 4);
            assert_eq!(code, ERR_INVALID_LEN);
        }
        _ => panic!("oversized declared length accepted"),
    }
    // nothing was left in progress on that channel
    let cont = decode_packet(&cont_report(4, 0, &[1; 59]));
    assert!(matches!(reasm.feed(&cont), FeedOutcome::Rejected { .. }));
}

#[test]
fn init_supersedes_in_progress_buffer() {
    let mut reasm = Reassembler::new();
    let first = decode_packet(&init_report(6, CMD_CBOR, 200, &[1; 57]));
    assert!(matches!(reasm.feed(&first), FeedOutcome::InProgress));
    // a new request supersedes the abandoned one
    let second = decode_packet(&init_report(6, CMD_PING, 10, &[5; 57]));
    match reasm.feed(&second) {
        FeedOutcome::Complete(m) => {
            assert_eq!(m.channel, 6);
            assert_eq!(m.command, CMD_PING);
            assert_eq!(m.payload, vec![5u8; 10]);
        }
        _ => panic!("fresh initialization did not restart the channel"),
    }
}

#[test]
fn protocol_constants_match_ctaphid() {
    assert_eq!(CMD_PING, 0x81);
    assert_eq!(CMD_INIT, 0x86);
    assert_eq!(CMD_CBOR, 0x90);
    assert_eq!(CMD_CANCEL, 0x91);
    assert_eq!(CMD_KEEPALIVE, 0xBB);
    assert_eq!(CMD_ERROR, 0xBF);
    assert_eq!(BROADCAST_CHANNEL, 0xFFFF_FFFF);
    assert_eq!(PACKET_SIZE, 64);
    assert_eq!(MAX_PAYLOAD_LEN, 57 + 128 * 59);
}
