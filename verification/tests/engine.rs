use ctaphid::engine::{
    EngineAction, EngineState, ProtocolEngine, ShutdownType, CAPABILITY_FLAGS,
    DEVICE_VERSION_BUILD, DEVICE_VERSION_MAJOR, DEVICE_VERSION_MINOR, PROTOCOL_VERSION,
};
use ctaphid::packet::{
    BROADCAST_CHANNEL, CMD_ERROR, CMD_INIT, CMD_PING, ERR_CHANNEL_BUSY, ERR_INVALID_CHANNEL,
    ERR_INVALID_LEN,
};
use ctaphid::registry::{Channel, ChannelRegistry};
use ctaphid::transport::{route_event, EventDisposition, TransportEvent};

fn init_report(channel: u32, command: u8, total_len: u16, data: &[u8]) -> Vec<u8> {
    assert!(data.len() <= 57);
    let mut r = vec![0u8; 64];
    r[0..4].copy_from_slice(&channel.to_be_bytes());
    r[4] = command;
    r[5..7].copy_from_slice(&total_len.to_be_bytes());
    r[7..7 + data.len()].copy_from_slice(data);
    r
}

const NONCE: [u8; 8] = [0x01, 0x02, 0x03, 0x04, 0x05, 0x06, 0x07, 0x08];

fn broadcast_init(nonce: &[u8]) -> Vec<u8> {
    init_report(BROADCAST_CHANNEL, CMD_INIT, nonce.len() as u16, nonce)
}

/// Sends an allocation request and returns the allocated channel id.
fn allocate_channel(engine: &mut ProtocolEngine) -> u32 {
    match engine.handle_report(&broadcast_init(&NONCE)) {
        EngineAction::Reply(m) => {
            assert_eq!(m.channel, BROADCAST_CHANNEL);
            assert_eq!(m.command, CMD_INIT);
            assert_eq!(m.payload.len(), 17);
            u32::from_be_bytes(m.payload[8..12].try_into().unwrap())
        }
        _ => panic!("allocation request not answered"),
    }
}

#[test]
fn nonce_echo_on_allocation() {
    let mut engine = ProtocolEngine::new();
    match engine.handle_report(&broadcast_init(&NONCE)) {
        EngineAction::Reply(m) => {
            assert_eq!(m.channel, BROADCAST_CHANNEL);
            assert_eq!(m.command, CMD_INIT);
            assert_eq!(&m.payload[0..8], &NONCE);
            let id = u32::from_be_bytes(m.payload[8..12].try_into().unwrap());
            assert_ne!(id, 0);
            assert_ne!(id, BROADCAST_CHANNEL);
            assert_eq!(m.payload[12], PROTOCOL_VERSION);
            assert_eq!(m.payload[13], DEVICE_VERSION_MAJOR);
            assert_eq!(m.payload[14], DEVICE_VERSION_MINOR);
            assert_eq!(m.payload[15], DEVICE_VERSION_BUILD);
            assert_eq!(m.payload[16], CAPABILITY_FLAGS);
        }
        _ => panic!("allocation request not answered"),
    }
    assert_eq!(engine.active_sessions(), 1);
}

#[test]
fn allocated_ids_are_distinct() {
    let mut engine = ProtocolEngine::new();
    let mut seen = std::collections::HashSet::new();
    for _ in 0..100 {
        let id = allocate_channel(&mut engine);
        assert_ne!(id, 0);
        assert_ne!(id, BROADCAST_CHANNEL);
        assert!(seen.insert(id), "identifier handed out twice");
    }
    assert_eq!(engine.active_sessions(), 100);
}

#[test]
fn broadcast_init_with_bad_nonce_length() {
    let mut engine = ProtocolEngine::new();
    let short = [1u8, 2, 3];
    match engine.handle_report(&broadcast_init(&short)) {
        EngineAction::Reply(m) => {
            assert_eq!(m.channel, BROADCAST_CHANNEL);
            assert_eq!(m.command, CMD_ERROR);
            assert_eq!(m.payload, vec![ERR_INVALID_LEN]);
        }
        _ => panic!("bad nonce length not answered"),
    }
    assert_eq!(engine.active_sessions(), 0);
}

#[test]
fn init_on_unallocated_channel_is_routing_error() {
    let mut engine = ProtocolEngine::new();
    let report = init_report(5, CMD_INIT, 8, &NONCE);
    match engine.handle_report(&report) {
        EngineAction::Reply(m) => {
            assert_eq!(m.channel, 5);
            assert_eq!(m.command, CMD_ERROR);
            assert_eq!(m.payload, vec![ERR_INVALID_CHANNEL]);
        }
        _ => panic!("stray INIT not answered"),
    }
    // not treated as an allocation request
    assert_eq!(engine.active_sessions(), 0);
}

#[test]
fn reinit_preserves_channel_id() {
    let mut engine = ProtocolEngine::new();
    let id = allocate_channel(&mut engine);
    let fresh_nonce = [0x11u8, 0x12, 0x13, 0x14, 0x15, 0x16, 0x17, 0x18];
    let report = init_report(id, CMD_INIT, 8, &fresh_nonce);
    match engine.handle_report(&report) {
        EngineAction::Reply(m) => {
            assert_eq!(m.channel, id);
            assert_eq!(m.command, CMD_INIT);
            assert_eq!(&m.payload[0..8], &fresh_nonce);
            let echoed = u32::from_be_bytes(m.payload[8..12].try_into().unwrap());
            assert_eq!(echoed, id);
        }
        _ => panic!("re-initialization not answered"),
    }
    // no new identifier was allocated
    assert_eq!(engine.active_sessions(), 1);
}

#[test]
fn message_on_active_channel_is_dispatched() {
    let mut engine = ProtocolEngine::new();
    let id = allocate_channel(&mut engine);
    let report = init_report(id, CMD_PING, 4, &[9, 8, 7, 6]);
    match engine.handle_report(&report) {
        EngineAction::Dispatch(m) => {
            assert_eq!(m.channel, id);
            assert_eq!(m.command, CMD_PING);
            assert_eq!(m.payload, vec![9, 8, 7, 6]);
        }
        _ => panic!("complete message not dispatched"),
    }
}

#[test]
fn message_on_unknown_channel_is_routing_error() {
    let mut engine = ProtocolEngine::new();
    let report = init_report(77, CMD_PING, 1, &[0]);
    match engine.handle_report(&report) {
        EngineAction::Reply(m) => {
            assert_eq!(m.channel, 77);
            assert_eq!(m.command, CMD_ERROR);
            assert_eq!(m.payload, vec![ERR_INVALID_CHANNEL]);
        }
        _ => panic!("unknown channel not answered"),
    }
}

#[test]
fn oversized_init_never_reaches_dispatch() {
    let mut engine = ProtocolEngine::new();
    let id = allocate_channel(&mut engine);
    let report = init_report(id, CMD_PING, 7610, &[1; 57]);
    match engine.handle_report(&report) {
        EngineAction::Reply(m) => {
            assert_eq!(m.channel, id);
            assert_eq!(m.command, CMD_ERROR);
            assert_eq!(m.payload, vec![ERR_INVALID_LEN]);
        }
        _ => panic!("oversized declared length was not an immediate error"),
    }
}

#[test]
fn graceful_drain_refuses_new_allocations() {
    let mut engine = ProtocolEngine::new();
    let id = allocate_channel(&mut engine);
    engine.handle_shutdown(ShutdownType::Graceful);
    assert_eq!(engine.state(), EngineState::DrainingGraceful);
    // new allocation requests are answered with the transient-busy error
    match engine.handle_report(&broadcast_init(&NONCE)) {
        EngineAction::Reply(m) => {
            assert_eq!(m.channel, BROADCAST_CHANNEL);
            assert_eq!(m.command, CMD_ERROR);
            assert_eq!(m.payload, vec![ERR_CHANNEL_BUSY]);
        }
        _ => panic!("draining engine did not answer the allocation request"),
    }
    assert_eq!(engine.active_sessions(), 1);
    // in-flight traffic on the existing channel still completes
    let report = init_report(id, CMD_PING, 2, &[1, 2]);
    assert!(matches!(engine.handle_report(&report), EngineAction::Dispatch(_)));
    engine.finish_drain();
    assert_eq!(engine.state(), EngineState::Terminated);
}

#[test]
fn quick_shutdown_terminates() {
    let mut engine = ProtocolEngine::new();
    assert_eq!(engine.state(), EngineState::Running);
    engine.handle_shutdown(ShutdownType::Quick);
    assert_eq!(engine.state(), EngineState::Terminated);
}

#[test]
fn graceful_after_termination_stays_terminated() {
    let mut engine = ProtocolEngine::new();
    engine.handle_shutdown(ShutdownType::Quick);
    engine.handle_shutdown(ShutdownType::Graceful);
    assert_eq!(engine.state(), EngineState::Terminated);
}

#[test]
fn registry_allocates_and_resets() {
    let mut reg = ChannelRegistry::new();
    let a = reg.allocate().unwrap_or_else(|_| panic!("allocation failed"));
    let b = reg.allocate().unwrap_or_else(|_| panic!("allocation failed"));
    assert_ne!(a, b);
    assert!(reg.is_active(a));
    assert!(reg.is_active(b));
    assert!(!reg.is_active(0));
    assert!(!reg.is_active(BROADCAST_CHANNEL));
    assert_eq!(reg.active_count(), 2);
    // reset keeps the binding and its identifier
    assert!(reg.reset(a));
    assert!(reg.is_active(a));
    assert_eq!(reg.active_count(), 2);
    // resetting an unbound identifier reports so
    assert!(!reg.reset(12345));
}

#[test]
fn channel_typestate_keeps_identifier() {
    let free = Channel::new(42);
    assert_eq!(free.channel_id(), 42);
    let in_use = free.flip();
    assert_eq!(in_use.channel_id(), 42);
}

#[test]
fn output_event_of_report_size_reaches_engine() {
    let data = vec![0x5Au8; 64];
    match route_event(TransportEvent::Output { data: data.clone() }) {
        EventDisposition::Report(r) => assert_eq!(r, data),
        _ => panic!("output report not handed to the engine"),
    }
}

#[test]
fn output_event_of_wrong_size_is_violation() {
    let data = vec![0x5Au8; 63];
    assert!(matches!(
        route_event(TransportEvent::Output { data }),
        EventDisposition::Violation
    ));
}

#[test]
fn feature_report_requests_answered_inline() {
    assert!(matches!(
        route_event(TransportEvent::GetReport { id: 3 }),
        EventDisposition::AnswerGetReport { id: 3 }
    ));
    assert!(matches!(
        route_event(TransportEvent::SetReport { id: 4, data: vec![1, 2] }),
        EventDisposition::AnswerSetReport { id: 4 }
    ));
}

#[test]
fn lifecycle_events_are_violations_on_read_path() {
    assert!(matches!(route_event(TransportEvent::Started), EventDisposition::Violation));
    assert!(matches!(route_event(TransportEvent::Stopped), EventDisposition::Violation));
    assert!(matches!(route_event(TransportEvent::Opened), EventDisposition::Violation));
    assert!(matches!(route_event(TransportEvent::Closed), EventDisposition::Violation));
}
