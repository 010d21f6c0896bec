use respkv::replication::{
    empty_snapshot_frame, handshake_next, master_replid_bytes, snapshot_bytes, HandshakeState,
    ReplicationState,
};

const REPLID: &str = "8371b4fb1155b71f4a04d3e1bc3e18c4a990aeeb";

#[test]
fn fresh_state() {
    let state = ReplicationState::new();
    assert_eq!(state.offset(), 0);
    assert_eq!(state.replication_id().as_slice(), REPLID.as_bytes());
    assert_eq!(state.follower_count(), 0);
}

#[test]
fn followers_keep_registration_order() {
    let mut state = ReplicationState::new();
    state.register_follower(7);
    state.register_follower(3);
    state.register_follower(9);
    assert_eq!(state.follower_count(), 3);
    assert_eq!(state.follower_at(0), 7);
    assert_eq!(state.follower_at(1), 3);
    assert_eq!(state.follower_at(2), 9);
}

#[test]
fn dead_follower_is_removed_for_good() {
    let mut state = ReplicationState::new();
    state.register_follower(7);
    state.register_follower(3);
    state.register_follower(9);
    state.remove_follower(3);
    assert_eq!(state.follower_count(), 2);
    assert_eq!(state.follower_at(0), 7);
    assert_eq!(state.follower_at(1), 9);
}

#[test]
fn offset_accumulates_and_never_decreases() {
    let mut state = ReplicationState::new();
    state.record_propagation(31);
    assert_eq!(state.offset(), 31);
    state.record_propagation(0);
    assert_eq!(state.offset(), 31);
    state.record_propagation(11);
    assert_eq!(state.offset(), 42);
    state.record_propagation(u64::MAX);
    assert_eq!(state.offset(), u64::MAX);
}

#[test]
fn handshake_sends_the_exact_sequence() {
    let mut state = HandshakeState::Start;
    let mut sent: Vec<Vec<u8>> = Vec::new();
    while let Some((message, next)) = handshake_next(&state, 6380) {
        sent.push(message);
        state = next;
    }
    assert_eq!(sent.len(), 4);
    assert_eq!(sent[0], b"*1\r\n$4\r\nPING\r\n".to_vec());
    assert_eq!(
        sent[1],
        b"*3\r\n$8\r\nREPLCONF\r\n$14\r\nlistening-port\r\n$4\r\n6380\r\n".to_vec()
    );
    assert_eq!(sent[2], b"*3\r\n$8\r\nREPLCONF\r\n$4\r\ncapa\r\n$6\r\npsync2\r\n".to_vec());
    assert_eq!(sent[3], b"*3\r\n$5\r\nPSYNC\r\n$1\r\n?\r\n$2\r\n-1\r\n".to_vec());
}

#[test]
fn handshake_carries_the_own_port() {
    match handshake_next(&HandshakeState::SentPing, 7) {
        Some((message, HandshakeState::SentPort)) => {
            assert_eq!(
                message,
                b"*3\r\n$8\r\nREPLCONF\r\n$14\r\nlistening-port\r\n$1\r\n7\r\n".to_vec()
            );
        }
        _ => panic!("expected the listening-port step"),
    }
}

#[test]
fn snapshot_is_the_fixed_empty_image() {
    let payload = snapshot_bytes();
    // decoded from its hexadecimal writing, not handed back as hex text
    assert_eq!(payload.len(), 88);
    assert_eq!(&payload[..9], b"REDIS0011");
    assert_eq!(payload[9], 0xfa);
    assert_eq!(&payload[payload.len() - 3..], &[0xff, 0x5a, 0xa2][..]);
}

#[test]
fn snapshot_frame_has_no_trailing_terminator() {
    let frame = empty_snapshot_frame();
    assert_eq!(&frame[..5], b"$88\r\n");
    assert_eq!(frame.len(), 5 + 88);
    assert_ne!(&frame[frame.len() - 2..], b"\r\n");
}

#[test]
fn replication_id_survives_every_operation() {
    let mut state = ReplicationState::new();
    state.register_follower(1);
    state.record_propagation(100);
    state.remove_follower(1);
    assert_eq!(state.replication_id().as_slice(), REPLID.as_bytes());
}
