use respkv::codec::encode_frame;
use respkv::connection::{connection_step, ConnectionKind, StepOutcome, StepResult};
use respkv::replication::ReplicationState;
use respkv::role::{get_role, ServerRole};
use respkv::store::KeyspaceStore;

const REPLID: &str = "8371b4fb1155b71f4a04d3e1bc3e18c4a990aeeb";

fn frame(args: &[&[u8]]) -> Vec<u8> {
    let v: Vec<Vec<u8>> = args.iter().map(|a| a.to_vec()).collect();
    encode_frame(&v)
}

fn step(
    buf: &Vec<u8>,
    kind: ConnectionKind,
    store: &mut KeyspaceStore,
    role: &ServerRole,
    repl: &mut ReplicationState,
    now_ms: u64,
) -> StepOutcome {
    match connection_step(buf, &kind, store, role, repl, now_ms) {
        StepResult::Step(outcome) => outcome,
        StepResult::NeedMore => panic!("expected a whole frame"),
    }
}

#[test]
fn leader_write_is_replied_and_propagated() {
    let mut store = KeyspaceStore::new();
    let mut repl = ReplicationState::new();
    let wire = frame(&[b"SET", b"k", b"v"]);
    let outcome = step(&wire, ConnectionKind::Client, &mut store, &ServerRole::Master, &mut repl, 0);
    assert_eq!(outcome.reply, Some(b"+OK\r\n".to_vec()));
    assert_eq!(outcome.propagate, Some(wire.clone()));
    assert_eq!(outcome.consumed, wire.len());
    assert!(!outcome.register_follower);
    assert_eq!(repl.offset(), wire.len() as u64);
    assert_eq!(store.get(b"k", 1), Some(b"v".to_vec()));
}

#[test]
fn reads_are_never_propagated() {
    let mut store = KeyspaceStore::new();
    let mut repl = ReplicationState::new();
    let wire = frame(&[b"GET", b"k"]);
    let outcome = step(&wire, ConnectionKind::Client, &mut store, &ServerRole::Master, &mut repl, 0);
    assert_eq!(outcome.reply, Some(b"$-1\r\n".to_vec()));
    assert_eq!(outcome.propagate, None);
    assert_eq!(repl.offset(), 0);
}

#[test]
fn follower_does_not_propagate_client_writes() {
    let mut store = KeyspaceStore::new();
    let mut repl = ReplicationState::new();
    let role = ServerRole::Replica { master_host: b"localhost".to_vec(), master_port: 6379 };
    let wire = frame(&[b"SET", b"k", b"v"]);
    let outcome = step(&wire, ConnectionKind::Client, &mut store, &role, &mut repl, 0);
    assert_eq!(outcome.reply, Some(b"+OK\r\n".to_vec()));
    assert_eq!(outcome.propagate, None);
    assert_eq!(repl.offset(), 0);
}

#[test]
fn propagated_write_applies_silently_on_the_follower() {
    // the replication stream: same framing, no reply, no re-propagation
    let mut store = KeyspaceStore::new();
    let mut repl = ReplicationState::new();
    let role = ServerRole::Replica { master_host: b"localhost".to_vec(), master_port: 6379 };
    let wire = frame(&[b"SET", b"k", b"v"]);
    let outcome = step(
        &wire,
        ConnectionKind::ReplicationChannel,
        &mut store,
        &role,
        &mut repl,
        0,
    );
    assert_eq!(outcome.reply, None);
    assert_eq!(outcome.propagate, None);
    assert!(!outcome.register_follower);
    // ... and a client GET on the follower then sees the leader's write
    let get_wire = frame(&[b"GET", b"k"]);
    let outcome = step(&get_wire, ConnectionKind::Client, &mut store, &role, &mut repl, 1);
    assert_eq!(outcome.reply, Some(b"$1\r\nv\r\n".to_vec()));
}

#[test]
fn psync_triggers_follower_registration() {
    let mut store = KeyspaceStore::new();
    let mut repl = ReplicationState::new();
    let wire = frame(&[b"PSYNC", b"?", b"-1"]);
    let outcome = step(&wire, ConnectionKind::Client, &mut store, &ServerRole::Master, &mut repl, 0);
    let expected = format!("+FULLRESYNC {} 0\r\n", REPLID);
    assert_eq!(outcome.reply, Some(expected.into_bytes()));
    assert!(outcome.register_follower);
    assert_eq!(outcome.propagate, None);
}

#[test]
fn sequential_handshakes_share_the_id_and_offsets_grow() {
    let mut store = KeyspaceStore::new();
    let mut repl = ReplicationState::new();
    let psync = frame(&[b"PSYNC", b"?", b"-1"]);
    let first = step(
        &psync,
        ConnectionKind::Client,
        &mut store,
        &ServerRole::Master,
        &mut repl,
        0,
    );
    let set = frame(&[b"SET", b"k", b"v"]);
    step(&set, ConnectionKind::Client, &mut store, &ServerRole::Master, &mut repl, 1);
    let second = step(
        &psync,
        ConnectionKind::Client,
        &mut store,
        &ServerRole::Master,
        &mut repl,
        2,
    );
    let first_line = first.reply.unwrap();
    let second_line = second.reply.unwrap();
    // both lines carry the same forty-character id
    assert_eq!(&first_line[12..52], &second_line[12..52]);
    let expected_second = format!("+FULLRESYNC {} {}\r\n", REPLID, set.len());
    assert_eq!(second_line, expected_second.into_bytes());
}

#[test]
fn short_buffer_asks_for_more() {
    let mut store = KeyspaceStore::new();
    let mut repl = ReplicationState::new();
    let wire = frame(&[b"PING"]);
    let partial = wire[..wire.len() - 3].to_vec();
    assert!(matches!(
        connection_step(
            &partial,
            &ConnectionKind::Client,
            &mut store,
            &ServerRole::Master,
            &mut repl,
            0
        ),
        StepResult::NeedMore
    ));
}

#[test]
fn garbage_gets_a_protocol_error_and_is_dropped() {
    let mut store = KeyspaceStore::new();
    let mut repl = ReplicationState::new();
    let garbage = b"hello there\r\n".to_vec();
    let outcome = step(
        &garbage,
        ConnectionKind::Client,
        &mut store,
        &ServerRole::Master,
        &mut repl,
        0,
    );
    assert_eq!(outcome.reply, Some(b"-ERR protocol error\r\n".to_vec()));
    assert_eq!(outcome.consumed, garbage.len());
    assert_eq!(outcome.propagate, None);
}

#[test]
fn unknown_command_keeps_the_connection_going() {
    let mut store = KeyspaceStore::new();
    let mut repl = ReplicationState::new();
    let wire = frame(&[b"FLUSHALL"]);
    let outcome = step(&wire, ConnectionKind::Client, &mut store, &ServerRole::Master, &mut repl, 0);
    assert_eq!(outcome.reply, Some(b"-ERR unknown command\r\n".to_vec()));
    assert_eq!(outcome.consumed, wire.len());
}

#[test]
fn expiry_is_visible_through_the_wire() {
    let mut store = KeyspaceStore::new();
    let mut repl = ReplicationState::new();
    let set = frame(&[b"SET", b"k", b"v", b"px", b"100"]);
    step(&set, ConnectionKind::Client, &mut store, &ServerRole::Master, &mut repl, 1_000);
    let get = frame(&[b"GET", b"k"]);
    let alive = step(&get, ConnectionKind::Client, &mut store, &ServerRole::Master, &mut repl, 1_050);
    assert_eq!(alive.reply, Some(b"$1\r\nv\r\n".to_vec()));
    let gone = step(&get, ConnectionKind::Client, &mut store, &ServerRole::Master, &mut repl, 1_100);
    assert_eq!(gone.reply, Some(b"$-1\r\n".to_vec()));
}

#[test]
fn role_comes_from_the_replication_target() {
    assert!(matches!(get_role(None), Some(ServerRole::Master)));
    match get_role(Some(b"localhost:6379".to_vec())) {
        Some(ServerRole::Replica { master_host, master_port }) => {
            assert_eq!(master_host, b"localhost".to_vec());
            assert_eq!(master_port, 6379);
        }
        _ => panic!("expected a follower role"),
    }
    assert!(get_role(Some(b"localhost".to_vec())).is_none());
    assert!(get_role(Some(b"a:b:c".to_vec())).is_none());
    assert!(get_role(Some(b"host:notaport".to_vec())).is_none());
    assert!(get_role(Some(b"host:65536".to_vec())).is_none());
}
