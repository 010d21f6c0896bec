use respkv::codec::{encode_reply, Reply};
use respkv::command::{
    echo_command, execute_command, get_command, get_commands, info_command, is_write_command,
    parse_command, ping_command, psync_command, replconf_command, set_command, Command,
};
use respkv::replication::master_replid_bytes;
use respkv::role::ServerRole;
use respkv::store::KeyspaceStore;

const REPLID: &str = "8371b4fb1155b71f4a04d3e1bc3e18c4a990aeeb";

fn args(parts: &[&[u8]]) -> Vec<Vec<u8>> {
    parts.iter().map(|p| p.to_vec()).collect()
}

fn parse_err(parts: &[&[u8]]) -> Vec<u8> {
    match parse_command(&args(parts)) {
        Err(text) => text,
        Ok(_) => panic!("expected a parse error"),
    }
}

#[test]
fn parse_ping_any_case() {
    assert!(matches!(parse_command(&args(&[b"PiNg"])), Ok(Command::Ping)));
    assert!(matches!(parse_command(&args(&[b"ping", b"extra"])), Ok(Command::Ping)));
}

#[test]
fn parse_echo() {
    match parse_command(&args(&[b"ECHO", b"hi"])) {
        Ok(Command::Echo { message }) => assert_eq!(message, b"hi".to_vec()),
        _ => panic!("expected ECHO"),
    }
    assert_eq!(
        parse_err(&[b"echo"]),
        b"ERR wrong number of arguments for 'echo' command".to_vec()
    );
    assert_eq!(
        parse_err(&[b"echo", b"a", b"b"]),
        b"ERR wrong number of arguments for 'echo' command".to_vec()
    );
}

#[test]
fn parse_set_plain() {
    match parse_command(&args(&[b"SET", b"k", b"v"])) {
        Ok(Command::SetKey { key, value, ttl_ms }) => {
            assert_eq!(key, b"k".to_vec());
            assert_eq!(value, b"v".to_vec());
            assert_eq!(ttl_ms, None);
        }
        _ => panic!("expected SET"),
    }
}

#[test]
fn parse_set_with_px() {
    match parse_command(&args(&[b"set", b"k", b"v", b"PX", b"1500"])) {
        Ok(Command::SetKey { ttl_ms, .. }) => assert_eq!(ttl_ms, Some(1500)),
        _ => panic!("expected SET with a lifetime"),
    }
}

#[test]
fn parse_set_errors() {
    assert_eq!(
        parse_err(&[b"set", b"k"]),
        b"ERR wrong number of arguments for 'set' command".to_vec()
    );
    assert_eq!(
        parse_err(&[b"set", b"k", b"v", b"px", b"abc"]),
        b"ERR value is not an integer or out of range".to_vec()
    );
    assert_eq!(
        parse_err(&[b"set", b"k", b"v", b"px"]),
        b"ERR syntax error".to_vec()
    );
    assert_eq!(
        parse_err(&[b"set", b"k", b"v", b"ex", b"10"]),
        b"ERR syntax error".to_vec()
    );
}

#[test]
fn parse_get() {
    match parse_command(&args(&[b"GET", b"k"])) {
        Ok(Command::Get { key }) => assert_eq!(key, b"k".to_vec()),
        _ => panic!("expected GET"),
    }
    assert_eq!(
        parse_err(&[b"get"]),
        b"ERR wrong number of arguments for 'get' command".to_vec()
    );
}

#[test]
fn parse_info() {
    assert!(matches!(parse_command(&args(&[b"INFO", b"replication"])), Ok(Command::Info)));
    assert_eq!(
        parse_err(&[b"info"]),
        b"ERR wrong number of arguments for 'info' command".to_vec()
    );
    assert_eq!(parse_err(&[b"info", b"keyspace"]), b"ERR unsupported INFO section".to_vec());
}

#[test]
fn parse_replconf() {
    assert!(matches!(
        parse_command(&args(&[b"REPLCONF", b"listening-port", b"6380"])),
        Ok(Command::Replconf)
    ));
    assert!(matches!(
        parse_command(&args(&[b"replconf", b"capa", b"psync2"])),
        Ok(Command::Replconf)
    ));
    assert_eq!(
        parse_err(&[b"replconf", b"bogus"]),
        b"ERR Unsupported REPLCONF option".to_vec()
    );
}

#[test]
fn parse_psync() {
    assert!(matches!(
        parse_command(&args(&[b"PSYNC", b"?", b"-1"])),
        Ok(Command::Psync { full: true })
    ));
    assert!(matches!(
        parse_command(&args(&[b"PSYNC", REPLID.as_bytes(), b"42"])),
        Ok(Command::Psync { full: false })
    ));
    assert_eq!(
        parse_err(&[b"psync", b"?"]),
        b"ERR wrong number of arguments for 'psync' command".to_vec()
    );
}

#[test]
fn parse_unknown_command() {
    assert_eq!(parse_err(&[b"FLUSHALL"]), b"ERR unknown command".to_vec());
}

#[test]
fn ping_replies_pong() {
    assert_eq!(encode_reply(&ping_command()), b"+PONG\r\n".to_vec());
}

#[test]
fn echo_is_byte_exact() {
    let message: Vec<u8> = b"bin\r\n\x00ary".to_vec();
    match echo_command(message.clone()) {
        Reply::Bulk(b) => assert_eq!(b, message),
        _ => panic!("expected a bulk reply"),
    }
}

#[test]
fn set_then_get_through_commands() {
    let mut store = KeyspaceStore::new();
    let reply = set_command(&mut store, b"k".to_vec(), b"v".to_vec(), None, 7);
    assert_eq!(encode_reply(&reply), b"+OK\r\n".to_vec());
    let got = get_command(&store, &b"k".to_vec(), 8);
    assert_eq!(encode_reply(&got), b"$1\r\nv\r\n".to_vec());
}

#[test]
fn get_of_expired_key_is_null_not_error() {
    let mut store = KeyspaceStore::new();
    set_command(&mut store, b"k".to_vec(), b"v".to_vec(), Some(10), 100);
    assert_eq!(encode_reply(&get_command(&store, &b"k".to_vec(), 110)), b"$-1\r\n".to_vec());
    assert_eq!(encode_reply(&get_command(&store, &b"nope".to_vec(), 0)), b"$-1\r\n".to_vec());
}

#[test]
fn info_reports_master_role() {
    let replid = master_replid_bytes();
    let reply = info_command(&ServerRole::Master, &replid, 0);
    let expected = format!(
        "role:master\r\nmaster_replid:{}\r\nmaster_repl_offset:0\r\n",
        REPLID
    );
    let expected_wire = format!("${}\r\n{}\r\n", expected.len(), expected);
    assert_eq!(encode_reply(&reply), expected_wire.into_bytes());
}

#[test]
fn info_reports_slave_role_and_offset() {
    let replid = master_replid_bytes();
    let role = ServerRole::Replica { master_host: b"localhost".to_vec(), master_port: 6379 };
    let reply = info_command(&role, &replid, 123);
    let expected = format!(
        "role:slave\r\nmaster_replid:{}\r\nmaster_repl_offset:123\r\n",
        REPLID
    );
    let expected_wire = format!("${}\r\n{}\r\n", expected.len(), expected);
    assert_eq!(encode_reply(&reply), expected_wire.into_bytes());
}

#[test]
fn replid_is_forty_hex_characters() {
    let replid = master_replid_bytes();
    assert_eq!(replid.len(), 40);
    assert!(replid.iter().all(|b| b.is_ascii_hexdigit()));
}

#[test]
fn replconf_acknowledges() {
    assert_eq!(encode_reply(&replconf_command()), b"+OK\r\n".to_vec());
}

#[test]
fn psync_full_resync_line() {
    let replid = master_replid_bytes();
    let reply = psync_command(true, &replid, 0);
    let expected = format!("+FULLRESYNC {} 0\r\n", REPLID);
    assert_eq!(encode_reply(&reply), expected.into_bytes());
}

#[test]
fn psync_partial_target_gets_continue() {
    let replid = master_replid_bytes();
    let reply = psync_command(false, &replid, 99);
    assert_eq!(encode_reply(&reply), b"+CONTINUE\r\n".to_vec());
}

#[test]
fn write_classification() {
    assert!(is_write_command(b"set"));
    assert!(is_write_command(b"SET"));
    assert!(!is_write_command(b"get"));
    assert!(!is_write_command(b"ping"));
    assert!(!is_write_command(b"psync"));
    assert!(!is_write_command(b"settings"));
}

#[test]
fn command_table_lists_the_fixed_set() {
    let names = get_commands();
    let expected: Vec<Vec<u8>> = [
        &b"ping"[..], b"echo", b"set", b"get", b"info", b"replconf", b"psync",
    ]
    .iter()
    .map(|n| n.to_vec())
    .collect();
    assert_eq!(names, expected);
}

#[test]
fn execute_dispatches_to_the_store() {
    let mut store = KeyspaceStore::new();
    let replid = master_replid_bytes();
    let set = Command::SetKey { key: b"k".to_vec(), value: b"v".to_vec(), ttl_ms: None };
    let reply = execute_command(set, &mut store, &ServerRole::Master, &replid, 0, 1);
    assert_eq!(encode_reply(&reply), b"+OK\r\n".to_vec());
    let get = Command::Get { key: b"k".to_vec() };
    let reply = execute_command(get, &mut store, &ServerRole::Master, &replid, 0, 2);
    assert_eq!(encode_reply(&reply), b"$1\r\nv\r\n".to_vec());
}
