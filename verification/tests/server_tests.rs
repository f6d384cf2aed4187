use redis_lite::decode::decode_resp;
use redis_lite::rdb::{rdb_payload, HexError, RdbError};
use redis_lite::replication::{parse_replicaof, replica_handshake};
use redis_lite::resp::Resp;
use redis_lite::server::{
    check_empty, command_is_defined, handle_list_command, handle_list_command_at, handle_parsed,
    make_app_state, next_remainder, AppState, NextOp,
};
use std::collections::VecDeque;

fn bulk(s: &str) -> Resp {
    Resp::BulkStr(s.to_string())
}

fn list(words: &[&str]) -> VecDeque<Resp> {
    words.iter().map(|w| bulk(w)).collect()
}

fn run(state: &mut AppState, words: &[&str]) -> (Option<Resp>, NextOp, Option<Resp>) {
    let mut response = Some(Resp::Nil);
    let h = handle_list_command(list(words), &mut response, state, 10);
    (response, h.next_op, h.resync)
}

#[test]
fn master_answers() {
    let mut m = make_app_state(None);
    assert_eq!(run(&mut m, &["PING"]).0, Some(Resp::SimpleStr("PONG".to_string())));
    assert_eq!(run(&mut m, &["echo", "hi"]).0, Some(bulk("hi")));
    assert_eq!(run(&mut m, &["GET", "k"]).0, Some(Resp::Nil));
    let (r, op, _) = run(&mut m, &["SET", "k", "v"]);
    assert_eq!(r, Some(Resp::SimpleStr("OK".to_string())));
    assert_eq!(op, NextOp::ReadAndShare);
    assert_eq!(run(&mut m, &["get", "k"]).0, Some(bulk("v")));
    assert_eq!(run(&mut m, &["WAIT", "1", "100"]).0, Some(Resp::Num(0)));
    assert_eq!(run(&mut m, &["REPLCONF", "listening-port", "6380"]).0, Some(Resp::SimpleStr("OK".to_string())));
    assert_eq!(run(&mut m, &["unknown"]).0, Some(Resp::Nil));
    assert_eq!(run(&mut m, &["ping"]).1, NextOp::Read);
}

#[test]
fn master_info_and_resync() {
    let mut m = make_app_state(None);
    assert_eq!(
        run(&mut m, &["INFO"]).0,
        Some(bulk("role:master\nmaster_replid:8371b4fb1155b71f4a04d3e1bc3e18c4a990aeeb\nmaster_repl_offset:0"))
    );
    let (r, op, resync) = run(&mut m, &["PSYNC", "?", "-1"]);
    assert_eq!(r, Some(Resp::Nil));
    assert_eq!(op, NextOp::MoveToPool);
    assert_eq!(
        resync,
        Some(Resp::SimpleStr("+FULLRESYNC 8371b4fb1155b71f4a04d3e1bc3e18c4a990aeeb 0".to_string()))
    );
    assert_eq!(m.resync_response(b"0aFF").unwrap(), Some(Resp::FileContent(vec![0x0a, 0xff])));
    assert!(m.add_to_replication_pool());
    assert_eq!(run(&mut m, &["WAIT", "1", "100"]).0, Some(Resp::Num(1)));
}

#[test]
fn replica_is_quiet_and_counts_bytes() {
    let mut r = make_app_state(Some("localhost 6380".to_string()));
    assert!(!r.is_master());
    assert_eq!(r.master_address(), Some(("localhost", 6380)));
    assert_eq!(run(&mut r, &["PING"]).0, None);
    assert_eq!(run(&mut r, &["SET", "k", "v"]).0, None);
    assert_eq!(r.get_ack_bytes(), 20);
    assert_eq!(run(&mut r, &["GET", "k"]).0, Some(bulk("v")));
    assert_eq!(run(&mut r, &["INFO"]).0, Some(bulk("role:slave")));
    assert_eq!(run(&mut r, &["ECHO", "x"]).0, None);
    assert_eq!(
        run(&mut r, &["REPLCONF", "GETACK", "*"]).0,
        Some(Resp::Arr(list(&["REPLCONF", "ACK", "20"])))
    );
    assert_eq!(r.get_ack_bytes(), 30);
    assert!(!r.add_to_replication_pool());
    assert_eq!(r.resync_response(b"00").unwrap(), None);
    let (_, _, resync) = run(&mut r, &["PSYNC"]);
    assert_eq!(resync, Some(Resp::SimpleStr("+FULLRESYNC  0".to_string())));
}

#[test]
fn set_with_expiry_at_fixed_times() {
    let mut m = make_app_state(None);
    let mut response = Some(Resp::Nil);
    handle_list_command_at(list(&["set", "k", "v", "px", "100"]), &mut response, &mut m, 0, 0);
    let mut response = Some(Resp::Nil);
    handle_list_command_at(list(&["GET", "k"]), &mut response, &mut m, 0, 99_000_000);
    assert_eq!(response, Some(bulk("v")));
    let mut response = Some(Resp::Nil);
    handle_list_command_at(list(&["GET", "k"]), &mut response, &mut m, 0, 100_000_000);
    assert_eq!(response, Some(Resp::Nil));
    let mut response = Some(Resp::Nil);
    handle_list_command_at(list(&["SET", "j", "w", "PX", "100"]), &mut response, &mut m, 0, 0);
    let mut response = Some(Resp::Nil);
    handle_list_command_at(list(&["GET", "j"]), &mut response, &mut m, 0, i128::MAX);
    assert_eq!(response, Some(bulk("w")));
}

#[test]
fn echo_needs_a_string() {
    assert!(!command_is_defined(&list(&["echo"])));
    assert!(!command_is_defined(&VecDeque::from([bulk("ECHO"), Resp::Num(1)])));
    assert!(command_is_defined(&list(&["echo", "a"])));
    assert!(command_is_defined(&list(&["ping"])));
    let mut m = make_app_state(None);
    let parsed = Resp::Arr(list(&["echo"]));
    assert!(handle_parsed(&mut m, &parsed, 5).is_none());
}

#[test]
fn handle_decoded_request() {
    let mut m = make_app_state(None);
    let input = "*1\r\n$4\r\nPING\r\n".as_bytes();
    let (parsed, rest) = decode_resp(input).unwrap();
    let reply = handle_parsed(&mut m, &parsed, input.len() - rest.len()).unwrap();
    assert_eq!(reply.response, Some(Resp::SimpleStr("PONG".to_string())));
    assert_eq!(reply.next_op, NextOp::Read);
    let other = handle_parsed(&mut m, &bulk("ping"), 3).unwrap();
    assert_eq!(other.response, Some(Resp::Nil));
}

#[test]
fn replicaof_text() {
    assert_eq!(parse_replicaof("localhost 6380"), ("localhost".to_string(), 6380));
    assert_eq!(parse_replicaof("6390"), ("localhost".to_string(), 6390));
    assert_eq!(parse_replicaof("a b c"), ("b".to_string(), 6379));
    assert_eq!(parse_replicaof("h\u{e9}te +7"), ("h\u{e9}te".to_string(), 7));
    assert_eq!(parse_replicaof(""), ("localhost".to_string(), 6379));
    assert_eq!(parse_replicaof("host "), ("host".to_string(), 6379));
}

#[test]
fn handshake_messages() {
    let m = replica_handshake(6380);
    assert_eq!(m.len(), 4);
    assert_eq!(m[0], b"*1\r\n$4\r\nping\r\n".to_vec());
    assert_eq!(m[1], b"*3\r\n$8\r\nREPLCONF\r\n$14\r\nlistening-port\r\n$4\r\n6380\r\n".to_vec());
    assert_eq!(m[2], b"*3\r\n$8\r\nREPLCONF\r\n$4\r\ncapa\r\n$6\r\npsync2\r\n".to_vec());
    assert_eq!(m[3], b"*3\r\n$5\r\nPSYNC\r\n$1\r\n?\r\n$2\r\n-1\r\n".to_vec());
}

#[test]
fn snapshot_files() {
    assert_eq!(rdb_payload(b"0aff").unwrap(), vec![0x0a, 0xff]);
    assert!(matches!(rdb_payload(b"abc"), Err(RdbError::NotHex(HexError::OddLength))));
    assert!(matches!(
        rdb_payload(b"0g"),
        Err(RdbError::NotHex(HexError::InvalidHexCharacter { c: 'g', index: 1 }))
    ));
    assert!(matches!(rdb_payload(&[0xff, 0xfe]), Err(RdbError::NotText)));
    assert_eq!(rdb_payload(b"").unwrap(), Vec::<u8>::new());
}

#[test]
fn buffers() {
    assert!(check_empty(&vec![]));
    assert!(check_empty(&vec![0, 0, 0]));
    assert!(!check_empty(&vec![0, 1]));
    assert_eq!(next_remainder(10, &[0u8; 502]), None);
    assert_eq!(next_remainder(10, &[1u8, 2]), Some(vec![1, 2]));
}

#[test]
fn replicas_counted_after_pool_adds() {
    let mut m = make_app_state(None);
    assert_eq!(m.get_replicas_connected(), 0);
    for _ in 0..3 {
        assert!(m.add_to_replication_pool());
    }
    assert_eq!(m.get_replicas_connected(), 3);
    let mut r = make_app_state(Some("localhost 6380".to_string()));
    for _ in 0..3 {
        assert!(!r.add_to_replication_pool());
    }
    assert_eq!(r.get_replicas_connected(), 0);
}
