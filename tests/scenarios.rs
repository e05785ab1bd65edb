use redis_starter_rust::command::Command;
use redis_starter_rust::connection::FrameBuffer;
use redis_starter_rust::frame::Frame;
use redis_starter_rust::info::DEFAULT_MASTER_REPLID;
use redis_starter_rust::publisher::{add_connection, publish_frame, Registry};
use redis_starter_rust::store::Store;

/// Feeds `input` to a server whose store is `store`, at `now`, and returns
/// the bytes it answers, and whether the peer asked to follow.
fn serve(store: &mut Store, registry: &mut Registry, input: &[u8], now: u64) -> (Vec<u8>, bool) {
    let mut buffer = FrameBuffer::new(false);
    buffer.extend(input);
    let mut out = Vec::new();
    let mut promote = false;
    while let Some(frame) = buffer.next_frame().unwrap() {
        match Command::from_frame(frame) {
            Ok(command) => match command.apply(store, now, true) {
                Ok(outcome) => {
                    for reply in &outcome.replies {
                        reply.encode(&mut out);
                    }
                    if let Some(frame) = outcome.replicate {
                        publish_frame(registry, &frame);
                    }
                    promote = promote || outcome.promote;
                }
                Err(e) => e.to_frame().encode(&mut out),
            },
            Err(e) => e.to_frame().encode(&mut out),
        }
    }
    (out, promote)
}

fn fresh() -> (Store, Registry) {
    (Store::new(), Registry::new())
}

#[test]
fn send_ping_command() {
    let (mut store, mut reg) = fresh();
    let (out, _) = serve(&mut store, &mut reg, b"*1\r\n$4\r\nPING\r\n", 0);
    assert_eq!(out, b"+PONG\r\n".to_vec());
}

#[test]
fn send_two_ping_commands() {
    let (mut store, mut reg) = fresh();
    let (out, _) = serve(&mut store, &mut reg, b"*1\r\n$4\r\nPING\r\n*1\r\n$4\r\nPING\r\n", 0);
    assert_eq!(out, b"+PONG\r\n+PONG\r\n".to_vec());
}

#[test]
fn echo() {
    let (mut store, mut reg) = fresh();
    let (out, _) = serve(&mut store, &mut reg, b"*2\r\n$4\r\nECHO\r\n$5\r\nhello\r\n", 0);
    assert_eq!(out, b"$5\r\nhello\r\n".to_vec());
}

#[test]
fn set_get() {
    let (mut store, mut reg) = fresh();
    let (out, _) = serve(&mut store, &mut reg, b"*3\r\n$3\r\nSET\r\n$5\r\nhello\r\n$5\r\nworld\r\n", 0);
    assert_eq!(out, b"+OK\r\n".to_vec());
    let (out, _) = serve(&mut store, &mut reg, b"*2\r\n$3\r\nGET\r\n$5\r\nhello\r\n", 0);
    assert_eq!(out, b"$5\r\nworld\r\n".to_vec());
}

#[test]
fn get_not_found() {
    let (mut store, mut reg) = fresh();
    let (out, _) = serve(&mut store, &mut reg, b"*2\r\n$3\r\nget\r\n$5\r\nhello\r\n", 0);
    assert_eq!(out, b"$-1\r\n".to_vec());
}

#[test]
fn set_expired() {
    let (mut store, mut reg) = fresh();
    let (out, _) = serve(
        &mut store,
        &mut reg,
        b"*5\r\n$3\r\nSET\r\n$1\r\nk\r\n$1\r\nv\r\n$2\r\nPX\r\n$1\r\n1\r\n",
        1000,
    );
    assert_eq!(out, b"+OK\r\n".to_vec());
    let (out, _) = serve(&mut store, &mut reg, b"*2\r\n$3\r\nGET\r\n$1\r\nk\r\n", 1000);
    assert_eq!(out, b"$1\r\nv\r\n".to_vec());
    let (out, _) = serve(&mut store, &mut reg, b"*2\r\n$3\r\nGET\r\n$1\r\nk\r\n", 3000);
    assert_eq!(out, b"$-1\r\n".to_vec());
}

#[test]
fn expiry_is_exclusive() {
    let (mut store, mut reg) = fresh();
    serve(&mut store, &mut reg, b"*5\r\n$3\r\nset\r\n$1\r\nk\r\n$1\r\nv\r\n$2\r\npx\r\n$2\r\n10\r\n", 100);
    let (out, _) = serve(&mut store, &mut reg, b"*2\r\n$3\r\nget\r\n$1\r\nk\r\n", 109);
    assert_eq!(out, b"$1\r\nv\r\n".to_vec());
    let (out, _) = serve(&mut store, &mut reg, b"*2\r\n$3\r\nget\r\n$1\r\nk\r\n", 110);
    assert_eq!(out, b"$-1\r\n".to_vec());
}

#[test]
fn send_error_unknown_command() {
    let (mut store, mut reg) = fresh();
    let (out, _) = serve(&mut store, &mut reg, b"*2\r\n$3\r\nFOO\r\n$5\r\nhello\r\n", 0);
    assert_eq!(out, b"-ERR unknown command 'foo'\r\n".to_vec());
}

#[test]
fn unknown_command_with_one_argument() {
    let (mut store, mut reg) = fresh();
    let (out, _) = serve(&mut store, &mut reg, b"*2\r\n$3\r\nFOO\r\n$1\r\nx\r\n", 0);
    assert_eq!(out, b"-ERR unknown command 'foo'\r\n".to_vec());
}

#[test]
fn info() {
    let (mut store, mut reg) = fresh();
    let (out, _) = serve(&mut store, &mut reg, b"*2\r\n$4\r\ninfo\r\n$11\r\nreplication\r\n", 0);
    let expected = format!(
        "$91\r\nrole:master\r\nmaster_replid:{}\r\nmaster_repl_offset:0\r\n\r\n",
        DEFAULT_MASTER_REPLID
    );
    assert_eq!(out, expected.as_bytes().to_vec());
}

#[test]
fn repl_conf_listening_port() {
    let (mut store, mut reg) = fresh();
    let (out, _) = serve(
        &mut store,
        &mut reg,
        b"*3\r\n$8\r\nREPLCONF\r\n$14\r\nlistening-port\r\n$4\r\n6380\r\n",
        0,
    );
    assert_eq!(out, b"+OK\r\n".to_vec());
}

#[test]
fn repl_conf_capabilities() {
    let (mut store, mut reg) = fresh();
    let (out, _) = serve(
        &mut store,
        &mut reg,
        b"*5\r\n$8\r\nREPLCONF\r\n$4\r\ncapa\r\n$3\r\neof\r\n$4\r\ncapa\r\n$6\r\npsync2\r\n",
        0,
    );
    assert_eq!(out, b"+OK\r\n".to_vec());
}

#[test]
fn repl_conf_getack() {
    let (mut store, mut reg) = fresh();
    let (out, _) = serve(&mut store, &mut reg, b"*3\r\n$8\r\nREPLCONF\r\n$6\r\nGETACK\r\n$1\r\n*\r\n", 0);
    assert_eq!(out, b"*3\r\n$8\r\nREPLCONF\r\n$3\r\nACK\r\n$1\r\n0\r\n".to_vec());
}

#[test]
fn server_test_psync() {
    let (mut store, mut reg) = fresh();
    let (out, promote) = serve(&mut store, &mut reg, b"*3\r\n$5\r\nPSYNC\r\n$1\r\n?\r\n$2\r\n-1\r\n", 0);
    let expected = format!("+FULLRESYNC {} {}\r\n", DEFAULT_MASTER_REPLID, 0);
    assert_eq!(out, expected.as_bytes().to_vec());
    assert_eq!(expected.len(), 56);
    assert!(promote);
    add_connection(&mut reg, 7, &store);
    let queued = reg.take_outbox();
    assert_eq!(queued.len(), 1);
    assert_eq!(queued[0].follower, 7);
    let snapshot = store.as_snapshot();
    let mut expected_snapshot = format!("${}\r\n", snapshot.len()).into_bytes();
    expected_snapshot.extend_from_slice(&snapshot);
    assert_eq!(queued[0].bytes, expected_snapshot);
    assert!(!queued[0].bytes.ends_with(b"\r\n"));
}

#[test]
fn leader_replays_set_to_follower() {
    let (mut store, mut reg) = fresh();
    add_connection(&mut reg, 1, &store);
    reg.take_outbox();
    let (out, _) = serve(&mut store, &mut reg, b"*3\r\n$3\r\nSET\r\n$5\r\nhello\r\n$5\r\nworld\r\n", 0);
    assert_eq!(out, b"+OK\r\n".to_vec());
    let queued = reg.take_outbox();
    assert_eq!(queued.len(), 1);
    assert_eq!(queued[0].follower, 1);
    assert_eq!(queued[0].bytes, b"*3\r\n$3\r\nset\r\n$5\r\nhello\r\n$5\r\nworld\r\n".to_vec());
}

#[test]
fn followers_get_writes_in_order() {
    let (mut store, mut reg) = fresh();
    add_connection(&mut reg, 1, &store);
    add_connection(&mut reg, 2, &store);
    reg.take_outbox();
    serve(&mut store, &mut reg, b"*3\r\n$3\r\nset\r\n$1\r\na\r\n$1\r\n1\r\n", 0);
    serve(&mut store, &mut reg, b"*5\r\n$3\r\nset\r\n$1\r\nb\r\n$1\r\n2\r\n$2\r\nPX\r\n$3\r\n100\r\n", 0);
    let queued = reg.take_outbox();
    let to = |id: u64| -> Vec<Vec<u8>> {
        queued.iter().filter(|d| d.follower == id).map(|d| d.bytes.clone()).collect()
    };
    let expected = vec![
        b"*3\r\n$3\r\nset\r\n$1\r\na\r\n$1\r\n1\r\n".to_vec(),
        b"*5\r\n$3\r\nset\r\n$1\r\nb\r\n$1\r\n2\r\n$2\r\nPX\r\n$3\r\n100\r\n".to_vec(),
    ];
    assert_eq!(to(1), expected);
    assert_eq!(to(2), expected);
}

#[test]
fn removed_follower_gets_nothing() {
    let (mut store, mut reg) = fresh();
    add_connection(&mut reg, 1, &store);
    add_connection(&mut reg, 1, &store);
    add_connection(&mut reg, 2, &store);
    reg.remove_follower(1);
    reg.take_outbox();
    serve(&mut store, &mut reg, b"*3\r\n$3\r\nset\r\n$1\r\na\r\n$1\r\n1\r\n", 0);
    let queued = reg.take_outbox();
    assert_eq!(queued.len(), 1);
    assert_eq!(queued[0].follower, 2);
}

#[test]
fn mixed_case_names() {
    let (mut store, mut reg) = fresh();
    let (out, _) = serve(&mut store, &mut reg, b"*1\r\n$4\r\npInG\r\n", 0);
    assert_eq!(out, b"+PONG\r\n".to_vec());
}

#[test]
fn ping_with_message() {
    let (mut store, mut reg) = fresh();
    let (out, _) = serve(&mut store, &mut reg, b"*2\r\n$4\r\nping\r\n$2\r\nhi\r\n", 0);
    assert_eq!(out, b"$2\r\nhi\r\n".to_vec());
}

#[test]
fn wrong_arity_is_an_error_frame() {
    let (mut store, mut reg) = fresh();
    let (out, _) = serve(&mut store, &mut reg, b"*1\r\n$3\r\nget\r\n", 0);
    assert!(out.starts_with(b"-ERR "));
    let (out, _) = serve(&mut store, &mut reg, b"*4\r\n$3\r\nset\r\n$1\r\nk\r\n$1\r\nv\r\n$2\r\nEX\r\n", 0);
    assert!(out.starts_with(b"-ERR "));
}

#[test]
fn not_an_array_is_an_error() {
    assert!(Command::from_frame(Frame::Simple("PING".to_string())).is_err());
    assert!(Command::from_frame(Frame::Array(vec![])).is_err());
}

#[test]
fn partial_input_waits_for_more() {
    let mut buffer = FrameBuffer::new(false);
    buffer.extend(b"*1\r\n$4\r\nPI");
    assert!(buffer.next_frame().unwrap().is_none());
    assert!(buffer.at_end_of_stream().is_err());
    buffer.extend(b"NG\r\n");
    assert!(buffer.next_frame().unwrap().is_some());
    assert!(buffer.is_empty());
    assert!(buffer.at_end_of_stream().is_ok());
}

#[test]
fn follower_refuses_psync() {
    let mut store = Store::new();
    store.set_with_default_expiry(b"INFO:REPLICATION:ROLE".to_vec(), b"slave".to_vec(), 0);
    let mut reg = Registry::new();
    let (out, promote) = serve(&mut store, &mut reg, b"*3\r\n$5\r\nPSYNC\r\n$1\r\n?\r\n$2\r\n-1\r\n", 0);
    assert_eq!(out, b"-Not a master server\r\n".to_vec());
    assert!(!promote);
    let (out, _) = serve(&mut store, &mut reg, b"*1\r\n$4\r\nINFO\r\n", 0);
    assert_eq!(out, b"$10\r\nrole:slave\r\n".to_vec());
}

#[test]
fn split_bulk_on_a_client_connection() {
    let mut buffer = FrameBuffer::new(false);
    buffer.extend(b"*2\r\n$4\r\nECHO\r\n$5\r\nhello");
    assert!(buffer.next_frame().unwrap().is_none());
    buffer.extend(b"\r\n");
    let frame = buffer.next_frame().unwrap().unwrap();
    assert_eq!(
        frame,
        Frame::Array(vec![Frame::Bulk(b"ECHO".to_vec()), Frame::Bulk(b"hello".to_vec())])
    );
    assert!(buffer.is_empty());
    assert!(!buffer.is_follower_receiving_sync_request());
}

#[test]
fn snapshot_then_command_on_the_leader_stream() {
    let mut buffer = FrameBuffer::new(true);
    buffer.extend(b"$3\r\nabc*1\r\n$4\r\nPING\r\n");
    assert_eq!(buffer.next_frame().unwrap().unwrap(), Frame::Bulk(b"abc".to_vec()));
    assert_eq!(
        buffer.next_frame().unwrap().unwrap(),
        Frame::Array(vec![Frame::Bulk(b"PING".to_vec())])
    );
}

#[test]
fn px_value_must_be_decimal() {
    let (mut store, mut reg) = fresh();
    let (out, _) = serve(
        &mut store,
        &mut reg,
        b"*5\r\n$3\r\nSET\r\n$1\r\nk\r\n$1\r\nv\r\n$2\r\nPX\r\n$2\r\n1x\r\n",
        0,
    );
    assert!(out.starts_with(b"-ERR "));
    let (out, _) = serve(&mut store, &mut reg, b"*2\r\n$3\r\nGET\r\n$1\r\nk\r\n", 0);
    assert_eq!(out, b"$-1\r\n".to_vec());
}

#[test]
fn command_name_must_be_bulk() {
    assert!(Command::from_frame(Frame::Array(vec![Frame::Simple("PING".to_string())])).is_err());
    assert!(Command::from_frame(Frame::Array(vec![Frame::Integer(1)])).is_err());
    assert!(Command::from_frame(Frame::Array(vec![Frame::Bulk(vec![0xff])])).is_err());
}
