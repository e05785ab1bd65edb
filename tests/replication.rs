use redis_starter_rust::frame::Frame;
use redis_starter_rust::info::Info;
use redis_starter_rust::replicator::{
    capability_bytes, listening_port_frame, ping_fame, psync_bytes, Replicator, Stage, Step,
};
use redis_starter_rust::store::Store;

fn bulk(s: &str) -> Frame {
    Frame::Bulk(s.as_bytes().to_vec())
}

#[test]
fn test_ping_bytes() {
    assert_eq!(ping_fame().to_bytes(), b"*1\r\n$4\r\nPING\r\n".to_vec());
}

#[test]
fn test_listening_port_bytes() {
    let mut info = Info::default();
    info.self_port = 6380;
    assert_eq!(
        listening_port_frame(&info).to_bytes(),
        b"*3\r\n$8\r\nREPLCONF\r\n$14\r\nlistening-port\r\n$4\r\n6380\r\n".to_vec()
    );
}

#[test]
fn replica_slave_test_capability_bytes() {
    assert_eq!(
        capability_bytes().to_bytes(),
        b"*3\r\n$8\r\nREPLCONF\r\n$4\r\ncapa\r\n$6\r\npsync2\r\n".to_vec()
    );
}

#[test]
fn replica_slave_test_psync_bytes() {
    assert_eq!(psync_bytes().to_bytes(), b"*3\r\n$5\r\nPSYNC\r\n$1\r\n?\r\n$2\r\n-1\r\n".to_vec());
}

#[test]
fn test_ping_fame() {
    assert_eq!(ping_fame(), Frame::Array(vec![bulk("PING")]));
}

#[test]
fn test_listening_port_frame() {
    let mut info = Info::default();
    info.self_port = 1234;
    assert_eq!(
        listening_port_frame(&info),
        Frame::Array(vec![bulk("REPLCONF"), bulk("listening-port"), bulk("1234")])
    );
}

#[test]
fn replicator_test_capability_bytes() {
    assert_eq!(capability_bytes(), Frame::Array(vec![bulk("REPLCONF"), bulk("capa"), bulk("psync2")]));
}

#[test]
fn replicator_test_psync_bytes() {
    assert_eq!(psync_bytes(), Frame::Array(vec![bulk("PSYNC"), bulk("?"), bulk("-1")]));
}

fn sent(step: Step) -> Frame {
    match step {
        Step::Send(f) => f,
        _ => panic!("expected a frame to send"),
    }
}

#[test]
fn handshake_then_replay() {
    let info = Info::default();
    let mut store = Store::new();
    let mut r = Replicator::new(&info);
    assert_eq!(r.start(), ping_fame());
    assert_eq!(r.stage, Stage::PingSent);
    let f = sent(r.on_frame(Frame::Simple("PONG".to_string()), &mut store, 0));
    assert_eq!(f, listening_port_frame(&info));
    let f = sent(r.on_frame(Frame::Simple("OK".to_string()), &mut store, 0));
    assert_eq!(f, capability_bytes());
    let f = sent(r.on_frame(Frame::Simple("OK".to_string()), &mut store, 0));
    assert_eq!(f, psync_bytes());
    let step = r.on_frame(Frame::Simple("FULLRESYNC abc 0".to_string()), &mut store, 0);
    assert!(matches!(step, Step::Continue));
    assert_eq!(r.stage, Stage::AwaitingSnapshot);
    let step = r.on_frame(Frame::Bulk(store.as_snapshot()), &mut store, 0);
    assert!(matches!(step, Step::Continue));
    assert_eq!(r.stage, Stage::Applying);

    let set = Frame::Array(vec![bulk("set"), bulk("k"), bulk("v")]);
    match r.on_frame(set, &mut store, 0) {
        Step::Respond(replies) => assert!(replies.is_empty()),
        _ => panic!("expected the write to be applied"),
    }
    assert_eq!(store.get(b"k", 1), Some(b"v".to_vec()));

    let getack = Frame::Array(vec![bulk("REPLCONF"), bulk("GETACK"), bulk("*")]);
    match r.on_frame(getack, &mut store, 0) {
        Step::Respond(replies) => assert_eq!(
            replies,
            vec![Frame::Array(vec![bulk("REPLCONF"), bulk("ACK"), bulk("0")])]
        ),
        _ => panic!("expected an answer"),
    }
    assert!(matches!(r.on_frame(Frame::Simple("x".to_string()), &mut store, 0), Step::Continue));
    assert!(matches!(r.on_frame(Frame::Array(vec![Frame::Null]), &mut store, 0), Step::Ignored(_)));
}

#[test]
fn handshake_fails_on_wrong_answer() {
    let info = Info::default();
    let mut store = Store::new();
    let mut r = Replicator::new(&info);
    r.start();
    let step = r.on_frame(Frame::Simple("NOPE".to_string()), &mut store, 0);
    assert!(matches!(step, Step::Fail(_)));
    assert_eq!(r.stage, Stage::Failed);
    let step = r.on_frame(Frame::Simple("PONG".to_string()), &mut store, 0);
    assert!(matches!(step, Step::Fail(_)));
}

#[test]
fn psync_answer_must_be_fullresync() {
    let info = Info::default();
    let mut store = Store::new();
    let mut r = Replicator::new(&info);
    r.start();
    r.on_frame(Frame::Simple("PONG".to_string()), &mut store, 0);
    r.on_frame(Frame::Simple("OK".to_string()), &mut store, 0);
    r.on_frame(Frame::Simple("OK".to_string()), &mut store, 0);
    let step = r.on_frame(Frame::Simple("CONTINUE".to_string()), &mut store, 0);
    assert!(matches!(step, Step::Fail(_)));
}

#[test]
fn psync_answer_needs_the_space() {
    let info = Info::default();
    let mut store = Store::new();
    let mut r = Replicator::new(&info);
    r.start();
    r.on_frame(Frame::Simple("PONG".to_string()), &mut store, 0);
    r.on_frame(Frame::Simple("OK".to_string()), &mut store, 0);
    r.on_frame(Frame::Simple("OK".to_string()), &mut store, 0);
    let step = r.on_frame(Frame::Simple("FULLRESYNCX".to_string()), &mut store, 0);
    assert!(matches!(step, Step::Fail(_)));
}
