use redis_starter_rust::command::{parse_command, Command, ReplConf, SetCmd};
use redis_starter_rust::frame::Frame;
use redis_starter_rust::info::{Info, DEFAULT_MASTER_REPLID};
use redis_starter_rust::store::{Store, DEFAULT_EXPIRY};

fn answer(command: Command, store: &mut Store, now: u64) -> Vec<u8> {
    let outcome = command.apply(store, now, true).unwrap();
    let mut out = Vec::new();
    for f in &outcome.replies {
        f.encode(&mut out);
    }
    out
}

#[test]
fn test_parse_command_ping() {
    let command = parse_command(b"*1\r\n$4\r\nping\r\n").unwrap();
    match command {
        Command::Ping(_) => {}
        _ => panic!("Expected ping"),
    }
    assert_eq!(answer(command, &mut Store::new(), 0), b"+PONG\r\n".to_vec());
}

#[test]
fn test_parse_command_ping_with_mixed_case() {
    let command = parse_command(b"*1\r\n$4\r\npInG\r\n").unwrap();
    match command {
        Command::Ping(_) => {}
        _ => panic!("Expected ping"),
    }
    assert_eq!(answer(command, &mut Store::new(), 0), b"+PONG\r\n".to_vec());
}

#[test]
fn test_parse_command_set() {
    let mut store = Store::new();
    let command = parse_command(b"*3\r\n$3\r\nset\r\n$3\r\nkey\r\n$5\r\nvalue\r\n").unwrap();
    match &command {
        Command::SetCmd(set) => {
            assert_eq!(set.key, b"key".to_vec());
            assert_eq!(set.value, b"value".to_vec());
            assert_eq!(set.expiry, None);
        }
        _ => panic!("Expected set"),
    }
    assert_eq!(answer(command, &mut store, 0), b"+OK\r\n".to_vec());
    assert_eq!(store.get(b"key", 0), Some(b"value".to_vec()));
    assert_eq!(store.get(b"key", DEFAULT_EXPIRY - 1), Some(b"value".to_vec()));
}

#[test]
fn test_parse_command_get() {
    let mut store = Store::new();
    store.set(b"key".to_vec(), b"value".to_vec(), DEFAULT_EXPIRY, 0);
    let command = parse_command(b"*2\r\n$3\r\nget\r\n$3\r\nkey\r\n").unwrap();
    match &command {
        Command::Get(get) => assert_eq!(get.key, b"key".to_vec()),
        _ => panic!("Expected get"),
    }
    assert_eq!(answer(command, &mut store, 0), b"$5\r\nvalue\r\n".to_vec());
}

#[test]
fn test_parse_command_get_not_found() {
    let command = parse_command(b"*2\r\n$3\r\nget\r\n$3\r\nkey\r\n").unwrap();
    assert_eq!(answer(command, &mut Store::new(), 0), b"$-1\r\n".to_vec());
}

#[test]
fn test_parse_command_set_with_expiry() {
    let mut store = Store::new();
    let command =
        parse_command(b"*5\r\n$3\r\nset\r\n$3\r\nkey\r\n$5\r\nvalue\r\n$2\r\nPX\r\n$4\r\n1000\r\n").unwrap();
    match &command {
        Command::SetCmd(set) => {
            assert_eq!(set.key, b"key".to_vec());
            assert_eq!(set.value, b"value".to_vec());
            assert_eq!(set.expiry, Some(1000));
        }
        _ => panic!("Expected set"),
    }
    assert_eq!(answer(command, &mut store, 0), b"+OK\r\n".to_vec());
    assert_eq!(store.get(b"key", 999), Some(b"value".to_vec()));
}

#[test]
fn test_parse_command_set_expired() {
    let mut store = Store::new();
    let command =
        parse_command(b"*5\r\n$3\r\nset\r\n$3\r\nkey\r\n$5\r\nvalue\r\n$2\r\nPX\r\n$1\r\n1\r\n").unwrap();
    assert_eq!(answer(command, &mut store, 0), b"+OK\r\n".to_vec());
    assert_eq!(store.get(b"key", 0), Some(b"value".to_vec()));
    let command = parse_command(b"*2\r\n$3\r\nget\r\n$3\r\nkey\r\n").unwrap();
    assert_eq!(answer(command, &mut store, 1000), b"$-1\r\n".to_vec());
}

#[test]
fn test_info_command() {
    let command = parse_command(b"*1\r\n$4\r\ninfo\r\n").unwrap();
    match command {
        Command::Info(_) => {}
        _ => panic!("Expected info"),
    }
    let body = format!(
        "role:master\r\nmaster_replid:{}\r\nmaster_repl_offset:0\r\n",
        DEFAULT_MASTER_REPLID
    );
    assert_eq!(
        answer(command, &mut Store::new(), 0),
        Frame::Bulk(body.into_bytes()).to_bytes()
    );
}

#[test]
fn test_repl_conf_listening_port() {
    let command = Command::from_frame(Frame::Array(vec![
        Frame::Bulk(b"REPLCONF".to_vec()),
        Frame::Bulk(b"listening-port".to_vec()),
        Frame::Bulk(b"6380".to_vec()),
    ]))
    .unwrap();
    match &command {
        Command::ReplConf(repl_conf) => assert_eq!(repl_conf.listening_port, Some(6380)),
        _ => panic!("Expected repl conf"),
    }
    assert_eq!(answer(command, &mut Store::new(), 0), b"+OK\r\n".to_vec());
}

#[test]
fn test_repl_conf_capabilities() {
    let command = Command::from_frame(Frame::Array(vec![
        Frame::Bulk(b"REPLCONF".to_vec()),
        Frame::Bulk(b"capa".to_vec()),
        Frame::Bulk(b"eof".to_vec()),
        Frame::Bulk(b"capa".to_vec()),
        Frame::Bulk(b"psync2".to_vec()),
    ]))
    .unwrap();
    match &command {
        Command::ReplConf(repl_conf) => {
            assert_eq!(repl_conf.listening_port, None);
            assert_eq!(repl_conf.capabilities, vec!["eof".to_string(), "psync2".to_string()]);
        }
        _ => panic!("Expected repl conf"),
    }
    assert_eq!(answer(command, &mut Store::new(), 0), b"+OK\r\n".to_vec());
}

#[test]
fn commands_test_psync() {
    let command = parse_command(b"*3\r\n$5\r\nPSYNC\r\n$1\r\n?\r\n$2\r\n-1\r\n").unwrap();
    match &command {
        Command::Psync(psync) => {
            assert_eq!(psync.master_replid, "?");
            assert_eq!(psync.master_repl_offset, None);
        }
        _ => panic!("Expected psync"),
    }
    let expected = format!("FULLRESYNC {} {}", DEFAULT_MASTER_REPLID, 0);
    assert_eq!(
        answer(command, &mut Store::new(), 0),
        Frame::Simple(expected).to_bytes()
    );
}

#[test]
fn repl_conf_errors() {
    for args in [
        vec!["REPLCONF", "listening-port"],
        vec!["REPLCONF", "listening-port", "x"],
        vec!["REPLCONF", "other", "1"],
    ] {
        let frame = Frame::Array(args.iter().map(|a| Frame::Bulk(a.as_bytes().to_vec())).collect());
        assert!(Command::from_frame(frame).is_err(), "{:?}", args);
    }
}

#[test]
fn reserved_keys_read_as_raw_bytes() {
    let mut store = Store::new();
    Info::default().write(&mut store, 0);
    let command = parse_command(b"*2\r\n$3\r\nGET\r\n$14\r\nINFO:SELF_PORT\r\n").unwrap();
    assert_eq!(answer(command, &mut store, 0), b"$4\r\n6379\r\n".to_vec());
}

#[test]
fn follower_does_not_answer_writes() {
    let mut store = Store::new();
    let command = parse_command(b"*3\r\n$3\r\nset\r\n$1\r\nk\r\n$1\r\nv\r\n").unwrap();
    let outcome = command.apply(&mut store, 0, false).unwrap();
    assert!(outcome.replies.is_empty());
    assert!(outcome.replicate.is_some());
    assert_eq!(store.get(b"k", 0), Some(b"v".to_vec()));
}

#[test]
fn incomplete_bytes_are_no_command() {
    assert!(parse_command(b"*1\r\n$4\r\nPI").is_err());
}

#[test]
fn text_comparisons() {
    assert!(Frame::Simple("OK".to_string()).eq_text("OK"));
    assert!(Frame::Bulk(b"OK".to_vec()).eq_text("OK"));
    assert!(!Frame::Integer(1).eq_text("1"));
}

#[test]
fn set_option_reader() {
    let c = SetCmd::with_option(b"k".to_vec(), b"v".to_vec(), "px", &Frame::Bulk(b"100".to_vec())).unwrap();
    assert_eq!(c.expiry, Some(100));
    assert_eq!(c.key, b"k".to_vec());
    assert!(SetCmd::with_option(b"k".to_vec(), b"v".to_vec(), "ex", &Frame::Bulk(b"100".to_vec())).is_err());
    assert!(SetCmd::with_option(b"k".to_vec(), b"v".to_vec(), "px", &Frame::Bulk(b"1x".to_vec())).is_err());
}

#[test]
fn replconf_option_step() {
    let empty = || ReplConf { listening_port: None, capabilities: vec![], getack_option: None };
    let c = empty().with_option("listening-port", "6380".to_string()).unwrap();
    assert_eq!(c.listening_port, Some(6380));
    let c = c.with_option("capa", "psync2".to_string()).unwrap();
    assert_eq!(c.capabilities, vec!["psync2".to_string()]);
    let c = c.with_option("getack", "*".to_string()).unwrap();
    assert_eq!(c.getack_option, Some("*".to_string()));
    assert!(empty().with_option("LISTENING-PORT", "1".to_string()).is_err());
    assert!(empty().with_option("listening-port", "x".to_string()).is_err());
}
