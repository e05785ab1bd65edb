use redis_starter_rust::frame::{Error, Frame};

fn bulk(s: &str) -> Frame {
    Frame::Bulk(s.as_bytes().to_vec())
}

#[test]
fn array() {
    assert_eq!(Frame::array(), Frame::Array(vec![]))
}

#[test]
fn push_bulk_when_array() {
    let mut array = Frame::array();
    array.push_bulk("hello".as_bytes().to_vec()).unwrap();

    match array {
        Frame::Array(vec) => {
            assert_eq!(vec.len(), 1);
            assert_eq!(vec[0], bulk("hello"));
        }
        _ => unreachable!(),
    }
}

#[test]
fn push_bulk_when_not_array() {
    let mut frame = Frame::Simple("hello".to_string());
    let result = frame.push_bulk("world".as_bytes().to_vec());

    assert!(result.is_err());
    assert_eq!(frame, Frame::Simple("hello".to_string()));
}

#[test]
fn push_int_when_array() {
    let mut array = Frame::array();
    array.push_int(42).unwrap();

    match array {
        Frame::Array(vec) => {
            assert_eq!(vec.len(), 1);
            assert_eq!(vec[0], Frame::Integer(42));
        }
        _ => unreachable!(),
    }
}

#[test]
fn push_int_when_not_array() {
    let mut frame = Frame::Simple("hello".to_string());
    let result = frame.push_int(42);

    assert!(result.is_err());
    assert_eq!(frame, Frame::Simple("hello".to_string()));
}

#[test]
fn check_simple() {
    let result = Frame::check(b"+simple\r\n", 0, false);
    assert!(result.is_ok());
}

#[test]
fn check_error() {
    let result = Frame::check(b"-myerror\r\n", 0, false);
    assert!(result.is_ok());
}

#[test]
fn check_integer() {
    let result = Frame::check(b":42\r\n", 0, false);
    assert!(result.is_ok());
}

#[test]
fn check_bulk() {
    let result = Frame::check(b"$5\r\nhello\r\n", 0, false);
    assert!(result.is_ok());
}

#[test]
fn check_array() {
    let result = Frame::check(b"*2\r\n+simple\r\n:42\r\n", 0, false);
    assert!(result.is_ok());
}

#[test]
fn parse_simple() {
    let result = Frame::parse(b"+simple\r\n", 0, false);
    assert_eq!(result.unwrap().0, Frame::Simple("simple".to_string()));
}

#[test]
fn parse_bulk() {
    let result = Frame::parse(b"$5\r\nhello\r\n", 0, false);
    assert_eq!(result.unwrap().0, bulk("hello"));
}

#[test]
fn parse_array() {
    let result = Frame::parse(b"*2\r\n+simple\r\n:42\r\n", 0, false);
    assert_eq!(
        result.unwrap().0,
        Frame::Array(vec![
            Frame::Simple("simple".to_string()),
            Frame::Integer(42)
        ])
    );
}

#[test]
fn parse_integer() {
    let result = Frame::parse(b":42\r\n", 0, false);
    assert_eq!(result.unwrap().0, Frame::Integer(42));
}

#[test]
fn test_array_of_bulks() {
    assert_eq!(
        Frame::Array(vec![bulk("get"), bulk("key")]).to_bytes(),
        b"*2\r\n$3\r\nget\r\n$3\r\nkey\r\n".to_vec()
    );
    assert_eq!(Frame::Array(vec![bulk("info")]).to_bytes(), b"*1\r\n$4\r\ninfo\r\n".to_vec());
}

#[test]
fn mod_test_simple_string() {
    assert_eq!(Frame::Simple("foo".to_string()).to_bytes(), b"+foo\r\n".to_vec());
}

#[test]
fn check_reports_end_of_frame() {
    assert_eq!(Frame::check(b"+OK\r\n+more", 0, false).unwrap(), 5);
    assert_eq!(Frame::check(b"*2\r\n$1\r\na\r\n:7\r\n", 0, false).unwrap(), 15);
}

#[test]
fn check_incomplete_inputs() {
    for input in [
        &b""[..],
        b"+OK",
        b"+OK\r",
        b":12",
        b"$5\r\nhel",
        b"$5\r\nhello\r",
        b"*2\r\n:1\r\n",
        b"$-1",
    ] {
        assert!(matches!(Frame::check(input, 0, false), Err(Error::Incomplete)), "{:?}", input);
    }
}

#[test]
fn check_invalid_inputs() {
    for input in [&b"!x\r\n"[..], b":x\r\n", b"$-2\r\n", b"$x\r\n", b"*x\r\n"] {
        assert!(matches!(Frame::check(input, 0, false), Err(Error::Other(_))), "{:?}", input);
    }
}

#[test]
fn bulk_without_crlf_ends_with_payload() {
    let input = b"$3\r\nabc+OK\r\n";
    let (frame, end) = Frame::parse(input, 0, true).unwrap();
    assert_eq!(frame, bulk("abc"));
    assert_eq!(end, 7);
    assert!(matches!(Frame::check(input, 0, false), Err(Error::Other(_))));
    let (next, end2) = Frame::parse(input, end, true).unwrap();
    assert_eq!(next, Frame::Simple("OK".to_string()));
    assert_eq!(end2, input.len());
}

#[test]
fn parse_null() {
    assert_eq!(Frame::parse(b"$-1\r\n", 0, false).unwrap(), (Frame::Null, 5));
}

#[test]
fn parse_rejects_invalid_utf8() {
    assert!(matches!(Frame::parse(b"+\xff\r\n", 0, false), Err(Error::Other(_))));
}

#[test]
fn integer_with_sign_and_leading_zeros() {
    assert_eq!(Frame::parse(b":0042\r\n", 0, false).unwrap().0, Frame::Integer(42));
    assert!(Frame::parse(b":+42\r\n", 0, false).is_err());
    assert_eq!(Frame::parse(b":18446744073709551615\r\n", 0, false).unwrap().0, Frame::Integer(u64::MAX));
    assert!(Frame::parse(b":18446744073709551616\r\n", 0, false).is_err());
}

#[test]
fn encodings_of_each_kind() {
    assert_eq!(Frame::Error("ERR x".to_string()).to_bytes(), b"-ERR x\r\n".to_vec());
    assert_eq!(Frame::Integer(1234).to_bytes(), b":1234\r\n".to_vec());
    assert_eq!(Frame::Null.to_bytes(), b"$-1\r\n".to_vec());
    assert_eq!(Frame::OK.to_bytes(), b"+OK\r\n".to_vec());
    assert_eq!(bulk("").to_bytes(), b"$0\r\n\r\n".to_vec());
    assert_eq!(Frame::RdbFile(b"ab".to_vec()).to_bytes(), b"$2\r\nab".to_vec());
    assert_eq!(Frame::Array(vec![]).to_bytes(), b"*0\r\n".to_vec());
}

#[test]
fn round_trip_of_accepted_frames() {
    let frames = vec![
        Frame::Simple("hello world".to_string()),
        Frame::Error("ERR bad".to_string()),
        Frame::Integer(0),
        Frame::Integer(u64::MAX),
        bulk("with\r\ninside"),
        Frame::Null,
        Frame::Array(vec![bulk("set"), Frame::Array(vec![Frame::Integer(3)]), Frame::Null]),
    ];
    for f in frames {
        let bytes = f.to_bytes();
        let (back, end) = Frame::parse(&bytes, 0, false).unwrap();
        assert_eq!(back, f);
        assert_eq!(end, bytes.len());
    }
}

#[test]
fn frames_differ() {
    assert_ne!(Frame::Integer(1), Frame::Integer(2));
    assert_ne!(bulk("a"), Frame::Simple("a".to_string()));
    assert_ne!(Frame::Array(vec![Frame::Null]), Frame::Array(vec![Frame::OK]));
}

#[test]
fn test_lex_array_ping() {
    let input = b"*1\r\n$4\r\nping\r\n";
    let (result, _) = Frame::parse(input, 0, false).unwrap();
    assert_eq!(result, Frame::Array(vec![bulk("ping")]));
}

#[test]
fn test_lex_array_echo() {
    let input = b"*2\r\n$4\r\necho\r\n$5\r\nhello\r\n";
    let (result, _) = Frame::parse(input, 0, false).unwrap();
    assert_eq!(result, Frame::Array(vec![bulk("echo"), bulk("hello")]));
}

#[test]
fn test_serialize_bulk_string() {
    let input = "role:master".to_string();
    let expected = b"$11\r\nrole:master\r\n".to_vec();
    assert_eq!(Frame::Bulk(input.into_bytes()).to_bytes(), expected);
}

#[test]
fn test_lex_bulk_string_with_crlf() {
    let input = "role:master\r\nmaster_replid:878S\r\nmaster_repl_offset:0";
    let input_as_bytes = format!("${}\r\n{}\r\n", input.len(), input);
    let (result, _) = Frame::parse(input_as_bytes.as_bytes(), 0, false).unwrap();
    assert_eq!(result, bulk("role:master\r\nmaster_replid:878S\r\nmaster_repl_offset:0"));
}

#[test]
fn resp_lexer_test_simple_string() {
    let (result, _) = Frame::parse(b"+PONG\r\n", 0, false).unwrap();
    assert_eq!(result, Frame::Simple("PONG".to_string()));
}

#[test]
fn number_lines_are_digits_only() {
    for input in [&b":1x\r\n"[..], b":\r\n", b":-0\r\n", b"*-\r\n", b"$+\r\n", b"$12abc\r\n"] {
        assert!(matches!(Frame::check(input, 0, false), Err(Error::Other(_))), "{:?}", input);
        assert!(Frame::parse(input, 0, false).is_err(), "{:?}", input);
    }
}

#[test]
fn client_bulk_needs_crlf() {
    assert!(matches!(Frame::check(b"$5\r\nhello", 0, false), Err(Error::Incomplete)));
    assert!(matches!(Frame::check(b"$5\r\nhello\r", 0, false), Err(Error::Incomplete)));
    assert_eq!(Frame::check(b"$5\r\nhello\r\n", 0, false).unwrap(), 11);
    assert!(matches!(Frame::check(b"$5\r\nhello\rX", 0, false), Err(Error::Other(_))));
    assert_eq!(Frame::check(b"$5\r\nhello", 0, true).unwrap(), 9);
}

#[test]
fn ok_reads_back_as_simple() {
    let bytes = Frame::Array(vec![Frame::OK, bulk("x")]).to_bytes();
    let (back, end) = Frame::parse(&bytes, 0, false).unwrap();
    assert_eq!(back, Frame::Array(vec![Frame::Simple("OK".to_string()), bulk("x")]));
    assert_eq!(end, bytes.len());
}

#[test]
fn strict_prefixes_are_incomplete() {
    let bytes = Frame::Array(vec![bulk("set"), Frame::Integer(12), Frame::Null, Frame::OK]).to_bytes();
    for k in 0..bytes.len() {
        assert!(matches!(Frame::check(&bytes[..k], 0, false), Err(Error::Incomplete)), "{}", k);
    }
    let mut more = bytes.clone();
    more.extend_from_slice(b"+next\r\n");
    assert_eq!(Frame::check(&more, 0, false).unwrap(), bytes.len());
}

#[test]
fn bulk_trailer_is_checked_at_once() {
    assert!(matches!(Frame::check(b"$1\r\nab", 0, false), Err(Error::Other(_))));
    assert!(matches!(Frame::check(b"$1\r\na", 0, false), Err(Error::Incomplete)));
    assert!(matches!(Frame::check(b"$1\r\na\r", 0, false), Err(Error::Incomplete)));
    assert!(matches!(Frame::check(b"$1\r\na\rX", 0, true), Err(Error::Other(_))));
    assert_eq!(Frame::check(b"$1\r\nab", 0, true).unwrap(), 5);
}
