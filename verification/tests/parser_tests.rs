use rust_redis_rs::error::Error;
use rust_redis_rs::parser::{append_args, append_command, estimate_resp_size, parse_reply, ParseStep, Value};

fn done(buf: &[u8]) -> (Result<Value, Error>, usize) {
    match parse_reply(buf, true) {
        ParseStep::Done(r, n) => (r, n),
        ParseStep::Incomplete => panic!("incomplete"),
    }
}

#[test]
fn test_append_args() {
    let mut buf = Vec::new();
    append_args(&mut buf, &["SET", "key", "value"]);
    let s = String::from_utf8(buf).unwrap();
    assert_eq!(s, "*3\r\n$3\r\nSET\r\n$3\r\nkey\r\n$5\r\nvalue\r\n");
}

#[test]
fn test_append_args_empty() {
    let mut buf = Vec::new();
    append_args(&mut buf, &[] as &[&str]);
    let s = String::from_utf8(buf).unwrap();
    assert_eq!(s, "*0\r\n");
}

#[test]
fn test_append_args_single() {
    let mut buf = Vec::new();
    append_args(&mut buf, &["PING"]);
    let s = String::from_utf8(buf).unwrap();
    assert_eq!(s, "*1\r\n$4\r\nPING\r\n");
}

#[test]
fn append_args_appends_after_existing_bytes() {
    let mut buf = b"xy".to_vec();
    append_args(&mut buf, &["GET", "k"]);
    assert_eq!(buf, b"xy*2\r\n$3\r\nGET\r\n$1\r\nk\r\n".to_vec());
}

#[test]
fn append_args_counts_utf8_bytes() {
    let mut buf = Vec::new();
    append_args(&mut buf, &["h\u{e9}"]);
    assert_eq!(buf, "*1\r\n$3\r\nh\u{e9}\r\n".as_bytes().to_vec());
}

#[test]
fn append_command_matches_append_args() {
    let mut a = Vec::new();
    append_args(&mut a, &["SET", "key", "value"]);
    let mut b = Vec::new();
    append_command(&mut b, &["SET".to_string(), "key".to_string(), "value".to_string()]);
    assert_eq!(a, b);
}

#[test]
fn estimate_is_exact() {
    let args = ["SET", "key", "a longer value"];
    let mut buf = Vec::new();
    append_args(&mut buf, &args);
    assert_eq!(estimate_resp_size(&args), buf.len());
    assert_eq!(estimate_resp_size(&[]), 4);
}

#[test]
fn test_parse_reply_status() {
    let (v, n) = done(b"+OK\r\n");
    assert!(matches!(v, Ok(Value::Status(s)) if s == "OK"));
    assert_eq!(n, 5);
}

#[test]
fn test_parse_reply_integer() {
    let (v, _) = done(b":42\r\n");
    assert!(matches!(v, Ok(Value::Int(42))));
}

#[test]
fn test_parse_reply_bulk_string() {
    let (v, n) = done(b"$5\r\nhello\r\n");
    assert!(matches!(v, Ok(Value::BulkString(s)) if s == "hello"));
    assert_eq!(n, 11);
}

#[test]
fn test_parse_reply_bulk_string_empty() {
    let (v, _) = done(b"$0\r\n\r\n");
    assert!(matches!(v, Ok(Value::BulkString(s)) if s.is_empty()));
}

#[test]
fn test_parse_reply_nil_bulk() {
    let (v, _) = done(b"$-1\r\n");
    assert!(matches!(v, Err(Error::Nil)));
}

#[test]
fn test_parse_reply_nil_array() {
    let (v, _) = done(b"*-1\r\n");
    assert!(matches!(v, Err(Error::Nil)));
}

#[test]
fn test_parse_reply_error() {
    let (v, _) = done(b"-ERR unknown command\r\n");
    let err = v.unwrap_err();
    assert!(err.to_string().contains("unknown command"));
}

#[test]
fn test_parse_reply_array() {
    let (v, _) = done(b"*2\r\n$3\r\nfoo\r\n$3\r\nbar\r\n");
    match &v {
        Ok(Value::Array(arr)) => {
            assert_eq!(arr.len(), 2);
            assert!(matches!(&arr[0], Value::BulkString(s) if s == "foo"));
            assert!(matches!(&arr[1], Value::BulkString(s) if s == "bar"));
        }
        _ => panic!("expected array, got {:?}", v),
    }
}

#[test]
fn test_parse_reply_array_empty() {
    let (v, _) = done(b"*0\r\n");
    assert!(matches!(v, Ok(Value::Array(arr)) if arr.is_empty()));
}

#[test]
fn parse_reply_waits_for_more_input() {
    assert!(matches!(parse_reply(b"$5\r\nhel", false), ParseStep::Incomplete));
    assert!(matches!(parse_reply(b"+OK", false), ParseStep::Incomplete));
    assert!(matches!(parse_reply(b"*2\r\n:1\r\n", false), ParseStep::Incomplete));
}

#[test]
fn parse_reply_eof_mid_reply_is_an_error() {
    let (v, _) = done(b"$5\r\nhel");
    let err = v.unwrap_err();
    assert!(err.to_string().contains("unexpected EOF"));
}

#[test]
fn parse_reply_leaves_following_bytes() {
    let (v, n) = done(b":7\r\n+PONG\r\n");
    assert!(matches!(v, Ok(Value::Int(7))));
    assert_eq!(n, 4);
}

#[test]
fn parse_reply_nil_inside_array() {
    let (v, _) = done(b"*2\r\n$-1\r\n:1\r\n");
    match v {
        Ok(Value::Array(arr)) => {
            assert!(matches!(arr[0], Value::Nil));
            assert!(matches!(arr[1], Value::Int(1)));
        }
        other => panic!("unexpected {:?}", other),
    }
}

#[test]
fn parse_reply_invalid_integer() {
    let (v, _) = done(b":abc\r\n");
    assert_eq!(v.unwrap_err().to_string(), "invalid integer");
}

#[test]
fn parse_reply_unknown_type() {
    let (v, _) = done(b"?x\r\n");
    assert_eq!(v.unwrap_err().to_string(), "can't parse [63, 120]");
}

#[test]
fn parse_reply_empty_line() {
    let (v, _) = done(b"\r\n");
    assert_eq!(v.unwrap_err().to_string(), "empty reply");
}

#[test]
fn parse_reply_round_trip_of_a_command() {
    let mut buf = Vec::new();
    append_args(&mut buf, &["SET", "k", "v"]);
    let (v, n) = done(&buf);
    assert_eq!(n, buf.len());
    match v {
        Ok(Value::Array(arr)) => {
            let texts: Vec<String> = arr
                .into_iter()
                .map(|x| match x {
                    Value::BulkString(s) => s,
                    other => panic!("unexpected {:?}", other),
                })
                .collect();
            assert_eq!(texts, vec!["SET", "k", "v"]);
        }
        other => panic!("unexpected {:?}", other),
    }
}

#[test]
fn value_clone_is_deep() {
    let (v, _) = done(b"*2\r\n$3\r\nfoo\r\n*1\r\n:5\r\n");
    let v = v.unwrap();
    let c = v.clone();
    assert_eq!(format!("{:?}", v), format!("{:?}", c));
}

#[test]
fn invalid_utf8_status_is_replaced() {
    let (v, _) = done(b"+a\xffb\r\n");
    assert!(matches!(v, Ok(Value::Status(s)) if s == "a\u{FFFD}b"));
}

#[test]
fn invalid_utf8_bulk_is_an_error() {
    let (v, n) = done(b"$2\r\n\xff\xfe\r\n");
    assert_eq!(v.unwrap_err().to_string(), "invalid utf8");
    assert_eq!(n, 8);
}

#[test]
fn reply_unchanged_by_following_bytes() {
    let full = b"*2\r\n$5\r\nhello\r\n:12\r\n";
    let mut longer = full.to_vec();
    longer.extend_from_slice(b"+NEXT\r\n");
    let a = parse_reply(full, true);
    let b = parse_reply(&longer, false);
    match (a, b) {
        (ParseStep::Done(Ok(x), n), ParseStep::Done(Ok(y), m)) => {
            assert_eq!(n, m);
            assert_eq!(format!("{:?}", x), format!("{:?}", y));
        }
        _ => panic!("both should be complete"),
    }
}

#[test]
fn line_ending_with_bare_newline() {
    let (v, n) = done(b":5\n");
    assert!(matches!(v, Ok(Value::Int(5))));
    assert_eq!(n, 3);
}
