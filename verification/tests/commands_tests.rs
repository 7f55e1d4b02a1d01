use rust_redis_rs::commands::{
    text_pairs_prefix, BaseCmd, BoolCmd, BoolSliceCmd, DurationCmd, GenericCmd, IntCmd, ScanCmd,
    SliceCmd, StatusCmd, StringCmd, StringMapCmd, StringSliceCmd,
};
use rust_redis_rs::error::Error;
use rust_redis_rs::parser::Value;
use std::time::Duration;

fn bulk(s: &str) -> Value {
    Value::BulkString(s.to_string())
}

fn args(a: &[&str]) -> Vec<String> {
    a.iter().map(|s| s.to_string()).collect()
}

#[test]
fn base_cmd_error_is_reported() {
    let mut b = BaseCmd::new(args(&["GET", "k"]));
    assert!(b.err().is_none());
    b.set_err(Error::Timeout);
    assert!(matches!(b.err(), Some(Error::Timeout)));
    assert_eq!(b.args, vec!["GET", "k"]);
    let c = b.clone();
    assert!(matches!(c.err, Some(Error::Timeout)));
}

#[test]
fn generic_cmd_result() {
    let mut c = GenericCmd::new(args(&["X"]));
    assert!(c.result().unwrap().is_none());
    c.val = Some(Value::Int(3));
    assert!(matches!(c.result().unwrap(), Some(Value::Int(3))));
    assert!(matches!(c.val(), Some(Value::Int(3))));
    c.base.set_err(Error::Closed);
    assert!(matches!(c.result(), Err(Error::Closed)));
}

#[test]
fn status_cmd_parse_and_result() {
    let mut c = StatusCmd::new(args(&["PING"]));
    assert_eq!(c.result().unwrap_err().to_string(), "no value");
    c.parse(Value::Status("PONG".into())).unwrap();
    assert_eq!(c.result().unwrap(), "PONG");
    let e = c.parse(Value::Int(1)).unwrap_err();
    assert_eq!(e.to_string(), "expected status");
    assert_eq!(c.result().unwrap(), "PONG");
}

#[test]
fn int_cmd_parses_strings() {
    let mut c = IntCmd::new(args(&["INCR", "k"]));
    c.parse(Value::Int(7)).unwrap();
    assert_eq!(c.result().unwrap(), 7);
    c.parse(bulk("-12")).unwrap();
    assert_eq!(c.result().unwrap(), -12);
    c.parse(bulk("+5")).unwrap();
    assert_eq!(c.result().unwrap(), 5);
    assert_eq!(c.parse(bulk("x1")).unwrap_err().to_string(), "invalid int");
    assert_eq!(c.parse(bulk("9223372036854775808")).unwrap_err().to_string(), "invalid int");
    assert_eq!(c.parse(Value::Nil).unwrap_err().to_string(), "expected int");
    assert_eq!(c.result().unwrap(), 5);
}

#[test]
fn bool_cmd_parse() {
    let mut c = BoolCmd::new(args(&["EXISTS", "k"]));
    c.parse(Value::Int(1)).unwrap();
    assert!(c.result().unwrap());
    c.parse(Value::Int(0)).unwrap();
    assert!(!c.result().unwrap());
    assert_eq!(c.parse(bulk("1")).unwrap_err().to_string(), "expected int");
}

#[test]
fn string_cmd_nil_keeps_none() {
    let mut c = StringCmd::new(args(&["GET", "k"]));
    c.parse(Value::Nil).unwrap();
    assert_eq!(c.result().unwrap(), None);
    c.parse(bulk("v")).unwrap();
    assert_eq!(c.result().unwrap(), Some("v".to_string()));
    assert_eq!(c.parse(Value::Int(1)).unwrap_err().to_string(), "expected string");
}

#[test]
fn duration_cmd_scales_by_precision() {
    let mut c = DurationCmd::new(Duration::from_millis(1), args(&["PTTL", "k"]));
    c.parse(Value::Int(1500)).unwrap();
    assert_eq!(c.result().unwrap(), Duration::from_millis(1500));
    c.parse(Value::Int(-1)).unwrap();
    assert_eq!(c.result().unwrap(), Duration::ZERO);
    assert_eq!(c.parse(bulk("3")).unwrap_err().to_string(), "expected int");
    let mut s = DurationCmd::new(Duration::from_secs(1), args(&["TTL", "k"]));
    assert_eq!(s.result().unwrap_err().to_string(), "no value");
    assert!(s.parse_checked(Value::Int(60)).unwrap().is_ok());
    assert_eq!(s.result().unwrap(), Duration::from_secs(60));
    assert!(s.parse_checked(Value::Int(i64::MAX)).is_none());
    assert_eq!(s.result().unwrap(), Duration::from_secs(60));
}

#[test]
fn string_slice_cmd() {
    let mut c = StringSliceCmd::new(args(&["KEYS", "*"]));
    assert!(c.result().unwrap().is_empty());
    c.parse(Value::Array(vec![bulk("a"), Value::Status("b".into())])).unwrap();
    assert_eq!(c.result().unwrap(), vec!["a", "b"]);
    let e = c.parse(Value::Array(vec![bulk("a"), Value::Int(1)])).unwrap_err();
    assert_eq!(e.to_string(), "expected string");
    assert_eq!(c.result().unwrap(), vec!["a", "b"]);
    assert_eq!(c.parse(bulk("a")).unwrap_err().to_string(), "expected array");
}

#[test]
fn slice_cmd() {
    let mut c = SliceCmd::new(args(&["X"]));
    assert!(c.result().unwrap().is_empty());
    c.parse(Value::Array(vec![Value::Int(1), Value::Nil])).unwrap();
    let r = c.result().unwrap();
    assert!(matches!(r[0], Value::Int(1)));
    assert!(matches!(r[1], Value::Nil));
    assert_eq!(c.parse(Value::Nil).unwrap_err().to_string(), "expected array");
}

#[test]
fn bool_slice_cmd() {
    let mut c = BoolSliceCmd::new(args(&["SCRIPT", "EXISTS"]));
    c.parse(Value::Array(vec![Value::Int(1), Value::Int(0), Value::Int(2)])).unwrap();
    assert_eq!(c.result().unwrap(), vec![true, false, false]);
    let e = c.parse(Value::Array(vec![Value::Int(1), bulk("1")])).unwrap_err();
    assert_eq!(e.to_string(), "expected int");
    assert_eq!(c.parse(Value::Int(1)).unwrap_err().to_string(), "expected array");
}

#[test]
fn string_map_cmd() {
    let mut c = StringMapCmd::new(args(&["HGETALL", "h"]));
    assert_eq!(c.result().unwrap().len(), 0);
    c.parse(Value::Array(vec![bulk("a"), bulk("1"), bulk("b"), bulk("2")])).unwrap();
    let m = c.result().unwrap();
    assert_eq!(m.len(), 2);
    assert_eq!(m.get("b").map(|s| s.as_str()), Some("2"));
    let e = c.parse(Value::Array(vec![bulk("a"), Value::Int(1)])).unwrap_err();
    assert_eq!(e.to_string(), "expected string");
    assert_eq!(c.parse(Value::Nil).unwrap_err().to_string(), "expected array");
}

#[test]
fn scan_cmd() {
    let mut c = ScanCmd::new(args(&["SCAN", "0"]));
    assert_eq!(c.result().unwrap(), (0, vec![]));
    c.parse(Value::Array(vec![bulk("17"), Value::Array(vec![bulk("k1"), Value::Int(1), bulk("k2")])]))
        .unwrap();
    assert_eq!(c.result().unwrap(), (17, vec!["k1".to_string(), "k2".to_string()]));
    c.parse(Value::Array(vec![bulk("nope"), Value::Nil])).unwrap();
    assert_eq!(c.result().unwrap(), (0, vec![]));
    c.parse(Value::Array(vec![Value::Int(4), bulk("x")])).unwrap();
    assert_eq!(c.result().unwrap(), (4, vec![]));
    assert_eq!(c.parse(Value::Array(vec![bulk("1")])).unwrap_err().to_string(), "invalid scan reply");
    assert_eq!(c.parse(Value::Nil).unwrap_err().to_string(), "expected array");
}

#[test]
fn text_pairs_prefix_stops_at_bad_pair() {
    let (pairs, stopped) = text_pairs_prefix(vec![bulk("a"), bulk("1"), Value::Int(2), bulk("b")]);
    assert_eq!(pairs, vec![("a".to_string(), "1".to_string())]);
    assert!(stopped);
    let (pairs, stopped) = text_pairs_prefix(vec![bulk("a"), bulk("1"), bulk("odd")]);
    assert_eq!(pairs.len(), 1);
    assert!(!stopped);
}
