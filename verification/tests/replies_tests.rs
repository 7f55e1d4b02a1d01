use rust_redis_rs::error::Error;
use rust_redis_rs::parser::Value;
use rust_redis_rs::replies::{flag_element, scan_reply, string_element, string_pair};

#[test]
fn element_decoders() {
    assert_eq!(string_element(Value::Status("a".into())).unwrap(), "a");
    assert_eq!(string_element(Value::Int(1)).unwrap_err().to_string(), "expected string");
    assert!(flag_element(Value::Int(1)).unwrap());
    assert!(!flag_element(Value::Int(5)).unwrap());
    assert_eq!(flag_element(Value::Nil).unwrap_err().to_string(), "expected integer");
    let p = string_pair(Value::BulkString("k".into()), Value::BulkString("v".into())).unwrap();
    assert_eq!(p, ("k".to_string(), "v".to_string()));
    assert!(string_pair(Value::BulkString("k".into()), Value::Nil).is_err());
}

#[test]
fn scan_reply_decoding() {
    let r = scan_reply(Ok(Value::Array(vec![
        Value::BulkString("0".into()),
        Value::Array(vec![Value::BulkString("a".into())]),
    ])))
    .unwrap();
    assert_eq!(r, (0, vec!["a".to_string()]));
    assert_eq!(scan_reply(Ok(Value::Int(1))).unwrap_err().to_string(), "expected array");
    assert!(matches!(scan_reply(Err(Error::Closed)), Err(Error::Closed)));
}
