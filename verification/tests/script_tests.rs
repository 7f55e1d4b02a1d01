use rust_redis_rs::error::{redis_error, Error};
use rust_redis_rs::parser::Value;
use rust_redis_rs::script::{evalsha_outcome, exists_reply, load_reply, Script};

#[test]
fn script_hash_is_sha1_hex() {
    let s = Script::new("return redis.call('GET', KEYS[1])".to_string());
    assert_eq!(s.src(), "return redis.call('GET', KEYS[1])");
    assert_eq!(s.hash().len(), 40);
    let empty = Script::new(String::new());
    assert_eq!(empty.hash(), "da39a3ee5e6b4b0d3255bfef95601890afd80709");
    let abc = Script::new("abc".to_string());
    assert_eq!(abc.hash(), "a9993e364706816aba3e25717850c26c9cd0d89d");
}

#[test]
fn script_commands() {
    let s = Script::new("return 1".to_string());
    let keys = vec!["k1".to_string(), "k2".to_string()];
    let args = vec!["a".to_string()];
    assert_eq!(s.eval_command(&keys, &args), vec!["EVAL", "return 1", "2", "k1", "k2", "a"]);
    let sha = s.evalsha_command(&keys, &[]);
    assert_eq!(sha[0], "EVALSHA");
    assert_eq!(sha[1], s.hash());
    assert_eq!(&sha[2..], &["2", "k1", "k2"]);
    assert_eq!(s.load_command(), vec!["SCRIPT", "LOAD", "return 1"]);
    assert_eq!(s.exists_command(), vec!["SCRIPT".to_string(), "EXISTS".to_string(), s.hash().to_string()]);
}

#[test]
fn load_and_exists_replies() {
    assert_eq!(load_reply(Ok(Value::BulkString("abc".into()))).unwrap(), "abc");
    assert_eq!(load_reply(Ok(Value::Int(1))).unwrap_err().to_string(), "expected string");
    let r = exists_reply(Ok(Value::Array(vec![Value::Int(1), Value::Nil, Value::Int(0)]))).unwrap();
    assert_eq!(r, vec![true, false]);
    assert_eq!(exists_reply(Ok(Value::Nil)).unwrap_err().to_string(), "expected array");
}

#[test]
fn noscript_falls_back_to_eval() {
    let e = Error::Redis(redis_error("NOSCRIPT No matching script. Please use EVAL."));
    assert!(evalsha_outcome(Err(e)).is_none());
    let other = Error::Redis(redis_error("ERR something"));
    assert!(matches!(evalsha_outcome(Err(other)), Some(Err(Error::Redis(_)))));
    assert!(matches!(evalsha_outcome(Ok(Value::Int(1))), Some(Ok(Value::Int(1)))));
}

#[test]
fn hash_is_lowercase_hex_of_digest() {
    let digest = <sha1::Sha1 as sha1::Digest>::digest(b"x");
    let s = Script::with_digest("x".to_string(), digest.as_slice());
    assert_eq!(s.hash(), "11f6ad8ec52a2984abaafd7c3b516503785c2072");
    assert_eq!(s.hash(), Script::new("x".to_string()).hash());
    assert_eq!(s.src(), "x");
}
