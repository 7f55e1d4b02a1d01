use rust_redis_rs::client::{
    array_to_option_strings, array_to_string_map, array_to_strings, bool_reply, check_init_reply,
    concat_args, init_commands, int_reply, member_score_pairs, needs_init, opt_int_reply,
    opt_strings_reply, opt_text_reply, pop_reply, status_reply, string_map_reply, strings_reply,
    text_reply, ttl_reply, ClientOptions, DEFAULT_ADDR,
};
use rust_redis_rs::error::{redis_error, Error};
use rust_redis_rs::parser::Value;
use rust_redis_rs::strmap::StringMap;

fn bulk(s: &str) -> Value {
    Value::BulkString(s.to_string())
}

fn status(s: &str) -> Value {
    Value::Status(s.to_string())
}

#[test]
fn test_client_options_default() {
    let opts = ClientOptions::default();
    assert_eq!(opts.addr, DEFAULT_ADDR);
    assert_eq!(opts.db, 0);
    assert_eq!(opts.pool_size, 10);
    assert!(opts.password.is_none());
}

#[test]
fn client_options_default_timeouts() {
    let opts = ClientOptions::default();
    assert_eq!(opts.dial_timeout, std::time::Duration::from_secs(5));
    assert!(opts.read_timeout.is_none());
    assert!(opts.write_timeout.is_none());
    assert!(opts.idle_timeout.is_none());
    assert_eq!(DEFAULT_ADDR, "127.0.0.1:6379");
}

#[test]
fn client_options_clone_is_equal() {
    let mut opts = ClientOptions::default();
    opts.password = Some("pw".into());
    opts.db = 3;
    let c = opts.clone();
    assert_eq!(c.password.as_deref(), Some("pw"));
    assert_eq!(c.db, 3);
    assert_eq!(c.addr, opts.addr);
}

#[test]
fn array_to_strings_keeps_only_strings() {
    let arr = vec![bulk("a"), Value::Int(1), status("b"), Value::Nil, bulk("c")];
    assert_eq!(array_to_strings(arr), vec!["a", "b", "c"]);
    assert!(array_to_strings(vec![]).is_empty());
}

#[test]
fn array_to_option_strings_marks_others_none() {
    let arr = vec![bulk("a"), Value::Nil, Value::Int(3), status("b")];
    assert_eq!(
        array_to_option_strings(arr),
        vec![Some("a".to_string()), None, None, Some("b".to_string())]
    );
}

#[test]
fn status_reply_cases() {
    assert_eq!(status_reply(Ok(status("OK"))).unwrap(), "OK");
    assert_eq!(status_reply(Ok(bulk("OK"))).unwrap_err().to_string(), "expected status");
    assert!(matches!(status_reply(Err(Error::Closed)), Err(Error::Closed)));
}

#[test]
fn text_reply_cases() {
    assert_eq!(text_reply(Ok(bulk("hi")), "expected string").unwrap(), "hi");
    assert_eq!(text_reply(Ok(status("PONG")), "expected status").unwrap(), "PONG");
    assert_eq!(
        text_reply(Ok(Value::Int(1)), "expected string").unwrap_err().to_string(),
        "expected string"
    );
}

#[test]
fn int_and_bool_replies() {
    assert_eq!(int_reply(Ok(Value::Int(-4))).unwrap(), -4);
    assert_eq!(int_reply(Ok(bulk("4"))).unwrap_err().to_string(), "expected int");
    assert!(bool_reply(Ok(Value::Int(1))).unwrap());
    assert!(!bool_reply(Ok(Value::Int(2))).unwrap());
    assert!(!bool_reply(Ok(Value::Int(0))).unwrap());
    assert!(matches!(bool_reply(Err(Error::Timeout)), Err(Error::Timeout)));
}

#[test]
fn ttl_reply_clamps_negative() {
    assert_eq!(ttl_reply(Ok(Value::Int(-2))).unwrap(), 0);
    assert_eq!(ttl_reply(Ok(Value::Int(-1))).unwrap(), 0);
    assert_eq!(ttl_reply(Ok(Value::Int(60))).unwrap(), 60);
}

#[test]
fn optional_replies() {
    assert_eq!(opt_text_reply(Ok(bulk("v"))).unwrap(), Some("v".to_string()));
    assert_eq!(opt_text_reply(Err(Error::Nil)).unwrap(), None);
    assert_eq!(opt_text_reply(Ok(Value::Int(1))).unwrap_err().to_string(), "expected string");
    assert_eq!(opt_int_reply(Ok(Value::Int(2))).unwrap(), Some(2));
    assert_eq!(opt_int_reply(Err(Error::Nil)).unwrap(), None);
    assert_eq!(opt_int_reply(Ok(Value::Nil)).unwrap_err().to_string(), "expected int");
}

#[test]
fn array_replies() {
    let r = strings_reply(Ok(Value::Array(vec![bulk("x"), Value::Int(1)]))).unwrap();
    assert_eq!(r, vec!["x"]);
    assert_eq!(strings_reply(Ok(bulk("x"))).unwrap_err().to_string(), "expected array");
    let r = opt_strings_reply(Ok(Value::Array(vec![Value::Nil, bulk("y")]))).unwrap();
    assert_eq!(r, vec![None, Some("y".to_string())]);
}

#[test]
fn hash_map_from_pairs() {
    let arr = vec![bulk("f1"), bulk("v1"), bulk("f2"), bulk("v2"), bulk("f1"), bulk("v3"), bulk("odd")];
    let m: StringMap = array_to_string_map(arr);
    assert_eq!(m.len(), 2);
    assert_eq!(m.get("f1").map(|s| s.as_str()), Some("v3"));
    assert_eq!(m.get("f2").map(|s| s.as_str()), Some("v2"));
    assert!(m.get("odd").is_none());
    let m = string_map_reply(Ok(Value::Array(vec![status("a"), bulk("b")]))).unwrap();
    assert_eq!(m.get("a").map(|s| s.as_str()), Some("b"));
    assert_eq!(string_map_reply(Ok(Value::Nil)).unwrap_err().to_string(), "expected array");
}

#[test]
fn member_score_pairs_skips_bad_elements() {
    let arr = vec![bulk("a"), bulk("1"), Value::Int(9), bulk("b"), bulk("2.5")];
    let pairs = member_score_pairs(arr);
    assert_eq!(
        pairs,
        vec![("a".to_string(), "1".to_string()), ("b".to_string(), "2.5".to_string())]
    );
}

#[test]
fn pop_reply_cases() {
    let r = pop_reply(Ok(Value::Array(vec![bulk("list"), bulk("item")]))).unwrap();
    assert_eq!(r, Some(("list".to_string(), "item".to_string())));
    assert_eq!(pop_reply(Err(Error::Nil)).unwrap(), None);
    assert_eq!(pop_reply(Ok(Value::Array(vec![bulk("x")]))).unwrap(), None);
    assert_eq!(
        pop_reply(Ok(Value::Array(vec![Value::Int(1), bulk("x")]))).unwrap_err().to_string(),
        "expected string"
    );
}

#[test]
fn init_commands_for_password_and_db() {
    assert!(!needs_init(&None, 0));
    assert!(needs_init(&Some("pw".into()), 0));
    assert!(needs_init(&None, 2));
    let cmds = init_commands(&Some("secret".into()), 3);
    assert_eq!(cmds, vec![vec!["AUTH", "secret"], vec!["SELECT", "3"]]);
    assert!(init_commands(&None, 0).is_empty());
    assert!(init_commands(&None, -1).is_empty());
}

#[test]
fn init_reply_checks_ok() {
    assert!(check_init_reply(Ok(status("OK"))).is_ok());
    assert!(check_init_reply(Ok(status("ok"))).is_ok());
    assert!(check_init_reply(Ok(Value::Int(1))).is_ok());
    let e = check_init_reply(Ok(status("NOAUTH"))).unwrap_err();
    assert!(matches!(e, Error::Redis(_)));
    assert_eq!(e.to_string(), "NOAUTH");
    let e = check_init_reply(Err(Error::Redis(redis_error("ERR invalid password")))).unwrap_err();
    assert_eq!(e.to_string(), "ERR invalid password");
}

#[test]
fn concat_args_appends() {
    let r = concat_args(vec!["DEL".to_string()], &["a".to_string(), "b".to_string()]);
    assert_eq!(r, vec!["DEL", "a", "b"]);
}
