use rust_redis_rs::error::Error;
use rust_redis_rs::parser::Value;
use rust_redis_rs::sentinel::{
    master_addr_from_reply, master_client_options, master_query, sentinel_client_options,
    first_sentinel, sentinel_step, sentinels_unreachable, FailoverOptions, SentinelStep,
    DEFAULT_SENTINEL_ADDR,
};
use std::time::Duration;

#[test]
fn failover_options_default() {
    let o = FailoverOptions::default();
    assert_eq!(o.master_name, "mymaster");
    assert_eq!(o.sentinel_addrs, vec![DEFAULT_SENTINEL_ADDR.to_string()]);
    assert_eq!(DEFAULT_SENTINEL_ADDR, "127.0.0.1:26379");
    assert_eq!(o.pool_size, 10);
    assert_eq!(o.db, 0);
    assert_eq!(o.dial_timeout, Duration::from_secs(5));
    assert!(o.password.is_none());
}

#[test]
fn master_address_from_sentinel_reply() {
    let r = Ok(Value::Array(vec![Value::BulkString("10.0.0.1".into()), Value::BulkString("6380".into())]));
    assert_eq!(master_addr_from_reply(r), Some("10.0.0.1:6380".to_string()));
    assert_eq!(master_addr_from_reply(Ok(Value::Nil)), None);
    assert_eq!(master_addr_from_reply(Err(Error::Nil)), None);
    assert_eq!(
        master_addr_from_reply(Ok(Value::Array(vec![Value::Int(1), Value::BulkString("1".into())]))),
        None
    );
}

#[test]
fn sentinel_and_master_options() {
    let mut o = FailoverOptions::default();
    o.password = Some("pw".into());
    o.db = 2;
    o.read_timeout = Some(Duration::from_secs(1));
    let s = sentinel_client_options(&o, &"h:1".to_string());
    assert_eq!(s.addr, "h:1");
    assert_eq!(s.pool_size, 1);
    assert!(s.password.is_none());
    assert_eq!(s.read_timeout, Some(Duration::from_secs(1)));
    let m = master_client_options(&o, "m:2".to_string());
    assert_eq!(m.password.as_deref(), Some("pw"));
    assert_eq!(m.db, 2);
    assert_eq!(m.pool_size, 10);
    assert_eq!(master_query(&o), vec!["SENTINEL", "get-master-addr-by-name", "mymaster"]);
    assert_eq!(sentinels_unreachable().to_string(), "redis: all sentinels are unreachable");
    let c = o.clone();
    assert_eq!(c.sentinel_addrs, o.sentinel_addrs);
}

#[test]
fn sentinel_search_steps() {
    assert!(matches!(first_sentinel(2), SentinelStep::Ask(0)));
    assert!(matches!(first_sentinel(0), SentinelStep::Fail(ref e) if e.to_string() == "redis: all sentinels are unreachable"));
    assert!(matches!(sentinel_step(0, 2, Err(Error::Closed)), SentinelStep::Ask(1)));
    assert!(matches!(sentinel_step(1, 2, Ok(Value::Nil)), SentinelStep::Fail(_)));
    let r = Ok(Value::Array(vec![Value::BulkString("h".into()), Value::BulkString("1".into())]));
    assert!(matches!(sentinel_step(0, 2, r), SentinelStep::Found(ref a) if a == "h:1"));
}
