use rust_redis_rs::error::{
    redis_error, ClosedError, Error, NilError, RateLimitedError, RedisError, TxFailedError,
};

#[test]
fn test_error_display() {
    assert_eq!(Error::Nil.to_string(), "redis: nil");
    assert_eq!(Error::TxFailed.to_string(), "redis: transaction failed");
    assert_eq!(Error::Closed.to_string(), "redis: client is closed");
    assert_eq!(Error::RateLimited.to_string(), "redis: you open connections too fast");
    assert_eq!(Error::Timeout.to_string(), "timeout");
    assert_eq!(Error::Other("custom".into()).to_string(), "custom");
}

#[test]
fn test_redis_error_from() {
    let re: Error = RedisError("ERR foo".into()).into();
    assert!(matches!(re, Error::Redis(_)));
    assert!(re.to_string().contains("foo"));
}

#[test]
fn test_from_io_error() {
    let io_err = std::io::Error::new(std::io::ErrorKind::ConnectionRefused, "refused");
    let err: Error = io_err.into();
    assert!(matches!(err, Error::Io(_)));
    assert!(err.to_string().contains("refused"));
}

#[test]
fn test_redis_error_helper() {
    let re = redis_error("test message");
    assert_eq!(re.0, "test message");
}

#[test]
fn io_error_text_has_prefix() {
    assert_eq!(Error::Io("broken pipe".into()).to_string(), "IO error: broken pipe");
}

#[test]
fn redis_error_text_is_message() {
    assert_eq!(Error::Redis(redis_error("ERR x")).to_string(), "ERR x");
    assert_eq!(RedisError("WRONGTYPE".into()).to_string(), "WRONGTYPE");
}

#[test]
fn marker_error_texts() {
    assert_eq!(NilError.to_string(), "redis: nil");
    assert_eq!(TxFailedError.to_string(), "redis: transaction failed");
    assert_eq!(ClosedError.to_string(), "redis: client is closed");
    assert_eq!(RateLimitedError.to_string(), "redis: you open connections too fast");
}

#[test]
fn elapsed_becomes_timeout() {
    let rt = tokio::runtime::Builder::new_current_thread().enable_time().build().unwrap();
    let elapsed = rt.block_on(async {
        tokio::time::timeout(std::time::Duration::from_millis(1), std::future::pending::<()>())
            .await
            .unwrap_err()
    });
    let err: Error = elapsed.into();
    assert!(matches!(err, Error::Timeout));
}

#[test]
fn error_clone_keeps_message() {
    let e = Error::Other("kept".into());
    assert_eq!(e.clone().to_string(), "kept");
}
