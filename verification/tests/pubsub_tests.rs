use rust_redis_rs::parser::Value;
use rust_redis_rs::pubsub::{decode_message, subscription_command, PubSubMessage};

fn bulk(s: &str) -> Value {
    Value::BulkString(s.to_string())
}

#[test]
fn subscription_confirmation() {
    let m = decode_message(Value::Array(vec![bulk("subscribe"), bulk("ch"), Value::Int(1)])).unwrap();
    match m {
        PubSubMessage::Subscription { kind, channel, count } => {
            assert_eq!(kind, "subscribe");
            assert_eq!(channel, "ch");
            assert_eq!(count, 1);
        }
        other => panic!("unexpected {:?}", other),
    }
}

#[test]
fn plain_and_pattern_messages() {
    let m = decode_message(Value::Array(vec![bulk("message"), bulk("ch"), bulk("hi")])).unwrap();
    assert!(matches!(m, PubSubMessage::Message { ref channel, ref payload } if channel == "ch" && payload == "hi"));
    let m = decode_message(Value::Array(vec![bulk("pmessage"), bulk("c*"), bulk("ch"), bulk("x")])).unwrap();
    assert!(matches!(m, PubSubMessage::PMessage { ref pattern, .. } if pattern == "c*"));
}

#[test]
fn malformed_messages() {
    assert_eq!(decode_message(Value::Nil).unwrap_err().to_string(), "expected array");
    assert_eq!(
        decode_message(Value::Array(vec![bulk("message"), bulk("ch")])).unwrap_err().to_string(),
        "expected array"
    );
    assert_eq!(
        decode_message(Value::Array(vec![Value::Int(1), bulk("ch"), bulk("x")])).unwrap_err().to_string(),
        "expected string"
    );
    assert_eq!(
        decode_message(Value::Array(vec![bulk("pmessage"), bulk("p"), bulk("c")])).unwrap_err().to_string(),
        "unsupported message: pmessage"
    );
    let m = decode_message(Value::Array(vec![bulk("message"), Value::Int(3), Value::Nil])).unwrap();
    assert!(matches!(m, PubSubMessage::Message { ref channel, ref payload } if channel.is_empty() && payload.is_empty()));
}

#[test]
fn subscribe_commands() {
    let c = subscription_command("SUBSCRIBE", &["a".to_string(), "b".to_string()]);
    assert_eq!(c, vec!["SUBSCRIBE", "a", "b"]);
    assert_eq!(subscription_command("PUNSUBSCRIBE", &[]), vec!["PUNSUBSCRIBE"]);
}

#[test]
fn message_clone() {
    let m = PubSubMessage::Message { channel: "c".into(), payload: "p".into() };
    assert!(matches!(m.clone(), PubSubMessage::Message { ref channel, .. } if channel == "c"));
}
