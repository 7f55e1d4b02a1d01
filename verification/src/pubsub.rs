//! Pub/Sub: the commands that subscribe and unsubscribe, and the decoding of
//! the messages a subscribed connection receives.

use crate::client::{concat_args, is_text, string_views, text_of, value_text};
use crate::error::{Error, SpecError};
use crate::parser::{lemma_view_values_len, view_values, SpecValue, Value};
use crate::text::str_equal;
use vstd::prelude::*;

verus! {

/// Pub/Sub message.
#[derive(Debug)]
pub enum PubSubMessage {
    /// Subscription confirmation.
    Subscription { kind: String, channel: String, count: i64 },
    /// Regular message.
    Message { channel: String, payload: String },
    /// Pattern message.
    PMessage { pattern: String, channel: String, payload: String },
}

/// Mathematical model of a [`PubSubMessage`].
pub enum SpecMessage {
    Subscription { kind: Seq<char>, channel: Seq<char>, count: i64 },
    Message { channel: Seq<char>, payload: Seq<char> },
    PMessage { pattern: Seq<char>, channel: Seq<char>, payload: Seq<char> },
}

impl View for PubSubMessage {
    type V = SpecMessage;

    open spec fn view(&self) -> SpecMessage {
        match self {
            PubSubMessage::Subscription { kind, channel, count } => SpecMessage::Subscription {
                kind: kind@,
                channel: channel@,
                count: *count,
            },
            PubSubMessage::Message { channel, payload } => SpecMessage::Message {
                channel: channel@,
                payload: payload@,
            },
            PubSubMessage::PMessage { pattern, channel, payload } => SpecMessage::PMessage {
                pattern: pattern@,
                channel: channel@,
                payload: payload@,
            },
        }
    }
}

impl Clone for PubSubMessage {
    fn clone(&self) -> (res: Self)
        ensures
            res@ == self@,
    {
        match self {
            PubSubMessage::Subscription { kind, channel, count } => PubSubMessage::Subscription {
                kind: kind.clone(),
                channel: channel.clone(),
                count: *count,
            },
            PubSubMessage::Message { channel, payload } => PubSubMessage::Message {
                channel: channel.clone(),
                payload: payload.clone(),
            },
            PubSubMessage::PMessage { pattern, channel, payload } => PubSubMessage::PMessage {
                pattern: pattern.clone(),
                channel: channel.clone(),
                payload: payload.clone(),
            },
        }
    }
}

/// The text of a string element, or the empty text for any other element.
pub open spec fn text_or_empty(v: SpecValue) -> Seq<char> {
    if is_text(v) {
        text_of(v)
    } else {
        Seq::empty()
    }
}

/// The value of an integer element, or zero for any other element.
pub open spec fn int_or_zero(v: SpecValue) -> i64 {
    match v {
        SpecValue::Int(i) => i,
        _ => 0,
    }
}

/// The kinds of subscription confirmation.
pub open spec fn is_subscription_kind(k: Seq<char>) -> bool {
    k == "subscribe"@ || k == "unsubscribe"@ || k == "psubscribe"@ || k == "punsubscribe"@
}

/// The message that a reply stands for: an array whose first element names
/// its kind, `[kind, channel, count]` for a subscription confirmation,
/// `[message, channel, payload]`, or `[pmessage, pattern, channel, payload]`.
/// Elements of the wrong type read as empty text or zero.
pub open spec fn message_of(v: SpecValue) -> Result<SpecMessage, SpecError> {
    match v {
        SpecValue::Array(a) => if a.len() < 3 {
            Err(SpecError::Other("expected array"@))
        } else if !is_text(a[0]) {
            Err(SpecError::Other("expected string"@))
        } else {
            let kind = text_of(a[0]);
            if is_subscription_kind(kind) {
                Ok(
                    SpecMessage::Subscription {
                        kind,
                        channel: text_or_empty(a[1]),
                        count: int_or_zero(a[2]),
                    },
                )
            } else if kind == "message"@ {
                Ok(SpecMessage::Message { channel: text_or_empty(a[1]), payload: text_or_empty(a[2]) })
            } else if kind == "pmessage"@ && a.len() >= 4 {
                Ok(
                    SpecMessage::PMessage {
                        pattern: text_or_empty(a[1]),
                        channel: text_or_empty(a[2]),
                        payload: text_or_empty(a[3]),
                    },
                )
            } else {
                Err(SpecError::Other("unsupported message: "@ + kind))
            }
        },
        _ => Err(SpecError::Other("expected array"@)),
    }
}

/// A message result taken by its view.
pub open spec fn view_message_result(r: Result<PubSubMessage, Error>) -> Result<SpecMessage, SpecError> {
    match r {
        Ok(m) => Ok(m@),
        Err(e) => Err(e@),
    }
}

fn text_or_empty_of(v: &Value) -> (res: String)
    ensures
        res@ == text_or_empty(v@),
{
    match value_text(v) {
        Some(s) => s,
        None => String::new(),
    }
}

/// Decodes a message received on a subscribed connection.
pub fn decode_message(v: Value) -> (res: Result<PubSubMessage, Error>)
    ensures
        view_message_result(res) == message_of(v@),
{
    match v {
        Value::Array(arr) => {
            proof {
                lemma_view_values_len(arr@);
            }
            if arr.len() < 3 {
                return Err(Error::Other(String::from_str("expected array")));
            }
            let kind = match value_text(&arr[0]) {
                Some(k) => k,
                None => return Err(Error::Other(String::from_str("expected string"))),
            };
            let k = kind.as_str();
            proof {
                reveal_strlit("subscribe");
                reveal_strlit("unsubscribe");
                reveal_strlit("psubscribe");
                reveal_strlit("punsubscribe");
                reveal_strlit("message");
                reveal_strlit("pmessage");
            }
            if str_equal(k, "subscribe") || str_equal(k, "unsubscribe") || str_equal(k, "psubscribe")
                || str_equal(k, "punsubscribe") {
                let channel = text_or_empty_of(&arr[1]);
                let count = match &arr[2] {
                    Value::Int(i) => *i,
                    _ => 0,
                };
                Ok(PubSubMessage::Subscription { kind, channel, count })
            } else if str_equal(k, "message") {
                let channel = text_or_empty_of(&arr[1]);
                let payload = text_or_empty_of(&arr[2]);
                Ok(PubSubMessage::Message { channel, payload })
            } else if str_equal(k, "pmessage") && arr.len() >= 4 {
                let pattern = text_or_empty_of(&arr[1]);
                let channel = text_or_empty_of(&arr[2]);
                let payload = text_or_empty_of(&arr[3]);
                Ok(PubSubMessage::PMessage { pattern, channel, payload })
            } else {
                let mut msg = String::from_str("unsupported message: ");
                msg.append(kind.as_str());
                Err(Error::Other(msg))
            }
        },
        _ => Err(Error::Other(String::from_str("expected array"))),
    }
}

/// A subscription command: `verb` followed by the channels or patterns.
pub fn subscription_command(verb: &str, names: &[String]) -> (res: Vec<String>)
    ensures
        string_views(res@) == seq![verb@] + string_views(names@),
{
    let head = vec![String::from_str(verb)];
    assert(string_views(head@) =~= seq![verb@]);
    concat_args(head, names)
}

/// A pattern message `[pmessage, pattern, channel, payload]` decodes to its
/// pattern, channel and payload, each from its own position.
pub proof fn law_pmessage_fields(p: Seq<char>, c: Seq<char>, d: Seq<char>)
    ensures
        message_of(
            SpecValue::Array(
                seq![
                    SpecValue::BulkString("pmessage"@),
                    SpecValue::BulkString(p),
                    SpecValue::BulkString(c),
                    SpecValue::BulkString(d),
                ],
            ),
        ) == Ok::<SpecMessage, SpecError>(SpecMessage::PMessage { pattern: p, channel: c, payload: d }),
{
    reveal_strlit("pmessage");
    reveal_strlit("subscribe");
    reveal_strlit("unsubscribe");
    reveal_strlit("psubscribe");
    reveal_strlit("punsubscribe");
    reveal_strlit("message");
    assert("pmessage"@.len() != "subscribe"@.len());
    assert("pmessage"@.len() != "unsubscribe"@.len());
    assert("pmessage"@.len() != "psubscribe"@.len());
    assert("pmessage"@.len() != "punsubscribe"@.len());
    assert("pmessage"@.len() != "message"@.len());
}

/// A message `[message, channel, payload]` decodes to its channel and
/// payload, each from its own position.
pub proof fn law_message_fields(c: Seq<char>, d: Seq<char>)
    ensures
        message_of(
            SpecValue::Array(
                seq![SpecValue::BulkString("message"@), SpecValue::BulkString(c), SpecValue::BulkString(d)],
            ),
        ) == Ok::<SpecMessage, SpecError>(SpecMessage::Message { channel: c, payload: d }),
{
    reveal_strlit("subscribe");
    reveal_strlit("unsubscribe");
    reveal_strlit("psubscribe");
    reveal_strlit("punsubscribe");
    reveal_strlit("message");
    assert("message"@.len() != "subscribe"@.len());
    assert("message"@.len() != "unsubscribe"@.len());
    assert("message"@.len() != "psubscribe"@.len());
    assert("message"@.len() != "punsubscribe"@.len());
}

/// A subscription confirmation `[kind, channel, count]` decodes to its kind,
/// channel and count, each from its own position.
pub proof fn law_subscription_fields(kind: Seq<char>, c: Seq<char>, n: i64)
    requires
        is_subscription_kind(kind),
    ensures
        message_of(
            SpecValue::Array(seq![SpecValue::BulkString(kind), SpecValue::BulkString(c), SpecValue::Int(n)]),
        ) == Ok::<SpecMessage, SpecError>(SpecMessage::Subscription { kind, channel: c, count: n }),
{
}

} // verus!
