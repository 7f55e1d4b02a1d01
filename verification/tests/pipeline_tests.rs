use rust_redis_rs::error::Error;
use rust_redis_rs::multi::{encode_transaction, exec_reply, plan_transaction, TxNext, TxReplies};
use rust_redis_rs::parser::Value;
use rust_redis_rs::pipeline::{append_batch, plan_pipeline, Collect, CommandQueue, Plan, ReplyBatch};

fn cmd(a: &[&str]) -> Vec<String> {
    a.iter().map(|s| s.to_string()).collect()
}

#[test]
fn batch_encodes_commands_in_order() {
    let mut buf = Vec::new();
    append_batch(&mut buf, &vec![cmd(&["SET", "k1", "v1"]), cmd(&["GET", "k1"])]);
    assert_eq!(
        String::from_utf8(buf).unwrap(),
        "*3\r\n$3\r\nSET\r\n$2\r\nk1\r\n$2\r\nv1\r\n*2\r\n$3\r\nGET\r\n$2\r\nk1\r\n"
    );
}

#[test]
fn transaction_wraps_commands_in_multi_exec() {
    let buf = encode_transaction(&vec![cmd(&["INCR", "c"])]);
    assert_eq!(
        String::from_utf8(buf).unwrap(),
        "*1\r\n$5\r\nMULTI\r\n*2\r\n$4\r\nINCR\r\n$1\r\nc\r\n*1\r\n$4\r\nEXEC\r\n"
    );
}

#[test]
fn pipeline_collects_one_reply_per_command() {
    let b = ReplyBatch::new(2);
    let b = match b.on_reply(Ok(Value::Status("OK".into()))) {
        Collect::More(b) => b,
        Collect::Done(_) => panic!("done too early"),
    };
    match b.on_reply(Ok(Value::Int(5))) {
        Collect::Done(Ok(vs)) => {
            assert_eq!(vs.len(), 2);
            assert!(matches!(&vs[0], Value::Status(s) if s == "OK"));
            assert!(matches!(vs[1], Value::Int(5)));
        }
        _ => panic!("expected the replies"),
    }
}

#[test]
fn pipeline_stops_at_first_error() {
    let b = ReplyBatch::new(3);
    assert!(matches!(b.on_reply(Err(Error::Timeout)), Collect::Done(Err(Error::Timeout))));
}

fn feed(queued: usize, replies: Vec<Result<Value, Error>>) -> Result<Vec<Value>, Error> {
    let mut t = TxReplies::new(queued);
    for r in replies {
        match t.on_reply(r) {
            TxNext::More(next) => t = next,
            TxNext::Done(res) => return res,
        }
    }
    panic!("transaction not finished")
}

#[test]
fn transaction_returns_exec_results() {
    let r = feed(
        2,
        vec![
            Ok(Value::Status("OK".into())),
            Ok(Value::Status("QUEUED".into())),
            Ok(Value::Status("QUEUED".into())),
            Ok(Value::Array(vec![Value::Status("OK".into()), Value::Int(1)])),
        ],
    )
    .unwrap();
    assert_eq!(r.len(), 2);
}

#[test]
fn transaction_watch_failure() {
    let r = feed(1, vec![Ok(Value::Status("OK".into())), Ok(Value::Status("QUEUED".into())), Ok(Value::Nil)]);
    assert!(matches!(r, Err(Error::TxFailed)));
    assert!(matches!(exec_reply(Ok(Value::Array(vec![]))), Err(Error::TxFailed)));
    assert!(matches!(exec_reply(Err(Error::Nil)), Err(Error::TxFailed)));
}

#[test]
fn transaction_queued_error_is_returned() {
    let r = feed(
        2,
        vec![
            Ok(Value::Status("OK".into())),
            Err(Error::Redis(rust_redis_rs::error::redis_error("ERR unknown command"))),
        ],
    );
    assert_eq!(r.unwrap_err().to_string(), "ERR unknown command");
}

#[test]
fn exec_unexpected_reply_message() {
    let e = exec_reply(Ok(Value::Int(3))).unwrap_err();
    assert_eq!(e.to_string(), "unexpected reply: Int(3)");
    let e = exec_reply(Ok(Value::Status("a\"b".into()))).unwrap_err();
    assert_eq!(e.to_string(), "unexpected reply: Status(\"a\\\"b\")");
    let e = exec_reply(Ok(Value::BulkString("x".into()))).unwrap_err();
    assert_eq!(e.to_string(), format!("unexpected reply: {:?}", Value::BulkString("x".into())));
}

#[test]
fn empty_queue_plans_no_work() {
    let mut q = CommandQueue::new();
    assert!(matches!(plan_pipeline(&q.take()), Plan::Finished(v) if v.is_empty()));
    assert!(matches!(plan_transaction(&q.take()), Plan::Finished(v) if v.is_empty()));
    q.push(cmd(&["GET", "k"]));
    q.push(cmd(&["INCR", "c"]));
    let taken = q.take();
    assert_eq!(taken, vec![cmd(&["GET", "k"]), cmd(&["INCR", "c"])]);
    assert!(q.take().is_empty());
    match plan_pipeline(&taken) {
        Plan::Send(bytes, _) => assert_eq!(
            String::from_utf8(bytes).unwrap(),
            "*2\r\n$3\r\nGET\r\n$1\r\nk\r\n*2\r\n$4\r\nINCR\r\n$1\r\nc\r\n"
        ),
        Plan::Finished(_) => panic!("expected bytes to send"),
    }
    match plan_transaction(&taken) {
        Plan::Send(bytes, _) => {
            let s = String::from_utf8(bytes).unwrap();
            assert!(s.starts_with("*1\r\n$5\r\nMULTI\r\n"));
            assert!(s.ends_with("*1\r\n$4\r\nEXEC\r\n"));
        }
        Plan::Finished(_) => panic!("expected bytes to send"),
    }
    q.push(cmd(&["PING"]));
    q.clear();
    assert!(q.take().is_empty());
}
