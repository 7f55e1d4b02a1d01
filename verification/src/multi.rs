//! Transactions: MULTI, the queued commands and EXEC written at once, then
//! the replies read back in the same order.

use crate::client::{command_views, string_views};
use crate::error::{Error, SpecError};
use crate::parser::{append_command, command_bytes, view_result, view_values, SpecValue, Value};
use crate::pipeline::{append_batch, batch_bytes, lemma_batch_bytes_len, view_values_result, Plan};
use crate::text::{int_text, int_to_string};
use vstd::prelude::*;

verus! {

/// The bytes of a transaction: MULTI, the commands, EXEC.
pub open spec fn transaction_bytes(cmds: Seq<Seq<Seq<char>>>) -> Seq<u8> {
    command_bytes(seq!["MULTI"@]) + batch_bytes(cmds) + command_bytes(seq!["EXEC"@])
}

/// Encodes a transaction: MULTI, each queued command in order, then EXEC.
pub fn encode_transaction(cmds: &Vec<Vec<String>>) -> (res: Vec<u8>)
    requires
        transaction_bytes(command_views(cmds@)).len() <= isize::MAX,
    ensures
        res@ == transaction_bytes(command_views(cmds@)),
{
    let multi: Vec<String> = vec![String::from_str("MULTI")];
    let exec: Vec<String> = vec![String::from_str("EXEC")];
    assert(string_views(multi@) =~= seq!["MULTI"@]);
    assert(string_views(exec@) =~= seq!["EXEC"@]);
    let mut buf: Vec<u8> = Vec::new();
    append_command(&mut buf, multi.as_slice());
    append_batch(&mut buf, cmds);
    append_command(&mut buf, exec.as_slice());
    assert(buf@ =~= transaction_bytes(command_views(cmds@)));
    buf
}

/// What `format!("{:?}", s)` gives for a string: the text in double quotes,
/// with quotes, backslashes and unprintable characters escaped.
pub uninterp spec fn debug_str(s: Seq<char>) -> Seq<char>;

/// `<str as Debug>::fmt`, through `format!`. Claimed: the result is
/// `debug_str(s@)`, a function of the text alone.
#[verifier::external_body]
fn debug_string(s: &str) -> (res: String)
    ensures
        res@ == debug_str(s@),
{
    format!("{:?}", s)
}

/// The debug form of a reply that is not an array, as `{:?}` prints it
/// (`Status("OK")`, `Int(3)`, `BulkString("x")`, `Nil`).
pub open spec fn scalar_debug(v: SpecValue) -> Seq<char> {
    match v {
        SpecValue::Nil => "Nil"@,
        SpecValue::Status(s) => "Status("@ + debug_str(s) + ")"@,
        SpecValue::Int(i) => "Int("@ + int_text(i as int) + ")"@,
        SpecValue::BulkString(s) => "BulkString("@ + debug_str(s) + ")"@,
        SpecValue::Array(_) => Seq::empty(),
    }
}

fn scalar_debug_text(v: &Value) -> (res: String)
    requires
        !(v@ is Array),
    ensures
        res@ == scalar_debug(v@),
{
    match v {
        Value::Nil => String::from_str("Nil"),
        Value::Status(s) => {
            let mut out = String::from_str("Status(");
            out.append(debug_string(s.as_str()).as_str());
            out.append(")");
            out
        },
        Value::Int(i) => {
            let mut out = String::from_str("Int(");
            out.append(int_to_string(*i).as_str());
            out.append(")");
            out
        },
        Value::BulkString(s) => {
            let mut out = String::from_str("BulkString(");
            out.append(debug_string(s.as_str()).as_str());
            out.append(")");
            out
        },
        Value::Array(_) => String::new(),
    }
}

/// What the reply to EXEC gives: the results of a non-empty array; a
/// failed transaction (nil, or an empty array) for a WATCH that fired; any
/// other reply is unexpected; a failed reply is passed on.
pub open spec fn exec_outcome(r: Result<SpecValue, SpecError>) -> Result<Seq<SpecValue>, SpecError> {
    match r {
        Ok(SpecValue::Array(a)) => if a.len() == 0 {
            Err(SpecError::TxFailed)
        } else {
            Ok(a)
        },
        Ok(SpecValue::Nil) => Err(SpecError::TxFailed),
        Err(SpecError::Nil) => Err(SpecError::TxFailed),
        Ok(v) => Err(SpecError::Other("unexpected reply: "@ + scalar_debug(v))),
        Err(e) => Err(e),
    }
}

/// Decodes the reply to EXEC.
pub fn exec_reply(r: Result<Value, Error>) -> (res: Result<Vec<Value>, Error>)
    ensures
        view_values_result(res) == exec_outcome(view_result(r)),
{
    match r {
        Ok(Value::Array(arr)) => {
            if arr.len() == 0 {
                proof {
                    crate::parser::lemma_view_values_len(arr@);
                }
                Err(Error::TxFailed)
            } else {
                proof {
                    crate::parser::lemma_view_values_len(arr@);
                }
                Ok(arr)
            }
        },
        Ok(Value::Nil) => Err(Error::TxFailed),
        Err(Error::Nil) => Err(Error::TxFailed),
        Ok(v) => {
            let mut msg = String::from_str("unexpected reply: ");
            msg.append(scalar_debug_text(&v).as_str());
            Err(Error::Other(msg))
        },
        Err(e) => Err(e),
    }
}

/// What one reply does to a transaction with `queued` commands that has
/// read `seen` replies: the reply to MULTI and each QUEUED reply are only
/// checked for failure; the reply to EXEC gives the outcome.
pub enum TxStep {
    More(nat),
    Done(Result<Seq<SpecValue>, SpecError>),
}

pub open spec fn tx_step(queued: nat, seen: nat, r: Result<SpecValue, SpecError>) -> TxStep {
    if seen <= queued {
        match r {
            Err(e) => TxStep::Done(Err(e)),
            Ok(_) => TxStep::More(seen + 1),
        }
    } else {
        TxStep::Done(exec_outcome(r))
    }
}

/// The outcome of feeding the replies `rs`, one by one; `None` while more
/// replies are awaited.
pub open spec fn tx_outcome(queued: nat, seen: nat, rs: Seq<Result<SpecValue, SpecError>>) -> Option<Result<Seq<SpecValue>, SpecError>>
    decreases rs.len(),
{
    if rs.len() == 0 {
        None
    } else {
        match tx_step(queued, seen, rs[0]) {
            TxStep::Done(res) => Some(res),
            TxStep::More(next) => tx_outcome(queued, next, rs.drop_first()),
        }
    }
}

/// When the replies to MULTI and to every queued command succeed, a
/// transaction ends after exactly one more reply, with the outcome of that
/// reply to EXEC.
pub proof fn law_transaction_ends_with_exec(
    queued: nat,
    rs: Seq<Result<SpecValue, SpecError>>,
)
    requires
        rs.len() == queued + 2,
        forall|i: int| 0 <= i <= queued ==> (#[trigger] rs[i]) is Ok,
    ensures
        tx_outcome(queued, 0, rs) == Some(exec_outcome(rs[queued as int + 1])),
        forall|k: int| 0 <= k < queued + 2 ==> tx_outcome(queued, 0, #[trigger] rs.take(k)) is None,
{
    lemma_tx_from(queued, rs, 0);
    assert(rs.skip(0) =~= rs);
    assert forall|k: int| 0 <= k < queued + 2 implies tx_outcome(queued, 0, #[trigger] rs.take(k)) is None by {
        lemma_tx_prefix(queued, rs, 0, k);
        assert(rs.take(k).skip(0) =~= rs.take(k));
    }
}

proof fn lemma_tx_from(queued: nat, rs: Seq<Result<SpecValue, SpecError>>, k: nat)
    requires
        rs.len() == queued + 2,
        forall|i: int| 0 <= i <= queued ==> (#[trigger] rs[i]) is Ok,
        k <= queued + 1,
    ensures
        tx_outcome(queued, k, rs.skip(k as int)) == Some(exec_outcome(rs[queued as int + 1])),
    decreases queued + 1 - k,
{
    assert(rs.skip(k as int)[0] == rs[k as int]);
    if k <= queued {
        lemma_tx_from(queued, rs, k + 1);
        assert(rs.skip(k as int).drop_first() =~= rs.skip(k as int + 1));
    }
}

proof fn lemma_tx_prefix(queued: nat, rs: Seq<Result<SpecValue, SpecError>>, j: nat, k: int)
    requires
        rs.len() == queued + 2,
        forall|i: int| 0 <= i <= queued ==> (#[trigger] rs[i]) is Ok,
        j <= k < queued + 2,
    ensures
        tx_outcome(queued, j, rs.take(k).skip(j as int)) is None,
    decreases k - j,
{
    if j < k {
        assert(rs.take(k).skip(j as int)[0] == rs[j as int]);
        lemma_tx_prefix(queued, rs, j + 1, k);
        assert(rs.take(k).skip(j as int).drop_first() =~= rs.take(k).skip(j as int + 1));
    } else {
        assert(rs.take(k).skip(j as int).len() == 0);
    }
}

/// A failed reply to MULTI or to a queued command ends the transaction with
/// that reply's error, before EXEC's reply is read.
pub proof fn law_transaction_first_error(queued: nat, seen: nat, rs: Seq<Result<SpecValue, SpecError>>)
    requires
        seen <= queued,
        rs.len() > 0,
        rs[0] is Err,
    ensures
        tx_outcome(queued, seen, rs) == Some(Err::<Seq<SpecValue>, SpecError>(rs[0]->Err_0)),
{
}

/// Reads the replies of a transaction: the reply to MULTI, one reply per
/// queued command, then the reply to EXEC.
pub struct TxReplies {
    queued: usize,
    seen: usize,
}

/// What a reply does to a [`TxReplies`].
pub enum TxNext {
    /// More replies are awaited.
    More(TxReplies),
    /// The transaction's outcome.
    Done(Result<Vec<Value>, Error>),
}

impl TxReplies {
    #[verifier::type_invariant]
    closed spec fn wf(self) -> bool {
        self.seen <= self.queued + 1 && self.queued < usize::MAX
    }

    /// The number of queued commands.
    pub closed spec fn queued(self) -> nat {
        self.queued as nat
    }

    /// The number of replies read so far.
    pub closed spec fn seen(self) -> nat {
        self.seen as nat
    }

    /// The reader of a transaction with `queued` commands, before any reply.
    pub fn new(queued: usize) -> (res: Self)
        requires
            queued < usize::MAX,
        ensures
            res.queued() == queued,
            res.seen() == 0,
    {
        TxReplies { queued, seen: 0 }
    }

    /// Takes the next reply.
    pub fn on_reply(self, r: Result<Value, Error>) -> (res: TxNext)
        ensures
            match tx_step(self.queued(), self.seen(), view_result(r)) {
                TxStep::Done(out) => res matches TxNext::Done(x) && view_values_result(x) == out,
                TxStep::More(next) => res matches TxNext::More(t) && t.queued() == self.queued()
                    && t.seen() == next,
            },
    {
        proof {
            use_type_invariant(&self);
        }
        if self.seen <= self.queued {
            match r {
                Err(e) => TxNext::Done(Err(e)),
                Ok(_) => TxNext::More(TxReplies { queued: self.queued, seen: self.seen + 1 }),
            }
        } else {
            TxNext::Done(exec_reply(r))
        }
    }
}

/// Plans the execution of a transaction: an empty queue finishes at once
/// with no results and nothing written; otherwise MULTI, the commands and
/// EXEC are written in one go, and the replies are read by a [`TxReplies`]
/// that expects one reply per command besides those to MULTI and EXEC.
pub fn plan_transaction(cmds: &Vec<Vec<String>>) -> (res: Plan<TxReplies>)
    requires
        transaction_bytes(command_views(cmds@)).len() <= isize::MAX,
    ensures
        cmds@.len() == 0 ==> (res matches Plan::Finished(v) && v@.len() == 0),
        cmds@.len() > 0 ==> (res matches Plan::Send(bytes, tx) && bytes@ == transaction_bytes(
            command_views(cmds@),
        ) && tx.queued() == cmds@.len() && tx.seen() == 0),
{
    if cmds.len() == 0 {
        return Plan::Finished(Vec::new());
    }
    proof {
        lemma_batch_bytes_len(command_views(cmds@));
    }
    let bytes = encode_transaction(cmds);
    Plan::Send(bytes, TxReplies::new(cmds.len()))
}

/// A transaction that ran gives back the results EXEC returned: every
/// non-empty array is the list of results, in order; only nil, an empty
/// array or a nil error mean that the transaction failed.
pub proof fn law_exec_results(a: Seq<SpecValue>)
    ensures
        a.len() > 0 ==> exec_outcome(Ok(SpecValue::Array(a))) == Ok::<Seq<SpecValue>, SpecError>(a),
        a.len() == 0 ==> exec_outcome(Ok(SpecValue::Array(a))) == Err::<Seq<SpecValue>, SpecError>(
            SpecError::TxFailed,
        ),
        exec_outcome(Ok(SpecValue::Nil)) == Err::<Seq<SpecValue>, SpecError>(SpecError::TxFailed),
        exec_outcome(Err(SpecError::Nil)) == Err::<Seq<SpecValue>, SpecError>(SpecError::TxFailed),
{
}

} // verus!
