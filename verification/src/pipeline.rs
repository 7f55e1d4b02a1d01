//! Pipelines: several commands written at once, then one reply read per
//! command, in the order the commands were sent.

use crate::client::{command_views, string_views};
use crate::error::{Error, SpecError};
use crate::parser::{
    append_command, command_bytes, lemma_view_values_len, lemma_view_values_push, view_result, view_values, SpecValue, Value,
};
use vstd::prelude::*;

verus! {

/// The bytes of a batch of commands, one command after another.
pub open spec fn batch_bytes(cmds: Seq<Seq<Seq<char>>>) -> Seq<u8>
    decreases cmds.len(),
{
    if cmds.len() == 0 {
        Seq::empty()
    } else {
        batch_bytes(cmds.drop_last()) + command_bytes(cmds.last())
    }
}

pub proof fn lemma_batch_bytes_prefix_len(cmds: Seq<Seq<Seq<char>>>, k: int)
    requires
        0 <= k <= cmds.len(),
    ensures
        batch_bytes(cmds.take(k)).len() <= batch_bytes(cmds).len(),
    decreases cmds.len() - k,
{
    if k < cmds.len() {
        assert(cmds.take(k + 1).drop_last() =~= cmds.take(k));
        lemma_batch_bytes_prefix_len(cmds, k + 1);
    } else {
        assert(cmds.take(k) =~= cmds);
    }
}

/// Appends the RESP encoding of each command of `cmds`, in order.
pub fn append_batch(buf: &mut Vec<u8>, cmds: &Vec<Vec<String>>)
    requires
        old(buf)@.len() + batch_bytes(command_views(cmds@)).len() <= isize::MAX,
    ensures
        final(buf)@ == old(buf)@ + batch_bytes(command_views(cmds@)),
{
    let ghost views = command_views(cmds@);
    let ghost start = buf@;
    proof {
        lemma_batch_bytes_prefix_len(views, 0);
        assert(views.take(0) =~= Seq::<Seq<Seq<char>>>::empty());
        assert(buf@ =~= start + batch_bytes(views.take(0)));
    }
    let mut i: usize = 0;
    while i < cmds.len()
        invariant
            0 <= i <= cmds@.len(),
            views == command_views(cmds@),
            views.len() == cmds@.len(),
            buf@ == start + batch_bytes(views.take(i as int)),
            start.len() + batch_bytes(views).len() <= isize::MAX,
        decreases cmds@.len() - i,
    {
        proof {
            assert(views.take(i + 1).drop_last() =~= views.take(i as int));
            assert(views[i as int] == string_views(cmds@[i as int]@));
            lemma_batch_bytes_prefix_len(views, i + 1);
        }
        append_command(buf, cmds[i].as_slice());
        i = i + 1;
        assert(buf@ =~= start + batch_bytes(views.take(i as int)));
    }
    assert(views.take(i as int) =~= views);
}

/// What one reply does to a batch that expects `expected` replies and has
/// collected `got`: a failed reply ends it with its error; the reply that
/// completes it ends it with all replies in order; any other adds to it.
pub enum BatchStep {
    More(Seq<SpecValue>),
    Done(Result<Seq<SpecValue>, SpecError>),
}

pub open spec fn batch_step(expected: nat, got: Seq<SpecValue>, r: Result<SpecValue, SpecError>) -> BatchStep {
    match r {
        Err(e) => BatchStep::Done(Err(e)),
        Ok(v) => if got.len() + 1 >= expected {
            BatchStep::Done(Ok(got.push(v)))
        } else {
            BatchStep::More(got.push(v))
        },
    }
}

/// The outcome of feeding the replies `rs`, one by one, to a batch that
/// expects `expected` replies and has collected `got`; `None` while it still
/// waits for more.
pub open spec fn batch_outcome(expected: nat, got: Seq<SpecValue>, rs: Seq<Result<SpecValue, SpecError>>) -> Option<Result<Seq<SpecValue>, SpecError>>
    decreases rs.len(),
{
    if rs.len() == 0 {
        None
    } else {
        match batch_step(expected, got, rs[0]) {
            BatchStep::Done(res) => Some(res),
            BatchStep::More(next) => batch_outcome(expected, next, rs.drop_first()),
        }
    }
}

/// The replies of a pipeline whose replies all succeed are exactly those
/// replies, in the order the commands were sent.
pub proof fn law_pipeline_replies_in_order(vs: Seq<SpecValue>)
    requires
        vs.len() > 0,
    ensures
        batch_outcome(
            vs.len(),
            Seq::empty(),
            vs.map_values(|v: SpecValue| Ok::<SpecValue, SpecError>(v)),
        ) == Some(Ok::<Seq<SpecValue>, SpecError>(vs)),
{
    lemma_batch_all_ok(vs, 0);
    assert(vs.take(0) =~= Seq::<SpecValue>::empty());
    assert(vs.map_values(|v: SpecValue| Ok::<SpecValue, SpecError>(v)).skip(0) =~= vs.map_values(
        |v: SpecValue| Ok::<SpecValue, SpecError>(v),
    ));
}

proof fn lemma_batch_all_ok(vs: Seq<SpecValue>, k: int)
    requires
        0 <= k < vs.len(),
    ensures
        batch_outcome(
            vs.len(),
            vs.take(k),
            vs.map_values(|v: SpecValue| Ok::<SpecValue, SpecError>(v)).skip(k),
        ) == Some(Ok::<Seq<SpecValue>, SpecError>(vs)),
    decreases vs.len() - k,
{
    let rs = vs.map_values(|v: SpecValue| Ok::<SpecValue, SpecError>(v)).skip(k);
    assert(rs[0] == Ok::<SpecValue, SpecError>(vs[k]));
    assert(vs.take(k).push(vs[k]) =~= vs.take(k + 1));
    if k + 1 < vs.len() {
        lemma_batch_all_ok(vs, k + 1);
        assert(rs.drop_first() =~= vs.map_values(|v: SpecValue| Ok::<SpecValue, SpecError>(v)).skip(
            k + 1,
        ));
    } else {
        assert(vs.take(k + 1) =~= vs);
    }
}

/// The first failed reply of a pipeline ends it with that reply's error.
pub proof fn law_pipeline_first_error(expected: nat, got: Seq<SpecValue>, rs: Seq<Result<SpecValue, SpecError>>)
    requires
        rs.len() > 0,
        rs[0] is Err,
    ensures
        batch_outcome(expected, got, rs) == Some(Err::<Seq<SpecValue>, SpecError>(rs[0]->Err_0)),
{
}

/// A list-of-values result taken by its view.
pub open spec fn view_values_result(r: Result<Vec<Value>, Error>) -> Result<Seq<SpecValue>, SpecError> {
    match r {
        Ok(v) => Ok(view_values(v@)),
        Err(e) => Err(e@),
    }
}

/// Collects the replies of a batch of commands.
pub struct ReplyBatch {
    expected: usize,
    got: Vec<Value>,
}

/// What a reply does to a [`ReplyBatch`].
pub enum Collect {
    /// The batch waits for more replies.
    More(ReplyBatch),
    /// The batch is complete, or a reply failed.
    Done(Result<Vec<Value>, Error>),
}

impl ReplyBatch {
    #[verifier::type_invariant]
    closed spec fn wf(self) -> bool {
        self.got@.len() < self.expected
    }

    /// The number of replies the batch waits for in all.
    pub closed spec fn expected(self) -> nat {
        self.expected as nat
    }

    /// The replies collected so far.
    pub closed spec fn got(self) -> Seq<SpecValue> {
        view_values(self.got@)
    }

    /// A batch that waits for `expected` replies.
    pub fn new(expected: usize) -> (res: Self)
        requires
            expected > 0,
        ensures
            res.expected() == expected,
            res.got() == Seq::<SpecValue>::empty(),
    {
        ReplyBatch { expected, got: Vec::new() }
    }

    /// Takes the next reply.
    pub fn on_reply(self, r: Result<Value, Error>) -> (res: Collect)
        ensures
            match batch_step(self.expected(), self.got(), view_result(r)) {
                BatchStep::Done(out) => res matches Collect::Done(x) && view_values_result(x) == out,
                BatchStep::More(next) => res matches Collect::More(b) && b.expected() == self.expected()
                    && b.got() == next,
            },
    {
        proof {
            use_type_invariant(&self);
        }
        let expected = self.expected;
        let mut got = self.got;
        proof {
            lemma_view_values_len(got@);
        }
        match r {
            Ok(v) => {
                proof {
                    lemma_view_values_push(got@, v);
                }
                got.push(v);
                if got.len() >= expected {
                    Collect::Done(Ok(got))
                } else {
                    Collect::More(ReplyBatch { expected, got })
                }
            },
            Err(e) => Collect::Done(Err(e)),
        }
    }
}

/// The commands queued on a pipeline or a transaction, in the order they
/// were added.
pub struct CommandQueue {
    cmds: Vec<Vec<String>>,
}

impl CommandQueue {
    /// The queued commands.
    pub closed spec fn queued(self) -> Seq<Vec<String>> {
        self.cmds@
    }

    /// An empty queue.
    pub fn new() -> (res: Self)
        ensures
            res.queued() == Seq::<Vec<String>>::empty(),
    {
        CommandQueue { cmds: Vec::new() }
    }

    /// Adds a command at the end.
    pub fn push(&mut self, cmd: Vec<String>)
        ensures
            final(self).queued() == old(self).queued().push(cmd),
    {
        self.cmds.push(cmd);
    }

    /// Drops every queued command.
    pub fn clear(&mut self)
        ensures
            final(self).queued() == Seq::<Vec<String>>::empty(),
    {
        self.cmds = Vec::new();
    }

    /// Hands out the queued commands, in order, and leaves the queue empty.
    pub fn take(&mut self) -> (res: Vec<Vec<String>>)
        ensures
            res@ == old(self).queued(),
            final(self).queued() == Seq::<Vec<String>>::empty(),
    {
        let mut out: Vec<Vec<String>> = Vec::new();
        core::mem::swap(&mut out, &mut self.cmds);
        out
    }
}

/// What a batch of queued commands comes to before anything is sent: with
/// no command, the result at once; otherwise the bytes to write and the
/// reader of the replies.
pub enum Plan<M> {
    /// Nothing is sent and no connection is needed: this is the result.
    Finished(Vec<Value>),
    /// The bytes to write in one go, and the reader of their replies.
    Send(Vec<u8>, M),
}

/// Every command is encoded as at least one byte.
pub proof fn lemma_batch_bytes_len(cmds: Seq<Seq<Seq<char>>>)
    ensures
        batch_bytes(cmds).len() >= cmds.len(),
    decreases cmds.len(),
{
    if cmds.len() > 0 {
        lemma_batch_bytes_len(cmds.drop_last());
    }
}

/// Plans the execution of a pipeline: an empty queue finishes at once with
/// no replies; otherwise all commands are written in one go and one reply is
/// read per command.
pub fn plan_pipeline(cmds: &Vec<Vec<String>>) -> (res: Plan<ReplyBatch>)
    requires
        batch_bytes(command_views(cmds@)).len() <= isize::MAX,
    ensures
        cmds@.len() == 0 ==> (res matches Plan::Finished(v) && v@.len() == 0),
        cmds@.len() > 0 ==> (res matches Plan::Send(bytes, batch) && bytes@ == batch_bytes(
            command_views(cmds@),
        ) && batch.expected() == cmds@.len() && batch.got() == Seq::<SpecValue>::empty()),
{
    if cmds.len() == 0 {
        return Plan::Finished(Vec::new());
    }
    let mut buf: Vec<u8> = Vec::new();
    append_batch(&mut buf, cmds);
    assert(buf@ =~= batch_bytes(command_views(cmds@)));
    Plan::Send(buf, ReplyBatch::new(cmds.len()))
}

} // verus!
