//! Redis Sentinel: the options of a failover client, the query that asks a
//! sentinel for the current master, and the decoding of its answer.

use crate::client::{clone_opt_string, is_text, string_views, text_of, value_text, ClientOptions};
use crate::duration::{duration_from_secs, duration_nanos};
use crate::error::{Error, SpecError};
use crate::parser::{lemma_view_values_len, view_result, SpecValue, Value};
use core::time::Duration;
use vstd::prelude::*;

verus! {

/// Default Sentinel address.
pub const DEFAULT_SENTINEL_ADDR: &'static str = "127.0.0.1:26379";

/// Failover options for Sentinel.
pub struct FailoverOptions {
    pub master_name: String,
    pub sentinel_addrs: Vec<String>,
    pub password: Option<String>,
    pub db: i64,
    pub pool_size: usize,
    pub dial_timeout: Duration,
    pub read_timeout: Option<Duration>,
    pub write_timeout: Option<Duration>,
    pub idle_timeout: Option<Duration>,
}

/// A copy of a list of strings.
fn clone_string_list(v: &Vec<String>) -> (res: Vec<String>)
    ensures
        res@ == v@,
{
    let mut out: Vec<String> = Vec::new();
    let mut i: usize = 0;
    while i < v.len()
        invariant
            0 <= i <= v@.len(),
            out@ == v@.take(i as int),
        decreases v@.len() - i,
    {
        out.push(v[i].clone());
        i = i + 1;
        assert(out@ =~= v@.take(i as int));
    }
    assert(v@.take(i as int) =~= v@);
    out
}

impl Clone for FailoverOptions {
    fn clone(&self) -> (res: Self)
        ensures
            res.master_name == self.master_name,
            res.sentinel_addrs@ == self.sentinel_addrs@,
            res.password == self.password,
            res.db == self.db,
            res.pool_size == self.pool_size,
            res.dial_timeout == self.dial_timeout,
            res.read_timeout == self.read_timeout,
            res.write_timeout == self.write_timeout,
            res.idle_timeout == self.idle_timeout,
    {
        FailoverOptions {
            master_name: self.master_name.clone(),
            sentinel_addrs: clone_string_list(&self.sentinel_addrs),
            password: clone_opt_string(&self.password),
            db: self.db,
            pool_size: self.pool_size,
            dial_timeout: self.dial_timeout,
            read_timeout: self.read_timeout,
            write_timeout: self.write_timeout,
            idle_timeout: self.idle_timeout,
        }
    }
}

impl Default for FailoverOptions {
    fn default() -> (res: Self)
        ensures
            res.master_name@ == "mymaster"@,
            string_views(res.sentinel_addrs@) == seq![DEFAULT_SENTINEL_ADDR@],
            res.password is None,
            res.db == 0,
            res.pool_size == 10,
            duration_nanos(res.dial_timeout) == 5_000_000_000,
            res.read_timeout is None,
            res.write_timeout is None,
            res.idle_timeout is None,
    {
        let sentinel_addrs = vec![String::from_str(DEFAULT_SENTINEL_ADDR)];
        assert(string_views(sentinel_addrs@) =~= seq![DEFAULT_SENTINEL_ADDR@]);
        FailoverOptions {
            master_name: String::from_str("mymaster"),
            sentinel_addrs,
            password: None,
            db: 0,
            pool_size: 10,
            dial_timeout: duration_from_secs(5),
            read_timeout: None,
            write_timeout: None,
            idle_timeout: None,
        }
    }
}

/// The options of the client that asks the sentinel at `addr`: no password,
/// database 0, a single connection, the failover client's dial, read and
/// write timeouts, and no idle timeout.
pub fn sentinel_client_options(opts: &FailoverOptions, addr: &String) -> (res: ClientOptions)
    ensures
        res.addr == *addr,
        res.password is None,
        res.db == 0,
        res.pool_size == 1,
        res.dial_timeout == opts.dial_timeout,
        res.read_timeout == opts.read_timeout,
        res.write_timeout == opts.write_timeout,
        res.idle_timeout is None,
{
    ClientOptions {
        addr: addr.clone(),
        password: None,
        db: 0,
        pool_size: 1,
        dial_timeout: opts.dial_timeout,
        read_timeout: opts.read_timeout,
        write_timeout: opts.write_timeout,
        idle_timeout: None,
    }
}

/// `SENTINEL get-master-addr-by-name <master name>`.
pub fn master_query(opts: &FailoverOptions) -> (res: Vec<String>)
    ensures
        string_views(res@) == seq!["SENTINEL"@, "get-master-addr-by-name"@, opts.master_name@],
{
    let res = vec![
        String::from_str("SENTINEL"),
        String::from_str("get-master-addr-by-name"),
        opts.master_name.clone(),
    ];
    assert(string_views(res@) =~= seq!["SENTINEL"@, "get-master-addr-by-name"@, opts.master_name@]);
    res
}

/// The master address in a sentinel's answer `[host, port]`: `host:port`
/// when the answer is an array whose first two elements are strings; no
/// address otherwise, and the next sentinel is asked.
pub open spec fn master_of_reply(r: Result<SpecValue, SpecError>) -> Option<Seq<char>> {
    match r {
        Ok(SpecValue::Array(a)) => if a.len() >= 2 && is_text(a[0]) && is_text(a[1]) {
            Some(text_of(a[0]) + ":"@ + text_of(a[1]))
        } else {
            None
        },
        _ => None,
    }
}

/// Decodes a sentinel's answer to [`master_query`].
pub fn master_addr_from_reply(r: Result<Value, Error>) -> (res: Option<String>)
    ensures
        match res {
            Some(s) => master_of_reply(view_result(r)) == Some(s@),
            None => master_of_reply(view_result(r)) is None,
        },
{
    match r {
        Ok(Value::Array(arr)) => {
            proof {
                lemma_view_values_len(arr@);
            }
            if arr.len() < 2 {
                return None;
            }
            let host = match value_text(&arr[0]) {
                Some(h) => h,
                None => return None,
            };
            let port = match value_text(&arr[1]) {
                Some(p) => p,
                None => return None,
            };
            let mut addr = host;
            addr.append(":");
            addr.append(port.as_str());
            Some(addr)
        },
        _ => None,
    }
}

/// The error when no sentinel gave the master's address.
pub fn sentinels_unreachable() -> (res: Error)
    ensures
        res@ == SpecError::Other("redis: all sentinels are unreachable"@),
{
    Error::Other(String::from_str("redis: all sentinels are unreachable"))
}

/// The options of the client connected to the master at `addr`: the
/// failover client's password, database, pool size and timeouts.
pub fn master_client_options(opts: &FailoverOptions, addr: String) -> (res: ClientOptions)
    ensures
        res.addr == addr,
        res.password == opts.password,
        res.db == opts.db,
        res.pool_size == opts.pool_size,
        res.dial_timeout == opts.dial_timeout,
        res.read_timeout == opts.read_timeout,
        res.write_timeout == opts.write_timeout,
        res.idle_timeout == opts.idle_timeout,
{
    ClientOptions {
        addr,
        password: clone_opt_string(&opts.password),
        db: opts.db,
        pool_size: opts.pool_size,
        dial_timeout: opts.dial_timeout,
        read_timeout: opts.read_timeout,
        write_timeout: opts.write_timeout,
        idle_timeout: opts.idle_timeout,
    }
}

/// The error when no sentinel gave the master's address, as a model.
pub open spec fn unreachable_error() -> SpecError {
    SpecError::Other("redis: all sentinels are unreachable"@)
}

/// The outcome of asking the sentinels in order, where `answers[k]` is what
/// sentinel `k` answers: the address in the first answer that holds one, or
/// the all-unreachable error when none does.
pub open spec fn first_master(answers: Seq<Result<SpecValue, SpecError>>) -> Result<Seq<char>, SpecError>
    decreases answers.len(),
{
    if answers.len() == 0 {
        Err(unreachable_error())
    } else {
        match master_of_reply(answers[0]) {
            Some(a) => Ok(a),
            None => first_master(answers.drop_first()),
        }
    }
}

/// What the search for the master does next.
pub enum SentinelStep {
    /// Ask the sentinel with this index.
    Ask(usize),
    /// The master's address.
    Found(String),
    /// No sentinel gave an address.
    Fail(Error),
}

/// The first step of the search among `count` sentinels: ask the first one,
/// or fail at once when there is none.
pub fn first_sentinel(count: usize) -> (res: SentinelStep)
    ensures
        count > 0 ==> res == SentinelStep::Ask(0),
        count == 0 ==> (res matches SentinelStep::Fail(e) && e@ == unreachable_error()),
{
    if count > 0 {
        SentinelStep::Ask(0)
    } else {
        SentinelStep::Fail(sentinels_unreachable())
    }
}

/// The step after sentinel `i` of `count` answered `r`: its address, if the
/// answer holds one; otherwise the next sentinel, or failure after the last.
pub fn sentinel_step(i: usize, count: usize, r: Result<Value, Error>) -> (res: SentinelStep)
    requires
        i < count,
    ensures
        match master_of_reply(view_result(r)) {
            Some(a) => res matches SentinelStep::Found(s) && s@ == a,
            None => if i + 1 < count {
                res == SentinelStep::Ask((i + 1) as usize)
            } else {
                res matches SentinelStep::Fail(e) && e@ == unreachable_error()
            },
        },
{
    match master_addr_from_reply(r) {
        Some(addr) => SentinelStep::Found(addr),
        None => if i + 1 < count {
            SentinelStep::Ask(i + 1)
        } else {
            SentinelStep::Fail(sentinels_unreachable())
        },
    }
}

/// The first sentinel whose answer holds an address gives the master: the
/// sentinels after it do not count, and those before it gave no address.
pub proof fn law_first_answer_wins(answers: Seq<Result<SpecValue, SpecError>>, k: int)
    requires
        0 <= k < answers.len(),
        master_of_reply(answers[k]) is Some,
        forall|j: int| 0 <= j < k ==> master_of_reply(#[trigger] answers[j]) is None,
    ensures
        first_master(answers) == Ok::<Seq<char>, SpecError>(master_of_reply(answers[k])->0),
    decreases k,
{
    if k > 0 {
        let rest = answers.drop_first();
        assert forall|j: int| 0 <= j < k - 1 implies master_of_reply(#[trigger] rest[j]) is None by {
            assert(rest[j] == answers[j + 1]);
        }
        assert(master_of_reply(answers[0]) is None);
        law_first_answer_wins(rest, k - 1);
        assert(rest[k - 1] == answers[k]);
    }
}

/// When no sentinel's answer holds an address, the search fails with the
/// all-unreachable error.
pub proof fn law_no_answer_fails(answers: Seq<Result<SpecValue, SpecError>>)
    requires
        forall|j: int| 0 <= j < answers.len() ==> master_of_reply(#[trigger] answers[j]) is None,
    ensures
        first_master(answers) == Err::<Seq<char>, SpecError>(unreachable_error()),
    decreases answers.len(),
{
    if answers.len() > 0 {
        let rest = answers.drop_first();
        assert forall|j: int| 0 <= j < rest.len() implies master_of_reply(#[trigger] rest[j]) is None by {
            assert(rest[j] == answers[j + 1]);
        }
        assert(master_of_reply(answers[0]) is None);
        law_no_answer_fails(rest);
    }
}

/// Each step of the search agrees with [`first_master`]: asked from
/// sentinel `i` on, the outcome is sentinel `i`'s address if its answer holds
/// one, and otherwise the outcome from sentinel `i + 1` on; past the last
/// sentinel it is the all-unreachable error.
pub proof fn law_search_step(answers: Seq<Result<SpecValue, SpecError>>, i: int)
    requires
        0 <= i <= answers.len(),
    ensures
        i == answers.len() ==> first_master(answers.skip(i)) == Err::<Seq<char>, SpecError>(
            unreachable_error(),
        ),
        i < answers.len() ==> first_master(answers.skip(i)) == match master_of_reply(answers[i]) {
            Some(a) => Ok(a),
            None => first_master(answers.skip(i + 1)),
        },
{
    if i < answers.len() {
        assert(answers.skip(i)[0] == answers[i]);
        assert(answers.skip(i).drop_first() =~= answers.skip(i + 1));
    } else {
        assert(answers.skip(i).len() == 0);
    }
}

} // verus!
