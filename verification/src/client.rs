//! Client options, connection set-up commands and the decoding of command
//! replies into typed results.

use crate::duration::{duration_from_secs, duration_nanos};
use crate::error::{Error, RedisError, SpecError};
use crate::parser::{lemma_view_values_len, view_result, view_value, view_values, SpecValue, Value};
use crate::strmap::StringMap;
use crate::text::{bytes_eq_ignore_ascii_case, int_text, int_to_string, str_eq_ignore_ascii_case};
use core::time::Duration;
use vstd::prelude::*;
use vstd::string::StringSliceAdditionalSpecFns;
use vstd::utf8::encode_utf8;

verus! {

/// Default Redis server address.
pub const DEFAULT_ADDR: &'static str = "127.0.0.1:6379";

/// Client options for connecting to Redis.
pub struct ClientOptions {
    /// Redis server address (e.g. "127.0.0.1:6379").
    pub addr: String,
    /// Optional AUTH password.
    pub password: Option<String>,
    /// Database index (0-15). SELECT is sent on each new connection.
    pub db: i64,
    /// Maximum connections in the pool.
    pub pool_size: usize,
    /// Timeout for establishing TCP connection.
    pub dial_timeout: Duration,
    /// Timeout for read operations; None means no timeout.
    pub read_timeout: Option<Duration>,
    /// Timeout for write operations; None means no timeout.
    pub write_timeout: Option<Duration>,
    /// Idle connection eviction; connections unused longer than this are dropped.
    pub idle_timeout: Option<Duration>,
}

/// A copy of an optional string.
pub fn clone_opt_string(s: &Option<String>) -> (res: Option<String>)
    ensures
        res == *s,
{
    match s {
        Some(x) => Some(x.clone()),
        None => None,
    }
}

impl Clone for ClientOptions {
    fn clone(&self) -> (res: Self)
        ensures
            res == *self,
    {
        ClientOptions {
            addr: self.addr.clone(),
            password: clone_opt_string(&self.password),
            db: self.db,
            pool_size: self.pool_size,
            dial_timeout: self.dial_timeout,
            read_timeout: self.read_timeout,
            write_timeout: self.write_timeout,
            idle_timeout: self.idle_timeout,
        }
    }
}

impl Default for ClientOptions {
    fn default() -> (res: Self)
        ensures
            res.addr@ == DEFAULT_ADDR@,
            res.password is None,
            res.db == 0,
            res.pool_size == 10,
            duration_nanos(res.dial_timeout) == 5_000_000_000,
            res.read_timeout is None,
            res.write_timeout is None,
            res.idle_timeout is None,
    {
        ClientOptions {
            addr: String::from_str(DEFAULT_ADDR),
            password: None,
            db: 0,
            pool_size: 10,
            dial_timeout: duration_from_secs(5),
            read_timeout: None,
            write_timeout: None,
            idle_timeout: None,
        }
    }
}


/* Reply decoding */

/// A string value: a bulk string or a status.
pub open spec fn is_text(v: SpecValue) -> bool {
    v is BulkString || v is Status
}

/// The text of a string value.
pub open spec fn text_of(v: SpecValue) -> Seq<char> {
    match v {
        SpecValue::BulkString(s) => s,
        SpecValue::Status(s) => s,
        _ => Seq::empty(),
    }
}

/// The texts of a sequence of strings.
pub open spec fn string_views(v: Seq<String>) -> Seq<Seq<char>> {
    v.map_values(|s: String| s@)
}

/// An error result with the error taken by its view.
pub open spec fn view_err<T>(r: Result<T, Error>) -> Result<T, SpecError> {
    match r {
        Ok(t) => Ok(t),
        Err(e) => Err(e@),
    }
}

/// A string result taken by its view.
pub open spec fn view_str_result(r: Result<String, Error>) -> Result<Seq<char>, SpecError> {
    match r {
        Ok(s) => Ok(s@),
        Err(e) => Err(e@),
    }
}

/// An optional-string result taken by its view.
pub open spec fn view_opt_str_result(r: Result<Option<String>, Error>) -> Result<Option<Seq<char>>, SpecError> {
    match r {
        Ok(Some(s)) => Ok(Some(s@)),
        Ok(None) => Ok(None),
        Err(e) => Err(e@),
    }
}

/// A string-list result taken by its view.
pub open spec fn view_strs_result(r: Result<Vec<String>, Error>) -> Result<Seq<Seq<char>>, SpecError> {
    match r {
        Ok(v) => Ok(string_views(v@)),
        Err(e) => Err(e@),
    }
}

fn other_err(msg: &str) -> (res: Error)
    ensures
        res@ == SpecError::Other(msg@),
{
    Error::Other(String::from_str(msg))
}

/// The text of a string value, if it is one.
pub fn value_text(v: &Value) -> (res: Option<String>)
    ensures
        is_text(v@) ==> (res matches Some(s) && s@ == text_of(v@)),
        !is_text(v@) ==> res is None,
{
    match v {
        Value::BulkString(s) => Some(s.clone()),
        Value::Status(s) => Some(s.clone()),
        _ => None,
    }
}

/// What a status reply gives: the status text.
pub open spec fn status_of_reply(r: Result<SpecValue, SpecError>) -> Result<Seq<char>, SpecError> {
    match r {
        Ok(SpecValue::Status(s)) => Ok(s),
        Ok(_) => Err(SpecError::Other("expected status"@)),
        Err(e) => Err(e),
    }
}

/// Decodes a reply that must be a status (SET, RENAME, FLUSHDB, ...).
pub fn status_reply(r: Result<Value, Error>) -> (res: Result<String, Error>)
    ensures
        view_str_result(res) == status_of_reply(view_result(r)),
{
    match r {
        Ok(Value::Status(s)) => Ok(s),
        Ok(_) => Err(other_err("expected status")),
        Err(e) => Err(e),
    }
}

/// What a string reply gives: the text of a bulk string or status, or the
/// error `missing`.
pub open spec fn text_of_reply(r: Result<SpecValue, SpecError>, missing: Seq<char>) -> Result<Seq<char>, SpecError> {
    match r {
        Ok(v) => if is_text(v) {
            Ok(text_of(v))
        } else {
            Err(SpecError::Other(missing))
        },
        Err(e) => Err(e),
    }
}

/// Decodes a reply that must be a bulk string or a status (ECHO, PING, INFO,
/// GETRANGE, ...); otherwise the error is `Other(missing)`.
pub fn text_reply(r: Result<Value, Error>, missing: &str) -> (res: Result<String, Error>)
    ensures
        view_str_result(res) == text_of_reply(view_result(r), missing@),
{
    match r {
        Ok(Value::BulkString(s)) => Ok(s),
        Ok(Value::Status(s)) => Ok(s),
        Ok(_) => Err(other_err(missing)),
        Err(e) => Err(e),
    }
}

/// What an integer reply gives.
pub open spec fn int_of_reply(r: Result<SpecValue, SpecError>) -> Result<i64, SpecError> {
    match r {
        Ok(SpecValue::Int(i)) => Ok(i),
        Ok(_) => Err(SpecError::Other("expected int"@)),
        Err(e) => Err(e),
    }
}

/// Decodes a reply that must be an integer (DEL, INCR, LLEN, ...).
pub fn int_reply(r: Result<Value, Error>) -> (res: Result<i64, Error>)
    ensures
        view_err(res) == int_of_reply(view_result(r)),
{
    match r {
        Ok(Value::Int(i)) => Ok(i),
        Ok(_) => Err(other_err("expected int")),
        Err(e) => Err(e),
    }
}

/// What a 0/1 integer reply gives: whether it is 1.
pub open spec fn bool_of_reply(r: Result<SpecValue, SpecError>) -> Result<bool, SpecError> {
    match int_of_reply(r) {
        Ok(i) => Ok(i == 1),
        Err(e) => Err(e),
    }
}

/// Decodes an integer reply as a flag: true exactly for 1 (EXISTS, EXPIRE,
/// SETNX, ...).
pub fn bool_reply(r: Result<Value, Error>) -> (res: Result<bool, Error>)
    ensures
        view_err(res) == bool_of_reply(view_result(r)),
{
    match r {
        Ok(Value::Int(i)) => Ok(i == 1),
        Ok(_) => Err(other_err("expected int")),
        Err(e) => Err(e),
    }
}

/// What a time-to-live reply gives: the count, with negative counts (no key,
/// no expiry) as 0.
pub open spec fn ttl_of_reply(r: Result<SpecValue, SpecError>) -> Result<u64, SpecError> {
    match int_of_reply(r) {
        Ok(i) => Ok(if i < 0 { 0 } else { i as u64 }),
        Err(e) => Err(e),
    }
}

/// Decodes a TTL or PTTL reply into a non-negative count of seconds or
/// milliseconds.
pub fn ttl_reply(r: Result<Value, Error>) -> (res: Result<u64, Error>)
    ensures
        view_err(res) == ttl_of_reply(view_result(r)),
{
    match r {
        Ok(Value::Int(i)) => Ok(if i < 0 { 0 } else { i as u64 }),
        Ok(_) => Err(other_err("expected int")),
        Err(e) => Err(e),
    }
}

/// What a reply that may be nil gives: `None` for nil, the text of a string.
pub open spec fn opt_text_of_reply(r: Result<SpecValue, SpecError>) -> Result<Option<Seq<char>>, SpecError> {
    match r {
        Ok(v) => if is_text(v) {
            Ok(Some(text_of(v)))
        } else {
            Err(SpecError::Other("expected string"@))
        },
        Err(SpecError::Nil) => Ok(None),
        Err(e) => Err(e),
    }
}

/// Decodes a reply that is a string or nil (GET, HGET, LPOP, ...).
pub fn opt_text_reply(r: Result<Value, Error>) -> (res: Result<Option<String>, Error>)
    ensures
        view_opt_str_result(res) == opt_text_of_reply(view_result(r)),
{
    match r {
        Ok(Value::BulkString(s)) => Ok(Some(s)),
        Ok(Value::Status(s)) => Ok(Some(s)),
        Ok(_) => Err(other_err("expected string")),
        Err(Error::Nil) => Ok(None),
        Err(e) => Err(e),
    }
}

/// What an integer reply that may be nil gives.
pub open spec fn opt_int_of_reply(r: Result<SpecValue, SpecError>) -> Result<Option<i64>, SpecError> {
    match r {
        Ok(SpecValue::Int(i)) => Ok(Some(i)),
        Ok(_) => Err(SpecError::Other("expected int"@)),
        Err(SpecError::Nil) => Ok(None),
        Err(e) => Err(e),
    }
}

/// Decodes a reply that is an integer or nil (ZRANK, ZREVRANK).
pub fn opt_int_reply(r: Result<Value, Error>) -> (res: Result<Option<i64>, Error>)
    ensures
        view_err(res) == opt_int_of_reply(view_result(r)),
{
    match r {
        Ok(Value::Int(i)) => Ok(Some(i)),
        Ok(_) => Err(other_err("expected int")),
        Err(Error::Nil) => Ok(None),
        Err(e) => Err(e),
    }
}


/// The texts of the string elements, in order; other elements are left out.
pub open spec fn texts_in(s: Seq<SpecValue>) -> Seq<Seq<char>>
    decreases s.len(),
{
    if s.len() == 0 {
        Seq::empty()
    } else {
        let p = texts_in(s.drop_last());
        if is_text(s.last()) {
            p.push(text_of(s.last()))
        } else {
            p
        }
    }
}

/// Each element as `Some(text)` when it is a string and `None` otherwise.
pub open spec fn opt_texts_in(s: Seq<SpecValue>) -> Seq<Option<Seq<char>>> {
    s.map_values(|v: SpecValue| if is_text(v) { Some(text_of(v)) } else { None })
}

/// Optional strings taken by their views.
pub open spec fn opt_string_views(v: Seq<Option<String>>) -> Seq<Option<Seq<char>>> {
    v.map_values(|o: Option<String>| match o {
        Some(s) => Some(s@),
        None => None,
    })
}

/// Extract string elements from a Redis array (BulkString or Status).
pub fn array_to_strings(arr: Vec<Value>) -> (res: Vec<String>)
    ensures
        string_views(res@) == texts_in(view_values(arr@)),
{
    let ghost vs = view_values(arr@);
    proof {
        lemma_view_values_len(arr@);
    }
    let mut out: Vec<String> = Vec::new();
    let mut i: usize = 0;
    while i < arr.len()
        invariant
            0 <= i <= arr@.len(),
            vs == view_values(arr@),
            vs.len() == arr@.len(),
            forall|k: int| 0 <= k < arr@.len() ==> #[trigger] vs[k] == view_value(arr@[k]),
            string_views(out@) == texts_in(vs.take(i as int)),
        decreases arr@.len() - i,
    {
        let ghost before = out@;
        assert(vs.take(i + 1).drop_last() =~= vs.take(i as int));
        assert(vs.take(i + 1).last() == arr@[i as int]@);
        match value_text(&arr[i]) {
            Some(t) => {
                out.push(t);
                assert(string_views(out@) =~= string_views(before).push(t@));
            },
            None => {},
        }
        i = i + 1;
    }
    assert(vs.take(i as int) =~= vs);
    out
}

/// Extract optional strings from a Redis array (BulkString/Status -> Some, anything else -> None).
pub fn array_to_option_strings(arr: Vec<Value>) -> (res: Vec<Option<String>>)
    ensures
        opt_string_views(res@) == opt_texts_in(view_values(arr@)),
{
    let ghost vs = view_values(arr@);
    proof {
        lemma_view_values_len(arr@);
    }
    let mut out: Vec<Option<String>> = Vec::new();
    let mut i: usize = 0;
    while i < arr.len()
        invariant
            0 <= i <= arr@.len(),
            vs == view_values(arr@),
            vs.len() == arr@.len(),
            forall|k: int| 0 <= k < arr@.len() ==> #[trigger] vs[k] == view_value(arr@[k]),
            out@.len() == i,
            opt_string_views(out@) == opt_texts_in(vs.take(i as int)),
        decreases arr@.len() - i,
    {
        let ghost before = out@;
        let t = value_text(&arr[i]);
        out.push(t);
        i = i + 1;
        assert forall|k: int| 0 <= k < i implies #[trigger] opt_string_views(out@)[k] == opt_texts_in(
            vs.take(i as int),
        )[k] by {
            if k < i - 1 {
                assert(out@[k] == before[k]);
                assert(opt_string_views(before)[k] == opt_texts_in(vs.take(i - 1))[k]);
            }
        }
        assert(opt_string_views(out@) =~= opt_texts_in(vs.take(i as int)));
    }
    assert(vs.take(i as int) =~= vs);
    out
}

/// What an array reply of strings gives.
pub open spec fn texts_of_reply(r: Result<SpecValue, SpecError>) -> Result<Seq<Seq<char>>, SpecError> {
    match r {
        Ok(SpecValue::Array(a)) => Ok(texts_in(a)),
        Ok(_) => Err(SpecError::Other("expected array"@)),
        Err(e) => Err(e),
    }
}

/// Decodes an array reply into its string elements (KEYS, LRANGE, SMEMBERS, ...).
pub fn strings_reply(r: Result<Value, Error>) -> (res: Result<Vec<String>, Error>)
    ensures
        view_strs_result(res) == texts_of_reply(view_result(r)),
{
    match r {
        Ok(Value::Array(a)) => Ok(array_to_strings(a)),
        Ok(_) => Err(other_err("expected array")),
        Err(e) => Err(e),
    }
}

/// What an array reply of optional strings gives.
pub open spec fn opt_texts_of_reply(r: Result<SpecValue, SpecError>) -> Result<Seq<Option<Seq<char>>>, SpecError> {
    match r {
        Ok(SpecValue::Array(a)) => Ok(opt_texts_in(a)),
        Ok(_) => Err(SpecError::Other("expected array"@)),
        Err(e) => Err(e),
    }
}

/// An optional-strings result taken by its view.
pub open spec fn view_opt_strs_result(r: Result<Vec<Option<String>>, Error>) -> Result<Seq<Option<Seq<char>>>, SpecError> {
    match r {
        Ok(v) => Ok(opt_string_views(v@)),
        Err(e) => Err(e@),
    }
}

/// Decodes an array reply whose elements may be nil (MGET, HMGET).
pub fn opt_strings_reply(r: Result<Value, Error>) -> (res: Result<Vec<Option<String>>, Error>)
    ensures
        view_opt_strs_result(res) == opt_texts_of_reply(view_result(r)),
{
    match r {
        Ok(Value::Array(a)) => Ok(array_to_option_strings(a)),
        Ok(_) => Err(other_err("expected array")),
        Err(e) => Err(e),
    }
}


/// The key/value pairs of a flat `[k1, v1, k2, v2, ...]` array; a trailing
/// odd element is left out.
pub open spec fn pairs_in(s: Seq<SpecValue>) -> Seq<(Seq<char>, Seq<char>)> {
    Seq::new(s.len() / 2, |i: int| (text_of(s[2 * i]), text_of(s[2 * i + 1])))
}

/// Every element that belongs to a pair is a string.
pub open spec fn paired_texts(s: Seq<SpecValue>) -> bool {
    forall|i: int| 0 <= i < 2 * (s.len() / 2) ==> is_text(#[trigger] s[i])
}

/// The map built by inserting the pairs in order: a later pair with the same
/// key replaces the value of an earlier one.
pub open spec fn map_of_pairs(ps: Seq<(Seq<char>, Seq<char>)>) -> Map<Seq<char>, Seq<char>>
    decreases ps.len(),
{
    if ps.len() == 0 {
        Map::empty()
    } else {
        map_of_pairs(ps.drop_last()).insert(ps.last().0, ps.last().1)
    }
}

/// Builds the field/value map of an HGETALL reply array.
///
/// Every element that belongs to a pair must be a string: on any other
/// element the decoding loop of this client never ends.
pub fn array_to_string_map(arr: Vec<Value>) -> (res: StringMap)
    requires
        paired_texts(view_values(arr@)),
    ensures
        res@ == map_of_pairs(pairs_in(view_values(arr@))),
{
    let ghost vs = view_values(arr@);
    let ghost ps = pairs_in(vs);
    proof {
        lemma_view_values_len(arr@);
    }
    let mut m = StringMap::new();
    let mut i: usize = 0;
    while arr.len() - i >= 2
        invariant
            vs == view_values(arr@),
            ps == pairs_in(vs),
            vs.len() == arr@.len(),
            forall|k: int| 0 <= k < arr@.len() ==> #[trigger] vs[k] == view_value(arr@[k]),
            paired_texts(vs),
            i % 2 == 0,
            i <= arr@.len(),
            m@ == map_of_pairs(ps.take(i as int / 2)),
        decreases arr@.len() - i,
    {
        assert(is_text(vs[i as int]));
        assert(is_text(vs[i + 1]));
        let k = match value_text(&arr[i]) {
            Some(t) => t,
            None => String::new(),
        };
        let v = match value_text(&arr[i + 1]) {
            Some(t) => t,
            None => String::new(),
        };
        proof {
            assert(ps.take(i as int / 2 + 1).drop_last() =~= ps.take(i as int / 2));
            assert(ps[i as int / 2] == (text_of(vs[i as int]), text_of(vs[i + 1])));
        }
        m.insert(k, v);
        i = i + 2;
        assert((i / 2) == (i - 2) / 2 + 1);
    }
    assert(ps.take(i as int / 2) =~= ps);
    m
}

/// What an HGETALL reply gives.
pub open spec fn map_of_reply(r: Result<SpecValue, SpecError>) -> Result<Map<Seq<char>, Seq<char>>, SpecError> {
    match r {
        Ok(SpecValue::Array(a)) => Ok(map_of_pairs(pairs_in(a))),
        Ok(_) => Err(SpecError::Other("expected array"@)),
        Err(e) => Err(e),
    }
}

/// A map result taken by its view.
pub open spec fn view_map_result(r: Result<StringMap, Error>) -> Result<Map<Seq<char>, Seq<char>>, SpecError> {
    match r {
        Ok(m) => Ok(m@),
        Err(e) => Err(e@),
    }
}

/// Decodes an HGETALL reply into the map of its fields.
pub fn string_map_reply(r: Result<Value, Error>) -> (res: Result<StringMap, Error>)
    requires
        r matches Ok(Value::Array(a)) ==> paired_texts(view_values(a@)),
    ensures
        view_map_result(res) == map_of_reply(view_result(r)),
{
    match r {
        Ok(Value::Array(a)) => Ok(array_to_string_map(a)),
        Ok(_) => Err(other_err("expected array")),
        Err(e) => Err(e),
    }
}

/// The (member, score) text pairs of a sorted-set reply array
/// `[m1, s1, m2, s2, ...]`: where an element of a would-be pair is not a
/// string, the scan moves on by one element.
pub open spec fn member_score_texts(s: Seq<SpecValue>) -> Seq<(Seq<char>, Seq<char>)>
    decreases s.len(),
{
    if s.len() < 2 {
        Seq::empty()
    } else if is_text(s[0]) && is_text(s[1]) {
        seq![(text_of(s[0]), text_of(s[1]))] + member_score_texts(s.skip(2))
    } else {
        member_score_texts(s.drop_first())
    }
}

/// Text pairs taken by their views.
pub open spec fn pair_views(v: Seq<(String, String)>) -> Seq<(Seq<char>, Seq<char>)> {
    v.map_values(|p: (String, String)| (p.0@, p.1@))
}

/// Extracts the (member, score text) pairs of a WITHSCORES reply array; the
/// scores are left as text for the caller to read as numbers.
pub fn member_score_pairs(arr: Vec<Value>) -> (res: Vec<(String, String)>)
    ensures
        pair_views(res@) == member_score_texts(view_values(arr@)),
{
    let ghost vs = view_values(arr@);
    proof {
        lemma_view_values_len(arr@);
    }
    let mut out: Vec<(String, String)> = Vec::new();
    let mut i: usize = 0;
    assert(vs.skip(0) =~= vs);
    while arr.len() - i >= 2
        invariant
            vs == view_values(arr@),
            vs.len() == arr@.len(),
            forall|k: int| 0 <= k < arr@.len() ==> #[trigger] vs[k] == view_value(arr@[k]),
            i <= arr@.len(),
            pair_views(out@) + member_score_texts(vs.skip(i as int)) == member_score_texts(vs),
        decreases arr@.len() - i,
    {
        let ghost rest = vs.skip(i as int);
        assert(rest[0] == vs[i as int] && rest[1] == vs[i + 1]);
        let m = value_text(&arr[i]);
        let sc = value_text(&arr[i + 1]);
        match (m, sc) {
            (Some(a), Some(b)) => {
                let ghost before = out@;
                out.push((a, b));
                proof {
                    assert(rest.skip(2) =~= vs.skip(i + 2));
                    assert(pair_views(out@) =~= pair_views(before).push((text_of(vs[i as int]), text_of(vs[i + 1]))));
                    assert(pair_views(out@) + member_score_texts(vs.skip(i + 2)) =~= pair_views(before) + member_score_texts(rest));
                }
                i = i + 2;
            },
            _ => {
                proof {
                    assert(rest.drop_first() =~= vs.skip(i + 1));
                }
                i = i + 1;
            },
        }
    }
    proof {
        assert(member_score_texts(vs.skip(i as int)) =~= Seq::<(Seq<char>, Seq<char>)>::empty());
        assert(pair_views(out@) + Seq::<(Seq<char>, Seq<char>)>::empty() =~= pair_views(out@));
    }
    out
}

/// What a blocking pop reply gives: the (key, value) pair of a two-element
/// array, or nothing.
pub open spec fn pop_of_reply(r: Result<SpecValue, SpecError>) -> Result<Option<(Seq<char>, Seq<char>)>, SpecError> {
    match r {
        Ok(SpecValue::Array(a)) => if a.len() >= 2 {
            if is_text(a[0]) && is_text(a[1]) {
                Ok(Some((text_of(a[0]), text_of(a[1]))))
            } else {
                Err(SpecError::Other("expected string"@))
            }
        } else {
            Ok(None)
        },
        Ok(_) => Ok(None),
        Err(SpecError::Nil) => Ok(None),
        Err(e) => Err(e),
    }
}

/// A popped pair result taken by its view.
pub open spec fn view_pop_result(r: Result<Option<(String, String)>, Error>) -> Result<Option<(Seq<char>, Seq<char>)>, SpecError> {
    match r {
        Ok(Some(p)) => Ok(Some((p.0@, p.1@))),
        Ok(None) => Ok(None),
        Err(e) => Err(e@),
    }
}

/// Decodes a BLPOP/BRPOP reply.
pub fn pop_reply(r: Result<Value, Error>) -> (res: Result<Option<(String, String)>, Error>)
    ensures
        view_pop_result(res) == pop_of_reply(view_result(r)),
{
    match r {
        Ok(Value::Array(arr)) => {
            proof {
                lemma_view_values_len(arr@);
            }
            if arr.len() >= 2 {
                let key = match value_text(&arr[0]) {
                    Some(s) => s,
                    None => {
                        return Err(other_err("expected string"));
                    },
                };
                let val = match value_text(&arr[1]) {
                    Some(s) => s,
                    None => {
                        return Err(other_err("expected string"));
                    },
                };
                Ok(Some((key, val)))
            } else {
                Ok(None)
            }
        },
        Ok(_) => Ok(None),
        Err(Error::Nil) => Ok(None),
        Err(e) => Err(e),
    }
}

/* Connection set-up */

/// A new connection needs set-up commands: a password or a database other than 0.
pub fn needs_init(password: &Option<String>, db: i64) -> (res: bool)
    ensures
        res == (password is Some || db != 0),
{
    password.is_some() || db != 0
}

/// A command made of `head` followed by `tail`.
pub fn concat_args(head: Vec<String>, tail: &[String]) -> (res: Vec<String>)
    ensures
        res@ == head@ + tail@,
        string_views(res@) == string_views(head@) + string_views(tail@),
{
    let mut out = head;
    let ghost start = out@;
    let mut i: usize = 0;
    while i < tail.len()
        invariant
            0 <= i <= tail@.len(),
            out@ == start + tail@.take(i as int),
        decreases tail@.len() - i,
    {
        out.push(tail[i].clone());
        i = i + 1;
        assert(out@ =~= start + tail@.take(i as int));
    }
    assert(tail@.take(i as int) =~= tail@);
    assert(string_views(out@) =~= string_views(start) + string_views(tail@));
    out
}

/// The set-up commands of a new connection, in order.
pub open spec fn init_commands_spec(password: Option<Seq<char>>, db: i64) -> Seq<Seq<Seq<char>>> {
    let auth: Seq<Seq<Seq<char>>> = match password {
        Some(p) => seq![seq!["AUTH"@, p]],
        None => Seq::empty(),
    };
    if db > 0 {
        auth.push(seq!["SELECT"@, int_text(db as int)])
    } else {
        auth
    }
}

/// Commands taken by their views.
pub open spec fn command_views(v: Seq<Vec<String>>) -> Seq<Seq<Seq<char>>> {
    v.map_values(|c: Vec<String>| string_views(c@))
}

/// The set-up commands of a new connection: AUTH with the password when there
/// is one, then SELECT when the database index is positive.
pub fn init_commands(password: &Option<String>, db: i64) -> (res: Vec<Vec<String>>)
    ensures
        command_views(res@) == init_commands_spec(
            match password {
                Some(p) => Some(p@),
                None => None,
            },
            db,
        ),
{
    let mut cmds: Vec<Vec<String>> = Vec::new();
    match password {
        Some(p) => {
            let mut c: Vec<String> = Vec::new();
            c.push(String::from_str("AUTH"));
            c.push(p.clone());
            cmds.push(c);
        },
        None => {},
    }
    if db > 0 {
        let mut c: Vec<String> = Vec::new();
        c.push(String::from_str("SELECT"));
        c.push(int_to_string(db));
        cmds.push(c);
    }
    proof {
        let pv = match password {
            Some(p) => Some(p@),
            None => None::<Seq<char>>,
        };
        assert(command_views(cmds@) =~= init_commands_spec(pv, db)) by {
            assert forall|i: int| 0 <= i < cmds@.len() implies string_views(cmds@[i]@) =~= init_commands_spec(pv, db)[i] by {}
        }
    }
    cmds
}

/// The outcome of a set-up command's reply: a status other than OK (in any
/// case) is an error; a failed reply is passed on; any other reply is fine.
pub open spec fn init_outcome(r: Result<SpecValue, SpecError>) -> Result<(), SpecError> {
    match r {
        Err(e) => Err(e),
        Ok(SpecValue::Status(s)) => if bytes_eq_ignore_ascii_case(encode_utf8(s), "OK".spec_bytes()) {
            Ok(())
        } else {
            Err(SpecError::Redis(s))
        },
        Ok(_) => Ok(()),
    }
}

/// Checks the reply to an AUTH or SELECT sent on a new connection.
pub fn check_init_reply(r: Result<Value, Error>) -> (res: Result<(), Error>)
    ensures
        view_err(res) == init_outcome(view_result(r)),
{
    match r {
        Err(e) => Err(e),
        Ok(Value::Status(s)) => {
            if str_eq_ignore_ascii_case(s.as_str(), "OK") {
                Ok(())
            } else {
                Err(Error::Redis(RedisError(s)))
            }
        },
        Ok(_) => Ok(()),
    }
}

/// A new connection is set up with AUTH first when there is a password,
/// then SELECT with the decimal database index whenever that index is
/// positive; nothing else is sent.
pub proof fn law_init_commands(password: Option<Seq<char>>, db: i64)
    ensures
        password matches Some(p) ==> init_commands_spec(password, db)[0] == seq!["AUTH"@, p],
        db > 0 ==> init_commands_spec(password, db).len() == (if password is Some { 2int } else { 1int })
            && init_commands_spec(password, db).last() == seq!["SELECT"@, int_text(db as int)],
        db <= 0 ==> init_commands_spec(password, db).len() == (if password is Some { 1int } else { 0int }),
{
}

/// The strings of an array whose elements are all strings are its elements'
/// texts, one per element, in the same order: none is dropped or merged.
pub proof fn law_texts_of_all_strings(s: Seq<SpecValue>)
    requires
        forall|i: int| 0 <= i < s.len() ==> is_text(#[trigger] s[i]),
    ensures
        texts_in(s).len() == s.len(),
        forall|k: int| 0 <= k < s.len() ==> #[trigger] texts_in(s)[k] == text_of(s[k]),
    decreases s.len(),
{
    if s.len() > 0 {
        let p = s.drop_last();
        assert forall|i: int| 0 <= i < p.len() implies is_text(#[trigger] p[i]) by {
            assert(p[i] == s[i]);
        }
        law_texts_of_all_strings(p);
        assert(is_text(s[s.len() - 1]));
        assert forall|k: int| 0 <= k < s.len() implies #[trigger] texts_in(s)[k] == text_of(s[k]) by {
            if k < s.len() - 1 {
                assert(texts_in(s)[k] == texts_in(p)[k]);
                assert(p[k] == s[k]);
            }
        }
    }
}

/// The strings of two arrays one after the other are the strings of each,
/// one after the other: whether an element is kept depends on that element
/// alone.
pub proof fn law_texts_in_concat(a: Seq<SpecValue>, b: Seq<SpecValue>)
    ensures
        texts_in(a + b) == texts_in(a) + texts_in(b),
    decreases b.len(),
{
    if b.len() == 0 {
        assert(a + b =~= a);
        assert(texts_in(b) =~= Seq::<Seq<char>>::empty());
        assert(texts_in(a) + texts_in(b) =~= texts_in(a));
    } else {
        law_texts_in_concat(a, b.drop_last());
        assert((a + b).drop_last() =~= a + b.drop_last());
        assert((a + b).last() == b.last());
        if is_text(b.last()) {
            assert(texts_in(a) + texts_in(b) =~= (texts_in(a) + texts_in(b.drop_last())).push(
                text_of(b.last()),
            ));
        }
    }
}

} // verus!
