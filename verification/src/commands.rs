//! Redis command types and result handlers.
//!
//! Typed command wrappers that parse Redis replies into typed results.
//! This module provides an alternative, builder-style API for constructing
//! and parsing Redis commands.

use crate::client::{
    array_to_string_map, array_to_strings, is_text, map_of_pairs, pair_views, pairs_in,
    paired_texts,
    string_views, text_of, texts_in, value_text, view_err, view_map_result, view_str_result,
    view_strs_result,
};
use crate::duration::{duration_as_nanos, duration_from_nanos, duration_nanos};
use crate::error::{redis_error, Error, SpecError};
use crate::pipeline::view_values_result;
use crate::parser::{
    lemma_view_values_len, lemma_view_values_push, view_value, view_values, SpecValue, Value,
};
use crate::strmap::StringMap;
use crate::text::{parse_i64_at, parse_i64_spec};
use core::time::Duration;
use vstd::prelude::*;
use vstd::string::StringSliceAdditionalSpecFns;
use vstd::utf8::encode_utf8;

verus! {

/// The error a command holds, if any, taken by its view.
pub open spec fn view_opt_err(e: Option<Error>) -> Option<SpecError> {
    match e {
        Some(x) => Some(x@),
        None => None,
    }
}

/// What `result()` gives for a command with error `err` and value `val`:
/// the error if there is one, otherwise `val`.
pub open spec fn cmd_outcome<T>(err: Option<Error>, val: Result<T, SpecError>) -> Result<T, SpecError> {
    match err {
        Some(e) => Err(e@),
        None => val,
    }
}

fn clone_opt_err(e: &Option<Error>) -> (res: Option<Error>)
    ensures
        view_opt_err(res) == view_opt_err(*e),
{
    match e {
        Some(x) => Some(x.clone()),
        None => None,
    }
}

fn no_value() -> (res: Error)
    ensures
        res@ == SpecError::Other("no value"@),
{
    Error::Other(String::from_str("no value"))
}

fn redis_err(msg: &str) -> (res: Error)
    ensures
        res@ == SpecError::Redis(msg@),
{
    Error::Redis(redis_error(msg))
}

/// Base command with arguments and optional error.
pub struct BaseCmd {
    pub args: Vec<String>,
    pub err: Option<Error>,
}

impl Clone for BaseCmd {
    fn clone(&self) -> (res: Self)
        ensures
            string_views(res.args@) == string_views(self.args@),
            view_opt_err(res.err) == view_opt_err(self.err),
    {
        let mut args: Vec<String> = Vec::new();
        let mut i: usize = 0;
        while i < self.args.len()
            invariant
                0 <= i <= self.args@.len(),
                args@ == self.args@.take(i as int),
            decreases self.args@.len() - i,
        {
            args.push(self.args[i].clone());
            i = i + 1;
            assert(args@ =~= self.args@.take(i as int));
        }
        assert(self.args@.take(i as int) =~= self.args@);
        BaseCmd { args, err: clone_opt_err(&self.err) }
    }
}

impl BaseCmd {
    pub fn new(args: Vec<String>) -> (res: Self)
        ensures
            res.args == args,
            res.err is None,
    {
        Self { args, err: None }
    }

    pub fn err(&self) -> (res: Option<&Error>)
        ensures
            res == match &self.err {
                Some(e) => Some(e),
                None => None::<&Error>,
            },
    {
        self.err.as_ref()
    }

    pub fn set_err(&mut self, e: Error)
        ensures
            final(self).err == Some(e),
            final(self).args == old(self).args,
    {
        self.err = Some(e);
    }
}

/// Generic command returning any value.
pub struct GenericCmd {
    pub base: BaseCmd,
    pub val: Option<Value>,
}

/// An optional value taken by its view.
pub open spec fn view_opt_value(v: Option<Value>) -> Option<SpecValue> {
    match v {
        Some(x) => Some(x@),
        None => None,
    }
}

impl GenericCmd {
    pub fn new(args: Vec<String>) -> (res: Self)
        ensures
            res.base.args == args,
            res.base.err is None,
            res.val is None,
    {
        Self { base: BaseCmd::new(args), val: None }
    }

    /// The error if there is one, otherwise the value (if any).
    pub fn result(&self) -> (res: Result<Option<Value>, Error>)
        ensures
            match res {
                Ok(v) => self.base.err is None && view_opt_value(v) == view_opt_value(self.val),
                Err(e) => self.base.err matches Some(x) && e@ == x@,
            },
    {
        if let Some(e) = &self.base.err {
            return Err(e.clone());
        }
        match &self.val {
            Some(v) => Ok(Some(v.clone())),
            None => Ok(None),
        }
    }

    pub fn val(&self) -> (res: Option<&Value>)
        ensures
            res == match &self.val {
                Some(v) => Some(v),
                None => None::<&Value>,
            },
    {
        self.val.as_ref()
    }
}


/// Status command (e.g. OK, PONG).
pub struct StatusCmd {
    pub base: BaseCmd,
    pub val: Option<String>,
}

/// An optional string taken by its view.
pub open spec fn view_opt_str(v: Option<String>) -> Option<Seq<char>> {
    match v {
        Some(s) => Some(s@),
        None => None,
    }
}

/// A stored value, or the error `no value` when there is none.
pub open spec fn stored<T>(v: Option<T>) -> Result<T, SpecError> {
    match v {
        Some(x) => Ok(x),
        None => Err(SpecError::Other("no value"@)),
    }
}

impl StatusCmd {
    pub fn new(args: Vec<String>) -> (res: Self)
        ensures
            res.base.args == args,
            res.base.err is None,
            res.val is None,
    {
        Self { base: BaseCmd::new(args), val: None }
    }

    /// Stores the text of a status or bulk string reply.
    pub fn parse(&mut self, v: Value) -> (res: Result<(), Error>)
        ensures
            final(self).base == old(self).base,
            is_text(v@) ==> res is Ok && view_opt_str(final(self).val) == Some(text_of(v@)),
            !is_text(v@) ==> final(self).val == old(self).val && (res matches Err(e) && e@
                == SpecError::Redis("expected status"@)),
    {
        match v {
            Value::Status(s) => {
                self.val = Some(s);
                Ok(())
            },
            Value::BulkString(s) => {
                self.val = Some(s);
                Ok(())
            },
            _ => Err(redis_err("expected status")),
        }
    }

    pub fn result(&self) -> (res: Result<String, Error>)
        ensures
            view_str_result(res) == cmd_outcome(self.base.err, stored(view_opt_str(self.val))),
    {
        if let Some(e) = &self.base.err {
            return Err(e.clone());
        }
        match &self.val {
            Some(s) => Ok(s.clone()),
            None => Err(no_value()),
        }
    }
}

/// Integer command.
pub struct IntCmd {
    pub base: BaseCmd,
    pub val: Option<i64>,
}

impl IntCmd {
    pub fn new(args: Vec<String>) -> (res: Self)
        ensures
            res.base.args == args,
            res.base.err is None,
            res.val is None,
    {
        Self { base: BaseCmd::new(args), val: None }
    }

    /// Stores an integer reply, or a string reply read as an integer.
    pub fn parse(&mut self, v: Value) -> (res: Result<(), Error>)
        ensures
            final(self).base == old(self).base,
            match v@ {
                SpecValue::Int(i) => res is Ok && final(self).val == Some(i),
                SpecValue::BulkString(s) | SpecValue::Status(s) => match parse_i64_spec(encode_utf8(s)) {
                    Some(i) => res is Ok && final(self).val == Some(i),
                    None => final(self).val == old(self).val && (res matches Err(e) && e@
                        == SpecError::Redis("invalid int"@)),
                },
                _ => final(self).val == old(self).val && (res matches Err(e) && e@ == SpecError::Redis(
                    "expected int"@,
                )),
            },
    {
        match v {
            Value::Int(i) => {
                self.val = Some(i);
                Ok(())
            },
            Value::BulkString(s) | Value::Status(s) => {
                let b = s.as_str().as_bytes();
                match parse_i64_at(b, 0, b.len()) {
                    Some(i) => {
                        assert(b@.subrange(0, b@.len() as int) =~= b@);
                        self.val = Some(i);
                        Ok(())
                    },
                    None => {
                        assert(b@.subrange(0, b@.len() as int) =~= b@);
                        Err(redis_err("invalid int"))
                    },
                }
            },
            _ => Err(redis_err("expected int")),
        }
    }

    pub fn result(&self) -> (res: Result<i64, Error>)
        ensures
            view_err(res) == cmd_outcome(self.base.err, stored(self.val)),
    {
        if let Some(e) = &self.base.err {
            return Err(e.clone());
        }
        match self.val {
            Some(i) => Ok(i),
            None => Err(no_value()),
        }
    }
}

/// Bool command (from 0/1).
pub struct BoolCmd {
    pub base: BaseCmd,
    pub val: Option<bool>,
}

impl BoolCmd {
    pub fn new(args: Vec<String>) -> (res: Self)
        ensures
            res.base.args == args,
            res.base.err is None,
            res.val is None,
    {
        Self { base: BaseCmd::new(args), val: None }
    }

    /// Stores whether an integer reply is 1.
    pub fn parse(&mut self, v: Value) -> (res: Result<(), Error>)
        ensures
            final(self).base == old(self).base,
            match v@ {
                SpecValue::Int(i) => res is Ok && final(self).val == Some(i == 1),
                _ => final(self).val == old(self).val && (res matches Err(e) && e@ == SpecError::Redis(
                    "expected int"@,
                )),
            },
    {
        match v {
            Value::Int(i) => {
                self.val = Some(i == 1);
                Ok(())
            },
            _ => Err(redis_err("expected int")),
        }
    }

    pub fn result(&self) -> (res: Result<bool, Error>)
        ensures
            view_err(res) == cmd_outcome(self.base.err, stored(self.val)),
    {
        if let Some(e) = &self.base.err {
            return Err(e.clone());
        }
        match self.val {
            Some(b) => Ok(b),
            None => Err(no_value()),
        }
    }
}

/// String command.
pub struct StringCmd {
    pub base: BaseCmd,
    pub val: Option<String>,
}

/// An optional-string result taken by its view.
pub open spec fn view_opt_str_res(r: Result<Option<String>, Error>) -> Result<Option<Seq<char>>, SpecError> {
    match r {
        Ok(v) => Ok(view_opt_str(v)),
        Err(e) => Err(e@),
    }
}

impl StringCmd {
    pub fn new(args: Vec<String>) -> (res: Self)
        ensures
            res.base.args == args,
            res.base.err is None,
            res.val is None,
    {
        Self { base: BaseCmd::new(args), val: None }
    }

    /// Stores the text of a string reply; a nil reply leaves the value as it is.
    pub fn parse(&mut self, v: Value) -> (res: Result<(), Error>)
        ensures
            final(self).base == old(self).base,
            v@ is Nil ==> res is Ok && final(self).val == old(self).val,
            is_text(v@) ==> res is Ok && view_opt_str(final(self).val) == Some(text_of(v@)),
            !(v@ is Nil) && !is_text(v@) ==> final(self).val == old(self).val && (res matches Err(e)
                && e@ == SpecError::Redis("expected string"@)),
    {
        match v {
            Value::Nil => Ok(()),
            Value::Status(s) => {
                self.val = Some(s);
                Ok(())
            },
            Value::BulkString(s) => {
                self.val = Some(s);
                Ok(())
            },
            _ => Err(redis_err("expected string")),
        }
    }

    pub fn result(&self) -> (res: Result<Option<String>, Error>)
        ensures
            view_opt_str_res(res) == cmd_outcome(self.base.err, Ok(view_opt_str(self.val))),
    {
        if let Some(e) = &self.base.err {
            return Err(e.clone());
        }
        match &self.val {
            Some(s) => Ok(Some(s.clone())),
            None => Ok(None),
        }
    }
}

/// The nanoseconds that a TTL-style integer reply stands for at the given
/// precision: a negative reply (no expiry, or no such key) gives zero.
pub open spec fn reply_nanos(i: i64, precision: Duration) -> int {
    if i < 0 {
        0
    } else {
        i * (duration_nanos(precision) as u64)
    }
}

/// Duration command (TTL, PTTL).
pub struct DurationCmd {
    pub base: BaseCmd,
    pub val: Option<Duration>,
    pub precision: Duration,
}

impl DurationCmd {
    pub fn new(precision: Duration, args: Vec<String>) -> (res: Self)
        ensures
            res.base.args == args,
            res.base.err is None,
            res.val is None,
            res.precision == precision,
    {
        Self { base: BaseCmd::new(args), val: None, precision }
    }

    /// Stores the duration of an integer reply counted in units of
    /// `precision`; a negative reply gives a zero duration.
    ///
    /// The product must fit in 64 bits of nanoseconds; `parse_checked`
    /// tests that first.
    pub fn parse(&mut self, v: Value) -> (res: Result<(), Error>)
        requires
            v@ matches SpecValue::Int(i) ==> reply_nanos(i, old(self).precision) <= u64::MAX,
        ensures
            final(self).base == old(self).base,
            final(self).precision == old(self).precision,
            match v@ {
                SpecValue::Int(i) => res is Ok && (final(self).val matches Some(d) && duration_nanos(d)
                    == reply_nanos(i, old(self).precision)),
                _ => final(self).val == old(self).val && (res matches Err(e) && e@ == SpecError::Redis(
                    "expected int"@,
                )),
            },
    {
        match v {
            Value::Int(i) => {
                let nanos: u64 = if i < 0 {
                    0
                } else {
                    let unit = duration_as_nanos(&self.precision) as u64;
                    (i as u64) * unit
                };
                self.val = Some(duration_from_nanos(nanos));
                Ok(())
            },
            _ => Err(redis_err("expected int")),
        }
    }

    /// `parse`, when the reply's duration fits in 64 bits of nanoseconds;
    /// `None`, with the command unchanged, when it does not.
    pub fn parse_checked(&mut self, v: Value) -> (res: Option<Result<(), Error>>)
        ensures
            match v@ {
                SpecValue::Int(i) => reply_nanos(i, old(self).precision) <= u64::MAX,
                _ => true,
            } ==> {
                &&& final(self).base == old(self).base
                &&& final(self).precision == old(self).precision
                &&& res matches Some(r)
                &&& match v@ {
                    SpecValue::Int(i) => r is Ok && (final(self).val matches Some(d) && duration_nanos(d)
                        == reply_nanos(i, old(self).precision)),
                    _ => final(self).val == old(self).val && (r matches Err(e) && e@ == SpecError::Redis(
                        "expected int"@,
                    )),
                }
            },
            !(match v@ {
                SpecValue::Int(i) => reply_nanos(i, old(self).precision) <= u64::MAX,
                _ => true,
            }) ==> res is None && *final(self) == *old(self),
    {
        if let Value::Int(i) = &v {
            if *i >= 0 {
                let unit = duration_as_nanos(&self.precision) as u64;
                if unit != 0 && (*i as u64) > u64::MAX / unit {
                    assert((*i as u64) * unit > u64::MAX) by (nonlinear_arith)
                        requires
                            unit != 0,
                            (*i as u64) > u64::MAX / unit,
                    ;
                    return None;
                }
                assert((*i as u64) * unit <= u64::MAX) by (nonlinear_arith)
                    requires
                        unit == 0 || (*i as u64) <= u64::MAX / unit,
                ;
            }
        }
        Some(self.parse(v))
    }

    pub fn result(&self) -> (res: Result<Duration, Error>)
        ensures
            view_err(res) == cmd_outcome(self.base.err, stored(self.val)),
    {
        if let Some(e) = &self.base.err {
            return Err(e.clone());
        }
        match self.val {
            Some(d) => Ok(d),
            None => Err(no_value()),
        }
    }
}

/// Every element is a string.
pub open spec fn all_texts(s: Seq<SpecValue>) -> bool {
    forall|i: int| 0 <= i < s.len() ==> is_text(#[trigger] s[i])
}

/// Every element is an integer.
pub open spec fn all_ints(s: Seq<SpecValue>) -> bool {
    forall|i: int| 0 <= i < s.len() ==> (#[trigger] s[i]) is Int
}

/// Each integer element read as a flag: 1 is true, anything else false.
pub open spec fn flags_of(s: Seq<SpecValue>) -> Seq<bool> {
    s.map_values(
        |v: SpecValue|
            match v {
                SpecValue::Int(i) => i == 1,
                _ => false,
            },
    )
}

/// Whether every element of the array is a string.
fn texts_only(arr: &Vec<Value>) -> (res: bool)
    ensures
        res == all_texts(view_values(arr@)),
{
    proof {
        lemma_view_values_len(arr@);
    }
    let ghost vs = view_values(arr@);
    let mut i: usize = 0;
    while i < arr.len()
        invariant
            0 <= i <= arr@.len(),
            vs == view_values(arr@),
            vs.len() == arr@.len(),
            forall|k: int| 0 <= k < arr@.len() ==> #[trigger] vs[k] == view_value(arr@[k]),
            forall|k: int| 0 <= k < i ==> is_text(#[trigger] vs[k]),
        decreases arr@.len() - i,
    {
        match &arr[i] {
            Value::Status(_) | Value::BulkString(_) => {},
            _ => {
                assert(!is_text(vs[i as int]));
                return false;
            },
        }
        i = i + 1;
    }
    true
}

/// String slice command.
pub struct StringSliceCmd {
    pub base: BaseCmd,
    pub val: Option<Vec<String>>,
}

/// An optional list of strings taken by its view.
pub open spec fn view_opt_strs(v: Option<Vec<String>>) -> Option<Seq<Seq<char>>> {
    match v {
        Some(x) => Some(string_views(x@)),
        None => None,
    }
}

/// A stored list, or the empty list when there is none.
pub open spec fn stored_or_empty<T>(v: Option<Seq<T>>) -> Seq<T> {
    match v {
        Some(x) => x,
        None => Seq::empty(),
    }
}

/// A copy of a list of strings.
fn clone_strings(v: &Vec<String>) -> (res: Vec<String>)
    ensures
        res@ == v@,
{
    let mut out: Vec<String> = Vec::new();
    let mut i: usize = 0;
    while i < v.len()
        invariant
            0 <= i <= v@.len(),
            out@ == v@.take(i as int),
        decreases v@.len() - i,
    {
        out.push(v[i].clone());
        i = i + 1;
        assert(out@ =~= v@.take(i as int));
    }
    assert(v@.take(i as int) =~= v@);
    out
}

impl StringSliceCmd {
    pub fn new(args: Vec<String>) -> (res: Self)
        ensures
            res.base.args == args,
            res.base.err is None,
            res.val is None,
    {
        Self { base: BaseCmd::new(args), val: None }
    }

    /// Stores the texts of an array reply whose elements are all strings.
    pub fn parse(&mut self, v: Value) -> (res: Result<(), Error>)
        ensures
            final(self).base == old(self).base,
            match v@ {
                SpecValue::Array(a) => if all_texts(a) {
                    res is Ok && view_opt_strs(final(self).val) == Some(texts_in(a))
                } else {
                    final(self).val == old(self).val && (res matches Err(e) && e@ == SpecError::Redis(
                        "expected string"@,
                    ))
                },
                _ => final(self).val == old(self).val && (res matches Err(e) && e@ == SpecError::Redis(
                    "expected array"@,
                )),
            },
    {
        match v {
            Value::Array(arr) => {
                if !texts_only(&arr) {
                    return Err(redis_err("expected string"));
                }
                self.val = Some(array_to_strings(arr));
                Ok(())
            },
            _ => Err(redis_err("expected array")),
        }
    }

    pub fn result(&self) -> (res: Result<Vec<String>, Error>)
        ensures
            view_strs_result(res) == cmd_outcome(
                self.base.err,
                Ok(stored_or_empty(view_opt_strs(self.val))),
            ),
    {
        if let Some(e) = &self.base.err {
            return Err(e.clone());
        }
        match &self.val {
            Some(v) => Ok(clone_strings(v)),
            None => {
                let out: Vec<String> = Vec::new();
                assert(string_views(out@) =~= Seq::<Seq<char>>::empty());
                Ok(out)
            },
        }
    }
}

/// A copy of a list of values.
fn clone_values(a: &Vec<Value>) -> (res: Vec<Value>)
    ensures
        view_values(res@) == view_values(a@),
{
    proof {
        lemma_view_values_len(a@);
    }
    let mut out: Vec<Value> = Vec::new();
    let mut i: usize = 0;
    while i < a.len()
        invariant
            0 <= i <= a@.len(),
            view_values(out@) == view_values(a@).take(i as int),
            view_values(a@).len() == a@.len(),
            forall|k: int| 0 <= k < a@.len() ==> #[trigger] view_values(a@)[k] == view_value(a@[k]),
        decreases a@.len() - i,
    {
        let v = a[i].clone();
        proof {
            lemma_view_values_push(out@, v);
        }
        out.push(v);
        i = i + 1;
        assert(view_values(out@) =~= view_values(a@).take(i as int));
    }
    assert(view_values(a@).take(i as int) =~= view_values(a@));
    out
}

/// Slice command (generic interface).
pub struct SliceCmd {
    pub base: BaseCmd,
    pub val: Option<Vec<Value>>,
}

/// An optional list of values taken by its view.
pub open spec fn view_opt_values(v: Option<Vec<Value>>) -> Option<Seq<SpecValue>> {
    match v {
        Some(x) => Some(view_values(x@)),
        None => None,
    }
}

impl SliceCmd {
    pub fn new(args: Vec<String>) -> (res: Self)
        ensures
            res.base.args == args,
            res.base.err is None,
            res.val is None,
    {
        Self { base: BaseCmd::new(args), val: None }
    }

    /// Stores the elements of an array reply.
    pub fn parse(&mut self, v: Value) -> (res: Result<(), Error>)
        ensures
            final(self).base == old(self).base,
            match v@ {
                SpecValue::Array(a) => res is Ok && view_opt_values(final(self).val) == Some(a),
                _ => final(self).val == old(self).val && (res matches Err(e) && e@ == SpecError::Redis(
                    "expected array"@,
                )),
            },
    {
        match v {
            Value::Array(arr) => {
                self.val = Some(arr);
                Ok(())
            },
            _ => Err(redis_err("expected array")),
        }
    }

    pub fn result(&self) -> (res: Result<Vec<Value>, Error>)
        ensures
            view_values_result(res) == cmd_outcome(
                self.base.err,
                Ok(stored_or_empty(view_opt_values(self.val))),
            ),
    {
        if let Some(e) = &self.base.err {
            return Err(e.clone());
        }
        match &self.val {
            Some(v) => Ok(clone_values(v)),
            None => {
                let out: Vec<Value> = Vec::new();
                assert(view_values(out@) =~= Seq::<SpecValue>::empty());
                Ok(out)
            },
        }
    }
}

/// For an array of integers, whether each one is 1; `None` when some
/// element is not an integer.
fn flags_in(arr: &Vec<Value>) -> (res: Option<Vec<bool>>)
    ensures
        match res {
            Some(vals) => all_ints(view_values(arr@)) && vals@ == flags_of(view_values(arr@)),
            None => !all_ints(view_values(arr@)),
        },
{
    proof {
        lemma_view_values_len(arr@);
    }
    let ghost vs = view_values(arr@);
    let mut vals: Vec<bool> = Vec::new();
    let mut i: usize = 0;
    while i < arr.len()
        invariant
            0 <= i <= arr@.len(),
            vs == view_values(arr@),
            vs.len() == arr@.len(),
            forall|k: int| 0 <= k < arr@.len() ==> #[trigger] vs[k] == view_value(arr@[k]),
            forall|k: int| 0 <= k < i ==> (#[trigger] vs[k]) is Int,
            vals@ == flags_of(vs.take(i as int)),
        decreases arr@.len() - i,
    {
        match &arr[i] {
            Value::Int(n) => {
                vals.push(*n == 1);
            },
            _ => {
                assert(!(vs[i as int] is Int));
                return None;
            },
        }
        i = i + 1;
        assert(vals@ =~= flags_of(vs.take(i as int)));
    }
    assert(vs.take(i as int) =~= vs);
    Some(vals)
}

/// Bool slice command.
pub struct BoolSliceCmd {
    pub base: BaseCmd,
    pub val: Option<Vec<bool>>,
}

/// An optional list of flags taken by its view.
pub open spec fn view_opt_flags(v: Option<Vec<bool>>) -> Option<Seq<bool>> {
    match v {
        Some(x) => Some(x@),
        None => None,
    }
}

/// A list-of-flags result taken by its view.
pub open spec fn view_flags_result(r: Result<Vec<bool>, Error>) -> Result<Seq<bool>, SpecError> {
    match r {
        Ok(v) => Ok(v@),
        Err(e) => Err(e@),
    }
}

impl BoolSliceCmd {
    pub fn new(args: Vec<String>) -> (res: Self)
        ensures
            res.base.args == args,
            res.base.err is None,
            res.val is None,
    {
        Self { base: BaseCmd::new(args), val: None }
    }

    /// Stores, for an array reply of integers, whether each one is 1.
    pub fn parse(&mut self, v: Value) -> (res: Result<(), Error>)
        ensures
            final(self).base == old(self).base,
            match v@ {
                SpecValue::Array(a) => if all_ints(a) {
                    res is Ok && view_opt_flags(final(self).val) == Some(flags_of(a))
                } else {
                    final(self).val == old(self).val && (res matches Err(e) && e@ == SpecError::Redis(
                        "expected int"@,
                    ))
                },
                _ => final(self).val == old(self).val && (res matches Err(e) && e@ == SpecError::Redis(
                    "expected array"@,
                )),
            },
    {
        match v {
            Value::Array(arr) => match flags_in(&arr) {
                Some(vals) => {
                    self.val = Some(vals);
                    Ok(())
                },
                None => Err(redis_err("expected int")),
            },
            _ => Err(redis_err("expected array")),
        }
    }

    pub fn result(&self) -> (res: Result<Vec<bool>, Error>)
        ensures
            view_flags_result(res) == cmd_outcome(
                self.base.err,
                Ok(stored_or_empty(view_opt_flags(self.val))),
            ),
    {
        if let Some(e) = &self.base.err {
            return Err(e.clone());
        }
        match &self.val {
            Some(v) => Ok(v.clone()),
            None => Ok(Vec::new()),
        }
    }
}

/// Whether every element that belongs to a pair is a string.
pub fn pairs_are_texts(arr: &Vec<Value>) -> (res: bool)
    ensures
        res == paired_texts(view_values(arr@)),
{
    proof {
        lemma_view_values_len(arr@);
    }
    let ghost vs = view_values(arr@);
    let n = arr.len() - arr.len() % 2;
    let mut i: usize = 0;
    while i < n
        invariant
            0 <= i <= n,
            n == 2 * (arr@.len() / 2),
            vs == view_values(arr@),
            vs.len() == arr@.len(),
            forall|k: int| 0 <= k < arr@.len() ==> #[trigger] vs[k] == view_value(arr@[k]),
            forall|k: int| 0 <= k < i ==> is_text(#[trigger] vs[k]),
        decreases n - i,
    {
        match &arr[i] {
            Value::Status(_) | Value::BulkString(_) => {},
            _ => {
                assert(!is_text(vs[i as int]));
                return false;
            },
        }
        i = i + 1;
    }
    true
}

/// String map command (HGETALL).
pub struct StringMapCmd {
    pub base: BaseCmd,
    pub val: Option<StringMap>,
}

/// An optional map taken by its view.
pub open spec fn view_opt_map(v: Option<StringMap>) -> Option<Map<Seq<char>, Seq<char>>> {
    match v {
        Some(m) => Some(m@),
        None => None,
    }
}

impl StringMapCmd {
    pub fn new(args: Vec<String>) -> (res: Self)
        ensures
            res.base.args == args,
            res.base.err is None,
            res.val is None,
    {
        Self { base: BaseCmd::new(args), val: None }
    }

    /// Stores the field/value map of a flat `[k1, v1, k2, v2, ...]` array
    /// reply; a later pair with the same field replaces an earlier one, and a
    /// trailing odd element is left out.
    pub fn parse(&mut self, v: Value) -> (res: Result<(), Error>)
        ensures
            final(self).base == old(self).base,
            match v@ {
                SpecValue::Array(a) => if paired_texts(a) {
                    res is Ok && view_opt_map(final(self).val) == Some(map_of_pairs(pairs_in(a)))
                } else {
                    final(self).val == old(self).val && (res matches Err(e) && e@ == SpecError::Redis(
                        "expected string"@,
                    ))
                },
                _ => final(self).val == old(self).val && (res matches Err(e) && e@ == SpecError::Redis(
                    "expected array"@,
                )),
            },
    {
        match v {
            Value::Array(arr) => {
                if !pairs_are_texts(&arr) {
                    return Err(redis_err("expected string"));
                }
                self.val = Some(array_to_string_map(arr));
                Ok(())
            },
            _ => Err(redis_err("expected array")),
        }
    }

    pub fn result(&self) -> (res: Result<StringMap, Error>)
        ensures
            view_map_result(res) == cmd_outcome(
                self.base.err,
                Ok(
                    match view_opt_map(self.val) {
                        Some(m) => m,
                        None => Map::empty(),
                    },
                ),
            ),
    {
        if let Some(e) = &self.base.err {
            return Err(e.clone());
        }
        match &self.val {
            Some(m) => Ok(m.clone()),
            None => Ok(StringMap::new()),
        }
    }
}

/// The cursor of a SCAN reply's first element: a string read as an integer,
/// or an integer; anything else (or a string that is no integer) gives none.
pub open spec fn scan_cursor(v: SpecValue) -> Option<i64> {
    match v {
        SpecValue::Status(s) => parse_i64_spec(encode_utf8(s)),
        SpecValue::BulkString(s) => parse_i64_spec(encode_utf8(s)),
        SpecValue::Int(i) => Some(i),
        _ => None,
    }
}

/// The keys of a SCAN reply's second element: the strings of an array,
/// others left out; anything but an array gives no keys.
pub open spec fn scan_keys(v: SpecValue) -> Seq<Seq<char>> {
    match v {
        SpecValue::Array(items) => texts_in(items),
        _ => Seq::empty(),
    }
}

/// Scan command.
pub struct ScanCmd {
    pub base: BaseCmd,
    pub cursor: Option<i64>,
    pub keys: Option<Vec<String>>,
}

/// A scan result taken by its view.
pub open spec fn view_scan_result(r: Result<(i64, Vec<String>), Error>) -> Result<(i64, Seq<Seq<char>>), SpecError> {
    match r {
        Ok((c, k)) => Ok((c, string_views(k@))),
        Err(e) => Err(e@),
    }
}

/// The integer a text stands for, if any.
fn text_int(s: &String) -> (res: Option<i64>)
    ensures
        res == parse_i64_spec(encode_utf8(s@)),
{
    let b = s.as_str().as_bytes();
    let r = parse_i64_at(b, 0, b.len());
    assert(b@.subrange(0, b@.len() as int) =~= b@);
    r
}

impl ScanCmd {
    pub fn new(args: Vec<String>) -> (res: Self)
        ensures
            res.base.args == args,
            res.base.err is None,
            res.cursor is None,
            res.keys is None,
    {
        Self { base: BaseCmd::new(args), cursor: None, keys: None }
    }

    /// Stores the cursor and keys of a `[cursor, [key, ...]]` reply.
    pub fn parse(&mut self, v: Value) -> (res: Result<(), Error>)
        ensures
            final(self).base == old(self).base,
            match v@ {
                SpecValue::Array(a) => if a.len() >= 2 {
                    &&& res is Ok
                    &&& final(self).cursor == scan_cursor(a[0])
                    &&& view_opt_strs(final(self).keys) == Some(scan_keys(a[1]))
                } else {
                    &&& final(self).cursor == old(self).cursor
                    &&& final(self).keys == old(self).keys
                    &&& res matches Err(e) && e@ == SpecError::Redis("invalid scan reply"@)
                },
                _ => {
                    &&& final(self).cursor == old(self).cursor
                    &&& final(self).keys == old(self).keys
                    &&& res matches Err(e) && e@ == SpecError::Redis("expected array"@)
                },
            },
    {
        match v {
            Value::Array(arr) => {
                proof {
                    lemma_view_values_len(arr@);
                }
                if arr.len() < 2 {
                    return Err(redis_err("invalid scan reply"));
                }
                let mut arr = arr;
                let ghost a = view_values(arr@);
                let second = arr.remove(1);
                let first = arr.remove(0);
                assert(a[0] == first@ && a[1] == second@);
                self.cursor = match &first {
                    Value::Status(s) | Value::BulkString(s) => text_int(s),
                    Value::Int(i) => Some(*i),
                    _ => None,
                };
                let keys = match second {
                    Value::Array(items) => array_to_strings(items),
                    _ => {
                        let none: Vec<String> = Vec::new();
                        assert(string_views(none@) =~= Seq::<Seq<char>>::empty());
                        none
                    },
                };
                self.keys = Some(keys);
                Ok(())
            },
            _ => Err(redis_err("expected array")),
        }
    }

    pub fn result(&self) -> (res: Result<(i64, Vec<String>), Error>)
        ensures
            view_scan_result(res) == cmd_outcome(
                self.base.err,
                Ok(
                    (
                        match self.cursor {
                            Some(c) => c,
                            None => 0,
                        },
                        stored_or_empty(view_opt_strs(self.keys)),
                    ),
                ),
            ),
    {
        if let Some(e) = &self.base.err {
            return Err(e.clone());
        }
        let cursor = match self.cursor {
            Some(c) => c,
            None => 0,
        };
        let keys = match &self.keys {
            Some(k) => clone_strings(k),
            None => {
                let none: Vec<String> = Vec::new();
                assert(string_views(none@) =~= Seq::<Seq<char>>::empty());
                none
            },
        };
        Ok((cursor, keys))
    }
}

/// Both elements of the `k`-th pair of a flat array are strings.
pub open spec fn text_pair(s: Seq<SpecValue>, k: int) -> bool {
    is_text(s[2 * k]) && is_text(s[2 * k + 1])
}

/// The leading pairs of a flat `[m1, s1, m2, s2, ...]` array, up to the first
/// pair with an element that is not a string; the flag tells whether the scan
/// stopped at such a pair. A sorted-set reply is read this way before its
/// scores are parsed.
pub fn text_pairs_prefix(arr: Vec<Value>) -> (res: (Vec<(String, String)>, bool))
    ensures
        res.0@.len() <= view_values(arr@).len() / 2,
        pair_views(res.0@) == pairs_in(view_values(arr@)).take(res.0@.len() as int),
        forall|k: int| 0 <= k < res.0@.len() ==> #[trigger] text_pair(view_values(arr@), k),
        res.1 <==> res.0@.len() < view_values(arr@).len() / 2,
        res.1 ==> !text_pair(view_values(arr@), res.0@.len() as int),
{
    proof {
        lemma_view_values_len(arr@);
    }
    let ghost vs = view_values(arr@);
    let ghost ps = pairs_in(vs);
    let mut out: Vec<(String, String)> = Vec::new();
    let mut i: usize = 0;
    while arr.len() - i >= 2
        invariant
            vs == view_values(arr@),
            ps == pairs_in(vs),
            vs.len() == arr@.len(),
            forall|k: int| 0 <= k < arr@.len() ==> #[trigger] vs[k] == view_value(arr@[k]),
            i % 2 == 0,
            i <= arr@.len(),
            out@.len() == i / 2,
            pair_views(out@) == ps.take(i as int / 2),
            forall|k: int| 0 <= k < out@.len() ==> #[trigger] text_pair(vs, k),
        decreases arr@.len() - i,
    {
        let m = value_text(&arr[i]);
        let sc = value_text(&arr[i + 1]);
        match (m, sc) {
            (Some(a), Some(b)) => {
                let ghost before = out@;
                out.push((a, b));
                proof {
                    assert(ps[i as int / 2] == (text_of(vs[i as int]), text_of(vs[i + 1])));
                    assert(pair_views(out@) =~= pair_views(before).push((a@, b@)));
                    assert(ps.take(i as int / 2 + 1) =~= ps.take(i as int / 2).push(ps[i as int / 2]));
                    assert(text_pair(vs, i as int / 2));
                }
                i = i + 2;
                assert((i / 2) == (i - 2) / 2 + 1);
            },
            _ => {
                assert(!text_pair(vs, i as int / 2));
                return (out, true);
            },
        }
    }
    (out, false)
}

} // verus!
