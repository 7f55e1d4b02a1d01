//! RESP (Redis Serialization Protocol) encoder and decoder.

use crate::client::string_views;
use crate::error::{error_text, redis_error, Error, RedisError, SpecError};
use crate::text::{
    ascii_chars, ascii_string, bytes_contain, dec_digits, decimal_len, int_bytes, is_ascii_bytes, occurs_at,
    parse_i64_at, parse_i64_spec, parse_usize_at, parse_usize_spec, push_decimal, str_contains,
    string_from_utf8, string_from_utf8_lossy, utf8_lossy,
};
use vstd::prelude::*;
use vstd::slice::{slice_subrange, slice_to_vec};
use vstd::string::StringSliceAdditionalSpecFns;
use vstd::utf8::*;

verus! {

/// Parsed Redis reply value.
#[derive(Debug)]
pub enum Value {
    /// Nil (key does not exist, etc.)
    Nil,
    /// Simple string, e.g. `+OK`
    Status(String),
    /// Integer, e.g. `:42`
    Int(i64),
    /// Bulk string, e.g. `$5\r\nhello`
    BulkString(String),
    /// Array, e.g. `*2\r\n$3\r\nfoo\r\n$3\r\nbar`
    Array(Vec<Value>),
}

/// Mathematical model of a reply value.
pub enum SpecValue {
    Nil,
    Status(Seq<char>),
    Int(i64),
    BulkString(Seq<char>),
    Array(Seq<SpecValue>),
}

pub open spec fn view_values(vs: Seq<Value>) -> Seq<SpecValue>
    decreases vs,
{
    if vs.len() == 0 {
        Seq::empty()
    } else {
        view_values(vs.subrange(0, vs.len() - 1)).push(view_value(vs[vs.len() - 1]))
    }
}

pub open spec fn view_value(v: Value) -> SpecValue
    decreases v,
{
    match v {
        Value::Nil => SpecValue::Nil,
        Value::Status(s) => SpecValue::Status(s@),
        Value::Int(i) => SpecValue::Int(i),
        Value::BulkString(s) => SpecValue::BulkString(s@),
        Value::Array(a) => SpecValue::Array(view_values(a@)),
    }
}

impl View for Value {
    type V = SpecValue;

    open spec fn view(&self) -> SpecValue {
        view_value(*self)
    }
}


impl Clone for Value {
    fn clone(&self) -> (res: Self)
        ensures
            res@ == self@,
        decreases self,
    {
        match self {
            Value::Nil => Value::Nil,
            Value::Status(s) => Value::Status(s.clone()),
            Value::Int(i) => Value::Int(*i),
            Value::BulkString(s) => Value::BulkString(s.clone()),
            Value::Array(a) => {
                let mut out: Vec<Value> = Vec::new();
                let mut i: usize = 0;
                proof {
                    lemma_view_values_len(a@);
                }
                while i < a.len()
                    invariant
                        0 <= i <= a@.len(),
                        view_values(out@) == view_values(a@).take(i as int),
                        view_values(a@).len() == a@.len(),
                        forall|k: int| 0 <= k < a@.len() ==> #[trigger] view_values(a@)[k] == view_value(a@[k]),
                        *self is Array,
                        (*self)->Array_0 == *a,
                    decreases a@.len() - i,
                {
                    assert(*a == (*self)->Array_0);
                    assert(decreases_to!(*self => (*self)->Array_0));
                    assert(decreases_to!((*self)->Array_0 => (*self)->Array_0@));
                    assert(decreases_to!((*self)->Array_0@ => (*self)->Array_0@[i as int]));
                    assert(decreases_to!(*self => a@[i as int]));
                    let v = a[i].clone();
                    proof {
                        lemma_view_values_push(out@, v);
                    }
                    out.push(v);
                    i = i + 1;
                    assert(view_values(out@) =~= view_values(a@).take(i as int));
                }
                assert(view_values(a@).take(i as int) =~= view_values(a@));
                Value::Array(out)
            },
        }
    }
}

/// The line terminator.
pub open spec fn crlf() -> Seq<u8> {
    seq![13u8, 10u8]
}

/// A bulk string frame: `$<len>\r\n<data>\r\n`.
pub open spec fn bulk_frame(data: Seq<u8>) -> Seq<u8> {
    seq![36u8] + dec_digits(data.len()) + crlf() + data + crlf()
}

/// The bulk string frames of the arguments, in order.
pub open spec fn bulk_frames(args: Seq<Seq<char>>) -> Seq<u8>
    decreases args.len(),
{
    if args.len() == 0 {
        Seq::empty()
    } else {
        bulk_frames(args.drop_last()) + bulk_frame(encode_utf8(args.last()))
    }
}

/// A command in RESP: `*<n>\r\n` followed by one bulk string per argument.
pub open spec fn command_bytes(args: Seq<Seq<char>>) -> Seq<u8> {
    seq![42u8] + dec_digits(args.len()) + crlf() + bulk_frames(args)
}

/// The texts of a slice of string slices.
pub open spec fn str_views(args: Seq<&str>) -> Seq<Seq<char>> {
    args.map_values(|s: &str| s@)
}

/// `bytes::BufMut::put_u8` on a `Vec<u8>`: appends one byte (through
/// `put_slice`, which is `extend_from_slice`). Claimed: the byte is pushed at
/// the end. It panics when the vector would exceed `isize::MAX` bytes, which
/// `requires` excludes.
#[verifier::external_body]
fn put_u8(buf: &mut Vec<u8>, b: u8)
    requires
        old(buf)@.len() < isize::MAX,
    ensures
        final(buf)@ == old(buf)@.push(b),
{
    bytes::BufMut::put_u8(buf, b)
}

/// Appends all of `data` to `buf`.
fn push_bytes(buf: &mut Vec<u8>, data: &[u8])
    ensures
        final(buf)@ == old(buf)@ + data@,
{
    let mut i: usize = 0;
    while i < data.len()
        invariant
            0 <= i <= data@.len(),
            buf@ == old(buf)@ + data@.take(i as int),
        decreases data@.len() - i,
    {
        buf.push(data[i]);
        i = i + 1;
        assert(buf@ =~= old(buf)@ + data@.take(i as int));
    }
    assert(data@.take(i as int) =~= data@);
}

pub proof fn lemma_bulk_frames_take(args: Seq<Seq<char>>, k: int)
    requires
        0 <= k < args.len(),
    ensures
        bulk_frames(args.take(k + 1)) == bulk_frames(args.take(k)) + bulk_frame(
            encode_utf8(args[k]),
        ),
{
    assert(args.take(k + 1).drop_last() =~= args.take(k));
}

pub proof fn lemma_bulk_frames_prefix_len(args: Seq<Seq<char>>, k: int)
    requires
        0 <= k <= args.len(),
    ensures
        bulk_frames(args.take(k)).len() <= bulk_frames(args).len(),
    decreases args.len() - k,
{
    if k < args.len() {
        lemma_bulk_frames_take(args, k);
        lemma_bulk_frames_prefix_len(args, k + 1);
    } else {
        assert(args.take(k) =~= args);
    }
}

/// Serialize command arguments to RESP format and append to buffer.
///
/// Format: `*<n>\r\n` followed by n `$<len>\r\n<data>\r\n` segments.
pub fn append_args(buf: &mut Vec<u8>, args: &[&str])
    requires
        old(buf)@.len() + command_bytes(str_views(args@)).len() <= isize::MAX,
    ensures
        final(buf)@ == old(buf)@ + command_bytes(str_views(args@)),
{
    let ghost views = str_views(args@);
    let ghost start = buf@;
    proof {
        lemma_bulk_frames_prefix_len(views, 0);
    }
    put_u8(buf, 42u8);
    push_decimal(buf, args.len() as u64);
    buf.push(13u8);
    buf.push(10u8);
    let ghost header = buf@;
    assert(header == start + seq![42u8] + dec_digits(args@.len()) + crlf());
    let mut i: usize = 0;
    while i < args.len()
        invariant
            0 <= i <= args@.len(),
            views == str_views(args@),
            views.len() == args@.len(),
            buf@ == header + bulk_frames(views.take(i as int)),
            header.len() + bulk_frames(views).len() <= isize::MAX,
        decreases args@.len() - i,
    {
        let s: &str = args[i];
        let bytes = s.as_bytes();
        proof {
            lemma_bulk_frames_take(views, i as int);
            lemma_bulk_frames_prefix_len(views, i + 1);
            assert(views[i as int] == s@);
        }
        put_u8(buf, 36u8);
        push_decimal(buf, bytes.len() as u64);
        buf.push(13u8);
        buf.push(10u8);
        push_bytes(buf, bytes);
        buf.push(13u8);
        buf.push(10u8);
        i = i + 1;
        assert(buf@ =~= header + bulk_frames(views.take(i as int)));
    }
    assert(views.take(i as int) =~= views);
    assert(buf@ =~= start + command_bytes(views));
}


/// [`append_args`] for arguments held as owned strings.
pub fn append_command(buf: &mut Vec<u8>, args: &[String])
    requires
        old(buf)@.len() + command_bytes(string_views(args@)).len() <= isize::MAX,
    ensures
        final(buf)@ == old(buf)@ + command_bytes(string_views(args@)),
{
    let ghost views = string_views(args@);
    let ghost start = buf@;
    proof {
        lemma_bulk_frames_prefix_len(views, 0);
    }
    put_u8(buf, 42u8);
    push_decimal(buf, args.len() as u64);
    buf.push(13u8);
    buf.push(10u8);
    let ghost header = buf@;
    assert(header == start + seq![42u8] + dec_digits(args@.len()) + crlf());
    let mut i: usize = 0;
    while i < args.len()
        invariant
            0 <= i <= args@.len(),
            views == string_views(args@),
            views.len() == args@.len(),
            buf@ == header + bulk_frames(views.take(i as int)),
            header.len() + bulk_frames(views).len() <= isize::MAX,
        decreases args@.len() - i,
    {
        let bytes = args[i].as_str().as_bytes();
        proof {
            lemma_bulk_frames_take(views, i as int);
            lemma_bulk_frames_prefix_len(views, i + 1);
            assert(views[i as int] == args@[i as int]@);
        }
        put_u8(buf, 36u8);
        push_decimal(buf, bytes.len() as u64);
        buf.push(13u8);
        buf.push(10u8);
        push_bytes(buf, bytes);
        buf.push(13u8);
        buf.push(10u8);
        i = i + 1;
        assert(buf@ =~= header + bulk_frames(views.take(i as int)));
    }
    assert(views.take(i as int) =~= views);
    assert(buf@ =~= start + command_bytes(views));
}

/// The exact number of bytes that [`append_args`] appends for `args`.
pub fn estimate_resp_size(args: &[&str]) -> (res: usize)
    requires
        command_bytes(str_views(args@)).len() <= usize::MAX,
    ensures
        res == command_bytes(str_views(args@)).len(),
{
    let ghost views = str_views(args@);
    proof {
        lemma_bulk_frames_prefix_len(views, 0);
    }
    let mut total: usize = 3 + decimal_len(args.len() as u64);
    let mut i: usize = 0;
    while i < args.len()
        invariant
            0 <= i <= args@.len(),
            views == str_views(args@),
            views.len() == args@.len(),
            total == 1 + dec_digits(args@.len() as nat).len() + 2 + bulk_frames(views.take(i as int)).len(),
            1 + dec_digits(args@.len() as nat).len() + 2 + bulk_frames(views).len() <= usize::MAX,
        decreases args@.len() - i,
    {
        let s: &str = args[i];
        let n = s.len();
        proof {
            lemma_bulk_frames_take(views, i as int);
            lemma_bulk_frames_prefix_len(views, i + 1);
            assert(views[i as int] == s@);
            assert(n == s.spec_bytes().len());
        }
        total = total + 1 + decimal_len(n as u64) + 2 + n + 2;
        i = i + 1;
    }
    assert(views.take(i as int) =~= views);
    total
}


/* Decoding */

/// Index of the first `b` in `s`, or -1.
pub open spec fn find_byte(s: Seq<u8>, b: u8) -> int
    decreases s.len(),
{
    if s.len() == 0 {
        -1
    } else if s[0] == b {
        0
    } else {
        let r = find_byte(s.drop_first(), b);
        if r < 0 {
            -1
        } else {
            r + 1
        }
    }
}

pub proof fn lemma_find_byte(s: Seq<u8>, b: u8)
    ensures
        -1 <= find_byte(s, b) < s.len(),
        find_byte(s, b) >= 0 ==> s[find_byte(s, b)] == b,
        forall|j: int| 0 <= j < s.len() && (find_byte(s, b) < 0 || j < find_byte(s, b)) ==> s[j] != b,
    decreases s.len(),
{
    if s.len() > 0 && s[0] != b {
        lemma_find_byte(s.drop_first(), b);
        assert forall|j: int| 0 <= j < s.len() && (find_byte(s, b) < 0 || j < find_byte(s, b)) implies s[j] != b by {
            if j > 0 {
                assert(s[j] == s.drop_first()[j - 1]);
            }
        }
    }
}

/// A line read from the front of the input.
pub enum LineRead {
    /// More input is needed to find the end of the line.
    Incomplete,
    /// The input ended before any byte of the line.
    Eof,
    /// The line (without its terminator) and the number of bytes it took.
    Line(Seq<u8>, nat),
}

/// Drops one trailing `\r`.
pub open spec fn strip_cr(l: Seq<u8>) -> Seq<u8> {
    if l.len() > 0 && l.last() == 13 {
        l.drop_last()
    } else {
        l
    }
}

/// Reads a line up to `\n`, dropping `\r\n` or `\n`; at the end of input a
/// final line without terminator is taken as it is.
pub open spec fn line_spec(s: Seq<u8>, eof: bool) -> LineRead {
    let i = find_byte(s, 10);
    if i >= 0 {
        LineRead::Line(strip_cr(s.take(i)), (i + 1) as nat)
    } else if !eof {
        LineRead::Incomplete
    } else if s.len() == 0 {
        LineRead::Eof
    } else {
        LineRead::Line(s, s.len())
    }
}

pub proof fn lemma_line_spec(s: Seq<u8>, eof: bool)
    ensures
        line_spec(s, eof) matches LineRead::Line(_, c) ==> 0 < c <= s.len(),
{
    lemma_find_byte(s, 10);
}

/// The outcome of decoding from the front of the input.
pub enum SpecStep<T> {
    /// More input is needed.
    Incomplete,
    /// The decoded result and the number of bytes consumed.
    Done(Result<T, SpecError>, nat),
}

/// The list of numbers that `{:?}` shows for a byte vector, without brackets.
pub open spec fn debug_list(l: Seq<u8>) -> Seq<u8>
    decreases l.len(),
{
    if l.len() == 0 {
        Seq::empty()
    } else if l.len() == 1 {
        dec_digits(l[0] as nat)
    } else {
        debug_list(l.drop_last()) + seq![44u8, 32u8] + dec_digits(l.last() as nat)
    }
}

/// What `{:?}` shows for a byte vector, e.g. `[43, 79]`.
pub open spec fn debug_bytes(l: Seq<u8>) -> Seq<u8> {
    seq![91u8] + debug_list(l) + seq![93u8]
}

/// Errors that an array element turns into a nil element: those whose text
/// contains `nil`.
pub open spec fn nil_like(e: SpecError) -> bool {
    match e {
        SpecError::Nil => true,
        _ => bytes_contain(encode_utf8(error_text(e)), "nil".spec_bytes()),
    }
}

/// Decoding a bulk string whose header line was `$` followed by `rest`,
/// taking `c` bytes.
pub open spec fn bulk_spec(s: Seq<u8>, eof: bool, rest: Seq<u8>, c: nat) -> SpecStep<SpecValue> {
    if rest == seq![45u8, 49u8] {
        SpecStep::Done(Err(SpecError::Nil), c)
    } else {
        match parse_usize_spec(rest) {
            None => SpecStep::Done(Err(SpecError::Redis("invalid length"@)), c),
            Some(n) => {
                let after = s.skip(c as int);
                if after.len() >= n + 2 {
                    let data = after.take(n as int);
                    if valid_utf8(data) {
                        SpecStep::Done(Ok(SpecValue::BulkString(decode_utf8(data))), (c + n + 2) as nat)
                    } else {
                        SpecStep::Done(Err(SpecError::Redis("invalid utf8"@)), (c + n + 2) as nat)
                    }
                } else if !eof {
                    SpecStep::Incomplete
                } else {
                    SpecStep::Done(Err(SpecError::Redis("unexpected EOF"@)), s.len())
                }
            },
        }
    }
}

/// Wraps decoded array elements into an array value.
pub open spec fn to_array(step: SpecStep<Seq<SpecValue>>, c: nat) -> SpecStep<SpecValue> {
    match step {
        SpecStep::Incomplete => SpecStep::Incomplete,
        SpecStep::Done(Ok(vs), c2) => SpecStep::Done(Ok(SpecValue::Array(vs)), c + c2),
        SpecStep::Done(Err(e), c2) => SpecStep::Done(Err(e), c + c2),
    }
}

/// Decoding one reply from the front of `s`; `eof` tells whether `s` is all
/// the input there will be.
pub open spec fn reply_spec(s: Seq<u8>, eof: bool) -> SpecStep<SpecValue>
    decreases s.len(), 0nat, 0nat,
{
    match line_spec(s, eof) {
        LineRead::Incomplete => SpecStep::Incomplete,
        LineRead::Eof => SpecStep::Done(Err(SpecError::Redis("unexpected EOF"@)), 0),
        LineRead::Line(line, c) => {
            if line.len() == 0 {
                SpecStep::Done(Err(SpecError::Redis("empty reply"@)), c)
            } else {
                let tag = line[0];
                let rest = line.drop_first();
                if tag == 45 {
                    SpecStep::Done(Err(SpecError::Redis(utf8_lossy(rest))), c)
                } else if tag == 43 {
                    SpecStep::Done(Ok(SpecValue::Status(utf8_lossy(rest))), c)
                } else if tag == 58 {
                    match parse_i64_spec(rest) {
                        Some(v) => SpecStep::Done(Ok(SpecValue::Int(v)), c),
                        None => SpecStep::Done(Err(SpecError::Redis("invalid integer"@)), c),
                    }
                } else if tag == 36 {
                    bulk_spec(s, eof, rest, c)
                } else if tag == 42 {
                    if rest == seq![45u8, 49u8] {
                        SpecStep::Done(Err(SpecError::Nil), c)
                    } else {
                        match parse_i64_spec(rest) {
                            None => SpecStep::Done(Err(SpecError::Redis("invalid array length"@)), c),
                            Some(n) => {
                                proof {
                                    lemma_line_spec(s, eof);
                                }
                                let count: nat = if n < 0 { 0 } else { n as nat };
                                to_array(array_spec(s.skip(c as int), eof, count), c)
                            },
                        }
                    }
                } else {
                    SpecStep::Done(
                        Err(SpecError::Redis("can't parse "@ + ascii_chars(debug_bytes(line)))),
                        c,
                    )
                }
            }
        },
    }
}

/// Puts decoded elements `vs`, which took `c` bytes, in front of the rest.
pub open spec fn prepend(vs: Seq<SpecValue>, c: nat, step: SpecStep<Seq<SpecValue>>) -> SpecStep<
    Seq<SpecValue>,
> {
    match step {
        SpecStep::Incomplete => SpecStep::Incomplete,
        SpecStep::Done(Ok(ws), c2) => SpecStep::Done(Ok(vs + ws), c + c2),
        SpecStep::Done(Err(e), c2) => SpecStep::Done(Err(e), c + c2),
    }
}

/// Decoding `n` array elements from the front of `s`; an element whose error
/// is nil-like becomes a nil element.
pub open spec fn array_spec(s: Seq<u8>, eof: bool, n: nat) -> SpecStep<Seq<SpecValue>>
    decreases s.len(), 1nat, n,
{
    if n == 0 {
        SpecStep::Done(Ok(Seq::empty()), 0)
    } else {
        match reply_spec(s, eof) {
            SpecStep::Incomplete => SpecStep::Incomplete,
            SpecStep::Done(r, c) => {
                let elem: Result<SpecValue, SpecError> = match r {
                    Ok(v) => Ok(v),
                    Err(e) => if nil_like(e) {
                        Ok(SpecValue::Nil)
                    } else {
                        Err(e)
                    },
                };
                match elem {
                    Err(e) => SpecStep::Done(Err(e), c),
                    Ok(v) => if 0 < c <= s.len() {
                        prepend(seq![v], c, array_spec(s.skip(c as int), eof, (n - 1) as nat))
                    } else {
                        SpecStep::Done(Err(SpecError::Redis("unexpected EOF"@)), c)
                    },
                }
            },
        }
    }
}


/// The outcome of decoding one reply from the front of a buffer.
#[derive(Debug)]
pub enum ParseStep {
    /// More input is needed before the reply can be decoded.
    Incomplete,
    /// The decoded reply (or the error it stands for) and the number of
    /// bytes it took.
    Done(Result<Value, Error>, usize),
}

pub open spec fn view_result(r: Result<Value, Error>) -> Result<SpecValue, SpecError> {
    match r {
        Ok(v) => Ok(v@),
        Err(e) => Err(e@),
    }
}

impl View for ParseStep {
    type V = SpecStep<SpecValue>;

    open spec fn view(&self) -> SpecStep<SpecValue> {
        match self {
            ParseStep::Incomplete => SpecStep::Incomplete,
            ParseStep::Done(r, c) => SpecStep::Done(view_result(*r), *c as nat),
        }
    }
}

enum ArrayStep {
    Incomplete,
    Done(Result<Vec<Value>, Error>, usize),
}

impl View for ArrayStep {
    type V = SpecStep<Seq<SpecValue>>;

    closed spec fn view(&self) -> SpecStep<Seq<SpecValue>> {
        match self {
            ArrayStep::Incomplete => SpecStep::Incomplete,
            ArrayStep::Done(Ok(vs), c) => SpecStep::Done(Ok(view_values(vs@)), *c as nat),
            ArrayStep::Done(Err(e), c) => SpecStep::Done(Err(e@), *c as nat),
        }
    }
}

enum LineStep {
    Incomplete,
    Eof,
    /// The line is `buf[start..end]` and it took `consumed` bytes.
    Line(usize, usize, usize),
}

pub proof fn lemma_view_values_push(vs: Seq<Value>, v: Value)
    ensures
        view_values(vs.push(v)) == view_values(vs).push(view_value(v)),
{
    assert(vs.push(v).subrange(0, vs.len() as int) =~= vs);
}

pub proof fn lemma_view_values_len(vs: Seq<Value>)
    ensures
        view_values(vs).len() == vs.len(),
        forall|i: int| 0 <= i < vs.len() ==> #[trigger] view_values(vs)[i] == view_value(vs[i]),
    decreases vs.len(),
{
    if vs.len() > 0 {
        lemma_view_values_len(vs.subrange(0, vs.len() - 1));
    }
}

fn read_line_at(buf: &[u8], pos: usize, eof: bool) -> (res: LineStep)
    requires
        pos <= buf@.len(),
    ensures
        match res {
            LineStep::Incomplete => line_spec(buf@.skip(pos as int), eof) == LineRead::Incomplete,
            LineStep::Eof => line_spec(buf@.skip(pos as int), eof) == LineRead::Eof,
            LineStep::Line(start, end, c) => {
                &&& start == pos
                &&& pos <= end <= buf@.len()
                &&& line_spec(buf@.skip(pos as int), eof) == LineRead::Line(
                    buf@.subrange(start as int, end as int),
                    c as nat,
                )
            },
        },
{
    let ghost s = buf@.skip(pos as int);
    proof {
        lemma_find_byte(s, 10);
    }
    let mut j: usize = pos;
    while j < buf.len()
        invariant
            pos <= j <= buf@.len(),
            s == buf@.skip(pos as int),
            forall|k: int| pos <= k < j ==> buf@[k] != 10,
        decreases buf@.len() - j,
    {
        if buf[j] == 10 {
            proof {
                lemma_find_byte(s, 10);
                let i = find_byte(s, 10);
                assert(s[j - pos] == 10);
                if 0 <= i < j - pos {
                    assert(buf@[pos + i] == s[i]);
                }
                assert(i == j - pos);
            }
            let end: usize = if j > pos && buf[j - 1] == 13 { j - 1 } else { j };
            proof {
                let i = find_byte(s, 10);
                assert(s.take(i) =~= buf@.subrange(pos as int, j as int));
                if j > pos && buf@[j - 1] == 13 {
                    assert(strip_cr(s.take(i)) =~= buf@.subrange(pos as int, end as int));
                } else {
                    assert(strip_cr(s.take(i)) =~= buf@.subrange(pos as int, end as int));
                }
            }
            return LineStep::Line(pos, end, j - pos + 1);
        }
        j = j + 1;
    }
    proof {
        lemma_find_byte(s, 10);
        let i = find_byte(s, 10);
        if i >= 0 {
            assert(buf@[pos + i] == s[i]);
        }
        assert(i < 0);
    }
    if !eof {
        LineStep::Incomplete
    } else if pos == buf.len() {
        LineStep::Eof
    } else {
        assert(s =~= buf@.subrange(pos as int, buf@.len() as int));
        LineStep::Line(pos, buf.len(), buf.len() - pos)
    }
}

pub proof fn lemma_debug_list_step(l: Seq<u8>, k: int)
    requires
        0 <= k < l.len(),
    ensures
        debug_list(l.take(k + 1)) == if k == 0 {
            dec_digits(l[0] as nat)
        } else {
            debug_list(l.take(k)) + seq![44u8, 32u8] + dec_digits(l[k] as nat)
        },
{
    assert(l.take(k + 1).drop_last() =~= l.take(k));
}

pub proof fn lemma_debug_list_ascii(l: Seq<u8>)
    ensures
        is_ascii_bytes(debug_list(l)),
    decreases l.len(),
{
    if l.len() == 1 {
        crate::text::lemma_dec_digits_ascii(l[0] as nat);
    } else if l.len() > 1 {
        lemma_debug_list_ascii(l.drop_last());
        crate::text::lemma_dec_digits_ascii(l.last() as nat);
        let a = debug_list(l.drop_last());
        let d = dec_digits(l.last() as nat);
        assert forall|i: int| 0 <= i < debug_list(l).len() implies #[trigger] debug_list(l)[i] < 128 by {
            if i < a.len() {
                assert(debug_list(l)[i] == a[i]);
            } else if i >= a.len() + 2 {
                assert(debug_list(l)[i] == d[i - a.len() - 2]);
            }
        }
    }
}

/// The text `{:?}` gives for `buf[start..end]`.
fn debug_bytes_of(buf: &[u8], start: usize, end: usize) -> (res: Vec<u8>)
    requires
        start <= end <= buf@.len(),
    ensures
        res@ == debug_bytes(buf@.subrange(start as int, end as int)),
        is_ascii_bytes(res@),
{
    let ghost l = buf@.subrange(start as int, end as int);
    let mut out: Vec<u8> = Vec::new();
    out.push(91u8);
    let mut k: usize = start;
    while k < end
        invariant
            start <= k <= end <= buf@.len(),
            l == buf@.subrange(start as int, end as int),
            out@ == seq![91u8] + debug_list(l.take(k - start)),
        decreases end - k,
    {
        proof {
            lemma_debug_list_step(l, k - start);
            assert(l[k - start] == buf@[k as int]);
        }
        if k > start {
            out.push(44u8);
            out.push(32u8);
        }
        push_decimal(&mut out, buf[k] as u64);
        k = k + 1;
        assert(out@ =~= seq![91u8] + debug_list(l.take(k - start)));
    }
    out.push(93u8);
    assert(l.take(end - start) =~= l);
    proof {
        lemma_debug_list_ascii(l);
        assert(out@ =~= debug_bytes(l));
        assert forall|i: int| 0 <= i < out@.len() implies #[trigger] out@[i] < 128 by {
            if 0 < i < out@.len() - 1 {
                assert(out@[i] == debug_list(l)[i - 1]);
            }
        }
    }
    out
}

/// Whether an array element with this error becomes a nil element.
fn is_nil_like(e: &Error) -> (res: bool)
    ensures
        res == nil_like(e@),
{
    match e {
        Error::Nil => true,
        _ => {
            let t = e.to_string();
            str_contains(t.as_str(), "nil")
        },
    }
}

fn redis_err(msg: &str) -> (res: Error)
    ensures
        res@ == SpecError::Redis(msg@),
{
    Error::Redis(redis_error(msg))
}


/// The end-of-input error is not nil-like.
pub proof fn lemma_eof_not_nil()
    ensures
        !nil_like(SpecError::Redis("unexpected EOF"@)),
{
    reveal_strlit("unexpected EOF");
    reveal_strlit("nil");
    let t = "unexpected EOF"@;
    let p = "nil"@;
    assert(is_ascii_chars(t));
    assert(is_ascii_chars(p));
    is_ascii_chars_encode_utf8(t);
    is_ascii_chars_encode_utf8(p);
    let tb = encode_utf8(t);
    let pb = encode_utf8(p);
    assert(error_text(SpecError::Redis(t)) == t);
    assert("nil".spec_bytes() == pb);
    if bytes_contain(tb, pb) {
        let i = choose|i: int| occurs_at(tb, pb, i);
        assert(tb.subrange(i, i + 3)[0] == pb[0]);
        assert(tb.subrange(i, i + 3)[1] == pb[1]);
        assert(tb[i] == 110u8);
        assert(tb[i + 1] == 105u8);
        assert(false);
    }
}

pub proof fn lemma_reply_consumed(s: Seq<u8>, eof: bool)
    ensures
        reply_spec(s, eof) matches SpecStep::Done(r, c) ==> {
            &&& c <= s.len()
            &&& c == 0 ==> r == Err::<SpecValue, SpecError>(SpecError::Redis("unexpected EOF"@))
        },
    decreases s.len(), 0nat, 0nat,
{
    lemma_line_spec(s, eof);
    if let LineRead::Line(line, c) = line_spec(s, eof) {
        if line.len() > 0 && line[0] == 42 {
            let rest = line.drop_first();
            if rest != seq![45u8, 49u8] {
                if let Some(n) = parse_i64_spec(rest) {
                    let count: nat = if n < 0 { 0 } else { n as nat };
                    lemma_array_consumed(s.skip(c as int), eof, count);
                }
            }
        }
    }
}

pub proof fn lemma_array_consumed(s: Seq<u8>, eof: bool, n: nat)
    ensures
        array_spec(s, eof, n) matches SpecStep::Done(_, c) ==> c <= s.len(),
    decreases s.len(), 1nat, n,
{
    if n > 0 {
        lemma_reply_consumed(s, eof);
        if let SpecStep::Done(r, c) = reply_spec(s, eof) {
            if 0 < c <= s.len() {
                lemma_array_consumed(s.skip(c as int), eof, (n - 1) as nat);
            }
        }
    }
}


pub proof fn lemma_prepend_push(vs: Seq<SpecValue>, a: nat, v: SpecValue, c: nat, x: SpecStep<Seq<SpecValue>>)
    ensures
        prepend(vs, a, prepend(seq![v], c, x)) == prepend(vs.push(v), a + c, x),
{
    match x {
        SpecStep::Done(Ok(ws), c2) => {
            assert(vs + (seq![v] + ws) =~= vs.push(v) + ws);
        },
        _ => {},
    }
}

fn parse_array_at(buf: &[u8], pos: usize, eof: bool, n: u64) -> (res: ArrayStep)
    requires
        pos <= buf@.len(),
    ensures
        res@ == array_spec(buf@.skip(pos as int), eof, n as nat),
    decreases buf@.len() - pos, 1nat, n,
{
    let mut vals: Vec<Value> = Vec::new();
    let mut p: usize = pos;
    let mut i: u64 = 0;
    proof {
        let x = array_spec(buf@.skip(pos as int), eof, n as nat);
        match x {
            SpecStep::Done(Ok(ws), c2) => {
                assert(view_values(vals@) + ws =~= ws);
            },
            _ => {},
        }
        assert(buf@.skip(pos as int) == buf@.skip(p as int));
    }
    let bl = buf.len();
    while i < n
        invariant
            bl == buf@.len(),
            pos <= p <= buf@.len(),
            i <= n,
            array_spec(buf@.skip(pos as int), eof, n as nat) == prepend(
                view_values(vals@),
                (p - pos) as nat,
                array_spec(buf@.skip(p as int), eof, (n - i) as nat),
            ),
        decreases n - i,
    {
        let ghost t = buf@.skip(p as int);
        let step = parse_reply_at(buf, p, eof);
        proof {
            lemma_reply_consumed(t, eof);
        }
        match step {
            ParseStep::Incomplete => {
                return ArrayStep::Incomplete;
            },
            ParseStep::Done(r, c) => {
                assert(c <= t.len());
                let elem: Result<Value, Error> = match r {
                    Ok(v) => Ok(v),
                    Err(e) => {
                        if is_nil_like(&e) {
                            Ok(Value::Nil)
                        } else {
                            Err(e)
                        }
                    },
                };
                match elem {
                    Err(e) => {
                        return ArrayStep::Done(Err(e), p - pos + c);
                    },
                    Ok(v) => {
                        proof {
                            if c == 0 {
                                lemma_eof_not_nil();
                            }
                            lemma_prepend_push(
                                view_values(vals@),
                                (p - pos) as nat,
                                v@,
                                c as nat,
                                array_spec(t.skip(c as int), eof, (n - i - 1) as nat),
                            );
                            lemma_view_values_push(vals@, v);
                            assert(t.skip(c as int) =~= buf@.skip(p + c));
                        }
                        vals.push(v);
                        p = p + c;
                        i = i + 1;
                    },
                }
            },
        }
    }
    proof {
        assert(view_values(vals@) + Seq::<SpecValue>::empty() =~= view_values(vals@));
    }
    ArrayStep::Done(Ok(vals), p - pos)
}

/// Decodes the bulk string whose header line is `buf[start..end]`, which
/// starts at `pos` and took `c` bytes.
fn parse_bulk_at(buf: &[u8], pos: usize, eof: bool, start: usize, end: usize, c: usize) -> (res: ParseStep)
    requires
        pos == start < end <= buf@.len(),
        pos + c <= buf@.len(),
    ensures
        res@ == bulk_spec(
            buf@.skip(pos as int),
            eof,
            buf@.subrange(start + 1, end as int),
            c as nat,
        ),
{
    let ghost s = buf@.skip(pos as int);
    let ghost rest = buf@.subrange(start + 1, end as int);
    let bl = buf.len();
    let minus_one = end - start == 3 && buf[start + 1] == 45 && buf[start + 2] == 49;
    assert(minus_one == (rest == seq![45u8, 49u8])) by {
        if rest == seq![45u8, 49u8] {
            assert(rest[0] == buf@[start + 1]);
            assert(rest[1] == buf@[start + 2]);
        }
        if minus_one {
            assert(rest =~= seq![45u8, 49u8]);
        }
    }
    if minus_one {
        return ParseStep::Done(Err(Error::Nil), c);
    }
    assert(pos + c <= bl);
    match parse_usize_at(buf, start + 1, end) {
        None => ParseStep::Done(Err(redis_err("invalid length")), c),
        Some(n) => {
            let from = pos + c;
            let avail = buf.len() - from;
            assert(s.skip(c as int) =~= buf@.skip(from as int));
            if avail >= 2 && avail - 2 >= n {
                let data = slice_to_vec(slice_subrange(buf, from, from + n));
                assert(data@ =~= s.skip(c as int).take(n as int));
                let total = c + n + 2;
                match string_from_utf8(data) {
                    Some(text) => ParseStep::Done(Ok(Value::BulkString(text)), total),
                    None => ParseStep::Done(Err(redis_err("invalid utf8")), total),
                }
            } else if !eof {
                ParseStep::Incomplete
            } else {
                ParseStep::Done(Err(redis_err("unexpected EOF")), buf.len() - pos)
            }
        },
    }
}

/// Decodes the array whose header line is `buf[start..end]`, which starts at
/// `pos` and took `c` bytes.
fn parse_array_reply_at(buf: &[u8], pos: usize, eof: bool, start: usize, end: usize, c: usize) -> (res: ParseStep)
    requires
        pos == start < end <= buf@.len(),
        0 < c,
        pos + c <= buf@.len(),
    ensures
        res@ == ({
            let rest = buf@.subrange(start + 1, end as int);
            if rest == seq![45u8, 49u8] {
                SpecStep::Done(Err(SpecError::Nil), c as nat)
            } else {
                match parse_i64_spec(rest) {
                    None => SpecStep::Done(Err(SpecError::Redis("invalid array length"@)), c as nat),
                    Some(n) => {
                        let count: nat = if n < 0 { 0 } else { n as nat };
                        to_array(array_spec(buf@.skip(pos as int).skip(c as int), eof, count), c as nat)
                    },
                }
            }
        }),
    decreases buf@.len() - pos, 0nat, 1nat,
{
    let ghost s = buf@.skip(pos as int);
    let ghost rest = buf@.subrange(start + 1, end as int);
    let minus_one = end - start == 3 && buf[start + 1] == 45 && buf[start + 2] == 49;
    assert(minus_one == (rest == seq![45u8, 49u8])) by {
        if rest == seq![45u8, 49u8] {
            assert(rest[0] == buf@[start + 1]);
            assert(rest[1] == buf@[start + 2]);
        }
        if minus_one {
            assert(rest =~= seq![45u8, 49u8]);
        }
    }
    if minus_one {
        return ParseStep::Done(Err(Error::Nil), c);
    }
    match parse_i64_at(buf, start + 1, end) {
        None => ParseStep::Done(Err(redis_err("invalid array length")), c),
        Some(n) => {
            let count: u64 = if n < 0 { 0 } else { n as u64 };
            assert(s.skip(c as int) =~= buf@.skip(pos + c));
            proof {
                lemma_array_consumed(buf@.skip(pos + c), eof, count as nat);
            }
            let bl = buf.len();
            let r = parse_array_at(buf, pos + c, eof, count);
            assert(r@ == array_spec(buf@.skip(pos + c), eof, count as nat));
            assert(r@ matches SpecStep::Done(_, c2) ==> c2 <= buf@.len() - pos - c);
            match r {
                ArrayStep::Incomplete => ParseStep::Incomplete,
                ArrayStep::Done(Ok(vs), c2) => {
                    assert(c2 <= bl - pos - c);
                    ParseStep::Done(Ok(Value::Array(vs)), c + c2)
                },
                ArrayStep::Done(Err(e), c2) => {
                    assert(c2 <= bl - pos - c);
                    ParseStep::Done(Err(e), c + c2)
                },
            }
        },
    }
}

#[verifier::rlimit(30)]
fn parse_reply_at(buf: &[u8], pos: usize, eof: bool) -> (res: ParseStep)
    requires
        pos <= buf@.len(),
    ensures
        res@ == reply_spec(buf@.skip(pos as int), eof),
    decreases buf@.len() - pos, 0nat, 2nat,
{
    let ghost s = buf@.skip(pos as int);
    proof {
        lemma_line_spec(s, eof);
    }
    match read_line_at(buf, pos, eof) {
        LineStep::Incomplete => ParseStep::Incomplete,
        LineStep::Eof => ParseStep::Done(Err(redis_err("unexpected EOF")), 0),
        LineStep::Line(start, end, c) => {
            let ghost line = buf@.subrange(start as int, end as int);
            if start == end {
                return ParseStep::Done(Err(redis_err("empty reply")), c);
            }
            let tag = buf[start];
            let ghost rest = line.drop_first();
            assert(rest =~= buf@.subrange(start + 1, end as int));
            assert(line[0] == tag);
            if tag == 45 {
                let m = string_from_utf8_lossy(slice_subrange(buf, start + 1, end));
                ParseStep::Done(Err(Error::Redis(RedisError(m))), c)
            } else if tag == 43 {
                let m = string_from_utf8_lossy(slice_subrange(buf, start + 1, end));
                ParseStep::Done(Ok(Value::Status(m)), c)
            } else if tag == 58 {
                match parse_i64_at(buf, start + 1, end) {
                    Some(v) => ParseStep::Done(Ok(Value::Int(v)), c),
                    None => ParseStep::Done(Err(redis_err("invalid integer")), c),
                }
            } else if tag == 36 {
                parse_bulk_at(buf, pos, eof, start, end, c)
            } else if tag == 42 {
                parse_array_reply_at(buf, pos, eof, start, end, c)
            } else {
                let d = debug_bytes_of(buf, start, end);
                let text = String::from_str("can't parse ").concat(ascii_string(d).as_str());
                ParseStep::Done(Err(Error::Redis(RedisError(text))), c)
            }
        },
    }
}

/// Parse a Redis reply from the front of `buf`, dispatching by its first byte.
///
/// `eof` tells whether `buf` holds all the input there will be. When it does
/// not, the result is `Incomplete` exactly when the reply runs past the end of
/// `buf`; otherwise the reply and the number of bytes it took are returned.
pub fn parse_reply(buf: &[u8], eof: bool) -> (res: ParseStep)
    ensures
        res@ == reply_spec(buf@, eof),
{
    assert(buf@.skip(0) =~= buf@);
    parse_reply_at(buf, 0, eof)
}


/* Laws of the decoder */

pub proof fn lemma_find_byte_prefix(s: Seq<u8>, t: Seq<u8>, b: u8)
    requires
        find_byte(s, b) >= 0,
    ensures
        find_byte(s + t, b) == find_byte(s, b),
    decreases s.len(),
{
    if s[0] != b {
        assert((s + t).drop_first() =~= s.drop_first() + t);
        lemma_find_byte_prefix(s.drop_first(), t, b);
    }
}

pub proof fn lemma_line_prefix(s: Seq<u8>, t: Seq<u8>, eof: bool)
    requires
        line_spec(s, false) is Line,
    ensures
        line_spec(s + t, eof) == line_spec(s, false),
{
    lemma_find_byte(s, 10);
    let i = find_byte(s, 10);
    lemma_find_byte_prefix(s, t, 10);
    assert((s + t).take(i) =~= s.take(i));
}

/// At the end of input a reply always decodes: it is never `Incomplete`.
pub proof fn law_reply_complete_at_eof(s: Seq<u8>)
    ensures
        !(reply_spec(s, true) is Incomplete),
    decreases s.len(), 0nat, 0nat,
{
    lemma_line_spec(s, true);
    if let LineRead::Line(line, c) = line_spec(s, true) {
        if line.len() > 0 && line[0] == 42 {
            let rest = line.drop_first();
            if rest != seq![45u8, 49u8] {
                if let Some(n) = parse_i64_spec(rest) {
                    let count: nat = if n < 0 { 0 } else { n as nat };
                    lemma_array_complete_at_eof(s.skip(c as int), count);
                }
            }
        }
    }
}

/// At the end of input the elements of an array always decode.
pub proof fn lemma_array_complete_at_eof(s: Seq<u8>, n: nat)
    ensures
        !(array_spec(s, true, n) is Incomplete),
    decreases s.len(), 1nat, n,
{
    if n > 0 {
        law_reply_complete_at_eof(s);
        if let SpecStep::Done(r, c) = reply_spec(s, true) {
            if 0 < c <= s.len() {
                lemma_array_complete_at_eof(s.skip(c as int), (n - 1) as nat);
            }
        }
    }
}

/// A reply that decodes before the end of input does not depend on what
/// follows it: with any more input, ended or not, it decodes the same and
/// takes the same bytes.
pub proof fn law_reply_prefix_stable(s: Seq<u8>, t: Seq<u8>, eof: bool)
    requires
        reply_spec(s, false) is Done,
    ensures
        reply_spec(s + t, eof) == reply_spec(s, false),
    decreases s.len(), 0nat, 0nat,
{
    lemma_line_spec(s, false);
    lemma_line_prefix(s, t, eof);
    if let LineRead::Line(line, c) = line_spec(s, false) {
        assert((s + t).skip(c as int) =~= s.skip(c as int) + t);
        if line.len() > 0 && line[0] == 36 {
            let rest = line.drop_first();
            if rest != seq![45u8, 49u8] {
                if let Some(n) = parse_usize_spec(rest) {
                    assert((s.skip(c as int) + t).take(n as int) =~= s.skip(c as int).take(n as int));
                }
            }
        }
        if line.len() > 0 && line[0] == 42 {
            let rest = line.drop_first();
            if rest != seq![45u8, 49u8] {
                if let Some(n) = parse_i64_spec(rest) {
                    let count: nat = if n < 0 { 0 } else { n as nat };
                    lemma_array_prefix_stable(s.skip(c as int), t, eof, count);
                }
            }
        }
    }
}

/// Array elements that decode before the end of input do not depend on what
/// follows them.
pub proof fn lemma_array_prefix_stable(s: Seq<u8>, t: Seq<u8>, eof: bool, n: nat)
    requires
        array_spec(s, false, n) is Done,
    ensures
        array_spec(s + t, eof, n) == array_spec(s, false, n),
    decreases s.len(), 1nat, n,
{
    if n > 0 {
        law_reply_prefix_stable(s, t, eof);
        lemma_reply_consumed(s, false);
        lemma_eof_not_nil();
        if let SpecStep::Done(r, c) = reply_spec(s, false) {
            if 0 < c <= s.len() {
                assert((s + t).skip(c as int) =~= s.skip(c as int) + t);
                let elem_ok = match r {
                    Ok(_) => true,
                    Err(e) => nil_like(e),
                };
                if elem_ok {
                    lemma_array_prefix_stable(s.skip(c as int), t, eof, (n - 1) as nat);
                }
            }
        }
    }
}


/// The arguments of a command as the bulk string values a decoder reads.
pub open spec fn bulk_values(args: Seq<Seq<char>>) -> Seq<SpecValue> {
    args.map_values(|x: Seq<char>| SpecValue::BulkString(x))
}

pub proof fn lemma_find_byte_skip(a: Seq<u8>, t: Seq<u8>, b: u8)
    requires
        forall|i: int| 0 <= i < a.len() ==> a[i] != b,
    ensures
        find_byte(a + t, b) == if find_byte(t, b) < 0 {
            -1
        } else {
            a.len() + find_byte(t, b)
        },
    decreases a.len(),
{
    if a.len() == 0 {
        assert(a + t =~= t);
    } else {
        assert((a + t).drop_first() =~= a.drop_first() + t);
        lemma_find_byte_skip(a.drop_first(), t, b);
    }
}

/// A header line `<tag><digits of n>\r\n` in front of `rest`.
pub proof fn lemma_header_line(tag: u8, n: nat, rest: Seq<u8>, eof: bool)
    requires
        tag != 10,
    ensures
        line_spec(seq![tag] + dec_digits(n) + crlf() + rest, eof) == LineRead::Line(
            seq![tag] + dec_digits(n),
            (dec_digits(n).len() + 3) as nat,
        ),
{
    crate::text::lemma_dec_digits_ascii(n);
    let h = seq![tag] + dec_digits(n);
    let s = h + crlf() + rest;
    assert forall|i: int| 0 <= i < (h + seq![13u8]).len() implies (h + seq![13u8])[i] != 10 by {
        if 0 < i < h.len() {
            assert(h[i] == dec_digits(n)[i - 1]);
        }
    }
    assert(s =~= (h + seq![13u8]) + (seq![10u8] + rest));
    lemma_find_byte_skip(h + seq![13u8], seq![10u8] + rest, 10);
    assert(s.take(h.len() + 1 as int) =~= h + seq![13u8]);
    assert(strip_cr(h + seq![13u8]) =~= h);
}

/// One bulk string frame decodes to its text.
pub proof fn lemma_bulk_frame_decodes(x: Seq<char>, rest: Seq<u8>, eof: bool)
    requires
        encode_utf8(x).len() <= usize::MAX,
    ensures
        reply_spec(bulk_frame(encode_utf8(x)) + rest, eof) == SpecStep::Done(
            Ok::<SpecValue, SpecError>(SpecValue::BulkString(x)),
            bulk_frame(encode_utf8(x)).len(),
        ),
{
    let data = encode_utf8(x);
    let n = data.len();
    let s = bulk_frame(data) + rest;
    let tail = data + crlf() + rest;
    assert(s =~= seq![36u8] + dec_digits(n) + crlf() + tail);
    lemma_header_line(36u8, n, tail, eof);
    let line = seq![36u8] + dec_digits(n);
    let c = (dec_digits(n).len() + 3) as nat;
    assert(line.drop_first() =~= dec_digits(n));
    crate::text::lemma_parse_usize_dec(n);
    crate::text::lemma_dec_digits_ascii(n);
    assert(dec_digits(n) != seq![45u8, 49u8]) by {
        assert(48 <= dec_digits(n)[0] <= 57);
    }
    assert(s.skip(c as int) =~= tail);
    assert(tail.take(n as int) =~= data);
    encode_utf8_valid_utf8(x);
    encode_utf8_decode_utf8(x);
    assert(line.len() > 0 && line[0] == 36u8);
    assert(bulk_spec(s, eof, dec_digits(n), c) == SpecStep::Done(
        Ok::<SpecValue, SpecError>(SpecValue::BulkString(x)),
        (c + n + 2) as nat,
    ));
}

/// The bulk string frames split off their first frame.
pub proof fn lemma_bulk_frames_front(args: Seq<Seq<char>>)
    requires
        args.len() > 0,
    ensures
        bulk_frames(args) == bulk_frame(encode_utf8(args[0])) + bulk_frames(args.drop_first()),
    decreases args.len(),
{
    if args.len() == 1 {
        assert(args.drop_last() =~= Seq::<Seq<char>>::empty());
        assert(args.drop_first() =~= Seq::<Seq<char>>::empty());
        assert(bulk_frames(args) =~= bulk_frame(encode_utf8(args[0])) + bulk_frames(
            args.drop_first(),
        ));
    } else {
        lemma_bulk_frames_front(args.drop_last());
        assert(args.drop_last().drop_first() =~= args.drop_first().drop_last());
        assert(args.drop_last()[0] == args[0]);
        assert(args.drop_first().last() == args.last());
        assert(bulk_frames(args) =~= bulk_frame(encode_utf8(args[0])) + bulk_frames(
            args.drop_first(),
        ));
    }
}

/// The bulk string frames of a command decode back to its arguments.
pub proof fn lemma_bulk_frames_decode(args: Seq<Seq<char>>, rest: Seq<u8>, eof: bool)
    requires
        forall|i: int| 0 <= i < args.len() ==> encode_utf8(#[trigger] args[i]).len() <= usize::MAX,
    ensures
        array_spec(bulk_frames(args) + rest, eof, args.len()) == SpecStep::Done(
            Ok::<Seq<SpecValue>, SpecError>(bulk_values(args)),
            bulk_frames(args).len(),
        ),
    decreases args.len(),
{
    if args.len() == 0 {
        assert(bulk_values(args) =~= Seq::<SpecValue>::empty());
    } else {
        let first = bulk_frame(encode_utf8(args[0]));
        let more = bulk_frames(args.drop_first());
        lemma_bulk_frames_front(args);
        let s = bulk_frames(args) + rest;
        assert(s =~= first + (more + rest));
        lemma_bulk_frame_decodes(args[0], more + rest, eof);
        assert(s.skip(first.len() as int) =~= more + rest);
        assert forall|i: int| 0 <= i < args.drop_first().len() implies encode_utf8(
            #[trigger] args.drop_first()[i],
        ).len() <= usize::MAX by {
            assert(args.drop_first()[i] == args[i + 1]);
        }
        lemma_bulk_frames_decode(args.drop_first(), rest, eof);
        assert(seq![SpecValue::BulkString(args[0])] + bulk_values(args.drop_first()) =~= bulk_values(
            args,
        ));
    }
}

/// An array header `*<n>\r\n` in front of `body`.
pub proof fn lemma_array_header(n: nat, body: Seq<u8>, eof: bool)
    requires
        n <= i64::MAX,
    ensures
        reply_spec(seq![42u8] + dec_digits(n) + crlf() + body, eof) == to_array(
            array_spec(body, eof, n),
            (dec_digits(n).len() + 3) as nat,
        ),
{
    let s = seq![42u8] + dec_digits(n) + crlf() + body;
    lemma_header_line(42u8, n, body, eof);
    let line = seq![42u8] + dec_digits(n);
    let c = (dec_digits(n).len() + 3) as nat;
    assert(line.drop_first() =~= dec_digits(n));
    crate::text::lemma_parse_i64_dec(n);
    crate::text::lemma_dec_digits_ascii(n);
    assert(dec_digits(n) != seq![45u8, 49u8]) by {
        assert(48 <= dec_digits(n)[0] <= 57);
    }
    assert(s.skip(c as int) =~= body);
    assert(line.len() > 0 && line[0] == 42u8);
}

/// What a client writes, a RESP reader reads back: the encoding of a command
/// decodes, whatever follows it, to the array of its arguments as bulk
/// strings and takes exactly the encoded bytes.
pub proof fn law_command_roundtrip(args: Seq<Seq<char>>, rest: Seq<u8>, eof: bool)
    requires
        args.len() <= i64::MAX,
        forall|i: int| 0 <= i < args.len() ==> encode_utf8(#[trigger] args[i]).len() <= usize::MAX,
    ensures
        reply_spec(command_bytes(args) + rest, eof) == SpecStep::Done(
            Ok::<SpecValue, SpecError>(SpecValue::Array(bulk_values(args))),
            command_bytes(args).len(),
        ),
{
    let n = args.len();
    let body = bulk_frames(args) + rest;
    assert(command_bytes(args) + rest =~= seq![42u8] + dec_digits(n) + crlf() + body);
    lemma_array_header(n, body, eof);
    lemma_bulk_frames_decode(args, rest, eof);
}

/// The frames of the arguments are at least one byte per argument, and at
/// least as long as the encoding of any one argument.
pub proof fn lemma_bulk_frames_bounds(args: Seq<Seq<char>>)
    ensures
        bulk_frames(args).len() >= args.len(),
        forall|i: int| 0 <= i < args.len() ==> encode_utf8(#[trigger] args[i]).len() <= bulk_frames(args).len(),
    decreases args.len(),
{
    if args.len() > 0 {
        let p = args.drop_last();
        lemma_bulk_frames_bounds(p);
        assert forall|i: int| 0 <= i < args.len() implies encode_utf8(#[trigger] args[i]).len() <= bulk_frames(args).len() by {
            if i < args.len() - 1 {
                assert(args[i] == p[i]);
            }
        }
    }
}

/// What [`append_args`] writes, [`parse_reply`] reads back: for every list
/// of arguments that `append_args` accepts, its bytes decode, whatever
/// follows them, to the array of the arguments as bulk strings, and the
/// reply takes exactly those bytes.
pub proof fn law_append_args_roundtrip(args: Seq<&str>, rest: Seq<u8>, eof: bool)
    requires
        command_bytes(str_views(args)).len() <= isize::MAX,
    ensures
        reply_spec(command_bytes(str_views(args)) + rest, eof) == SpecStep::Done(
            Ok::<SpecValue, SpecError>(SpecValue::Array(bulk_values(str_views(args)))),
            command_bytes(str_views(args)).len(),
        ),
{
    let views = str_views(args);
    lemma_bulk_frames_bounds(views);
    law_command_roundtrip(views, rest, eof);
}

/// A line whose bytes hold no newline, ended by `\r\n`, reads back as
/// those bytes.
pub proof fn lemma_plain_line(h: Seq<u8>, rest: Seq<u8>, eof: bool)
    requires
        forall|i: int| 0 <= i < h.len() ==> h[i] != 10,
    ensures
        line_spec(h + crlf() + rest, eof) == LineRead::Line(h, (h.len() + 2) as nat),
{
    let s = h + crlf() + rest;
    assert forall|i: int| 0 <= i < (h + seq![13u8]).len() implies (h + seq![13u8])[i] != 10 by {
        if i < h.len() {
            assert((h + seq![13u8])[i] == h[i]);
        }
    }
    assert(s =~= (h + seq![13u8]) + (seq![10u8] + rest));
    lemma_find_byte_skip(h + seq![13u8], seq![10u8] + rest, 10);
    assert(s.take(h.len() + 1 as int) =~= h + seq![13u8]);
    assert(strip_cr(h + seq![13u8]) =~= h);
}

/// An integer reply reads back as the integer it was written from: `:`
/// followed by the decimal text of any `i64`, negative ones included, and a
/// line end decodes, whatever follows, to that integer, and takes exactly
/// those bytes.
pub proof fn law_int_reply_roundtrip(n: i64, rest: Seq<u8>, eof: bool)
    ensures
        reply_spec(seq![58u8] + int_bytes(n as int) + crlf() + rest, eof) == SpecStep::Done(
            Ok::<SpecValue, SpecError>(SpecValue::Int(n)),
            (int_bytes(n as int).len() + 3) as nat,
        ),
{
    let b = int_bytes(n as int);
    let h = seq![58u8] + b;
    let m: nat = if n < 0 { (-(n as int)) as nat } else { n as nat };
    crate::text::lemma_dec_digits_ascii(m);
    crate::text::lemma_dec_digits_value(m);
    assert forall|i: int| 0 <= i < h.len() implies h[i] != 10 by {
        if i > 0 {
            if n < 0 {
                if i > 1 {
                    assert(h[i] == dec_digits(m)[i - 2]);
                }
            } else {
                assert(h[i] == dec_digits(m)[i - 1]);
            }
        }
    }
    lemma_plain_line(h, rest, eof);
    assert(seq![58u8] + b + crlf() + rest =~= h + crlf() + rest);
    assert(h.drop_first() =~= b);
    if n < 0 {
        assert(b.drop_first() =~= dec_digits(m));
        assert(b[0] == 45);
    } else {
        crate::text::lemma_parse_i64_dec(m);
        assert(b == dec_digits(m));
    }
    assert(parse_i64_spec(b) == Some(n));
}

} // verus!
