//! Lua scripts: the SHA1 digest that names a script, the commands that load,
//! test and run it, and the fallback from EVALSHA to EVAL.

use crate::client::{concat_args, is_text, string_views, text_of, value_text};
use crate::error::{error_text, Error, SpecError};
use crate::parser::{lemma_view_values_len, view_result, view_value, view_values, SpecValue, Value};
use crate::text::{bytes_contain, int_text, str_contains, usize_to_string};
use vstd::prelude::*;
use vstd::string::StringSliceAdditionalSpecFns;
use vstd::utf8::encode_utf8;

verus! {

/// What `sha1::Sha1::digest` returns for the given bytes: their SHA-1 digest.
pub uninterp spec fn sha1_of(data: Seq<u8>) -> Seq<u8>;

/// `<sha1::Sha1 as sha1::Digest>::digest`, which feeds the data to a fresh
/// hasher and finalizes it. Claimed: the result is `sha1_of(data@)`, and it
/// is 20 bytes long (the output size of SHA-1).
#[verifier::external_body]
fn sha1_digest(data: &[u8]) -> (res: Vec<u8>)
    ensures
        res@ == sha1_of(data@),
        res@.len() == 20,
{
    <sha1::Sha1 as sha1::Digest>::digest(data).to_vec()
}

/// The lowercase hexadecimal digit of a value below 16.
pub open spec fn hex_digit(n: int) -> char {
    if n < 10 {
        (48 + n) as char
    } else {
        (87 + n) as char
    }
}

/// Lowercase hexadecimal text: two digits per byte, high half first.
pub open spec fn hex_text(b: Seq<u8>) -> Seq<char>
    decreases b.len(),
{
    if b.len() == 0 {
        Seq::empty()
    } else {
        hex_text(b.drop_last()) + seq![hex_digit(b.last() as int / 16), hex_digit(b.last() as int % 16)]
    }
}

/// `hex::encode`. Claimed, as its source shows (a table of the lowercase
/// digits `0-9a-f`, the high half of each byte first): the result is
/// `hex_text(data@)`.
#[verifier::external_body]
fn hex_encode(data: &[u8]) -> (res: String)
    ensures
        res@ == hex_text(data@),
{
    hex::encode(data)
}

/// Hex text has two digits per byte, each a lowercase hexadecimal digit.
pub proof fn lemma_hex_text(b: Seq<u8>)
    ensures
        hex_text(b).len() == 2 * b.len(),
        forall|i: int| 0 <= i < hex_text(b).len() ==> is_hex_digit(#[trigger] hex_text(b)[i]),
    decreases b.len(),
{
    if b.len() > 0 {
        lemma_hex_text(b.drop_last());
        let p = hex_text(b.drop_last());
        assert forall|i: int| 0 <= i < hex_text(b).len() implies is_hex_digit(#[trigger] hex_text(b)[i]) by {
            if i < p.len() {
                assert(hex_text(b)[i] == p[i]);
            }
        }
    }
}

/// A lowercase hexadecimal digit: `0-9` or `a-f`.
pub open spec fn is_hex_digit(c: char) -> bool {
    ('0' <= c && c <= '9') || ('a' <= c && c <= 'f')
}

/// The name under which the server knows a script: the lowercase hex of the
/// SHA-1 digest of its source.
pub open spec fn script_hash(src: Seq<char>) -> Seq<char> {
    hex_text(sha1_of(encode_utf8(src)))
}

/// Lua script with cached SHA1 hash.
pub struct Script {
    src: String,
    hash: String,
}

impl Script {
    /// The source of the script.
    pub closed spec fn source(self) -> Seq<char> {
        self.src@
    }

    /// The hash of the script.
    pub closed spec fn digest(self) -> Seq<char> {
        self.hash@
    }

    /// Create a new script from source.
    /// Computes SHA1 hash for EVALSHA.
    pub fn new(src: String) -> (res: Self)
        ensures
            res.source() == src@,
            res.digest() == script_hash(src@),
            res.digest().len() == 40,
    {
        let digest = sha1_digest(src.as_str().as_bytes());
        Script::with_digest(src, digest.as_slice())
    }

    /// A script from its source and the SHA-1 digest of that source: its
    /// hash is the lowercase hex of the digest.
    pub fn with_digest(src: String, digest: &[u8]) -> (res: Self)
        requires
            digest@ == sha1_of(encode_utf8(src@)),
        ensures
            res.source() == src@,
            res.digest() == hex_text(digest@),
            res.digest() == script_hash(src@),
            res.digest().len() == 2 * digest@.len(),
    {
        let hash = hex_encode(digest);
        proof {
            lemma_hex_text(digest@);
        }
        Script { src, hash }
    }

    /// The source of the script.
    pub fn src(&self) -> (res: &str)
        ensures
            res@ == self.source(),
    {
        self.src.as_str()
    }

    /// The hex SHA-1 hash of the source.
    pub fn hash(&self) -> (res: &str)
        ensures
            res@ == self.digest(),
    {
        self.hash.as_str()
    }

    /// `SCRIPT LOAD <source>`.
    pub fn load_command(&self) -> (res: Vec<String>)
        ensures
            string_views(res@) == seq!["SCRIPT"@, "LOAD"@, self.source()],
    {
        let res = vec![String::from_str("SCRIPT"), String::from_str("LOAD"), self.src.clone()];
        assert(string_views(res@) =~= seq!["SCRIPT"@, "LOAD"@, self.source()]);
        res
    }

    /// `SCRIPT EXISTS <hash>`.
    pub fn exists_command(&self) -> (res: Vec<String>)
        ensures
            string_views(res@) == seq!["SCRIPT"@, "EXISTS"@, self.digest()],
    {
        let res = vec![String::from_str("SCRIPT"), String::from_str("EXISTS"), self.hash.clone()];
        assert(string_views(res@) =~= seq!["SCRIPT"@, "EXISTS"@, self.digest()]);
        res
    }

    /// `EVAL <source> <number of keys> <keys...> <args...>`.
    pub fn eval_command(&self, keys: &[String], args: &[String]) -> (res: Vec<String>)
        ensures
            string_views(res@) == run_args("EVAL"@, self.source(), string_views(keys@), string_views(args@)),
    {
        script_call("EVAL", &self.src, keys, args)
    }

    /// `EVALSHA <hash> <number of keys> <keys...> <args...>`.
    pub fn evalsha_command(&self, keys: &[String], args: &[String]) -> (res: Vec<String>)
        ensures
            string_views(res@) == run_args("EVALSHA"@, self.digest(), string_views(keys@), string_views(args@)),
    {
        script_call("EVALSHA", &self.hash, keys, args)
    }
}

/// The arguments of a script call: the verb, the script (source or hash),
/// the number of keys, the keys, then the other arguments.
pub open spec fn run_args(verb: Seq<char>, script: Seq<char>, keys: Seq<Seq<char>>, args: Seq<Seq<char>>) -> Seq<Seq<char>> {
    seq![verb, script, int_text(keys.len() as int)] + keys + args
}

fn script_call(verb: &str, script: &String, keys: &[String], args: &[String]) -> (res: Vec<String>)
    ensures
        string_views(res@) == run_args(verb@, script@, string_views(keys@), string_views(args@)),
{
    let head = vec![String::from_str(verb), script.clone(), usize_to_string(keys.len())];
    let with_keys = concat_args(head, keys);
    let res = concat_args(with_keys, args);
    proof {
        assert(string_views(keys@).len() == keys@.len());
        assert(string_views(head@) =~= seq![verb@, script@, int_text(keys@.len() as int)]);
    }
    res
}

/// What the reply to `SCRIPT LOAD` gives: the hash the server reports.
pub open spec fn load_outcome(r: Result<SpecValue, SpecError>) -> Result<Seq<char>, SpecError> {
    match r {
        Ok(v) => if is_text(v) {
            Ok(text_of(v))
        } else {
            Err(SpecError::Other("expected string"@))
        },
        Err(e) => Err(e),
    }
}

/// Decodes the reply to `SCRIPT LOAD`.
pub fn load_reply(r: Result<Value, Error>) -> (res: Result<String, Error>)
    ensures
        match res {
            Ok(s) => load_outcome(view_result(r)) == Ok::<Seq<char>, SpecError>(s@),
            Err(e) => load_outcome(view_result(r)) == Err::<Seq<char>, SpecError>(e@),
        },
{
    match r {
        Ok(v) => match value_text(&v) {
            Some(s) => Ok(s),
            None => Err(Error::Other(String::from_str("expected string"))),
        },
        Err(e) => Err(e),
    }
}

/// The flags of the integer elements of a `SCRIPT EXISTS` reply, in order
/// (1 is true); elements that are not integers are left out.
pub open spec fn int_flags(s: Seq<SpecValue>) -> Seq<bool>
    decreases s.len(),
{
    if s.len() == 0 {
        Seq::empty()
    } else {
        let p = int_flags(s.drop_last());
        match s.last() {
            SpecValue::Int(i) => p.push(i == 1),
            _ => p,
        }
    }
}

/// What the reply to `SCRIPT EXISTS` gives.
pub open spec fn exists_outcome(r: Result<SpecValue, SpecError>) -> Result<Seq<bool>, SpecError> {
    match r {
        Ok(SpecValue::Array(a)) => Ok(int_flags(a)),
        Ok(_) => Err(SpecError::Other("expected array"@)),
        Err(e) => Err(e),
    }
}

/// Decodes the reply to `SCRIPT EXISTS`.
pub fn exists_reply(r: Result<Value, Error>) -> (res: Result<Vec<bool>, Error>)
    ensures
        match res {
            Ok(v) => exists_outcome(view_result(r)) == Ok::<Seq<bool>, SpecError>(v@),
            Err(e) => exists_outcome(view_result(r)) == Err::<Seq<bool>, SpecError>(e@),
        },
{
    match r {
        Ok(Value::Array(arr)) => {
            proof {
                lemma_view_values_len(arr@);
            }
            let ghost vs = view_values(arr@);
            let mut out: Vec<bool> = Vec::new();
            let mut i: usize = 0;
            while i < arr.len()
                invariant
                    0 <= i <= arr@.len(),
                    vs == view_values(arr@),
                    vs.len() == arr@.len(),
                    forall|k: int| 0 <= k < arr@.len() ==> #[trigger] vs[k] == view_value(arr@[k]),
                    out@ == int_flags(vs.take(i as int)),
                decreases arr@.len() - i,
            {
                assert(vs.take(i + 1).drop_last() =~= vs.take(i as int));
                assert(vs.take(i + 1).last() == arr@[i as int]@);
                match &arr[i] {
                    Value::Int(n) => {
                        out.push(*n == 1);
                    },
                    _ => {},
                }
                i = i + 1;
            }
            assert(vs.take(i as int) =~= vs);
            Ok(out)
        },
        Ok(_) => Err(Error::Other(String::from_str("expected array"))),
        Err(e) => Err(e),
    }
}

/// An error whose text mentions `NOSCRIPT`: the server does not know the
/// script's hash.
pub open spec fn is_noscript(e: SpecError) -> bool {
    bytes_contain(encode_utf8(error_text(e)), encode_utf8("NOSCRIPT"@))
}

/// What the reply to EVALSHA leads to: `None` when the server does not know
/// the script, so that it must be sent in full with EVAL; otherwise the reply
/// itself is the outcome.
pub fn evalsha_outcome(r: Result<Value, Error>) -> (res: Option<Result<Value, Error>>)
    ensures
        match r {
            Err(e) => if is_noscript(e@) {
                res is None
            } else {
                res matches Some(x) && view_result(x) == view_result(r)
            },
            Ok(_) => res matches Some(x) && view_result(x) == view_result(r),
        },
{
    match r {
        Ok(v) => Some(Ok(v)),
        Err(e) => {
            let text = e.to_string();
            let pat = "NOSCRIPT";
            proof {
                reveal_strlit("NOSCRIPT");
            }
            if str_contains(text.as_str(), pat) {
                None
            } else {
                Some(Err(e))
            }
        },
    }
}

/// A script's hash, under which EVALSHA names it, is 40 lowercase
/// hexadecimal digits, whatever the source.
pub proof fn law_script_hash_is_hex40(src: Seq<char>, digest: Seq<u8>)
    requires
        digest == sha1_of(encode_utf8(src)),
        digest.len() == 20,
    ensures
        script_hash(src).len() == 40,
        forall|i: int| 0 <= i < 40 ==> is_hex_digit(#[trigger] script_hash(src)[i]),
{
    lemma_hex_text(digest);
}

} // verus!
