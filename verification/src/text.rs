//! Decimal numbers, UTF-8 conversions and small byte-string utilities used by
//! the protocol.

use vstd::prelude::*;
use vstd::string::StringSliceAdditionalSpecFns;
use vstd::utf8::*;

verus! {

broadcast use vstd::utf8::group_utf8_lib;

/// ASCII digits of a natural number, most significant first, without leading zeros.
pub open spec fn dec_digits(n: nat) -> Seq<u8>
    decreases n,
{
    if n < 10 {
        seq![(n + 48) as u8]
    } else {
        dec_digits(n / 10).push(((n % 10) + 48) as u8)
    }
}

/// The characters of an ASCII byte sequence.
pub open spec fn ascii_chars(b: Seq<u8>) -> Seq<char> {
    b.map_values(|x: u8| x as char)
}

/// Every byte is ASCII.
pub open spec fn is_ascii_bytes(b: Seq<u8>) -> bool {
    forall|i: int| 0 <= i < b.len() ==> #[trigger] b[i] < 128
}

/// The decimal text of an integer, with a leading `-` when negative.
pub open spec fn int_bytes(i: int) -> Seq<u8> {
    if i < 0 {
        seq![45u8] + dec_digits((-i) as nat)
    } else {
        dec_digits(i as nat)
    }
}

/// The decimal text of an integer as characters.
pub open spec fn int_text(i: int) -> Seq<char> {
    ascii_chars(int_bytes(i))
}

pub proof fn lemma_dec_digits_ascii(n: nat)
    ensures
        is_ascii_bytes(dec_digits(n)),
        dec_digits(n).len() >= 1,
        forall|i: int| 0 <= i < dec_digits(n).len() ==> 48 <= #[trigger] dec_digits(n)[i] <= 57,
    decreases n,
{
    if n >= 10 {
        lemma_dec_digits_ascii(n / 10);
    }
}

pub proof fn lemma_int_bytes_ascii(i: int)
    ensures
        is_ascii_bytes(int_bytes(i)),
{
    if i < 0 {
        lemma_dec_digits_ascii((-i) as nat);
        assert(is_ascii_bytes(int_bytes(i))) by {
            assert forall|k: int| 0 <= k < int_bytes(i).len() implies #[trigger] int_bytes(i)[k] < 128 by {
                if k > 0 {
                    assert(int_bytes(i)[k] == dec_digits((-i) as nat)[k - 1]);
                }
            }
        }
    } else {
        lemma_dec_digits_ascii(i as nat);
    }
}

/// ASCII bytes are their own UTF-8 encoding.
pub proof fn lemma_ascii_utf8(b: Seq<u8>)
    requires
        is_ascii_bytes(b),
    ensures
        is_ascii_chars(ascii_chars(b)),
        encode_utf8(ascii_chars(b)) == b,
        valid_utf8(b),
        decode_utf8(b) == ascii_chars(b),
{
    let c = ascii_chars(b);
    assert(is_ascii_chars(c)) by {
        assert forall|i: int| 0 <= i < c.len() implies '\0' <= #[trigger] c[i] <= '\u{7f}' by {
            assert(b[i] < 128);
        }
    }
    is_ascii_chars_encode_utf8(c);
    assert forall|i: int| 0 <= i < b.len() implies encode_utf8(c)[i] == b[i] by {
        let x = b[i];
        assert(x < 128);
        assert(((x as char) as u8) == x);
    }
    assert(encode_utf8(c) =~= b);
    encode_utf8_valid_utf8(c);
    encode_utf8_decode_utf8(c);
}

/// Appends the decimal digits of `n` to `buf`.
pub fn push_decimal(buf: &mut Vec<u8>, n: u64)
    ensures
        final(buf)@ == old(buf)@ + dec_digits(n as nat),
    decreases n,
{
    if n >= 10 {
        push_decimal(buf, n / 10);
    }
    let d: u8 = (n % 10) as u8;
    buf.push(d + 48);
}

/// `String::from_utf8`: returns the string when `bytes` is valid UTF-8.
/// Claimed: it succeeds exactly on valid UTF-8 (as `vstd::utf8::valid_utf8`
/// defines it) and then holds the decoded characters.
#[verifier::external_body]
pub(crate) fn string_from_utf8(bytes: Vec<u8>) -> (res: Option<String>)
    ensures
        res is Some <==> valid_utf8(bytes@),
        res matches Some(s) ==> s@ == decode_utf8(bytes@),
{
    String::from_utf8(bytes).ok()
}

/// What `String::from_utf8_lossy` returns for a byte sequence.
pub uninterp spec fn utf8_lossy(bytes: Seq<u8>) -> Seq<char>;

/// `String::from_utf8_lossy`: decodes the bytes, putting U+FFFD in place of
/// invalid sequences. Claimed: the result is `utf8_lossy` of the bytes, and on
/// valid UTF-8 it is the decoded text, as the documentation states.
#[verifier::external_body]
pub(crate) fn string_from_utf8_lossy(bytes: &[u8]) -> (res: String)
    ensures
        res@ == utf8_lossy(bytes@),
        valid_utf8(bytes@) ==> res@ == decode_utf8(bytes@),
{
    String::from_utf8_lossy(bytes).into_owned()
}

/// Builds a `String` from ASCII bytes.
pub fn ascii_string(bytes: Vec<u8>) -> (res: String)
    requires
        is_ascii_bytes(bytes@),
    ensures
        res@ == ascii_chars(bytes@),
{
    proof {
        lemma_ascii_utf8(bytes@);
    }
    let ghost b = bytes@;
    match string_from_utf8(bytes) {
        Some(s) => s,
        None => {
            proof {
                assert(false);
            }
            String::new()
        },
    }
}

/// Appends the decimal text of `i` to `buf`.
pub fn push_int(buf: &mut Vec<u8>, i: i64)
    ensures
        final(buf)@ == old(buf)@ + int_bytes(i as int),
{
    if i < 0 {
        buf.push(45u8);
        let m: u64 = if i == i64::MIN {
            9223372036854775808u64
        } else {
            (-i) as u64
        };
        push_decimal(buf, m);
        assert(final(buf)@ =~= old(buf)@ + int_bytes(i as int));
    } else {
        push_decimal(buf, i as u64);
    }
}

/// The decimal text of an integer (what `i64::to_string` gives).
pub fn int_to_string(i: i64) -> (res: String)
    ensures
        res@ == int_text(i as int),
{
    let mut b: Vec<u8> = Vec::new();
    push_int(&mut b, i);
    proof {
        lemma_int_bytes_ascii(i as int);
        assert(b@ =~= int_bytes(i as int));
    }
    ascii_string(b)
}

/// The decimal text of an unsigned integer (what `usize::to_string` gives).
pub fn usize_to_string(n: usize) -> (res: String)
    ensures
        res@ == int_text(n as int),
{
    let mut b: Vec<u8> = Vec::new();
    push_decimal(&mut b, n as u64);
    proof {
        lemma_int_bytes_ascii(n as int);
        assert(b@ =~= int_bytes(n as int));
    }
    ascii_string(b)
}


/// An ASCII decimal digit.
pub open spec fn is_digit(b: u8) -> bool {
    48 <= b <= 57
}

/// Every byte is a decimal digit.
pub open spec fn all_digits(s: Seq<u8>) -> bool {
    forall|i: int| 0 <= i < s.len() ==> is_digit(#[trigger] s[i])
}

/// The value of a sequence of decimal digits.
pub open spec fn digits_value(s: Seq<u8>) -> nat
    decreases s.len(),
{
    if s.len() == 0 {
        0
    } else {
        digits_value(s.drop_last()) * 10 + (s.last() - 48) as nat
    }
}

/// A non-empty run of digits whose value is at most `limit`.
pub open spec fn digits_within(s: Seq<u8>, limit: nat) -> bool {
    s.len() > 0 && all_digits(s) && digits_value(s) <= limit
}

/// What `usize::from_str` accepts: an optional `+` and at least one digit,
/// with a value that fits in a `usize`.
pub open spec fn parse_usize_spec(s: Seq<u8>) -> Option<usize> {
    let d = if s.len() > 0 && s[0] == 43 { s.drop_first() } else { s };
    if digits_within(d, usize::MAX as nat) {
        Some(digits_value(d) as usize)
    } else {
        None
    }
}

/// What `i64::from_str` accepts: an optional sign and at least one digit,
/// with a value in the range of `i64`.
pub open spec fn parse_i64_spec(s: Seq<u8>) -> Option<i64> {
    if s.len() > 0 && s[0] == 45 {
        let d = s.drop_first();
        if digits_within(d, 9223372036854775808) {
            Some((-(digits_value(d) as int)) as i64)
        } else {
            None
        }
    } else {
        let d = if s.len() > 0 && s[0] == 43 { s.drop_first() } else { s };
        if digits_within(d, i64::MAX as nat) {
            Some(digits_value(d) as i64)
        } else {
            None
        }
    }
}

pub proof fn lemma_digits_value_prefix(s: Seq<u8>, k: int)
    requires
        0 <= k <= s.len(),
    ensures
        digits_value(s.take(k)) <= digits_value(s),
    decreases s.len() - k,
{
    if k < s.len() {
        lemma_digits_value_prefix(s, k + 1);
        assert(s.take(k + 1).drop_last() =~= s.take(k));
    } else {
        assert(s.take(k) =~= s);
    }
}

/// Reads the digits `buf[start..end]`; `Some(value)` exactly when the range is
/// a non-empty run of digits whose value is at most `limit`.
pub fn parse_digits(buf: &[u8], start: usize, end: usize, limit: u64) -> (res: Option<u64>)
    requires
        start <= end <= buf@.len(),
    ensures
        res is Some <==> digits_within(buf@.subrange(start as int, end as int), limit as nat),
        res matches Some(v) ==> v as nat == digits_value(buf@.subrange(start as int, end as int)),
{
    let ghost s = buf@.subrange(start as int, end as int);
    if start == end {
        return None;
    }
    let mut acc: u64 = 0;
    let mut i: usize = start;
    while i < end
        invariant
            start <= i <= end <= buf@.len(),
            s == buf@.subrange(start as int, end as int),
            all_digits(s.take(i - start)),
            acc as nat == digits_value(s.take(i - start)),
            acc <= limit,
        decreases end - i,
    {
        let b = buf[i];
        if b < 48 || b > 57 {
            assert(!all_digits(s)) by {
                assert(s[i - start] == b);
            }
            return None;
        }
        let d: u64 = (b - 48) as u64;
        proof {
            assert(s.take(i + 1 - start).drop_last() =~= s.take(i - start));
            assert(s.take(i + 1 - start).last() == b);
        }
        if d > limit || acc > (limit - d) / 10 {
            proof {
                assert(acc * 10 + d > limit) by (nonlinear_arith)
                    requires
                        d > limit || acc > (limit - d) / 10,
                        d <= limit ==> acc > (limit - d) / 10 || d > limit,
                ;
                lemma_digits_value_prefix(s, i + 1 - start);
            }
            return None;
        }
        proof {
            assert(acc * 10 + d <= limit) by (nonlinear_arith)
                requires
                    acc <= (limit - d) / 10,
                    d <= limit,
            ;
        }
        acc = acc * 10 + d;
        i = i + 1;
        assert(all_digits(s.take(i - start))) by {
            assert forall|k: int| 0 <= k < s.take(i - start).len() implies is_digit(
                #[trigger] s.take(i - start)[k],
            ) by {
                if k < i - 1 - start {
                    assert(s.take(i - start)[k] == s.take(i - 1 - start)[k]);
                }
            }
        }
    }
    assert(s.take(end - start) =~= s);
    Some(acc)
}


/// Parses `buf[start..end]` as `usize::from_str` does.
pub fn parse_usize_at(buf: &[u8], start: usize, end: usize) -> (res: Option<usize>)
    requires
        start <= end <= buf@.len(),
    ensures
        res == parse_usize_spec(buf@.subrange(start as int, end as int)),
{
    let ghost s = buf@.subrange(start as int, end as int);
    let mut from = start;
    if start < end && buf[start] == 43 {
        from = start + 1;
        assert(s.drop_first() =~= buf@.subrange(from as int, end as int));
    } else {
        assert(s =~= buf@.subrange(from as int, end as int));
    }
    match parse_digits(buf, from, end, usize::MAX as u64) {
        Some(v) => Some(v as usize),
        None => None,
    }
}

/// Parses `buf[start..end]` as `i64::from_str` does.
pub fn parse_i64_at(buf: &[u8], start: usize, end: usize) -> (res: Option<i64>)
    requires
        start <= end <= buf@.len(),
    ensures
        res == parse_i64_spec(buf@.subrange(start as int, end as int)),
{
    let ghost s = buf@.subrange(start as int, end as int);
    if start < end && buf[start] == 45 {
        assert(s.drop_first() =~= buf@.subrange(start + 1, end as int));
        match parse_digits(buf, start + 1, end, 9223372036854775808u64) {
            Some(v) => {
                if v == 9223372036854775808u64 {
                    Some(i64::MIN)
                } else {
                    Some(-(v as i64))
                }
            },
            None => None,
        }
    } else {
        let mut from = start;
        if start < end && buf[start] == 43 {
            from = start + 1;
            assert(s.drop_first() =~= buf@.subrange(from as int, end as int));
        } else {
            assert(s =~= buf@.subrange(from as int, end as int));
        }
        match parse_digits(buf, from, end, i64::MAX as u64) {
            Some(v) => Some(v as i64),
            None => None,
        }
    }
}


/// `pat` occurs in `text` at position `i`.
pub open spec fn occurs_at(text: Seq<u8>, pat: Seq<u8>, i: int) -> bool {
    0 <= i && i + pat.len() <= text.len() && text.subrange(i, i + pat.len()) == pat
}

/// `pat` occurs somewhere in `text` (what `str::contains` with a `&str` pattern tests).
pub open spec fn bytes_contain(text: Seq<u8>, pat: Seq<u8>) -> bool {
    exists|i: int| occurs_at(text, pat, i)
}

/// Whether `pat` occurs in `text`.
pub fn str_contains(text: &str, pat: &str) -> (res: bool)
    ensures
        res == bytes_contain(text.spec_bytes(), pat.spec_bytes()),
{
    let t = text.as_bytes();
    let p = pat.as_bytes();
    if p.len() > t.len() {
        assert(!bytes_contain(t@, p@));
        return false;
    }
    let tl = t.len();
    let last = tl - p.len();
    let mut i: usize = 0;
    loop
        invariant
            t@ == text.spec_bytes(),
            p@ == pat.spec_bytes(),
            p@.len() <= t@.len(),
            tl == t@.len(),
            last == t@.len() - p@.len(),
            0 <= i <= last,
            forall|j: int| 0 <= j < i ==> !occurs_at(t@, p@, j),
        decreases last - i,
    {
        let mut k: usize = 0;
        let mut same = true;
        while k < p.len()
            invariant
                p@.len() <= t@.len(),
                tl == t@.len(),
                0 <= i <= last,
                last == t@.len() - p@.len(),
                0 <= k <= p@.len(),
                same == (forall|m: int| 0 <= m < k ==> t@[i + m] == p@[m]),
            decreases p@.len() - k,
        {
            if t[i + k] != p[k] {
                same = false;
            }
            k = k + 1;
        }
        if same {
            assert(occurs_at(t@, p@, i as int)) by {
                assert(t@.subrange(i as int, i + p@.len()) =~= p@);
            }
            return true;
        }
        assert(!occurs_at(t@, p@, i as int)) by {
            let m = choose|m: int| 0 <= m < p@.len() && t@[i + m] != p@[m];
            if t@.subrange(i as int, i + p@.len()) == p@ {
                assert(t@.subrange(i as int, i + p@.len())[m] == t@[i + m]);
            }
        }
        if i == last {
            assert(!bytes_contain(t@, p@));
            return false;
        }
        i = i + 1;
    }
}

/// ASCII lower-casing of one byte.
pub open spec fn ascii_lower(b: u8) -> u8 {
    if 65 <= b <= 90 {
        (b + 32) as u8
    } else {
        b
    }
}

/// Equality up to ASCII case (what `str::eq_ignore_ascii_case` tests).
pub open spec fn bytes_eq_ignore_ascii_case(a: Seq<u8>, b: Seq<u8>) -> bool {
    a.len() == b.len() && forall|i: int| 0 <= i < a.len() ==> ascii_lower(#[trigger] a[i]) == ascii_lower(b[i])
}

/// Whether two strings are equal up to ASCII case.
pub fn str_eq_ignore_ascii_case(a: &str, b: &str) -> (res: bool)
    ensures
        res == bytes_eq_ignore_ascii_case(a.spec_bytes(), b.spec_bytes()),
{
    let x = a.as_bytes();
    let y = b.as_bytes();
    if x.len() != y.len() {
        return false;
    }
    let mut i: usize = 0;
    while i < x.len()
        invariant
            x@ == a.spec_bytes(),
            y@ == b.spec_bytes(),
            x@.len() == y@.len(),
            0 <= i <= x@.len(),
            forall|j: int| 0 <= j < i ==> ascii_lower(#[trigger] x@[j]) == ascii_lower(y@[j]),
        decreases x@.len() - i,
    {
        let c = x[i];
        let d = y[i];
        let lc: u8 = if 65 <= c && c <= 90 { c + 32 } else { c };
        let ld: u8 = if 65 <= d && d <= 90 { d + 32 } else { d };
        if lc != ld {
            return false;
        }
        i = i + 1;
    }
    true
}


/// The number of decimal digits of `n`.
pub fn decimal_len(n: u64) -> (res: usize)
    ensures
        res as nat == dec_digits(n as nat).len(),
        1 <= res <= 20,
    decreases n,
{
    proof {
        lemma_dec_digits_len_bound(n as nat);
    }
    if n >= 10 {
        decimal_len(n / 10) + 1
    } else {
        1
    }
}

pub proof fn lemma_dec_digits_len_bound(n: nat)
    ensures
        1 <= dec_digits(n).len(),
        n <= u64::MAX ==> dec_digits(n).len() <= 20,
    decreases n,
{
    if n >= 10 {
        lemma_dec_digits_len_bound(n / 10);
    }
    if n <= u64::MAX {
        assert(pow10(20) == 100000000000000000000nat) by {
            reveal_with_fuel(pow10, 21);
        }
        lemma_dec_digits_len_le(n, 20);
    }
}

/// Numbers below `10^k` have at most `k` digits.
pub proof fn lemma_dec_digits_len_le(n: nat, k: nat)
    requires
        k >= 1,
        n < pow10(k),
    ensures
        dec_digits(n).len() <= k,
    decreases n,
{
    if n >= 10 {
        assert(k >= 2) by {
            if k == 1 {
                assert(pow10(1) == 10) by {
                    reveal_with_fuel(pow10, 2);
                }
            }
        }
        assert(pow10(k) == 10 * pow10((k - 1) as nat));
        assert(n / 10 < pow10((k - 1) as nat));
        lemma_dec_digits_len_le(n / 10, (k - 1) as nat);
    }
}

/// Ten to the power `k`.
pub open spec fn pow10(k: nat) -> nat
    decreases k,
{
    if k == 0 {
        1
    } else {
        10 * pow10((k - 1) as nat)
    }
}


/// Decimal digits read back to the number they were written from.
pub proof fn lemma_dec_digits_value(n: nat)
    ensures
        all_digits(dec_digits(n)),
        digits_value(dec_digits(n)) == n,
        dec_digits(n).len() > 0,
    decreases n,
{
    lemma_dec_digits_ascii(n);
    if n >= 10 {
        lemma_dec_digits_value(n / 10);
        assert(dec_digits(n).drop_last() =~= dec_digits(n / 10));
        assert(dec_digits(n).last() == ((n % 10) + 48) as u8);
        assert(((n % 10) + 48) as u8 == (n % 10) + 48);
        assert(n == (n / 10) * 10 + n % 10);
        assert(digits_value(dec_digits(n)) == digits_value(dec_digits(n / 10)) * 10 + (n % 10));
        assert(digits_value(dec_digits(n / 10)) == n / 10);
        assert(digits_value(dec_digits(n)) == n);
    } else {
        assert(dec_digits(n).drop_last() =~= Seq::<u8>::empty());
        assert(dec_digits(n).last() == (n + 48) as u8);
        assert((n + 48) as u8 == n + 48);
        assert(digits_value(Seq::<u8>::empty()) == 0);
        assert(digits_value(dec_digits(n)) == n);
    }
}

/// `usize::from_str` reads back what `usize::to_string` wrote.
pub proof fn lemma_parse_usize_dec(n: nat)
    requires
        n <= usize::MAX,
    ensures
        parse_usize_spec(dec_digits(n)) == Some(n as usize),
{
    lemma_dec_digits_value(n);
}

/// `i64::from_str` reads back a non-negative number written in decimal.
pub proof fn lemma_parse_i64_dec(n: nat)
    requires
        n <= i64::MAX,
    ensures
        parse_i64_spec(dec_digits(n)) == Some(n as i64),
{
    lemma_dec_digits_value(n);
}


/// Whether two strings have the same text.
pub fn str_equal(a: &str, b: &str) -> (res: bool)
    ensures
        res == (a@ == b@),
{
    let x = a.as_bytes();
    let y = b.as_bytes();
    proof {
        encode_utf8_decode_utf8(a@);
        encode_utf8_decode_utf8(b@);
    }
    if x.len() != y.len() {
        return false;
    }
    let mut i: usize = 0;
    while i < x.len()
        invariant
            x@ == a.spec_bytes(),
            y@ == b.spec_bytes(),
            x@.len() == y@.len(),
            0 <= i <= x@.len(),
            forall|j: int| 0 <= j < i ==> x@[j] == y@[j],
        decreases x@.len() - i,
    {
        if x[i] != y[i] {
            return false;
        }
        i = i + 1;
    }
    assert(x@ =~= y@);
    true
}

} // verus!
