//! A concrete codec: values as canonical JSON bytes.
//!
//! An integer is rendered in decimal with no leading zeros and no `-0`; a
//! pair `(a, b)` is rendered as `[a,b]`. Decoding accepts exactly the bytes
//! that encoding produces, so the payload representation is canonical and
//! decoding inverts encoding.

use vstd::prelude::*;
use vstd::arithmetic::div_mod::lemma_fundamental_div_mod;

use crate::codec::{Codec, DecodeFor, EncodeFor};
use crate::consumer_provider::YapsData;
use crate::error::Error;
use crate::value::Value;

verus! {

/// Byte values of the characters the codec emits.
pub open spec fn is_digit(b: u8) -> bool {
    48 <= b && b <= 57
}

/// The decimal digits of `n`, most significant first.
pub open spec fn dec_digits(n: nat) -> Seq<u8>
    decreases n,
{
    if n < 10 {
        seq![(48 + n) as u8]
    } else {
        dec_digits(n / 10).push((48 + n % 10) as u8)
    }
}

/// The canonical byte rendering of the integer `n`.
pub open spec fn int_bytes(n: int) -> Seq<u8> {
    if n < 0 {
        seq![45u8] + dec_digits((-n) as nat)
    } else {
        dec_digits(n as nat)
    }
}

/// The canonical byte rendering of a value.
pub open spec fn json_bytes(v: Value) -> Seq<u8> {
    match v {
        Value::Int(n) => int_bytes(n as int),
        Value::Pair(a, b) => seq![91u8] + int_bytes(a as int) + seq![44u8] + int_bytes(
            b as int,
        ) + seq![93u8],
    }
}

/// Every byte of `s` is a decimal digit.
pub open spec fn all_digits(s: Seq<u8>) -> bool {
    forall|i: int| 0 <= i < s.len() ==> is_digit(s[i])
}

/// `s` is a canonical unsigned decimal: nonempty, digits only, and no
/// leading zero unless `s` is exactly `0`.
pub open spec fn canonical_digits(s: Seq<u8>) -> bool {
    &&& s.len() > 0
    &&& all_digits(s)
    &&& (s[0] == 48 ==> s.len() == 1)
}

/// The number denoted by the digit string `s`.
pub open spec fn digits_val(s: Seq<u8>) -> nat
    decreases s.len(),
{
    if s.len() == 0 {
        0
    } else {
        digits_val(s.drop_last()) * 10 + (s.last() - 48) as nat
    }
}

/// The integer denoted by a canonical signed decimal, if `s` is one that
/// fits an `i64`.
pub open spec fn parse_int(s: Seq<u8>) -> Option<i64> {
    if s.len() > 0 && s[0] == 45 {
        let u = s.drop_first();
        if canonical_digits(u) && 0 < digits_val(u) <= 0x8000000000000000 {
            Some((-(digits_val(u) as int)) as i64)
        } else {
            None
        }
    } else {
        if canonical_digits(s) && digits_val(s) <= 0x7fffffffffffffff {
            Some(digits_val(s) as i64)
        } else {
            None
        }
    }
}

/// The index of the first comma in `s`, if any.
pub open spec fn first_comma(s: Seq<u8>) -> Option<int>
    decreases s.len(),
{
    if s.len() == 0 {
        None
    } else if s[0] == 44 {
        Some(0)
    } else {
        match first_comma(s.drop_first()) {
            Some(i) => Some(i + 1),
            None => None,
        }
    }
}

/// The value denoted by the byte string `d`, if `d` is the canonical
/// rendering of one.
pub open spec fn parse_value(d: Seq<u8>) -> Option<Value> {
    if d.len() >= 2 && d[0] == 91 && d[d.len() - 1] == 93 {
        let inner = d.subrange(1, d.len() - 1);
        match first_comma(inner) {
            Some(k) => match (parse_int(inner.take(k)), parse_int(inner.skip(k + 1))) {
                (Some(a), Some(b)) => Some(Value::Pair(a, b)),
                _ => None,
            },
            None => None,
        }
    } else {
        match parse_int(d) {
            Some(n) => Some(Value::Int(n)),
            None => None,
        }
    }
}

/// `dec_digits(n)` is a canonical digit string denoting `n`, and starts
/// with `0` only for `n == 0`.
proof fn lemma_dec_digits(n: nat)
    ensures
        canonical_digits(dec_digits(n)),
        digits_val(dec_digits(n)) == n,
        dec_digits(n)[0] == 48 <==> n == 0,
        dec_digits(n).len() >= 1,
    decreases n,
{
    if n < 10 {
        let s = dec_digits(n);
        assert(s == seq![(48 + n) as u8]);
        assert(s.drop_last() =~= Seq::<u8>::empty());
        assert(digits_val(s.drop_last()) == 0);
        assert(s.last() == (48 + n) as u8);
        assert(digits_val(s) == digits_val(s.drop_last()) * 10 + (s.last() - 48) as nat);
        assert((s.last() - 48) as nat == n);
        assert(digits_val(s) == n);
    } else {
        lemma_dec_digits(n / 10);
        lemma_fundamental_div_mod(n as int, 10);
        let prev = dec_digits(n / 10);
        let last = (48 + n % 10) as u8;
        let s = dec_digits(n);
        assert(s == prev.push(last));
        assert(s.drop_last() =~= prev);
        assert(s.last() == last);
        assert(n % 10 < 10) by {
            vstd::arithmetic::div_mod::lemma_mod_bound(n as int, 10);
        }
        assert(is_digit(last));
        assert(forall|i: int| 0 <= i < s.len() ==> is_digit(#[trigger] s[i])) by {
            assert(forall|i: int| 0 <= i < prev.len() ==> is_digit(#[trigger] prev[i]));
            assert(forall|i: int|
                0 <= i < s.len() ==> s[i] == (if i < prev.len() {
                    prev[i]
                } else {
                    last
                }));
        }
        assert(s[0] == prev[0]);
        assert(n / 10 >= 1) by {
            vstd::arithmetic::div_mod::lemma_div_non_zero(n as int, 10);
        }
        assert(s[0] != 48);
        assert(digits_val(s) == digits_val(prev) * 10 + (last - 48) as nat);
        assert(digits_val(s) == (n / 10) * 10 + n % 10);
        assert(n / 10 * 10 + n % 10 == n);
    }
}

/// `int_bytes(n)` never contains a comma or a bracket, and never starts
/// with `[`.
proof fn lemma_int_bytes_plain(n: int)
    ensures
        forall|i: int|
            0 <= i < int_bytes(n).len() ==> (#[trigger] int_bytes(n)[i] == 45 || is_digit(
                int_bytes(n)[i],
            )),
        int_bytes(n).len() > 0,
{
    if n < 0 {
        lemma_dec_digits((-n) as nat);
        let d = dec_digits((-n) as nat);
        let s = int_bytes(n);
        assert(s == seq![45u8] + d);
        assert(forall|i: int|
            0 <= i < s.len() ==> s[i] == (if i == 0 {
                45u8
            } else {
                d[i - 1]
            }));
    } else {
        lemma_dec_digits(n as nat);
    }
}

/// In `s1 + , + s2` with `s1` comma-free, the first comma is the one
/// between them.
proof fn lemma_first_comma_concat(s1: Seq<u8>, s2: Seq<u8>)
    requires
        forall|i: int| 0 <= i < s1.len() ==> s1[i] != 44,
    ensures
        first_comma(s1 + seq![44u8] + s2) == Some(s1.len() as int),
    decreases s1.len(),
{
    let s = s1 + seq![44u8] + s2;
    if s1.len() == 0 {
        assert(s[0] == 44);
    } else {
        assert(s[0] == s1[0]);
        assert(s[0] != 44);
        assert(s.drop_first() =~= s1.drop_first() + seq![44u8] + s2);
        lemma_first_comma_concat(s1.drop_first(), s2);
    }
}

/// Parsing inverts rendering for every `i64`.
proof fn lemma_parse_int_bytes(n: i64)
    ensures
        parse_int(int_bytes(n as int)) == Some(n),
{
    if n < 0 {
        let m = (-(n as int)) as nat;
        lemma_dec_digits(m);
        let d = dec_digits(m);
        let s = int_bytes(n as int);
        assert(s == seq![45u8] + d);
        assert(s[0] == 45);
        assert(s.drop_first() =~= d);
        assert(0 < digits_val(d) <= 0x8000000000000000);
        assert((-(digits_val(d) as int)) as i64 == n);
    } else {
        let s = int_bytes(n as int);
        assert(s == dec_digits(n as nat));
        lemma_dec_digits(n as nat);
        assert(is_digit(s[0]));
        assert(s[0] != 45);
        assert(digits_val(s) == n as nat);
        assert(digits_val(s) <= 0x7fffffffffffffff);
    }
}

/// Powers of ten, for digit-count bounds.
pub open spec fn pow10(k: nat) -> nat
    decreases k,
{
    if k == 0 {
        1
    } else {
        10 * pow10((k - 1) as nat)
    }
}

proof fn lemma_pow10_values()
    ensures
        pow10(18) == 1000000000000000000,
        pow10(19) == 10000000000000000000,
{
    reveal_with_fuel(pow10, 21);
}

proof fn lemma_pow10_pos(a: nat)
    ensures
        pow10(a) >= 1,
    decreases a,
{
    if a > 0 {
        lemma_pow10_pos((a - 1) as nat);
    }
}

proof fn lemma_pow10_mono(a: nat, b: nat)
    requires
        a <= b,
    ensures
        1 <= pow10(a) <= pow10(b),
    decreases b,
{
    lemma_pow10_pos(a);
    if a < b {
        lemma_pow10_mono(a, (b - 1) as nat);
    }
}

/// A digit string denotes a number below `pow10` of its length.
proof fn lemma_digits_val_upper(s: Seq<u8>)
    requires
        all_digits(s),
    ensures
        digits_val(s) < pow10(s.len()),
    decreases s.len(),
{
    if s.len() == 0 {
    } else {
        assert(all_digits(s.drop_last())) by {
            assert(forall|i: int| 0 <= i < s.len() - 1 ==> s.drop_last()[i] == s[i]);
        }
        lemma_digits_val_upper(s.drop_last());
        assert(is_digit(s.last()));
        assert((s.last() - 48) as nat <= 9);
    }
}

/// A digit string with a nonzero leading digit denotes at least `pow10` of
/// its length less one.
proof fn lemma_digits_val_lower(s: Seq<u8>)
    requires
        all_digits(s),
        s.len() >= 1,
        s[0] != 48,
    ensures
        digits_val(s) >= pow10((s.len() - 1) as nat),
    decreases s.len(),
{
    if s.len() == 1 {
        assert(digits_val(s.drop_last()) == 0) by {
            assert(s.drop_last() =~= Seq::<u8>::empty());
        }
        assert(is_digit(s[0]));
        assert((s.last() - 48) as nat >= 1);
    } else {
        assert(all_digits(s.drop_last())) by {
            assert(forall|i: int| 0 <= i < s.len() - 1 ==> s.drop_last()[i] == s[i]);
        }
        assert(s.drop_last()[0] == s[0]);
        lemma_digits_val_lower(s.drop_last());
    }
}

/// Decoding inverts encoding: the canonical rendering of any value parses
/// back to that value.
pub proof fn lemma_json_round_trip(v: Value)
    ensures
        parse_value(json_bytes(v)) == Some(v),
{
    match v {
        Value::Int(n) => {
            let d = json_bytes(v);
            lemma_int_bytes_plain(n as int);
            assert(d[0] != 91);
            lemma_parse_int_bytes(n);
        },
        Value::Pair(a, b) => {
            let ia = int_bytes(a as int);
            let ib = int_bytes(b as int);
            let d = json_bytes(v);
            assert(d == seq![91u8] + ia + seq![44u8] + ib + seq![93u8]);
            lemma_int_bytes_plain(a as int);
            lemma_int_bytes_plain(b as int);
            let inner = ia + seq![44u8] + ib;
            assert(d.len() == inner.len() + 2);
            assert(d[0] == 91);
            assert(d[d.len() - 1] == 93);
            assert(d.subrange(1, d.len() - 1) =~= inner);
            assert(forall|i: int| 0 <= i < ia.len() ==> ia[i] != 44) by {
                assert(forall|i: int|
                    0 <= i < ia.len() ==> (#[trigger] ia[i] == 45 || is_digit(ia[i])));
            }
            lemma_first_comma_concat(ia, ib);
            let k = ia.len() as int;
            assert(first_comma(inner) == Some(k));
            assert(inner.take(k) =~= ia);
            assert(inner.skip(k + 1) =~= ib);
            lemma_parse_int_bytes(a);
            lemma_parse_int_bytes(b);
        },
    }
}

proof fn lemma_first_comma_at(s: Seq<u8>, i: int)
    requires
        0 <= i < s.len(),
        s[i] == 44,
        forall|j: int| 0 <= j < i ==> s[j] != 44,
    ensures
        first_comma(s) == Some(i),
    decreases i,
{
    if i > 0 {
        assert(s[0] != 44);
        assert(forall|j: int| 0 <= j < i - 1 ==> s.drop_first()[j] == s[j + 1]);
        lemma_first_comma_at(s.drop_first(), i - 1);
    }
}

proof fn lemma_first_comma_none(s: Seq<u8>)
    requires
        forall|j: int| 0 <= j < s.len() ==> s[j] != 44,
    ensures
        first_comma(s) == None::<int>,
    decreases s.len(),
{
    if s.len() > 0 {
        assert(forall|j: int| 0 <= j < s.len() - 1 ==> s.drop_first()[j] == s[j + 1]);
        lemma_first_comma_none(s.drop_first());
    }
}

/// Append the decimal digits of `m` to `out`.
fn push_digits(out: &mut Vec<u8>, m: u64)
    ensures
        final(out)@ == old(out)@ + dec_digits(m as nat),
{
    let mut tmp: Vec<u8> = Vec::new();
    let mut n = m;
    while n >= 10
        invariant
            dec_digits(m as nat) =~= dec_digits(n as nat) + tmp@.reverse(),
        decreases n,
    {
        let d: u8 = 48 + (n % 10) as u8;
        proof {
            let prev = tmp@;
            assert((prev.push(d)).reverse() =~= seq![d] + prev.reverse());
            assert(dec_digits(n as nat) == dec_digits((n as nat) / 10).push(d));
            assert(dec_digits((n as nat) / 10).push(d) =~= dec_digits((n as nat) / 10) + seq![d]);
            assert((n / 10) as nat == (n as nat) / 10);
        }
        tmp.push(d);
        n = n / 10;
    }
    let d: u8 = 48 + n as u8;
    proof {
        let prev = tmp@;
        assert((prev.push(d)).reverse() =~= seq![d] + prev.reverse());
        assert(dec_digits(n as nat) =~= seq![d]);
    }
    tmp.push(d);
    assert(dec_digits(m as nat) =~= tmp@.reverse());
    let count = tmp.len();
    let mut j: usize = 0;
    while j < count
        invariant
            count == tmp@.len(),
            0 <= j <= count,
            out@ =~= old(out)@ + tmp@.reverse().take(j as int),
        decreases count - j,
    {
        let b = tmp[count - 1 - j];
        proof {
            assert(tmp@.reverse()[j as int] == b);
            assert(tmp@.reverse().take(j + 1) =~= tmp@.reverse().take(j as int).push(b));
        }
        out.push(b);
        j += 1;
    }
    assert(tmp@.reverse().take(count as int) =~= tmp@.reverse());
}

/// Append the canonical rendering of `n` to `out`.
fn push_int(out: &mut Vec<u8>, n: i64)
    ensures
        final(out)@ == old(out)@ + int_bytes(n as int),
{
    if n < 0 {
        out.push(45);
        let m: u64 = if n == i64::MIN {
            9223372036854775808u64
        } else {
            (-n) as u64
        };
        assert(m as nat == (-(n as int)) as nat);
        push_digits(out, m);
        assert(old(out)@ + seq![45u8] + dec_digits(m as nat) =~= old(out)@ + int_bytes(n as int));
    } else {
        push_digits(out, n as u64);
    }
}

/// The canonical rendering of a value, as bytes.
pub fn encode_value(v: &Value) -> (r: Vec<u8>)
    ensures
        r@ == json_bytes(*v),
{
    let mut out: Vec<u8> = Vec::new();
    match *v {
        Value::Int(n) => {
            push_int(&mut out, n);
            assert(out@ =~= json_bytes(*v));
        },
        Value::Pair(a, b) => {
            out.push(91);
            push_int(&mut out, a);
            out.push(44);
            push_int(&mut out, b);
            out.push(93);
            assert(out@ =~= json_bytes(*v));
        },
    }
    out
}

/// Parse the bytes of `v` between `start` and `end` as a canonical
/// unsigned decimal of at most `2^63`.
fn parse_uint(v: &Vec<u8>, start: usize, end: usize) -> (r: Option<u64>)
    requires
        start <= end <= v@.len(),
    ensures
        ({
            let s = v@.subrange(start as int, end as int);
            match r {
                Some(u) => canonical_digits(s) && digits_val(s) == u as nat && u
                    <= 9223372036854775808u64,
                None => !(canonical_digits(s) && digits_val(s) <= 9223372036854775808),
            }
        }),
{
    let ghost s = v@.subrange(start as int, end as int);
    let len = end - start;
    if len == 0 {
        return None;
    }
    if v[start] == 48 && len > 1 {
        return None;
    }
    if len > 19 {
        proof {
            if canonical_digits(s) {
                assert(s[0] != 48);
                lemma_digits_val_lower(s);
                lemma_pow10_mono(19, (s.len() - 1) as nat);
                lemma_pow10_values();
            }
        }
        return None;
    }
    let mut val: u64 = 0;
    let mut i = start;
    while i < end
        invariant
            start <= i <= end <= v@.len(),
            end - start <= 19,
            s == v@.subrange(start as int, end as int),
            all_digits(s.take(i - start)),
            digits_val(s.take(i - start)) == val as nat,
            val < pow10((i - start) as nat),
        decreases end - i,
    {
        let b = v[i];
        if b < 48 || b > 57 {
            proof {
                assert(s[i - start] == b);
                assert(!is_digit(b));
                assert(!all_digits(s));
            }
            return None;
        }
        proof {
            let k = i - start;
            assert(s.take(k + 1).drop_last() =~= s.take(k as int));
            assert(s.take(k + 1).last() == s[k as int]);
            assert(s[k as int] == b);
            lemma_pow10_mono((i - start + 1) as nat, 19);
            lemma_pow10_values();
        }
        val = val * 10 + (b - 48) as u64;
        i += 1;
    }
    assert(s.take((end - start) as int) =~= s);
    if val <= 9223372036854775808u64 {
        Some(val)
    } else {
        None
    }
}

/// Parse the bytes of `v` between `start` and `end` as a canonical signed
/// decimal that fits an `i64`.
fn parse_int_range(v: &Vec<u8>, start: usize, end: usize) -> (r: Option<i64>)
    requires
        start <= end <= v@.len(),
    ensures
        r == parse_int(v@.subrange(start as int, end as int)),
{
    let ghost s = v@.subrange(start as int, end as int);
    if end > start && v[start] == 45 {
        assert(s[0] == 45);
        assert(v@.subrange(start + 1, end as int) =~= s.drop_first());
        match parse_uint(v, start + 1, end) {
            Some(u) => {
                if u == 0 {
                    None
                } else {
                    if u == 9223372036854775808u64 {
                        Some(i64::MIN)
                    } else {
                        Some(-(u as i64))
                    }
                }
            },
            None => None,
        }
    } else {
        match parse_uint(v, start, end) {
            Some(u) => {
                if u <= 9223372036854775807u64 {
                    Some(u as i64)
                } else {
                    None
                }
            },
            None => None,
        }
    }
}

/// Parse a full byte string as the canonical rendering of a value.
pub fn decode_value(d: &Vec<u8>) -> (r: Option<Value>)
    ensures
        r == parse_value(d@),
{
    let n = d.len();
    if n >= 2 && d[0] == 91 && d[n - 1] == 93 {
        let ghost inner = d@.subrange(1, n - 1);
        let mut k: usize = 1;
        while k < n - 1 && d[k] != 44
            invariant
                1 <= k <= n - 1,
                n == d@.len(),
                n >= 2,
                forall|j: int| 1 <= j < k ==> d@[j] != 44,
            decreases n - 1 - k,
        {
            k += 1;
        }
        assert(forall|j: int| 0 <= j < k - 1 ==> inner[j] == d@[j + 1] && inner[j] != 44);
        if k < n - 1 {
            proof {
                assert(inner[k - 1] == d@[k as int]);
                lemma_first_comma_at(inner, k - 1);
            }
            let a = match parse_int_range(d, 1, k) {
                Some(a) => a,
                None => {
                    proof {
                        assert(inner.take(k - 1) =~= d@.subrange(1, k as int));
                    }
                    return None;
                },
            };
            let b = match parse_int_range(d, k + 1, n - 1) {
                Some(b) => b,
                None => {
                    proof {
                        assert(inner.take(k - 1) =~= d@.subrange(1, k as int));
                        assert(inner.skip(k as int) =~= d@.subrange(k + 1, n - 1));
                    }
                    return None;
                },
            };
            proof {
                assert(inner.take(k - 1) =~= d@.subrange(1, k as int));
                assert(inner.skip(k as int) =~= d@.subrange(k + 1, n - 1));
            }
            Some(Value::Pair(a, b))
        } else {
            proof {
                lemma_first_comma_none(inner);
            }
            None
        }
    } else {
        assert(d@.subrange(0, n as int) =~= d@);
        match parse_int_range(d, 0, n) {
            Some(x) => Some(Value::Int(x)),
            None => None,
        }
    }
}

/// Payload bytes produced and accepted by [`JsonCodec`].
#[derive(Debug, Clone)]
pub struct JsonData(Vec<u8>);

impl View for JsonData {
    type V = Seq<u8>;

    closed spec fn view(&self) -> Seq<u8> {
        self.0@
    }
}

impl YapsData for JsonData {

}

impl JsonData {
    /// Wrap raw bytes as a payload.
    pub fn from_bytes(b: Vec<u8>) -> (r: JsonData)
        ensures
            r@ == b@,
    {
        JsonData(b)
    }

    /// The raw bytes of this payload.
    pub fn bytes(&self) -> (r: &Vec<u8>)
        ensures
            r@ == self@,
    {
        &self.0
    }
}

/// The codec that renders values as canonical JSON bytes.
#[derive(Debug, Clone, Default)]
pub struct JsonCodec;

impl Codec for JsonCodec {
    type Data = JsonData;

    /// Every value has a canonical rendering.
    open spec fn enc_ok(&self, v: Value) -> bool {
        true
    }

    open spec fn enc_spec(&self, v: Value) -> Seq<u8> {
        json_bytes(v)
    }

    open spec fn dec_spec(&self, d: Seq<u8>) -> Option<Value> {
        parse_value(d)
    }

    fn encode(&self, v: &Value) -> (r: Result<JsonData, Error>) {
        Ok(JsonData(encode_value(v)))
    }

    fn decode(&self, d: JsonData) -> (r: Result<Value, Error>) {
        match decode_value(&d.0) {
            Some(v) => Ok(v),
            None => Err(Error::Decode(String::from_str("payload is not a canonical rendering"))),
        }
    }

    proof fn codec_round_trip(&self, v: Value) {
        lemma_json_round_trip(v);
    }
}

impl EncodeFor<JsonCodec, i64> for JsonCodec {
    open spec fn as_value(obj: i64) -> Value {
        Value::Int(obj)
    }

    fn encode(codec: &JsonCodec, obj: i64) -> (r: Result<JsonData, Error>) {
        codec.encode(&Value::Int(obj))
    }
}

impl EncodeFor<JsonCodec, (i64, i64)> for JsonCodec {
    open spec fn as_value(obj: (i64, i64)) -> Value {
        Value::Pair(obj.0, obj.1)
    }

    fn encode(codec: &JsonCodec, obj: (i64, i64)) -> (r: Result<JsonData, Error>) {
        codec.encode(&Value::Pair(obj.0, obj.1))
    }
}

impl EncodeFor<JsonCodec, Value> for JsonCodec {
    open spec fn as_value(obj: Value) -> Value {
        obj
    }

    fn encode(codec: &JsonCodec, obj: Value) -> (r: Result<JsonData, Error>) {
        codec.encode(&obj)
    }
}

impl DecodeFor<JsonCodec, i64> for JsonCodec {
    open spec fn of_value(v: Value) -> Option<i64> {
        match v {
            Value::Int(n) => Some(n),
            Value::Pair(..) => None,
        }
    }

    fn decode(codec: &JsonCodec, data: JsonData) -> (r: Result<i64, Error>) {
        let v = codec.decode(data)?;
        match v.as_int() {
            Some(n) => Ok(n),
            None => Err(Error::Decode(String::from_str("expected a single integer"))),
        }
    }
}

impl DecodeFor<JsonCodec, (i64, i64)> for JsonCodec {
    open spec fn of_value(v: Value) -> Option<(i64, i64)> {
        match v {
            Value::Pair(a, b) => Some((a, b)),
            Value::Int(..) => None,
        }
    }

    fn decode(codec: &JsonCodec, data: JsonData) -> (r: Result<(i64, i64), Error>) {
        let v = codec.decode(data)?;
        match v.as_pair() {
            Some(p) => Ok(p),
            None => Err(Error::Decode(String::from_str("expected a pair of integers"))),
        }
    }
}

impl DecodeFor<JsonCodec, Value> for JsonCodec {
    open spec fn of_value(v: Value) -> Option<Value> {
        Some(v)
    }

    fn decode(codec: &JsonCodec, data: JsonData) -> (r: Result<Value, Error>) {
        codec.decode(data)
    }
}

} // verus!
