//! Reading a scalar token as a value of a requested kind.
use crate::error::{Error, Kind};
use crate::text::text;
use vstd::prelude::*;
use vstd::string::StrSliceExecFns;

verus! {

/// The bytes of `yes`.
pub open spec fn word_yes() -> Seq<u8> {
    seq![0x79u8, 0x65, 0x73]
}

/// The bytes of `no`.
pub open spec fn word_no() -> Seq<u8> {
    seq![0x6eu8, 0x6f]
}

/// The bytes of `true`.
pub open spec fn word_true() -> Seq<u8> {
    seq![0x74u8, 0x72, 0x75, 0x65]
}

/// The bytes of `false`.
pub open spec fn word_false() -> Seq<u8> {
    seq![0x66u8, 0x61, 0x6c, 0x73, 0x65]
}

/// The boolean a token stands for: `yes` and `true` are true, `no` and
/// `false` are false.
pub open spec fn bool_value(t: Seq<u8>) -> Option<bool> {
    if t == word_yes() || t == word_true() {
        Some(true)
    } else if t == word_no() || t == word_false() {
        Some(false)
    } else {
        None
    }
}

/// The error for a token that does not read as `kind`.
pub open spec fn is_coercion_error(e: Error, t: &str, kind: Kind) -> bool {
    e matches Error::DeserializationTypeError(m, k) && m@ == t@ && k == kind
}

fn coercion_error(t: &str, kind: Kind) -> (e: Error)
    ensures
        is_coercion_error(e, t, kind),
{
    Error::DeserializationTypeError(t.to_owned(), kind)
}

fn bytes_are(b: &[u8], w: &[u8]) -> (r: bool)
    ensures
        r == (b@ == w@),
{
    if b.len() != w.len() {
        return false;
    }
    let mut i: usize = 0;
    while i < b.len()
        invariant
            b@.len() == w@.len(),
            i <= b@.len(),
            forall|j: int| 0 <= j < i ==> b@[j] == w@[j],
        decreases b@.len() - i,
    {
        if b[i] != w[i] {
            return false;
        }
        i = i + 1;
    }
    proof {
        assert(b@ =~= w@);
    }
    true
}

/// Reads a token as a boolean: `yes` and `no` first, then the standard
/// `true` and `false`.
pub fn decode_bool(t: &str) -> (r: Result<bool, Error>)
    ensures
        match bool_value(text(t)) {
            Some(v) => r == Ok::<bool, Error>(v),
            None => (r matches Err(e) && is_coercion_error(e, t, Kind::Bool)),
        },
{
    let b = t.as_bytes();
    let yes: [u8; 3] = [0x79, 0x65, 0x73];
    let no: [u8; 2] = [0x6e, 0x6f];
    let tr: [u8; 4] = [0x74, 0x72, 0x75, 0x65];
    let fa: [u8; 5] = [0x66, 0x61, 0x6c, 0x73, 0x65];
    proof {
        assert(yes@ =~= word_yes());
        assert(no@ =~= word_no());
        assert(tr@ =~= word_true());
        assert(fa@ =~= word_false());
    }
    if bytes_are(b, yes.as_slice()) || bytes_are(b, tr.as_slice()) {
        Ok(true)
    } else if bytes_are(b, no.as_slice()) || bytes_are(b, fa.as_slice()) {
        Ok(false)
    } else {
        Err(coercion_error(t, Kind::Bool))
    }
}

/// Reads a token of exactly one character as that character.
pub fn decode_char(t: &str) -> (r: Result<char, Error>)
    ensures
        t@.len() == 1 ==> r == Ok::<char, Error>(t@[0]),
        t@.len() != 1 ==> (r matches Err(e) && is_coercion_error(e, t, Kind::Char)),
{
    if t.unicode_len() == 1 {
        Ok(t.get_char(0))
    } else {
        Err(coercion_error(t, Kind::Char))
    }
}

pub open spec fn is_digit(c: u8) -> bool {
    0x30 <= c <= 0x39
}

/// One or more decimal digits.
pub open spec fn all_digits(d: Seq<u8>) -> bool {
    d.len() >= 1 && forall|i: int| 0 <= i < d.len() ==> is_digit(#[trigger] d[i])
}

/// The number that decimal digits write.
pub open spec fn digits_value(d: Seq<u8>) -> int
    decreases d.len(),
{
    if d.len() == 0 {
        0
    } else {
        digits_value(d.drop_last()) * 10 + (d.last() - 0x30)
    }
}

/// The number an unsigned integer token writes: an optional `+`, then one
/// or more decimal digits.
pub open spec fn unsigned_value(t: Seq<u8>) -> Option<int> {
    let d = if t.len() > 0 && t[0] == 0x2b {
        t.drop_first()
    } else {
        t
    };
    if all_digits(d) {
        Some(digits_value(d))
    } else {
        None
    }
}

/// The number a signed integer token writes: an optional `+` or `-`, then
/// one or more decimal digits.
pub open spec fn signed_value(t: Seq<u8>) -> Option<int> {
    if t.len() > 0 && t[0] == 0x2d {
        if all_digits(t.drop_first()) {
            Some(-digits_value(t.drop_first()))
        } else {
            None
        }
    } else {
        unsigned_value(t)
    }
}

/// The number, if it lies between `lo` and `hi`.
pub open spec fn bounded(v: Option<int>, lo: int, hi: int) -> Option<int> {
    match v {
        Some(n) => if lo <= n <= hi {
            Some(n)
        } else {
            None
        },
        None => None,
    }
}

proof fn lemma_digits_grow(d: Seq<u8>, k: int)
    requires
        0 <= k <= d.len(),
        forall|i: int| 0 <= i < d.len() ==> is_digit(#[trigger] d[i]),
    ensures
        digits_value(d) >= digits_value(d.subrange(0, k)) >= 0,
    decreases d.len(),
{
    if d.len() > 0 {
        let p = d.drop_last();
        if k == d.len() {
            assert(d.subrange(0, k) =~= d);
            lemma_digits_grow(p, p.len() as int);
            assert(p.subrange(0, p.len() as int) =~= p);
        } else {
            lemma_digits_grow(p, k);
            assert(p.subrange(0, k) =~= d.subrange(0, k));
        }
    }
}

/// Reads the decimal digits from `start` to the end of `b`, up to `limit`.
fn read_digits(b: &[u8], start: usize, limit: u128) -> (r: Option<u128>)
    requires
        start <= b@.len(),
        limit >= 9,
    ensures
        ({
            let d = b@.subrange(start as int, b@.len() as int);
            match r {
                Some(v) => all_digits(d) && digits_value(d) == v && v <= limit,
                None => !all_digits(d) || digits_value(d) > limit,
            }
        }),
{
    let ghost d = b@.subrange(start as int, b@.len() as int);
    let mut i = start;
    let mut acc: u128 = 0;
    while i < b.len()
        invariant
            start <= i <= b@.len(),
            d == b@.subrange(start as int, b@.len() as int),
            forall|j: int| start <= j < i ==> is_digit(#[trigger] b@[j]),
            acc == digits_value(b@.subrange(start as int, i as int)),
            acc <= limit,
            limit >= 9,
        decreases b@.len() - i,
    {
        let c = b[i];
        if c < 0x30 || c > 0x39 {
            proof {
                assert(d[i - start] == c);
            }
            return None;
        }
        let dv = (c - 0x30) as u128;
        proof {
            assert(b@.subrange(start as int, i + 1).drop_last() =~= b@.subrange(start as int, i as int));
        }
        if acc > (limit - dv) / 10 {
            proof {
                assert(acc * 10 + dv > limit) by (nonlinear_arith)
                    requires
                        acc > (limit - dv) / 10,
                        dv <= 9,
                        limit >= 9,
                ;
                if forall|j: int| 0 <= j < d.len() ==> is_digit(#[trigger] d[j]) {
                    lemma_digits_grow(d, i + 1 - start);
                    assert(d.subrange(0, i + 1 - start) =~= b@.subrange(start as int, i + 1));
                }
            }
            return None;
        }
        proof {
            assert(acc * 10 + dv <= limit) by (nonlinear_arith)
                requires
                    acc <= (limit - dv) / 10,
                    dv <= 9,
                    limit >= 9,
            ;
        }
        acc = acc * 10 + dv;
        i = i + 1;
    }
    if i == start {
        return None;
    }
    proof {
        assert(b@.subrange(start as int, i as int) =~= d);
    }
    Some(acc)
}

/// Reads an unsigned integer token of at most `max`.
fn read_unsigned(t: &str, max: u128) -> (r: Option<u128>)
    requires
        max >= 9,
    ensures
        match bounded(unsigned_value(text(t)), 0, max as int) {
            Some(n) => r == Some(n as u128),
            None => r is None,
        },
        unsigned_value(text(t)) matches Some(n) ==> n >= 0,
{
    let b = t.as_bytes();
    let start: usize = if b.len() > 0 && b[0] == 0x2b {
        1
    } else {
        0
    };
    proof {
        assert(b@.subrange(start as int, b@.len() as int) =~= if b@.len() > 0 && b@[0] == 0x2b {
            b@.drop_first()
        } else {
            b@
        });
        let d = b@.subrange(start as int, b@.len() as int);
        if all_digits(d) {
            lemma_digits_grow(d, 0);
        }
    }
    read_digits(b, start, max)
}

/// Reads a signed integer token between `min` and `max`.
fn read_signed(t: &str, min: i128, max: i128) -> (r: Option<i128>)
    requires
        min <= -9,
        max >= 9,
    ensures
        match bounded(signed_value(text(t)), min as int, max as int) {
            Some(n) => r == Some(n as i128),
            None => r is None,
        },
{
    let b = t.as_bytes();
    if b.len() > 0 && b[0] == 0x2d {
        proof {
            assert(b@.subrange(1, b@.len() as int) =~= b@.drop_first());
            if all_digits(b@.drop_first()) {
                lemma_digits_grow(b@.drop_first(), 0);
            }
        }
        let limit: u128 = if min == i128::MIN {
            (i128::MAX as u128) + 1
        } else {
            (-min) as u128
        };
        match read_digits(b, 1, limit) {
            Some(m) => {
                if m > i128::MAX as u128 {
                    Some(i128::MIN)
                } else {
                    Some(-(m as i128))
                }
            },
            None => None,
        }
    } else {
        match read_unsigned(t, max as u128) {
            Some(m) => Some(m as i128),
            None => None,
        }
    }
}

/// Reads a token as a `u8`: an optional `+`, then decimal digits.
pub fn decode_u8(t: &str) -> (r: Result<u8, Error>)
    ensures
        match bounded(unsigned_value(text(t)), 0, u8::MAX as int) {
            Some(n) => r == Ok::<u8, Error>(n as u8),
            None => (r matches Err(e) && is_coercion_error(e, t, Kind::U8)),
        },
{
    match read_unsigned(t, u8::MAX as u128) {
        Some(v) => Ok(v as u8),
        None => Err(coercion_error(t, Kind::U8)),
    }
}

/// Reads a token as a `u16`: an optional `+`, then decimal digits.
pub fn decode_u16(t: &str) -> (r: Result<u16, Error>)
    ensures
        match bounded(unsigned_value(text(t)), 0, u16::MAX as int) {
            Some(n) => r == Ok::<u16, Error>(n as u16),
            None => (r matches Err(e) && is_coercion_error(e, t, Kind::U16)),
        },
{
    match read_unsigned(t, u16::MAX as u128) {
        Some(v) => Ok(v as u16),
        None => Err(coercion_error(t, Kind::U16)),
    }
}

/// Reads a token as a `u32`: an optional `+`, then decimal digits.
pub fn decode_u32(t: &str) -> (r: Result<u32, Error>)
    ensures
        match bounded(unsigned_value(text(t)), 0, u32::MAX as int) {
            Some(n) => r == Ok::<u32, Error>(n as u32),
            None => (r matches Err(e) && is_coercion_error(e, t, Kind::U32)),
        },
{
    match read_unsigned(t, u32::MAX as u128) {
        Some(v) => Ok(v as u32),
        None => Err(coercion_error(t, Kind::U32)),
    }
}

/// Reads a token as a `u64`: an optional `+`, then decimal digits.
pub fn decode_u64(t: &str) -> (r: Result<u64, Error>)
    ensures
        match bounded(unsigned_value(text(t)), 0, u64::MAX as int) {
            Some(n) => r == Ok::<u64, Error>(n as u64),
            None => (r matches Err(e) && is_coercion_error(e, t, Kind::U64)),
        },
{
    match read_unsigned(t, u64::MAX as u128) {
        Some(v) => Ok(v as u64),
        None => Err(coercion_error(t, Kind::U64)),
    }
}

/// Reads a token as a `u128`: an optional `+`, then decimal digits.
pub fn decode_u128(t: &str) -> (r: Result<u128, Error>)
    ensures
        match bounded(unsigned_value(text(t)), 0, u128::MAX as int) {
            Some(n) => r == Ok::<u128, Error>(n as u128),
            None => (r matches Err(e) && is_coercion_error(e, t, Kind::U128)),
        },
{
    match read_unsigned(t, u128::MAX as u128) {
        Some(v) => Ok(v as u128),
        None => Err(coercion_error(t, Kind::U128)),
    }
}

/// Reads a token as an `i8`: an optional `+` or `-`, then decimal digits.
pub fn decode_i8(t: &str) -> (r: Result<i8, Error>)
    ensures
        match bounded(signed_value(text(t)), i8::MIN as int, i8::MAX as int) {
            Some(n) => r == Ok::<i8, Error>(n as i8),
            None => (r matches Err(e) && is_coercion_error(e, t, Kind::I8)),
        },
{
    match read_signed(t, i8::MIN as i128, i8::MAX as i128) {
        Some(v) => Ok(v as i8),
        None => Err(coercion_error(t, Kind::I8)),
    }
}

/// Reads a token as an `i16`: an optional `+` or `-`, then decimal digits.
pub fn decode_i16(t: &str) -> (r: Result<i16, Error>)
    ensures
        match bounded(signed_value(text(t)), i16::MIN as int, i16::MAX as int) {
            Some(n) => r == Ok::<i16, Error>(n as i16),
            None => (r matches Err(e) && is_coercion_error(e, t, Kind::I16)),
        },
{
    match read_signed(t, i16::MIN as i128, i16::MAX as i128) {
        Some(v) => Ok(v as i16),
        None => Err(coercion_error(t, Kind::I16)),
    }
}

/// Reads a token as an `i32`: an optional `+` or `-`, then decimal digits.
pub fn decode_i32(t: &str) -> (r: Result<i32, Error>)
    ensures
        match bounded(signed_value(text(t)), i32::MIN as int, i32::MAX as int) {
            Some(n) => r == Ok::<i32, Error>(n as i32),
            None => (r matches Err(e) && is_coercion_error(e, t, Kind::I32)),
        },
{
    match read_signed(t, i32::MIN as i128, i32::MAX as i128) {
        Some(v) => Ok(v as i32),
        None => Err(coercion_error(t, Kind::I32)),
    }
}

/// Reads a token as an `i64`: an optional `+` or `-`, then decimal digits.
pub fn decode_i64(t: &str) -> (r: Result<i64, Error>)
    ensures
        match bounded(signed_value(text(t)), i64::MIN as int, i64::MAX as int) {
            Some(n) => r == Ok::<i64, Error>(n as i64),
            None => (r matches Err(e) && is_coercion_error(e, t, Kind::I64)),
        },
{
    match read_signed(t, i64::MIN as i128, i64::MAX as i128) {
        Some(v) => Ok(v as i64),
        None => Err(coercion_error(t, Kind::I64)),
    }
}

/// Reads a token as an `i128`: an optional `+` or `-`, then decimal digits.
pub fn decode_i128(t: &str) -> (r: Result<i128, Error>)
    ensures
        match bounded(signed_value(text(t)), i128::MIN as int, i128::MAX as int) {
            Some(n) => r == Ok::<i128, Error>(n as i128),
            None => (r matches Err(e) && is_coercion_error(e, t, Kind::I128)),
        },
{
    match read_signed(t, i128::MIN as i128, i128::MAX as i128) {
        Some(v) => Ok(v as i128),
        None => Err(coercion_error(t, Kind::I128)),
    }
}

/// The value of a hexadecimal digit, in either case.
pub open spec fn hex_digit(c: u8) -> Option<int> {
    if 0x30 <= c <= 0x39 {
        Some(c - 0x30)
    } else if 0x61 <= c <= 0x66 {
        Some(c - 0x61 + 10)
    } else if 0x41 <= c <= 0x46 {
        Some(c - 0x41 + 10)
    } else {
        None
    }
}

/// The bytes that a hexadecimal text writes: an even number of digits,
/// each pair one byte, high digit first.
pub open spec fn hex_value(t: Seq<u8>) -> Option<Seq<u8>> {
    if t.len() % 2 == 0 && forall|i: int| 0 <= i < t.len() ==> (#[trigger] hex_digit(t[i])) is Some {
        Some(Seq::new((t.len() / 2) as nat, |j: int| (hex_digit(t[2 * j])->0 * 16 + hex_digit(t[2 * j + 1])->0) as u8))
    } else {
        None
    }
}

#[verifier::external_type_specification]
#[verifier::external_body]
pub struct ExFromHexError(hex::FromHexError);

/// Relies on hex::decode: an even number of hexadecimal digits of either
/// case decodes to one byte per pair, high digit first; any other text is
/// an error.
#[verifier::external_body]
fn hex_decode(t: &str) -> (r: Result<Vec<u8>, hex::FromHexError>)
    ensures
        match hex_value(text(t)) {
            Some(v) => (r matches Ok(b) && b@ == v),
            None => r is Err,
        },
{
    hex::decode(t)
}

/// Reads a token as hexadecimal bytes.
pub fn decode_bytes(t: &str) -> (r: Result<Vec<u8>, Error>)
    ensures
        match hex_value(text(t)) {
            Some(v) => (r matches Ok(b) && b@ == v),
            None => (r matches Err(e) && is_coercion_error(e, t, Kind::Bytes)),
        },
{
    match hex_decode(t) {
        Ok(b) => Ok(b),
        Err(_) => Err(coercion_error(t, Kind::Bytes)),
    }
}

} // verus!
