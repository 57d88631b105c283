//! Settings read from the environment: defaults and validation of the numeric settings.
use vstd::prelude::*;
use vstd::string::*;
use vstd::utf8::encode_utf8;
use crate::decimal::{decimal_bytes, digit_byte};

verus! {

/// The address the server binds to when `EXTRACT_BIND_ADDR` is unset.
pub const DEFAULT_BIND_ADDR: &'static str = "0.0.0.0:8080";

/// The largest accepted request body when `EXTRACT_BODY_LIMIT_BYTES` is unset: 50 MiB.
pub const DEFAULT_BODY_LIMIT_BYTES: usize = 50 * 1024 * 1024;

/// A setting that was present but could not be used; it carries the raw value.
#[derive(Debug, PartialEq, Eq)]
pub enum ConfigError {
    BindAddr(String),
    BodyLimit(String),
    ThreadCount(String),
}

/// Whether `b` is an ASCII decimal digit.
pub open spec fn is_digit_byte(b: u8) -> bool {
    0x30 <= b <= 0x39
}

/// The value of a string of decimal digits.
pub open spec fn digits_value(digits: Seq<u8>) -> nat
    decreases digits.len(),
{
    if digits.len() == 0 {
        0
    } else {
        digits_value(digits.drop_last()) * 10 + (digits.last() - 0x30) as nat
    }
}

/// The digits of an unsigned number: the text without one leading `+`.
pub open spec fn unsigned_digits(text: Seq<u8>) -> Seq<u8> {
    if text.len() > 0 && text[0] == 0x2bu8 {
        text.drop_first()
    } else {
        text
    }
}

/// The `usize` that `text` spells, as the standard library reads unsigned integers: an
/// optional `+`, then one or more decimal digits, with a value that fits.
pub open spec fn parsed_usize(text: Seq<u8>) -> Option<nat> {
    let digits = unsigned_digits(text);
    if digits.len() > 0 && (forall|i: int| 0 <= i < digits.len() ==> is_digit_byte(#[trigger] digits[i]))
        && digits_value(digits) <= usize::MAX {
        Some(digits_value(digits))
    } else {
        None
    }
}

/// The positive `usize` that `text` spells, if any.
pub open spec fn parsed_positive(text: Seq<u8>) -> Option<nat> {
    match parsed_usize(text) {
        Some(v) => if v > 0 {
            Some(v)
        } else {
            None
        },
        None => None,
    }
}

/// The error made by `error` from the raw text `raw`.
fn rejected(raw: &str, error: impl Fn(String) -> ConfigError) -> (e: ConfigError)
    requires
        forall|s: String| #[trigger] call_requires(error, (s,)),
    ensures
        exists|s: String| s@ == raw@ && call_ensures(error, (s,), e),
{
    let s = raw.to_string();
    let ghost kept = s;
    let e = error(s);
    assert(call_ensures(error, (kept,), e));
    e
}

/// Reads `raw` as a positive integer; where it is not one, the error is made from `raw`
/// by `error`.
pub fn parse_positive(raw: &str, error: impl Fn(String) -> ConfigError) -> (r: Result<
    usize,
    ConfigError,
>)
    requires
        forall|s: String| #[trigger] call_requires(error, (s,)),
    ensures
        r matches Ok(v) ==> parsed_positive(encode_utf8(raw@)) == Some(v as nat),
        r matches Err(e) ==> parsed_positive(encode_utf8(raw@)) is None && exists|s: String|
            s@ == raw@ && call_ensures(error, (s,), e),
{
    let text = raw.as_bytes();
    let ghost t = text@;
    let mut start: usize = 0;
    if text.len() > 0 && text[0] == 0x2b {
        start = 1;
    }
    let ghost digits = unsigned_digits(t);
    assert(t == encode_utf8(raw@));
    assert(digits =~= t.skip(start as int));
    if start >= text.len() {
        assert(digits.len() == 0);
        return Err(rejected(raw, error));
    }
    let mut value: usize = 0;
    let mut i: usize = start;
    while i < text.len()
        invariant
            t == text@,
            t == encode_utf8(raw@),
            forall|s: String| #[trigger] call_requires(error, (s,)),
            digits == unsigned_digits(t),
            digits == t.skip(start as int),
            start <= i <= t.len(),
            forall|j: int| 0 <= j < i - start ==> is_digit_byte(#[trigger] digits[j]),
            value == digits_value(digits.take(i - start)),
        decreases t.len() - i,
    {
        let b = text[i];
        assert(digits.take(i + 1 - start).drop_last() =~= digits.take(i - start));
        if b < 0x30 || b > 0x39 {
            assert(!is_digit_byte(digits[i - start]));
            return Err(rejected(raw, error));
        }
        let d = (b - 0x30) as usize;
        let next = match value.checked_mul(10) {
            Some(m) => m.checked_add(d),
            None => None,
        };
        match next {
            Some(v) => {
                value = v;
            },
            None => {
                assert(digits.take(i + 1 - start).last() == b);
                assert(digits_value(digits.take(i + 1 - start)) == value * 10 + d);
                assert(digits_value(digits.take(i + 1 - start)) > usize::MAX);
                proof {
                    if forall|j: int| 0 <= j < digits.len() ==> is_digit_byte(#[trigger] digits[j]) {
                        lemma_digits_value_prefix_bound(digits, i + 1 - start);
                    }
                }
                return Err(rejected(raw, error));
            },
        }
        i = i + 1;
    }
    assert(digits.take(i - start) =~= digits);
    if value == 0 {
        return Err(rejected(raw, error));
    }
    Ok(value)
}

/// A number never shrinks when digits are appended to it.
proof fn lemma_digits_value_prefix_bound(digits: Seq<u8>, k: int)
    requires
        0 <= k <= digits.len(),
        forall|j: int| 0 <= j < digits.len() ==> is_digit_byte(#[trigger] digits[j]),
    ensures
        digits_value(digits.take(k)) <= digits_value(digits),
    decreases digits.len(),
{
    if k < digits.len() {
        lemma_digits_value_prefix_bound(digits.drop_last(), k);
        assert(digits.drop_last().take(k) =~= digits.take(k));
        assert forall|j: int| 0 <= j < digits.drop_last().len() implies is_digit_byte(
            #[trigger] digits.drop_last()[j],
        ) by {
            assert(digits.drop_last()[j] == digits[j]);
        }
    } else {
        assert(digits.take(k) =~= digits);
    }
}

/// The value of a setting: `default` when it is unset, else `raw` read as a positive integer.
pub fn positive_or_default(
    raw: Option<String>,
    default: usize,
    error: impl Fn(String) -> ConfigError,
) -> (r: Result<usize, ConfigError>)
    requires
        forall|s: String| #[trigger] call_requires(error, (s,)),
    ensures
        raw is None ==> r == Ok::<usize, ConfigError>(default),
        raw matches Some(text) ==> {
            &&& r matches Ok(v) ==> parsed_positive(encode_utf8(text@)) == Some(v as nat)
            &&& r matches Err(e) ==> parsed_positive(encode_utf8(text@)) is None && exists|s: String|
                s@ == text@ && call_ensures(error, (s,), e)
        },
{
    match raw {
        Some(text) => parse_positive(text.as_str(), error),
        None => Ok(default),
    }
}

/// The decimal rendering of `n` is a non-empty string of digits whose value is `n`.
pub proof fn lemma_decimal_digits(n: nat)
    ensures
        forall|i: int| 0 <= i < decimal_bytes(n).len() ==> is_digit_byte(#[trigger] decimal_bytes(n)[i]),
        digits_value(decimal_bytes(n)) == n,
        decimal_bytes(n).len() > 0,
    decreases n,
{
    if n < 10 {
        assert(decimal_bytes(n).drop_last() =~= Seq::<u8>::empty());
        assert(decimal_bytes(n).last() == digit_byte(n));
        assert(digit_byte(n) - 0x30 == n);
        assert(digits_value(decimal_bytes(n)) == digits_value(Seq::<u8>::empty()) * 10 + n);
    } else {
        lemma_decimal_digits(n / 10);
        let p = decimal_bytes(n / 10);
        assert(decimal_bytes(n).drop_last() =~= p);
        assert(decimal_bytes(n).last() == digit_byte(n % 10));
        assert(digit_byte(n % 10) - 0x30 == n % 10);
        assert(digits_value(decimal_bytes(n)) == (n / 10) * 10 + n % 10);
        assert((n / 10) * 10 + n % 10 == n) by (nonlinear_arith);
        assert forall|i: int| 0 <= i < decimal_bytes(n).len() implies is_digit_byte(
            #[trigger] decimal_bytes(n)[i],
        ) by {
            if i < p.len() {
                assert(decimal_bytes(n)[i] == p[i]);
            } else {
                assert(decimal_bytes(n)[i] == digit_byte(n % 10));
            }
        }
    }
}

/// A number rendered in decimal reads back as the same number: the limits the service
/// reports (as in the 413 answer) are in the form its settings are read in.
pub proof fn lemma_decimal_reads_back(n: nat)
    requires
        n <= usize::MAX,
    ensures
        parsed_usize(decimal_bytes(n)) == Some(n),
        n > 0 ==> parsed_positive(decimal_bytes(n)) == Some(n),
{
    lemma_decimal_digits(n);
    assert(is_digit_byte(decimal_bytes(n)[0]));
    assert(unsigned_digits(decimal_bytes(n)) == decimal_bytes(n));
}

} // verus!
