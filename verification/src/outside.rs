//! The calls this library makes into `chrono`, `rust_decimal` and `rand`.
//!
//! Nothing in this file is proved. Each function states what the crate it
//! calls is relied upon to do; the rest of the library is verified against
//! these statements.

use chrono::{DateTime, NaiveDateTime, Utc};
use rand::distributions::{Alphanumeric, DistString};
use rand::Rng;
use rust_decimal::Decimal;
use crate::text::{nat_text, zeros};
use std::str::FromStr;
use vstd::prelude::*;

verus! {

/// The one format string under which dates are written and read: year,
/// month, day, hour, minute and second, then the fraction of a second where
/// there is one.
pub const DATE_FORMAT: &'static str = "%Y-%m-%d %H:%M:%S%.f";

/// The text `chrono` writes for the instant `secs` seconds and `nanos`
/// nanoseconds after the Unix epoch under the format string `format`.
pub uninterp spec fn date_text(secs: int, nanos: int, format: Seq<char>) -> Seq<char>;

/// The instant `chrono` reads from `text` under the format string `format`,
/// as seconds and nanoseconds after the Unix epoch; `None` where it rejects
/// the text.
pub uninterp spec fn date_parse(text: Seq<char>, format: Seq<char>) -> Option<(int, int)>;

/// The digits of `magnitude`, with zeros before them where they are fewer
/// than `scale`.
pub open spec fn padded_digits(magnitude: nat, scale: int) -> Seq<char> {
    let digits = nat_text(magnitude);
    if digits.len() < scale {
        zeros((scale - digits.len()) as nat) + digits
    } else {
        digits
    }
}

/// The text `rust_decimal` writes for the number `mantissa / 10^scale`: a
/// minus sign if the mantissa is negative, then the digits of its magnitude
/// with a point `scale` places from the right. Zeros fill the places that
/// the digits do not reach, and `0` stands before the point where no digit
/// does. With a scale of zero there is no point.
pub open spec fn decimal_text(mantissa: int, scale: int) -> Seq<char> {
    let magnitude = if mantissa < 0 {
        (-mantissa) as nat
    } else {
        mantissa as nat
    };
    let padded = padded_digits(magnitude, scale);
    let cut = padded.len() - scale;
    let sign = if mantissa < 0 {
        seq!['-']
    } else {
        Seq::<char>::empty()
    };
    let whole = if cut == 0 {
        seq!['0']
    } else {
        padded.take(cut)
    };
    if scale == 0 {
        sign + whole
    } else {
        sign + whole + seq!['.'] + padded.skip(cut)
    }
}

/// The mantissa and scale of the number `rust_decimal` reads from `text`;
/// `None` where it rejects the text.
pub uninterp spec fn decimal_parse(text: Seq<char>) -> Option<(int, int)>;

/// The instants that `chrono` holds: from the first second of the year
/// -262143 to the last of the year 262142, with a nanosecond count of a
/// second or more only in the last second of a minute.
pub open spec fn instant_in_range(secs: int, nanos: int) -> bool {
    &&& -8_334_601_228_800 <= secs <= 8_210_266_876_799
    &&& 0 <= nanos < 2_000_000_000
    &&& nanos >= 1_000_000_000 ==> secs % 60 == 59
}

/// The mantissas and scales `rust_decimal` can hold: 96 bits and a sign,
/// at most 28 fractional digits.
pub open spec fn decimal_in_range(mantissa: int, scale: int) -> bool {
    &&& -0xFFFF_FFFF_FFFF_FFFF_FFFF_FFFF <= mantissa <= 0xFFFF_FFFF_FFFF_FFFF_FFFF_FFFF
    &&& 0 <= scale <= 28
}

/// One of the 62 characters `A`-`Z`, `a`-`z`, `0`-`9`.
pub open spec fn is_alphanumeric(c: char) -> bool {
    ||| 'A' <= c <= 'Z'
    ||| 'a' <= c <= 'z'
    ||| '0' <= c <= '9'
}

/// Calls `DateTime::from_timestamp`, then `NaiveDateTime::format` with the
/// library's one format string. `from_timestamp` accepts every instant in
/// range, and each directive of [`DATE_FORMAT`] is one that `chrono` writes
/// for any date and time; the result is whatever `chrono` writes.
#[verifier::external_body]
pub(crate) fn format_instant(secs: i64, nanos: u32, format: &str) -> (res: String)
    requires
        instant_in_range(secs as int, nanos as int),
        format@ == DATE_FORMAT@,
    ensures
        res@ == date_text(secs as int, nanos as int, format@),
{
    DateTime::from_timestamp(secs, nanos).unwrap().naive_utc().format(format).to_string()
}

/// Calls `NaiveDateTime::parse_from_str`, and gives the instant it read as
/// seconds and nanoseconds after the Unix epoch.
#[verifier::external_body]
pub(crate) fn parse_instant(text: &str, format: &str) -> (res: Option<(i64, u32)>)
    ensures
        match res {
            Some((secs, nanos)) => date_parse(text@, format@) == Some((secs as int, nanos as int)),
            None => date_parse(text@, format@) is None,
        },
{
    match NaiveDateTime::parse_from_str(text, format) {
        Ok(moment) => Some(
            (moment.and_utc().timestamp(), moment.and_utc().timestamp_subsec_nanos()),
        ),
        Err(_) => None,
    }
}

/// Calls `Utc::now`, and gives the instant as seconds and nanoseconds after
/// the Unix epoch. Nothing is promised of a clock's reading.
#[verifier::external_body]
pub(crate) fn current_instant() -> (res: (i64, u32)) {
    let now = Utc::now();
    (now.timestamp(), now.timestamp_subsec_nanos())
}

/// Calls `Decimal::from_i128_with_scale`, then `to_string` on the result.
/// The constructor accepts exactly the mantissas and scales in range, and
/// gives the number the sign of the mantissa. `to_string` writes the digits
/// of the mantissa, filled with zeros up to the scale, puts the point
/// before the last `scale` of them, and `0` before the point if no digit is
/// left there.
#[verifier::external_body]
pub(crate) fn format_decimal(mantissa: i128, scale: u32) -> (res: String)
    requires
        decimal_in_range(mantissa as int, scale as int),
    ensures
        res@ == decimal_text(mantissa as int, scale as int),
{
    Decimal::from_i128_with_scale(mantissa, scale).to_string()
}

/// Calls `Decimal::from_str`, and gives the mantissa and scale of what it
/// read.
#[verifier::external_body]
pub(crate) fn parse_decimal(text: &str) -> (res: Option<(i128, u32)>)
    ensures
        match res {
            Some((mantissa, scale)) => decimal_parse(text@) == Some(
                (mantissa as int, scale as int),
            ),
            None => decimal_parse(text@) is None,
        },
{
    match Decimal::from_str(text) {
        Ok(number) => Some((number.mantissa(), number.scale())),
        Err(_) => None,
    }
}

/// Calls `Alphanumeric.sample_string` on the thread's generator: `len`
/// characters, each drawn from the 62 letters and digits.
#[verifier::external_body]
pub(crate) fn random_alphanumeric(len: usize) -> (res: String)
    ensures
        res@.len() == len,
        forall|i: int| 0 <= i < res@.len() ==> is_alphanumeric(#[trigger] res@[i]),
{
    Alphanumeric.sample_string(&mut rand::thread_rng(), len)
}

/// Calls `Rng::gen_range` on the thread's generator with the half-open
/// range `low..high`, which must not be empty.
#[verifier::external_body]
pub(crate) fn random_in_range(low: u64, high: u64) -> (res: u64)
    requires
        low < high,
    ensures
        low <= res < high,
{
    rand::thread_rng().gen_range(low..high)
}

/// Calls `Rng::gen` on the thread's generator for a `bool`. Nothing is
/// promised of the outcome.
#[verifier::external_body]
pub(crate) fn random_flag() -> (res: bool) {
    rand::thread_rng().gen()
}

} // verus!
