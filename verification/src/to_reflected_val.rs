//! The reading of text as a typed value.

use crate::convert::{bool_text, ConversionError};
use crate::number::{canonical_float, is_decimal, FixedPoint, FloatText};
use crate::outside::{decimal_in_range, decimal_parse, parse_decimal};
use crate::text::{
    int_text, is_digit, lemma_int_text_reads_back, lemma_nat_text_reads_back, nat_text, parse_int,
    parse_integer_text, same_text,
};
use vstd::prelude::*;

verus! {

/// Text that may read as a value of type `T`.
pub trait ToReflectedVal<T> {
    /// Whether the text is well formed for a `T`.
    spec fn readable(&self) -> bool;

    /// Whether the text reads as `value`. Well-formed text reads as one
    /// value only, up to what the value holds.
    spec fn reads_as(&self, value: T) -> bool;

    /// Reads the text as a `T`, or says that it is malformed.
    fn to_reflected_val(&self) -> (res: Result<T, ConversionError>)
        ensures
            match res {
                Ok(value) => self.readable() && self.reads_as(value),
                Err(e) => !self.readable() && e == ConversionError::Malformed,
            },
    ;
}

/// The integer that `text` reads as, if it lies between `low` and `high`:
/// an optional sign, then digits.
pub open spec fn parse_signed(text: Seq<char>, low: int, high: int) -> Option<int> {
    match parse_int(text) {
        Some(n) => if low <= n <= high {
            Some(n)
        } else {
            None
        },
        None => None,
    }
}

/// The natural number that `text` reads as, if it is no greater than
/// `high`: an optional `+`, then digits. A minus sign is refused, even
/// before zero.
pub open spec fn parse_unsigned(text: Seq<char>, high: int) -> Option<int> {
    if text.len() > 0 && text[0] == '-' {
        None
    } else {
        parse_signed(text, 0, high)
    }
}

/// The boolean that `text` reads as: `1` is true, `0` is false.
pub open spec fn parse_bool(text: Seq<char>) -> Option<bool> {
    if text == bool_text(true) {
        Some(true)
    } else if text == bool_text(false) {
        Some(false)
    } else {
        None
    }
}

/// The text of an integer reads back as the integer, at any width that
/// holds it; and so does the text of a natural number read without a sign.
pub proof fn lemma_integer_text_reads_back(n: int, low: int, high: int)
    requires
        low <= n <= high,
    ensures
        parse_signed(int_text(n), low, high) == Some(n),
        n >= 0 ==> parse_unsigned(nat_text(n as nat), high) == Some(n),
{
    lemma_int_text_reads_back(n);
    if n >= 0 {
        lemma_nat_text_reads_back(n as nat);
        assert(is_digit(nat_text(n as nat)[0]));
    }
}

/// What is written for any `usize` reads back as that `usize`, and as the
/// same number at any wider type.
pub proof fn lemma_usize_reads_back(n: usize, text: &str)
    requires
        text@ == nat_text(n as nat),
    ensures
        ToReflectedVal::<usize>::readable(&text),
        ToReflectedVal::<usize>::reads_as(&text, n),
        ToReflectedVal::<u64>::reads_as(&text, n as u64),
        ToReflectedVal::<i128>::reads_as(&text, n as i128),
{
    lemma_integer_text_reads_back(n as int, 0, usize::MAX as int);
    lemma_integer_text_reads_back(n as int, 0, u64::MAX as int);
    lemma_integer_text_reads_back(n as int, i128::MIN as int, i128::MAX as int);
}

/// Reads an integer between `low` and `high`.
pub fn read_signed(text: &str, low: i128, high: i128) -> (res: Option<i128>)
    ensures
        match res {
            Some(n) => parse_signed(text@, low as int, high as int) == Some(n as int),
            None => parse_signed(text@, low as int, high as int) is None,
        },
{
    match parse_integer_text(text) {
        Some(n) => if low <= n && n <= high {
            Some(n)
        } else {
            None
        },
        None => None,
    }
}

/// Reads a natural number no greater than `high`.
pub fn read_unsigned(text: &str, high: i128) -> (res: Option<i128>)
    ensures
        match res {
            Some(n) => parse_unsigned(text@, high as int) == Some(n as int) && 0 <= n <= high,
            None => parse_unsigned(text@, high as int) is None,
        },
{
    if !text.is_empty() && text.get_char(0) == '-' {
        None
    } else {
        read_signed(text, 0, high)
    }
}

impl ToReflectedVal<i32> for &str {
    open spec fn readable(&self) -> bool {
        parse_signed(self@, i32::MIN as int, i32::MAX as int) is Some
    }

    open spec fn reads_as(&self, value: i32) -> bool {
        parse_signed(self@, i32::MIN as int, i32::MAX as int) == Some(value as int)
    }

    fn to_reflected_val(&self) -> (res: Result<i32, ConversionError>) {
        match read_signed(*self, i32::MIN as i128, i32::MAX as i128) {
            Some(n) => Ok(n as i32),
            None => Err(ConversionError::Malformed),
        }
    }
}

impl ToReflectedVal<u32> for &str {
    open spec fn readable(&self) -> bool {
        parse_unsigned(self@, u32::MAX as int) is Some
    }

    open spec fn reads_as(&self, value: u32) -> bool {
        parse_unsigned(self@, u32::MAX as int) == Some(value as int)
    }

    fn to_reflected_val(&self) -> (res: Result<u32, ConversionError>) {
        match read_unsigned(*self, u32::MAX as i128) {
            Some(n) => Ok(n as u32),
            None => Err(ConversionError::Malformed),
        }
    }
}

impl ToReflectedVal<i64> for &str {
    open spec fn readable(&self) -> bool {
        parse_signed(self@, i64::MIN as int, i64::MAX as int) is Some
    }

    open spec fn reads_as(&self, value: i64) -> bool {
        parse_signed(self@, i64::MIN as int, i64::MAX as int) == Some(value as int)
    }

    fn to_reflected_val(&self) -> (res: Result<i64, ConversionError>) {
        match read_signed(*self, i64::MIN as i128, i64::MAX as i128) {
            Some(n) => Ok(n as i64),
            None => Err(ConversionError::Malformed),
        }
    }
}

impl ToReflectedVal<u64> for &str {
    open spec fn readable(&self) -> bool {
        parse_unsigned(self@, u64::MAX as int) is Some
    }

    open spec fn reads_as(&self, value: u64) -> bool {
        parse_unsigned(self@, u64::MAX as int) == Some(value as int)
    }

    fn to_reflected_val(&self) -> (res: Result<u64, ConversionError>) {
        match read_unsigned(*self, u64::MAX as i128) {
            Some(n) => Ok(n as u64),
            None => Err(ConversionError::Malformed),
        }
    }
}

impl ToReflectedVal<isize> for &str {
    open spec fn readable(&self) -> bool {
        parse_signed(self@, isize::MIN as int, isize::MAX as int) is Some
    }

    open spec fn reads_as(&self, value: isize) -> bool {
        parse_signed(self@, isize::MIN as int, isize::MAX as int) == Some(value as int)
    }

    fn to_reflected_val(&self) -> (res: Result<isize, ConversionError>) {
        match read_signed(*self, isize::MIN as i128, isize::MAX as i128) {
            Some(n) => Ok(n as isize),
            None => Err(ConversionError::Malformed),
        }
    }
}

impl ToReflectedVal<usize> for &str {
    open spec fn readable(&self) -> bool {
        parse_unsigned(self@, usize::MAX as int) is Some
    }

    open spec fn reads_as(&self, value: usize) -> bool {
        parse_unsigned(self@, usize::MAX as int) == Some(value as int)
    }

    fn to_reflected_val(&self) -> (res: Result<usize, ConversionError>) {
        match read_unsigned(*self, usize::MAX as i128) {
            Some(n) => Ok(n as usize),
            None => Err(ConversionError::Malformed),
        }
    }
}

impl ToReflectedVal<i128> for &str {
    open spec fn readable(&self) -> bool {
        parse_signed(self@, i128::MIN as int, i128::MAX as int) is Some
    }

    open spec fn reads_as(&self, value: i128) -> bool {
        parse_signed(self@, i128::MIN as int, i128::MAX as int) == Some(value as int)
    }

    fn to_reflected_val(&self) -> (res: Result<i128, ConversionError>) {
        match read_signed(*self, i128::MIN as i128, i128::MAX as i128) {
            Some(n) => Ok(n as i128),
            None => Err(ConversionError::Malformed),
        }
    }
}

impl ToReflectedVal<bool> for &str {
    open spec fn readable(&self) -> bool {
        parse_bool(self@) is Some
    }

    open spec fn reads_as(&self, value: bool) -> bool {
        parse_bool(self@) == Some(value)
    }

    fn to_reflected_val(&self) -> (res: Result<bool, ConversionError>) {
        proof {
            reveal_strlit("1");
            reveal_strlit("0");
        }
        assert("1"@ =~= bool_text(true));
        assert("0"@ =~= bool_text(false));
        if same_text(*self, "1") {
            Ok(true)
        } else if same_text(*self, "0") {
            Ok(false)
        } else {
            Err(ConversionError::Malformed)
        }
    }
}

impl ToReflectedVal<String> for &str {
    /// Any text is text.
    open spec fn readable(&self) -> bool {
        true
    }

    open spec fn reads_as(&self, value: String) -> bool {
        value@ == self@
    }

    fn to_reflected_val(&self) -> (res: Result<String, ConversionError>) {
        Ok((*self).to_owned())
    }
}

impl ToReflectedVal<FloatText> for &str {
    open spec fn readable(&self) -> bool {
        is_decimal(self@)
    }

    open spec fn reads_as(&self, value: FloatText) -> bool {
        value@ == canonical_float(self@)
    }

    fn to_reflected_val(&self) -> (res: Result<FloatText, ConversionError>) {
        match FloatText::parse(*self) {
            Some(float) => Ok(float),
            None => Err(ConversionError::Malformed),
        }
    }
}

impl ToReflectedVal<FixedPoint> for &str {
    open spec fn readable(&self) -> bool {
        match decimal_parse(self@) {
            Some((mantissa, scale)) => decimal_in_range(mantissa, scale),
            None => false,
        }
    }

    open spec fn reads_as(&self, value: FixedPoint) -> bool {
        decimal_parse(self@) == Some((value.mantissa_value(), value.scale_value()))
    }

    fn to_reflected_val(&self) -> (res: Result<FixedPoint, ConversionError>) {
        match parse_decimal(*self) {
            Some((mantissa, scale)) => match FixedPoint::new(mantissa, scale) {
                Some(number) => Ok(number),
                None => Err(ConversionError::Malformed),
            },
            None => Err(ConversionError::Malformed),
        }
    }
}

} // verus!
