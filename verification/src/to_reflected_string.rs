//! The canonical text of an optional value, with the null text for an
//! absent one.

use crate::convert::null_text;
use crate::number::{FixedPoint, FloatText};
use crate::outside::{decimal_text, format_decimal};
use crate::text::{int_text, integer_to_text, nat_text, nat_to_text};
use vstd::prelude::*;

verus! {

/// A value that has a canonical text.
pub trait ToReflectedString {
    /// The canonical text of the value.
    spec fn reflected_text(&self) -> Seq<char>;

    /// Writes the value as its canonical text.
    fn to_reflected_string(&self) -> (res: String)
        ensures
            res@ == self.reflected_text(),
    ;
}

/// The text of a present value, the null text of an absent one.
pub open spec fn text_or_null(text: Option<Seq<char>>) -> Seq<char> {
    match text {
        Some(text) => text,
        None => null_text(),
    }
}

/// The null text, as a string.
pub fn null_string() -> (res: String)
    ensures
        res@ == null_text(),
{
    proof {
        reveal_strlit("NULL");
    }
    assert("NULL"@ =~= null_text());
    "NULL".to_owned()
}

impl ToReflectedString for Option<&str> {
    open spec fn reflected_text(&self) -> Seq<char> {
        text_or_null(
            match self {
                Some(text) => Some(text@),
                None => None,
            },
        )
    }

    fn to_reflected_string(&self) -> (res: String) {
        match self {
            Some(text) => (*text).to_owned(),
            None => null_string(),
        }
    }
}

impl ToReflectedString for Option<String> {
    open spec fn reflected_text(&self) -> Seq<char> {
        text_or_null(
            match self {
                Some(text) => Some(text@),
                None => None,
            },
        )
    }

    fn to_reflected_string(&self) -> (res: String) {
        match self {
            Some(text) => text.clone(),
            None => null_string(),
        }
    }
}

impl ToReflectedString for Option<usize> {
    open spec fn reflected_text(&self) -> Seq<char> {
        text_or_null(
            match self {
                Some(n) => Some(nat_text(*n as nat)),
                None => None,
            },
        )
    }

    fn to_reflected_string(&self) -> (res: String) {
        match self {
            Some(n) => nat_to_text(*n as u128),
            None => null_string(),
        }
    }
}

impl ToReflectedString for Option<i64> {
    open spec fn reflected_text(&self) -> Seq<char> {
        text_or_null(
            match self {
                Some(n) => Some(int_text(*n as int)),
                None => None,
            },
        )
    }

    fn to_reflected_string(&self) -> (res: String) {
        match self {
            Some(n) => integer_to_text(*n as i128),
            None => null_string(),
        }
    }
}

impl ToReflectedString for Option<FloatText> {
    open spec fn reflected_text(&self) -> Seq<char> {
        text_or_null(
            match self {
                Some(float) => Some(float@),
                None => None,
            },
        )
    }

    fn to_reflected_string(&self) -> (res: String) {
        match self {
            Some(float) => float.as_str().to_owned(),
            None => null_string(),
        }
    }
}

impl ToReflectedString for Option<FixedPoint> {
    open spec fn reflected_text(&self) -> Seq<char> {
        text_or_null(
            match self {
                Some(number) => Some(decimal_text(number.mantissa_value(), number.scale_value())),
                None => None,
            },
        )
    }

    fn to_reflected_string(&self) -> (res: String) {
        match self {
            Some(number) => format_decimal(number.mantissa(), number.scale()),
            None => null_string(),
        }
    }
}

} // verus!
