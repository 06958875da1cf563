//! The string conversion rules: one canonical text per value and kind, and
//! the reading of text back into a value.

use crate::field_type::Type;
use crate::number::{canonical_float, fraction_part, is_decimal, FixedPoint, FloatText};
use crate::outside::{
    date_parse, date_text, decimal_in_range, decimal_parse, decimal_text, format_decimal,
    format_instant, instant_in_range, parse_decimal, parse_instant, DATE_FORMAT,
};
use crate::text::{
    int_text, integer_to_text, is_digit, lemma_int_text_reads_back, lemma_nat_text_reads_back,
    nat_text, parse_integer, parse_integer_text, same_text,
};
use crate::value::{Timestamp, Value, ValueView};
use vstd::prelude::*;

verus! {

/// Why a conversion failed.
#[derive(Debug, Clone, Copy, PartialEq, Eq, Hash, Structural)]
pub enum ConversionError {
    /// The kind is `Custom`, which has no text.
    Unsupported,
    /// The text does not read as a value of the kind.
    Malformed,
    /// The value is of another kind than the one asked for, or is absent
    /// where the kind is not optional.
    Mismatch,
}

/// The text that stands for an absent optional value.
pub open spec fn null_text() -> Seq<char> {
    seq!['N', 'U', 'L', 'L']
}

/// The text of `true` is `1`, that of `false` is `0`.
pub open spec fn bool_text(b: bool) -> Seq<char> {
    if b {
        seq!['1']
    } else {
        seq!['0']
    }
}

/// The canonical text of a value held in a slot of kind `tp`.
///
/// A custom kind has no text. A value that the slot cannot hold is a
/// mismatch. Otherwise each kind has its rule, and `Absent` is written as
/// the null text.
pub open spec fn serialized(v: ValueView, tp: Type) -> Result<Seq<char>, ConversionError> {
    if tp == Type::Custom {
        Err(ConversionError::Unsupported)
    } else if !v.conforms(tp) {
        Err(ConversionError::Mismatch)
    } else {
        match v {
            ValueView::Float(text) => Ok(text),
            ValueView::Integer(n) => Ok(int_text(n)),
            ValueView::Text(text) => Ok(text),
            ValueView::Date { secs, nanos } => Ok(date_text(secs, nanos, DATE_FORMAT@)),
            ValueView::Decimal { mantissa, scale } => Ok(decimal_text(mantissa, scale)),
            ValueView::Bool(b) => Ok(bool_text(b)),
            ValueView::Custom => Err(ConversionError::Unsupported),
            ValueView::Absent => Ok(null_text()),
        }
    }
}

/// The value that `text` reads as under a plain kind.
pub open spec fn read_as(text: Seq<char>, kind: Type) -> Result<ValueView, ConversionError> {
    match kind {
        Type::Float => if is_decimal(text) {
            Ok(ValueView::Float(canonical_float(text)))
        } else {
            Err(ConversionError::Malformed)
        },
        Type::Integer => match parse_integer(text) {
            Some(n) => Ok(ValueView::Integer(n as int)),
            None => Err(ConversionError::Malformed),
        },
        Type::Text => Ok(ValueView::Text(text)),
        Type::Date => match date_parse(text, DATE_FORMAT@) {
            Some((secs, nanos)) => if instant_in_range(secs, nanos) {
                Ok(ValueView::Date { secs, nanos })
            } else {
                Err(ConversionError::Malformed)
            },
            None => Err(ConversionError::Malformed),
        },
        Type::Decimal => match decimal_parse(text) {
            Some((mantissa, scale)) => if decimal_in_range(mantissa, scale) {
                Ok(ValueView::Decimal { mantissa, scale })
            } else {
                Err(ConversionError::Malformed)
            },
            None => Err(ConversionError::Malformed),
        },
        Type::Bool => if text == bool_text(true) {
            Ok(ValueView::Bool(true))
        } else if text == bool_text(false) {
            Ok(ValueView::Bool(false))
        } else {
            Err(ConversionError::Malformed)
        },
        _ => Err(ConversionError::Unsupported),
    }
}

/// The value that `text` reads as in a slot of kind `tp`.
///
/// In an optional slot the null text reads as `Absent` and is never handed
/// to the rule of the wrapped kind.
pub open spec fn deserialized(text: Seq<char>, tp: Type) -> Result<ValueView, ConversionError> {
    match tp {
        Type::Custom => Err(ConversionError::Unsupported),
        Type::Optional(inner) => if text == null_text() {
            Ok(ValueView::Absent)
        } else {
            read_as(text, inner.as_type())
        },
        plain => read_as(text, plain),
    }
}

/// Whether the outside code that reads dates and decimals reads back what
/// was written for this value: the text of a date is not the null text and
/// reads as the date, the text of a decimal reads as the decimal. It holds
/// by definition of every value that is neither a date nor a decimal.
pub open spec fn reads_back(v: ValueView) -> bool {
    match v {
        ValueView::Date { secs, nanos } => {
            let written = date_text(secs, nanos, DATE_FORMAT@);
            written != null_text() && date_parse(written, DATE_FORMAT@) == Some((secs, nanos))
        },
        ValueView::Decimal { mantissa, scale } => decimal_parse(decimal_text(mantissa, scale))
            == Some((mantissa, scale)),
        _ => true,
    }
}

/// Writes `value` as the canonical text of a slot of kind `tp`.
pub fn serialize(value: &Value, tp: &Type) -> (res: Result<String, ConversionError>)
    ensures
        match res {
            Ok(text) => serialized(value@, *tp) == Ok::<Seq<char>, ConversionError>(text@),
            Err(e) => serialized(value@, *tp) == Err::<Seq<char>, ConversionError>(e),
        },
        value@.wf(),
{
    proof {
        reveal_strlit("1");
        reveal_strlit("0");
        reveal_strlit("NULL");
    }
    match value {
        Value::Float(text) => {
            let written = text.as_str();
            if tp.is_custom() {
                Err(ConversionError::Unsupported)
            } else if tp.is_float() {
                Ok(written.to_owned())
            } else {
                Err(ConversionError::Mismatch)
            }
        },
        Value::Integer(n) => {
            if tp.is_custom() {
                Err(ConversionError::Unsupported)
            } else if tp.is_integer() {
                Ok(integer_to_text(*n))
            } else {
                Err(ConversionError::Mismatch)
            }
        },
        Value::Text(text) => {
            if tp.is_custom() {
                Err(ConversionError::Unsupported)
            } else if tp.is_text() {
                Ok(text.clone())
            } else {
                Err(ConversionError::Mismatch)
            }
        },
        Value::Date(moment) => {
            let secs = moment.secs();
            let nanos = moment.nanos();
            if tp.is_custom() {
                Err(ConversionError::Unsupported)
            } else if tp.is_date() {
                Ok(format_instant(secs, nanos, DATE_FORMAT))
            } else {
                Err(ConversionError::Mismatch)
            }
        },
        Value::Decimal(number) => {
            let mantissa = number.mantissa();
            let scale = number.scale();
            if tp.is_custom() {
                Err(ConversionError::Unsupported)
            } else if tp.is_decimal() {
                Ok(format_decimal(mantissa, scale))
            } else {
                Err(ConversionError::Mismatch)
            }
        },
        Value::Bool(b) => {
            if tp.is_custom() {
                Err(ConversionError::Unsupported)
            } else if tp.is_bool() {
                let written = if *b {
                    "1"
                } else {
                    "0"
                };
                assert(written@ =~= bool_text(*b));
                Ok(written.to_owned())
            } else {
                Err(ConversionError::Mismatch)
            }
        },
        Value::Custom => {
            if tp.is_custom() {
                Err(ConversionError::Unsupported)
            } else {
                Err(ConversionError::Mismatch)
            }
        },
        Value::Absent => {
            if tp.is_custom() {
                Err(ConversionError::Unsupported)
            } else if tp.is_optional() {
                assert("NULL"@ =~= null_text());
                Ok("NULL".to_owned())
            } else {
                Err(ConversionError::Mismatch)
            }
        },
    }
}

/// Reads `text` under the rule of a plain kind.
fn read_plain(text: &str, kind: &Type) -> (res: Result<Value, ConversionError>)
    ensures
        match res {
            Ok(value) => read_as(text@, *kind) == Ok::<ValueView, ConversionError>(value@)
                && value@.wf(),
            Err(e) => read_as(text@, *kind) == Err::<ValueView, ConversionError>(e),
        },
{
    proof {
        reveal_strlit("1");
        reveal_strlit("0");
    }
    match kind {
        Type::Float => match FloatText::parse(text) {
            Some(float) => {
                let _ = float.as_str();
                Ok(Value::Float(float))
            },
            None => Err(ConversionError::Malformed),
        },
        Type::Integer => match parse_integer_text(text) {
            Some(n) => Ok(Value::Integer(n)),
            None => Err(ConversionError::Malformed),
        },
        Type::Text => Ok(Value::Text(text.to_owned())),
        Type::Date => match parse_instant(text, DATE_FORMAT) {
            Some((secs, nanos)) => match Timestamp::new(secs, nanos) {
                Some(moment) => Ok(Value::Date(moment)),
                None => Err(ConversionError::Malformed),
            },
            None => Err(ConversionError::Malformed),
        },
        Type::Decimal => match parse_decimal(text) {
            Some((mantissa, scale)) => match FixedPoint::new(mantissa, scale) {
                Some(number) => Ok(Value::Decimal(number)),
                None => Err(ConversionError::Malformed),
            },
            None => Err(ConversionError::Malformed),
        },
        Type::Bool => {
            assert("1"@ =~= bool_text(true));
            assert("0"@ =~= bool_text(false));
            if same_text(text, "1") {
                Ok(Value::Bool(true))
            } else if same_text(text, "0") {
                Ok(Value::Bool(false))
            } else {
                Err(ConversionError::Malformed)
            }
        },
        _ => Err(ConversionError::Unsupported),
    }
}

/// Reads `text` as a value for a slot of kind `tp`.
pub fn deserialize(text: &str, tp: &Type) -> (res: Result<Value, ConversionError>)
    ensures
        match res {
            Ok(value) => {
                &&& deserialized(text@, *tp) == Ok::<ValueView, ConversionError>(value@)
                &&& value@.wf()
                &&& value@.conforms(*tp)
            },
            Err(e) => deserialized(text@, *tp) == Err::<ValueView, ConversionError>(e),
        },
{
    match tp {
        Type::Custom => Err(ConversionError::Unsupported),
        Type::Optional(inner) => {
            proof {
                reveal_strlit("NULL");
            }
            assert("NULL"@ =~= null_text());
            if same_text(text, "NULL") {
                Ok(Value::Absent)
            } else {
                read_plain(text, &inner.to_type())
            }
        },
        plain => read_plain(text, plain),
    }
}

/// Whatever reads successfully is well formed and fits the slot it was read
/// for.
pub proof fn lemma_deserialized_conforms(text: Seq<char>, tp: Type)
    requires
        deserialized(text, tp) is Ok,
    ensures
        deserialized(text, tp)->Ok_0.wf(),
        deserialized(text, tp)->Ok_0.conforms(tp),
{
    let kind = tp.base();
    if kind == Type::Float && is_decimal(text) {
        crate::number::lemma_canonical_float_is_canonical(text);
    }
}

/// The canonical text of a number is never the null text.
pub proof fn lemma_number_text_is_not_null(v: ValueView)
    requires
        v.wf(),
        v is Float || v is Integer || v is Bool,
    ensures
        v matches ValueView::Float(text) ==> text != null_text(),
        v matches ValueView::Integer(n) ==> int_text(n) != null_text(),
        v matches ValueView::Bool(b) ==> bool_text(b) != null_text(),
{
    match v {
        ValueView::Float(text) => {
            crate::number::lemma_canonical_float_shape(text);
            assert(is_digit(fraction_part(text).last()));
            assert(text.last() == fraction_part(text).last());
            assert(!is_digit(null_text().last()));
        },
        ValueView::Integer(n) => {
            let magnitude = if n < 0 {
                (-n) as nat
            } else {
                n as nat
            };
            lemma_nat_text_reads_back(magnitude);
            assert(is_digit(nat_text(magnitude).last()));
            assert(int_text(n).last() == nat_text(magnitude).last());
            assert(!is_digit(null_text().last()));
        },
        _ => {},
    }
}

/// Round trip: a well-formed value written for a slot that can hold it
/// reads back as itself.
///
/// One input is left out: the text `NULL` in an optional text slot, which
/// reads back as `Absent` because the null text takes precedence. Dates and
/// decimals are read by outside code, so for them the law is stated of the
/// values that this code reads back from their text.
pub proof fn lemma_round_trip(v: ValueView, tp: Type)
    requires
        v.wf(),
        v.conforms(tp),
        tp != Type::Custom,
        !(tp is Optional && v == ValueView::Text(null_text())),
    ensures
        serialized(v, tp) is Ok,
        reads_back(v) ==> deserialized(serialized(v, tp)->Ok_0, tp) == Ok::<
            ValueView,
            ConversionError,
        >(v),
{
    match v {
        ValueView::Float(text) => {
            lemma_number_text_is_not_null(v);
        },
        ValueView::Integer(n) => {
            lemma_number_text_is_not_null(v);
            lemma_int_text_reads_back(n);
        },
        ValueView::Bool(b) => {
            lemma_number_text_is_not_null(v);
        },
        ValueView::Decimal { mantissa, scale } => {
            crate::tolerance::lemma_decimal_text_value(mantissa, scale as nat, scale as nat);
        },
        _ => {},
    }
}

/// The null law: in every optional slot an absent value is written as the
/// null text, and the null text reads as the absent value.
pub proof fn lemma_null_law(tp: Type)
    requires
        tp is Optional,
    ensures
        serialized(ValueView::Absent, tp) == Ok::<Seq<char>, ConversionError>(null_text()),
        deserialized(null_text(), tp) == Ok::<ValueView, ConversionError>(ValueView::Absent),
{
}

} // verus!
