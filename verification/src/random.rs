//! Random text for a field of a given kind, and the filling of a record
//! with it.

use crate::convert::{
    bool_text, deserialized, null_text, reads_back, serialized, ConversionError,
};
use crate::field::{Field, FieldView};
use crate::field_type::Type;
use crate::number::{lemma_digits_are_decimal, FixedPoint};
use crate::outside::{
    current_instant, date_text, decimal_text, format_decimal, format_instant, instant_in_range,
    is_alphanumeric, random_alphanumeric, random_flag, random_in_range, DATE_FORMAT,
};
use crate::record::{distinct_names, AccessError, Record, RecordView};
use crate::reflected::Reflected;
use crate::text::{
    is_digit, lemma_int_text_reads_back, lemma_nat_text_reads_back, nat_text, nat_to_text,
};
use crate::value::{Timestamp, Value, ValueView};
use vstd::prelude::*;

verus! {

/// What was drawn for a random value, before it is written as text.
#[derive(Debug, Clone, Copy, PartialEq, Eq, Structural)]
pub enum Draw {
    /// A natural number.
    Number(u64),
    /// A reading of the clock, as seconds and nanoseconds after the epoch.
    Instant { secs: i64, nanos: u32 },
    /// A decimal number, as mantissa and scale.
    Fraction { mantissa: u64, scale: u64 },
}

/// The length of a random text.
pub const RANDOM_TEXT_LEN: usize = 8;

/// The bound below which random integers are drawn.
pub const RANDOM_NUMBER_BOUND: u64 = 1_000_000_000;

/// The text of a draw. A number is written in decimal. An instant or a
/// decimal that is out of range is replaced by the epoch or by zero.
pub open spec fn draw_text(draw: Draw) -> Seq<char> {
    match draw {
        Draw::Number(n) => nat_text(n as nat),
        Draw::Instant { secs, nanos } => if instant_in_range(secs as int, nanos as int) {
            date_text(secs as int, nanos as int, DATE_FORMAT@)
        } else {
            date_text(0, 0, DATE_FORMAT@)
        },
        Draw::Fraction { mantissa, scale } => if scale <= 28 {
            decimal_text(mantissa as int, scale as int)
        } else {
            decimal_text(0, 0)
        },
    }
}

/// What random text for a plain kind looks like, whatever was drawn.
pub open spec fn random_outcome(kind: Type, text: Seq<char>) -> bool {
    match kind {
        Type::Text => text.len() == RANDOM_TEXT_LEN && forall|i: int|
            0 <= i < text.len() ==> is_alphanumeric(#[trigger] text[i]),
        Type::Integer | Type::Float => exists|n: nat|
            n < RANDOM_NUMBER_BOUND && text == #[trigger] nat_text(n),
        Type::Bool => text == bool_text(false) || text == bool_text(true),
        Type::Date => exists|secs: int, nanos: int|
            instant_in_range(secs, nanos) && text == #[trigger] date_text(
                secs,
                nanos,
                DATE_FORMAT@,
            ),
        Type::Decimal => exists|mantissa: int, scale: int|
            0 <= mantissa < u32::MAX && 1 <= scale < 6 && text == #[trigger] decimal_text(
                mantissa,
                scale,
            ),
        _ => false,
    }
}

/// What a slot of kind `tp` holds once random text has been written to it:
/// the value that some random text for the kind reads as, or nothing where
/// the kind is optional.
pub open spec fn random_slot(tp: Type, v: ValueView) -> bool {
    ||| tp is Optional && v == ValueView::Absent
    ||| exists|text: Seq<char>| #[trigger]
        random_outcome(tp.base(), text) && deserialized(text, tp) == Ok::<
            ValueView,
            ConversionError,
        >(v)
}

/// Writes a draw as text.
pub fn write_draw(draw: Draw) -> (res: String)
    ensures
        res@ == draw_text(draw),
{
    match draw {
        Draw::Number(n) => nat_to_text(n as u128),
        Draw::Instant { secs, nanos } => {
            let moment = match Timestamp::new(secs, nanos) {
                Some(moment) => moment,
                None => Timestamp::epoch(),
            };
            format_instant(moment.secs(), moment.nanos(), DATE_FORMAT)
        },
        Draw::Fraction { mantissa, scale } => {
            let number = if scale <= 28 {
                match FixedPoint::new(mantissa as i128, scale as u32) {
                    Some(number) => number,
                    None => FixedPoint::zero(),
                }
            } else {
                FixedPoint::zero()
            };
            format_decimal(number.mantissa(), number.scale())
        },
    }
}

/// Random text for a plain kind.
fn random_plain(kind: &Type) -> (res: String)
    requires
        kind.is_wrappable(),
    ensures
        random_outcome(*kind, res@),
{
    match kind {
        Type::Text => random_alphanumeric(RANDOM_TEXT_LEN),
        Type::Integer | Type::Float => {
            let n = random_in_range(0, RANDOM_NUMBER_BOUND);
            write_draw(Draw::Number(n))
        },
        Type::Bool => {
            let n = random_in_range(0, 2);
            let text = write_draw(Draw::Number(n));
            assert(nat_text(0) =~= bool_text(false));
            assert(nat_text(1) =~= bool_text(true));
            text
        },
        Type::Date => {
            let (secs, nanos) = current_instant();
            let text = write_draw(Draw::Instant { secs, nanos });
            assert(instant_in_range(0, 0));
            text
        },
        Type::Decimal => {
            let mantissa = random_in_range(0, 4_294_967_295);
            let scale = random_in_range(1, 6);
            write_draw(Draw::Fraction { mantissa, scale })
        },
        _ => {
            assert(false);
            String::new()
        },
    }
}

/// Random text for a field of kind `tp`; `None`, about half of the time,
/// for an optional kind. The kind must not be custom.
///
/// Text is eight letters and digits. An integer or a float is a natural
/// number below a thousand million. A date is the current time. A decimal
/// has a mantissa of 32 bits and one to five fractional digits. A boolean
/// is `0` or `1`.
pub fn random_val(tp: &Type) -> (res: Option<String>)
    requires
        *tp != Type::Custom,
    ensures
        res matches Some(text) ==> random_outcome(tp.base(), text@),
        res is None ==> *tp is Optional,
{
    match tp {
        Type::Optional(inner) => {
            if random_flag() {
                Some(random_plain(&inner.to_type()))
            } else {
                None
            }
        },
        plain => Some(random_plain(plain)),
    }
}

/// Random text for a kind that this library writes and reads by itself
/// (text, integer, float, boolean) always reads as a value of the kind.
pub proof fn lemma_random_text_reads(tp: Type, text: Seq<char>)
    requires
        random_outcome(tp.base(), text),
        tp.is_text() || tp.is_integer() || tp.is_float() || tp.is_bool(),
    ensures
        deserialized(text, tp) is Ok,
{
    let kind = tp.base();
    if kind == Type::Integer || kind == Type::Float {
        let n = choose|n: nat| n < RANDOM_NUMBER_BOUND && text == #[trigger] nat_text(n);
        lemma_nat_text_reads_back(n);
        lemma_int_text_reads_back(n as int);
        lemma_digits_are_decimal(text);
        assert(is_digit(text.last()));
        assert(!is_digit(null_text().last()));
    }
}

/// In a table of distinct names, a field is found at the index where the
/// table holds the same field.
pub proof fn lemma_position_of_same_field(record: RecordView, field: FieldView, i: int)
    requires
        record.wf(),
        0 <= i < record.fields.len(),
        record.fields[i].same_as(field),
    ensures
        record.position(field) == Some(i),
{
    let fields = record.fields;
    assert forall|j: int| 0 <= j < i implies fields[j].name != field.name by {
        assert(fields[j].name != fields[i].name);
    }
    crate::record::lemma_name_from(fields, field.name, 0, i);
}

/// In a table of distinct names, each field is found at its own index.
pub proof fn lemma_position_of_own_field(record: RecordView, i: int)
    requires
        record.wf(),
        0 <= i < record.fields.len(),
    ensures
        record.position(record.fields[i]) == Some(i),
{
    lemma_position_of_same_field(record, record.fields[i], i);
}

impl Record {
    /// A record with the table `fields` whose simple fields hold random
    /// values and whose other fields hold the initial value of their kind.
    ///
    /// A table that is refused gives the error of [`Record::new`]. With a
    /// valid table the one error is that of malformed text, and it can come
    /// only where a simple field is a date or a decimal, whose text outside
    /// code writes and reads.
    pub fn random(entity: &str, fields: Vec<Field>) -> (res: Result<Record, AccessError>)
        ensures
            match res {
                Ok(record) => {
                    &&& record@.wf()
                    &&& record@.entity == entity@
                    &&& record@.fields == fields@.map_values(|f: Field| f@)
                    &&& forall|i: int|
                        0 <= i < fields.len() ==> if (#[trigger] record@.fields[i]).is_simple() {
                            random_slot(fields[i].tp, record@.values[i])
                        } else {
                            record@.values[i] == Value::initial(fields[i].tp)
                        }
                },
                Err(e) => {
                    let table = fields@.map_values(|f: Field| f@);
                    if exists|i: int| 0 <= i < table.len() && !(#[trigger] table[i]).wf() {
                        e == AccessError::InconsistentField
                    } else if !distinct_names(table) {
                        e == AccessError::DuplicateField
                    } else {
                        &&& e == AccessError::Conversion(ConversionError::Malformed)
                        &&& exists|i: int|
                            0 <= i < table.len() && (#[trigger] table[i]).is_simple() && (
                            table[i].tp.is_date() || table[i].tp.is_decimal())
                    }
                },
            },
    {
        let mut record = match Record::new(entity, fields) {
            Ok(record) => record,
            Err(e) => {
                return Err(e);
            },
        };
        match record.randomize() {
            Ok(()) => Ok(record),
            Err(e) => Err(e),
        }
    }
}

/// Every field of a valid record that is not custom can be read, and the
/// text read is the text of the value in its slot. Read back under the
/// field's kind, that text gives no error; and it gives the value itself,
/// unless the value is the text `NULL` in an optional slot.
///
/// Dates and decimals are written and read by outside code, so for them the
/// law is stated of the values on which that code is its own inverse.
pub proof fn lemma_fields_read_back(record: RecordView, i: int)
    requires
        record.wf(),
        0 <= i < record.fields.len(),
        record.fields[i].tp != Type::Custom,
    ensures
        serialized(record.values[i], record.fields[i].tp) is Ok,
        record.read(record.fields[i]) == Ok::<Seq<char>, AccessError>(
            serialized(record.values[i], record.fields[i].tp)->Ok_0,
        ),
        reads_back(record.values[i]) ==> deserialized(
            record.read(record.fields[i])->Ok_0,
            record.fields[i].tp,
        ) is Ok,
        reads_back(record.values[i]) && !(record.fields[i].tp is Optional && record.values[i]
            == ValueView::Text(null_text())) ==> deserialized(
            record.read(record.fields[i])->Ok_0,
            record.fields[i].tp,
        ) == Ok::<ValueView, ConversionError>(record.values[i]),
{
    let field = record.fields[i];
    let value = record.values[i];
    lemma_position_of_own_field(record, i);
    assert(value.wf() && value.conforms(field.tp));
    if !(field.tp is Optional && value == ValueView::Text(null_text())) {
        crate::convert::lemma_round_trip(value, field.tp);
    }
}

/// Writing to a field the text that was read from it leaves the record as
/// it is, unless the value is the text `NULL` in an optional slot, which is
/// then cleared.
///
/// Dates and decimals are written and read by outside code, so for them the
/// law is stated of the values on which that code is its own inverse.
pub proof fn lemma_write_what_was_read(record: RecordView, i: int)
    requires
        record.wf(),
        0 <= i < record.fields.len(),
        record.fields[i].tp != Type::Custom,
        !(record.fields[i].tp is Optional && record.values[i] == ValueView::Text(null_text())),
    ensures
        record.read(record.fields[i]) is Ok,
        reads_back(record.values[i]) ==> record.written(
            record.fields[i],
            Some(record.read(record.fields[i])->Ok_0),
        ) == Ok::<RecordView, AccessError>(record),
{
    lemma_fields_read_back(record, i);
    lemma_position_of_own_field(record, i);
    if reads_back(record.values[i]) {
        let text = record.read(record.fields[i])->Ok_0;
        let after = record.written(record.fields[i], Some(text))->Ok_0;
        assert(after.values =~= record.values);
    }
}

} // verus!
