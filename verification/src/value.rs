//! The values a field can hold, and their mathematical view.

use crate::field_type::Type;
use crate::number::{is_canonical_float, FixedPoint, FloatText};
use crate::outside::{decimal_in_range, instant_in_range};
use vstd::prelude::*;

verus! {

/// A date and time without a zone, as seconds and nanoseconds after the
/// Unix epoch. The nanosecond count reaches a second or more only to write
/// a leap second, in the last second of a minute.
#[derive(Debug, Clone, Copy, PartialEq, Eq)]
pub struct Timestamp {
    secs: i64,
    nanos: u32,
}

impl Timestamp {
    #[verifier::type_invariant]
    spec fn in_range(&self) -> bool {
        instant_in_range(self.secs as int, self.nanos as int)
    }

    pub closed spec fn secs_value(&self) -> int {
        self.secs as int
    }

    pub closed spec fn nanos_value(&self) -> int {
        self.nanos as int
    }

    /// The instant `secs` seconds and `nanos` nanoseconds after the epoch,
    /// if it lies in the years -262143 to 262142 and its nanoseconds are
    /// valid.
    pub fn new(secs: i64, nanos: u32) -> (res: Option<Timestamp>)
        ensures
            match res {
                Some(moment) => {
                    &&& instant_in_range(secs as int, nanos as int)
                    &&& moment.secs_value() == secs
                    &&& moment.nanos_value() == nanos
                },
                None => !instant_in_range(secs as int, nanos as int),
            },
    {
        if secs < -8_334_601_228_800 || secs > 8_210_266_876_799 || nanos >= 2_000_000_000 {
            return None;
        }
        let shifted: i64 = secs + 8_334_601_228_800;
        assert(shifted % 60 == secs as int % 60);
        if nanos >= 1_000_000_000 && shifted % 60 != 59 {
            return None;
        }
        Some(Timestamp { secs, nanos })
    }

    /// The Unix epoch: midnight on the first day of 1970.
    pub fn epoch() -> (res: Timestamp)
        ensures
            res.secs_value() == 0,
            res.nanos_value() == 0,
    {
        Timestamp { secs: 0, nanos: 0 }
    }

    pub fn secs(&self) -> (res: i64)
        ensures
            res == self.secs_value(),
            instant_in_range(self.secs_value(), self.nanos_value()),
    {
        proof {
            use_type_invariant(self);
        }
        self.secs
    }

    pub fn nanos(&self) -> (res: u32)
        ensures
            res == self.nanos_value(),
            instant_in_range(self.secs_value(), self.nanos_value()),
    {
        proof {
            use_type_invariant(self);
        }
        self.nanos
    }
}

/// What a field's slot holds.
///
/// `Absent` is the empty state of an optional field. `Custom` stands for an
/// opaque value that this library carries but never reads.
#[derive(Debug, PartialEq, Eq)]
pub enum Value {
    Float(FloatText),
    Integer(i128),
    Text(String),
    Date(Timestamp),
    Decimal(FixedPoint),
    Bool(bool),
    Custom,
    Absent,
}

/// The mathematical content of a [`Value`].
pub enum ValueView {
    Float(Seq<char>),
    Integer(int),
    Text(Seq<char>),
    Date { secs: int, nanos: int },
    Decimal { mantissa: int, scale: int },
    Bool(bool),
    Custom,
    Absent,
}

impl ValueView {
    /// What every executable value satisfies: canonical float text, an
    /// integer of 128 bits, an instant and a decimal in range.
    pub open spec fn wf(self) -> bool {
        match self {
            ValueView::Float(text) => is_canonical_float(text),
            ValueView::Integer(n) => i128::MIN <= n <= i128::MAX,
            ValueView::Date { secs, nanos } => instant_in_range(secs, nanos),
            ValueView::Decimal { mantissa, scale } => decimal_in_range(mantissa, scale),
            _ => true,
        }
    }

    /// The kind of the value; `None` for `Absent`, which has none of its
    /// own.
    pub open spec fn kind(self) -> Option<Type> {
        match self {
            ValueView::Float(_) => Some(Type::Float),
            ValueView::Integer(_) => Some(Type::Integer),
            ValueView::Text(_) => Some(Type::Text),
            ValueView::Date { .. } => Some(Type::Date),
            ValueView::Decimal { .. } => Some(Type::Decimal),
            ValueView::Bool(_) => Some(Type::Bool),
            ValueView::Custom => Some(Type::Custom),
            ValueView::Absent => None,
        }
    }

    /// Whether a slot of kind `tp` may hold this value: `Absent` in an
    /// optional slot only, anything else in a slot of its own kind, optional
    /// or not.
    pub open spec fn conforms(self, tp: Type) -> bool {
        match self.kind() {
            Some(kind) => tp.base() == kind,
            None => tp is Optional,
        }
    }
}

impl View for Value {
    type V = ValueView;

    open spec fn view(&self) -> ValueView {
        match self {
            Value::Float(text) => ValueView::Float(text@),
            Value::Integer(n) => ValueView::Integer(*n as int),
            Value::Text(text) => ValueView::Text(text@),
            Value::Date(moment) => ValueView::Date {
                secs: moment.secs_value(),
                nanos: moment.nanos_value(),
            },
            Value::Decimal(number) => ValueView::Decimal {
                mantissa: number.mantissa_value(),
                scale: number.scale_value(),
            },
            Value::Bool(b) => ValueView::Bool(*b),
            Value::Custom => ValueView::Custom,
            Value::Absent => ValueView::Absent,
        }
    }
}

impl Clone for Value {
    fn clone(&self) -> (res: Self)
        ensures
            res == *self,
    {
        self.duplicate()
    }
}

impl Value {
    /// Every value is well formed: its parts are held to their invariants
    /// by their own types.
    pub fn well_formed(&self)
        ensures
            self@.wf(),
    {
        match self {
            Value::Float(text) => {
                let _ = text.as_str();
            },
            Value::Date(moment) => {
                let _ = moment.secs();
            },
            Value::Decimal(number) => {
                let _ = number.mantissa();
            },
            _ => {},
        }
    }

    /// A copy of the value.
    pub fn duplicate(&self) -> (res: Value)
        ensures
            res == *self,
    {
        match self {
            Value::Float(text) => Value::Float(text.duplicate()),
            Value::Integer(n) => Value::Integer(*n),
            Value::Text(text) => Value::Text(text.clone()),
            Value::Date(moment) => Value::Date(*moment),
            Value::Decimal(number) => Value::Decimal(*number),
            Value::Bool(b) => Value::Bool(*b),
            Value::Custom => Value::Custom,
            Value::Absent => Value::Absent,
        }
    }
}

impl Value {
    /// The value a fresh slot of kind `tp` holds: zero, the empty text, the
    /// epoch, `false`; `Absent` in an optional slot.
    pub open spec fn initial(tp: Type) -> ValueView {
        match tp {
            Type::Float => ValueView::Float(seq!['0', '.', '0']),
            Type::Integer => ValueView::Integer(0),
            Type::Text => ValueView::Text(Seq::<char>::empty()),
            Type::Date => ValueView::Date { secs: 0, nanos: 0 },
            Type::Decimal => ValueView::Decimal { mantissa: 0, scale: 0 },
            Type::Bool => ValueView::Bool(false),
            Type::Custom => ValueView::Custom,
            Type::Optional(_) => ValueView::Absent,
        }
    }

    /// The value a fresh slot of kind `tp` holds.
    pub fn default_for(tp: &Type) -> (res: Value)
        ensures
            res@ == Value::initial(*tp),
            res@.wf(),
            res@.conforms(*tp),
    {
        match tp {
            Type::Float => Value::Float(FloatText::zero()),
            Type::Integer => Value::Integer(0),
            Type::Text => Value::Text(String::new()),
            Type::Date => Value::Date(Timestamp::epoch()),
            Type::Decimal => Value::Decimal(FixedPoint::zero()),
            Type::Bool => Value::Bool(false),
            Type::Custom => Value::Custom,
            Type::Optional(_) => Value::Absent,
        }
    }
}

} // verus!
