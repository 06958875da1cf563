//! The closed taxonomy of value kinds, with its optional wrapper.

use vstd::pervasive::unreached;
use vstd::prelude::*;

verus! {

/// The kinds that may stand inside [`Type::Optional`]: every kind except
/// `Custom` and `Optional` itself.
#[derive(Debug, Clone, Copy, PartialEq, Eq, Hash, Structural)]
pub enum OptionalType {
    Float,
    Integer,
    Text,
    Date,
    Decimal,
    Bool,
}

/// The kind of value a field holds.
///
/// `Optional` is a second level of the same enumeration rather than a flag,
/// so a kind can be asked both for its outer tag ([`Type::is_optional`]) and
/// for its kind with the wrapper looked through ([`Type::is_type`]).
#[derive(Debug, Clone, Copy, PartialEq, Eq, Hash, Structural)]
pub enum Type {
    Float,
    Integer,
    Text,
    Date,
    Decimal,
    Bool,
    Custom,
    Optional(OptionalType),
}

impl OptionalType {
    /// The plain kind that this wrapped kind stands for.
    pub open spec fn as_type(&self) -> Type {
        match *self {
            OptionalType::Float => Type::Float,
            OptionalType::Integer => Type::Integer,
            OptionalType::Text => Type::Text,
            OptionalType::Date => Type::Date,
            OptionalType::Decimal => Type::Decimal,
            OptionalType::Bool => Type::Bool,
        }
    }

    /// The wrapped form of a plain kind. `tp` must be wrappable.
    pub fn from_type(tp: &Type) -> (res: Self)
        requires
            tp.is_wrappable(),
        ensures
            res.as_type() == *tp,
    {
        match tp {
            Type::Float => OptionalType::Float,
            Type::Integer => OptionalType::Integer,
            Type::Text => OptionalType::Text,
            Type::Date => OptionalType::Date,
            Type::Decimal => OptionalType::Decimal,
            Type::Bool => OptionalType::Bool,
            _ => unreached(),
        }
    }

    /// The plain kind that this wrapped kind stands for.
    #[verifier::when_used_as_spec(as_type)]
    pub fn to_type(&self) -> (res: Type)
        ensures
            res == self.as_type(),
            res.is_wrappable(),
    {
        match self {
            OptionalType::Float => Type::Float,
            OptionalType::Integer => Type::Integer,
            OptionalType::Text => Type::Text,
            OptionalType::Date => Type::Date,
            OptionalType::Decimal => Type::Decimal,
            OptionalType::Bool => Type::Bool,
        }
    }
}

impl Type {
    /// A kind that may be wrapped in `Optional`: neither `Custom` nor
    /// already optional.
    pub open spec fn is_wrappable(self) -> bool {
        !(self is Custom) && !(self is Optional)
    }

    /// The kind with an `Optional` wrapper looked through.
    pub open spec fn base(self) -> Type {
        match self {
            Type::Optional(inner) => inner.as_type(),
            other => other,
        }
    }

    /// What [`Type::is_type`] decides: equal as written, or `self` is the
    /// optional form of `tp`.
    pub open spec fn matches_type(&self, tp: Type) -> bool {
        *self == tp || (*self is Optional && self.base() == tp)
    }

    pub open spec fn float_kind(&self) -> bool {
        self.base() == Type::Float
    }

    pub open spec fn integer_kind(&self) -> bool {
        self.base() == Type::Integer
    }

    pub open spec fn text_kind(&self) -> bool {
        self.base() == Type::Text
    }

    pub open spec fn date_kind(&self) -> bool {
        self.base() == Type::Date
    }

    pub open spec fn decimal_kind(&self) -> bool {
        self.base() == Type::Decimal
    }

    pub open spec fn bool_kind(&self) -> bool {
        self.base() == Type::Bool
    }

    pub open spec fn custom_kind(&self) -> bool {
        *self == Type::Custom
    }

    pub open spec fn optional_kind(&self) -> bool {
        *self is Optional
    }

    pub open spec fn number_kind(&self) -> bool {
        self.base() == Type::Integer || self.base() == Type::Float
    }

    /// Wraps a plain kind into its optional form.
    pub fn to_optional(self) -> (res: Self)
        requires
            self.is_wrappable(),
        ensures
            res is Optional,
            res.base() == self,
    {
        Type::Optional(OptionalType::from_type(&self))
    }

    /// Whether this kind is `tp`, with an `Optional` wrapper on `self`
    /// looked through.
    #[verifier::when_used_as_spec(matches_type)]
    pub fn is_type(&self, tp: Self) -> (res: bool)
        ensures
            res == self.matches_type(tp),
    {
        if *self == tp {
            return true;
        }
        if let Type::Optional(opt) = self {
            if tp == opt.to_type() {
                return true;
            }
        }
        false
    }

    #[verifier::when_used_as_spec(float_kind)]
    pub fn is_float(&self) -> (res: bool)
        ensures
            res == self.float_kind(),
    {
        self.is_type(Type::Float)
    }

    #[verifier::when_used_as_spec(integer_kind)]
    pub fn is_integer(&self) -> (res: bool)
        ensures
            res == self.integer_kind(),
    {
        self.is_type(Type::Integer)
    }

    #[verifier::when_used_as_spec(text_kind)]
    pub fn is_text(&self) -> (res: bool)
        ensures
            res == self.text_kind(),
    {
        self.is_type(Type::Text)
    }

    #[verifier::when_used_as_spec(date_kind)]
    pub fn is_date(&self) -> (res: bool)
        ensures
            res == self.date_kind(),
    {
        self.is_type(Type::Date)
    }

    #[verifier::when_used_as_spec(decimal_kind)]
    pub fn is_decimal(&self) -> (res: bool)
        ensures
            res == self.decimal_kind(),
    {
        self.is_type(Type::Decimal)
    }

    #[verifier::when_used_as_spec(bool_kind)]
    pub fn is_bool(&self) -> (res: bool)
        ensures
            res == self.bool_kind(),
    {
        self.is_type(Type::Bool)
    }

    #[verifier::when_used_as_spec(custom_kind)]
    pub fn is_custom(&self) -> (res: bool)
        ensures
            res == self.custom_kind(),
    {
        self.is_type(Type::Custom)
    }

    #[verifier::when_used_as_spec(optional_kind)]
    pub fn is_optional(&self) -> (res: bool)
        ensures
            res == self.optional_kind(),
    {
        matches!(self, Type::Optional(_))
    }

    #[verifier::when_used_as_spec(number_kind)]
    pub fn is_number(&self) -> (res: bool)
        ensures
            res == self.number_kind(),
    {
        self.is_integer() || self.is_float()
    }
}

} // verus!
