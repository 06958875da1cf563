//! Structural reflection for flat data-entity types.
//!
//! An entity type is described by an ordered table of [`Field`] descriptors.
//! Each descriptor carries a name, a [`Type`] drawn from a closed taxonomy,
//! and a few attributes. A [`Record`] pairs such a table with one value slot
//! per field. Through the [`Reflected`] contract every field can be read
//! and written as text, by the conversion rules of [`serialize`] and
//! [`deserialize`]; a record can be filled with random values; and two
//! records can be compared field by field, numbers within a tolerance
//! ([`ReflectedEq`]).
//!
//! Dates are written and read by `chrono`, decimals by `rust_decimal`, and
//! random values are drawn by `rand`. The calls into these crates stand in
//! the module [`outside`], with what is relied upon of each; everything else
//! is proved against those statements. Floating-point numbers are held by
//! their canonical decimal text ([`FloatText`]).

pub mod convert;
pub mod field;
pub mod field_type;
pub mod has_variants_field;
pub mod number;
pub mod outside;
pub mod random;
pub mod record;
pub mod reflected;
pub mod reflected_eq;
pub mod text;
pub mod to_reflected_string;
pub mod to_reflected_val;
pub mod tolerance;
pub mod try_into_val;
pub mod value;

pub use convert::{deserialize, serialize, ConversionError};
pub use field::Field;
pub use field_type::{OptionalType, Type};
pub use has_variants_field::HasVariantsField;
pub use number::{FixedPoint, FloatText};
pub use random::random_val;
pub use record::{AccessError, Record};
pub use reflected::Reflected;
pub use reflected_eq::{mismatch_message, Mismatch, ReflectedEq};
pub use to_reflected_string::ToReflectedString;
pub use to_reflected_val::ToReflectedVal;
pub use tolerance::texts_agree;
pub use try_into_val::TryIntoVal;
pub use value::{Timestamp, Value};
