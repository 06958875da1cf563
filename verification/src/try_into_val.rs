//! The reading of text that is known to be well formed.

use crate::number::{FixedPoint, FloatText};
use crate::to_reflected_val::ToReflectedVal;
use vstd::pervasive::unreached;
use vstd::prelude::*;

verus! {

/// Text that reads as a value of type `T` wherever it is well formed.
pub trait TryIntoVal<T>: ToReflectedVal<T> {
    /// Reads the text, which must be well formed.
    fn try_into_val(&self) -> (res: T)
        requires
            self.readable(),
        ensures
            self.reads_as(res),
    {
        match self.to_reflected_val() {
            Ok(value) => value,
            Err(_) => unreached(),
        }
    }
}

impl TryIntoVal<i32> for &str {

}

impl TryIntoVal<u32> for &str {

}

impl TryIntoVal<i64> for &str {

}

impl TryIntoVal<u64> for &str {

}

impl TryIntoVal<isize> for &str {

}

impl TryIntoVal<usize> for &str {

}

impl TryIntoVal<i128> for &str {

}

impl TryIntoVal<bool> for &str {

}

impl TryIntoVal<String> for &str {

}

impl TryIntoVal<FloatText> for &str {

}

impl TryIntoVal<FixedPoint> for &str {

}

} // verus!
