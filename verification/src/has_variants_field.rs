//! The fixed set of texts that a field may take, for entity types that have
//! such fields.

use crate::field::Field;
use crate::record::Record;
use crate::reflected::Reflected;
use vstd::prelude::*;

verus! {

/// An entity type some of whose fields take one of a fixed set of texts.
pub trait HasVariantsField: Reflected {
    /// The texts that `field` may take; `None` where any text will do,
    /// which is what a type says of every field unless it says otherwise.
    fn variants_for(field: &Field) -> (res: Option<Vec<String>>)
        default_ensures
            res is None,
    {
        None
    }
}

impl HasVariantsField for Record {

}

} // verus!
