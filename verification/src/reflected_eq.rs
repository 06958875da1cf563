//! Tolerant structural equality of two entities of the same type.

use crate::convert::serialized;
use crate::field::{Field, FieldView};
use crate::field_type::Type;
use crate::random::{lemma_position_of_own_field, lemma_position_of_same_field};
use crate::record::RecordView;
use crate::reflected::Reflected;
use crate::tolerance::{agreement, texts_agree};
use vstd::prelude::*;
use vstd::string::*;

verus! {

/// Where and why two entities are not equal.
#[derive(Debug, Clone, Copy, PartialEq, Eq, Structural)]
pub enum Mismatch {
    /// The two entities do not have the same field table.
    Table,
    /// The field at this index is custom, and so cannot be read.
    Custom(usize),
    /// The values of the field at this index differ.
    Value(usize),
}

/// The same fields in the same order.
pub open spec fn same_table(a: Seq<FieldView>, b: Seq<FieldView>) -> bool {
    &&& a.len() == b.len()
    &&& forall|i: int| 0 <= i < a.len() ==> (#[trigger] a[i]).same_as(b[i])
}

/// The kinds whose values are compared as numbers: float and decimal,
/// optional or not.
pub open spec fn is_numeric(tp: Type) -> bool {
    tp.is_float() || tp.is_decimal()
}

/// The canonical text of the value in slot `i`.
pub open spec fn slot_text(record: RecordView, i: int) -> Seq<char> {
    serialized(record.values[i], record.fields[i].tp)->Ok_0
}

/// The outcome of comparing the fields from index `i` on, one after the
/// other: the first field that is custom or whose values do not agree ends
/// the comparison.
pub open spec fn verdict_from(a: RecordView, b: RecordView, i: int) -> Result<(), Mismatch>
    decreases a.fields.len() - i,
{
    if i >= a.fields.len() {
        Ok(())
    } else if a.fields[i].tp == Type::Custom {
        Err(Mismatch::Custom(i as usize))
    } else {
        if agreement(is_numeric(a.fields[i].tp), slot_text(a, i), slot_text(b, i)) {
            verdict_from(a, b, i + 1)
        } else {
            Err(Mismatch::Value(i as usize))
        }
    }
}

/// The outcome of comparing two entities.
pub open spec fn verdict(a: RecordView, b: RecordView) -> Result<(), Mismatch> {
    if !same_table(a.fields, b.fields) {
        Err(Mismatch::Table)
    } else {
        verdict_from(a, b, 0)
    }
}

/// Field-by-field comparison of two entities of the same type.
///
/// Every entity type that is [`Reflected`] has it.
pub trait ReflectedEq: Reflected {
    /// Compares the canonical text of every field of `self` and `other`,
    /// in table order. Floats and decimals agree when they differ by no
    /// more than a thousandth; all else must be equal character by
    /// character. The first field that does not agree is reported.
    fn assert_eq(&self, other: &Self) -> (res: Result<(), Mismatch>)
        requires
            self.model().wf(),
            other.model().wf(),
        ensures
            res == verdict(self.model(), other.model()),
    {
        let mine = self.fields();
        let theirs = other.fields();
        let ghost a = self.model();
        let ghost b = other.model();
        if mine.len() != theirs.len() {
            return Err(Mismatch::Table);
        }
        let mut k: usize = 0;
        while k < mine.len()
            invariant
                k <= mine.len(),
                mine.len() == theirs.len(),
                a == self.model(),
                b == other.model(),
                a.fields == mine@.map_values(|f: Field| f@),
                b.fields == theirs@.map_values(|f: Field| f@),
                forall|j: int| 0 <= j < k ==> (#[trigger] a.fields[j]).same_as(b.fields[j]),
            decreases mine.len() - k,
        {
            assert(a.fields[k as int] == mine[k as int]@);
            assert(b.fields[k as int] == theirs[k as int]@);
            if !mine[k].same(&theirs[k]) {
                return Err(Mismatch::Table);
            }
            k += 1;
        }
        assert(same_table(a.fields, b.fields));
        let mut i: usize = 0;
        while i < mine.len()
            invariant
                i <= mine.len(),
                a == self.model(),
                b == other.model(),
                a.wf(),
                b.wf(),
                same_table(a.fields, b.fields),
                a.fields == mine@.map_values(|f: Field| f@),
                verdict_from(a, b, 0) == verdict_from(a, b, i as int),
            decreases mine.len() - i,
        {
            let field = &mine[i];
            assert(a.fields[i as int] == field@);
            assert(a.fields[i as int].same_as(b.fields[i as int]));
            proof {
                lemma_position_of_own_field(a, i as int);
                lemma_position_of_same_field(b, field@, i as int);
            }
            if field.is_custom() {
                return Err(Mismatch::Custom(i));
            }
            let left = match self.get_value(field) {
                Ok(text) => text,
                Err(_) => {
                    assert(false);
                    return Err(Mismatch::Custom(i));
                },
            };
            let right = match other.get_value(field) {
                Ok(text) => text,
                Err(_) => {
                    assert(false);
                    return Err(Mismatch::Custom(i));
                },
            };
            let numeric = field.is_float() || field.is_decimal();
            if !texts_agree(numeric, left.as_str(), right.as_str()) {
                return Err(Mismatch::Value(i));
            }
            i += 1;
        }
        Ok(())
    }
}

impl<T: Reflected> ReflectedEq for T {

}

/// The diagnostic for two values of a field that do not agree: it names
/// the field and both values.
pub fn mismatch_message(field: &str, left: &str, right: &str) -> (res: String)
    ensures
        res@ == "Reflected eq error: Field: "@ + field@ + "\nLeft: "@ + left@ + ", Right: "@
            + right@,
{
    let mut out = "Reflected eq error: Field: ".to_owned();
    out.append(field);
    out.append("\nLeft: ");
    out.append(left);
    out.append(", Right: ");
    out.append(right);
    out
}

} // verus!
