//! The contract of a reflected entity type: a field table, and access to
//! the value of each field through its canonical text.

use crate::convert::ConversionError;
use crate::field::{Field, FieldView};
use crate::random::{
    lemma_position_of_own_field, lemma_random_text_reads, random_outcome, random_slot, random_val,
};
use crate::record::{
    input_text, lemma_name_from, lemma_name_from_bounds, name_from, AccessError, RecordView,
};
use crate::text::same_text;
use vstd::prelude::*;

verus! {

/// An entity whose fields can be listed, and read and written by name.
///
/// An implementation supplies the table and the two accessors; what is
/// built on them comes with the trait.
pub trait Reflected: Sized {
    /// The mathematical content of the entity: the name of its type, its
    /// field table and the value of each field.
    spec fn model(&self) -> RecordView;

    /// The logical name of the entity type.
    fn entity_name(&self) -> (res: &str)
        ensures
            res@ == self.model().entity,
    ;

    /// The field table, in declaration order.
    fn fields(&self) -> (res: &Vec<Field>)
        ensures
            res@.map_values(|f: Field| f@) == self.model().fields,
    ;

    /// The canonical text of the value of `field`.
    ///
    /// It fails for a field that is not in the table, and for a custom
    /// field, which has no text.
    fn get_value(&self, field: &Field) -> (res: Result<String, AccessError>)
        requires
            self.model().wf(),
        ensures
            match res {
                Ok(text) => self.model().read(field@) == Ok::<Seq<char>, AccessError>(text@),
                Err(e) => self.model().read(field@) == Err::<Seq<char>, AccessError>(e),
            },
    ;

    /// Reads `input` under the rule of the kind of `field` and writes the
    /// result into the slot of the field. With no input, an optional field
    /// is cleared.
    ///
    /// On failure the entity is left as it was.
    fn set_value(&mut self, field: &Field, input: Option<&str>) -> (res: Result<(), AccessError>)
        requires
            old(self).model().wf(),
        ensures
            match res {
                Ok(()) => old(self).model().written(field@, input_text(input)) == Ok::<
                    RecordView,
                    AccessError,
                >(final(self).model()),
                Err(e) => old(self).model().written(field@, input_text(input)) == Err::<
                    RecordView,
                    AccessError,
                >(e) && final(self).model() == old(self).model(),
            },
            final(self).model().wf(),
    ;

    /// The fields that take part in ordinary conversion and random
    /// generation, in declaration order.
    fn simple_fields(&self) -> (res: Vec<&Field>)
        ensures
            res@.map_values(|f: &Field| f@) == self.model().fields.filter(
                |f: FieldView| f.is_simple(),
            ),
            res.len() <= self.model().fields.len(),
            forall|k: int|
                0 <= k < res.len() ==> self.model().fields.contains(#[trigger] res[k]@)
                    && res[k]@.is_simple(),
    {
        let fields = self.fields();
        let ghost table = self.model().fields;
        let ghost simple = |f: FieldView| f.is_simple();
        let mut out: Vec<&Field> = Vec::new();
        let mut i: usize = 0;
        while i < fields.len()
            invariant
                i <= fields.len(),
                table == fields@.map_values(|f: Field| f@),
                simple == |f: FieldView| f.is_simple(),
                out@.map_values(|f: &Field| f@) == table.take(i as int).filter(simple),
                out.len() <= i,
                forall|k: int|
                    0 <= k < out.len() ==> table.contains(#[trigger] out[k]@)
                        && out[k]@.is_simple(),
            decreases fields.len() - i,
        {
            let field = &fields[i];
            let ghost before = table.take(i as int);
            let ghost upto = table.take(i + 1);
            assert(upto.drop_last() =~= before);
            assert(upto.last() == field@);
            assert(table[i as int] == field@);
            proof {
                reveal(Seq::filter);
            }
            if field.is_simple() {
                let ghost old_views = out@.map_values(|f: &Field| f@);
                out.push(field);
                assert(out@.map_values(|f: &Field| f@) =~= old_views.push(field@));
            }
            i += 1;
        }
        assert(table.take(i as int) =~= table);
        out
    }

    /// The first field called `name`, if the table has one.
    fn field_by_name(&self, name: &str) -> (res: Option<&Field>)
        ensures
            match res {
                Some(field) => {
                    let i = name_from(self.model().fields, name@, 0);
                    &&& i < self.model().fields.len()
                    &&& field@ == self.model().fields[i]
                    &&& field@.name == name@
                },
                None => forall|i: int|
                    0 <= i < self.model().fields.len() ==> (#[trigger] self.model().fields[i]).name
                        != name@,
            },
    {
        let fields = self.fields();
        let ghost table = self.model().fields;
        let mut i: usize = 0;
        while i < fields.len() && !same_text(fields[i].name.as_str(), name)
            invariant
                i <= fields.len(),
                table == fields@.map_values(|f: Field| f@),
                forall|j: int| 0 <= j < i ==> table[j].name != name@,
            decreases fields.len() - i,
        {
            i += 1;
        }
        proof {
            lemma_name_from(table, name@, 0, i as int);
        }
        if i < fields.len() {
            let field = &fields[i];
            assert(table[i as int] == field@);
            Some(field)
        } else {
            None
        }
    }

    /// The canonical text of the value of the first field called `name`.
    fn value_by_name(&self, name: &str) -> (res: Result<String, AccessError>)
        requires
            self.model().wf(),
        ensures
            ({
                let i = name_from(self.model().fields, name@, 0);
                if i < self.model().fields.len() {
                    match res {
                        Ok(text) => self.model().read(self.model().fields[i]) == Ok::<
                            Seq<char>,
                            AccessError,
                        >(text@),
                        Err(e) => self.model().read(self.model().fields[i]) == Err::<
                            Seq<char>,
                            AccessError,
                        >(e),
                    }
                } else {
                    res == Err::<String, AccessError>(AccessError::UnknownField)
                }
            }),
    {
        proof {
            lemma_name_from_bounds(self.model().fields, name@, 0);
        }
        match self.field_by_name(name) {
            None => Err(AccessError::UnknownField),
            Some(field) => self.get_value(field),
        }
    }

    /// Gives every simple field a random value, by writing random text to
    /// it. Identifiers, references and custom fields are left as they are.
    ///
    /// Dates and decimals are written and read by outside code. Should that
    /// code not read what it wrote, the text counts as malformed: that error
    /// is returned, and the fields after that one are left as they were. No
    /// other error can come.
    fn randomize(&mut self) -> (res: Result<(), AccessError>)
        requires
            old(self).model().wf(),
        ensures
            final(self).model().wf(),
            final(self).model().entity == old(self).model().entity,
            final(self).model().fields == old(self).model().fields,
            forall|i: int|
                0 <= i < old(self).model().fields.len() && !(#[trigger] old(
                    self,
                ).model().fields[i]).is_simple() ==> final(self).model().values[i] == old(
                    self,
                ).model().values[i],
            res is Ok ==> forall|i: int|
                0 <= i < old(self).model().fields.len() && (#[trigger] old(
                    self,
                ).model().fields[i]).is_simple() ==> random_slot(
                    old(self).model().fields[i].tp,
                    final(self).model().values[i],
                ),
            res is Err ==> exists|i: int|
                0 <= i < old(self).model().fields.len() && (#[trigger] old(
                    self,
                ).model().fields[i]).is_simple() && (old(self).model().fields[i].tp.is_date()
                    || old(self).model().fields[i].tp.is_decimal()),
            res matches Err(e) ==> e == AccessError::Conversion(ConversionError::Malformed),
    {
        let ghost start = self.model();
        let count = self.fields().len();
        let mut i: usize = 0;
        while i < count
            invariant
                i <= count,
                count == start.fields.len(),
                start == old(self).model(),
                start.wf(),
                self.model().wf(),
                self.model().entity == start.entity,
                self.model().fields == start.fields,
                forall|k: int|
                    0 <= k < count && !(#[trigger] start.fields[k]).is_simple()
                        ==> self.model().values[k] == start.values[k],
                forall|k: int|
                    0 <= k < i && (#[trigger] start.fields[k]).is_simple() ==> random_slot(
                        start.fields[k].tp,
                        self.model().values[k],
                    ),
            decreases count - i,
        {
            let field = self.fields()[i].duplicate();
            assert(field@ == start.fields[i as int]);
            if field.is_simple() {
                proof {
                    lemma_position_of_own_field(self.model(), i as int);
                }
                let text = random_val(&field.tp);
                let ghost before = self.model();
                let outcome = match &text {
                    Some(written) => self.set_value(&field, Some(written.as_str())),
                    None => self.set_value(&field, None),
                };
                match outcome {
                    Ok(()) => {
                        assert(self.model().values =~= before.values.update(
                            i as int,
                            self.model().values[i as int],
                        ));
                        assert(random_slot(field.tp, self.model().values[i as int])) by {
                            if let Some(written) = text {
                                assert(random_outcome(field.tp.base(), written@));
                            }
                        }
                    },
                    Err(e) => {
                        proof {
                            if !(field.tp.is_date() || field.tp.is_decimal()) {
                                lemma_random_text_reads(field.tp, text->Some_0@);
                            }
                        }
                        return Err(e);
                    },
                }
            }
            i += 1;
        }
        Ok(())
    }
}

} // verus!
