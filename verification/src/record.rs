//! An entity instance driven by its field table: one value slot per field,
//! read and written through the string conversion rules.

use crate::convert::{deserialize, deserialized, serialize, serialized, ConversionError};
use crate::field::{Field, FieldView};
use crate::field_type::Type;
use crate::reflected::Reflected;
use crate::text::same_text;
use crate::value::{Value, ValueView};
use vstd::prelude::*;

verus! {

/// Why an access to a record failed.
#[derive(Debug, Clone, Copy, PartialEq, Eq, Hash, Structural)]
pub enum AccessError {
    /// The table has no such field.
    UnknownField,
    /// The field is custom, and so has no text.
    CustomField,
    /// No text was given for a field that is not optional.
    MissingValue,
    /// The text does not read as a value of the field's kind.
    Conversion(ConversionError),
    /// Two fields of the table have the same name.
    DuplicateField,
    /// A field's `optional` flag contradicts its kind.
    InconsistentField,
}

/// The mathematical content of a [`Record`]: the name of its entity type,
/// the field table in declaration order, and the value of each field.
pub struct RecordView {
    pub entity: Seq<char>,
    pub fields: Seq<FieldView>,
    pub values: Seq<ValueView>,
}

/// The first index at or after `from` of a field called `name`;
/// `fields.len()` if there is none.
pub open spec fn name_from(fields: Seq<FieldView>, name: Seq<char>, from: int) -> int
    decreases fields.len() - from,
{
    if from >= fields.len() || fields[from].name == name {
        from
    } else {
        name_from(fields, name, from + 1)
    }
}

/// No two fields of the table have the same name.
pub open spec fn distinct_names(fields: Seq<FieldView>) -> bool {
    forall|i: int, j: int|
        0 <= i < j < fields.len() ==> (#[trigger] fields[i]).name != (#[trigger] fields[j]).name
}

/// A table that a record can be made of: consistent descriptors with
/// distinct names.
pub open spec fn valid_table(fields: Seq<FieldView>) -> bool {
    &&& distinct_names(fields)
    &&& forall|i: int| 0 <= i < fields.len() ==> (#[trigger] fields[i]).wf()
}

impl RecordView {
    /// What holds of every record: a slot per field, distinct field names,
    /// consistent descriptors, and in each slot a well-formed value that
    /// the field's kind admits.
    pub open spec fn wf(self) -> bool {
        &&& self.fields.len() == self.values.len()
        &&& distinct_names(self.fields)
        &&& forall|i: int| 0 <= i < self.fields.len() ==> (#[trigger] self.fields[i]).wf()
        &&& forall|i: int|
            0 <= i < self.fields.len() ==> {
                &&& (#[trigger] self.values[i]).wf()
                &&& self.values[i].conforms(self.fields[i].tp)
            }
    }

    /// The index of `field` in the table: the index of the field of that
    /// name, provided it is the same field.
    pub open spec fn position(self, field: FieldView) -> Option<int> {
        let i = name_from(self.fields, field.name, 0);
        if i < self.fields.len() && self.fields[i].same_as(field) {
            Some(i)
        } else {
            None
        }
    }

    /// The text of the value of `field`.
    pub open spec fn read(self, field: FieldView) -> Result<Seq<char>, AccessError> {
        match self.position(field) {
            None => Err(AccessError::UnknownField),
            Some(i) => if field.tp == Type::Custom {
                Err(AccessError::CustomField)
            } else {
                match serialized(self.values[i], field.tp) {
                    Ok(text) => Ok(text),
                    Err(e) => Err(AccessError::Conversion(e)),
                }
            },
        }
    }

    /// The record after `input` has been written to `field`: the slot of
    /// the field holds what the text reads as, or `Absent` where no text
    /// was given, and nothing else has changed.
    pub open spec fn written(self, field: FieldView, input: Option<Seq<char>>) -> Result<
        RecordView,
        AccessError,
    > {
        match self.position(field) {
            None => Err(AccessError::UnknownField),
            Some(i) => if field.tp == Type::Custom {
                Err(AccessError::CustomField)
            } else {
                match input {
                    None => if field.tp is Optional {
                        Ok(RecordView { values: self.values.update(i, ValueView::Absent), ..self })
                    } else {
                        Err(AccessError::MissingValue)
                    },
                    Some(text) => match deserialized(text, field.tp) {
                        Ok(value) => Ok(
                            RecordView { values: self.values.update(i, value), ..self },
                        ),
                        Err(e) => Err(AccessError::Conversion(e)),
                    },
                }
            },
        }
    }
}

/// `name_from` finds `k` when no field in `from..k` has the name and `k`
/// has it or is the end.
pub proof fn lemma_name_from(fields: Seq<FieldView>, name: Seq<char>, from: int, k: int)
    requires
        0 <= from <= k <= fields.len(),
        forall|j: int| from <= j < k ==> fields[j].name != name,
        k == fields.len() || fields[k].name == name,
    ensures
        name_from(fields, name, from) == k,
    decreases k - from,
{
    if from < k {
        lemma_name_from(fields, name, from + 1, k);
    }
}

/// An entity instance: a field table and one value per field.
#[derive(Debug)]
pub struct Record {
    entity: String,
    fields: Vec<Field>,
    values: Vec<Value>,
}

impl View for Record {
    type V = RecordView;

    closed spec fn view(&self) -> RecordView {
        RecordView {
            entity: self.entity@,
            fields: self.fields@.map_values(|f: Field| f@),
            values: self.values@.map_values(|v: Value| v@),
        }
    }
}

impl Clone for Record {
    fn clone(&self) -> (res: Self)
        ensures
            res@ == self@,
    {
        let mut fields: Vec<Field> = Vec::new();
        let mut i: usize = 0;
        while i < self.fields.len()
            invariant
                i <= self.fields.len(),
                fields.len() == i,
                forall|k: int| 0 <= k < i ==> fields[k] == self.fields[k],
            decreases self.fields.len() - i,
        {
            fields.push(self.fields[i].duplicate());
            i += 1;
        }
        let mut values: Vec<Value> = Vec::new();
        let mut j: usize = 0;
        while j < self.values.len()
            invariant
                j <= self.values.len(),
                values.len() == j,
                forall|k: int| 0 <= k < j ==> values[k] == self.values[k],
            decreases self.values.len() - j,
        {
            values.push(self.values[j].duplicate());
            j += 1;
        }
        let res = Record { entity: self.entity.clone(), fields, values };
        assert(res@.fields =~= self@.fields);
        assert(res@.values =~= self@.values);
        res
    }
}

impl Record {
    /// The index of the first field called `name`, or the number of
    /// fields.
    fn find_name(fields: &Vec<Field>, name: &str) -> (res: usize)
        ensures
            res <= fields.len(),
            res == name_from(fields@.map_values(|f: Field| f@), name@, 0),
    {
        let ghost table = fields@.map_values(|f: Field| f@);
        let mut i: usize = 0;
        while i < fields.len() && !same_text(fields[i].name.as_str(), name)
            invariant
                i <= fields.len(),
                table == fields@.map_values(|f: Field| f@),
                forall|j: int| 0 <= j < i ==> table[j].name != name@,
            decreases fields.len() - i,
        {
            i += 1;
        }
        proof {
            lemma_name_from(table, name@, 0, i as int);
        }
        i
    }

    /// A record of the entity type `entity` with the table `fields`, every
    /// slot holding the initial value of its kind.
    ///
    /// The table is refused if a field's `optional` flag contradicts its
    /// kind, or else if two fields have the same name.
    pub fn new(entity: &str, fields: Vec<Field>) -> (res: Result<Record, AccessError>)
        ensures
            match res {
                Ok(record) => {
                    &&& record@.wf()
                    &&& record@.entity == entity@
                    &&& record@.fields == fields@.map_values(|f: Field| f@)
                    &&& forall|i: int|
                        0 <= i < fields.len() ==> #[trigger] record@.values[i] == Value::initial(
                            fields[i].tp,
                        )
                },
                Err(e) => {
                    let table = fields@.map_values(|f: Field| f@);
                    if exists|i: int| 0 <= i < table.len() && !(#[trigger] table[i]).wf() {
                        e == AccessError::InconsistentField
                    } else {
                        e == AccessError::DuplicateField && !distinct_names(table)
                    }
                },
            },
            res is Ok <==> valid_table(fields@.map_values(|f: Field| f@)),
    {
        let ghost table = fields@.map_values(|f: Field| f@);
        let mut values: Vec<Value> = Vec::new();
        let mut i: usize = 0;
        while i < fields.len()
            invariant
                i <= fields.len(),
                values.len() == i,
                table == fields@.map_values(|f: Field| f@),
                forall|j: int| 0 <= j < i ==> (#[trigger] table[j]).wf(),
                forall|j: int|
                    0 <= j < i ==> (#[trigger] values[j])@ == Value::initial(fields[j].tp)
                        && values[j]@.wf() && values[j]@.conforms(fields[j].tp),
            decreases fields.len() - i,
        {
            let field = &fields[i];
            assert(table[i as int] == field@);
            if field.optional != field.tp.is_optional() {
                assert(!table[i as int].wf());
                return Err(AccessError::InconsistentField);
            }
            values.push(Value::default_for(&field.tp));
            i += 1;
        }
        let mut k: usize = 0;
        while k < fields.len()
            invariant
                k <= fields.len(),
                table == fields@.map_values(|f: Field| f@),
                forall|a: int, b: int|
                    0 <= a < b < fields.len() && a < k ==> (#[trigger] table[a]).name != (
                    #[trigger] table[b]).name,
                forall|j: int| 0 <= j < fields.len() ==> (#[trigger] table[j]).wf(),
            decreases fields.len() - k,
        {
            let mut m: usize = k + 1;
            while m < fields.len()
                invariant
                    k < m <= fields.len(),
                    table == fields@.map_values(|f: Field| f@),
                    forall|b: int| k < b < m ==> table[k as int].name != (#[trigger] table[b]).name,
                    forall|j: int| 0 <= j < fields.len() ==> (#[trigger] table[j]).wf(),
                decreases fields.len() - m,
            {
                if same_text(fields[k].name.as_str(), fields[m].name.as_str()) {
                    assert(table[k as int].name == table[m as int].name);
                    return Err(AccessError::DuplicateField);
                }
                m += 1;
            }
            k += 1;
        }
        let record = Record { entity: entity.to_owned(), fields, values };
        assert(record@.values.len() == record@.fields.len());
        Ok(record)
    }

    /// The index of `field` in the table, if it is a field of the table.
    pub fn locate(&self, field: &Field) -> (res: Option<usize>)
        ensures
            match res {
                Some(i) => self@.position(field@) == Some(i as int) && i < self@.fields.len(),
                None => self@.position(field@) is None,
            },
    {
        let i = Record::find_name(&self.fields, field.name.as_str());
        if i < self.fields.len() && self.fields[i].same(field) {
            Some(i)
        } else {
            None
        }
    }

    /// The value in the slot of `field`.
    pub fn slot(&self, field: &Field) -> (res: Result<&Value, AccessError>)
        requires
            self@.wf(),
        ensures
            match res {
                Ok(value) => self@.position(field@) matches Some(i) && self@.values[i] == value@
                    && value@.wf() && value@.conforms(field@.tp),
                Err(e) => e == AccessError::UnknownField && self@.position(field@) is None,
            },
    {
        match self.locate(field) {
            Some(i) => {
                let value = &self.values[i];
                assert(self@.values[i as int] == value@);
                Ok(value)
            },
            None => Err(AccessError::UnknownField),
        }
    }

    /// Puts `value` in the slot of `field`, if the field's kind admits it.
    pub fn store(&mut self, field: &Field, value: Value) -> (res: Result<(), AccessError>)
        requires
            old(self)@.wf(),
        ensures
            match res {
                Ok(()) => old(self)@.position(field@) matches Some(i) && value@.conforms(field@.tp)
                    && final(self)@ == (RecordView {
                    values: old(self)@.values.update(i, value@),
                    ..old(self)@
                }),
                Err(e) => {
                    &&& final(self)@ == old(self)@
                    &&& e == if old(self)@.position(field@) is None {
                        AccessError::UnknownField
                    } else {
                        AccessError::Conversion(ConversionError::Mismatch)
                    }
                    &&& old(self)@.position(field@) is Some ==> !value@.conforms(field@.tp)
                },
            },
            final(self)@.wf(),
    {
        match self.locate(field) {
            None => Err(AccessError::UnknownField),
            Some(i) => {
                if !admits(&field.tp, &value) {
                    return Err(AccessError::Conversion(ConversionError::Mismatch));
                }
                value.well_formed();
                let ghost before = self@;
                self.values.set(i, value);
                assert(self@.values =~= before.values.update(i as int, value@));
                assert(self@.fields == before.fields);
                Ok(())
            },
        }
    }
}

/// The characters of an optional input text.
pub open spec fn input_text(input: Option<&str>) -> Option<Seq<char>> {
    match input {
        Some(text) => Some(text@),
        None => None,
    }
}

/// Whether a slot of kind `tp` may hold `value`.
pub fn admits(tp: &Type, value: &Value) -> (res: bool)
    ensures
        res == value@.conforms(*tp),
{
    match value {
        Value::Float(_) => tp.is_float(),
        Value::Integer(_) => tp.is_integer(),
        Value::Text(_) => tp.is_text(),
        Value::Date(_) => tp.is_date(),
        Value::Decimal(_) => tp.is_decimal(),
        Value::Bool(_) => tp.is_bool(),
        Value::Custom => tp.is_custom(),
        Value::Absent => tp.is_optional(),
    }
}

/// Where `name_from` lands: within bounds, past no field of the name, on a
/// field of the name unless at the end.
pub proof fn lemma_name_from_bounds(fields: Seq<FieldView>, name: Seq<char>, from: int)
    requires
        0 <= from <= fields.len(),
    ensures
        from <= name_from(fields, name, from) <= fields.len(),
        forall|j: int| from <= j < name_from(fields, name, from) ==> fields[j].name != name,
        name_from(fields, name, from) < fields.len() ==> fields[name_from(fields, name, from)].name
            == name,
    decreases fields.len() - from,
{
    if from < fields.len() && fields[from].name != name {
        lemma_name_from_bounds(fields, name, from + 1);
    }
}

/// A successful write leaves a valid record valid.
pub proof fn lemma_written_is_wf(record: RecordView, field: FieldView, input: Option<Seq<char>>)
    requires
        record.wf(),
        record.written(field, input) is Ok,
    ensures
        record.written(field, input)->Ok_0.wf(),
        record.written(field, input)->Ok_0.fields == record.fields,
        record.written(field, input)->Ok_0.entity == record.entity,
{
    let after = record.written(field, input)->Ok_0;
    let i = record.position(field)->Some_0;
    lemma_name_from_bounds(record.fields, field.name, 0);
    assert(0 <= i < record.fields.len());
    if let Some(text) = input {
        crate::convert::lemma_deserialized_conforms(text, field.tp);
    }
    assert forall|k: int| 0 <= k < after.fields.len() implies (#[trigger] after.values[k]).wf()
        && after.values[k].conforms(after.fields[k].tp) by {
        if k != i {
            assert(after.values[k] == record.values[k]);
            assert(record.values[k].wf());
        }
    }
}

/// What is read from a field after a successful write to it: the canonical
/// text of the value that the input reads as, and the null text where an
/// optional field was cleared. Every other field reads as before.
pub proof fn lemma_read_after_write(
    record: RecordView,
    field: FieldView,
    input: Option<Seq<char>>,
    other: FieldView,
)
    requires
        record.wf(),
        record.written(field, input) is Ok,
    ensures
        ({
            let after = record.written(field, input)->Ok_0;
            &&& after.read(field) == match input {
                Some(text) => Ok::<Seq<char>, AccessError>(
                    serialized(deserialized(text, field.tp)->Ok_0, field.tp)->Ok_0,
                ),
                None => Ok::<Seq<char>, AccessError>(crate::convert::null_text()),
            }
            &&& after.position(other) != after.position(field) ==> after.read(other)
                == record.read(other)
        }),
{
    let after = record.written(field, input)->Ok_0;
    lemma_written_is_wf(record, field, input);
    lemma_name_from_bounds(record.fields, field.name, 0);
    lemma_name_from_bounds(record.fields, other.name, 0);
    if let Some(text) = input {
        crate::convert::lemma_deserialized_conforms(text, field.tp);
    }
}

impl Reflected for Record {
    open spec fn model(&self) -> RecordView {
        self@
    }

    fn entity_name(&self) -> (res: &str) {
        self.entity.as_str()
    }

    fn fields(&self) -> (res: &Vec<Field>) {
        &self.fields
    }

    fn get_value(&self, field: &Field) -> (res: Result<String, AccessError>) {
        match self.locate(field) {
            None => Err(AccessError::UnknownField),
            Some(i) => {
                if field.tp.is_custom() {
                    return Err(AccessError::CustomField);
                }
                let value = &self.values[i];
                assert(self@.values[i as int] == value@);
                match serialize(value, &field.tp) {
                    Ok(text) => Ok(text),
                    Err(e) => Err(AccessError::Conversion(e)),
                }
            },
        }
    }

    fn set_value(&mut self, field: &Field, input: Option<&str>) -> (res: Result<(), AccessError>) {
        match self.locate(field) {
            None => Err(AccessError::UnknownField),
            Some(i) => {
                if field.tp.is_custom() {
                    return Err(AccessError::CustomField);
                }
                let value = match input {
                    None => {
                        if !field.tp.is_optional() {
                            return Err(AccessError::MissingValue);
                        }
                        Value::Absent
                    },
                    Some(text) => match deserialize(text, &field.tp) {
                        Ok(value) => value,
                        Err(e) => {
                            return Err(AccessError::Conversion(e));
                        },
                    },
                };
                let ghost before = self@;
                self.values.set(i, value);
                assert(self@.values =~= before.values.update(i as int, value@));
                assert(self@.fields == before.fields);
                Ok(())
            },
        }
    }
}

/// Reading a field of a valid record succeeds exactly when the field is in
/// the table and is not custom.
pub proof fn lemma_read_succeeds(record: RecordView, field: FieldView)
    requires
        record.wf(),
    ensures
        record.read(field) is Ok <==> record.position(field) is Some && field.tp != Type::Custom,
        record.position(field) is None ==> record.read(field) == Err::<Seq<char>, AccessError>(
            AccessError::UnknownField,
        ),
        record.position(field) is Some && field.tp == Type::Custom ==> record.read(field) == Err::<
            Seq<char>,
            AccessError,
        >(AccessError::CustomField),
{
    lemma_name_from_bounds(record.fields, field.name, 0);
}

} // verus!
