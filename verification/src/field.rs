//! The descriptor of one field of an entity type, and what can be told of a
//! field from its descriptor alone.

use crate::field_type::{OptionalType, Type};
use crate::text::{chars_of, same_text};
use std::hash::{Hash, Hasher};
use vstd::prelude::*;
use vstd::std_specs::cmp::PartialEqSpecImpl;

verus! {

/// The kind that a declared type name stands for. The table is fixed; a
/// name that is not in it is a custom type.
pub open spec fn kind_of_type_name(name: Seq<char>) -> Type {
    if name == "f32"@ || name == "f64"@ {
        Type::Float
    } else if name == "i32"@ || name == "u32"@ || name == "i64"@ || name == "u64"@ || name
        == "isize"@ || name == "usize"@ {
        Type::Integer
    } else if name == "String"@ {
        Type::Text
    } else if name == "DateTime"@ || name == "NaiveDateTime"@ {
        Type::Date
    } else if name == "Decimal"@ {
        Type::Decimal
    } else if name == "bool"@ {
        Type::Bool
    } else {
        Type::Custom
    }
}

/// Whether `pattern` stands somewhere in `s` as a run of adjacent
/// characters.
pub open spec fn contains_run(s: Seq<char>, pattern: Seq<char>) -> bool {
    exists|i: int| #[trigger] occurs_at(s, pattern, i)
}

/// Whether `pattern` stands in `s` at index `i`.
pub open spec fn occurs_at(s: Seq<char>, pattern: Seq<char>, i: int) -> bool {
    0 <= i && i + pattern.len() <= s.len() && s.subrange(i, i + pattern.len()) == pattern
}

/// The name of the identifier field.
pub open spec fn id_name() -> Seq<char> {
    seq!['i', 'd']
}

/// The run of characters that marks a reference to another entity.
pub open spec fn foreign_marker() -> Seq<char> {
    seq!['_', 'i', 'd']
}

/// The field name that is secure by convention.
pub open spec fn password_name() -> Seq<char> {
    seq!['p', 'a', 's', 's', 'w', 'o', 'r', 'd']
}

impl Type {
    /// The kind that a declared type name stands for.
    pub fn from_type_name(name: &str) -> (res: Type)
        ensures
            res == kind_of_type_name(name@),
    {
        if same_text(name, "f32") || same_text(name, "f64") {
            Type::Float
        } else if same_text(name, "i32") || same_text(name, "u32") || same_text(name, "i64")
            || same_text(name, "u64") || same_text(name, "isize") || same_text(name, "usize") {
            Type::Integer
        } else if same_text(name, "String") {
            Type::Text
        } else if same_text(name, "DateTime") || same_text(name, "NaiveDateTime") {
            Type::Date
        } else if same_text(name, "Decimal") {
            Type::Decimal
        } else if same_text(name, "bool") {
            Type::Bool
        } else {
            Type::Custom
        }
    }
}

/// Whether `pattern` stands in `chars` at index `at`.
fn run_at(chars: &Vec<char>, pattern: &Vec<char>, at: usize) -> (res: bool)
    requires
        at + pattern.len() <= chars.len(),
    ensures
        res == occurs_at(chars@, pattern@, at as int),
{
    let ghost window = chars@.subrange(at as int, at + pattern.len());
    let mut j: usize = 0;
    while j < pattern.len()
        invariant
            j <= pattern.len(),
            at + pattern.len() <= chars.len(),
            window == chars@.subrange(at as int, at + pattern.len()),
            forall|k: int| 0 <= k < j ==> window[k] == pattern@[k],
        decreases pattern.len() - j,
    {
        if chars[at + j] != pattern[j] {
            assert(window[j as int] != pattern@[j as int]);
            return false;
        }
        j += 1;
    }
    assert(window =~= pattern@);
    true
}

/// Whether `pattern` stands somewhere in `s`.
pub fn has_run(s: &str, pattern: &str) -> (res: bool)
    ensures
        res == contains_run(s@, pattern@),
{
    let chars = chars_of(s);
    let wanted = chars_of(pattern);
    if wanted.len() > chars.len() {
        assert forall|i: int| !occurs_at(chars@, wanted@, i) by {}
        return false;
    }
    if wanted.len() == 0 {
        assert(chars@.subrange(0, 0) =~= wanted@);
        assert(occurs_at(chars@, wanted@, 0));
        return true;
    }
    let mut i: usize = 0;
    while wanted.len() <= chars.len() - i
        invariant
            i <= chars.len(),
            wanted.len() > 0,
            chars@ == s@,
            wanted@ == pattern@,
            forall|k: int| 0 <= k < i ==> !occurs_at(chars@, wanted@, k),
        decreases chars.len() - i,
    {
        if run_at(&chars, &wanted, i) {
            return true;
        }
        i += 1;
    }
    assert forall|k: int| !occurs_at(chars@, wanted@, k) by {}
    false
}

/// The descriptor of one field: its name, its kind, the name of its declared
/// type, the name of the entity type that declares it, and its attributes.
///
/// A descriptor is built once and never changed.
#[derive(Debug)]
pub struct Field {
    pub name: String,
    pub tp: Type,
    pub declared_type: String,
    pub parent_name: String,
    pub optional: bool,
    pub unique: bool,
    pub secure: bool,
}

/// The mathematical content of a [`Field`].
pub struct FieldView {
    pub name: Seq<char>,
    pub tp: Type,
    pub declared_type: Seq<char>,
    pub parent_name: Seq<char>,
    pub optional: bool,
    pub unique: bool,
    pub secure: bool,
}

impl View for Field {
    type V = FieldView;

    open spec fn view(&self) -> FieldView {
        FieldView {
            name: self.name@,
            tp: self.tp,
            declared_type: self.declared_type@,
            parent_name: self.parent_name@,
            optional: self.optional,
            unique: self.unique,
            secure: self.secure,
        }
    }
}

impl FieldView {
    /// The flag `optional` says what the kind says.
    pub open spec fn wf(self) -> bool {
        self.optional == (self.tp is Optional)
    }

    /// The field is the identifier of its entity.
    pub open spec fn is_id(self) -> bool {
        self.name == id_name()
    }

    /// The field refers to another entity by identifier.
    pub open spec fn is_foreign_id(self) -> bool {
        contains_run(self.name, foreign_marker())
    }

    /// The field holds an opaque value.
    pub open spec fn is_custom(self) -> bool {
        self.tp == Type::Custom
    }

    /// The field takes part in ordinary conversion and random generation:
    /// no identifier, no reference, no custom value.
    pub open spec fn is_simple(self) -> bool {
        !self.is_id() && !self.is_custom() && !self.is_foreign_id()
    }

    /// The field is sensitive: by its name, or because it was declared so.
    pub open spec fn is_secure(self) -> bool {
        self.name == password_name() || self.secure
    }

    /// The same field: same name, kind, declaring type and optionality.
    /// The other attributes do not tell fields apart.
    pub open spec fn same_as(self, other: FieldView) -> bool {
        &&& self.name == other.name
        &&& self.tp == other.tp
        &&& self.parent_name == other.parent_name
        &&& self.optional == other.optional
    }
}

impl Clone for Field {
    fn clone(&self) -> (res: Self)
        ensures
            res == *self,
    {
        self.duplicate()
    }
}

impl Field {
    /// Whether `other` is the same field: same name, kind, declaring type
    /// and optionality.
    pub fn same(&self, other: &Field) -> (res: bool)
        ensures
            res == self@.same_as(other@),
    {
        same_text(self.name.as_str(), other.name.as_str()) && self.tp == other.tp && same_text(
            self.parent_name.as_str(),
            other.parent_name.as_str(),
        ) && self.optional == other.optional
    }

    /// A copy of the descriptor.
    pub fn duplicate(&self) -> (res: Field)
        ensures
            res == *self,
    {
        Field {
            name: self.name.clone(),
            tp: self.tp,
            declared_type: self.declared_type.clone(),
            parent_name: self.parent_name.clone(),
            optional: self.optional,
            unique: self.unique,
            secure: self.secure,
        }
    }
}

impl std::ops::Deref for Field {
    type Target = Type;

    /// The kind of the field, so that what can be asked of a kind can be
    /// asked of a field.
    fn deref(&self) -> (res: &Type)
        ensures
            *res == self.tp,
    {
        &self.tp
    }
}

impl PartialEq for Field {
    /// Fields are equal when they are the same field, whatever their other
    /// attributes.
    fn eq(&self, other: &Field) -> (res: bool) {
        self.same(other)
    }
}

impl PartialEqSpecImpl for Field {
    open spec fn obeys_eq_spec() -> bool {
        true
    }

    open spec fn eq_spec(&self, other: &Field) -> bool {
        self@.same_as(other@)
    }
}

impl Eq for Field {

}

/// `Hash::hash` of the standard library on a string. Nothing is stated of
/// what it feeds the hasher.
pub assume_specification<H: Hasher>[ <String as Hash>::hash::<H> ](text: &String, state: &mut H);

/// `Hash::hash` of the standard library on a boolean. Nothing is stated of
/// what it feeds the hasher.
pub assume_specification<H: Hasher>[ <bool as Hash>::hash::<H> ](flag: &bool, state: &mut H);

/// `Hash::hash` of the standard library on a byte. Nothing is stated of
/// what it feeds the hasher.
pub assume_specification<H: Hasher>[ <u8 as Hash>::hash::<H> ](byte: &u8, state: &mut H);

/// A number for each kind, different for different kinds.
fn kind_number(tp: &Type) -> (res: u8)
    ensures
        res == kind_number_of(*tp),
{
    match tp {
        Type::Float => 0,
        Type::Integer => 1,
        Type::Text => 2,
        Type::Date => 3,
        Type::Decimal => 4,
        Type::Bool => 5,
        Type::Custom => 6,
        Type::Optional(inner) => match inner {
            OptionalType::Float => 7,
            OptionalType::Integer => 8,
            OptionalType::Text => 9,
            OptionalType::Date => 10,
            OptionalType::Decimal => 11,
            OptionalType::Bool => 12,
        },
    }
}

/// A number for each kind: the plain kinds in their order, and seven more
/// for the optional form of a kind.
pub open spec fn kind_number_of(tp: Type) -> u8 {
    match tp {
        Type::Float => 0,
        Type::Integer => 1,
        Type::Text => 2,
        Type::Date => 3,
        Type::Decimal => 4,
        Type::Bool => 5,
        Type::Custom => 6,
        Type::Optional(inner) => match inner.as_type() {
            Type::Float => 7,
            Type::Integer => 8,
            Type::Text => 9,
            Type::Date => 10,
            Type::Decimal => 11,
            _ => 12,
        },
    }
}

impl Hash for Field {
    /// Feeds the hasher the four parts that tell fields apart: the name,
    /// the kind, the declaring type and the optionality. So equal fields
    /// hash alike.
    fn hash<H: Hasher>(&self, state: &mut H) {
        self.name.hash(state);
        kind_number(&self.tp).hash(state);
        self.parent_name.hash(state);
        self.optional.hash(state);
    }
}

impl Field {
    /// The descriptor of the field `name` of the entity type `parent_name`,
    /// declared with the type `declared_type`, inside `Option` if `optional`.
    ///
    /// The kind follows from the type name. An optional field of a custom
    /// type has no kind, and so no descriptor.
    pub fn new(name: &str, declared_type: &str, parent_name: &str, optional: bool) -> (res: Option<
        Field,
    >)
        ensures
            match res {
                Some(field) => {
                    &&& field@.name == name@
                    &&& field@.declared_type == declared_type@
                    &&& field@.parent_name == parent_name@
                    &&& field@.optional == optional
                    &&& field@.tp.base() == kind_of_type_name(declared_type@)
                    &&& !field@.unique
                    &&& !field@.secure
                    &&& field@.wf()
                },
                None => optional && kind_of_type_name(declared_type@) == Type::Custom,
            },
    {
        let kind = Type::from_type_name(declared_type);
        let tp = if optional {
            if kind.is_custom() {
                return None;
            }
            kind.to_optional()
        } else {
            kind
        };
        Some(
            Field {
                name: name.to_owned(),
                tp,
                declared_type: declared_type.to_owned(),
                parent_name: parent_name.to_owned(),
                optional,
                unique: false,
                secure: false,
            },
        )
    }

    /// The same descriptor, declared unique.
    pub fn unique(self) -> (res: Field)
        ensures
            res@ == (FieldView { unique: true, ..self@ }),
    {
        Field { unique: true, ..self }
    }

    /// The same descriptor, declared secure.
    pub fn secure(self) -> (res: Field)
        ensures
            res@ == (FieldView { secure: true, ..self@ }),
    {
        Field { secure: true, ..self }
    }

    pub fn is_id(&self) -> (res: bool)
        ensures
            res == self@.is_id(),
    {
        proof {
            reveal_strlit("id");
        }
        assert("id"@ =~= id_name());
        same_text(self.name.as_str(), "id")
    }

    pub fn is_foreign_id(&self) -> (res: bool)
        ensures
            res == self@.is_foreign_id(),
    {
        proof {
            reveal_strlit("_id");
        }
        assert("_id"@ =~= foreign_marker());
        has_run(self.name.as_str(), "_id")
    }

    pub fn is_simple(&self) -> (res: bool)
        ensures
            res == self@.is_simple(),
    {
        !self.is_id() && !self.is_custom() && !self.is_foreign_id()
    }

    pub fn is_secure(&self) -> (res: bool)
        ensures
            res == self@.is_secure(),
    {
        proof {
            reveal_strlit("password");
        }
        assert("password"@ =~= password_name());
        self.secure || same_text(self.name.as_str(), "password")
    }

    pub fn is_unique(&self) -> (res: bool)
        ensures
            res == self@.unique,
    {
        self.unique
    }

    pub fn is_custom(&self) -> (res: bool)
        ensures
            res == self@.is_custom(),
    {
        self.tp.is_custom()
    }

    pub fn is_optional(&self) -> (res: bool)
        ensures
            res == self@.tp.is_optional(),
    {
        self.tp.is_optional()
    }

    pub fn is_float(&self) -> (res: bool)
        ensures
            res == self@.tp.is_float(),
    {
        self.tp.is_float()
    }

    pub fn is_integer(&self) -> (res: bool)
        ensures
            res == self@.tp.is_integer(),
    {
        self.tp.is_integer()
    }

    pub fn is_number(&self) -> (res: bool)
        ensures
            res == self@.tp.is_number(),
    {
        self.tp.is_number()
    }

    pub fn is_text(&self) -> (res: bool)
        ensures
            res == self@.tp.is_text(),
    {
        self.tp.is_text()
    }

    pub fn is_date(&self) -> (res: bool)
        ensures
            res == self@.tp.is_date(),
    {
        self.tp.is_date()
    }

    pub fn is_decimal(&self) -> (res: bool)
        ensures
            res == self@.tp.is_decimal(),
    {
        self.tp.is_decimal()
    }

    pub fn is_bool(&self) -> (res: bool)
        ensures
            res == self@.tp.is_bool(),
    {
        self.tp.is_bool()
    }
}

/// A field is simple exactly when it is neither the identifier, nor a
/// reference, nor custom; so every field falls in at least one of the four
/// classes, and a simple field in no other. The identifier is never a
/// reference.
pub proof fn lemma_classification(field: FieldView)
    ensures
        field.is_simple() <==> !(field.is_id() || field.is_foreign_id() || field.is_custom()),
        field.is_id() || field.is_foreign_id() || field.is_custom() || field.is_simple(),
        !(field.is_id() && field.is_foreign_id()),
{
    if field.is_id() {
        assert forall|i: int| !occurs_at(field.name, foreign_marker(), i) by {}
    }
}

/// Of a field whose custom kind does not meet an identifier's or a
/// reference's name, exactly one of the four classes holds.
pub proof fn lemma_exactly_one_class(field: FieldView)
    requires
        !(field.is_custom() && (field.is_id() || field.is_foreign_id())),
    ensures
        (if field.is_id() {
            1int
        } else {
            0int
        }) + (if field.is_foreign_id() {
            1int
        } else {
            0int
        }) + (if field.is_custom() {
            1int
        } else {
            0int
        }) + (if field.is_simple() {
            1int
        } else {
            0int
        }) == 1,
{
    lemma_classification(field);
}

} // verus!
