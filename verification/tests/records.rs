use std::collections::hash_map::DefaultHasher;
use std::hash::{Hash, Hasher};

use reflected::{
    random_val, AccessError, ConversionError, Field, FixedPoint, FloatText, HasVariantsField,
    Record, Reflected, Timestamp, Type, Value,
};

fn field(name: &str, declared: &str) -> Field {
    Field::new(name, declared, "Person", false).unwrap()
}

fn optional_field(name: &str, declared: &str) -> Field {
    Field::new(name, declared, "Person", true).unwrap()
}

fn person_fields() -> Vec<Field> {
    vec![
        field("name", "String").unique(),
        field("age", "usize"),
        field("password", "String").secure(),
    ]
}

fn account_fields() -> Vec<Field> {
    vec![
        field("id", "usize"),
        field("owner_id", "usize"),
        field("settings", "Settings"),
        field("label", "String"),
        field("count", "i64"),
        field("ratio", "f64"),
        field("opened", "DateTime"),
        field("balance", "Decimal"),
        field("active", "bool"),
        optional_field("note", "String"),
        optional_field("limit", "Decimal"),
        optional_field("closed", "DateTime"),
    ]
}

fn of<'a>(record: &'a Record, name: &str) -> &'a Field {
    record.field_by_name(name).unwrap()
}

fn hash_of(field: &Field) -> u64 {
    let mut hasher = DefaultHasher::new();
    field.hash(&mut hasher);
    hasher.finish()
}

#[test]
fn name_age_password_scenario() {
    let mut person = Record::new("Person", person_fields()).unwrap();

    assert!(of(&person, "name").unique);
    assert!(of(&person, "name").is_unique());
    assert!(!of(&person, "age").is_unique());
    assert!(of(&person, "password").secure);
    assert!(of(&person, "password").is_secure());
    assert_eq!(person.fields().len(), 3);
    assert_eq!(person.entity_name(), "Person");

    let name = of(&person, "name").clone();
    let age = of(&person, "age").clone();
    assert_eq!(person.set_value(&name, Some("parker")), Ok(()));
    assert_eq!(person.set_value(&age, Some("19")), Ok(()));

    assert_eq!(person.get_value(&name), Ok("parker".to_string()));
    assert_eq!(person.get_value(&age), Ok("19".to_string()));
    assert_eq!(person.value_by_name("name"), Ok("parker".to_string()));
    assert_eq!(person.value_by_name("age"), Ok("19".to_string()));
}

#[test]
fn optional_decimal_scenario() {
    let mut account = Record::new("Account", vec![optional_field("limit", "Decimal")]).unwrap();
    let limit = of(&account, "limit").clone();
    assert_eq!(limit.tp, Type::Decimal.to_optional());

    assert_eq!(account.get_value(&limit), Ok("NULL".to_string()));
    assert_eq!(account.set_value(&limit, Some("100.25")), Ok(()));
    assert_eq!(account.get_value(&limit), Ok("100.25".to_string()));
    assert_eq!(
        account.slot(&limit),
        Ok(&Value::Decimal(FixedPoint::new(10025, 2).unwrap()))
    );
    assert_eq!(account.set_value(&limit, None), Ok(()));
    assert_eq!(account.get_value(&limit), Ok("NULL".to_string()));
    assert_eq!(account.slot(&limit), Ok(&Value::Absent));
}

#[test]
fn a_fresh_record_holds_initial_values() {
    let account = Record::new("Account", account_fields()).unwrap();
    let expected = [
        ("id", "0"),
        ("owner_id", "0"),
        ("label", ""),
        ("count", "0"),
        ("ratio", "0.0"),
        ("opened", "1970-01-01 00:00:00"),
        ("balance", "0"),
        ("active", "0"),
        ("note", "NULL"),
        ("limit", "NULL"),
        ("closed", "NULL"),
    ];
    for (name, text) in expected {
        assert_eq!(account.value_by_name(name), Ok(text.to_string()), "{name}");
    }
    assert_eq!(account.slot(of(&account, "settings")), Ok(&Value::Custom));
}

#[test]
fn descriptors_follow_from_declarations() {
    let plain = Field::new("age", "usize", "Person", false).unwrap();
    assert_eq!(plain.name, "age");
    assert_eq!(plain.declared_type, "usize");
    assert_eq!(plain.parent_name, "Person");
    assert_eq!(plain.tp, Type::Integer);
    assert!(!plain.optional);
    assert!(!plain.unique);
    assert!(!plain.secure);

    let optional = Field::new("note", "String", "Person", true).unwrap();
    assert_eq!(optional.tp, Type::Text.to_optional());
    assert!(optional.optional);
    assert!(optional.is_optional());
    assert!(optional.is_text());

    let custom = Field::new("settings", "Settings", "Person", false).unwrap();
    assert_eq!(custom.tp, Type::Custom);
    assert!(custom.is_custom());

    assert!(Field::new("settings", "Settings", "Person", true).is_none());
}

#[test]
fn kinds_are_told_through_the_descriptor() {
    let account = Record::new("Account", account_fields()).unwrap();
    assert!(of(&account, "count").is_integer());
    assert!(of(&account, "count").is_number());
    assert!(of(&account, "ratio").is_float());
    assert!(of(&account, "ratio").is_number());
    assert!(of(&account, "opened").is_date());
    assert!(of(&account, "closed").is_date());
    assert!(of(&account, "closed").is_optional());
    assert!(of(&account, "balance").is_decimal());
    assert!(of(&account, "limit").is_decimal());
    assert!(of(&account, "active").is_bool());
    assert!(of(&account, "label").is_text());
    assert!(!of(&account, "label").is_number());
    assert!(!of(&account, "label").is_optional());
    assert!(of(&account, "settings").is_custom());
    assert!(!of(&account, "note").is_custom());
}

#[test]
fn every_field_falls_in_a_class() {
    let account = Record::new("Account", account_fields()).unwrap();
    for field in account.fields().iter() {
        let classes = [field.is_id(), field.is_foreign_id(), field.is_custom(), field.is_simple()];
        assert_eq!(classes.iter().filter(|held| **held).count(), 1, "{}", field.name);
        assert_eq!(
            field.is_simple(),
            !(field.is_id() || field.is_foreign_id() || field.is_custom())
        );
    }
    assert!(of(&account, "id").is_id());
    assert!(!of(&account, "id").is_foreign_id());
    assert!(of(&account, "owner_id").is_foreign_id());
    assert!(!of(&account, "owner_id").is_id());
    assert!(of(&account, "settings").is_custom());
    assert!(of(&account, "label").is_simple());
}

#[test]
fn a_custom_reference_is_in_two_classes() {
    let field = Field::new("owner_id", "Owner", "Account", false).unwrap();
    assert!(field.is_foreign_id());
    assert!(field.is_custom());
    assert!(!field.is_simple());
    assert!(!field.is_id());
}

#[test]
fn references_are_told_by_the_marker_anywhere_in_the_name() {
    for name in ["owner_id", "_id", "_identity", "a_id_b", "x__id"] {
        assert!(field(name, "usize").is_foreign_id(), "{name}");
    }
    for name in ["id", "", "_i", "i_d", "ID", "owner_Id", "idx", "_di"] {
        assert!(!field(name, "usize").is_foreign_id(), "{name}");
    }
    assert!(field("id", "usize").is_id());
    assert!(!field("Id", "usize").is_id());
    assert!(!field("id ", "usize").is_id());
    assert!(!field("uid", "usize").is_id());
}

#[test]
fn a_field_answers_for_its_kind() {
    let age = field("age", "usize");
    assert_eq!(*age, Type::Integer);
    assert!(age.is_type(Type::Integer));
    assert!(!age.is_type(Type::Text));
    let note = optional_field("note", "String");
    assert!(note.is_type(Type::Text));
    assert!(note.is_type(Type::Text.to_optional()));
    assert_eq!(*note, Type::Text.to_optional());
}

#[test]
fn a_record_names_no_variants() {
    let person = Record::new("Person", person_fields()).unwrap();
    for field in person.fields().iter() {
        assert_eq!(<Record as HasVariantsField>::variants_for(field), None);
    }
}

#[test]
fn secure_by_name_or_by_declaration() {
    assert!(field("password", "String").is_secure());
    assert!(!field("password", "String").secure);
    assert!(field("token", "String").secure().is_secure());
    assert!(!field("token", "String").is_secure());
    assert!(!field("passwords", "String").is_secure());
    assert!(field("email", "String").unique().is_unique());
    assert!(!field("email", "String").unique().is_secure());
}

#[test]
fn simple_fields_are_a_part_of_the_fields() {
    let account = Record::new("Account", account_fields()).unwrap();
    let simple = account.simple_fields();
    let names: Vec<&str> = simple.iter().map(|field| field.name.as_str()).collect();
    assert_eq!(
        names,
        ["label", "count", "ratio", "opened", "balance", "active", "note", "limit", "closed"]
    );
    assert!(simple.len() <= account.fields().len());
    for field in simple {
        assert!(account.fields().contains(field));
    }
}

#[test]
fn fields_are_equal_by_name_kind_parent_and_optionality() {
    let plain = field("email", "String");
    assert_eq!(plain, field("email", "String"));
    assert_eq!(plain, field("email", "String").unique().secure());
    assert_eq!(hash_of(&plain), hash_of(&field("email", "String").unique().secure()));
    assert_ne!(plain, field("mail", "String"));
    assert_ne!(plain, field("email", "usize"));
    assert_ne!(plain, optional_field("email", "String"));
    assert_ne!(plain, Field::new("email", "String", "Company", false).unwrap());
    assert!(plain.same(&plain.duplicate()));
    assert!(!plain.same(&field("mail", "String")));
}

#[test]
fn a_table_with_a_repeated_name_is_refused() {
    let fields = vec![field("name", "String"), field("age", "usize"), field("name", "usize")];
    assert_eq!(Record::new("Person", fields).err(), Some(AccessError::DuplicateField));
    assert!(Record::new("Person", Vec::new()).is_ok());
}

#[test]
fn a_table_with_a_contradictory_flag_is_refused() {
    let mut flagged = field("name", "String");
    flagged.optional = true;
    assert_eq!(
        Record::new("Person", vec![field("age", "usize"), flagged]).err(),
        Some(AccessError::InconsistentField)
    );

    let mut unflagged = optional_field("note", "String");
    unflagged.optional = false;
    assert_eq!(
        Record::new("Person", vec![unflagged.clone(), unflagged]).err(),
        Some(AccessError::InconsistentField)
    );
}

#[test]
fn a_field_of_another_table_is_unknown() {
    let mut person = Record::new("Person", person_fields()).unwrap();
    let before = person.clone();

    let stranger = field("height", "f64");
    assert_eq!(person.get_value(&stranger), Err(AccessError::UnknownField));
    assert_eq!(person.set_value(&stranger, Some("1.80")), Err(AccessError::UnknownField));
    assert_eq!(person.slot(&stranger), Err(AccessError::UnknownField));
    assert_eq!(person.store(&stranger, Value::Integer(1)), Err(AccessError::UnknownField));
    assert_eq!(person.locate(&stranger), None);

    let same_name = field("age", "String");
    assert_eq!(person.get_value(&same_name), Err(AccessError::UnknownField));
    assert_eq!(person.set_value(&same_name, Some("19")), Err(AccessError::UnknownField));

    let other_parent = Field::new("age", "usize", "Animal", false).unwrap();
    assert_eq!(person.get_value(&other_parent), Err(AccessError::UnknownField));

    assert_eq!(person.value_by_name("height"), Err(AccessError::UnknownField));
    assert!(person.field_by_name("height").is_none());
    assert_eq!(person.locate(of(&person, "age")), Some(1));
    assert_eq!(format!("{person:?}"), format!("{before:?}"));
}

#[test]
fn a_custom_field_has_no_text() {
    let mut account = Record::new("Account", account_fields()).unwrap();
    let settings = of(&account, "settings").clone();
    assert_eq!(account.get_value(&settings), Err(AccessError::CustomField));
    assert_eq!(account.value_by_name("settings"), Err(AccessError::CustomField));
    assert_eq!(account.set_value(&settings, Some("x")), Err(AccessError::CustomField));
    assert_eq!(account.set_value(&settings, None), Err(AccessError::CustomField));
    assert_eq!(account.store(&settings, Value::Custom), Ok(()));
}

#[test]
fn a_plain_field_needs_a_value() {
    let mut person = Record::new("Person", person_fields()).unwrap();
    let age = of(&person, "age").clone();
    assert_eq!(person.set_value(&age, Some("19")), Ok(()));
    assert_eq!(person.set_value(&age, None), Err(AccessError::MissingValue));
    assert_eq!(person.get_value(&age), Ok("19".to_string()));
}

#[test]
fn malformed_text_leaves_the_record_as_it_was() {
    let mut account = Record::new("Account", account_fields()).unwrap();
    let malformed = AccessError::Conversion(ConversionError::Malformed);
    for (name, good, bad) in [
        ("count", "42", "abc"),
        ("ratio", "1.5", "1e5"),
        ("opened", "2015-09-05 23:56:04", "yesterday"),
        ("balance", "100.25", "a lot"),
        ("active", "1", "true"),
        ("limit", "7.5", "none"),
        ("closed", "2015-09-05 23:56:04.250", "never"),
    ] {
        let target = of(&account, name).clone();
        assert_eq!(account.set_value(&target, Some(good)), Ok(()));
        let written = account.get_value(&target).unwrap();
        assert_eq!(account.set_value(&target, Some(bad)), Err(malformed), "{name}");
        assert_eq!(account.get_value(&target), Ok(written));
    }
    assert_eq!(account.value_by_name("label"), Ok(String::new()));
}

#[test]
fn writing_one_field_leaves_the_others() {
    let mut account = Record::new("Account", account_fields()).unwrap();
    let count = of(&account, "count").clone();
    assert_eq!(account.set_value(&count, Some("-7")), Ok(()));
    let fresh = Record::new("Account", account_fields()).unwrap();
    for field in fresh.fields().iter() {
        if field.name != "count" {
            assert_eq!(account.slot(field), fresh.slot(field), "{}", field.name);
        }
    }
    assert_eq!(account.slot(&count), Ok(&Value::Integer(-7)));
}

#[test]
fn the_null_text_clears_an_optional_field() {
    let mut account = Record::new("Account", account_fields()).unwrap();
    let note = of(&account, "note").clone();
    assert_eq!(account.set_value(&note, Some("remember")), Ok(()));
    assert_eq!(account.slot(&note), Ok(&Value::Text("remember".to_string())));
    assert_eq!(account.set_value(&note, Some("NULL")), Ok(()));
    assert_eq!(account.slot(&note), Ok(&Value::Absent));
}

#[test]
fn a_slot_takes_only_values_of_its_kind() {
    let mut account = Record::new("Account", account_fields()).unwrap();
    let mismatch = AccessError::Conversion(ConversionError::Mismatch);
    let count = of(&account, "count").clone();
    let note = of(&account, "note").clone();
    let ratio = of(&account, "ratio").clone();

    assert_eq!(account.store(&count, Value::Integer(5)), Ok(()));
    assert_eq!(account.store(&count, Value::Text("5".into())), Err(mismatch));
    assert_eq!(account.store(&count, Value::Absent), Err(mismatch));
    assert_eq!(account.store(&count, Value::Custom), Err(mismatch));
    assert_eq!(account.slot(&count), Ok(&Value::Integer(5)));

    assert_eq!(account.store(&note, Value::Text("x".into())), Ok(()));
    assert_eq!(account.store(&note, Value::Absent), Ok(()));
    assert_eq!(account.store(&note, Value::Bool(true)), Err(mismatch));

    assert_eq!(account.store(&ratio, Value::Float(FloatText::parse("2.5").unwrap())), Ok(()));
    assert_eq!(
        account.store(&ratio, Value::Date(Timestamp::epoch())),
        Err(mismatch)
    );
    assert_eq!(account.get_value(&ratio), Ok("2.5".to_string()));
}

#[test]
fn random_text_fits_its_kind() {
    for _ in 0..50 {
        let text = random_val(&Type::Text).unwrap();
        assert_eq!(text.chars().count(), 8);
        assert!(text.chars().all(|c| c.is_ascii_alphanumeric()));

        for kind in [Type::Integer, Type::Float] {
            let number: u64 = random_val(&kind).unwrap().parse().unwrap();
            assert!(number < 1_000_000_000);
        }

        let flag = random_val(&Type::Bool).unwrap();
        assert!(flag == "0" || flag == "1");

        let moment = random_val(&Type::Date).unwrap();
        assert!(reflected::deserialize(&moment, &Type::Date).is_ok());

        let number = random_val(&Type::Decimal).unwrap();
        match reflected::deserialize(&number, &Type::Decimal) {
            Ok(Value::Decimal(read)) => {
                assert!((1..6).contains(&read.scale()));
                assert!((0..4_294_967_295).contains(&read.mantissa()));
            }
            other => panic!("{other:?}"),
        }
    }
}

#[test]
fn random_text_for_an_optional_kind_is_sometimes_absent() {
    let optional = Type::Integer.to_optional();
    let mut present = 0;
    let mut absent = 0;
    for _ in 0..400 {
        match random_val(&optional) {
            Some(text) => {
                let number: u64 = text.parse().unwrap();
                assert!(number < 1_000_000_000);
                present += 1;
            }
            None => absent += 1,
        }
    }
    assert!(present > 0);
    assert!(absent > 0);
}

#[test]
fn a_random_record_keeps_what_is_not_simple() {
    for _ in 0..20 {
        let account = Record::random("Account", account_fields()).unwrap();
        assert_eq!(account.entity_name(), "Account");
        assert_eq!(account.fields().len(), 12);
        assert_eq!(account.value_by_name("id"), Ok("0".to_string()));
        assert_eq!(account.value_by_name("owner_id"), Ok("0".to_string()));
        assert_eq!(account.slot(of(&account, "settings")), Ok(&Value::Custom));

        for field in account.simple_fields() {
            let text = account.get_value(field).unwrap();
            let read = reflected::deserialize(&text, &field.tp).unwrap();
            assert_eq!(account.slot(field), Ok(&read), "{}", field.name);
        }
        assert_eq!(account.value_by_name("label").unwrap().len(), 8);
        assert!(account.value_by_name("ratio").unwrap().ends_with(".0"));
    }
}

#[test]
fn random_records_differ() {
    let first = Record::random("Person", person_fields()).unwrap();
    let second = Record::random("Person", person_fields()).unwrap();
    let third = Record::random("Person", person_fields()).unwrap();
    let names = [
        first.value_by_name("name").unwrap(),
        second.value_by_name("name").unwrap(),
        third.value_by_name("name").unwrap(),
    ];
    assert!(names[0] != names[1] || names[1] != names[2]);
}

#[test]
fn randomizing_in_place_keeps_the_table() {
    let mut account = Record::new("Account", account_fields()).unwrap();
    let id = of(&account, "id").clone();
    assert_eq!(account.store(&id, Value::Integer(77)), Ok(()));
    assert_eq!(account.randomize(), Ok(()));
    assert_eq!(account.get_value(&id), Ok("77".to_string()));
    assert_eq!(account.fields(), Record::new("Account", account_fields()).unwrap().fields());
}

#[test]
fn a_copy_is_equal_in_every_slot() {
    let account = Record::random("Account", account_fields()).unwrap();
    let copy = account.clone();
    assert_eq!(copy.entity_name(), account.entity_name());
    assert_eq!(copy.fields(), account.fields());
    for field in account.fields().iter() {
        assert_eq!(copy.slot(field), account.slot(field));
    }
}
