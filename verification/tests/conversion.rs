use reflected::{
    deserialize, serialize, ConversionError, FixedPoint, FloatText, OptionalType, Timestamp,
    ToReflectedString, ToReflectedVal, TryIntoVal, Type, Value,
};

fn plain_kinds() -> Vec<Type> {
    vec![Type::Float, Type::Integer, Type::Text, Type::Date, Type::Decimal, Type::Bool]
}

fn float(text: &str) -> Value {
    Value::Float(FloatText::parse(text).unwrap())
}

fn decimal(mantissa: i128, scale: u32) -> Value {
    Value::Decimal(FixedPoint::new(mantissa, scale).unwrap())
}

fn date(secs: i64, nanos: u32) -> Value {
    Value::Date(Timestamp::new(secs, nanos).unwrap())
}

#[test]
fn optional_wraps_every_plain_kind() {
    for kind in plain_kinds() {
        let wrapped = kind.to_optional();
        assert!(wrapped.is_optional());
        assert!(!kind.is_optional());
        assert!(wrapped.is_type(kind));
        assert!(!kind.is_type(wrapped));
        assert!(wrapped.is_type(wrapped));
    }
    assert!(Type::Integer.to_optional().is_integer());
    assert!(Type::Integer.to_optional().is_number());
    assert!(Type::Float.to_optional().is_number());
    assert!(!Type::Text.to_optional().is_number());
    assert!(Type::Custom.is_custom());
    assert!(!Type::Integer.to_optional().is_custom());
    assert_eq!(Type::Date.to_optional(), Type::Optional(OptionalType::Date));
    assert_eq!(OptionalType::Decimal.to_type(), Type::Decimal);
    assert_eq!(OptionalType::from_type(&Type::Bool), OptionalType::Bool);
}

#[test]
fn kinds_follow_from_type_names() {
    for name in ["f32", "f64"] {
        assert_eq!(Type::from_type_name(name), Type::Float);
    }
    for name in ["i32", "u32", "i64", "u64", "isize", "usize"] {
        assert_eq!(Type::from_type_name(name), Type::Integer);
    }
    assert_eq!(Type::from_type_name("String"), Type::Text);
    assert_eq!(Type::from_type_name("DateTime"), Type::Date);
    assert_eq!(Type::from_type_name("NaiveDateTime"), Type::Date);
    assert_eq!(Type::from_type_name("Decimal"), Type::Decimal);
    assert_eq!(Type::from_type_name("bool"), Type::Bool);
    assert_eq!(Type::from_type_name("CustomField"), Type::Custom);
    assert_eq!(Type::from_type_name("string"), Type::Custom);
    assert_eq!(Type::from_type_name(""), Type::Custom);
}

#[test]
fn integers_are_written_in_plain_decimal() {
    let cases: [(i128, &str); 11] = [
        (0, "0"),
        (7, "7"),
        (-1, "-1"),
        (1_000_000, "1000000"),
        (-9_876_543_210, "-9876543210"),
        (i64::MAX as i128, "9223372036854775807"),
        (i64::MIN as i128, "-9223372036854775808"),
        (i64::MAX as i128 + 1, "9223372036854775808"),
        (u64::MAX as i128, "18446744073709551615"),
        (i128::MAX, "170141183460469231731687303715884105727"),
        (i128::MIN, "-170141183460469231731687303715884105728"),
    ];
    for (number, text) in cases {
        assert_eq!(serialize(&Value::Integer(number), &Type::Integer), Ok(text.to_string()));
        assert_eq!(deserialize(text, &Type::Integer), Ok(Value::Integer(number)));
    }
}

#[test]
fn integers_are_read_with_sign_and_leading_zeros() {
    assert_eq!(deserialize("+5", &Type::Integer), Ok(Value::Integer(5)));
    assert_eq!(deserialize("-0", &Type::Integer), Ok(Value::Integer(0)));
    assert_eq!(deserialize("007", &Type::Integer), Ok(Value::Integer(7)));
    assert_eq!(
        deserialize("0000000000000000000000000000000000000012", &Type::Integer),
        Ok(Value::Integer(12))
    );
}

#[test]
fn malformed_integers_are_refused() {
    for text in [
        "",
        "-",
        "+",
        "abc",
        "12a",
        " 12",
        "12 ",
        "1_000",
        "1.0",
        "--1",
        "+-1",
        "170141183460469231731687303715884105728",
        "-170141183460469231731687303715884105729",
        "99999999999999999999999999999999999999999999",
        "NULL",
    ] {
        assert_eq!(deserialize(text, &Type::Integer), Err(ConversionError::Malformed), "{text:?}");
    }
}

#[test]
fn booleans_are_one_and_zero() {
    assert_eq!(serialize(&Value::Bool(true), &Type::Bool), Ok("1".to_string()));
    assert_eq!(serialize(&Value::Bool(false), &Type::Bool), Ok("0".to_string()));
    assert_eq!(deserialize("1", &Type::Bool), Ok(Value::Bool(true)));
    assert_eq!(deserialize("0", &Type::Bool), Ok(Value::Bool(false)));
    for text in ["true", "false", "", "2", "01", "NULL"] {
        assert_eq!(deserialize(text, &Type::Bool), Err(ConversionError::Malformed));
    }
}

#[test]
fn text_is_left_unchanged() {
    for text in ["", "peter", "it's \"quoted\"", "NULL", " spaced ", "ünïcödé"] {
        let value = Value::Text(text.to_string());
        assert_eq!(serialize(&value, &Type::Text), Ok(text.to_string()));
        assert_eq!(deserialize(text, &Type::Text), Ok(value));
    }
}

#[test]
fn floats_always_have_a_fractional_part() {
    let cases = [
        ("5", "5.0"),
        ("5.0", "5.0"),
        ("0.42332", "0.42332"),
        (".5", "0.5"),
        ("5.", "5.0"),
        ("+1.5", "1.5"),
        ("-3", "-3.0"),
        ("-0", "-0.0"),
        ("-.25", "-0.25"),
        ("007.50", "7.5"),
        ("000", "0.0"),
        ("0.000", "0.0"),
        ("1.000", "1.0"),
        ("0.10", "0.1"),
        ("100", "100.0"),
        ("0.001", "0.001"),
        ("-00.500", "-0.5"),
        ("00.0500", "0.05"),
        ("123456789012345678901234567890", "123456789012345678901234567890.0"),
    ];
    for (given, canonical) in cases {
        let value = deserialize(given, &Type::Float).unwrap();
        assert_eq!(serialize(&value, &Type::Float), Ok(canonical.to_string()), "{given:?}");
        assert_eq!(deserialize(canonical, &Type::Float), Ok(value));
    }
}

#[test]
fn malformed_floats_are_refused() {
    for text in
        ["", ".", "-", "+", "-.", "abc", "1e5", "inf", "NaN", "1.2.3", "1,5", " 1.5", "1.5 "]
    {
        assert_eq!(deserialize(text, &Type::Float), Err(ConversionError::Malformed), "{text:?}");
        assert!(FloatText::parse(text).is_none());
    }
}

#[test]
fn float_text_of_zero() {
    assert_eq!(FloatText::zero().as_str(), "0.0");
    assert_eq!(Value::default_for(&Type::Float), float("0"));
}

#[test]
fn dates_are_written_in_the_fixed_format() {
    assert_eq!(serialize(&date(0, 0), &Type::Date), Ok("1970-01-01 00:00:00".to_string()));
    assert_eq!(
        serialize(&date(1_441_497_364, 0), &Type::Date),
        Ok("2015-09-05 23:56:04".to_string())
    );
    assert_eq!(
        serialize(&date(1_441_497_364, 500_000_000), &Type::Date),
        Ok("2015-09-05 23:56:04.500".to_string())
    );
    assert_eq!(
        serialize(&date(1_441_497_364, 123_456_789), &Type::Date),
        Ok("2015-09-05 23:56:04.123456789".to_string())
    );
    assert_eq!(
        serialize(&date(-62_167_219_200, 0), &Type::Date),
        Ok("0000-01-01 00:00:00".to_string())
    );
    assert_eq!(
        serialize(&date(253_402_300_799, 999_999_999), &Type::Date),
        Ok("9999-12-31 23:59:59.999999999".to_string())
    );
    assert_eq!(
        serialize(&date(253_402_300_800, 0), &Type::Date),
        Ok("+10000-01-01 00:00:00".to_string())
    );
    assert_eq!(
        serialize(&date(-62_167_219_201, 0), &Type::Date),
        Ok("-0001-12-31 23:59:59".to_string())
    );
    assert_eq!(
        serialize(&date(-8_334_601_228_800, 0), &Type::Date),
        Ok("-262143-01-01 00:00:00".to_string())
    );
    assert_eq!(
        serialize(&date(8_210_266_876_799, 1_999_999_999), &Type::Date),
        Ok("+262142-12-31 23:59:60.999999999".to_string())
    );
}

#[test]
fn dates_are_read_in_the_fixed_format() {
    assert_eq!(deserialize("2015-09-05 23:56:04", &Type::Date), Ok(date(1_441_497_364, 0)));
    assert_eq!(
        deserialize("2015-09-05 23:56:04.5", &Type::Date),
        Ok(date(1_441_497_364, 500_000_000))
    );
    assert_eq!(
        deserialize("2015-09-05 23:56:04.123456789", &Type::Date),
        Ok(date(1_441_497_364, 123_456_789))
    );
    assert_eq!(
        deserialize("2015-06-30 23:59:60", &Type::Date),
        Ok(date(1_435_708_799, 1_000_000_000))
    );
    assert_eq!(
        deserialize("+10000-01-01 00:00:00", &Type::Date),
        Ok(date(253_402_300_800, 0))
    );
    assert_eq!(
        deserialize("-262143-01-01 00:00:00", &Type::Date),
        Ok(date(-8_334_601_228_800, 0))
    );
    assert_eq!(
        deserialize("+262142-12-31 23:59:59.999999999", &Type::Date),
        Ok(date(8_210_266_876_799, 999_999_999))
    );
}

#[test]
fn malformed_dates_are_refused() {
    for text in [
        "",
        "2015-09-05",
        "23:56:04",
        "2015-09-05T23:56:04",
        "2015-13-05 23:56:04",
        "2015-02-30 23:56:04",
        "2015-09-05 24:00:00",
        "05/09/2015 23:56:04",
        "2015-09-05 23:56:04 UTC",
        "10000-01-01 00:00:00",
        "+262143-01-01 00:00:00",
        "-262144-12-31 23:59:59",
        "1441497364",
    ] {
        assert_eq!(deserialize(text, &Type::Date), Err(ConversionError::Malformed), "{text:?}");
    }
}

#[test]
fn timestamps_are_held_to_their_range() {
    assert!(Timestamp::new(0, 0).is_some());
    assert!(Timestamp::new(-62_167_219_201, 0).is_some());
    assert!(Timestamp::new(253_402_300_800, 0).is_some());
    assert!(Timestamp::new(-8_334_601_228_800, 0).is_some());
    assert!(Timestamp::new(-8_334_601_228_801, 0).is_none());
    assert!(Timestamp::new(8_210_266_876_799, 999_999_999).is_some());
    assert!(Timestamp::new(8_210_266_876_799, 1_999_999_999).is_some());
    assert!(Timestamp::new(8_210_266_876_800, 0).is_none());
    assert!(Timestamp::new(i64::MIN, 0).is_none());
    assert!(Timestamp::new(i64::MAX, 0).is_none());
    assert!(Timestamp::new(0, 1_000_000_000).is_none());
    assert!(Timestamp::new(59, 1_000_000_000).is_some());
    assert!(Timestamp::new(59, 1_999_999_999).is_some());
    assert!(Timestamp::new(59, 2_000_000_000).is_none());
    assert!(Timestamp::new(-1, 1_500_000_000).is_some());
    assert!(Timestamp::new(-2, 1_500_000_000).is_none());
    let moment = Timestamp::new(1_441_497_364, 7).unwrap();
    assert_eq!((moment.secs(), moment.nanos()), (1_441_497_364, 7));
    assert_eq!((Timestamp::epoch().secs(), Timestamp::epoch().nanos()), (0, 0));
}

#[test]
fn decimals_are_written_in_plain_notation() {
    let cases: [(i128, u32, &str); 8] = [
        (10025, 2, "100.25"),
        (0, 0, "0"),
        (0, 2, "0.00"),
        (5, 3, "0.005"),
        (-5, 3, "-0.005"),
        (1000, 1, "100.0"),
        (42, 0, "42"),
        (79_228_162_514_264_337_593_543_950_335, 28, "7.9228162514264337593543950335"),
    ];
    for (mantissa, scale, text) in cases {
        assert_eq!(serialize(&decimal(mantissa, scale), &Type::Decimal), Ok(text.to_string()));
        assert_eq!(deserialize(text, &Type::Decimal), Ok(decimal(mantissa, scale)));
    }
}

fn decimal_as_written(mantissa: i128, scale: u32) -> String {
    let digits = mantissa.unsigned_abs().to_string();
    let scale = scale as usize;
    let padded = format!("{}{}", "0".repeat(scale.saturating_sub(digits.len())), digits);
    let (whole, fraction) = padded.split_at(padded.len() - scale);
    let sign = if mantissa < 0 { "-" } else { "" };
    let whole = if whole.is_empty() { "0" } else { whole };
    if scale == 0 {
        format!("{sign}{whole}")
    } else {
        format!("{sign}{whole}.{fraction}")
    }
}

#[test]
fn decimals_are_written_digit_by_digit() {
    let greatest: i128 = 79_228_162_514_264_337_593_543_950_335;
    let mut mantissas: Vec<i128> = vec![0, 1, -1, 9, 10, -10, 99, 100, 12345, greatest, -greatest];
    let mut next: i128 = 1;
    for _ in 0..200 {
        next = next
            .wrapping_mul(6_364_136_223_846_793_005)
            .wrapping_add(1_442_695_040_888_963_407)
            .rem_euclid(greatest + 1);
        mantissas.push(next);
        mantissas.push(-next);
        mantissas.push(next % 1_000_000);
    }
    for mantissa in mantissas {
        for scale in 0..=28u32 {
            let written = serialize(&decimal(mantissa, scale), &Type::Decimal).unwrap();
            assert_eq!(written, decimal_as_written(mantissa, scale));
            assert_eq!(deserialize(&written, &Type::Decimal), Ok(decimal(mantissa, scale)));
        }
    }
    assert_eq!(decimal_as_written(1, 28), "0.0000000000000000000000000001");
    assert_eq!(decimal_as_written(-1234, 3), "-1.234");
    assert_eq!(decimal_as_written(0, 0), "0");
}

#[test]
fn malformed_decimals_are_refused() {
    for text in ["", "abc", "1.2.3", "--1", "NULL", "."] {
        assert_eq!(deserialize(text, &Type::Decimal), Err(ConversionError::Malformed), "{text:?}");
    }
}

#[test]
fn fixed_points_are_held_to_their_range() {
    let greatest: i128 = 79_228_162_514_264_337_593_543_950_335;
    assert!(FixedPoint::new(greatest, 0).is_some());
    assert!(FixedPoint::new(-greatest, 28).is_some());
    assert!(FixedPoint::new(greatest + 1, 0).is_none());
    assert!(FixedPoint::new(-greatest - 1, 0).is_none());
    assert!(FixedPoint::new(1, 28).is_some());
    assert!(FixedPoint::new(1, 29).is_none());
    let number = FixedPoint::new(-10025, 2).unwrap();
    assert_eq!((number.mantissa(), number.scale()), (-10025, 2));
    assert_eq!((FixedPoint::zero().mantissa(), FixedPoint::zero().scale()), (0, 0));
}

#[test]
fn absent_is_null_in_every_optional_kind() {
    for kind in plain_kinds() {
        let optional = kind.to_optional();
        assert_eq!(serialize(&Value::Absent, &optional), Ok("NULL".to_string()));
        assert_eq!(deserialize("NULL", &optional), Ok(Value::Absent));
    }
}

#[test]
fn present_values_use_the_rule_of_the_wrapped_kind() {
    let cases = [
        (Type::Float, float("6.45"), "6.45"),
        (Type::Integer, Value::Integer(222), "222"),
        (Type::Text, Value::Text("stre".to_string()), "stre"),
        (Type::Date, date(1_441_497_364, 0), "2015-09-05 23:56:04"),
        (Type::Decimal, decimal(10025, 2), "100.25"),
        (Type::Bool, Value::Bool(false), "0"),
    ];
    for (kind, value, text) in cases {
        let optional = kind.to_optional();
        assert_eq!(serialize(&value, &optional), Ok(text.to_string()));
        assert_eq!(deserialize(text, &optional), Ok(value));
    }
}

#[test]
fn values_read_back_as_written() {
    let cases = [
        (Type::Float, float("-12.5")),
        (Type::Float, float("0")),
        (Type::Integer, Value::Integer(-12345)),
        (Type::Text, Value::Text("hello world".to_string())),
        (Type::Date, date(1_700_000_000, 1_000)),
        (Type::Decimal, decimal(-123_456_789, 6)),
        (Type::Bool, Value::Bool(true)),
    ];
    for (kind, value) in cases {
        for tp in [kind, kind.to_optional()] {
            let written = serialize(&value, &tp).unwrap();
            assert_eq!(deserialize(&written, &tp), Ok(value.clone()));
        }
    }
}

#[test]
fn the_null_text_wins_in_an_optional_text_slot() {
    let optional = Type::Text.to_optional();
    let value = Value::Text("NULL".to_string());
    assert_eq!(serialize(&value, &optional), Ok("NULL".to_string()));
    assert_eq!(deserialize("NULL", &optional), Ok(Value::Absent));
    assert_eq!(deserialize("NULL", &Type::Text), Ok(value));
    assert_eq!(deserialize("null", &optional), Ok(Value::Text("null".to_string())));
}

#[test]
fn custom_has_no_text() {
    for value in [Value::Custom, Value::Integer(1), Value::Absent, Value::Text(String::new())] {
        assert_eq!(serialize(&value, &Type::Custom), Err(ConversionError::Unsupported));
    }
    assert_eq!(deserialize("anything", &Type::Custom), Err(ConversionError::Unsupported));
    assert_eq!(deserialize("NULL", &Type::Custom), Err(ConversionError::Unsupported));
}

#[test]
fn a_value_of_another_kind_is_a_mismatch() {
    assert_eq!(serialize(&Value::Integer(1), &Type::Text), Err(ConversionError::Mismatch));
    assert_eq!(serialize(&Value::Integer(1), &Type::Float), Err(ConversionError::Mismatch));
    assert_eq!(serialize(&float("1"), &Type::Integer), Err(ConversionError::Mismatch));
    assert_eq!(
        serialize(&Value::Text("1".into()), &Type::Bool.to_optional()),
        Err(ConversionError::Mismatch)
    );
    assert_eq!(serialize(&Value::Bool(true), &Type::Date), Err(ConversionError::Mismatch));
    assert_eq!(serialize(&date(0, 0), &Type::Decimal), Err(ConversionError::Mismatch));
    assert_eq!(serialize(&decimal(1, 0), &Type::Date), Err(ConversionError::Mismatch));
    assert_eq!(serialize(&Value::Custom, &Type::Integer), Err(ConversionError::Mismatch));
    for kind in plain_kinds() {
        assert_eq!(serialize(&Value::Absent, &kind), Err(ConversionError::Mismatch));
    }
}

#[test]
fn initial_values_by_kind() {
    assert_eq!(Value::default_for(&Type::Float), float("0.0"));
    assert_eq!(Value::default_for(&Type::Integer), Value::Integer(0));
    assert_eq!(Value::default_for(&Type::Text), Value::Text(String::new()));
    assert_eq!(Value::default_for(&Type::Date), date(0, 0));
    assert_eq!(Value::default_for(&Type::Decimal), decimal(0, 0));
    assert_eq!(Value::default_for(&Type::Bool), Value::Bool(false));
    assert_eq!(Value::default_for(&Type::Custom), Value::Custom);
    for kind in plain_kinds() {
        assert_eq!(Value::default_for(&kind.to_optional()), Value::Absent);
    }
}

#[test]
fn optional_values_have_text() {
    assert_eq!(Some("stre").to_reflected_string(), "stre");
    assert_eq!(None::<&str>.to_reflected_string(), "NULL");
    assert_eq!(Some("stre".to_string()).to_reflected_string(), "stre");
    assert_eq!(None::<String>.to_reflected_string(), "NULL");
    assert_eq!(Some(222usize).to_reflected_string(), "222");
    assert_eq!(Some(0usize).to_reflected_string(), "0");
    assert_eq!(None::<usize>.to_reflected_string(), "NULL");
    assert_eq!(Some(-15i64).to_reflected_string(), "-15");
    assert_eq!(None::<i64>.to_reflected_string(), "NULL");
    assert_eq!(FloatText::parse("5").to_reflected_string(), "5.0");
    assert_eq!(None::<FloatText>.to_reflected_string(), "NULL");
    assert_eq!(FixedPoint::new(10025, 2).to_reflected_string(), "100.25");
    assert_eq!(None::<FixedPoint>.to_reflected_string(), "NULL");
}

#[test]
fn text_reads_as_typed_values() {
    let number: Result<i64, ConversionError> = "19".to_reflected_val();
    assert_eq!(number, Ok(19));
    let number: Result<i64, ConversionError> = "abc".to_reflected_val();
    assert_eq!(number, Err(ConversionError::Malformed));
    let flag: Result<bool, ConversionError> = "1".to_reflected_val();
    assert_eq!(flag, Ok(true));
    let flag: Result<bool, ConversionError> = "0".to_reflected_val();
    assert_eq!(flag, Ok(false));
    let flag: Result<bool, ConversionError> = "true".to_reflected_val();
    assert_eq!(flag, Err(ConversionError::Malformed));
    let text: Result<String, ConversionError> = "any text".to_reflected_val();
    assert_eq!(text, Ok("any text".to_string()));
    let float: Result<FloatText, ConversionError> = "5".to_reflected_val();
    assert_eq!(float.unwrap().as_str(), "5.0");
    let float: Result<FloatText, ConversionError> = "1e5".to_reflected_val();
    assert_eq!(float, Err(ConversionError::Malformed));
    let number: Result<FixedPoint, ConversionError> = "100.25".to_reflected_val();
    assert_eq!(number, Ok(FixedPoint::new(10025, 2).unwrap()));
    let number: Result<FixedPoint, ConversionError> = "abc".to_reflected_val();
    assert_eq!(number, Err(ConversionError::Malformed));

    let number: i64 = "-555".try_into_val();
    assert_eq!(number, -555);
    let number: usize = "555".try_into_val();
    assert_eq!(number, 555);
    let flag: bool = "1".try_into_val();
    assert!(flag);
    let flag: bool = "0".try_into_val();
    assert!(!flag);
    let text: String = "parker".try_into_val();
    assert_eq!(text, "parker");
    let float: FloatText = ".5".try_into_val();
    assert_eq!(float.as_str(), "0.5");
    let number: FixedPoint = "-0.005".try_into_val();
    assert_eq!((number.mantissa(), number.scale()), (-5, 3));
}

#[test]
fn every_unsigned_integer_reads_back() {
    let numbers: [usize; 7] = [
        0,
        1,
        10,
        4_294_967_295,
        9_223_372_036_854_775_807,
        9_223_372_036_854_775_808,
        usize::MAX,
    ];
    for n in numbers {
        let written = Some(n).to_reflected_string();
        assert_eq!(written, n.to_string());
        let read: Result<usize, ConversionError> = written.as_str().to_reflected_val();
        assert_eq!(read, Ok(n));
        let read: Result<u64, ConversionError> = written.as_str().to_reflected_val();
        assert_eq!(read, Ok(n as u64));
        assert_eq!(deserialize(&written, &Type::Integer), Ok(Value::Integer(n as i128)));
        assert_eq!(serialize(&Value::Integer(n as i128), &Type::Integer), Ok(written));
    }
}

#[test]
fn integers_are_held_to_the_width_asked_for() {
    let malformed = Err(ConversionError::Malformed);
    let read: Result<u64, ConversionError> = "18446744073709551616".to_reflected_val();
    assert_eq!(read, malformed);
    let read: Result<u64, ConversionError> = "-1".to_reflected_val();
    assert_eq!(read, malformed);
    let read: Result<u64, ConversionError> = "-0".to_reflected_val();
    assert_eq!(read, malformed);
    let read: Result<u64, ConversionError> = "+7".to_reflected_val();
    assert_eq!(read, Ok(7));
    let read: Result<u32, ConversionError> = "4294967295".to_reflected_val();
    assert_eq!(read, Ok(u32::MAX));
    let read: Result<u32, ConversionError> = "4294967296".to_reflected_val();
    assert_eq!(read, Err(ConversionError::Malformed));
    let read: Result<i32, ConversionError> = "-2147483648".to_reflected_val();
    assert_eq!(read, Ok(i32::MIN));
    let read: Result<i32, ConversionError> = "2147483648".to_reflected_val();
    assert_eq!(read, Err(ConversionError::Malformed));
    let read: Result<i64, ConversionError> = "9223372036854775808".to_reflected_val();
    assert_eq!(read, Err(ConversionError::Malformed));
    let read: Result<i64, ConversionError> = "-9223372036854775808".to_reflected_val();
    assert_eq!(read, Ok(i64::MIN));
    let read: Result<isize, ConversionError> = "-0".to_reflected_val();
    assert_eq!(read, Ok(0));
    let read: Result<i128, ConversionError> =
        "170141183460469231731687303715884105727".to_reflected_val();
    assert_eq!(read, Ok(i128::MAX));
}
