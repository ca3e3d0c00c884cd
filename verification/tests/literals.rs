use sigma::literal::is_literal;
use sigma::DataType;

#[test]
fn unsigned_integers_take_digits_only() {
    for s in ["0", "7", "007", "255", "0000000000000000000000255"] {
        assert!(is_literal(DataType::U8, s), "{}", s);
    }
    for s in ["", "256", "+5", "-0", "-1", "1.0", " 1", "1 ", "1_0", "0x10", "१"] {
        assert!(!is_literal(DataType::U8, s), "{}", s);
    }
    assert!(is_literal(DataType::U16, "65535"));
    assert!(!is_literal(DataType::U16, "65536"));
    assert!(is_literal(DataType::U32, "4294967295"));
    assert!(!is_literal(DataType::U32, "4294967296"));
    assert!(is_literal(DataType::U64, "18446744073709551615"));
    assert!(!is_literal(DataType::U64, "18446744073709551616"));
    assert!(!is_literal(DataType::U64, "99999999999999999999999999999999999999999999"));
}

#[test]
fn unsigned_integers_agree_with_std_but_for_the_plus() {
    for s in ["0", "12", "255", "256", "", "-1", "a", "1a", "65535", "65536", "00"] {
        assert_eq!(is_literal(DataType::U8, s), s.parse::<u8>().is_ok(), "{}", s);
        assert_eq!(is_literal(DataType::U16, s), s.parse::<u16>().is_ok(), "{}", s);
        assert_eq!(is_literal(DataType::U32, s), s.parse::<u32>().is_ok(), "{}", s);
        assert_eq!(is_literal(DataType::U64, s), s.parse::<u64>().is_ok(), "{}", s);
    }
}

#[test]
fn signed_integers_agree_with_std() {
    let cases = [
        "0", "-0", "+0", "127", "128", "-128", "-129", "+127", "+128", "-", "+", "", "--1", "+-1",
        "32767", "32768", "-32768", "-32769", "2147483647", "2147483648", "-2147483648",
        "-2147483649", "9223372036854775807", "9223372036854775808", "-9223372036854775808",
        "-9223372036854775809", "1.5", "a", "- 1", "0012", "-0012",
    ];
    for s in cases {
        assert_eq!(is_literal(DataType::I8, s), s.parse::<i8>().is_ok(), "{}", s);
        assert_eq!(is_literal(DataType::I16, s), s.parse::<i16>().is_ok(), "{}", s);
        assert_eq!(is_literal(DataType::I32, s), s.parse::<i32>().is_ok(), "{}", s);
        assert_eq!(is_literal(DataType::I64, s), s.parse::<i64>().is_ok(), "{}", s);
    }
}

#[test]
fn floats_agree_with_std() {
    let cases = [
        "0", "1", "1.", ".5", "1.5", "-1.5", "+1.5", "1e5", "1E5", "1e+5", "1e-5", "1.e5", ".5e5",
        "1.5e-10", "inf", "INF", "-inf", "+inf", "infinity", "Infinity", "-INFINITY", "nan",
        "NaN", "-nan", "+NAN", "", ".", "+", "-", "e5", ".e5", "1e", "1e+", "1e5.", "1.5.5",
        "1 ", " 1", "1f", "0x1p3", "infinit", "infinityy", "na", "in", "1_000", "--1", "+-1",
        "1e5e5", "1,5", "١", "1e400", "0.000000000000000000000000000000000000000000001",
        "123456789012345678901234567890", "i", "n", "inf ", "1.e", "..", "5.",
    ];
    for s in cases {
        assert_eq!(is_literal(DataType::F64, s), s.parse::<f64>().is_ok(), "{}", s);
        assert_eq!(is_literal(DataType::F32, s), s.parse::<f32>().is_ok(), "{}", s);
    }
}

#[test]
fn booleans_are_true_and_false() {
    assert!(is_literal(DataType::Bool, "true"));
    assert!(is_literal(DataType::Bool, "false"));
    for s in ["", "True", "FALSE", "1", "0", "yes", "true ", "tru", "falsee", "truë"] {
        assert!(!is_literal(DataType::Bool, s), "{}", s);
        assert_eq!(is_literal(DataType::Bool, s), s.parse::<bool>().is_ok(), "{}", s);
    }
}

#[test]
fn any_text_is_a_string() {
    for s in ["", "abc", "{{ x }}", "ünïcödé", "12"] {
        assert!(is_literal(DataType::Str, s));
    }
}

#[test]
fn types_are_looked_up_by_exact_name() {
    let names = [
        ("u8", DataType::U8),
        ("i8", DataType::I8),
        ("u16", DataType::U16),
        ("i16", DataType::I16),
        ("u32", DataType::U32),
        ("i32", DataType::I32),
        ("u64", DataType::U64),
        ("i64", DataType::I64),
        ("f32", DataType::F32),
        ("f64", DataType::F64),
        ("bool", DataType::Bool),
        ("str", DataType::Str),
    ];
    for (name, dt) in names {
        assert_eq!(DataType::named(name), Some(dt));
        assert_eq!(DataType::named(&name.to_uppercase()), None);
        assert_eq!(dt.variant_name(), format!("{:?}", dt));
    }
    for name in ["", "u", "u128", "string", "Bool", " u8"] {
        assert_eq!(DataType::named(name), None);
    }
}
