use xiyi_compiler::ast::{Literal, Pattern, Type};
use xiyi_compiler::guide::{describe_pattern, int_literal_for_type};
use xiyi_compiler::literal::{parse_decimal, parse_integer, parse_integer_value};

#[test]
fn integers_have_the_type_of_their_suffix() {
    assert!(matches!(parse_integer("10"), Some(Literal::Int32(10))));
    assert!(matches!(parse_integer("1_000u64"), Some(Literal::Uint64(1000))));
    assert!(matches!(parse_integer("0xffu8"), Some(Literal::Uint8(255))));
    assert!(matches!(parse_integer("0b101"), Some(Literal::Int32(5))));
    assert!(matches!(parse_integer("0o17i8"), Some(Literal::Int8(15))));
}

#[test]
fn integers_have_to_fit_their_type() {
    assert!(parse_integer("256u8").is_none());
    assert!(parse_integer("2147483648").is_none());
    assert!(matches!(parse_integer("2147483647"), Some(Literal::Int32(2147483647))));
}

#[test]
fn values_without_regard_to_the_type() {
    assert_eq!(parse_integer_value("256u8"), Some(256));
    assert_eq!(parse_integer_value("0xff"), Some(255));
    assert_eq!(parse_integer_value("1f32"), None);
    assert_eq!(parse_integer_value("340282366920938463463374607431768211456"), None);
}

#[test]
fn decimals_are_digits_alone() {
    assert_eq!(parse_decimal("0042"), Some(42));
    assert_eq!(parse_decimal(""), None);
    assert_eq!(parse_decimal("4_2"), None);
    assert_eq!(parse_decimal("x"), None);
}

#[test]
fn literals_of_patterns_fit_the_type() {
    assert!(matches!(int_literal_for_type(-128, &Type::I8), Ok(Literal::Int8(-128))));
    assert!(int_literal_for_type(-129, &Type::I8).is_err());
    assert!(int_literal_for_type(-1, &Type::U64).is_err());
    assert!(matches!(int_literal_for_type(7, &Type::U64), Ok(Literal::Uint64(7))));
}

#[test]
fn patterns_in_words() {
    assert_eq!(describe_pattern(&Pattern::Wildcard), "Wildcard");
    assert_eq!(describe_pattern(&Pattern::IntLiteral(-5)), "IntLiteral(-5)");
    assert_eq!(describe_pattern(&Pattern::CharLiteral('\n')), "CharLiteral('\\n')");
    let p = Pattern::EnumVariant {
        enum_name: "O\"p".to_string(),
        variant_name: "Some".to_string(),
    };
    assert_eq!(
        describe_pattern(&p),
        "EnumVariant { enum_name: \"O\\\"p\", variant_name: \"Some\" }"
    );
}
