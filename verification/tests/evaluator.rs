use birl::interpreter::Environment;
use birl::value::{parse_expr, Value, ValueType};
use birl::Error;

fn empty_env() -> Environment {
    Environment::new(String::from("SHOW"))
}

fn env_with(vars: Vec<(&str, ValueType, Option<Value>)>) -> Environment {
    let mut env = Environment::new(String::from("SHOW"));
    for (name, vtype, value) in vars {
        env.vars.push(birl::interpreter::Variable {
            name: String::from(name),
            vtype,
            value,
        });
    }
    env
}

#[test]
fn number_literal_round_trip() {
    let env = empty_env();
    let v = parse_expr("8", &env).unwrap();
    assert_eq!(v.display(), "8");
    let v = parse_expr("-5", &env).unwrap();
    assert_eq!(v.display(), "-5");
    // display feeds back to the same value
    let w = parse_expr(&v.display(), &env).unwrap();
    assert_eq!(w.display(), "-5");
}

#[test]
fn numeric_expression_evaluates() {
    let env = empty_env();
    let v = parse_expr("2 + 2*3", &env).unwrap();
    match v {
        Value::Number(n) => assert_eq!(n, 8),
        _ => panic!("expected a number"),
    }
}

#[test]
fn symbol_expands_to_value() {
    let env = env_with(vec![
        ("x", ValueType::Number, Some(Value::Number(5))),
        ("y", ValueType::Str, Some(Value::Str(String::from("ab")))),
    ]);
    let v = parse_expr("x + 2", &env).unwrap();
    match v {
        Value::Number(n) => assert_eq!(n, 7),
        _ => panic!("expected a number"),
    }
    // the same result as splicing the display text in
    let v2 = parse_expr("5 + 2", &env).unwrap();
    assert_eq!(v.display(), v2.display());
    let w = parse_expr("y + \"c\"", &env).unwrap();
    match w {
        Value::Str(s) => assert_eq!(s, "abc"),
        _ => panic!("expected a text"),
    }
}

#[test]
fn no_substitution_inside_strings() {
    let env = empty_env();
    // x is undeclared: quoted it must NOT be substituted and must not fail
    let v = parse_expr("\"x\"", &env).unwrap();
    match v {
        Value::Str(s) => assert_eq!(s, "x"),
        _ => panic!("expected a text"),
    }
    // bare and undeclared it must fail with UnknownSymbol
    assert_eq!(parse_expr("x", &env).unwrap_err(), Error::UnknownSymbol);
}

#[test]
fn no_substitution_inside_char_literals() {
    let env = empty_env();
    let v = parse_expr("'x'", &env).unwrap();
    match v {
        Value::Str(s) => assert_eq!(s, "x"),
        _ => panic!("expected a text"),
    }
}

#[test]
fn string_tokenizer_concatenates() {
    let env = empty_env();
    let v = parse_expr("\"ab\" + \"cd\"", &env).unwrap();
    match v {
        Value::Str(s) => assert_eq!(s, "abcd"),
        _ => panic!("expected a text"),
    }
    let v = parse_expr("'a' + \"bc\"", &env).unwrap();
    match v {
        Value::Str(s) => assert_eq!(s, "abc"),
        _ => panic!("expected a text"),
    }
}

#[test]
fn string_minus_is_type_mismatch() {
    let env = empty_env();
    assert_eq!(
        parse_expr("\"a\" - \"b\"", &env).unwrap_err(),
        Error::TypeMismatchInStringExpression
    );
}

#[test]
fn adjacent_strings_need_operator() {
    let env = empty_env();
    assert_eq!(
        parse_expr("\"a\" \"b\"", &env).unwrap_err(),
        Error::TypeMismatchInStringExpression
    );
}

#[test]
fn digits_not_allowed_in_string_expression() {
    let env = empty_env();
    assert_eq!(
        parse_expr("\"a\" + 1", &env).unwrap_err(),
        Error::TypeMismatchInStringExpression
    );
}

#[test]
fn quotes_not_allowed_in_numeric_expression() {
    let env = empty_env();
    assert_eq!(
        parse_expr("1 + \"a\"", &env).unwrap_err(),
        Error::StringInNumericExpression
    );
}

#[test]
fn empty_expression_fails() {
    let env = empty_env();
    assert_eq!(parse_expr("", &env).unwrap_err(), Error::EmptyExpression);
    assert_eq!(parse_expr("   ", &env).unwrap_err(), Error::EmptyExpression);
}

#[test]
fn invalid_leading_character_fails() {
    let env = empty_env();
    assert_eq!(parse_expr("@1", &env).unwrap_err(), Error::InvalidExpressionType);
    // `-` applied to something that is not a number
    assert_eq!(parse_expr("-\"a\"", &env).unwrap_err(), Error::InvalidExpressionType);
}

#[test]
fn meval_rejection_surfaces() {
    let env = empty_env();
    assert_eq!(
        parse_expr("2 + * 3", &env).unwrap_err(),
        Error::InvalidNumericExpression
    );
}

#[test]
fn as_str_wraps_texts_in_quotes() {
    let n = Value::Number(8);
    assert_eq!(n.as_str(), "8");
    assert_eq!(n.display(), "8");
    let s = Value::Str(String::from("ab"));
    assert_eq!(s.as_str(), "\"ab\"");
    assert_eq!(s.display(), "ab");
}

#[test]
fn value_type_and_coarse_equality() {
    assert!(matches!(Value::Number(1).value_type(), ValueType::Number));
    assert!(matches!(
        Value::Str(String::new()).value_type(),
        ValueType::Str
    ));
    assert!(ValueType::Number.equals(ValueType::Number));
    assert!(ValueType::Str.equals(ValueType::Str));
    assert!(!ValueType::Number.equals(ValueType::Str));
    assert!(!ValueType::Str.equals(ValueType::Number));
}

#[test]
fn try_parse_reserved_type_names() {
    assert!(matches!(ValueType::try_parse("FIBRA"), Some(ValueType::Str)));
    assert!(matches!(
        ValueType::try_parse(" TRAPEZIO DESCENDENTE "),
        Some(ValueType::Number)
    ));
    assert!(ValueType::try_parse("fibra").is_none());
    assert!(ValueType::try_parse("SHOW").is_none());
}

#[test]
fn types_of_maps_values() {
    let vs = vec![Value::Number(1), Value::Str(String::from("a"))];
    let ts = ValueType::types_of(&vs);
    assert_eq!(ts.len(), 2);
    assert!(matches!(ts[0], ValueType::Number));
    assert!(matches!(ts[1], ValueType::Str));
}

#[test]
fn sym_list_evaluates_arguments() {
    let mut env = env_with(vec![("x", ValueType::Number, Some(Value::Number(3)))]);
    let vs = birl::expand_sym_list("(2, \"a\", x)", &mut env).unwrap();
    assert_eq!(vs.len(), 3);
    assert_eq!(vs[0].display(), "2");
    assert_eq!(vs[1].display(), "a");
    assert_eq!(vs[2].display(), "3");
}

#[test]
fn sym_list_empty_and_unterminated() {
    let mut env = empty_env();
    let vs = birl::expand_sym_list("( )", &mut env).unwrap();
    assert!(vs.is_empty());
    assert_eq!(
        birl::expand_sym_list("(2", &mut env).unwrap_err(),
        Error::UnterminatedArgumentList
    );
}

#[test]
fn expand_syms_rewrites_in_place() {
    let env = env_with(vec![("x", ValueType::Number, Some(Value::Number(5)))]);
    let mut text = String::from("x + 1");
    birl::expand_syms(&mut text, &env).unwrap();
    assert_eq!(text, "5 + 1");
    // a text variable is spliced in its source-literal form
    let env = env_with(vec![("y", ValueType::Str, Some(Value::Str(String::from("ab"))))]);
    let mut text = String::from("y + \"c\"");
    birl::expand_syms(&mut text, &env).unwrap();
    assert_eq!(text, "\"ab\" + \"c\"");
}

#[test]
fn declared_but_unset_variable_is_unknown() {
    let env = env_with(vec![("x", ValueType::Number, None)]);
    assert_eq!(parse_expr("x", &env).unwrap_err(), Error::UnknownSymbol);
}
