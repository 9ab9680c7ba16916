use rcaml::{eval, Bounds, Error, EvalError, LexError, ParseError, Value};

fn bounds_of(entries: Vec<(&str, Value)>) -> Bounds {
    let mut bounds = Bounds::new();
    for (name, value) in entries {
        bounds.bind(name.to_string(), value);
    }
    bounds
}

#[test]
fn eval_integer_input() {
    let input = "123;;".to_string();
    let mut bounds = Bounds::new();
    let expected = "- : int = 123";
    let actual = eval(input, &mut bounds).unwrap();
    assert_eq!(expected, actual);
}

#[test]
fn eval_input_with_spaces() {
    let input = " 123  ;;".to_string();
    let mut bounds = Bounds::new();
    let expected = "- : int = 123";
    let actual = eval(input, &mut bounds).unwrap();
    assert_eq!(expected, actual);
}

#[test]
fn eval_eval_arithmetic_expr() {
    let input = "2+3*4+5-6/2;;".to_string();
    let mut bounds = Bounds::new();
    let expected = "- : int = 16";
    let actual = eval(input, &mut bounds).unwrap();
    assert_eq!(expected, actual);
}

#[test]
fn eval_eval_local_binding() {
    let input = "let lv = 345 in lv + 2;;".to_string();
    let mut bounds = Bounds::new();
    let expected = "- : int = 347";
    let actual = eval(input, &mut bounds).unwrap();
    assert_eq!(expected, actual);
    assert_eq!(bounds, Bounds::new());
}

#[test]
fn eval_nested_local_bindings_1() {
    let input = r#"
            let a = 1 in
            let b = 2 in
            a;;
        "#.to_string();
    let mut bounds = Bounds::new();
    let expected = "- : int = 1";
    let actual = eval(input, &mut bounds).unwrap();
    assert_eq!(expected, actual);
    assert_eq!(bounds, Bounds::new());
}

#[test]
fn eval_nested_local_bindings_2() {
    let input = r#"
            let a = 1 in
            let b = 2 in
            b;;
        "#.to_string();
    let mut bounds = Bounds::new();
    let expected = "- : int = 2";
    let actual = eval(input, &mut bounds).unwrap();
    assert_eq!(expected, actual);
    assert_eq!(bounds, Bounds::new());
}

#[test]
fn eval_eval_empty_list() {
    let input = "[];;".to_string();
    let mut bounds = Bounds::new();
    let expected = "- : int list = []";
    let actual = eval(input, &mut bounds).unwrap();
    assert_eq!(expected, actual);
    assert_eq!(bounds, Bounds::new());
}

#[test]
fn eval_eval_list() {
    let input = "[1; 2; 3];;".to_string();
    let mut bounds = Bounds::new();
    let expected = "- : int list = [1; 2; 3]";
    let actual = eval(input, &mut bounds).unwrap();
    assert_eq!(expected, actual);
    assert_eq!(bounds, Bounds::new());
}

#[test]
fn eval_eval_true() {
    let input = "true;;".to_string();
    let mut bounds = Bounds::new();
    let expected = "- : bool = true";
    let actual = eval(input, &mut bounds).unwrap();
    assert_eq!(expected, actual);
    assert_eq!(bounds, Bounds::new());
}

#[test]
fn eval_false() {
    let input = "false;;".to_string();
    let mut bounds = Bounds::new();
    let expected = "- : bool = false";
    let actual = eval(input, &mut bounds).unwrap();
    assert_eq!(expected, actual);
    assert_eq!(bounds, Bounds::new());
}

#[test]
fn eval_equal_between_int_1() {
    let input = "2 == 3;;".to_string();
    let mut bounds = Bounds::new();
    let expected = "- : bool = false";
    let actual = eval(input, &mut bounds).unwrap();
    assert_eq!(expected, actual);
    assert_eq!(bounds, Bounds::new());
}

#[test]
fn eval_equal_between_int_2() {
    let input = "3 == 3;;".to_string();
    let mut bounds = Bounds::new();
    let expected = "- : bool = true";
    let actual = eval(input, &mut bounds).unwrap();
    assert_eq!(expected, actual);
    assert_eq!(bounds, Bounds::new());
}

#[test]
fn eval_not_equal_between_int_1() {
    let input = "2 != 3;;".to_string();
    let mut bounds = Bounds::new();
    let expected = "- : bool = true";
    let actual = eval(input, &mut bounds).unwrap();
    assert_eq!(expected, actual);
    assert_eq!(bounds, Bounds::new());
}

#[test]
fn eval_not_equal_between_int_2() {
    let input = "3 != 3;;".to_string();
    let mut bounds = Bounds::new();
    let expected = "- : bool = false";
    let actual = eval(input, &mut bounds).unwrap();
    assert_eq!(expected, actual);
    assert_eq!(bounds, Bounds::new());
}

#[test]
fn eval_eval_global_binding() {
    let input = "let foo = 42;;".to_string();
    let mut bounds = Bounds::new();
    let expected = "val foo : int = 42";
    let actual = eval(input, &mut bounds).unwrap();
    assert_eq!(expected, actual);
    assert_eq!(bounds, bounds_of(vec![("foo", Value::Int(42))]));
}

#[test]
fn eval_overwrites_existing_global_binding() {
    let input = "let foo = 123;;".to_string();
    let mut bounds = bounds_of(vec![("foo", Value::Int(42))]);
    let expected = "val foo : int = 123";
    let actual = eval(input, &mut bounds).unwrap();
    assert_eq!(expected, actual);
    assert_eq!(bounds, bounds_of(vec![("foo", Value::Int(123))]));
}

#[test]
fn eval_existing_global_binding() {
    let input = "foo;;".to_string();
    let mut bounds = bounds_of(vec![("foo", Value::Int(456))]);
    let expected = "- : int = 456";
    let actual = eval(input, &mut bounds).unwrap();
    assert_eq!(expected, actual);
    assert_eq!(bounds, bounds_of(vec![("foo", Value::Int(456))]));
}

#[test]
fn rebinding_twice_keeps_one_entry() {
    let mut bounds = Bounds::new();
    assert_eq!(eval("let foo = 42;;".to_string(), &mut bounds).unwrap(), "val foo : int = 42");
    assert_eq!(eval("let foo = 123;;".to_string(), &mut bounds).unwrap(), "val foo : int = 123");
    assert_eq!(bounds.len(), 1);
    assert_eq!(bounds.get(&"foo".to_string()), Some(&Value::Int(123)));
    assert_eq!(bounds, bounds_of(vec![("foo", Value::Int(123))]));
}

#[test]
fn local_binding_leaves_environment_empty() {
    let mut bounds = Bounds::new();
    assert_eq!(eval("let a = 1 in a;;".to_string(), &mut bounds).unwrap(), "- : int = 1");
    assert_eq!(bounds.len(), 0);
    assert_eq!(bounds, Bounds::new());
}

#[test]
fn local_binding_shadows_global_binding() {
    let mut bounds = bounds_of(vec![("foo", Value::Int(123))]);
    let actual = eval("let foo = 5 in foo + 2;;".to_string(), &mut bounds).unwrap();
    assert_eq!(actual, "- : int = 7");
    assert_eq!(bounds, bounds_of(vec![("foo", Value::Int(123))]));
    assert_eq!(eval("foo;;".to_string(), &mut bounds).unwrap(), "- : int = 123");
}

#[test]
fn precedence_with_parentheses() {
    let mut bounds = Bounds::new();
    let actual = eval("2+3*4+5-6/2+(3-1)*2;;".to_string(), &mut bounds).unwrap();
    assert_eq!(actual, "- : int = 20");
}

#[test]
fn equality_binds_tighter_than_addition() {
    let mut bounds = Bounds::new();
    assert_eq!(eval("1 + 2 == 3;;".to_string(), &mut bounds), Err(Error::Eval(EvalError::TypeMismatch)));
    assert_eq!(eval("(1 + 2) == 3;;".to_string(), &mut bounds).unwrap(), "- : bool = true");
}

#[test]
fn list_plus_int_is_a_type_mismatch() {
    let mut bounds = bounds_of(vec![("x", Value::Int(1))]);
    let r = eval("[1; 2] + 3;;".to_string(), &mut bounds);
    assert_eq!(r, Err(Error::Eval(EvalError::TypeMismatch)));
    assert_eq!(bounds, bounds_of(vec![("x", Value::Int(1))]));
    assert_eq!(eval("x + 1;;".to_string(), &mut bounds).unwrap(), "- : int = 2");
}

#[test]
fn int_compared_with_bool_is_a_type_mismatch() {
    let mut bounds = Bounds::new();
    assert_eq!(eval("1 == true;;".to_string(), &mut bounds), Err(Error::Eval(EvalError::TypeMismatch)));
    assert_eq!(eval("true == false;;".to_string(), &mut bounds).unwrap(), "- : bool = false");
    assert_eq!(eval("true + 1;;".to_string(), &mut bounds), Err(Error::Eval(EvalError::TypeMismatch)));
}

#[test]
fn division_truncates_toward_zero() {
    let mut bounds = Bounds::new();
    assert_eq!(eval("7/2;;".to_string(), &mut bounds).unwrap(), "- : int = 3");
    assert_eq!(eval("(0-7)/2;;".to_string(), &mut bounds).unwrap(), "- : int = -3");
    assert_eq!(eval("7/(0-2);;".to_string(), &mut bounds).unwrap(), "- : int = -3");
    assert_eq!(eval("(0-7)/(0-2);;".to_string(), &mut bounds).unwrap(), "- : int = 3");
    assert_eq!(eval("1/3;;".to_string(), &mut bounds).unwrap(), "- : int = 0");
}

#[test]
fn division_matches_native_semantics() {
    let mut bounds = Bounds::new();
    for a in [-9i64, -7, -1, 0, 1, 6, 7, 100] {
        for b in [-4i64, -3, -1, 1, 2, 3, 5] {
            let input = format!("({} - {}) / ({} - {});;", a.max(0), -a.min(0), b.max(0), -b.min(0));
            let expected = format!("- : int = {}", a / b);
            assert_eq!(eval(input, &mut bounds).unwrap(), expected);
        }
    }
}

#[test]
fn smallest_int_divided_by_minus_one_wraps() {
    let mut bounds = Bounds::new();
    let input = "(0 - 9223372036854775807 - 1) / (0 - 1);;".to_string();
    assert_eq!(eval(input, &mut bounds).unwrap(), "- : int = -9223372036854775808");
}

#[test]
fn division_by_zero_is_an_error() {
    let mut bounds = Bounds::new();
    assert_eq!(eval("1/0;;".to_string(), &mut bounds), Err(Error::Eval(EvalError::DivisionByZero)));
}

#[test]
fn arithmetic_wraps_around() {
    let mut bounds = Bounds::new();
    let r = eval("9223372036854775807 + 1;;".to_string(), &mut bounds).unwrap();
    assert_eq!(r, "- : int = -9223372036854775808");
    let r = eval("4611686018427387904 * 2;;".to_string(), &mut bounds).unwrap();
    assert_eq!(r, "- : int = -9223372036854775808");
    let r = eval("0 - 9223372036854775807 - 2;;".to_string(), &mut bounds).unwrap();
    assert_eq!(r, "- : int = 9223372036854775807");
}

#[test]
fn unbound_name_is_an_error() {
    let mut bounds = Bounds::new();
    assert_eq!(eval("bar;;".to_string(), &mut bounds), Err(Error::Eval(EvalError::Unbound("bar".to_string()))));
}

#[test]
fn missing_terminator_is_an_error() {
    let mut bounds = Bounds::new();
    assert_eq!(eval("123".to_string(), &mut bounds), Err(Error::Boundary));
    assert_eq!(eval("123;".to_string(), &mut bounds), Err(Error::Boundary));
}

#[test]
fn text_after_the_terminator_is_ignored() {
    let mut bounds = Bounds::new();
    assert_eq!(eval("1 + 1;; 5;;".to_string(), &mut bounds).unwrap(), "- : int = 2");
}

#[test]
fn unknown_character_is_a_lex_error() {
    let mut bounds = Bounds::new();
    let r = eval("1 & 2;;".to_string(), &mut bounds);
    assert_eq!(r, Err(Error::Lex(LexError { rest: "& 2".to_string() })));
}

#[test]
fn oversized_integer_is_a_lex_error() {
    let mut bounds = Bounds::new();
    let r = eval("1 + 9223372036854775808;;".to_string(), &mut bounds);
    assert_eq!(r, Err(Error::Lex(LexError { rest: "9223372036854775808".to_string() })));
    let r = eval("9223372036854775807;;".to_string(), &mut bounds).unwrap();
    assert_eq!(r, "- : int = 9223372036854775807");
}

#[test]
fn parse_errors_are_reported() {
    let mut bounds = Bounds::new();
    let cases = [
        ("let = 1;;", ParseError::ExpectedIdent),
        ("let x 1;;", ParseError::ExpectedEq),
        ("[1 2];;", ParseError::ListSeparator),
        ("[1; 2;;", ParseError::ListSeparator),
        ("[1; true];;", ParseError::ListElement),
        ("(1 + 2;;", ParseError::UnclosedParen),
        ("1 +;;", ParseError::ExpectedPrimary),
        ("1 2;;", ParseError::ExtraTokens),
    ];
    for (input, err) in cases {
        assert_eq!(eval(input.to_string(), &mut bounds), Err(Error::Parse(err)));
    }
    assert_eq!(bounds, Bounds::new());
}

#[test]
fn list_binding_and_function_definition() {
    let mut bounds = Bounds::new();
    let r = eval("let lst = [1; 2; 3];;".to_string(), &mut bounds).unwrap();
    assert_eq!(r, "val lst : int list = [1; 2; 3]");
    let r = eval("let square x = x * x;;".to_string(), &mut bounds).unwrap();
    assert_eq!(r, "val square : ... = <fun>");
    assert_eq!(bounds.get(&"square".to_string()), Some(&Value::Fn));
    let r = eval("lst;;".to_string(), &mut bounds).unwrap();
    assert_eq!(r, "- : int list = [1; 2; 3]");
}

#[test]
fn bool_binding_and_local_bool_scope() {
    let mut bounds = Bounds::new();
    let r = eval("let t = 1 == 1;;".to_string(), &mut bounds).unwrap();
    assert_eq!(r, "val t : bool = true");
    let r = eval("let x = 2 in x == 2;;".to_string(), &mut bounds).unwrap();
    assert_eq!(r, "- : bool = true");
}

#[test]
fn binding_inside_an_operand_is_a_type_mismatch() {
    let mut bounds = Bounds::new();
    let r = eval("(let a = 1) + 2;;".to_string(), &mut bounds);
    assert_eq!(r, Err(Error::Eval(EvalError::TypeMismatch)));
}

#[test]
fn error_messages_name_the_failure() {
    let mut bounds = Bounds::new();
    let msg = |input: &str, bounds: &mut Bounds| eval(input.to_string(), bounds).unwrap_err().message();
    assert_eq!(msg("1", &mut bounds), "\";;\" is required at the end of an expression");
    assert_eq!(msg("1 & 2;;", &mut bounds), "Failed to tokenize \"& 2\"");
    assert_eq!(msg("1 2;;", &mut bounds), "Found extra tokens");
    assert_eq!(msg("let = 1;;", &mut bounds), "Expected an identifier");
    assert_eq!(msg("[1; 2] + 3;;", &mut bounds), "This expression has a type other than expected");
    assert_eq!(msg("nope;;", &mut bounds), "Unbound value nope");
    assert_eq!(msg("1 / 0;;", &mut bounds), "Division by zero");
}

#[test]
fn environments_compare_as_maps() {
    let a = bounds_of(vec![("x", Value::Int(1)), ("y", Value::Bool(true))]);
    let b = bounds_of(vec![("y", Value::Bool(true)), ("x", Value::Int(1))]);
    assert_eq!(a, b);
    let c = bounds_of(vec![("y", Value::Bool(false)), ("x", Value::Int(1))]);
    assert_ne!(a, c);
    let d = bounds_of(vec![("x", Value::Int(1))]);
    assert_ne!(a, d);
    assert_ne!(d, a);
    let e = bounds_of(vec![("x", Value::Int(1)), ("z", Value::Bool(true))]);
    assert_ne!(a, e);
}

#[test]
fn unicode_whitespace_around_a_statement_is_trimmed() {
    let mut bounds = Bounds::new();
    assert_eq!(eval("\u{a0}123\u{3000};;".to_string(), &mut bounds).unwrap(), "- : int = 123");
}
