use rcaml::{eval_ast, BindStruct, Bounds, EvalError, List, ListStruct, LocalBindStruct, Node, Output, Value};

fn bounds_of(entries: Vec<(&str, Value)>) -> Bounds {
    let mut bounds = Bounds::new();
    for (name, value) in entries {
        bounds.bind(name.to_string(), value);
    }
    bounds
}

fn list_123() -> List {
    List(
        Some(1),
        Some(Box::new(List(
            Some(2),
            Some(Box::new(List(Some(3), Some(Box::new(List(None, None)))))),
        ))),
    )
}

fn literal_123() -> ListStruct {
    ListStruct(
        Some(1),
        Some(Box::new(ListStruct(
            Some(2),
            Some(Box::new(ListStruct(Some(3), Some(Box::new(ListStruct(None, None)))))),
        ))),
    )
}

#[test]
fn eval_int() {
    let ast = Node::Int(123);
    let mut bounds = Bounds::new();
    let expected = Output { name: None, value: Value::Int(123) };
    let actual = eval_ast(&ast, &mut bounds).unwrap();
    assert_eq!(expected, actual);
}

#[test]
fn eval_ast_eval_arithmetic_expr() {
    // 2+3*4+5-6/2
    let ast = Node::Sub(
        Box::new(Node::Add(
            Box::new(Node::Add(
                Box::new(Node::Int(2)),
                Box::new(Node::Mul(Box::new(Node::Int(3)), Box::new(Node::Int(4)))),
            )),
            Box::new(Node::Int(5)),
        )),
        Box::new(Node::Div(Box::new(Node::Int(6)), Box::new(Node::Int(2)))),
    );
    let mut bounds = Bounds::new();
    let expected = Output { name: None, value: Value::Int(16) };
    let actual = eval_ast(&ast, &mut bounds).unwrap();
    assert_eq!(expected, actual);
}

#[test]
fn eval_ast_eval_global_binding() {
    // let foo = 123
    let ast = Node::Bind(Box::new(BindStruct {
        name: "foo".to_string(),
        args: vec![],
        expr: Node::Int(123),
    }));
    let mut bounds = Bounds::new();
    let expected = Output { name: Some("foo".to_string()), value: Value::Int(123) };
    let actual = eval_ast(&ast, &mut bounds).unwrap();
    assert_eq!(expected, actual);
    assert_eq!(bounds, bounds_of(vec![("foo", Value::Int(123))]));
}

#[test]
fn eval_ast_overwrites_existing_global_binding() {
    // let foo = 987
    let ast = Node::Bind(Box::new(BindStruct {
        name: "foo".to_string(),
        args: vec![],
        expr: Node::Int(987),
    }));
    let mut bounds = Bounds::new();
    let expected = Output { name: Some("foo".to_string()), value: Value::Int(987) };
    let actual = eval_ast(&ast, &mut bounds).unwrap();
    assert_eq!(expected, actual);
    assert_eq!(bounds, bounds_of(vec![("foo", Value::Int(987))]));
}

#[test]
fn eval_bound_global_value() {
    // foo
    let ast = Node::Ident("foo".to_string());
    let mut bounds = bounds_of(vec![("foo", Value::Int(123))]);
    let expected = Output { name: None, value: Value::Int(123) };
    let actual = eval_ast(&ast, &mut bounds).unwrap();
    assert_eq!(expected, actual);
    assert_eq!(bounds, bounds_of(vec![("foo", Value::Int(123))]));
}

#[test]
fn eval_ast_eval_local_binding() {
    // let x = 5 in x + 2
    let ast = Node::LocalBind(Box::new(LocalBindStruct {
        bind: BindStruct { name: "x".to_string(), args: vec![], expr: Node::Int(5) },
        scope: Node::Add(Box::new(Node::Ident("x".to_string())), Box::new(Node::Int(2))),
    }));
    let mut bounds = Bounds::new();
    let expected = Output { name: None, value: Value::Int(7) };
    let actual = eval_ast(&ast, &mut bounds).unwrap();
    assert_eq!(expected, actual);
    assert_eq!(bounds, Bounds::new());
}

#[test]
fn shadow_global_binding_with_local_binding() {
    // let foo = 5 in foo + 2
    let ast = Node::LocalBind(Box::new(LocalBindStruct {
        bind: BindStruct { name: "foo".to_string(), args: vec![], expr: Node::Int(5) },
        scope: Node::Add(Box::new(Node::Ident("foo".to_string())), Box::new(Node::Int(2))),
    }));
    let mut bounds = bounds_of(vec![("foo", Value::Int(123))]);
    let expected = Output { name: None, value: Value::Int(7) };
    let actual = eval_ast(&ast, &mut bounds).unwrap();
    assert_eq!(expected, actual);
    assert_eq!(bounds, bounds_of(vec![("foo", Value::Int(123))]));
}

#[test]
fn eval_ast_eval_empty_list() {
    // []
    let ast = Node::List(ListStruct::new());
    let mut bounds = Bounds::new();
    let expected = Output { name: None, value: Value::List(List::new()) };
    let actual = eval_ast(&ast, &mut bounds).unwrap();
    assert_eq!(expected, actual);
    assert_eq!(bounds, Bounds::new());
}

#[test]
fn eval_ast_eval_list() {
    // [1; 2; 3]
    let list = list_123();
    let ast = Node::List(literal_123());
    let mut bounds = Bounds::new();
    let expected = Output { name: None, value: Value::List(list.clone()) };
    let actual = eval_ast(&ast, &mut bounds).unwrap();
    assert_eq!(expected, actual);
    assert_eq!(bounds, Bounds::new());
}

#[test]
fn eval_list_binding() {
    // let lst = [1; 2; 3]
    let list = list_123();
    let ast = Node::Bind(Box::new(BindStruct {
        name: "lst".to_string(),
        args: vec![],
        expr: Node::List(literal_123()),
    }));
    let mut bounds = Bounds::new();
    let expected = Output { name: Some("lst".to_string()), value: Value::List(list.clone()) };
    let actual = eval_ast(&ast, &mut bounds).unwrap();
    assert_eq!(expected, actual);
    assert_eq!(bounds, bounds_of(vec![("lst", Value::List(list))]));
}

#[test]
fn error_on_arithmetic_operation_for_not_int_pair() {
    // [1; 2] + 3
    let ast = Node::Add(
        Box::new(Node::List(ListStruct::from(&vec![1, 2]))),
        Box::new(Node::Int(3)),
    );
    assert!(eval_ast(&ast, &mut Bounds::new()).is_err());
    assert_eq!(eval_ast(&ast, &mut Bounds::new()), Err(EvalError::TypeMismatch));
}

#[test]
fn eval_ast_eval_true() {
    // true
    let ast = Node::Bool(true);
    let mut bounds = Bounds::new();
    let expected = Output { name: None, value: Value::Bool(true) };
    let actual = eval_ast(&ast, &mut bounds).unwrap();
    assert_eq!(expected, actual);
}

fn check(ast: Node, expected: bool) {
    let mut bounds = Bounds::new();
    let expected = Output { name: None, value: Value::Bool(expected) };
    let actual = eval_ast(&ast, &mut bounds).unwrap();
    assert_eq!(expected, actual);
}

#[test]
fn eval_equal_1() {
    // 2 == 3
    check(Node::Eql(Box::new(Node::Int(2)), Box::new(Node::Int(3))), false);
}

#[test]
fn eval_equal_2() {
    // 3 == 3
    check(Node::Eql(Box::new(Node::Int(3)), Box::new(Node::Int(3))), true);
}

#[test]
fn eval_equal_3() {
    // true == false
    check(Node::Eql(Box::new(Node::Bool(true)), Box::new(Node::Bool(false))), false);
}

#[test]
fn eval_equal_4() {
    // false == false
    check(Node::Eql(Box::new(Node::Bool(false)), Box::new(Node::Bool(false))), true);
}

#[test]
fn eval_not_equal_1() {
    // 2 != 3
    check(Node::Neql(Box::new(Node::Int(2)), Box::new(Node::Int(3))), true);
}

#[test]
fn eval_not_equal_2() {
    // 3 != 3
    check(Node::Neql(Box::new(Node::Int(3)), Box::new(Node::Int(3))), false);
}

#[test]
fn eval_func_definition() {
    // let square x = x * x
    let ast = Node::Bind(Box::new(BindStruct {
        name: "square".to_string(),
        args: vec!["x".to_string()],
        expr: Node::Mul(
            Box::new(Node::Ident("x".to_string())),
            Box::new(Node::Ident("x".to_string())),
        ),
    }));
    let mut bounds = Bounds::new();
    let expected = Output { name: Some("square".to_string()), value: Value::Fn };
    let actual = eval_ast(&ast, &mut bounds).unwrap();
    assert_eq!(expected, actual);
    assert_eq!(bounds, bounds_of(vec![("square", Value::Fn)]));
}

#[test]
fn output_renders_each_type() {
    let out = Output { name: None, value: Value::Int(-42) };
    assert_eq!(out.to_string(), "- : int = -42");
    let out = Output { name: Some("b".to_string()), value: Value::Bool(false) };
    assert_eq!(out.to_string(), "val b : bool = false");
    let out = Output { name: None, value: Value::List(list_123()) };
    assert_eq!(out.to_string(), "- : int list = [1; 2; 3]");
    let out = Output { name: Some("f".to_string()), value: Value::Fn };
    assert_eq!(out.to_string(), "val f : ... = <fun>");
}

#[test]
fn local_function_binding_gives_the_marker() {
    // let f x = x in f
    let ast = Node::LocalBind(Box::new(LocalBindStruct {
        bind: BindStruct {
            name: "f".to_string(),
            args: vec!["x".to_string()],
            expr: Node::Ident("x".to_string()),
        },
        scope: Node::Ident("f".to_string()),
    }));
    let mut bounds = Bounds::new();
    let actual = eval_ast(&ast, &mut bounds).unwrap();
    assert_eq!(actual, Output { name: None, value: Value::Fn });
    assert_eq!(bounds, Bounds::new());
}
