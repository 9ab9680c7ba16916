use rcaml::List;

#[test]
fn value_new_empty_list() {
    assert_eq!(List(None, None), List::new());
}

#[test]
fn value_cons_to_list() {
    let mut lst = List::new();
    assert_eq!(List(None, None), lst);

    lst.cons(1);
    assert_eq!(List(Some(1), Some(Box::new(List(None, None)))), lst);

    lst.cons(2);
    assert_eq!(
        List(
            Some(2),
            Some(Box::new(List(Some(1), Some(Box::new(List(None, None)))))),
        ),
        lst,
    );
}

#[test]
fn value_from_collection() {
    assert_eq!(List(None, None), List::from(&vec![]));
    assert_eq!(
        List(
            Some(1),
            Some(Box::new(List(
                Some(2),
                Some(Box::new(List(Some(3), Some(Box::new(List(None, None)))))),
            ))),
        ),
        List::from(&vec![1, 2, 3]),
    );
}

#[test]
fn value_convert_to_string() {
    let list = List(
        Some(1),
        Some(Box::new(List(
            Some(2),
            Some(Box::new(List(Some(3), Some(Box::new(List(None, None)))))),
        ))),
    );
    assert_eq!(list.to_string(), "[1; 2; 3]");
}

#[test]
fn value_renders_empty_single_and_negative_lists() {
    assert_eq!(List::new().to_string(), "[]");
    assert_eq!(List::from_vec(&vec![7]).to_string(), "[7]");
    assert_eq!(
        List::from_vec(&vec![-5, 0, i64::MIN, i64::MAX]).to_string(),
        "[-5; 0; -9223372036854775808; 9223372036854775807]"
    );
}

#[test]
fn value_clone_copies_every_node() {
    let list = List::from_vec(&vec![4, 5]);
    assert_eq!(list.clone(), list);
    assert_eq!(list.duplicate(), list);
}

#[test]
fn value_list_from_literal_keeps_the_elements() {
    let lit = rcaml::ListStruct::from_vec(&vec![1, 2, 3]);
    assert_eq!(List::from_literal(&lit), List::from_vec(&vec![1, 2, 3]));
}
