use rcaml::ListStruct;

#[test]
fn list_new_empty_list() {
    assert_eq!(ListStruct(None, None), ListStruct::new());
}

#[test]
fn list_cons_to_list() {
    let mut lst = ListStruct::new();
    assert_eq!(ListStruct(None, None), lst);

    lst.cons(1);
    assert_eq!(ListStruct(Some(1), Some(Box::new(ListStruct(None, None)))), lst);

    lst.cons(2);
    assert_eq!(
        ListStruct(
            Some(2),
            Some(Box::new(ListStruct(Some(1), Some(Box::new(ListStruct(None, None)))))),
        ),
        lst,
    );
}

#[test]
fn list_from_collection() {
    assert_eq!(ListStruct(None, None), ListStruct::from(&vec![]));
    assert_eq!(
        ListStruct(
            Some(1),
            Some(Box::new(ListStruct(
                Some(2),
                Some(Box::new(ListStruct(Some(3), Some(Box::new(ListStruct(None, None)))))),
            ))),
        ),
        ListStruct::from(&vec![1, 2, 3]),
    );
}

#[test]
fn list_convert_to_string() {
    let list = ListStruct(
        Some(1),
        Some(Box::new(ListStruct(
            Some(2),
            Some(Box::new(ListStruct(Some(3), Some(Box::new(ListStruct(None, None)))))),
        ))),
    );
    assert_eq!(list.to_string(), "[1; 2; 3]");
}

#[test]
fn renders_empty_single_and_negative_lists() {
    assert_eq!(ListStruct::new().to_string(), "[]");
    assert_eq!(ListStruct::from_vec(&vec![7]).to_string(), "[7]");
    assert_eq!(
        ListStruct::from_vec(&vec![-5, 0, i64::MIN, i64::MAX]).to_string(),
        "[-5; 0; -9223372036854775808; 9223372036854775807]"
    );
}

#[test]
fn clone_copies_every_node() {
    let list = ListStruct::from_vec(&vec![4, 5]);
    assert_eq!(list.clone(), list);
    assert_eq!(list.duplicate(), list);
}
