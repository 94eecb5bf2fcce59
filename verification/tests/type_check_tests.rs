use carta_schema::{CartaError, CartaErrorCode, Element, ElementTypeRef, Schema, StructDefn,
    type_check_schema};
use std::fmt::Debug;

fn build_element(name: &str, typename: &str, line_no: usize) -> Element {
    Element {
        name: name.to_string(),
        line_no,
        kind: ElementTypeRef::TypeName(typename.to_string()),
    }
}

fn build_struct(name: &str, elements: Vec<Element>, line_no: usize) -> StructDefn {
    StructDefn {
        name: name.to_string(),
        line_no,
        elements,
    }
}

// Compare two vectors, where element order doesn't matter
fn compare_vec_unordered<T: PartialEq + Debug>(a: Vec<T>, b: Vec<T>) {
    if a.len() != b.len() {
        panic!("{:?} != {:?}", &a, &b);
    }
    // Assumes elements in a are unique
    for elem in &a {
        if !b.contains(elem) {
            panic!("{:?} != {:?}", a, b);
        }
    }
}

#[test]
fn type_check_basic_ok() -> Result<(), CartaError> {
    let elem1 = build_element("inner1", "uint16_le", 1);
    let schema = Schema {
        structs: vec![build_struct("type1", vec![elem1], 1)],
    };
    type_check_schema(schema)?;
    Ok(())
}

#[test]
fn multiple_structs() -> Result<(), CartaError> {
    let t1 = build_struct(
        "type1",
        vec![
            build_element("inner1", "type2", 1),
            build_element("inner2", "uint64_le", 1),
        ],
        1,
    );
    let t2 = build_struct("type2", vec![build_element("inner3", "int8", 2)], 2);
    let schema = Schema {
        structs: vec![t1, t2],
    };
    type_check_schema(schema)?;
    Ok(())
}

#[test]
fn undefined_type() {
    let t1 = build_struct(
        "type1",
        vec![
            build_element("inner1", "type2", 2),
            build_element("inner2", "uint64_le", 3),
        ],
        1,
    );
    let schema = Schema { structs: vec![t1] };
    let res = type_check_schema(schema);
    assert_eq!(res, Err(CartaError::new_unknown_type(2, "type2".to_string())));
}

#[test]
fn type_loop() {
    let t1 = build_struct(
        "type1",
        vec![
            build_element("inner1", "type2", 2),
            build_element("inner2", "uint64_le", 3),
        ],
        1,
    );
    let t2 = build_struct(
        "type2",
        vec![
            build_element("inner3", "type1", 6),
            build_element("inner4", "int8", 7),
        ],
        5,
    );
    let schema = Schema {
        structs: vec![t1, t2],
    };
    let res = type_check_schema(schema);
    if let Err(CartaError {
        line_no: 1,
        code: CartaErrorCode::RecursiveTypes(data),
    }) = res
    {
        compare_vec_unordered(data, vec!["type1".to_string(), "type2".to_string()])
    } else {
        panic!("Unexpected value: {:?}", res);
    }
}

#[test]
fn many_types() -> Result<(), CartaError> {
    let t1 = build_struct(
        "type1",
        vec![
            build_element("inner1", "type2", 1),
            build_element("inner2", "type3", 1),
        ],
        1,
    );
    let t2 = build_struct("type2", vec![build_element("inner3", "type4", 2)], 2);
    let t3 = build_struct(
        "type3",
        vec![
            build_element("inner1", "type5", 3),
            build_element("inner2", "type6", 3),
        ],
        3,
    );
    let t4 = build_struct("type4", vec![build_element("inner3", "type5", 4)], 4);
    let t5 = build_struct("type5", vec![build_element("inner3", "type6", 5)], 5);
    let t6 = build_struct(
        "type6",
        vec![
            build_element("inner1", "int8", 6),
            build_element("inner2", "f32_be", 6),
        ],
        6,
    );
    let schema = Schema {
        structs: vec![t1, t2, t3, t4, t5, t6],
    };
    type_check_schema(schema)?;
    Ok(())
}

#[test]
fn type_loop_long_chain() {
    let t1 = build_struct(
        "type1",
        vec![
            build_element("inner1", "type2", 1),
            build_element("inner2", "type3", 1),
        ],
        1,
    );
    let t2 = build_struct(
        "type2",
        vec![
            build_element("inner3", "type3", 2),
            build_element("inner4", "int8", 2),
        ],
        2,
    );
    let t3 = build_struct(
        "type3",
        vec![
            build_element("inner3", "type4", 3),
            build_element("inner4", "type5", 3),
        ],
        3,
    );
    let t4 = build_struct(
        "type4",
        vec![
            build_element("inner3", "type7", 4),
            build_element("inner4", "int8", 4),
        ],
        4,
    );
    let t5 = build_struct(
        "type5",
        vec![
            build_element("inner3", "type6", 5),
            build_element("inner4", "uint8", 5),
        ],
        5,
    );
    let t6 = build_struct(
        "type6",
        vec![
            build_element("inner3", "f64_le", 6),
            build_element("inner4", "int64_be", 6),
        ],
        6,
    );
    let t7 = build_struct(
        "type7",
        vec![
            build_element("inner3", "f64_be", 7),
            build_element("inner4", "int64_le", 7),
            build_element("inner3", "uint32_be", 7),
            build_element("inner4", "type2", 7),
        ],
        7,
    );
    let schema = Schema {
        structs: vec![t1, t2, t3, t4, t5, t6, t7],
    };
    let res = type_check_schema(schema);
    if let Err(CartaError {
        line_no: 1,
        code: CartaErrorCode::RecursiveTypes(data),
    }) = res
    {
        compare_vec_unordered(
            data,
            vec![
                "type2".to_string(),
                "type3".to_string(),
                "type7".to_string(),
                "type1".to_string(),
                "type4".to_string(),
            ],
        )
    } else {
        panic!("Unexpected value: {:?}", res);
    }
}

#[test]
fn duplicate_types() {
    let t1 = build_struct(
        "type1",
        vec![
            build_element("inner1", "uint8", 1),
            build_element("inner2", "uint64_le", 1),
        ],
        1,
    );
    let t2 = build_struct("type1", vec![build_element("inner3", "type1", 2)], 2);
    let schema = Schema {
        structs: vec![t1, t2],
    };
    let res = type_check_schema(schema);
    assert_eq!(res, Err(CartaError::new_duplicate_type(2, "type1".to_string())));
}

#[test]
fn recursive_type() {
    let t1 = build_struct(
        "type1",
        vec![
            build_element("inner1", "type1", 1),
            build_element("inner2", "uint64_le", 1),
        ],
        1,
    );
    let schema = Schema { structs: vec![t1] };
    let res = type_check_schema(schema);
    assert_eq!(
        res,
        Err(CartaError::new_recursive_types(1, vec!["type1".to_string()]))
    );
}

#[test]
fn element_bad_typename() {
    let t1 = build_struct(
        "type1",
        vec![
            build_element("inner1", "bad_type", 1),
            build_element("inner2", "uint64_le", 1),
        ],
        1,
    );
    let schema = Schema { structs: vec![t1] };
    let res = type_check_schema(schema);
    assert_eq!(res, Err(CartaError::new_unknown_type(1, "bad_type".to_string())));
}

#[test]
fn type_check_test_basic() {
    let tnugget1 = build_element("inner1", "uint16_le", 0);
    let schema = Schema {
        structs: vec![build_struct("type1", vec![tnugget1], 0)],
    };
    type_check_schema(schema).unwrap();
}

#[test]
fn type_check_test_multi() {
    let t1 = build_struct(
        "type1",
        vec![
            build_element("inner1", "type2", 0),
            build_element("inner2", "uint64_le", 0),
        ],
        0,
    );
    let t2 = build_struct("type2", vec![build_element("inner3", "int8", 0)], 0);
    let schema = Schema {
        structs: vec![t1, t2],
    };
    type_check_schema(schema).unwrap();
}

#[test]
fn type_check_test_undefined_type() {
    let t1 = build_struct(
        "type1",
        vec![
            build_element("inner1", "type2", 0),
            build_element("inner2", "uint64_le", 0),
        ],
        0,
    );
    let schema = Schema { structs: vec![t1] };
    let res = type_check_schema(schema);
    assert_eq!(res, Err(CartaError::new_unknown_type(0, "type2".to_string())));
}

#[test]
fn type_check_test_type_loop() {
    let t1 = build_struct(
        "type1",
        vec![
            build_element("inner1", "type2", 0),
            build_element("inner2", "uint64_le", 0),
        ],
        0,
    );
    let t2 = build_struct(
        "type2",
        vec![
            build_element("inner3", "type1", 0),
            build_element("inner4", "int8", 0),
        ],
        0,
    );
    let schema = Schema {
        structs: vec![t1, t2],
    };
    let res = type_check_schema(schema);
    if let Err(CartaError {
        line_no: _,
        code: CartaErrorCode::RecursiveTypes(data),
    }) = res
    {
        compare_vec_unordered(data, vec!["type1".to_string(), "type2".to_string()])
    } else {
        panic!("Unexpected value: {:?}", res);
    }
}

#[test]
fn type_check_test_many_types() {
    let t1 = build_struct(
        "type1",
        vec![
            build_element("inner1", "type2", 0),
            build_element("inner2", "type3", 0),
        ],
        0,
    );
    let t2 = build_struct("type2", vec![build_element("inner3", "type4", 0)], 0);
    let t3 = build_struct(
        "type3",
        vec![
            build_element("inner1", "type5", 0),
            build_element("inner2", "type6", 0),
        ],
        0,
    );
    let t4 = build_struct("type4", vec![build_element("inner3", "type5", 0)], 0);
    let t5 = build_struct("type5", vec![build_element("inner3", "type6", 0)], 0);
    let t6 = build_struct(
        "type6",
        vec![
            build_element("inner1", "int8", 0),
            build_element("inner2", "f32_be", 0),
        ],
        0,
    );
    let schema = Schema {
        structs: vec![t1, t2, t3, t4, t5, t6],
    };
    type_check_schema(schema).unwrap();
}

#[test]
fn type_check_test_type_loop_long_chain() {
    let t1 = build_struct(
        "type1",
        vec![
            build_element("inner1", "type2", 0),
            build_element("inner2", "type3", 0),
        ],
        0,
    );
    let t2 = build_struct(
        "type2",
        vec![
            build_element("inner3", "type3", 0),
            build_element("inner4", "int8", 0),
        ],
        0,
    );
    let t3 = build_struct(
        "type3",
        vec![
            build_element("inner3", "type4", 0),
            build_element("inner4", "type5", 0),
        ],
        0,
    );
    let t4 = build_struct(
        "type4",
        vec![
            build_element("inner3", "type7", 0),
            build_element("inner4", "int8", 0),
        ],
        0,
    );
    let t5 = build_struct(
        "type5",
        vec![
            build_element("inner3", "type6", 0),
            build_element("inner4", "uint8", 0),
        ],
        0,
    );
    let t6 = build_struct(
        "type6",
        vec![
            build_element("inner3", "f64_le", 0),
            build_element("inner4", "int64_be", 0),
        ],
        0,
    );
    let t7 = build_struct(
        "type7",
        vec![
            build_element("inner3", "f64_be", 0),
            build_element("inner4", "int64_le", 0),
            build_element("inner3", "uint32_be", 0),
            build_element("inner4", "type2", 0),
        ],
        0,
    );
    let schema = Schema {
        structs: vec![t1, t2, t3, t4, t5, t6, t7],
    };
    let res = type_check_schema(schema);
    if let Err(CartaError {
        line_no: _,
        code: CartaErrorCode::RecursiveTypes(data),
    }) = res
    {
        compare_vec_unordered(
            data,
            vec![
                "type2".to_string(),
                "type3".to_string(),
                "type7".to_string(),
                "type1".to_string(),
                "type4".to_string(),
            ],
        )
    } else {
        panic!("Unexpected value: {:?}", res);
    }
}

#[test]
fn type_check_test_duplicate_types() {
    let t1 = build_struct(
        "type1",
        vec![
            build_element("inner1", "uint8", 0),
            build_element("inner2", "uint64_le", 0),
        ],
        0,
    );
    let t2 = build_struct("type1", vec![build_element("inner3", "type1", 0)], 0);
    let schema = Schema {
        structs: vec![t1, t2],
    };
    let res = type_check_schema(schema);
    assert_eq!(res, Err(CartaError::new_duplicate_type(0, "type1".to_string())));
}

#[test]
fn type_check_test_recursive_type() {
    let t1 = build_struct(
        "type1",
        vec![
            build_element("inner1", "type1", 0),
            build_element("inner2", "uint64_le", 0),
        ],
        0,
    );
    let schema = Schema { structs: vec![t1] };
    let res = type_check_schema(schema);
    assert_eq!(
        res,
        Err(CartaError::new_recursive_types(0, vec!["type1".to_string()]))
    );
}

#[test]
fn type_check_test_nugget_bad_typename() {
    let t1 = build_struct(
        "type1",
        vec![
            build_element("inner1", "uint8", 0),
            build_element("inner2", "uint64_le", 0),
        ],
        0,
    );
    let t2 = build_struct("name1", vec![build_element("name1", "bad_type", 0)], 0);
    let schema = Schema {
        structs: vec![t1, t2],
    };
    let res = type_check_schema(schema);
    assert_eq!(res, Err(CartaError::new_unknown_type(0, "bad_type".to_string())));
}
