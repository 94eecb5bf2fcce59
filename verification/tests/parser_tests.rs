use carta_schema::{ArrayDefn, ArrayLen, CartaError, Element, ElementTypeRef, StructDefn,
    Tokeniser, compile_schema};

fn build_basic_element(name: &str, typename: &str, line_no: usize) -> Element {
    Element {
        name: name.to_string(),
        line_no,
        kind: ElementTypeRef::TypeName(typename.to_string()),
    }
}

fn build_array_element(name: &str, typename: &str, length: &str, line_no: usize) -> Element {
    Element {
        name: name.to_string(),
        line_no,
        kind: ElementTypeRef::ArrayElem(ArrayDefn {
            kind: typename.to_string(),
            length: ArrayLen::Identifier(length.to_string()),
        }),
    }
}

fn build_struct(name: &str, elements: Vec<Element>, line_no: usize) -> StructDefn {
    StructDefn {
        name: name.to_string(),
        line_no,
        elements,
    }
}

#[test]
fn basic_builtin() -> Result<(), CartaError> {
    let tokeniser = Tokeniser::new("struct s {new_name: uint64_le}")?;
    let schema = compile_schema(tokeniser)?;
    let mut iter = schema.structs.iter();
    assert_eq!(
        iter.next(),
        Some(&build_struct(
            "s",
            vec![build_basic_element("new_name", "uint64_le", 1)],
            1
        ))
    );
    assert_eq!(iter.next(), None);
    Ok(())
}

#[test]
fn empty_input() -> Result<(), CartaError> {
    let tokeniser = Tokeniser::new("")?;
    let schema = compile_schema(tokeniser)?;
    let mut iter = schema.structs.iter();
    assert_eq!(iter.next(), None);
    Ok(())
}

#[test]
fn whitespace_input() -> Result<(), CartaError> {
    let tokeniser = Tokeniser::new("\n  \t\n\n")?;
    let schema = compile_schema(tokeniser)?;
    let mut iter = schema.structs.iter();
    assert_eq!(iter.next(), None);
    Ok(())
}

#[test]
fn multiple_builtins() -> Result<(), CartaError> {
    let tokeniser = Tokeniser::new(
        "struct s {
                name1: int8,
                name2: uint64_be,
                name3: f64_le,
            }",
    )?;
    let schema = compile_schema(tokeniser)?;
    let mut iter = schema.structs.iter();
    assert_eq!(
        iter.next(),
        Some(&build_struct(
            "s",
            vec![
                build_basic_element("name1", "int8", 2),
                build_basic_element("name2", "uint64_be", 3),
                build_basic_element("name3", "f64_le", 4),
            ],
            1
        ))
    );
    assert_eq!(iter.next(), None);
    Ok(())
}

#[test]
fn struct_syntax_errors() -> Result<(), CartaError> {
    let tokeniser = Tokeniser::new(
        "struct new_type {
                inner_val1: int8,
                inner_val2, int8,
            }",
    )?;
    let ret = compile_schema(tokeniser);
    assert_eq!(ret, Err(CartaError::new_parse_error(3, ":", ",".to_string())));

    let tokeniser = Tokeniser::new(
        "struct new_type {
                inner_val1: int8,
                inner_val2: int8,:
            }",
    )?;
    let ret = compile_schema(tokeniser);
    assert_eq!(ret, Err(CartaError::new_parse_error(3, "}", ":".to_string())));

    let tokeniser = Tokeniser::new(
        "struct {
                inner_val1: int8,
                inner_val2: int8,:
            }",
    )?;
    let ret = compile_schema(tokeniser);
    assert_eq!(ret, Err(CartaError::new_parse_error(1, "<name>", "{".to_string())));

    let tokeniser = Tokeniser::new(
        "struct new_type
                inner_val1: int8,
                inner_val2: int8,:
            }",
    )?;
    let ret = compile_schema(tokeniser);
    assert_eq!(
        ret,
        Err(CartaError::new_parse_error(2, "{", "inner_val1".to_string()))
    );

    let tokeniser = Tokeniser::new(
        "struct new_type {
                inner_val1: int8,
                inner_val2: int8,:
            }",
    )?;
    let ret = compile_schema(tokeniser);
    assert_eq!(ret, Err(CartaError::new_parse_error(3, "}", ":".to_string())));

    let tokeniser = Tokeniser::new(
        "struct new_type {
                inner_val1: ,
                inner_val2: int8,
            }",
    )?;
    let ret = compile_schema(tokeniser);
    assert_eq!(
        ret,
        Err(CartaError::new_parse_error(2, "<typename>", ",".to_string()))
    );

    let tokeniser = Tokeniser::new(
        "struct new_type {
                inner_val1: int8
                inner_val2: int8,
            }",
    )?;
    let ret = compile_schema(tokeniser);
    assert_eq!(
        ret,
        Err(CartaError::new_parse_error(3, ",", "inner_val2".to_string()))
    );
    Ok(())
}

#[test]
fn parser_array() -> Result<(), CartaError> {
    let tokeniser = Tokeniser::new("struct s {len: int8, arr1: [int8; len]}")?;
    let schema = compile_schema(tokeniser)?;
    let mut iter = schema.structs.iter();
    assert_eq!(
        iter.next(),
        Some(&build_struct(
            "s",
            vec![
                build_basic_element("len", "int8", 1),
                build_array_element("arr1", "int8", "len", 1)
            ],
            1
        ))
    );
    assert_eq!(iter.next(), None);
    Ok(())
}

#[test]
fn array_bad_len() -> Result<(), CartaError> {
    let tokeniser = Tokeniser::new("struct s {len: int8, arr1: [int8; blah]}")?;
    let schema = compile_schema(tokeniser)?;
    let mut iter = schema.structs.iter();
    assert_eq!(
        iter.next(),
        Some(&build_struct(
            "s",
            vec![
                build_basic_element("len", "int8", 1),
                build_array_element("arr1", "int8", "blah", 1)
            ],
            1
        ))
    );
    assert_eq!(iter.next(), None);
    Ok(())
}

#[test]
fn array_static_len() -> Result<(), CartaError> {
    let tokeniser = Tokeniser::new("struct s {arr1: [int8; 4]}")?;
    let schema = compile_schema(tokeniser)?;
    let mut iter = schema.structs.iter();
    assert_eq!(
        iter.next(),
        Some(&build_struct(
            "s",
            vec![Element {
                name: "arr1".to_string(),
                line_no: 1,
                kind: ElementTypeRef::ArrayElem(ArrayDefn {
                    kind: "int8".to_string(),
                    length: ArrayLen::Static(4),
                }),
            }],
            1
        ))
    );
    assert_eq!(iter.next(), None);
    Ok(())
}

#[test]
fn incomplete_input() {
    let tokeniser = Tokeniser::new("struct s {field_1").unwrap();
    let result = compile_schema(tokeniser);
    assert_eq!(result, Err(CartaError::new_incomplete_input(0)));
}

#[test]
fn test_empty_input() {
    let tokeniser = Tokeniser::new("").unwrap();
    let schema = compile_schema(tokeniser).unwrap();
    let mut iter = schema.structs.iter();
    assert_eq!(iter.next(), None);
}

#[test]
fn test_whitespace_input() {
    let tokeniser = Tokeniser::new("\n  \t\n\n").unwrap();
    let schema = compile_schema(tokeniser).unwrap();
    let mut iter = schema.structs.iter();
    assert_eq!(iter.next(), None);
}
