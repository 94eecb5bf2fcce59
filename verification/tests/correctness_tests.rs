use carta_schema::{ArrayDefn, ArrayLen, CartaError, Element, ElementTypeRef, StructDefn, TSchema,
    Tokeniser, check_schema, compile_schema, type_check_schema};

fn build_schema_with_elem(name: String) -> TSchema {
    TSchema {
        types: vec![StructDefn {
            name,
            line_no: 0,
            elements: Vec::new(),
        }],
    }
}

#[test]
fn correctness_basic_ok() -> Result<(), CartaError> {
    let schema = build_schema_with_elem("root".to_string());
    check_schema(&schema)?;
    Ok(())
}

#[test]
fn no_root() {
    let schema = build_schema_with_elem("notroot".to_string());
    let res = check_schema(&schema);
    assert_eq!(res, Err(CartaError::new_missing_root_element(0)));
}

#[test]
fn bad_arr_len() {
    let mut schema = build_schema_with_elem("root".to_string());
    schema.types.push(StructDefn {
        name: "foo".to_string(),
        line_no: 0,
        elements: vec![Element {
            name: "foo".to_string(),
            line_no: 0,
            kind: ElementTypeRef::ArrayElem(ArrayDefn {
                kind: "int8".to_string(),
                length: ArrayLen::Identifier("unknown".to_string()),
            }),
        }],
    });
    let res = check_schema(&schema);
    assert_eq!(res, Err(CartaError::new_bad_array_len(0, "unknown")));
}

#[test]
fn arr_len_not_builtin() {
    let data =
        "struct root {var1: Version, var2: [uint16_be; var1]} struct Version {major: f64_le}";
    let tokeniser = Tokeniser::new(data).unwrap();
    let schema = compile_schema(tokeniser).unwrap();
    let tschema = type_check_schema(schema).unwrap();
    let res = check_schema(&tschema);
    assert_eq!(res, Err(CartaError::new_bad_array_len_type(0, "var1")));
}

#[test]
fn arr_len_not_integer() {
    let data = "struct root {var1: f32_be, var2: [uint16_le; var1]}";
    let tokeniser = Tokeniser::new(data).unwrap();
    let schema = compile_schema(tokeniser).unwrap();
    let tschema = type_check_schema(schema).unwrap();
    let res = check_schema(&tschema);
    assert_eq!(res, Err(CartaError::new_bad_array_len_type(0, "var1")));
}
