use carta_schema::{CartaError, CartaErrorCode, Nugget, TokenType, Tokeniser, apply_schema,
    compile_schema_file, get_value, is_builtin_type, is_type_class, BuiltinTypeClass};
use std::fmt::Debug;

fn compare_vec_unordered<T: PartialEq + Debug>(a: Vec<T>, b: Vec<T>) {
    if a.len() != b.len() {
        panic!("{:?} != {:?}", &a, &b);
    }
    for elem in &a {
        if !b.contains(elem) {
            panic!("{:?} != {:?}", a, b);
        }
    }
}

fn leaf_value(schema_text: &str, data: &[u8]) -> String {
    let schema = compile_schema_file(schema_text).unwrap();
    let tree = apply_schema(&schema, data).unwrap();
    tree.children[0].value.as_ref().unwrap().clone()
}

#[test]
fn recursive_embedding_rejected() {
    let res = compile_schema_file("struct root {a: T1} struct T1 {b: T2} struct T2 {c: T1}");
    if let Err(CartaError {
        line_no: 1,
        code: CartaErrorCode::RecursiveTypes(data),
    }) = res
    {
        // root embeds T1, so it cannot resolve either.
        compare_vec_unordered(
            data,
            vec!["root".to_string(), "T1".to_string(), "T2".to_string()],
        )
    } else {
        panic!("Unexpected value: {:?}", res);
    }
}

#[test]
fn array_len_float_rejected() {
    let res = compile_schema_file("struct root {len: f32_be, arr: [uint16_le; len]}");
    assert_eq!(res.unwrap_err(), CartaError::new_bad_array_len_type(0, "len"));
}

#[test]
fn missing_root_rejected() {
    let res = compile_schema_file("struct not_root {val: int8}");
    assert_eq!(res.unwrap_err(), CartaError::new_missing_root_element(0));
}

#[test]
fn digit_led_name_rejected_by_parser() {
    let res = compile_schema_file("struct 1abc {}");
    assert_eq!(
        res.unwrap_err(),
        CartaError::new_parse_error(1, "<name>", "1".to_string())
    );
}

#[test]
fn int8_negative_one() {
    assert_eq!(leaf_value("struct root {v: int8}", b"\xff"), "-1");
}

#[test]
fn int16_be_most_negative() {
    assert_eq!(leaf_value("struct root {v: int16_be}", b"\x80\x00"), "-32768");
}

#[test]
fn int32_le_max() {
    assert_eq!(
        leaf_value("struct root {v: int32_le}", b"\xff\xff\xff\x7f"),
        "2147483647"
    );
}

#[test]
fn uint64_le_max() {
    assert_eq!(
        leaf_value("struct root {v: uint64_le}", b"\xff\xff\xff\xff\xff\xff\xff\xff"),
        "18446744073709551615"
    );
}

#[test]
fn uint16_endianness() {
    assert_eq!(leaf_value("struct root {v: uint16_le}", b"\x01\x02"), "513");
    assert_eq!(leaf_value("struct root {v: uint16_be}", b"\x01\x02"), "258");
}

#[test]
fn ascii_byte() {
    assert_eq!(leaf_value("struct root {v: ascii}", b"\x41"), "A");
}

#[test]
fn f32_le_two_and_a_half() {
    assert_eq!(leaf_value("struct root {v: f32_le}", b"\x00\x00\x20\x40"), "2.5");
}

#[test]
fn f32_le_one() {
    assert_eq!(leaf_value("struct root {v: f32_le}", b"\x00\x00\x80\x3f"), "1");
}

#[test]
fn f32_le_zero_and_negative_zero() {
    assert_eq!(leaf_value("struct root {v: f32_le}", b"\x00\x00\x00\x00"), "0");
    assert_eq!(leaf_value("struct root {v: f32_le}", b"\x00\x00\x00\x80"), "-0");
}

#[test]
fn f32_le_tenth_exact_expansion() {
    // The bit pattern nearest one tenth decodes to its exact decimal value.
    assert_eq!(
        leaf_value("struct root {v: f32_le}", b"\xcd\xcc\xcc\x3d"),
        "0.100000001490116119384765625"
    );
}

#[test]
fn f32_nonfinite() {
    assert_eq!(leaf_value("struct root {v: f32_le}", b"\x00\x00\xc0\x7f"), "NaN");
    assert_eq!(leaf_value("struct root {v: f32_le}", b"\x00\x00\x80\x7f"), "inf");
    assert_eq!(leaf_value("struct root {v: f32_le}", b"\x00\x00\x80\xff"), "-inf");
}

#[test]
fn f64_be_one_and_a_half() {
    assert_eq!(
        leaf_value("struct root {v: f64_be}", b"\x3f\xf8\x00\x00\x00\x00\x00\x00"),
        "1.5"
    );
}

#[test]
fn f64_le_negative_quarter() {
    assert_eq!(
        leaf_value("struct root {v: f64_le}", b"\x00\x00\x00\x00\x00\x00\xd0\xbf"),
        "-0.25"
    );
}

#[test]
fn truncated_input_reported() {
    let schema = compile_schema_file("struct root {v: int32_le}").unwrap();
    let res = apply_schema(&schema, b"\x00\x01");
    assert_eq!(res.unwrap_err(), CartaError::new_truncated_input(0));
}

#[test]
fn static_array_applied() {
    let schema = compile_schema_file("struct root {arr: [uint8; 3]}").unwrap();
    let tree = apply_schema(&schema, b"\x07\x08\x09").unwrap();
    let arr = &tree.children[0];
    assert_eq!(arr.len, 3);
    assert_eq!(arr.children.len(), 3);
    assert_eq!(arr.children[2].name, "2".to_string());
    assert_eq!(arr.children[2].value, Some("9".to_string()));

    let res = apply_schema(&schema, b"\x07");
    assert_eq!(res.unwrap_err(), CartaError::new_truncated_input(0));
}

#[test]
fn negative_array_length_rejected() {
    let schema = compile_schema_file("struct root {len: int8, arr: [uint8; len]}").unwrap();
    let res = apply_schema(&schema, b"\xff");
    assert_eq!(res.unwrap_err(), CartaError::new_bad_array_len(0, "len"));
}

#[test]
fn builtin_registry() {
    assert!(is_builtin_type("int8"));
    assert!(is_builtin_type("f64_be"));
    assert!(is_builtin_type("ascii"));
    assert!(!is_builtin_type("int128"));
    assert!(is_type_class("uint32_le", BuiltinTypeClass::Integer));
    assert!(is_type_class("f32_le", BuiltinTypeClass::Float));
    assert!(is_type_class("ascii", BuiltinTypeClass::Text));
    assert!(!is_type_class("f32_le", BuiltinTypeClass::Integer));
    assert!(!is_type_class("unknown", BuiltinTypeClass::Integer));
}

#[test]
fn get_value_decodes() {
    let r = get_value(b"\x2a", "uint8");
    assert_eq!(r, Some((1, "42".to_string())));
    let r = get_value(b"\x01\x02\x03\x04", "uint32_be");
    assert_eq!(r, Some((4, "16909060".to_string())));
    let r = get_value(b"\x00", "no_such_type");
    assert_eq!(r, None);
}

#[test]
fn coverage_is_contiguous() {
    // Leaf spans tile the input: each child starts where the last ended
    // and the lengths sum to the root's length.
    let schema = compile_schema_file(
        "struct root {a: int16_le, b: Pair, c: int8} struct Pair {x: uint8, y: uint8}",
    )
    .unwrap();
    let tree = apply_schema(&schema, b"\x01\x02\x03\x04\x05").unwrap();
    assert_eq!(tree.len, 5);
    let mut pos = 0usize;
    let mut total = 0usize;
    fn walk(n: &Nugget, pos: &mut usize, total: &mut usize) {
        if n.value.is_some() {
            assert_eq!(n.start, *pos);
            *pos += n.len;
            *total += n.len;
        } else {
            let mut sum = 0usize;
            for c in &n.children {
                sum += c.len;
                walk(c, pos, total);
            }
            assert_eq!(n.len, sum);
        }
    }
    walk(&tree, &mut pos, &mut total);
    assert_eq!(total, 5);
}

#[test]
fn apply_is_deterministic() {
    let text = "struct root {len: int8, arr: [uint8; len]}";
    let s1 = compile_schema_file(text).unwrap();
    let s2 = compile_schema_file(text).unwrap();
    let r1 = apply_schema(&s1, b"\x02\x09\x08").unwrap();
    let r2 = apply_schema(&s2, b"\x02\x09\x08").unwrap();
    assert_eq!(r1, r2);
}

#[test]
fn unexpected_symbol_variant() {
    let res = compile_schema_file("/-");
    assert_eq!(
        res.unwrap_err(),
        CartaError::new_unexpected_symbol(0, "* or /", '-')
    );
}

#[test]
fn unknown_symbol_variant() {
    let res = compile_schema_file("struct root {v: int8} %");
    assert_eq!(res.unwrap_err(), CartaError::new_unknown_symbol(0, '%'));
}

#[test]
fn duplicate_struct_rejected() {
    let res = compile_schema_file("struct root {v: int8}\nstruct root {w: int8}");
    assert_eq!(
        res.unwrap_err(),
        CartaError::new_duplicate_type(2, "root".to_string())
    );
}

#[test]
fn unknown_type_rejected() {
    let res = compile_schema_file("struct root {v: mystery}");
    assert_eq!(
        res.unwrap_err(),
        CartaError::new_unknown_type(1, "mystery".to_string())
    );
}

#[test]
fn token_accessors() {
    let tok = Tokeniser::new("abc: [2]").unwrap();
    {
        let toks = tok.iter();
        assert_eq!(toks.len(), 5);
        assert_eq!(toks[0].value(), "abc");
        assert_eq!(toks[1].value(), ":");
    }
    let toks = tok.into_iter();
    assert_eq!(toks[3].kind, TokenType::Integer);
    assert_eq!(toks[3].clone().get_int(), 2);
    assert_eq!(toks[0].clone().get_string(), "abc".to_string());
}
