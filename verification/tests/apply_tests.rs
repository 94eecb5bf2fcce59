use carta_schema::{Nugget, apply_schema, compile_schema_file};

#[test]
fn u8_struct() {
    let schema = compile_schema_file("struct root {val1: int8, val2: int8, val3: int8}").unwrap();
    let res = apply_schema(&schema, b"\x00\x01\x02").unwrap();
    assert_eq!(
        res,
        Nugget {
            start: 0,
            len: 3,
            name: "root".to_string(),
            value: None,
            children: vec![
                Nugget {
                    start: 0,
                    len: 1,
                    name: "val1".to_string(),
                    value: Some("0".to_string()),
                    children: Vec::new(),
                },
                Nugget {
                    start: 1,
                    len: 1,
                    name: "val2".to_string(),
                    value: Some("1".to_string()),
                    children: Vec::new(),
                },
                Nugget {
                    start: 2,
                    len: 1,
                    name: "val3".to_string(),
                    value: Some("2".to_string()),
                    children: Vec::new(),
                }
            ],
        }
    );
}

#[test]
fn u8_i16_struct() {
    let schema =
        compile_schema_file("struct root {val1: int8, val2: int16_le, val3: int8}").unwrap();
    let res = apply_schema(&schema, b"\x00\x01\x00\x02").unwrap();
    assert_eq!(
        res,
        Nugget {
            start: 0,
            len: 4,
            name: "root".to_string(),
            value: None,
            children: vec![
                Nugget {
                    start: 0,
                    len: 1,
                    name: "val1".to_string(),
                    value: Some("0".to_string()),
                    children: Vec::new(),
                },
                Nugget {
                    start: 1,
                    len: 2,
                    name: "val2".to_string(),
                    value: Some("1".to_string()),
                    children: Vec::new(),
                },
                Nugget {
                    start: 3,
                    len: 1,
                    name: "val3".to_string(),
                    value: Some("2".to_string()),
                    children: Vec::new(),
                }
            ],
        }
    );
}

#[test]
fn child_structs() {
    let schema =
        compile_schema_file("struct root {version1: Version, version2: Version} struct Version {major: int8, minor: int8}").unwrap();
    let res = apply_schema(&schema, b"\x00\x01\x02\x03").unwrap();
    assert_eq!(
        res,
        Nugget {
            start: 0,
            len: 4,
            name: "root".to_string(),
            value: None,
            children: vec![
                Nugget {
                    start: 0,
                    len: 2,
                    name: "version1".to_string(),
                    value: None,
                    children: vec![
                        Nugget {
                            start: 0,
                            len: 1,
                            name: "major".to_string(),
                            value: Some("0".to_string()),
                            children: Vec::new(),
                        },
                        Nugget {
                            start: 1,
                            len: 1,
                            name: "minor".to_string(),
                            value: Some("1".to_string()),
                            children: Vec::new(),
                        }
                    ]
                },
                Nugget {
                    start: 2,
                    len: 2,
                    name: "version2".to_string(),
                    value: None,
                    children: vec![
                        Nugget {
                            start: 2,
                            len: 1,
                            name: "major".to_string(),
                            value: Some("2".to_string()),
                            children: Vec::new(),
                        },
                        Nugget {
                            start: 3,
                            len: 1,
                            name: "minor".to_string(),
                            value: Some("3".to_string()),
                            children: Vec::new(),
                        }
                    ]
                }
            ]
        }
    );
}

#[test]
fn apply_array() {
    let schema = compile_schema_file("struct root {len: int8, arr: [uint8; len]}").unwrap();
    let res = apply_schema(&schema, b"\x02\x00\x01").unwrap();
    assert_eq!(
        res,
        Nugget {
            start: 0,
            len: 3,
            name: "root".to_string(),
            value: None,
            children: vec![
                Nugget {
                    start: 0,
                    len: 1,
                    name: "len".to_string(),
                    value: Some("2".to_string()),
                    children: Vec::new(),
                },
                Nugget {
                    start: 1,
                    len: 2,
                    name: "arr".to_string(),
                    value: None,
                    children: vec![
                        Nugget {
                            start: 1,
                            len: 1,
                            name: "0".to_string(),
                            value: Some("0".to_string()),
                            children: Vec::new(),
                        },
                        Nugget {
                            start: 2,
                            len: 1,
                            name: "1".to_string(),
                            value: Some("1".to_string()),
                            children: Vec::new(),
                        }
                    ],
                }
            ]
        }
    );

    // Same schema, zero length array
    let res = apply_schema(&schema, b"\x00").unwrap();
    assert_eq!(
        res,
        Nugget {
            start: 0,
            len: 1,
            name: "root".to_string(),
            value: None,
            children: vec![
                Nugget {
                    start: 0,
                    len: 1,
                    name: "len".to_string(),
                    value: Some("0".to_string()),
                    children: Vec::new(),
                },
                Nugget {
                    start: 1,
                    len: 0,
                    name: "arr".to_string(),
                    value: None,
                    children: Vec::new(),
                }
            ]
        }
    );
}

#[test]
fn basic_compile_and_apply() {
    let schema = compile_schema_file("struct root {new_name: int8}").unwrap();
    apply_schema(&schema, b"\x00").unwrap();
}

#[test]
fn all_types() {
    let schema = compile_schema_file(
        "struct root {
                int8: int8,
                be: be,
                le: le
            }
            struct be {
                i_16: int16_be,
                i_32: int32_be,
                i_64: int64_be,
                u_16: uint16_be,
                u_32: uint32_be,
                u_64: uint64_be,
                f_32: f32_be,
                f_64: f64_be,
                arr: [int16_be; i_16]
            }
            struct le {
                int16: int16_le,
                int32: int32_le,
                int64: int64_le,
                uint16: uint16_le,
                uint32: uint32_le,
                uint64: uint64_le,
                f32: f32_le,
                f64: f64_le,
            }
        ",
    )
    .unwrap();
    apply_schema(&schema, &[0; 83]).unwrap();
}

#[test]
fn basic_header_with_text_array() {
    let schema_data = "
        struct root {
            header: Header
        }
        struct Header {
            name: String
        }
        struct String {
            len: int8,
            value: [ascii; len],
        }
    ";
    let schema = compile_schema_file(schema_data).unwrap();

    let bin_data = b"\x04abcd";
    let nugget = apply_schema(&schema, bin_data).unwrap();
    assert_eq!(
        nugget,
        Nugget {
            start: 0,
            len: 5,
            name: "root".to_string(),
            value: None,
            children: vec![Nugget {
                start: 0,
                len: 5,
                name: "header".to_string(),
                value: None,
                children: vec![Nugget {
                    start: 0,
                    len: 5,
                    name: "name".to_string(),
                    value: None,
                    children: vec![
                        Nugget {
                            start: 0,
                            len: 1,
                            name: "len".to_string(),
                            value: Some("4".to_string()),
                            children: Vec::new(),
                        },
                        Nugget {
                            start: 1,
                            len: 4,
                            name: "value".to_string(),
                            value: None,
                            children: vec![
                                Nugget {
                                    start: 1,
                                    len: 1,
                                    name: "0".to_string(),
                                    value: Some("a".to_string()),
                                    children: Vec::new(),
                                },
                                Nugget {
                                    start: 2,
                                    len: 1,
                                    name: "1".to_string(),
                                    value: Some("b".to_string()),
                                    children: Vec::new(),
                                },
                                Nugget {
                                    start: 3,
                                    len: 1,
                                    name: "2".to_string(),
                                    value: Some("c".to_string()),
                                    children: Vec::new(),
                                },
                                Nugget {
                                    start: 4,
                                    len: 1,
                                    name: "3".to_string(),
                                    value: Some("d".to_string()),
                                    children: Vec::new(),
                                },
                            ],
                        },
                    ]
                }]
            }]
        }
    );
}
