use mutf8::MString;

// What is written and read is the raw MUTF-8: a sequence of bytes.

#[test]
fn test_serialise() {
    let value = MString::from_utf8("Hello, World!".as_bytes()).unwrap();

    let value = (64u64, value.as_mutf8_bytes(), String::new());

    let output = serde_json::to_string(&value).unwrap();
    assert_eq!(
        output,
        r#"[64,[72,101,108,108,111,44,32,87,111,114,108,100,33],""]"#
    );
}

#[test]
fn test_deserialise() {
    let input = r#"[64,[72,101,108,108,111,44,32,87,111,114,108,100,33],""]"#;

    let output: (u64, Vec<u8>, String) = serde_json::from_str(&input).unwrap();

    assert_eq!(
        MString::from_mutf8(output.1),
        MString::from_utf8("Hello, World!".as_bytes()).unwrap()
    );
}

#[test]
fn test_serialise_nul() {
    let value = MString::from_utf8("Hello, \0World!".as_bytes()).unwrap();

    let value = (64u64, value.as_mutf8_bytes(), String::new());

    let output = serde_json::to_string(&value).unwrap();
    assert_eq!(
        output,
        r#"[64,[72,101,108,108,111,44,32,192,128,87,111,114,108,100,33],""]"#
    );
}

#[test]
fn test_deserialise_nul() {
    let input = r#"[64,[72,101,108,108,111,44,32,192,128,87,111,114,108,100,33],""]"#;

    let output: (u64, Vec<u8>, String) = serde_json::from_str(&input).unwrap();

    assert_eq!(
        MString::from_mutf8(output.1),
        MString::from_utf8("Hello, \0World!".as_bytes()).unwrap()
    );
}
