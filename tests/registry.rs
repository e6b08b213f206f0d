use tt::format::{same_text, Format, UnsupportedFormat};

#[test]
fn names_resolve_in_both_cases() {
    assert_eq!(Format::from_str("json"), Ok(Format::Json { pretty: true }));
    assert_eq!(Format::from_str("JSON"), Ok(Format::Json { pretty: true }));
    assert_eq!(Format::from_str("yaml"), Ok(Format::Yaml));
    assert_eq!(Format::from_str("TOML"), Ok(Format::Toml { pretty: true }));
    assert_eq!(Format::from_str("toml"), Ok(Format::Toml { pretty: true }));
    assert_eq!(Format::from_str("MSGPACK"), Ok(Format::MsgPack));
    assert_eq!(Format::from_str("pickle"), Ok(Format::Pickle));
    assert_eq!(Format::from_str("RON"), Ok(Format::Ron));
    assert_eq!(Format::from_str("cbor"), Ok(Format::Cbor));
    assert_eq!(Format::from_str("CBOR"), Ok(Format::Cbor));
    assert_eq!(Format::from_str("url"), Ok(Format::Url));
    assert_eq!(Format::from_str("URL"), Ok(Format::Url));
}

#[test]
fn unknown_name_is_rejected() {
    assert_eq!(
        Format::from_str("xml"),
        Err(UnsupportedFormat { given_name: "xml".to_string() })
    );
    assert_eq!(
        Format::from_str("Json"),
        Err(UnsupportedFormat { given_name: "Json".to_string() })
    );
    assert_eq!(
        Format::from_str("TOML "),
        Err(UnsupportedFormat { given_name: "TOML ".to_string() })
    );
    assert!(Format::from_str("").is_err());
}

#[test]
fn text_comparison() {
    assert!(same_text("abc", "abc"));
    assert!(!same_text("abc", "abd"));
    assert!(!same_text("abc", "ab"));
    assert!(same_text("", ""));
}

#[test]
fn toml_holds_signed_64_bit_integers_only() {
    let caps = Format::Toml { pretty: true }.capabilities();
    assert_eq!(caps.int_max, i64::MAX as i128);
    assert_eq!(caps.int_min, i64::MIN as i128);
    assert!(!caps.null);
    assert!(caps.string_keys);
    assert!(!Format::Yaml.capabilities().string_keys);
    let json = Format::Json { pretty: false }.capabilities();
    assert_eq!(json.int_max, u64::MAX as i128);
}
