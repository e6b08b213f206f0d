use tt::engine::{check_input, decimal_text, transcode_tokens, Capabilities, Engine, TranscodeError};
use tt::format::Format;
use tt::token::{Shape, Token};

fn signed(v: i128) -> Token {
    Token::Integer { value: v, signed: true, width: 64 }
}

fn s(x: &str) -> Token {
    Token::Str(x.to_string())
}

fn json_example() -> Vec<Token> {
    vec![
        Token::MapStart(Some(2)),
        s("a"),
        signed(1),
        s("b"),
        Token::SeqStart(Some(3)),
        Token::Bool(true),
        Token::Null,
        s("x"),
        Token::SeqEnd,
        Token::MapEnd,
    ]
}

fn depth_walk(ts: &[Token]) -> Option<i64> {
    let mut d: i64 = 0;
    for t in ts {
        match t.shape() {
            Shape::Open => d += 1,
            Shape::Close => d -= 1,
            _ => {}
        }
        if d < 0 {
            return None;
        }
    }
    Some(d)
}

#[test]
fn json_document_to_yaml_keeps_structure() {
    let caps = Format::Yaml.capabilities();
    let out = transcode_tokens(json_example(), caps, 64).unwrap();
    assert_eq!(out, json_example());
}

#[test]
fn output_is_balanced() {
    let doc = vec![
        Token::StructStart { name: "P".to_string(), fields: 1 },
        s("v"),
        Token::VariantStart { name: "E".to_string(), variant: "A".to_string() },
        Token::Bytes(vec![1, 2]),
        Token::VariantEnd,
        Token::StructEnd,
    ];
    let out = transcode_tokens(doc, Format::Json { pretty: true }.capabilities(), 64).unwrap();
    assert_eq!(depth_walk(&out), Some(0));
    let opens = out.iter().filter(|t| t.shape() == Shape::Open).count();
    let closes = out.iter().filter(|t| t.shape() == Shape::Close).count();
    assert_eq!(opens, 3);
    assert_eq!(opens, closes);
}

#[test]
fn second_pass_is_a_fixed_point() {
    let doc = vec![
        Token::SeqStart(None),
        Token::OptionSome,
        signed(5),
        Token::OptionNone,
        Token::UnitVariant { name: "E".to_string(), variant: "B".to_string() },
        Token::Bytes(vec![9]),
        Token::SeqEnd,
    ];
    let caps = Format::Json { pretty: true }.capabilities();
    let once = transcode_tokens(doc, caps, 8).unwrap();
    let twice = transcode_tokens(once.clone(), caps, 8).unwrap();
    assert_eq!(once, twice);
    assert_eq!(
        once,
        vec![
            Token::SeqStart(None),
            signed(5),
            Token::Null,
            s("B"),
            Token::SeqStart(Some(1)),
            Token::Integer { value: 9, signed: false, width: 8 },
            Token::SeqEnd,
            Token::SeqEnd,
        ]
    );
}

#[test]
fn bytes_degrade_the_same_way_every_run() {
    let caps = Format::Yaml.capabilities();
    let a = transcode_tokens(vec![Token::Bytes(vec![0, 255])], caps, 4).unwrap();
    let b = transcode_tokens(vec![Token::Bytes(vec![0, 255])], caps, 4).unwrap();
    assert_eq!(a, b);
    assert_eq!(
        a,
        vec![
            Token::SeqStart(Some(2)),
            Token::Integer { value: 0, signed: false, width: 8 },
            Token::Integer { value: 255, signed: false, width: 8 },
            Token::SeqEnd,
        ]
    );
    let kept = transcode_tokens(vec![Token::Bytes(vec![0, 255])], Format::MsgPack.capabilities(), 4);
    assert_eq!(kept, Ok(vec![Token::Bytes(vec![0, 255])]));
}

#[test]
fn wide_integer_into_toml() {
    let caps = Format::Toml { pretty: true }.capabilities();
    let doc = vec![Token::MapStart(None), s("n"), signed(1 << 40), Token::MapEnd];
    assert_eq!(transcode_tokens(doc.clone(), caps, 8), Ok(doc));
    let too_wide = vec![
        Token::MapStart(None),
        s("n"),
        Token::Integer { value: u64::MAX as i128, signed: false, width: 64 },
        Token::MapEnd,
    ];
    assert_eq!(transcode_tokens(too_wide, caps, 8), Err(TranscodeError::NumericRange));
}

#[test]
fn empty_document_is_rejected() {
    let caps = Format::Json { pretty: true }.capabilities();
    assert_eq!(transcode_tokens(vec![], caps, 8), Err(TranscodeError::EmptyDocument));
}

#[test]
fn truncated_document_is_rejected() {
    let caps = Format::Json { pretty: true }.capabilities();
    let doc = vec![Token::MapStart(None), s("a")];
    assert_eq!(transcode_tokens(doc, caps, 8), Err(TranscodeError::UnbalancedStructure));
    assert_eq!(
        transcode_tokens(vec![Token::OptionSome], caps, 8),
        Err(TranscodeError::UnbalancedStructure)
    );
}

#[test]
fn close_at_depth_zero_is_rejected() {
    let caps = Format::Json { pretty: true }.capabilities();
    assert_eq!(
        transcode_tokens(vec![Token::SeqEnd], caps, 8),
        Err(TranscodeError::UnbalancedStructure)
    );
}

#[test]
fn token_after_root_is_rejected() {
    let caps = Format::Json { pretty: true }.capabilities();
    let doc = vec![signed(1), signed(2)];
    assert_eq!(transcode_tokens(doc, caps, 8), Err(TranscodeError::TrailingData));
}

#[test]
fn nesting_limit() {
    let caps = Format::Json { pretty: true }.capabilities();
    let doc = vec![Token::SeqStart(None), Token::SeqStart(None), Token::SeqEnd, Token::SeqEnd];
    assert_eq!(transcode_tokens(doc.clone(), caps, 2), Ok(doc.clone()));
    assert_eq!(transcode_tokens(doc, caps, 1), Err(TranscodeError::NestingTooDeep));
    assert_eq!(
        transcode_tokens(vec![Token::Bytes(vec![1])], caps, 0),
        Err(TranscodeError::NestingTooDeep)
    );
}

#[test]
fn null_into_toml_is_unrepresentable() {
    let caps = Format::Toml { pretty: true }.capabilities();
    assert_eq!(transcode_tokens(vec![Token::Null], caps, 8), Err(TranscodeError::Unrepresentable));
    assert_eq!(
        transcode_tokens(vec![Token::OptionNone], caps, 8),
        Err(TranscodeError::Unrepresentable)
    );
}

#[test]
fn ron_keeps_structs_variants_and_options() {
    let caps = Format::Ron.capabilities();
    let doc = vec![
        Token::StructStart { name: "P".to_string(), fields: 1 },
        s("v"),
        Token::OptionSome,
        Token::VariantStart { name: "E".to_string(), variant: "A".to_string() },
        Token::Float { bits: 0x4000000000000000, width: 64 },
        Token::VariantEnd,
        Token::StructEnd,
    ];
    assert_eq!(transcode_tokens(doc.clone(), caps, 8), Ok(doc));
}

#[test]
fn variant_becomes_one_entry_map() {
    let caps = Format::MsgPack.capabilities();
    let doc = vec![
        Token::VariantStart { name: "E".to_string(), variant: "A".to_string() },
        Token::Bool(false),
        Token::VariantEnd,
    ];
    assert_eq!(
        transcode_tokens(doc, caps, 8),
        Ok(vec![Token::MapStart(Some(1)), s("A"), Token::Bool(false), Token::MapEnd])
    );
}

#[test]
fn streaming_engine_step_by_step() {
    let caps = Capabilities {
        null: true,
        bytes: false,
        option: false,
        structs: false,
        variants: false,
        string_keys: false,
        int_min: 0,
        int_max: 255,
    };
    let mut e = Engine::new(caps, 4);
    assert_eq!(e.finish(), Err(TranscodeError::EmptyDocument));
    assert_eq!(e.push(Token::SeqStart(None)), Ok(vec![Token::SeqStart(None)]));
    assert_eq!(e.depth(), 1);
    assert_eq!(e.push(signed(300)), Err(TranscodeError::NumericRange));
    assert_eq!(e.depth(), 1);
    assert_eq!(e.finish(), Err(TranscodeError::UnbalancedStructure));
    assert_eq!(e.push(signed(-1)), Err(TranscodeError::NumericRange));
    assert_eq!(e.push(signed(7)), Ok(vec![signed(7)]));
    assert_eq!(e.push(Token::SeqEnd), Ok(vec![Token::SeqEnd]));
    assert!(e.done);
    assert_eq!(e.finish(), Ok(()));
    assert_eq!(e.push(Token::Null), Err(TranscodeError::TrailingData));
}

#[test]
fn close_of_another_kind_is_rejected() {
    let caps = Format::Json { pretty: true }.capabilities();
    let doc = vec![Token::SeqStart(None), signed(1), Token::MapEnd];
    assert_eq!(transcode_tokens(doc, caps, 8), Err(TranscodeError::UnbalancedStructure));
    let doc = vec![
        Token::StructStart { name: "P".to_string(), fields: 0 },
        Token::VariantEnd,
    ];
    assert_eq!(transcode_tokens(doc, caps, 8), Err(TranscodeError::UnbalancedStructure));
}

#[test]
fn duplicate_keys_pass_through() {
    let caps = Format::Yaml.capabilities();
    let doc = vec![Token::MapStart(Some(2)), s("k"), signed(1), s("k"), signed(2), Token::MapEnd];
    assert_eq!(transcode_tokens(doc.clone(), caps, 8), Ok(doc));
}

#[test]
fn non_string_keys_become_text_for_json() {
    let caps = Format::Json { pretty: true }.capabilities();
    let doc = vec![
        Token::MapStart(Some(4)),
        signed(42),
        Token::Bool(true),
        signed(-7),
        Token::Null,
        Token::Bool(false),
        s("v"),
        Token::Integer { value: i128::MIN, signed: true, width: 128 },
        signed(0),
        Token::MapEnd,
    ];
    assert_eq!(
        transcode_tokens(doc, caps, 8),
        Ok(vec![
            Token::MapStart(Some(4)),
            s("42"),
            Token::Bool(true),
            s("-7"),
            Token::Null,
            s("false"),
            s("v"),
            s("-170141183460469231731687303715884105728"),
            signed(0),
            Token::MapEnd,
        ])
    );
}

#[test]
fn decimal_rendering() {
    assert_eq!(decimal_text(0), "0");
    assert_eq!(decimal_text(10), "10");
    assert_eq!(decimal_text(-305), "-305");
    assert_eq!(decimal_text(i128::MAX), "170141183460469231731687303715884105727");
}

#[test]
fn yaml_keeps_integer_keys() {
    let caps = Format::Yaml.capabilities();
    let doc = vec![Token::MapStart(None), signed(1), s("one"), Token::MapEnd];
    assert_eq!(transcode_tokens(doc.clone(), caps, 8), Ok(doc));
}

#[test]
fn container_key_is_unrepresentable_for_json() {
    let caps = Format::Json { pretty: true }.capabilities();
    let doc = vec![Token::MapStart(None), Token::SeqStart(None), Token::SeqEnd, signed(1), Token::MapEnd];
    assert_eq!(transcode_tokens(doc, caps, 8), Err(TranscodeError::Unrepresentable));
    let doc = vec![Token::MapStart(None), Token::Bytes(vec![1]), signed(1), Token::MapEnd];
    assert_eq!(transcode_tokens(doc, caps, 8), Err(TranscodeError::Unrepresentable));
}

#[test]
fn key_without_value_is_rejected() {
    let caps = Format::Yaml.capabilities();
    let doc = vec![Token::MapStart(None), s("k"), Token::MapEnd];
    assert_eq!(transcode_tokens(doc, caps, 8), Err(TranscodeError::UnbalancedStructure));
}

#[test]
fn variant_holds_one_payload() {
    let caps = Format::Ron.capabilities();
    let doc = vec![
        Token::VariantStart { name: "E".to_string(), variant: "A".to_string() },
        signed(1),
        signed(2),
        Token::VariantEnd,
    ];
    assert_eq!(transcode_tokens(doc, caps, 8), Err(TranscodeError::UnbalancedStructure));
    let empty = vec![
        Token::VariantStart { name: "E".to_string(), variant: "A".to_string() },
        Token::VariantEnd,
    ];
    assert_eq!(transcode_tokens(empty, caps, 8), Err(TranscodeError::UnbalancedStructure));
}

#[test]
fn null_key_becomes_text_for_json() {
    let caps = Format::Json { pretty: true }.capabilities();
    let doc = vec![Token::MapStart(None), Token::Null, signed(1), Token::MapEnd];
    assert_eq!(
        transcode_tokens(doc, caps, 8),
        Ok(vec![Token::MapStart(None), s("null"), signed(1), Token::MapEnd])
    );
}

#[test]
fn zero_bytes_are_an_empty_document() {
    assert_eq!(check_input(0), Err(TranscodeError::EmptyDocument));
    assert_eq!(check_input(1), Ok(()));
}

#[test]
fn toml_table_with_wide_integer_into_url() {
    let caps = Format::Url.capabilities();
    let doc = vec![Token::MapStart(Some(1)), s("n"), signed(5_000_000_000), Token::MapEnd];
    assert_eq!(transcode_tokens(doc.clone(), caps, 8), Ok(doc));
    let too_wide = vec![
        Token::MapStart(Some(1)),
        s("n"),
        Token::Integer { value: 1i128 << 70, signed: true, width: 128 },
        Token::MapEnd,
    ];
    assert_eq!(transcode_tokens(too_wide, caps, 8), Err(TranscodeError::NumericRange));
}

#[test]
fn extent_of_front_value() {
    let doc = json_example();
    assert_eq!(tt::token::value_extent(&doc), Some(10));
    assert_eq!(tt::token::value_extent(&doc[1..]), Some(1));
    assert_eq!(tt::token::value_extent(&doc[4..]), Some(5));
    assert_eq!(tt::token::value_extent(&[Token::OptionSome, signed(3)]), Some(2));
    assert_eq!(tt::token::value_extent(&doc[..3]), None);
    assert_eq!(tt::token::value_extent(&[Token::SeqEnd]), None);
    assert_eq!(tt::token::value_extent(&[]), None);
}
