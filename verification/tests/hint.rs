use kona_client::hint::{Hint, HintParsingError, HintType};

const ALL: [(HintType, &str); 15] = [
    (HintType::L1BlockHeader, "l1-block-header"),
    (HintType::L1Transactions, "l1-transactions"),
    (HintType::L1Receipts, "l1-receipts"),
    (HintType::L1Blob, "l1-blob"),
    (HintType::L1Precompile, "l1-precompile"),
    (HintType::L2BlockHeader, "l2-block-header"),
    (HintType::L2Transactions, "l2-transactions"),
    (HintType::L2Receipts, "l2-receipts"),
    (HintType::L2Code, "l2-code"),
    (HintType::AgreedPreState, "agreed-pre-state"),
    (HintType::L2OutputRoot, "l2-output-root"),
    (HintType::L2StateNode, "l2-state-node"),
    (HintType::L2AccountProof, "l2-account-proof"),
    (HintType::L2AccountStorageProof, "l2-account-storage-proof"),
    (HintType::L2PayloadWitness, "l2-payload-witness"),
];

#[test]
fn hint_type_names_round_trip() {
    for (hint_type, name) in ALL {
        assert_eq!(hint_type.as_str(), name);
        assert_eq!(hint_type.to_string(), name);
        assert_eq!(<&str>::from(hint_type), name);
        assert_eq!(HintType::try_from(name), Ok(hint_type));
    }
}

#[test]
fn hint_type_unknown_name_is_the_error() {
    assert_eq!(
        HintType::try_from("l3-block-header"),
        Err(HintParsingError("l3-block-header".to_string()))
    );
    assert_eq!(HintType::try_from(""), Err(HintParsingError(String::new())));
    assert_eq!(
        HintType::try_from("L1-BLOB"),
        Err(HintParsingError("L1-BLOB".to_string()))
    );
}

#[test]
fn parse_reads_type_and_data() {
    let hint = Hint::parse("l1-block-header 00ff10ab").unwrap();
    assert_eq!(hint.hint_type, HintType::L1BlockHeader);
    assert_eq!(hint.hint_data, vec![0x00, 0xff, 0x10, 0xab]);
    let (hint_type, data) = hint.split();
    assert_eq!(hint_type, HintType::L1BlockHeader);
    assert_eq!(data, vec![0x00, 0xff, 0x10, 0xab]);
}

#[test]
fn parse_accepts_empty_data() {
    let hint = Hint::parse("l2-code ").unwrap();
    assert_eq!(hint.hint_type, HintType::L2Code);
    assert!(hint.hint_data.is_empty());
}

#[test]
fn parse_missing_data_is_invalid_format() {
    assert_eq!(
        Hint::parse("l1-blob"),
        Err(HintParsingError("Invalid hint format: l1-blob".to_string()))
    );
}

#[test]
fn parse_two_spaces_is_invalid_format() {
    assert_eq!(
        Hint::parse("l1-blob 00 11"),
        Err(HintParsingError("Invalid hint format: l1-blob 00 11".to_string()))
    );
    assert_eq!(
        Hint::parse("l1-blob  00"),
        Err(HintParsingError("Invalid hint format: l1-blob  00".to_string()))
    );
    assert_eq!(
        Hint::parse(""),
        Err(HintParsingError("Invalid hint format: ".to_string()))
    );
}

#[test]
fn parse_unknown_type_is_the_token() {
    assert_eq!(
        Hint::parse("l9-blob 00"),
        Err(HintParsingError("l9-blob".to_string()))
    );
    assert_eq!(Hint::parse(" 00"), Err(HintParsingError(String::new())));
    assert_eq!(
        Hint::parse("caf\u{e9} 00"),
        Err(HintParsingError("caf\u{e9}".to_string()))
    );
}

#[test]
fn parse_bad_data_is_the_codec_message() {
    assert_eq!(
        Hint::parse("l1-blob 0"),
        Err(HintParsingError("odd number of digits".to_string()))
    );
    assert_eq!(
        Hint::parse("l1-blob 0g"),
        Err(HintParsingError("invalid character 'g' at position 1".to_string()))
    );
    assert_eq!(
        Hint::parse("l1-blob zz00"),
        Err(HintParsingError("invalid character 'z' at position 0".to_string()))
    );
}

#[test]
fn parse_refuses_prefix_and_uppercase() {
    assert_eq!(
        Hint::parse("l1-blob 0xab"),
        Err(HintParsingError("Invalid hint format: l1-blob 0xab".to_string()))
    );
    assert_eq!(
        Hint::parse("l1-blob AB"),
        Err(HintParsingError("Invalid hint format: l1-blob AB".to_string()))
    );
    assert_eq!(
        Hint::parse("l1-blob 0x"),
        Err(HintParsingError("Invalid hint format: l1-blob 0x".to_string()))
    );
}

#[test]
fn encode_with_joins_the_parts() {
    let text = HintType::L1Precompile.encode_with(&[&[0x01, 0x02], &[], &[0xab, 0xcd, 0xef]]);
    assert_eq!(text, "l1-precompile 0102abcdef");
    assert_eq!(HintType::L2Code.encode_with(&[]), "l2-code ");
    assert_eq!(HintType::L1Blob.encode_with(&[&[0x00, 0x0f, 0xf0]]), "l1-blob 000ff0");
}

#[test]
fn parse_inverts_encode_with() {
    let data: Vec<u8> = (0u16..=255).map(|b| b as u8).collect();
    for (hint_type, _) in ALL {
        let text = hint_type.encode_with(&[&data[..100], &data[100..]]);
        let hint = Hint::parse(&text).unwrap();
        assert_eq!(hint, Hint { hint_type, hint_data: data.clone() });
    }
}
