use anchor_accounts::account::Pubkey;
use anchor_accounts::codec::{
    check_discriminators_unique, decode, decode_unchecked, encode, AccountTypeDescriptor, CodecMode, FieldKind, Scalar,
};
use anchor_accounts::error::AccountError;

fn counter_type() -> AccountTypeDescriptor {
    AccountTypeDescriptor {
        name: "Counter".to_string(),
        discriminator: vec![1, 2, 3, 4, 5, 6, 7, 8],
        mode: CodecMode::TaggedVariableLength,
        layout: vec![FieldKind::U64],
        enums: vec![],
    }
}

fn record_type() -> AccountTypeDescriptor {
    AccountTypeDescriptor {
        name: "Record".to_string(),
        discriminator: vec![9, 9, 9, 9, 9, 9, 9, 9],
        mode: CodecMode::TaggedVariableLength,
        layout: vec![FieldKind::U64, FieldKind::Bool, FieldKind::Key, FieldKind::Bytes, FieldKind::U8],
        enums: vec![],
    }
}

fn plain_type() -> AccountTypeDescriptor {
    AccountTypeDescriptor {
        name: "Plain".to_string(),
        discriminator: vec![7, 7, 7, 7, 7, 7, 7, 7],
        mode: CodecMode::FixedLayoutPlainData,
        layout: vec![FieldKind::U64, FieldKind::U8],
        enums: vec![],
    }
}

#[test]
fn counter_encodes_to_exact_bytes() {
    let mut buf = vec![0u8; 20];
    encode(&counter_type(), &vec![Scalar::U64(0x0102)], &mut buf).unwrap();
    assert_eq!(buf, vec![1, 2, 3, 4, 5, 6, 7, 8, 2, 1, 0, 0, 0, 0, 0, 0, 0, 0, 0, 0]);
}

#[test]
fn record_bytes_field_has_length_prefix() {
    let d = AccountTypeDescriptor {
        name: "Blob".to_string(),
        discriminator: vec![4],
        mode: CodecMode::TaggedVariableLength,
        layout: vec![FieldKind::Bytes, FieldKind::Bool],
        enums: vec![],
    };
    let mut buf = vec![0xAAu8; 10];
    encode(&d, &vec![Scalar::Bytes(vec![5, 6]), Scalar::Bool(true)], &mut buf).unwrap();
    assert_eq!(buf, vec![4, 2, 0, 0, 0, 5, 6, 1, 0xAA, 0xAA]);
}

#[test]
fn tagged_round_trip() {
    let d = record_type();
    let vals = vec![
        Scalar::U64(u64::MAX - 3),
        Scalar::Bool(true),
        Scalar::Key(Pubkey::new(0x1234, u128::MAX)),
        Scalar::Bytes(vec![1, 2, 3]),
        Scalar::U8(200),
    ];
    let mut buf = vec![0u8; 128];
    encode(&d, &vals, &mut buf).unwrap();
    assert_eq!(decode(&d, &buf).unwrap(), vals);
}

#[test]
fn plain_round_trip() {
    let d = plain_type();
    let vals = vec![Scalar::U64(77), Scalar::U8(3)];
    let mut buf = vec![0u8; 17];
    encode(&d, &vals, &mut buf).unwrap();
    assert_eq!(decode(&d, &buf).unwrap(), vals);
}

#[test]
fn plain_wrong_length_is_refused() {
    let d = plain_type();
    let mut buf = vec![0u8; 18];
    encode(&d, &vec![Scalar::U64(77), Scalar::U8(3)], &mut buf).unwrap();
    assert_eq!(decode(&d, &buf), Err(AccountError::AccountDidNotDeserialize));
    assert_eq!(decode_unchecked(&d, &buf[8..17]).unwrap(), vec![Scalar::U64(77), Scalar::U8(3)]);
}

#[test]
fn short_buffer_has_no_discriminator() {
    let d = counter_type();
    assert_eq!(decode(&d, &[1, 2, 3]), Err(AccountError::AccountDiscriminatorNotFound));
    assert_eq!(decode(&d, &[]), Err(AccountError::AccountDiscriminatorNotFound));
}

#[test]
fn foreign_discriminator_names_type() {
    let d = counter_type();
    let buf = [0xFFu8; 8];
    assert_eq!(
        decode(&d, &buf),
        Err(AccountError::AccountDiscriminatorMismatch { account_type: "Counter".to_string() })
    );
    let mut longer = vec![0xFFu8; 8];
    longer.extend_from_slice(&[1, 0, 0, 0, 0, 0, 0, 0]);
    assert_eq!(
        decode(&d, &longer),
        Err(AccountError::AccountDiscriminatorMismatch { account_type: "Counter".to_string() })
    );
}

#[test]
fn malformed_payload_is_refused() {
    let d = record_type();
    let mut buf = vec![0u8; 128];
    encode(
        &d,
        &vec![
            Scalar::U64(1),
            Scalar::Bool(false),
            Scalar::Key(Pubkey::new(1, 2)),
            Scalar::Bytes(vec![]),
            Scalar::U8(0),
        ],
        &mut buf,
    )
    .unwrap();
    buf[16] = 2;
    assert_eq!(decode(&d, &buf), Err(AccountError::AccountDidNotDeserialize));
    let truncated = [1u8, 2, 3, 4, 5, 6, 7, 8, 1, 0];
    assert_eq!(decode(&counter_type(), &truncated), Err(AccountError::AccountDidNotDeserialize));
}

#[test]
fn encode_into_small_buffer_fails_untouched() {
    let mut buf = vec![0xEEu8; 12];
    assert_eq!(
        encode(&counter_type(), &vec![Scalar::U64(1)], &mut buf),
        Err(AccountError::AccountDidNotSerialize)
    );
    assert_eq!(buf, vec![0xEEu8; 12]);
}

#[test]
fn encode_of_mismatched_value_fails() {
    let mut buf = vec![0u8; 32];
    assert_eq!(
        encode(&counter_type(), &vec![Scalar::Bool(true)], &mut buf),
        Err(AccountError::AccountDidNotSerialize)
    );
    assert_eq!(
        encode(&counter_type(), &vec![], &mut buf),
        Err(AccountError::AccountDidNotSerialize)
    );
    assert_eq!(buf, vec![0u8; 32]);
}

#[test]
fn discriminator_universe_check() {
    assert!(check_discriminators_unique(&vec![counter_type(), record_type(), plain_type()]));
    assert!(!check_discriminators_unique(&vec![counter_type(), record_type(), counter_type()]));
    assert!(check_discriminators_unique(&vec![]));
}

fn my_enum_type() -> AccountTypeDescriptor {
    AccountTypeDescriptor {
        name: "Holder".to_string(),
        discriminator: vec![],
        mode: CodecMode::TaggedVariableLength,
        layout: vec![FieldKind::Enum(0)],
        enums: vec![vec![vec![], vec![FieldKind::U8, FieldKind::U64], vec![FieldKind::Bytes]]],
    }
}

fn encoded(d: &AccountTypeDescriptor, vals: Vec<Scalar>, size: usize) -> Vec<u8> {
    let mut buf = vec![0u8; size];
    encode(d, &vals, &mut buf).unwrap();
    buf
}

#[test]
fn struct_field_in_declaration_order() {
    let d = AccountTypeDescriptor {
        name: "MyStruct".to_string(),
        discriminator: vec![],
        mode: CodecMode::TaggedVariableLength,
        layout: vec![FieldKind::U8],
        enums: vec![],
    };
    assert_eq!(encoded(&d, vec![Scalar::U8(7)], 1), vec![7]);
}

#[test]
fn enum_variants_tagged_by_index() {
    let d = my_enum_type();
    assert_eq!(encoded(&d, vec![Scalar::Enum(0, vec![])], 1), vec![0]);
    assert_eq!(
        encoded(&d, vec![Scalar::Enum(2, vec![Scalar::Bytes(vec![0x61])])], 6),
        vec![2, 1, 0, 0, 0, 0x61]
    );
    assert_eq!(
        encoded(&d, vec![Scalar::Enum(1, vec![Scalar::U8(9), Scalar::U64(3)])], 10),
        vec![1, 9, 3, 0, 0, 0, 0, 0, 0, 0]
    );
}

#[test]
fn enum_round_trip() {
    let d = my_enum_type();
    for v in [
        Scalar::Enum(0, vec![]),
        Scalar::Enum(1, vec![Scalar::U8(1), Scalar::U64(u64::MAX)]),
        Scalar::Enum(2, vec![Scalar::Bytes(vec![1, 2, 3])]),
    ] {
        let buf = encoded(&d, vec![v], 32);
        let back = decode(&d, &buf).unwrap();
        assert_eq!(back.len(), 1);
        let again = encoded(&d, back, 32);
        assert_eq!(again, buf);
    }
    let buf = encoded(&d, vec![Scalar::Enum(1, vec![Scalar::U8(4), Scalar::U64(5)])], 12);
    assert_eq!(decode(&d, &buf).unwrap(), vec![Scalar::Enum(1, vec![Scalar::U8(4), Scalar::U64(5)])]);
}

#[test]
fn enum_bad_variant_index_is_refused() {
    let d = my_enum_type();
    assert_eq!(decode(&d, &[3, 0, 0, 0, 0]), Err(AccountError::AccountDidNotDeserialize));
    assert_eq!(decode(&d, &[]), Err(AccountError::AccountDidNotDeserialize));
    assert_eq!(decode(&d, &[1, 9]), Err(AccountError::AccountDidNotDeserialize));
}

#[test]
fn enum_value_not_matching_variant_fails_to_encode() {
    let d = my_enum_type();
    let mut buf = vec![0u8; 16];
    assert_eq!(
        encode(&d, &vec![Scalar::Enum(3, vec![])], &mut buf),
        Err(AccountError::AccountDidNotSerialize)
    );
    assert_eq!(
        encode(&d, &vec![Scalar::Enum(1, vec![Scalar::U8(1)])], &mut buf),
        Err(AccountError::AccountDidNotSerialize)
    );
    assert_eq!(
        encode(&d, &vec![Scalar::Enum(2, vec![Scalar::Enum(0, vec![])])], &mut buf),
        Err(AccountError::AccountDidNotSerialize)
    );
    assert_eq!(buf, vec![0u8; 16]);
}

#[test]
fn plain_mode_refuses_variable_length_fields() {
    let d = AccountTypeDescriptor {
        name: "Bad".to_string(),
        discriminator: vec![1],
        mode: CodecMode::FixedLayoutPlainData,
        layout: vec![FieldKind::Bytes],
        enums: vec![],
    };
    let mut buf = vec![0u8; 6];
    assert_eq!(
        encode(&d, &vec![Scalar::Bytes(vec![5])], &mut buf),
        Err(AccountError::AccountDidNotSerialize)
    );
    assert_eq!(decode(&d, &[1, 1, 0, 0, 0, 5]), Err(AccountError::AccountDidNotDeserialize));
    let e = AccountTypeDescriptor {
        name: "BadEnum".to_string(),
        discriminator: vec![1],
        mode: CodecMode::FixedLayoutPlainData,
        layout: vec![FieldKind::Enum(0)],
        enums: vec![vec![vec![]]],
    };
    assert_eq!(encode(&e, &vec![Scalar::Enum(0, vec![])], &mut buf), Err(AccountError::AccountDidNotSerialize));
    assert_eq!(decode(&e, &[1, 0]), Err(AccountError::AccountDidNotDeserialize));
}
