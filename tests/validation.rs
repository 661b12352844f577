use anchor_accounts::account::{Pubkey, RawAccount};
use anchor_accounts::codec::{encode, AccountTypeDescriptor, CodecMode, FieldKind, Scalar};
use anchor_accounts::duplicates::{collect_mutable_keys, detect_duplicate_mutable_accounts, find_duplicate};
use anchor_accounts::error::AccountError;
use anchor_accounts::evaluator::{system_program, validate};
use anchor_accounts::instruction::validate_instruction;
use anchor_accounts::memo::{BuildMemo, Memo};
use anchor_accounts::schema::{Constraints, FieldSpec, InitMode, Node};

fn program() -> Pubkey {
    Pubkey::new(0xABCD, 0x1)
}

fn key(n: u128) -> Pubkey {
    Pubkey::new(7, n)
}

fn counter_type() -> AccountTypeDescriptor {
    AccountTypeDescriptor {
        name: "Counter".to_string(),
        discriminator: vec![1, 2, 3, 4, 5, 6, 7, 8],
        mode: CodecMode::TaggedVariableLength,
        layout: vec![FieldKind::U64],
        enums: vec![],
    }
}

fn rules(mutable: bool, init_mode: InitMode, dup_exempt: bool) -> Constraints {
    Constraints { mutable, signer: false, owner: program(), init_mode, dup_exempt }
}

fn field(c: Constraints) -> FieldSpec {
    FieldSpec::Direct { ty: counter_type(), constraints: c }
}

fn mut_field() -> FieldSpec {
    field(rules(true, InitMode::Existing, false))
}

fn counter_account(k: Pubkey, count: u64) -> RawAccount {
    let mut data = vec![0u8; 16];
    encode(&counter_type(), &vec![Scalar::U64(count)], &mut data).unwrap();
    RawAccount { key: k, owner: program(), lamports: 1, data, is_signer: false, is_writable: true }
}

fn fresh_account(k: Pubkey) -> RawAccount {
    RawAccount {
        key: k,
        owner: system_program(),
        lamports: 0,
        data: vec![],
        is_signer: false,
        is_writable: true,
    }
}

#[test]
fn duplicate_mutable_direct_fields_fail() {
    let schema = vec![mut_field(), mut_field()];
    let accounts = vec![counter_account(key(1), 0), counter_account(key(1), 0)];
    assert_eq!(
        validate_instruction(program(), &schema, &accounts).err(),
        Some(AccountError::DuplicateMutableAccount { key: key(1) })
    );
}

#[test]
fn exempt_duplicate_passes() {
    let schema = vec![mut_field(), field(rules(true, InitMode::Existing, true))];
    let accounts = vec![counter_account(key(1), 0), counter_account(key(1), 0)];
    let tree = validate_instruction(program(), &schema, &accounts).unwrap();
    assert_eq!(tree.len(), 2);
    let both_exempt = vec![field(rules(true, InitMode::Existing, true)), field(rules(true, InitMode::Existing, true))];
    assert!(validate_instruction(program(), &both_exempt, &accounts).is_ok());
}

#[test]
fn duplicate_across_composite_fails() {
    let schema = vec![mut_field(), FieldSpec::Composite(vec![mut_field()])];
    let accounts = vec![counter_account(key(3), 0), counter_account(key(3), 0)];
    assert_eq!(
        validate_instruction(program(), &schema, &accounts).err(),
        Some(AccountError::DuplicateMutableAccount { key: key(3) })
    );
}

#[test]
fn duplicate_between_composites_fails() {
    let schema = vec![
        FieldSpec::Composite(vec![mut_field()]),
        FieldSpec::Composite(vec![FieldSpec::Composite(vec![mut_field()])]),
    ];
    let accounts = vec![counter_account(key(3), 0), counter_account(key(3), 0)];
    assert_eq!(
        validate_instruction(program(), &schema, &accounts).err(),
        Some(AccountError::DuplicateMutableAccount { key: key(3) })
    );
}

#[test]
fn readonly_duplicates_pass() {
    let ro = field(rules(false, InitMode::Existing, false));
    let schema = vec![ro, field(rules(false, InitMode::Existing, false))];
    let accounts = vec![counter_account(key(1), 0), counter_account(key(1), 0)];
    assert!(validate_instruction(program(), &schema, &accounts).is_ok());
}

#[test]
fn init_field_gets_default_and_skips_duplicate_check() {
    let init = || field(rules(true, InitMode::Init, false));
    let schema = vec![init()];
    let tree = validate(program(), &schema, &vec![fresh_account(key(5))]).unwrap();
    match &tree[0] {
        Node::Typed(h) => {
            assert_eq!(h.value, vec![Scalar::U64(0)]);
            assert_eq!(h.key, key(5));
            assert_eq!(h.index, 0);
        },
        _ => panic!("expected a typed account"),
    }
    let twice = vec![init(), init()];
    let accounts = vec![fresh_account(key(5)), fresh_account(key(5))];
    let tree = validate_instruction(program(), &twice, &accounts).unwrap();
    assert!(collect_mutable_keys(&tree).is_empty());
}

#[test]
fn init_on_used_account_fails() {
    let schema = vec![field(rules(true, InitMode::Init, false))];
    assert_eq!(
        validate(program(), &schema, &vec![counter_account(key(5), 1)]).err(),
        Some(AccountError::AccountAlreadyInitialized { index: 0 })
    );
}

#[test]
fn init_if_needed_existing_is_decoded_and_counted() {
    let schema = vec![mut_field(), field(rules(true, InitMode::InitIfNeeded, false))];
    let accounts = vec![counter_account(key(2), 9), counter_account(key(2), 9)];
    assert_eq!(
        validate_instruction(program(), &schema, &accounts).err(),
        Some(AccountError::DuplicateMutableAccount { key: key(2) })
    );
    let single = vec![field(rules(true, InitMode::InitIfNeeded, false))];
    let tree = validate(program(), &single, &vec![counter_account(key(2), 9)]).unwrap();
    match &tree[0] {
        Node::Typed(h) => assert_eq!(h.value, vec![Scalar::U64(9)]),
        _ => panic!("expected a typed account"),
    }
    let tree = validate(program(), &single, &vec![fresh_account(key(2))]).unwrap();
    assert_eq!(collect_mutable_keys(&tree), vec![key(2)]);
}

#[test]
fn checks_come_in_order() {
    let mut c = rules(true, InitMode::Existing, false);
    c.signer = true;
    let schema = vec![field(c)];
    let mut a = counter_account(key(1), 0);
    a.is_writable = false;
    a.owner = key(99);
    assert_eq!(
        validate(program(), &schema, &vec![a]).err(),
        Some(AccountError::AccountNotSigner { index: 0 })
    );
    let mut a = counter_account(key(1), 0);
    a.is_signer = true;
    a.is_writable = false;
    a.owner = key(99);
    assert_eq!(
        validate(program(), &schema, &vec![a]).err(),
        Some(AccountError::ConstraintMutViolation { index: 0 })
    );
    let mut a = counter_account(key(1), 0);
    a.is_signer = true;
    a.owner = key(99);
    assert_eq!(
        validate(program(), &schema, &vec![a]).err(),
        Some(AccountError::AccountOwnedByWrongProgram { index: 0, expected: program(), actual: key(99) })
    );
}

#[test]
fn wrong_type_in_account_is_a_mismatch() {
    let schema = vec![mut_field()];
    let mut a = counter_account(key(1), 0);
    a.data = vec![0xFF; 16];
    assert_eq!(
        validate(program(), &schema, &vec![a]).err(),
        Some(AccountError::AccountDiscriminatorMismatch { account_type: "Counter".to_string() })
    );
}

#[test]
fn first_failure_in_schema_order_wins() {
    let schema = vec![FieldSpec::Composite(vec![FieldSpec::Signer]), FieldSpec::ProgramRef(key(50))];
    let accounts = vec![counter_account(key(1), 0), counter_account(key(2), 0)];
    assert_eq!(
        validate(program(), &schema, &accounts).err(),
        Some(AccountError::AccountNotSigner { index: 0 })
    );
    let mut signer = counter_account(key(1), 0);
    signer.is_signer = true;
    let accounts = vec![signer, counter_account(key(2), 0)];
    assert_eq!(
        validate(program(), &schema, &accounts).err(),
        Some(AccountError::InvalidProgramId { index: 1 })
    );
}

#[test]
fn too_few_accounts_fail() {
    let schema = vec![mut_field(), FieldSpec::RawAccountInfo];
    assert_eq!(
        validate(program(), &schema, &vec![counter_account(key(1), 0)]).err(),
        Some(AccountError::AccountNotEnoughKeys)
    );
}

#[test]
fn optional_field_absent_or_present() {
    let schema = vec![FieldSpec::Optional(Box::new(mut_field())), FieldSpec::Optional(Box::new(mut_field()))];
    let mut sentinel = counter_account(program(), 0);
    sentinel.data = vec![];
    let accounts = vec![sentinel, counter_account(key(4), 3)];
    let tree = validate_instruction(program(), &schema, &accounts).unwrap();
    assert!(matches!(tree[0], Node::Absent));
    assert!(matches!(tree[1], Node::Typed(_)));
    assert_eq!(collect_mutable_keys(&tree), vec![key(4)]);
}

#[test]
fn passthrough_fields_are_not_keys() {
    let mut signer = counter_account(key(1), 0);
    signer.is_signer = true;
    let schema = vec![FieldSpec::Signer, FieldSpec::ProgramRef(key(1)), FieldSpec::RawAccountInfo, mut_field()];
    let accounts = vec![signer, counter_account(key(1), 0), counter_account(key(1), 0), counter_account(key(1), 0)];
    let tree = validate(program(), &schema, &accounts).unwrap();
    assert_eq!(collect_mutable_keys(&tree), vec![key(1)]);
    assert!(detect_duplicate_mutable_accounts(&tree).is_ok());
}

#[test]
fn find_duplicate_reports_repeated_key() {
    assert_eq!(find_duplicate(&vec![key(1), key(2), key(3)]), None);
    assert_eq!(find_duplicate(&vec![key(1), key(2), key(1)]), Some(key(1)));
    assert_eq!(find_duplicate(&vec![]), None);
}

#[test]
fn memo_program_id_and_schema() {
    let id = Memo::id();
    assert_eq!(id, Pubkey::new(0x7c38da6071e8244d062129995a534a05, 0x8d44054140a81fe481bb92bcddb5357c));
    assert!(BuildMemo::schema().is_empty());
}

#[test]
fn init_modes_imply_writable_and_counted() {
    let schema = vec![field(rules(false, InitMode::InitIfNeeded, false))];
    let mut a = counter_account(key(6), 1);
    a.is_writable = false;
    assert_eq!(
        validate(program(), &schema, &vec![a]).err(),
        Some(AccountError::ConstraintMutViolation { index: 0 })
    );
    let schema = vec![mut_field(), field(rules(false, InitMode::InitIfNeeded, false))];
    let accounts = vec![counter_account(key(6), 1), counter_account(key(6), 1)];
    assert_eq!(
        validate_instruction(program(), &schema, &accounts).err(),
        Some(AccountError::DuplicateMutableAccount { key: key(6) })
    );
    let schema = vec![field(rules(false, InitMode::Init, false))];
    let mut f = fresh_account(key(7));
    f.is_writable = false;
    assert_eq!(
        validate(program(), &schema, &vec![f]).err(),
        Some(AccountError::ConstraintMutViolation { index: 0 })
    );
}

#[test]
fn init_enum_field_starts_at_first_variant() {
    let ty = AccountTypeDescriptor {
        name: "State".to_string(),
        discriminator: vec![3, 3, 3, 3, 3, 3, 3, 3],
        mode: CodecMode::TaggedVariableLength,
        layout: vec![FieldKind::Enum(0), FieldKind::Bool],
        enums: vec![vec![vec![FieldKind::U64, FieldKind::Key], vec![]]],
    };
    let schema = vec![FieldSpec::Direct { ty, constraints: rules(true, InitMode::Init, false) }];
    let tree = validate(program(), &schema, &vec![fresh_account(key(8))]).unwrap();
    match &tree[0] {
        Node::Typed(h) => assert_eq!(
            h.value,
            vec![Scalar::Enum(0, vec![Scalar::U64(0), Scalar::Key(Pubkey::new(0, 0))]), Scalar::Bool(false)]
        ),
        _ => panic!("expected a typed account"),
    }
}
