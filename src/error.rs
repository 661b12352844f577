use vstd::prelude::*;
use crate::account::Pubkey;

verus! {

/// Every way validation, decoding, encoding or the duplicate check can fail.
///
/// `index` fields give the position of the offending account in the
/// supplied account list.
#[derive(PartialEq, Eq, Debug)]
pub enum AccountError {
    AccountDiscriminatorNotFound,
    AccountDiscriminatorMismatch { account_type: String },
    AccountDidNotSerialize,
    AccountDidNotDeserialize,
    AccountNotSigner { index: usize },
    ConstraintMutViolation { index: usize },
    AccountOwnedByWrongProgram { index: usize, expected: Pubkey, actual: Pubkey },
    AccountAlreadyInitialized { index: usize },
    AccountNotEnoughKeys,
    InvalidProgramId { index: usize },
    DuplicateMutableAccount { key: Pubkey },
}

} // verus!
