use vstd::prelude::*;
use crate::account::Pubkey;
use crate::schema::FieldSpec;

verus! {

/// The id of the memo program, `MemoSq4gqABAXKb96qnH8TysNcWxMyWCqXgDLGmfcHr`.
pub open spec fn memo_program_id() -> Pubkey {
    Pubkey { hi: 0x7c38da6071e8244d062129995a534a05, lo: 0x8d44054140a81fe481bb92bcddb5357c }
}

/// The memo program, as a program that other schemas can refer to.
#[derive(Clone, Copy)]
pub struct Memo;

impl Memo {
    pub fn id() -> (r: Pubkey)
        ensures
            r == memo_program_id(),
    {
        Pubkey { hi: 0x7c38da6071e8244d062129995a534a05, lo: 0x8d44054140a81fe481bb92bcddb5357c }
    }
}

/// The accounts of a memo call: it declares none of its own; signers come as
/// remaining accounts.
pub struct BuildMemo {}

impl BuildMemo {
    pub fn schema() -> (r: Vec<FieldSpec>)
        ensures
            r@.len() == 0,
    {
        Vec::new()
    }
}

} // verus!
