use vstd::prelude::*;
use crate::account::{Pubkey, RawAccount};
use crate::duplicates::{detect_duplicate_mutable_accounts, has_duplicate, tree_keys};
use crate::error::AccountError;
use crate::evaluator::{eval_fields, validate};
use crate::schema::{nodes_view, FieldSpec, Node, NodeModel};

verus! {

/// Everything that must hold before an instruction body runs: the schema's
/// checks, then the duplicate-mutable-account check over the whole tree.
pub fn validate_instruction(
    program_id: Pubkey,
    schema: &Vec<FieldSpec>,
    accounts: &Vec<RawAccount>,
) -> (r: Result<Vec<Node>, AccountError>)
    ensures
        match eval_fields(program_id, schema@, accounts@, 0) {
            Err(e) => r == Err::<Vec<Node>, _>(e),
            Ok((ns, _)) => if has_duplicate(tree_keys(ns)) {
                r matches Err(e) && e matches AccountError::DuplicateMutableAccount { key } && exists|
                    i: int,
                    j: int,
                | 0 <= i < j < tree_keys(ns).len() && tree_keys(ns)[i] == key && tree_keys(ns)[j] == key
            } else {
                r matches Ok(t) && nodes_view(t@) == ns
            },
        },
{
    let tree = validate(program_id, schema, accounts)?;
    match detect_duplicate_mutable_accounts(&tree) {
        Ok(()) => Ok(tree),
        Err(e) => Err(e),
    }
}

} // verus!
