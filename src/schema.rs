use vstd::prelude::*;
use crate::account::Pubkey;
use crate::codec::{values_view, AccountTypeDescriptor, Scalar, ScalarModel};

verus! {

/// How a field relates to the creation of its account.
#[derive(Clone, Copy, PartialEq, Eq, Structural, Debug)]
pub enum InitMode {
    /// The account already exists and belongs to the expected owner.
    Existing,
    /// The account is created by this instruction and must be fresh.
    Init,
    /// The account is either fresh or already owned by the expected owner.
    InitIfNeeded,
}

/// The rules one typed field places on its account.
#[derive(Clone, Copy, PartialEq, Eq, Structural, Debug)]
pub struct Constraints {
    /// Declared mutable. A field with an init mode other than `Existing` is
    /// treated as mutable whatever this says.
    pub mutable: bool,
    pub signer: bool,
    pub owner: Pubkey,
    pub init_mode: InitMode,
    pub dup_exempt: bool,
}

/// Whether a typed field's account is written on exit, and so must be
/// writable: it is declared mutable, or it may be created by the instruction.
pub open spec fn writes_back(c: Constraints) -> bool {
    c.mutable || c.init_mode != InitMode::Existing
}

/// One field of an account schema.
pub enum FieldSpec {
    /// A typed account, decoded through its descriptor.
    Direct { ty: AccountTypeDescriptor, constraints: Constraints },
    /// A nested schema that takes the next accounts in order.
    Composite(Vec<FieldSpec>),
    /// Any account that signed the call.
    Signer,
    /// The account of the program with the given id.
    ProgramRef(Pubkey),
    /// Any account, unchecked.
    RawAccountInfo,
    /// A field whose account may be left out, by passing the program's own
    /// id in its place.
    Optional(Box<FieldSpec>),
}

/// A validated, decoded typed account.
pub struct TypedAccountHandle {
    /// Position of the account in the supplied list.
    pub index: usize,
    pub key: Pubkey,
    pub constraints: Constraints,
    pub value: Vec<Scalar>,
}

/// The validated result of one schema field.
pub enum Node {
    Typed(TypedAccountHandle),
    Passthrough { index: usize, key: Pubkey },
    Composite(Vec<Node>),
    Absent,
}

/// The mathematical value of a [`Node`].
pub enum NodeModel {
    Typed { index: usize, key: Pubkey, constraints: Constraints, value: Seq<ScalarModel> },
    Passthrough { index: usize, key: Pubkey },
    Composite(Seq<NodeModel>),
    Absent,
}

pub open spec fn node_view(n: Node) -> NodeModel
    decreases n,
{
    match n {
        Node::Typed(h) => NodeModel::Typed {
            index: h.index,
            key: h.key,
            constraints: h.constraints,
            value: values_view(h.value@),
        },
        Node::Passthrough { index, key } => NodeModel::Passthrough { index, key },
        Node::Composite(ch) => NodeModel::Composite(nodes_view(ch@)),
        Node::Absent => NodeModel::Absent,
    }
}

pub open spec fn nodes_view(s: Seq<Node>) -> Seq<NodeModel>
    decreases s,
{
    if s.len() == 0 {
        Seq::empty()
    } else {
        nodes_view(s.drop_last()).push(node_view(s.last()))
    }
}

} // verus!
