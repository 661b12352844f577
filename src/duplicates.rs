use vstd::prelude::*;
use crate::account::Pubkey;
use crate::codec::ScalarModel;
use crate::error::AccountError;
use crate::schema::{node_view, nodes_view, writes_back, Constraints, InitMode, Node, NodeModel};

verus! {

/// Whether a typed field takes part in the duplicate check: it is written
/// back on exit, not exempted, and not a freshly created account.
pub open spec fn included(c: Constraints) -> bool {
    writes_back(c) && !c.dup_exempt && c.init_mode != InitMode::Init
}

/// The keys one validated field contributes to the duplicate check.
pub open spec fn node_keys(n: NodeModel) -> Seq<Pubkey>
    decreases n,
{
    match n {
        NodeModel::Typed { key, constraints, .. } => if included(constraints) {
            seq![key]
        } else {
            Seq::empty()
        },
        NodeModel::Composite(ch) => tree_keys(ch),
        _ => Seq::empty(),
    }
}

/// The keys of a whole validated tree, flattened in schema order.
pub open spec fn tree_keys(s: Seq<NodeModel>) -> Seq<Pubkey>
    decreases s,
{
    if s.len() == 0 {
        Seq::empty()
    } else {
        tree_keys(s.drop_last()) + node_keys(s.last())
    }
}

pub open spec fn has_duplicate(keys: Seq<Pubkey>) -> bool {
    exists|i: int, j: int| 0 <= i < j < keys.len() && keys[i] == keys[j]
}

proof fn lemma_nodes_view_step(s: Seq<Node>, i: int)
    requires
        0 <= i < s.len(),
    ensures
        nodes_view(s.take(i + 1)) == nodes_view(s.take(i)).push(node_view(s[i])),
{
    assert(s.take(i + 1).drop_last() =~= s.take(i));
}

proof fn lemma_tree_keys_push(s: Seq<NodeModel>, n: NodeModel)
    ensures
        tree_keys(s.push(n)) == tree_keys(s) + node_keys(n),
{
    assert(s.push(n).drop_last() =~= s);
}

fn collect_node(n: &Node, out: &mut Vec<Pubkey>)
    ensures
        final(out)@ == old(out)@ + node_keys(node_view(*n)),
    decreases n,
{
    match n {
        Node::Typed(h) => {
            let c = h.constraints;
            if (c.mutable || c.init_mode != InitMode::Existing) && !c.dup_exempt && c.init_mode
                != InitMode::Init {
                out.push(h.key);
                assert(final(out)@ =~= old(out)@ + seq![h.key]);
            } else {
                assert(final(out)@ =~= old(out)@ + Seq::<Pubkey>::empty());
            }
        },
        Node::Composite(ch) => {
            collect_nodes(ch, out);
        },
        _ => {
            assert(final(out)@ =~= old(out)@ + Seq::<Pubkey>::empty());
        },
    }
}

fn collect_nodes(nodes: &Vec<Node>, out: &mut Vec<Pubkey>)
    ensures
        final(out)@ == old(out)@ + tree_keys(nodes_view(nodes@)),
    decreases nodes,
{
    let ghost start = out@;
    let mut i: usize = 0;
    assert(nodes@.take(0) =~= Seq::<Node>::empty());
    assert(start + tree_keys(nodes_view(nodes@.take(0))) =~= start);
    while i < nodes.len()
        invariant
            i <= nodes@.len(),
            out@ == start + tree_keys(nodes_view(nodes@.take(i as int))),
        decreases nodes@.len() - i,
    {
        proof {
            lemma_nodes_view_step(nodes@, i as int);
            lemma_tree_keys_push(nodes_view(nodes@.take(i as int)), node_view(nodes@[i as int]));
        }
        collect_node(&nodes[i], out);
        assert(out@ =~= start + tree_keys(nodes_view(nodes@.take(i + 1))));
        i = i + 1;
    }
    assert(nodes@.take(i as int) =~= nodes@);
}

/// Collects, in schema order, the keys of every field that takes part in the
/// duplicate check, descending into composite fields.
pub fn collect_mutable_keys(tree: &Vec<Node>) -> (r: Vec<Pubkey>)
    ensures
        r@ == tree_keys(nodes_view(tree@)),
{
    let mut out: Vec<Pubkey> = Vec::new();
    collect_nodes(tree, &mut out);
    assert(out@ =~= tree_keys(nodes_view(tree@)));
    out
}

/// Finds a key that occurs twice, if any.
pub fn find_duplicate(keys: &Vec<Pubkey>) -> (r: Option<Pubkey>)
    ensures
        r is None <==> !has_duplicate(keys@),
        r matches Some(k) ==> exists|i: int, j: int|
            0 <= i < j < keys@.len() && keys@[i] == k && keys@[j] == k,
{
    let mut j: usize = 0;
    while j < keys.len()
        invariant
            j <= keys@.len(),
            forall|a: int, b: int| 0 <= a < b < j ==> keys@[a] != keys@[b],
        decreases keys@.len() - j,
    {
        let mut i: usize = 0;
        while i < j
            invariant
                i <= j < keys@.len(),
                forall|a: int| 0 <= a < i ==> keys@[a] != keys@[j as int],
            decreases j - i,
        {
            if keys[i] == keys[j] {
                return Some(keys[j]);
            }
            i = i + 1;
        }
        j = j + 1;
    }
    None
}

/// Fails with the first repeated key when two fields that are written back on
/// exit resolve to the same account, anywhere in the tree.
pub fn detect_duplicate_mutable_accounts(tree: &Vec<Node>) -> (r: Result<(), AccountError>)
    ensures
        r is Ok <==> !has_duplicate(tree_keys(nodes_view(tree@))),
        r matches Err(e) ==> e matches AccountError::DuplicateMutableAccount { key } && exists|
            i: int,
            j: int,
        |
            0 <= i < j < tree_keys(nodes_view(tree@)).len() && tree_keys(nodes_view(tree@))[i]
                == key && tree_keys(nodes_view(tree@))[j] == key,
{
    let keys = collect_mutable_keys(tree);
    match find_duplicate(&keys) {
        Some(key) => Err(AccountError::DuplicateMutableAccount { key }),
        None => Ok(()),
    }
}


/// The keys of two trees side by side are the keys of each, in order.
pub proof fn lemma_tree_keys_concat(a: Seq<NodeModel>, b: Seq<NodeModel>)
    ensures
        tree_keys(a + b) == tree_keys(a) + tree_keys(b),
    decreases b.len(),
{
    if b.len() == 0 {
        assert(a + b =~= a);
        assert(tree_keys(a) + tree_keys(b) =~= tree_keys(a));
    } else {
        assert((a + b).drop_last() =~= a + b.drop_last());
        assert((a + b).last() == b.last());
        lemma_tree_keys_concat(a, b.drop_last());
        assert(tree_keys(a) + tree_keys(b.drop_last()) + node_keys(b.last()) =~= tree_keys(a)
            + tree_keys(b));
    }
}

proof fn lemma_tree_keys_splice(a: Seq<NodeModel>, n: NodeModel, b: Seq<NodeModel>)
    ensures
        tree_keys(a.push(n) + b) == tree_keys(a) + node_keys(n) + tree_keys(b),
{
    lemma_tree_keys_concat(a.push(n), b);
    lemma_tree_keys_push(a, n);
}

/// Wrapping fields in a composite group changes nothing in the duplicate
/// check: a tree keeps its keys, and so its verdict, whether a group of
/// fields stands nested or flat among its siblings, at any depth.
pub proof fn lemma_nesting_is_transparent(
    before: Seq<NodeModel>,
    inner: Seq<NodeModel>,
    after: Seq<NodeModel>,
)
    ensures
        tree_keys(before.push(NodeModel::Composite(inner)) + after) == tree_keys(
            before + inner + after,
        ),
        has_duplicate(tree_keys(before.push(NodeModel::Composite(inner)) + after))
            == has_duplicate(tree_keys(before + inner + after)),
{
    lemma_tree_keys_splice(before, NodeModel::Composite(inner), after);
    lemma_tree_keys_concat(before + inner, after);
    lemma_tree_keys_concat(before, inner);
}

/// A field marked exempt never contributes a key, so adding it anywhere
/// leaves the duplicate check's verdict unchanged.
pub proof fn lemma_exempt_field_ignored(
    before: Seq<NodeModel>,
    after: Seq<NodeModel>,
    index: usize,
    key: Pubkey,
    constraints: Constraints,
    value: Seq<ScalarModel>,
)
    requires
        constraints.dup_exempt,
    ensures
        tree_keys(before.push(NodeModel::Typed { index, key, constraints, value }) + after)
            == tree_keys(before + after),
{
    lemma_tree_keys_splice(before, NodeModel::Typed { index, key, constraints, value }, after);
    lemma_tree_keys_concat(before, after);
    assert(tree_keys(before) + Seq::<Pubkey>::empty() =~= tree_keys(before));
}

/// A field that creates its account never contributes a key.
pub proof fn lemma_init_field_ignored(
    before: Seq<NodeModel>,
    after: Seq<NodeModel>,
    index: usize,
    key: Pubkey,
    constraints: Constraints,
    value: Seq<ScalarModel>,
)
    requires
        constraints.init_mode == InitMode::Init,
    ensures
        tree_keys(before.push(NodeModel::Typed { index, key, constraints, value }) + after)
            == tree_keys(before + after),
{
    lemma_tree_keys_splice(before, NodeModel::Typed { index, key, constraints, value }, after);
    lemma_tree_keys_concat(before, after);
    assert(tree_keys(before) + Seq::<Pubkey>::empty() =~= tree_keys(before));
}

/// A non-exempt field that creates its account only if needed always
/// contributes its key, in its place, whether or not it is declared mutable.
pub proof fn lemma_init_if_needed_field_counted(
    before: Seq<NodeModel>,
    after: Seq<NodeModel>,
    index: usize,
    key: Pubkey,
    constraints: Constraints,
    value: Seq<ScalarModel>,
)
    requires
        constraints.init_mode == InitMode::InitIfNeeded,
        !constraints.dup_exempt,
    ensures
        tree_keys(before.push(NodeModel::Typed { index, key, constraints, value }) + after)
            == tree_keys(before) + seq![key] + tree_keys(after),
{
    lemma_tree_keys_splice(before, NodeModel::Typed { index, key, constraints, value }, after);
}

} // verus!
