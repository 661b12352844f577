use vstd::prelude::*;
use vstd::slice::*;
use crate::account::RawAccount;
use crate::codec::{encodable, encode, encoding, values_view, AccountTypeDescriptor, Scalar, ScalarModel};
use crate::error::AccountError;
use crate::evaluator::{system_program, system_program_spec};
use crate::schema::{node_view, nodes_view, writes_back, FieldSpec, InitMode, Node, NodeModel};

verus! {

/// One account image to write back on exit.
pub struct ExitWrite {
    pub index: usize,
    pub ty: AccountTypeDescriptor,
    pub value: Seq<ScalarModel>,
}

/// The write-backs one validated field asks for: a typed field that is
/// mutable, or that may create its account, writes its value; signers, program references and plain accounts
/// write nothing.
pub open spec fn field_writes(f: FieldSpec, n: NodeModel) -> Seq<ExitWrite>
    decreases f,
{
    match f {
        FieldSpec::Direct { ty, constraints } => match n {
            NodeModel::Typed { index, value, .. } => if writes_back(constraints) {
                seq![ExitWrite { index, ty, value }]
            } else {
                Seq::empty()
            },
            _ => Seq::empty(),
        },
        FieldSpec::Composite(fs) => match n {
            NodeModel::Composite(ns) => fields_writes(fs@, ns),
            _ => Seq::empty(),
        },
        FieldSpec::Optional(inner) => if n is Absent {
            Seq::empty()
        } else {
            field_writes(*inner, n)
        },
        _ => Seq::empty(),
    }
}

/// The write-backs of a schema against its validated tree, in schema order.
pub open spec fn fields_writes(fs: Seq<FieldSpec>, ns: Seq<NodeModel>) -> Seq<ExitWrite>
    decreases fs,
{
    if fs.len() == 0 {
        Seq::empty()
    } else {
        fields_writes(fs.drop_last(), ns) + if fs.len() <= ns.len() {
            field_writes(fs.last(), ns[fs.len() - 1])
        } else {
            Seq::empty()
        }
    }
}

/// The buffer after one write-back, or `None` when the value cannot be
/// encoded into it.
pub open spec fn image_after(w: ExitWrite, data: Seq<u8>) -> Option<Seq<u8>> {
    let e = encoding(w.ty, w.value);
    if encodable(w.ty, w.value) && e.len() <= data.len() {
        Some(e + data.subrange(e.len() as int, data.len() as int))
    } else {
        None
    }
}

/// An account closed by the instruction body: emptied of lamports and handed
/// back to the system program. It is not written back.
pub open spec fn is_closed(a: RawAccount) -> bool {
    a.lamports == 0 && a.owner == system_program_spec()
}

/// Performs write-backs in order on the accounts' buffers, skipping closed
/// accounts. Each one that fails leaves its buffer as it was and clears the
/// flag; the others still take effect.
pub open spec fn apply_writes(ws: Seq<ExitWrite>, accts: Seq<RawAccount>, datas: Seq<Seq<u8>>) -> (
    Seq<Seq<u8>>,
    bool,
)
    decreases ws.len(),
{
    if ws.len() == 0 {
        (datas, true)
    } else {
        let (d, ok) = apply_writes(ws.drop_last(), accts, datas);
        let w = ws.last();
        if w.index < d.len() && w.index < accts.len() && is_closed(accts[w.index as int]) {
            (d, ok)
        } else if w.index < d.len() {
            match image_after(w, d[w.index as int]) {
                Some(img) => (d.update(w.index as int, img), ok),
                None => (d, false),
            }
        } else {
            (d, false)
        }
    }
}

pub open spec fn account_datas(a: Seq<RawAccount>) -> Seq<Seq<u8>> {
    a.map_values(|r: RawAccount| r.data@)
}

/// Two account lists that differ at most in their buffers.
pub open spec fn same_but_data(a: Seq<RawAccount>, b: Seq<RawAccount>) -> bool {
    &&& a.len() == b.len()
    &&& forall|i: int|
        0 <= i < a.len() ==> {
            &&& #[trigger] a[i].key == b[i].key
            &&& a[i].owner == b[i].owner
            &&& a[i].lamports == b[i].lamports
            &&& a[i].is_signer == b[i].is_signer
            &&& a[i].is_writable == b[i].is_writable
        }
}

proof fn lemma_apply_writes_concat(
    a: Seq<ExitWrite>,
    b: Seq<ExitWrite>,
    accts: Seq<RawAccount>,
    d: Seq<Seq<u8>>,
)
    ensures
        apply_writes(a + b, accts, d) == ({
            let (d1, ok1) = apply_writes(a, accts, d);
            let (d2, ok2) = apply_writes(b, accts, d1);
            (d2, ok1 && ok2)
        }),
    decreases b.len(),
{
    if b.len() == 0 {
        assert(a + b =~= a);
    } else {
        assert((a + b).drop_last() =~= a + b.drop_last());
        assert((a + b).last() == b.last());
        lemma_apply_writes_concat(a, b.drop_last(), accts, d);
    }
}

proof fn lemma_apply_writes_same_accounts(
    ws: Seq<ExitWrite>,
    a: Seq<RawAccount>,
    b: Seq<RawAccount>,
    d: Seq<Seq<u8>>,
)
    requires
        same_but_data(a, b),
    ensures
        apply_writes(ws, a, d) == apply_writes(ws, b, d),
    decreases ws.len(),
{
    if ws.len() > 0 {
        lemma_apply_writes_same_accounts(ws.drop_last(), a, b, d);
        let i = ws.last().index as int;
        if 0 <= i < a.len() {
            assert(a[i].key == b[i].key);
        }
    }
}

proof fn lemma_nodes_view_index(s: Seq<Node>, i: int)
    requires
        0 <= i < s.len(),
    ensures
        nodes_view(s).len() == s.len(),
        nodes_view(s)[i] == node_view(s[i]),
    decreases s.len(),
{
    lemma_nodes_view_len(s);
    if i < s.len() - 1 {
        lemma_nodes_view_index(s.drop_last(), i);
    }
}

proof fn lemma_nodes_view_len(s: Seq<Node>)
    ensures
        nodes_view(s).len() == s.len(),
    decreases s.len(),
{
    if s.len() > 0 {
        lemma_nodes_view_len(s.drop_last());
    }
}

fn write_back(ty: &AccountTypeDescriptor, value: &Vec<Scalar>, index: usize, accts: &mut Vec<RawAccount>) -> (ok: bool)
    ensures
        apply_writes(
            seq![ExitWrite { index, ty: *ty, value: values_view(value@) }],
            old(accts)@,
            account_datas(old(accts)@),
        ) == (account_datas(final(accts)@), ok),
        same_but_data(old(accts)@, final(accts)@),
{
    let ghost w = ExitWrite { index, ty: *ty, value: values_view(value@) };
    assert(seq![w].drop_last() =~= Seq::<ExitWrite>::empty());
    assert(seq![w].last() == w);
    let ghost before = accts@;
    assert(account_datas(before).len() == before.len());
    assert(apply_writes(seq![w].drop_last(), before, account_datas(before)) == (
        account_datas(before),
        true,
    ));
    if index >= accts.len() {
        return false;
    }
    if accts[index].lamports == 0 && accts[index].owner == system_program() {
        return true;
    }
    let mut data = slice_to_vec(accts[index].data.as_slice());
    assert(account_datas(before)[index as int] == data@);
    match encode(ty, value, &mut data) {
        Ok(()) => {
            let a = &accts[index];
            let updated = RawAccount {
                key: a.key,
                owner: a.owner,
                lamports: a.lamports,
                data,
                is_signer: a.is_signer,
                is_writable: a.is_writable,
            };
            accts.set(index, updated);
            assert(account_datas(accts@) =~= account_datas(before).update(index as int, data@));
            true
        },
        Err(_) => false,
    }
}

fn finalize_field(f: &FieldSpec, n: &Node, accts: &mut Vec<RawAccount>) -> (ok: bool)
    ensures
        apply_writes(field_writes(*f, node_view(*n)), old(accts)@, account_datas(old(accts)@)) == (
            account_datas(final(accts)@),
            ok,
        ),
        same_but_data(old(accts)@, final(accts)@),
    decreases f,
{
    match f {
        FieldSpec::Direct { ty, constraints } => {
            match n {
                Node::Typed(h) => {
                    if constraints.mutable || constraints.init_mode != InitMode::Existing {
                        write_back(ty, &h.value, h.index, accts)
                    } else {
                        true
                    }
                },
                _ => true,
            }
        },
        FieldSpec::Composite(fs) => {
            match n {
                Node::Composite(ns) => finalize_fields(fs, ns, accts),
                _ => true,
            }
        },
        FieldSpec::Optional(inner) => {
            match n {
                Node::Absent => true,
                _ => finalize_field(inner, n, accts),
            }
        },
        _ => true,
    }
}

fn finalize_fields(fs: &Vec<FieldSpec>, ns: &Vec<Node>, accts: &mut Vec<RawAccount>) -> (ok: bool)
    ensures
        apply_writes(fields_writes(fs@, nodes_view(ns@)), old(accts)@, account_datas(old(accts)@)) == (
            account_datas(final(accts)@),
            ok,
        ),
        same_but_data(old(accts)@, final(accts)@),
    decreases fs,
{
    let ghost start = accts@;
    let ghost nv = nodes_view(ns@);
    proof {
        lemma_nodes_view_len(ns@);
    }
    let mut ok = true;
    let mut i: usize = 0;
    assert(fs@.take(0) =~= Seq::<FieldSpec>::empty());
    while i < fs.len()
        invariant
            i <= fs@.len(),
            nv == nodes_view(ns@),
            nv.len() == ns@.len(),
            apply_writes(fields_writes(fs@.take(i as int), nv), start, account_datas(start)) == (
                account_datas(accts@),
                ok,
            ),
            same_but_data(start, accts@),
        decreases fs@.len() - i,
    {
        let ghost mid = accts@;
        let ghost prev_ok = ok;
        proof {
            assert(fs@.take(i + 1).drop_last() =~= fs@.take(i as int));
            assert(fs@.take(i + 1).last() == fs@[i as int]);
        }
        if i < ns.len() {
            proof {
                lemma_nodes_view_index(ns@, i as int);
            }
            let r = finalize_field(&fs[i], &ns[i], accts);
            proof {
                lemma_apply_writes_same_accounts(
                    field_writes(fs@[i as int], nv[i as int]),
                    mid,
                    start,
                    account_datas(mid),
                );
                lemma_apply_writes_concat(
                    fields_writes(fs@.take(i as int), nv),
                    field_writes(fs@[i as int], nv[i as int]),
                    start,
                    account_datas(start),
                );
            }
            ok = ok && r;
        } else {
            proof {
                assert(fields_writes(fs@.take(i + 1), nv) =~= fields_writes(fs@.take(i as int), nv));
            }
        }
        i = i + 1;
    }
    assert(fs@.take(i as int) =~= fs@);
    ok
}

/// Writes every mutable typed account of a validated tree back into its
/// buffer, in schema order. A failed write leaves its buffer as it was and
/// does not stop the others; the call then reports the failure.
pub fn finalize(schema: &Vec<FieldSpec>, tree: &Vec<Node>, accounts: &mut Vec<RawAccount>) -> (r:
    Result<(), AccountError>)
    ensures
        apply_writes(
            fields_writes(schema@, nodes_view(tree@)),
            old(accounts)@,
            account_datas(old(accounts)@),
        ) == (
            account_datas(final(accounts)@),
            r is Ok,
        ),
        r is Err ==> r == Err::<(), _>(AccountError::AccountDidNotSerialize),
        same_but_data(old(accounts)@, final(accounts)@),
{
    if finalize_fields(schema, tree, accounts) {
        Ok(())
    } else {
        Err(AccountError::AccountDidNotSerialize)
    }
}

} // verus!
