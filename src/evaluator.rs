use vstd::prelude::*;
use crate::account::{Pubkey, RawAccount};
use crate::codec::{decode, decode_result, enum_table, AccountTypeDescriptor, FieldKind, Scalar, ScalarModel, values_view};
use crate::error::AccountError;
use crate::schema::{node_view, nodes_view, writes_back, Constraints, FieldSpec, InitMode, Node, NodeModel, TypedAccountHandle};

verus! {

/// The owner of every account that no program has taken over yet.
pub open spec fn system_program_spec() -> Pubkey {
    Pubkey { hi: 0, lo: 0 }
}

#[verifier::when_used_as_spec(system_program_spec)]
pub fn system_program() -> (r: Pubkey)
    ensures
        r == system_program_spec(),
{
    Pubkey { hi: 0, lo: 0 }
}

/// A fresh account: owned by the system program and holding no data.
pub open spec fn is_fresh(a: RawAccount) -> bool {
    a.owner == system_program_spec() && a.data@.len() == 0
}

pub open spec fn default_basic(k: FieldKind) -> ScalarModel {
    match k {
        FieldKind::U8 => ScalarModel::U8(0),
        FieldKind::Bool => ScalarModel::Bool(false),
        FieldKind::U64 => ScalarModel::U64(0),
        FieldKind::Key => ScalarModel::Key(Pubkey { hi: 0, lo: 0 }),
        FieldKind::Bytes => ScalarModel::Bytes(Seq::empty()),
        FieldKind::Enum(_) => ScalarModel::Enum(0, Seq::empty()),
    }
}

/// The starting value of a field: zero, false, empty, or an enum's first
/// variant with its fields at their starting values.
pub open spec fn default_scalar(t: Seq<Seq<Seq<FieldKind>>>, k: FieldKind) -> ScalarModel {
    match k {
        FieldKind::Enum(e) => if e < t.len() && t[e as int].len() > 0 {
            ScalarModel::Enum(0, t[e as int][0].map_values(|f: FieldKind| default_basic(f)))
        } else {
            ScalarModel::Enum(0, Seq::empty())
        },
        _ => default_basic(k),
    }
}

/// The value a freshly created account starts with.
pub open spec fn default_values(t: Seq<Seq<Seq<FieldKind>>>, layout: Seq<FieldKind>) -> Seq<
    ScalarModel,
> {
    layout.map_values(|k: FieldKind| default_scalar(t, k))
}

/// The checks on one typed account, in order: signer, writable, owner or
/// freshness, then decoding.
pub open spec fn check_direct(
    ty: AccountTypeDescriptor,
    c: Constraints,
    a: RawAccount,
    index: usize,
) -> Result<Seq<ScalarModel>, AccountError> {
    if c.signer && !a.is_signer {
        Err(AccountError::AccountNotSigner { index })
    } else if writes_back(c) && !a.is_writable {
        Err(AccountError::ConstraintMutViolation { index })
    } else {
        match c.init_mode {
            InitMode::Existing => if a.owner != c.owner {
                Err(AccountError::AccountOwnedByWrongProgram { index, expected: c.owner, actual: a.owner })
            } else {
                decode_result(ty, a.data@)
            },
            InitMode::Init => if is_fresh(a) {
                Ok(default_values(enum_table(ty), ty.layout@))
            } else {
                Err(AccountError::AccountAlreadyInitialized { index })
            },
            InitMode::InitIfNeeded => if is_fresh(a) {
                Ok(default_values(enum_table(ty), ty.layout@))
            } else if a.owner == c.owner {
                decode_result(ty, a.data@)
            } else {
                Err(AccountError::AccountOwnedByWrongProgram { index, expected: c.owner, actual: a.owner })
            },
        }
    }
}

/// Validates one field against the accounts from position `pos` on, giving
/// its node and the position after the accounts it took.
pub open spec fn eval_field(pid: Pubkey, f: FieldSpec, accts: Seq<RawAccount>, pos: int) -> Result<
    (NodeModel, int),
    AccountError,
>
    decreases f,
{
    match f {
        FieldSpec::Composite(fs) => match eval_fields(pid, fs@, accts, pos) {
            Ok((ns, q)) => Ok((NodeModel::Composite(ns), q)),
            Err(e) => Err(e),
        },
        FieldSpec::Optional(inner) => if 0 <= pos < accts.len() && accts[pos].key == pid {
            Ok((NodeModel::Absent, pos + 1))
        } else {
            eval_field(pid, *inner, accts, pos)
        },
        _ => if !(0 <= pos < accts.len()) {
            Err(AccountError::AccountNotEnoughKeys)
        } else {
            let a = accts[pos];
            let index = pos as usize;
            match f {
                FieldSpec::Direct { ty, constraints } => match check_direct(ty, constraints, a, index) {
                    Ok(v) => Ok(
                        (
                            NodeModel::Typed { index, key: a.key, constraints, value: v },
                            pos + 1,
                        ),
                    ),
                    Err(e) => Err(e),
                },
                FieldSpec::Signer => if !a.is_signer {
                    Err(AccountError::AccountNotSigner { index })
                } else {
                    Ok((NodeModel::Passthrough { index, key: a.key }, pos + 1))
                },
                FieldSpec::ProgramRef(id) => if a.key != id {
                    Err(AccountError::InvalidProgramId { index })
                } else {
                    Ok((NodeModel::Passthrough { index, key: a.key }, pos + 1))
                },
                _ => Ok((NodeModel::Passthrough { index, key: a.key }, pos + 1)),
            }
        },
    }
}

/// Validates fields in order; the first failure wins.
pub open spec fn eval_fields(
    pid: Pubkey,
    fs: Seq<FieldSpec>,
    accts: Seq<RawAccount>,
    pos: int,
) -> Result<(Seq<NodeModel>, int), AccountError>
    decreases fs,
{
    if fs.len() == 0 {
        Ok((Seq::empty(), pos))
    } else {
        match eval_fields(pid, fs.drop_last(), accts, pos) {
            Ok((ns, q)) => match eval_field(pid, fs.last(), accts, q) {
                Ok((n, r)) => Ok((ns.push(n), r)),
                Err(e) => Err(e),
            },
            Err(e) => Err(e),
        }
    }
}


fn default_basic_exec(k: FieldKind) -> (r: Scalar)
    ensures
        r@ == default_basic(k),
{
    let r = match k {
        FieldKind::U8 => Scalar::U8(0),
        FieldKind::Bool => Scalar::Bool(false),
        FieldKind::U64 => Scalar::U64(0),
        FieldKind::Key => Scalar::Key(Pubkey { hi: 0, lo: 0 }),
        FieldKind::Bytes => Scalar::Bytes(Vec::new()),
        FieldKind::Enum(_) => {
            let vs: Vec<Scalar> = Vec::new();
            assert(values_view(vs@) =~= Seq::<ScalarModel>::empty());
            Scalar::Enum(0, vs)
        },
    };
    r
}

fn default_run_exec(kinds: &Vec<FieldKind>) -> (r: Vec<Scalar>)
    ensures
        values_view(r@) == kinds@.map_values(|f: FieldKind| default_basic(f)),
{
    let mut out: Vec<Scalar> = Vec::new();
    let mut i: usize = 0;
    while i < kinds.len()
        invariant
            i <= kinds@.len(),
            values_view(out@) =~= kinds@.take(i as int).map_values(|f: FieldKind| default_basic(f)),
        decreases kinds@.len() - i,
    {
        let s = default_basic_exec(kinds[i]);
        proof {
            assert(out@.push(s).drop_last() =~= out@);
            assert(kinds@.take(i + 1).map_values(|f: FieldKind| default_basic(f)) =~= kinds@.take(
                i as int,
            ).map_values(|f: FieldKind| default_basic(f)).push(default_basic(kinds@[i as int])));
        }
        out.push(s);
        i = i + 1;
    }
    assert(kinds@.take(i as int) =~= kinds@);
    out
}

fn default_values_exec(ty: &AccountTypeDescriptor) -> (r: Vec<Scalar>)
    ensures
        values_view(r@) == default_values(enum_table(*ty), ty.layout@),
{
    let ghost t = enum_table(*ty);
    let mut out: Vec<Scalar> = Vec::new();
    let mut i: usize = 0;
    while i < ty.layout.len()
        invariant
            t == enum_table(*ty),
            i <= ty.layout@.len(),
            values_view(out@) =~= default_values(t, ty.layout@.take(i as int)),
        decreases ty.layout@.len() - i,
    {
        let k = ty.layout[i];
        let s = match k {
            FieldKind::Enum(e) => {
                if e < ty.enums.len() && ty.enums[e].len() > 0 {
                    let vs = default_run_exec(&ty.enums[e][0]);
                    assert(t[e as int][0] == ty.enums@[e as int]@[0]@);
                    Scalar::Enum(0, vs)
                } else {
                    let vs: Vec<Scalar> = Vec::new();
                    assert(values_view(vs@) =~= Seq::<ScalarModel>::empty());
                    Scalar::Enum(0, vs)
                }
            },
            _ => default_basic_exec(k),
        };
        proof {
            assert(s@ == default_scalar(t, k));
            assert(out@.push(s).drop_last() =~= out@);
            assert(default_values(t, ty.layout@.take(i + 1)) =~= default_values(
                t,
                ty.layout@.take(i as int),
            ).push(default_scalar(t, ty.layout@[i as int])));
        }
        out.push(s);
        i = i + 1;
    }
    assert(ty.layout@.take(i as int) =~= ty.layout@);
    out
}

fn check_direct_exec(ty: &AccountTypeDescriptor, c: Constraints, a: &RawAccount, index: usize) -> (r:
    Result<Vec<Scalar>, AccountError>)
    ensures
        match r {
            Ok(v) => check_direct(*ty, c, *a, index) == Ok::<_, AccountError>(values_view(v@)),
            Err(e) => check_direct(*ty, c, *a, index) == Err::<Seq<ScalarModel>, _>(e),
        },
{
    if c.signer && !a.is_signer {
        return Err(AccountError::AccountNotSigner { index });
    }
    if (c.mutable || c.init_mode != InitMode::Existing) && !a.is_writable {
        return Err(AccountError::ConstraintMutViolation { index });
    }
    let fresh = a.owner == system_program() && a.data.len() == 0;
    match c.init_mode {
        InitMode::Existing => {
            if a.owner != c.owner {
                Err(AccountError::AccountOwnedByWrongProgram { index, expected: c.owner, actual: a.owner })
            } else {
                decode(ty, a.data.as_slice())
            }
        },
        InitMode::Init => {
            if fresh {
                Ok(default_values_exec(ty))
            } else {
                Err(AccountError::AccountAlreadyInitialized { index })
            }
        },
        InitMode::InitIfNeeded => {
            if fresh {
                Ok(default_values_exec(ty))
            } else if a.owner == c.owner {
                decode(ty, a.data.as_slice())
            } else {
                Err(AccountError::AccountOwnedByWrongProgram { index, expected: c.owner, actual: a.owner })
            }
        },
    }
}

fn eval_field_exec(pid: Pubkey, f: &FieldSpec, accts: &Vec<RawAccount>, pos: usize) -> (r: Result<
    (Node, usize),
    AccountError,
>)
    requires
        pos <= accts@.len(),
    ensures
        match r {
            Ok((n, q)) => eval_field(pid, *f, accts@, pos as int) == Ok::<_, AccountError>(
                (node_view(n), q as int),
            ) && q <= accts@.len(),
            Err(e) => eval_field(pid, *f, accts@, pos as int) == Err::<(NodeModel, int), _>(e),
        },
    decreases f,
{
    match f {
        FieldSpec::Composite(fs) => {
            match eval_fields_exec(pid, fs, accts, pos) {
                Ok((ns, q)) => Ok((Node::Composite(ns), q)),
                Err(e) => Err(e),
            }
        },
        FieldSpec::Optional(inner) => {
            if pos < accts.len() && accts[pos].key == pid {
                Ok((Node::Absent, pos + 1))
            } else {
                eval_field_exec(pid, inner, accts, pos)
            }
        },
        _ => {
            if pos >= accts.len() {
                return Err(AccountError::AccountNotEnoughKeys);
            }
            let a = &accts[pos];
            match f {
                FieldSpec::Direct { ty, constraints } => {
                    match check_direct_exec(ty, *constraints, a, pos) {
                        Ok(v) => {
                            let h = TypedAccountHandle {
                                index: pos,
                                key: a.key,
                                constraints: *constraints,
                                value: v,
                            };
                            Ok((Node::Typed(h), pos + 1))
                        },
                        Err(e) => Err(e),
                    }
                },
                FieldSpec::Signer => {
                    if !a.is_signer {
                        Err(AccountError::AccountNotSigner { index: pos })
                    } else {
                        Ok((Node::Passthrough { index: pos, key: a.key }, pos + 1))
                    }
                },
                FieldSpec::ProgramRef(id) => {
                    if a.key != *id {
                        Err(AccountError::InvalidProgramId { index: pos })
                    } else {
                        Ok((Node::Passthrough { index: pos, key: a.key }, pos + 1))
                    }
                },
                _ => Ok((Node::Passthrough { index: pos, key: a.key }, pos + 1)),
            }
        },
    }
}

proof fn lemma_eval_fields_stays_failed(
    pid: Pubkey,
    fs: Seq<FieldSpec>,
    accts: Seq<RawAccount>,
    pos: int,
    n: int,
    m: int,
    e: AccountError,
)
    requires
        0 <= n <= m <= fs.len(),
        eval_fields(pid, fs.take(n), accts, pos) == Err::<(Seq<NodeModel>, int), _>(e),
    ensures
        eval_fields(pid, fs.take(m), accts, pos) == Err::<(Seq<NodeModel>, int), _>(e),
    decreases m - n,
{
    if n < m {
        lemma_eval_fields_stays_failed(pid, fs, accts, pos, n, m - 1, e);
        assert(fs.take(m).drop_last() =~= fs.take(m - 1));
    }
}

fn eval_fields_exec(pid: Pubkey, fs: &Vec<FieldSpec>, accts: &Vec<RawAccount>, pos: usize) -> (r:
    Result<(Vec<Node>, usize), AccountError>)
    requires
        pos <= accts@.len(),
    ensures
        match r {
            Ok((ns, q)) => eval_fields(pid, fs@, accts@, pos as int) == Ok::<_, AccountError>(
                (nodes_view(ns@), q as int),
            ) && q <= accts@.len(),
            Err(e) => eval_fields(pid, fs@, accts@, pos as int) == Err::<(Seq<NodeModel>, int), _>(
                e,
            ),
        },
    decreases fs,
{
    let mut out: Vec<Node> = Vec::new();
    let mut cur: usize = pos;
    let mut i: usize = 0;
    assert(fs@.take(0) =~= Seq::<FieldSpec>::empty());
    assert(nodes_view(out@) =~= Seq::<NodeModel>::empty());
    while i < fs.len()
        invariant
            i <= fs@.len(),
            cur <= accts@.len(),
            pos <= accts@.len(),
            eval_fields(pid, fs@.take(i as int), accts@, pos as int) == Ok::<_, AccountError>(
                (nodes_view(out@), cur as int),
            ),
        decreases fs@.len() - i,
    {
        proof {
            assert(fs@.take(i + 1).drop_last() =~= fs@.take(i as int));
            assert(fs@.take(i + 1).last() == fs@[i as int]);
        }
        match eval_field_exec(pid, &fs[i], accts, cur) {
            Ok((n, q)) => {
                proof {
                    assert(out@.push(n).drop_last() =~= out@);
                }
                out.push(n);
                cur = q;
                i = i + 1;
            },
            Err(e) => {
                proof {
                    lemma_eval_fields_stays_failed(
                        pid,
                        fs@,
                        accts@,
                        pos as int,
                        i + 1,
                        fs@.len() as int,
                        e,
                    );
                    assert(fs@.take(fs@.len() as int) =~= fs@);
                }
                return Err(e);
            },
        }
    }
    assert(fs@.take(i as int) =~= fs@);
    Ok((out, cur))
}

/// Validates the supplied accounts against a schema, in schema order, and
/// gives the tree of validated fields, or the first failure.
///
/// `program_id` is the running program's id; an optional field whose account
/// is that id is absent.
pub fn validate(program_id: Pubkey, schema: &Vec<FieldSpec>, accounts: &Vec<RawAccount>) -> (r:
    Result<Vec<Node>, AccountError>)
    ensures
        match r {
            Ok(t) => eval_fields(program_id, schema@, accounts@, 0) matches Ok((ns, _)) && ns
                == nodes_view(t@),
            Err(e) => eval_fields(program_id, schema@, accounts@, 0) == Err::<
                (Seq<NodeModel>, int),
                _,
            >(e),
        },
{
    match eval_fields_exec(program_id, schema, accounts, 0) {
        Ok((t, _)) => Ok(t),
        Err(e) => Err(e),
    }
}

} // verus!
