use vstd::prelude::*;
use vstd::bytes::*;
use vstd::slice::*;
use crate::account::Pubkey;
use crate::error::AccountError;

verus! {

/// The kind of one field of an account record.
#[derive(Clone, Copy, PartialEq, Eq, Structural, Debug)]
pub enum FieldKind {
    U8,
    Bool,
    U64,
    Key,
    /// A byte string with a little-endian `u32` length prefix.
    Bytes,
    /// An enum: a `u8` variant index, then that variant's fields. The number
    /// picks the enum's variant table in the type's descriptor. A variant's
    /// fields are of the other kinds.
    Enum(usize),
}

/// How the payload after the discriminator is laid out.
#[derive(Clone, Copy, PartialEq, Eq, Structural, Debug)]
pub enum CodecMode {
    /// Fields in declaration order; trailing bytes after the last field are ignored.
    TaggedVariableLength,
    /// The packed record fills the rest of the buffer exactly. Only
    /// fixed-size kinds may stand in it: no byte strings and no enums.
    FixedLayoutPlainData,
}

/// Compiled description of one account type.
pub struct AccountTypeDescriptor {
    pub name: String,
    pub discriminator: Vec<u8>,
    pub mode: CodecMode,
    pub layout: Vec<FieldKind>,
    /// For each enum the layout refers to, the field kinds of each variant,
    /// by variant index.
    pub enums: Vec<Vec<Vec<FieldKind>>>,
}

/// One decoded field value.
#[derive(PartialEq, Eq, Debug)]
pub enum Scalar {
    U8(u8),
    Bool(bool),
    U64(u64),
    Key(Pubkey),
    Bytes(Vec<u8>),
    /// A variant index and the variant's field values.
    Enum(u8, Vec<Scalar>),
}

/// The mathematical value of a [`Scalar`].
pub enum ScalarModel {
    U8(u8),
    Bool(bool),
    U64(u64),
    Key(Pubkey),
    Bytes(Seq<u8>),
    Enum(u8, Seq<ScalarModel>),
}

pub open spec fn scalar_view(s: Scalar) -> ScalarModel
    decreases s,
{
    match s {
        Scalar::U8(x) => ScalarModel::U8(x),
        Scalar::Bool(b) => ScalarModel::Bool(b),
        Scalar::U64(x) => ScalarModel::U64(x),
        Scalar::Key(k) => ScalarModel::Key(k),
        Scalar::Bytes(b) => ScalarModel::Bytes(b@),
        Scalar::Enum(tag, vs) => ScalarModel::Enum(tag, values_view(vs@)),
    }
}

pub open spec fn values_view(v: Seq<Scalar>) -> Seq<ScalarModel>
    decreases v,
{
    if v.len() == 0 {
        Seq::empty()
    } else {
        values_view(v.drop_last()).push(scalar_view(v.last()))
    }
}

impl View for Scalar {
    type V = ScalarModel;

    open spec fn view(&self) -> ScalarModel {
        scalar_view(*self)
    }
}

proof fn lemma_values_view_index(v: Seq<Scalar>)
    ensures
        values_view(v).len() == v.len(),
        forall|i: int| 0 <= i < v.len() ==> #[trigger] values_view(v)[i] == scalar_view(v[i]),
    decreases v.len(),
{
    if v.len() > 0 {
        lemma_values_view_index(v.drop_last());
    }
}

/// The variant tables of a descriptor, as field kinds.
pub open spec fn enum_table(d: AccountTypeDescriptor) -> Seq<Seq<Seq<FieldKind>>> {
    d.enums@.map_values(|e: Vec<Vec<FieldKind>>| e@.map_values(|v: Vec<FieldKind>| v@))
}

/// Whether a value can be written as a field of a kind other than an enum.
pub open spec fn fits_basic(k: FieldKind, s: ScalarModel) -> bool {
    match (k, s) {
        (FieldKind::U8, ScalarModel::U8(_)) => true,
        (FieldKind::Bool, ScalarModel::Bool(_)) => true,
        (FieldKind::U64, ScalarModel::U64(_)) => true,
        (FieldKind::Key, ScalarModel::Key(_)) => true,
        (FieldKind::Bytes, ScalarModel::Bytes(b)) => b.len() <= u32::MAX,
        _ => false,
    }
}

/// Whether values can be written as the fields of one enum variant.
pub open spec fn basic_representable(kinds: Seq<FieldKind>, vals: Seq<ScalarModel>) -> bool {
    &&& vals.len() == kinds.len()
    &&& forall|i: int| 0 <= i < vals.len() ==> #[trigger] fits_basic(kinds[i], vals[i])
}

/// Whether a value can be written as a field of the given kind.
pub open spec fn fits(t: Seq<Seq<Seq<FieldKind>>>, k: FieldKind, s: ScalarModel) -> bool {
    match k {
        FieldKind::Enum(e) => match s {
            ScalarModel::Enum(tag, vs) => e < t.len() && (tag as int) < t[e as int].len()
                && basic_representable(t[e as int][tag as int], vs),
            _ => false,
        },
        _ => fits_basic(k, s),
    }
}

/// Whether a record of values can be written under a layout.
pub open spec fn representable(
    t: Seq<Seq<Seq<FieldKind>>>,
    layout: Seq<FieldKind>,
    vals: Seq<ScalarModel>,
) -> bool {
    &&& vals.len() == layout.len()
    &&& forall|i: int| 0 <= i < vals.len() ==> #[trigger] fits(t, layout[i], vals[i])
}

/// Whether a layout has fixed size: no byte strings and no enums.
pub open spec fn fixed_size_layout(layout: Seq<FieldKind>) -> bool {
    forall|i: int| 0 <= i < layout.len() ==> !(#[trigger] layout[i] is Bytes) && !(layout[i] is Enum)
}

/// Whether the descriptor's layout suits its mode.
pub open spec fn layout_allowed(d: AccountTypeDescriptor) -> bool {
    d.mode == CodecMode::FixedLayoutPlainData ==> fixed_size_layout(d.layout@)
}

/// Whether a record can be encoded under a descriptor.
pub open spec fn encodable(d: AccountTypeDescriptor, vals: Seq<ScalarModel>) -> bool {
    layout_allowed(d) && representable(enum_table(d), d.layout@, vals)
}

pub open spec fn key_bytes(k: Pubkey) -> Seq<u8> {
    spec_u128_to_le_bytes(k.hi) + spec_u128_to_le_bytes(k.lo)
}

pub open spec fn scalar_bytes(s: ScalarModel) -> Seq<u8>
    decreases s,
{
    match s {
        ScalarModel::U8(x) => seq![x],
        ScalarModel::Bool(b) => seq![if b { 1u8 } else { 0u8 }],
        ScalarModel::U64(x) => spec_u64_to_le_bytes(x),
        ScalarModel::Key(k) => key_bytes(k),
        ScalarModel::Bytes(b) => spec_u32_to_le_bytes(b.len() as u32) + b,
        ScalarModel::Enum(tag, vs) => seq![tag] + payload_bytes(vs),
    }
}

/// The payload of a record: its fields' bytes, one after the other.
pub open spec fn payload_bytes(vals: Seq<ScalarModel>) -> Seq<u8>
    decreases vals,
{
    if vals.len() == 0 {
        Seq::empty()
    } else {
        payload_bytes(vals.drop_last()) + scalar_bytes(vals.last())
    }
}

/// The full account image of a record: discriminator, then payload.
pub open spec fn encoding(d: AccountTypeDescriptor, vals: Seq<ScalarModel>) -> Seq<u8> {
    d.discriminator@ + payload_bytes(vals)
}

/// Reads one field of a kind other than an enum at position `p`, giving the
/// value and the next position.
pub open spec fn read_basic(k: FieldKind, b: Seq<u8>, p: int) -> Option<(ScalarModel, int)> {
    match k {
        FieldKind::U8 => if p + 1 <= b.len() {
            Some((ScalarModel::U8(b[p]), p + 1))
        } else {
            None
        },
        FieldKind::Bool => if p + 1 <= b.len() && b[p] == 0 {
            Some((ScalarModel::Bool(false), p + 1))
        } else if p + 1 <= b.len() && b[p] == 1 {
            Some((ScalarModel::Bool(true), p + 1))
        } else {
            None
        },
        FieldKind::U64 => if p + 8 <= b.len() {
            Some((ScalarModel::U64(spec_u64_from_le_bytes(b.subrange(p, p + 8))), p + 8))
        } else {
            None
        },
        FieldKind::Key => if p + 32 <= b.len() {
            Some(
                (
                    ScalarModel::Key(
                        Pubkey {
                            hi: spec_u128_from_le_bytes(b.subrange(p, p + 16)),
                            lo: spec_u128_from_le_bytes(b.subrange(p + 16, p + 32)),
                        },
                    ),
                    p + 32,
                ),
            )
        } else {
            None
        },
        FieldKind::Bytes => if p + 4 <= b.len() {
            let n = spec_u32_from_le_bytes(b.subrange(p, p + 4)) as int;
            if p + 4 + n <= b.len() {
                Some((ScalarModel::Bytes(b.subrange(p + 4, p + 4 + n)), p + 4 + n))
            } else {
                None
            }
        } else {
            None
        },
        FieldKind::Enum(_) => None,
    }
}

/// Reads the first `n` fields of an enum variant from position `p`.
pub open spec fn read_run(kinds: Seq<FieldKind>, b: Seq<u8>, p: int, n: nat) -> Option<
    (Seq<ScalarModel>, int),
>
    decreases n,
{
    if n == 0 {
        Some((Seq::empty(), p))
    } else {
        match read_run(kinds, b, p, (n - 1) as nat) {
            Some((vs, q)) => match read_basic(kinds[n - 1], b, q) {
                Some((s, r)) => Some((vs.push(s), r)),
                None => None,
            },
            None => None,
        }
    }
}

/// Reads one field of kind `k` at position `p`, giving the value and the next
/// position. An enum's variant index must name one of its variants.
pub open spec fn read_scalar(t: Seq<Seq<Seq<FieldKind>>>, k: FieldKind, b: Seq<u8>, p: int) -> Option<
    (ScalarModel, int),
> {
    match k {
        FieldKind::Enum(e) => if e < t.len() && 0 <= p < b.len() && (b[p] as int) < t[e as int].len() {
            let kinds = t[e as int][b[p] as int];
            match read_run(kinds, b, p + 1, kinds.len()) {
                Some((vs, q)) => Some((ScalarModel::Enum(b[p], vs), q)),
                None => None,
            }
        } else {
            None
        },
        _ => read_basic(k, b, p),
    }
}

/// Reads the first `n` fields of `layout` from the start of `b`.
pub open spec fn read_fields(
    t: Seq<Seq<Seq<FieldKind>>>,
    layout: Seq<FieldKind>,
    b: Seq<u8>,
    n: nat,
) -> Option<(Seq<ScalarModel>, int)>
    decreases n,
{
    if n == 0 {
        Some((Seq::empty(), 0))
    } else {
        match read_fields(t, layout, b, (n - 1) as nat) {
            Some((vs, p)) => match read_scalar(t, layout[n - 1], b, p) {
                Some((s, q)) => Some((vs.push(s), q)),
                None => None,
            },
            None => None,
        }
    }
}

/// What decoding the bytes after the discriminator gives.
pub open spec fn payload_result(d: AccountTypeDescriptor, payload: Seq<u8>) -> Result<
    Seq<ScalarModel>,
    AccountError,
> {
    if !layout_allowed(d) {
        Err(AccountError::AccountDidNotDeserialize)
    } else {
        match read_fields(enum_table(d), d.layout@, payload, d.layout@.len()) {
            Some((vs, p)) => if d.mode == CodecMode::FixedLayoutPlainData && p != payload.len() {
                Err(AccountError::AccountDidNotDeserialize)
            } else {
                Ok(vs)
            },
            None => Err(AccountError::AccountDidNotDeserialize),
        }
    }
}

/// What decoding a whole account buffer gives.
pub open spec fn decode_result(d: AccountTypeDescriptor, buf: Seq<u8>) -> Result<
    Seq<ScalarModel>,
    AccountError,
> {
    let n = d.discriminator@.len();
    if buf.len() < n {
        Err(AccountError::AccountDiscriminatorNotFound)
    } else if buf.subrange(0, n as int) != d.discriminator@ {
        Err(AccountError::AccountDiscriminatorMismatch { account_type: d.name })
    } else {
        payload_result(d, buf.subrange(n as int, buf.len() as int))
    }
}

fn read_basic_exec(k: FieldKind, b: &[u8], p: usize) -> (r: Option<(Scalar, usize)>)
    requires
        p <= b@.len(),
    ensures
        match r {
            Some((s, q)) => read_basic(k, b@, p as int) == Some((s@, q as int)),
            None => read_basic(k, b@, p as int) is None,
        },
{
    let len = b.len();
    match k {
        FieldKind::U8 => {
            if len - p >= 1 {
                Some((Scalar::U8(b[p]), p + 1))
            } else {
                None
            }
        },
        FieldKind::Bool => {
            if len - p >= 1 && b[p] == 0 {
                Some((Scalar::Bool(false), p + 1))
            } else if len - p >= 1 && b[p] == 1 {
                Some((Scalar::Bool(true), p + 1))
            } else {
                None
            }
        },
        FieldKind::U64 => {
            if len - p >= 8 {
                let x = u64_from_le_bytes(slice_subrange(b, p, p + 8));
                Some((Scalar::U64(x), p + 8))
            } else {
                None
            }
        },
        FieldKind::Key => {
            if len - p >= 32 {
                let hi = u128_from_le_bytes(slice_subrange(b, p, p + 16));
                let lo = u128_from_le_bytes(slice_subrange(b, p + 16, p + 32));
                Some((Scalar::Key(Pubkey { hi, lo }), p + 32))
            } else {
                None
            }
        },
        FieldKind::Bytes => {
            if len - p >= 4 {
                let n32 = u32_from_le_bytes(slice_subrange(b, p, p + 4));
                let n: usize = n32 as usize;
                if len - p - 4 >= n {
                    let v = slice_to_vec(slice_subrange(b, p + 4, p + 4 + n));
                    Some((Scalar::Bytes(v), p + 4 + n))
                } else {
                    None
                }
            } else {
                None
            }
        },
        FieldKind::Enum(_) => None,
    }
}


proof fn lemma_read_run_stays_failed(kinds: Seq<FieldKind>, b: Seq<u8>, p: int, n: nat, m: nat)
    requires
        n <= m,
        read_run(kinds, b, p, n) is None,
    ensures
        read_run(kinds, b, p, m) is None,
    decreases m - n,
{
    if n < m {
        lemma_read_run_stays_failed(kinds, b, p, n, (m - 1) as nat);
    }
}

fn read_run_exec(kinds: &Vec<FieldKind>, b: &[u8], p: usize) -> (r: Option<(Vec<Scalar>, usize)>)
    requires
        p <= b@.len(),
    ensures
        match r {
            Some((vs, q)) => read_run(kinds@, b@, p as int, kinds@.len()) == Some(
                (values_view(vs@), q as int),
            ) && q <= b@.len(),
            None => read_run(kinds@, b@, p as int, kinds@.len()) is None,
        },
{
    let mut vals: Vec<Scalar> = Vec::new();
    let mut pos: usize = p;
    let mut i: usize = 0;
    while i < kinds.len()
        invariant
            i <= kinds@.len(),
            pos <= b@.len(),
            read_run(kinds@, b@, p as int, i as nat) == Some((values_view(vals@), pos as int)),
        decreases kinds@.len() - i,
    {
        match read_basic_exec(kinds[i], b, pos) {
            Some((s, q)) => {
                proof {
                    assert(vals@.push(s).drop_last() =~= vals@);
                }
                vals.push(s);
                pos = q;
                i = i + 1;
            },
            None => {
                proof {
                    lemma_read_run_stays_failed(kinds@, b@, p as int, (i + 1) as nat, kinds@.len());
                }
                return None;
            },
        }
    }
    Some((vals, pos))
}

fn read_scalar_exec(enums: &Vec<Vec<Vec<FieldKind>>>, k: FieldKind, b: &[u8], p: usize) -> (r:
    Option<(Scalar, usize)>)
    requires
        p <= b@.len(),
    ensures
        match r {
            Some((s, q)) => read_scalar(
                enums@.map_values(|e: Vec<Vec<FieldKind>>| e@.map_values(|v: Vec<FieldKind>| v@)),
                k,
                b@,
                p as int,
            ) == Some((s@, q as int)) && q <= b@.len(),
            None => read_scalar(
                enums@.map_values(|e: Vec<Vec<FieldKind>>| e@.map_values(|v: Vec<FieldKind>| v@)),
                k,
                b@,
                p as int,
            ) is None,
        },
{
    let ghost t = enums@.map_values(|e: Vec<Vec<FieldKind>>| e@.map_values(|v: Vec<FieldKind>| v@));
    match k {
        FieldKind::Enum(e) => {
            if e < enums.len() && p < b.len() && (b[p] as usize) < enums[e].len() {
                let tag = b[p];
                let kinds = &enums[e][tag as usize];
                assert(t[e as int][tag as int] == kinds@);
                match read_run_exec(kinds, b, p + 1) {
                    Some((vs, q)) => {
                        let s = Scalar::Enum(tag, vs);
                        assert(s@ == ScalarModel::Enum(tag, values_view(vs@)));
                        Some((s, q))
                    },
                    None => None,
                }
            } else {
                None
            }
        },
        _ => {
            read_basic_exec(k, b, p)
        },
    }
}

proof fn lemma_read_fields_stays_failed(
    t: Seq<Seq<Seq<FieldKind>>>,
    layout: Seq<FieldKind>,
    b: Seq<u8>,
    n: nat,
    m: nat,
)
    requires
        n <= m,
        read_fields(t, layout, b, n) is None,
    ensures
        read_fields(t, layout, b, m) is None,
    decreases m - n,
{
    if n < m {
        lemma_read_fields_stays_failed(t, layout, b, n, (m - 1) as nat);
    }
}

fn plain_layout_exec(layout: &Vec<FieldKind>) -> (r: bool)
    ensures
        r == fixed_size_layout(layout@),
{
    let mut i: usize = 0;
    while i < layout.len()
        invariant
            i <= layout@.len(),
            forall|j: int| 0 <= j < i ==> !(#[trigger] layout@[j] is Bytes) && !(layout@[j] is Enum),
        decreases layout@.len() - i,
    {
        match layout[i] {
            FieldKind::Bytes => {
                return false;
            },
            FieldKind::Enum(_) => {
                return false;
            },
            _ => {},
        }
        i = i + 1;
    }
    true
}

fn layout_allowed_exec(d: &AccountTypeDescriptor) -> (r: bool)
    ensures
        r == layout_allowed(*d),
{
    d.mode != CodecMode::FixedLayoutPlainData || plain_layout_exec(&d.layout)
}

/// Decodes the bytes that follow an already-checked discriminator.
pub fn decode_unchecked(d: &AccountTypeDescriptor, payload: &[u8]) -> (r: Result<
    Vec<Scalar>,
    AccountError,
>)
    ensures
        match r {
            Ok(v) => payload_result(*d, payload@) == Ok::<_, AccountError>(values_view(v@)),
            Err(e) => payload_result(*d, payload@) == Err::<Seq<ScalarModel>, _>(e),
        },
{
    if !layout_allowed_exec(d) {
        return Err(AccountError::AccountDidNotDeserialize);
    }
    let ghost t = enum_table(*d);
    let mut vals: Vec<Scalar> = Vec::new();
    let mut pos: usize = 0;
    let mut i: usize = 0;
    while i < d.layout.len()
        invariant
            t == enum_table(*d),
            i <= d.layout@.len(),
            pos <= payload@.len(),
            read_fields(t, d.layout@, payload@, i as nat) == Some((values_view(vals@), pos as int)),
        decreases d.layout@.len() - i,
    {
        match read_scalar_exec(&d.enums, d.layout[i], payload, pos) {
            Some((s, q)) => {
                proof {
                    assert(vals@.push(s).drop_last() =~= vals@);
                }
                vals.push(s);
                pos = q;
                i = i + 1;
            },
            None => {
                proof {
                    lemma_read_fields_stays_failed(
                        t,
                        d.layout@,
                        payload@,
                        (i + 1) as nat,
                        d.layout@.len(),
                    );
                }
                return Err(AccountError::AccountDidNotDeserialize);
            },
        }
    }
    if d.mode == CodecMode::FixedLayoutPlainData && pos != payload.len() {
        return Err(AccountError::AccountDidNotDeserialize);
    }
    Ok(vals)
}

fn starts_with(buf: &[u8], prefix: &Vec<u8>) -> (r: bool)
    requires
        prefix@.len() <= buf@.len(),
    ensures
        r == (buf@.subrange(0, prefix@.len() as int) == prefix@),
{
    let mut i: usize = 0;
    while i < prefix.len()
        invariant
            i <= prefix@.len() <= buf@.len(),
            forall|j: int| 0 <= j < i ==> buf@[j] == prefix@[j],
        decreases prefix@.len() - i,
    {
        if buf[i] != prefix[i] {
            assert(buf@.subrange(0, prefix@.len() as int)[i as int] != prefix@[i as int]);
            return false;
        }
        i = i + 1;
    }
    assert(buf@.subrange(0, prefix@.len() as int) =~= prefix@);
    true
}

/// Decodes an account buffer: checks the discriminator, then the payload.
pub fn decode(d: &AccountTypeDescriptor, buf: &[u8]) -> (r: Result<Vec<Scalar>, AccountError>)
    ensures
        match r {
            Ok(v) => decode_result(*d, buf@) == Ok::<_, AccountError>(values_view(v@)),
            Err(e) => decode_result(*d, buf@) == Err::<Seq<ScalarModel>, _>(e),
        },
{
    let n = d.discriminator.len();
    if buf.len() < n {
        return Err(AccountError::AccountDiscriminatorNotFound);
    }
    if !starts_with(buf, &d.discriminator) {
        return Err(AccountError::AccountDiscriminatorMismatch { account_type: d.name.clone() });
    }
    decode_unchecked(d, slice_subrange(buf, n, buf.len()))
}

fn fits_basic_exec(k: FieldKind, s: &Scalar) -> (r: bool)
    ensures
        r == fits_basic(k, s@),
{
    match (k, s) {
        (FieldKind::U8, Scalar::U8(_)) => true,
        (FieldKind::Bool, Scalar::Bool(_)) => true,
        (FieldKind::U64, Scalar::U64(_)) => true,
        (FieldKind::Key, Scalar::Key(_)) => true,
        (FieldKind::Bytes, Scalar::Bytes(b)) => b.len() as u64 <= u32::MAX as u64,
        _ => false,
    }
}

fn fits_exec(enums: &Vec<Vec<Vec<FieldKind>>>, k: FieldKind, s: &Scalar) -> (r: bool)
    ensures
        r == fits(
            enums@.map_values(|e: Vec<Vec<FieldKind>>| e@.map_values(|v: Vec<FieldKind>| v@)),
            k,
            s@,
        ),
{
    let ghost t = enums@.map_values(|e: Vec<Vec<FieldKind>>| e@.map_values(|v: Vec<FieldKind>| v@));
    match k {
        FieldKind::Enum(e) => match s {
            Scalar::Enum(tag, vs) => {
                proof {
                    lemma_values_view_index(vs@);
                }
                if e >= enums.len() || (*tag as usize) >= enums[e].len() {
                    return false;
                }
                let kinds = &enums[e][*tag as usize];
                assert(t[e as int][*tag as int] == kinds@);
                if vs.len() != kinds.len() {
                    return false;
                }
                assert(s@ == ScalarModel::Enum(*tag, values_view(vs@)));
                let mut i: usize = 0;
                while i < vs.len()
                    invariant
                        k == FieldKind::Enum(e),
                        s@ == ScalarModel::Enum(*tag, values_view(vs@)),
                        t[e as int][*tag as int] == kinds@,
                        e < t.len(),
                        (*tag as int) < t[e as int].len(),
                        t == enums@.map_values(
                            |e: Vec<Vec<FieldKind>>| e@.map_values(|v: Vec<FieldKind>| v@),
                        ),
                        vs@.len() == kinds@.len(),
                        values_view(vs@).len() == vs@.len(),
                        forall|j: int| 0 <= j < vs@.len() ==> #[trigger] values_view(vs@)[j] == scalar_view(vs@[j]),
                        i <= vs@.len(),
                        forall|j: int| 0 <= j < i ==> #[trigger] fits_basic(kinds@[j], values_view(vs@)[j]),
                    decreases vs@.len() - i,
                {
                    if !fits_basic_exec(kinds[i], &vs[i]) {
                        assert(!fits_basic(kinds@[i as int], values_view(vs@)[i as int]));
                        assert(!basic_representable(kinds@, values_view(vs@)));
                        return false;
                    }
                    i = i + 1;
                }
                true
            },
            _ => false,
        },
        _ => fits_basic_exec(k, s),
    }
}

fn write_basic(out: &mut Vec<u8>, s: &Scalar)
    requires
        !(s@ is Enum),
        s@ is Bytes ==> s@->Bytes_0.len() <= u32::MAX,
    ensures
        final(out)@ == old(out)@ + scalar_bytes(s@),
{
    match s {
        Scalar::U8(x) => {
            out.push(*x);
            assert(final(out)@ =~= old(out)@ + seq![*x]);
        },
        Scalar::Bool(b) => {
            let x: u8 = if *b { 1 } else { 0 };
            out.push(x);
            assert(final(out)@ =~= old(out)@ + seq![x]);
        },
        Scalar::U64(x) => {
            let mut v = u64_to_le_bytes(*x);
            out.append(&mut v);
        },
        Scalar::Key(k) => {
            let mut hi = u128_to_le_bytes(k.hi);
            let mut lo = u128_to_le_bytes(k.lo);
            out.append(&mut hi);
            out.append(&mut lo);
            assert(final(out)@ =~= old(out)@ + key_bytes(*k));
        },
        Scalar::Bytes(b) => {
            let mut len = u32_to_le_bytes(b.len() as u32);
            out.append(&mut len);
            let mut i: usize = 0;
            while i < b.len()
                invariant
                    i <= b@.len(),
                    out@ == old(out)@ + spec_u32_to_le_bytes(b@.len() as u32) + b@.subrange(
                        0,
                        i as int,
                    ),
                decreases b@.len() - i,
            {
                out.push(b[i]);
                proof {
                    assert(b@.subrange(0, i + 1) =~= b@.subrange(0, i as int).push(b@[i as int]));
                }
                i = i + 1;
            }
            assert(b@.subrange(0, b@.len() as int) =~= b@);
        },
        Scalar::Enum(_, _) => {},
    }
}

proof fn lemma_payload_step(vals: Seq<ScalarModel>, i: int)
    requires
        0 <= i < vals.len(),
    ensures
        payload_bytes(vals.take(i + 1)) == payload_bytes(vals.take(i)) + scalar_bytes(vals[i]),
{
    assert(vals.take(i + 1).drop_last() =~= vals.take(i));
}

fn write_scalar(enums: &Vec<Vec<Vec<FieldKind>>>, out: &mut Vec<u8>, k: FieldKind, s: &Scalar)
    requires
        fits(
            enums@.map_values(|e: Vec<Vec<FieldKind>>| e@.map_values(|v: Vec<FieldKind>| v@)),
            k,
            s@,
        ),
    ensures
        final(out)@ == old(out)@ + scalar_bytes(s@),
{
    let ghost t = enums@.map_values(|e: Vec<Vec<FieldKind>>| e@.map_values(|v: Vec<FieldKind>| v@));
    match k {
        FieldKind::Enum(e) => match s {
            Scalar::Enum(tag, vs) => {
                let ghost start = out@;
                let ghost m = values_view(vs@);
                proof {
                    lemma_values_view_index(vs@);
                }
                let kinds = &enums[e][*tag as usize];
                assert(t[e as int][*tag as int] == kinds@);
                out.push(*tag);
                assert(m.take(0) =~= Seq::<ScalarModel>::empty());
                assert(out@ =~= start + seq![*tag] + payload_bytes(m.take(0)));
                let mut i: usize = 0;
                while i < vs.len()
                    invariant
                        m == values_view(vs@),
                        m.len() == vs@.len(),
                        forall|j: int| 0 <= j < vs@.len() ==> #[trigger] m[j] == scalar_view(vs@[j]),
                        basic_representable(kinds@, m),
                        i <= vs@.len(),
                        out@ == start + seq![*tag] + payload_bytes(m.take(i as int)),
                    decreases vs@.len() - i,
                {
                    proof {
                        lemma_payload_step(m, i as int);
                        assert(fits_basic(kinds@[i as int], m[i as int]));
                    }
                    write_basic(out, &vs[i]);
                    assert(out@ =~= start + seq![*tag] + payload_bytes(m.take(i + 1)));
                    i = i + 1;
                }
                assert(m.take(i as int) =~= m);
                assert(out@ =~= start + scalar_bytes(s@));
            },
            _ => {},
        },
        _ => {
            write_basic(out, s);
        },
    }
}

/// Builds the full account image of a record, if it can be encoded.
fn encode_to_vec(d: &AccountTypeDescriptor, vals: &Vec<Scalar>) -> (r: Option<Vec<u8>>)
    ensures
        r is Some <==> encodable(*d, values_view(vals@)),
        r is Some ==> r->0@ == encoding(*d, values_view(vals@)),
{
    proof {
        lemma_values_view_index(vals@);
    }
    if !layout_allowed_exec(d) {
        return None;
    }
    if vals.len() != d.layout.len() {
        return None;
    }
    let ghost vs = values_view(vals@);
    let ghost t = enum_table(*d);
    let mut out: Vec<u8> = Vec::new();
    let mut j: usize = 0;
    while j < d.discriminator.len()
        invariant
            j <= d.discriminator@.len(),
            out@ == d.discriminator@.subrange(0, j as int),
        decreases d.discriminator@.len() - j,
    {
        out.push(d.discriminator[j]);
        proof {
            assert(d.discriminator@.subrange(0, j + 1) =~= d.discriminator@.subrange(
                0,
                j as int,
            ).push(d.discriminator@[j as int]));
        }
        j = j + 1;
    }
    assert(d.discriminator@.subrange(0, j as int) =~= d.discriminator@);
    assert(vs.take(0) =~= Seq::<ScalarModel>::empty());
    let mut i: usize = 0;
    while i < vals.len()
        invariant
            vals@.len() == d.layout@.len(),
            vs == values_view(vals@),
            t == enum_table(*d),
            vs.len() == vals@.len(),
            forall|k: int| 0 <= k < vals@.len() ==> #[trigger] vs[k] == scalar_view(vals@[k]),
            i <= vals@.len(),
            forall|k: int| 0 <= k < i ==> #[trigger] fits(t, d.layout@[k], vs[k]),
            out@ == d.discriminator@ + payload_bytes(vs.take(i as int)),
        decreases vals@.len() - i,
    {
        if !fits_exec(&d.enums, d.layout[i], &vals[i]) {
            assert(!fits(t, d.layout@[i as int], vs[i as int]));
            return None;
        }
        proof {
            lemma_payload_step(vs, i as int);
        }
        write_scalar(&d.enums, &mut out, d.layout[i], &vals[i]);
        assert(out@ =~= d.discriminator@ + payload_bytes(vs.take(i + 1)));
        i = i + 1;
    }
    assert(vs.take(i as int) =~= vs);
    Some(out)
}

/// Writes a record into the front of an account buffer; the buffer keeps its length.
///
/// Fails, leaving the buffer as it was, when a value does not fit its field or
/// the image does not fit the buffer.
pub fn encode(d: &AccountTypeDescriptor, vals: &Vec<Scalar>, buf: &mut Vec<u8>) -> (r: Result<
    (),
    AccountError,
>)
    ensures
        r is Ok <==> (encodable(*d, values_view(vals@)) && encoding(
            *d,
            values_view(vals@),
        ).len() <= old(buf)@.len()),
        r is Ok ==> final(buf)@ == encoding(*d, values_view(vals@)) + old(buf)@.subrange(
            encoding(*d, values_view(vals@)).len() as int,
            old(buf)@.len() as int,
        ),
        r is Err ==> r == Err::<(), _>(AccountError::AccountDidNotSerialize) && final(buf)@ == old(
            buf,
        )@,
{
    let img = match encode_to_vec(d, vals) {
        Some(img) => img,
        None => {
            return Err(AccountError::AccountDidNotSerialize);
        },
    };
    if img.len() > buf.len() {
        return Err(AccountError::AccountDidNotSerialize);
    }
    let ghost before = buf@;
    let mut i: usize = 0;
    while i < img.len()
        invariant
            img@.len() <= before.len(),
            i <= img@.len(),
            buf@.len() == before.len(),
            forall|k: int| 0 <= k < i ==> buf@[k] == img@[k],
            forall|k: int| i <= k < before.len() ==> buf@[k] == before[k],
        decreases img@.len() - i,
    {
        buf.set(i, img[i]);
        i = i + 1;
    }
    assert(buf@ =~= img@ + before.subrange(img@.len() as int, before.len() as int));
    Ok(())
}


proof fn lemma_read_basic_of_bytes(k: FieldKind, v: ScalarModel, b: Seq<u8>, p: int)
    requires
        fits_basic(k, v),
        0 <= p,
        p + scalar_bytes(v).len() <= b.len(),
        b.subrange(p, p + scalar_bytes(v).len()) == scalar_bytes(v),
    ensures
        read_basic(k, b, p) == Some((v, p + scalar_bytes(v).len())),
{
    lemma_auto_spec_u64_to_from_le_bytes();
    lemma_auto_spec_u32_to_from_le_bytes();
    lemma_auto_spec_u128_to_from_le_bytes();
    let e = scalar_bytes(v);
    match v {
        ScalarModel::U8(x) => {
            assert(b[p] == e[0]);
        },
        ScalarModel::Bool(x) => {
            assert(b[p] == e[0]);
        },
        ScalarModel::U64(x) => {
            assert(spec_u64_to_le_bytes(x).len() == 8);
        },
        ScalarModel::Key(key) => {
            let h = spec_u128_to_le_bytes(key.hi);
            let l = spec_u128_to_le_bytes(key.lo);
            assert(h.len() == 16 && l.len() == 16);
            assert(b.subrange(p, p + 16) =~= e.subrange(0, 16));
            assert(e.subrange(0, 16) =~= h);
            assert(b.subrange(p + 16, p + 32) =~= e.subrange(16, 32));
            assert(e.subrange(16, 32) =~= l);
        },
        ScalarModel::Bytes(bs) => {
            let h = spec_u32_to_le_bytes(bs.len() as u32);
            assert(h.len() == 4);
            assert(b.subrange(p, p + 4) =~= e.subrange(0, 4));
            assert(e.subrange(0, 4) =~= h);
            assert(spec_u32_from_le_bytes(h) as int == bs.len());
            assert(b.subrange(p + 4, (p + 4 + bs.len()) as int) =~= e.subrange(
                4,
                (4 + bs.len()) as int,
            ));
            assert(e.subrange(4, (4 + bs.len()) as int) =~= bs);
        },
        ScalarModel::Enum(_, _) => {},
    }
}

proof fn lemma_read_run_of_payload(
    kinds: Seq<FieldKind>,
    vals: Seq<ScalarModel>,
    b: Seq<u8>,
    p: int,
    n: nat,
)
    requires
        basic_representable(kinds, vals),
        n <= vals.len(),
        0 <= p,
        p + payload_bytes(vals.take(n as int)).len() <= b.len(),
        b.subrange(p, p + payload_bytes(vals.take(n as int)).len()) == payload_bytes(
            vals.take(n as int),
        ),
    ensures
        read_run(kinds, b, p, n) == Some(
            (vals.take(n as int), p + payload_bytes(vals.take(n as int)).len()),
        ),
    decreases n,
{
    if n == 0 {
        assert(vals.take(0) =~= Seq::<ScalarModel>::empty());
    } else {
        let i = n - 1;
        lemma_payload_step(vals, i);
        let pre = payload_bytes(vals.take(i));
        let e = scalar_bytes(vals[i]);
        let whole = b.subrange(p, p + pre.len() + e.len());
        assert(b.subrange(p, p + pre.len()) =~= whole.subrange(0, pre.len() as int));
        assert((pre + e).subrange(0, pre.len() as int) =~= pre);
        lemma_read_run_of_payload(kinds, vals, b, p, i as nat);
        assert(b.subrange(p + pre.len(), p + pre.len() + e.len()) =~= whole.subrange(
            pre.len() as int,
            (pre.len() + e.len()) as int,
        ));
        assert((pre + e).subrange(pre.len() as int, (pre.len() + e.len()) as int) =~= e);
        assert(fits_basic(kinds[i], vals[i]));
        lemma_read_basic_of_bytes(kinds[i], vals[i], b, p + pre.len());
        assert(vals.take(i).push(vals[i]) =~= vals.take(n as int));
    }
}

proof fn lemma_read_scalar_of_bytes(
    t: Seq<Seq<Seq<FieldKind>>>,
    k: FieldKind,
    v: ScalarModel,
    b: Seq<u8>,
    p: int,
)
    requires
        fits(t, k, v),
        0 <= p,
        p + scalar_bytes(v).len() <= b.len(),
        b.subrange(p, p + scalar_bytes(v).len()) == scalar_bytes(v),
    ensures
        read_scalar(t, k, b, p) == Some((v, p + scalar_bytes(v).len())),
{
    match k {
        FieldKind::Enum(ei) => {
            if let ScalarModel::Enum(tag, vs) = v {
                let e = scalar_bytes(v);
                let pl = payload_bytes(vs);
                assert(e == seq![tag] + pl);
                assert(b[p] == b.subrange(p, p + e.len())[0]);
                assert(b[p] == tag);
                let kinds = t[ei as int][tag as int];
                assert(vs.take(vs.len() as int) =~= vs);
                assert(b.subrange(p + 1, p + 1 + pl.len()) =~= b.subrange(p, p + e.len()).subrange(
                    1,
                    e.len() as int,
                ));
                assert(e.subrange(1, e.len() as int) =~= pl);
                lemma_read_run_of_payload(kinds, vs, b, p + 1, kinds.len());
            }
        },
        _ => {
            lemma_read_basic_of_bytes(k, v, b, p);
        },
    }
}

proof fn lemma_read_fields_of_payload(
    t: Seq<Seq<Seq<FieldKind>>>,
    layout: Seq<FieldKind>,
    vals: Seq<ScalarModel>,
    b: Seq<u8>,
    n: nat,
)
    requires
        representable(t, layout, vals),
        n <= vals.len(),
        payload_bytes(vals.take(n as int)).len() <= b.len(),
        b.subrange(0, payload_bytes(vals.take(n as int)).len() as int) == payload_bytes(
            vals.take(n as int),
        ),
    ensures
        read_fields(t, layout, b, n) == Some(
            (vals.take(n as int), payload_bytes(vals.take(n as int)).len() as int),
        ),
    decreases n,
{
    if n == 0 {
        assert(vals.take(0) =~= Seq::<ScalarModel>::empty());
    } else {
        let i = n - 1;
        lemma_payload_step(vals, i);
        let pre = payload_bytes(vals.take(i));
        let e = scalar_bytes(vals[i]);
        assert(b.subrange(0, pre.len() as int) =~= b.subrange(
            0,
            (pre.len() + e.len()) as int,
        ).subrange(0, pre.len() as int));
        assert((pre + e).subrange(0, pre.len() as int) =~= pre);
        lemma_read_fields_of_payload(t, layout, vals, b, i as nat);
        assert(b.subrange(pre.len() as int, (pre.len() + e.len()) as int) =~= b.subrange(
            0,
            (pre.len() + e.len()) as int,
        ).subrange(pre.len() as int, (pre.len() + e.len()) as int));
        assert((pre + e).subrange(pre.len() as int, (pre.len() + e.len()) as int) =~= e);
        assert(fits(t, layout[i], vals[i]));
        lemma_read_scalar_of_bytes(t, layout[i], vals[i], b, pre.len() as int);
        assert(vals.take(i).push(vals[i]) =~= vals.take(n as int));
    }
}

/// Decoding an encoded record gives the record back, enums included. In the
/// tagged mode any bytes may follow the image; in the plain-data mode the
/// image fills the buffer exactly.
pub proof fn lemma_round_trip(d: AccountTypeDescriptor, vals: Seq<ScalarModel>, rest: Seq<u8>)
    requires
        encodable(d, vals),
        d.mode == CodecMode::FixedLayoutPlainData ==> rest.len() == 0,
    ensures
        decode_result(d, encoding(d, vals) + rest) == Ok::<_, AccountError>(vals),
{
    let n = d.discriminator@.len();
    let buf = encoding(d, vals) + rest;
    let pl = payload_bytes(vals);
    assert(buf.subrange(0, n as int) =~= d.discriminator@);
    let tail = buf.subrange(n as int, buf.len() as int);
    assert(tail =~= pl + rest);
    assert(vals.take(vals.len() as int) =~= vals);
    assert(tail.subrange(0, pl.len() as int) =~= pl);
    lemma_read_fields_of_payload(enum_table(d), d.layout@, vals, tail, vals.len());
}

/// A buffer shorter than the discriminator is refused as having none.
pub proof fn lemma_short_buffer(d: AccountTypeDescriptor, buf: Seq<u8>)
    requires
        buf.len() < d.discriminator@.len(),
    ensures
        decode_result(d, buf) == Err::<Seq<ScalarModel>, _>(
            AccountError::AccountDiscriminatorNotFound,
        ),
{
}

/// A buffer that starts with another discriminator of the same width is
/// refused as a mismatch naming the expected type, whatever payload follows.
pub proof fn lemma_foreign_discriminator(
    d: AccountTypeDescriptor,
    other: Seq<u8>,
    payload: Seq<u8>,
)
    requires
        other.len() == d.discriminator@.len(),
        other != d.discriminator@,
    ensures
        decode_result(d, other + payload) == Err::<Seq<ScalarModel>, _>(
            AccountError::AccountDiscriminatorMismatch { account_type: d.name },
        ),
{
    assert((other + payload).subrange(0, other.len() as int) =~= other);
}


/// Whether no two types of a program share a discriminator, so that a buffer's
/// prefix names at most one of them.
pub open spec fn discriminators_unique(types: Seq<AccountTypeDescriptor>) -> bool {
    forall|i: int, j: int|
        0 <= i < j < types.len() ==> #[trigger] types[i].discriminator@ != #[trigger] types[j].discriminator@
}

fn same_bytes(a: &Vec<u8>, b: &Vec<u8>) -> (r: bool)
    ensures
        r == (a@ == b@),
{
    if a.len() != b.len() {
        return false;
    }
    let mut i: usize = 0;
    while i < a.len()
        invariant
            a@.len() == b@.len(),
            i <= a@.len(),
            forall|k: int| 0 <= k < i ==> a@[k] == b@[k],
        decreases a@.len() - i,
    {
        if a[i] != b[i] {
            return false;
        }
        i = i + 1;
    }
    assert(a@ =~= b@);
    true
}

/// Checks the type universe of a program: every discriminator is distinct.
pub fn check_discriminators_unique(types: &Vec<AccountTypeDescriptor>) -> (r: bool)
    ensures
        r == discriminators_unique(types@),
{
    let mut j: usize = 0;
    while j < types.len()
        invariant
            j <= types@.len(),
            forall|a: int, b: int|
                0 <= a < b < j ==> types@[a].discriminator@ != types@[b].discriminator@,
        decreases types@.len() - j,
    {
        let mut i: usize = 0;
        while i < j
            invariant
                i <= j < types@.len(),
                forall|a: int, b: int|
                    0 <= a < b < j ==> types@[a].discriminator@ != types@[b].discriminator@,
                forall|a: int| 0 <= a < i ==> types@[a].discriminator@ != types@[j as int].discriminator@,
            decreases j - i,
        {
            if same_bytes(&types[i].discriminator, &types[j].discriminator) {
                return false;
            }
            i = i + 1;
        }
        j = j + 1;
    }
    true
}

} // verus!
