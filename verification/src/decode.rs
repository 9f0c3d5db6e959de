//! The inverse operation: decoding a byte stream plus a descriptor list
//! back into field values.
//!
//! Input bytes originate from an untrusted remote peer, so every failure is
//! a recoverable, classified [`ParseError`]: insufficient data, a failed
//! numeric conversion, an invalid expression, a value outside its declared
//! range (including an unmatched tagged-union discriminant), and missing
//! file descriptors.
//!
//! The specification functions here describe the decoded values as ghost
//! mirrors ([`GValue`]) of the executable [`Value`] representation; the
//! executable decoder is proved to produce exactly the mirrored values.

use vstd::prelude::*;

use crate::bytes::read_le;
use crate::errors::ParseError;
use crate::expr::{eval, spec_eval, Ctx};
use crate::schema::{
    enum_encoded_size, spec_enum_encoded_size, DeducibleField, FieldDef, FieldType, PadKind,
    SwitchCase, SwitchKind, Value,
};
use crate::encode::{
    child_ctx, clone_ctx, spec_child_ctx, spec_ded_lookup, spec_pad_amount,
};

verus! {

/// The ghost mirror of a field value: the same shape over mathematical
/// sequences.
pub ghost enum GValue {
    Absent,
    Uint(u64),
    Bytes(Seq<u8>),
    List(Seq<GValue>),
    Struct(Seq<GValue>),
    Switch(Seq<Option<Seq<GValue>>>),
    Fds(Seq<u64>),
}

/// The ghost mirror of a value.
pub open spec fn deep_value(v: Value) -> GValue
    decreases v, 0nat, 0nat,
{
    match v {
        Value::Absent => GValue::Absent,
        Value::Uint(x) => GValue::Uint(x),
        Value::Bytes(b) => GValue::Bytes(b@),
        Value::List(l) => GValue::List(deep_seq(l@, 0)),
        Value::Struct(vs) => GValue::Struct(deep_seq(vs@, 0)),
        Value::Switch(actives) => GValue::Switch(deep_actives(actives@, 0)),
        Value::Fds(f) => GValue::Fds(f@),
    }
}

/// The ghost mirrors of the values from position `i` on.
pub open spec fn deep_seq(s: Seq<Value>, i: nat) -> Seq<GValue>
    decreases s, 1nat, s.len() - i,
{
    if i >= s.len() {
        Seq::empty()
    } else {
        seq![deep_value(s[i as int])] + deep_seq(s, i + 1)
    }
}

/// The ghost mirrors of a union's per-case values from case `i` on.
pub open spec fn deep_actives(a: Seq<Option<Vec<Value>>>, i: nat) -> Seq<Option<Seq<GValue>>>
    decreases a, 1nat, a.len() - i,
{
    if i >= a.len() {
        Seq::empty()
    } else {
        let head = match a[i as int] {
            Option::None => Option::None,
            Option::Some(vs) => Option::Some(deep_seq(vs@, 0)),
        };
        seq![head] + deep_actives(a, i + 1)
    }
}

/// Length and elementwise characterization of [`deep_seq`].
pub proof fn lemma_deep_seq_len(s: Seq<Value>, i: nat)
    requires
        i <= s.len(),
    ensures
        deep_seq(s, i).len() == s.len() - i,
    decreases s.len() - i,
{
    if i < s.len() {
        lemma_deep_seq_len(s, i + 1);
    }
}

/// The `j`-th mirrored value is the mirror of the `i + j`-th value.
pub proof fn lemma_deep_seq_index(s: Seq<Value>, i: nat, j: int)
    requires
        i <= s.len(),
        0 <= j < s.len() - i,
    ensures
        deep_seq(s, i).len() == s.len() - i,
        deep_seq(s, i)[j] == deep_value(s[i + j]),
    decreases s.len() - i,
{
    lemma_deep_seq_len(s, i);
    if j > 0 {
        lemma_deep_seq_index(s, i + 1, j - 1);
    }
}

/// Length and elementwise characterization of [`deep_actives`].
pub proof fn lemma_deep_actives_len(a: Seq<Option<Vec<Value>>>, i: nat)
    requires
        i <= a.len(),
    ensures
        deep_actives(a, i).len() == a.len() - i,
    decreases a.len() - i,
{
    if i < a.len() {
        lemma_deep_actives_len(a, i + 1);
    }
}

/// The `j`-th mirrored case is the mirror of the `i + j`-th case.
pub proof fn lemma_deep_actives_index(a: Seq<Option<Vec<Value>>>, i: nat, j: int)
    requires
        i <= a.len(),
        0 <= j < a.len() - i,
    ensures
        deep_actives(a, i).len() == a.len() - i,
        deep_actives(a, i)[j] == (match a[i + j] {
            Option::None => Option::<Seq<GValue>>::None,
            Option::Some(vs) => Option::Some(deep_seq(vs@, 0)),
        }),
    decreases a.len() - i,
{
    lemma_deep_actives_len(a, i);
    if j > 0 {
        lemma_deep_actives_index(a, i + 1, j - 1);
    }
}

/// A value's mirror is an integer exactly when the value is.
pub proof fn lemma_deep_value_uint(v: Value)
    ensures
        (deep_value(v) is Uint) == (v is Uint),
{
    match v {
        Value::Absent => assert(deep_value(v) is Absent),
        Value::Uint(_) => assert(deep_value(v) is Uint),
        Value::Bytes(_) => assert(deep_value(v) is Bytes),
        Value::List(_) => assert(deep_value(v) is List),
        Value::Struct(_) => assert(deep_value(v) is Struct),
        Value::Switch(_) => assert(deep_value(v) is Switch),
        Value::Fds(_) => assert(deep_value(v) is Fds),
    }
}

/// The first case from `k` on whose guard equals the discriminant.
pub open spec fn spec_case_pick(cases: Seq<SwitchCase>, d: u64, k: nat) -> Option<nat>
    decreases cases.len() - k,
{
    if k >= cases.len() {
        Option::None
    } else if cases[k as int].guard == d {
        Option::Some(k)
    } else {
        spec_case_pick(cases, d, k + 1)
    }
}

/// Decode the fields of a list from position `i` on.
pub open spec fn spec_dec_fields(
    all_f: Seq<FieldDef>,
    ded: Seq<(u64, DeducibleField)>,
    bytes: Seq<u8>,
    fds: Seq<u64>,
    ctx: Seq<(u64, u64)>,
    disc: Option<u64>,
    pos: nat,
    fdpos: nat,
    i: nat,
) -> Result<(Seq<GValue>, nat, nat, Seq<(u64, u64)>), ParseError>
    decreases all_f, 0nat, all_f.len() - i,
{
    if i >= all_f.len() {
        Result::Ok((Seq::empty(), pos, fdpos, ctx))
    } else {
        match spec_dec_field(all_f, ded, bytes, fds, ctx, disc, pos, fdpos, all_f[i as int]) {
            Result::Err(e) => Result::Err(e),
            Result::Ok((gv, pos1, fdpos1, ctx1)) => match spec_dec_fields(
                all_f,
                ded,
                bytes,
                fds,
                ctx1,
                disc,
                pos1,
                fdpos1,
                i + 1,
            ) {
                Result::Err(e) => Result::Err(e),
                Result::Ok((gvs, pos2, fdpos2, ctx2)) => Result::Ok(
                    (seq![gv] + gvs, pos2, fdpos2, ctx2),
                ),
            },
        }
    }
}

/// Decode one field.
pub open spec fn spec_dec_field(
    all_f: Seq<FieldDef>,
    ded: Seq<(u64, DeducibleField)>,
    bytes: Seq<u8>,
    fds: Seq<u64>,
    ctx: Seq<(u64, u64)>,
    disc: Option<u64>,
    pos: nat,
    fdpos: nat,
    f: FieldDef,
) -> Result<(GValue, nat, nat, Seq<(u64, u64)>), ParseError>
    decreases f, 0nat, 0nat,
{
    match f {
        FieldDef::Pad(PadKind::Bytes(n)) => if pos + n <= bytes.len() {
            Result::Ok((GValue::Absent, (pos + n) as nat, fdpos, ctx))
        } else {
            Result::Err(ParseError::InsufficientData)
        },
        FieldDef::Pad(PadKind::Align(a)) => if a == 0 {
            Result::Err(ParseError::InvalidExpression)
        } else {
            let amount = spec_pad_amount(a as nat, pos);
            if pos + amount <= bytes.len() {
                Result::Ok((GValue::Absent, pos + amount, fdpos, ctx))
            } else {
                Result::Err(ParseError::InsufficientData)
            }
        },
        FieldDef::Normal { id, ty } => {
            let deduced = spec_ded_lookup(ded, id, 0) is Some;
            match spec_dec_typed(ty, deduced, bytes, fds, ctx, pos, fdpos) {
                Result::Err(e) => Result::Err(e),
                Result::Ok((gv, pos1, fdpos1)) => {
                    let ctx1 = match gv {
                        GValue::Uint(x) => ctx.push((id, x)),
                        _ => ctx,
                    };
                    Result::Ok((gv, pos1, fdpos1, ctx1))
                },
            }
        },
        FieldDef::List { id, elem, length_expr } => match length_expr {
            Option::None => Result::Err(ParseError::InvalidExpression),
            Option::Some(e) => match spec_eval(e, ctx, disc) {
                Option::None => Result::Err(ParseError::InvalidExpression),
                Option::Some(want) => if elem == (FieldType::Int { size: 1usize }) {
                    if pos + want <= bytes.len() {
                        Result::Ok(
                            (
                                GValue::Bytes(bytes.subrange(pos as int, pos + want)),
                                (pos + want) as nat,
                                fdpos,
                                ctx,
                            ),
                        )
                    } else {
                        Result::Err(ParseError::InsufficientData)
                    }
                } else {
                    match spec_dec_elems(elem, bytes, fds, ctx, pos, fdpos, want as nat) {
                        Result::Err(e) => Result::Err(e),
                        Result::Ok((gvs, pos1, fdpos1)) => Result::Ok(
                            (GValue::List(gvs), pos1, fdpos1, ctx),
                        ),
                    }
                },
            },
        },
        FieldDef::Switch { id, expr, kind, cases } => match spec_eval(expr, ctx, disc) {
            Option::None => Result::Err(ParseError::InvalidExpression),
            Option::Some(d) => match kind {
                SwitchKind::Case => match spec_case_pick(cases@, d, 0) {
                    Option::None => Result::Err(ParseError::InvalidValue),
                    Option::Some(j) => if j >= cases@.len() {
                        Result::Err(ParseError::InvalidValue)
                    } else { match spec_dec_fields(
                        cases@[j as int].fields@,
                        cases@[j as int].deducible@,
                        bytes,
                        fds,
                        ctx,
                        Option::Some(d),
                        pos,
                        fdpos,
                        0,
                    ) {
                        Result::Err(e) => Result::Err(e),
                        Result::Ok((gvs, pos1, fdpos1, _)) => Result::Ok(
                            (
                                GValue::Switch(
                                    Seq::new(
                                        cases@.len(),
                                        |q: int|
                                            if q == j {
                                                Option::Some(gvs)
                                            } else {
                                                Option::None
                                            },
                                    ),
                                ),
                                pos1,
                                fdpos1,
                                ctx,
                            ),
                        ),
                    } },
                },
                SwitchKind::BitCase => match spec_dec_cases(cases@, bytes, fds, ctx, d, pos, fdpos, 0) {
                    Result::Err(e) => Result::Err(e),
                    Result::Ok((acts, pos1, fdpos1)) => Result::Ok(
                        (GValue::Switch(acts), pos1, fdpos1, ctx),
                    ),
                },
            },
        },
        FieldDef::ExprConst { id, value } => if value > 255 {
            Result::Err(ParseError::InvalidValue)
        } else if pos + 1 <= bytes.len() {
            if bytes[pos as int] == value {
                Result::Ok((GValue::Absent, pos + 1, fdpos, ctx))
            } else {
                Result::Err(ParseError::InvalidValue)
            }
        } else {
            Result::Err(ParseError::InsufficientData)
        },
        FieldDef::Fd { id } => if fdpos < fds.len() {
            Result::Ok((GValue::Uint(fds[fdpos as int]), pos, fdpos + 1, ctx))
        } else {
            Result::Err(ParseError::MissingFileDescriptors)
        },
        FieldDef::FdList { id, length_expr } => match spec_eval(length_expr, ctx, disc) {
            Option::None => Result::Err(ParseError::InvalidExpression),
            Option::Some(want) => if fdpos + want <= fds.len() {
                Result::Ok(
                    (
                        GValue::Fds(fds.subrange(fdpos as int, fdpos + want)),
                        pos,
                        (fdpos + want) as nat,
                        ctx,
                    ),
                )
            } else {
                Result::Err(ParseError::MissingFileDescriptors)
            },
        },
        FieldDef::VirtualLen { id, list } => if pos + 4 <= bytes.len() {
            Result::Ok((GValue::Absent, pos + 4, fdpos, ctx))
        } else {
            Result::Err(ParseError::InsufficientData)
        },
    }
}

/// Decode a tagged union field.
fn dec_switch(
    all_f: &Vec<FieldDef>,
    ded: &Vec<(u64, DeducibleField)>,
    bytes: &Vec<u8>,
    fds: &Vec<u64>,
    ctx: Ctx,
    disc: Option<u64>,
    pos: usize,
    fdpos: usize,
    f: &FieldDef,
) -> (r: Result<(Value, usize, usize, Ctx), ParseError>)
    requires
        *f is Switch,
        pos <= bytes@.len(),
        fdpos <= fds@.len(),
    ensures
        (match spec_dec_field(
            all_f@,
            ded@,
            bytes@,
            fds@,
            ctx@,
            disc,
            pos as nat,
            fdpos as nat,
            *f,
        ) {
            Result::Ok((gv, p2, f2, c2)) => match r {
                Result::Ok((v, rp, rf, rc)) => deep_value(v) == gv && rp == p2 && rf == f2 && rc@
                    == c2 && rp <= bytes@.len() && rf <= fds@.len(),
                Result::Err(_) => false,
            },
            Result::Err(e) => r == Result::<(Value, usize, usize, Ctx), ParseError>::Err(e),
        }),
    decreases *f, 0nat, 0nat,
{
    match f {
        FieldDef::Switch { id, expr, kind, cases } => {

            match eval(expr, &ctx, disc) {
                None => Err(ParseError::InvalidExpression),
                Some(d) => {
                    match kind {
                        SwitchKind::Case => {
                            match case_pick(cases, d, 0) {
                                None => Err(ParseError::InvalidValue),
                                Some(j) => {
                                    let body_ctx = clone_ctx(&ctx);
                                    match dec_fields(
                                        &cases[j].fields,
                                        &cases[j].deducible,
                                        bytes,
                                        fds,
                                        body_ctx,
                                        Some(d),
                                        pos,
                                        fdpos,
                                        0,
                                    ) {
                                        Err(e) => Err(e),
                                        Ok((body, pos1, fdpos1, _)) => {
                                            let mut actives: Vec<Option<Vec<Value>>> = Vec::new();
                                            let mut q: usize = 0;
                                            while q < cases.len()
                                                invariant
                                                    q <= cases@.len(),
                                                    actives@.len() == q,
                                                    forall|t: int|
                                                        0 <= t < q ==> actives@[t] is None,
                                                decreases cases@.len() - q,
                                            {
                                                actives.push(None);
                                                q = q + 1;
                                            }
                                            let ghost gbody = deep_seq(body@, 0);
                                            actives.set(j, Some(body));
                                            proof {
                                                let sf = spec_dec_field(
                                                    all_f@,
                                                    ded@,
                                                    bytes@,
                                                    fds@,
                                                    ctx@,
                                                    disc,
                                                    pos as nat,
                                                    fdpos as nat,
                                                    *f,
                                                );
                                                if sf is Ok {
                                                    let gv = sf->Ok_0.0;
                                                    if gv is Switch {
                                                        let acts = gv->Switch_0;
                                                        lemma_deep_actives_len(actives@, 0);
                                                        assert forall|t: int|
                                                            0 <= t < actives@.len() implies deep_actives(
                                                            actives@,
                                                            0,
                                                        )[t] == acts[t] by {
                                                            lemma_deep_actives_index(actives@, 0, t);
                                                        }
                                                        assert(deep_actives(actives@, 0) =~= acts);
                                                    }
                                                }
                                            }
                                            Ok((Value::Switch(actives), pos1, fdpos1, ctx))
                                        },
                                    }
                                },
                            }
                        },
                        SwitchKind::BitCase => {
                            match dec_cases(cases, bytes, fds, &ctx, d, pos, fdpos, 0) {
                                Err(e) => Err(e),
                                Ok((actives, pos1, fdpos1)) => Ok(
                                    (Value::Switch(actives), pos1, fdpos1, ctx),
                                ),
                            }
                        },
                    }
                },
            }
        },
        _ => Err(ParseError::InvalidValue),
    }
}

/// Decode one leaf value of the given type.  A deduced field is read at its
/// declared size; a non-deduced enumerated field is read at its widened
/// size and checked against the largest legal enumerator.
pub open spec fn spec_dec_typed(
    ty: FieldType,
    deduced: bool,
    bytes: Seq<u8>,
    fds: Seq<u64>,
    ctx: Seq<(u64, u64)>,
    pos: nat,
    fdpos: nat,
) -> Result<(GValue, nat, nat), ParseError>
    decreases ty, 0nat, 0nat,
{
    match ty {
        FieldType::Int { size } => if size > 8 {
            Result::Err(ParseError::ConversionFailed)
        } else if pos + size <= bytes.len() {
            Result::Ok(
                (
                    GValue::Uint(
                        crate::bytes::spec_le_val(bytes.subrange(pos as int, pos + size)) as u64,
                    ),
                    (pos + size) as nat,
                    fdpos,
                ),
            )
        } else {
            Result::Err(ParseError::InsufficientData)
        },
        FieldType::Enum { size, max_value } => {
            let width: usize = if deduced {
                size
            } else {
                spec_enum_encoded_size(size, max_value)
            };
            if width > 8 {
                Result::Err(ParseError::ConversionFailed)
            } else if pos + width <= bytes.len() {
                let x = crate::bytes::spec_le_val(bytes.subrange(pos as int, pos + width));
                if deduced || x <= max_value {
                    Result::Ok((GValue::Uint(x as u64), (pos + width) as nat, fdpos))
                } else {
                    Result::Err(ParseError::InvalidValue)
                }
            } else {
                Result::Err(ParseError::InsufficientData)
            }
        },
        FieldType::Struct(sd) => if deduced {
            Result::Err(ParseError::InvalidExpression)
        } else {
            match spec_child_ctx(sd.params@, ctx, 0) {
                Option::None => Result::Err(ParseError::InvalidExpression),
                Option::Some(cctx) => match spec_dec_fields(
                    sd.fields@,
                    sd.deducible@,
                    bytes,
                    fds,
                    cctx,
                    Option::None,
                    pos,
                    fdpos,
                    0,
                ) {
                    Result::Err(e) => Result::Err(e),
                    Result::Ok((gvs, pos1, fdpos1, _)) => Result::Ok(
                        (GValue::Struct(gvs), pos1, fdpos1),
                    ),
                },
            }
        },
    }
}

/// Decode `n` list elements.
pub open spec fn spec_dec_elems(
    ty: FieldType,
    bytes: Seq<u8>,
    fds: Seq<u64>,
    ctx: Seq<(u64, u64)>,
    pos: nat,
    fdpos: nat,
    n: nat,
) -> Result<(Seq<GValue>, nat, nat), ParseError>
    decreases ty, 1nat, n,
{
    if n == 0 {
        Result::Ok((Seq::empty(), pos, fdpos))
    } else {
        match spec_dec_typed(ty, false, bytes, fds, ctx, pos, fdpos) {
            Result::Err(e) => Result::Err(e),
            Result::Ok((gv, pos1, fdpos1)) => match spec_dec_elems(
                ty,
                bytes,
                fds,
                ctx,
                pos1,
                fdpos1,
                (n - 1) as nat,
            ) {
                Result::Err(e) => Result::Err(e),
                Result::Ok((gvs, pos2, fdpos2)) => Result::Ok((seq![gv] + gvs, pos2, fdpos2)),
            },
        }
    }
}

/// Decode the cases of a bit-flag union from case `k` on: a case is read
/// exactly when its guard bit is set in the discriminant.
pub open spec fn spec_dec_cases(
    cases: Seq<SwitchCase>,
    bytes: Seq<u8>,
    fds: Seq<u64>,
    ctx: Seq<(u64, u64)>,
    d: u64,
    pos: nat,
    fdpos: nat,
    k: nat,
) -> Result<(Seq<Option<Seq<GValue>>>, nat, nat), ParseError>
    decreases cases, 0nat, cases.len() - k,
{
    if k >= cases.len() {
        Result::Ok((Seq::empty(), pos, fdpos))
    } else if (d & cases[k as int].guard) == 0 {
        match spec_dec_cases(cases, bytes, fds, ctx, d, pos, fdpos, k + 1) {
            Result::Err(e) => Result::Err(e),
            Result::Ok((acts, pos1, fdpos1)) => Result::Ok(
                (seq![Option::<Seq<GValue>>::None] + acts, pos1, fdpos1),
            ),
        }
    } else {
        match spec_dec_fields(
            cases[k as int].fields@,
            cases[k as int].deducible@,
            bytes,
            fds,
            ctx,
            Option::Some(d),
            pos,
            fdpos,
            0,
        ) {
            Result::Err(e) => Result::Err(e),
            Result::Ok((gvs, pos1, fdpos1, _)) => match spec_dec_cases(
                cases,
                bytes,
                fds,
                ctx,
                d,
                pos1,
                fdpos1,
                k + 1,
            ) {
                Result::Err(e) => Result::Err(e),
                Result::Ok((acts, pos2, fdpos2)) => Result::Ok(
                    (seq![Option::Some(gvs)] + acts, pos2, fdpos2),
                ),
            },
        }
    }
}

/// Decode a full message: the decoded values, one per schema field, with
/// deduced fields filled in from the wire.
pub open spec fn spec_decode(
    fields: Seq<FieldDef>,
    ded: Seq<(u64, DeducibleField)>,
    bytes: Seq<u8>,
    fds: Seq<u64>,
    params: Seq<(u64, u64)>,
) -> Result<(Seq<GValue>, nat, nat), ParseError> {
    match spec_dec_fields(fields, ded, bytes, fds, params, Option::None, 0, 0, 0) {
        Result::Err(e) => Result::Err(e),
        Result::Ok((gvs, pos, fdpos, _)) => Result::Ok((gvs, pos, fdpos)),
    }
}

/// Prepending one value mirrors to prepending its mirror.
proof fn lemma_deep_seq_cons(v: Value, s: Seq<Value>, full: Seq<Value>)
    requires
        full == seq![v] + s,
    ensures
        deep_seq(full, 0) == seq![deep_value(v)] + deep_seq(s, 0),
{
    lemma_deep_seq_len(full, 0);
    lemma_deep_seq_len(s, 0);
    assert forall|j: int| 0 <= j < full.len() implies deep_seq(full, 0)[j] == (seq![
        deep_value(v),
    ] + deep_seq(s, 0))[j] by {
        lemma_deep_seq_index(full, 0, j);
        if j > 0 {
            lemma_deep_seq_index(s, 0, j - 1);
            assert(full[j] == s[j - 1]);
        }
    }
    assert(deep_seq(full, 0) =~= seq![deep_value(v)] + deep_seq(s, 0));
}

/// Prepending one case mirrors to prepending its mirror.
proof fn lemma_deep_actives_cons(
    h: Option<Vec<Value>>,
    a: Seq<Option<Vec<Value>>>,
    full: Seq<Option<Vec<Value>>>,
)
    requires
        full == seq![h] + a,
    ensures
        deep_actives(full, 0) == seq![
            match h {
                Option::None => Option::<Seq<GValue>>::None,
                Option::Some(vs) => Option::Some(deep_seq(vs@, 0)),
            },
        ] + deep_actives(a, 0),
{
    lemma_deep_actives_len(full, 0);
    lemma_deep_actives_len(a, 0);
    let hd = match h {
        Option::None => Option::<Seq<GValue>>::None,
        Option::Some(vs) => Option::Some(deep_seq(vs@, 0)),
    };
    assert forall|j: int| 0 <= j < full.len() implies deep_actives(full, 0)[j] == (seq![hd]
        + deep_actives(a, 0))[j] by {
        lemma_deep_actives_index(full, 0, j);
        if j > 0 {
            lemma_deep_actives_index(a, 0, j - 1);
            assert(full[j] == a[j - 1]);
        }
    }
    assert(deep_actives(full, 0) =~= seq![hd] + deep_actives(a, 0));
}

/// Copy `n` bytes starting at `pos`.
fn copy_range(bytes: &Vec<u8>, pos: usize, n: usize) -> (r: Vec<u8>)
    requires
        pos + n <= bytes@.len(),
    ensures
        r@ == bytes@.subrange(pos as int, pos + n),
{
    let blen: usize = bytes.len();
    let mut out: Vec<u8> = Vec::new();
    let mut i: usize = 0;
    while i < n
        invariant
            i <= n,
            pos + n <= blen,
            blen == bytes@.len(),
            out@ =~= bytes@.subrange(pos as int, pos + i),
        decreases n - i,
    {
        out.push(bytes[pos + i]);
        i = i + 1;
    }
    proof {
        assert(out@ =~= bytes@.subrange(pos as int, pos + n));
    }
    out
}

/// Copy `n` descriptors starting at `pos`.
fn copy_range_u64(fds: &Vec<u64>, pos: usize, n: usize) -> (r: Vec<u64>)
    requires
        pos + n <= fds@.len(),
    ensures
        r@ == fds@.subrange(pos as int, pos + n),
{
    let flen: usize = fds.len();
    let mut out: Vec<u64> = Vec::new();
    let mut i: usize = 0;
    while i < n
        invariant
            i <= n,
            pos + n <= flen,
            flen == fds@.len(),
            out@ =~= fds@.subrange(pos as int, pos + i),
        decreases n - i,
    {
        out.push(fds[pos + i]);
        i = i + 1;
    }
    proof {
        assert(out@ =~= fds@.subrange(pos as int, pos + n));
    }
    out
}

/// The first case from `k` on whose guard equals the discriminant.
fn case_pick(cases: &Vec<SwitchCase>, d: u64, k: usize) -> (r: Option<usize>)
    requires
        k <= cases@.len(),
    ensures
        (match r {
            Option::Some(ix) => ix < cases@.len() && spec_case_pick(cases@, d, k as nat)
                == Option::Some(ix as nat),
            Option::None => spec_case_pick(cases@, d, k as nat) is None,
        }),
    decreases cases@.len() - k,
{
    if k >= cases.len() {
        None
    } else if cases[k].guard == d {
        Some(k)
    } else {
        case_pick(cases, d, k + 1)
    }
}

/// Decode the fields of a list from position `i` on.
fn dec_fields(
    all_f: &Vec<FieldDef>,
    ded: &Vec<(u64, DeducibleField)>,
    bytes: &Vec<u8>,
    fds: &Vec<u64>,
    ctx: Ctx,
    disc: Option<u64>,
    pos: usize,
    fdpos: usize,
    i: usize,
) -> (r: Result<(Vec<Value>, usize, usize, Ctx), ParseError>)
    requires
        i <= all_f@.len(),
        pos <= bytes@.len(),
        fdpos <= fds@.len(),
    ensures
        (match spec_dec_fields(
            all_f@,
            ded@,
            bytes@,
            fds@,
            ctx@,
            disc,
            pos as nat,
            fdpos as nat,
            i as nat,
        ) {
            Result::Ok((gvs, p2, f2, c2)) => match r {
                Result::Ok((vs, rp, rf, rc)) => deep_seq(vs@, 0) == gvs && rp == p2 && rf == f2
                    && rc@ == c2 && rp <= bytes@.len() && rf <= fds@.len(),
                Result::Err(_) => false,
            },
            Result::Err(e) => r == Result::<(Vec<Value>, usize, usize, Ctx), ParseError>::Err(e),
        }),
    decreases *all_f, 0nat, all_f@.len() - i,
{
    if i >= all_f.len() {
        return Ok((Vec::new(), pos, fdpos, ctx));
    }
    match dec_field(all_f, ded, bytes, fds, ctx, disc, pos, fdpos, &all_f[i]) {
        Err(e) => Err(e),
        Ok((v0, pos1, fdpos1, ctx1)) => {
            match dec_fields(all_f, ded, bytes, fds, ctx1, disc, pos1, fdpos1, i + 1) {
                Err(e) => Err(e),
                Ok((mut vs, pos2, fdpos2, ctx2)) => {
                    let ghost tail = vs@;
                    vs.insert(0, v0);
                    proof {
                        assert(vs@ =~= seq![vs@[0]] + tail);
                        lemma_deep_seq_cons(vs@[0], tail, vs@);
                    }
                    Ok((vs, pos2, fdpos2, ctx2))
                },
            }
        },
    }
}

/// Decode one field.
#[verifier::rlimit(100)]
#[verifier::spinoff_prover]
fn dec_field(
    all_f: &Vec<FieldDef>,
    ded: &Vec<(u64, DeducibleField)>,
    bytes: &Vec<u8>,
    fds: &Vec<u64>,
    ctx: Ctx,
    disc: Option<u64>,
    pos: usize,
    fdpos: usize,
    f: &FieldDef,
) -> (r: Result<(Value, usize, usize, Ctx), ParseError>)
    requires
        pos <= bytes@.len(),
        fdpos <= fds@.len(),
    ensures
        (match spec_dec_field(
            all_f@,
            ded@,
            bytes@,
            fds@,
            ctx@,
            disc,
            pos as nat,
            fdpos as nat,
            *f,
        ) {
            Result::Ok((gv, p2, f2, c2)) => match r {
                Result::Ok((v, rp, rf, rc)) => deep_value(v) == gv && rp == p2 && rf == f2 && rc@
                    == c2 && rp <= bytes@.len() && rf <= fds@.len(),
                Result::Err(_) => false,
            },
            Result::Err(e) => r == Result::<(Value, usize, usize, Ctx), ParseError>::Err(e),
        }),
    decreases *f, 1nat, 0nat,
{
    match f {
        FieldDef::Pad(PadKind::Bytes(n)) => {
            if *n <= bytes.len() - pos {
                Ok((Value::Absent, pos + *n, fdpos, ctx))
            } else {
                Err(ParseError::InsufficientData)
            }
        },
        FieldDef::Pad(PadKind::Align(a)) => {
            if *a == 0 {
                Err(ParseError::InvalidExpression)
            } else {
                let amount: usize = (*a - (pos % *a)) % *a;
                if amount <= bytes.len() - pos {
                    Ok((Value::Absent, pos + amount, fdpos, ctx))
                } else {
                    Err(ParseError::InsufficientData)
                }
            }
        },
        FieldDef::Normal { id, ty } => {
            let is_ded = crate::encode::ded_lookup(ded, *id, 0).is_some();
            match dec_typed(ty, is_ded, bytes, fds, &ctx, pos, fdpos) {
                Err(e) => Err(e),
                Ok((v, pos1, fdpos1)) => {
                    match &v {
                        Value::Uint(x) => {
                            let mut ctx2 = ctx;
                            ctx2.push((*id, *x));
                            Ok((v, pos1, fdpos1, ctx2))
                        },
                        _ => {
                            proof {
                                lemma_deep_value_uint(v);
                            }
                            Ok((v, pos1, fdpos1, ctx))
                        },
                    }
                },
            }
        },
        FieldDef::List { id, elem, length_expr } => {
            match length_expr {
                None => Err(ParseError::InvalidExpression),
                Some(e) => {
                    match eval(e, &ctx, disc) {
                        None => Err(ParseError::InvalidExpression),
                        Some(want) => {
                            let byte_elem = match elem {
                                FieldType::Int { size } => *size == 1,
                                _ => false,
                            };
                            if byte_elem {
                                if want <= (bytes.len() - pos) as u64 {
                                    let n = want as usize;
                                    let b = copy_range(bytes, pos, n);
                                    Ok((Value::Bytes(b), pos + n, fdpos, ctx))
                                } else {
                                    Err(ParseError::InsufficientData)
                                }
                            } else {
                                match dec_elems(elem, bytes, fds, &ctx, pos, fdpos, want) {
                                    Err(err) => Err(err),
                                    Ok((elems, pos1, fdpos1)) => Ok(
                                        (Value::List(elems), pos1, fdpos1, ctx),
                                    ),
                                }
                            }
                        },
                    }
                },
            }
        },
        FieldDef::Switch { .. } => dec_switch(all_f, ded, bytes, fds, ctx, disc, pos, fdpos, f),
        FieldDef::ExprConst { id, value } => {
            if *value > 255 {
                Err(ParseError::InvalidValue)
            } else if 1 <= bytes.len() - pos {
                if bytes[pos] as u64 == *value {
                    Ok((Value::Absent, pos + 1, fdpos, ctx))
                } else {
                    Err(ParseError::InvalidValue)
                }
            } else {
                Err(ParseError::InsufficientData)
            }
        },
        FieldDef::Fd { id } => {
            if fdpos < fds.len() {
                Ok((Value::Uint(fds[fdpos]), pos, fdpos + 1, ctx))
            } else {
                Err(ParseError::MissingFileDescriptors)
            }
        },
        FieldDef::FdList { id, length_expr } => {
            match eval(length_expr, &ctx, disc) {
                None => Err(ParseError::InvalidExpression),
                Some(want) => {
                    if want <= (fds.len() - fdpos) as u64 {
                        let n = want as usize;
                        let out = copy_range_u64(fds, fdpos, n);
                        Ok((Value::Fds(out), pos, fdpos + n, ctx))
                    } else {
                        Err(ParseError::MissingFileDescriptors)
                    }
                },
            }
        },
        FieldDef::VirtualLen { id, list } => {
            if 4 <= bytes.len() - pos {
                Ok((Value::Absent, pos + 4, fdpos, ctx))
            } else {
                Err(ParseError::InsufficientData)
            }
        },
    }
}

/// Decode one leaf value of the given type.
fn dec_typed(
    ty: &FieldType,
    deduced: bool,
    bytes: &Vec<u8>,
    fds: &Vec<u64>,
    ctx: &Ctx,
    pos: usize,
    fdpos: usize,
) -> (r: Result<(Value, usize, usize), ParseError>)
    requires
        pos <= bytes@.len(),
        fdpos <= fds@.len(),
    ensures
        (match spec_dec_typed(*ty, deduced, bytes@, fds@, ctx@, pos as nat, fdpos as nat) {
            Result::Ok((gv, p2, f2)) => match r {
                Result::Ok((v, rp, rf)) => deep_value(v) == gv && rp == p2 && rf == f2 && rp
                    <= bytes@.len() && rf <= fds@.len(),
                Result::Err(_) => false,
            },
            Result::Err(e) => r == Result::<(Value, usize, usize), ParseError>::Err(e),
        }),
    decreases *ty, 0nat, 0nat,
{
    match ty {
        FieldType::Int { size } => {
            if *size > 8 {
                Err(ParseError::ConversionFailed)
            } else if *size <= bytes.len() - pos {
                let x = read_le(bytes, pos, *size);
                proof {
                    crate::bytes::lemma_le_val_bound(bytes@.subrange(pos as int, pos + *size));
                    crate::bytes::lemma_pow256_mono(*size as nat, 8nat);
                    crate::bytes::lemma_pow256_u64(8nat);
                }
                Ok((Value::Uint(x), pos + *size, fdpos))
            } else {
                Err(ParseError::InsufficientData)
            }
        },
        FieldType::Enum { size, max_value } => {
            let width: usize = if deduced {
                *size
            } else {
                enum_encoded_size(*size, *max_value)
            };
            if width > 8 {
                Err(ParseError::ConversionFailed)
            } else if width <= bytes.len() - pos {
                let x = read_le(bytes, pos, width);
                proof {
                    crate::bytes::lemma_le_val_bound(bytes@.subrange(pos as int, pos + width));
                    crate::bytes::lemma_pow256_mono(width as nat, 8nat);
                    crate::bytes::lemma_pow256_u64(8nat);
                }
                if deduced || x <= *max_value {
                    Ok((Value::Uint(x), pos + width, fdpos))
                } else {
                    Err(ParseError::InvalidValue)
                }
            } else {
                Err(ParseError::InsufficientData)
            }
        },
        FieldType::Struct(sd) => {
            if deduced {
                Err(ParseError::InvalidExpression)
            } else {
                match child_ctx(&sd.params, ctx, 0) {
                    None => Err(ParseError::InvalidExpression),
                    Some(cctx) => {
                        match dec_fields(
                            &sd.fields,
                            &sd.deducible,
                            bytes,
                            fds,
                            cctx,
                            None,
                            pos,
                            fdpos,
                            0,
                        ) {
                            Err(e) => Err(e),
                            Ok((vs, pos1, fdpos1, _)) => Ok((Value::Struct(vs), pos1, fdpos1)),
                        }
                    },
                }
            }
        },
    }
}

/// Decode `n` list elements.
fn dec_elems(
    ty: &FieldType,
    bytes: &Vec<u8>,
    fds: &Vec<u64>,
    ctx: &Ctx,
    pos: usize,
    fdpos: usize,
    n: u64,
) -> (r: Result<(Vec<Value>, usize, usize), ParseError>)
    requires
        pos <= bytes@.len(),
        fdpos <= fds@.len(),
    ensures
        (match spec_dec_elems(*ty, bytes@, fds@, ctx@, pos as nat, fdpos as nat, n as nat) {
            Result::Ok((gvs, p2, f2)) => match r {
                Result::Ok((vs, rp, rf)) => deep_seq(vs@, 0) == gvs && rp == p2 && rf == f2 && rp
                    <= bytes@.len() && rf <= fds@.len(),
                Result::Err(_) => false,
            },
            Result::Err(e) => r == Result::<(Vec<Value>, usize, usize), ParseError>::Err(e),
        }),
    decreases *ty, 1nat, n,
{
    if n == 0 {
        return Ok((Vec::new(), pos, fdpos));
    }
    match dec_typed(ty, false, bytes, fds, ctx, pos, fdpos) {
        Err(e) => Err(e),
        Ok((v0, pos1, fdpos1)) => {
            match dec_elems(ty, bytes, fds, ctx, pos1, fdpos1, n - 1) {
                Err(e) => Err(e),
                Ok((mut vs, pos2, fdpos2)) => {
                    let ghost tail = vs@;
                    vs.insert(0, v0);
                    proof {
                        assert(vs@ =~= seq![vs@[0]] + tail);
                        lemma_deep_seq_cons(vs@[0], tail, vs@);
                    }
                    Ok((vs, pos2, fdpos2))
                },
            }
        },
    }
}

/// Decode the cases of a bit-flag union from case `k` on.
fn dec_cases(
    cases: &Vec<SwitchCase>,
    bytes: &Vec<u8>,
    fds: &Vec<u64>,
    ctx: &Ctx,
    d: u64,
    pos: usize,
    fdpos: usize,
    k: usize,
) -> (r: Result<(Vec<Option<Vec<Value>>>, usize, usize), ParseError>)
    requires
        k <= cases@.len(),
        pos <= bytes@.len(),
        fdpos <= fds@.len(),
    ensures
        (match spec_dec_cases(cases@, bytes@, fds@, ctx@, d, pos as nat, fdpos as nat, k as nat) {
            Result::Ok((acts, p2, f2)) => match r {
                Result::Ok((avs, rp, rf)) => deep_actives(avs@, 0) == acts && rp == p2 && rf == f2
                    && rp <= bytes@.len() && rf <= fds@.len(),
                Result::Err(_) => false,
            },
            Result::Err(e) => r == Result::<
                (Vec<Option<Vec<Value>>>, usize, usize),
                ParseError,
            >::Err(e),
        }),
    decreases *cases, 0nat, cases@.len() - k,
{
    if k >= cases.len() {
        return Ok((Vec::new(), pos, fdpos));
    }
    if (d & cases[k].guard) == 0 {
        match dec_cases(cases, bytes, fds, ctx, d, pos, fdpos, k + 1) {
            Err(e) => Err(e),
            Ok((mut avs, pos1, fdpos1)) => {
                let ghost tail = avs@;
                avs.insert(0, None);
                proof {
                    assert(avs@ =~= seq![avs@[0]] + tail);
                    lemma_deep_actives_cons(avs@[0], tail, avs@);
                }
                Ok((avs, pos1, fdpos1))
            },
        }
    } else {
        let body_ctx = clone_ctx(ctx);
        match dec_fields(
            &cases[k].fields,
            &cases[k].deducible,
            bytes,
            fds,
            body_ctx,
            Some(d),
            pos,
            fdpos,
            0,
        ) {
            Err(e) => Err(e),
            Ok((body, pos1, fdpos1, _)) => {
                match dec_cases(cases, bytes, fds, ctx, d, pos1, fdpos1, k + 1) {
                    Err(e) => Err(e),
                    Ok((mut avs, pos2, fdpos2)) => {
                        let ghost tail = avs@;
                        avs.insert(0, Some(body));
                        proof {
                            assert(avs@ =~= seq![avs@[0]] + tail);
                            lemma_deep_actives_cons(avs@[0], tail, avs@);
                        }
                        Ok((avs, pos2, fdpos2))
                    },
                }
            },
        }
    }
}

/// Decode a message from its byte image and descriptor list, under the
/// given external parameters: one value per schema field, with deduced
/// fields filled in from the wire, plus the counts of bytes and
/// descriptors consumed.
pub fn decode_message(
    fields: &Vec<FieldDef>,
    ded: &Vec<(u64, DeducibleField)>,
    bytes: &Vec<u8>,
    fds: &Vec<u64>,
    params: &Ctx,
) -> (r: Result<(Vec<Value>, usize, usize), ParseError>)
    ensures
        (match spec_decode(fields@, ded@, bytes@, fds@, params@) {
            Result::Ok((gvs, p2, f2)) => match r {
                Result::Ok((vs, rp, rf)) => deep_seq(vs@, 0) == gvs && rp == p2 && rf == f2,
                Result::Err(_) => false,
            },
            Result::Err(e) => r == Result::<(Vec<Value>, usize, usize), ParseError>::Err(e),
        }),
{
    let ctx = clone_ctx(params);
    match dec_fields(fields, ded, bytes, fds, ctx, None, 0, 0, 0) {
        Err(e) => Err(e),
        Ok((vs, pos, fdpos, _)) => Ok((vs, pos, fdpos)),
    }
}

} // verus!
