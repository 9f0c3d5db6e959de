//! The serialization planner and emitter.
//!
//! Encoding walks a message's field list in schema order and appends each
//! field's contribution to a growable output buffer, with file descriptors
//! routed to a side channel instead of the byte stream.  Fields covered by a
//! deduction rule are computed from the rest of the message; a caller value
//! supplied for such a field, and every length or discriminant the schema
//! also derives by expression, is checked against the derived quantity and
//! any disagreement aborts the encode with an error naming the field.
//!
//! The specification functions in this module define the byte image exactly;
//! the executable encoder is proved to produce precisely that image.

use vstd::prelude::*;

use crate::bytes::{fits_bytes, push_le_bytes, push_zeros, spec_le_bytes, spec_pow256, spec_zeros};
use crate::expr::{eval, lookup, spec_eval, spec_lookup, Ctx};
use crate::schema::{
    enum_encoded_size, spec_enum_encoded_size, DeducibleField, DeducibleLengthOp, Expression,
    FieldDef, FieldType, PadKind, SwitchCase, SwitchKind, Value,
};

verus! {

/// A fatal contract violation detected while encoding a caller-supplied
/// message value.  Encoding assumes a well-formed value, so each of these
/// signals a programming error in the caller; no output is produced.
#[derive(Debug, Copy, Clone, PartialEq, Eq, Structural)]
pub enum EncodeError {
    /// A deducible or derived quantity disagrees with the supplied value.
    Inconsistent { field: u64 },
    /// A required field value was not supplied.
    MissingValue { field: u64 },
    /// A supplied value has the wrong shape for its field.
    TypeMismatch { field: u64 },
    /// A numeric value cannot be narrowed to its wire width.
    TooLarge { field: u64 },
    /// An enumerated value exceeds the largest legal enumerator.
    OutOfRange { field: u64 },
    /// A length or discriminant expression could not be evaluated.
    BadExpression { field: u64 },
    /// A deduction rule could not be applied.
    BadDeduction { field: u64 },
    /// An external parameter required by a nested type is missing.
    MissingParam { field: u64 },
    /// The schema describes the field in a way this codec does not support.
    Unsupported { field: u64 },
    /// The value vector and the field list differ in length.
    LengthMismatch,
    /// An alignment pad declares alignment zero.
    BadAlignment,
}

/// The identifier of a field, if it has one.
pub open spec fn spec_field_id(f: FieldDef) -> Option<u64> {
    match f {
        FieldDef::Pad(_) => Option::None,
        FieldDef::Normal { id, .. } => Option::Some(id),
        FieldDef::List { id, .. } => Option::Some(id),
        FieldDef::Switch { id, .. } => Option::Some(id),
        FieldDef::ExprConst { id, .. } => Option::Some(id),
        FieldDef::Fd { id } => Option::Some(id),
        FieldDef::FdList { id, .. } => Option::Some(id),
        FieldDef::VirtualLen { id, .. } => Option::Some(id),
    }
}

/// The element count of a sequence-shaped value.
pub open spec fn spec_value_len(v: Value) -> Option<nat> {
    match v {
        Value::Bytes(b) => Option::Some(b@.len()),
        Value::List(l) => Option::Some(l@.len()),
        Value::Fds(f) => Option::Some(f@.len()),
        _ => Option::None,
    }
}

/// The field with identifier `id` and its supplied value, searching from
/// position `i`.
pub open spec fn spec_find(
    fields: Seq<FieldDef>,
    vals: Seq<Value>,
    id: u64,
    i: nat,
) -> Option<(FieldDef, Value)>
    decreases fields.len() - i,
{
    if i >= fields.len() || i >= vals.len() {
        Option::None
    } else if spec_field_id(fields[i as int]) == Option::Some(id) {
        Option::Some((fields[i as int], vals[i as int]))
    } else {
        spec_find(fields, vals, id, i + 1)
    }
}

/// Whether any case of a tagged union is marked active.
pub open spec fn spec_any_active(actives: Seq<Option<Vec<Value>>>, k: nat) -> bool
    decreases actives.len() - k,
{
    if k >= actives.len() {
        false
    } else if actives[k as int] is Some {
        true
    } else {
        spec_any_active(actives, k + 1)
    }
}

/// The discriminant derived from a by-value union representation: the guard
/// of the single active case, if exactly one case is active.
pub open spec fn spec_case_disc(
    cases: Seq<SwitchCase>,
    actives: Seq<Option<Vec<Value>>>,
    k: nat,
) -> Option<u64>
    decreases cases.len() - k,
{
    if k >= cases.len() || k >= actives.len() {
        Option::None
    } else if actives[k as int] is Some {
        if spec_any_active(actives, k + 1) {
            Option::None
        } else {
            Option::Some(cases[k as int].guard)
        }
    } else {
        spec_case_disc(cases, actives, k + 1)
    }
}

/// The bit-selector derived from a bit-flag union representation: the union
/// of the guard bits of the active cases.
pub open spec fn spec_bit_disc(
    cases: Seq<SwitchCase>,
    actives: Seq<Option<Vec<Value>>>,
    k: nat,
) -> u64
    decreases cases.len() - k,
{
    if k >= cases.len() || k >= actives.len() {
        0u64
    } else if actives[k as int] is Some {
        cases[k as int].guard | spec_bit_disc(cases, actives, k + 1)
    } else {
        spec_bit_disc(cases, actives, k + 1)
    }
}

/// The discriminant a union value itself represents, per the union's kind.
pub open spec fn spec_derived_disc(f: FieldDef, v: Value) -> Option<u64> {
    match (f, v) {
        (FieldDef::Switch { kind, cases, .. }, Value::Switch(actives)) => {
            if actives@.len() == cases@.len() {
                match kind {
                    SwitchKind::Case => spec_case_disc(cases@, actives@, 0),
                    SwitchKind::BitCase => Option::Some(spec_bit_disc(cases@, actives@, 0)),
                }
            } else {
                Option::None
            }
        },
        _ => Option::None,
    }
}

/// Whether the active-case marking matches how a decoder selects cases for
/// discriminant `d`: for a by-value union, the first case whose guard
/// equals `d` and no other.
pub open spec fn spec_case_sel_ok(
    cases: Seq<SwitchCase>,
    actives: Seq<Option<Vec<Value>>>,
    d: u64,
    k: nat,
) -> bool
    decreases cases.len() - k,
{
    if k >= cases.len() || k >= actives.len() {
        true
    } else if actives[k as int] is Some {
        cases[k as int].guard == d
    } else {
        cases[k as int].guard != d && spec_case_sel_ok(cases, actives, d, k + 1)
    }
}

/// Whether the active-case marking matches how a decoder selects cases for
/// bit-selector `d`: a case is active exactly when its guard bit is set.
pub open spec fn spec_bit_sel_ok(
    cases: Seq<SwitchCase>,
    actives: Seq<Option<Vec<Value>>>,
    d: u64,
    k: nat,
) -> bool
    decreases cases.len() - k,
{
    if k >= cases.len() || k >= actives.len() {
        true
    } else {
        ((actives[k as int] is Some) == ((d & cases[k as int].guard) != 0)) && spec_bit_sel_ok(
            cases,
            actives,
            d,
            k + 1,
        )
    }
}

/// The deduction rule covering field `id`, if any.
pub open spec fn spec_ded_lookup(
    ded: Seq<(u64, DeducibleField)>,
    id: u64,
    i: nat,
) -> Option<DeducibleField>
    decreases ded.len() - i,
{
    if i >= ded.len() {
        Option::None
    } else if ded[i as int].0 == id {
        Option::Some(ded[i as int].1)
    } else {
        spec_ded_lookup(ded, id, i + 1)
    }
}

/// The value a deduction rule computes from the rest of the message, or
/// `None` when the rule cannot be applied.
pub open spec fn spec_deduced(
    all_f: Seq<FieldDef>,
    all_v: Seq<Value>,
    rule: DeducibleField,
) -> Option<u64> {
    match rule {
        DeducibleField::LengthOf { list, op } => match spec_find(all_f, all_v, list, 0) {
            Option::Some((_, lv)) => match spec_value_len(lv) {
                Option::Some(n) => match op {
                    DeducibleLengthOp::Plain => if n <= u64::MAX {
                        Option::Some(n as u64)
                    } else {
                        Option::None
                    },
                    DeducibleLengthOp::Mul(k) => if n * k <= u64::MAX {
                        Option::Some((n * k) as u64)
                    } else {
                        Option::None
                    },
                    DeducibleLengthOp::Div(k) => if k > 0 && n % (k as nat) == 0 && n <= u64::MAX {
                        Option::Some((n as u64) / k)
                    } else {
                        Option::None
                    },
                },
                Option::None => Option::None,
            },
            Option::None => Option::None,
        },
        DeducibleField::CaseSwitchExpr { switch } => match spec_find(all_f, all_v, switch, 0) {
            Option::Some((sf, sv)) => spec_derived_disc(sf, sv),
            Option::None => Option::None,
        },
        DeducibleField::BitCaseSwitchExpr { switch } => match spec_find(all_f, all_v, switch, 0) {
            Option::Some((sf, sv)) => spec_derived_disc(sf, sv),
            Option::None => Option::None,
        },
    }
}

/// The lookup context a nested type's serializer receives: each declared
/// external parameter resolved in the enclosing context, in order.
pub open spec fn spec_child_ctx(params: Seq<u64>, ctx: Seq<(u64, u64)>, i: nat) -> Option<
    Seq<(u64, u64)>,
>
    decreases params.len() - i,
{
    if i >= params.len() {
        Option::Some(Seq::empty())
    } else {
        match spec_lookup(ctx, params[i as int]) {
            Option::Some(v) => match spec_child_ctx(params, ctx, i + 1) {
                Option::Some(rest) => Option::Some(seq![(params[i as int], v)] + rest),
                Option::None => Option::None,
            },
            Option::None => Option::None,
        }
    }
}

/// The number of zero bytes an alignment pad contributes at offset `off`.
pub open spec fn spec_pad_amount(align: nat, off: nat) -> nat {
    ((align - (off % align) as int) % align as int) as nat
}

/// Whether list elements of this type are raw bytes.
pub open spec fn spec_is_byte_elem(ty: FieldType) -> bool {
    ty == (FieldType::Int { size: 1usize })
}

/// The byte image, descriptor list and extended context produced by the
/// fields of a list from position `i` on, starting at absolute offset
/// `off`, or the error that aborts the encode.
pub open spec fn spec_enc_fields(
    all_f: Seq<FieldDef>,
    all_v: Seq<Value>,
    ded: Seq<(u64, DeducibleField)>,
    ctx: Seq<(u64, u64)>,
    disc: Option<u64>,
    off: nat,
    i: nat,
) -> Result<(Seq<u8>, Seq<u64>, Seq<(u64, u64)>), EncodeError>
    decreases all_f, 0nat, all_f.len() - i,
{
    if all_f.len() != all_v.len() {
        Result::Err(EncodeError::LengthMismatch)
    } else if i >= all_f.len() {
        Result::Ok((Seq::empty(), Seq::empty(), ctx))
    } else {
        match spec_enc_field(all_f, all_v, ded, ctx, disc, off, all_f[i as int], all_v[i as int]) {
            Result::Err(e) => Result::Err(e),
            Result::Ok((b1, f1, ctx1)) => match spec_enc_fields(
                all_f,
                all_v,
                ded,
                ctx1,
                disc,
                off + b1.len(),
                i + 1,
            ) {
                Result::Err(e) => Result::Err(e),
                Result::Ok((b2, f2, ctx2)) => Result::Ok((b1 + b2, f1 + f2, ctx2)),
            },
        }
    }
}

/// The contribution of one field.
pub open spec fn spec_enc_field(
    all_f: Seq<FieldDef>,
    all_v: Seq<Value>,
    ded: Seq<(u64, DeducibleField)>,
    ctx: Seq<(u64, u64)>,
    disc: Option<u64>,
    off: nat,
    f: FieldDef,
    v: Value,
) -> Result<(Seq<u8>, Seq<u64>, Seq<(u64, u64)>), EncodeError>
    decreases f, 0nat, 0nat,
{
    match f {
        FieldDef::Pad(PadKind::Bytes(n)) => Result::Ok((spec_zeros(n as nat), Seq::empty(), ctx)),
        FieldDef::Pad(PadKind::Align(a)) => if a == 0 {
            Result::Err(EncodeError::BadAlignment)
        } else {
            Result::Ok((spec_zeros(spec_pad_amount(a as nat, off)), Seq::empty(), ctx))
        },
        FieldDef::Normal { id, ty } => match spec_ded_lookup(ded, id, 0) {
            Option::Some(rule) => match spec_deduced(all_f, all_v, rule) {
                Option::Some(dv) => {
                    let supplied_ok = match v {
                        Value::Absent => true,
                        Value::Uint(x) => x == dv,
                        _ => false,
                    };
                    if !supplied_ok {
                        if v is Uint {
                            Result::Err(EncodeError::Inconsistent { field: id })
                        } else {
                            Result::Err(EncodeError::TypeMismatch { field: id })
                        }
                    } else {
                        match spec_enc_typed(ty, v, Option::Some(dv), ctx, off, id) {
                            Result::Err(e) => Result::Err(e),
                            Result::Ok((b, fl)) => Result::Ok((b, fl, ctx.push((id, dv)))),
                        }
                    }
                },
                Option::None => Result::Err(EncodeError::BadDeduction { field: id }),
            },
            Option::None => match spec_enc_typed(ty, v, Option::None, ctx, off, id) {
                Result::Err(e) => Result::Err(e),
                Result::Ok((b, fl)) => match (ty, v) {
                    (FieldType::Struct(_), _) => Result::Ok((b, fl, ctx)),
                    (_, Value::Uint(x)) => Result::Ok((b, fl, ctx.push((id, x)))),
                    _ => Result::Ok((b, fl, ctx)),
                },
            },
        },
        FieldDef::List { id, elem, length_expr } => match length_expr {
            Option::None => Result::Err(EncodeError::Unsupported { field: id }),
            Option::Some(e) => match spec_eval(e, ctx, disc) {
                Option::None => Result::Err(EncodeError::BadExpression { field: id }),
                Option::Some(want) => if spec_is_byte_elem(elem) {
                    match v {
                        Value::Bytes(b) => if b@.len() == want {
                            Result::Ok((b@, Seq::empty(), ctx))
                        } else {
                            Result::Err(EncodeError::Inconsistent { field: id })
                        },
                        Value::Absent => Result::Err(EncodeError::MissingValue { field: id }),
                        _ => Result::Err(EncodeError::TypeMismatch { field: id }),
                    }
                } else {
                    match v {
                        Value::List(elems) => if elems@.len() == want {
                            match spec_enc_elems(elem, elems@, ctx, off, id, 0) {
                                Result::Err(err) => Result::Err(err),
                                Result::Ok((b, fl)) => Result::Ok((b, fl, ctx)),
                            }
                        } else {
                            Result::Err(EncodeError::Inconsistent { field: id })
                        },
                        Value::Absent => Result::Err(EncodeError::MissingValue { field: id }),
                        _ => Result::Err(EncodeError::TypeMismatch { field: id }),
                    }
                },
            },
        },
        FieldDef::Switch { id, expr, kind, cases } => match v {
            Value::Switch(actives) => if actives@.len() != cases@.len() {
                Result::Err(EncodeError::TypeMismatch { field: id })
            } else {
                match spec_derived_disc(
                    FieldDef::Switch { id, expr, kind, cases },
                    Value::Switch(actives),
                ) {
                    Option::None => Result::Err(EncodeError::Inconsistent { field: id }),
                    Option::Some(dd) => match spec_eval(expr, ctx, disc) {
                        Option::None => Result::Err(EncodeError::BadExpression { field: id }),
                        Option::Some(de) => if de != dd {
                            Result::Err(EncodeError::Inconsistent { field: id })
                        } else {
                            let sel_ok = match kind {
                                SwitchKind::Case => spec_case_sel_ok(cases@, actives@, dd, 0),
                                SwitchKind::BitCase => spec_bit_sel_ok(cases@, actives@, dd, 0),
                            };
                            if !sel_ok {
                                Result::Err(EncodeError::Inconsistent { field: id })
                            } else {
                                match spec_enc_cases(cases@, actives@, ctx, dd, off, 0) {
                                    Result::Err(err) => Result::Err(err),
                                    Result::Ok((b, fl)) => Result::Ok((b, fl, ctx)),
                                }
                            }
                        },
                    },
                }
            },
            Value::Absent => Result::Err(EncodeError::MissingValue { field: id }),
            _ => Result::Err(EncodeError::TypeMismatch { field: id }),
        },
        FieldDef::ExprConst { id, value } => if value > 255 {
            Result::Err(EncodeError::Unsupported { field: id })
        } else {
            Result::Ok((seq![value as u8], Seq::empty(), ctx))
        },
        FieldDef::Fd { id } => match v {
            Value::Uint(fd) => Result::Ok((Seq::empty(), seq![fd], ctx)),
            Value::Absent => Result::Err(EncodeError::MissingValue { field: id }),
            _ => Result::Err(EncodeError::TypeMismatch { field: id }),
        },
        FieldDef::FdList { id, length_expr } => match v {
            Value::Fds(fs) => match spec_eval(length_expr, ctx, disc) {
                Option::None => Result::Err(EncodeError::BadExpression { field: id }),
                Option::Some(want) => if fs@.len() == want {
                    Result::Ok((Seq::empty(), fs@, ctx))
                } else {
                    Result::Err(EncodeError::Inconsistent { field: id })
                },
            },
            Value::Absent => Result::Err(EncodeError::MissingValue { field: id }),
            _ => Result::Err(EncodeError::TypeMismatch { field: id }),
        },
        FieldDef::VirtualLen { id, list } => match spec_find(all_f, all_v, list, 0) {
            Option::Some((_, lv)) => match spec_value_len(lv) {
                Option::Some(n) => if n < 0x1_0000_0000 {
                    Result::Ok((spec_le_bytes(n, 4), Seq::empty(), ctx))
                } else {
                    Result::Err(EncodeError::TooLarge { field: id })
                },
                Option::None => Result::Err(EncodeError::BadDeduction { field: id }),
            },
            Option::None => Result::Err(EncodeError::BadDeduction { field: id }),
        },
    }
}

/// The byte image of one leaf value of the given type.  `dv` carries the
/// deduced quantity when the field was deduced: a deduced value is encoded
/// in its raw numeric form at the declared size and skips the enumerated
/// widening entirely.
pub open spec fn spec_enc_typed(
    ty: FieldType,
    v: Value,
    dv: Option<u64>,
    ctx: Seq<(u64, u64)>,
    off: nat,
    fid: u64,
) -> Result<(Seq<u8>, Seq<u64>), EncodeError>
    decreases ty, 0nat, 0nat,
{
    match dv {
        Option::Some(d) => match ty {
            FieldType::Int { size } => if size > 8 {
                Result::Err(EncodeError::Unsupported { field: fid })
            } else if (d as nat) < spec_pow256(size as nat) {
                Result::Ok((spec_le_bytes(d as nat, size as nat), Seq::empty()))
            } else {
                Result::Err(EncodeError::TooLarge { field: fid })
            },
            FieldType::Enum { size, .. } => if size > 8 {
                Result::Err(EncodeError::Unsupported { field: fid })
            } else if (d as nat) < spec_pow256(size as nat) {
                Result::Ok((spec_le_bytes(d as nat, size as nat), Seq::empty()))
            } else {
                Result::Err(EncodeError::TooLarge { field: fid })
            },
            FieldType::Struct(_) => Result::Err(EncodeError::TypeMismatch { field: fid }),
        },
        Option::None => match ty {
            FieldType::Int { size } => match v {
                Value::Uint(x) => if size > 8 {
                    Result::Err(EncodeError::Unsupported { field: fid })
                } else if (x as nat) < spec_pow256(size as nat) {
                    Result::Ok((spec_le_bytes(x as nat, size as nat), Seq::empty()))
                } else {
                    Result::Err(EncodeError::TooLarge { field: fid })
                },
                Value::Absent => Result::Err(EncodeError::MissingValue { field: fid }),
                _ => Result::Err(EncodeError::TypeMismatch { field: fid }),
            },
            FieldType::Enum { size, max_value } => match v {
                Value::Uint(x) => if size > 8 {
                    Result::Err(EncodeError::Unsupported { field: fid })
                } else if x > max_value {
                    Result::Err(EncodeError::OutOfRange { field: fid })
                } else if (x as nat) < spec_pow256(spec_enum_encoded_size(size, max_value) as nat) {
                    Result::Ok(
                        (
                            spec_le_bytes(
                                x as nat,
                                spec_enum_encoded_size(size, max_value) as nat,
                            ),
                            Seq::empty(),
                        ),
                    )
                } else {
                    Result::Err(EncodeError::TooLarge { field: fid })
                },
                Value::Absent => Result::Err(EncodeError::MissingValue { field: fid }),
                _ => Result::Err(EncodeError::TypeMismatch { field: fid }),
            },
            FieldType::Struct(sd) => match v {
                Value::Struct(vs) => match spec_child_ctx(sd.params@, ctx, 0) {
                    Option::Some(cctx) => match spec_enc_fields(
                        sd.fields@,
                        vs@,
                        sd.deducible@,
                        cctx,
                        Option::None,
                        off,
                        0,
                    ) {
                        Result::Err(e) => Result::Err(e),
                        Result::Ok((b, fl, _)) => Result::Ok((b, fl)),
                    },
                    Option::None => Result::Err(EncodeError::MissingParam { field: fid }),
                },
                Value::Absent => Result::Err(EncodeError::MissingValue { field: fid }),
                _ => Result::Err(EncodeError::TypeMismatch { field: fid }),
            },
        },
    }
}

/// The byte image of the elements of a list from position `j` on,
/// serialized independently and concatenated in order.
pub open spec fn spec_enc_elems(
    ty: FieldType,
    elems: Seq<Value>,
    ctx: Seq<(u64, u64)>,
    off: nat,
    fid: u64,
    j: nat,
) -> Result<(Seq<u8>, Seq<u64>), EncodeError>
    decreases ty, 1nat, elems.len() - j,
{
    if j >= elems.len() {
        Result::Ok((Seq::empty(), Seq::empty()))
    } else {
        match spec_enc_typed(ty, elems[j as int], Option::None, ctx, off, fid) {
            Result::Err(e) => Result::Err(e),
            Result::Ok((b1, f1)) => match spec_enc_elems(ty, elems, ctx, off + b1.len(), fid, j + 1) {
                Result::Err(e) => Result::Err(e),
                Result::Ok((b2, f2)) => Result::Ok((b1 + b2, f1 + f2)),
            },
        }
    }
}

/// The byte image of the active cases of a tagged union from case `k` on:
/// each active case's fields are serialized in schema order as an
/// independent sub-message, against the enclosing context extended with the
/// union's discriminant, and the results concatenated.
pub open spec fn spec_enc_cases(
    cases: Seq<SwitchCase>,
    actives: Seq<Option<Vec<Value>>>,
    ctx: Seq<(u64, u64)>,
    d: u64,
    off: nat,
    k: nat,
) -> Result<(Seq<u8>, Seq<u64>), EncodeError>
    decreases cases, 0nat, cases.len() - k,
{
    if k >= cases.len() || k >= actives.len() {
        Result::Ok((Seq::empty(), Seq::empty()))
    } else {
        match actives[k as int] {
            Option::None => spec_enc_cases(cases, actives, ctx, d, off, k + 1),
            Option::Some(vs) => match spec_enc_fields(
                cases[k as int].fields@,
                vs@,
                cases[k as int].deducible@,
                ctx,
                Option::Some(d),
                off,
                0,
            ) {
                Result::Err(e) => Result::Err(e),
                Result::Ok((b1, f1, _)) => match spec_enc_cases(
                    cases,
                    actives,
                    ctx,
                    d,
                    off + b1.len(),
                    k + 1,
                ) {
                    Result::Err(e) => Result::Err(e),
                    Result::Ok((b2, f2)) => Result::Ok((b1 + b2, f1 + f2)),
                },
            },
        }
    }
}

/// The full byte image and descriptor list of a message, under the given
/// external parameters.
pub open spec fn spec_encode(
    fields: Seq<FieldDef>,
    vals: Seq<Value>,
    ded: Seq<(u64, DeducibleField)>,
    params: Seq<(u64, u64)>,
) -> Result<(Seq<u8>, Seq<u64>), EncodeError> {
    match spec_enc_fields(fields, vals, ded, params, Option::None, 0, 0) {
        Result::Err(e) => Result::Err(e),
        Result::Ok((b, f, _)) => Result::Ok((b, f)),
    }
}

/// A copy of a lookup context.
pub fn clone_ctx(ctx: &Ctx) -> (r: Ctx)
    ensures
        r@ == ctx@,
{
    let mut out: Ctx = Vec::new();
    let mut i: usize = 0;
    while i < ctx.len()
        invariant
            i <= ctx.len(),
            out@ =~= ctx@.subrange(0, i as int),
        decreases ctx.len() - i,
    {
        out.push(ctx[i]);
        i = i + 1;
    }
    proof {
        assert(out@ =~= ctx@);
    }
    out
}

/// Append all bytes of `src`.
fn push_all(buf: &mut Vec<u8>, src: &Vec<u8>)
    ensures
        final(buf)@ == old(buf)@ + src@,
{
    let mut i: usize = 0;
    while i < src.len()
        invariant
            i <= src.len(),
            buf@ =~= old(buf)@ + src@.subrange(0, i as int),
        decreases src.len() - i,
    {
        buf.push(src[i]);
        i = i + 1;
    }
    proof {
        assert(buf@ =~= old(buf)@ + src@);
    }
}

/// Append all descriptors of `src`.
fn push_all_u64(out: &mut Vec<u64>, src: &Vec<u64>)
    ensures
        final(out)@ == old(out)@ + src@,
{
    let mut i: usize = 0;
    while i < src.len()
        invariant
            i <= src.len(),
            out@ =~= old(out)@ + src@.subrange(0, i as int),
        decreases src.len() - i,
    {
        out.push(src[i]);
        i = i + 1;
    }
    proof {
        assert(out@ =~= old(out)@ + src@);
    }
}

/// The position of the field with identifier `id`, searching from `i`.
fn find_idx(fields: &Vec<FieldDef>, vals: &Vec<Value>, id: u64, i: usize) -> (r: Option<usize>)
    requires
        i <= fields@.len(),
    ensures
        (match r {
            Option::Some(ix) => i <= ix < fields@.len() && ix < vals@.len() && spec_find(
                fields@,
                vals@,
                id,
                i as nat,
            ) == Option::Some((fields@[ix as int], vals@[ix as int])),
            Option::None => spec_find(fields@, vals@, id, i as nat) is None,
        }),
    decreases fields@.len() - i,
{
    if i >= fields.len() || i >= vals.len() {
        None
    } else {
        let has = match &fields[i] {
            FieldDef::Pad(_) => false,
            FieldDef::Normal { id: fid, .. } => *fid == id,
            FieldDef::List { id: fid, .. } => *fid == id,
            FieldDef::Switch { id: fid, .. } => *fid == id,
            FieldDef::ExprConst { id: fid, .. } => *fid == id,
            FieldDef::Fd { id: fid } => *fid == id,
            FieldDef::FdList { id: fid, .. } => *fid == id,
            FieldDef::VirtualLen { id: fid, .. } => *fid == id,
        };
        if has {
            Some(i)
        } else {
            find_idx(fields, vals, id, i + 1)
        }
    }
}

/// The element count of a sequence-shaped value, as a 64-bit quantity.
fn value_len(v: &Value) -> (r: Option<u64>)
    ensures
        (match spec_value_len(*v) {
            Option::Some(n) => r == Option::Some(n as u64) && n <= u64::MAX,
            Option::None => r is None,
        }),
{
    match v {
        Value::Bytes(b) => Some(b.len() as u64),
        Value::List(l) => Some(l.len() as u64),
        Value::Fds(f) => Some(f.len() as u64),
        _ => None,
    }
}

/// The deduction rule covering `id`, if any.
pub(crate) fn ded_lookup(ded: &Vec<(u64, DeducibleField)>, id: u64, i: usize) -> (r: Option<usize>)
    requires
        i <= ded@.len(),
    ensures
        (match r {
            Option::Some(ix) => ix < ded@.len() && spec_ded_lookup(ded@, id, i as nat)
                == Option::Some(ded@[ix as int].1),
            Option::None => spec_ded_lookup(ded@, id, i as nat) is None,
        }),
    decreases ded@.len() - i,
{
    if i >= ded.len() {
        None
    } else if ded[i].0 == id {
        Some(i)
    } else {
        ded_lookup(ded, id, i + 1)
    }
}

/// Whether any case from `k` on is marked active.
fn any_active(actives: &Vec<Option<Vec<Value>>>, k: usize) -> (r: bool)
    requires
        k <= actives@.len(),
    ensures
        r == spec_any_active(actives@, k as nat),
    decreases actives@.len() - k,
{
    if k >= actives.len() {
        false
    } else if actives[k].is_some() {
        true
    } else {
        any_active(actives, k + 1)
    }
}

/// The guard of the single active case, if exactly one is active.
fn case_disc(cases: &Vec<SwitchCase>, actives: &Vec<Option<Vec<Value>>>, k: usize) -> (r: Option<
    u64,
>)
    requires
        k <= cases@.len(),
        k <= actives@.len(),
    ensures
        r == spec_case_disc(cases@, actives@, k as nat),
    decreases cases@.len() - k,
{
    if k >= cases.len() || k >= actives.len() {
        None
    } else if actives[k].is_some() {
        if any_active(actives, k + 1) {
            None
        } else {
            Some(cases[k].guard)
        }
    } else {
        case_disc(cases, actives, k + 1)
    }
}

/// The union of the guard bits of the active cases.
fn bit_disc(cases: &Vec<SwitchCase>, actives: &Vec<Option<Vec<Value>>>, k: usize) -> (r: u64)
    requires
        k <= cases@.len(),
        k <= actives@.len(),
    ensures
        r == spec_bit_disc(cases@, actives@, k as nat),
    decreases cases@.len() - k,
{
    if k >= cases.len() || k >= actives.len() {
        0
    } else if actives[k].is_some() {
        cases[k].guard | bit_disc(cases, actives, k + 1)
    } else {
        bit_disc(cases, actives, k + 1)
    }
}

/// Whether the active marking matches first-guard-match selection.
fn case_sel_ok(cases: &Vec<SwitchCase>, actives: &Vec<Option<Vec<Value>>>, d: u64, k: usize) -> (r:
    bool)
    requires
        k <= cases@.len(),
        k <= actives@.len(),
    ensures
        r == spec_case_sel_ok(cases@, actives@, d, k as nat),
    decreases cases@.len() - k,
{
    if k >= cases.len() || k >= actives.len() {
        true
    } else if actives[k].is_some() {
        cases[k].guard == d
    } else {
        cases[k].guard != d && case_sel_ok(cases, actives, d, k + 1)
    }
}

/// Whether the active marking matches per-bit selection.
fn bit_sel_ok(cases: &Vec<SwitchCase>, actives: &Vec<Option<Vec<Value>>>, d: u64, k: usize) -> (r:
    bool)
    requires
        k <= cases@.len(),
        k <= actives@.len(),
    ensures
        r == spec_bit_sel_ok(cases@, actives@, d, k as nat),
    decreases cases@.len() - k,
{
    if k >= cases.len() || k >= actives.len() {
        true
    } else {
        (actives[k].is_some() == ((d & cases[k].guard) != 0)) && bit_sel_ok(cases, actives, d, k + 1)
    }
}

/// Apply a deduction rule to the message's fields and values.
fn deduced(all_f: &Vec<FieldDef>, all_v: &Vec<Value>, rule: &DeducibleField) -> (r: Option<u64>)
    ensures
        r == spec_deduced(all_f@, all_v@, *rule),
{
    match rule {
        DeducibleField::LengthOf { list, op } => match find_idx(all_f, all_v, *list, 0) {
            Some(ix) => match value_len(&all_v[ix]) {
                Some(n) => match op {
                    DeducibleLengthOp::Plain => Some(n),
                    DeducibleLengthOp::Mul(k) => n.checked_mul(*k),
                    DeducibleLengthOp::Div(k) => if *k > 0 && n % *k == 0 {
                        Some(n / *k)
                    } else {
                        None
                    },
                },
                None => None,
            },
            None => None,
        },
        DeducibleField::CaseSwitchExpr { switch } => match find_idx(all_f, all_v, *switch, 0) {
            Some(ix) => derived_disc(&all_f[ix], &all_v[ix]),
            None => None,
        },
        DeducibleField::BitCaseSwitchExpr { switch } => match find_idx(all_f, all_v, *switch, 0) {
            Some(ix) => derived_disc(&all_f[ix], &all_v[ix]),
            None => None,
        },
    }
}

/// The discriminant a union value itself represents.
fn derived_disc(f: &FieldDef, v: &Value) -> (r: Option<u64>)
    ensures
        r == spec_derived_disc(*f, *v),
{
    match (f, v) {
        (FieldDef::Switch { kind, cases, .. }, Value::Switch(actives)) => {
            if actives.len() == cases.len() {
                match kind {
                    SwitchKind::Case => case_disc(cases, actives, 0),
                    SwitchKind::BitCase => Some(bit_disc(cases, actives, 0)),
                }
            } else {
                None
            }
        },
        _ => None,
    }
}

/// Resolve the external parameters a nested type declares.
pub(crate) fn child_ctx(params: &Vec<u64>, ctx: &Ctx, i: usize) -> (r: Option<Ctx>)
    requires
        i <= params@.len(),
    ensures
        (match spec_child_ctx(params@, ctx@, i as nat) {
            Option::Some(c) => match r {
                Option::Some(rc) => rc@ == c,
                Option::None => false,
            },
            Option::None => r is None,
        }),
    decreases params@.len() - i,
{
    if i >= params.len() {
        Some(Vec::new())
    } else {
        match lookup(ctx, params[i]) {
            Some(v) => match child_ctx(params, ctx, i + 1) {
                Some(mut rest) => {
                    rest.insert(0, (params[i], v));
                    proof {
                        let c = spec_child_ctx(params@, ctx@, i as nat).unwrap();
                        assert(rest@ =~= c);
                    }
                    Some(rest)
                },
                None => None,
            },
            None => None,
        }
    }
}

/// Encode the fields of a list from position `i` on, appending bytes and
/// descriptors, and return the extended context.
fn enc_fields(
    all_f: &Vec<FieldDef>,
    all_v: &Vec<Value>,
    ded: &Vec<(u64, DeducibleField)>,
    ctx: Ctx,
    disc: Option<u64>,
    i: usize,
    buf: &mut Vec<u8>,
    fds: &mut Vec<u64>,
) -> (r: Result<Ctx, EncodeError>)
    requires
        i <= all_f@.len(),
    ensures
        (match spec_enc_fields(
            all_f@,
            all_v@,
            ded@,
            ctx@,
            disc,
            old(buf)@.len() as nat,
            i as nat,
        ) {
            Result::Ok((b, fl, c)) => match r {
                Result::Ok(c2) => c2@ == c && final(buf)@ == old(buf)@ + b && final(fds)@ == old(
                    fds,
                )@ + fl,
                Result::Err(_) => false,
            },
            Result::Err(e) => r == Result::<Ctx, EncodeError>::Err(e),
        }),
    decreases *all_f, 0nat, all_f@.len() - i,
{
    if all_f.len() != all_v.len() {
        return Err(EncodeError::LengthMismatch);
    }
    if i >= all_f.len() {
        proof {
            assert(buf@ =~= buf@ + Seq::<u8>::empty());
            assert(fds@ =~= fds@ + Seq::<u64>::empty());
        }
        return Ok(ctx);
    }
    match enc_field(all_f, all_v, ded, ctx, disc, &all_f[i], &all_v[i], buf, fds) {
        Err(e) => Err(e),
        Ok(ctx1) => {
            let r2 = enc_fields(all_f, all_v, ded, ctx1, disc, i + 1, buf, fds);
            match r2 {
                Err(e) => Err(e),
                Ok(ctx2) => {
                    proof {
                        let s = spec_enc_fields(
                            all_f@,
                            all_v@,
                            ded@,
                            ctx@,
                            disc,
                            old(buf)@.len() as nat,
                            i as nat,
                        );
                        if s is Ok {
                            let (b, fl, c) = s->Ok_0;
                            assert(buf@ =~= old(buf)@ + b);
                            assert(fds@ =~= old(fds)@ + fl);
                        }
                    }
                    Ok(ctx2)
                },
            }
        },
    }
}

/// Encode one field.
fn enc_field(
    all_f: &Vec<FieldDef>,
    all_v: &Vec<Value>,
    ded: &Vec<(u64, DeducibleField)>,
    ctx: Ctx,
    disc: Option<u64>,
    f: &FieldDef,
    v: &Value,
    buf: &mut Vec<u8>,
    fds: &mut Vec<u64>,
) -> (r: Result<Ctx, EncodeError>)
    ensures
        (match spec_enc_field(
            all_f@,
            all_v@,
            ded@,
            ctx@,
            disc,
            old(buf)@.len() as nat,
            *f,
            *v,
        ) {
            Result::Ok((b, fl, c)) => match r {
                Result::Ok(c2) => c2@ == c && final(buf)@ == old(buf)@ + b && final(fds)@ == old(
                    fds,
                )@ + fl,
                Result::Err(_) => false,
            },
            Result::Err(e) => r == Result::<Ctx, EncodeError>::Err(e),
        }),
    decreases *f, 1nat, 0nat,
{
    match f {
        FieldDef::Pad(PadKind::Bytes(n)) => {
            push_zeros(buf, *n);
            proof {
                assert(fds@ =~= fds@ + Seq::<u64>::empty());
            }
            Ok(ctx)
        },
        FieldDef::Pad(PadKind::Align(a)) => {
            if *a == 0 {
                Err(EncodeError::BadAlignment)
            } else {
                let amount: usize = (*a - (buf.len() % *a)) % *a;
                push_zeros(buf, amount);
                proof {
                    assert(fds@ =~= fds@ + Seq::<u64>::empty());
                }
                Ok(ctx)
            }
        },
        FieldDef::Normal { id, ty } => {
            match ded_lookup(ded, *id, 0) {
                Some(rix) => {
                    match deduced(all_f, all_v, &ded[rix].1) {
                        None => Err(EncodeError::BadDeduction { field: *id }),
                        Some(dv) => {
                            let supplied_ok = match v {
                                Value::Absent => true,
                                Value::Uint(x) => *x == dv,
                                _ => false,
                            };
                            if !supplied_ok {
                                if matches!(v, Value::Uint(_)) {
                                    Err(EncodeError::Inconsistent { field: *id })
                                } else {
                                    Err(EncodeError::TypeMismatch { field: *id })
                                }
                            } else {
                                match enc_typed(ty, v, Some(dv), &ctx, *id, buf, fds) {
                                    Err(e) => Err(e),
                                    Ok(()) => {
                                        let mut ctx2 = ctx;
                                        ctx2.push((*id, dv));
                                        Ok(ctx2)
                                    },
                                }
                            }
                        },
                    }
                },
                None => {
                    match enc_typed(ty, v, None, &ctx, *id, buf, fds) {
                        Err(e) => Err(e),
                        Ok(()) => {
                            match (ty, v) {
                                (FieldType::Struct(_), _) => Ok(ctx),
                                (_, Value::Uint(x)) => {
                                    let mut ctx2 = ctx;
                                    ctx2.push((*id, *x));
                                    Ok(ctx2)
                                },
                                _ => Ok(ctx),
                            }
                        },
                    }
                },
            }
        },
        FieldDef::List { id, elem, length_expr } => {
            match length_expr {
                None => Err(EncodeError::Unsupported { field: *id }),
                Some(e) => {
                    match eval(e, &ctx, disc) {
                        None => Err(EncodeError::BadExpression { field: *id }),
                        Some(want) => {
                            let byte_elem = match elem {
                                FieldType::Int { size } => *size == 1,
                                _ => false,
                            };
                            if byte_elem {
                                match v {
                                    Value::Bytes(b) => {
                                        if b.len() as u64 == want {
                                            push_all(buf, b);
                                            proof {
                                                assert(fds@ =~= fds@ + Seq::<u64>::empty());
                                            }
                                            Ok(ctx)
                                        } else {
                                            Err(EncodeError::Inconsistent { field: *id })
                                        }
                                    },
                                    Value::Absent => Err(EncodeError::MissingValue { field: *id }),
                                    _ => Err(EncodeError::TypeMismatch { field: *id }),
                                }
                            } else {
                                match v {
                                    Value::List(elems) => {
                                        if elems.len() as u64 == want {
                                            match enc_elems(elem, elems, &ctx, *id, 0, buf, fds) {
                                                Err(err) => Err(err),
                                                Ok(()) => Ok(ctx),
                                            }
                                        } else {
                                            Err(EncodeError::Inconsistent { field: *id })
                                        }
                                    },
                                    Value::Absent => Err(EncodeError::MissingValue { field: *id }),
                                    _ => Err(EncodeError::TypeMismatch { field: *id }),
                                }
                            }
                        },
                    }
                },
            }
        },
        FieldDef::Switch { id, expr, kind, cases } => {
            match v {
                Value::Switch(actives) => {
                    if actives.len() != cases.len() {
                        Err(EncodeError::TypeMismatch { field: *id })
                    } else {
                        let dd_opt = match kind {
                            SwitchKind::Case => case_disc(cases, actives, 0),
                            SwitchKind::BitCase => Some(bit_disc(cases, actives, 0)),
                        };
                        match dd_opt {
                            None => Err(EncodeError::Inconsistent { field: *id }),
                            Some(dd) => {
                                match eval(expr, &ctx, disc) {
                                    None => Err(EncodeError::BadExpression { field: *id }),
                                    Some(de) => {
                                        if de != dd {
                                            Err(EncodeError::Inconsistent { field: *id })
                                        } else {
                                            let sel_ok = match kind {
                                                SwitchKind::Case => case_sel_ok(
                                                    cases,
                                                    actives,
                                                    dd,
                                                    0,
                                                ),
                                                SwitchKind::BitCase => bit_sel_ok(
                                                    cases,
                                                    actives,
                                                    dd,
                                                    0,
                                                ),
                                            };
                                            if !sel_ok {
                                                Err(EncodeError::Inconsistent { field: *id })
                                            } else {
                                                match enc_cases(
                                                    cases,
                                                    actives,
                                                    &ctx,
                                                    dd,
                                                    0,
                                                    buf,
                                                    fds,
                                                ) {
                                                    Err(err) => Err(err),
                                                    Ok(()) => Ok(ctx),
                                                }
                                            }
                                        }
                                    },
                                }
                            },
                        }
                    }
                },
                Value::Absent => Err(EncodeError::MissingValue { field: *id }),
                _ => Err(EncodeError::TypeMismatch { field: *id }),
            }
        },
        FieldDef::ExprConst { id, value } => {
            if *value > 255 {
                Err(EncodeError::Unsupported { field: *id })
            } else {
                buf.push(*value as u8);
                proof {
                    assert(buf@ =~= old(buf)@ + seq![(*value) as u8]);
                    assert(fds@ =~= fds@ + Seq::<u64>::empty());
                }
                Ok(ctx)
            }
        },
        FieldDef::Fd { id } => {
            match v {
                Value::Uint(fd) => {
                    fds.push(*fd);
                    proof {
                        assert(buf@ =~= buf@ + Seq::<u8>::empty());
                        assert(fds@ =~= old(fds)@ + seq![*fd]);
                    }
                    Ok(ctx)
                },
                Value::Absent => Err(EncodeError::MissingValue { field: *id }),
                _ => Err(EncodeError::TypeMismatch { field: *id }),
            }
        },
        FieldDef::FdList { id, length_expr } => {
            match v {
                Value::Fds(fs) => {
                    match eval(length_expr, &ctx, disc) {
                        None => Err(EncodeError::BadExpression { field: *id }),
                        Some(want) => {
                            if fs.len() as u64 == want {
                                push_all_u64(fds, fs);
                                proof {
                                    assert(buf@ =~= buf@ + Seq::<u8>::empty());
                                }
                                Ok(ctx)
                            } else {
                                Err(EncodeError::Inconsistent { field: *id })
                            }
                        },
                    }
                },
                Value::Absent => Err(EncodeError::MissingValue { field: *id }),
                _ => Err(EncodeError::TypeMismatch { field: *id }),
            }
        },
        FieldDef::VirtualLen { id, list } => {
            match find_idx(all_f, all_v, *list, 0) {
                Some(ix) => {
                    match value_len(&all_v[ix]) {
                        Some(n) => {
                            if n < 0x1_0000_0000 {
                                push_le_bytes(buf, n, 4);
                                proof {
                                    assert(fds@ =~= fds@ + Seq::<u64>::empty());
                                }
                                Ok(ctx)
                            } else {
                                Err(EncodeError::TooLarge { field: *id })
                            }
                        },
                        None => Err(EncodeError::BadDeduction { field: *id }),
                    }
                },
                None => Err(EncodeError::BadDeduction { field: *id }),
            }
        },
    }
}

/// Encode one leaf value of the given type.
fn enc_typed(
    ty: &FieldType,
    v: &Value,
    dv: Option<u64>,
    ctx: &Ctx,
    fid: u64,
    buf: &mut Vec<u8>,
    fds: &mut Vec<u64>,
) -> (r: Result<(), EncodeError>)
    ensures
        (match spec_enc_typed(*ty, *v, dv, ctx@, old(buf)@.len() as nat, fid) {
            Result::Ok((b, fl)) => match r {
                Result::Ok(_) => final(buf)@ == old(buf)@ + b && final(fds)@ == old(fds)@ + fl,
                Result::Err(_) => false,
            },
            Result::Err(e) => r == Result::<(), EncodeError>::Err(e),
        }),
    decreases *ty, 0nat, 0nat,
{
    match dv {
        Some(d) => {
            match ty {
                FieldType::Int { size } => {
                    if *size > 8 {
                        Err(EncodeError::Unsupported { field: fid })
                    } else if fits_bytes(d, *size) {
                        push_le_bytes(buf, d, *size);
                        proof {
                            assert(fds@ =~= fds@ + Seq::<u64>::empty());
                        }
                        Ok(())
                    } else {
                        Err(EncodeError::TooLarge { field: fid })
                    }
                },
                FieldType::Enum { size, .. } => {
                    if *size > 8 {
                        Err(EncodeError::Unsupported { field: fid })
                    } else if fits_bytes(d, *size) {
                        push_le_bytes(buf, d, *size);
                        proof {
                            assert(fds@ =~= fds@ + Seq::<u64>::empty());
                        }
                        Ok(())
                    } else {
                        Err(EncodeError::TooLarge { field: fid })
                    }
                },
                FieldType::Struct(_) => Err(EncodeError::TypeMismatch { field: fid }),
            }
        },
        None => {
            match ty {
                FieldType::Int { size } => {
                    match v {
                        Value::Uint(x) => {
                            if *size > 8 {
                                return Err(EncodeError::Unsupported { field: fid });
                            }
                            if fits_bytes(*x, *size) {
                                push_le_bytes(buf, *x, *size);
                                proof {
                                    assert(fds@ =~= fds@ + Seq::<u64>::empty());
                                }
                                Ok(())
                            } else {
                                Err(EncodeError::TooLarge { field: fid })
                            }
                        },
                        Value::Absent => Err(EncodeError::MissingValue { field: fid }),
                        _ => Err(EncodeError::TypeMismatch { field: fid }),
                    }
                },
                FieldType::Enum { size, max_value } => {
                    match v {
                        Value::Uint(x) => {
                            if *size > 8 {
                                return Err(EncodeError::Unsupported { field: fid });
                            }
                            if *x > *max_value {
                                return Err(EncodeError::OutOfRange { field: fid });
                            }
                            let eff = enum_encoded_size(*size, *max_value);
                            if fits_bytes(*x, eff) {
                                push_le_bytes(buf, *x, eff);
                                proof {
                                    assert(fds@ =~= fds@ + Seq::<u64>::empty());
                                }
                                Ok(())
                            } else {
                                Err(EncodeError::TooLarge { field: fid })
                            }
                        },
                        Value::Absent => Err(EncodeError::MissingValue { field: fid }),
                        _ => Err(EncodeError::TypeMismatch { field: fid }),
                    }
                },
                FieldType::Struct(sd) => {
                    match v {
                        Value::Struct(vs) => {
                            match child_ctx(&sd.params, ctx, 0) {
                                Some(cctx) => {
                                    match enc_fields(
                                        &sd.fields,
                                        vs,
                                        &sd.deducible,
                                        cctx,
                                        None,
                                        0,
                                        buf,
                                        fds,
                                    ) {
                                        Err(e) => Err(e),
                                        Ok(_) => Ok(()),
                                    }
                                },
                                None => Err(EncodeError::MissingParam { field: fid }),
                            }
                        },
                        Value::Absent => Err(EncodeError::MissingValue { field: fid }),
                        _ => Err(EncodeError::TypeMismatch { field: fid }),
                    }
                },
            }
        },
    }
}

/// Encode the elements of a list from position `j` on.
fn enc_elems(
    ty: &FieldType,
    elems: &Vec<Value>,
    ctx: &Ctx,
    fid: u64,
    j: usize,
    buf: &mut Vec<u8>,
    fds: &mut Vec<u64>,
) -> (r: Result<(), EncodeError>)
    requires
        j <= elems@.len(),
    ensures
        (match spec_enc_elems(*ty, elems@, ctx@, old(buf)@.len() as nat, fid, j as nat) {
            Result::Ok((b, fl)) => match r {
                Result::Ok(_) => final(buf)@ == old(buf)@ + b && final(fds)@ == old(fds)@ + fl,
                Result::Err(_) => false,
            },
            Result::Err(e) => r == Result::<(), EncodeError>::Err(e),
        }),
    decreases *ty, 1nat, elems@.len() - j,
{
    if j >= elems.len() {
        proof {
            assert(buf@ =~= buf@ + Seq::<u8>::empty());
            assert(fds@ =~= fds@ + Seq::<u64>::empty());
        }
        Ok(())
    } else {
        match enc_typed(ty, &elems[j], None, ctx, fid, buf, fds) {
            Err(e) => Err(e),
            Ok(()) => {
                let r2 = enc_elems(ty, elems, ctx, fid, j + 1, buf, fds);
                match r2 {
                    Err(e) => Err(e),
                    Ok(()) => {
                        proof {
                            let s = spec_enc_elems(
                                *ty,
                                elems@,
                                ctx@,
                                old(buf)@.len() as nat,
                                fid,
                                j as nat,
                            );
                            if s is Ok {
                                let (b, fl) = s->Ok_0;
                                assert(buf@ =~= old(buf)@ + b);
                                assert(fds@ =~= old(fds)@ + fl);
                            }
                        }
                        Ok(())
                    },
                }
            },
        }
    }
}

/// Encode the active cases of a tagged union from case `k` on.
fn enc_cases(
    cases: &Vec<SwitchCase>,
    actives: &Vec<Option<Vec<Value>>>,
    ctx: &Ctx,
    d: u64,
    k: usize,
    buf: &mut Vec<u8>,
    fds: &mut Vec<u64>,
) -> (r: Result<(), EncodeError>)
    requires
        k <= cases@.len(),
    ensures
        (match spec_enc_cases(cases@, actives@, ctx@, d, old(buf)@.len() as nat, k as nat) {
            Result::Ok((b, fl)) => match r {
                Result::Ok(_) => final(buf)@ == old(buf)@ + b && final(fds)@ == old(fds)@ + fl,
                Result::Err(_) => false,
            },
            Result::Err(e) => r == Result::<(), EncodeError>::Err(e),
        }),
    decreases *cases, 0nat, cases@.len() - k,
{
    if k >= cases.len() || k >= actives.len() {
        proof {
            assert(buf@ =~= buf@ + Seq::<u8>::empty());
            assert(fds@ =~= fds@ + Seq::<u64>::empty());
        }
        Ok(())
    } else {
        match &actives[k] {
            None => enc_cases(cases, actives, ctx, d, k + 1, buf, fds),
            Some(vs) => {
                let body_ctx = clone_ctx(ctx);
                match enc_fields(
                    &cases[k].fields,
                    vs,
                    &cases[k].deducible,
                    body_ctx,
                    Some(d),
                    0,
                    buf,
                    fds,
                ) {
                    Err(e) => Err(e),
                    Ok(_) => {
                        let r2 = enc_cases(cases, actives, ctx, d, k + 1, buf, fds);
                        match r2 {
                            Err(e) => Err(e),
                            Ok(()) => {
                                proof {
                                    let s = spec_enc_cases(
                                        cases@,
                                        actives@,
                                        ctx@,
                                        d,
                                        old(buf)@.len() as nat,
                                        k as nat,
                                    );
                                    if s is Ok {
                                        let (b, fl) = s->Ok_0;
                                        assert(buf@ =~= old(buf)@ + b);
                                        assert(fds@ =~= old(fds)@ + fl);
                                    }
                                }
                                Ok(())
                            },
                        }
                    },
                }
            },
        }
    }
}

/// Encode a message: walk its field list in schema order and produce the
/// exact byte image and the side channel of file descriptors, or the fatal
/// contract violation that aborts the encode with no output.
pub fn encode_message(
    fields: &Vec<FieldDef>,
    vals: &Vec<Value>,
    ded: &Vec<(u64, DeducibleField)>,
    params: &Ctx,
) -> (r: Result<(Vec<u8>, Vec<u64>), EncodeError>)
    ensures
        (match spec_encode(fields@, vals@, ded@, params@) {
            Result::Ok((b, fl)) => match r {
                Result::Ok((bb, ff)) => bb@ == b && ff@ == fl,
                Result::Err(_) => false,
            },
            Result::Err(e) => r == Result::<(Vec<u8>, Vec<u64>), EncodeError>::Err(e),
        }),
{
    let mut buf: Vec<u8> = Vec::new();
    let mut fds: Vec<u64> = Vec::new();
    let ctx = clone_ctx(params);
    match enc_fields(fields, vals, ded, ctx, None, 0, &mut buf, &mut fds) {
        Err(e) => Err(e),
        Ok(_) => {
            proof {
                let s = spec_enc_fields(fields@, vals@, ded@, params@, Option::None, 0, 0);
                if s is Ok {
                    let (b, fl, _) = s->Ok_0;
                    assert(buf@ =~= Seq::<u8>::empty() + b);
                    assert(fds@ =~= Seq::<u64>::empty() + fl);
                }
            }
            Ok((buf, fds))
        },
    }
}

} // verus!
