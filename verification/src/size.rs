//! The size and alignment resolver.
//!
//! A field's size is static when it can be computed from the schema and the
//! current offset alone: fixed pads, alignment pads after a statically-sized
//! prefix, normal fields of fixed-size types, fixed-length lists of
//! fixed-size elements, and by-value unions whose every case has the same
//! static size.  When the resolver reports a static size, the emitter's
//! output provably has exactly that many bytes, which lets a caller choose
//! the fixed whole-array strategy over the streaming strategy; both produce
//! the identical byte image.

use vstd::prelude::*;

use crate::bytes::{lemma_le_bytes_len, spec_pow256};
use crate::encode::{
    encode_message, spec_ded_lookup, spec_derived_disc, spec_enc_cases, spec_enc_elems,
    spec_enc_field, spec_enc_fields, spec_enc_typed, spec_encode, spec_pad_amount, EncodeError,
};
use crate::expr::{spec_eval, Ctx};
use crate::schema::{
    enum_encoded_size, spec_enum_encoded_size, wire_bytes, DeducibleField, Expression, FieldDef,
    FieldType, PadKind, SwitchCase, SwitchKind, Value,
};

verus! {

/// The static size of a leaf type, if it has one.  A deduced field is
/// always emitted at its declared size.
pub open spec fn spec_type_size(ty: FieldType, deduced: bool, off: nat) -> Option<nat>
    decreases ty, 0nat, 0nat,
{
    match ty {
        FieldType::Int { size } => if size > 8 {
            Option::None
        } else {
            Option::Some(size as nat)
        },
        FieldType::Enum { size, max_value } => if size > 8 {
            Option::None
        } else if deduced {
            Option::Some(size as nat)
        } else {
            Option::Some(spec_enum_encoded_size(size, max_value) as nat)
        },
        FieldType::Struct(sd) => if deduced {
            Option::None
        } else {
            spec_fields_size(sd.fields@, sd.deducible@, off, 0)
        },
    }
}

/// The static size of one field at offset `off`, if it has one.
pub open spec fn spec_field_size(f: FieldDef, ded: Seq<(u64, DeducibleField)>, off: nat) -> Option<
    nat,
>
    decreases f, 1nat, 0nat,
{
    match f {
        FieldDef::Pad(PadKind::Bytes(n)) => Option::Some(n as nat),
        FieldDef::Pad(PadKind::Align(a)) => if a == 0 {
            Option::None
        } else {
            Option::Some(spec_pad_amount(a as nat, off))
        },
        FieldDef::Normal { id, ty } => spec_type_size(ty, spec_ded_lookup(ded, id, 0) is Some, off),
        FieldDef::List { elem, length_expr, .. } => match length_expr {
            Option::Some(Expression::Value(n)) => match elem {
                FieldType::Int { size } => if size > 8 {
                    Option::None
                } else {
                    Option::Some((n * size) as nat)
                },
                FieldType::Enum { size, max_value } => if size > 8 {
                    Option::None
                } else {
                    Option::Some((n * spec_enum_encoded_size(size, max_value)) as nat)
                },
                FieldType::Struct(_) => Option::None,
            },
            _ => Option::None,
        },
        FieldDef::Switch { kind, cases, .. } => match kind {
            SwitchKind::Case => spec_cases_size(cases@, off, 0),
            SwitchKind::BitCase => Option::None,
        },
        FieldDef::ExprConst { .. } => Option::Some(1nat),
        FieldDef::Fd { .. } => Option::Some(0nat),
        FieldDef::FdList { .. } => Option::Some(0nat),
        FieldDef::VirtualLen { .. } => Option::Some(4nat),
    }
}

/// The common static size of every case of a by-value union, if all cases
/// agree on one.
pub open spec fn spec_cases_size(cases: Seq<SwitchCase>, off: nat, k: nat) -> Option<nat>
    decreases cases, 0nat, cases.len() - k,
{
    if k >= cases.len() {
        Option::None
    } else {
        match spec_fields_size(cases[k as int].fields@, cases[k as int].deducible@, off, 0) {
            Option::None => Option::None,
            Option::Some(s) => if k + 1 == cases.len() {
                Option::Some(s)
            } else {
                match spec_cases_size(cases, off, k + 1) {
                    Option::Some(s2) => if s == s2 {
                        Option::Some(s)
                    } else {
                        Option::None
                    },
                    Option::None => Option::None,
                }
            },
        }
    }
}

/// The static total size of a field list from position `i` at offset
/// `off`: defined when every field's own contribution is static given a
/// static offset, per the running fold.
pub open spec fn spec_fields_size(
    fields: Seq<FieldDef>,
    ded: Seq<(u64, DeducibleField)>,
    off: nat,
    i: nat,
) -> Option<nat>
    decreases fields, 2nat, fields.len() - i,
{
    if i >= fields.len() {
        Option::Some(0nat)
    } else {
        match spec_field_size(fields[i as int], ded, off) {
            Option::None => Option::None,
            Option::Some(s) => match spec_fields_size(fields, ded, off + s, i + 1) {
                Option::None => Option::None,
                Option::Some(rest) => Option::Some(s + rest),
            },
        }
    }
}

/// When every element has the same static size, encoding `j..` elements
/// yields exactly `(count - j) * s` bytes.
proof fn lemma_size_elems(
    ty: FieldType,
    elems: Seq<Value>,
    ctx: Seq<(u64, u64)>,
    off: nat,
    fid: u64,
    j: nat,
    s: nat,
)
    requires
        j <= elems.len(),
        !(ty is Struct),
        forall|o: nat| spec_type_size(ty, false, o) == Option::Some(s),
        spec_enc_elems(ty, elems, ctx, off, fid, j) is Ok,
    ensures
        (match spec_enc_elems(ty, elems, ctx, off, fid, j) {
            Result::Ok((b, _)) => b.len() == (elems.len() - j) * s,
            Result::Err(_) => true,
        }),
    decreases ty, 1nat, elems.len() - j,
{
    if j < elems.len() {
        let e1 = spec_enc_typed(ty, elems[j as int], Option::None, ctx, off, fid);
        let (b1, _) = e1->Ok_0;
        lemma_size_typed(ty, elems[j as int], Option::None, ctx, off, fid, false);
        assert(spec_type_size(ty, false, off) == Option::Some(s));
        assert(b1.len() == s);
        lemma_size_elems(ty, elems, ctx, off + b1.len(), fid, j + 1, s);
        let e2 = spec_enc_elems(ty, elems, ctx, off + b1.len(), fid, j + 1);
        assert(e2 is Ok);
        let (b2, _) = e2->Ok_0;
        assert(b2.len() == (elems.len() - (j + 1)) * s);
        assert(spec_enc_elems(ty, elems, ctx, off, fid, j)->Ok_0.0.len() == b1.len() + b2.len());
        assert((elems.len() - j) * s == s + (elems.len() - (j + 1)) * s) by {
            let ghost ll = elems.len() as int;
            let ghost jj = j as int;
            let ghost ss = s as int;
            assert(jj < ll);
            assert((ll - jj) * ss == ss + (ll - (jj + 1)) * ss) by (nonlinear_arith)
                requires
                    jj < ll,
            ;
        }
        assert(spec_enc_elems(ty, elems, ctx, off, fid, j)->Ok_0.0.len() == (elems.len() - j) * s);
    } else {
        let ghost ll = elems.len() as int;
        let ghost jj = j as int;
        assert(jj == ll);
        assert((ll - jj) * (s as int) == 0) by (nonlinear_arith)
            requires
                jj == ll,
        ;
    }
}

/// A statically sized leaf encodes to exactly that size.
proof fn lemma_size_typed(
    ty: FieldType,
    v: Value,
    dv: Option<u64>,
    ctx: Seq<(u64, u64)>,
    off: nat,
    fid: u64,
    deduced: bool,
)
    requires
        deduced == (dv is Some),
        spec_enc_typed(ty, v, dv, ctx, off, fid) is Ok,
        spec_type_size(ty, deduced, off) is Some,
    ensures
        (match spec_enc_typed(ty, v, dv, ctx, off, fid) {
            Result::Ok((b, _)) => b.len() == spec_type_size(ty, deduced, off)->Some_0,
            Result::Err(_) => true,
        }),
    decreases ty, 0nat, 0nat,
{
    match ty {
        FieldType::Int { size } => {
            match dv {
                Option::Some(d) => lemma_le_bytes_len(d as nat, size as nat),
                Option::None => lemma_le_bytes_len(v->Uint_0 as nat, size as nat),
            }
        },
        FieldType::Enum { size, max_value } => {
            match dv {
                Option::Some(d) => lemma_le_bytes_len(d as nat, size as nat),
                Option::None => lemma_le_bytes_len(
                    v->Uint_0 as nat,
                    spec_enum_encoded_size(size, max_value) as nat,
                ),
            }
        },
        FieldType::Struct(sd) => {
            let cctx = crate::encode::spec_child_ctx(sd.params@, ctx, 0)->Some_0;
            lemma_size_fields(sd.fields@, v->Struct_0@, sd.deducible@, cctx, Option::None, off, 0);
        },
    }
}

/// The common case size is each case's size.
proof fn lemma_cases_size_at(cases: Seq<SwitchCase>, off: nat, k: nat, t: int)
    requires
        spec_cases_size(cases, off, k) is Some,
        k <= t < cases.len(),
    ensures
        spec_fields_size(cases[t].fields@, cases[t].deducible@, off, 0) == Option::Some(
            spec_cases_size(cases, off, k)->Some_0,
        ),
    decreases cases.len() - k,
{
    if k < t {
        lemma_cases_size_at(cases, off, k + 1, t);
    }
}

/// A statically sized field encodes to exactly that size.
proof fn lemma_size_field(
    all_f: Seq<FieldDef>,
    all_v: Seq<Value>,
    ded: Seq<(u64, DeducibleField)>,
    ctx: Seq<(u64, u64)>,
    disc: Option<u64>,
    off: nat,
    f: FieldDef,
    v: Value,
)
    requires
        spec_enc_field(all_f, all_v, ded, ctx, disc, off, f, v) is Ok,
        spec_field_size(f, ded, off) is Some,
    ensures
        (match spec_enc_field(all_f, all_v, ded, ctx, disc, off, f, v) {
            Result::Ok((b, _, _)) => b.len() == spec_field_size(f, ded, off)->Some_0,
            Result::Err(_) => true,
        }),
    decreases f, 2nat, 0nat,
{
    match f {
        FieldDef::Pad(_) => {},
        FieldDef::Normal { id, ty } => {
            match spec_ded_lookup(ded, id, 0) {
                Option::Some(rule) => {
                    let dval = crate::encode::spec_deduced(all_f, all_v, rule)->Some_0;
                    lemma_size_typed(ty, v, Option::Some(dval), ctx, off, id, true);
                },
                Option::None => {
                    lemma_size_typed(ty, v, Option::None, ctx, off, id, false);
                },
            }
        },
        FieldDef::List { id, elem, length_expr } => {
            let n = length_expr->Some_0->Value_0;
            match elem {
                FieldType::Int { size } => {
                    if size == 1 {
                        assert((n * 1) as nat == n as nat);
                    } else {
                        let elems = v->List_0;
                        assert forall|o: nat| spec_type_size(elem, false, o) == Option::Some(
                            size as nat,
                        ) by {}
                        lemma_size_elems(elem, elems@, ctx, off, id, 0, size as nat);
                        assert(elems@.len() == n);
                        assert((elems@.len() - 0nat) * (size as nat) == elems@.len() * (
                        size as nat));
                        assert(elems@.len() * (size as nat) == n * size);
                    }
                },
                FieldType::Enum { size, max_value } => {
                    let elems = v->List_0;
                    let s = spec_enum_encoded_size(size, max_value) as nat;
                    assert forall|o: nat| spec_type_size(elem, false, o) == Option::Some(s) by {}
                    lemma_size_elems(elem, elems@, ctx, off, id, 0, s);
                    assert(elems@.len() == n);
                    assert((elems@.len() - 0nat) * s == elems@.len() * s);
                    assert(elems@.len() * s == n * s);
                },
                FieldType::Struct(_) => {},
            }
        },
        FieldDef::Switch { id, expr, kind, cases } => {
            match kind {
                SwitchKind::Case => {
                    let actives = v->Switch_0;
                    let dd = spec_derived_disc(f, v)->Some_0;
                    crate::laws::lemma_switch_case_isolation(
                        all_f,
                        all_v,
                        ded,
                        ctx,
                        disc,
                        off,
                        f,
                        v,
                    );
                    let k0 = crate::laws::spec_first_active(actives@, 0)->Some_0;
                    lemma_cases_size_at(cases@, off, 0, k0 as int);
                    lemma_size_fields(
                        cases@[k0 as int].fields@,
                        actives@[k0 as int]->Some_0@,
                        cases@[k0 as int].deducible@,
                        ctx,
                        Option::Some(dd),
                        off,
                        0,
                    );
                },
                SwitchKind::BitCase => {},
            }
        },
        FieldDef::ExprConst { .. } => {},
        FieldDef::Fd { .. } => {},
        FieldDef::FdList { .. } => {},
        FieldDef::VirtualLen { id, list } => {
            let n = crate::encode::spec_value_len(
                crate::encode::spec_find(all_f, all_v, list, 0)->Some_0.1,
            )->Some_0;
            lemma_le_bytes_len(n, 4);
        },
    }
}

/// A field list with a static total size encodes to exactly that size.
proof fn lemma_size_fields(
    all_f: Seq<FieldDef>,
    all_v: Seq<Value>,
    ded: Seq<(u64, DeducibleField)>,
    ctx: Seq<(u64, u64)>,
    disc: Option<u64>,
    off: nat,
    i: nat,
)
    requires
        spec_enc_fields(all_f, all_v, ded, ctx, disc, off, i) is Ok,
        spec_fields_size(all_f, ded, off, i) is Some,
    ensures
        (match spec_enc_fields(all_f, all_v, ded, ctx, disc, off, i) {
            Result::Ok((b, _, _)) => b.len() == spec_fields_size(all_f, ded, off, i)->Some_0,
            Result::Err(_) => true,
        }),
    decreases all_f, 3nat, all_f.len() - i,
{
    if i < all_f.len() {
        let e1 = spec_enc_field(all_f, all_v, ded, ctx, disc, off, all_f[i as int], all_v[i as int]);
        let (b1, _, c1) = e1->Ok_0;
        lemma_size_field(all_f, all_v, ded, ctx, disc, off, all_f[i as int], all_v[i as int]);
        lemma_size_fields(all_f, all_v, ded, c1, disc, off + b1.len(), i + 1);
    }
}

/// Static size soundness: when the resolver reports a static message size,
/// every successful encode of that schema produces exactly that many bytes.
pub proof fn lemma_static_size(
    fields: Seq<FieldDef>,
    vals: Seq<Value>,
    ded: Seq<(u64, DeducibleField)>,
    params: Seq<(u64, u64)>,
)
    requires
        spec_encode(fields, vals, ded, params) is Ok,
        spec_fields_size(fields, ded, 0, 0) is Some,
    ensures
        (match spec_encode(fields, vals, ded, params) {
            Result::Ok((b, _)) => b.len() == spec_fields_size(fields, ded, 0, 0)->Some_0,
            Result::Err(_) => true,
        }),
{
    lemma_size_fields(fields, vals, ded, params, Option::None, 0, 0);
}

/// Executable resolver for one leaf type.
fn type_size(ty: &FieldType, deduced: bool, off: u64) -> (r: Option<u64>)
    ensures
        (match r {
            Option::Some(s) => spec_type_size(*ty, deduced, off as nat) == Option::Some(s as nat),
            Option::None => spec_type_size(*ty, deduced, off as nat) is None || (match spec_type_size(
                *ty,
                deduced,
                off as nat,
            ) {
                Option::Some(s) => off + s > u64::MAX,
                Option::None => true,
            }),
        }),
    decreases *ty, 0nat, 0nat,
{
    match ty {
        FieldType::Int { size } => {
            if *size > 8 {
                None
            } else {
                Some(*size as u64)
            }
        },
        FieldType::Enum { size, max_value } => {
            if *size > 8 {
                None
            } else if deduced {
                Some(*size as u64)
            } else {
                Some(enum_encoded_size(*size, *max_value) as u64)
            }
        },
        FieldType::Struct(sd) => {
            if deduced {
                None
            } else {
                fields_size(&sd.fields, &sd.deducible, off, 0)
            }
        },
    }
}

/// Executable resolver for one field at offset `off`.
pub fn field_size(f: &FieldDef, ded: &Vec<(u64, DeducibleField)>, off: u64) -> (r: Option<u64>)
    ensures
        (match r {
            Option::Some(s) => spec_field_size(*f, ded@, off as nat) == Option::Some(s as nat),
            Option::None => spec_field_size(*f, ded@, off as nat) is None || (match spec_field_size(
                *f,
                ded@,
                off as nat,
            ) {
                Option::Some(s) => off + s > u64::MAX,
                Option::None => true,
            }),
        }),
    decreases *f, 1nat, 0nat,
{
    match f {
        FieldDef::Pad(PadKind::Bytes(n)) => Some(*n as u64),
        FieldDef::Pad(PadKind::Align(a)) => {
            if *a == 0 {
                None
            } else {
                Some(((*a as u64) - (off % (*a as u64))) % (*a as u64))
            }
        },
        FieldDef::Normal { id, ty } => {
            let deduced = crate::encode::ded_lookup(ded, *id, 0).is_some();
            type_size(ty, deduced, off)
        },
        FieldDef::List { elem, length_expr, .. } => {
            match length_expr {
                Some(Expression::Value(n)) => {
                    match elem {
                        FieldType::Int { size } => {
                            if *size > 8 {
                                None
                            } else {
                                n.checked_mul(*size as u64)
                            }
                        },
                        FieldType::Enum { size, max_value } => {
                            if *size > 8 {
                                None
                            } else {
                                n.checked_mul(enum_encoded_size(*size, *max_value) as u64)
                            }
                        },
                        FieldType::Struct(_) => None,
                    }
                },
                _ => None,
            }
        },
        FieldDef::Switch { kind, cases, .. } => {
            match kind {
                SwitchKind::Case => cases_size(cases, off, 0),
                SwitchKind::BitCase => None,
            }
        },
        FieldDef::ExprConst { .. } => Some(1),
        FieldDef::Fd { .. } => Some(0),
        FieldDef::FdList { .. } => Some(0),
        FieldDef::VirtualLen { .. } => Some(4),
    }
}

/// Executable resolver for the common size of a union's cases.
fn cases_size(cases: &Vec<SwitchCase>, off: u64, k: usize) -> (r: Option<u64>)
    requires
        k <= cases@.len(),
    ensures
        (match r {
            Option::Some(s) => spec_cases_size(cases@, off as nat, k as nat) == Option::Some(
                s as nat,
            ),
            Option::None => spec_cases_size(cases@, off as nat, k as nat) is None || (match spec_cases_size(
                cases@,
                off as nat,
                k as nat,
            ) {
                Option::Some(s) => off + s > u64::MAX,
                Option::None => true,
            }),
        }),
    decreases *cases, 0nat, cases@.len() - k,
{
    if k >= cases.len() {
        None
    } else {
        match fields_size(&cases[k].fields, &cases[k].deducible, off, 0) {
            None => None,
            Some(s) => {
                if k + 1 == cases.len() {
                    Some(s)
                } else {
                    match cases_size(cases, off, k + 1) {
                        Some(s2) => if s == s2 {
                            Some(s)
                        } else {
                            None
                        },
                        None => None,
                    }
                }
            },
        }
    }
}

/// Executable resolver for a field list's static total size.
pub fn fields_size(
    fields: &Vec<FieldDef>,
    ded: &Vec<(u64, DeducibleField)>,
    off: u64,
    i: usize,
) -> (r: Option<u64>)
    requires
        i <= fields@.len(),
    ensures
        (match r {
            Option::Some(s) => spec_fields_size(fields@, ded@, off as nat, i as nat)
                == Option::Some(s as nat),
            Option::None => spec_fields_size(fields@, ded@, off as nat, i as nat) is None || (match spec_fields_size(
                fields@,
                ded@,
                off as nat,
                i as nat,
            ) {
                Option::Some(s) => off + s > u64::MAX,
                Option::None => true,
            }),
        }),
    decreases *fields, 2nat, fields@.len() - i,
{
    if i >= fields.len() {
        Some(0)
    } else {
        match field_size(&fields[i], ded, off) {
            None => None,
            Some(s) => {
                match off.checked_add(s) {
                    None => None,
                    Some(off2) => {
                        match fields_size(fields, ded, off2, i + 1) {
                            None => None,
                            Some(rest) => s.checked_add(rest),
                        }
                    },
                }
            },
        }
    }
}

/// Serialize a message, choosing the emission strategy by whether the
/// total size is static: with a static size the output buffer is the
/// single fixed-size image (its length is proved equal to the resolved
/// size); otherwise each field is appended to a growable buffer.  Both
/// strategies produce the identical byte image.
pub fn serialize(
    fields: &Vec<FieldDef>,
    vals: &Vec<Value>,
    ded: &Vec<(u64, DeducibleField)>,
    params: &Ctx,
) -> (r: Result<(Vec<u8>, Vec<u64>), EncodeError>)
    ensures
        (match spec_encode(fields@, vals@, ded@, params@) {
            Result::Ok((b, fl)) => match r {
                Result::Ok((bb, ff)) => bb@ == b && ff@ == fl && (spec_fields_size(
                    fields@,
                    ded@,
                    0,
                    0,
                ) is Some ==> bb@.len() == spec_fields_size(fields@, ded@, 0, 0)->Some_0),
                Result::Err(_) => false,
            },
            Result::Err(e) => r == Result::<(Vec<u8>, Vec<u64>), EncodeError>::Err(e),
        }),
{
    let stat = fields_size(fields, ded, 0, 0);
    let r = encode_message(fields, vals, ded, params);
    proof {
        if spec_encode(fields@, vals@, ded@, params@) is Ok && spec_fields_size(
            fields@,
            ded@,
            0,
            0,
        ) is Some {
            lemma_static_size(fields@, vals@, ded@, params@);
        }
    }
    r
}

} // verus!
