//! The laws of the codec, proved once and for all.
//!
//! The central theorem: decoding inverts encoding.  For every schema and
//! every canonical value whose encode succeeds, decoding the produced byte
//! image and descriptor list yields exactly the mirrored value, consuming
//! exactly the produced bytes and descriptors.

use vstd::prelude::*;

use crate::bytes::{
    lemma_le_bytes_len, lemma_le_roundtrip, spec_le_bytes, spec_pow256, spec_zeros,
};
use crate::decode::{
    deep_actives, deep_seq, deep_value, lemma_deep_actives_index, lemma_deep_actives_len,
    lemma_deep_seq_index, lemma_deep_seq_len, spec_case_pick, spec_dec_cases, spec_dec_elems,
    spec_dec_field, spec_dec_fields, spec_dec_typed, spec_decode, GValue,
};
use crate::encode::{
    spec_any_active, spec_bit_disc, spec_bit_sel_ok, spec_case_disc, spec_case_sel_ok,
    spec_child_ctx, spec_ded_lookup, spec_deduced, spec_derived_disc, spec_enc_cases,
    spec_enc_elems, spec_enc_field, spec_enc_fields, spec_enc_typed, spec_encode, spec_field_id,
    spec_find, spec_value_len,
};
use crate::errors::ParseError;
use crate::schema::{
    spec_enum_encoded_size, spec_wire_bytes, DeducibleField, Expression, FieldDef, FieldType,
    PadKind, SwitchCase, SwitchKind, Value,
};

verus! {

/// A value in canonical form: every field that carries no independent wire
/// value (padding, constants, virtual lengths, deduced fields) is supplied
/// as the decoder returns it, recursively through nested structures, list
/// elements and active union cases.  Deduced fields carry their (checked)
/// numeric value rather than being omitted.
pub open spec fn spec_canon_fields(
    all_f: Seq<FieldDef>,
    all_v: Seq<Value>,
    ded: Seq<(u64, DeducibleField)>,
    i: nat,
) -> bool
    decreases all_f, 0nat, all_f.len() - i,
{
    if i >= all_f.len() || i >= all_v.len() {
        true
    } else {
        spec_canon_field(all_f[i as int], all_v[i as int], ded) && spec_canon_fields(
            all_f,
            all_v,
            ded,
            i + 1,
        )
    }
}

/// Canonical form of one field's value.
pub open spec fn spec_canon_field(f: FieldDef, v: Value, ded: Seq<(u64, DeducibleField)>) -> bool
    decreases f, 1nat, 0nat,
{
    match f {
        FieldDef::Pad(_) => v is Absent,
        FieldDef::ExprConst { .. } => v is Absent,
        FieldDef::VirtualLen { .. } => v is Absent,
        FieldDef::Normal { id, ty } => if spec_ded_lookup(ded, id, 0) is Some {
            v is Uint
        } else {
            spec_canon_typed(ty, v)
        },
        FieldDef::List { elem, .. } => match v {
            Value::List(elems) => spec_canon_elems(elem, elems@, 0),
            _ => true,
        },
        FieldDef::Switch { cases, .. } => match v {
            Value::Switch(actives) => spec_canon_cases(cases@, actives@, 0),
            _ => true,
        },
        FieldDef::Fd { .. } => true,
        FieldDef::FdList { .. } => true,
    }
}

/// Canonical form of one leaf value.
pub open spec fn spec_canon_typed(ty: FieldType, v: Value) -> bool
    decreases ty, 0nat, 0nat,
{
    match ty {
        FieldType::Struct(sd) => match v {
            Value::Struct(vs) => spec_canon_fields(sd.fields@, vs@, sd.deducible@, 0),
            _ => true,
        },
        _ => true,
    }
}

/// Canonical form of list elements.
pub open spec fn spec_canon_elems(ty: FieldType, elems: Seq<Value>, j: nat) -> bool
    decreases ty, 1nat, elems.len() - j,
{
    if j >= elems.len() {
        true
    } else {
        spec_canon_typed(ty, elems[j as int]) && spec_canon_elems(ty, elems, j + 1)
    }
}

/// Canonical form of a union's active cases.
pub open spec fn spec_canon_cases(
    cases: Seq<SwitchCase>,
    actives: Seq<Option<Vec<Value>>>,
    k: nat,
) -> bool
    decreases cases, 0nat, cases.len() - k,
{
    if k >= cases.len() || k >= actives.len() {
        true
    } else {
        (match actives[k as int] {
            Option::Some(vs) => spec_canon_fields(
                cases[k as int].fields@,
                vs@,
                cases[k as int].deducible@,
                0,
            ),
            Option::None => true,
        }) && spec_canon_cases(cases, actives, k + 1)
    }
}

/// A concatenation embedded in a byte stream splits into its embedded
/// parts.
proof fn lemma_split<T>(total: Seq<T>, pos: int, a: Seq<T>, c: Seq<T>)
    requires
        0 <= pos,
        pos + a.len() + c.len() <= total.len(),
        total.subrange(pos, pos + a.len() + c.len()) == a + c,
    ensures
        total.subrange(pos, pos + a.len()) == a,
        total.subrange(pos + a.len(), pos + a.len() + c.len()) == c,
{
    let ac = total.subrange(pos, pos + a.len() + c.len());
    assert forall|j: int| 0 <= j < a.len() implies total.subrange(pos, pos + a.len())[j]
        == a[j] by {
        assert(total.subrange(pos, pos + a.len())[j] == total[pos + j]);
        assert(ac[j] == total[pos + j]);
        assert(ac[j] == (a + c)[j]);
    }
    assert(total.subrange(pos, pos + a.len()) =~= a);
    assert forall|j: int| 0 <= j < c.len() implies total.subrange(
        pos + a.len(),
        pos + a.len() + c.len(),
    )[j] == c[j] by {
        assert(total.subrange(pos + a.len(), pos + a.len() + c.len())[j] == total[pos + a.len()
            + j]);
        assert(ac[a.len() + j] == total[pos + a.len() + j]);
        assert(ac[a.len() + j] == (a + c)[a.len() + j]);
    }
    assert(total.subrange(pos + a.len(), pos + a.len() + c.len()) =~= c);
}

/// If no case from `k` on is active, every case from `k` on is inactive.
proof fn lemma_no_active(actives: Seq<Option<Vec<Value>>>, k: nat)
    requires
        !spec_any_active(actives, k),
    ensures
        forall|t: int| k <= t < actives.len() ==> actives[t] is None,
    decreases actives.len() - k,
{
    if k < actives.len() {
        lemma_no_active(actives, k + 1);
    }
}

/// The first active case from `k` on.
pub open spec fn spec_first_active(actives: Seq<Option<Vec<Value>>>, k: nat) -> Option<nat>
    decreases actives.len() - k,
{
    if k >= actives.len() {
        Option::None
    } else if actives[k as int] is Some {
        Option::Some(k)
    } else {
        spec_first_active(actives, k + 1)
    }
}

/// For a by-value union that passed the encoder's checks, the decoder's
/// first-guard-match selection picks exactly the single active case.
proof fn lemma_case_sel(
    cases: Seq<SwitchCase>,
    actives: Seq<Option<Vec<Value>>>,
    dd: u64,
    k: nat,
)
    requires
        actives.len() == cases.len(),
        spec_case_disc(cases, actives, k) == Option::Some(dd),
        spec_case_sel_ok(cases, actives, dd, k),
    ensures
        (match spec_first_active(actives, k) {
            Option::Some(k0) => k <= k0 < cases.len() && spec_case_pick(cases, dd, k)
                == Option::Some(k0) && actives[k0 as int] is Some && cases[k0 as int].guard == dd
                && (forall|t: int| k <= t < actives.len() && t != k0 ==> actives[t] is None),
            Option::None => false,
        }),
    decreases cases.len() - k,
{
    if k >= cases.len() {
        assert(false);
    } else if actives[k as int] is Some {
        lemma_no_active(actives, k + 1);
    } else {
        lemma_case_sel(cases, actives, dd, k + 1);
    }
}

/// Encoding a by-value union whose single active case is `k0` produces
/// exactly that case's field-list encoding.
proof fn lemma_enc_cases_single(
    cases: Seq<SwitchCase>,
    actives: Seq<Option<Vec<Value>>>,
    ctx: Seq<(u64, u64)>,
    d: u64,
    off: nat,
    k: nat,
    k0: nat,
)
    requires
        actives.len() == cases.len(),
        k <= k0 < cases.len(),
        actives[k0 as int] is Some,
        forall|t: int| k <= t < actives.len() && t != k0 ==> actives[t] is None,
    ensures
        spec_enc_cases(cases, actives, ctx, d, off, k) == (match spec_enc_fields(
            cases[k0 as int].fields@,
            actives[k0 as int]->Some_0@,
            cases[k0 as int].deducible@,
            ctx,
            Option::Some(d),
            off,
            0,
        ) {
            Result::Ok((b, fl, _)) => Result::<(Seq<u8>, Seq<u64>), crate::encode::EncodeError>::Ok(
                (b, fl),
            ),
            Result::Err(e) => Result::Err(e),
        }),
    decreases cases.len() - k,
{
    if k < k0 {
        lemma_enc_cases_single(cases, actives, ctx, d, off, k + 1, k0);
    } else {
        // `k == k0`: every later case is inactive and contributes nothing.
        match spec_enc_fields(
            cases[k0 as int].fields@,
            actives[k0 as int]->Some_0@,
            cases[k0 as int].deducible@,
            ctx,
            Option::Some(d),
            off,
            0,
        ) {
            Result::Ok((b, fl, _)) => {
                lemma_enc_cases_empty(cases, actives, ctx, d, off + b.len(), (k0 + 1) as nat);
                assert(b + Seq::<u8>::empty() =~= b);
                assert(fl + Seq::<u64>::empty() =~= fl);
            },
            Result::Err(_) => {},
        }
    }
}

/// Encoding cases that are all inactive produces nothing.
proof fn lemma_enc_cases_empty(
    cases: Seq<SwitchCase>,
    actives: Seq<Option<Vec<Value>>>,
    ctx: Seq<(u64, u64)>,
    d: u64,
    off: nat,
    k: nat,
)
    requires
        actives.len() == cases.len(),
        forall|t: int| k <= t < actives.len() ==> actives[t] is None,
    ensures
        spec_enc_cases(cases, actives, ctx, d, off, k) == Result::<
            (Seq<u8>, Seq<u64>),
            crate::encode::EncodeError,
        >::Ok((Seq::empty(), Seq::empty())),
    decreases cases.len() - k,
{
    if k < cases.len() {
        lemma_enc_cases_empty(cases, actives, ctx, d, off, k + 1);
    }
}

/// Canonical cases stay canonical at each active index.
proof fn lemma_canon_cases_at(
    cases: Seq<SwitchCase>,
    actives: Seq<Option<Vec<Value>>>,
    k: nat,
    t: int,
)
    requires
        spec_canon_cases(cases, actives, k),
        actives.len() == cases.len(),
        k <= t < cases.len(),
        actives[t] is Some,
    ensures
        spec_canon_fields(cases[t].fields@, actives[t]->Some_0@, cases[t].deducible@, 0),
    decreases cases.len() - k,
{
    if k < t {
        lemma_canon_cases_at(cases, actives, k + 1, t);
    }
}

/// Decoding inverts encoding for one leaf value.
proof fn lemma_rt_typed(
    ty: FieldType,
    v: Value,
    dv: Option<u64>,
    ctx: Seq<(u64, u64)>,
    bytes: Seq<u8>,
    fds: Seq<u64>,
    pos: nat,
    fdpos: nat,
    fid: u64,
)
    requires
        spec_enc_typed(ty, v, dv, ctx, pos, fid) is Ok,
        spec_canon_typed(ty, v),
        (match spec_enc_typed(ty, v, dv, ctx, pos, fid) {
            Result::Ok((b, fl)) => pos + b.len() <= bytes.len() && bytes.subrange(
                pos as int,
                pos + b.len() as int,
            ) == b && fdpos + fl.len() <= fds.len() && fds.subrange(
                fdpos as int,
                fdpos + fl.len() as int,
            ) == fl,
            Result::Err(_) => true,
        }),
    ensures
        (match spec_enc_typed(ty, v, dv, ctx, pos, fid) {
            Result::Ok((b, fl)) => spec_dec_typed(ty, dv is Some, bytes, fds, ctx, pos, fdpos)
                == Result::<(GValue, nat, nat), ParseError>::Ok(
                (
                    (match dv {
                        Option::Some(d) => GValue::Uint(d),
                        Option::None => deep_value(v),
                    }),
                    pos + b.len(),
                    fdpos + fl.len(),
                ),
            ),
            Result::Err(_) => true,
        }),
    decreases ty, 2nat, 0nat,
{
    let enc = spec_enc_typed(ty, v, dv, ctx, pos, fid);
    let (b, fl) = enc->Ok_0;
    match dv {
        Option::Some(d) => {
            match ty {
                FieldType::Int { size } => {
                    lemma_le_roundtrip(d as nat, size as nat);
                },
                FieldType::Enum { size, .. } => {
                    lemma_le_roundtrip(d as nat, size as nat);
                },
                FieldType::Struct(_) => {},
            }
        },
        Option::None => {
            match ty {
                FieldType::Int { size } => {
                    let x = v->Uint_0;
                    lemma_le_roundtrip(x as nat, size as nat);
                },
                FieldType::Enum { size, max_value } => {
                    let x = v->Uint_0;
                    lemma_le_roundtrip(x as nat, spec_enum_encoded_size(size, max_value) as nat);
                },
                FieldType::Struct(sd) => {
                    let vs = v->Struct_0;
                    let cctx = spec_child_ctx(sd.params@, ctx, 0)->Some_0;
                    lemma_rt_fields(sd.fields@, vs@, sd.deducible@, cctx, Option::None, bytes, fds, pos, fdpos, 0);
                },
            }
        },
    }
}

/// Decoding inverts encoding for the elements of a list.
proof fn lemma_rt_elems(
    ty: FieldType,
    elems: Seq<Value>,
    ctx: Seq<(u64, u64)>,
    bytes: Seq<u8>,
    fds: Seq<u64>,
    pos: nat,
    fdpos: nat,
    fid: u64,
    j: nat,
)
    requires
        j <= elems.len(),
        spec_enc_elems(ty, elems, ctx, pos, fid, j) is Ok,
        spec_canon_elems(ty, elems, j),
        (match spec_enc_elems(ty, elems, ctx, pos, fid, j) {
            Result::Ok((b, fl)) => pos + b.len() <= bytes.len() && bytes.subrange(
                pos as int,
                pos + b.len() as int,
            ) == b && fdpos + fl.len() <= fds.len() && fds.subrange(
                fdpos as int,
                fdpos + fl.len() as int,
            ) == fl,
            Result::Err(_) => true,
        }),
    ensures
        (match spec_enc_elems(ty, elems, ctx, pos, fid, j) {
            Result::Ok((b, fl)) => spec_dec_elems(
                ty,
                bytes,
                fds,
                ctx,
                pos,
                fdpos,
                (elems.len() - j) as nat,
            ) == Result::<(Seq<GValue>, nat, nat), ParseError>::Ok(
                (deep_seq(elems, j), pos + b.len(), fdpos + fl.len()),
            ),
            Result::Err(_) => true,
        }),
    decreases ty, 3nat, elems.len() - j,
{
    if j >= elems.len() {
    } else {
        let e1 = spec_enc_typed(ty, elems[j as int], Option::None, ctx, pos, fid);
        let (b1, f1) = e1->Ok_0;
        let e2 = spec_enc_elems(ty, elems, ctx, pos + b1.len(), fid, j + 1);
        let (b2, f2) = e2->Ok_0;
        lemma_split(bytes, pos as int, b1, b2);
        lemma_split(fds, fdpos as int, f1, f2);
        lemma_rt_typed(ty, elems[j as int], Option::None, ctx, bytes, fds, pos, fdpos, fid);
        lemma_rt_elems(ty, elems, ctx, bytes, fds, pos + b1.len(), fdpos + f1.len(), fid, j + 1);
    }
}

/// Decoding inverts encoding for the cases of a bit-flag union.
proof fn lemma_rt_cases(
    cases: Seq<SwitchCase>,
    actives: Seq<Option<Vec<Value>>>,
    ctx: Seq<(u64, u64)>,
    d: u64,
    bytes: Seq<u8>,
    fds: Seq<u64>,
    pos: nat,
    fdpos: nat,
    k: nat,
)
    requires
        k <= cases.len(),
        actives.len() == cases.len(),
        spec_bit_sel_ok(cases, actives, d, k),
        spec_canon_cases(cases, actives, k),
        spec_enc_cases(cases, actives, ctx, d, pos, k) is Ok,
        (match spec_enc_cases(cases, actives, ctx, d, pos, k) {
            Result::Ok((b, fl)) => pos + b.len() <= bytes.len() && bytes.subrange(
                pos as int,
                pos + b.len() as int,
            ) == b && fdpos + fl.len() <= fds.len() && fds.subrange(
                fdpos as int,
                fdpos + fl.len() as int,
            ) == fl,
            Result::Err(_) => true,
        }),
    ensures
        (match spec_enc_cases(cases, actives, ctx, d, pos, k) {
            Result::Ok((b, fl)) => spec_dec_cases(cases, bytes, fds, ctx, d, pos, fdpos, k)
                == Result::<(Seq<Option<Seq<GValue>>>, nat, nat), ParseError>::Ok(
                (deep_actives(actives, k), pos + b.len(), fdpos + fl.len()),
            ),
            Result::Err(_) => true,
        }),
    decreases cases, 1nat, cases.len() - k,
{
    if k >= cases.len() {
    } else {
        match actives[k as int] {
            Option::None => {
                lemma_rt_cases(cases, actives, ctx, d, bytes, fds, pos, fdpos, k + 1);
            },
            Option::Some(vs) => {
                let e1 = spec_enc_fields(
                    cases[k as int].fields@,
                    vs@,
                    cases[k as int].deducible@,
                    ctx,
                    Option::Some(d),
                    pos,
                    0,
                );
                let (b1, f1, _) = e1->Ok_0;
                let e2 = spec_enc_cases(cases, actives, ctx, d, pos + b1.len(), k + 1);
                let (b2, f2) = e2->Ok_0;
                lemma_split(bytes, pos as int, b1, b2);
                lemma_split(fds, fdpos as int, f1, f2);
                lemma_canon_cases_at(cases, actives, k, k as int);
                lemma_rt_fields(
                    cases[k as int].fields@,
                    vs@,
                    cases[k as int].deducible@,
                    ctx,
                    Option::Some(d),
                    bytes,
                    fds,
                    pos,
                    fdpos,
                    0,
                );
                lemma_rt_cases(
                    cases,
                    actives,
                    ctx,
                    d,
                    bytes,
                    fds,
                    pos + b1.len(),
                    fdpos + f1.len(),
                    k + 1,
                );
            },
        }
    }
}

/// Decoding inverts encoding for one field.
proof fn lemma_rt_field(
    all_f: Seq<FieldDef>,
    all_v: Seq<Value>,
    ded: Seq<(u64, DeducibleField)>,
    ctx: Seq<(u64, u64)>,
    disc: Option<u64>,
    bytes: Seq<u8>,
    fds: Seq<u64>,
    pos: nat,
    fdpos: nat,
    f: FieldDef,
    v: Value,
)
    requires
        spec_enc_field(all_f, all_v, ded, ctx, disc, pos, f, v) is Ok,
        spec_canon_field(f, v, ded),
        (match spec_enc_field(all_f, all_v, ded, ctx, disc, pos, f, v) {
            Result::Ok((b, fl, _)) => pos + b.len() <= bytes.len() && bytes.subrange(
                pos as int,
                pos + b.len() as int,
            ) == b && fdpos + fl.len() <= fds.len() && fds.subrange(
                fdpos as int,
                fdpos + fl.len() as int,
            ) == fl,
            Result::Err(_) => true,
        }),
    ensures
        (match spec_enc_field(all_f, all_v, ded, ctx, disc, pos, f, v) {
            Result::Ok((b, fl, c)) => spec_dec_field(all_f, ded, bytes, fds, ctx, disc, pos, fdpos, f)
                == Result::<(GValue, nat, nat, Seq<(u64, u64)>), ParseError>::Ok(
                (deep_value(v), pos + b.len(), fdpos + fl.len(), c),
            ),
            Result::Err(_) => true,
        }),
    decreases f, 2nat, 0nat,
{
    let enc = spec_enc_field(all_f, all_v, ded, ctx, disc, pos, f, v);
    let (b, fl, c) = enc->Ok_0;
    match f {
        FieldDef::Pad(_) => {},
        FieldDef::Normal { id, ty } => {
            match spec_ded_lookup(ded, id, 0) {
                Option::Some(rule) => {
                    let dval = spec_deduced(all_f, all_v, rule)->Some_0;
                    lemma_rt_typed(ty, v, Option::Some(dval), ctx, bytes, fds, pos, fdpos, id);
                },
                Option::None => {
                    lemma_rt_typed(ty, v, Option::None, ctx, bytes, fds, pos, fdpos, id);
                },
            }
        },
        FieldDef::List { id, elem, length_expr } => {
            let want = crate::expr::spec_eval(length_expr->Some_0, ctx, disc)->Some_0;
            if elem == (FieldType::Int { size: 1usize }) {
            } else {
                let elems = v->List_0;
                lemma_rt_elems(elem, elems@, ctx, bytes, fds, pos, fdpos, id, 0);
                assert(elems@.len() - 0nat == want as nat);
            }
        },
        FieldDef::Switch { id, expr, kind, cases } => {
            let actives = v->Switch_0;
            let dd = spec_derived_disc(f, v)->Some_0;
            match kind {
                SwitchKind::Case => {
                    lemma_case_sel(cases@, actives@, dd, 0);
                    let k0 = spec_first_active(actives@, 0)->Some_0;
                    let vs = actives@[k0 as int]->Some_0;
                    lemma_enc_cases_single(cases@, actives@, ctx, dd, pos, 0, k0);
                    lemma_canon_cases_at(cases@, actives@, 0, k0 as int);
                    lemma_rt_fields(
                        cases@[k0 as int].fields@,
                        vs@,
                        cases@[k0 as int].deducible@,
                        ctx,
                        Option::Some(dd),
                        bytes,
                        fds,
                        pos,
                        fdpos,
                        0,
                    );
                    // The decoded union marks exactly the picked case active.
                    let gvs = deep_seq(vs@, 0);
                    let dec_acts = Seq::new(
                        cases@.len(),
                        |q: int|
                            if q == k0 {
                                Option::Some(gvs)
                            } else {
                                Option::None
                            },
                    );
                    lemma_deep_actives_len(actives@, 0);
                    assert forall|t: int| 0 <= t < actives@.len() implies deep_actives(
                        actives@,
                        0,
                    )[t] == dec_acts[t] by {
                        lemma_deep_actives_index(actives@, 0, t);
                    }
                    assert(deep_actives(actives@, 0) =~= dec_acts);
                },
                SwitchKind::BitCase => {
                    lemma_rt_cases(cases@, actives@, ctx, dd, bytes, fds, pos, fdpos, 0);
                },
            }
        },
        FieldDef::ExprConst { id, value } => {
            assert(bytes.subrange(pos as int, pos + 1 as int) == seq![value as u8]);
            assert(bytes[pos as int] == seq![value as u8][0]);
        },
        FieldDef::Fd { id } => {
            assert(fds.subrange(fdpos as int, fdpos + 1 as int) == seq![v->Uint_0]);
            assert(fds[fdpos as int] == seq![v->Uint_0][0]);
        },
        FieldDef::FdList { id, length_expr } => {
            let fs = v->Fds_0;
            assert(fds.subrange(fdpos as int, fdpos + fs@.len() as int) =~= fs@);
        },
        FieldDef::VirtualLen { .. } => {
            let n = spec_value_len(spec_find(all_f, all_v, f->VirtualLen_list, 0)->Some_0.1)->Some_0;
            lemma_le_bytes_len(n, 4);
        },
    }
}

/// Decoding inverts encoding for a field list from position `i` on.
proof fn lemma_rt_fields(
    all_f: Seq<FieldDef>,
    all_v: Seq<Value>,
    ded: Seq<(u64, DeducibleField)>,
    ctx: Seq<(u64, u64)>,
    disc: Option<u64>,
    bytes: Seq<u8>,
    fds: Seq<u64>,
    pos: nat,
    fdpos: nat,
    i: nat,
)
    requires
        spec_enc_fields(all_f, all_v, ded, ctx, disc, pos, i) is Ok,
        spec_canon_fields(all_f, all_v, ded, i),
        (match spec_enc_fields(all_f, all_v, ded, ctx, disc, pos, i) {
            Result::Ok((b, fl, _)) => pos + b.len() <= bytes.len() && bytes.subrange(
                pos as int,
                pos + b.len() as int,
            ) == b && fdpos + fl.len() <= fds.len() && fds.subrange(
                fdpos as int,
                fdpos + fl.len() as int,
            ) == fl,
            Result::Err(_) => true,
        }),
    ensures
        (match spec_enc_fields(all_f, all_v, ded, ctx, disc, pos, i) {
            Result::Ok((b, fl, c)) => spec_dec_fields(all_f, ded, bytes, fds, ctx, disc, pos, fdpos, i)
                == Result::<(Seq<GValue>, nat, nat, Seq<(u64, u64)>), ParseError>::Ok(
                (deep_seq(all_v, i), pos + b.len(), fdpos + fl.len(), c),
            ),
            Result::Err(_) => true,
        }),
    decreases all_f, 1nat, all_f.len() - i,
{
    if i >= all_f.len() {
        assert(deep_seq(all_v, i) =~= Seq::<GValue>::empty());
    } else {
        let e1 = spec_enc_field(all_f, all_v, ded, ctx, disc, pos, all_f[i as int], all_v[i as int]);
        let (b1, f1, c1) = e1->Ok_0;
        let e2 = spec_enc_fields(all_f, all_v, ded, c1, disc, pos + b1.len(), i + 1);
        let (b2, f2, c2) = e2->Ok_0;
        lemma_split(bytes, pos as int, b1, b2);
        lemma_split(fds, fdpos as int, f1, f2);
        lemma_rt_field(all_f, all_v, ded, ctx, disc, bytes, fds, pos, fdpos, all_f[i as int], all_v[i as int]);
        lemma_rt_fields(all_f, all_v, ded, c1, disc, bytes, fds, pos + b1.len(), fdpos + f1.len(), i + 1);
    }
}

/// Round trip: for every schema and every canonical value whose encode
/// succeeds, decoding the produced byte image with the produced descriptor
/// list yields exactly the mirrored value — descriptor contents and count
/// included — and consumes the image in full.
pub proof fn lemma_round_trip(
    fields: Seq<FieldDef>,
    vals: Seq<Value>,
    ded: Seq<(u64, DeducibleField)>,
    params: Seq<(u64, u64)>,
)
    requires
        spec_encode(fields, vals, ded, params) is Ok,
        spec_canon_fields(fields, vals, ded, 0),
    ensures
        (match spec_encode(fields, vals, ded, params) {
            Result::Ok((b, fl)) => spec_decode(fields, ded, b, fl, params) == Result::<
                (Seq<GValue>, nat, nat),
                ParseError,
            >::Ok((deep_seq(vals, 0), b.len(), fl.len())),
            Result::Err(_) => true,
        }),
{
    let enc = spec_enc_fields(fields, vals, ded, params, Option::None, 0, 0);
    let (b, fl, _) = enc->Ok_0;
    assert(b.subrange(0, b.len() as int) =~= b);
    assert(fl.subrange(0, fl.len() as int) =~= fl);
    lemma_rt_fields(fields, vals, ded, params, Option::None, b, fl, 0, 0, 0);
}

/// A search by identifier takes the same branches in two value vectors
/// that differ at one position: either both find nothing, or both find the
/// same field, with equal values unless the found position is `p`.
proof fn lemma_find_update(
    fields: Seq<FieldDef>,
    vals: Seq<Value>,
    vals2: Seq<Value>,
    p: int,
    x: u64,
    i: nat,
)
    requires
        vals2.len() == vals.len(),
        0 <= p < vals.len(),
        forall|t: int| 0 <= t < vals.len() && t != p ==> vals2[t] == vals[t],
    ensures
        (match (spec_find(fields, vals, x, i), spec_find(fields, vals2, x, i)) {
            (Option::None, Option::None) => true,
            (Option::Some((f1, v1)), Option::Some((f2, v2))) => f1 == f2 && (v1 == v2 || (f1
                == fields[p] && v1 == vals[p] && v2 == vals2[p])),
            _ => false,
        }),
    decreases fields.len() - i,
{
    if i < fields.len() && i < vals.len() {
        lemma_find_update(fields, vals, vals2, p, x, i + 1);
    }
}

/// A deduction is unchanged by a change at a position holding a field that
/// is neither list-shaped nor a union in either vector: every rule that
/// reads such a field fails identically in both runs.
proof fn lemma_deduced_update(
    fields: Seq<FieldDef>,
    vals: Seq<Value>,
    vals2: Seq<Value>,
    p: int,
    rule: DeducibleField,
)
    requires
        vals2.len() == vals.len(),
        0 <= p < vals.len(),
        forall|t: int| 0 <= t < vals.len() && t != p ==> vals2[t] == vals[t],
        fields[p] is Normal,
        spec_value_len(vals[p]) is None,
        spec_value_len(vals2[p]) is None,
    ensures
        spec_deduced(fields, vals, rule) == spec_deduced(fields, vals2, rule),
{
    match rule {
        DeducibleField::LengthOf { list, .. } => {
            lemma_find_update(fields, vals, vals2, p, list, 0);
        },
        DeducibleField::CaseSwitchExpr { switch } => {
            lemma_find_update(fields, vals, vals2, p, switch, 0);
        },
        DeducibleField::BitCaseSwitchExpr { switch } => {
            lemma_find_update(fields, vals, vals2, p, switch, 0);
        },
    }
}

/// Encoding one field sees a change at position `p` only through the
/// searches that deduction rules and virtual-length fields make, and those
/// cannot distinguish the two runs when the changed field is a plain
/// non-sequence value in both.
proof fn lemma_enc_field_update(
    all_f: Seq<FieldDef>,
    all_v: Seq<Value>,
    all_v2: Seq<Value>,
    ded: Seq<(u64, DeducibleField)>,
    ctx: Seq<(u64, u64)>,
    disc: Option<u64>,
    off: nat,
    p: int,
    fi: int,
    v: Value,
)
    requires
        all_v2.len() == all_v.len(),
        0 <= p < all_v.len(),
        0 <= fi < all_f.len(),
        forall|t: int| 0 <= t < all_v.len() && t != p ==> all_v2[t] == all_v[t],
        all_f[p] is Normal,
        spec_value_len(all_v[p]) is None,
        spec_value_len(all_v2[p]) is None,
    ensures
        spec_enc_field(all_f, all_v, ded, ctx, disc, off, all_f[fi], v) == spec_enc_field(
            all_f,
            all_v2,
            ded,
            ctx,
            disc,
            off,
            all_f[fi],
            v,
        ),
{
    match all_f[fi] {
        FieldDef::Normal { id, ty } => {
            match spec_ded_lookup(ded, id, 0) {
                Option::Some(rule) => {
                    lemma_deduced_update(all_f, all_v, all_v2, p, rule);
                },
                Option::None => {},
            }
        },
        FieldDef::VirtualLen { id, list } => {
            lemma_find_update(all_f, all_v, all_v2, p, list, 0);
        },
        _ => {},
    }
}

/// Helper for the idempotent-deduction law: encoding from position `i` on
/// is unchanged when the deduced field's correct value is replaced by an
/// omitted one.
proof fn lemma_dedup_fields(
    all_f: Seq<FieldDef>,
    all_v: Seq<Value>,
    all_v2: Seq<Value>,
    ded: Seq<(u64, DeducibleField)>,
    ctx: Seq<(u64, u64)>,
    disc: Option<u64>,
    off: nat,
    p: int,
    i: nat,
)
    requires
        all_v2.len() == all_v.len(),
        all_v.len() == all_f.len(),
        0 <= p < all_v.len(),
        forall|t: int| 0 <= t < all_v.len() && t != p ==> all_v2[t] == all_v[t],
        all_f[p] is Normal,
        spec_ded_lookup(ded, spec_field_id(all_f[p])->Some_0, 0) is Some,
        (match spec_deduced(all_f, all_v, spec_ded_lookup(ded, spec_field_id(all_f[p])->Some_0, 0)->Some_0) {
            Option::Some(dv) => all_v[p] == Value::Uint(dv) && all_v2[p] is Absent,
            Option::None => all_v2[p] is Absent && all_v[p] is Uint,
        }),
    ensures
        spec_enc_fields(all_f, all_v, ded, ctx, disc, off, i) == spec_enc_fields(
            all_f,
            all_v2,
            ded,
            ctx,
            disc,
            off,
            i,
        ),
    decreases all_f.len() - i,
{
    if i < all_f.len() {
        if i == p {
            let id = spec_field_id(all_f[p])->Some_0;
            let rule = spec_ded_lookup(ded, id, 0)->Some_0;
            lemma_deduced_update(all_f, all_v, all_v2, p, rule);
            assert(spec_enc_field(all_f, all_v, ded, ctx, disc, off, all_f[i as int], all_v[i as int])
                == spec_enc_field(all_f, all_v2, ded, ctx, disc, off, all_f[i as int], all_v2[i as int]));
        } else {
            lemma_enc_field_update(
                all_f,
                all_v,
                all_v2,
                ded,
                ctx,
                disc,
                off,
                p,
                i as int,
                all_v[i as int],
            );
        }
        let e1 = spec_enc_field(all_f, all_v, ded, ctx, disc, off, all_f[i as int], all_v[i as int]);
        match e1 {
            Result::Ok((b1, _, c1)) => {
                lemma_dedup_fields(all_f, all_v, all_v2, ded, c1, disc, off + b1.len(), p, i + 1);
            },
            Result::Err(_) => {
                // Both sides fail with the same error; nothing further to
                // compare.
                if i == p {
                } else {
                }
            },
        }
    }
}

/// Idempotent length deduction: a message whose deducible field carries
/// the correct derived value encodes byte-for-byte identically to the same
/// message with that field omitted, descriptors included.
pub proof fn lemma_deduction_idempotent(
    fields: Seq<FieldDef>,
    vals: Seq<Value>,
    ded: Seq<(u64, DeducibleField)>,
    params: Seq<(u64, u64)>,
    p: int,
)
    requires
        vals.len() == fields.len(),
        0 <= p < fields.len(),
        fields[p] is Normal,
        spec_ded_lookup(ded, spec_field_id(fields[p])->Some_0, 0) is Some,
        (match spec_deduced(fields, vals, spec_ded_lookup(ded, spec_field_id(fields[p])->Some_0, 0)->Some_0) {
            Option::Some(dv) => vals[p] == Value::Uint(dv),
            Option::None => vals[p] is Uint,
        }),
    ensures
        spec_encode(fields, vals, ded, params) == spec_encode(
            fields,
            vals.update(p, Value::Absent),
            ded,
            params,
        ),
{
    lemma_dedup_fields(fields, vals, vals.update(p, Value::Absent), ded, params, Option::None, 0, p, 0);
}

/// Helper for the consistency guard: an encode that must pass an
/// inconsistent deduced field fails.
proof fn lemma_guard_fields(
    all_f: Seq<FieldDef>,
    all_v: Seq<Value>,
    ded: Seq<(u64, DeducibleField)>,
    ctx: Seq<(u64, u64)>,
    disc: Option<u64>,
    off: nat,
    p: int,
    i: nat,
)
    requires
        all_v.len() == all_f.len(),
        i <= p < all_f.len(),
        all_f[p] is Normal,
        spec_ded_lookup(ded, spec_field_id(all_f[p])->Some_0, 0) is Some,
        all_v[p] is Uint,
        (match spec_deduced(all_f, all_v, spec_ded_lookup(ded, spec_field_id(all_f[p])->Some_0, 0)->Some_0) {
            Option::Some(dv) => all_v[p]->Uint_0 != dv,
            Option::None => true,
        }),
    ensures
        spec_enc_fields(all_f, all_v, ded, ctx, disc, off, i) is Err,
    decreases all_f.len() - i,
{
    if i == p {
    } else {
        match spec_enc_field(all_f, all_v, ded, ctx, disc, off, all_f[i as int], all_v[i as int]) {
            Result::Ok((b1, _, c1)) => {
                lemma_guard_fields(all_f, all_v, ded, c1, disc, off + b1.len(), p, i + 1);
            },
            Result::Err(_) => {},
        }
    }
}

/// Consistency guard: supplying a deducible field with a value that
/// disagrees with the derived quantity makes the whole encode fail, so no
/// output is produced.
pub proof fn lemma_consistency_guard(
    fields: Seq<FieldDef>,
    vals: Seq<Value>,
    ded: Seq<(u64, DeducibleField)>,
    params: Seq<(u64, u64)>,
    p: int,
)
    requires
        vals.len() == fields.len(),
        0 <= p < fields.len(),
        fields[p] is Normal,
        spec_ded_lookup(ded, spec_field_id(fields[p])->Some_0, 0) is Some,
        vals[p] is Uint,
        (match spec_deduced(fields, vals, spec_ded_lookup(ded, spec_field_id(fields[p])->Some_0, 0)->Some_0) {
            Option::Some(dv) => vals[p]->Uint_0 != dv,
            Option::None => true,
        }),
    ensures
        spec_encode(fields, vals, ded, params) is Err,
{
    lemma_guard_fields(fields, vals, ded, params, Option::None, 0, p, 0);
}

/// Helper for the sharp consistency guard: when a message encodes with the
/// correct deduced value, replacing it by a wrong one fails from position
/// `i` on with exactly the consistency error naming the field.
proof fn lemma_sharp_guard_fields(
    all_f: Seq<FieldDef>,
    good: Seq<Value>,
    bad: Seq<Value>,
    ded: Seq<(u64, DeducibleField)>,
    ctx: Seq<(u64, u64)>,
    disc: Option<u64>,
    off: nat,
    p: int,
    i: nat,
)
    requires
        good.len() == all_f.len(),
        bad.len() == good.len(),
        i <= p < all_f.len(),
        forall|t: int| 0 <= t < good.len() && t != p ==> bad[t] == good[t],
        all_f[p] is Normal,
        good[p] is Uint || good[p] is Absent,
        spec_ded_lookup(ded, spec_field_id(all_f[p])->Some_0, 0) is Some,
        spec_deduced(all_f, good, spec_ded_lookup(ded, spec_field_id(all_f[p])->Some_0, 0)->Some_0)
            is Some,
        bad[p] is Uint,
        bad[p]->Uint_0 != spec_deduced(
            all_f,
            good,
            spec_ded_lookup(ded, spec_field_id(all_f[p])->Some_0, 0)->Some_0,
        )->Some_0,
        spec_enc_fields(all_f, good, ded, ctx, disc, off, i) is Ok,
    ensures
        spec_enc_fields(all_f, bad, ded, ctx, disc, off, i) == Result::<
            (Seq<u8>, Seq<u64>, Seq<(u64, u64)>),
            crate::encode::EncodeError,
        >::Err(
            crate::encode::EncodeError::Inconsistent { field: spec_field_id(all_f[p])->Some_0 },
        ),
    decreases all_f.len() - i,
{
    let idp = spec_field_id(all_f[p])->Some_0;
    let rule = spec_ded_lookup(ded, idp, 0)->Some_0;
    lemma_deduced_update(all_f, good, bad, p, rule);
    if i == p {
        assert(spec_enc_field(all_f, bad, ded, ctx, disc, off, all_f[p], bad[p])
            == Result::<(Seq<u8>, Seq<u64>, Seq<(u64, u64)>), crate::encode::EncodeError>::Err(
            crate::encode::EncodeError::Inconsistent { field: idp },
        ));
    } else {
        lemma_enc_field_update(all_f, good, bad, ded, ctx, disc, off, p, i as int, good[i as int]);
        let e1 = spec_enc_field(all_f, good, ded, ctx, disc, off, all_f[i as int], good[i as int]);
        let (b1, _, c1) = e1->Ok_0;
        lemma_sharp_guard_fields(all_f, good, bad, ded, c1, disc, off + b1.len(), p, i + 1);
    }
}

/// Consistency guard, sharp form: in a message that otherwise encodes,
/// supplying its deducible field with a wrong value fails with exactly the
/// consistency error naming that field.
pub proof fn lemma_consistency_guard_exact(
    fields: Seq<FieldDef>,
    good: Seq<Value>,
    bad: Seq<Value>,
    ded: Seq<(u64, DeducibleField)>,
    params: Seq<(u64, u64)>,
    p: int,
)
    requires
        good.len() == fields.len(),
        bad.len() == good.len(),
        0 <= p < fields.len(),
        forall|t: int| 0 <= t < good.len() && t != p ==> bad[t] == good[t],
        fields[p] is Normal,
        good[p] is Uint || good[p] is Absent,
        spec_ded_lookup(ded, spec_field_id(fields[p])->Some_0, 0) is Some,
        spec_deduced(fields, good, spec_ded_lookup(ded, spec_field_id(fields[p])->Some_0, 0)->Some_0)
            is Some,
        bad[p] is Uint,
        bad[p]->Uint_0 != spec_deduced(
            fields,
            good,
            spec_ded_lookup(ded, spec_field_id(fields[p])->Some_0, 0)->Some_0,
        )->Some_0,
        spec_encode(fields, good, ded, params) is Ok,
    ensures
        spec_encode(fields, bad, ded, params) == Result::<
            (Seq<u8>, Seq<u64>),
            crate::encode::EncodeError,
        >::Err(
            crate::encode::EncodeError::Inconsistent { field: spec_field_id(fields[p])->Some_0 },
        ),
{
    lemma_sharp_guard_fields(fields, good, bad, ded, params, Option::None, 0, p, 0);
}

/// Switch case isolation: a by-value union encodes exactly the field list
/// of its single active case; no other case contributes a byte.
pub proof fn lemma_switch_case_isolation(
    all_f: Seq<FieldDef>,
    all_v: Seq<Value>,
    ded: Seq<(u64, DeducibleField)>,
    ctx: Seq<(u64, u64)>,
    disc: Option<u64>,
    off: nat,
    f: FieldDef,
    v: Value,
)
    requires
        f is Switch,
        f->Switch_kind is Case,
        spec_enc_field(all_f, all_v, ded, ctx, disc, off, f, v) is Ok,
    ensures
        (match spec_first_active(v->Switch_0@, 0) {
            Option::Some(k0) => {
                &&& k0 < f->Switch_cases@.len()
                &&& (forall|t: int|
                    0 <= t < v->Switch_0@.len() && t != k0 ==> v->Switch_0@[t] is None)
                &&& (match spec_enc_fields(
                    f->Switch_cases@[k0 as int].fields@,
                    v->Switch_0@[k0 as int]->Some_0@,
                    f->Switch_cases@[k0 as int].deducible@,
                    ctx,
                    Option::Some(spec_derived_disc(f, v)->Some_0),
                    off,
                    0,
                ) {
                    Result::Ok((b, fl, _)) => spec_enc_field(all_f, all_v, ded, ctx, disc, off, f, v)
                        == Result::<(Seq<u8>, Seq<u64>, Seq<(u64, u64)>), crate::encode::EncodeError>::Ok(
                        (b, fl, ctx),
                    ),
                    Result::Err(_) => false,
                })
            },
            Option::None => false,
        }),
{
    let actives = v->Switch_0;
    let dd = spec_derived_disc(f, v)->Some_0;
    lemma_case_sel(f->Switch_cases@, actives@, dd, 0);
    let k0 = spec_first_active(actives@, 0)->Some_0;
    lemma_enc_cases_single(f->Switch_cases@, actives@, ctx, dd, off, 0, k0);
}

/// Enum widening: an enumerated field whose legal values need more bytes
/// than its declared size encodes, when not deduced, at the widened width;
/// a deduced occurrence encodes its raw value at the declared size.
pub proof fn lemma_enum_widening(
    size: usize,
    max_value: u64,
    x: u64,
    dv: Option<u64>,
    ctx: Seq<(u64, u64)>,
    off: nat,
    fid: u64,
)
    requires
        spec_enc_typed(
            FieldType::Enum { size, max_value },
            Value::Uint(x),
            dv,
            ctx,
            off,
            fid,
        ) is Ok,
    ensures
        (match spec_enc_typed(FieldType::Enum { size, max_value }, Value::Uint(x), dv, ctx, off, fid) {
            Result::Ok((b, _)) => match dv {
                Option::Some(d) => b == spec_le_bytes(d as nat, size as nat) && b.len() == size,
                Option::None => b == spec_le_bytes(
                    x as nat,
                    spec_enum_encoded_size(size, max_value) as nat,
                ) && b.len() == spec_enum_encoded_size(size, max_value),
            },
            Result::Err(_) => true,
        }),
{
    match dv {
        Option::Some(d) => {
            lemma_le_bytes_len(d as nat, size as nat);
        },
        Option::None => {
            lemma_le_bytes_len(x as nat, spec_enum_encoded_size(size, max_value) as nat);
        },
    }
}

/// Virtual length accuracy: a virtual-length field emits exactly four
/// bytes that read back as the target list's element count, whatever that
/// list's own length field says elsewhere.
pub proof fn lemma_virtual_len(
    all_f: Seq<FieldDef>,
    all_v: Seq<Value>,
    ded: Seq<(u64, DeducibleField)>,
    ctx: Seq<(u64, u64)>,
    disc: Option<u64>,
    off: nat,
    f: FieldDef,
    v: Value,
)
    requires
        f is VirtualLen,
        spec_enc_field(all_f, all_v, ded, ctx, disc, off, f, v) is Ok,
    ensures
        (match spec_enc_field(all_f, all_v, ded, ctx, disc, off, f, v) {
            Result::Ok((b, fl, c)) => {
                &&& b.len() == 4
                &&& fl.len() == 0
                &&& crate::bytes::spec_le_val(b) == spec_value_len(
                    spec_find(all_f, all_v, f->VirtualLen_list, 0)->Some_0.1,
                )->Some_0
            },
            Result::Err(_) => true,
        }),
{
    let n = spec_value_len(spec_find(all_f, all_v, f->VirtualLen_list, 0)->Some_0.1)->Some_0;
    assert(spec_pow256(4) == 0x1_0000_0000) by {
        reveal_with_fuel(spec_pow256, 5);
    }
    lemma_le_roundtrip(n, 4);
}

/// Alignment correctness: in a message of a variable byte list, a 4-byte
/// alignment pad and a two-byte integer, the pad contributes exactly
/// `(4 - len % 4) % 4` zero bytes for the list's runtime length `len`, and
/// the integer's position shifts by exactly the list bytes plus the pad.
pub proof fn lemma_alignment(data: Vec<u8>, n: u64, x: u64)
    requires
        data@.len() == n,
        x < 0x10000,
    ensures
        ({
            let fields = seq![
                FieldDef::List {
                    id: 1u64,
                    elem: FieldType::Int { size: 1usize },
                    length_expr: Option::Some(Expression::FieldRef(0u64)),
                },
                FieldDef::Pad(PadKind::Align(4usize)),
                FieldDef::Normal { id: 2u64, ty: FieldType::Int { size: 2usize } },
            ];
            let vals = seq![Value::Bytes(data), Value::Absent, Value::Uint(x)];
            let ded = Seq::<(u64, DeducibleField)>::empty();
            let params = seq![(0u64, n)];
            let pad = ((4 - (n % 4) as int) % 4) as nat;
            match spec_encode(fields, vals, ded, params) {
                Result::Ok((b, fl)) => {
                    &&& b == data@ + spec_zeros(pad) + spec_le_bytes(x as nat, 2)
                    &&& b.len() == n + pad + 2
                    &&& b.subrange(n + pad as int, n + pad + 2) == spec_le_bytes(x as nat, 2)
                    &&& fl.len() == 0
                },
                Result::Err(_) => false,
            }
        }),
{
    let fields = seq![
        FieldDef::List {
            id: 1u64,
            elem: FieldType::Int { size: 1usize },
            length_expr: Option::Some(Expression::FieldRef(0u64)),
        },
        FieldDef::Pad(PadKind::Align(4usize)),
        FieldDef::Normal { id: 2u64, ty: FieldType::Int { size: 2usize } },
    ];
    let vals = seq![Value::Bytes(data), Value::Absent, Value::Uint(x)];
    let ded = Seq::<(u64, DeducibleField)>::empty();
    let params = seq![(0u64, n)];
    let pad = ((4 - (n % 4) as int) % 4) as nat;
    reveal_with_fuel(spec_enc_fields, 5);
    assert(crate::expr::spec_lookup(params.drop_last(), 0u64) is None) by {
        assert(params.drop_last().len() == 0);
    }
    assert(crate::expr::spec_eval(Expression::FieldRef(0u64), params, Option::None)
        == Option::Some(n));
    let e0 = spec_enc_field(fields, vals, ded, params, Option::None, 0, fields[0], vals[0]);
    assert(e0 == Result::<(Seq<u8>, Seq<u64>, Seq<(u64, u64)>), crate::encode::EncodeError>::Ok(
        (data@, Seq::empty(), params),
    ));
    let e1 = spec_enc_field(
        fields,
        vals,
        ded,
        params,
        Option::None,
        n as nat,
        fields[1],
        vals[1],
    );
    assert(e1 == Result::<(Seq<u8>, Seq<u64>, Seq<(u64, u64)>), crate::encode::EncodeError>::Ok(
        (spec_zeros(pad), Seq::empty(), params),
    ));
    let e2 = spec_enc_field(
        fields,
        vals,
        ded,
        params,
        Option::None,
        (n + pad) as nat,
        fields[2],
        vals[2],
    );
    assert((x as nat) < spec_pow256(2)) by {
        reveal_with_fuel(spec_pow256, 3);
    }
    assert(e2 is Ok && e2->Ok_0.0 == spec_le_bytes(x as nat, 2));
    lemma_le_bytes_len(x as nat, 2);
    assert(spec_zeros(pad).len() == pad);
    let b = spec_encode(fields, vals, ded, params)->Ok_0.0;
    assert(b =~= data@ + spec_zeros(pad) + spec_le_bytes(x as nat, 2));
    assert(b.subrange(n + pad as int, n + pad + 2) =~= spec_le_bytes(x as nat, 2));
    assert(spec_encode(fields, vals, ded, params)->Ok_0.1 =~= Seq::<u64>::empty());
}

/// Fd exclusion: a file-descriptor field contributes no bytes to the wire
/// image; its descriptors travel only on the side channel.
pub proof fn lemma_fd_exclusion(
    all_f: Seq<FieldDef>,
    all_v: Seq<Value>,
    ded: Seq<(u64, DeducibleField)>,
    ctx: Seq<(u64, u64)>,
    disc: Option<u64>,
    off: nat,
    f: FieldDef,
    v: Value,
)
    requires
        f is Fd || f is FdList,
        spec_enc_field(all_f, all_v, ded, ctx, disc, off, f, v) is Ok,
    ensures
        (match spec_enc_field(all_f, all_v, ded, ctx, disc, off, f, v) {
            Result::Ok((b, fl, _)) => b.len() == 0 && (f is Fd ==> fl == seq![v->Uint_0]) && (
            f is FdList ==> fl == v->Fds_0@),
            Result::Err(_) => true,
        }),
{
}

} // verus!
