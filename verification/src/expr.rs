//! Expression evaluation over an explicit lookup context.
//!
//! An expression is evaluated against the numeric values of the fields
//! already handled, passed in as an explicit context, plus the discriminant
//! of the tagged union currently being processed, if any.  Evaluation fails
//! (yields `None`) on a reference to an unknown field, on arithmetic
//! overflow, on division by zero, and on a union-discriminant reference
//! outside a union.

use vstd::prelude::*;

use crate::schema::Expression;

verus! {

/// A lookup context: field identifier / value pairs, most recent last.
pub type Ctx = Vec<(u64, u64)>;

/// The value bound to `id`, scanning the most recent bindings first.
pub open spec fn spec_lookup(ctx: Seq<(u64, u64)>, id: u64) -> Option<u64>
    decreases ctx.len(),
{
    if ctx.len() == 0 {
        None
    } else if ctx.last().0 == id {
        Some(ctx.last().1)
    } else {
        spec_lookup(ctx.drop_last(), id)
    }
}

/// Executable twin of [`spec_lookup`].
pub fn lookup(ctx: &Ctx, id: u64) -> (r: Option<u64>)
    ensures
        r == spec_lookup(ctx@, id),
    decreases ctx.len(),
{
    proof {
        assert(ctx@.subrange(0, ctx@.len() as int) =~= ctx@);
    }
    lookup_from(ctx, id, ctx.len())
}

fn lookup_from(ctx: &Ctx, id: u64, n: usize) -> (r: Option<u64>)
    requires
        n <= ctx.len(),
    ensures
        r == spec_lookup(ctx@.subrange(0, n as int), id),
    decreases n,
{
    if n == 0 {
        proof {
            assert(ctx@.subrange(0, 0int).len() == 0);
        }
        None
    } else {
        let pair = ctx[n - 1];
        proof {
            let pre = ctx@.subrange(0, n as int);
            assert(pre.last() == ctx@[n - 1]);
            assert(pre.drop_last() =~= ctx@.subrange(0, n - 1));
        }
        if pair.0 == id {
            Some(pair.1)
        } else {
            lookup_from(ctx, id, n - 1)
        }
    }
}

/// The number of set bits of `n`.
pub open spec fn spec_popcount(n: nat) -> nat
    decreases n,
{
    if n == 0 {
        0
    } else {
        n % 2 + spec_popcount(n / 2)
    }
}

/// Executable twin of [`spec_popcount`].
pub fn popcount(x: u64) -> (r: u64)
    ensures
        r == spec_popcount(x as nat),
    decreases x,
{
    proof {
        lemma_popcount_bound(x as nat);
    }
    if x == 0 {
        0
    } else {
        (x % 2) + popcount(x / 2)
    }
}

/// The popcount of a quantity never exceeds the quantity itself.
proof fn lemma_popcount_bound(n: nat)
    ensures
        spec_popcount(n) <= n,
    decreases n,
{
    if n > 0 {
        lemma_popcount_bound(n / 2);
    }
}

/// The value of `e` under context `ctx` with current union discriminant
/// `disc`, or `None` when the expression cannot be evaluated.
pub open spec fn spec_eval(e: Expression, ctx: Seq<(u64, u64)>, disc: Option<u64>) -> Option<u64>
    decreases e,
{
    match e {
        Expression::FieldRef(id) => spec_lookup(ctx, id),
        Expression::SwitchExpr => disc,
        Expression::Value(v) => Some(v),
        Expression::Add(a, b) => match (spec_eval(*a, ctx, disc), spec_eval(*b, ctx, disc)) {
            (Some(x), Some(y)) => if x + y <= u64::MAX {
                Some((x + y) as u64)
            } else {
                None
            },
            _ => None,
        },
        Expression::Sub(a, b) => match (spec_eval(*a, ctx, disc), spec_eval(*b, ctx, disc)) {
            (Some(x), Some(y)) => if x >= y {
                Some((x - y) as u64)
            } else {
                None
            },
            _ => None,
        },
        Expression::Mul(a, b) => match (spec_eval(*a, ctx, disc), spec_eval(*b, ctx, disc)) {
            (Some(x), Some(y)) => if x * y <= u64::MAX {
                Some((x * y) as u64)
            } else {
                None
            },
            _ => None,
        },
        Expression::Div(a, b) => match (spec_eval(*a, ctx, disc), spec_eval(*b, ctx, disc)) {
            (Some(x), Some(y)) => if y != 0 {
                Some(x / y)
            } else {
                None
            },
            _ => None,
        },
        Expression::BitAnd(a, b) => match (spec_eval(*a, ctx, disc), spec_eval(*b, ctx, disc)) {
            (Some(x), Some(y)) => Some(x & y),
            _ => None,
        },
        Expression::BitOr(a, b) => match (spec_eval(*a, ctx, disc), spec_eval(*b, ctx, disc)) {
            (Some(x), Some(y)) => Some(x | y),
            _ => None,
        },
        Expression::BitNot(a) => match spec_eval(*a, ctx, disc) {
            Some(x) => Some(!x),
            _ => None,
        },
        Expression::Eq(a, b) => match (spec_eval(*a, ctx, disc), spec_eval(*b, ctx, disc)) {
            (Some(x), Some(y)) => Some(if x == y { 1u64 } else { 0u64 }),
            _ => None,
        },
        Expression::LogAnd(a, b) => match (spec_eval(*a, ctx, disc), spec_eval(*b, ctx, disc)) {
            (Some(x), Some(y)) => Some(if x != 0 && y != 0 { 1u64 } else { 0u64 }),
            _ => None,
        },
        Expression::LogOr(a, b) => match (spec_eval(*a, ctx, disc), spec_eval(*b, ctx, disc)) {
            (Some(x), Some(y)) => Some(if x != 0 || y != 0 { 1u64 } else { 0u64 }),
            _ => None,
        },
        Expression::Popcount(a) => match spec_eval(*a, ctx, disc) {
            Some(x) => Some(spec_popcount(x as nat) as u64),
            _ => None,
        },
    }
}

/// Executable twin of [`spec_eval`].
pub fn eval(e: &Expression, ctx: &Ctx, disc: Option<u64>) -> (r: Option<u64>)
    ensures
        r == spec_eval(*e, ctx@, disc),
    decreases *e,
{
    match e {
        Expression::FieldRef(id) => lookup(ctx, *id),
        Expression::SwitchExpr => disc,
        Expression::Value(v) => Some(*v),
        Expression::Add(a, b) => match (eval(a, ctx, disc), eval(b, ctx, disc)) {
            (Some(x), Some(y)) => x.checked_add(y),
            _ => None,
        },
        Expression::Sub(a, b) => match (eval(a, ctx, disc), eval(b, ctx, disc)) {
            (Some(x), Some(y)) => x.checked_sub(y),
            _ => None,
        },
        Expression::Mul(a, b) => match (eval(a, ctx, disc), eval(b, ctx, disc)) {
            (Some(x), Some(y)) => x.checked_mul(y),
            _ => None,
        },
        Expression::Div(a, b) => match (eval(a, ctx, disc), eval(b, ctx, disc)) {
            (Some(x), Some(y)) => if y != 0 {
                Some(x / y)
            } else {
                None
            },
            _ => None,
        },
        Expression::BitAnd(a, b) => match (eval(a, ctx, disc), eval(b, ctx, disc)) {
            (Some(x), Some(y)) => Some(x & y),
            _ => None,
        },
        Expression::BitOr(a, b) => match (eval(a, ctx, disc), eval(b, ctx, disc)) {
            (Some(x), Some(y)) => Some(x | y),
            _ => None,
        },
        Expression::BitNot(a) => match eval(a, ctx, disc) {
            Some(x) => Some(!x),
            _ => None,
        },
        Expression::Eq(a, b) => match (eval(a, ctx, disc), eval(b, ctx, disc)) {
            (Some(x), Some(y)) => Some(if x == y { 1 } else { 0 }),
            _ => None,
        },
        Expression::LogAnd(a, b) => match (eval(a, ctx, disc), eval(b, ctx, disc)) {
            (Some(x), Some(y)) => Some(if x != 0 && y != 0 { 1 } else { 0 }),
            _ => None,
        },
        Expression::LogOr(a, b) => match (eval(a, ctx, disc), eval(b, ctx, disc)) {
            (Some(x), Some(y)) => Some(if x != 0 || y != 0 { 1 } else { 0 }),
            _ => None,
        },
        Expression::Popcount(a) => match eval(a, ctx, disc) {
            Some(x) => Some(popcount(x)),
            _ => None,
        },
    }
}

} // verus!
