//! Range checks: a polynomial gate for small ranges, and a lookup into a table of `0..range`.
use crate::assembly::Assembly;
use crate::checker::has_selector;
use crate::circuit::{ConstraintSystem, Expression};
use crate::error::Error;
use crate::field::{fadd, fe_from_u64, fmul, fneg, modulus};
use vstd::prelude::*;

verus! {

/// `x * (1 - x) * (2 - x) * ... * (range - 1 - x)` in the field.
pub open spec fn range_poly(x: nat, range: nat) -> nat
    decreases range,
{
    if range <= 1 {
        x
    } else {
        fmul(range_poly(x, (range - 1) as nat), fadd((range - 1) as nat, fneg(x)))
    }
}

/// The range polynomial vanishes on every value of the range.
pub proof fn lemma_range_poly_vanishes(x: nat, range: nat)
    requires
        x < range,
        x < modulus(),
    ensures
        range_poly(x, range) == 0,
    decreases range,
{
    let p = modulus();
    if range > x + 1 {
        lemma_range_poly_vanishes(x, (range - 1) as nat);
        assert((0 * fadd((range - 1) as nat, fneg(x))) % p == 0);
    } else if x > 0 {
        assert(fneg(x) == p - x) by {
            vstd::arithmetic::div_mod::lemma_mod_sub_multiples_vanish((p - x) as int, p as int);
            vstd::arithmetic::div_mod::lemma_small_mod((p - x) as nat, p);
        }
        assert(fadd(x, fneg(x)) == 0) by {
            vstd::arithmetic::div_mod::lemma_mod_self_0(p as int);
        }
        assert((range_poly(x, x) * 0) % p == 0);
    }
}

/// The range polynomial applied to an expression; a range of zero is refused.
pub fn range_check_expr(value: &Expression, range: usize) -> (r: Result<Expression, Error>)
    ensures
        range == 0 ==> r == Err::<Expression, Error>(Error::InvalidParameter),
        range > 0 ==> r is Ok,
        r matches Ok(e) ==> forall|g: Assembly, row: int| #[trigger]
            g.eval(e, row) == match g.eval(*value, row) {
                Some(x) => Some(range_poly(x, range as nat)),
                None => None,
            },
        r matches Ok(e) ==> forall|cs: ConstraintSystem| #[trigger] cs.expr_wf(e) == cs.expr_wf(*value),
        r matches Ok(e) ==> (has_selector(e) == has_selector(*value)),
{
    if range == 0 {
        return Err(Error::InvalidParameter);
    }
    let mut e = value.duplicate();
    let mut i: usize = 1;
    while i < range
        invariant
            1 <= i <= range,
            forall|g: Assembly, row: int| #[trigger]
                g.eval(e, row) == match g.eval(*value, row) {
                    Some(x) => Some(range_poly(x, i as nat)),
                    None => None,
                },
            forall|cs: ConstraintSystem| #[trigger] cs.expr_wf(e) == cs.expr_wf(*value),
            has_selector(e) == has_selector(*value),
        decreases range - i,
    {
        let f = fe_from_u64(i as u64);
        let c = Expression::constant(f);
        let dup = value.duplicate();
        let d = c.difference(dup);
        let ghost prev = e;
        e = e.product(d);
        proof {
            assert forall|g: Assembly, row: int| #[trigger]
                g.eval(e, row) == match g.eval(*value, row) {
                    Some(x) => Some(range_poly(x, (i + 1) as nat)),
                    None => None,
                } by {
                assert(g.eval(prev, row) == match g.eval(*value, row) {
                    Some(x) => Some(range_poly(x, i as nat)),
                    None => None,
                });
                let neg = Expression::Negated(Box::new(*value));
                assert(f@ == i);
                assert(d == Expression::Sum(Box::new(Expression::Constant(f)), Box::new(neg)));
                assert(g.eval(Expression::Constant(f), row) == Some(i as nat));
                assert(g.eval(neg, row) == match g.eval(*value, row) {
                    Some(x) => Some(fneg(x)),
                    None => None,
                });
                assert(g.eval(d, row) == match g.eval(*value, row) {
                    Some(x) => Some(fadd(i as nat, fneg(x))),
                    None => None,
                });
            }
            let neg = Expression::Negated(Box::new(*value));
            assert(d == Expression::Sum(Box::new(Expression::Constant(f)), Box::new(neg)));
            assert(has_selector(neg) == has_selector(*value));
            assert(!has_selector(Expression::Constant(f)));
            assert(has_selector(d) == has_selector(*value));
            assert(has_selector(e) == (has_selector(prev) || has_selector(d)));
            assert forall|cs: ConstraintSystem| #[trigger] cs.expr_wf(e) == cs.expr_wf(*value) by {
                assert(cs.expr_wf(prev) == cs.expr_wf(*value));
                assert(cs.expr_wf(neg) == cs.expr_wf(*value));
                assert(cs.expr_wf(Expression::Constant(f)));
                assert(cs.expr_wf(d) == cs.expr_wf(*value));
            }
        }
        i = i + 1;
    }
    Ok(e)
}

} // verus!
