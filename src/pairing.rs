//! Pairing variables: a Miller loop over prepared operands, then one final
//! exponentiation.
//!
//! The two source groups and the target group share one prime order `r`;
//! with points modelled by discrete logarithms, the pairing of `a·G1` and
//! `b·G2` is `(a·b)·GT`.
use vstd::prelude::*;
use crate::boolean::{bool_values, Boolean};
use vstd::arithmetic::div_mod::{lemma_add_mod_noop, lemma_small_mod};
use crate::groups::{CurveVar, GroupOpsBounds};
use crate::r1cs::{alloc_handle, AllocationMode, ConstraintSystem, R1CSVar, SynthesisError};

verus! {

/// The sum of `ps[i]·qs[i]` over the first `n` pairs.
pub open spec fn pairing_sum(ps: Seq<nat>, qs: Seq<nat>, n: nat) -> nat
    decreases n,
{
    if n == 0 {
        0
    } else {
        pairing_sum(ps, qs, (n - 1) as nat) + ps[n - 1] * qs[n - 1]
    }
}

/// The number that a big-endian bit sequence stands for.
pub open spec fn be_value(bits: Seq<bool>) -> nat
    decreases bits.len(),
{
    if bits.len() == 0 {
        0
    } else {
        2 * be_value(bits.drop_last()) + if bits.last() {
            1nat
        } else {
            0
        }
    }
}

/// The circuit form of a bilinear pairing.
pub trait PairingVar {
    type G1Var: CurveVar;
    type G2Var: CurveVar;
    type G1PreparedVar;
    type G2PreparedVar: R1CSVar;
    type GTVar: R1CSVar;
    /// The native form of a prepared second-group operand.
    type G2PreparedNative;
    /// The native form of a target-field element.
    type GTNative;

    /// The prime order of the three groups.
    spec fn order() -> nat;

    /// The discrete logarithm of a prepared first-group operand.
    spec fn g1_prepared_dlog(p: Self::G1PreparedVar) -> nat;

    /// The discrete logarithm of a prepared second-group operand.
    spec fn g2_prepared_dlog(q: Self::G2PreparedVar) -> nat;

    /// The discrete logarithm of a target-group element.
    spec fn gt_dlog(x: Self::GTVar) -> nat;

    /// The discrete logarithm of the final exponentiation of a target-field
    /// element (such as a Miller loop's output).
    spec fn fexp_dlog(x: Self::GTVar) -> nat;

    spec fn g2_prepared_native_dlog(q: Self::G2PreparedNative) -> nat;

    spec fn gt_native_dlog(x: Self::GTNative) -> nat;

    proof fn lemma_orders()
        ensures
            Self::order() > 1,
            <Self::G1Var as GroupOpsBounds>::order() == Self::order(),
            <Self::G2Var as GroupOpsBounds>::order() == Self::order(),
    ;

    /// The accumulation phase over pairs of operands: after the final
    /// exponentiation it gives the product of the pairs' pairings.
    fn miller_loop(p: &[Self::G1PreparedVar], q: &[Self::G2PreparedVar]) -> (r: Result<
        Self::GTVar,
        SynthesisError,
    >)
        requires
            p.len() == q.len(),
        ensures
            r matches Result::Ok(v) && Self::fexp_dlog(v) == pairing_sum(
                p@.map_values(|x: Self::G1PreparedVar| Self::g1_prepared_dlog(x)),
                q@.map_values(|y: Self::G2PreparedVar| Self::g2_prepared_dlog(y)),
                p@.len(),
            ) % Self::order(),
    ;

    /// The expensive phase, applied once per check.
    fn final_exponentiation(p: &Self::GTVar) -> (r: Result<Self::GTVar, SynthesisError>)
        ensures
            r matches Result::Ok(v) && Self::gt_dlog(v) == Self::fexp_dlog(*p),
    ;

    fn prepare_g1(q: &Self::G1Var) -> (r: Result<Self::G1PreparedVar, SynthesisError>)
        ensures
            r matches Result::Ok(v) && Self::g1_prepared_dlog(v) == q.dlog(),
    ;

    fn prepare_g2(q: &Self::G2Var) -> (r: Result<Self::G2PreparedVar, SynthesisError>)
        ensures
            r matches Result::Ok(v) && Self::g2_prepared_dlog(v) == q.dlog(),
    ;

    /// Another variable for the same prepared operand.
    fn duplicate_g2_prepared(q: &Self::G2PreparedVar) -> (r: Self::G2PreparedVar)
        ensures
            Self::g2_prepared_dlog(r) == Self::g2_prepared_dlog(*q),
    ;

    /// Allocates the prepared operand that `f` produces.
    fn new_g2_prepared<F: FnOnce() -> Result<Self::G2PreparedNative, SynthesisError>>(
        cs: &ConstraintSystem,
        f: F,
        mode: AllocationMode,
    ) -> (r: Result<Self::G2PreparedVar, SynthesisError>)
        requires
            f.requires(()),
        ensures
            match r {
                Result::Ok(v) => v.cs_spec() == Option::Some(alloc_handle(cs, mode)) && exists|
                    n: Self::G2PreparedNative,
                |
                    f.ensures((), Result::Ok(n)) && Self::g2_prepared_dlog(v)
                        == Self::g2_prepared_native_dlog(n),
                Result::Err(e) => f.ensures((), Result::Err(e)),
            },
    ;

    /// Allocates the target-group element that `f` produces.
    fn new_gt<F: FnOnce() -> Result<Self::GTNative, SynthesisError>>(
        cs: &ConstraintSystem,
        f: F,
        mode: AllocationMode,
    ) -> (r: Result<Self::GTVar, SynthesisError>)
        requires
            f.requires(()),
        ensures
            match r {
                Result::Ok(v) => v.cs_spec() == Option::Some(alloc_handle(cs, mode)) && exists|
                    n: Self::GTNative,
                |
                    f.ensures((), Result::Ok(n)) && Self::gt_dlog(v) == Self::gt_native_dlog(n),
                Result::Err(e) => f.ensures((), Result::Err(e)),
            },
    ;

    /// Records that two target-group elements are equal where `condition`
    /// holds.
    fn gt_conditional_enforce_equal(
        a: &Self::GTVar,
        b: &Self::GTVar,
        condition: &Boolean,
        cs: &mut ConstraintSystem,
    ) -> (r: Result<(), SynthesisError>)
        ensures
            r is Ok,
            final(cs).id() == old(cs).id(),
            final(cs).holds() == (old(cs).holds() && (condition.val() ==> Self::gt_dlog(*a)
                == Self::gt_dlog(*b))),
    ;

    /// A boolean that is true exactly when two target-group elements are
    /// equal.
    fn gt_is_eq(a: &Self::GTVar, b: &Self::GTVar) -> (r: Result<Boolean, SynthesisError>)
        ensures
            r matches Result::Ok(v) && v.val() == (Self::gt_dlog(*a) == Self::gt_dlog(*b)),
    ;

    /// The identity of the target group.
    fn gt_one() -> (r: Self::GTVar)
        ensures
            Self::gt_dlog(r) == 0,
    ;

    /// The product of two target-group elements.
    fn gt_mul(a: &Self::GTVar, b: &Self::GTVar) -> (r: Result<Self::GTVar, SynthesisError>)
        ensures
            r matches Result::Ok(v) && Self::gt_dlog(v) == (Self::gt_dlog(*a) + Self::gt_dlog(*b))
                % Self::order(),
    ;

    /// `t` where `condition` is true, `f` where it is false.
    fn gt_select(condition: &Boolean, t: &Self::GTVar, f: &Self::GTVar) -> (r: Result<
        Self::GTVar,
        SynthesisError,
    >)
        ensures
            r matches Result::Ok(v) && Self::gt_dlog(v) == if condition.val() {
                Self::gt_dlog(*t)
            } else {
                Self::gt_dlog(*f)
            },
    ;

    proof fn lemma_gt_dlog_bound(x: Self::GTVar)
        ensures
            Self::gt_dlog(x) < Self::order(),
    ;

    /// `x` raised to the number that `bits` give, most significant first:
    /// square, multiply, then select by the bit, so that the constraints do
    /// not depend on the bits' values.
    fn gt_pow(x: &Self::GTVar, bits: &[Boolean]) -> (r: Result<Self::GTVar, SynthesisError>)
        ensures
            r matches Result::Ok(v) && Self::gt_dlog(v) == (be_value(bool_values(bits@))
                * Self::gt_dlog(*x)) % Self::order(),
    {
        let ghost g = Self::gt_dlog(*x);
        let ghost m = Self::order();
        proof {
            Self::lemma_orders();
            vstd::arithmetic::div_mod::lemma_small_mod(0, m);
            assert(bool_values(bits@).take(0) =~= Seq::<bool>::empty());
            assert(0 * g == 0);
        }
        let mut res = Self::gt_one();
        let mut i: usize = 0;
        while i < bits.len()
            invariant
                m == Self::order(),
                m > 1,
                g == Self::gt_dlog(*x),
                i <= bits.len(),
                Self::gt_dlog(res) == (be_value(bool_values(bits@).take(i as int)) * g) % m,
            decreases bits.len() - i,
        {
            let ghost e = be_value(bool_values(bits@).take(i as int));
            let squared = Self::gt_mul(&res, &res)?;
            let tmp = Self::gt_mul(&squared, x)?;
            proof {
                let bv = bool_values(bits@);
                assert(bv.take(i as int + 1).drop_last() =~= bv.take(i as int));
                let eg = (e * g) as int;
                lemma_add_mod_noop(eg, eg, m as int);
                assert((e * g + e * g) == (2 * e) * g) by (nonlinear_arith);
                Self::lemma_gt_dlog_bound(*x);
                lemma_small_mod(g, m);
                lemma_add_mod_noop((2 * e * g) as int, g as int, m as int);
                vstd::arithmetic::div_mod::lemma_mod_twice((2 * e * g) as int, m as int);
                lemma_add_mod_noop(((2 * e * g) % m) as int, g as int, m as int);
                assert((2 * e) * g + g == (2 * e + 1) * g) by (nonlinear_arith);
                assert(2 * e * g == (2 * e) * g) by (nonlinear_arith);
            }
            res = Self::gt_select(&bits[i], &tmp, &squared)?;
            i = i + 1;
        }
        proof {
            assert(bool_values(bits@).take(bits@.len() as int) =~= bool_values(bits@));
        }
        Ok(res)
    }

    /// The pairing of one pair of operands.
    fn pairing(p: Self::G1PreparedVar, q: Self::G2PreparedVar) -> (r: Result<
        Self::GTVar,
        SynthesisError,
    >)
        ensures
            r matches Result::Ok(v) && Self::gt_dlog(v) == (Self::g1_prepared_dlog(p)
                * Self::g2_prepared_dlog(q)) % Self::order(),
    {
        let ghost pd = Self::g1_prepared_dlog(p);
        let ghost qd = Self::g2_prepared_dlog(q);
        let mut ps: Vec<Self::G1PreparedVar> = Vec::new();
        ps.push(p);
        let mut qs: Vec<Self::G2PreparedVar> = Vec::new();
        qs.push(q);
        let tmp = Self::miller_loop(ps.as_slice(), qs.as_slice())?;
        proof {
            assert(ps@.map_values(|x: Self::G1PreparedVar| Self::g1_prepared_dlog(x))[0] == pd);
            assert(qs@.map_values(|y: Self::G2PreparedVar| Self::g2_prepared_dlog(y))[0] == qd);
            assert(pairing_sum(
                ps@.map_values(|x: Self::G1PreparedVar| Self::g1_prepared_dlog(x)),
                qs@.map_values(|y: Self::G2PreparedVar| Self::g2_prepared_dlog(y)),
                0,
            ) == 0);
        }
        Self::final_exponentiation(&tmp)
    }

    /// The product of the pairings of `p[i]` and `q[i]`, with one final
    /// exponentiation for all of them.
    fn product_of_pairings(p: &[Self::G1PreparedVar], q: &[Self::G2PreparedVar]) -> (r: Result<
        Self::GTVar,
        SynthesisError,
    >)
        requires
            p.len() == q.len(),
        ensures
            r matches Result::Ok(v) && Self::gt_dlog(v) == pairing_sum(
                p@.map_values(|x: Self::G1PreparedVar| Self::g1_prepared_dlog(x)),
                q@.map_values(|y: Self::G2PreparedVar| Self::g2_prepared_dlog(y)),
                p@.len(),
            ) % Self::order(),
    {
        let miller_result = Self::miller_loop(p, q)?;
        Self::final_exponentiation(&miller_result)
    }
}

/// Bilinearity: for `a` in the first group, `b` in the second and a scalar
/// `s`, `e(s·a, b) = e(a, s·b) = e(a, b)^s`, over the discrete logarithms
/// that `mul_bits` and `pairing` give.
pub proof fn lemma_bilinearity<P: PairingVar>(a: P::G1Var, b: P::G2Var, s: nat)
    ensures
        (((s * a.dlog()) % P::order()) * b.dlog()) % P::order() == (a.dlog() * ((s * b.dlog())
            % P::order())) % P::order(),
        (a.dlog() * ((s * b.dlog()) % P::order())) % P::order() == (s * ((a.dlog() * b.dlog())
            % P::order())) % P::order(),
{
    P::lemma_orders();
    let m = P::order() as int;
    let x = a.dlog() as int;
    let y = b.dlog() as int;
    let k = s as int;
    vstd::arithmetic::div_mod::lemma_mul_mod_noop_left(k * x, y, m);
    vstd::arithmetic::div_mod::lemma_mul_mod_noop_right(x, k * y, m);
    vstd::arithmetic::div_mod::lemma_mul_mod_noop_right(k, x * y, m);
    assert((k * x) * y == x * (k * y)) by (nonlinear_arith);
    assert(x * (k * y) == k * (x * y)) by (nonlinear_arith);
}

} // verus!
