//! Curve-point variables of a prime-order group, and the scalar
//! multiplications built on them.
//!
//! A group of prime order `r` with generator `G` is modelled by discrete
//! logarithms: a point `k·G` is the number `k` in `[0, r)`. Addition of
//! points is addition modulo `r`, doubling is multiplication by two, and so
//! the contracts below state every gadget's result exactly.
use vstd::prelude::*;
use vstd::arithmetic::power2::{pow2, lemma_pow2_unfold, lemma2_to64};
use vstd::arithmetic::div_mod::{lemma_add_mod_noop, lemma_mul_mod_noop_right, lemma_mod_bound};
use vstd::arithmetic::mul::{lemma_mul_is_distributive_add_other_way, lemma_mul_is_associative};
use crate::boolean::{bool_values, le_value, Boolean, UInt8};
use crate::r1cs::{
    alloc_handle, is_constant_handle, AllocationMode, ConstraintSystem, R1CSVar, SynthesisError,
};

verus! {

/// The sum of the weights `ws[i]` whose bit `bits[i]` is set, over the first
/// `n` positions.
pub open spec fn selected_sum(bits: Seq<bool>, ws: Seq<nat>, n: nat) -> nat
    decreases n,
{
    if n == 0 {
        0
    } else {
        selected_sum(bits, ws, (n - 1) as nat) + if bits[n - 1] {
            ws[n - 1]
        } else {
            0
        }
    }
}

/// The group operations on point variables: adding and subtracting other
/// variables and native points.
pub trait GroupOpsBounds: Sized {
    /// The native (out-of-circuit) point type.
    type Native: Copy;

    /// The prime order of the group.
    spec fn order() -> nat;

    /// The discrete logarithm of a native point.
    spec fn native_dlog(p: Self::Native) -> nat;

    /// The discrete logarithm of the point this variable holds.
    spec fn dlog(&self) -> nat;

    proof fn lemma_order()
        ensures
            Self::order() > 1,
    ;

    proof fn lemma_dlog_bound(&self)
        ensures
            self.dlog() < Self::order(),
    ;

    proof fn lemma_native_bound(p: Self::Native)
        ensures
            Self::native_dlog(p) < Self::order(),
    ;

    /// Whether the point this variable holds lies in the prime-order
    /// subgroup (a curve group may have a small cofactor).
    spec fn in_subgroup(&self) -> bool;

    /// A variable holding the same point.
    fn duplicate(&self) -> (r: Self)
        ensures
            r.dlog() == self.dlog(),
    ;

    fn add_var(&self, other: &Self) -> (r: Self)
        ensures
            r.dlog() == (self.dlog() + other.dlog()) % Self::order(),
    ;

    fn sub_var(&self, other: &Self) -> (r: Self)
        ensures
            r.dlog() == (self.dlog() + Self::order() - other.dlog()) % (Self::order() as int),
    ;

    fn add_native(&self, other: &Self::Native) -> (r: Self)
        ensures
            r.dlog() == (self.dlog() + Self::native_dlog(*other)) % Self::order(),
    ;

    fn sub_native(&self, other: &Self::Native) -> (r: Self)
        ensures
            r.dlog() == (self.dlog() + Self::order() - Self::native_dlog(*other)) % (
            Self::order() as int),
    ;
}

/// A variable holding a point of a prime-order curve group.
pub trait CurveVar: GroupOpsBounds + R1CSVar {
    /// The canonical encoding of the point with discrete logarithm `d`:
    /// distinct points never share it.
    spec fn encoding(d: nat) -> Seq<u8>;

    /// The cheaper encoding, which distinct points may share.
    spec fn non_unique_encoding(d: nat) -> Seq<u8>;

    /// The length of every canonical encoding.
    spec fn encoding_len() -> nat;

    proof fn lemma_encoding_len(d: nat)
        ensures
            Self::encoding(d).len() == Self::encoding_len(),
            Self::encoding_len() > 0,
    ;

    proof fn lemma_encoding_unique(a: nat, b: nat)
        requires
            a < Self::order(),
            b < Self::order(),
            Self::encoding(a) == Self::encoding(b),
        ensures
            a == b,
    ;

    /// The constant `other`.
    fn constant(other: Self::Native) -> (r: Self)
        ensures
            r.dlog() == Self::native_dlog(other),
            is_constant_handle(r.cs_spec()),
    ;

    /// The identity element, as a constant.
    fn zero() -> (r: Self)
        ensures
            r.dlog() == 0,
            is_constant_handle(r.cs_spec()),
    ;

    /// Allocates the point that `f` produces, in mode `mode`; the failure of
    /// `f` is handed back unchanged.
    fn new_variable<F: FnOnce() -> Result<Self::Native, SynthesisError>>(
        cs: &ConstraintSystem,
        f: F,
        mode: AllocationMode,
    ) -> (r: Result<Self, SynthesisError>)
        requires
            f.requires(()),
        ensures
            match r {
                Result::Ok(v) => exists|p: Self::Native|
                    f.ensures((), Result::Ok(p)) && v.dlog() == Self::native_dlog(p)
                        && v.cs_spec() == Option::Some(alloc_handle(cs, mode)),
                Result::Err(e) => f.ensures((), Result::Err(e)),
            },
    ;

    /// Records the constraints that keep this point in the prime-order
    /// subgroup.
    fn enforce_prime_order(&self, cs: &mut ConstraintSystem) -> (r: Result<(), SynthesisError>)
        ensures
            r is Ok,
            final(cs).id() == old(cs).id(),
            final(cs).holds() == (old(cs).holds() && self.in_subgroup()),
    ;

    /// A boolean that is true exactly when the two points are equal.
    fn is_eq(&self, other: &Self) -> (r: Result<Boolean, SynthesisError>)
        ensures
            r matches Result::Ok(b) && b.val() == (self.dlog() == other.dlog()),
    ;

    /// Records that the two points are equal where `condition` holds.
    fn conditional_enforce_equal(
        &self,
        other: &Self,
        condition: &Boolean,
        cs: &mut ConstraintSystem,
    ) -> (r: Result<(), SynthesisError>)
        ensures
            r is Ok,
            final(cs).id() == old(cs).id(),
            final(cs).holds() == (old(cs).holds() && (condition.val() ==> self.dlog()
                == other.dlog())),
    ;

    /// Records that the two points differ where `condition` holds.
    fn conditional_enforce_not_equal(
        &self,
        other: &Self,
        condition: &Boolean,
        cs: &mut ConstraintSystem,
    ) -> (r: Result<(), SynthesisError>)
        ensures
            r is Ok,
            final(cs).id() == old(cs).id(),
            final(cs).holds() == (old(cs).holds() && (condition.val() ==> self.dlog()
                != other.dlog())),
    ;

    /// `t` where `condition` is true, `f` where it is false.
    fn conditionally_select(condition: &Boolean, t: &Self, f: &Self) -> (r: Result<
        Self,
        SynthesisError,
    >)
        ensures
            r matches Result::Ok(v) && v.dlog() == if condition.val() {
                t.dlog()
            } else {
                f.dlog()
            },
    ;

    fn double_in_place(&mut self) -> (r: Result<(), SynthesisError>)
        ensures
            r is Ok,
            final(self).dlog() == (2 * old(self).dlog()) % Self::order(),
    ;

    fn negate(&self) -> (r: Result<Self, SynthesisError>)
        ensures
            r matches Result::Ok(v) && v.dlog() == (Self::order() - self.dlog()) % (
            Self::order() as int),
    ;

    /// The canonical encoding of the point.
    fn to_bytes(&self) -> (r: Result<Vec<UInt8>, SynthesisError>)
        ensures
            r matches Result::Ok(v) && v@.map_values(|b: UInt8| b.val()) == Self::encoding(
                self.dlog(),
            ),
    ;

    /// The cheaper encoding of the point, which distinct points may share.
    fn to_non_unique_bytes(&self) -> (r: Result<Vec<UInt8>, SynthesisError>)
        ensures
            r matches Result::Ok(v) && v@.map_values(|b: UInt8| b.val())
                == Self::non_unique_encoding(self.dlog()),
    ;

    /// Records that the two points are equal.
    fn enforce_equal(&self, other: &Self, cs: &mut ConstraintSystem) -> (r: Result<
        (),
        SynthesisError,
    >)
        ensures
            r is Ok,
            final(cs).id() == old(cs).id(),
            final(cs).holds() == (old(cs).holds() && self.dlog() == other.dlog()),
    {
        let t = Boolean::constant(true);
        self.conditional_enforce_equal(other, &t, cs)
    }

    /// A boolean that is true exactly when the point is the identity.
    fn is_zero(&self) -> (r: Result<Boolean, SynthesisError>)
        ensures
            r matches Result::Ok(b) && b.val() == (self.dlog() == 0),
    {
        let z = Self::zero();
        self.is_eq(&z)
    }

    /// Twice the point, leaving this variable as it is.
    fn double(&self) -> (r: Result<Self, SynthesisError>)
        ensures
            r matches Result::Ok(v) && v.dlog() == (2 * self.dlog()) % Self::order(),
    {
        let mut result = self.duplicate();
        result.double_in_place()?;
        Ok(result)
    }

    /// The multiple `k·P` of this point `P`, where `k` is given by `bits`,
    /// least significant first.
    ///
    /// Each step computes the sum unconditionally and then selects, so the
    /// constraints do not depend on the bits' values.
    fn mul_bits(&self, bits: &[Boolean]) -> (r: Result<Self, SynthesisError>)
        ensures
            r matches Result::Ok(v) && v.dlog() == (le_value(bool_values(bits@)) * self.dlog())
                % Self::order() && (bits@.len() == 0 ==> is_constant_handle(v.cs_spec())),
    {
        let ghost p = self.dlog();
        let ghost m = Self::order();
        proof {
            Self::lemma_order();
            lemma2_to64();
            self.lemma_dlog_bound();
            vstd::arithmetic::div_mod::lemma_small_mod(p, m);
            vstd::arithmetic::div_mod::lemma_small_mod(0, m);
            assert(bool_values(bits@).take(0) =~= Seq::<bool>::empty());
            assert(le_value(bool_values(bits@).take(0)) == 0);
            assert(0 * p == 0);
        }
        let mut power = self.duplicate();
        let mut result = Self::zero();
        let mut i: usize = 0;
        while i < bits.len()
            invariant
                m == Self::order(),
                m > 1,
                p == self.dlog(),
                i <= bits.len(),
                i == 0 ==> is_constant_handle(result.cs_spec()),
                power.dlog() == (pow2(i as nat) * p) % m,
                result.dlog() == (le_value(bool_values(bits@).take(i as int)) * p) % m,
            decreases bits.len() - i,
        {
            let ghost s = le_value(bool_values(bits@).take(i as int));
            let ghost w = pow2(i as nat);
            let new_encoded = result.add_var(&power);
            proof {
                lemma_add_mod_noop((s * p) as int, (w * p) as int, m as int);
                lemma_mul_is_distributive_add_other_way(p as int, s as int, w as int);
                lemma_step_value(bool_values(bits@), i as nat);
            }
            result = Self::conditionally_select(&bits[i], &new_encoded, &result)?;
            power.double_in_place()?;
            proof {
                lemma_pow2_unfold((i + 1) as nat);
                lemma_mul_mod_noop_right(2, (w * p) as int, m as int);
                lemma_mul_is_associative(2, w as int, p as int);
            }
            i = i + 1;
        }
        proof {
            assert(bool_values(bits@).take(bits@.len() as int) =~= bool_values(bits@));
        }
        Ok(result)
    }

    /// Adds to this point the base powers whose bit is set: `bits` and
    /// `base_powers` are walked in pairs, as far as the shorter goes.
    fn precomputed_base_scalar_mul(&mut self, bits: &[Boolean], base_powers: &[Self::Native]) -> (r:
        Result<(), SynthesisError>)
        requires
            bits@.len() == base_powers@.len(),
        ensures
            r is Ok,
            final(self).dlog() == (old(self).dlog() + selected_sum(
                bool_values(bits@),
                base_powers@.map_values(|b: Self::Native| Self::native_dlog(b)),
                bits@.len(),
            )) % Self::order(),
    {
        let ghost d0 = self.dlog();
        let ghost m = Self::order();
        let ghost ws = base_powers@.map_values(|b: Self::Native| Self::native_dlog(b));
        let n: usize = bits.len();
        proof {
            Self::lemma_order();
            self.lemma_dlog_bound();
            vstd::arithmetic::div_mod::lemma_small_mod(d0, m);
        }
        let mut i: usize = 0;
        while i < n
            invariant
                m == Self::order(),
                m > 1,
                n == bits@.len(),
                n == base_powers@.len(),
                i <= n,
                ws == base_powers@.map_values(|b: Self::Native| Self::native_dlog(b)),
                self.dlog() == (d0 + selected_sum(bool_values(bits@), ws, i as nat)) % m,
            decreases n - i,
        {
            let ghost s = selected_sum(bool_values(bits@), ws, i as nat);
            let new_encoded = self.add_native(&base_powers[i]);
            proof {
                lemma_add_mod_noop((d0 + s) as int, ws[i as int] as int, m as int);
                lemma_mod_bound(ws[i as int] as int, m as int);
                Self::lemma_native_bound(base_powers@[i as int]);
                vstd::arithmetic::div_mod::lemma_small_mod(ws[i as int], m);
            }
            let selected = Self::conditionally_select(&bits[i], &new_encoded, self)?;
            *self = selected;
            i = i + 1;
        }
        Ok(())
    }

    /// The windowed signed-digit multiplication: segment `i` of `scalars`
    /// is walked in pairs with table `i` of `bases`, and each 3-bit chunk
    /// selects `±(1 + b0 + 2·b1)` times its table entry. The algorithm is
    /// particular to each curve family: there is no general one.
    fn precomputed_base_3_bit_signed_digit_scalar_mul(
        bases: &[Vec<Self::Native>],
        scalars: &[Vec<Vec<Boolean>>],
    ) -> (r: Result<Self, SynthesisError>)
        requires
            scalars@.len() <= bases@.len(),
            forall|i: int|
                0 <= i < scalars@.len() ==> (#[trigger] scalars@[i])@.len() <= bases@[i]@.len(),
            forall|i: int, j: int|
                0 <= i < scalars@.len() && 0 <= j < scalars@[i]@.len() ==> (
                #[trigger] scalars@[i]@[j])@.len() == 3,
        ensures
            r matches Result::Ok(v) && v.dlog() as int == signed_digit_sum::<Self>(
                bases@,
                segment_values(scalars@),
                scalars@.len(),
            ) % (Self::order() as int),
    ;

    /// The sum over windows `j` of the base powers of window `j` whose bit
    /// of scalar `j` is set: windowed evaluation over tables of precomputed
    /// multiples.
    fn precomputed_base_multiscalar_mul(bases: &[Vec<Self::Native>], scalars: &[Vec<Boolean>]) -> (r:
        Result<Self, SynthesisError>)
        requires
            bases@.len() == scalars@.len(),
            forall|j: int| 0 <= j < scalars@.len() ==> (#[trigger] scalars@[j])@.len() == bases@[j]@.len(),
        ensures
            r matches Result::Ok(v) && v.dlog() == multiscalar_sum::<Self>(bases@, scalars@, scalars@.len())
                % Self::order(),
    {
        let n: usize = scalars.len();
        let ghost m = Self::order();
        proof {
            Self::lemma_order();
            vstd::arithmetic::div_mod::lemma_small_mod(0, m);
        }
        let mut result = Self::zero();
        let mut j: usize = 0;
        while j < n
            invariant
                m == Self::order(),
                m > 1,
                n == scalars@.len(),
                n == bases@.len(),
                forall|t: int| 0 <= t < scalars@.len() ==> (#[trigger] scalars@[t])@.len() == bases@[t]@.len(),
                j <= n,
                result.dlog() == multiscalar_sum::<Self>(bases@, scalars@, j as nat) % m,
            decreases n - j,
        {
            let ghost before = multiscalar_sum::<Self>(bases@, scalars@, j as nat);
            let ghost t = window_sum::<Self>(bases@[j as int], scalars@[j as int]);
            result.precomputed_base_scalar_mul(scalars[j].as_slice(), bases[j].as_slice())?;
            proof {
                lemma_add_mod_noop(before as int, t as int, m as int);
                vstd::arithmetic::div_mod::lemma_mod_twice(before as int, m as int);
                lemma_add_mod_noop((before % m) as int, t as int, m as int);
            }
            j = j + 1;
        }
        Ok(result)
    }
}

/// Allocates the native point `p` in mode `mode`.
pub fn alloc_point<G: CurveVar>(cs: &ConstraintSystem, p: G::Native, mode: AllocationMode) -> (r:
    Result<G, SynthesisError>)
    ensures
        r matches Result::Ok(v) && v.dlog() == G::native_dlog(p) && v.cs_spec() == Option::Some(
            alloc_handle(cs, mode),
        ),
{
    let f = move || -> (r: Result<G::Native, SynthesisError>)
        ensures
            r == Result::<G::Native, SynthesisError>::Ok(p),
        { Ok(p) };
    G::new_variable(cs, f, mode)
}

/// Allocates the native points `ps` in mode `mode`, in order.
pub fn alloc_points<G: CurveVar>(cs: &ConstraintSystem, ps: &Vec<G::Native>, mode: AllocationMode) -> (r:
    Result<Vec<G>, SynthesisError>)
    ensures
        r matches Result::Ok(v) && v@.map_values(|g: G| g.dlog()) == ps@.map_values(
            |p: G::Native| G::native_dlog(p),
        ) && (forall|i: int|
            0 <= i < v@.len() ==> (#[trigger] v@[i]).cs_spec() == Option::Some(alloc_handle(cs, mode))),
{
    let mut out: Vec<G> = Vec::new();
    let mut i: usize = 0;
    while i < ps.len()
        invariant
            i <= ps.len(),
            out.len() == i,
            forall|j: int| 0 <= j < i ==> #[trigger] out[j].dlog() == G::native_dlog(ps[j]),
            forall|j: int|
                0 <= j < i ==> (#[trigger] out@[j]).cs_spec() == Option::Some(alloc_handle(cs, mode)),
        decreases ps.len() - i,
    {
        let g = alloc_point::<G>(cs, ps[i], mode)?;
        out.push(g);
        i = i + 1;
    }
    assert(out@.map_values(|g: G| g.dlog()) =~= ps@.map_values(|p: G::Native| G::native_dlog(p)));
    Ok(out)
}

/// The discrete logarithms of one table of native points.
pub open spec fn table_dlogs<G: GroupOpsBounds>(t: Vec<G::Native>) -> Seq<nat> {
    t@.map_values(|b: G::Native| G::native_dlog(b))
}

/// The signed digit that a 3-bit chunk selects: `1 + b0 + 2·b1`, negated
/// when `b2` is set.
pub open spec fn signed_digit(c: Seq<bool>) -> int {
    let m = 1 + (if c[0] {
        1int
    } else {
        0
    }) + (if c[1] {
        2int
    } else {
        0
    });
    if c[2] {
        -m
    } else {
        m
    }
}

/// `Σ signed_digit(chunks[j])·powers[j]` over the first `n` chunks.
pub open spec fn segment_sum(chunks: Seq<Seq<bool>>, powers: Seq<nat>, n: nat) -> int
    decreases n,
{
    if n == 0 {
        0
    } else {
        segment_sum(chunks, powers, (n - 1) as nat) + signed_digit(chunks[n - 1]) * powers[n - 1]
    }
}

/// The signed-digit sums of the first `n` segments, each against its table.
pub open spec fn signed_digit_sum<G: GroupOpsBounds>(
    bases: Seq<Vec<G::Native>>,
    segments: Seq<Seq<Seq<bool>>>,
    n: nat,
) -> int
    decreases n,
{
    if n == 0 {
        0
    } else {
        signed_digit_sum::<G>(bases, segments, (n - 1) as nat) + segment_sum(
            segments[n - 1],
            table_dlogs::<G>(bases[n - 1]),
            segments[n - 1].len(),
        )
    }
}

/// The values of segments of chunks of bit variables.
pub open spec fn segment_values(scalars: Seq<Vec<Vec<Boolean>>>) -> Seq<Seq<Seq<bool>>> {
    scalars.map_values(|s: Vec<Vec<Boolean>>| s@.map_values(|c: Vec<Boolean>| bool_values(c@)))
}

/// The contribution of one window: its table entries whose bit is set.
pub open spec fn window_sum<G: GroupOpsBounds>(base: Vec<G::Native>, bits: Vec<Boolean>) -> nat {
    selected_sum(bool_values(bits@), base@.map_values(|b: G::Native| G::native_dlog(b)), bits@.len())
}

/// The sum of the first `n` windows' contributions.
pub open spec fn multiscalar_sum<G: GroupOpsBounds>(
    bases: Seq<Vec<G::Native>>,
    scalars: Seq<Vec<Boolean>>,
    n: nat,
) -> nat
    decreases n,
{
    if n == 0 {
        0
    } else {
        multiscalar_sum::<G>(bases, scalars, (n - 1) as nat) + window_sum::<G>(
            bases[n - 1],
            scalars[n - 1],
        )
    }
}

/// The group law as the point gadgets compute it: for points `a` and `b`,
/// `a + 0 = a`, `a − 0 = a`, `a − a = 0`, `a + b = b + a`,
/// `(a + b) + a = a + (b + a)` and `double(a) = a + a`, over the discrete
/// logarithms that `add_var`, `sub_var`, `zero` and `double` give.
pub proof fn lemma_group_law<G: CurveVar>(a: G, b: G)
    ensures
        (a.dlog() + 0) % G::order() == a.dlog(),
        (a.dlog() + G::order() - 0) % (G::order() as int) == a.dlog(),
        (a.dlog() + G::order() - a.dlog()) % (G::order() as int) == 0,
        (a.dlog() + b.dlog()) % G::order() == (b.dlog() + a.dlog()) % G::order(),
        ((a.dlog() + b.dlog()) % G::order() + a.dlog()) % G::order() == (a.dlog() + (b.dlog()
            + a.dlog()) % G::order()) % G::order(),
        (2 * a.dlog()) % G::order() == (a.dlog() + a.dlog()) % G::order(),
{
    G::lemma_order();
    a.lemma_dlog_bound();
    b.lemma_dlog_bound();
    let m = G::order() as int;
    let x = a.dlog() as int;
    let y = b.dlog() as int;
    vstd::arithmetic::div_mod::lemma_small_mod(a.dlog(), G::order());
    vstd::arithmetic::div_mod::lemma_mod_self_0(m);
    vstd::arithmetic::div_mod::lemma_add_mod_noop(x + y, x, m);
    vstd::arithmetic::div_mod::lemma_add_mod_noop(x, y + x, m);
    vstd::arithmetic::div_mod::lemma_mod_twice(x + y, m);
    vstd::arithmetic::div_mod::lemma_mod_twice(y + x, m);
    vstd::arithmetic::div_mod::lemma_mod_twice(x, m);
    assert(x + y + x == x + (y + x));
    vstd::arithmetic::div_mod::lemma_mod_multiples_vanish(1, x, m);
    assert(x + m - 0 == m * 1 + x);
}

/// One step of a little-endian value: the prefix of length `i + 1` adds bit
/// `i` with weight `2^i`.
pub proof fn lemma_step_value(bits: Seq<bool>, i: nat)
    requires
        i < bits.len(),
    ensures
        le_value(bits.take(i as int + 1)) == le_value(bits.take(i as int)) + if bits[i as int] {
            pow2(i)
        } else {
            0
        },
{
    assert(bits.take(i as int + 1).drop_last() =~= bits.take(i as int));
}

} // verus!
