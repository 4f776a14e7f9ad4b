//! A prime-order group given by discrete logarithms, with a symmetric
//! pairing: the reference instantiation of the group and pairing capability
//! sets.
//!
//! Every point is a multiple `k·G` of a fixed generator and is held as `k`
//! modulo the prime `DLOG_ORDER`; the pairing of `a·G` and `b·G` is
//! `(a·b)·GT`.
use vstd::prelude::*;
use vstd::arithmetic::div_mod::{lemma_add_mod_noop, lemma_mod_multiples_vanish, lemma_small_mod, lemma_sub_mod_noop};
use crate::boolean::{alloc_handle_exec, bool_values, pick_handle, Boolean, UInt8};
use crate::groups::{
    segment_sum, segment_values, signed_digit, signed_digit_sum, table_dlogs, CurveVar,
    GroupOpsBounds,
};
use crate::pairing::{pairing_sum, PairingVar};
use crate::r1cs::{AllocationMode, ConstraintSystem, ConstraintSystemRef, R1CSVar, SynthesisError};

verus! {

/// The order of the group: the prime `2^31 − 1`.
pub const DLOG_ORDER: u64 = 2147483647;

/// The canonical four-byte little-endian encoding of a discrete logarithm.
pub open spec fn dlog_encoding(d: nat) -> Seq<u8> {
    let x = d as u32;
    seq![x as u8, (x >> 8u32) as u8, (x >> 16u32) as u8, (x >> 24u32) as u8]
}

/// A point variable of the group.
#[derive(Clone, Copy, Debug)]
pub struct DlogVar {
    k: u64,
    handle: ConstraintSystemRef,
}

impl DlogVar {
    /// The discrete logarithm in `[0, DLOG_ORDER)`, as a plain value.
    pub fn value(&self) -> (r: Result<u64, SynthesisError>)
        ensures
            r matches Result::Ok(v) && v as nat == self.dlog(),
    {
        Ok(self.k % DLOG_ORDER)
    }
}

impl R1CSVar for DlogVar {
    open spec fn cs_spec(&self) -> Option<ConstraintSystemRef> {
        Option::Some(self.handle_spec())
    }

    fn cs(&self) -> (r: Option<ConstraintSystemRef>) {
        Option::Some(self.handle)
    }
}

impl DlogVar {
    /// The handle this variable carries.
    pub closed spec fn handle_spec(&self) -> ConstraintSystemRef {
        self.handle
    }
}

impl GroupOpsBounds for DlogVar {
    type Native = u64;

    open spec fn order() -> nat {
        DLOG_ORDER as nat
    }

    open spec fn native_dlog(p: u64) -> nat {
        (p % DLOG_ORDER) as nat
    }

    closed spec fn dlog(&self) -> nat {
        (self.k % DLOG_ORDER) as nat
    }

    proof fn lemma_order() {
    }

    proof fn lemma_dlog_bound(&self) {
    }

    proof fn lemma_native_bound(p: u64) {
    }

    /// Every point of this group is a multiple of the generator.
    open spec fn in_subgroup(&self) -> bool {
        true
    }

    fn duplicate(&self) -> (r: Self) {
        *self
    }

    fn add_var(&self, other: &Self) -> (r: Self) {
        let k = (self.k % DLOG_ORDER + other.k % DLOG_ORDER) % DLOG_ORDER;
        DlogVar { k, handle: pick_handle(self.handle, other.handle) }
    }

    fn sub_var(&self, other: &Self) -> (r: Self) {
        let k = (self.k % DLOG_ORDER + (DLOG_ORDER - other.k % DLOG_ORDER)) % DLOG_ORDER;
        DlogVar { k, handle: pick_handle(self.handle, other.handle) }
    }

    fn add_native(&self, other: &u64) -> (r: Self) {
        let k = (self.k % DLOG_ORDER + *other % DLOG_ORDER) % DLOG_ORDER;
        DlogVar { k, handle: self.handle }
    }

    fn sub_native(&self, other: &u64) -> (r: Self) {
        let k = (self.k % DLOG_ORDER + (DLOG_ORDER - *other % DLOG_ORDER)) % DLOG_ORDER;
        DlogVar { k, handle: self.handle }
    }
}

impl CurveVar for DlogVar {
    open spec fn encoding(d: nat) -> Seq<u8> {
        dlog_encoding(d)
    }

    open spec fn non_unique_encoding(d: nat) -> Seq<u8> {
        dlog_encoding(d)
    }

    open spec fn encoding_len() -> nat {
        4
    }

    proof fn lemma_encoding_len(d: nat) {
    }

    proof fn lemma_encoding_unique(a: nat, b: nat) {
        let x = a as u32;
        let y = b as u32;
        assert(dlog_encoding(a)[0] == dlog_encoding(b)[0]);
        assert(dlog_encoding(a)[1] == dlog_encoding(b)[1]);
        assert(dlog_encoding(a)[2] == dlog_encoding(b)[2]);
        assert(dlog_encoding(a)[3] == dlog_encoding(b)[3]);
        assert(x as u8 == y as u8 && (x >> 8u32) as u8 == (y >> 8u32) as u8 && (x >> 16u32) as u8
            == (y >> 16u32) as u8 && (x >> 24u32) as u8 == (y >> 24u32) as u8 ==> x == y)
            by (bit_vector);
    }

    fn constant(other: u64) -> (r: Self) {
        DlogVar { k: other % DLOG_ORDER, handle: ConstraintSystemRef::NoSystem }
    }

    fn zero() -> (r: Self) {
        DlogVar { k: 0, handle: ConstraintSystemRef::NoSystem }
    }

    fn new_variable<F: FnOnce() -> Result<u64, SynthesisError>>(
        cs: &ConstraintSystem,
        f: F,
        mode: AllocationMode,
    ) -> (r: Result<Self, SynthesisError>) {
        let produced = f();
        match produced {
            Ok(p) => {
                let v = DlogVar { k: p % DLOG_ORDER, handle: alloc_handle_exec(cs, mode) };
                assert(f.ensures((), Result::Ok(p)) && v.dlog() == Self::native_dlog(p));
                Ok(v)
            },
            Err(e) => Err(e),
        }
    }

    fn enforce_prime_order(&self, cs: &mut ConstraintSystem) -> (r: Result<(), SynthesisError>) {
        Ok(())
    }

    fn is_eq(&self, other: &Self) -> (r: Result<Boolean, SynthesisError>) {
        let v = self.k % DLOG_ORDER == other.k % DLOG_ORDER;
        Ok(Boolean::derived(v, pick_handle(self.handle, other.handle)))
    }

    fn conditional_enforce_equal(
        &self,
        other: &Self,
        condition: &Boolean,
        cs: &mut ConstraintSystem,
    ) -> (r: Result<(), SynthesisError>) {
        let c = condition.value()?;
        cs.enforce(!c || self.k % DLOG_ORDER == other.k % DLOG_ORDER);
        Ok(())
    }

    fn conditional_enforce_not_equal(
        &self,
        other: &Self,
        condition: &Boolean,
        cs: &mut ConstraintSystem,
    ) -> (r: Result<(), SynthesisError>) {
        let c = condition.value()?;
        cs.enforce(!c || self.k % DLOG_ORDER != other.k % DLOG_ORDER);
        Ok(())
    }

    fn conditionally_select(condition: &Boolean, t: &Self, f: &Self) -> (r: Result<
        Self,
        SynthesisError,
    >) {
        let c = condition.value()?;
        let k = if c {
            t.k
        } else {
            f.k
        };
        Ok(DlogVar { k, handle: pick_handle(condition.handle_exec(), pick_handle(t.handle, f.handle)) })
    }

    fn double_in_place(&mut self) -> (r: Result<(), SynthesisError>) {
        let d = self.k % DLOG_ORDER;
        self.k = (d + d) % DLOG_ORDER;
        Ok(())
    }

    fn negate(&self) -> (r: Result<Self, SynthesisError>) {
        let k = (DLOG_ORDER - self.k % DLOG_ORDER) % DLOG_ORDER;
        Ok(DlogVar { k, handle: self.handle })
    }

    fn to_bytes(&self) -> (r: Result<Vec<UInt8>, SynthesisError>) {
        Ok(encode_dlog(self.k % DLOG_ORDER, self.handle))
    }

    fn to_non_unique_bytes(&self) -> (r: Result<Vec<UInt8>, SynthesisError>) {
        Ok(encode_dlog(self.k % DLOG_ORDER, self.handle))
    }

    #[verifier::loop_isolation(false)]
    fn precomputed_base_3_bit_signed_digit_scalar_mul(
        bases: &[Vec<u64>],
        scalars: &[Vec<Vec<Boolean>>],
    ) -> (r: Result<Self, SynthesisError>) {
        let ghost segs = segment_values(scalars@);
        let ghost m = DLOG_ORDER as int;
        let n: usize = scalars.len();
        let mut acc: u64 = 0;
        let mut i: usize = 0;
        while i < n
            invariant
                n == scalars@.len(),
                i <= n,
                m == DLOG_ORDER as int,
                acc < DLOG_ORDER,
                segs == segment_values(scalars@),
                acc as int == signed_digit_sum::<DlogVar>(bases@, segs, i as nat) % m,
            decreases n - i,
        {
            let seg = &scalars[i];
            let table = &bases[i];
            let cnt: usize = seg.len();
            let ghost before = signed_digit_sum::<DlogVar>(bases@, segs, i as nat);
            let ghost chs = segs[i as int];
            let ghost pw = table_dlogs::<DlogVar>(bases@[i as int]);
            assert(chs.len() == seg@.len());
            let mut j: usize = 0;
            while j < cnt
                invariant
                    cnt <= seg@.len(),
                    cnt <= table@.len(),
                    j <= cnt,
                    m == DLOG_ORDER as int,
                    acc < DLOG_ORDER,
                    chs == seg@.map_values(|c: Vec<Boolean>| bool_values(c@)),
                    pw == table@.map_values(|b: u64| DlogVar::native_dlog(b)),
                    acc as int == (before + segment_sum(chs, pw, j as nat)) % m,
                decreases cnt - j,
            {
                let c = &seg[j];
                assert(c@.len() == 3) by {
                    assert(scalars@[i as int]@[j as int] == seg@[j as int]);
                }
                let b0 = c[0].value()?;
                let b1 = c[1].value()?;
                let b2 = c[2].value()?;
                let mag: u64 = 1 + (if b0 {
                    1
                } else {
                    0
                }) + (if b1 {
                    2
                } else {
                    0
                });
                let p = table[j] % DLOG_ORDER;
                assert(mag * p <= 4 * DLOG_ORDER) by (nonlinear_arith)
                    requires mag <= 4, p < DLOG_ORDER;
                let t = (mag * p) % DLOG_ORDER;
                let ghost s = before + segment_sum(chs, pw, j as nat);
                let ghost d = mag as int * p as int;
                proof {
                    assert(chs[j as int] == bool_values(c@));
                    assert(pw[j as int] == p);
                    assert(signed_digit(chs[j as int]) == if b2 { -(mag as int) } else { mag as int });
                    lemma_add_mod_noop(s, d, m);
                    lemma_sub_mod_noop(s, d, m);
                    lemma_mod_multiples_vanish(1, (s % m) - (d % m), m);
                    assert(m * 1 + ((s % m) - (d % m)) == acc as int + (m - t as int));
                    assert(-(mag as int) * (p as int) == -d) by (nonlinear_arith)
                        requires d == mag as int * p as int;
                }
                acc = if b2 {
                    (acc + (DLOG_ORDER - t)) % DLOG_ORDER
                } else {
                    (acc + t) % DLOG_ORDER
                };
                j = j + 1;
            }
            i = i + 1;
        }
        proof {
            lemma_small_mod(acc as nat, DLOG_ORDER as nat);
        }
        let v = DlogVar { k: acc, handle: ConstraintSystemRef::NoSystem };
        let r: Result<DlogVar, SynthesisError> = Ok(v);
        assert(r matches Result::Ok(w) && w.dlog() as int == signed_digit_sum::<Self>(
            bases@,
            segment_values(scalars@),
            scalars@.len(),
        ) % (Self::order() as int));
        r
    }
}

/// The four encoding bytes of `d`, carrying `handle`.
fn encode_dlog(d: u64, handle: ConstraintSystemRef) -> (r: Vec<UInt8>)
    requires
        d < DLOG_ORDER,
    ensures
        r@.map_values(|b: UInt8| b.val()) == dlog_encoding(d as nat),
{
    let x = d as u32;
    let v = vec![
        UInt8::derived(x as u8, handle),
        UInt8::derived((x >> 8u32) as u8, handle),
        UInt8::derived((x >> 16u32) as u8, handle),
        UInt8::derived((x >> 24u32) as u8, handle),
    ];
    assert(v@.map_values(|b: UInt8| b.val()) =~= dlog_encoding(d as nat));
    v
}

/// A prepared operand of the group: the point itself.
#[derive(Clone, Copy, Debug)]
pub struct DlogPrepared {
    k: u64,
    handle: ConstraintSystemRef,
}

impl R1CSVar for DlogPrepared {
    open spec fn cs_spec(&self) -> Option<ConstraintSystemRef> {
        Option::Some(self.handle_spec())
    }

    fn cs(&self) -> (r: Option<ConstraintSystemRef>) {
        Option::Some(self.handle)
    }
}

impl R1CSVar for DlogGtVar {
    open spec fn cs_spec(&self) -> Option<ConstraintSystemRef> {
        Option::Some(self.handle_spec())
    }

    fn cs(&self) -> (r: Option<ConstraintSystemRef>) {
        Option::Some(self.handle)
    }
}

/// An element of the target group, held by its discrete logarithm.
#[derive(Clone, Copy, Debug)]
pub struct DlogGtVar {
    k: u64,
    handle: ConstraintSystemRef,
}

impl DlogGtVar {
    /// The handle this element carries.
    pub closed spec fn handle_spec(&self) -> ConstraintSystemRef {
        self.handle
    }

    pub closed spec fn dlog(&self) -> nat {
        (self.k % DLOG_ORDER) as nat
    }

    /// The discrete logarithm in `[0, DLOG_ORDER)`, as a plain value.
    pub fn value(&self) -> (r: Result<u64, SynthesisError>)
        ensures
            r matches Result::Ok(v) && v as nat == self.dlog(),
    {
        Ok(self.k % DLOG_ORDER)
    }
}

impl DlogPrepared {
    /// The handle this operand carries.
    pub closed spec fn handle_spec(&self) -> ConstraintSystemRef {
        self.handle
    }

    pub closed spec fn dlog(&self) -> nat {
        (self.k % DLOG_ORDER) as nat
    }
}

/// The symmetric pairing of the discrete-logarithm group with itself.
pub struct DlogPairing;

impl PairingVar for DlogPairing {
    type G1Var = DlogVar;
    type G2Var = DlogVar;
    type G1PreparedVar = DlogPrepared;
    type G2PreparedVar = DlogPrepared;
    type GTVar = DlogGtVar;
    type G2PreparedNative = u64;
    type GTNative = u64;

    open spec fn order() -> nat {
        DLOG_ORDER as nat
    }

    open spec fn g1_prepared_dlog(p: DlogPrepared) -> nat {
        p.dlog()
    }

    open spec fn g2_prepared_dlog(q: DlogPrepared) -> nat {
        q.dlog()
    }

    open spec fn gt_dlog(x: DlogGtVar) -> nat {
        x.dlog()
    }

    /// In this group the Miller loop already lands in the target group, and
    /// the final exponentiation keeps the value.
    open spec fn fexp_dlog(x: DlogGtVar) -> nat {
        x.dlog()
    }

    open spec fn g2_prepared_native_dlog(q: u64) -> nat {
        (q % DLOG_ORDER) as nat
    }

    open spec fn gt_native_dlog(x: u64) -> nat {
        (x % DLOG_ORDER) as nat
    }

    proof fn lemma_orders() {
    }

    fn miller_loop(p: &[DlogPrepared], q: &[DlogPrepared]) -> (r: Result<DlogGtVar, SynthesisError>) {
        let ghost pd = p@.map_values(|x: DlogPrepared| Self::g1_prepared_dlog(x));
        let ghost qd = q@.map_values(|y: DlogPrepared| Self::g2_prepared_dlog(y));
        let mut acc: u64 = 0;
        let mut i: usize = 0;
        while i < p.len()
            invariant
                p.len() == q.len(),
                i <= p.len(),
                pd == p@.map_values(|x: DlogPrepared| Self::g1_prepared_dlog(x)),
                qd == q@.map_values(|y: DlogPrepared| Self::g2_prepared_dlog(y)),
                acc < DLOG_ORDER,
                acc as nat == pairing_sum(pd, qd, i as nat) % (DLOG_ORDER as nat),
            decreases p.len() - i,
        {
            let a = p[i].k % DLOG_ORDER;
            let b = q[i].k % DLOG_ORDER;
            assert(a * b < 0x4000_0000_0000_0001) by (nonlinear_arith)
                requires a < DLOG_ORDER, b < DLOG_ORDER;
            let t = (a * b) % DLOG_ORDER;
            proof {
                let s = pairing_sum(pd, qd, i as nat);
                assert(pd[i as int] == a && qd[i as int] == b);
                lemma_add_mod_noop(s as int, (a * b) as int, DLOG_ORDER as int);
                lemma_small_mod(acc as nat, DLOG_ORDER as nat);
            }
            acc = (acc + t) % DLOG_ORDER;
            i = i + 1;
        }
        proof {
            lemma_small_mod(acc as nat, DLOG_ORDER as nat);
        }
        let v = DlogGtVar { k: acc, handle: ConstraintSystemRef::NoSystem };
        assert(Self::fexp_dlog(v) == pairing_sum(pd, qd, p@.len()) % Self::order());
        Ok(v)
    }

    fn final_exponentiation(p: &DlogGtVar) -> (r: Result<DlogGtVar, SynthesisError>) {
        let v = DlogGtVar { k: p.k, handle: p.handle };
        assert(Self::gt_dlog(v) == Self::fexp_dlog(*p));
        Ok(v)
    }

    fn prepare_g1(q: &DlogVar) -> (r: Result<DlogPrepared, SynthesisError>) {
        Ok(DlogPrepared { k: q.value()?, handle: q.handle })
    }

    fn prepare_g2(q: &DlogVar) -> (r: Result<DlogPrepared, SynthesisError>) {
        Ok(DlogPrepared { k: q.value()?, handle: q.handle })
    }

    fn duplicate_g2_prepared(q: &DlogPrepared) -> (r: DlogPrepared) {
        *q
    }

    fn new_g2_prepared<F: FnOnce() -> Result<u64, SynthesisError>>(
        cs: &ConstraintSystem,
        f: F,
        mode: AllocationMode,
    ) -> (r: Result<DlogPrepared, SynthesisError>) {
        let produced = f();
        match produced {
            Ok(q) => {
                let v = DlogPrepared { k: q % DLOG_ORDER, handle: alloc_handle_exec(cs, mode) };
                assert(f.ensures((), Result::Ok(q)) && Self::g2_prepared_dlog(v)
                    == Self::g2_prepared_native_dlog(q));
                Ok(v)
            },
            Err(e) => Err(e),
        }
    }

    fn new_gt<F: FnOnce() -> Result<u64, SynthesisError>>(
        cs: &ConstraintSystem,
        f: F,
        mode: AllocationMode,
    ) -> (r: Result<DlogGtVar, SynthesisError>) {
        let produced = f();
        match produced {
            Ok(x) => {
                let v = DlogGtVar { k: x % DLOG_ORDER, handle: alloc_handle_exec(cs, mode) };
                assert(f.ensures((), Result::Ok(x)) && Self::gt_dlog(v) == Self::gt_native_dlog(x));
                Ok(v)
            },
            Err(e) => Err(e),
        }
    }

    fn gt_conditional_enforce_equal(
        a: &DlogGtVar,
        b: &DlogGtVar,
        condition: &Boolean,
        cs: &mut ConstraintSystem,
    ) -> (r: Result<(), SynthesisError>) {
        let c = condition.value()?;
        cs.enforce(!c || a.k % DLOG_ORDER == b.k % DLOG_ORDER);
        Ok(())
    }

    fn gt_one() -> (r: DlogGtVar) {
        DlogGtVar { k: 0, handle: ConstraintSystemRef::NoSystem }
    }

    fn gt_mul(a: &DlogGtVar, b: &DlogGtVar) -> (r: Result<DlogGtVar, SynthesisError>) {
        let k = (a.k % DLOG_ORDER + b.k % DLOG_ORDER) % DLOG_ORDER;
        let v = DlogGtVar { k, handle: pick_handle(a.handle, b.handle) };
        proof {
            lemma_small_mod(k as nat, DLOG_ORDER as nat);
        }
        Ok(v)
    }

    fn gt_select(condition: &Boolean, t: &DlogGtVar, f: &DlogGtVar) -> (r: Result<
        DlogGtVar,
        SynthesisError,
    >) {
        let c = condition.value()?;
        let v = if c {
            *t
        } else {
            *f
        };
        Ok(DlogGtVar { k: v.k, handle: pick_handle(condition.handle_exec(), v.handle) })
    }

    proof fn lemma_gt_dlog_bound(x: DlogGtVar) {
    }

    fn gt_is_eq(a: &DlogGtVar, b: &DlogGtVar) -> (r: Result<Boolean, SynthesisError>) {
        let v = a.k % DLOG_ORDER == b.k % DLOG_ORDER;
        Ok(Boolean::derived(v, pick_handle(a.handle, b.handle)))
    }
}

} // verus!
