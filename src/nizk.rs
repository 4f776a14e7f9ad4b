//! Verifying a Groth16 proof inside a circuit.
//!
//! The check is the fused form `e(A, B)·e(IC, −γ)·e(C, −δ) = e(α, β)`: one
//! Miller loop over three pairs and one final exponentiation, where
//! `IC = γ_abc[0] + Σ x_i·γ_abc[i + 1]` commits to the public inputs `x_i`.
use vstd::prelude::*;
use vstd::arithmetic::div_mod::{
    lemma_add_mod_noop, lemma_mod_bound, lemma_mod_multiples_vanish, lemma_mul_mod_noop_left,
    lemma_mul_mod_noop_right, lemma_small_mod,
};
use vstd::arithmetic::power2::pow2;
use crate::boolean::{bool_values, le_value, Boolean, UInt8};
use crate::groups::{alloc_point, alloc_points, CurveVar, GroupOpsBounds};
use crate::pairing::{pairing_sum, PairingVar};
use crate::r1cs::{alloc_handle, AllocationMode, ConstraintSystem, ConstraintSystemRef, R1CSVar, SynthesisError};

verus! {

/// A verifier of non-interactive proofs, written as a circuit gadget.
pub trait NIZKVerifierGadget {
    type PreparedVerificationKeyVar;
    type VerificationKeyVar;
    type ProofVar;

    /// Whether `proof` is accepted for `input` under `vk`.
    spec fn accepts(vk: Self::VerificationKeyVar, input: Seq<Vec<Boolean>>, proof: Self::ProofVar) -> bool;

    /// Whether `proof` is accepted for `input` under the prepared key `pvk`.
    spec fn accepts_prepared(
        pvk: Self::PreparedVerificationKeyVar,
        input: Seq<Vec<Boolean>>,
        proof: Self::ProofVar,
    ) -> bool;

    /// Whether `input` has as many entries as `vk` expects.
    spec fn input_fits(vk: Self::VerificationKeyVar, input: Seq<Vec<Boolean>>) -> bool;

    /// Whether `input` has as many entries as `pvk` expects.
    spec fn input_fits_prepared(pvk: Self::PreparedVerificationKeyVar, input: Seq<Vec<Boolean>>) -> bool;

    /// Records that `proof` verifies for `input` where `condition` holds.
    fn conditional_verify(
        verification_key: &Self::VerificationKeyVar,
        input: &[Vec<Boolean>],
        proof: &Self::ProofVar,
        condition: &Boolean,
        cs: &mut ConstraintSystem,
    ) -> (r: Result<(), SynthesisError>)
        requires
            Self::input_fits(*verification_key, input@),
        ensures
            r is Ok,
            final(cs).id() == old(cs).id(),
            final(cs).holds() == (old(cs).holds() && (condition.val() ==> Self::accepts(
                *verification_key,
                input@,
                *proof,
            ))),
    ;

    /// Records that `proof` verifies for `input` under a prepared key where
    /// `condition` holds.
    fn conditional_verify_prepared(
        prepared_verification_key: &Self::PreparedVerificationKeyVar,
        input: &[Vec<Boolean>],
        proof: &Self::ProofVar,
        condition: &Boolean,
        cs: &mut ConstraintSystem,
    ) -> (r: Result<(), SynthesisError>)
        requires
            Self::input_fits_prepared(*prepared_verification_key, input@),
        ensures
            r is Ok,
            final(cs).id() == old(cs).id(),
            final(cs).holds() == (old(cs).holds() && (condition.val() ==> Self::accepts_prepared(
                *prepared_verification_key,
                input@,
                *proof,
            ))),
    ;

    /// Records that `proof` verifies for `input`.
    fn verify(
        verification_key: &Self::VerificationKeyVar,
        input: &[Vec<Boolean>],
        proof: &Self::ProofVar,
        cs: &mut ConstraintSystem,
    ) -> (r: Result<(), SynthesisError>)
        requires
            Self::input_fits(*verification_key, input@),
        ensures
            r is Ok,
            final(cs).id() == old(cs).id(),
            final(cs).holds() == (old(cs).holds() && Self::accepts(
                *verification_key,
                input@,
                *proof,
            )),
    {
        let t = Boolean::constant(true);
        Self::conditional_verify(verification_key, input, proof, &t, cs)
    }
}

/// A Groth16 proof: `A` and `C` in the first group, `B` in the second.
pub struct Proof<G1, G2> {
    pub a: G1,
    pub b: G2,
    pub c: G1,
}

/// A Groth16 verifying key; `gamma_abc_g1` holds one point per public input
/// after a constant term.
pub struct VerifyingKey<G1, G2> {
    pub alpha_g1: G1,
    pub beta_g2: G2,
    pub gamma_g2: G2,
    pub delta_g2: G2,
    pub gamma_abc_g1: Vec<G1>,
}

/// A Groth16 verifying key with `e(α, β)` computed and `γ`, `δ` negated and
/// prepared.
pub struct PreparedVerifyingKey<G1, G2P, GT> {
    pub alpha_g1_beta_g2: GT,
    pub gamma_g2_neg_pc: G2P,
    pub delta_g2_neg_pc: G2P,
    pub gamma_abc_g1: Vec<G1>,
}

/// A proof held in circuit variables.
pub struct ProofVar<P: PairingVar> {
    pub a: P::G1Var,
    pub b: P::G2Var,
    pub c: P::G1Var,
}

/// A verifying key held in circuit variables.
pub struct VerifyingKeyVar<P: PairingVar> {
    pub alpha_g1: P::G1Var,
    pub beta_g2: P::G2Var,
    pub gamma_g2: P::G2Var,
    pub delta_g2: P::G2Var,
    pub gamma_abc_g1: Vec<P::G1Var>,
}

/// A prepared verifying key held in circuit variables.
pub struct PreparedVerifyingKeyVar<P: PairingVar> {
    pub alpha_g1_beta_g2: P::GTVar,
    pub gamma_g2_neg_pc: P::G2PreparedVar,
    pub delta_g2_neg_pc: P::G2PreparedVar,
    pub gamma_abc_g1: Vec<P::G1Var>,
}

/// The discrete logarithms of a sequence of point variables.
pub open spec fn dlogs<G: GroupOpsBounds>(s: Seq<G>) -> Seq<nat> {
    s.map_values(|g: G| g.dlog())
}

/// The numbers that the public inputs stand for, each little-endian.
pub open spec fn input_values(input: Seq<Vec<Boolean>>) -> Seq<nat> {
    input.map_values(|v: Vec<Boolean>| le_value(bool_values(v@)))
}

/// `abc[0] + Σ xs[i]·abc[i + 1]` over the first `n` inputs.
pub open spec fn input_sum(abc: Seq<nat>, xs: Seq<nat>, n: nat) -> nat
    decreases n,
{
    if n == 0 {
        abc[0]
    } else {
        input_sum(abc, xs, (n - 1) as nat) + xs[n - 1] * abc[n as int]
    }
}

/// The input commitment `IC` in the group of order `r`.
pub open spec fn input_commitment(r: nat, abc: Seq<nat>, xs: Seq<nat>) -> nat {
    input_sum(abc, xs, xs.len()) % r
}

/// The Groth16 equation `e(A, B) = e(α, β)·e(IC, γ)·e(C, δ)`, in discrete
/// logarithms modulo `r`.
pub open spec fn groth16_equation(
    r: nat,
    alpha: nat,
    beta: nat,
    gamma: nat,
    delta: nat,
    ic: nat,
    a: nat,
    b: nat,
    c: nat,
) -> bool {
    (a * b) % r == (alpha * beta + ic * gamma + c * delta) % r
}

/// The fused check `e(A, B)·e(IC, −γ)·e(C, −δ) = e(α, β)` over a prepared
/// key holding `ab = α·β`, `ng = −γ` and `nd = −δ`.
pub open spec fn prepared_equation(
    r: nat,
    ab: nat,
    ng: nat,
    nd: nat,
    ic: nat,
    a: nat,
    b: nat,
    c: nat,
) -> bool {
    (a * b + ic * ng + c * nd) % r == ab
}

/// `−x` modulo `r`.
pub open spec fn neg_mod(x: nat, r: nat) -> nat {
    ((r - x) % (r as int)) as nat
}

impl<P: PairingVar> VerifyingKeyVar<P> {
    /// The discrete logarithms of `γ_abc`.
    pub open spec fn abc(&self) -> Seq<nat> {
        dlogs(self.gamma_abc_g1@)
    }

    /// Whether `pvk` is this key prepared: `e(α, β)`, `−γ`, `−δ` and the
    /// same `γ_abc`.
    pub open spec fn prepared_as(&self, pvk: PreparedVerifyingKeyVar<P>) -> bool {
        &&& P::gt_dlog(pvk.alpha_g1_beta_g2) == (self.alpha_g1.dlog() * self.beta_g2.dlog())
            % P::order()
        &&& P::g2_prepared_dlog(pvk.gamma_g2_neg_pc) == neg_mod(self.gamma_g2.dlog(), P::order())
        &&& P::g2_prepared_dlog(pvk.delta_g2_neg_pc) == neg_mod(self.delta_g2.dlog(), P::order())
        &&& pvk.abc() == self.abc()
    }

    /// Computes `e(α, β)` and the prepared `−γ`, `−δ` once, for any number of
    /// later checks.
    pub fn prepare(&self) -> (r: Result<PreparedVerifyingKeyVar<P>, SynthesisError>)
        ensures
            r matches Result::Ok(pvk) && self.prepared_as(pvk),
    {
        proof {
            P::lemma_orders();
        }
        let alpha_g1_pc = P::prepare_g1(&self.alpha_g1)?;
        let beta_g2_pc = P::prepare_g2(&self.beta_g2)?;

        let alpha_g1_beta_g2 = P::pairing(alpha_g1_pc, beta_g2_pc)?;
        let gamma_neg = self.gamma_g2.negate()?;
        let gamma_g2_neg_pc = P::prepare_g2(&gamma_neg)?;
        let delta_neg = self.delta_g2.negate()?;
        let delta_g2_neg_pc = P::prepare_g2(&delta_neg)?;

        let gamma_abc_g1 = duplicate_all(&self.gamma_abc_g1);
        let pvk = PreparedVerifyingKeyVar {
            alpha_g1_beta_g2,
            gamma_g2_neg_pc,
            delta_g2_neg_pc,
            gamma_abc_g1,
        };
        proof {
            assert(pvk.abc() =~= self.abc());
        }
        Ok(pvk)
    }
}

impl<P: PairingVar> PreparedVerifyingKeyVar<P> {
    /// The discrete logarithms of `γ_abc`.
    pub open spec fn abc(&self) -> Seq<nat> {
        dlogs(self.gamma_abc_g1@)
    }

    /// Whether every part of this key carries the handle `h`.
    pub open spec fn allocated_as(&self, h: ConstraintSystemRef) -> bool {
        &&& self.alpha_g1_beta_g2.cs_spec() == Option::Some(h)
        &&& self.gamma_g2_neg_pc.cs_spec() == Option::Some(h)
        &&& self.delta_g2_neg_pc.cs_spec() == Option::Some(h)
        &&& forall|i: int|
            0 <= i < self.gamma_abc_g1@.len() ==> (#[trigger] self.gamma_abc_g1@[i]).cs_spec()
                == Option::Some(h)
    }

    /// Whether this key holds the native prepared key `k`.
    pub open spec fn holds_native(
        &self,
        k: PreparedVerifyingKey<G1Native<P>, P::G2PreparedNative, P::GTNative>,
    ) -> bool {
        &&& P::gt_dlog(self.alpha_g1_beta_g2) == P::gt_native_dlog(k.alpha_g1_beta_g2)
        &&& P::g2_prepared_dlog(self.gamma_g2_neg_pc) == P::g2_prepared_native_dlog(k.gamma_g2_neg_pc)
        &&& P::g2_prepared_dlog(self.delta_g2_neg_pc) == P::g2_prepared_native_dlog(k.delta_g2_neg_pc)
        &&& self.abc() == native_dlogs::<P::G1Var>(k.gamma_abc_g1@)
    }

    /// Allocates the prepared key that `f` produces, every part in mode
    /// `mode`; the failure of `f` is handed back unchanged.
    pub fn new_variable<F: FnOnce() -> Result<PreparedVerifyingKey<G1Native<P>, P::G2PreparedNative, P::GTNative>, SynthesisError>>(
        cs: &ConstraintSystem,
        f: F,
        mode: AllocationMode,
    ) -> (r: Result<PreparedVerifyingKeyVar<P>, SynthesisError>)
        requires
            f.requires(()),
        ensures
            match r {
                Result::Ok(v) => v.allocated_as(alloc_handle(cs, mode)) && exists|
                    k: PreparedVerifyingKey<G1Native<P>, P::G2PreparedNative, P::GTNative>,
                |
                    f.ensures((), Result::Ok(k)) && v.holds_native(k),
                Result::Err(e) => f.ensures((), Result::Err(e)),
            },
    {
        let produced = f();
        match produced {
            Ok(pvk) => {
                let ghost k = pvk;
                let PreparedVerifyingKey {
                    alpha_g1_beta_g2,
                    gamma_g2_neg_pc,
                    delta_g2_neg_pc,
                    gamma_abc_g1,
                } = pvk;
                let fa = move || -> (r: Result<P::GTNative, SynthesisError>)
                    ensures
                        r == Result::<P::GTNative, SynthesisError>::Ok(alpha_g1_beta_g2),
                    { Ok(alpha_g1_beta_g2) };
                let alpha_g1_beta_g2 = P::new_gt(cs, fa, mode)?;
                let fg = move || -> (r: Result<P::G2PreparedNative, SynthesisError>)
                    ensures
                        r == Result::<P::G2PreparedNative, SynthesisError>::Ok(gamma_g2_neg_pc),
                    { Ok(gamma_g2_neg_pc) };
                let gamma_g2_neg_pc = P::new_g2_prepared(cs, fg, mode)?;
                let fd = move || -> (r: Result<P::G2PreparedNative, SynthesisError>)
                    ensures
                        r == Result::<P::G2PreparedNative, SynthesisError>::Ok(delta_g2_neg_pc),
                    { Ok(delta_g2_neg_pc) };
                let delta_g2_neg_pc = P::new_g2_prepared(cs, fd, mode)?;
                let gamma_abc_g1 = alloc_points::<P::G1Var>(cs, &gamma_abc_g1, mode)?;
                let r: Result<PreparedVerifyingKeyVar<P>, SynthesisError> = Ok(
                    PreparedVerifyingKeyVar {
                        alpha_g1_beta_g2,
                        gamma_g2_neg_pc,
                        delta_g2_neg_pc,
                        gamma_abc_g1,
                    },
                );
                assert(r matches Result::Ok(v) && f.ensures((), Result::Ok(k)) && v.holds_native(k) && v.allocated_as(
                    alloc_handle(cs, mode),
                ));
                r
            },
            Err(e) => Err(e),
        }
    }
}

/// The native point type of the first group of `P`.
pub type G1Native<P> = <<P as PairingVar>::G1Var as GroupOpsBounds>::Native;

/// The native point type of the second group of `P`.
pub type G2Native<P> = <<P as PairingVar>::G2Var as GroupOpsBounds>::Native;

/// The discrete logarithms of a sequence of native points.
pub open spec fn native_dlogs<G: GroupOpsBounds>(s: Seq<G::Native>) -> Seq<nat> {
    s.map_values(|p: G::Native| G::native_dlog(p))
}

impl<P: PairingVar> VerifyingKeyVar<P> {
    /// The canonical encoding of the key: `α`, `β`, `γ`, `δ` and then each
    /// point of `γ_abc`, one after another.
    pub open spec fn encoding(&self) -> Seq<u8> {
        P::G1Var::encoding(self.alpha_g1.dlog()) + P::G2Var::encoding(self.beta_g2.dlog())
            + P::G2Var::encoding(self.gamma_g2.dlog()) + P::G2Var::encoding(self.delta_g2.dlog())
            + encodings::<P::G1Var>(self.gamma_abc_g1@)
    }

    /// Whether every point of this key carries the handle `h`.
    pub open spec fn allocated_as(&self, h: ConstraintSystemRef) -> bool {
        &&& self.alpha_g1.cs_spec() == Option::Some(h)
        &&& self.beta_g2.cs_spec() == Option::Some(h)
        &&& self.gamma_g2.cs_spec() == Option::Some(h)
        &&& self.delta_g2.cs_spec() == Option::Some(h)
        &&& forall|i: int|
            0 <= i < self.gamma_abc_g1@.len() ==> (#[trigger] self.gamma_abc_g1@[i]).cs_spec()
                == Option::Some(h)
    }

    /// Whether this key holds the native key `k`.
    pub open spec fn holds_native(&self, k: VerifyingKey<G1Native<P>, G2Native<P>>) -> bool {
        &&& self.alpha_g1.dlog() == P::G1Var::native_dlog(k.alpha_g1)
        &&& self.beta_g2.dlog() == P::G2Var::native_dlog(k.beta_g2)
        &&& self.gamma_g2.dlog() == P::G2Var::native_dlog(k.gamma_g2)
        &&& self.delta_g2.dlog() == P::G2Var::native_dlog(k.delta_g2)
        &&& self.abc() == native_dlogs::<P::G1Var>(k.gamma_abc_g1@)
    }

    /// Allocates the key that `f` produces, every point in mode `mode`; the
    /// failure of `f` is handed back unchanged.
    pub fn new_variable<F: FnOnce() -> Result<VerifyingKey<G1Native<P>, G2Native<P>>, SynthesisError>>(
        cs: &ConstraintSystem,
        f: F,
        mode: AllocationMode,
    ) -> (r: Result<VerifyingKeyVar<P>, SynthesisError>)
        requires
            f.requires(()),
        ensures
            match r {
                Result::Ok(v) => v.allocated_as(alloc_handle(cs, mode)) && exists|
                    k: VerifyingKey<G1Native<P>, G2Native<P>>,
                |
                    f.ensures((), Result::Ok(k)) && v.holds_native(k),
                Result::Err(e) => f.ensures((), Result::Err(e)),
            },
    {
        let produced = f();
        match produced {
            Ok(vk) => {
                let ghost k = vk;
                let alpha_g1 = alloc_point::<P::G1Var>(cs, vk.alpha_g1, mode)?;
                let beta_g2 = alloc_point::<P::G2Var>(cs, vk.beta_g2, mode)?;
                let gamma_g2 = alloc_point::<P::G2Var>(cs, vk.gamma_g2, mode)?;
                let delta_g2 = alloc_point::<P::G2Var>(cs, vk.delta_g2, mode)?;
                let gamma_abc_g1 = alloc_points::<P::G1Var>(cs, &vk.gamma_abc_g1, mode)?;
                let r: Result<VerifyingKeyVar<P>, SynthesisError> = Ok(
                    VerifyingKeyVar { alpha_g1, beta_g2, gamma_g2, delta_g2, gamma_abc_g1 },
                );
                assert(r matches Result::Ok(v) && f.ensures((), Result::Ok(k)) && v.holds_native(k) && v.allocated_as(
                    alloc_handle(cs, mode),
                ));
                r
            },
            Err(e) => Err(e),
        }
    }

    /// The canonical encoding of the key: `α`, `β`, `γ`, `δ` and then each
    /// point of `γ_abc`, one after another.
    pub fn to_bytes(&self) -> (r: Result<Vec<UInt8>, SynthesisError>)
        ensures
            r matches Result::Ok(v) && v@.map_values(|b: UInt8| b.val()) == self.encoding(),
    {
        let mut bytes: Vec<UInt8> = Vec::new();
        let mut part = self.alpha_g1.to_bytes()?;
        bytes.append(&mut part);
        let mut part = self.beta_g2.to_bytes()?;
        bytes.append(&mut part);
        let mut part = self.gamma_g2.to_bytes()?;
        bytes.append(&mut part);
        let mut part = self.delta_g2.to_bytes()?;
        bytes.append(&mut part);
        let ghost head = bytes@.map_values(|b: UInt8| b.val());
        let mut i: usize = 0;
        while i < self.gamma_abc_g1.len()
            invariant
                i <= self.gamma_abc_g1.len(),
                bytes@.map_values(|b: UInt8| b.val()) == head + encodings::<P::G1Var>(
                    self.gamma_abc_g1@.take(i as int),
                ),
            decreases self.gamma_abc_g1.len() - i,
        {
            let mut part = self.gamma_abc_g1[i].to_bytes()?;
            proof {
                assert(self.gamma_abc_g1@.take(i as int + 1).drop_last() =~= self.gamma_abc_g1@.take(
                    i as int,
                ));
            }
            let ghost before = bytes@;
            bytes.append(&mut part);
            proof {
                assert(bytes@.map_values(|b: UInt8| b.val()) =~= before.map_values(|b: UInt8| b.val())
                    + P::G1Var::encoding(self.gamma_abc_g1@[i as int].dlog()));
            }
            i = i + 1;
        }
        proof {
            assert(self.gamma_abc_g1@.take(self.gamma_abc_g1@.len() as int) =~= self.gamma_abc_g1@);
        }
        Ok(bytes)
    }
}

/// The canonical encodings of a sequence of points, one after another.
pub open spec fn encodings<G: CurveVar>(s: Seq<G>) -> Seq<u8>
    decreases s.len(),
{
    if s.len() == 0 {
        Seq::empty()
    } else {
        encodings::<G>(s.drop_last()) + G::encoding(s.last().dlog())
    }
}

/// A sequence of points has a fixed-length encoding per point.
pub proof fn lemma_encodings_len<G: CurveVar>(s: Seq<G>)
    ensures
        encodings::<G>(s).len() == s.len() * G::encoding_len(),
    decreases s.len(),
{
    G::lemma_encoding_len(0);
    if s.len() > 0 {
        lemma_encodings_len::<G>(s.drop_last());
        G::lemma_encoding_len(s.last().dlog());
        assert((s.len() - 1) * G::encoding_len() + G::encoding_len() == s.len() * G::encoding_len())
            by (nonlinear_arith);
    }
}

/// Equal encodings of equally long point sequences hold the same points.
pub proof fn lemma_encodings_unique<G: CurveVar>(s: Seq<G>, t: Seq<G>)
    requires
        s.len() == t.len(),
        encodings::<G>(s) == encodings::<G>(t),
    ensures
        dlogs(s) == dlogs(t),
    decreases s.len(),
{
    if s.len() > 0 {
        let (s1, t1) = (s.drop_last(), t.drop_last());
        lemma_encodings_len::<G>(s1);
        lemma_encodings_len::<G>(t1);
        let n = encodings::<G>(s1).len() as int;
        let es = encodings::<G>(s);
        assert(es.subrange(0, n) =~= encodings::<G>(s1));
        assert(encodings::<G>(t).subrange(0, n) =~= encodings::<G>(t1));
        assert(es.subrange(n, es.len() as int) =~= G::encoding(s.last().dlog()));
        assert(encodings::<G>(t).subrange(n, es.len() as int) =~= G::encoding(t.last().dlog()));
        lemma_encodings_unique::<G>(s1, t1);
        s.last().lemma_dlog_bound();
        t.last().lemma_dlog_bound();
        G::lemma_encoding_unique(s.last().dlog(), t.last().dlog());
        assert(dlogs(s) =~= dlogs(t)) by {
            assert(dlogs(s1) == dlogs(t1));
            assert forall|i: int| 0 <= i < s.len() implies dlogs(s)[i] == dlogs(t)[i] by {
                if i < s.len() - 1 {
                    assert(dlogs(s1)[i] == dlogs(t1)[i]);
                }
            }
        }
    }
}

/// The key encoding is canonical: two keys with the same bytes hold the
/// same points, and as many of them.
pub proof fn lemma_key_encoding_unique<P: PairingVar>(k1: VerifyingKeyVar<P>, k2: VerifyingKeyVar<P>)
    requires
        k1.encoding() == k2.encoding(),
    ensures
        k1.alpha_g1.dlog() == k2.alpha_g1.dlog(),
        k1.beta_g2.dlog() == k2.beta_g2.dlog(),
        k1.gamma_g2.dlog() == k2.gamma_g2.dlog(),
        k1.delta_g2.dlog() == k2.delta_g2.dlog(),
        k1.abc() == k2.abc(),
{
    let l1 = P::G1Var::encoding_len() as int;
    let l2 = P::G2Var::encoding_len() as int;
    P::G1Var::lemma_encoding_len(k1.alpha_g1.dlog());
    P::G1Var::lemma_encoding_len(k2.alpha_g1.dlog());
    P::G2Var::lemma_encoding_len(k1.beta_g2.dlog());
    P::G2Var::lemma_encoding_len(k2.beta_g2.dlog());
    P::G2Var::lemma_encoding_len(k1.gamma_g2.dlog());
    P::G2Var::lemma_encoding_len(k2.gamma_g2.dlog());
    P::G2Var::lemma_encoding_len(k1.delta_g2.dlog());
    P::G2Var::lemma_encoding_len(k2.delta_g2.dlog());
    lemma_encodings_len::<P::G1Var>(k1.gamma_abc_g1@);
    lemma_encodings_len::<P::G1Var>(k2.gamma_abc_g1@);
    let e1 = k1.encoding();
    let e2 = k2.encoding();
    let n1 = k1.gamma_abc_g1@.len() as int;
    let n2 = k2.gamma_abc_g1@.len() as int;
    assert(encodings::<P::G1Var>(k1.gamma_abc_g1@).len() == n1 * l1);
    assert(encodings::<P::G1Var>(k2.gamma_abc_g1@).len() == n2 * l1);
    assert(e1.len() == l1 + 3 * l2 + n1 * l1);
    assert(e2.len() == l1 + 3 * l2 + n2 * l1);
    assert(n1 * l1 == n2 * l1);
    assert(n1 == n2) by (nonlinear_arith)
        requires n1 * l1 == n2 * l1, l1 > 0;
    let h = l1 + 3 * l2;
    assert(e1.subrange(0, l1) =~= P::G1Var::encoding(k1.alpha_g1.dlog()));
    assert(e2.subrange(0, l1) =~= P::G1Var::encoding(k2.alpha_g1.dlog()));
    assert(e1.subrange(l1, l1 + l2) =~= P::G2Var::encoding(k1.beta_g2.dlog()));
    assert(e2.subrange(l1, l1 + l2) =~= P::G2Var::encoding(k2.beta_g2.dlog()));
    assert(e1.subrange(l1 + l2, l1 + 2 * l2) =~= P::G2Var::encoding(k1.gamma_g2.dlog()));
    assert(e2.subrange(l1 + l2, l1 + 2 * l2) =~= P::G2Var::encoding(k2.gamma_g2.dlog()));
    assert(e1.subrange(l1 + 2 * l2, h) =~= P::G2Var::encoding(k1.delta_g2.dlog()));
    assert(e2.subrange(l1 + 2 * l2, h) =~= P::G2Var::encoding(k2.delta_g2.dlog()));
    assert(e1.subrange(h, e1.len() as int) =~= encodings::<P::G1Var>(k1.gamma_abc_g1@));
    assert(e2.subrange(h, e2.len() as int) =~= encodings::<P::G1Var>(k2.gamma_abc_g1@));
    k1.alpha_g1.lemma_dlog_bound();
    k2.alpha_g1.lemma_dlog_bound();
    k1.beta_g2.lemma_dlog_bound();
    k2.beta_g2.lemma_dlog_bound();
    k1.gamma_g2.lemma_dlog_bound();
    k2.gamma_g2.lemma_dlog_bound();
    k1.delta_g2.lemma_dlog_bound();
    k2.delta_g2.lemma_dlog_bound();
    P::G1Var::lemma_encoding_unique(k1.alpha_g1.dlog(), k2.alpha_g1.dlog());
    P::G2Var::lemma_encoding_unique(k1.beta_g2.dlog(), k2.beta_g2.dlog());
    P::G2Var::lemma_encoding_unique(k1.gamma_g2.dlog(), k2.gamma_g2.dlog());
    P::G2Var::lemma_encoding_unique(k1.delta_g2.dlog(), k2.delta_g2.dlog());
    lemma_encodings_unique::<P::G1Var>(k1.gamma_abc_g1@, k2.gamma_abc_g1@);
}

impl<P: PairingVar> ProofVar<P> {
    /// Whether every point of this proof carries the handle `h`.
    pub open spec fn allocated_as(&self, h: ConstraintSystemRef) -> bool {
        &&& self.a.cs_spec() == Option::Some(h)
        &&& self.b.cs_spec() == Option::Some(h)
        &&& self.c.cs_spec() == Option::Some(h)
    }

    /// Whether this proof holds the native proof `k`.
    pub open spec fn holds_native(&self, k: Proof<G1Native<P>, G2Native<P>>) -> bool {
        &&& self.a.dlog() == P::G1Var::native_dlog(k.a)
        &&& self.b.dlog() == P::G2Var::native_dlog(k.b)
        &&& self.c.dlog() == P::G1Var::native_dlog(k.c)
    }

    /// Allocates the proof that `f` produces, every point in mode `mode`;
    /// the failure of `f` is handed back unchanged.
    pub fn new_variable<F: FnOnce() -> Result<Proof<G1Native<P>, G2Native<P>>, SynthesisError>>(
        cs: &ConstraintSystem,
        f: F,
        mode: AllocationMode,
    ) -> (r: Result<ProofVar<P>, SynthesisError>)
        requires
            f.requires(()),
        ensures
            match r {
                Result::Ok(v) => v.allocated_as(alloc_handle(cs, mode)) && exists|
                    k: Proof<G1Native<P>, G2Native<P>>,
                |
                    f.ensures((), Result::Ok(k)) && v.holds_native(k),
                Result::Err(e) => f.ensures((), Result::Err(e)),
            },
    {
        let produced = f();
        match produced {
            Ok(proof) => {
                let ghost k = proof;
                let a = alloc_point::<P::G1Var>(cs, proof.a, mode)?;
                let b = alloc_point::<P::G2Var>(cs, proof.b, mode)?;
                let c = alloc_point::<P::G1Var>(cs, proof.c, mode)?;
                let r: Result<ProofVar<P>, SynthesisError> = Ok(ProofVar { a, b, c });
                assert(r matches Result::Ok(v) && f.ensures((), Result::Ok(k)) && v.holds_native(k) && v.allocated_as(
                    alloc_handle(cs, mode),
                ));
                r
            },
            Err(e) => Err(e),
        }
    }
}

/// New variables for the same points, in order.
pub fn duplicate_all<G: GroupOpsBounds>(v: &Vec<G>) -> (r: Vec<G>)
    ensures
        dlogs(r@) == dlogs(v@),
{
    let mut out: Vec<G> = Vec::new();
    let mut i: usize = 0;
    while i < v.len()
        invariant
            i <= v.len(),
            out.len() == i,
            forall|j: int| 0 <= j < i ==> #[trigger] out[j].dlog() == v[j].dlog(),
        decreases v.len() - i,
    {
        out.push(v[i].duplicate());
        i = i + 1;
    }
    assert(dlogs(out@) =~= dlogs(v@));
    out
}

/// The Groth16 verifier gadget over the pairing family `P`.
pub struct Groth16VerifierGadget<P: PairingVar> {
    _pairing: core::marker::PhantomData<P>,
}

impl<P: PairingVar> NIZKVerifierGadget for Groth16VerifierGadget<P> {
    type PreparedVerificationKeyVar = PreparedVerifyingKeyVar<P>;
    type VerificationKeyVar = VerifyingKeyVar<P>;
    type ProofVar = ProofVar<P>;

    open spec fn accepts(vk: VerifyingKeyVar<P>, input: Seq<Vec<Boolean>>, proof: ProofVar<P>) -> bool {
        groth16_equation(
            P::order(),
            vk.alpha_g1.dlog(),
            vk.beta_g2.dlog(),
            vk.gamma_g2.dlog(),
            vk.delta_g2.dlog(),
            input_commitment(P::order(), vk.abc(), input_values(input)),
            proof.a.dlog(),
            proof.b.dlog(),
            proof.c.dlog(),
        )
    }

    open spec fn accepts_prepared(
        pvk: PreparedVerifyingKeyVar<P>,
        input: Seq<Vec<Boolean>>,
        proof: ProofVar<P>,
    ) -> bool {
        prepared_equation(
            P::order(),
            P::gt_dlog(pvk.alpha_g1_beta_g2),
            P::g2_prepared_dlog(pvk.gamma_g2_neg_pc),
            P::g2_prepared_dlog(pvk.delta_g2_neg_pc),
            input_commitment(P::order(), pvk.abc(), input_values(input)),
            proof.a.dlog(),
            proof.b.dlog(),
            proof.c.dlog(),
        )
    }

    open spec fn input_fits(vk: VerifyingKeyVar<P>, input: Seq<Vec<Boolean>>) -> bool {
        vk.gamma_abc_g1.len() == input.len() + 1
    }

    open spec fn input_fits_prepared(pvk: PreparedVerifyingKeyVar<P>, input: Seq<Vec<Boolean>>) -> bool {
        pvk.gamma_abc_g1.len() == input.len() + 1
    }

    fn conditional_verify(
        verification_key: &VerifyingKeyVar<P>,
        input: &[Vec<Boolean>],
        proof: &ProofVar<P>,
        condition: &Boolean,
        cs: &mut ConstraintSystem,
    ) -> (r: Result<(), SynthesisError>) {
        let pvk = verification_key.prepare()?;
        proof {
            lemma_prepared_equation_matches::<P>(*verification_key, pvk, input@, *proof);
            assert(pvk.abc().len() == pvk.gamma_abc_g1@.len());
            assert(verification_key.abc().len() == verification_key.gamma_abc_g1@.len());
        }
        Self::conditional_verify_prepared(&pvk, input, proof, condition, cs)
    }

    fn conditional_verify_prepared(
        prepared_verification_key: &PreparedVerifyingKeyVar<P>,
        input: &[Vec<Boolean>],
        proof: &ProofVar<P>,
        condition: &Boolean,
        cs: &mut ConstraintSystem,
    ) -> (r: Result<(), SynthesisError>) {
        let pvk = prepared_verification_key;
        let public_inputs = input;
        let ghost m = P::order();
        let ghost abc = pvk.abc();
        let ghost xs = input_values(public_inputs@);
        proof {
            // One point per input after the constant term.
            assert(Self::input_fits_prepared(*pvk, input@));
            assert(pvk.gamma_abc_g1.len() == input@.len() + 1);
            P::lemma_orders();
            pvk.gamma_abc_g1[0].lemma_dlog_bound();
            lemma_small_mod(abc[0], m);
        }
        let mut g_ic = pvk.gamma_abc_g1[0].duplicate();
        let mut i: usize = 0;
        while i < public_inputs.len()
            invariant
                m == P::order(),
                m > 1,
                <P::G1Var as GroupOpsBounds>::order() == m,
                abc == pvk.abc(),
                xs == input_values(public_inputs@),
                pvk.gamma_abc_g1.len() == public_inputs.len() + 1,
                i <= public_inputs.len(),
                g_ic.dlog() == input_sum(abc, xs, i as nat) % m,
            decreases public_inputs.len() - i,
        {
            let b = &pvk.gamma_abc_g1[i + 1];
            let encoded_input_i = b.mul_bits(public_inputs[i].as_slice())?;
            proof {
                let s = input_sum(abc, xs, i as nat);
                let t = xs[i as int] * abc[i + 1];
                assert(xs[i as int] == le_value(bool_values(public_inputs@[i as int]@)));
                lemma_mul_mod_noop_right(xs[i as int] as int, abc[i + 1] as int, m as int);
                b.lemma_dlog_bound();
                lemma_small_mod(abc[i + 1], m);
                lemma_add_mod_noop(s as int, t as int, m as int);
                lemma_mod_twice_add(s as int, t as int, m as int);
            }
            g_ic = g_ic.add_var(&encoded_input_i);
            i = i + 1;
        }
        let proof_a_prep = P::prepare_g1(&proof.a)?;
        let proof_b_prep = P::prepare_g2(&proof.b)?;
        let proof_c_prep = P::prepare_g1(&proof.c)?;
        let g_ic_prep = P::prepare_g1(&g_ic)?;
        let ps = vec![proof_a_prep, g_ic_prep, proof_c_prep];
        let qs = vec![
            proof_b_prep,
            P::duplicate_g2_prepared(&pvk.gamma_g2_neg_pc),
            P::duplicate_g2_prepared(&pvk.delta_g2_neg_pc),
        ];
        let test_exp = P::miller_loop(ps.as_slice(), qs.as_slice())?;
        proof {
            let pd = ps@.map_values(|x: P::G1PreparedVar| P::g1_prepared_dlog(x));
            let qd = qs@.map_values(|y: P::G2PreparedVar| P::g2_prepared_dlog(y));
            assert(pd[0] == proof.a.dlog());
            assert(pd[1] == g_ic.dlog());
            assert(pd[2] == proof.c.dlog());
            assert(qd[0] == proof.b.dlog());
            assert(qd[1] == P::g2_prepared_dlog(pvk.gamma_g2_neg_pc));
            assert(qd[2] == P::g2_prepared_dlog(pvk.delta_g2_neg_pc));
            reveal_with_fuel(pairing_sum, 4);
        }
        let test = P::final_exponentiation(&test_exp)?;
        P::gt_conditional_enforce_equal(&test, &pvk.alpha_g1_beta_g2, condition, cs)?;
        Ok(())
    }
}

/// Preparing is deterministic: two preparations of one key accept exactly
/// the same inputs and proofs in every later prepared check.
pub proof fn lemma_prepare_idempotent<P: PairingVar>(
    vk: VerifyingKeyVar<P>,
    pvk1: PreparedVerifyingKeyVar<P>,
    pvk2: PreparedVerifyingKeyVar<P>,
    input: Seq<Vec<Boolean>>,
    proof: ProofVar<P>,
)
    requires
        vk.prepared_as(pvk1),
        vk.prepared_as(pvk2),
    ensures
        Groth16VerifierGadget::<P>::accepts_prepared(pvk1, input, proof)
            == Groth16VerifierGadget::<P>::accepts_prepared(pvk2, input, proof),
        Groth16VerifierGadget::<P>::input_fits_prepared(pvk1, input)
            == Groth16VerifierGadget::<P>::input_fits_prepared(pvk2, input),
{
    assert(pvk1.abc().len() == pvk1.gamma_abc_g1@.len());
    assert(pvk2.abc().len() == pvk2.gamma_abc_g1@.len());
}

/// Whether `b` is `a` with bit `k` of input `i` flipped.
pub open spec fn flips_one_bit(a: Seq<Vec<Boolean>>, b: Seq<Vec<Boolean>>, i: int, k: int) -> bool {
    &&& a.len() == b.len()
    &&& 0 <= i < a.len()
    &&& 0 <= k < a[i]@.len()
    &&& forall|j: int| 0 <= j < a.len() && j != i ==> bool_values(#[trigger] b[j]@) == bool_values(a[j]@)
    &&& bool_values(b[i]@) == bool_values(a[i]@).update(k, !bool_values(a[i]@)[k])
}

/// A flipped input bit is caught: where `proof` verifies for `input` and
/// `flipped` differs from it in bit `k` of input `i`, `proof` does not
/// verify for `flipped` — unless the change `2^k·γ_abc[i + 1]·γ` vanishes
/// modulo the group order, where no check could tell the inputs apart.
pub proof fn lemma_flipped_bit_rejected<P: PairingVar>(
    vk: VerifyingKeyVar<P>,
    input: Seq<Vec<Boolean>>,
    flipped: Seq<Vec<Boolean>>,
    proof: ProofVar<P>,
    i: int,
    k: int,
)
    requires
        Groth16VerifierGadget::<P>::input_fits(vk, input),
        flips_one_bit(input, flipped, i, k),
        (pow2(k as nat) * vk.abc()[i + 1] * vk.gamma_g2.dlog()) % P::order() != 0,
        Groth16VerifierGadget::<P>::accepts(vk, input, proof),
    ensures
        !Groth16VerifierGadget::<P>::accepts(vk, flipped, proof),
{
    P::lemma_orders();
    let m = P::order() as int;
    let abc = vk.abc();
    let xs = input_values(input);
    let ys = input_values(flipped);
    let bits = bool_values(input[i]@);
    lemma_le_value_flip(bits, k);
    let x2 = le_value(bits.update(k, !bits[k]));
    assert(ys =~= xs.update(i, x2));
    assert(abc.len() == vk.gamma_abc_g1@.len());
    lemma_input_sum_update(abc, xs, i, x2, xs.len());
    let ic = input_sum(abc, xs, xs.len()) as int;
    let ic2 = input_sum(abc, ys, ys.len()) as int;
    let w = pow2(k as nat) as int * abc[i + 1] as int;
    assert(ic2 - ic == w || ic2 - ic == -w) by (nonlinear_arith)
        requires
            ic2 == ic + (x2 as int - xs[i] as int) * abc[i + 1] as int,
            x2 as int - xs[i] as int == pow2(k as nat) as int || x2 as int - xs[i] as int == -(pow2(
                k as nat,
            ) as int),
            w == pow2(k as nat) as int * abc[i + 1] as int;
    let g = vk.gamma_g2.dlog() as int;
    let d = (ic2 - ic) * g;
    assert(d == w * g || d == -(w * g)) by (nonlinear_arith)
        requires d == (ic2 - ic) * g, ic2 - ic == w || ic2 - ic == -w;
    assert(w * g == pow2(k as nat) * abc[i + 1] * vk.gamma_g2.dlog());
    if d == -(w * g) {
        vstd::arithmetic::div_mod::lemma_mod_bound(w * g, m);
        lemma_neg_mod_nonzero(w * g, m);
    }
    assert(d % m != 0);
    let base = (vk.alpha_g1.dlog() * vk.beta_g2.dlog() + proof.c.dlog() * vk.delta_g2.dlog()) as int;
    let t1 = (ic % m) * g;
    let t2 = (ic2 % m) * g;
    lemma_mul_mod_noop_left(ic, g, m);
    lemma_mul_mod_noop_left(ic2, g, m);
    lemma_congruence_shift(t1, t2, base, m);
    lemma_congruence_shift(ic * g, ic2 * g, -(ic * g), m);
    assert(ic2 * g - ic * g == d) by (nonlinear_arith)
        requires d == (ic2 - ic) * g;
    assert(ic * g + -(ic * g) == 0);
    vstd::arithmetic::div_mod::lemma_small_mod(0, m as nat);
    assert(input_commitment(P::order(), abc, ys) == (ic2 % m) as nat);
    assert(input_commitment(P::order(), abc, xs) == (ic % m) as nat);
    assert(t1 + base == (vk.alpha_g1.dlog() * vk.beta_g2.dlog() + (ic % m) as nat * g + proof.c.dlog()
        * vk.delta_g2.dlog()) as int);
}

/// A residue that is not zero stays not zero when negated.
proof fn lemma_neg_mod_nonzero(x: int, m: int)
    requires
        m > 0,
        x % m != 0,
    ensures
        (-x) % m != 0,
{
    vstd::arithmetic::div_mod::lemma_fundamental_div_mod(x, m);
    vstd::arithmetic::div_mod::lemma_fundamental_div_mod(-x, m);
    vstd::arithmetic::div_mod::lemma_mod_bound(x, m);
    vstd::arithmetic::div_mod::lemma_mod_bound(-x, m);
    if (-x) % m == 0 {
        vstd::arithmetic::div_mod::lemma_mod_multiples_vanish(-((-x) / m), 0, m);
        assert(x == m * (-((-x) / m))) by (nonlinear_arith)
            requires -x == m * ((-x) / m) + 0;
        vstd::arithmetic::div_mod::lemma_mod_multiples_basic(-((-x) / m), m);
        assert(m * (-((-x) / m)) == (-((-x) / m)) * m) by (nonlinear_arith);
    }
}

/// Flipping bit `k` moves a little-endian value by `2^k`.
pub proof fn lemma_le_value_flip(bits: Seq<bool>, k: int)
    requires
        0 <= k < bits.len(),
    ensures
        le_value(bits.update(k, !bits[k])) as int == le_value(bits) as int + if bits[k] {
            -(pow2(k as nat) as int)
        } else {
            pow2(k as nat) as int
        },
    decreases bits.len(),
{
    let f = bits.update(k, !bits[k]);
    if k < bits.len() - 1 {
        lemma_le_value_flip(bits.drop_last(), k);
        assert(f.drop_last() =~= bits.drop_last().update(k, !bits[k]));
    } else {
        assert(f.drop_last() =~= bits.drop_last());
    }
}

/// Changing input `i` to `x` moves the input sum by `(x − xs[i])·abc[i + 1]`.
pub proof fn lemma_input_sum_update(abc: Seq<nat>, xs: Seq<nat>, i: int, x: nat, n: nat)
    requires
        0 <= i < xs.len(),
        n <= xs.len(),
    ensures
        input_sum(abc, xs.update(i, x), n) as int == input_sum(abc, xs, n) as int + if i < n {
            (x as int - xs[i] as int) * abc[i + 1] as int
        } else {
            0
        },
    decreases n,
{
    if n > 0 {
        lemma_input_sum_update(abc, xs, i, x, (n - 1) as nat);
        if i == n - 1 {
            assert((x as int) * abc[i + 1] as int - (xs[i] as int) * abc[i + 1] as int == (x as int
                - xs[i] as int) * abc[i + 1] as int) by (nonlinear_arith);
        }
    }
}

/// `((s % m) + t) % m == (s + t) % m`.
proof fn lemma_mod_twice_add(s: int, t: int, m: int)
    requires
        m > 0,
    ensures
        ((s % m) + t) % m == (s + t) % m,
{
    lemma_add_mod_noop(s % m, t, m);
    vstd::arithmetic::div_mod::lemma_mod_twice(s, m);
    lemma_add_mod_noop(s, t, m);
}

/// On a key and its preparation, the fused check and the Groth16 equation
/// agree.
pub proof fn lemma_prepared_equation_matches<P: PairingVar>(
    vk: VerifyingKeyVar<P>,
    pvk: PreparedVerifyingKeyVar<P>,
    input: Seq<Vec<Boolean>>,
    proof: ProofVar<P>,
)
    requires
        vk.prepared_as(pvk),
    ensures
        Groth16VerifierGadget::<P>::accepts_prepared(pvk, input, proof)
            == Groth16VerifierGadget::<P>::accepts(vk, input, proof),
{
    P::lemma_orders();
    vk.gamma_g2.lemma_dlog_bound();
    vk.delta_g2.lemma_dlog_bound();
    let m = P::order();
    let ic = input_commitment(m, vk.abc(), input_values(input));
    assert(input_commitment(m, pvk.abc(), input_values(input)) == ic);
    lemma_fused_equation(
        m,
        vk.alpha_g1.dlog(),
        vk.beta_g2.dlog(),
        vk.gamma_g2.dlog(),
        vk.delta_g2.dlog(),
        ic,
        proof.a.dlog(),
        proof.b.dlog(),
        proof.c.dlog(),
    );
}

/// The fused check over `−γ`, `−δ` and `α·β` is the Groth16 equation.
pub proof fn lemma_fused_equation(
    m: nat,
    alpha: nat,
    beta: nat,
    gamma: nat,
    delta: nat,
    ic: nat,
    a: nat,
    b: nat,
    c: nat,
)
    requires
        m > 1,
        gamma < m,
        delta < m,
    ensures
        prepared_equation(m, (alpha * beta) % m, neg_mod(gamma, m), neg_mod(delta, m), ic, a, b, c)
            == groth16_equation(m, alpha, beta, gamma, delta, ic, a, b, c),
{
    let mi = m as int;
    let x = (a * b) as int;
    let y = (alpha * beta) as int;
    let ng = neg_mod(gamma, m) as int;
    let nd = neg_mod(delta, m) as int;
    let g = gamma as int;
    let d = delta as int;
    let i = ic as int;
    let ci = c as int;
    // The fused left side equals x − i·γ − c·δ modulo m.
    lemma_mul_mod_noop_right(i, mi - g, mi);
    lemma_mul_mod_noop_right(ci, mi - d, mi);
    assert(i * (mi - g) == mi * i + (-(i * g))) by (nonlinear_arith);
    assert(ci * (mi - d) == mi * ci + (-(ci * d))) by (nonlinear_arith);
    lemma_mod_multiples_vanish(i, -(i * g), mi);
    lemma_mod_multiples_vanish(ci, -(ci * d), mi);
    let u = x + i * ng + ci * nd;
    let v = x - i * g - ci * d;
    lemma_add_mod_noop(x + i * ng, ci * nd, mi);
    lemma_add_mod_noop(x, i * ng, mi);
    lemma_add_mod_noop(x - i * g, -(ci * d), mi);
    lemma_add_mod_noop(x, -(i * g), mi);
    assert(u % mi == v % mi);
    // Moving the two terms across keeps the congruence.
    lemma_mod_bound(y, mi);
    lemma_small_mod((y % mi) as nat, m);
    lemma_congruence_shift(v, y, i * g + ci * d, mi);
    assert(v + (i * g + ci * d) == x);
}

/// Adding the same `z` to both sides keeps, and only keeps, a congruence.
pub proof fn lemma_congruence_shift(x: int, y: int, z: int, m: int)
    requires
        m > 0,
    ensures
        (x % m == y % m) == ((x + z) % m == (y + z) % m),
{
    lemma_add_mod_noop(x, z, m);
    lemma_add_mod_noop(y, z, m);
    lemma_add_mod_noop(x + z, -z, m);
    lemma_add_mod_noop(y + z, -z, m);
    assert(x + z + (-z) == x);
    assert(y + z + (-z) == y);
    vstd::arithmetic::div_mod::lemma_mod_twice(x, m);
    vstd::arithmetic::div_mod::lemma_mod_twice(y, m);
}

} // verus!
