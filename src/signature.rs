//! Schnorr public keys in a circuit, and their re-randomization.
use vstd::prelude::*;
use crate::boolean::{bytes_bits_le, le_value, Boolean, UInt8};
use crate::groups::{alloc_point, CurveVar};
use crate::recursion::bytes_to_bits_le;
use crate::r1cs::{AllocationMode, ConstraintSystem, SynthesisError};

verus! {

/// Native Schnorr parameters: the generator.
pub struct SchnorrParameters<N> {
    pub generator: N,
}

/// The Schnorr parameters held in a circuit variable.
pub struct ParametersVar<G: CurveVar> {
    pub generator: G,
}

/// A Schnorr public key held in a circuit variable.
pub struct PublicKeyVar<G: CurveVar> {
    pub pub_key: G,
}

/// The gadget that re-randomizes Schnorr public keys.
pub struct SchnorrRandomizePkGadget<G: CurveVar> {
    _group: core::marker::PhantomData<G>,
}

impl<G: CurveVar> ParametersVar<G> {
    /// Allocates the generator of the parameters that `f` produces; the
    /// failure of `f` is handed back unchanged.
    pub fn new_variable<F: FnOnce() -> Result<SchnorrParameters<G::Native>, SynthesisError>>(
        cs: &ConstraintSystem,
        f: F,
        mode: AllocationMode,
    ) -> (r: Result<ParametersVar<G>, SynthesisError>)
        requires
            f.requires(()),
        ensures
            match r {
                Result::Ok(v) => exists|p: SchnorrParameters<G::Native>|
                    f.ensures((), Result::Ok(p)) && v.generator.dlog() == G::native_dlog(p.generator),
                Result::Err(e) => f.ensures((), Result::Err(e)),
            },
    {
        let produced = f();
        match produced {
            Ok(p) => {
                let ghost k = p;
                let generator = alloc_point::<G>(cs, p.generator, mode)?;
                let r: Result<ParametersVar<G>, SynthesisError> = Ok(ParametersVar { generator });
                assert(r matches Result::Ok(v) && f.ensures((), Result::Ok(k))
                    && v.generator.dlog() == G::native_dlog(k.generator));
                r
            },
            Err(e) => Err(e),
        }
    }
}

impl<G: CurveVar> PublicKeyVar<G> {
    /// Allocates the public key that `f` produces; the failure of `f` is
    /// handed back unchanged.
    pub fn new_variable<F: FnOnce() -> Result<G::Native, SynthesisError>>(
        cs: &ConstraintSystem,
        f: F,
        mode: AllocationMode,
    ) -> (r: Result<PublicKeyVar<G>, SynthesisError>)
        requires
            f.requires(()),
        ensures
            match r {
                Result::Ok(v) => exists|p: G::Native|
                    f.ensures((), Result::Ok(p)) && v.pub_key.dlog() == G::native_dlog(p),
                Result::Err(e) => f.ensures((), Result::Err(e)),
            },
    {
        let pub_key = G::new_variable(cs, f, mode)?;
        Ok(PublicKeyVar { pub_key })
    }

    /// A boolean that is true exactly when the two keys are equal.
    pub fn is_eq(&self, other: &PublicKeyVar<G>) -> (r: Result<Boolean, SynthesisError>)
        ensures
            r matches Result::Ok(b) && b.val() == (self.pub_key.dlog() == other.pub_key.dlog()),
    {
        self.pub_key.is_eq(&other.pub_key)
    }

    /// Records that the two keys are equal where `condition` holds.
    pub fn conditional_enforce_equal(
        &self,
        other: &PublicKeyVar<G>,
        condition: &Boolean,
        cs: &mut ConstraintSystem,
    ) -> (r: Result<(), SynthesisError>)
        ensures
            r is Ok,
            final(cs).id() == old(cs).id(),
            final(cs).holds() == (old(cs).holds() && (condition.val() ==> self.pub_key.dlog()
                == other.pub_key.dlog())),
    {
        self.pub_key.conditional_enforce_equal(&other.pub_key, condition, cs)
    }

    /// Records that the two keys differ where `condition` holds.
    pub fn conditional_enforce_not_equal(
        &self,
        other: &PublicKeyVar<G>,
        condition: &Boolean,
        cs: &mut ConstraintSystem,
    ) -> (r: Result<(), SynthesisError>)
        ensures
            r is Ok,
            final(cs).id() == old(cs).id(),
            final(cs).holds() == (old(cs).holds() && (condition.val() ==> self.pub_key.dlog()
                != other.pub_key.dlog())),
    {
        self.pub_key.conditional_enforce_not_equal(&other.pub_key, condition, cs)
    }

    /// The canonical encoding of the key.
    pub fn to_bytes(&self) -> (r: Result<Vec<UInt8>, SynthesisError>)
        ensures
            r matches Result::Ok(v) && v@.map_values(|b: UInt8| b.val()) == G::encoding(
                self.pub_key.dlog(),
            ),
    {
        self.pub_key.to_bytes()
    }
}

impl<G: CurveVar> SchnorrRandomizePkGadget<G> {
    /// The key `pk + ρ·g`, where `ρ` is the randomness read little-endian.
    pub fn randomize(
        parameters: &ParametersVar<G>,
        public_key: &PublicKeyVar<G>,
        randomness: &[UInt8],
    ) -> (r: Result<PublicKeyVar<G>, SynthesisError>)
        ensures
            r matches Result::Ok(v) && v.pub_key.dlog() == (public_key.pub_key.dlog() + (le_value(
                bytes_bits_le(randomness@.map_values(|b: UInt8| b.val())),
            ) * parameters.generator.dlog()) % G::order()) % G::order(),
    {
        let randomness_bits = bytes_to_bits_le(randomness);
        let scaled = parameters.generator.mul_bits(randomness_bits.as_slice())?;
        let rand_pk = public_key.pub_key.add_var(&scaled);
        Ok(PublicKeyVar { pub_key: rand_pk })
    }
}

} // verus!
