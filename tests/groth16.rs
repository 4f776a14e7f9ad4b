use r1cs_gadgets::boolean::Boolean;
use r1cs_gadgets::dlog::{DlogPairing, DLOG_ORDER};
use r1cs_gadgets::nizk::{
    Groth16VerifierGadget, NIZKVerifierGadget, PreparedVerifyingKey, PreparedVerifyingKeyVar,
    Proof, ProofVar, VerifyingKey, VerifyingKeyVar,
};
use r1cs_gadgets::r1cs::{AllocationMode, ConstraintSystem, ConstraintSystemRef, R1CSVar, SynthesisError};

type TestVerifierGadget = Groth16VerifierGadget<DlogPairing>;
type TestProofVar = ProofVar<DlogPairing>;
type TestVkVar = VerifyingKeyVar<DlogPairing>;

const R: u64 = DLOG_ORDER;

/// A small deterministic generator of test values.
struct TestRng(u64);

impl TestRng {
    fn next(&mut self) -> u64 {
        self.0 = self.0.wrapping_mul(6364136223846793005).wrapping_add(1442695040888963407);
        (self.0 >> 33) % R
    }
}

fn mul(a: u64, b: u64) -> u64 {
    ((a as u128 * b as u128) % R as u128) as u64
}

fn add(a: u64, b: u64) -> u64 {
    (a + b) % R
}

fn pow(mut b: u64, mut e: u64) -> u64 {
    let mut acc = 1u64;
    while e > 0 {
        if e & 1 == 1 {
            acc = mul(acc, b);
        }
        b = mul(b, b);
        e >>= 1;
    }
    acc
}

fn inv(a: u64) -> u64 {
    pow(a, R - 2)
}

/// A verifying key of random points.
fn setup(num_inputs: usize, rng: &mut TestRng) -> VerifyingKey<u64, u64> {
    let mut gamma_abc_g1 = Vec::new();
    for _ in 0..num_inputs + 1 {
        gamma_abc_g1.push(rng.next());
    }
    VerifyingKey {
        alpha_g1: rng.next(),
        beta_g2: rng.next(),
        gamma_g2: rng.next() | 1,
        delta_g2: rng.next() | 1,
        gamma_abc_g1,
    }
}

/// A proof that meets the Groth16 equation for `inputs` under `vk`.
fn prove(vk: &VerifyingKey<u64, u64>, inputs: &[u64], rng: &mut TestRng) -> Proof<u64, u64> {
    let mut ic = vk.gamma_abc_g1[0];
    for (i, x) in inputs.iter().enumerate() {
        ic = add(ic, mul(*x % R, vk.gamma_abc_g1[i + 1]));
    }
    let a = rng.next();
    let b = rng.next();
    let ab = mul(a, b);
    let rhs = add(mul(vk.alpha_g1, vk.beta_g2), mul(ic, vk.gamma_g2));
    let c = mul((ab + R - rhs) % R, inv(vk.delta_g2));
    Proof { a, b, c }
}

fn bits_le(x: u64, n: usize) -> Vec<bool> {
    (0..n).map(|i| (x >> i) & 1 == 1).collect()
}

fn input_vars(cs: &ConstraintSystem, inputs: &[u64]) -> Vec<Vec<Boolean>> {
    inputs
        .iter()
        .map(|x| Boolean::new_input_vec(cs, &bits_le(*x, 64)))
        .collect()
}

#[test]
fn groth16_verifier_test() {
    let num_inputs = 100;
    let rng = &mut TestRng(7);
    let mut inputs: Vec<u64> = Vec::with_capacity(num_inputs);
    for _ in 0..num_inputs {
        inputs.push(rng.next());
    }
    let vk = setup(num_inputs, rng);
    let proof = prove(&vk, &inputs, rng);

    let mut cs = ConstraintSystem::new_ref(1);
    let input_gadgets = input_vars(&cs, &inputs);
    let vk_gadget = TestVkVar::new_variable(&cs, || Ok(vk), AllocationMode::Input).unwrap();
    let proof_gadget =
        TestProofVar::new_variable(&cs, || Ok(proof), AllocationMode::Witness).unwrap();
    TestVerifierGadget::verify(&vk_gadget, &input_gadgets, &proof_gadget, &mut cs).unwrap();
    assert!(cs.is_satisfied().unwrap());
}

#[test]
fn groth16_flipped_input_bit_fails() {
    let rng = &mut TestRng(11);
    let inputs: Vec<u64> = (0..4).map(|_| rng.next()).collect();
    let vk = setup(inputs.len(), rng);
    let proof = prove(&vk, &inputs, rng);
    for (i, bit) in [(0usize, 0usize), (2, 5), (3, 30)] {
        let mut cs = ConstraintSystem::new_ref(2);
        let mut input_gadgets = input_vars(&cs, &inputs);
        let flipped = !input_gadgets[i][bit].value().unwrap();
        input_gadgets[i][bit] = Boolean::new_input(&cs, || Ok(flipped)).unwrap();
        let vk_gadget = TestVkVar::new_variable(&cs, || Ok(vk_clone(&vk)), AllocationMode::Input)
            .unwrap();
        let proof_gadget = TestProofVar::new_variable(
            &cs,
            || Ok(Proof { a: proof.a, b: proof.b, c: proof.c }),
            AllocationMode::Witness,
        )
        .unwrap();
        TestVerifierGadget::verify(&vk_gadget, &input_gadgets, &proof_gadget, &mut cs).unwrap();
        assert!(!cs.is_satisfied().unwrap());
    }
}

fn vk_clone(vk: &VerifyingKey<u64, u64>) -> VerifyingKey<u64, u64> {
    VerifyingKey {
        alpha_g1: vk.alpha_g1,
        beta_g2: vk.beta_g2,
        gamma_g2: vk.gamma_g2,
        delta_g2: vk.delta_g2,
        gamma_abc_g1: vk.gamma_abc_g1.clone(),
    }
}

#[test]
fn conditional_verify_false_keeps_satisfied() {
    let rng = &mut TestRng(13);
    let inputs: Vec<u64> = (0..3).map(|_| rng.next()).collect();
    let vk = setup(inputs.len(), rng);
    let bad = Proof { a: 1, b: 2, c: 3 };
    let mut cs = ConstraintSystem::new_ref(3);
    let input_gadgets = input_vars(&cs, &inputs);
    let vk_gadget = TestVkVar::new_variable(&cs, || Ok(vk), AllocationMode::Input).unwrap();
    let proof_gadget = TestProofVar::new_variable(&cs, || Ok(bad), AllocationMode::Witness).unwrap();
    let no = Boolean::constant(false);
    TestVerifierGadget::conditional_verify(&vk_gadget, &input_gadgets, &proof_gadget, &no, &mut cs)
        .unwrap();
    assert!(cs.is_satisfied().unwrap());
    let yes = Boolean::constant(true);
    TestVerifierGadget::conditional_verify(&vk_gadget, &input_gadgets, &proof_gadget, &yes, &mut cs)
        .unwrap();
    assert!(!cs.is_satisfied().unwrap());
}

#[test]
fn conditional_verify_true_matches_verify() {
    let rng = &mut TestRng(17);
    let inputs: Vec<u64> = (0..3).map(|_| rng.next()).collect();
    let vk = setup(inputs.len(), rng);
    let proof = prove(&vk, &inputs, rng);
    let mut cs1 = ConstraintSystem::new_ref(4);
    let mut cs2 = ConstraintSystem::new_ref(5);
    let i1 = input_vars(&cs1, &inputs);
    let i2 = input_vars(&cs2, &inputs);
    let vk1 = TestVkVar::new_variable(&cs1, || Ok(vk_clone(&vk)), AllocationMode::Input).unwrap();
    let vk2 = TestVkVar::new_variable(&cs2, || Ok(vk_clone(&vk)), AllocationMode::Input).unwrap();
    let p1 = TestProofVar::new_variable(&cs1, || Ok(Proof { a: proof.a, b: proof.b, c: proof.c }), AllocationMode::Witness).unwrap();
    let p2 = TestProofVar::new_variable(&cs2, || Ok(Proof { a: proof.a, b: proof.b, c: proof.c }), AllocationMode::Witness).unwrap();
    TestVerifierGadget::verify(&vk1, &i1, &p1, &mut cs1).unwrap();
    let yes = Boolean::constant(true);
    TestVerifierGadget::conditional_verify(&vk2, &i2, &p2, &yes, &mut cs2).unwrap();
    assert!(cs1.is_satisfied().unwrap());
    assert_eq!(cs1.is_satisfied().unwrap(), cs2.is_satisfied().unwrap());
}

#[test]
fn prepare_twice_behaves_identically() {
    let rng = &mut TestRng(19);
    let inputs: Vec<u64> = (0..2).map(|_| rng.next()).collect();
    let vk = setup(inputs.len(), rng);
    let good = prove(&vk, &inputs, rng);
    let cs0 = ConstraintSystem::new_ref(6);
    let vk_gadget = TestVkVar::new_variable(&cs0, || Ok(vk), AllocationMode::Witness).unwrap();
    let pvk1 = vk_gadget.prepare().unwrap();
    let pvk2 = vk_gadget.prepare().unwrap();
    for proof in [Proof { a: good.a, b: good.b, c: good.c }, Proof { a: 5, b: 6, c: 7 }] {
        let mut outcomes = Vec::new();
        for pvk in [&pvk1, &pvk2] {
            let mut cs = ConstraintSystem::new_ref(7);
            let i = input_vars(&cs, &inputs);
            let p = TestProofVar::new_variable(&cs, || Ok(Proof { a: proof.a, b: proof.b, c: proof.c }), AllocationMode::Witness).unwrap();
            let yes = Boolean::constant(true);
            TestVerifierGadget::conditional_verify_prepared(pvk, &i, &p, &yes, &mut cs).unwrap();
            outcomes.push(cs.is_satisfied().unwrap());
        }
        assert_eq!(outcomes[0], outcomes[1]);
    }
}

#[test]
fn prepared_key_allocated_natively_verifies() {
    let rng = &mut TestRng(23);
    let inputs: Vec<u64> = (0..2).map(|_| rng.next()).collect();
    let vk = setup(inputs.len(), rng);
    let proof = prove(&vk, &inputs, rng);
    let native = PreparedVerifyingKey {
        alpha_g1_beta_g2: mul(vk.alpha_g1, vk.beta_g2),
        gamma_g2_neg_pc: (R - vk.gamma_g2) % R,
        delta_g2_neg_pc: (R - vk.delta_g2) % R,
        gamma_abc_g1: vk.gamma_abc_g1.clone(),
    };
    let mut cs = ConstraintSystem::new_ref(8);
    let pvk = PreparedVerifyingKeyVar::<DlogPairing>::new_variable(&cs, || Ok(native), AllocationMode::Input)
        .unwrap();
    let i = input_vars(&cs, &inputs);
    let p = TestProofVar::new_variable(&cs, || Ok(proof), AllocationMode::Witness).unwrap();
    let yes = Boolean::constant(true);
    TestVerifierGadget::conditional_verify_prepared(&pvk, &i, &p, &yes, &mut cs).unwrap();
    assert!(cs.is_satisfied().unwrap());
}

#[test]
fn proof_allocation_hands_back_failure() {
    let cs = ConstraintSystem::new_ref(9);
    let r = TestProofVar::new_variable(
        &cs,
        || -> Result<Proof<u64, u64>, SynthesisError> { Err(SynthesisError::AssignmentMissing) },
        AllocationMode::Witness,
    );
    assert!(matches!(r, Err(SynthesisError::AssignmentMissing)));
    let r = TestVkVar::new_variable(
        &cs,
        || -> Result<VerifyingKey<u64, u64>, SynthesisError> { Err(SynthesisError::AssignmentMissing) },
        AllocationMode::Input,
    );
    assert!(matches!(r, Err(SynthesisError::AssignmentMissing)));
}

#[test]
fn verifying_key_bytes_are_the_concatenated_encodings() {
    let cs = ConstraintSystem::new_ref(10);
    let vk = VerifyingKey { alpha_g1: 1, beta_g2: 256, gamma_g2: 65536, delta_g2: 0x01020304, gamma_abc_g1: vec![7, 0x7fff_fffe] };
    let v = TestVkVar::new_variable(&cs, || Ok(vk), AllocationMode::Constant).unwrap();
    let bytes: Vec<u8> = v.to_bytes().unwrap().iter().map(|b| b.value().unwrap()).collect();
    assert_eq!(
        bytes,
        vec![1, 0, 0, 0, 0, 1, 0, 0, 0, 0, 1, 0, 4, 3, 2, 1, 7, 0, 0, 0, 0xfe, 0xff, 0xff, 0x7f]
    );
    // A key that differs in one point, or in the number of points, has other bytes.
    let other = VerifyingKey { alpha_g1: 1, beta_g2: 256, gamma_g2: 65536, delta_g2: 0x01020304, gamma_abc_g1: vec![7, 0x7fff_fffd] };
    let w = TestVkVar::new_variable(&cs, || Ok(other), AllocationMode::Constant).unwrap();
    let other_bytes: Vec<u8> = w.to_bytes().unwrap().iter().map(|b| b.value().unwrap()).collect();
    assert_ne!(bytes, other_bytes);
    let shorter = VerifyingKey { alpha_g1: 1, beta_g2: 256, gamma_g2: 65536, delta_g2: 0x01020304, gamma_abc_g1: vec![7] };
    let u = TestVkVar::new_variable(&cs, || Ok(shorter), AllocationMode::Constant).unwrap();
    assert_eq!(u.to_bytes().unwrap().len(), bytes.len() - 4);
}

#[test]
fn keys_and_proofs_take_the_requested_mode() {
    let cs = ConstraintSystem::new_ref(11);
    let vk = VerifyingKey { alpha_g1: 1, beta_g2: 2, gamma_g2: 3, delta_g2: 4, gamma_abc_g1: vec![5, 6] };
    let v = TestVkVar::new_variable(&cs, || Ok(vk), AllocationMode::Input).unwrap();
    for p in [&v.alpha_g1, &v.beta_g2, &v.gamma_g2, &v.delta_g2, &v.gamma_abc_g1[0], &v.gamma_abc_g1[1]] {
        assert_eq!(p.cs(), Some(ConstraintSystemRef::Handle(11)));
    }
    let proof = TestProofVar::new_variable(&cs, || Ok(Proof { a: 1, b: 2, c: 3 }), AllocationMode::Constant)
        .unwrap();
    assert!(proof.a.is_constant() && proof.b.is_constant() && proof.c.is_constant());
    let native = PreparedVerifyingKey { alpha_g1_beta_g2: 1, gamma_g2_neg_pc: 2, delta_g2_neg_pc: 3, gamma_abc_g1: vec![4] };
    let pvk = PreparedVerifyingKeyVar::<DlogPairing>::new_variable(&cs, || Ok(native), AllocationMode::Witness)
        .unwrap();
    assert_eq!(pvk.alpha_g1_beta_g2.cs(), Some(ConstraintSystemRef::Handle(11)));
    assert_eq!(pvk.gamma_g2_neg_pc.cs(), Some(ConstraintSystemRef::Handle(11)));
    assert_eq!(pvk.delta_g2_neg_pc.cs(), Some(ConstraintSystemRef::Handle(11)));
    assert_eq!(pvk.gamma_abc_g1[0].cs(), Some(ConstraintSystemRef::Handle(11)));
}
