use r1cs_gadgets::boolean::Boolean;
use r1cs_gadgets::dlog::{DlogPairing, DLOG_ORDER};
use r1cs_gadgets::nizk::{Groth16VerifierGadget, NIZKVerifierGadget, Proof, ProofVar, VerifyingKey, VerifyingKeyVar};
use r1cs_gadgets::r1cs::{AllocationMode, ConstraintSystem};
use r1cs_gadgets::recursion::{
    allocate_packed_inputs, chunks, inputs_to_le_bytes, limb_to_le_bytes, pack_bits_for_field,
};

type TestVerifierGadget = Groth16VerifierGadget<DlogPairing>;
type TestProofVar = ProofVar<DlogPairing>;
type TestVkVar = VerifyingKeyVar<DlogPairing>;

const R: u64 = DLOG_ORDER;

struct TestRng(u64);

impl TestRng {
    fn next_u64(&mut self) -> u64 {
        self.0 = self.0.wrapping_mul(6364136223846793005).wrapping_add(1442695040888963407);
        self.0 ^ (self.0 >> 29)
    }
    fn next(&mut self) -> u64 {
        (self.next_u64() >> 33) % R
    }
}

fn mul(a: u64, b: u64) -> u64 {
    ((a as u128 * b as u128) % R as u128) as u64
}

fn add(a: u64, b: u64) -> u64 {
    (a + b) % R
}

fn inv(a: u64) -> u64 {
    let (mut b, mut e, mut acc) = (a, R - 2, 1u64);
    while e > 0 {
        if e & 1 == 1 {
            acc = mul(acc, b);
        }
        b = mul(b, b);
        e >>= 1;
    }
    acc
}

/// The value modulo the group order of a little-endian bit sequence.
fn bits_value(bits: &[bool]) -> u64 {
    let mut v = 0u64;
    let mut w = 1u64;
    for b in bits {
        if *b {
            v = add(v, w);
        }
        w = mul(w, 2);
    }
    v
}

fn setup(num_inputs: usize, rng: &mut TestRng) -> VerifyingKey<u64, u64> {
    VerifyingKey {
        alpha_g1: rng.next(),
        beta_g2: rng.next(),
        gamma_g2: rng.next() | 1,
        delta_g2: rng.next() | 1,
        gamma_abc_g1: (0..num_inputs + 1).map(|_| rng.next() | 1).collect(),
    }
}

fn prove(vk: &VerifyingKey<u64, u64>, xs: &[u64], rng: &mut TestRng) -> Proof<u64, u64> {
    let mut ic = vk.gamma_abc_g1[0];
    for (i, x) in xs.iter().enumerate() {
        ic = add(ic, mul(*x, vk.gamma_abc_g1[i + 1]));
    }
    let a = rng.next();
    let b = rng.next();
    let rhs = add(mul(vk.alpha_g1, vk.beta_g2), mul(ic, vk.gamma_g2));
    let c = mul((mul(a, b) + R - rhs) % R, inv(vk.delta_g2));
    Proof { a, b, c }
}

fn values(bits: &[Boolean]) -> Vec<bool> {
    bits.iter().map(|b| b.value().unwrap()).collect()
}

/// Inner-field elements of 298 bits, as five 64-bit limbs.
fn inner_inputs(rng: &mut TestRng) -> Vec<Vec<u64>> {
    (0..5)
        .map(|_| {
            let mut limbs: Vec<u64> = (0..5).map(|_| rng.next_u64()).collect();
            limbs[4] &= (1u64 << 42) - 1;
            limbs
        })
        .collect()
}

/// Verifies, in a circuit, a proof whose public inputs are `packed`.
fn verify_packed(packed: &[Vec<Boolean>], corrupt: Option<(usize, usize)>, rng: &mut TestRng) -> bool {
    let xs: Vec<u64> = packed.iter().map(|p| bits_value(&values(p))).collect();
    let vk = setup(xs.len(), rng);
    let proof = prove(&vk, &xs, rng);
    let mut cs = ConstraintSystem::new_ref(30);
    let mut packed = packed.to_vec();
    if let Some((i, j)) = corrupt {
        let flipped = !packed[i][j].value().unwrap();
        packed[i][j] = Boolean::new_input(&cs, || Ok(flipped)).unwrap();
    }
    let vk_gadget = TestVkVar::new_variable(&cs, || Ok(vk), AllocationMode::Witness).unwrap();
    let proof_gadget = TestProofVar::new_variable(&cs, || Ok(proof), AllocationMode::Witness).unwrap();
    TestVerifierGadget::verify(&vk_gadget, &packed, &proof_gadget, &mut cs).unwrap();
    cs.is_satisfied().unwrap()
}

#[test]
fn groth16_recursive_verifier_test() {
    let rng = &mut TestRng(64);
    let inputs = inner_inputs(rng);

    // The middle layer: the inputs' bytes as one stream, cut per element.
    let cs = ConstraintSystem::new_ref(31);
    let input_gadgets = allocate_packed_inputs(&cs, &inputs, 5 * 8, AllocationMode::Input).unwrap();
    assert_eq!(input_gadgets.len(), 5);
    assert!(verify_packed(&input_gadgets, None, rng));

    // The outer layer: each element's big-endian bits, packed under the
    // capacity of the outer field.
    let bigint_size = 5 * 64;
    let mut inputs_be: Vec<Vec<Boolean>> = Vec::new();
    for limbs in &inputs {
        let mut fp_bits: Vec<bool> = Vec::new();
        for i in 0..298 {
            fp_bits.push((limbs[i / 64] >> (i % 64)) & 1 == 1);
        }
        fp_bits.reverse();
        inputs_be.push(Boolean::new_input_vec(&cs, &fp_bits));
    }
    let packed = pack_bits_for_field(&inputs_be, bigint_size, 297, bigint_size);
    assert_eq!(packed.len(), (5 * 320 + 295) / 296);
    for chunk in &packed {
        assert_eq!(chunk.len(), bigint_size);
    }
    assert!(verify_packed(&packed, None, rng));
}

#[test]
fn recursive_corrupted_bit_fails() {
    let rng = &mut TestRng(65);
    let inputs = inner_inputs(rng);
    let cs = ConstraintSystem::new_ref(32);
    let input_gadgets = allocate_packed_inputs(&cs, &inputs, 40, AllocationMode::Input).unwrap();
    assert!(!verify_packed(&input_gadgets, Some((2, 77)), rng));
}

#[test]
fn packed_inputs_stand_for_the_inputs() {
    let rng = &mut TestRng(66);
    let inputs = inner_inputs(rng);
    let cs = ConstraintSystem::new_ref(33);
    let input_gadgets = allocate_packed_inputs(&cs, &inputs, 40, AllocationMode::Input).unwrap();
    for (limbs, bits) in inputs.iter().zip(input_gadgets.iter()) {
        let bits = values(bits);
        assert_eq!(bits.len(), 320);
        for (k, limb) in limbs.iter().enumerate() {
            for i in 0..64 {
                assert_eq!(bits[64 * k + i], (limb >> i) & 1 == 1);
            }
        }
    }
}

#[test]
fn limb_bytes_are_little_endian() {
    assert_eq!(limb_to_le_bytes(0x0102030405060708), vec![8, 7, 6, 5, 4, 3, 2, 1]);
    assert_eq!(limb_to_le_bytes(0), vec![0; 8]);
    let stream = inputs_to_le_bytes(&[vec![0x0a0b, 0xff], vec![1]]);
    assert_eq!(
        stream,
        vec![0x0b, 0x0a, 0, 0, 0, 0, 0, 0, 0xff, 0, 0, 0, 0, 0, 0, 0, 1, 0, 0, 0, 0, 0, 0, 0]
    );
    assert!(inputs_to_le_bytes(&[]).is_empty());
}

#[test]
fn chunks_cut_in_order() {
    let v = [1u8, 2, 3, 4, 5, 6, 7];
    assert_eq!(chunks(&v, 3), vec![vec![1, 2, 3], vec![4, 5, 6], vec![7]]);
    assert_eq!(chunks(&v, 7), vec![v.to_vec()]);
    assert!(chunks::<u8>(&[], 4).is_empty());
}

#[test]
fn packing_reverses_pads_and_cuts() {
    let t = Boolean::constant(true);
    let f = Boolean::constant(false);
    // Big-endian [1, 0] and [1]; three bits each; eight usable bits; ten
    // bits per element.
    let packed = pack_bits_for_field(&[vec![t, f], vec![t]], 3, 9, 10);
    assert_eq!(packed.len(), 1);
    assert_eq!(
        values(&packed[0]),
        vec![false, true, false, true, false, false, false, false, false, false]
    );
    // Five inputs of four bits: twenty bits cut every eight.
    let ones: Vec<Vec<Boolean>> = (0..5).map(|_| vec![t, t, t, t]).collect();
    let packed = pack_bits_for_field(&ones, 4, 15, 8);
    assert_eq!(packed.len(), 3);
    assert_eq!(values(&packed[2]), vec![true, true, true, true, false, false, false, false]);
}
