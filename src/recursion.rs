//! Moving public inputs between the two fields of a curve cycle.
//!
//! A proof over the inner field has public inputs that are inner-field
//! elements. To check it in a circuit over the outer field, each input is
//! written as its little-endian limbs' bytes, the bytes of all inputs are
//! allocated as one stream, and the stream is cut back into one bit
//! sequence per input: the verifier gadget takes those directly, and no
//! inner-field element is ever rebuilt in the outer circuit.
//!
//! One layer up, many inputs' bits are packed into fewer outer-field
//! elements: each chunk stays within the field's capacity, so that no value
//! wraps around the modulus.
use vstd::prelude::*;
use vstd::arithmetic::power2::{pow2, lemma_pow2_adds, lemma2_to64, lemma_pow2_pos, lemma_pow2_unfold};
use vstd::arithmetic::div_mod::{lemma_div_denominator, lemma_mod_breakdown, lemma_small_mod};
use crate::boolean::{bool_values, byte_bits_le, bytes_bits_le, le_value, Boolean, UInt8};
use crate::r1cs::{AllocationMode, ConstraintSystem, SynthesisError};

verus! {

/// The `j`-th piece of `s` cut into pieces of `n`; the last may be shorter.
pub open spec fn chunk_at<T>(s: Seq<T>, n: nat, j: int) -> Seq<T> {
    let end = if (j + 1) * n <= s.len() {
        (j + 1) * n
    } else {
        s.len() as int
    };
    s.subrange(j * n, end)
}

/// Whether `count` pieces of `n` cover a sequence of length `len` exactly:
/// the smallest such number.
pub open spec fn covers(count: nat, n: nat, len: nat) -> bool {
    &&& count * n >= len
    &&& count > 0 ==> (count - 1) * n < len
}

/// `s` cut into pieces of `n`, in order; the last may be shorter.
pub fn chunks<T: Copy>(s: &[T], n: usize) -> (r: Vec<Vec<T>>)
    requires
        n > 0,
    ensures
        covers(r@.len(), n as nat, s@.len()),
        forall|j: int| 0 <= j < r@.len() ==> #[trigger] r[j]@ == chunk_at(s@, n as nat, j),
{
    let mut out: Vec<Vec<T>> = Vec::new();
    let mut start: usize = 0;
    assert(0 * n == 0);
    while start < s.len()
        invariant
            n > 0,
            start <= s.len(),
            start as int == out.len() * n || (start == s.len() && covers(out@.len(), n as nat, s@.len())),
            start < s.len() ==> start as int == out.len() * n,
            out.len() > 0 ==> (out.len() - 1) * n < s.len(),
            out.len() * n >= start,
            forall|j: int| 0 <= j < out@.len() ==> #[trigger] out[j]@ == chunk_at(s@, n as nat, j),
        decreases s.len() - start,
    {
        let end: usize = if s.len() - start < n {
            s.len()
        } else {
            start + n
        };
        let mut piece: Vec<T> = Vec::new();
        let mut i: usize = start;
        while i < end
            invariant
                start <= i <= end,
                end <= s.len(),
                piece@ == s@.subrange(start as int, i as int),
            decreases end - i,
        {
            piece.push(s[i]);
            i = i + 1;
            assert(piece@ =~= s@.subrange(start as int, i as int));
        }
        proof {
            let j = out.len() as int;
            assert(start as int == j * n);
            assert((j + 1) * n == j * n + n) by (nonlinear_arith);
            assert(piece@ == chunk_at(s@, n as nat, j));
        }
        out.push(piece);
        proof {
            let c = out.len() as int;
            assert(c * n == (c - 1) * n + n) by (nonlinear_arith);
        }
        start = end;
    }
    out
}

/// The eight little-endian bytes of a limb.
pub open spec fn limb_le_bytes(l: u64) -> Seq<u8> {
    Seq::new(8, |i: int| ((l as nat / pow2(8 * i as nat)) % 256) as u8)
}

/// The little-endian bytes of an element given by its little-endian limbs.
pub open spec fn limbs_le_bytes(limbs: Seq<u64>) -> Seq<u8>
    decreases limbs.len(),
{
    if limbs.len() == 0 {
        Seq::empty()
    } else {
        limbs_le_bytes(limbs.drop_last()) + limb_le_bytes(limbs.last())
    }
}

/// The byte stream of a sequence of elements: each element's bytes in turn.
pub open spec fn inputs_le_bytes(inputs: Seq<Vec<u64>>) -> Seq<u8>
    decreases inputs.len(),
{
    if inputs.len() == 0 {
        Seq::empty()
    } else {
        inputs_le_bytes(inputs.drop_last()) + limbs_le_bytes(inputs.last()@)
    }
}

/// The bytes of one limb, least significant first.
pub fn limb_to_le_bytes(l: u64) -> (r: Vec<u8>)
    ensures
        r@ == limb_le_bytes(l),
{
    let mut out: Vec<u8> = Vec::new();
    let mut x: u64 = l;
    let mut i: usize = 0;
    proof {
        lemma2_to64();
        assert(l as nat / 1 == l as nat);
    }
    while i < 8
        invariant
            i <= 8,
            out.len() == i,
            pow2(8) == 256,
            x as nat == l as nat / pow2(8 * i as nat),
            forall|j: int| 0 <= j < i ==> #[trigger] out[j] == ((l as nat / pow2(8 * j as nat)) % 256) as u8,
        decreases 8 - i,
    {
        proof {
            lemma_pow2_adds(8 * i as nat, 8);
            vstd::arithmetic::power2::lemma_pow2_pos(8 * i as nat);
            lemma_div_denominator(l as int, pow2(8 * i as nat) as int, 256);
            assert(8 * (i + 1) as nat == 8 * i as nat + 8);
        }
        out.push((x % 256) as u8);
        x = x / 256;
        i = i + 1;
    }
    assert(out@ =~= limb_le_bytes(l));
    out
}

/// The byte stream of `inputs`, each given by its little-endian limbs.
pub fn inputs_to_le_bytes(inputs: &[Vec<u64>]) -> (r: Vec<u8>)
    ensures
        r@ == inputs_le_bytes(inputs@),
{
    let mut out: Vec<u8> = Vec::new();
    let mut i: usize = 0;
    while i < inputs.len()
        invariant
            i <= inputs.len(),
            out@ == inputs_le_bytes(inputs@.take(i as int)),
        decreases inputs.len() - i,
    {
        let limbs = &inputs[i];
        let ghost before = out@;
        let mut k: usize = 0;
        while k < limbs.len()
            invariant
                k <= limbs.len(),
                out@ == before + limbs_le_bytes(limbs@.take(k as int)),
            decreases limbs.len() - k,
        {
            let mut b = limb_to_le_bytes(limbs[k]);
            proof {
                assert(limbs@.take(k as int + 1).drop_last() =~= limbs@.take(k as int));
            }
            out.append(&mut b);
            proof {
                assert(out@ =~= before + limbs_le_bytes(limbs@.take(k as int + 1)));
            }
            k = k + 1;
        }
        proof {
            assert(limbs@.take(limbs@.len() as int) =~= limbs@);
            assert(inputs@.take(i as int + 1).drop_last() =~= inputs@.take(i as int));
        }
        i = i + 1;
    }
    assert(inputs@.take(inputs@.len() as int) =~= inputs@);
    out
}

/// The little-endian bits of a sequence of byte variables, byte by byte.
pub fn bytes_to_bits_le(bytes: &[UInt8]) -> (r: Vec<Boolean>)
    ensures
        bool_values(r@) == bytes_bits_le(bytes@.map_values(|b: UInt8| b.val())),
{
    let mut out: Vec<Boolean> = Vec::new();
    let mut i: usize = 0;
    while i < bytes.len()
        invariant
            i <= bytes.len(),
            bool_values(out@) == bytes_bits_le(bytes@.take(i as int).map_values(|b: UInt8| b.val())),
        decreases bytes.len() - i,
    {
        let mut bits = bytes[i].into_bits_le();
        let ghost before = out@;
        let ghost added = bits@;
        out.append(&mut bits);
        proof {
            let vals = bytes@.take(i as int + 1).map_values(|b: UInt8| b.val());
            assert(vals.drop_last() =~= bytes@.take(i as int).map_values(|b: UInt8| b.val()));
            assert(bool_values(out@) =~= bool_values(before) + bool_values(added));
        }
        i = i + 1;
    }
    assert(bytes@.take(bytes@.len() as int) =~= bytes@);
    out
}

/// Allocates the inner-field elements `inputs` (each as its little-endian
/// limbs) as one byte stream in mode `mode`, and hands back one bit
/// sequence per `element_size` bytes of it, little-endian.
pub fn allocate_packed_inputs(
    cs: &ConstraintSystem,
    inputs: &[Vec<u64>],
    element_size: usize,
    mode: AllocationMode,
) -> (r: Result<Vec<Vec<Boolean>>, SynthesisError>)
    requires
        element_size > 0,
    ensures
        r matches Result::Ok(v) && covers(v@.len(), element_size as nat, inputs_le_bytes(inputs@).len())
            && forall|j: int|
            0 <= j < v@.len() ==> bool_values(#[trigger] v[j]@) == bytes_bits_le(
                chunk_at(inputs_le_bytes(inputs@), element_size as nat, j),
            ),
{
    let input_bytes = inputs_to_le_bytes(inputs);
    let input_vars = UInt8::new_vec(cs, input_bytes.as_slice(), mode)?;
    let ghost vals = input_vars@.map_values(|b: UInt8| b.val());
    let pieces = chunks(input_vars.as_slice(), element_size);
    let mut out: Vec<Vec<Boolean>> = Vec::new();
    let mut j: usize = 0;
    while j < pieces.len()
        invariant
            j <= pieces.len(),
            out.len() == j,
            vals == inputs_le_bytes(inputs@),
            vals == input_vars@.map_values(|b: UInt8| b.val()),
            element_size > 0,
            covers(pieces@.len(), element_size as nat, input_vars@.len()),
            forall|t: int| 0 <= t < pieces@.len() ==> #[trigger] pieces[t]@ == chunk_at(
                input_vars@,
                element_size as nat,
                t,
            ),
            forall|t: int|
                0 <= t < j ==> bool_values(#[trigger] out[t]@) == bytes_bits_le(
                    chunk_at(vals, element_size as nat, t),
                ),
        decreases pieces.len() - j,
    {
        let bits = bytes_to_bits_le(pieces[j].as_slice());
        proof {
            let c = chunk_at(input_vars@, element_size as nat, j as int);
            let es = element_size as int;
            assert(j * es <= (pieces@.len() - 1) * es) by (nonlinear_arith)
                requires j < pieces@.len(), es > 0;
            assert((j + 1) * es == j * es + es) by (nonlinear_arith);
            assert(vals.len() == input_vars@.len());
            assert(c.map_values(|b: UInt8| b.val()) =~= chunk_at(vals, element_size as nat, j as int));
            assert(pieces[j as int]@.map_values(|b: UInt8| b.val()) =~= chunk_at(
                vals,
                element_size as nat,
                j as int,
            ));
        }
        out.push(bits);
        j = j + 1;
    }
    Ok(out)
}

/// The number a little-endian byte string stands for.
pub open spec fn bytes_value(bs: Seq<u8>) -> nat
    decreases bs.len(),
{
    if bs.len() == 0 {
        0
    } else {
        bytes_value(bs.drop_last()) + pow2((8 * (bs.len() - 1)) as nat) * (bs.last() as nat)
    }
}

/// The number an element given by its little-endian 64-bit limbs stands
/// for.
pub open spec fn limbs_value(limbs: Seq<u64>) -> nat
    decreases limbs.len(),
{
    if limbs.len() == 0 {
        0
    } else {
        limbs_value(limbs.drop_last()) + pow2((64 * (limbs.len() - 1)) as nat) * (limbs.last() as nat)
    }
}

/// Repacking keeps every input: where each input has `num_limbs` limbs and
/// the stream is cut every `8·num_limbs` bytes, piece `j` of the stream is
/// input `j`'s bytes, and its little-endian bits stand for input `j`'s
/// value; there is one piece per input.
pub proof fn lemma_packed_inputs_values(inputs: Seq<Vec<u64>>, num_limbs: nat, j: int)
    requires
        num_limbs > 0,
        forall|i: int| 0 <= i < inputs.len() ==> (#[trigger] inputs[i])@.len() == num_limbs,
        0 <= j < inputs.len(),
    ensures
        chunk_at(inputs_le_bytes(inputs), 8 * num_limbs, j) == limbs_le_bytes(inputs[j]@),
        le_value(bytes_bits_le(chunk_at(inputs_le_bytes(inputs), 8 * num_limbs, j))) == limbs_value(
            inputs[j]@,
        ),
        covers(inputs.len(), 8 * num_limbs, inputs_le_bytes(inputs).len()),
{
    lemma_inputs_chunk(inputs, num_limbs, j);
    lemma_bytes_bits_value(limbs_le_bytes(inputs[j]@));
    lemma_limbs_bytes(inputs[j]@);
    lemma_inputs_len(inputs, num_limbs);
    let n = inputs.len() as int;
    let w = 8 * num_limbs as int;
    assert(n * w >= n * w);
    assert((n - 1) * w < n * w) by (nonlinear_arith)
        requires w > 0, n > 0;
}

/// `le_value(a + b) = le_value(a) + 2^|a|·le_value(b)`.
pub proof fn lemma_le_value_concat(a: Seq<bool>, b: Seq<bool>)
    ensures
        le_value(a + b) == le_value(a) + pow2(a.len()) * le_value(b),
    decreases b.len(),
{
    if b.len() == 0 {
        assert(a + b =~= a);
    } else {
        let b1 = b.drop_last();
        lemma_le_value_concat(a, b1);
        assert((a + b).drop_last() =~= a + b1);
        lemma_pow2_adds(a.len(), (b.len() - 1) as nat);
        let p = pow2(a.len());
        let q = pow2((b.len() - 1) as nat);
        let t: nat = if b.last() {
            q
        } else {
            0
        };
        assert(p * le_value(b1) + p * t == p * (le_value(b1) + t)) by (nonlinear_arith);
        assert((if b.last() {
            p * q
        } else {
            0
        }) == p * t) by (nonlinear_arith)
            requires t == (if b.last() { q } else { 0 });
    }
}

/// The first `n` bits of `x` stand for `x mod 2^n`.
pub proof fn lemma_bits_of_value(x: nat, n: nat)
    ensures
        le_value(Seq::new(n, |i: int| (x / pow2(i as nat)) % 2 == 1)) == x % pow2(n),
    decreases n,
{
    lemma2_to64();
    if n == 0 {
        assert(Seq::new(0, |i: int| (x / pow2(i as nat)) % 2 == 1) =~= Seq::<bool>::empty());
    } else {
        let m = (n - 1) as nat;
        lemma_bits_of_value(x, m);
        let s = Seq::new(n, |i: int| (x / pow2(i as nat)) % 2 == 1);
        assert(s.drop_last() =~= Seq::new(m, |i: int| (x / pow2(i as nat)) % 2 == 1));
        lemma_pow2_pos(m);
        lemma_pow2_unfold(n);
        lemma_mod_breakdown(x as int, pow2(m) as int, 2);
        assert(pow2(m) * 2 == pow2(n));
        let d = (x / pow2(m)) % 2;
        assert(d == 0 || d == 1);
        assert(pow2(m) * d == (if d == 1 { pow2(m) } else { 0 })) by (nonlinear_arith)
            requires d == 0 || d == 1;
    }
}

/// The bits of a byte stand for the byte.
pub proof fn lemma_byte_bits_value(v: u8)
    ensures
        le_value(byte_bits_le(v)) == v,
{
    lemma2_to64();
    lemma_bits_of_value(v as nat, 8);
    assert(byte_bits_le(v) =~= Seq::new(8, |i: int| (v as nat / pow2(i as nat)) % 2 == 1));
    lemma_small_mod(v as nat, 256);
}

/// A byte string has eight bits per byte.
pub proof fn lemma_bytes_bits_len(bs: Seq<u8>)
    ensures
        bytes_bits_le(bs).len() == 8 * bs.len(),
    decreases bs.len(),
{
    if bs.len() > 0 {
        lemma_bytes_bits_len(bs.drop_last());
    }
}

/// The bits of a byte string stand for the string's value.
pub proof fn lemma_bytes_bits_value(bs: Seq<u8>)
    ensures
        le_value(bytes_bits_le(bs)) == bytes_value(bs),
    decreases bs.len(),
{
    if bs.len() > 0 {
        let d = bs.drop_last();
        lemma_bytes_bits_value(d);
        lemma_bytes_bits_len(d);
        lemma_le_value_concat(bytes_bits_le(d), byte_bits_le(bs.last()));
        lemma_byte_bits_value(bs.last());
        assert(8 * d.len() == (8 * (bs.len() - 1)) as nat);
    }
}

/// `bytes_value(a + b) = bytes_value(a) + 2^(8·|a|)·bytes_value(b)`.
pub proof fn lemma_bytes_value_concat(a: Seq<u8>, b: Seq<u8>)
    ensures
        bytes_value(a + b) == bytes_value(a) + pow2(8 * a.len()) * bytes_value(b),
    decreases b.len(),
{
    if b.len() == 0 {
        assert(a + b =~= a);
    } else {
        let b1 = b.drop_last();
        lemma_bytes_value_concat(a, b1);
        assert((a + b).drop_last() =~= a + b1);
        lemma_pow2_adds(8 * a.len(), (8 * (b.len() - 1)) as nat);
        assert((8 * ((a + b).len() - 1)) as nat == 8 * a.len() + (8 * (b.len() - 1)) as nat);
        let p = pow2(8 * a.len());
        let q = pow2((8 * (b.len() - 1)) as nat);
        let l = b.last() as nat;
        assert(p * bytes_value(b1) + (p * q) * l == p * (bytes_value(b1) + q * l))
            by (nonlinear_arith);
    }
}

/// The first `n` base-256 digits of `x` stand for `x mod 2^(8n)`.
pub proof fn lemma_digits_value(x: nat, n: nat)
    ensures
        bytes_value(Seq::new(n, |i: int| ((x / pow2(8 * i as nat)) % 256) as u8)) == x % pow2(8 * n),
    decreases n,
{
    lemma2_to64();
    if n == 0 {
        assert(Seq::new(0, |i: int| ((x / pow2(8 * i as nat)) % 256) as u8) =~= Seq::<u8>::empty());
    } else {
        let m = (n - 1) as nat;
        lemma_digits_value(x, m);
        let s = Seq::new(n, |i: int| ((x / pow2(8 * i as nat)) % 256) as u8);
        assert(s.drop_last() =~= Seq::new(m, |i: int| ((x / pow2(8 * i as nat)) % 256) as u8));
        lemma_pow2_pos(8 * m);
        lemma_pow2_adds(8 * m, 8);
        assert(8 * n == 8 * m + 8);
        lemma_mod_breakdown(x as int, pow2(8 * m) as int, 256);
        assert(s.last() as nat == (x / pow2(8 * m)) % 256);
    }
}

/// A limb string has eight bytes per limb and stands for the limbs' value.
pub proof fn lemma_limbs_bytes(ls: Seq<u64>)
    ensures
        limbs_le_bytes(ls).len() == 8 * ls.len(),
        bytes_value(limbs_le_bytes(ls)) == limbs_value(ls),
    decreases ls.len(),
{
    if ls.len() > 0 {
        let d = ls.drop_last();
        let l = ls.last();
        lemma_limbs_bytes(d);
        lemma_bytes_value_concat(limbs_le_bytes(d), limb_le_bytes(l));
        lemma_digits_value(l as nat, 8);
        lemma2_to64();
        vstd::arithmetic::power2::lemma2_to64_rest();
        lemma_small_mod(l as nat, pow2(64));
        assert(limb_le_bytes(l) =~= Seq::new(8, |i: int| ((l as nat / pow2(8 * i as nat)) % 256) as u8));
        assert(8 * (8 * d.len()) == (64 * (ls.len() - 1)) as nat);
    }
}

/// The stream of inputs of `num_limbs` limbs each has `8·num_limbs` bytes
/// per input.
pub proof fn lemma_inputs_len(inputs: Seq<Vec<u64>>, num_limbs: nat)
    requires
        forall|i: int| 0 <= i < inputs.len() ==> (#[trigger] inputs[i])@.len() == num_limbs,
    ensures
        inputs_le_bytes(inputs).len() == inputs.len() * (8 * num_limbs),
    decreases inputs.len(),
{
    if inputs.len() > 0 {
        let d = inputs.drop_last();
        assert forall|i: int| 0 <= i < d.len() implies (#[trigger] d[i])@.len() == num_limbs by {
            assert(d[i] == inputs[i]);
        }
        lemma_inputs_len(d, num_limbs);
        lemma_limbs_bytes(inputs.last()@);
        let n = inputs.len() as int;
        let w = 8 * num_limbs as int;
        assert((n - 1) * w + w == n * w) by (nonlinear_arith);
    }
}

/// Piece `j` of the stream of inputs of `num_limbs` limbs each is input
/// `j`'s bytes.
pub proof fn lemma_inputs_chunk(inputs: Seq<Vec<u64>>, num_limbs: nat, j: int)
    requires
        num_limbs > 0,
        forall|i: int| 0 <= i < inputs.len() ==> (#[trigger] inputs[i])@.len() == num_limbs,
        0 <= j < inputs.len(),
    ensures
        chunk_at(inputs_le_bytes(inputs), 8 * num_limbs, j) == limbs_le_bytes(inputs[j]@),
    decreases inputs.len(),
{
    let n = inputs.len() as int;
    let w = 8 * num_limbs as int;
    let d = inputs.drop_last();
    assert forall|i: int| 0 <= i < d.len() implies (#[trigger] d[i])@.len() == num_limbs by {
        assert(d[i] == inputs[i]);
    }
    lemma_inputs_len(inputs, num_limbs);
    lemma_inputs_len(d, num_limbs);
    lemma_limbs_bytes(inputs.last()@);
    let prefix = inputs_le_bytes(d);
    let last = limbs_le_bytes(inputs.last()@);
    assert(inputs_le_bytes(inputs) == prefix + last);
    assert((j + 1) * w <= n * w) by (nonlinear_arith)
        requires j < n, w > 0;
    assert((j + 1) * w == j * w + w) by (nonlinear_arith);
    if j == n - 1 {
        assert(j * w == (n - 1) * w);
        assert((n - 1) * w + w == n * w) by (nonlinear_arith);
        assert(chunk_at(prefix + last, w as nat, j) =~= last);
    } else {
        lemma_inputs_chunk(d, num_limbs, j);
        assert((j + 1) * w <= (n - 1) * w) by (nonlinear_arith)
            requires j < n - 1, w > 0;
        assert(chunk_at(prefix + last, w as nat, j) =~= chunk_at(prefix, w as nat, j));
    }
}

/// `n` false bits.
pub open spec fn zeros(n: nat) -> Seq<bool> {
    Seq::new(n, |i: int| false)
}

/// A big-endian bit sequence turned little-endian and zero-padded to
/// `size` bits.
pub open spec fn padded_le(bits_be: Seq<bool>, size: nat) -> Seq<bool> {
    bits_be.reverse() + zeros((size - bits_be.len()) as nat)
}

/// The stream of all inputs' little-endian bits, each padded to `size`.
pub open spec fn padded_stream(inputs_be: Seq<Vec<Boolean>>, size: nat) -> Seq<bool>
    decreases inputs_be.len(),
{
    if inputs_be.len() == 0 {
        Seq::empty()
    } else {
        padded_stream(inputs_be.drop_last(), size) + padded_le(bool_values(inputs_be.last()@), size)
    }
}

/// Piece `j` of `stream` cut into `max` bits, zero-padded to
/// `element_bits`.
pub open spec fn packed_chunk(stream: Seq<bool>, max: nat, element_bits: nat, j: int) -> Seq<bool> {
    let c = chunk_at(stream, max, j);
    c + zeros((element_bits - c.len()) as nat)
}

/// The largest whole number of bytes' worth of bits under `capacity`.
pub open spec fn usable_bits(capacity: nat) -> nat {
    8 * (capacity / 8)
}

/// Packs the inputs' bits into elements of a field with `capacity` usable
/// bits: each input's big-endian bits are turned little-endian and padded
/// to `input_bits`; the stream of all of them is cut into pieces of
/// `8·⌊capacity/8⌋` bits, each padded to `element_bits`.
pub fn pack_bits_for_field(
    inputs_be: &[Vec<Boolean>],
    input_bits: usize,
    capacity: usize,
    element_bits: usize,
) -> (r: Vec<Vec<Boolean>>)
    requires
        forall|i: int| 0 <= i < inputs_be@.len() ==> #[trigger] inputs_be[i]@.len() <= input_bits,
        8 <= capacity,
        usable_bits(capacity as nat) <= element_bits,
    ensures
        covers(
            r@.len(),
            usable_bits(capacity as nat),
            padded_stream(inputs_be@, input_bits as nat).len(),
        ),
        forall|j: int|
            0 <= j < r@.len() ==> bool_values(#[trigger] r[j]@) == packed_chunk(
                padded_stream(inputs_be@, input_bits as nat),
                usable_bits(capacity as nat),
                element_bits as nat,
                j,
            ),
{
    let mut stream: Vec<Boolean> = Vec::new();
    let mut i: usize = 0;
    while i < inputs_be.len()
        invariant
            i <= inputs_be.len(),
            forall|t: int| 0 <= t < inputs_be@.len() ==> #[trigger] inputs_be[t]@.len() <= input_bits,
            bool_values(stream@) == padded_stream(inputs_be@.take(i as int), input_bits as nat),
        decreases inputs_be.len() - i,
    {
        let bits = &inputs_be[i];
        let ghost before = bool_values(stream@);
        let ghost be = bool_values(bits@);
        let n = bits.len();
        let mut k: usize = 0;
        while k < n
            invariant
                n == bits.len(),
                k <= n,
                be == bool_values(bits@),
                bool_values(stream@) == before + be.reverse().take(k as int),
            decreases n - k,
        {
            let ghost prev = bool_values(stream@);
            let b = bits[n - 1 - k];
            stream.push(b);
            proof {
                assert(bool_values(stream@) =~= prev.push(b.val()));
                assert(b.val() == be.reverse()[k as int]);
                assert(bool_values(stream@) =~= before + be.reverse().take(k as int + 1));
            }
            k = k + 1;
        }
        assert(be.reverse().take(n as int) =~= be.reverse());
        let mut k: usize = n;
        while k < input_bits
            invariant
                n <= k <= input_bits || (n > input_bits && k == n),
                n == be.len(),
                n <= input_bits,
                bool_values(stream@) == before + be.reverse() + zeros((k - n) as nat),
            decreases input_bits - k,
        {
            let ghost prev = bool_values(stream@);
            let b = Boolean::constant(false);
            stream.push(b);
            proof {
                assert(bool_values(stream@) =~= prev.push(b.val()));
                assert(bool_values(stream@) =~= before + be.reverse() + zeros((k + 1 - n) as nat));
            }
            k = k + 1;
        }
        proof {
            assert(inputs_be@.take(i as int + 1).drop_last() =~= inputs_be@.take(i as int));
            assert(bool_values(stream@) =~= before + padded_le(be, input_bits as nat));
        }
        i = i + 1;
    }
    assert(inputs_be@.take(inputs_be@.len() as int) =~= inputs_be@);
    let ghost full = bool_values(stream@);
    let max_size: usize = 8 * (capacity / 8);
    let pieces = chunks(stream.as_slice(), max_size);
    let mut out: Vec<Vec<Boolean>> = Vec::new();
    let mut j: usize = 0;
    while j < pieces.len()
        invariant
            j <= pieces.len(),
            out.len() == j,
            max_size == usable_bits(capacity as nat),
            max_size > 0,
            max_size <= element_bits,
            full == bool_values(stream@),
            covers(pieces@.len(), max_size as nat, stream@.len()),
            forall|t: int| 0 <= t < pieces@.len() ==> #[trigger] pieces[t]@ == chunk_at(
                stream@,
                max_size as nat,
                t,
            ),
            forall|t: int|
                0 <= t < j ==> bool_values(#[trigger] out[t]@) == packed_chunk(
                    full,
                    max_size as nat,
                    element_bits as nat,
                    t,
                ),
        decreases pieces.len() - j,
    {
        let mut piece: Vec<Boolean> = pieces[j].clone();
        let ghost c = chunk_at(full, max_size as nat, j as int);
        proof {
            let ms = max_size as int;
            assert(j * ms <= (pieces@.len() - 1) * ms) by (nonlinear_arith)
                requires j < pieces@.len(), ms > 0;
            assert((j + 1) * ms == j * ms + ms) by (nonlinear_arith);
            assert(bool_values(piece@) =~= c);
        }
        let len = piece.len();
        let mut k: usize = len;
        while k < element_bits
            invariant
                len == c.len(),
                len <= max_size,
                max_size <= element_bits,
                len <= k <= element_bits,
                bool_values(piece@) == c + zeros((k - len) as nat),
            decreases element_bits - k,
        {
            let ghost prev = bool_values(piece@);
            let b = Boolean::constant(false);
            piece.push(b);
            proof {
                assert(bool_values(piece@) =~= prev.push(b.val()));
                assert(bool_values(piece@) =~= c + zeros((k + 1 - len) as nat));
            }
            k = k + 1;
        }
        out.push(piece);
        j = j + 1;
    }
    out
}

} // verus!
