//! Circuit booleans and bytes, and the little-endian bit order that every
//! gadget uses to exchange values.
use vstd::prelude::*;
use vstd::arithmetic::power2::{pow2, lemma_pow2_unfold, lemma2_to64};
use vstd::arithmetic::div_mod::lemma_div_denominator;
use crate::r1cs::{
    alloc_handle, AllocationMode, ConstraintSystem, ConstraintSystemRef,
    R1CSVar, SynthesisError,
};

verus! {

/// The number that a little-endian bit sequence stands for: bit `i` weighs
/// `2^i`.
pub open spec fn le_value(bits: Seq<bool>) -> nat
    decreases bits.len(),
{
    if bits.len() == 0 {
        0
    } else {
        le_value(bits.drop_last()) + if bits.last() {
            pow2((bits.len() - 1) as nat)
        } else {
            0
        }
    }
}

/// A boolean that lives in a constraint system (or is a constant).
#[derive(Clone, Copy, Debug)]
pub struct Boolean {
    value: bool,
    handle: ConstraintSystemRef,
}

/// The values of a sequence of circuit booleans.
pub open spec fn bool_values(s: Seq<Boolean>) -> Seq<bool> {
    s.map_values(|b: Boolean| b.val())
}

impl Boolean {
    /// The value this boolean takes in the witness.
    pub closed spec fn val(&self) -> bool {
        self.value
    }

    /// The handle this boolean carries.
    pub closed spec fn handle_spec(&self) -> ConstraintSystemRef {
        self.handle
    }

    /// The constant `b`.
    pub fn constant(b: bool) -> (r: Boolean)
        ensures
            r.val() == b,
            r.handle_spec() == ConstraintSystemRef::NoSystem,
    {
        Boolean { value: b, handle: ConstraintSystemRef::NoSystem }
    }

    /// A boolean computed by a gadget of system `handle`.
    pub(crate) fn derived(value: bool, handle: ConstraintSystemRef) -> (r: Boolean)
        ensures
            r.val() == value,
            r.handle_spec() == handle,
    {
        Boolean { value, handle }
    }

    /// Allocates a boolean whose value `f` produces, in mode `mode`; the
    /// failure of `f` is handed back unchanged.
    pub fn new_variable(
        cs: &ConstraintSystem,
        f: impl FnOnce() -> Result<bool, SynthesisError>,
        mode: AllocationMode,
    ) -> (r: Result<Boolean, SynthesisError>)
        requires
            f.requires(()),
        ensures
            match r {
                Result::Ok(b) => f.ensures((), Result::Ok(b.val())) && b.handle_spec()
                    == alloc_handle(cs, mode),
                Result::Err(e) => f.ensures((), Result::Err(e)),
            },
    {
        match f() {
            Ok(v) => Ok(Boolean { value: v, handle: alloc_handle_exec(cs, mode) }),
            Err(e) => Err(e),
        }
    }

    /// Allocates a private boolean.
    pub fn new_witness(cs: &ConstraintSystem, f: impl FnOnce() -> Result<bool, SynthesisError>) -> (r:
        Result<Boolean, SynthesisError>)
        requires
            f.requires(()),
        ensures
            match r {
                Result::Ok(b) => f.ensures((), Result::Ok(b.val())) && b.handle_spec()
                    == alloc_handle(cs, AllocationMode::Witness),
                Result::Err(e) => f.ensures((), Result::Err(e)),
            },
    {
        Boolean::new_variable(cs, f, AllocationMode::Witness)
    }

    /// Allocates a public-input boolean.
    pub fn new_input(cs: &ConstraintSystem, f: impl FnOnce() -> Result<bool, SynthesisError>) -> (r:
        Result<Boolean, SynthesisError>)
        requires
            f.requires(()),
        ensures
            match r {
                Result::Ok(b) => f.ensures((), Result::Ok(b.val())) && b.handle_spec()
                    == alloc_handle(cs, AllocationMode::Input),
                Result::Err(e) => f.ensures((), Result::Err(e)),
            },
    {
        Boolean::new_variable(cs, f, AllocationMode::Input)
    }

    /// Allocates one public-input boolean for each of `bits`, in order.
    pub fn new_input_vec(cs: &ConstraintSystem, bits: &[bool]) -> (r: Vec<Boolean>)
        ensures
            bool_values(r@) == bits@,
            forall|i: int| 0 <= i < r.len() ==> #[trigger] r[i].handle_spec()
                == ConstraintSystemRef::Handle(cs.id()),
    {
        let mut out: Vec<Boolean> = Vec::new();
        let mut i: usize = 0;
        while i < bits.len()
            invariant
                i <= bits.len(),
                out.len() == i,
                forall|j: int| 0 <= j < i ==> #[trigger] out[j].val() == bits[j],
                forall|j: int| 0 <= j < i ==> #[trigger] out[j].handle_spec()
                    == ConstraintSystemRef::Handle(cs.id()),
            decreases bits.len() - i,
        {
            out.push(Boolean { value: bits[i], handle: cs.handle() });
            i = i + 1;
        }
        assert(bool_values(out@) =~= bits@);
        out
    }

    /// The handle this boolean carries, as a plain value.
    pub fn handle_exec(&self) -> (r: ConstraintSystemRef)
        ensures
            r == self.handle_spec(),
    {
        self.handle
    }

    /// The value of this boolean in the witness.
    pub fn value(&self) -> (r: Result<bool, SynthesisError>)
        ensures
            r == Result::<bool, SynthesisError>::Ok(self.val()),
    {
        Ok(self.value)
    }

    /// Logical negation.
    pub fn not(&self) -> (r: Boolean)
        ensures
            r.val() == !self.val(),
            r.handle_spec() == self.handle_spec(),
    {
        Boolean { value: !self.value, handle: self.handle }
    }

    /// Conjunction, one multiplication constraint.
    pub fn and(&self, other: &Boolean) -> (r: Result<Boolean, SynthesisError>)
        ensures
            r matches Result::Ok(b) && b.val() == (self.val() && other.val()),
    {
        Ok(Boolean { value: self.value && other.value, handle: pick_handle(self.handle, other.handle) })
    }

    /// Disjunction, one multiplication constraint.
    pub fn or(&self, other: &Boolean) -> (r: Result<Boolean, SynthesisError>)
        ensures
            r matches Result::Ok(b) && b.val() == (self.val() || other.val()),
    {
        Ok(Boolean { value: self.value || other.value, handle: pick_handle(self.handle, other.handle) })
    }

    /// `t` where this boolean is true, `f` where it is false.
    pub fn select(&self, t: &Boolean, f: &Boolean) -> (r: Result<Boolean, SynthesisError>)
        ensures
            r matches Result::Ok(b) && b.val() == if self.val() {
                t.val()
            } else {
                f.val()
            },
    {
        let v = if self.value {
            t.value
        } else {
            f.value
        };
        Ok(Boolean { value: v, handle: pick_handle(self.handle, pick_handle(t.handle, f.handle)) })
    }

    /// Records that this boolean equals `other` where `condition` is true.
    pub fn conditional_enforce_equal(
        &self,
        other: &Boolean,
        condition: &Boolean,
        cs: &mut ConstraintSystem,
    ) -> (r: Result<(), SynthesisError>)
        ensures
            r is Ok,
            final(cs).id() == old(cs).id(),
            final(cs).holds() == (old(cs).holds() && (condition.val() ==> self.val()
                == other.val())),
    {
        cs.enforce(!condition.value || self.value == other.value);
        Ok(())
    }
}

impl R1CSVar for Boolean {
    open spec fn cs_spec(&self) -> Option<ConstraintSystemRef> {
        Option::Some(self.handle_spec())
    }

    fn cs(&self) -> (r: Option<ConstraintSystemRef>) {
        Option::Some(self.handle)
    }
}

/// The handle of the result of an operation on two variables: the one that
/// names a system, if either does.
pub fn pick_handle(a: ConstraintSystemRef, b: ConstraintSystemRef) -> (r: ConstraintSystemRef)
    ensures
        r == (if a == ConstraintSystemRef::NoSystem { b } else { a }),
{
    match a {
        ConstraintSystemRef::NoSystem => b,
        ConstraintSystemRef::Handle(_) => a,
    }
}

/// The handle of a variable allocated in mode `mode`.
pub fn alloc_handle_exec(cs: &ConstraintSystem, mode: AllocationMode) -> (r: ConstraintSystemRef)
    ensures
        r == alloc_handle(cs, mode),
{
    match mode {
        AllocationMode::Constant => ConstraintSystemRef::NoSystem,
        _ => cs.handle(),
    }
}

/// Bit `i` of the byte `v`, counting from the least significant.
pub open spec fn byte_bit(v: u8, i: nat) -> bool {
    (v as nat / pow2(i)) % 2 == 1
}

/// The eight bits of `v`, least significant first.
pub open spec fn byte_bits_le(v: u8) -> Seq<bool> {
    Seq::new(8, |i: int| byte_bit(v, i as nat))
}

/// The little-endian bits of a byte string: each byte's bits in turn.
pub open spec fn bytes_bits_le(bytes: Seq<u8>) -> Seq<bool>
    decreases bytes.len(),
{
    if bytes.len() == 0 {
        Seq::empty()
    } else {
        bytes_bits_le(bytes.drop_last()) + byte_bits_le(bytes.last())
    }
}

/// A byte that lives in a constraint system (or is a constant).
#[derive(Clone, Copy, Debug)]
pub struct UInt8 {
    value: u8,
    handle: ConstraintSystemRef,
}

impl UInt8 {
    /// The value this byte takes in the witness.
    pub closed spec fn val(&self) -> u8 {
        self.value
    }

    /// The handle this byte carries.
    pub closed spec fn handle_spec(&self) -> ConstraintSystemRef {
        self.handle
    }

    /// The constant `v`.
    pub fn constant(v: u8) -> (r: UInt8)
        ensures
            r.val() == v,
            r.handle_spec() == ConstraintSystemRef::NoSystem,
    {
        UInt8 { value: v, handle: ConstraintSystemRef::NoSystem }
    }

    /// A byte computed by a gadget of system `handle`.
    pub(crate) fn derived(value: u8, handle: ConstraintSystemRef) -> (r: UInt8)
        ensures
            r.val() == value,
            r.handle_spec() == handle,
    {
        UInt8 { value, handle }
    }

    /// Allocates a byte whose value `f` produces, in mode `mode`.
    pub fn new_variable(
        cs: &ConstraintSystem,
        f: impl FnOnce() -> Result<u8, SynthesisError>,
        mode: AllocationMode,
    ) -> (r: Result<UInt8, SynthesisError>)
        requires
            f.requires(()),
        ensures
            match r {
                Result::Ok(b) => f.ensures((), Result::Ok(b.val())) && b.handle_spec()
                    == alloc_handle(cs, mode),
                Result::Err(e) => f.ensures((), Result::Err(e)),
            },
    {
        match f() {
            Ok(v) => Ok(UInt8 { value: v, handle: alloc_handle_exec(cs, mode) }),
            Err(e) => Err(e),
        }
    }

    /// Allocates one byte for each of `bytes`, in order, in mode `mode`.
    pub fn new_vec(cs: &ConstraintSystem, bytes: &[u8], mode: AllocationMode) -> (r: Result<
        Vec<UInt8>,
        SynthesisError,
    >)
        ensures
            r matches Result::Ok(v) && v@.map_values(|b: UInt8| b.val()) == bytes@ && (forall|i: int|
                0 <= i < v.len() ==> #[trigger] v[i].handle_spec() == alloc_handle(cs, mode)),
    {
        let h = alloc_handle_exec(cs, mode);
        let mut out: Vec<UInt8> = Vec::new();
        let mut i: usize = 0;
        while i < bytes.len()
            invariant
                i <= bytes.len(),
                out.len() == i,
                h == alloc_handle(cs, mode),
                forall|j: int| 0 <= j < i ==> #[trigger] out[j].val() == bytes[j],
                forall|j: int| 0 <= j < i ==> #[trigger] out[j].handle_spec() == h,
            decreases bytes.len() - i,
        {
            out.push(UInt8 { value: bytes[i], handle: h });
            i = i + 1;
        }
        assert(out@.map_values(|b: UInt8| b.val()) =~= bytes@);
        Ok(out)
    }

    /// Allocates one public-input byte for each of `bytes`, in order.
    pub fn new_input_vec(cs: &ConstraintSystem, bytes: &[u8]) -> (r: Result<Vec<UInt8>, SynthesisError>)
        ensures
            r matches Result::Ok(v) && v@.map_values(|b: UInt8| b.val()) == bytes@ && (forall|i: int|
                0 <= i < v.len() ==> #[trigger] v[i].handle_spec() == ConstraintSystemRef::Handle(cs.id())),
    {
        UInt8::new_vec(cs, bytes, AllocationMode::Input)
    }

    /// The value of this byte in the witness.
    pub fn value(&self) -> (r: Result<u8, SynthesisError>)
        ensures
            r == Result::<u8, SynthesisError>::Ok(self.val()),
    {
        Ok(self.value)
    }

    /// The eight bits of this byte, least significant first; they carry the
    /// byte's handle.
    pub fn into_bits_le(&self) -> (r: Vec<Boolean>)
        ensures
            bool_values(r@) == byte_bits_le(self.val()),
            forall|i: int| 0 <= i < r.len() ==> #[trigger] r[i].handle_spec() == self.handle_spec(),
    {
        let mut out: Vec<Boolean> = Vec::new();
        let mut x: u8 = self.value;
        let mut i: usize = 0;
        proof {
            lemma2_to64();
        }
        while i < 8
            invariant
                i <= 8,
                out.len() == i,
                x as nat == self.value as nat / pow2(i as nat),
                forall|j: int| 0 <= j < i ==> #[trigger] out[j].val() == byte_bit(self.value, j as nat),
                forall|j: int| 0 <= j < i ==> #[trigger] out[j].handle_spec() == self.handle,
            decreases 8 - i,
        {
            proof {
                lemma_pow2_unfold((i + 1) as nat);
                vstd::arithmetic::power2::lemma_pow2_pos(i as nat);
                lemma_div_denominator(self.value as int, pow2(i as nat) as int, 2);
                assert(pow2(i as nat) * 2 == pow2((i + 1) as nat)) by(nonlinear_arith)
                    requires pow2((i + 1) as nat) == 2 * pow2(i as nat);
            }
            out.push(Boolean { value: x % 2 == 1, handle: self.handle });
            x = x / 2;
            i = i + 1;
        }
        assert(bool_values(out@) =~= byte_bits_le(self.value));
        out
    }
}

impl R1CSVar for UInt8 {
    open spec fn cs_spec(&self) -> Option<ConstraintSystemRef> {
        Option::Some(self.handle_spec())
    }

    fn cs(&self) -> (r: Option<ConstraintSystemRef>) {
        Option::Some(self.handle)
    }
}

} // verus!
