//! The constraint-system handle, allocation modes and the capability every
//! circuit variable shares.
use vstd::prelude::*;

verus! {

/// Why building a circuit stopped.
#[derive(Clone, Copy, Debug, PartialEq, Eq, Structural)]
pub enum SynthesisError {
    /// A value producer had no value to give.
    AssignmentMissing,
}

/// A handle on the constraint system that a variable lives in.
///
/// `NoSystem` is the sentinel of "no system": it is a value of its own, distinct
/// from a variable that reports no handle at all.
#[derive(Clone, Copy, Debug, PartialEq, Eq, Structural)]
pub enum ConstraintSystemRef {
    NoSystem,
    Handle(u64),
}

/// The three ways a value can enter a circuit.
#[derive(Clone, Copy, Debug, PartialEq, Eq, Structural)]
pub enum AllocationMode {
    /// Baked into the linear combinations; no entry in the witness vector.
    Constant,
    /// Part of the public statement.
    Input,
    /// Private to the prover.
    Witness,
}

/// Whether a variable with this handle is a constant: it reports no handle,
/// or the "no system" sentinel.
pub open spec fn is_constant_handle(cs: Option<ConstraintSystemRef>) -> bool {
    match cs {
        Option::None => true,
        Option::Some(h) => h == ConstraintSystemRef::NoSystem,
    }
}

/// The handle that an operation on two variables works in: the first one
/// that is present.
pub open spec fn combined_handle(
    a: Option<ConstraintSystemRef>,
    b: Option<ConstraintSystemRef>,
) -> Option<ConstraintSystemRef> {
    match a {
        Option::Some(h) => Option::Some(h),
        Option::None => b,
    }
}

/// The handle of a sequence of variables: the last one that is present.
pub open spec fn last_handle(s: Seq<Option<ConstraintSystemRef>>) -> Option<ConstraintSystemRef>
    decreases s.len(),
{
    if s.len() == 0 {
        Option::None
    } else {
        combined_handle(s.last(), last_handle(s.drop_last()))
    }
}

/// The handle of a variable allocated in mode `mode` in system `cs`.
pub open spec fn alloc_handle(cs: &ConstraintSystem, mode: AllocationMode) -> ConstraintSystemRef {
    match mode {
        AllocationMode::Constant => ConstraintSystemRef::NoSystem,
        _ => ConstraintSystemRef::Handle(cs.id()),
    }
}

/// The state of one circuit under construction, in witness-generation mode.
///
/// Every gadget operation adds constraints that its own witness values meet;
/// the only constraints that can fail are the equalities that a caller
/// enforces. `satisfied` records whether every one of those held.
pub struct ConstraintSystem {
    handle: u64,
    satisfied: bool,
}

impl ConstraintSystem {
    /// The identity that variables of this system carry.
    pub closed spec fn id(&self) -> u64 {
        self.handle
    }

    /// Whether the witness assignment meets every constraint so far.
    pub closed spec fn holds(&self) -> bool {
        self.satisfied
    }

    /// A fresh system with no constraints, named by `handle`.
    pub fn new_ref(handle: u64) -> (r: ConstraintSystem)
        ensures
            r.id() == handle,
            r.holds(),
    {
        ConstraintSystem { handle, satisfied: true }
    }

    /// The handle that variables allocated in this system report.
    pub fn handle(&self) -> (r: ConstraintSystemRef)
        ensures
            r == ConstraintSystemRef::Handle(self.id()),
    {
        ConstraintSystemRef::Handle(self.handle)
    }

    /// Whether the current assignment satisfies every constraint.
    pub fn is_satisfied(&self) -> (r: Result<bool, SynthesisError>)
        ensures
            r == Result::<bool, SynthesisError>::Ok(self.holds()),
    {
        Ok(self.satisfied)
    }

    /// Records a constraint whose truth on the witness is `holds`.
    pub fn enforce(&mut self, holds: bool)
        ensures
            final(self).id() == old(self).id(),
            final(self).holds() == (old(self).holds() && holds),
    {
        self.satisfied = self.satisfied && holds;
    }
}

/// The capability every circuit variable provides: a way back to the
/// constraint system it lives in.
pub trait R1CSVar {
    /// The handle this variable reports, or `None` for a pure constant.
    spec fn cs_spec(&self) -> Option<ConstraintSystemRef>;

    fn cs(&self) -> (r: Option<ConstraintSystemRef>)
        ensures
            r == self.cs_spec(),
    ;

    /// Whether the variable is a constant: no handle, or the sentinel.
    fn is_constant(&self) -> (r: bool)
        ensures
            r == is_constant_handle(self.cs_spec()),
    {
        match self.cs() {
            Option::None => true,
            Option::Some(h) => h == ConstraintSystemRef::NoSystem,
        }
    }
}

/// The handle of a slice of variables: the last one present, as if they were
/// one variable.
pub fn cs_of_slice<T: R1CSVar>(vars: &[T]) -> (r: Option<ConstraintSystemRef>)
    ensures
        r == last_handle(vars@.map_values(|v: T| v.cs_spec())),
{
    let mut result: Option<ConstraintSystemRef> = Option::None;
    let mut i: usize = 0;
    while i < vars.len()
        invariant
            i <= vars.len(),
            result == last_handle(vars@.take(i as int).map_values(|v: T| v.cs_spec())),
        decreases vars.len() - i,
    {
        let h = vars[i].cs();
        proof {
            let s = vars@.take(i as int + 1).map_values(|v: T| v.cs_spec());
            assert(s.drop_last() =~= vars@.take(i as int).map_values(|v: T| v.cs_spec()));
        }
        result = match h {
            Option::Some(x) => Option::Some(x),
            Option::None => result,
        };
        i = i + 1;
    }
    proof {
        assert(vars@.take(vars@.len() as int) =~= vars@);
    }
    result
}

/// Turns a value that may be missing into a synthesis result.
pub trait Assignment<T>: Sized {
    fn get(self) -> (r: Result<T, SynthesisError>);
}

impl<T> Assignment<T> for Option<T> {
    fn get(self) -> (r: Result<T, SynthesisError>)
        ensures
            r == match self {
                Option::Some(v) => Result::<T, SynthesisError>::Ok(v),
                Option::None => Result::<T, SynthesisError>::Err(SynthesisError::AssignmentMissing),
            },
    {
        match self {
            Option::Some(v) => Ok(v),
            Option::None => Err(SynthesisError::AssignmentMissing),
        }
    }
}

} // verus!
