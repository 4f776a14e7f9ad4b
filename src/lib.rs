//! Circuit gadgets for prime-order curve groups and pairings, and a gadget
//! that checks a Groth16 proof inside a circuit (recursive composition).
use vstd::prelude::*;

pub mod r1cs;
pub mod boolean;
pub mod groups;
pub mod pairing;
pub mod nizk;
pub mod dlog;
pub mod recursion;
pub mod pedersen;
pub mod bowe_hopwood;
pub mod signature;
