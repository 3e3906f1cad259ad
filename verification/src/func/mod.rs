//! Ideal functionalities: trusted simulators that see both parties' inputs
//! and hand each party its output.

use vstd::prelude::*;

pub mod cot;
pub mod cote;
pub mod ole;

verus! {

/// The side of a two-party functionality that a call is made for.
#[derive(Debug, Clone, Copy, PartialEq, Eq, Structural)]
pub enum Role {
    Sender,
    Receiver,
}

} // verus!
