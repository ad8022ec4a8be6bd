//! Failure taxonomy for the cipher core.

use vstd::prelude::*;

verus! {

/// Everything that can go wrong while configuring or driving a machine.
#[derive(Clone, Copy, Debug, PartialEq, Eq, Structural)]
pub enum EnigmaError {
    /// An input character outside the 26-letter alphabet.
    InvalidSymbol,
    /// A rotor identifier outside 1..=8.
    UnknownRotorId,
    /// A reflector tag other than `B` or `C`.
    UnknownReflectorTag,
    /// A machine type tag other than `M3` or `M4`.
    UnknownMachineType,
    /// The number of rotor identifiers disagrees with the machine type.
    RotorCountMismatch,
    /// A key whose length disagrees with the number of rotors.
    KeyLengthMismatch,
    /// A wiring table with no preimage for a letter: an internal
    /// consistency fault, unreachable for tables built by this crate.
    NoInverse,
}

} // verus!
