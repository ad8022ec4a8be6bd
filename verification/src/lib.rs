//! A verified simulator for the Enigma family of rotor cipher machines
//! (M3 and M4): rotors, reflector, plugboard, and the engine that steps
//! the rotors and drives a letter through the full signal path.

pub mod alphabet;
pub mod error;
pub mod machine;
pub mod plugboard;
pub mod reflector;
pub mod rotor;
pub mod signal;
pub mod wiring;
