//! A simulator of the historical Enigma cipher machine, together with a
//! brute-force key-search engine that recovers unknown parts of a machine
//! configuration from ciphertext and plaintext cribs.

pub mod brute_force;
pub mod letter;
pub mod machine;
pub mod message;

pub use crate::brute_force::force::{check_machine, force_combinations};
pub use crate::brute_force::plug_options::PlugboardOptions;
pub use crate::letter::Letter;
pub use crate::machine::char_mapping::CharMapping;
pub use crate::machine::data::{ReflectorId, RotorId};
pub use crate::machine::enigma_machine::EnigmaMachine;
pub use crate::machine::machine_state::MachineState;
pub use crate::machine::plug_board::PlugBoard;
pub use crate::machine::reflector::Reflector;
pub use crate::machine::rotor::Rotor;
pub use crate::message::{Message, MessageChar};
