//! A deterministic single-tape Turing-machine interpreter.
//!
//! A program is a comma-separated list of five-byte transition records,
//! `<state><input><output><move><state>`; parsing them yields a
//! [`table::TransitionTable`].  A [`machine::Turing`] owns such a table
//! together with a symbol tape, a head position and a current control
//! state, and applies matching transitions one at a time until none
//! applies.

pub mod machine;
pub mod table;
