//! Integer-level core of a small song synthesizer: keyed point series, generator
//! identifiers and stores, MIDI values and note decoding.

pub mod control;
pub mod ctrl_f;
pub mod error;
pub mod gens;
pub mod globals;
pub mod instr;
pub mod io;
pub mod midi;
pub mod network;
pub mod resources;
pub mod time;
pub mod tracks;
pub mod utils;

pub use error::Error;
