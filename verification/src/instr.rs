pub mod empty;
pub mod synth;
