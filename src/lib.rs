//! Single-button keyboard decoding: button samples become Morse bits, runs of
//! bits become key codes and modifier flags, and those become keyboard reports.

pub mod bits;
pub mod clock;
pub mod code;
pub mod sequence;
pub mod state;

pub use bits::{Bit, BitLayer, BitState};
pub use clock::{Config, Input};
pub use code::{Symbol, MAP};
pub use sequence::SeqLayer;
pub use state::{Output, State};
