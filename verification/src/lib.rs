//! Turn-by-turn state transitions of a two-player grid game in which each
//! side keeps its board hidden: the board and its commitment preimage, the
//! action encoding, blinding exponents, and the requests and replies
//! exchanged with the constraint programs.

pub mod accumulator;
mod bignum;
pub mod bits;
pub mod board;
pub mod error;
pub mod exponent;
pub mod output;
pub mod reply;
pub mod request;
pub mod scalar;
pub mod state;
pub mod transaction;
pub mod unit;
pub mod units;
