//! Stream combinators: each combinator is a small state machine that is fed the
//! outcome of polling its upstream source(s) and decides what to yield.

pub mod poll;
pub mod scan2;
pub mod scan3;
pub mod distinct;
pub mod value;
pub mod combine_latest;
pub mod fork;
pub mod delay;
pub mod with_latest_from;
