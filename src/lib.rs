//! A terminal countdown / count-up timer: a parser for duration
//! expressions, a formatter for second counts, and the decision logic of the
//! live render loop and of its interrupt handling.

pub mod duration;
pub mod pretty;
pub mod engine;
pub mod gate;
pub mod ticks;
