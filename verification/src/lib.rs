//! Non-negative integers of unbounded size as sequences of 64-bit digits: their
//! canonical form, addition, subtraction and digit cursors, each with its contract;
//! beside them an arena-backed linked list and a few small helpers on numbers, lines
//! of text and a counter.

pub mod arith;
pub mod bigint;
pub mod consume;
pub mod counter;
pub mod cursor;
pub mod digits;
pub mod list;
pub mod numbers;
pub mod rgrep;
