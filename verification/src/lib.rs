//! A small compiler backend: it lowers arithmetic/conditional expression
//! trees into a linear register-based intermediate form, allocates physical
//! slots for the registers by linear scan over live ranges, emits machine
//! instructions from the allocated form, and encodes those instructions as
//! raw bytes.

pub mod bounded;
pub mod compile;
pub mod eval;
pub mod ir;
pub mod math;
