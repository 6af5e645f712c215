pub mod assemble;
pub mod emit;
pub mod flatten;
pub mod register_alloc;
