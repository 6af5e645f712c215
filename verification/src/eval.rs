pub mod expr;
pub mod register;
