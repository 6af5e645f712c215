pub mod machine;
pub mod bytes;
pub mod expr;
pub mod register;
