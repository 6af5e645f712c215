pub mod number;
pub mod vector;
