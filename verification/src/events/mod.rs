pub mod codes;
pub mod input;
