pub mod assign;
pub mod chips;
pub mod circuit;
pub mod field;
pub mod laws;
pub mod mock;
