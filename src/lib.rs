pub mod cfg;
pub mod lower;
pub mod parse;
pub mod semantics;
