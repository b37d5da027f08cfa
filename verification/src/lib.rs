pub mod text;
pub mod utils;
pub mod lexing;
pub mod parsing;
pub mod validation;
pub mod transpiling;
pub mod compiler;
