pub mod token;
pub mod keywords;
pub mod char_reader;
pub mod lexer;
