pub mod types;
pub mod operators;
pub mod type_error;
pub mod builtins;
pub mod info;
pub mod typed;
pub mod check_expr;
pub mod check_stmt;
pub mod defs;
