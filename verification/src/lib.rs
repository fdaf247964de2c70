//! Front end and runtime support for a small Lua-like scripting language:
//! a scanner that turns lines of source text into tokens, a recursive-descent
//! parser that builds statements and expressions, a static type checker for
//! operator expressions, a resolver that computes the scope depth of local
//! variables, the store of variable scopes that an interpreter runs on,
//! the stages that take a source file to a program ready to run, and the
//! machines that run statements and evaluate expressions for a host.

pub mod enviroment;
pub mod errors;
pub mod eval;
pub mod exec;
pub mod expr;
pub mod interpreter;
pub mod parser;
pub mod resolver;
pub mod scanner;
pub mod stmt;
pub mod strmap;
pub mod text;
pub mod tokens;
pub mod typed_expr;
pub mod types;
