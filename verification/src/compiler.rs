//! The compiler: one pass from source text to bytecode.
//!
//! `model` and the modules beside it say as mathematics what the compiler
//! makes of a source text: the code, the constants and the errors. The
//! contract of each function of the compiler says that it does what the
//! function of the same name does there; `compile` says so of the whole.

pub mod compile_declaration;
pub mod compile_expression;
pub mod compile_statement;
pub mod driver;
pub mod faithful;
pub mod model;
pub mod model_expression;
pub mod model_statement;
pub mod parser;
pub mod scanner;
pub mod scope;
pub mod state;
pub mod token;
pub mod token_kind;

pub use self::compile_expression::Precedence;
pub use self::driver::compile;
pub use self::driver::Compiler;
pub use self::parser::Parser;
pub use self::state::FunctionKind;
pub use self::scanner::Scanner;
pub use self::token::Token;
pub use self::token_kind::TokenKind;
