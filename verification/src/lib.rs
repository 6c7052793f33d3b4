pub mod ast;
pub mod lexer;
pub mod money;
pub mod parser;
pub mod table;
pub mod text;
pub mod token;
pub mod symbol_table;
pub mod semantic;
pub mod value;
pub mod vm;
pub mod clock;
pub mod codegen;
pub mod server;
pub mod laws;
pub mod type_safety;
pub mod operation_laws;
