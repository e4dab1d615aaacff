pub mod bitset;
pub mod budget;
pub mod buffer;
pub mod codegen;
pub mod constants;
pub mod context;
pub mod definition;
pub mod errors;
pub mod expression;
pub mod generate;
pub mod program;
pub mod types;
