pub mod errors;
pub mod grammar;
pub mod node;
pub mod parser;

pub use errors::{ParseStop, ParserError};
pub use node::{Node, Tree};
pub use parser::Parser;
