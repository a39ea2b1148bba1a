pub mod decimal;
pub mod interpreter;
pub mod machine;
pub mod resolver;
pub mod token;

pub use interpreter::Interpreter;
pub use interpreter::RunStatus;
pub use resolver::JumpTable;
pub use resolver::parse_loops;
pub use token::Token;
pub use token::tokenize;
