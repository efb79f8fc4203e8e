pub mod chunk;
pub mod compiler;
pub mod interpreter;
pub mod objects;
pub mod precedence;
pub mod scanner;
pub mod stack;
pub mod syntax;
pub mod token;
pub mod value;
pub mod vm;
