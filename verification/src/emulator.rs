pub mod adapter;
pub mod compiler;
pub mod executor;
pub mod instructions;
pub mod machine;
pub mod parser;
pub mod register;
