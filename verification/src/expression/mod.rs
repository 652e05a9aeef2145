pub mod codegen;
pub mod functions;
pub mod meaning;
