//! A small interpreter for a concatenative, stack-based language: a line of
//! whitespace-separated words executes left to right against a shared data
//! stack, with user-defined procedures and string literals.

pub mod laws;
pub mod numeric;
pub mod program;
pub mod proctable;
pub mod semantics;
pub mod text;
pub mod value;
pub mod vm;

pub use program::Program;
pub use proctable::ProcTable;
pub use semantics::VmError;
pub use value::Data;
pub use vm::Vm;
