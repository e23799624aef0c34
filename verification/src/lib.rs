//! A second execution tier: turns bytecode into x86-64 machine code, and says what the code
//! does.
pub mod assembler;
pub mod bytecode;
pub mod codegen;
pub mod decode;
pub mod exec;
pub mod formats;
pub mod frame;
pub mod insn;
pub mod labels;
pub mod layout;
pub mod machine;
pub mod meaning;
pub mod opcodes;
pub mod promises;
pub mod simulate;
pub mod splice;
pub mod template;

pub use codegen::{compile, CompileError, Compiled, HelperFn, HelperId, HelperTable, JitContext};
