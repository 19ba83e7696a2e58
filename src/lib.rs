//! Translation of stack-machine commands into assembly for a machine with one
//! data register, one address register and flat memory.

pub mod code;
pub mod code_writer;
pub mod hack;
pub mod laws;
pub mod machine;
pub mod parser;
pub mod text;
pub mod translator;

pub use code::{CommandFailure, TranslateError};
pub use code_writer::CodeWriter;
pub use parser::{CommandType, Parser};
pub use translator::{translate_module, translate_program};
