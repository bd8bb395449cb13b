//! A tape-machine interpreter for a byte-oriented esoteric language, with a
//! single-step debugger. The compiler turns source bytes into a tree of
//! instructions; the interpreter is a state machine that its host drives one
//! step at a time, doing the input and output that each step asks for.
pub mod cli;
pub mod interpreter;
pub mod machine;
pub mod opcodes;

pub use cli::CliError;
pub use interpreter::{parse_command, symbol_of, Interpreter, Reply};
pub use machine::{Command, Event, Mode, Pending, LISTING_LEN, MEMORY_ROWS, ROW_CELLS, TAPE_LEN};
pub use opcodes::{compile, CompileError, OpCode};
