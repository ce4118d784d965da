//! An interpreter for a tiny tape-machine language of eight instructions:
//! `>` `<` `+` `-` `.` `,` `[` `]`.
//!
//! Source text is tokenized, structured into an instruction tree and executed
//! against a circular tape of wrapping 8-bit cells.
use vstd::prelude::*;

pub mod interpreter;
pub mod program;

pub use interpreter::lexer::{lex, Token};
pub use interpreter::memory::Memory;
pub use interpreter::parser::{parse, Instruction};
pub use interpreter::Interpreter;
pub use program::Program;

use interpreter::parser::program_of;
use interpreter::semantics::{run_block, Machine};
use interpreter::LOOP_LIMIT;

verus! {

/// What a run is given: the path of the source file and the number of cells
/// of the tape.
pub struct Args {
    pub input_file: String,
    pub memory_size: usize,
}

/// Runs `source_code` (read from `args.input_file`) on a fresh tape of
/// `args.memory_size` cells with `input` to read, and gives the bytes it
/// wrote.
pub fn run(args: &Args, source_code: &str, input: Vec<u8>) -> (r: Vec<u8>)
    requires
        args.memory_size >= 1,
    ensures
        r@ == run_block(
            program_of(source_code@),
            Machine::start(args.memory_size as nat, input@),
            LOOP_LIMIT as nat,
        ).0.output,
{
    let mut interpreter = Interpreter::new(input, args.memory_size);
    proof {
        assert(Machine::start(args.memory_size as nat, input@).reset() == Machine::start(
            args.memory_size as nat,
            input@,
        ));
    }
    interpreter.execute(source_code);
    interpreter.into_output()
}

} // verus!
