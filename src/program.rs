//! A parsed program.
use vstd::prelude::*;

use crate::interpreter::parser::{ops_of, parse, program_of, Op};

pub use crate::interpreter::parser::Instruction;

verus! {

/// The instruction tree of a source text, built once and then only read.
pub struct Program {
    pub instructions: Vec<Instruction>,
}

impl View for Program {
    type V = Seq<Op>;

    open spec fn view(&self) -> Seq<Op> {
        ops_of(self.instructions@)
    }
}

impl Program {
    /// Parses `source_code` into its instruction tree.
    pub fn parse(source_code: &str) -> (r: Program)
        ensures
            r@ == program_of(source_code@),
    {
        Program { instructions: parse(source_code) }
    }
}

} // verus!
