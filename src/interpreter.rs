//! The interpreter: runs a program against a tape, an input byte source and
//! an output byte sink.
use vstd::prelude::*;

pub mod lexer;
pub mod memory;
pub mod parser;
pub mod semantics;

use crate::program::Program;
use memory::Memory;
use parser::{op_of, ops_of, program_of, Instruction, Op};
use semantics::{run_block, run_loop, step, Machine};

verus! {

/// How many times a single loop may enter its body in one execution (nested
/// loops share what is left of it). At one entry per nanosecond it would
/// take centuries to use up, so in practice execution only ends when the
/// program does.
pub const LOOP_LIMIT: u64 = u64::MAX;

/// Runs programs on a tape of fixed size, reading from an input byte
/// sequence and appending to an output byte sequence. Input that one
/// execution does not read is left for the next; output accumulates.
pub struct Interpreter {
    memory: Memory,
    input: Vec<u8>,
    input_pos: usize,
    output: Vec<u8>,
}

impl View for Interpreter {
    type V = Machine;

    closed spec fn view(&self) -> Machine {
        Machine {
            tape: self.memory@,
            input: self.input@.skip(self.input_pos as int),
            output: self.output@,
        }
    }
}

/// The models of a sequence of instructions are the models of its elements.
proof fn lemma_ops_of_index(s: Seq<Instruction>)
    ensures
        ops_of(s).len() == s.len(),
        forall|i: int| 0 <= i < s.len() ==> #[trigger] ops_of(s)[i] == op_of(s[i]),
    decreases s.len(),
{
    if s.len() > 0 {
        lemma_ops_of_index(s.drop_last());
    }
}

impl Interpreter {
    /// The tape is valid and the read position is within the input.
    pub closed spec fn wf(&self) -> bool {
        &&& self.memory.wf()
        &&& self.input_pos <= self.input.len()
    }

    /// An interpreter with `memory_size` zero cells that reads `input`.
    pub fn new(input: Vec<u8>, memory_size: usize) -> (r: Interpreter)
        requires
            memory_size >= 1,
        ensures
            r.wf(),
            r@ == Machine::start(memory_size as nat, input@),
    {
        let r = Interpreter { memory: Memory::new(memory_size), input, input_pos: 0, output: Vec::new() };
        proof {
            assert(r.input@.skip(0) =~= r.input@);
        }
        r
    }

    /// The bytes written so far.
    pub fn output(&self) -> (r: &Vec<u8>)
        ensures
            r@ == self@.output,
    {
        &self.output
    }

    /// Gives up the interpreter for the bytes it has written.
    pub fn into_output(self) -> (r: Vec<u8>)
        ensures
            r@ == self@.output,
    {
        self.output
    }

    /// Clears the tape, then parses and runs `source_code`. Returns whether
    /// the program ran to its end within `LOOP_LIMIT`.
    pub fn execute(&mut self, source_code: &str) -> (done: bool)
        requires
            old(self).wf(),
        ensures
            final(self).wf(),
            (final(self)@, done) == run_block(program_of(source_code@), old(self)@.reset(), LOOP_LIMIT as nat),
    {
        let program = Program::parse(source_code);
        self.execute_program(&program)
    }

    /// Clears the tape, then runs `program`. Returns whether the program ran
    /// to its end within `LOOP_LIMIT`.
    pub fn execute_program(&mut self, program: &Program) -> (done: bool)
        requires
            old(self).wf(),
        ensures
            final(self).wf(),
            (final(self)@, done) == run_block(program@, old(self)@.reset(), LOOP_LIMIT as nat),
    {
        self.execute_program_with_limit(program, LOOP_LIMIT)
    }

    /// Clears the tape, then runs `program`, letting each loop enter its body
    /// at most `limit` times. Returns whether the program ran to its end.
    pub fn execute_program_with_limit(&mut self, program: &Program, limit: u64) -> (done: bool)
        requires
            old(self).wf(),
        ensures
            final(self).wf(),
            (final(self)@, done) == run_block(program@, old(self)@.reset(), limit as nat),
    {
        self.memory.clear();
        self.execute_instructions(&program.instructions, limit)
    }

    /// Performs one primitive instruction.
    fn step(&mut self, instruction: &Instruction)
        requires
            old(self).wf(),
            !(instruction is Loop),
        ensures
            final(self).wf(),
            final(self)@ == step(op_of(*instruction), old(self)@),
    {
        match instruction {
            Instruction::NextCell => self.memory.next(),
            Instruction::PreviousCell => self.memory.previous(),
            Instruction::IncrementData => self.memory.increment(),
            Instruction::DecrementData => self.memory.decrement(),
            Instruction::OutputData => {
                let value = self.memory.read();
                self.output.push(value);
            },
            Instruction::InputData => {
                if self.input_pos < self.input.len() {
                    let value = self.input[self.input_pos];
                    self.memory.write(value);
                    proof {
                        assert(self.input@.skip(self.input_pos + 1) =~= self.input@.skip(
                            self.input_pos as int,
                        ).drop_first());
                    }
                    self.input_pos += 1;
                }
            },
            Instruction::Loop(_) => {},
        }
    }

    /// Runs `instructions` in order with `fuel`, as `run_block` describes.
    fn execute_instructions(&mut self, instructions: &Vec<Instruction>, fuel: u64) -> (done: bool)
        requires
            old(self).wf(),
        ensures
            final(self).wf(),
            (final(self)@, done) == run_block(ops_of(instructions@), old(self)@, fuel as nat),
        decreases fuel,
    {
        let ghost ops = ops_of(instructions@);
        let ghost start = self@;
        proof {
            lemma_ops_of_index(instructions@);
            assert(ops.skip(0) =~= ops);
        }
        let mut i: usize = 0;
        while i < instructions.len()
            invariant
                self.wf(),
                ops == ops_of(instructions@),
                ops.len() == instructions.len(),
                forall|k: int| 0 <= k < instructions.len() ==> #[trigger] ops[k] == op_of(instructions@[k]),
                i <= instructions.len(),
                start == old(self)@,
                run_block(ops, start, fuel as nat) == run_block(ops.skip(i as int), self@, fuel as nat),
            decreases instructions.len() - i,
        {
            let ghost rest = ops.skip(i as int);
            proof {
                assert(rest[0] == ops[i as int]);
                assert(rest.drop_first() =~= ops.skip(i + 1));
            }
            match &instructions[i] {
                Instruction::Loop(body) => {
                    let ghost body_ops = ops_of(body@);
                    let ghost entry = self@;
                    assert(rest[0] == Op::Loop(body_ops));
                    let mut f: u64 = fuel;
                    while self.memory.read() != 0
                        invariant
                            self.wf(),
                            f <= fuel,
                            rest.len() > 0,
                            rest[0] == Op::Loop(body_ops),
                            body_ops == ops_of(body@),
                            ops == ops_of(instructions@),
                            start == old(self)@,
                            run_block(ops, start, fuel as nat) == run_block(rest, entry, fuel as nat),
                            run_loop(body_ops, entry, fuel as nat) == run_loop(body_ops, self@, f as nat),
                        decreases f,
                    {
                        if f == 0 {
                            return false;
                        }
                        f -= 1;
                        if !self.execute_instructions(body, f) {
                            return false;
                        }
                    }
                },
                instruction => self.step(instruction),
            }
            i += 1;
        }
        true
    }
}

} // verus!
