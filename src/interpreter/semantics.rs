//! What running a program means, over the models of the tape and of the
//! instruction tree.
use vstd::prelude::*;

use super::memory::Tape;
use super::parser::Op;

verus! {

/// The whole state a program acts on: the tape, the input bytes not read
/// yet, and the bytes written so far.
pub struct Machine {
    pub tape: Tape,
    pub input: Seq<u8>,
    pub output: Seq<u8>,
}

impl Machine {
    /// A machine with a tape of `size` zero cells, `input` to read and
    /// nothing written.
    pub open spec fn start(size: nat, input: Seq<u8>) -> Machine {
        Machine { tape: Tape::zeroed(size), input, output: Seq::empty() }
    }

    /// The same machine with its tape cleared.
    pub open spec fn reset(self) -> Machine {
        Machine { tape: self.tape.cleared(), ..self }
    }
}

/// The effect of one primitive instruction. An input instruction with no
/// input left changes nothing.
pub open spec fn step(op: Op, m: Machine) -> Machine {
    match op {
        Op::NextCell => Machine { tape: m.tape.advance(), ..m },
        Op::PreviousCell => Machine { tape: m.tape.retreat(), ..m },
        Op::IncrementData => Machine { tape: m.tape.increment(), ..m },
        Op::DecrementData => Machine { tape: m.tape.decrement(), ..m },
        Op::OutputData => Machine { output: m.output.push(m.tape.read()), ..m },
        Op::InputData => if m.input.len() > 0 {
            Machine { tape: m.tape.write(m.input[0]), input: m.input.drop_first(), ..m }
        } else {
            m
        },
        Op::Loop(_) => m,
    }
}

/// Runs `ops` in order from `m`. Gives the machine where the run stopped and
/// whether it ran to the end; it stops early only when a loop is about to
/// enter its body with no `fuel` left. Each entry of a loop's body takes one
/// unit of fuel from what is left to that loop, and the body runs with what
/// remains after that.
pub open spec fn run_block(ops: Seq<Op>, m: Machine, fuel: nat) -> (Machine, bool)
    decreases fuel, ops,
{
    if ops.len() == 0 {
        (m, true)
    } else {
        let (m1, done) = match ops[0] {
            Op::Loop(body) => run_loop(body, m, fuel),
            _ => (step(ops[0], m), true),
        };
        if done {
            run_block(ops.drop_first(), m1, fuel)
        } else {
            (m1, false)
        }
    }
}

/// Runs a loop with body `body` from `m`: while the cell under the cursor is
/// not zero, runs the body, then checks again.
pub open spec fn run_loop(body: Seq<Op>, m: Machine, fuel: nat) -> (Machine, bool)
    decreases fuel, body,
{
    if m.tape.read() == 0 {
        (m, true)
    } else if fuel == 0 {
        (m, false)
    } else {
        let (m1, done) = run_block(body, m, (fuel - 1) as nat);
        if done {
            run_loop(body, m1, (fuel - 1) as nat)
        } else {
            (m1, false)
        }
    }
}

} // verus!
