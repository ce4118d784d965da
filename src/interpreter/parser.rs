//! The structurer: a token sequence to an instruction tree.
use vstd::prelude::*;

use super::lexer::{lex, tokens_of, Token};

verus! {

/// Mathematical model of an instruction: a primitive, or a loop that owns
/// the sequence of its body.
pub enum Op {
    NextCell,
    PreviousCell,
    IncrementData,
    DecrementData,
    OutputData,
    InputData,
    Loop(Seq<Op>),
}

/// An instruction of a structured program. A `Loop` exclusively owns its
/// body.
#[derive(PartialEq, Debug)]
pub enum Instruction {
    NextCell,
    PreviousCell,
    IncrementData,
    DecrementData,
    OutputData,
    InputData,
    Loop(Vec<Instruction>),
}

/// The model of an instruction tree.
pub open spec fn op_of(i: Instruction) -> Op
    decreases i,
{
    match i {
        Instruction::NextCell => Op::NextCell,
        Instruction::PreviousCell => Op::PreviousCell,
        Instruction::IncrementData => Op::IncrementData,
        Instruction::DecrementData => Op::DecrementData,
        Instruction::OutputData => Op::OutputData,
        Instruction::InputData => Op::InputData,
        Instruction::Loop(body) => Op::Loop(ops_of(body@)),
    }
}

/// The model of a sequence of instruction trees, element by element.
pub open spec fn ops_of(s: Seq<Instruction>) -> Seq<Op>
    decreases s,
{
    if s.len() == 0 {
        Seq::empty()
    } else {
        ops_of(s.drop_last()).push(op_of(s.last()))
    }
}

/// Structures the tokens from index `pos` on, up to and including the first
/// `EndLoop` that closes this level, or to the end. Gives the instructions of
/// this level and the index of the first token after them. A `BeginLoop`
/// takes what the next level gives as its body, whether or not an `EndLoop`
/// closed it.
pub open spec fn structure_at(toks: Seq<Token>, pos: nat) -> (Seq<Op>, nat)
    decreases toks.len() - pos,
{
    if pos >= toks.len() {
        (Seq::empty(), pos)
    } else {
        match toks[pos as int] {
            Token::EndLoop => (Seq::empty(), pos + 1),
            Token::BeginLoop => {
                let (body, after) = structure_at(toks, pos + 1);
                // `pos < after <= toks.len()` always holds (see
                // `lemma_structure_at_advances`)
                if pos < after <= toks.len() {
                    let (rest, end) = structure_at(toks, after);
                    (seq![Op::Loop(body)] + rest, end)
                } else {
                    (seq![Op::Loop(body)], after)
                }
            },
            _ => {
                let (rest, end) = structure_at(toks, pos + 1);
                (seq![prim_op(toks[pos as int])] + rest, end)
            },
        }
    }
}

/// The instruction for a token other than `BeginLoop` and `EndLoop`.
pub open spec fn prim_op(t: Token) -> Op {
    match t {
        Token::NextCell => Op::NextCell,
        Token::PreviousCell => Op::PreviousCell,
        Token::IncrementData => Op::IncrementData,
        Token::DecrementData => Op::DecrementData,
        Token::OutputData => Op::OutputData,
        _ => Op::InputData,
    }
}

/// The program that a token sequence structures into: its top level, which
/// ends at the first unmatched `EndLoop` or at the end of the tokens.
pub open spec fn structure(toks: Seq<Token>) -> Seq<Op> {
    structure_at(toks, 0).0
}

/// The program of a source text.
pub open spec fn program_of(source: Seq<char>) -> Seq<Op> {
    structure(tokens_of(source))
}

/// A level that starts before the end consumes at least one token and never
/// runs past the end.
pub proof fn lemma_structure_at_advances(toks: Seq<Token>, pos: nat)
    requires
        pos <= toks.len(),
    ensures
        pos <= structure_at(toks, pos).1 <= toks.len(),
        pos < toks.len() ==> pos < structure_at(toks, pos).1,
    decreases toks.len() - pos,
{
    if pos < toks.len() {
        lemma_structure_at_advances(toks, pos + 1);
        if toks[pos as int] == Token::BeginLoop {
            let after = structure_at(toks, pos + 1).1;
            lemma_structure_at_advances(toks, after);
        }
    }
}

proof fn lemma_ops_of_push(s: Seq<Instruction>, i: Instruction)
    ensures
        ops_of(s.push(i)) == ops_of(s).push(op_of(i)),
{
    assert(s.push(i).drop_last() =~= s);
}

/// Structures `tokens` from index `pos` on, as `structure_at` describes.
fn parse_tokens(tokens: &Vec<Token>, pos: usize) -> (r: (Vec<Instruction>, usize))
    requires
        pos <= tokens.len(),
    ensures
        (ops_of(r.0@), r.1 as nat) == structure_at(tokens@, pos as nat),
        pos <= r.1 <= tokens.len(),
    decreases tokens.len() - pos,
{
    let ghost toks = tokens@;
    let mut instructions: Vec<Instruction> = Vec::new();
    let mut i: usize = pos;
    proof {
        assert(ops_of(instructions@) + structure_at(toks, pos as nat).0 =~= structure_at(toks, pos as nat).0);
    }
    while i < tokens.len()
        invariant
            toks == tokens@,
            pos <= i <= tokens.len(),
            structure_at(toks, pos as nat).0 == ops_of(instructions@) + structure_at(toks, i as nat).0,
            structure_at(toks, pos as nat).1 == structure_at(toks, i as nat).1,
        decreases tokens.len() - i,
    {
        let t = tokens[i];
        let ghost before = instructions@;
        let instruction = match t {
            Token::NextCell => Instruction::NextCell,
            Token::PreviousCell => Instruction::PreviousCell,
            Token::IncrementData => Instruction::IncrementData,
            Token::DecrementData => Instruction::DecrementData,
            Token::OutputData => Instruction::OutputData,
            Token::InputData => Instruction::InputData,
            Token::BeginLoop => {
                let (body, after) = parse_tokens(tokens, i + 1);
                proof {
                    lemma_ops_of_push(before, Instruction::Loop(body));
                    assert(ops_of(before) + structure_at(toks, i as nat).0 =~= ops_of(before).push(op_of(Instruction::Loop(body))) + structure_at(toks, after as nat).0);
                }
                instructions.push(Instruction::Loop(body));
                i = after;
                continue;
            },
            Token::EndLoop => {
                proof {
                    assert(ops_of(instructions@) + structure_at(toks, i as nat).0 =~= ops_of(instructions@));
                }
                return (instructions, i + 1);
            },
        };
        proof {
            lemma_ops_of_push(before, instruction);
            assert(ops_of(before) + structure_at(toks, i as nat).0 =~= ops_of(before).push(op_of(instruction)) + structure_at(toks, (i + 1) as nat).0);
        }
        instructions.push(instruction);
        i += 1;
    }
    proof {
        assert(ops_of(instructions@) + structure_at(toks, i as nat).0 =~= ops_of(instructions@));
    }
    (instructions, i)
}

/// Tokenizes `source_code` and structures the tokens into an instruction
/// tree. An unmatched `]` ends the program there; an unmatched `[` takes
/// everything after it as its body.
pub fn parse(source_code: &str) -> (r: Vec<Instruction>)
    ensures
        ops_of(r@) == program_of(source_code@),
{
    let tokens = lex(source_code);
    let (instructions, _end) = parse_tokens(&tokens, 0);
    instructions
}

} // verus!

verus! {

/// How a token changes the loop nesting depth.
pub open spec fn depth_change(t: Token) -> int {
    match t {
        Token::BeginLoop => 1,
        Token::EndLoop => -1,
        _ => 0,
    }
}

/// The loop nesting depth at the end of `s`: opened loops minus closed ones.
pub open spec fn depth(s: Seq<Token>) -> int
    decreases s.len(),
{
    if s.len() == 0 {
        0
    } else {
        depth(s.drop_last()) + depth_change(s.last())
    }
}

/// Every `EndLoop` closes an earlier `BeginLoop` and every `BeginLoop` is
/// closed.
pub open spec fn balanced(s: Seq<Token>) -> bool {
    &&& depth(s) == 0
    &&& forall|k: int| 0 <= k <= s.len() ==> #[trigger] depth(s.take(k)) >= 0
}

/// The tokens of an instruction: a primitive's own token, or a loop's body
/// between `BeginLoop` and `EndLoop`.
pub open spec fn flatten_op(op: Op) -> Seq<Token>
    decreases op,
{
    match op {
        Op::NextCell => seq![Token::NextCell],
        Op::PreviousCell => seq![Token::PreviousCell],
        Op::IncrementData => seq![Token::IncrementData],
        Op::DecrementData => seq![Token::DecrementData],
        Op::OutputData => seq![Token::OutputData],
        Op::InputData => seq![Token::InputData],
        Op::Loop(body) => seq![Token::BeginLoop] + flatten(body) + seq![Token::EndLoop],
    }
}

/// The tokens of a sequence of instructions, one after the other.
pub open spec fn flatten(ops: Seq<Op>) -> Seq<Token>
    decreases ops,
{
    if ops.len() == 0 {
        Seq::empty()
    } else {
        flatten_op(ops[0]) + flatten(ops.drop_first())
    }
}

proof fn lemma_depth_concat(a: Seq<Token>, b: Seq<Token>)
    ensures
        depth(a + b) == depth(a) + depth(b),
    decreases b.len(),
{
    if b.len() == 0 {
        assert(a + b =~= a);
    } else {
        assert((a + b).drop_last() =~= a + b.drop_last());
        lemma_depth_concat(a, b.drop_last());
    }
}

proof fn lemma_depth_first(s: Seq<Token>)
    requires
        s.len() > 0,
    ensures
        depth(s.take(1)) == depth_change(s[0]),
{
    assert(s.take(1).drop_last() =~= Seq::<Token>::empty());
    assert(depth(Seq::<Token>::empty()) == 0);
}

proof fn lemma_flatten_cons(op: Op, rest: Seq<Op>)
    ensures
        flatten(seq![op] + rest) == flatten_op(op) + flatten(rest),
{
    assert((seq![op] + rest).drop_first() =~= rest);
}

/// Scans a balanced sequence that opens with `BeginLoop` for the `EndLoop`
/// that closes it, given that the depth stayed positive on the prefixes
/// shorter than `k`.
proof fn lemma_scan_for_close(s: Seq<Token>, k: int) -> (m: int)
    requires
        balanced(s),
        s.len() > 0,
        s[0] == Token::BeginLoop,
        1 <= k <= s.len(),
        forall|j: int| 1 <= j < k ==> #[trigger] depth(s.take(j)) >= 1,
    ensures
        0 < m < s.len(),
        s[m] == Token::EndLoop,
        depth(s.take(m)) == 1,
        depth(s.take(m + 1)) == 0,
        forall|j: int| 1 <= j <= m ==> #[trigger] depth(s.take(j)) >= 1,
    decreases s.len() - k,
{
    lemma_depth_first(s);
    assert(s.take(s.len() as int) =~= s);
    assert(s.take(k).drop_last() =~= s.take(k - 1));
    assert(depth(s.take(k)) >= 0);
    if depth(s.take(k)) == 0 {
        assert(s.take(k).last() == s[k - 1]);
        assert(depth(s.take(k - 1)) >= 1);
        assert(depth(s.take(k)) == depth(s.take(k - 1)) + depth_change(s[k - 1]));
        k - 1
    } else {
        lemma_scan_for_close(s, k + 1)
    }
}

/// A balanced sequence that opens with `BeginLoop` has a matching `EndLoop`
/// at some `m`; what lies between them, and what follows, are balanced.
proof fn lemma_matching_close(s: Seq<Token>) -> (m: int)
    requires
        balanced(s),
        s.len() > 0,
        s[0] == Token::BeginLoop,
    ensures
        0 < m < s.len(),
        s[m] == Token::EndLoop,
        balanced(s.subrange(1, m)),
        balanced(s.subrange(m + 1, s.len() as int)),
{
    let m = lemma_scan_for_close(s, 1);
    let inner = s.subrange(1, m);
    let after = s.subrange(m + 1, s.len() as int);
    assert(s.take(s.len() as int) =~= s);
    assert forall|j: int| 0 <= j <= inner.len() implies #[trigger] depth(inner.take(j)) >= 0 && (j
        == inner.len() ==> depth(inner.take(j)) == 0) by {
        assert(s.take(j + 1) =~= s.take(1) + inner.take(j));
        lemma_depth_concat(s.take(1), inner.take(j));
        lemma_depth_first(s);
    }
    assert(inner.take(inner.len() as int) =~= inner);
    assert forall|j: int| 0 <= j <= after.len() implies #[trigger] depth(after.take(j)) >= 0 && (j
        == after.len() ==> depth(after.take(j)) == 0) by {
        assert(s.take(m + 1 + j) =~= s.take(m + 1) + after.take(j));
        lemma_depth_concat(s.take(m + 1), after.take(j));
    }
    assert(after.take(after.len() as int) =~= after);
    assert(s.take(s.len() as int) =~= s);
    m
}

/// A balanced run of tokens from `pos` to `e`, ended by the end of the
/// tokens or by an `EndLoop` at `e`, structures into instructions whose
/// tokens are exactly that run.
proof fn lemma_structure_balanced_run(toks: Seq<Token>, pos: nat, e: nat)
    requires
        pos <= e <= toks.len(),
        balanced(toks.subrange(pos as int, e as int)),
        e == toks.len() || toks[e as int] == Token::EndLoop,
    ensures
        structure_at(toks, pos).1 == (if e == toks.len() { e } else { e + 1 }),
        flatten(structure_at(toks, pos).0) == toks.subrange(pos as int, e as int),
    decreases e - pos,
{
    let s = toks.subrange(pos as int, e as int);
    if pos == e {
        assert(s =~= Seq::<Token>::empty());
    } else {
        lemma_depth_first(s);
        assert(depth(s.take(1)) >= 0);
        let t = toks[pos as int];
        if t == Token::BeginLoop {
            let m = lemma_matching_close(s);
            let close: int = pos + m;
            assert(toks.subrange(pos + 1int, close) =~= s.subrange(1, m));
            assert(toks.subrange(close + 1, e as int) =~= s.subrange(m + 1, s.len() as int));
            lemma_structure_balanced_run(toks, pos + 1, close as nat);
            lemma_structure_balanced_run(toks, (close + 1) as nat, e);
            let body = structure_at(toks, pos + 1).0;
            let rest = structure_at(toks, (close + 1) as nat).0;
            lemma_flatten_cons(Op::Loop(body), rest);
            assert(toks.subrange(pos as int, e as int) =~= seq![Token::BeginLoop] + toks.subrange(
                pos + 1int,
                close,
            ) + seq![Token::EndLoop] + toks.subrange(close + 1, e as int));
        } else {
            let tail = toks.subrange(pos + 1int, e as int);
            assert(s =~= seq![t] + tail);
            lemma_depth_concat(seq![t], tail);
            lemma_depth_first(s);
            assert(s.take(1) =~= seq![t]);
            assert forall|j: int| 0 <= j <= tail.len() implies #[trigger] depth(tail.take(j))
                >= 0 by {
                assert(s.take(j + 1) =~= seq![t] + tail.take(j));
                lemma_depth_concat(seq![t], tail.take(j));
            }
            assert(tail.take(tail.len() as int) =~= tail);
            assert(s.take(s.len() as int) =~= s);
            lemma_structure_balanced_run(toks, pos + 1, e);
            let rest = structure_at(toks, pos + 1).0;
            lemma_flatten_cons(prim_op(t), rest);
        }
    }
}

/// Structuring a balanced token sequence uses every token, and writing the
/// instruction tree back out as tokens gives the same sequence: each loop
/// holds exactly what stood between its brackets, in order.
pub proof fn lemma_structure_round_trip(toks: Seq<Token>)
    requires
        balanced(toks),
    ensures
        flatten(structure(toks)) == toks,
        structure_at(toks, 0).1 == toks.len(),
{
    assert(toks.subrange(0, toks.len() as int) =~= toks);
    lemma_structure_balanced_run(toks, 0, toks.len());
}

/// An `EndLoop` that closes nothing ends the program: after a balanced
/// prefix `a`, the program's tokens are exactly `a`, and structuring stops
/// right after the stray `EndLoop`, so nothing in `b` is reached.
pub proof fn lemma_stray_close_ends_program(a: Seq<Token>, b: Seq<Token>)
    requires
        balanced(a),
    ensures
        flatten(structure(a + seq![Token::EndLoop] + b)) == a,
        structure_at(a + seq![Token::EndLoop] + b, 0).1 == a.len() + 1,
{
    let toks = a + seq![Token::EndLoop] + b;
    assert(toks.subrange(0, a.len() as int) =~= a);
    assert(toks[a.len() as int] == Token::EndLoop);
    lemma_structure_balanced_run(toks, 0, a.len());
}

/// A `BeginLoop` that nothing closes takes the rest of the tokens as its
/// body: before a balanced `a`, the program is one loop whose body's tokens
/// are exactly `a`.
pub proof fn lemma_unclosed_loop_takes_rest(a: Seq<Token>)
    requires
        balanced(a),
    ensures
        structure(seq![Token::BeginLoop] + a).len() == 1,
        structure(seq![Token::BeginLoop] + a)[0] is Loop,
        flatten(structure(seq![Token::BeginLoop] + a)[0]->Loop_0) == a,
{
    let toks = seq![Token::BeginLoop] + a;
    assert(toks.subrange(1, toks.len() as int) =~= a);
    lemma_structure_balanced_run(toks, 1, toks.len());
    assert(structure_at(toks, toks.len()).0 =~= Seq::<Op>::empty());
}

} // verus!
