//! The tokenizer: source characters to tokens.
use vstd::prelude::*;

verus! {

/// One of the eight symbols of the language.
#[derive(PartialEq, Eq, Structural, Debug, Clone, Copy)]
pub enum Token {
    NextCell,
    PreviousCell,
    IncrementData,
    DecrementData,
    OutputData,
    InputData,
    BeginLoop,
    EndLoop,
}

/// The token a character stands for, if any.
pub open spec fn token_of(c: char) -> Option<Token> {
    if c == '>' {
        Some(Token::NextCell)
    } else if c == '<' {
        Some(Token::PreviousCell)
    } else if c == '+' {
        Some(Token::IncrementData)
    } else if c == '-' {
        Some(Token::DecrementData)
    } else if c == '.' {
        Some(Token::OutputData)
    } else if c == ',' {
        Some(Token::InputData)
    } else if c == '[' {
        Some(Token::BeginLoop)
    } else if c == ']' {
        Some(Token::EndLoop)
    } else {
        None
    }
}

/// The tokens of `chars`, in order; characters that stand for no token are
/// dropped.
pub open spec fn tokens_of(chars: Seq<char>) -> Seq<Token>
    decreases chars.len(),
{
    if chars.len() == 0 {
        Seq::empty()
    } else {
        let init = tokens_of(chars.drop_last());
        match token_of(chars.last()) {
            Some(t) => init.push(t),
            None => init,
        }
    }
}

fn classify(c: char) -> (r: Option<Token>)
    ensures
        r == token_of(c),
{
    match c {
        '>' => Some(Token::NextCell),
        '<' => Some(Token::PreviousCell),
        '+' => Some(Token::IncrementData),
        '-' => Some(Token::DecrementData),
        '.' => Some(Token::OutputData),
        ',' => Some(Token::InputData),
        '[' => Some(Token::BeginLoop),
        ']' => Some(Token::EndLoop),
        _ => None,
    }
}

/// Maps each recognized character of `source_code` to its token, keeping
/// their order and skipping every other character.
pub fn lex(source_code: &str) -> (r: Vec<Token>)
    ensures
        r@ == tokens_of(source_code@),
{
    let mut tokens: Vec<Token> = Vec::new();
    for c in it: source_code.chars()
        invariant
            it.seq() == source_code@,
            tokens@ == tokens_of(source_code@.take(it.index() as int)),
    {
        proof {
            assert(source_code@.take(it.index() + 1).drop_last() =~= source_code@.take(it.index() as int));
        }
        match classify(c) {
            Some(t) => tokens.push(t),
            None => {},
        }
    }
    proof {
        assert(source_code@.take(source_code@.len() as int) =~= source_code@);
    }
    tokens
}

} // verus!
