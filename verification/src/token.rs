use vstd::prelude::*;
use vstd::string::StrSliceExecFns;

verus! {

/// The eight instructions of the language. A token carries no payload; its
/// position in the instruction sequence is its address.
#[derive(Debug, PartialEq, Eq, Clone, Copy, Structural)]
pub enum Token {
    IncrementPointer,
    DecrementPointer,
    IncrementData,
    DecrementData,
    Output,
    Input,
    LoopStart,
    LoopEnd,
}

/// The instruction a single character stands for, or `None` for any
/// character that is not one of the eight symbols (a comment character).
pub open spec fn token_of(c: char) -> Option<Token> {
    if c == '>' {
        Some(Token::IncrementPointer)
    } else if c == '<' {
        Some(Token::DecrementPointer)
    } else if c == '+' {
        Some(Token::IncrementData)
    } else if c == '-' {
        Some(Token::DecrementData)
    } else if c == '.' {
        Some(Token::Output)
    } else if c == ',' {
        Some(Token::Input)
    } else if c == '[' {
        Some(Token::LoopStart)
    } else if c == ']' {
        Some(Token::LoopEnd)
    } else {
        None
    }
}

/// The instruction sequence of a source text: the instructions of its
/// recognized symbols, in source order, with every other character dropped.
pub open spec fn tokens_of(s: Seq<char>) -> Seq<Token>
    decreases s.len(),
{
    if s.len() == 0 {
        Seq::empty()
    } else {
        tokens_of(s.drop_last()) + match token_of(s.last()) {
            Some(t) => seq![t],
            None => Seq::<Token>::empty(),
        }
    }
}

/// How many characters of a text are recognized symbols.
pub open spec fn symbol_count(s: Seq<char>) -> nat
    decreases s.len(),
{
    if s.len() == 0 {
        0
    } else {
        symbol_count(s.drop_last()) + if token_of(s.last()) is Some {
            1nat
        } else {
            0nat
        }
    }
}

/// Law: the tokenized sequence is exactly as long as the count of recognized
/// symbols in the source; every other character contributes nothing.
pub proof fn lemma_tokenize_keeps_symbols(s: Seq<char>)
    ensures
        tokens_of(s).len() == symbol_count(s),
    decreases s.len(),
{
    if s.len() != 0 {
        lemma_tokenize_keeps_symbols(s.drop_last());
    }
}

/// Convert a source text into its instruction sequence, discarding every
/// character that is not one of the eight symbols.
pub fn tokenize(code: &str) -> (tokens: Vec<Token>)
    ensures
        tokens@ == tokens_of(code@),
{
    let n: usize = code.unicode_len();
    let mut tokens: Vec<Token> = Vec::new();
    let mut i: usize = 0;
    while i < n
        invariant
            n == code@.len(),
            i <= n,
            tokens@ == tokens_of(code@.subrange(0, i as int)),
        decreases n - i,
    {
        let c = code.get_char(i);
        proof {
            assert(code@.subrange(0, i + 1).drop_last() =~= code@.subrange(0, i as int));
        }
        match c {
            '>' => tokens.push(Token::IncrementPointer),
            '<' => tokens.push(Token::DecrementPointer),
            '+' => tokens.push(Token::IncrementData),
            '-' => tokens.push(Token::DecrementData),
            '.' => tokens.push(Token::Output),
            ',' => tokens.push(Token::Input),
            '[' => tokens.push(Token::LoopStart),
            ']' => tokens.push(Token::LoopEnd),
            _ => {},
        }
        i += 1;
    }
    proof {
        assert(code@.subrange(0, n as int) =~= code@);
    }
    tokens
}

} // verus!
