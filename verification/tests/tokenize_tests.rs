use brainfuck::Token;
use brainfuck::tokenize;

#[test]
fn test_tokenize_basic() {
    let code = "+-><.,[]";
    let tokens = tokenize(code);

    assert_eq!(
        tokens,
        vec![
            Token::IncrementData,
            Token::DecrementData,
            Token::IncrementPointer,
            Token::DecrementPointer,
            Token::Output,
            Token::Input,
            Token::LoopStart,
            Token::LoopEnd,
        ]
    );
}

#[test]
fn test_tokenize_with_comments() {
    let code = "++ Hello World! [<]";
    let tokens = tokenize(code);

    assert_eq!(
        tokens,
        vec![
            Token::IncrementData,
            Token::IncrementData,
            Token::LoopStart,
            Token::DecrementPointer,
            Token::LoopEnd,
        ]
    );
}

#[test]
fn test_tokenize_empty() {
    let code = "";
    let tokens = tokenize(code);

    assert_eq!(tokens, vec![]);
}

#[test]
fn test_tokenize_length_counts_symbols_only() {
    let code = "a + b - c . d , e > f < g [ h ] i";
    let tokens = tokenize(code);
    assert_eq!(tokens.len(), 8);
}

#[test]
fn test_tokenize_keeps_source_order() {
    let tokens = tokenize("]+[");
    assert_eq!(
        tokens,
        vec![Token::LoopEnd, Token::IncrementData, Token::LoopStart]
    );
}

#[test]
fn test_tokenize_non_ascii_is_comment() {
    let tokens = tokenize("héllo\u{263a}+");
    assert_eq!(tokens, vec![Token::IncrementData]);
}
