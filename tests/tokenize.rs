use bfrsc::parse::{Program, Token};

fn tokens(src: &str) -> Vec<Token> {
    Program::parse(src).tokens
}

#[test]
fn run_of_increments_merges_into_one_token() {
    assert_eq!(tokens("++++"), vec![Token::Increment(4)]);
}

#[test]
fn outputs_are_never_merged() {
    assert_eq!(tokens("...."), vec![Token::Output; 4]);
}

#[test]
fn inputs_and_brackets_are_never_merged() {
    assert_eq!(tokens(",,"), vec![Token::Input, Token::Input]);
    assert_eq!(
        tokens("[[]]"),
        vec![Token::LoopStart, Token::LoopStart, Token::LoopEnd, Token::LoopEnd]
    );
}

#[test]
fn commentary_is_transparent_inside_a_run() {
    assert_eq!(tokens("+a+"), vec![Token::Increment(2)]);
    assert_eq!(tokens("+a+"), tokens("++"));
}

#[test]
fn commentary_alone_gives_no_tokens() {
    assert_eq!(tokens(""), vec![]);
    assert_eq!(tokens("hello world\n"), vec![]);
}

#[test]
fn different_symbols_break_runs() {
    assert_eq!(
        tokens(">>><<+--"),
        vec![
            Token::Right(3),
            Token::Left(2),
            Token::Increment(1),
            Token::Decrement(2)
        ]
    );
    assert_eq!(
        tokens("+.+"),
        vec![Token::Increment(1), Token::Output, Token::Increment(1)]
    );
}

#[test]
fn long_run_keeps_its_full_count() {
    let src = ">".repeat(1000);
    assert_eq!(tokens(&src), vec![Token::Right(1000)]);
}

#[test]
fn non_ascii_commentary_is_dropped() {
    assert_eq!(tokens("-é-ü-"), vec![Token::Decrement(3)]);
}

#[test]
fn from_str_matches_parse() {
    let p = Program::from("+x+ [>.]");
    assert_eq!(p.tokens, tokens("+x+ [>.]"));
    assert_eq!(
        p.tokens,
        vec![
            Token::Increment(2),
            Token::LoopStart,
            Token::Right(1),
            Token::Output,
            Token::LoopEnd
        ]
    );
}

#[test]
fn from_char_maps_each_symbol() {
    assert_eq!(Token::from_char('>', 3), Some(Token::Right(3)));
    assert_eq!(Token::from_char('<', 2), Some(Token::Left(2)));
    assert_eq!(Token::from_char('+', 5), Some(Token::Increment(5)));
    assert_eq!(Token::from_char('-', 1), Some(Token::Decrement(1)));
    assert_eq!(Token::from_char('.', 7), Some(Token::Output));
    assert_eq!(Token::from_char(',', 7), Some(Token::Input));
    assert_eq!(Token::from_char('[', 2), Some(Token::LoopStart));
    assert_eq!(Token::from_char(']', 2), Some(Token::LoopEnd));
    assert_eq!(Token::from_char('x', 1), None);
}
