use logic_solver::lexer::{Lexer, Operator, Token, Value};

#[test]
fn test_lexer_simple() {
    let mut lexer = Lexer::new("1 ^ 0 v ~1 => 0 <=> 1");
    let mut result: Vec<Token> = Vec::new();
    while let Some(item) = lexer.next() {
        result.push(item.unwrap());
    }

    let expected = vec![
        Token::Value(Value::Bool(true)),
        Token::Operator(Operator::And),
        Token::Value(Value::Bool(false)),
        Token::Operator(Operator::Or),
        Token::Operator(Operator::Not),
        Token::Value(Value::Bool(true)),
        Token::Operator(Operator::Implication),
        Token::Value(Value::Bool(false)),
        Token::Operator(Operator::Equivalence),
        Token::Value(Value::Bool(true)),
    ];
    assert_eq!(result, expected);
}

#[test]
fn test_lexer_parents() {
    let mut lexer = Lexer::new("(1 ^ 0) ^ 1");
    let mut result: Vec<Token> = Vec::new();
    while let Some(item) = lexer.next() {
        result.push(item.unwrap());
    }

    let expected = vec![
        Token::Operator(Operator::ParenthisOpen),
        Token::Value(Value::Bool(true)),
        Token::Operator(Operator::And),
        Token::Value(Value::Bool(false)),
        Token::Operator(Operator::ParenthisClosed),
        Token::Operator(Operator::And),
        Token::Value(Value::Bool(true)),
    ];
    assert_eq!(result, expected);
}

#[test]
fn test_lexer_variables() {
    let mut lexer = Lexer::new("p := 1 q := 0 p ^ q");
    let mut result: Vec<Token> = Vec::new();
    while let Some(item) = lexer.next() {
        result.push(item.unwrap());
    }

    let expected = vec![
        Token::Value(Value::Variable("p".to_string())),
        Token::Operator(Operator::Assign),
        Token::Value(Value::Bool(true)),
        Token::Value(Value::Variable("q".to_string())),
        Token::Operator(Operator::Assign),
        Token::Value(Value::Bool(false)),
        Token::Value(Value::Variable("p".to_string())),
        Token::Operator(Operator::And),
        Token::Value(Value::Variable("q".to_string())),
    ];
    assert_eq!(result, expected);
}

#[test]
fn test_lexer_bare_colon_is_skipped() {
    let mut lexer = Lexer::new("1 : 0");
    let mut result: Vec<Token> = Vec::new();
    while let Some(item) = lexer.next() {
        result.push(item.unwrap());
    }
    let expected = vec![
        Token::Value(Value::Bool(true)),
        Token::Value(Value::Bool(false)),
    ];
    assert_eq!(result, expected);
}

#[test]
fn test_lexer_bare_equals_is_an_error() {
    let mut lexer = Lexer::new("1 = 0");
    let first = lexer.next().unwrap();
    assert_eq!(first, Ok(Token::Value(Value::Bool(true))));
    let second = lexer.next().unwrap();
    assert_eq!(
        second,
        Err(logic_solver::lexer::LexError::IncompleteOperator('='))
    );
}

#[test]
fn test_lexer_incomplete_equivalence_is_an_error() {
    let mut lexer = Lexer::new("<1");
    let first = lexer.next().unwrap();
    assert_eq!(
        first,
        Err(logic_solver::lexer::LexError::IncompleteOperator('<'))
    );
}

#[test]
fn test_lexer_rejects_other_digits() {
    let mut lexer = Lexer::new("5");
    let first = lexer.next().unwrap();
    assert_eq!(
        first,
        Err(logic_solver::lexer::LexError::UnexpectedCharacter('5'))
    );
}

#[test]
fn test_lexer_rejects_unknown_characters() {
    let mut lexer = Lexer::new("1 & 0");
    let first = lexer.next().unwrap();
    assert_eq!(first, Ok(Token::Value(Value::Bool(true))));
    let second = lexer.next().unwrap();
    assert_eq!(
        second,
        Err(logic_solver::lexer::LexError::UnexpectedCharacter('&'))
    );
}

#[test]
fn test_lexer_uppercase_variable() {
    let mut lexer = Lexer::new("V");
    let first = lexer.next().unwrap();
    assert_eq!(first, Ok(Token::Value(Value::Variable("V".to_string()))));
    assert!(lexer.next().is_none());
}
