use logic_solver::lexer::{Lexer, Operator, Token, Value};
use logic_solver::parser::{construct_ast, ASTNode, ParseError, SyntaxError};

#[test]
fn test_construct_rpn_and() {
    let mut lexer = Lexer::new("1 ^ 0");
    let (results, _vars) = construct_ast(&mut lexer).unwrap();

    let left = ASTNode::new(Token::Value(Value::Bool(true)));
    let right = ASTNode::new(Token::Value(Value::Bool(false)));
    let expected = ASTNode {
        token: Token::Operator(Operator::And),
        left: Some(Box::new(left)),
        right: Some(Box::new(right)),
    };
    assert_eq!(results, expected);
}

#[test]
fn test_construct_ast_and_before_or() {
    let mut lexer = Lexer::new("1 ^ 0 v 1");
    let (results, _vars) = construct_ast(&mut lexer).unwrap();

    let left = ASTNode::new(Token::Value(Value::Bool(true)));
    let middle = ASTNode::new(Token::Value(Value::Bool(false)));
    let right = ASTNode::new(Token::Value(Value::Bool(true)));

    let mut and = ASTNode::new(Token::Operator(Operator::And));
    and.left = Some(Box::new(left));
    and.right = Some(Box::new(middle));

    let expected = ASTNode {
        token: Token::Operator(Operator::Or),
        left: Some(Box::new(and)),
        right: Some(Box::new(right)),
    };
    assert_eq!(results, expected);
}

#[test]
fn test_construct_ast_or_before_and() {
    let mut lexer = Lexer::new("1 v 0 ^ 1");
    let (results, _vars) = construct_ast(&mut lexer).unwrap();

    let left = ASTNode::new(Token::Value(Value::Bool(true)));
    let middle = ASTNode::new(Token::Value(Value::Bool(false)));
    let right = ASTNode::new(Token::Value(Value::Bool(true)));

    let mut and = ASTNode::new(Token::Operator(Operator::And));
    and.left = Some(Box::new(middle));
    and.right = Some(Box::new(right));

    let expected = ASTNode {
        token: Token::Operator(Operator::Or),
        left: Some(Box::new(left)),
        right: Some(Box::new(and)),
    };
    assert_eq!(results, expected);
}

#[test]
fn test_construct_ast_parent_with_lower_prec() {
    let mut lexer = Lexer::new("1 ^ (0 v 1)");
    let (results, _vars) = construct_ast(&mut lexer).unwrap();

    let left = ASTNode::new(Token::Value(Value::Bool(true)));

    let mut or = ASTNode::new(Token::Operator(Operator::Or));
    or.add_left_token(Token::Value(Value::Bool(false)));
    or.add_right_token(Token::Value(Value::Bool(true)));

    let expected = ASTNode {
        token: Token::Operator(Operator::And),
        left: Some(Box::new(left)),
        right: Some(Box::new(or)),
    };
    assert_eq!(results, expected);
}

#[test]
fn test_construct_ast_parent_with_higher_prec() {
    let mut lexer = Lexer::new("(1 ^ 0) v 1");
    let (results, _vars) = construct_ast(&mut lexer).unwrap();

    let right = ASTNode::new(Token::Value(Value::Bool(true)));

    let mut and = ASTNode::new(Token::Operator(Operator::And));
    and.add_left_token(Token::Value(Value::Bool(true)));
    and.add_right_token(Token::Value(Value::Bool(false)));

    let expected = ASTNode {
        token: Token::Operator(Operator::Or),
        left: Some(Box::new(and)),
        right: Some(Box::new(right)),
    };
    assert_eq!(results, expected);
}

#[test]
fn test_construct_rpn_double_parent_should_not_change_anything() {
    let mut lexer = Lexer::new("((1 ^ 0) v 1)");

    let (results, _vars) = construct_ast(&mut lexer).unwrap();

    let right = ASTNode::new(Token::Value(Value::Bool(true)));
    let mut and = ASTNode::new(Token::Operator(Operator::And));
    and.add_left_token(Token::Value(Value::Bool(true)));
    and.add_right_token(Token::Value(Value::Bool(false)));

    let expected = ASTNode {
        token: Token::Operator(Operator::Or),
        left: Some(Box::new(and)),
        right: Some(Box::new(right)),
    };
    assert_eq!(results, expected);
}

#[test]
fn test_construct_ast_negation() {
    let mut lexer = Lexer::new("~1 v 0");
    let (results, _vars) = construct_ast(&mut lexer).unwrap();

    let right = ASTNode::new(Token::Value(Value::Bool(false)));

    let mut not = ASTNode::new(Token::Operator(Operator::Not));
    not.add_left_token(Token::Value(Value::Bool(true)));

    let expected = ASTNode {
        token: Token::Operator(Operator::Or),
        left: Some(Box::new(not)),
        right: Some(Box::new(right)),
    };

    assert_eq!(results, expected);
}

#[test]
fn test_construct_ast_negation_double() {
    let mut lexer = Lexer::new("~1 v ~0");
    let (results, _vars) = construct_ast(&mut lexer).unwrap();

    let mut not = ASTNode::new(Token::Operator(Operator::Not));
    not.add_left_token(Token::Value(Value::Bool(true)));
    let mut not2 = ASTNode::new(Token::Operator(Operator::Not));
    not2.add_left_token(Token::Value(Value::Bool(false)));

    let expected = ASTNode {
        token: Token::Operator(Operator::Or),
        left: Some(Box::new(not)),
        right: Some(Box::new(not2)),
    };

    assert_eq!(results, expected);
}

#[test]
fn test_construct_ast_longer_statement() {
    let mut lexer = Lexer::new("0 ^ 1 v 0 ^ 1");
    let (results, _vars) = construct_ast(&mut lexer).unwrap();

    let mut left_and = ASTNode::new(Token::Operator(Operator::And));
    left_and.add_left_token(Token::Value(Value::Bool(false)));
    left_and.add_right_token(Token::Value(Value::Bool(true)));

    let mut right_and = ASTNode::new(Token::Operator(Operator::And));
    right_and.add_left_token(Token::Value(Value::Bool(false)));
    right_and.add_right_token(Token::Value(Value::Bool(true)));

    let expected = ASTNode {
        token: Token::Operator(Operator::Or),
        left: Some(Box::new(left_and)),
        right: Some(Box::new(right_and)),
    };

    assert_eq!(results, expected);
}

#[test]
fn test_construct_ast_equivalence_precedence() {
    let mut lexer = Lexer::new("~1 v ~0 <=> 0");
    let (results, _vars) = construct_ast(&mut lexer).unwrap();

    let mut or = ASTNode::new(Token::Operator(Operator::Or));
    let mut not_left = ASTNode::new(Token::Operator(Operator::Not));
    let mut not_right = ASTNode::new(Token::Operator(Operator::Not));

    not_left.add_left_token(Token::Value(Value::Bool(true)));
    not_right.add_left_token(Token::Value(Value::Bool(false)));

    or.add_left_child(not_left);
    or.add_right_child(not_right);

    let right = ASTNode::new(Token::Value(Value::Bool(false)));

    let expected = ASTNode {
        token: Token::Operator(Operator::Equivalence),
        left: Some(Box::new(or)),
        right: Some(Box::new(right)),
    };

    assert_eq!(results, expected);
}

#[test]
fn test_make_new_root_left_hangs_tree_on_the_left() {
    let leaf = ASTNode::new(Token::Value(Value::Bool(true)));
    let root = leaf.make_new_root_left(Token::Operator(Operator::Not));
    let expected = ASTNode {
        token: Token::Operator(Operator::Not),
        left: Some(Box::new(ASTNode::new(Token::Value(Value::Bool(true))))),
        right: None,
    };
    assert_eq!(root, expected);
}

#[test]
fn test_make_new_root_right_hangs_tree_on_the_right() {
    let leaf = ASTNode::new(Token::Value(Value::Bool(false)));
    let root = leaf.make_new_root_right(Token::Operator(Operator::And));
    let expected = ASTNode {
        token: Token::Operator(Operator::And),
        left: None,
        right: Some(Box::new(ASTNode::new(Token::Value(Value::Bool(false))))),
    };
    assert_eq!(root, expected);
}

#[test]
fn test_construct_ast_two_values_without_operator_fail() {
    let mut lexer = Lexer::new("1 1");
    let result = construct_ast(&mut lexer);
    assert_eq!(
        result.unwrap_err(),
        SyntaxError::Parse(ParseError::MissingOperator)
    );
}

#[test]
fn test_construct_ast_unmatched_close_paren_fails() {
    let mut lexer = Lexer::new(")1");
    let result = construct_ast(&mut lexer);
    assert_eq!(
        result.unwrap_err(),
        SyntaxError::Parse(ParseError::UnmatchedCloseParenthesis)
    );
}

#[test]
fn test_construct_ast_unmatched_open_paren_fails() {
    let mut lexer = Lexer::new("(1");
    let result = construct_ast(&mut lexer);
    assert_eq!(
        result.unwrap_err(),
        SyntaxError::Parse(ParseError::UnmatchedOpenParenthesis)
    );
}

#[test]
fn test_construct_ast_empty_input_fails() {
    let mut lexer = Lexer::new("");
    let result = construct_ast(&mut lexer);
    assert_eq!(
        result.unwrap_err(),
        SyntaxError::Parse(ParseError::EmptyExpression)
    );
}

#[test]
fn test_construct_ast_missing_operand_fails() {
    let mut lexer = Lexer::new("1 ^");
    let result = construct_ast(&mut lexer);
    assert_eq!(
        result.unwrap_err(),
        SyntaxError::Parse(ParseError::MissingOperand)
    );
}

#[test]
fn test_construct_ast_lex_error_aborts() {
    let mut lexer = Lexer::new("1 ^ <0");
    let result = construct_ast(&mut lexer);
    assert_eq!(
        result.unwrap_err(),
        SyntaxError::Lex(logic_solver::lexer::LexError::IncompleteOperator('<'))
    );
}

#[test]
fn test_construct_ast_assignment_fills_bindings() {
    let mut lexer = Lexer::new("p := 1 q := 0 p ^ q");
    let (_tree, vars) = construct_ast(&mut lexer).unwrap();
    assert_eq!(vars.get(&"p".to_string()), Some(true));
    assert_eq!(vars.get(&"q".to_string()), Some(false));
    assert_eq!(vars.get(&"r".to_string()), None);
}

#[test]
fn test_construct_ast_assignment_rebinding_overwrites() {
    let mut lexer = Lexer::new("p := 1 p := 0 p");
    let (_tree, vars) = construct_ast(&mut lexer).unwrap();
    assert_eq!(vars.get(&"p".to_string()), Some(false));
}

#[test]
fn test_construct_ast_assignment_from_variable() {
    let mut lexer = Lexer::new("p := 1 q := p q");
    let (_tree, vars) = construct_ast(&mut lexer).unwrap();
    assert_eq!(vars.get(&"q".to_string()), Some(true));
}

#[test]
fn test_construct_ast_assignment_from_undefined_variable_fails() {
    let mut lexer = Lexer::new("p := q p");
    let result = construct_ast(&mut lexer);
    assert_eq!(
        result.unwrap_err(),
        SyntaxError::Parse(ParseError::UndefinedVariable("q".to_string()))
    );
}

#[test]
fn test_construct_ast_assignment_after_expression_fails() {
    let mut lexer = Lexer::new("1 v 0 p := 1");
    let result = construct_ast(&mut lexer);
    assert_eq!(
        result.unwrap_err(),
        SyntaxError::Parse(ParseError::MisplacedAssignment)
    );
}

#[test]
fn test_construct_ast_assignment_to_literal_fails() {
    let mut lexer = Lexer::new("1 := 1");
    let result = construct_ast(&mut lexer);
    assert_eq!(
        result.unwrap_err(),
        SyntaxError::Parse(ParseError::MisplacedAssignment)
    );
}

#[test]
fn test_construct_ast_assignment_without_value_fails() {
    let mut lexer = Lexer::new("p :=");
    let result = construct_ast(&mut lexer);
    assert_eq!(
        result.unwrap_err(),
        SyntaxError::Parse(ParseError::MissingAssignmentValue)
    );
}
