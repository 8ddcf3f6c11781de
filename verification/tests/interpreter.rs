use logic_solver::interpreter::{eval_binary, evaluate, EvalError};
use logic_solver::lexer::{Operator, Token, Value};
use logic_solver::parser::{ASTNode, StoredVariables};

#[test]
fn test_eval_binary() {
    let left = Box::new(ASTNode::new(Token::Value(Value::Bool(true))));
    let right = Box::new(ASTNode::new(Token::Value(Value::Bool(false))));

    let result =
        eval_binary(Some(left), Some(right), &StoredVariables::new(), |a, b| a && b).unwrap();

    assert_eq!(result, false);
}

#[test]
fn test_eval_binary_should_handle_missing_value() {
    let left = Box::new(ASTNode::new(Token::Value(Value::Bool(true))));
    let result = eval_binary(Some(left), None, &StoredVariables::new(), |a, b| a && b);

    assert!(result.is_err());
}

#[test]
fn test_eval_binary_names_the_missing_side() {
    let leaf = || Box::new(ASTNode::new(Token::Value(Value::Bool(true))));
    let vars = StoredVariables::new();
    assert_eq!(
        eval_binary(Some(leaf()), None, &vars, |a, b| a && b),
        Err(EvalError::MissingRightOperand)
    );
    assert_eq!(
        eval_binary(None, Some(leaf()), &vars, |a, b| a && b),
        Err(EvalError::MissingLeftOperand)
    );
    assert_eq!(
        eval_binary(None, None, &vars, |a, b| a && b),
        Err(EvalError::MissingBothOperands)
    );
}

#[test]
fn test_evaluate_undefined_variable_fails() {
    let node = ASTNode::new(Token::Value(Value::Variable("x".to_string())));
    let result = evaluate(node, &StoredVariables::new());
    assert_eq!(result, Err(EvalError::UndefinedVariable("x".to_string())));
}

#[test]
fn test_evaluate_bound_variable() {
    let node = ASTNode::new(Token::Value(Value::Variable("x".to_string())));
    let mut vars = StoredVariables::new();
    vars.insert("x".to_string(), true);
    assert_eq!(evaluate(node, &vars), Ok(true));
}

#[test]
fn test_evaluate_negation_without_child_fails() {
    let node = ASTNode::new(Token::Operator(Operator::Not));
    let result = evaluate(node, &StoredVariables::new());
    assert_eq!(result, Err(EvalError::MissingNegationOperand));
}

#[test]
fn test_evaluate_parenthesis_node_fails() {
    let node = ASTNode::new(Token::Operator(Operator::ParenthisOpen));
    let result = evaluate(node, &StoredVariables::new());
    assert_eq!(
        result,
        Err(EvalError::UnexpectedOperator(Operator::ParenthisOpen))
    );
}
