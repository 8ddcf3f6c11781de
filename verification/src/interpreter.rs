use vstd::prelude::*;

use crate::lexer::{Operator, Token, TokenView, Value, ValueView};
use crate::parser::{tree_view, ASTNode, StoredVariables, TreeView};

verus! {

/// A failure of the evaluator.
#[derive(Debug, PartialEq)]
pub enum EvalError {
    /// A variable leaf named a variable absent from the bindings table.
    UndefinedVariable(String),
    /// A binary node lacked its left child.
    MissingLeftOperand,
    /// A binary node lacked its right child.
    MissingRightOperand,
    /// A binary node had no children at all.
    MissingBothOperands,
    /// A negation node had no child to negate.
    MissingNegationOperand,
    /// A node carried an operator that cannot stand in a finished tree.
    UnexpectedOperator(Operator),
}

/// The mathematical shape of an `EvalError`.
pub enum EvalErrorView {
    UndefinedVariable(Seq<char>),
    MissingLeftOperand,
    MissingRightOperand,
    MissingBothOperands,
    MissingNegationOperand,
    UnexpectedOperator(Operator),
}

impl View for EvalError {
    type V = EvalErrorView;

    open spec fn view(&self) -> EvalErrorView {
        match self {
            EvalError::UndefinedVariable(s) => EvalErrorView::UndefinedVariable(s@),
            EvalError::MissingLeftOperand => EvalErrorView::MissingLeftOperand,
            EvalError::MissingRightOperand => EvalErrorView::MissingRightOperand,
            EvalError::MissingBothOperands => EvalErrorView::MissingBothOperands,
            EvalError::MissingNegationOperand => EvalErrorView::MissingNegationOperand,
            EvalError::UnexpectedOperator(op) => EvalErrorView::UnexpectedOperator(*op),
        }
    }
}

/// The truth table of each binary operator: conjunction, disjunction,
/// implication (false exactly when the left side is true and the right side
/// false), and equivalence.
pub open spec fn apply_binary(op: Operator, a: bool, b: bool) -> bool {
    match op {
        Operator::Equivalence => a == b,
        Operator::Implication => !(a && !b),
        Operator::Or => a || b,
        Operator::And => a && b,
        _ => false,
    }
}

/// The meaning of a tree under a table of bindings: literals and bound
/// variables evaluate to their values, negation and the binary operators to
/// the usual boolean semantics, and every malformed shape to a definite
/// error. The left child of a binary node is evaluated first, so an error on
/// the left hides one on the right.
pub open spec fn spec_eval(t: TreeView, binds: Map<Seq<char>, bool>) -> Result<
    bool,
    EvalErrorView,
>
    decreases t,
{
    match t.token {
        TokenView::Value(ValueView::Bool(b)) => Ok(b),
        TokenView::Value(ValueView::Variable(name)) => {
            if binds.contains_key(name) {
                Ok(binds[name])
            } else {
                Err(EvalErrorView::UndefinedVariable(name))
            }
        },
        TokenView::Operator(op) => {
            if op == Operator::Not {
                match t.left {
                    Some(child) => (match spec_eval(*child, binds) {
                        Ok(v) => Ok(!v),
                        Err(e) => Err(e),
                    }),
                    None => Err(EvalErrorView::MissingNegationOperand),
                }
            } else if op == Operator::Equivalence || op == Operator::Implication || op
                == Operator::Or || op == Operator::And {
                match (t.left, t.right) {
                    (Some(l), Some(r)) => (match spec_eval(*l, binds) {
                        Err(e) => Err(e),
                        Ok(a) => (match spec_eval(*r, binds) {
                            Err(e) => Err(e),
                            Ok(b) => Ok(apply_binary(op, a, b)),
                        }),
                    }),
                    (Some(_), None) => Err(EvalErrorView::MissingRightOperand),
                    (None, Some(_)) => Err(EvalErrorView::MissingLeftOperand),
                    (None, None) => Err(EvalErrorView::MissingBothOperands),
                }
            } else {
                Err(EvalErrorView::UnexpectedOperator(op))
            }
        },
    }
}

/// The shape of an evaluation outcome.
pub open spec fn eval_result_view(r: Result<bool, EvalError>) -> Result<bool, EvalErrorView> {
    match r {
        Ok(b) => Ok(b),
        Err(e) => Err(e@),
    }
}

/// The height of a tree hanging below an optional child; used as the measure
/// that shows evaluation terminates.
pub open spec fn opt_height(o: Option<Box<ASTNode>>) -> nat
    decreases o,
{
    match o {
        None => 0,
        Some(child) => node_height(*child),
    }
}

pub open spec fn node_height(n: ASTNode) -> nat
    decreases n,
{
    1 + (if opt_height(n.left) >= opt_height(n.right) {
        opt_height(n.left)
    } else {
        opt_height(n.right)
    })
}

pub open spec fn pair_height(l: Option<Box<ASTNode>>, r: Option<Box<ASTNode>>) -> nat {
    if opt_height(l) >= opt_height(r) {
        opt_height(l)
    } else {
        opt_height(r)
    }
}

/// Walks the tree and computes its truth value against the bindings table,
/// exactly as `spec_eval` describes.
pub fn evaluate(node: ASTNode, vars: &StoredVariables) -> (r: Result<bool, EvalError>)
    ensures
        eval_result_view(r) == spec_eval(tree_view(node), vars@),
    decreases node_height(node), 0int,
{
    match node.token {
        Token::Value(value) => match value {
            Value::Bool(val) => Ok(val),
            Value::Variable(var) => {
                let looked_up = vars.get(&var);
                match looked_up {
                    Some(var_value) => Ok(var_value),
                    None => Err(EvalError::UndefinedVariable(var)),
                }
            },
        },
        Token::Operator(op) => {
            if op == Operator::Not {
                match node.left {
                    Some(left) => {
                        let child = evaluate(*left, vars);
                        match child {
                            Ok(v) => Ok(!v),
                            Err(e) => Err(e),
                        }
                    },
                    None => Err(EvalError::MissingNegationOperand),
                }
            } else if op == Operator::Equivalence {
                let func = |a: bool, b: bool| -> (r: bool)
                    ensures
                        r == (a == b),
                    {
                        a == b
                    };
                eval_binary(node.left, node.right, vars, func)
            } else if op == Operator::Implication {
                let func = |a: bool, b: bool| -> (r: bool)
                    ensures
                        r == !(a && !b),
                    {
                        implication(a, b)
                    };
                eval_binary(node.left, node.right, vars, func)
            } else if op == Operator::Or {
                let func = |a: bool, b: bool| -> (r: bool)
                    ensures
                        r == (a || b),
                    {
                        a || b
                    };
                eval_binary(node.left, node.right, vars, func)
            } else if op == Operator::And {
                let func = |a: bool, b: bool| -> (r: bool)
                    ensures
                        r == (a && b),
                    {
                        a && b
                    };
                eval_binary(node.left, node.right, vars, func)
            } else {
                Err(EvalError::UnexpectedOperator(op))
            }
        },
    }
}

/// Evaluates the two children of a binary node and combines their values
/// with `func`; a missing child is reported as the error naming the side
/// that is absent.
pub fn eval_binary<F: Fn(bool, bool) -> bool>(
    l_node: Option<Box<ASTNode>>,
    r_node: Option<Box<ASTNode>>,
    vars: &StoredVariables,
    func: F,
) -> (res: Result<bool, EvalError>)
    requires
        forall|a: bool, b: bool| call_requires(func, (a, b)),
    ensures
        (match (l_node, r_node) {
            (Some(l), Some(r)) => (match spec_eval(tree_view(*l), vars@) {
                Err(e) => eval_result_view(res) == Err::<bool, EvalErrorView>(e),
                Ok(a) => (match spec_eval(tree_view(*r), vars@) {
                    Err(e) => eval_result_view(res) == Err::<bool, EvalErrorView>(e),
                    Ok(b) => res matches Ok(v) && call_ensures(func, (a, b), v),
                }),
            }),
            (Some(_), None) => res == Err::<bool, EvalError>(EvalError::MissingRightOperand),
            (None, Some(_)) => res == Err::<bool, EvalError>(EvalError::MissingLeftOperand),
            (None, None) => res == Err::<bool, EvalError>(EvalError::MissingBothOperands),
        }),
    decreases pair_height(l_node, r_node), 1int,
{
    match (l_node, r_node) {
        (Some(left), Some(right)) => {
            let l_result = evaluate(*left, vars);
            match l_result {
                Err(e) => Err(e),
                Ok(a) => {
                    let r_result = evaluate(*right, vars);
                    match r_result {
                        Err(e) => Err(e),
                        Ok(b) => Ok(func(a, b)),
                    }
                },
            }
        },
        (Some(_), None) => Err(EvalError::MissingRightOperand),
        (None, Some(_)) => Err(EvalError::MissingLeftOperand),
        (None, None) => Err(EvalError::MissingBothOperands),
    }
}

/// Implication is false exactly when the antecedent holds and the consequent
/// does not.
pub fn implication(l_value: bool, r_value: bool) -> (r: bool)
    ensures
        r == !(l_value && !r_value),
{
    if l_value && !r_value {
        false
    } else {
        true
    }
}

/// A leaf holding a boolean literal.
pub open spec fn literal_leaf(b: bool) -> TreeView {
    TreeView { token: TokenView::Value(ValueView::Bool(b)), left: None, right: None }
}

/// A binary node applying `op` to two literal leaves.
pub open spec fn binary_literal_tree(op: Operator, a: bool, b: bool) -> TreeView {
    TreeView {
        token: TokenView::Operator(op),
        left: Some(Box::new(literal_leaf(a))),
        right: Some(Box::new(literal_leaf(b))),
    }
}

/// A negation node over one literal leaf.
pub open spec fn negation_literal_tree(a: bool) -> TreeView {
    TreeView {
        token: TokenView::Operator(Operator::Not),
        left: Some(Box::new(literal_leaf(a))),
        right: None,
    }
}

/// The truth tables of the five operators, for every pair of operand values
/// and under every bindings table: equivalence is equality, implication is
/// false only for true-then-false, disjunction and conjunction are the usual
/// ones, and negation flips its operand.
pub proof fn lemma_operator_truth_tables(a: bool, b: bool, binds: Map<Seq<char>, bool>)
    ensures
        spec_eval(binary_literal_tree(Operator::Equivalence, a, b), binds) == Ok::<
            bool,
            EvalErrorView,
        >(a == b),
        spec_eval(binary_literal_tree(Operator::Implication, a, b), binds) == Ok::<
            bool,
            EvalErrorView,
        >(!(a && !b)),
        spec_eval(binary_literal_tree(Operator::Or, a, b), binds) == Ok::<
            bool,
            EvalErrorView,
        >(a || b),
        spec_eval(binary_literal_tree(Operator::And, a, b), binds) == Ok::<
            bool,
            EvalErrorView,
        >(a && b),
        spec_eval(negation_literal_tree(a), binds) == Ok::<bool, EvalErrorView>(!a),
{
    assert(spec_eval(literal_leaf(a), binds) == Ok::<bool, EvalErrorView>(a));
    assert(spec_eval(literal_leaf(b), binds) == Ok::<bool, EvalErrorView>(b));
}

/// Evaluation has no hidden state: the outcome is a function of the tree and
/// the bindings alone, so re-evaluating the same tree against the same table
/// yields the same result.
pub proof fn lemma_evaluate_deterministic(
    t: TreeView,
    binds: Map<Seq<char>, bool>,
    r1: Result<bool, EvalError>,
    r2: Result<bool, EvalError>,
)
    requires
        eval_result_view(r1) == spec_eval(t, binds),
        eval_result_view(r2) == spec_eval(t, binds),
    ensures
        eval_result_view(r1) == eval_result_view(r2),
{
}

} // verus!
