use vstd::prelude::*;

use crate::lexer::{
    is_space_char, lemma_token_progress, spec_token_at, LexStep, Lexer, Operator, Token,
    TokenView, Value, ValueView,
};
use crate::parser::{
    lemma_nodes_view_drop_last, lemma_nodes_view_push, nodes_view, tree_view, ASTNode, ParseError,
    ParseErrorView, StoredVariables, SyntaxError, SyntaxErrorView, TreeView,
};

verus! {

/// The binding strength of each operator of the expression ladder: a larger
/// number binds tighter. Parentheses and assignment are not part of the
/// ladder; they are handled on their own and never compared.
pub open spec fn spec_precedence(op: Operator) -> int {
    match op {
        Operator::Equivalence => 1,
        Operator::Implication => 2,
        Operator::Or => 3,
        Operator::And => 4,
        Operator::Not => 5,
        Operator::ParenthisClosed => 0,
        Operator::ParenthisOpen => 0,
        Operator::Assign => 0,
    }
}

pub fn precedence(op: Operator) -> (r: u32)
    ensures
        r as int == spec_precedence(op),
{
    match op {
        Operator::Equivalence => 1,
        Operator::Implication => 2,
        Operator::Or => 3,
        Operator::And => 4,
        Operator::Not => 5,
        Operator::ParenthisClosed => 0,
        Operator::ParenthisOpen => 0,
        Operator::Assign => 0,
    }
}

/// The ladder of binding strengths: equivalence binds loosest, then
/// implication, then disjunction, then conjunction, and the unary negation
/// binds tighter than every binary operator.
pub proof fn lemma_precedence_ladder()
    ensures
        spec_precedence(Operator::Equivalence) < spec_precedence(Operator::Implication),
        spec_precedence(Operator::Implication) < spec_precedence(Operator::Or),
        spec_precedence(Operator::Or) < spec_precedence(Operator::And),
        spec_precedence(Operator::And) < spec_precedence(Operator::Not),
{
}

/// Reducing one operator against the stack of finished subtrees: negation
/// takes the top tree as its only (left) child; a binary operator takes the
/// top tree as its right child and the one below as its left child. An
/// operator with too few operands is a parse error.
pub open spec fn spec_make_node(nodes: Seq<TreeView>, op: Operator) -> Result<
    Seq<TreeView>,
    ParseErrorView,
> {
    if op == Operator::Not {
        if nodes.len() >= 1 {
            Ok(
                nodes.drop_last().push(
                    TreeView {
                        token: TokenView::Operator(op),
                        left: Some(Box::new(nodes.last())),
                        right: None,
                    },
                ),
            )
        } else {
            Err(ParseErrorView::MissingOperand)
        }
    } else {
        if nodes.len() >= 2 {
            Ok(
                nodes.drop_last().drop_last().push(
                    TreeView {
                        token: TokenView::Operator(op),
                        left: Some(Box::new(nodes.drop_last().last())),
                        right: Some(Box::new(nodes.last())),
                    },
                ),
            )
        } else {
            Err(ParseErrorView::MissingOperand)
        }
    }
}

/// Popping and reducing operators that bind at least as tightly as `cur`,
/// stopping at an opening parenthesis: the state of the two stacks once
/// `cur` may be pushed.
pub open spec fn spec_reduce_ge(
    ops: Seq<Operator>,
    nodes: Seq<TreeView>,
    cur: Operator,
) -> Result<(Seq<Operator>, Seq<TreeView>), ParseErrorView>
    decreases ops.len(),
{
    if ops.len() == 0 {
        Ok((ops, nodes))
    } else if ops.last() == Operator::ParenthisOpen {
        Ok((ops, nodes))
    } else if spec_precedence(ops.last()) >= spec_precedence(cur) {
        match spec_make_node(nodes, ops.last()) {
            Ok(reduced) => spec_reduce_ge(ops.drop_last(), reduced, cur),
            Err(e) => Err(e),
        }
    } else {
        Ok((ops, nodes))
    }
}

/// Popping and reducing operators until the opening parenthesis that matches
/// a just-read closing one is found and discarded; reaching the bottom of the
/// stack instead is an unmatched-closing-parenthesis error.
pub open spec fn spec_close_paren(ops: Seq<Operator>, nodes: Seq<TreeView>) -> Result<
    (Seq<Operator>, Seq<TreeView>),
    ParseErrorView,
>
    decreases ops.len(),
{
    if ops.len() == 0 {
        Err(ParseErrorView::UnmatchedCloseParenthesis)
    } else if ops.last() == Operator::ParenthisOpen {
        Ok((ops.drop_last(), nodes))
    } else {
        match spec_make_node(nodes, ops.last()) {
            Ok(reduced) => spec_close_paren(ops.drop_last(), reduced),
            Err(e) => Err(e),
        }
    }
}

/// Reducing everything left on the operator stack once the input is
/// exhausted: an opening parenthesis still on the stack is an error, and at
/// the end exactly one finished tree must remain.
pub open spec fn spec_finish(
    ops: Seq<Operator>,
    nodes: Seq<TreeView>,
    binds: Map<Seq<char>, bool>,
) -> Result<(TreeView, Map<Seq<char>, bool>), ParseErrorView>
    decreases ops.len(),
{
    if ops.len() == 0 {
        if nodes.len() == 0 {
            Err(ParseErrorView::EmptyExpression)
        } else if nodes.len() == 1 {
            Ok((nodes[0], binds))
        } else {
            Err(ParseErrorView::MissingOperator)
        }
    } else if ops.last() == Operator::ParenthisOpen {
        Err(ParseErrorView::UnmatchedOpenParenthesis)
    } else {
        match spec_make_node(nodes, ops.last()) {
            Ok(reduced) => spec_finish(ops.drop_last(), reduced, binds),
            Err(e) => Err(e),
        }
    }
}

/// A leaf is a lone variable reference exactly when it carries a variable
/// token and no children.
pub open spec fn is_variable_leaf(t: TreeView) -> bool {
    &&& (t.token matches TokenView::Value(ValueView::Variable(_)))
    &&& t.left is None
    &&& t.right is None
}

pub open spec fn variable_leaf_name(t: TreeView) -> Seq<char> {
    match t.token {
        TokenView::Value(ValueView::Variable(name)) => name,
        _ => Seq::empty(),
    }
}

/// The parser's running state: the pending operators, the finished subtrees,
/// the bindings recorded so far, and whether the input read so far still
/// consists only of assignment statements (followed by at most one lone
/// variable), so that a further assignment may still be recognized.
pub struct ParseState {
    pub ops: Seq<Operator>,
    pub nodes: Seq<TreeView>,
    pub binds: Map<Seq<char>, bool>,
    pub prelude: bool,
}

pub open spec fn init_state() -> ParseState {
    ParseState { ops: Seq::empty(), nodes: Seq::empty(), binds: Map::empty(), prelude: true }
}

/// The whole construction, reading tokens from position `pos` of `s` in state
/// `st`: the shunting-yard steps for values, parentheses and operators, the
/// recognition of assignment statements while only assignments have been
/// seen, and the final reduction at the end of the input. The result is the
/// finished tree and bindings, or the first error found.
pub open spec fn spec_parse_at(s: Seq<char>, pos: int, st: ParseState) -> Result<
    (TreeView, Map<Seq<char>, bool>),
    SyntaxErrorView,
>
    decreases s.len() - pos,
{
    match spec_token_at(s, pos) {
        LexStep::End => (match spec_finish(st.ops, st.nodes, st.binds) {
            Ok(done) => Ok(done),
            Err(e) => Err(SyntaxErrorView::Parse(e)),
        }),
        LexStep::Fail(e, _) => Err(SyntaxErrorView::Lex(e)),
        LexStep::Tok(tv, after) => {
            proof {
                lemma_token_progress(s, pos);
            }
            match tv {
                TokenView::Value(vv) => spec_parse_at(
                    s,
                    after,
                    ParseState {
                        ops: st.ops,
                        nodes: st.nodes.push(
                            TreeView { token: TokenView::Value(vv), left: None, right: None },
                        ),
                        binds: st.binds,
                        prelude: st.prelude && st.ops.len() == 0 && st.nodes.len() == 0 && (
                        vv matches ValueView::Variable(_)),
                    },
                ),
                TokenView::Operator(op) => {
                    if op == Operator::ParenthisOpen {
                        spec_parse_at(
                            s,
                            after,
                            ParseState {
                                ops: st.ops.push(op),
                                nodes: st.nodes,
                                binds: st.binds,
                                prelude: false,
                            },
                        )
                    } else if op == Operator::ParenthisClosed {
                        match spec_close_paren(st.ops, st.nodes) {
                            Ok(popped) => spec_parse_at(
                                s,
                                after,
                                ParseState {
                                    ops: popped.0,
                                    nodes: popped.1,
                                    binds: st.binds,
                                    prelude: false,
                                },
                            ),
                            Err(e) => Err(SyntaxErrorView::Parse(e)),
                        }
                    } else if op == Operator::Assign {
                        if st.prelude && st.ops.len() == 0 && st.nodes.len() == 1
                            && is_variable_leaf(st.nodes[0]) {
                            let name = variable_leaf_name(st.nodes[0]);
                            match spec_token_at(s, after) {
                                LexStep::End => Err(
                                    SyntaxErrorView::Parse(ParseErrorView::MissingAssignmentValue),
                                ),
                                LexStep::Fail(e, _) => Err(SyntaxErrorView::Lex(e)),
                                LexStep::Tok(tv2, after2) => {
                                    proof {
                                        lemma_token_progress(s, after);
                                    }
                                    match tv2 {
                                        TokenView::Value(ValueView::Bool(b)) => spec_parse_at(
                                            s,
                                            after2,
                                            ParseState {
                                                ops: st.ops,
                                                nodes: Seq::empty(),
                                                binds: st.binds.insert(name, b),
                                                prelude: true,
                                            },
                                        ),
                                        TokenView::Value(ValueView::Variable(w)) => {
                                            if st.binds.contains_key(w) {
                                                spec_parse_at(
                                                    s,
                                                    after2,
                                                    ParseState {
                                                        ops: st.ops,
                                                        nodes: Seq::empty(),
                                                        binds: st.binds.insert(
                                                            name,
                                                            st.binds[w],
                                                        ),
                                                        prelude: true,
                                                    },
                                                )
                                            } else {
                                                Err(
                                                    SyntaxErrorView::Parse(
                                                        ParseErrorView::UndefinedVariable(w),
                                                    ),
                                                )
                                            }
                                        },
                                        TokenView::Operator(_) => Err(
                                            SyntaxErrorView::Parse(
                                                ParseErrorView::MissingAssignmentValue,
                                            ),
                                        ),
                                    }
                                },
                            }
                        } else {
                            Err(SyntaxErrorView::Parse(ParseErrorView::MisplacedAssignment))
                        }
                    } else {
                        match spec_reduce_ge(st.ops, st.nodes, op) {
                            Ok(reduced) => spec_parse_at(
                                s,
                                after,
                                ParseState {
                                    ops: reduced.0.push(op),
                                    nodes: reduced.1,
                                    binds: st.binds,
                                    prelude: false,
                                },
                            ),
                            Err(e) => Err(SyntaxErrorView::Parse(e)),
                        }
                    }
                },
            }
        },
    }
}

/// The shape of a finished construction: the views of the tree and the
/// bindings, or of the error.
pub open spec fn construct_result_view(
    r: Result<(ASTNode, StoredVariables), SyntaxError>,
) -> Result<(TreeView, Map<Seq<char>, bool>), SyntaxErrorView> {
    match r {
        Ok(pair) => Ok((pair.0@, pair.1@)),
        Err(e) => Err(e@),
    }
}

/// Reduces one operator against the queue of finished subtrees, exactly as
/// `spec_make_node` describes.
pub fn make_node(tree_queue: &mut Vec<ASTNode>, operator: Operator) -> (r: Result<(), ParseError>)
    ensures
        (match spec_make_node(nodes_view(old(tree_queue)@), operator) {
            Ok(reduced) => r is Ok && nodes_view(final(tree_queue)@) == reduced,
            Err(_) => ({
                &&& r == Err::<(), ParseError>(ParseError::MissingOperand)
                &&& final(tree_queue)@ == old(tree_queue)@
            }),
        }),
{
    let ghost q0 = tree_queue@;
    if operator == Operator::Not {
        match tree_queue.pop() {
            Some(right) => {
                let node = ASTNode {
                    token: Token::Operator(operator),
                    left: Some(Box::new(right)),
                    right: None,
                };
                let ghost gnode = node;
                tree_queue.push(node);
                proof {
                    assert(q0.subrange(0, q0.len() - 1) =~= q0.drop_last());
                    lemma_nodes_view_drop_last(q0);
                    lemma_nodes_view_push(q0.drop_last(), gnode);
                    assert(tree_view(gnode).left == Some(Box::new(nodes_view(q0).last())));
                }
                Ok(())
            },
            None => {
                assert(nodes_view(q0).len() == 0);
                Err(ParseError::MissingOperand)
            },
        }
    } else {
        if tree_queue.len() >= 2 {
            let right = tree_queue.pop().unwrap();
            let left = tree_queue.pop().unwrap();
            let node = ASTNode {
                token: Token::Operator(operator),
                left: Some(Box::new(left)),
                right: Some(Box::new(right)),
            };
            let ghost gnode = node;
            tree_queue.push(node);
            proof {
                assert(q0.subrange(0, q0.len() - 1) =~= q0.drop_last());
                assert(q0.drop_last().subrange(0, q0.drop_last().len() - 1) =~= q0.drop_last()
                    .drop_last());
                lemma_nodes_view_drop_last(q0);
                lemma_nodes_view_drop_last(q0.drop_last());
                lemma_nodes_view_push(q0.drop_last().drop_last(), gnode);
                assert(tree_view(gnode).right == Some(Box::new(nodes_view(q0).last())));
                assert(tree_view(gnode).left == Some(Box::new(nodes_view(q0).drop_last().last())));
            }
            Ok(())
        } else {
            assert(nodes_view(q0).len() < 2);
            Err(ParseError::MissingOperand)
        }
    }
}

/// Pops and reduces the operators that bind at least as tightly as
/// `current_op`, stopping at an opening parenthesis.
#[verifier::loop_isolation(false)]
fn reduce_ge(
    operators: &mut Vec<Operator>,
    tree_queue: &mut Vec<ASTNode>,
    current_op: Operator,
) -> (r: Result<(), ParseError>)
    ensures
        (match spec_reduce_ge(old(operators)@, nodes_view(old(tree_queue)@), current_op) {
            Ok(reduced) => ({
                &&& r is Ok
                &&& final(operators)@ == reduced.0
                &&& nodes_view(final(tree_queue)@) == reduced.1
            }),
            Err(e) => (r matches Err(pe) && pe@ == e),
        }),
{
    let ghost ops0 = operators@;
    let ghost nodes0 = nodes_view(tree_queue@);
    loop
        invariant
            spec_reduce_ge(ops0, nodes0, current_op) == spec_reduce_ge(
                operators@,
                nodes_view(tree_queue@),
                current_op,
            ),
        decreases operators@.len(),
    {
        let ghost ops_i = operators@;
        let ghost nodes_i = nodes_view(tree_queue@);
        if operators.len() == 0 {
            proof {
                assert(spec_reduce_ge(ops_i, nodes_i, current_op) == Ok::<
                    (Seq<Operator>, Seq<TreeView>),
                    ParseErrorView,
                >((ops_i, nodes_i)));
            }
            return Ok(());
        }
        let top = operators[operators.len() - 1];
        proof {
            assert(top == ops_i.last());
        }
        if top == Operator::ParenthisOpen {
            proof {
                assert(spec_reduce_ge(ops_i, nodes_i, current_op) == Ok::<
                    (Seq<Operator>, Seq<TreeView>),
                    ParseErrorView,
                >((ops_i, nodes_i)));
            }
            return Ok(());
        }
        if precedence(top) >= precedence(current_op) {
            let _ = operators.pop();
            proof {
                assert(operators@ =~= ops_i.drop_last());
            }
            match make_node(tree_queue, top) {
                Ok(()) => {
                    proof {
                        assert(spec_reduce_ge(ops_i, nodes_i, current_op) == spec_reduce_ge(
                            operators@,
                            nodes_view(tree_queue@),
                            current_op,
                        ));
                    }
                },
                Err(e) => {
                    proof {
                        assert(spec_make_node(nodes_i, top) == Err::<
                            Seq<TreeView>,
                            ParseErrorView,
                        >(ParseErrorView::MissingOperand));
                        assert(spec_reduce_ge(ops_i, nodes_i, current_op) == Err::<
                            (Seq<Operator>, Seq<TreeView>),
                            ParseErrorView,
                        >(ParseErrorView::MissingOperand));
                    }
                    return Err(e);
                },
            }
        } else {
            proof {
                assert(spec_reduce_ge(ops_i, nodes_i, current_op) == Ok::<
                    (Seq<Operator>, Seq<TreeView>),
                    ParseErrorView,
                >((ops_i, nodes_i)));
            }
            return Ok(());
        }
    }
}

/// Pops and reduces operators until the opening parenthesis that matches a
/// just-read closing one is discarded.
#[verifier::loop_isolation(false)]
fn close_paren(operators: &mut Vec<Operator>, tree_queue: &mut Vec<ASTNode>) -> (r: Result<
    (),
    ParseError,
>)
    ensures
        (match spec_close_paren(old(operators)@, nodes_view(old(tree_queue)@)) {
            Ok(popped) => ({
                &&& r is Ok
                &&& final(operators)@ == popped.0
                &&& nodes_view(final(tree_queue)@) == popped.1
            }),
            Err(e) => (r matches Err(pe) && pe@ == e),
        }),
{
    let ghost ops0 = operators@;
    let ghost nodes0 = nodes_view(tree_queue@);
    loop
        invariant
            spec_close_paren(ops0, nodes0) == spec_close_paren(
                operators@,
                nodes_view(tree_queue@),
            ),
        decreases operators@.len(),
    {
        let ghost ops_i = operators@;
        let ghost nodes_i = nodes_view(tree_queue@);
        if operators.len() == 0 {
            proof {
                assert(spec_close_paren(ops_i, nodes_i) == Err::<
                    (Seq<Operator>, Seq<TreeView>),
                    ParseErrorView,
                >(ParseErrorView::UnmatchedCloseParenthesis));
            }
            return Err(ParseError::UnmatchedCloseParenthesis);
        }
        let top = operators[operators.len() - 1];
        proof {
            assert(top == ops_i.last());
        }
        let _ = operators.pop();
        proof {
            assert(operators@ =~= ops_i.drop_last());
        }
        if top == Operator::ParenthisOpen {
            proof {
                assert(spec_close_paren(ops_i, nodes_i) == Ok::<
                    (Seq<Operator>, Seq<TreeView>),
                    ParseErrorView,
                >((ops_i.drop_last(), nodes_i)));
            }
            return Ok(());
        }
        match make_node(tree_queue, top) {
            Ok(()) => {
                proof {
                    assert(spec_close_paren(ops_i, nodes_i) == spec_close_paren(
                        operators@,
                        nodes_view(tree_queue@),
                    ));
                }
            },
            Err(e) => {
                proof {
                    assert(spec_make_node(nodes_i, top) == Err::<
                        Seq<TreeView>,
                        ParseErrorView,
                    >(ParseErrorView::MissingOperand));
                    assert(spec_close_paren(ops_i, nodes_i) == Err::<
                        (Seq<Operator>, Seq<TreeView>),
                        ParseErrorView,
                    >(ParseErrorView::MissingOperand));
                }
                return Err(e);
            },
        }
    }
}

/// Reduces everything left on the operator stack at the end of the input and
/// hands out the one finished tree together with the bindings.
#[verifier::loop_isolation(false)]
fn finish(
    operators: Vec<Operator>,
    tree_queue: Vec<ASTNode>,
    variables: StoredVariables,
) -> (r: Result<(ASTNode, StoredVariables), ParseError>)
    ensures
        (match spec_finish(operators@, nodes_view(tree_queue@), variables@) {
            Ok(done) => (r matches Ok(pair) && pair.0@ == done.0 && pair.1@ == done.1),
            Err(e) => (r matches Err(pe) && pe@ == e),
        }),
{
    let ghost ops0 = operators@;
    let ghost nodes0 = nodes_view(tree_queue@);
    let mut operators = operators;
    let mut tree_queue = tree_queue;
    loop
        invariant
            spec_finish(ops0, nodes0, variables@) == spec_finish(
                operators@,
                nodes_view(tree_queue@),
                variables@,
            ),
        decreases operators@.len(),
    {
        let ghost ops_i = operators@;
        let ghost nodes_i = nodes_view(tree_queue@);
        if operators.len() == 0 {
            if tree_queue.len() == 0 {
                proof {
                    assert(spec_finish(ops_i, nodes_i, variables@) == Err::<
                        (TreeView, Map<Seq<char>, bool>),
                        ParseErrorView,
                    >(ParseErrorView::EmptyExpression));
                }
                return Err(ParseError::EmptyExpression);
            }
            if tree_queue.len() > 1 {
                proof {
                    assert(spec_finish(ops_i, nodes_i, variables@) == Err::<
                        (TreeView, Map<Seq<char>, bool>),
                        ParseErrorView,
                    >(ParseErrorView::MissingOperator));
                }
                return Err(ParseError::MissingOperator);
            }
            let root = tree_queue.pop().unwrap();
            proof {
                assert(tree_view(root) == nodes_i[0]);
                assert(spec_finish(ops_i, nodes_i, variables@) == Ok::<
                    (TreeView, Map<Seq<char>, bool>),
                    ParseErrorView,
                >((nodes_i[0], variables@)));
            }
            return Ok((root, variables));
        }
        let top = operators[operators.len() - 1];
        proof {
            assert(top == ops_i.last());
        }
        if top == Operator::ParenthisOpen {
            proof {
                assert(spec_finish(ops_i, nodes_i, variables@) == Err::<
                    (TreeView, Map<Seq<char>, bool>),
                    ParseErrorView,
                >(ParseErrorView::UnmatchedOpenParenthesis));
            }
            return Err(ParseError::UnmatchedOpenParenthesis);
        }
        let _ = operators.pop();
        proof {
            assert(operators@ =~= ops_i.drop_last());
        }
        match make_node(&mut tree_queue, top) {
            Ok(()) => {
                proof {
                    assert(spec_finish(ops_i, nodes_i, variables@) == spec_finish(
                        operators@,
                        nodes_view(tree_queue@),
                        variables@,
                    ));
                }
            },
            Err(e) => {
                proof {
                    assert(spec_make_node(nodes_i, top) == Err::<
                        Seq<TreeView>,
                        ParseErrorView,
                    >(ParseErrorView::MissingOperand));
                    assert(spec_finish(ops_i, nodes_i, variables@) == Err::<
                        (TreeView, Map<Seq<char>, bool>),
                        ParseErrorView,
                    >(ParseErrorView::MissingOperand));
                }
                return Err(e);
            },
        }
    }
}

/// The shunting-yard construction: reads the whole token stream out of the
/// lexer and builds the expression tree and the bindings table, or reports
/// the first lexing or parsing error found.
#[verifier::loop_isolation(false)]
pub fn construct_ast(lexer: &mut Lexer) -> (r: Result<(ASTNode, StoredVariables), SyntaxError>)
    ensures
        final(lexer).input() == old(lexer).input(),
        construct_result_view(r) == spec_parse_at(
            old(lexer).input(),
            old(lexer).cursor(),
            init_state(),
        ),
        r is Ok ==> final(lexer).cursor() == final(lexer).input().len(),
{
    let ghost s = lexer.input();
    let ghost p0 = lexer.cursor();
    let mut operators: Vec<Operator> = Vec::new();
    let mut tree_queue: Vec<ASTNode> = Vec::new();
    let mut variables = StoredVariables::new();
    let mut prelude: bool = true;
    proof {
        assert(nodes_view(tree_queue@) =~= Seq::<TreeView>::empty());
        assert(ParseState {
            ops: operators@,
            nodes: nodes_view(tree_queue@),
            binds: variables@,
            prelude: prelude,
        } == init_state());
    }
    loop
        invariant
            lexer.input() == s,
            spec_parse_at(s, p0, init_state()) == spec_parse_at(
                s,
                lexer.cursor(),
                ParseState {
                    ops: operators@,
                    nodes: nodes_view(tree_queue@),
                    binds: variables@,
                    prelude: prelude,
                },
            ),
        decreases s.len() - lexer.cursor(),
    {
        let ghost st_prev = ParseState {
            ops: operators@,
            nodes: nodes_view(tree_queue@),
            binds: variables@,
            prelude: prelude,
        };
        let ghost prev_pos = lexer.cursor();
        proof {
            lemma_token_progress(s, prev_pos);
        }
        match lexer.next() {
            None => {
                proof {
                    assert(spec_parse_at(s, prev_pos, st_prev) == (
                    match spec_finish(st_prev.ops, st_prev.nodes, st_prev.binds) {
                        Ok(done) => Ok::<(TreeView, Map<Seq<char>, bool>), SyntaxErrorView>(done),
                        Err(e) => Err(SyntaxErrorView::Parse(e)),
                    }));
                }
                let result = finish(operators, tree_queue, variables);
                match result {
                    Ok(pair) => {
                        return Ok(pair);
                    },
                    Err(e) => {
                        return Err(SyntaxError::Parse(e));
                    },
                }
            },
            Some(Err(e)) => {
                proof {
                    assert(spec_parse_at(s, prev_pos, st_prev) == Err::<
                        (TreeView, Map<Seq<char>, bool>),
                        SyntaxErrorView,
                    >(SyntaxErrorView::Lex(e)));
                }
                return Err(SyntaxError::Lex(e));
            },
            Some(Ok(token)) => {
                match token {
                    Token::Value(v) => {
                        let ghost vv = v@;
                        let is_var = (match &v {
                            Value::Variable(_) => true,
                            Value::Bool(_) => false,
                        });
                        prelude = prelude && operators.len() == 0 && tree_queue.len() == 0
                            && is_var;
                        let ghost q0 = tree_queue@;
                        let node = ASTNode { token: Token::Value(v), left: None, right: None };
                        let ghost gnode = node;
                        proof {
                            assert(tree_view(gnode) == (TreeView {
                                token: TokenView::Value(vv),
                                left: None,
                                right: None,
                            }));
                        }
                        tree_queue.push(node);
                        proof {
                            lemma_nodes_view_push(q0, gnode);
                            assert(spec_parse_at(s, prev_pos, st_prev) == spec_parse_at(
                                s,
                                lexer.cursor(),
                                ParseState {
                                    ops: operators@,
                                    nodes: nodes_view(tree_queue@),
                                    binds: variables@,
                                    prelude: prelude,
                                },
                            ));
                        }
                    },
                    Token::Operator(operator) => {
                        if operator == Operator::ParenthisOpen {
                            prelude = false;
                            operators.push(operator);
                            proof {
                                assert(spec_parse_at(s, prev_pos, st_prev) == spec_parse_at(
                                    s,
                                    lexer.cursor(),
                                    ParseState {
                                        ops: operators@,
                                        nodes: nodes_view(tree_queue@),
                                        binds: variables@,
                                        prelude: prelude,
                                    },
                                ));
                            }
                        } else if operator == Operator::ParenthisClosed {
                            prelude = false;
                            match close_paren(&mut operators, &mut tree_queue) {
                                Ok(()) => {
                                    proof {
                                        assert(spec_parse_at(s, prev_pos, st_prev)
                                            == spec_parse_at(
                                            s,
                                            lexer.cursor(),
                                            ParseState {
                                                ops: operators@,
                                                nodes: nodes_view(tree_queue@),
                                                binds: variables@,
                                                prelude: prelude,
                                            },
                                        ));
                                    }
                                },
                                Err(e) => {
                                    proof {
                                        assert(spec_parse_at(s, prev_pos, st_prev) == Err::<
                                            (TreeView, Map<Seq<char>, bool>),
                                            SyntaxErrorView,
                                        >(SyntaxErrorView::Parse(e@)));
                                    }
                                    return Err(SyntaxError::Parse(e));
                                },
                            }
                        } else if operator == Operator::Assign {
                            if !prelude || operators.len() != 0 || tree_queue.len() != 1 {
                                proof {
                                    assert(spec_parse_at(s, prev_pos, st_prev) == Err::<
                                        (TreeView, Map<Seq<char>, bool>),
                                        SyntaxErrorView,
                                    >(SyntaxErrorView::Parse(ParseErrorView::MisplacedAssignment)));
                                }
                                return Err(SyntaxError::Parse(ParseError::MisplacedAssignment));
                            }
                            let top = tree_queue.pop().unwrap();
                            let ghost gtop = top;
                            proof {
                                assert(tree_view(gtop) == st_prev.nodes[0]);
                                assert(nodes_view(tree_queue@) =~= Seq::<TreeView>::empty());
                            }
                            let name: String = (match top {
                                ASTNode {
                                    token: Token::Value(Value::Variable(nm)),
                                    left: None,
                                    right: None,
                                } => nm,
                                _ => {
                                    proof {
                                        assert(!is_variable_leaf(st_prev.nodes[0]));
                                        assert(spec_parse_at(s, prev_pos, st_prev) == Err::<
                                            (TreeView, Map<Seq<char>, bool>),
                                            SyntaxErrorView,
                                        >(
                                            SyntaxErrorView::Parse(
                                                ParseErrorView::MisplacedAssignment,
                                            ),
                                        ));
                                    }
                                    return Err(
                                        SyntaxError::Parse(ParseError::MisplacedAssignment),
                                    );
                                },
                            });
                            let ghost gname = name@;
                            proof {
                                assert(is_variable_leaf(st_prev.nodes[0]));
                                assert(gname == variable_leaf_name(st_prev.nodes[0]));
                            }
                            let ghost p_mid = lexer.cursor();
                            proof {
                                lemma_token_progress(s, p_mid);
                            }
                            match lexer.next() {
                                None => {
                                    proof {
                                        assert(spec_parse_at(s, prev_pos, st_prev) == Err::<
                                            (TreeView, Map<Seq<char>, bool>),
                                            SyntaxErrorView,
                                        >(
                                            SyntaxErrorView::Parse(
                                                ParseErrorView::MissingAssignmentValue,
                                            ),
                                        ));
                                    }
                                    return Err(
                                        SyntaxError::Parse(ParseError::MissingAssignmentValue),
                                    );
                                },
                                Some(Err(e)) => {
                                    proof {
                                        assert(spec_parse_at(s, prev_pos, st_prev) == Err::<
                                            (TreeView, Map<Seq<char>, bool>),
                                            SyntaxErrorView,
                                        >(SyntaxErrorView::Lex(e)));
                                    }
                                    return Err(SyntaxError::Lex(e));
                                },
                                Some(Ok(Token::Value(Value::Bool(b)))) => {
                                    variables.insert(name, b);
                                    proof {
                                        assert(spec_parse_at(s, prev_pos, st_prev)
                                            == spec_parse_at(
                                            s,
                                            lexer.cursor(),
                                            ParseState {
                                                ops: operators@,
                                                nodes: nodes_view(tree_queue@),
                                                binds: variables@,
                                                prelude: prelude,
                                            },
                                        ));
                                    }
                                },
                                Some(Ok(Token::Value(Value::Variable(w)))) => {
                                    let ghost gw = w@;
                                    let looked_up = variables.get(&w);
                                    match looked_up {
                                        Some(val) => {
                                            variables.insert(name, val);
                                            proof {
                                                assert(spec_parse_at(s, prev_pos, st_prev)
                                                    == spec_parse_at(
                                                    s,
                                                    lexer.cursor(),
                                                    ParseState {
                                                        ops: operators@,
                                                        nodes: nodes_view(tree_queue@),
                                                        binds: variables@,
                                                        prelude: prelude,
                                                    },
                                                ));
                                            }
                                        },
                                        None => {
                                            proof {
                                                assert(spec_parse_at(s, prev_pos, st_prev)
                                                    == Err::<
                                                    (TreeView, Map<Seq<char>, bool>),
                                                    SyntaxErrorView,
                                                >(
                                                    SyntaxErrorView::Parse(
                                                        ParseErrorView::UndefinedVariable(gw),
                                                    ),
                                                ));
                                            }
                                            return Err(
                                                SyntaxError::Parse(
                                                    ParseError::UndefinedVariable(w),
                                                ),
                                            );
                                        },
                                    }
                                },
                                Some(Ok(Token::Operator(_))) => {
                                    proof {
                                        assert(spec_parse_at(s, prev_pos, st_prev) == Err::<
                                            (TreeView, Map<Seq<char>, bool>),
                                            SyntaxErrorView,
                                        >(
                                            SyntaxErrorView::Parse(
                                                ParseErrorView::MissingAssignmentValue,
                                            ),
                                        ));
                                    }
                                    return Err(
                                        SyntaxError::Parse(ParseError::MissingAssignmentValue),
                                    );
                                },
                            }
                        } else {
                            prelude = false;
                            match reduce_ge(&mut operators, &mut tree_queue, operator) {
                                Ok(()) => {},
                                Err(e) => {
                                    proof {
                                        assert(spec_parse_at(s, prev_pos, st_prev) == Err::<
                                            (TreeView, Map<Seq<char>, bool>),
                                            SyntaxErrorView,
                                        >(SyntaxErrorView::Parse(e@)));
                                    }
                                    return Err(SyntaxError::Parse(e));
                                },
                            }
                            operators.push(operator);
                            proof {
                                assert(spec_parse_at(s, prev_pos, st_prev) == spec_parse_at(
                                    s,
                                    lexer.cursor(),
                                    ParseState {
                                        ops: operators@,
                                        nodes: nodes_view(tree_queue@),
                                        binds: variables@,
                                        prelude: prelude,
                                    },
                                ));
                            }
                        }
                    },
                }
            },
        }
    }
}

/// A text together with one more pair of parentheses around the whole of it.
pub open spec fn wrap_parens(s: Seq<char>) -> Seq<char> {
    seq!['('] + s + seq![')']
}

/// Whether the tokens of `s` from position `pos` on hold no assignment
/// operator (up to the first lexing failure, which ends parsing anyway).
pub open spec fn no_assign_from(s: Seq<char>, pos: int) -> bool
    decreases s.len() - pos,
{
    match spec_token_at(s, pos) {
        LexStep::Tok(tv, after) => {
            proof {
                lemma_token_progress(s, pos);
            }
            tv != TokenView::Operator(Operator::Assign) && no_assign_from(s, after)
        },
        LexStep::Fail(_, _) => true,
        LexStep::End => true,
    }
}

/// Inside `wrap_parens(s)` the tokens of `s` reappear one position later,
/// and where `s` ends, the closing parenthesis is read.
proof fn lemma_token_shift(s: Seq<char>, p: int)
    requires
        0 <= p <= s.len(),
    ensures
        (match spec_token_at(s, p) {
            LexStep::Tok(tv, p2) => spec_token_at(wrap_parens(s), 1 + p) == LexStep::Tok(
                tv,
                1 + p2,
            ),
            LexStep::End => spec_token_at(wrap_parens(s), 1 + p) == LexStep::Tok(
                TokenView::Operator(Operator::ParenthisClosed),
                s.len() as int + 2,
            ),
            LexStep::Fail(_, _) => true,
        }),
    decreases s.len() - p,
{
    let w = wrap_parens(s);
    assert(w.len() == s.len() + 2);
    assert(forall|i: int| 0 <= i < s.len() ==> w[1 + i] == s[i]);
    assert(w[0] == '(');
    assert(w[s.len() as int + 1] == ')');
    if p < s.len() {
        let c = s[p];
        if is_space_char(c) || c == ':' {
            lemma_token_shift(s, p + 1);
        }
    }
}

/// Reducing against `cur` never looks below an opening parenthesis, so an
/// extra one at the bottom of the stack rides along unchanged.
proof fn lemma_reduce_ge_lifted(ops: Seq<Operator>, nodes: Seq<TreeView>, cur: Operator)
    requires
        spec_reduce_ge(ops, nodes, cur) is Ok,
    ensures
        ({
            let reduced = spec_reduce_ge(ops, nodes, cur)->Ok_0;
            spec_reduce_ge(seq![Operator::ParenthisOpen] + ops, nodes, cur) == Ok::<
                (Seq<Operator>, Seq<TreeView>),
                ParseErrorView,
            >((seq![Operator::ParenthisOpen] + reduced.0, reduced.1))
        }),
    decreases ops.len(),
{
    let lifted = seq![Operator::ParenthisOpen] + ops;
    if ops.len() == 0 {
        assert(lifted.last() == Operator::ParenthisOpen);
        assert(lifted =~= seq![Operator::ParenthisOpen] + ops);
    } else {
        assert(lifted.last() == ops.last());
        assert(lifted.drop_last() =~= seq![Operator::ParenthisOpen] + ops.drop_last());
        if ops.last() != Operator::ParenthisOpen && spec_precedence(ops.last())
            >= spec_precedence(cur) {
            lemma_reduce_ge_lifted(ops.drop_last(), spec_make_node(nodes, ops.last())->Ok_0, cur);
        }
    }
}

/// Closing a parenthesis never looks below the opening one it matches, so an
/// extra one at the bottom of the stack rides along unchanged.
proof fn lemma_close_paren_lifted(ops: Seq<Operator>, nodes: Seq<TreeView>)
    requires
        spec_close_paren(ops, nodes) is Ok,
    ensures
        ({
            let popped = spec_close_paren(ops, nodes)->Ok_0;
            spec_close_paren(seq![Operator::ParenthisOpen] + ops, nodes) == Ok::<
                (Seq<Operator>, Seq<TreeView>),
                ParseErrorView,
            >((seq![Operator::ParenthisOpen] + popped.0, popped.1))
        }),
    decreases ops.len(),
{
    let lifted = seq![Operator::ParenthisOpen] + ops;
    if ops.len() == 0 {
    } else {
        assert(lifted.last() == ops.last());
        assert(lifted.drop_last() =~= seq![Operator::ParenthisOpen] + ops.drop_last());
        if ops.last() == Operator::ParenthisOpen {
        } else {
            lemma_close_paren_lifted(ops.drop_last(), spec_make_node(nodes, ops.last())->Ok_0);
        }
    }
}

/// A successful final reduction does the same work as closing one extra
/// parenthesis put under the whole operator stack: everything reduces to the
/// one finished tree.
proof fn lemma_finish_as_close(ops: Seq<Operator>, nodes: Seq<TreeView>, binds: Map<Seq<char>, bool>)
    requires
        spec_finish(ops, nodes, binds) is Ok,
    ensures
        ({
            let done = spec_finish(ops, nodes, binds)->Ok_0;
            &&& spec_close_paren(seq![Operator::ParenthisOpen] + ops, nodes) == Ok::<
                (Seq<Operator>, Seq<TreeView>),
                ParseErrorView,
            >((Seq::<Operator>::empty(), seq![done.0]))
            &&& done.1 == binds
        }),
    decreases ops.len(),
{
    let lifted = seq![Operator::ParenthisOpen] + ops;
    if ops.len() == 0 {
        assert(lifted.last() == Operator::ParenthisOpen);
        assert(lifted.drop_last() =~= Seq::<Operator>::empty());
        assert(nodes =~= seq![nodes[0]]);
    } else {
        assert(lifted.last() == ops.last());
        assert(lifted.drop_last() =~= seq![Operator::ParenthisOpen] + ops.drop_last());
        lemma_finish_as_close(ops.drop_last(), spec_make_node(nodes, ops.last())->Ok_0, binds);
    }
}

/// Each state of a successful parse of `s` from `p` has its counterpart one
/// position later in `wrap_parens(s)`, with one extra opening parenthesis at
/// the bottom of the operator stack, and both runs end with the same tree and
/// bindings. Assignments are excluded: a parenthesis ends the stretch of the
/// input in which they are recognized.
proof fn lemma_parse_shift(s: Seq<char>, p: int, st: ParseState)
    requires
        0 <= p <= s.len(),
        no_assign_from(s, p),
        spec_parse_at(s, p, st) is Ok,
    ensures
        spec_parse_at(
            wrap_parens(s),
            1 + p,
            ParseState {
                ops: seq![Operator::ParenthisOpen] + st.ops,
                nodes: st.nodes,
                binds: st.binds,
                prelude: false,
            },
        ) == spec_parse_at(s, p, st),
    decreases s.len() - p,
{
    let w = wrap_parens(s);
    lemma_token_shift(s, p);
    lemma_token_progress(s, p);
    match spec_token_at(s, p) {
        LexStep::End => {
            lemma_finish_as_close(st.ops, st.nodes, st.binds);
            let done = spec_finish(st.ops, st.nodes, st.binds)->Ok_0;
            let after_close = ParseState {
                ops: Seq::empty(),
                nodes: seq![done.0],
                binds: st.binds,
                prelude: false,
            };
            assert(spec_token_at(w, s.len() as int + 2) == LexStep::End);
            assert(spec_finish(after_close.ops, after_close.nodes, after_close.binds) == Ok::<
                (TreeView, Map<Seq<char>, bool>),
                ParseErrorView,
            >((done.0, st.binds)));
            assert(spec_parse_at(w, s.len() as int + 2, after_close) == Ok::<
                (TreeView, Map<Seq<char>, bool>),
                SyntaxErrorView,
            >((done.0, st.binds)));
        },
        LexStep::Fail(_, _) => {
            assert(false);
        },
        LexStep::Tok(tv, after) => {
            match tv {
                TokenView::Value(vv) => {
                    lemma_parse_shift(
                        s,
                        after,
                        ParseState {
                            ops: st.ops,
                            nodes: st.nodes.push(
                                TreeView { token: TokenView::Value(vv), left: None, right: None },
                            ),
                            binds: st.binds,
                            prelude: st.prelude && st.ops.len() == 0 && st.nodes.len() == 0 && (
                            vv matches ValueView::Variable(_)),
                        },
                    );
                },
                TokenView::Operator(op) => {
                    if op == Operator::ParenthisOpen {
                        assert((seq![Operator::ParenthisOpen] + st.ops).push(op) =~= seq![
                            Operator::ParenthisOpen,
                        ] + st.ops.push(op));
                        lemma_parse_shift(
                            s,
                            after,
                            ParseState {
                                ops: st.ops.push(op),
                                nodes: st.nodes,
                                binds: st.binds,
                                prelude: false,
                            },
                        );
                    } else if op == Operator::ParenthisClosed {
                        lemma_close_paren_lifted(st.ops, st.nodes);
                        let popped = spec_close_paren(st.ops, st.nodes)->Ok_0;
                        lemma_parse_shift(
                            s,
                            after,
                            ParseState {
                                ops: popped.0,
                                nodes: popped.1,
                                binds: st.binds,
                                prelude: false,
                            },
                        );
                    } else if op == Operator::Assign {
                        assert(false);
                    } else {
                        lemma_reduce_ge_lifted(st.ops, st.nodes, op);
                        let reduced = spec_reduce_ge(st.ops, st.nodes, op)->Ok_0;
                        assert((seq![Operator::ParenthisOpen] + reduced.0).push(op) =~= seq![
                            Operator::ParenthisOpen,
                        ] + reduced.0.push(op));
                        lemma_parse_shift(
                            s,
                            after,
                            ParseState {
                                ops: reduced.0.push(op),
                                nodes: reduced.1,
                                binds: st.binds,
                                prelude: false,
                            },
                        );
                    }
                },
            }
        },
    }
}

/// Double parenthesization is a no-op: wrapping a whole statement in one
/// more pair of parentheses changes neither the tree nor the bindings. The
/// statement must parse and hold no assignment: an assignment is recognized
/// only before any parenthesis, so wrapping one changes its meaning.
pub proof fn lemma_double_parenthesization(s: Seq<char>)
    requires
        no_assign_from(s, 0),
        spec_parse_at(s, 0, init_state()) is Ok,
    ensures
        spec_parse_at(wrap_parens(s), 0, init_state()) == spec_parse_at(s, 0, init_state()),
{
    let w = wrap_parens(s);
    assert(w[0] == '(');
    assert(spec_token_at(w, 0) == LexStep::Tok(TokenView::Operator(Operator::ParenthisOpen), 1));
    assert(init_state().ops.push(Operator::ParenthisOpen) =~= seq![Operator::ParenthisOpen]
        + init_state().ops);
    lemma_parse_shift(s, 0, init_state());
}

/// Parsing has no hidden state: the result is a function of the input text
/// alone, so re-parsing the same text yields the same tree and bindings.
pub proof fn lemma_parse_deterministic(
    s: Seq<char>,
    r1: Result<(ASTNode, StoredVariables), SyntaxError>,
    r2: Result<(ASTNode, StoredVariables), SyntaxError>,
)
    requires
        construct_result_view(r1) == spec_parse_at(s, 0, init_state()),
        construct_result_view(r2) == spec_parse_at(s, 0, init_state()),
    ensures
        construct_result_view(r1) == construct_result_view(r2),
{
}

} // verus!
