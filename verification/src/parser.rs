use vstd::prelude::*;

use crate::lexer::{LexError, Token, TokenView, Value, ValueView};

pub mod construct;

pub use construct::construct_ast;

verus! {

/// One node of the expression tree: a token together with up to two owned
/// children. Literal and variable leaves have no children, a negation has
/// exactly a left child, and binary operators have both.
#[derive(Debug, PartialEq)]
pub struct ASTNode {
    pub token: Token,
    pub left: Option<Box<ASTNode>>,
    pub right: Option<Box<ASTNode>>,
}

/// The mathematical shape of an expression tree.
pub struct TreeView {
    pub token: TokenView,
    pub left: Option<Box<TreeView>>,
    pub right: Option<Box<TreeView>>,
}

/// The shape of a node and of everything below it.
pub open spec fn tree_view(n: ASTNode) -> TreeView
    decreases n,
{
    TreeView {
        token: n.token@,
        left: (match n.left {
            Some(child) => Some(Box::new(tree_view(*child))),
            None => None,
        }),
        right: (match n.right {
            Some(child) => Some(Box::new(tree_view(*child))),
            None => None,
        }),
    }
}

impl View for ASTNode {
    type V = TreeView;

    open spec fn view(&self) -> TreeView {
        tree_view(*self)
    }
}

/// The shapes of a sequence of nodes, in order.
pub open spec fn nodes_view(v: Seq<ASTNode>) -> Seq<TreeView> {
    v.map_values(|n: ASTNode| tree_view(n))
}

pub proof fn lemma_nodes_view_push(v: Seq<ASTNode>, x: ASTNode)
    ensures
        nodes_view(v.push(x)) == nodes_view(v).push(tree_view(x)),
{
    assert(nodes_view(v.push(x)) =~= nodes_view(v).push(tree_view(x)));
}

pub proof fn lemma_nodes_view_drop_last(v: Seq<ASTNode>)
    requires
        v.len() > 0,
    ensures
        nodes_view(v.drop_last()) == nodes_view(v).drop_last(),
{
    assert(nodes_view(v.drop_last()) =~= nodes_view(v).drop_last());
}

/// The table of variable bindings built from the assignment statements of a
/// statement. Later assignments to the same name overwrite earlier ones, so
/// the table is viewed as a map from variable name to its last value.
#[derive(Debug, PartialEq)]
pub struct StoredVariables {
    entries: Vec<(String, bool)>,
}

spec fn entries_map(s: Seq<(String, bool)>) -> Map<Seq<char>, bool>
    decreases s.len(),
{
    if s.len() == 0 {
        Map::empty()
    } else {
        entries_map(s.drop_last()).insert(s.last().0@, s.last().1)
    }
}

proof fn lemma_entries_map_found(s: Seq<(String, bool)>, k: Seq<char>, i: int)
    requires
        0 <= i < s.len(),
        s[i].0@ == k,
        forall|j: int| i < j < s.len() ==> s[j].0@ != k,
    ensures
        entries_map(s).contains_key(k),
        entries_map(s)[k] == s[i].1,
    decreases s.len(),
{
    if i == s.len() - 1 {
    } else {
        assert(s.drop_last()[i] == s[i]);
        lemma_entries_map_found(s.drop_last(), k, i);
    }
}

proof fn lemma_entries_map_absent(s: Seq<(String, bool)>, k: Seq<char>)
    requires
        forall|j: int| 0 <= j < s.len() ==> s[j].0@ != k,
    ensures
        !entries_map(s).contains_key(k),
    decreases s.len(),
{
    if s.len() > 0 {
        lemma_entries_map_absent(s.drop_last(), k);
    }
}

impl View for StoredVariables {
    type V = Map<Seq<char>, bool>;

    closed spec fn view(&self) -> Map<Seq<char>, bool> {
        entries_map(self.entries@)
    }
}

impl StoredVariables {
    /// An empty table, with no variable bound.
    pub fn new() -> (r: StoredVariables)
        ensures
            r@ == Map::<Seq<char>, bool>::empty(),
    {
        let r = StoredVariables { entries: Vec::new() };
        proof {
            assert(r@ =~= Map::<Seq<char>, bool>::empty());
        }
        r
    }

    /// Binds `name` to `value`, overwriting any earlier binding of the same
    /// name.
    pub fn insert(&mut self, name: String, value: bool)
        ensures
            final(self)@ == old(self)@.insert(name@, value),
    {
        let ghost e0 = self.entries@;
        let ghost k = name@;
        self.entries.push((name, value));
        proof {
            assert(self.entries@.drop_last() =~= e0);
            assert(self.entries@.last().0@ == k);
        }
    }

    /// Looks a name up: the value it was last bound to, or `None` if it was
    /// never bound.
    pub fn get(&self, name: &String) -> (r: Option<bool>)
        ensures
            r == (if self@.contains_key(name@) {
                Some(self@[name@])
            } else {
                None::<bool>
            }),
    {
        let mut i: usize = self.entries.len();
        loop
            invariant
                i <= self.entries.len(),
                forall|j: int| i <= j < self.entries@.len() ==> self.entries@[j].0@ != name@,
            decreases i,
        {
            if i == 0 {
                proof {
                    lemma_entries_map_absent(self.entries@, name@);
                }
                return None;
            }
            i = i - 1;
            if self.entries[i].0 == *name {
                proof {
                    lemma_entries_map_found(self.entries@, name@, i as int);
                }
                return Some(self.entries[i].1);
            }
        }
    }
}

/// A failure of the parser.
#[derive(Debug, PartialEq)]
pub enum ParseError {
    /// A closing parenthesis with no opening one to match it.
    UnmatchedCloseParenthesis,
    /// An opening parenthesis still unmatched at the end of the input.
    UnmatchedOpenParenthesis,
    /// The input held no expression at all.
    EmptyExpression,
    /// Two values stood next to each other with no operator between them.
    MissingOperator,
    /// An operator lacked the operand it needed.
    MissingOperand,
    /// An assignment that did not directly follow a lone variable before the
    /// final expression began.
    MisplacedAssignment,
    /// An assignment with no literal or variable after `:=`.
    MissingAssignmentValue,
    /// An assignment whose right-hand side names a variable that was never
    /// assigned.
    UndefinedVariable(String),
}

/// The mathematical shape of a `ParseError`.
pub enum ParseErrorView {
    UnmatchedCloseParenthesis,
    UnmatchedOpenParenthesis,
    EmptyExpression,
    MissingOperator,
    MissingOperand,
    MisplacedAssignment,
    MissingAssignmentValue,
    UndefinedVariable(Seq<char>),
}

impl View for ParseError {
    type V = ParseErrorView;

    open spec fn view(&self) -> ParseErrorView {
        match self {
            ParseError::UnmatchedCloseParenthesis => ParseErrorView::UnmatchedCloseParenthesis,
            ParseError::UnmatchedOpenParenthesis => ParseErrorView::UnmatchedOpenParenthesis,
            ParseError::EmptyExpression => ParseErrorView::EmptyExpression,
            ParseError::MissingOperator => ParseErrorView::MissingOperator,
            ParseError::MissingOperand => ParseErrorView::MissingOperand,
            ParseError::MisplacedAssignment => ParseErrorView::MisplacedAssignment,
            ParseError::MissingAssignmentValue => ParseErrorView::MissingAssignmentValue,
            ParseError::UndefinedVariable(s) => ParseErrorView::UndefinedVariable(s@),
        }
    }
}

/// What can stop the construction of a tree: a failure of the lexer, or one
/// of the parser itself. The first error found aborts the construction.
#[derive(Debug, PartialEq)]
pub enum SyntaxError {
    Lex(LexError),
    Parse(ParseError),
}

/// The mathematical shape of a `SyntaxError`.
pub enum SyntaxErrorView {
    Lex(LexError),
    Parse(ParseErrorView),
}

impl View for SyntaxError {
    type V = SyntaxErrorView;

    open spec fn view(&self) -> SyntaxErrorView {
        match self {
            SyntaxError::Lex(e) => SyntaxErrorView::Lex(*e),
            SyntaxError::Parse(e) => SyntaxErrorView::Parse(e@),
        }
    }
}

impl ASTNode {
    /// A leaf node holding `token` and no children.
    pub fn new(token: Token) -> (n: ASTNode)
        ensures
            n@ == (TreeView { token: token@, left: None, right: None }),
    {
        ASTNode { token, left: None, right: None }
    }

    /// A new root holding `token`, with this tree as its left child.
    pub fn make_new_root_left(self, token: Token) -> (n: ASTNode)
        ensures
            n@ == (TreeView {
                token: token@,
                left: Some(Box::new(self@)),
                right: None,
            }),
    {
        ASTNode { token, left: Some(Box::new(self)), right: None }
    }

    /// A new root holding `token`, with this tree as its right child.
    pub fn make_new_root_right(self, token: Token) -> (n: ASTNode)
        ensures
            n@ == (TreeView {
                token: token@,
                left: None,
                right: Some(Box::new(self@)),
            }),
    {
        ASTNode { token, left: None, right: Some(Box::new(self)) }
    }

    /// Replaces the left child with the given tree.
    pub fn add_left_child(&mut self, node: ASTNode)
        ensures
            final(self)@ == (TreeView {
                token: old(self)@.token,
                left: Some(Box::new(node@)),
                right: old(self)@.right,
            }),
    {
        self.left = Some(Box::new(node))
    }

    /// Replaces the right child with the given tree.
    pub fn add_right_child(&mut self, node: ASTNode)
        ensures
            final(self)@ == (TreeView {
                token: old(self)@.token,
                left: old(self)@.left,
                right: Some(Box::new(node@)),
            }),
    {
        self.right = Some(Box::new(node))
    }

    /// Replaces the left child with a fresh leaf holding `token`.
    pub fn add_left_token(&mut self, token: Token)
        ensures
            final(self)@ == (TreeView {
                token: old(self)@.token,
                left: Some(Box::new(TreeView { token: token@, left: None, right: None })),
                right: old(self)@.right,
            }),
    {
        let ghost tv = token@;
        let leaf = ASTNode { token, left: None, right: None };
        proof {
            assert(tree_view(leaf) == (TreeView { token: tv, left: None, right: None }));
        }
        self.left = Some(Box::new(leaf));
    }

    /// Replaces the right child with a fresh leaf holding `token`.
    pub fn add_right_token(&mut self, token: Token)
        ensures
            final(self)@ == (TreeView {
                token: old(self)@.token,
                left: old(self)@.left,
                right: Some(Box::new(TreeView { token: token@, left: None, right: None })),
            }),
    {
        let ghost tv = token@;
        let leaf = ASTNode { token, left: None, right: None };
        proof {
            assert(tree_view(leaf) == (TreeView { token: tv, left: None, right: None }));
        }
        self.right = Some(Box::new(leaf));
    }
}

} // verus!
