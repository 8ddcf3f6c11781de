use vstd::prelude::*;
use vstd::string::StrSliceExecFns;

verus! {

/// The operators of the propositional language. Precedence is given by an
/// explicit table (`spec_precedence` in the parser), not by the order of the
/// variants here.
#[derive(Debug, PartialEq, Eq, Structural, Clone, Copy)]
pub enum Operator {
    Equivalence,
    Implication,
    Or,
    And,
    Not,
    ParenthisClosed,
    ParenthisOpen,
    Assign,
}

/// A literal truth value or a reference to a named variable.
#[derive(Debug, PartialEq)]
pub enum Value {
    Bool(bool),
    Variable(String),
}

/// The mathematical shape of a `Value`: the variable name is abstracted to
/// its character sequence.
pub enum ValueView {
    Bool(bool),
    Variable(Seq<char>),
}

impl View for Value {
    type V = ValueView;

    open spec fn view(&self) -> ValueView {
        match self {
            Value::Bool(b) => ValueView::Bool(*b),
            Value::Variable(s) => ValueView::Variable(s@),
        }
    }
}

/// One lexical unit of the input: either a value or an operator.
#[derive(Debug, PartialEq)]
pub enum Token {
    Value(Value),
    Operator(Operator),
}

/// The mathematical shape of a `Token`.
pub enum TokenView {
    Value(ValueView),
    Operator(Operator),
}

impl View for Token {
    type V = TokenView;

    open spec fn view(&self) -> TokenView {
        match self {
            Token::Value(v) => TokenView::Value(v@),
            Token::Operator(op) => TokenView::Operator(*op),
        }
    }
}

impl Token {
    /// Turns a digit character into a literal token: `'0'` is false and any
    /// other digit is true. The lexer only ever applies this to `'0'` and `'1'`.
    fn from_digit(ch: char) -> (t: Token)
        ensures
            t@ == TokenView::Value(ValueView::Bool(ch != '0')),
    {
        Token::Value(Value::Bool(Token::eval_bool(ch)))
    }

    fn eval_bool(ch: char) -> (b: bool)
        ensures
            b == (ch != '0'),
    {
        if ch == '0' {
            false
        } else {
            true
        }
    }
}

/// A failure of the lexer, carrying the character at fault.
#[derive(Debug, PartialEq, Eq, Clone, Copy)]
pub enum LexError {
    /// A character that starts no token of the language.
    UnexpectedCharacter(char),
    /// A multi-character operator that was started (by `'<'` or `'='`) but
    /// not completed.
    IncompleteOperator(char),
}

/// The outcome of reading one token starting at a given position: a token and
/// the position after it, a lexing failure and the position after it, or the
/// end of the input.
pub enum LexStep {
    Tok(TokenView, int),
    Fail(LexError, int),
    End,
}

/// The whitespace characters that separate tokens.
pub open spec fn is_space_char(c: char) -> bool {
    c == ' ' || c == '\t' || c == '\n' || c == '\r'
}

/// The letters that may name a variable. `'v'` is reserved for disjunction
/// and is excluded before this predicate is consulted.
pub open spec fn is_letter_char(c: char) -> bool {
    ('a' <= c && c <= 'z') || ('A' <= c && c <= 'Z')
}

/// What the lexer produces when reading the character sequence `s` from
/// position `pos`: whitespace and a bare `':'` are skipped, `'<'` must begin
/// `"<=>"`, `'='` must begin `"=>"`, the digits `'0'` and `'1'` are the two
/// literals, letters other than `'v'` are variables, and anything else is an
/// error.
pub open spec fn spec_token_at(s: Seq<char>, pos: int) -> LexStep
    decreases s.len() - pos,
{
    if pos < 0 || pos >= s.len() {
        LexStep::End
    } else {
        let c = s[pos];
        if c == '^' {
            LexStep::Tok(TokenView::Operator(Operator::And), pos + 1)
        } else if c == 'v' {
            LexStep::Tok(TokenView::Operator(Operator::Or), pos + 1)
        } else if c == '~' {
            LexStep::Tok(TokenView::Operator(Operator::Not), pos + 1)
        } else if c == '(' {
            LexStep::Tok(TokenView::Operator(Operator::ParenthisOpen), pos + 1)
        } else if c == ')' {
            LexStep::Tok(TokenView::Operator(Operator::ParenthisClosed), pos + 1)
        } else if c == '<' {
            if pos + 3 <= s.len() {
                if s[pos + 1] == '=' && s[pos + 2] == '>' {
                    LexStep::Tok(TokenView::Operator(Operator::Equivalence), pos + 3)
                } else {
                    LexStep::Fail(LexError::IncompleteOperator('<'), pos + 3)
                }
            } else {
                LexStep::Fail(LexError::IncompleteOperator('<'), s.len() as int)
            }
        } else if c == ':' {
            if pos + 2 <= s.len() && s[pos + 1] == '=' {
                LexStep::Tok(TokenView::Operator(Operator::Assign), pos + 2)
            } else {
                spec_token_at(s, pos + 1)
            }
        } else if c == '=' {
            if pos + 2 <= s.len() && s[pos + 1] == '>' {
                LexStep::Tok(TokenView::Operator(Operator::Implication), pos + 2)
            } else {
                LexStep::Fail(LexError::IncompleteOperator('='), pos + 1)
            }
        } else if c == '0' || c == '1' {
            LexStep::Tok(TokenView::Value(ValueView::Bool(c != '0')), pos + 1)
        } else if is_space_char(c) {
            spec_token_at(s, pos + 1)
        } else if is_letter_char(c) {
            LexStep::Tok(TokenView::Value(ValueView::Variable(seq![c])), pos + 1)
        } else {
            LexStep::Fail(LexError::UnexpectedCharacter(c), pos + 1)
        }
    }
}

/// Reading a token always moves the position strictly forward and never past
/// the end of the input.
pub proof fn lemma_token_progress(s: Seq<char>, pos: int)
    ensures
        (match spec_token_at(s, pos) {
            LexStep::Tok(_, p) => pos < p <= s.len(),
            LexStep::Fail(_, p) => pos < p <= s.len(),
            LexStep::End => true,
        }),
    decreases s.len() - pos,
{
    if 0 <= pos && pos < s.len() {
        lemma_token_progress(s, pos + 1);
    }
}

/// Relies on char::to_string from std: the resulting string holds exactly the
/// one character it was made from.
#[verifier::external_body]
fn char_to_string(c: char) -> (r: String)
    ensures
        r@ == seq![c],
{
    c.to_string()
}

fn is_space(c: char) -> (r: bool)
    ensures
        r == is_space_char(c),
{
    c == ' ' || c == '\t' || c == '\n' || c == '\r'
}

fn is_letter(c: char) -> (r: bool)
    ensures
        r == is_letter_char(c),
{
    ('a' <= c && c <= 'z') || ('A' <= c && c <= 'Z')
}

/// A cursor over the input text that hands out one token per call to `next`.
pub struct Lexer<'a> {
    text: &'a str,
    pos: usize,
}

impl<'a> Lexer<'a> {
    /// The full input text being lexed.
    pub closed spec fn input(&self) -> Seq<char> {
        self.text@
    }

    /// The position of the next character to be read.
    pub closed spec fn cursor(&self) -> int {
        self.pos as int
    }

    pub fn new(contents: &str) -> (l: Lexer)
        ensures
            l.input() == contents@,
            l.cursor() == 0,
    {
        Lexer { text: contents, pos: 0 }
    }

    /// Reads the next token, advancing the cursor exactly as `spec_token_at`
    /// describes: `None` at the end of the input, and otherwise the token or
    /// the lexing error found at the cursor.
    pub fn next(&mut self) -> (r: Option<Result<Token, LexError>>)
        ensures
            final(self).input() == old(self).input(),
            (match spec_token_at(old(self).input(), old(self).cursor()) {
                LexStep::Tok(tv, p) => ({
                    &&& (r matches Some(item) && item matches Ok(t) && t@ == tv)
                    &&& final(self).cursor() == p
                }),
                LexStep::Fail(e, p) => ({
                    &&& r == Some(Err::<Token, LexError>(e))
                    &&& final(self).cursor() == p
                }),
                LexStep::End => ({
                    &&& r is None
                    &&& final(self).cursor() == old(self).input().len()
                }),
            }),
    {
        let ghost s = self.input();
        let n: usize = self.text.unicode_len();
        loop
            invariant
                self.input() == s,
                n as int == s.len(),
                self.text == old(self).text,
                spec_token_at(s, old(self).cursor()) == spec_token_at(s, self.cursor()),
            decreases n as int - self.cursor(),
        {
            if self.pos >= n {
                self.pos = n;
                return None;
            }
            let c = self.text.get_char(self.pos);
            if c == '^' {
                self.pos = self.pos + 1;
                return Some(Ok(Token::Operator(Operator::And)));
            } else if c == 'v' {
                self.pos = self.pos + 1;
                return Some(Ok(Token::Operator(Operator::Or)));
            } else if c == '~' {
                self.pos = self.pos + 1;
                return Some(Ok(Token::Operator(Operator::Not)));
            } else if c == '(' {
                self.pos = self.pos + 1;
                return Some(Ok(Token::Operator(Operator::ParenthisOpen)));
            } else if c == ')' {
                self.pos = self.pos + 1;
                return Some(Ok(Token::Operator(Operator::ParenthisClosed)));
            } else if c == '<' {
                if n - self.pos >= 3 {
                    let c1 = self.text.get_char(self.pos + 1);
                    let c2 = self.text.get_char(self.pos + 2);
                    self.pos = self.pos + 3;
                    if c1 == '=' && c2 == '>' {
                        return Some(Ok(Token::Operator(Operator::Equivalence)));
                    } else {
                        return Some(Err(LexError::IncompleteOperator('<')));
                    }
                } else {
                    self.pos = n;
                    return Some(Err(LexError::IncompleteOperator('<')));
                }
            } else if c == ':' {
                if n - self.pos >= 2 {
                    let c1 = self.text.get_char(self.pos + 1);
                    if c1 == '=' {
                        self.pos = self.pos + 2;
                        return Some(Ok(Token::Operator(Operator::Assign)));
                    }
                }
                // A bare ':' is skipped.
                self.pos = self.pos + 1;
            } else if c == '=' {
                if n - self.pos >= 2 {
                    let c1 = self.text.get_char(self.pos + 1);
                    if c1 == '>' {
                        self.pos = self.pos + 2;
                        return Some(Ok(Token::Operator(Operator::Implication)));
                    }
                }
                self.pos = self.pos + 1;
                return Some(Err(LexError::IncompleteOperator('=')));
            } else if c == '0' || c == '1' {
                self.pos = self.pos + 1;
                return Some(Ok(Token::from_digit(c)));
            } else if is_space(c) {
                self.pos = self.pos + 1;
            } else if is_letter(c) {
                let name = char_to_string(c);
                self.pos = self.pos + 1;
                return Some(Ok(Token::Value(Value::Variable(name))));
            } else {
                self.pos = self.pos + 1;
                return Some(Err(LexError::UnexpectedCharacter(c)));
            }
        }
    }
}

} // verus!
