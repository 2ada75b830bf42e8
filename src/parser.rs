use vstd::prelude::*;
use crate::lexer::{Number, NumberView, Token, TokenView, tokens_view};

verus! {

/// Why a sequence of tokens is not an expression.
#[derive(Copy, Clone, Debug, PartialEq, Eq, Structural)]
pub enum ParsingError {
    /// The tokens ran out where an expression should start.
    ExpectedANumber,
    /// A `(` whose expression is not followed by `)`.
    MismatchedParentheses,
    /// A `-` in prefix position that is not followed by a number.
    MismatchedMinusSign,
    /// A token that cannot start an expression.
    ExpectedAPrefix,
    /// A complete expression followed by something other than an operator,
    /// a `)` that closes it, or the end of input.
    ExpectedAnOperator,
}

impl ParsingError {
    /// A human-readable description of the error.
    pub fn message(&self) -> (r: String)
        ensures
            *self == ParsingError::ExpectedANumber ==> r@ == "Expected a number"@,
            *self == ParsingError::MismatchedParentheses ==> r@ == "Missing ')' parenthesis"@,
            *self == ParsingError::MismatchedMinusSign ==> r@ == "Mismatched '-' sign"@,
            *self == ParsingError::ExpectedAPrefix ==> r@ == "Expected a prefix"@,
            *self == ParsingError::ExpectedAnOperator ==> r@ == "Expected an operator"@,
    {
        match self {
            ParsingError::ExpectedANumber => "Expected a number".to_string(),
            ParsingError::MismatchedParentheses => "Missing ')' parenthesis".to_string(),
            ParsingError::MismatchedMinusSign => "Mismatched '-' sign".to_string(),
            ParsingError::ExpectedAPrefix => "Expected a prefix".to_string(),
            ParsingError::ExpectedAnOperator => "Expected an operator".to_string(),
        }
    }
}

/// An expression tree; each node owns its operands.
#[derive(Debug)]
pub enum Node {
    Value(Number),
    Add(Box<Node>, Box<Node>),
    Subtract(Box<Node>, Box<Node>),
    Multiply(Box<Node>, Box<Node>),
    Divide(Box<Node>, Box<Node>),
}

/// The mathematical content of a [`Node`].
pub enum NodeView {
    Value(NumberView),
    Add(Box<NodeView>, Box<NodeView>),
    Subtract(Box<NodeView>, Box<NodeView>),
    Multiply(Box<NodeView>, Box<NodeView>),
    Divide(Box<NodeView>, Box<NodeView>),
}

impl View for Node {
    type V = NodeView;

    open spec fn view(&self) -> NodeView
        decreases self,
    {
        match self {
            Node::Value(n) => NodeView::Value(n@),
            Node::Add(l, r) => NodeView::Add(Box::new((**l).view()), Box::new((**r).view())),
            Node::Subtract(l, r) => NodeView::Subtract(Box::new((**l).view()), Box::new((**r).view())),
            Node::Multiply(l, r) => NodeView::Multiply(Box::new((**l).view()), Box::new((**r).view())),
            Node::Divide(l, r) => NodeView::Divide(Box::new((**l).view()), Box::new((**r).view())),
        }
    }
}

/// How tightly a token binds as an infix operator; 0 for a token that is
/// none, which ends an expression.
pub open spec fn precedence_of(t: TokenView) -> int {
    match t {
        TokenView::Plus | TokenView::Minus => 10,
        TokenView::Multiply | TokenView::Slash => 20,
        _ => 0,
    }
}

/// Whether a token can start an operand.
pub open spec fn starts_operand(t: TokenView) -> bool {
    t is Value || t == TokenView::LeftPar || t == TokenView::Minus
}

/// The node that an infix operator builds from its operands.
pub open spec fn infix_node(op: TokenView, left: NodeView, right: NodeView) -> NodeView {
    match op {
        TokenView::Plus => NodeView::Add(Box::new(left), Box::new(right)),
        TokenView::Minus => NodeView::Subtract(Box::new(left), Box::new(right)),
        TokenView::Multiply => NodeView::Multiply(Box::new(left), Box::new(right)),
        _ => NodeView::Divide(Box::new(left), Box::new(right)),
    }
}

/// The expression that starts at `pos` and binds tighter than `min_prec`,
/// with the position after it.
pub open spec fn parse_expr(ts: Seq<TokenView>, pos: nat, min_prec: int) -> Result<
    (NodeView, nat),
    ParsingError,
>
    decreases ts.len() - pos, 2int,
{
    if pos >= ts.len() {
        Err(ParsingError::ExpectedANumber)
    } else {
        match parse_operand(ts, pos) {
            Ok((left, p)) => if pos < p <= ts.len() {
                parse_infixes(ts, left, p, min_prec)
            } else {
                Err(ParsingError::ExpectedANumber)
            },
            Err(e) => Err(e),
        }
    }
}

/// The operand that starts at `pos`: a number, a negated number, or a
/// parenthesised expression.
pub open spec fn parse_operand(ts: Seq<TokenView>, pos: nat) -> Result<(NodeView, nat), ParsingError>
    decreases ts.len() - pos, 1int,
{
    if pos >= ts.len() {
        Err(ParsingError::ExpectedANumber)
    } else {
        match ts[pos as int] {
            TokenView::Value(n) => Ok((NodeView::Value(n), pos + 1)),
            TokenView::LeftPar => match parse_expr(ts, pos + 1, 0) {
                Ok((inner, p)) => if p < ts.len() && ts[p as int] == TokenView::RightPar {
                    Ok((inner, p + 1))
                } else {
                    Err(ParsingError::MismatchedParentheses)
                },
                Err(e) => Err(e),
            },
            TokenView::Minus => if pos + 1 < ts.len() && ts[pos + 1int] is Value {
                let n = ts[pos + 1int]->Value_0;
                Ok((NodeView::Value(NumberView { negative: !n.negative, ..n }), pos + 2))
            } else {
                Err(ParsingError::MismatchedMinusSign)
            },
            _ => Err(ParsingError::ExpectedAPrefix),
        }
    }
}

/// Extends `left` with the infix operators from `pos` on that bind tighter
/// than `min_prec`, each applied to the expression on its right that binds
/// tighter than itself.
pub open spec fn parse_infixes(ts: Seq<TokenView>, left: NodeView, pos: nat, min_prec: int) -> Result<
    (NodeView, nat),
    ParsingError,
>
    decreases ts.len() - pos, 0int,
{
    if pos >= ts.len() {
        Err(ParsingError::ExpectedAnOperator)
    } else if precedence_of(ts[pos as int]) <= min_prec {
        Ok((left, pos))
    } else {
        let op = ts[pos as int];
        match parse_expr(ts, pos + 1, precedence_of(op)) {
            Ok((right, p)) => if pos < p <= ts.len() {
                parse_infixes(ts, infix_node(op, left, right), p, min_prec)
            } else {
                Err(ParsingError::ExpectedAnOperator)
            },
            Err(e) => Err(e),
        }
    }
}

/// The expression tree of the tokens from `pos` on, which must be followed
/// by `Eof`.
pub open spec fn parse_spec(ts: Seq<TokenView>, pos: nat) -> Result<NodeView, ParsingError> {
    match parse_expr(ts, pos, 0) {
        Ok((n, p)) => if p < ts.len() && ts[p as int] == TokenView::Eof {
            Ok(n)
        } else {
            Err(ParsingError::ExpectedAnOperator)
        },
        Err(e) => Err(e),
    }
}

/// In `a op1 b op2 c`, the second operator takes `b` as its left operand
/// exactly when it binds tighter than the first; otherwise the first applies
/// first, so operators of one level associate to the left.
pub proof fn lemma_precedence_and_associativity(
    a: NumberView,
    op1: TokenView,
    b: NumberView,
    op2: TokenView,
    c: NumberView,
)
    requires
        precedence_of(op1) > 0,
        precedence_of(op2) > 0,
    ensures
        ({
            let ts = seq![
                TokenView::Value(a),
                op1,
                TokenView::Value(b),
                op2,
                TokenView::Value(c),
                TokenView::Eof,
            ];
            let (na, nb, nc) = (NodeView::Value(a), NodeView::Value(b), NodeView::Value(c));
            parse_spec(ts, 0) == Ok::<NodeView, ParsingError>(
                if precedence_of(op2) > precedence_of(op1) {
                    infix_node(op1, na, infix_node(op2, nb, nc))
                } else {
                    infix_node(op2, infix_node(op1, na, nb), nc)
                },
            )
        }),
{
    let ts = seq![
        TokenView::Value(a),
        op1,
        TokenView::Value(b),
        op2,
        TokenView::Value(c),
        TokenView::Eof,
    ];
    let (na, nb, nc) = (NodeView::Value(a), NodeView::Value(b), NodeView::Value(c));
    let (p1, p2) = (precedence_of(op1), precedence_of(op2));
    assert(ts.len() == 6 && ts[5] == TokenView::Eof && precedence_of(ts[5]) == 0);
    assert(ts[1] == op1 && ts[3] == op2);
    assert(parse_operand(ts, 0) == Ok::<(NodeView, nat), ParsingError>((na, 1)));
    assert(parse_operand(ts, 2) == Ok::<(NodeView, nat), ParsingError>((nb, 3)));
    assert(parse_operand(ts, 4) == Ok::<(NodeView, nat), ParsingError>((nc, 5)));
    assert(parse_infixes(ts, nc, 5, p2) == Ok::<(NodeView, nat), ParsingError>((nc, 5)));
    assert(parse_expr(ts, 4, p2) == Ok::<(NodeView, nat), ParsingError>((nc, 5)));
    if p2 > p1 {
        let bc = infix_node(op2, nb, nc);
        assert(parse_infixes(ts, bc, 5, p1) == Ok::<(NodeView, nat), ParsingError>((bc, 5)));
        assert(parse_infixes(ts, nb, 3, p1) == Ok::<(NodeView, nat), ParsingError>((bc, 5)));
        assert(parse_expr(ts, 2, p1) == Ok::<(NodeView, nat), ParsingError>((bc, 5)));
        let abc = infix_node(op1, na, bc);
        assert(parse_infixes(ts, abc, 5, 0) == Ok::<(NodeView, nat), ParsingError>((abc, 5)));
        assert(parse_infixes(ts, na, 1, 0) == Ok::<(NodeView, nat), ParsingError>((abc, 5)));
        assert(parse_expr(ts, 0, 0) == Ok::<(NodeView, nat), ParsingError>((abc, 5)));
    } else {
        assert(parse_infixes(ts, nb, 3, p1) == Ok::<(NodeView, nat), ParsingError>((nb, 3)));
        assert(parse_expr(ts, 2, p1) == Ok::<(NodeView, nat), ParsingError>((nb, 3)));
        let ab = infix_node(op1, na, nb);
        let abc = infix_node(op2, ab, nc);
        assert(parse_infixes(ts, abc, 5, 0) == Ok::<(NodeView, nat), ParsingError>((abc, 5)));
        assert(parse_infixes(ts, ab, 3, 0) == Ok::<(NodeView, nat), ParsingError>((abc, 5)));
        assert(parse_infixes(ts, na, 1, 0) == Ok::<(NodeView, nat), ParsingError>((abc, 5)));
        assert(parse_expr(ts, 0, 0) == Ok::<(NodeView, nat), ParsingError>((abc, 5)));
    }
}

/// A cursor over a sequence of tokens.
struct TokenProvider {
    tokens: Vec<Token>,
    current_index: usize,
}

impl TokenProvider {
    spec fn ts(&self) -> Seq<TokenView> {
        tokens_view(self.tokens@)
    }

    fn new(tokens: Vec<Token>) -> (r: TokenProvider)
        ensures
            r.tokens@ == tokens@,
            r.current_index == 0,
    {
        TokenProvider { tokens, current_index: 0 }
    }

    /// The token under the cursor, if any, left in place.
    fn get_peek_token(&self) -> (r: Option<&Token>)
        ensures
            self.current_index < self.tokens.len() ==> r == Some(&self.tokens[self.current_index as int]),
            self.current_index >= self.tokens.len() ==> r is None,
    {
        if self.current_index < self.tokens.len() {
            Some(&self.tokens[self.current_index])
        } else {
            None
        }
    }

    /// Moves the cursor past the current token, unless the tokens have run out.
    fn advance(&mut self)
        ensures
            final(self).tokens == old(self).tokens,
            old(self).current_index < old(self).tokens.len() ==> final(self).current_index
                == old(self).current_index + 1,
            old(self).current_index >= old(self).tokens.len() ==> final(self).current_index
                == old(self).current_index,
    {
        if self.current_index < self.tokens.len() {
            self.current_index = self.current_index + 1;
        }
    }
}

/// Builds the expression tree of a sequence of tokens by precedence climbing.
pub struct Parser {
    token_provider: TokenProvider,
}

fn precedence(token: &Token) -> (r: i32)
    ensures
        r == precedence_of(token@),
{
    match token {
        Token::Plus | Token::Minus => 10,
        Token::Multiply | Token::Slash => 20,
        _ => 0,
    }
}

impl Parser {
    /// The tokens being parsed.
    pub closed spec fn tokens(&self) -> Seq<TokenView> {
        self.token_provider.ts()
    }

    /// The position of the next token to read.
    pub closed spec fn position(&self) -> nat {
        self.token_provider.current_index as nat
    }

    pub fn new(tokens: Vec<Token>) -> (r: Parser)
        ensures
            r.tokens() == tokens_view(tokens@),
            r.position() == 0,
    {
        Parser { token_provider: TokenProvider::new(tokens) }
    }

    /// The number that follows a `-` in prefix position, negated.
    fn parse_negated_number(&mut self) -> (r: Result<Box<Node>, ParsingError>)
        requires
            old(self).position() < old(self).tokens().len(),
            old(self).tokens()[old(self).position() as int] == TokenView::Minus,
        ensures
            final(self).tokens() == old(self).tokens(),
            r is Ok ==> old(self).position() < final(self).position() <= final(self).tokens().len(),
            match parse_operand(old(self).tokens(), old(self).position()) {
                Ok((n, p)) => r is Ok && r->Ok_0@ == n && final(self).position() == p,
                Err(e) => r == Err::<Box<Node>, ParsingError>(e),
            },
    {
        self.token_provider.advance();
        let next = match self.token_provider.get_peek_token() {
            Some(Token::Value(n)) => n.copy(),
            _ => {
                return Err(ParsingError::MismatchedMinusSign);
            },
        };
        self.token_provider.advance();
        Ok(Box::new(Node::Value(next.negated())))
    }

    /// The operand under the cursor.
    fn parse_prefix(&mut self) -> (r: Result<Box<Node>, ParsingError>)
        requires
            old(self).position() < old(self).tokens().len(),
        ensures
            final(self).tokens() == old(self).tokens(),
            r is Ok ==> old(self).position() < final(self).position() <= final(self).tokens().len(),
            match parse_operand(old(self).tokens(), old(self).position()) {
                Ok((n, p)) => r is Ok && r->Ok_0@ == n && final(self).position() == p,
                Err(e) => r == Err::<Box<Node>, ParsingError>(e),
            },
            !starts_operand(old(self).tokens()[old(self).position() as int]) ==> final(self).position()
                == old(self).position(),
        decreases old(self).tokens().len() - old(self).position(), 1int,
    {
        let token = match self.token_provider.get_peek_token() {
            Some(t) => t.copy(),
            None => {
                return Err(ParsingError::ExpectedANumber);
            },
        };
        match token {
            Token::Value(num) => {
                self.token_provider.advance();
                Ok(Box::new(Node::Value(num)))
            },
            Token::LeftPar => {
                self.token_provider.advance();
                let inner = match self.parse_expression(0) {
                    Ok(inner) => inner,
                    Err(e) => {
                        return Err(e);
                    },
                };
                match self.token_provider.get_peek_token() {
                    Some(Token::RightPar) => {
                        self.token_provider.advance();
                        Ok(inner)
                    },
                    _ => Err(ParsingError::MismatchedParentheses),
                }
            },
            Token::Minus => self.parse_negated_number(),
            _ => Err(ParsingError::ExpectedAPrefix),
        }
    }

    /// Applies an infix operator to `left` and the expression on its right;
    /// a token that is no operator is refused before anything is read.
    fn parse_infix(&mut self, left: Box<Node>, token: Token) -> (r: Result<Box<Node>, ParsingError>)
        ensures
            final(self).tokens() == old(self).tokens(),
            precedence_of(token@) == 0 ==> r == Err::<Box<Node>, ParsingError>(
                ParsingError::ExpectedAnOperator,
            ) && final(self).position() == old(self).position(),
            precedence_of(token@) > 0 ==> (r is Ok ==> old(self).position() < final(self).position()
                <= final(self).tokens().len()),
            precedence_of(token@) > 0 ==> match parse_expr(
                old(self).tokens(),
                old(self).position(),
                precedence_of(token@),
            ) {
                Ok((n, p)) => r is Ok && r->Ok_0@ == infix_node(token@, left@, n)
                    && final(self).position() == p,
                Err(e) => r == Err::<Box<Node>, ParsingError>(e),
            },
        decreases old(self).tokens().len() - old(self).position(), 3int,
    {
        match token {
            Token::Plus | Token::Minus | Token::Multiply | Token::Slash => {},
            _ => {
                return Err(ParsingError::ExpectedAnOperator);
            },
        }
        let prec = precedence(&token);
        let right = match self.parse_expression(prec) {
            Ok(right) => right,
            Err(e) => {
                return Err(e);
            },
        };
        match token {
            Token::Plus => Ok(Box::new(Node::Add(left, right))),
            Token::Minus => Ok(Box::new(Node::Subtract(left, right))),
            Token::Multiply => Ok(Box::new(Node::Multiply(left, right))),
            _ => Ok(Box::new(Node::Divide(left, right))),
        }
    }

    /// The expression under the cursor whose operators bind tighter than
    /// `min_prec`.
    fn parse_expression(&mut self, min_prec: i32) -> (r: Result<Box<Node>, ParsingError>)
        requires
            min_prec >= 0,
        ensures
            final(self).tokens() == old(self).tokens(),
            r is Ok ==> old(self).position() < final(self).position() <= final(self).tokens().len(),
            match parse_expr(old(self).tokens(), old(self).position(), min_prec as int) {
                Ok((n, p)) => r is Ok && r->Ok_0@ == n && final(self).position() == p,
                Err(e) => r == Err::<Box<Node>, ParsingError>(e),
            },
        decreases old(self).tokens().len() - old(self).position(), 2int,
    {
        let ghost ts = self.tokens();
        let ghost start = self.position();
        if self.token_provider.current_index >= self.token_provider.tokens.len() {
            return Err(ParsingError::ExpectedANumber);
        }
        let mut left = match self.parse_prefix() {
            Ok(left) => left,
            Err(e) => {
                return Err(e);
            },
        };
        loop
            invariant
                self.tokens() == ts,
                ts == old(self).tokens(),
                start == old(self).position(),
                ts.len() == self.token_provider.tokens.len(),
                start < self.position() <= ts.len(),
                min_prec >= 0,
                parse_expr(ts, start, min_prec as int) == parse_infixes(
                    ts,
                    left@,
                    self.position(),
                    min_prec as int,
                ),
            decreases ts.len() - self.position(),
        {
            let token = match self.token_provider.get_peek_token() {
                Some(t) => t.copy(),
                None => {
                    return Err(ParsingError::ExpectedAnOperator);
                },
            };
            if precedence(&token) <= min_prec {
                return Ok(left);
            }
            self.token_provider.advance();
            left = match self.parse_infix(left, token) {
                Ok(node) => node,
                Err(e) => {
                    return Err(e);
                },
            };
        }
    }

    /// The expression tree of the tokens from the cursor on; the expression
    /// must be followed by `Eof`.
    pub fn parse(&mut self) -> (r: Result<Box<Node>, ParsingError>)
        ensures
            final(self).tokens() == old(self).tokens(),
            r is Ok ==> old(self).position() < final(self).position() <= final(self).tokens().len(),
            match parse_spec(old(self).tokens(), old(self).position()) {
                Ok(n) => r is Ok && r->Ok_0@ == n,
                Err(e) => r == Err::<Box<Node>, ParsingError>(e),
            },
    {
        let head = match self.parse_expression(0) {
            Ok(head) => head,
            Err(e) => {
                return Err(e);
            },
        };
        match self.token_provider.get_peek_token() {
            Some(Token::Eof) => Ok(head),
            _ => Err(ParsingError::ExpectedAnOperator),
        }
    }
}

} // verus!
