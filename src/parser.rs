//! Recursive-descent parsing of a token sequence into an abstract syntax tree,
//! and a cursor over the tokens with one token of lookahead.
use vstd::prelude::*;
use vstd::string::*;
use crate::error::Error;
use crate::lexer::{lexemes, Lexeme, Token};

verus! {

/// A node of the syntax tree; each node owns its children.
#[derive(Debug, PartialEq)]
pub enum Ast {
    Value(String),
    Neg(Box<Ast>),
    Add(Box<Ast>, Box<Ast>),
    Sub(Box<Ast>, Box<Ast>),
    Mult(Box<Ast>, Box<Ast>),
    Div(Box<Ast>, Box<Ast>),
    Mod(Box<Ast>, Box<Ast>),
    Pow(Box<Ast>, Box<Ast>),
}

/// The mathematical value of a syntax tree; a value carries its numeral text.
pub enum Expr {
    Value(Seq<char>),
    Neg(Box<Expr>),
    Add(Box<Expr>, Box<Expr>),
    Sub(Box<Expr>, Box<Expr>),
    Mult(Box<Expr>, Box<Expr>),
    Div(Box<Expr>, Box<Expr>),
    Mod(Box<Expr>, Box<Expr>),
    Pow(Box<Expr>, Box<Expr>),
}

/// The six binary operators.
#[derive(Debug, Clone, Copy, PartialEq, Eq)]
pub enum BinOp {
    Add,
    Sub,
    Mult,
    Div,
    Mod,
    Pow,
}

pub open spec fn expr_of(a: Ast) -> Expr
    decreases a,
{
    match a {
        Ast::Value(t) => Expr::Value(t@),
        Ast::Neg(x) => Expr::Neg(Box::new(expr_of(*x))),
        Ast::Add(l, r) => Expr::Add(Box::new(expr_of(*l)), Box::new(expr_of(*r))),
        Ast::Sub(l, r) => Expr::Sub(Box::new(expr_of(*l)), Box::new(expr_of(*r))),
        Ast::Mult(l, r) => Expr::Mult(Box::new(expr_of(*l)), Box::new(expr_of(*r))),
        Ast::Div(l, r) => Expr::Div(Box::new(expr_of(*l)), Box::new(expr_of(*r))),
        Ast::Mod(l, r) => Expr::Mod(Box::new(expr_of(*l)), Box::new(expr_of(*r))),
        Ast::Pow(l, r) => Expr::Pow(Box::new(expr_of(*l)), Box::new(expr_of(*r))),
    }
}

impl View for Ast {
    type V = Expr;

    open spec fn view(&self) -> Expr {
        expr_of(*self)
    }
}

pub open spec fn binary(op: BinOp, l: Expr, r: Expr) -> Expr {
    match op {
        BinOp::Add => Expr::Add(Box::new(l), Box::new(r)),
        BinOp::Sub => Expr::Sub(Box::new(l), Box::new(r)),
        BinOp::Mult => Expr::Mult(Box::new(l), Box::new(r)),
        BinOp::Div => Expr::Div(Box::new(l), Box::new(r)),
        BinOp::Mod => Expr::Mod(Box::new(l), Box::new(r)),
        BinOp::Pow => Expr::Pow(Box::new(l), Box::new(r)),
    }
}

/// The operator of `*`, `/` and `%`.
pub open spec fn factor_op(t: Lexeme) -> Option<BinOp> {
    match t {
        Lexeme::Star => Some(BinOp::Mult),
        Lexeme::Slash => Some(BinOp::Div),
        Lexeme::Percent => Some(BinOp::Mod),
        _ => None,
    }
}

/// The operator of `+` and `-`.
pub open spec fn term_op(t: Lexeme) -> Option<BinOp> {
    match t {
        Lexeme::Plus => Some(BinOp::Add),
        Lexeme::Minus => Some(BinOp::Sub),
        _ => None,
    }
}

/// The token at position `p`; past the end stands the end-of-stream marker.
pub open spec fn peek(ts: Seq<Lexeme>, p: int) -> Lexeme {
    if 0 <= p < ts.len() {
        ts[p]
    } else {
        Lexeme::EOF
    }
}

/// How a token reads in a message.
pub open spec fn token_name(t: Lexeme) -> Seq<char> {
    match t {
        Lexeme::LParen => "LParen"@,
        Lexeme::RParen => "RParen"@,
        Lexeme::Plus => "Plus"@,
        Lexeme::Minus => "Minus"@,
        Lexeme::Star => "Star"@,
        Lexeme::Slash => "Slash"@,
        Lexeme::Caret => "Caret"@,
        Lexeme::Percent => "Percent"@,
        Lexeme::Numeral(text) => "Numeral("@ + text + ")"@,
        Lexeme::EOF => "EOF"@,
    }
}

/// The message when `t` stands where a numeral or `(` is expected.
pub open spec fn no_rule_message(t: Lexeme) -> Seq<char> {
    "No rule found for "@ + token_name(t)
}

/// The message when a group lacks its `)`.
pub open spec fn missing_paren_message() -> Seq<char> {
    "Expected `)`"@
}

// The grammar, from the tightest rule to the loosest. Each rule reads the
// tokens from position `p` on and yields the tree and the position after it,
// or the message of the first mismatch.
/// primary := numeral | `(` expression `)`
pub open spec fn parse_primary(ts: Seq<Lexeme>, p: int) -> Result<(Expr, int), Seq<char>>
    decreases ts.len() - p, 1int,
{
    match peek(ts, p) {
        Lexeme::Numeral(t) => Ok((Expr::Value(t), p + 1)),
        Lexeme::LParen => parse_group(ts, p + 1),
        t => Err(no_rule_message(t)),
    }
}

/// negation := `-` negation | primary
pub open spec fn parse_negation(ts: Seq<Lexeme>, p: int) -> Result<(Expr, int), Seq<char>>
    decreases ts.len() - p, 2int,
{
    if peek(ts, p) is Minus {
        match parse_negation(ts, p + 1) {
            Ok((e, q)) => Ok((Expr::Neg(Box::new(e)), q)),
            Err(m) => Err(m),
        }
    } else {
        parse_primary(ts, p)
    }
}

/// exponentiation := negation [`^` exponentiation]
pub open spec fn parse_exponentiation(ts: Seq<Lexeme>, p: int) -> Result<(Expr, int), Seq<char>>
    decreases ts.len() - p, 3int,
{
    match parse_negation(ts, p) {
        Ok((l, q)) => if peek(ts, q) is Caret && p <= q {
            match parse_exponentiation(ts, q + 1) {
                Ok((r, q2)) => Ok((Expr::Pow(Box::new(l), Box::new(r)), q2)),
                Err(m) => Err(m),
            }
        } else {
            Ok((l, q))
        },
        Err(m) => Err(m),
    }
}

/// The `{(* | / | %) exponentiation}` part of a factor, folded onto `acc`.
pub open spec fn parse_factor_tail(ts: Seq<Lexeme>, acc: Expr, p: int) -> Result<
    (Expr, int),
    Seq<char>,
>
    decreases ts.len() - p, 4int,
{
    match factor_op(peek(ts, p)) {
        Some(op) => match parse_exponentiation(ts, p + 1) {
            Ok((r, q)) => if p < q <= ts.len() {
                parse_factor_tail(ts, binary(op, acc, r), q)
            } else {
                Err(Seq::empty())
            },
            Err(m) => Err(m),
        },
        None => Ok((acc, p)),
    }
}

/// factor := exponentiation {(* | / | %) exponentiation}
pub open spec fn parse_factor(ts: Seq<Lexeme>, p: int) -> Result<(Expr, int), Seq<char>>
    decreases ts.len() - p, 5int,
{
    match parse_exponentiation(ts, p) {
        Ok((e, q)) => if p <= q <= ts.len() {
            parse_factor_tail(ts, e, q)
        } else {
            Err(Seq::empty())
        },
        Err(m) => Err(m),
    }
}

/// The `{(+ | -) factor}` part of a term, folded onto `acc`.
pub open spec fn parse_term_tail(ts: Seq<Lexeme>, acc: Expr, p: int) -> Result<
    (Expr, int),
    Seq<char>,
>
    decreases ts.len() - p, 6int,
{
    match term_op(peek(ts, p)) {
        Some(op) => match parse_factor(ts, p + 1) {
            Ok((r, q)) => if p < q <= ts.len() {
                parse_term_tail(ts, binary(op, acc, r), q)
            } else {
                Err(Seq::empty())
            },
            Err(m) => Err(m),
        },
        None => Ok((acc, p)),
    }
}

/// term := factor {(+ | -) factor}
pub open spec fn parse_term(ts: Seq<Lexeme>, p: int) -> Result<(Expr, int), Seq<char>>
    decreases ts.len() - p, 7int,
{
    match parse_factor(ts, p) {
        Ok((e, q)) => if p <= q <= ts.len() {
            parse_term_tail(ts, e, q)
        } else {
            Err(Seq::empty())
        },
        Err(m) => Err(m),
    }
}

/// expression := term
pub open spec fn parse_expression(ts: Seq<Lexeme>, p: int) -> Result<(Expr, int), Seq<char>>
    decreases ts.len() - p, 8int,
{
    parse_term(ts, p)
}

/// group := expression `)`, after the `(`
pub open spec fn parse_group(ts: Seq<Lexeme>, p: int) -> Result<(Expr, int), Seq<char>>
    decreases ts.len() - p, 9int,
{
    match parse_expression(ts, p) {
        Ok((e, q)) => if peek(ts, q) is RParen {
            Ok((e, q + 1))
        } else {
            Err(missing_paren_message())
        },
        Err(m) => Err(m),
    }
}

/// The tree of an expression at the front of `ts`, or the message of the
/// first mismatch; tokens after the expression are not read.
pub open spec fn parse_tokens(ts: Seq<Lexeme>) -> Result<Expr, Seq<char>> {
    match parse_expression(ts, 0) {
        Ok((e, _)) => Ok(e),
        Err(m) => Err(m),
    }
}

/// How a parsing function's result stands to its rule, read from `from`:
/// a tree that ends at `to`, or a parsing error with the rule's message.
pub open spec fn parsed(
    r: Result<Ast, Error>,
    rule: Result<(Expr, int), Seq<char>>,
    from: int,
    to: int,
) -> bool {
    match r {
        Ok(a) => rule == Ok::<(Expr, int), Seq<char>>((a@, to)) && from < to,
        Err(e) => e matches Error::ParsingError(m) && rule == Err::<(Expr, int), Seq<char>>(m@),
    }
}

/// The tree drawn one node per line, children below their parent and
/// indented one step (`|  `) further.
pub open spec fn tree_text(e: Expr, indent: Seq<char>) -> Seq<char>
    decreases e,
{
    let deeper = indent + "|  "@;
    match e {
        Expr::Value(t) => indent + "Value("@ + t + ")\n"@,
        Expr::Neg(a) => indent + "Neg\n"@ + tree_text(*a, deeper),
        Expr::Add(l, r) => indent + "Add\n"@ + tree_text(*l, deeper) + tree_text(*r, deeper),
        Expr::Sub(l, r) => indent + "Sub\n"@ + tree_text(*l, deeper) + tree_text(*r, deeper),
        Expr::Mult(l, r) => indent + "Mult\n"@ + tree_text(*l, deeper) + tree_text(*r, deeper),
        Expr::Div(l, r) => indent + "Div\n"@ + tree_text(*l, deeper) + tree_text(*r, deeper),
        Expr::Mod(l, r) => indent + "Mod\n"@ + tree_text(*l, deeper) + tree_text(*r, deeper),
        Expr::Pow(l, r) => indent + "Pow\n"@ + tree_text(*l, deeper) + tree_text(*r, deeper),
    }
}

impl Ast {
    /// Draws the tree, each line starting with `indent`.
    pub fn print(&self, indent: &str) -> (r: String)
        ensures
            r@ == tree_text(self@, indent@),
        decreases self,
    {
        let deeper = indent.to_owned().concat("|  ");
        let mut out = indent.to_owned();
        let (name, left, right) = match self {
            Ast::Value(t) => {
                out.append("Value(");
                out.append(t.as_str());
                out.append(")\n");
                return out;
            },
            Ast::Neg(a) => {
                out.append("Neg\n");
                out.append(a.print(deeper.as_str()).as_str());
                return out;
            },
            Ast::Add(l, r) => ("Add\n", l, r),
            Ast::Sub(l, r) => ("Sub\n", l, r),
            Ast::Mult(l, r) => ("Mult\n", l, r),
            Ast::Div(l, r) => ("Div\n", l, r),
            Ast::Mod(l, r) => ("Mod\n", l, r),
            Ast::Pow(l, r) => ("Pow\n", l, r),
        };
        out.append(name);
        out.append(left.print(deeper.as_str()).as_str());
        out.append(right.print(deeper.as_str()).as_str());
        out
    }
}

/// A cursor over the tokens, which end with a synthetic end-of-stream token.
struct TokenStack {
    tokens: Vec<Token>,
    pos: usize,
}

impl TokenStack {
    /// The tokens that were handed in, without the end-of-stream marker.
    spec fn input(&self) -> Seq<Lexeme> {
        lexemes(self.tokens@).drop_last()
    }

    spec fn wf(&self) -> bool {
        &&& self.tokens@.len() >= 1
        &&& self.tokens@.last()@ is EOF
        &&& self.pos < self.tokens@.len()
    }

    spec fn unchanged(&self, other: &TokenStack) -> bool {
        &&& self.tokens@ == other.tokens@
        &&& self.wf()
    }

    fn new(tokens: Vec<Token>) -> (r: TokenStack)
        ensures
            r.wf(),
            r.pos == 0,
            r.input() == lexemes(tokens@),
    {
        let mut tokens = tokens;
        let ghost before = tokens@;
        tokens.push(Token::EOF);
        assert(lexemes(tokens@).drop_last() =~= lexemes(before));
        TokenStack { tokens, pos: 0 }
    }

    /// The next token, without consuming it.
    fn next_token(&self) -> (t: &Token)
        requires
            self.wf(),
        ensures
            t@ == peek(self.input(), self.pos as int),
    {
        &self.tokens[self.pos]
    }

    /// Consumes the next token, which is not the end-of-stream marker.
    fn skip(&mut self)
        requires
            old(self).wf(),
            !(peek(old(self).input(), old(self).pos as int) is EOF),
        ensures
            final(self).unchanged(old(self)),
            final(self).pos == old(self).pos + 1,
            final(self).pos <= final(self).input().len(),
    {
        assert(self.pos < self.tokens.len());
        self.pos = self.pos + 1;
    }
}

/// How a token reads in a message.
fn describe(t: &Token) -> (r: String)
    ensures
        r@ == token_name(t@),
{
    match t {
        Token::LParen => String::from_str("LParen"),
        Token::RParen => String::from_str("RParen"),
        Token::Plus => String::from_str("Plus"),
        Token::Minus => String::from_str("Minus"),
        Token::Star => String::from_str("Star"),
        Token::Slash => String::from_str("Slash"),
        Token::Caret => String::from_str("Caret"),
        Token::Percent => String::from_str("Percent"),
        Token::Numeral(text) => String::from_str("Numeral(").concat(text.as_str()).concat(")"),
        Token::EOF => String::from_str("EOF"),
    }
}

fn make_binary(op: BinOp, l: Ast, r: Ast) -> (a: Ast)
    ensures
        a@ == binary(op, l@, r@),
{
    match op {
        BinOp::Add => Ast::Add(Box::new(l), Box::new(r)),
        BinOp::Sub => Ast::Sub(Box::new(l), Box::new(r)),
        BinOp::Mult => Ast::Mult(Box::new(l), Box::new(r)),
        BinOp::Div => Ast::Div(Box::new(l), Box::new(r)),
        BinOp::Mod => Ast::Mod(Box::new(l), Box::new(r)),
        BinOp::Pow => Ast::Pow(Box::new(l), Box::new(r)),
    }
}

fn factor_op_of(t: &Token) -> (r: Option<BinOp>)
    ensures
        r == factor_op(t@),
{
    match t {
        Token::Star => Some(BinOp::Mult),
        Token::Slash => Some(BinOp::Div),
        Token::Percent => Some(BinOp::Mod),
        _ => None,
    }
}

fn term_op_of(t: &Token) -> (r: Option<BinOp>)
    ensures
        r == term_op(t@),
{
    match t {
        Token::Plus => Some(BinOp::Add),
        Token::Minus => Some(BinOp::Sub),
        _ => None,
    }
}

/// Parses the tokens into a tree following the grammar above. Tokens after
/// the first complete expression are left unread.
pub fn parse(tokens: Vec<Token>) -> (r: Result<Ast, Error>)
    ensures
        match parse_tokens(lexemes(tokens@)) {
            Ok(e) => r matches Ok(a) && a@ == e,
            Err(m) => r matches Err(e) && e matches Error::ParsingError(msg) && msg@ == m,
        },
{
    let mut state = TokenStack::new(tokens);
    expression(&mut state)
}

fn primary(state: &mut TokenStack) -> (r: Result<Ast, Error>)
    requires
        old(state).wf(),
    ensures
        final(state).unchanged(old(state)),
        parsed(r, parse_primary(old(state).input(), old(state).pos as int), old(state).pos as int, final(state).pos as int),
    decreases old(state).input().len() - old(state).pos, 1int,
{
    match state.next_token() {
        Token::Numeral(text) => {
            let value = text.clone();
            state.skip();
            Ok(Ast::Value(value))
        },
        Token::LParen => {
            state.skip();
            group(state)
        },
        t => Err(Error::ParsingError(String::from_str("No rule found for ").concat(describe(t).as_str()))),
    }
}

fn negation(state: &mut TokenStack) -> (r: Result<Ast, Error>)
    requires
        old(state).wf(),
    ensures
        final(state).unchanged(old(state)),
        parsed(r, parse_negation(old(state).input(), old(state).pos as int), old(state).pos as int, final(state).pos as int),
    decreases old(state).input().len() - old(state).pos, 2int,
{
    match state.next_token() {
        Token::Minus => {
            state.skip();
            match negation(state) {
                Ok(inner) => Ok(Ast::Neg(Box::new(inner))),
                Err(e) => Err(e),
            }
        },
        _ => primary(state),
    }
}

fn exponentiation(state: &mut TokenStack) -> (r: Result<Ast, Error>)
    requires
        old(state).wf(),
    ensures
        final(state).unchanged(old(state)),
        parsed(r, parse_exponentiation(old(state).input(), old(state).pos as int), old(state).pos as int, final(state).pos as int),
    decreases old(state).input().len() - old(state).pos, 3int,
{
    let left = match negation(state) {
        Ok(a) => a,
        Err(e) => return Err(e),
    };
    match state.next_token() {
        Token::Caret => {
            state.skip();
            match exponentiation(state) {
                Ok(right) => Ok(Ast::Pow(Box::new(left), Box::new(right))),
                Err(e) => Err(e),
            }
        },
        _ => Ok(left),
    }
}

fn factor(state: &mut TokenStack) -> (r: Result<Ast, Error>)
    requires
        old(state).wf(),
    ensures
        final(state).unchanged(old(state)),
        parsed(r, parse_factor(old(state).input(), old(state).pos as int), old(state).pos as int, final(state).pos as int),
    decreases old(state).input().len() - old(state).pos, 5int,
{
    let ghost ts = state.input();
    let ghost start = state.pos as int;
    let mut expr = match exponentiation(state) {
        Ok(a) => a,
        Err(e) => return Err(e),
    };
    loop
        invariant
            state.wf(),
            state.tokens@ == old(state).tokens@,
            state.input() == ts,
            ts == old(state).input(),
            start == old(state).pos,
            start < state.pos <= ts.len(),
            parse_factor(ts, start) == parse_factor_tail(ts, expr@, state.pos as int),
        decreases ts.len() - state.pos,
    {
        let op = match factor_op_of(state.next_token()) {
            Some(op) => op,
            None => return Ok(expr),
        };
        state.skip();
        let right = match exponentiation(state) {
            Ok(a) => a,
            Err(e) => return Err(e),
        };
        expr = make_binary(op, expr, right);
    }
}

fn term(state: &mut TokenStack) -> (r: Result<Ast, Error>)
    requires
        old(state).wf(),
    ensures
        final(state).unchanged(old(state)),
        parsed(r, parse_term(old(state).input(), old(state).pos as int), old(state).pos as int, final(state).pos as int),
    decreases old(state).input().len() - old(state).pos, 7int,
{
    let ghost ts = state.input();
    let ghost start = state.pos as int;
    let mut expr = match factor(state) {
        Ok(a) => a,
        Err(e) => return Err(e),
    };
    loop
        invariant
            state.wf(),
            state.tokens@ == old(state).tokens@,
            state.input() == ts,
            ts == old(state).input(),
            start == old(state).pos,
            start < state.pos <= ts.len(),
            parse_term(ts, start) == parse_term_tail(ts, expr@, state.pos as int),
        decreases ts.len() - state.pos,
    {
        let op = match term_op_of(state.next_token()) {
            Some(op) => op,
            None => return Ok(expr),
        };
        state.skip();
        let right = match factor(state) {
            Ok(a) => a,
            Err(e) => return Err(e),
        };
        expr = make_binary(op, expr, right);
    }
}

fn group(state: &mut TokenStack) -> (r: Result<Ast, Error>)
    requires
        old(state).wf(),
    ensures
        final(state).unchanged(old(state)),
        parsed(r, parse_group(old(state).input(), old(state).pos as int), old(state).pos as int, final(state).pos as int),
    decreases old(state).input().len() - old(state).pos, 9int,
{
    let e = match expression(state) {
        Ok(a) => a,
        Err(e) => return Err(e),
    };
    match state.next_token() {
        Token::RParen => {
            state.skip();
            Ok(e)
        },
        _ => Err(Error::ParsingError(String::from_str("Expected `)`"))),
    }
}

fn expression(state: &mut TokenStack) -> (r: Result<Ast, Error>)
    requires
        old(state).wf(),
    ensures
        final(state).unchanged(old(state)),
        parsed(r, parse_expression(old(state).input(), old(state).pos as int), old(state).pos as int, final(state).pos as int),
    decreases old(state).input().len() - old(state).pos, 8int,
{
    term(state)
}

} // verus!
