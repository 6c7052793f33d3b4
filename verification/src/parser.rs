//! The parser: tokens in, a syntax tree out.
use crate::ast::{
    BlockStatement, ExprView, Expression, Operator, Program, Statement, StmtView, expr_view,
    exprs_view, params_view, stmt_view, stmts_view,
};
use crate::lexer::{Lexer, lemma_lex_token_not_eof, lex_pos, lex_token, scan};
use crate::money::{Amount, decimal_text};
use crate::text::{parse_u32, u32_from_str};
use crate::token::{Token, TokenView};
use vstd::prelude::*;
use vstd::string::*;

verus! {

/// How tightly an operator binds.
#[derive(Clone, Copy, Debug, PartialEq, Eq)]
pub enum Precedence {
    Lowest,
    Equals,
    LessGreater,
    Sum,
    Product,
}

impl Precedence {
    pub open spec fn level(self) -> nat {
        match self {
            Precedence::Lowest => 1,
            Precedence::Equals => 2,
            Precedence::LessGreater => 3,
            Precedence::Sum => 4,
            Precedence::Product => 5,
        }
    }

    fn rank(&self) -> (r: u8)
        ensures
            r == self.level(),
    {
        match self {
            Precedence::Lowest => 1,
            Precedence::Equals => 2,
            Precedence::LessGreater => 3,
            Precedence::Sum => 4,
            Precedence::Product => 5,
        }
    }
}

/// The precedence of the operator that a token writes (lowest for other tokens).
pub open spec fn token_precedence(t: TokenView) -> Precedence {
    match t {
        TokenView::Equal | TokenView::NotEqual => Precedence::Equals,
        TokenView::LessThan | TokenView::GreaterThan => Precedence::LessGreater,
        TokenView::Plus | TokenView::Minus => Precedence::Sum,
        TokenView::Asterisk | TokenView::Slash => Precedence::Product,
        _ => Precedence::Lowest,
    }
}

/// The operator that a token writes.
pub open spec fn token_operator(t: TokenView) -> Option<Operator> {
    match t {
        TokenView::Plus => Some(Operator::Plus),
        TokenView::Minus => Some(Operator::Minus),
        TokenView::Asterisk => Some(Operator::Multiply),
        TokenView::Slash => Some(Operator::Divide),
        TokenView::LessThan => Some(Operator::LessThan),
        TokenView::GreaterThan => Some(Operator::GreaterThan),
        TokenView::Equal => Some(Operator::Equal),
        TokenView::NotEqual => Some(Operator::NotEqual),
        _ => None,
    }
}

/// A source text and the position from which its tokens are read.
pub struct TokenSource {
    pub text: Seq<char>,
    pub start: int,
}

impl TokenSource {
    pub open spec fn wf(self) -> bool {
        0 <= self.start <= self.text.len()
    }
}

/// The `k`-th token read.
pub open spec fn tk(input: TokenSource, k: nat) -> TokenView {
    lex_token(input.text, input.start, k)
}

/// How many characters are left once `k` tokens have been read; every step of
/// the parser that reads past a token other than the end token makes it smaller.
pub open spec fn room(input: TokenSource, k: nat) -> nat {
    if k < input.text.len() {
        (input.text.len() - k) as nat
    } else {
        0
    }
}

/// The precision that an asset declaration writes: the number's text read as a
/// `u32`, or 2 where it cannot be.
pub open spec fn precision_of(a: Amount) -> u32 {
    match u32_from_str(decimal_text(a)) {
        Some(p) => p,
        None => 2,
    }
}

/// A literal, a name or a boolean at token `k`; the index of the token it ends on.
pub open spec fn parse_primary(input: TokenSource, k: nat) -> (Option<ExprView>, nat) {
    match tk(input, k) {
        TokenView::MoneyLiteral(a) => {
            if tk(input, k + 1) is At {
                match tk(input, k + 2) {
                    TokenView::CurrencyTicker(c) => (Some(ExprView::Money { amount: a, currency: c }), k + 2),
                    _ => (None, k + 2),
                }
            } else {
                match tk(input, k + 1) {
                    TokenView::CurrencyTicker(c) => (Some(ExprView::Money { amount: a, currency: c }), k + 1),
                    _ => (None, k + 1),
                }
            }
        },
        TokenView::Identifier(id) => (Some(ExprView::Ident(id)), k),
        TokenView::True => (Some(ExprView::Boolean(true)), k),
        TokenView::False => (Some(ExprView::Boolean(false)), k),
        _ => (None, k),
    }
}

/// An expression from token `k`, binding operators tighter than `prec`.
pub open spec fn parse_expression(input: TokenSource, k: nat, prec: nat) -> (Option<ExprView>, nat)
    decreases room(input, k), 2nat,
{
    let (left, k1) = parse_primary(input, k);
    match left {
        None => (None, k1),
        Some(l) => expr_loop(input, k1, l, prec),
    }
}

/// The operators that follow `left` (which ends at token `k`).
pub open spec fn expr_loop(input: TokenSource, k: nat, left: ExprView, prec: nat) -> (Option<ExprView>, nat)
    decreases room(input, k), 1nat,
{
    let pk = tk(input, k + 1);
    if pk !is EOF && prec < token_precedence(pk).level() {
        match token_operator(pk) {
            None => (Some(left), k + 1),
            Some(op) => if !input.wf() {
                (None, k + 1)
            } else {
                proof {
                    lemma_lex_token_not_eof(input.text, input.start, k + 1);
                }
                let next_prec = token_precedence(tk(input, k + 2)).level();
                let (right, k3) = parse_expression(input, k + 2, next_prec);
                match right {
                    None => (None, k3),
                    Some(r) => if k3 > k {
                        expr_loop(input, k3, ExprView::Binary { left: Box::new(left), op, right: Box::new(r) }, prec)
                    } else {
                        (None, k3)
                    },
                }
            },
        }
    } else {
        (Some(left), k)
    }
}

/// The arguments of a call, from token `k` up to the closing parenthesis.
pub open spec fn arg_loop(input: TokenSource, k: nat, acc: Seq<ExprView>) -> (Seq<ExprView>, nat)
    decreases room(input, k), 3nat,
{
    if tk(input, k) is CloseParen || tk(input, k) is EOF || !input.wf() {
        (acc, k)
    } else {
        proof {
            lemma_lex_token_not_eof(input.text, input.start, k);
        }
        let (e, k1) = parse_expression(input, k, Precedence::Lowest.level());
        let acc2 = match e {
            Some(x) => acc.push(x),
            None => acc,
        };
        let k3 = if tk(input, k1 + 1) is Comma { k1 + 2 } else { k1 + 1 };
        if k1 >= k {
            arg_loop(input, k3, acc2)
        } else {
            (acc2, k3)
        }
    }
}

/// The parameters of a declaration, from token `k` up to the closing parenthesis.
pub open spec fn param_loop(input: TokenSource, k: nat, acc: Seq<(Seq<char>, Seq<char>)>) -> (
    Option<Seq<(Seq<char>, Seq<char>)>>,
    nat,
)
    decreases room(input, k),
{
    if tk(input, k) is CloseParen || tk(input, k) is EOF || !input.wf() {
        (Some(acc), k)
    } else {
        proof {
            lemma_lex_token_not_eof(input.text, input.start, k);
        }
        match tk(input, k) {
            TokenView::Identifier(name) => {
                if tk(input, k + 1) !is Colon {
                    (None, k + 1)
                } else {
                    let ty = match tk(input, k + 2) {
                        TokenView::CurrencyTicker(t) => Some(t),
                        TokenView::Identifier(t) => Some(t),
                        _ => None,
                    };
                    match ty {
                        None => (None, k + 2),
                        Some(t) => {
                            let k4 = if tk(input, k + 3) is Comma { k + 4 } else { k + 3 };
                            param_loop(input, k4, acc.push((name, t)))
                        },
                    }
                }
            },
            _ => (None, k),
        }
    }
}

/// `asset TICKER = Fiat(precision: N)` from token `k`.
pub open spec fn parse_asset(input: TokenSource, k: nat) -> (Option<StmtView>, nat) {
    match tk(input, k + 1) {
        TokenView::CurrencyTicker(ticker) => {
            if tk(input, k + 2) !is Assign {
                (None, k + 2)
            } else if tk(input, k + 3) != TokenView::Identifier("Fiat"@) {
                (None, k + 3)
            } else if tk(input, k + 4) !is OpenParen {
                (None, k + 4)
            } else if tk(input, k + 5) != TokenView::Identifier("precision"@) {
                (None, k + 5)
            } else if tk(input, k + 6) !is Colon {
                (None, k + 6)
            } else {
                match tk(input, k + 7) {
                    TokenView::MoneyLiteral(a) => if tk(input, k + 8) !is CloseParen {
                        (None, k + 8)
                    } else {
                        (Some(StmtView::Asset { ticker, precision: precision_of(a) }), k + 8)
                    },
                    _ => (None, k + 7),
                }
            }
        },
        _ => (None, k + 1),
    }
}

/// `name = expression` from token `k`.
pub open spec fn parse_assignment(input: TokenSource, k: nat) -> (Option<StmtView>, nat)
    decreases room(input, k), 4nat,
{
    match tk(input, k) {
        TokenView::Identifier(id) => {
            if tk(input, k + 1) !is Assign {
                (None, k + 1)
            } else {
                let (e, k3) = parse_expression(input, k + 2, Precedence::Lowest.level());
                match e {
                    Some(v) => (Some(StmtView::Assign { identifier: id, value: v }), k3),
                    None => (None, k3),
                }
            }
        },
        _ => (None, k),
    }
}

/// `if condition { ... } else { ... }` from token `k`.
pub open spec fn parse_if(input: TokenSource, k: nat) -> (Option<StmtView>, nat)
    decreases room(input, k), 4nat,
{
    if tk(input, k) !is If || !input.wf() {
        (None, k)
    } else {
        proof {
            lemma_lex_token_not_eof(input.text, input.start, k);
        }
        let (c, k2) = parse_expression(input, k + 1, Precedence::Lowest.level());
        match c {
            None => (None, k2),
            Some(cond) => {
                if tk(input, k2 + 1) !is LBrace || k2 + 1 <= k {
                    (None, k2)
                } else {
                    let (cons, k3) = parse_block(input, k2 + 1);
                    if tk(input, k3 + 1) is Else {
                        if tk(input, k3 + 2) !is LBrace || k3 + 2 <= k {
                            (None, k3 + 1)
                        } else {
                            let (alt, k4) = parse_block(input, k3 + 2);
                            (Some(StmtView::If { condition: cond, consequence: cons, alternative: Some(alt) }), k4)
                        }
                    } else {
                        (Some(StmtView::If { condition: cond, consequence: cons, alternative: None }), k3)
                    }
                }
            },
        }
    }
}

/// `transaction Name(p: TYPE, ...) { ... }` from token `k`.
pub open spec fn parse_txdecl(input: TokenSource, k: nat) -> (Option<StmtView>, nat)
    decreases room(input, k), 4nat,
{
    if tk(input, k) !is Transaction || !input.wf() {
        (None, k)
    } else {
        proof {
            lemma_lex_token_not_eof(input.text, input.start, k);
        }
        match tk(input, k + 1) {
            TokenView::Identifier(name) => {
                if tk(input, k + 2) !is OpenParen {
                    (None, k + 2)
                } else {
                    let (ps, kp) = param_loop(input, k + 3, Seq::empty());
                    match ps {
                        None => (None, kp),
                        Some(params) => {
                            if tk(input, kp + 1) !is LBrace || kp + 1 <= k {
                                (None, kp + 1)
                            } else {
                                let (body, kb) = parse_block(input, kp + 1);
                                (Some(StmtView::TxDecl { name, parameters: params, body }), kb)
                            }
                        },
                    }
                }
            },
            _ => (None, k + 1),
        }
    }
}

/// `Name(arguments)` from token `k`.
pub open spec fn parse_txcall(input: TokenSource, k: nat) -> (Option<StmtView>, nat)
    decreases room(input, k), 4nat,
{
    match tk(input, k) {
        TokenView::Identifier(name) => {
            let (args, ke) = arg_loop(input, k + 2, Seq::empty());
            (Some(StmtView::TxCall { name, arguments: args }), ke)
        },
        _ => (None, k),
    }
}

/// A statement from token `k`, chosen by its first token.
pub open spec fn parse_statement(input: TokenSource, k: nat) -> (Option<StmtView>, nat)
    decreases room(input, k), 5nat,
{
    match tk(input, k) {
        TokenView::AssetKeyword => parse_asset(input, k),
        TokenView::If => parse_if(input, k),
        TokenView::Transaction => parse_txdecl(input, k),
        TokenView::Identifier(_) => if tk(input, k + 1) is OpenParen {
            parse_txcall(input, k)
        } else {
            parse_assignment(input, k)
        },
        _ => (None, k),
    }
}

/// The statements of a block, from token `k` up to the closing brace.
pub open spec fn block_loop(input: TokenSource, k: nat, acc: Seq<StmtView>) -> (Seq<StmtView>, nat)
    decreases room(input, k), 6nat,
{
    if tk(input, k) is RBrace || tk(input, k) is EOF || !input.wf() {
        (acc, k)
    } else {
        proof {
            lemma_lex_token_not_eof(input.text, input.start, k);
        }
        let (s, k1) = parse_statement(input, k);
        let acc2 = match s {
            Some(st) => acc.push(st),
            None => acc,
        };
        if k1 >= k {
            block_loop(input, k1 + 1, acc2)
        } else {
            (acc2, k1)
        }
    }
}

/// A block whose opening brace is token `k`.
pub open spec fn parse_block(input: TokenSource, k: nat) -> (Seq<StmtView>, nat)
    decreases room(input, k), 7nat,
{
    block_loop(input, k + 1, Seq::empty())
}

/// The tokens at which statements inside the blocks of the statement at token
/// `k` were given up on, in the order they were met.
pub open spec fn stmt_warnings(input: TokenSource, k: nat) -> Seq<TokenView>
    decreases room(input, k), 5nat,
{
    match tk(input, k) {
        TokenView::If => if_warnings(input, k),
        TokenView::Transaction => txdecl_warnings(input, k),
        _ => Seq::empty(),
    }
}

/// The tokens given up on inside the blocks of the `if` at token `k`.
pub open spec fn if_warnings(input: TokenSource, k: nat) -> Seq<TokenView>
    decreases room(input, k), 4nat,
{
    if tk(input, k) !is If || !input.wf() {
        Seq::empty()
    } else {
        proof {
            lemma_lex_token_not_eof(input.text, input.start, k);
        }
        let (c, k2) = parse_expression(input, k + 1, Precedence::Lowest.level());
        match c {
            None => Seq::empty(),
            Some(_) => {
                if tk(input, k2 + 1) !is LBrace || k2 + 1 <= k {
                    Seq::empty()
                } else {
                    let w1 = block_warnings(input, k2 + 1);
                    let (_, k3) = parse_block(input, k2 + 1);
                    if tk(input, k3 + 1) is Else && tk(input, k3 + 2) is LBrace && k3 + 2 > k {
                        w1 + block_warnings(input, k3 + 2)
                    } else {
                        w1
                    }
                }
            },
        }
    }
}

/// The tokens given up on inside the body of the declaration at token `k`.
pub open spec fn txdecl_warnings(input: TokenSource, k: nat) -> Seq<TokenView>
    decreases room(input, k), 4nat,
{
    if tk(input, k) !is Transaction || !input.wf() {
        Seq::empty()
    } else {
        proof {
            lemma_lex_token_not_eof(input.text, input.start, k);
        }
        match tk(input, k + 1) {
            TokenView::Identifier(_) => {
                if tk(input, k + 2) !is OpenParen {
                    Seq::empty()
                } else {
                    let (ps, kp) = param_loop(input, k + 3, Seq::empty());
                    match ps {
                        None => Seq::empty(),
                        Some(_) => if tk(input, kp + 1) !is LBrace || kp + 1 <= k {
                            Seq::empty()
                        } else {
                            block_warnings(input, kp + 1)
                        },
                    }
                }
            },
            _ => Seq::empty(),
        }
    }
}

/// The tokens given up on in a block, from token `k` up to the closing brace:
/// those inside nested blocks, and each token at which a statement of this
/// block was given up on.
#[verifier::opaque]
pub open spec fn warn_loop(input: TokenSource, k: nat) -> Seq<TokenView>
    decreases room(input, k), 6nat,
{
    if tk(input, k) is RBrace || tk(input, k) is EOF || !input.wf() {
        Seq::empty()
    } else {
        proof {
            lemma_lex_token_not_eof(input.text, input.start, k);
        }
        let (s, k1) = parse_statement(input, k);
        let w = match s {
            Some(_) => stmt_warnings(input, k),
            None => stmt_warnings(input, k).push(tk(input, k1)),
        };
        if k1 >= k {
            w + warn_loop(input, k1 + 1)
        } else {
            w
        }
    }
}

/// One step of a block's loop: the warnings of the statement at token `k`, then
/// the rest of the block after the token the statement ended on.
#[verifier::rlimit(100)]
#[verifier::spinoff_prover]
proof fn lemma_warn_loop_step(input: TokenSource, k: nat, before: Seq<TokenView>, after: Seq<TokenView>)
    requires
        input.wf(),
        tk(input, k) !is RBrace,
        tk(input, k) !is EOF,
        parse_statement(input, k).1 >= k,
        after == match parse_statement(input, k).0 {
            Some(_) => before + stmt_warnings(input, k),
            None => (before + stmt_warnings(input, k)).push(tk(input, parse_statement(input, k).1)),
        },
    ensures
        before + warn_loop(input, k) == after + warn_loop(input, parse_statement(input, k).1 + 1),
{
    let k1 = parse_statement(input, k).1;
    let w = match parse_statement(input, k).0 {
        Some(_) => stmt_warnings(input, k),
        None => stmt_warnings(input, k).push(tk(input, k1)),
    };
    assert(warn_loop(input, k) == w + warn_loop(input, k1 + 1)) by {
        reveal_with_fuel(warn_loop, 1);
    }
    assert(after =~= before + w);
    assert(before + warn_loop(input, k) =~= after + warn_loop(input, k1 + 1));
}

/// A block's loop gives no more warnings once it reaches the closing brace or the end.
proof fn lemma_warn_loop_end(input: TokenSource, k: nat)
    requires
        tk(input, k) is RBrace || tk(input, k) is EOF,
    ensures
        warn_loop(input, k) == Seq::<TokenView>::empty(),
{
    reveal_with_fuel(warn_loop, 1);
}

proof fn lemma_append_empty(s: Seq<TokenView>)
    ensures
        s + Seq::<TokenView>::empty() == s,
{
    assert(s + Seq::<TokenView>::empty() =~= s);
}

/// The tokens given up on in the block whose opening brace is token `k`.
pub open spec fn block_warnings(input: TokenSource, k: nat) -> Seq<TokenView>
    decreases room(input, k), 7nat,
{
    warn_loop(input, k + 1)
}

/// The statements of the program from token `k` on, with the tokens at which
/// statements were given up on.
pub open spec fn program_loop(input: TokenSource, k: nat, acc: Seq<StmtView>, ignored: Seq<TokenView>) -> (
    Seq<StmtView>,
    Seq<TokenView>,
)
    decreases room(input, k),
{
    if tk(input, k) is EOF || !input.wf() {
        (acc, ignored)
    } else {
        proof {
            lemma_lex_token_not_eof(input.text, input.start, k);
        }
        let (s, k1) = parse_statement(input, k);
        let (acc2, ignored2) = match s {
            Some(st) => (acc.push(st), ignored + stmt_warnings(input, k)),
            None => (acc, (ignored + stmt_warnings(input, k)).push(tk(input, k1))),
        };
        if k1 >= k {
            program_loop(input, k1 + 1, acc2, ignored2)
        } else {
            (acc2, ignored2)
        }
    }
}

/// The program that a source text parses to, and the tokens at which
/// statements were given up on.
pub open spec fn parse_source(input: TokenSource) -> (Seq<StmtView>, Seq<TokenView>) {
    program_loop(input, 0, Seq::empty(), Seq::empty())
}

/// An optional expression by its view.
pub open spec fn ov_expr(o: Option<Expression>) -> Option<ExprView> {
    match o {
        Some(e) => Some(e@),
        None => None,
    }
}

/// An optional statement by its view.
pub open spec fn ov_stmt(o: Option<Statement>) -> Option<StmtView> {
    match o {
        Some(s) => Some(s@),
        None => None,
    }
}

/// A sequence of tokens by their views.
pub open spec fn tokens_view(ts: Seq<Token>) -> Seq<TokenView> {
    ts.map_values(|t: Token| t@)
}

/// The parser: a lexer, the current token and the one after it.
pub struct Parser {
    lexer: Lexer,
    current_token: Token,
    peek_token: Token,
    source: Ghost<TokenSource>,
    index: Ghost<nat>,
    ignored: Vec<Token>,
}

impl Parser {
    /// The text being parsed and where reading started.
    pub closed spec fn input(&self) -> TokenSource {
        self.source@
    }

    /// The index of the current token among the tokens read.
    pub closed spec fn at(&self) -> nat {
        self.index@
    }

    /// The tokens at which statements were given up on, so far.
    pub closed spec fn ignored_view(&self) -> Seq<TokenView> {
        tokens_view(self.ignored@)
    }

    /// The current and next tokens are tokens `at()` and `at() + 1` of the input,
    /// and the lexer stands just after the next one.
    pub closed spec fn wf(&self) -> bool {
        &&& self.lexer.wf()
        &&& self.source@.wf()
        &&& self.lexer.source() == self.source@.text
        &&& self.current_token@ == tk(self.source@, self.index@)
        &&& self.peek_token@ == tk(self.source@, self.index@ + 1)
        &&& self.lexer.pos() == lex_pos(self.source@.text, self.source@.start, self.index@ + 2)
    }

    /// A parser over the tokens that `lexer` has yet to read.
    pub fn new(lexer: Lexer) -> (r: Parser)
        requires
            lexer.wf(),
        ensures
            r.wf(),
            r.input() == (TokenSource { text: lexer.source(), start: lexer.pos() }),
            r.at() == 0,
            r.ignored_view() == Seq::<TokenView>::empty(),
    {
        let mut lexer = lexer;
        let ghost src = TokenSource { text: lexer.source(), start: lexer.pos() };
        proof {
            lexer.lemma_wf();
        }
        let current_token = lexer.next_token();
        let peek_token = lexer.next_token();
        let ignored: Vec<Token> = Vec::new();
        let r = Parser {
            lexer,
            current_token,
            peek_token,
            source: Ghost(src),
            index: Ghost(0),
            ignored,
        };
        assert(tokens_view(r.ignored@) == Seq::<TokenView>::empty());
        r
    }

    /// The tokens at which statements were given up on.
    pub fn ignored_tokens(&self) -> (r: &Vec<Token>)
        ensures
            tokens_view(r@) == self.ignored_view(),
    {
        &self.ignored
    }

    fn next_token(&mut self)
        requires
            old(self).wf(),
        ensures
            final(self).wf(),
            final(self).input() == old(self).input(),
            final(self).at() == old(self).at() + 1,
            final(self).ignored == old(self).ignored,
    {
        proof {
            crate::lexer::lemma_lex_pos(self.source@.text, self.source@.start, self.index@ + 2);
        }
        let mut next = self.lexer.next_token();
        std::mem::swap(&mut self.peek_token, &mut next);
        self.current_token = next;
        self.index = Ghost(self.index@ + 1);
    }

    fn peek_precedence(&self) -> (r: Precedence)
        ensures
            r == token_precedence(self.peek_token@),
    {
        match self.peek_token {
            Token::Equal | Token::NotEqual => Precedence::Equals,
            Token::LessThan | Token::GreaterThan => Precedence::LessGreater,
            Token::Plus | Token::Minus => Precedence::Sum,
            Token::Asterisk | Token::Slash => Precedence::Product,
            _ => Precedence::Lowest,
        }
    }

    /// Parses statements up to the end token. A statement that cannot be parsed
    /// is left out and the token at which it was given up on is recorded.
    #[verifier::rlimit(40)]
    pub fn parse_program(&mut self) -> (r: Program)
        requires
            old(self).wf(),
        ensures
            final(self).wf(),
            final(self).input() == old(self).input(),
            (r@, final(self).ignored_view()) == program_loop(
                old(self).input(),
                old(self).at(),
                Seq::empty(),
                old(self).ignored_view(),
            ),
    {
        let mut statements: Vec<Statement> = Vec::new();
        let ghost input = self.source@;
        let ghost k0 = self.index@;
        let ghost ig0 = tokens_view(self.ignored@);
        assert(stmts_view(statements@) == Seq::<StmtView>::empty());
        while !self.current_token.is_eof()
            invariant
                self.wf(),
                self.source@ == input,
                input == old(self).input(),
                program_loop(input, k0, Seq::empty(), ig0) == program_loop(
                    input,
                    self.index@,
                    stmts_view(statements@),
                    tokens_view(self.ignored@),
                ),
            decreases room(input, self.index@),
        {
            proof {
                lemma_lex_token_not_eof(input.text, input.start, self.index@);
            }
            let ghost k = self.index@;
            let ghost before = statements@;
            match self.parse_statement() {
                Some(stmt) => {
                    statements.push(stmt);
                    assert(statements@.drop_last() == before);
                },
                None => {
                    let ghost ig_mid = self.ignored@;
                    let t = self.current_token.duplicate();
                    self.ignored.push(t);
                    assert(tokens_view(self.ignored@) == tokens_view(ig_mid).push(t@));
                },
            }
            self.next_token();
        }
        Program { statements }
    }

    #[verifier::rlimit(100)]
    #[verifier::spinoff_prover]
    fn parse_statement(&mut self) -> (r: Option<Statement>)
        requires
            old(self).wf(),
        ensures
            final(self).wf(),
            final(self).input() == old(self).input(),
            final(self).ignored_view() == old(self).ignored_view() + stmt_warnings(old(self).input(), old(self).at()),
            final(self).at() >= old(self).at(),
            (ov_stmt(r), final(self).at()) == parse_statement(old(self).input(), old(self).at()),
        decreases room(old(self).input(), old(self).at()), 5nat,
    {
        let ghost input = self.source@;
        let ghost k = self.index@;
        proof {
            lemma_append_empty(self.ignored_view());
        }
        match self.current_token {
            Token::AssetKeyword => {
                assert(stmt_warnings(input, k) == Seq::<TokenView>::empty());
                self.parse_asset_declaration()
            },
            Token::If => {
                assert(stmt_warnings(input, k) == if_warnings(input, k));
                self.parse_if_statement()
            },
            Token::Transaction => {
                assert(stmt_warnings(input, k) == txdecl_warnings(input, k));
                self.parse_transaction_declaration()
            },
            Token::Identifier(_) => {
                assert(stmt_warnings(input, k) == Seq::<TokenView>::empty());
                if matches!(self.peek_token, Token::OpenParen) {
                    self.parse_transaction_call()
                } else {
                    self.parse_assignment()
                }
            },
            _ => {
                assert(stmt_warnings(input, k) == Seq::<TokenView>::empty());
                None
            },
        }
    }

    #[verifier::rlimit(40)]
    fn parse_assignment(&mut self) -> (r: Option<Statement>)
        requires
            old(self).wf(),
        ensures
            final(self).wf(),
            final(self).input() == old(self).input(),
            final(self).ignored == old(self).ignored,
            final(self).at() >= old(self).at(),
            (ov_stmt(r), final(self).at()) == parse_assignment(old(self).input(), old(self).at()),
        decreases room(old(self).input(), old(self).at()), 4nat,
    {
        let identifier = match &self.current_token {
            Token::Identifier(id) => id.clone(),
            _ => return None,
        };
        self.next_token();
        if !matches!(self.current_token, Token::Assign) {
            return None;
        }
        self.next_token();
        match self.parse_expression(Precedence::Lowest) {
            Some(value) => Some(Statement::Assignment { identifier, value }),
            None => None,
        }
    }

    #[verifier::rlimit(40)]
    fn parse_asset_declaration(&mut self) -> (r: Option<Statement>)
        requires
            old(self).wf(),
        ensures
            final(self).wf(),
            final(self).input() == old(self).input(),
            final(self).ignored == old(self).ignored,
            final(self).at() >= old(self).at(),
            (ov_stmt(r), final(self).at()) == parse_asset(old(self).input(), old(self).at()),
    {
        self.next_token();
        let ticker = match &self.current_token {
            Token::CurrencyTicker(t) => t.clone(),
            _ => return None,
        };
        self.next_token();
        if !matches!(self.current_token, Token::Assign) {
            return None;
        }
        self.next_token();
        match &self.current_token {
            Token::Identifier(name) => {
                if *name != String::from_str("Fiat") {
                    return None;
                }
            },
            _ => return None,
        }
        self.next_token();
        if !matches!(self.current_token, Token::OpenParen) {
            return None;
        }
        self.next_token();
        match &self.current_token {
            Token::Identifier(name) => {
                if *name != String::from_str("precision") {
                    return None;
                }
            },
            _ => return None,
        }
        self.next_token();
        if !matches!(self.current_token, Token::Colon) {
            return None;
        }
        self.next_token();
        let precision = match &self.current_token {
            Token::MoneyLiteral(val) => match parse_u32(val.text().as_str()) {
                Some(p) => p,
                None => 2,
            },
            _ => return None,
        };
        self.next_token();
        if !matches!(self.current_token, Token::CloseParen) {
            return None;
        }
        Some(Statement::AssetDeclaration { ticker, precision })
    }

    #[verifier::rlimit(100)]
    #[verifier::spinoff_prover]
    fn parse_if_statement(&mut self) -> (r: Option<Statement>)
        requires
            old(self).wf(),
            old(self).current_token@ is If,
        ensures
            final(self).wf(),
            final(self).input() == old(self).input(),
            final(self).ignored_view() == old(self).ignored_view() + if_warnings(old(self).input(), old(self).at()),
            final(self).at() >= old(self).at(),
            (ov_stmt(r), final(self).at()) == parse_if(old(self).input(), old(self).at()),
        decreases room(old(self).input(), old(self).at()), 4nat,
    {
        let ghost input = self.source@;
        let ghost k = self.index@;
        let ghost ig = self.ignored_view();
        proof {
            lemma_lex_token_not_eof(input.text, input.start, k);
            lemma_append_empty(ig);
        }
        self.next_token();
        let condition = match self.parse_expression(Precedence::Lowest) {
            Some(c) => c,
            None => return None,
        };
        if !matches!(self.peek_token, Token::LBrace) {
            return None;
        }
        self.next_token();
        let consequence = self.parse_block_statement();
        let mut alternative = None;
        if matches!(self.peek_token, Token::Else) {
            self.next_token();
            if !matches!(self.peek_token, Token::LBrace) {
                return None;
            }
            self.next_token();
            let ghost ka = self.index@;
            let ghost w1 = self.ignored_view().subrange(ig.len() as int, self.ignored_view().len() as int);
            let ghost ig1 = self.ignored_view();
            assert(ig1 == ig + w1);
            alternative = Some(self.parse_block_statement());
            proof {
                assert(self.ignored_view() == ig1 + block_warnings(input, ka));
                assert(self.ignored_view() =~= ig + (w1 + block_warnings(input, ka)));
            }
        }
        Some(Statement::IfStatement { condition, consequence, alternative })
    }

    #[verifier::rlimit(100)]
    #[verifier::spinoff_prover]
    fn parse_block_statement(&mut self) -> (r: BlockStatement)
        requires
            old(self).wf(),
        ensures
            final(self).wf(),
            final(self).input() == old(self).input(),
            final(self).ignored_view() == old(self).ignored_view() + block_warnings(old(self).input(), old(self).at()),
            final(self).at() >= old(self).at(),
            (r@, final(self).at()) == parse_block(old(self).input(), old(self).at()),
        decreases room(old(self).input(), old(self).at()), 7nat,
    {
        let ghost input = self.source@;
        let ghost k0 = self.index@;
        let mut statements: Vec<Statement> = Vec::new();
        self.next_token();
        assert(stmts_view(statements@) == Seq::<StmtView>::empty());
        while !matches!(self.current_token, Token::RBrace) && !self.current_token.is_eof()
            invariant
                self.wf(),
                self.source@ == input,
                input == old(self).input(),
                old(self).ignored_view() + block_warnings(input, k0) == self.ignored_view() + warn_loop(
                    input,
                    self.index@,
                ),
                self.index@ > k0,
                k0 == old(self).at(),
                parse_block(input, k0) == block_loop(input, self.index@, stmts_view(statements@)),
            decreases room(input, self.index@),
        {
            proof {
                lemma_lex_token_not_eof(input.text, input.start, self.index@);
            }
            let ghost before = statements@;
            let ghost k = self.index@;
            let ghost ig_before = self.ignored_view();
            match self.parse_statement() {
                Some(stmt) => {
                    statements.push(stmt);
                    assert(statements@.drop_last() == before);
                },
                None => {
                    let ghost ig_mid = self.ignored@;
                    let t = self.current_token.duplicate();
                    self.ignored.push(t);
                    assert(tokens_view(self.ignored@) == tokens_view(ig_mid).push(t@));
                },
            }
            proof {
                lemma_warn_loop_step(input, k, ig_before, self.ignored_view());
            }
            self.next_token();
        }
        proof {
            lemma_warn_loop_end(input, self.index@);
            lemma_append_empty(self.ignored_view());
        }
        BlockStatement { statements }
    }

    #[verifier::rlimit(40)]
    fn parse_transaction_declaration(&mut self) -> (r: Option<Statement>)
        requires
            old(self).wf(),
            old(self).current_token@ is Transaction,
        ensures
            final(self).wf(),
            final(self).input() == old(self).input(),
            final(self).ignored_view() == old(self).ignored_view() + txdecl_warnings(old(self).input(), old(self).at()),
            final(self).at() >= old(self).at(),
            (ov_stmt(r), final(self).at()) == parse_txdecl(old(self).input(), old(self).at()),
        decreases room(old(self).input(), old(self).at()), 4nat,
    {
        let ghost input = self.source@;
        let ghost k = self.index@;
        proof {
            lemma_lex_token_not_eof(input.text, input.start, k);
        }
        self.next_token();
        let name = match &self.current_token {
            Token::Identifier(n) => n.clone(),
            _ => return None,
        };
        self.next_token();
        if !matches!(self.current_token, Token::OpenParen) {
            return None;
        }
        self.next_token();
        let parameters = match self.parse_parameters() {
            Some(ps) => ps,
            None => return None,
        };
        self.next_token();
        if !matches!(self.current_token, Token::LBrace) {
            return None;
        }
        let body = self.parse_block_statement();
        Some(Statement::TransactionDeclaration { name, parameters, body })
    }

    /// The parameters of a declaration, up to the closing parenthesis.
    #[verifier::rlimit(40)]
    fn parse_parameters(&mut self) -> (r: Option<Vec<(String, String)>>)
        requires
            old(self).wf(),
        ensures
            final(self).wf(),
            final(self).input() == old(self).input(),
            final(self).ignored == old(self).ignored,
            final(self).at() >= old(self).at(),
            (match r {
                Some(ps) => Some(params_view(ps@)),
                None => None,
            }, final(self).at()) == param_loop(old(self).input(), old(self).at(), Seq::empty()),
    {
        let ghost input = self.source@;
        let ghost k = self.index@;
        let mut parameters: Vec<(String, String)> = Vec::new();
        assert(params_view(parameters@) == Seq::<(Seq<char>, Seq<char>)>::empty());
        while !matches!(self.current_token, Token::CloseParen) && !self.current_token.is_eof()
            invariant
                self.wf(),
                self.source@ == input,
                input == old(self).input(),
                self.ignored == old(self).ignored,
                self.index@ >= k,
                k == old(self).at(),
                param_loop(input, k, Seq::empty()) == param_loop(
                    input,
                    self.index@,
                    params_view(parameters@),
                ),
            decreases room(input, self.index@),
        {
            proof {
                lemma_lex_token_not_eof(input.text, input.start, self.index@);
            }
            let p_name = match &self.current_token {
                Token::Identifier(n) => n.clone(),
                _ => return None,
            };
            self.next_token();
            if !matches!(self.current_token, Token::Colon) {
                return None;
            }
            self.next_token();
            let p_type = match &self.current_token {
                Token::CurrencyTicker(t) => t.clone(),
                Token::Identifier(t) => t.clone(),
                _ => return None,
            };
            let ghost before = parameters@;
            parameters.push((p_name, p_type));
            assert(params_view(parameters@) == params_view(before).push((p_name@, p_type@)));
            self.next_token();
            if matches!(self.current_token, Token::Comma) {
                self.next_token();
            }
        }
        Some(parameters)
    }

    #[verifier::rlimit(40)]
    fn parse_transaction_call(&mut self) -> (r: Option<Statement>)
        requires
            old(self).wf(),
        ensures
            final(self).wf(),
            final(self).input() == old(self).input(),
            final(self).ignored == old(self).ignored,
            final(self).at() >= old(self).at(),
            (ov_stmt(r), final(self).at()) == parse_txcall(old(self).input(), old(self).at()),
        decreases room(old(self).input(), old(self).at()), 4nat,
    {
        let ghost input = self.source@;
        let ghost k = self.index@;
        let name = match &self.current_token {
            Token::Identifier(n) => n.clone(),
            _ => return None,
        };
        self.next_token();
        self.next_token();
        let mut arguments: Vec<Expression> = Vec::new();
        assert(exprs_view(arguments@) == Seq::<ExprView>::empty());
        while !matches!(self.current_token, Token::CloseParen) && !self.current_token.is_eof()
            invariant
                self.wf(),
                self.source@ == input,
                input == old(self).input(),
                self.ignored == old(self).ignored,
                self.index@ >= k + 2,
                k == old(self).at(),
                arg_loop(input, k + 2, Seq::empty()) == arg_loop(
                    input,
                    self.index@,
                    exprs_view(arguments@),
                ),
            decreases room(input, self.index@),
        {
            proof {
                lemma_lex_token_not_eof(input.text, input.start, self.index@);
            }
            let ghost before = arguments@;
            match self.parse_expression(Precedence::Lowest) {
                Some(expr) => {
                    arguments.push(expr);
                    assert(arguments@.drop_last() == before);
                },
                None => {},
            }
            self.next_token();
            if matches!(self.current_token, Token::Comma) {
                self.next_token();
            }
        }
        Some(Statement::TransactionCall { name, arguments })
    }

    #[verifier::rlimit(40)]
    fn parse_expression(&mut self, precedence: Precedence) -> (r: Option<Expression>)
        requires
            old(self).wf(),
        ensures
            final(self).wf(),
            final(self).input() == old(self).input(),
            final(self).ignored == old(self).ignored,
            final(self).at() >= old(self).at(),
            (ov_expr(r), final(self).at()) == parse_expression(
                old(self).input(),
                old(self).at(),
                precedence.level(),
            ),
        decreases room(old(self).input(), old(self).at()), 2nat,
    {
        let ghost input = self.source@;
        let ghost k0 = self.index@;
        let mut left = match self.parse_primary() {
            Some(e) => e,
            None => return None,
        };
        let prec = precedence.rank();
        loop
            invariant
                self.wf(),
                self.source@ == input,
                input == old(self).input(),
                self.ignored == old(self).ignored,
                self.index@ >= k0,
                k0 == old(self).at(),
                prec == precedence.level(),
                parse_expression(input, k0, precedence.level()) == expr_loop(
                    input,
                    self.index@,
                    left@,
                    precedence.level(),
                ),
            decreases room(input, self.index@),
        {
            if self.peek_token.is_eof() || !(prec < self.peek_precedence().rank()) {
                return Some(left);
            }
            proof {
                lemma_lex_token_not_eof(input.text, input.start, self.index@ + 1);
            }
            self.next_token();
            let operator = match self.current_token {
                Token::Plus => Operator::Plus,
                Token::Minus => Operator::Minus,
                Token::Asterisk => Operator::Multiply,
                Token::Slash => Operator::Divide,
                Token::LessThan => Operator::LessThan,
                Token::GreaterThan => Operator::GreaterThan,
                Token::Equal => Operator::Equal,
                Token::NotEqual => Operator::NotEqual,
                _ => return Some(left),
            };
            let current_precedence = self.peek_precedence();
            self.next_token();
            let right = match self.parse_expression(current_precedence) {
                Some(r) => r,
                None => return None,
            };
            left = Expression::BinaryOperation {
                left: Box::new(left),
                operator,
                right: Box::new(right),
            };
        }
    }

    #[verifier::rlimit(40)]
    fn parse_primary(&mut self) -> (r: Option<Expression>)
        requires
            old(self).wf(),
        ensures
            final(self).wf(),
            final(self).input() == old(self).input(),
            final(self).ignored == old(self).ignored,
            final(self).at() >= old(self).at(),
            (ov_expr(r), final(self).at()) == parse_primary(old(self).input(), old(self).at()),
    {
        match &self.current_token {
            Token::MoneyLiteral(amount) => {
                let val = *amount;
                self.next_token();
                if matches!(self.current_token, Token::At) {
                    self.next_token();
                    match &self.current_token {
                        Token::CurrencyTicker(currency) => Some(
                            Expression::MoneyLiteral { amount: val, currency: currency.clone() },
                        ),
                        _ => None,
                    }
                } else {
                    match &self.current_token {
                        Token::CurrencyTicker(currency) => Some(
                            Expression::MoneyLiteral { amount: val, currency: currency.clone() },
                        ),
                        _ => None,
                    }
                }
            },
            Token::Identifier(id) => Some(Expression::Identifier(id.clone())),
            Token::True => Some(Expression::BooleanLiteral(true)),
            Token::False => Some(Expression::BooleanLiteral(false)),
            _ => None,
        }
    }
}

} // verus!
