//! The syntax tree, and its view with text as character sequences.
use crate::money::Amount;
use vstd::prelude::*;

verus! {

/// A whole program: its statements in order.
#[derive(Debug)]
pub struct Program {
    pub statements: Vec<Statement>,
}

/// The statements between braces.
#[derive(Debug)]
pub struct BlockStatement {
    pub statements: Vec<Statement>,
}

#[derive(Debug)]
pub enum Statement {
    AssetDeclaration { ticker: String, precision: u32 },
    Assignment { identifier: String, value: Expression },
    IfStatement {
        condition: Expression,
        consequence: BlockStatement,
        alternative: Option<BlockStatement>,
    },
    /// A reusable transaction, each parameter with its name and its required type.
    TransactionDeclaration { name: String, parameters: Vec<(String, String)>, body: BlockStatement },
    TransactionCall { name: String, arguments: Vec<Expression> },
}

#[derive(Clone, Copy, Debug, PartialEq, Eq)]
pub enum Operator {
    Plus,
    Minus,
    Multiply,
    Divide,
    LessThan,
    GreaterThan,
    Equal,
    NotEqual,
}

#[derive(Debug)]
pub enum Expression {
    MoneyLiteral { amount: Amount, currency: String },
    BooleanLiteral(bool),
    Identifier(String),
    BinaryOperation { left: Box<Expression>, operator: Operator, right: Box<Expression> },
}

/// An expression with its names as character sequences.
pub enum ExprView {
    Money { amount: Amount, currency: Seq<char> },
    Boolean(bool),
    Ident(Seq<char>),
    Binary { left: Box<ExprView>, op: Operator, right: Box<ExprView> },
}

/// A statement with its names as character sequences and its blocks as sequences.
pub enum StmtView {
    Asset { ticker: Seq<char>, precision: u32 },
    Assign { identifier: Seq<char>, value: ExprView },
    If { condition: ExprView, consequence: Seq<StmtView>, alternative: Option<Seq<StmtView>> },
    TxDecl { name: Seq<char>, parameters: Seq<(Seq<char>, Seq<char>)>, body: Seq<StmtView> },
    TxCall { name: Seq<char>, arguments: Seq<ExprView> },
}

pub open spec fn expr_view(e: Expression) -> ExprView
    decreases e,
{
    match e {
        Expression::MoneyLiteral { amount, currency } => ExprView::Money { amount, currency: currency@ },
        Expression::BooleanLiteral(b) => ExprView::Boolean(b),
        Expression::Identifier(s) => ExprView::Ident(s@),
        Expression::BinaryOperation { left, operator, right } => ExprView::Binary {
            left: Box::new(expr_view(*left)),
            op: operator,
            right: Box::new(expr_view(*right)),
        },
    }
}

pub open spec fn exprs_view(es: Seq<Expression>) -> Seq<ExprView>
    decreases es.len(),
{
    if es.len() == 0 {
        Seq::empty()
    } else {
        exprs_view(es.drop_last()).push(expr_view(es.last()))
    }
}

/// The names and types of parameters as character sequences.
pub open spec fn params_view(ps: Seq<(String, String)>) -> Seq<(Seq<char>, Seq<char>)> {
    ps.map_values(|p: (String, String)| (p.0@, p.1@))
}

pub open spec fn stmt_view(s: Statement) -> StmtView
    decreases s, 1nat,
{
    match s {
        Statement::AssetDeclaration { ticker, precision } => StmtView::Asset { ticker: ticker@, precision },
        Statement::Assignment { identifier, value } => StmtView::Assign {
            identifier: identifier@,
            value: expr_view(value),
        },
        Statement::IfStatement { condition, consequence, alternative } => StmtView::If {
            condition: expr_view(condition),
            consequence: stmts_view(consequence.statements@),
            alternative: match alternative {
                Some(b) => Some(stmts_view(b.statements@)),
                None => None,
            },
        },
        Statement::TransactionDeclaration { name, parameters, body } => StmtView::TxDecl {
            name: name@,
            parameters: params_view(parameters@),
            body: stmts_view(body.statements@),
        },
        Statement::TransactionCall { name, arguments } => StmtView::TxCall {
            name: name@,
            arguments: exprs_view(arguments@),
        },
    }
}

pub open spec fn stmts_view(ss: Seq<Statement>) -> Seq<StmtView>
    decreases ss, 0nat,
{
    if ss.len() == 0 {
        Seq::empty()
    } else {
        stmts_view(ss.drop_last()).push(stmt_view(ss.last()))
    }
}

impl View for Expression {
    type V = ExprView;

    open spec fn view(&self) -> ExprView {
        expr_view(*self)
    }
}

impl View for Statement {
    type V = StmtView;

    open spec fn view(&self) -> StmtView {
        stmt_view(*self)
    }
}

impl View for BlockStatement {
    type V = Seq<StmtView>;

    open spec fn view(&self) -> Seq<StmtView> {
        stmts_view(self.statements@)
    }
}

impl View for Program {
    type V = Seq<StmtView>;

    open spec fn view(&self) -> Seq<StmtView> {
        stmts_view(self.statements@)
    }
}

/// The view of a list of statements has one entry per statement, in order.
pub proof fn lemma_stmts_view(ss: Seq<Statement>)
    ensures
        stmts_view(ss).len() == ss.len(),
        forall|i: int| 0 <= i < ss.len() ==> #[trigger] stmts_view(ss)[i] == stmt_view(ss[i]),
    decreases ss.len(),
{
    if ss.len() > 0 {
        lemma_stmts_view(ss.drop_last());
    }
}

/// The view of a list of expressions has one entry per expression, in order.
pub proof fn lemma_exprs_view(es: Seq<Expression>)
    ensures
        exprs_view(es).len() == es.len(),
        forall|i: int| 0 <= i < es.len() ==> #[trigger] exprs_view(es)[i] == expr_view(es[i]),
    decreases es.len(),
{
    if es.len() > 0 {
        lemma_exprs_view(es.drop_last());
    }
}

/// A copy of a parameter list.
pub fn copy_parameters(ps: &Vec<(String, String)>) -> (r: Vec<(String, String)>)
    ensures
        params_view(r@) == params_view(ps@),
{
    let mut out: Vec<(String, String)> = Vec::new();
    let mut i: usize = 0;
    while i < ps.len()
        invariant
            i <= ps@.len(),
            out@.len() == i,
            forall|j: int| 0 <= j < i ==> (#[trigger] out@[j]).0@ == ps@[j].0@ && out@[j].1@ == ps@[j].1@,
        decreases ps@.len() - i,
    {
        out.push((ps[i].0.clone(), ps[i].1.clone()));
        i = i + 1;
    }
    assert(params_view(out@) =~= params_view(ps@));
    out
}

impl Expression {
    /// A deep copy.
    pub fn duplicate(&self) -> (r: Expression)
        ensures
            r@ == self@,
        decreases self,
    {
        match self {
            Expression::MoneyLiteral { amount, currency } => Expression::MoneyLiteral {
                amount: *amount,
                currency: currency.clone(),
            },
            Expression::BooleanLiteral(b) => Expression::BooleanLiteral(*b),
            Expression::Identifier(s) => Expression::Identifier(s.clone()),
            Expression::BinaryOperation { left, operator, right } => {
                let l = (**left).duplicate();
                let r = (**right).duplicate();
                Expression::BinaryOperation { left: Box::new(l), operator: *operator, right: Box::new(r) }
            },
        }
    }
}

/// A deep copy of a list of expressions.
pub fn copy_expressions(es: &Vec<Expression>) -> (r: Vec<Expression>)
    ensures
        exprs_view(r@) == exprs_view(es@),
{
    proof {
        lemma_exprs_view(es@);
    }
    let mut out: Vec<Expression> = Vec::new();
    let mut i: usize = 0;
    while i < es.len()
        invariant
            i <= es@.len(),
            exprs_view(out@) == exprs_view(es@).take(i as int),
            exprs_view(es@).len() == es@.len(),
            forall|j: int| 0 <= j < es@.len() ==> #[trigger] exprs_view(es@)[j] == expr_view(es@[j]),
        decreases es@.len() - i,
    {
        let ghost before = out@;
        out.push(es[i].duplicate());
        assert(out@.drop_last() == before);
        assert(exprs_view(es@).take(i + 1) == exprs_view(es@).take(i as int).push(expr_view(es@[i as int])));
        i = i + 1;
    }
    assert(exprs_view(es@).take(i as int) == exprs_view(es@));
    out
}

impl Statement {
    /// A deep copy.
    pub fn duplicate(&self) -> (r: Statement)
        ensures
            r@ == self@,
        decreases self,
    {
        match self {
            Statement::AssetDeclaration { ticker, precision } => Statement::AssetDeclaration {
                ticker: ticker.clone(),
                precision: *precision,
            },
            Statement::Assignment { identifier, value } => Statement::Assignment {
                identifier: identifier.clone(),
                value: value.duplicate(),
            },
            Statement::IfStatement { condition, consequence, alternative } => {
                let c = condition.duplicate();
                let cons = BlockStatement { statements: copy_statements(&consequence.statements) };
                let alt = match alternative {
                    Some(b) => Some(BlockStatement { statements: copy_statements(&b.statements) }),
                    None => None,
                };
                Statement::IfStatement { condition: c, consequence: cons, alternative: alt }
            },
            Statement::TransactionDeclaration { name, parameters, body } => Statement::TransactionDeclaration {
                name: name.clone(),
                parameters: copy_parameters(parameters),
                body: BlockStatement { statements: copy_statements(&body.statements) },
            },
            Statement::TransactionCall { name, arguments } => Statement::TransactionCall {
                name: name.clone(),
                arguments: copy_expressions(arguments),
            },
        }
    }
}

/// A deep copy of a list of statements.
pub fn copy_statements(ss: &Vec<Statement>) -> (r: Vec<Statement>)
    ensures
        stmts_view(r@) == stmts_view(ss@),
    decreases ss,
{
    proof {
        lemma_stmts_view(ss@);
    }
    let mut out: Vec<Statement> = Vec::new();
    let mut i: usize = 0;
    while i < ss.len()
        invariant
            i <= ss@.len(),
            stmts_view(out@) == stmts_view(ss@).take(i as int),
            stmts_view(ss@).len() == ss@.len(),
            forall|j: int| 0 <= j < ss@.len() ==> #[trigger] stmts_view(ss@)[j] == stmt_view(ss@[j]),
        decreases ss@.len() - i,
    {
        let ghost before = out@;
        out.push(ss[i].duplicate());
        assert(out@.drop_last() == before);
        assert(stmts_view(ss@).take(i + 1) == stmts_view(ss@).take(i as int).push(stmt_view(ss@[i as int])));
        i = i + 1;
    }
    assert(stmts_view(ss@).take(i as int) == stmts_view(ss@));
    out
}

impl BlockStatement {
    /// A deep copy.
    pub fn duplicate(&self) -> (r: BlockStatement)
        ensures
            r@ == self@,
    {
        BlockStatement { statements: copy_statements(&self.statements) }
    }
}

} // verus!
