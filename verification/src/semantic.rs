//! The auditor: checks a program's types before anything runs.
use crate::ast::{BlockStatement, ExprView, Expression, Operator, Program, Statement, StmtView};
use crate::symbol_table::{SymbolTable, SymbolView, signature_view, types_of};
use crate::table::Table;
use crate::vm::result_view;
use crate::text::{concat3, concat5, concat7, count_text, decimal_digits};
use crate::ast::{lemma_exprs_view, lemma_stmts_view, stmts_view};
use vstd::prelude::*;
use vstd::string::*;

verus! {

/// What the auditor approved, in order.
#[derive(Debug)]
pub enum AuditEvent {
    AssetRegistered { ticker: String, precision: u32 },
    AssignmentValidated { identifier: String, value_type: String },
    TransactionRegistered { name: String },
    CallValidated { name: String },
}

pub enum AuditEventView {
    AssetRegistered { ticker: Seq<char>, precision: u32 },
    AssignmentValidated { identifier: Seq<char>, value_type: Seq<char> },
    TransactionRegistered { name: Seq<char> },
    CallValidated { name: Seq<char> },
}

impl View for AuditEvent {
    type V = AuditEventView;

    open spec fn view(&self) -> AuditEventView {
        match self {
            AuditEvent::AssetRegistered { ticker, precision } => AuditEventView::AssetRegistered {
                ticker: ticker@,
                precision: *precision,
            },
            AuditEvent::AssignmentValidated { identifier, value_type } => AuditEventView::AssignmentValidated {
                identifier: identifier@,
                value_type: value_type@,
            },
            AuditEvent::TransactionRegistered { name } => AuditEventView::TransactionRegistered { name: name@ },
            AuditEvent::CallValidated { name } => AuditEventView::CallValidated { name: name@ },
        }
    }
}

/// The events by their views.
pub open spec fn events_view(es: Seq<AuditEvent>) -> Seq<AuditEventView> {
    es.map_values(|e: AuditEvent| e@)
}

/// The type of boolean values.
pub open spec fn boolean_type() -> Seq<char> {
    "BOOLEAN"@
}

pub open spec fn unregistered_asset_msg(c: Seq<char>) -> Seq<char> {
    "❌ CRITICAL ERROR: Unregistered asset '"@ + c + "'."@
}

pub open spec fn undefined_variable_msg(n: Seq<char>) -> Seq<char> {
    "❌ CRITICAL ERROR: Variable '"@ + n + "' is used before defined."@
}

pub open spec fn type_mismatch_msg(l: Seq<char>, r: Seq<char>) -> Seq<char> {
    "❌ CRITICAL ERROR: Type mismatch! Cannot operate between '"@ + l + "' and '"@ + r + "'."@
}

pub open spec fn boolean_math_msg() -> Seq<char> {
    "❌ CRITICAL ERROR: Cannot do math on Booleans."@
}

pub open spec fn if_condition_msg(t: Seq<char>) -> Seq<char> {
    "❌ CRITICAL ERROR: 'if' condition must be a Boolean, found '"@ + t + "'."@
}

pub open spec fn argument_count_msg(name: Seq<char>, n: nat) -> Seq<char> {
    "❌ CRITICAL ERROR: Transaction '"@ + name + "' expects "@ + decimal_digits(n) + " arguments."@
}

pub open spec fn parameter_type_msg(p: Seq<char>, expected: Seq<char>, given: Seq<char>) -> Seq<char> {
    "❌ CRITICAL ERROR: Contract parameter '"@ + p + "' requires '"@ + expected + "', but you passed '"@
        + given + "'."@
}

pub open spec fn undefined_transaction_msg(name: Seq<char>) -> Seq<char> {
    "❌ CRITICAL ERROR: Transaction '"@ + name + "' is called but undefined."@
}

pub open spec fn redefined_transaction_msg(name: Seq<char>) -> Seq<char> {
    "❌ CRITICAL ERROR: Transaction '"@ + name + "' is already defined."@
}

pub open spec fn nested_declaration_msg() -> Seq<char> {
    "❌ CRITICAL ERROR: Transactions must be declared at the top level."@
}

pub open spec fn changed_parameter_msg(name: Seq<char>, p: Seq<char>) -> Seq<char> {
    "❌ CRITICAL ERROR: Transaction '"@ + name + "' must leave parameter '"@ + p + "' with its declared type."@
}

/// A statement that declares no transaction, at any depth.
pub open spec fn stmt_decl_free(s: StmtView) -> bool
    decreases s,
{
    match s {
        StmtView::TxDecl { .. } => false,
        StmtView::If { consequence, alternative, .. } => block_decl_free(consequence) && match alternative {
            Some(alt) => block_decl_free(alt),
            None => true,
        },
        _ => true,
    }
}

/// Statements that declare no transaction, at any depth.
pub open spec fn block_decl_free(ss: Seq<StmtView>) -> bool
    decreases ss,
{
    ss.len() == 0 || (stmt_decl_free(ss[0]) && block_decl_free(ss.drop_first()))
}

/// The first parameter that, at the end of a body, no longer has its declared
/// type (or is no longer known).
pub open spec fn changed_parameter(ps: Seq<(Seq<char>, Seq<char>)>, vars: Map<Seq<char>, Seq<char>>) -> Option<
    Seq<char>,
>
    decreases ps.len(),
{
    if ps.len() == 0 {
        None
    } else if !(vars.contains_key(ps[0].0) && vars[ps[0].0] == ps[0].1) {
        Some(ps[0].0)
    } else {
        changed_parameter(ps.drop_first(), vars)
    }
}

/// Whether an operator computes an amount (rather than comparing).
pub open spec fn is_arithmetic(op: Operator) -> bool {
    op is Plus || op is Minus || op is Multiply || op is Divide
}

/// The type of an expression under the symbol table, or the error that rejects it.
pub open spec fn type_of(sym: SymbolView, e: ExprView) -> Result<Seq<char>, Seq<char>>
    decreases e,
{
    match e {
        ExprView::Money { amount, currency } => if sym.assets.contains_key(currency) {
            Ok(currency)
        } else {
            Err(unregistered_asset_msg(currency))
        },
        ExprView::Boolean(_) => Ok(boolean_type()),
        ExprView::Ident(name) => if sym.variables.contains_key(name) {
            Ok(sym.variables[name])
        } else {
            Err(undefined_variable_msg(name))
        },
        ExprView::Binary { left, op, right } => match type_of(sym, *left) {
            Err(m) => Err(m),
            Ok(lt) => match type_of(sym, *right) {
                Err(m) => Err(m),
                Ok(rt) => if lt != rt {
                    Err(type_mismatch_msg(lt, rt))
                } else if is_arithmetic(op) {
                    if lt == boolean_type() {
                        Err(boolean_math_msg())
                    } else {
                        Ok(lt)
                    }
                } else {
                    Ok(boolean_type())
                },
            },
        },
    }
}

/// The auditor's state: its symbol table and the events it has approved.
pub struct AuditState {
    pub sym: SymbolView,
    pub log: Seq<AuditEventView>,
}

/// The variables after each parameter of a declaration is given its type, in order.
pub open spec fn with_parameters(vars: Map<Seq<char>, Seq<char>>, ps: Seq<(Seq<char>, Seq<char>)>) -> Map<
    Seq<char>,
    Seq<char>,
>
    decreases ps.len(),
{
    if ps.len() == 0 {
        vars
    } else {
        with_parameters(vars, ps.drop_last()).insert(ps.last().0, ps.last().1)
    }
}

/// The first error among the arguments of a call from argument `i` on, checked
/// against the signature.
pub open spec fn check_arguments(
    sym: SymbolView,
    sig: Seq<(Seq<char>, Seq<char>)>,
    args: Seq<ExprView>,
    i: nat,
) -> Result<(), Seq<char>>
    decreases args.len() - i,
{
    if i >= args.len() || i >= sig.len() {
        Ok(())
    } else {
        match type_of(sym, args[i as int]) {
            Err(m) => Err(m),
            Ok(t) => if t != sig[i as int].1 {
                Err(parameter_type_msg(sig[i as int].0, sig[i as int].1, t))
            } else {
                check_arguments(sym, sig, args, i + 1)
            },
        }
    }
}

/// The variables that two scopes give the same type, with that type.
pub open spec fn agreed(a: Map<Seq<char>, Seq<char>>, b: Map<Seq<char>, Seq<char>>) -> Map<Seq<char>, Seq<char>> {
    Map::new(|k: Seq<char>| a.contains_key(k) && b.contains_key(k) && a[k] == b[k], |k: Seq<char>| a[k])
}

/// Audits one statement: the new state, and the error that stopped the audit, if any.
/// The audit follows the flow of a run: after an `if`, a variable keeps a type
/// only where both ways through give it that type (a missing `else` keeps the
/// types from before); a declaration's parameters and the variables its body
/// assigns are known only inside the body, which sees its parameters alone, as
/// the machine's frame does; a transaction is declared once, at the top level,
/// and its body must leave each parameter with its declared type.
pub open spec fn audit_statement(st: AuditState, s: StmtView) -> (AuditState, Result<(), Seq<char>>)
    decreases s,
{
    match s {
        StmtView::Asset { ticker, precision } => (
            AuditState {
                sym: SymbolView { assets: st.sym.assets.insert(ticker, precision), ..st.sym },
                log: st.log.push(AuditEventView::AssetRegistered { ticker, precision }),
            },
            Ok(()),
        ),
        StmtView::Assign { identifier, value } => match type_of(st.sym, value) {
            Err(m) => (st, Err(m)),
            Ok(t) => (
                AuditState {
                    sym: SymbolView { variables: st.sym.variables.insert(identifier, t), ..st.sym },
                    log: st.log.push(AuditEventView::AssignmentValidated { identifier, value_type: t }),
                },
                Ok(()),
            ),
        },
        StmtView::If { condition, consequence, alternative } => match type_of(st.sym, condition) {
            Err(m) => (st, Err(m)),
            Ok(t) => if t != boolean_type() {
                (st, Err(if_condition_msg(t)))
            } else if !block_decl_free(consequence) || (alternative matches Some(alt) && !block_decl_free(alt)) {
                (st, Err(nested_declaration_msg()))
            } else {
                let (st1, r1) = audit_block(st, consequence);
                if r1 is Err {
                    (st1, r1)
                } else {
                    let base = AuditState {
                        sym: SymbolView { variables: st.sym.variables, ..st1.sym },
                        log: st1.log,
                    };
                    let (st2, r2) = match alternative {
                        Some(alt) => audit_block(base, alt),
                        None => (base, Ok(())),
                    };
                    if r2 is Err {
                        (st2, r2)
                    } else {
                        (
                            AuditState {
                                sym: SymbolView {
                                    variables: agreed(st1.sym.variables, st2.sym.variables),
                                    ..st2.sym
                                },
                                log: st2.log,
                            },
                            Ok(()),
                        )
                    }
                }
            },
        },
        StmtView::TxDecl { name, parameters, body } => if st.sym.transactions.contains_key(name) {
            (st, Err(redefined_transaction_msg(name)))
        } else if !block_decl_free(body) {
            (st, Err(nested_declaration_msg()))
        } else {
            let st1 = AuditState {
                sym: SymbolView {
                    transactions: st.sym.transactions.insert(name, parameters),
                    variables: with_parameters(Map::empty(), parameters),
                    ..st.sym
                },
                log: st.log.push(AuditEventView::TransactionRegistered { name }),
            };
            let (st2, r) = audit_block(st1, body);
            if r is Err {
                (st2, r)
            } else {
                match changed_parameter(parameters, st2.sym.variables) {
                    Some(p) => (st2, Err(changed_parameter_msg(name, p))),
                    None => (
                        AuditState { sym: SymbolView { variables: st.sym.variables, ..st2.sym }, log: st2.log },
                        Ok(()),
                    ),
                }
            }
        },
        StmtView::TxCall { name, arguments } => if !st.sym.transactions.contains_key(name) {
            (st, Err(undefined_transaction_msg(name)))
        } else {
            let sig = st.sym.transactions[name];
            if sig.len() != arguments.len() {
                (st, Err(argument_count_msg(name, sig.len())))
            } else {
                match check_arguments(st.sym, sig, arguments, 0) {
                    Err(m) => (st, Err(m)),
                    Ok(()) => (
                        AuditState { log: st.log.push(AuditEventView::CallValidated { name }), ..st },
                        Ok(()),
                    ),
                }
            }
        },
    }
}

/// Audits statements in order, stopping at the first error.
pub open spec fn audit_block(st: AuditState, ss: Seq<StmtView>) -> (AuditState, Result<(), Seq<char>>)
    decreases ss,
{
    if ss.len() == 0 {
        (st, Ok(()))
    } else {
        let (st1, r) = audit_statement(st, ss[0]);
        if r is Err {
            (st1, r)
        } else {
            audit_block(st1, ss.drop_first())
        }
    }
}

/// A type-or-error by the views of its texts.
pub open spec fn type_result_view(r: Result<String, String>) -> Result<Seq<char>, Seq<char>> {
    match r {
        Ok(t) => Ok(t@),
        Err(m) => Err(m@),
    }
}

/// The auditor: a symbol table, filled as statements are approved.
pub struct Analyzer {
    pub symbol_table: SymbolTable,
    log: Vec<AuditEvent>,
}

impl Analyzer {
    /// The symbol table and the approved events.
    pub closed spec fn state(&self) -> AuditState {
        AuditState { sym: self.symbol_table@, log: events_view(self.log@) }
    }

    /// An auditor that knows nothing yet.
    pub fn new() -> (r: Analyzer)
        ensures
            r.state().sym.assets == Map::<Seq<char>, u32>::empty(),
            r.state().sym.variables == Map::<Seq<char>, Seq<char>>::empty(),
            r.state().sym.transactions == Map::<Seq<char>, Seq<(Seq<char>, Seq<char>)>>::empty(),
            r.state().log == Seq::<AuditEventView>::empty(),
    {
        let r = Analyzer { symbol_table: SymbolTable::new(), log: Vec::new() };
        assert(events_view(r.log@) =~= Seq::<AuditEventView>::empty());
        r
    }

    /// The events approved so far, in order.
    pub fn audit_log(&self) -> (r: &Vec<AuditEvent>)
        ensures
            events_view(r@) == self.state().log,
    {
        &self.log
    }

    /// Audits the statements of a program in order, stopping at the first error.
    pub fn analyze_program(&mut self, program: &Program) -> (r: Result<(), String>)
        ensures
            (final(self).state(), result_view(r)) == audit_block(old(self).state(), program@),
    {
        self.analyze_statements(&program.statements)
    }

    fn record(&mut self, e: AuditEvent)
        ensures
            final(self).state() == (AuditState { log: old(self).state().log.push(e@), ..old(self).state() }),
    {
        self.log.push(e);
        assert(events_view(self.log@) =~= events_view(old(self).log@).push(e@));
    }

    #[verifier::rlimit(30)]
    fn analyze_statements(&mut self, stmts: &Vec<Statement>) -> (r: Result<(), String>)
        ensures
            (final(self).state(), result_view(r)) == audit_block(old(self).state(), stmts_view(stmts@)),
        decreases stmts,
    {
        let ghost ss = stmts_view(stmts@);
        proof {
            lemma_stmts_view(stmts@);
        }
        let mut i: usize = 0;
        assert(ss.skip(0) == ss);
        while i < stmts.len()
            invariant
                i <= stmts@.len(),
                ss == stmts_view(stmts@),
                ss.len() == stmts@.len(),
                forall|j: int| 0 <= j < stmts@.len() ==> #[trigger] ss[j] == crate::ast::stmt_view(stmts@[j]),
                audit_block(old(self).state(), ss) == audit_block(self.state(), ss.skip(i as int)),
            decreases stmts@.len() - i,
        {
            let ghost st = self.state();
            assert(ss.skip(i as int)[0] == ss[i as int]);
            assert(ss.skip(i as int).drop_first() == ss.skip(i + 1));
            let r = self.analyze_statement(&stmts[i]);
            if r.is_err() {
                return r;
            }
            i = i + 1;
        }
        assert(ss.skip(i as int).len() == 0);
        Ok(())
    }

    #[verifier::rlimit(30)]
    fn analyze_statement(&mut self, stmt: &Statement) -> (r: Result<(), String>)
        ensures
            (final(self).state(), result_view(r)) == audit_statement(old(self).state(), stmt@),
        decreases stmt,
    {
        match stmt {
            Statement::AssetDeclaration { ticker, precision } => {
                self.symbol_table.define_asset(ticker.clone(), *precision);
                self.record(AuditEvent::AssetRegistered { ticker: ticker.clone(), precision: *precision });
                Ok(())
            },
            Statement::Assignment { identifier, value } => {
                let t = match self.analyze_expression(value) {
                    Ok(t) => t,
                    Err(m) => return Err(m),
                };
                self.symbol_table.define_variable(identifier.clone(), t.clone());
                self.record(AuditEvent::AssignmentValidated { identifier: identifier.clone(), value_type: t });
                Ok(())
            },
            Statement::IfStatement { condition, consequence, alternative } => {
                let t = match self.analyze_expression(condition) {
                    Ok(t) => t,
                    Err(m) => return Err(m),
                };
                if t != String::from_str("BOOLEAN") {
                    return Err(
                        concat3(
                            "❌ CRITICAL ERROR: 'if' condition must be a Boolean, found '",
                            t.as_str(),
                            "'.",
                        ),
                    );
                }
                let nested = match alternative {
                    Some(alt) => !declares_nothing(&alt.statements),
                    None => false,
                };
                if !declares_nothing(&consequence.statements) || nested {
                    return Err(String::from_str("❌ CRITICAL ERROR: Transactions must be declared at the top level."));
                }
                let mut before = copy_types(&self.symbol_table.variables);
                let r1 = self.analyze_statements(&consequence.statements);
                if r1.is_err() {
                    return r1;
                }
                std::mem::swap(&mut self.symbol_table.variables, &mut before);
                let after_consequence = before;
                let r2 = match alternative {
                    Some(alt) => self.analyze_statements(&alt.statements),
                    None => Ok(()),
                };
                if r2.is_err() {
                    return r2;
                }
                let merged = agreed_types(&after_consequence, &self.symbol_table.variables);
                self.symbol_table.variables = merged;
                Ok(())
            },
            Statement::TransactionDeclaration { name, parameters, body } => {
                if self.symbol_table.lookup_transaction(name.as_str()).is_some() {
                    return Err(concat3("❌ CRITICAL ERROR: Transaction '", name.as_str(), "' is already defined."));
                }
                if !declares_nothing(&body.statements) {
                    return Err(String::from_str("❌ CRITICAL ERROR: Transactions must be declared at the top level."));
                }
                let outer = copy_types(&self.symbol_table.variables);
                self.symbol_table.variables = Table::new();
                let copy = crate::ast::copy_parameters(parameters);
                self.symbol_table.define_transaction(name.clone(), copy);
                self.record(AuditEvent::TransactionRegistered { name: name.clone() });
                let ghost ps = signature_view(parameters@);
                let ghost vars0 = Map::<Seq<char>, Seq<char>>::empty();
                assert(self.symbol_table@.variables =~= vars0);
                let mut i: usize = 0;
                while i < parameters.len()
                    invariant
                        i <= parameters@.len(),
                        ps == signature_view(parameters@),
                        self.symbol_table@.variables == with_parameters(vars0, ps.take(i as int)),
                        self.symbol_table@.assets == old(self).symbol_table@.assets,
                        self.symbol_table@.transactions == old(self).symbol_table@.transactions.insert(name@, ps),
                        self.state().log == old(self).state().log.push(
                            AuditEventView::TransactionRegistered { name: name@ },
                        ),
                        vars0 == Map::<Seq<char>, Seq<char>>::empty(),
                        types_of(outer@) == old(self).symbol_table@.variables,
                    decreases parameters@.len() - i,
                {
                    let p = &parameters[i];
                    self.symbol_table.define_variable(p.0.clone(), p.1.clone());
                    assert(ps.take(i + 1).drop_last() == ps.take(i as int));
                    i = i + 1;
                }
                assert(ps.take(i as int) == ps);
                let ghost st1 = self.state();
                let r = self.analyze_statements(&body.statements);
                if r.is_err() {
                    return r;
                }
                let ghost vars2 = self.symbol_table@.variables;
                let ghost after_body = self.state();
                let mut j: usize = 0;
                assert(ps.skip(0) == ps);
                while j < parameters.len()
                    invariant
                        j <= parameters@.len(),
                        ps == signature_view(parameters@),
                        ps.len() == parameters@.len(),
                        self.symbol_table@.variables == vars2,
                        self.state() == after_body,
                        audit_block(st1, body@) == (after_body, Ok::<(), Seq<char>>(())),
                        st1 == (AuditState {
                            sym: SymbolView {
                                transactions: old(self).state().sym.transactions.insert(name@, ps),
                                variables: with_parameters(Map::empty(), ps),
                                ..old(self).state().sym
                            },
                            log: old(self).state().log.push(AuditEventView::TransactionRegistered { name: name@ }),
                        }),
                        !old(self).state().sym.transactions.contains_key(name@),
                        block_decl_free(body@),
                        stmt@ == (StmtView::TxDecl { name: name@, parameters: ps, body: body@ }),
                        changed_parameter(ps, vars2) == changed_parameter(ps.skip(j as int), vars2),
                    decreases parameters@.len() - j,
                {
                    let p = &parameters[j];
                    assert(ps.skip(j as int)[0] == ps[j as int]);
                    assert(ps.skip(j as int).drop_first() == ps.skip(j + 1));
                    let kept = match self.symbol_table.lookup_variable(p.0.as_str()) {
                        Some(t) => *t == p.1,
                        None => false,
                    };
                    assert(ps[j as int] == (p.0@, p.1@));
                    assert(kept == (vars2.contains_key(p.0@) && vars2[p.0@] == p.1@));
                    if !kept {
                        assert(changed_parameter(ps.skip(j as int), vars2) == Some(p.0@));
                        return Err(
                            concat5(
                                "❌ CRITICAL ERROR: Transaction '",
                                name.as_str(),
                                "' must leave parameter '",
                                p.0.as_str(),
                                "' with its declared type.",
                            ),
                        );
                    }
                    j = j + 1;
                }
                self.symbol_table.variables = outer;
                Ok(())
            },
            Statement::TransactionCall { name, arguments } => {
                proof {
                    lemma_exprs_view(arguments@);
                }
                let sig = match self.symbol_table.lookup_transaction(name.as_str()) {
                    Some(s) => s,
                    None => {
                        return Err(
                            concat3("❌ CRITICAL ERROR: Transaction '", name.as_str(), "' is called but undefined."),
                        );
                    },
                };
                let n = sig.expected_parameters.len();
                if n != arguments.len() {
                    let count = count_text(n);
                    return Err(
                        concat5(
                            "❌ CRITICAL ERROR: Transaction '",
                            name.as_str(),
                            "' expects ",
                            count.as_str(),
                            " arguments.",
                        ),
                    );
                }
                let ghost sv = signature_view(sig.expected_parameters@);
                let ghost args = crate::ast::exprs_view(arguments@);
                let mut i: usize = 0;
                while i < arguments.len()
                    invariant
                        i <= arguments@.len(),
                        n == arguments@.len(),
                        n == sig.expected_parameters@.len(),
                        sv == signature_view(sig.expected_parameters@),
                        args == crate::ast::exprs_view(arguments@),
                        args.len() == arguments@.len(),
                        forall|j: int| 0 <= j < arguments@.len() ==> #[trigger] args[j] == crate::ast::expr_view(arguments@[j]),
                        self.state() == old(self).state(),
                        stmt@ == (StmtView::TxCall { name: name@, arguments: args }),
                        self.symbol_table@.transactions.contains_key(name@),
                        self.symbol_table@.transactions[name@] == sv,
                        check_arguments(self.symbol_table@, sv, args, 0) == check_arguments(
                            self.symbol_table@,
                            sv,
                            args,
                            i as nat,
                        ),
                    decreases arguments@.len() - i,
                {
                    let t = match self.analyze_expression(&arguments[i]) {
                        Ok(t) => t,
                        Err(m) => return Err(m),
                    };
                    let expected = &sig.expected_parameters[i];
                    if t != expected.1 {
                        return Err(
                            concat7(
                                "❌ CRITICAL ERROR: Contract parameter '",
                                expected.0.as_str(),
                                "' requires '",
                                expected.1.as_str(),
                                "', but you passed '",
                                t.as_str(),
                                "'.",
                            ),
                        );
                    }
                    i = i + 1;
                }
                self.record(AuditEvent::CallValidated { name: name.clone() });
                Ok(())
            },
        }
    }

    #[verifier::rlimit(30)]
    fn analyze_expression(&self, expr: &Expression) -> (r: Result<String, String>)
        ensures
            type_result_view(r) == type_of(self.symbol_table@, expr@),
        decreases expr,
    {
        match expr {
            Expression::MoneyLiteral { amount: _, currency } => {
                if self.symbol_table.lookup_asset(currency.as_str()).is_some() {
                    Ok(currency.clone())
                } else {
                    Err(concat3("❌ CRITICAL ERROR: Unregistered asset '", currency.as_str(), "'."))
                }
            },
            Expression::BooleanLiteral(_) => Ok(String::from_str("BOOLEAN")),
            Expression::Identifier(name) => {
                match self.symbol_table.lookup_variable(name.as_str()) {
                    Some(t) => Ok(t.clone()),
                    None => Err(
                        concat3("❌ CRITICAL ERROR: Variable '", name.as_str(), "' is used before defined."),
                    ),
                }
            },
            Expression::BinaryOperation { left, operator, right } => {
                let lt = match self.analyze_expression(left) {
                    Ok(t) => t,
                    Err(m) => return Err(m),
                };
                let rt = match self.analyze_expression(right) {
                    Ok(t) => t,
                    Err(m) => return Err(m),
                };
                if lt != rt {
                    return Err(
                        concat5(
                            "❌ CRITICAL ERROR: Type mismatch! Cannot operate between '",
                            lt.as_str(),
                            "' and '",
                            rt.as_str(),
                            "'.",
                        ),
                    );
                }
                match operator {
                    Operator::Plus | Operator::Minus | Operator::Multiply | Operator::Divide => {
                        if lt == String::from_str("BOOLEAN") {
                            return Err(String::from_str("❌ CRITICAL ERROR: Cannot do math on Booleans."));
                        }
                        Ok(lt)
                    },
                    _ => Ok(String::from_str("BOOLEAN")),
                }
            },
        }
    }
}

/// Whether no statement declares a transaction, at any depth.
fn declares_nothing(stmts: &Vec<Statement>) -> (r: bool)
    ensures
        r == block_decl_free(stmts_view(stmts@)),
    decreases stmts,
{
    proof {
        lemma_stmts_view(stmts@);
    }
    let ghost ss = stmts_view(stmts@);
    let mut i: usize = 0;
    assert(ss.skip(0) == ss);
    while i < stmts.len()
        invariant
            i <= stmts@.len(),
            ss == stmts_view(stmts@),
            ss.len() == stmts@.len(),
            forall|j: int| 0 <= j < stmts@.len() ==> #[trigger] ss[j] == crate::ast::stmt_view(stmts@[j]),
            block_decl_free(ss) == block_decl_free(ss.skip(i as int)),
        decreases stmts@.len() - i,
    {
        assert(ss.skip(i as int)[0] == ss[i as int]);
        assert(ss.skip(i as int).drop_first() == ss.skip(i + 1));
        if !statement_declares_nothing(&stmts[i]) {
            return false;
        }
        i = i + 1;
    }
    true
}

/// Whether a statement declares no transaction, at any depth.
fn statement_declares_nothing(stmt: &Statement) -> (r: bool)
    ensures
        r == stmt_decl_free(stmt@),
    decreases stmt,
{
    match stmt {
        Statement::TransactionDeclaration { .. } => false,
        Statement::IfStatement { consequence, alternative, .. } => {
            if !declares_nothing(&consequence.statements) {
                return false;
            }
            match alternative {
                Some(alt) => declares_nothing(&alt.statements),
                None => true,
            }
        },
        _ => true,
    }
}

/// A copy of a table of types.
#[verifier::loop_isolation(false)]
fn copy_types(t: &Table<String>) -> (r: Table<String>)
    ensures
        types_of(r@) == types_of(t@),
{
    let entries = t.entries();
    let mut out: Table<String> = Table::new();
    let mut i: usize = 0;
    while i < entries.len()
        invariant
            i <= entries@.len(),
            forall|k: Seq<char>| #[trigger] out@.contains_key(k) <==> exists|j: int| 0 <= j < i && entries@[j].0@ == k,
            forall|k: Seq<char>| #[trigger] out@.contains_key(k) ==> t@.contains_key(k) && out@[k]@ == t@[k]@,
        decreases entries@.len() - i,
    {
        let e = &entries[i];
        assert(t@.contains_key(entries@[i as int].0@));
        out.insert(e.0.clone(), e.1.clone());
        i = i + 1;
    }
    assert(types_of(out@) =~= types_of(t@)) by {
        assert forall|k: Seq<char>| #[trigger] t@.contains_key(k) implies out@.contains_key(k) by {
            let j = choose|j: int| 0 <= j < entries@.len() && entries@[j].0@ == k;
            assert(0 <= j < i && entries@[j].0@ == k);
        }
    }
    out
}

/// The entries of `a` that `b` gives the same type.
#[verifier::loop_isolation(false)]
fn agreed_types(a: &Table<String>, b: &Table<String>) -> (r: Table<String>)
    ensures
        types_of(r@) == agreed(types_of(a@), types_of(b@)),
{
    let entries = a.entries();
    let mut out: Table<String> = Table::new();
    let mut i: usize = 0;
    while i < entries.len()
        invariant
            i <= entries@.len(),
            forall|k: Seq<char>|
                #[trigger] out@.contains_key(k) <==> exists|j: int|
                    0 <= j < i && entries@[j].0@ == k && b@.contains_key(k) && b@[k]@ == entries@[j].1@,
            forall|k: Seq<char>| #[trigger] out@.contains_key(k) ==> a@.contains_key(k) && out@[k]@ == a@[k]@,
        decreases entries@.len() - i,
    {
        let e = &entries[i];
        assert(a@.contains_key(entries@[i as int].0@));
        match b.get(&e.0) {
            Some(t) => {
                if *t == e.1 {
                    out.insert(e.0.clone(), e.1.clone());
                }
            },
            None => {},
        }
        i = i + 1;
    }
    assert(types_of(out@) =~= agreed(types_of(a@), types_of(b@))) by {
        assert forall|k: Seq<char>|
            #[trigger] agreed(types_of(a@), types_of(b@)).contains_key(k) implies out@.contains_key(k) by {
            let j = choose|j: int| 0 <= j < entries@.len() && entries@[j].0@ == k;
            assert(0 <= j < i && entries@[j].0@ == k);
        }
    }
    out
}

} // verus!
