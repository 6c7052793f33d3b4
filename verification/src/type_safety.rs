//! What the audit guarantees of a run: in a program that the auditor approved,
//! every value has the type the auditor gave it, so the machine meets no
//! undefined variable, missing transaction or mixed currencies, calls included;
//! the evaluator, whose calls share one flat memory, is covered for programs
//! that call no transaction.
use crate::ast::{ExprView, Operator, StmtView};
use crate::codegen::{EvRun, EvState, ev_block, ev_boolean_operator_msg, ev_eval, ev_stmt};
use crate::semantic::{
    AuditEventView, AuditState, audit_block, audit_statement, block_decl_free, boolean_type, changed_parameter,
    check_arguments, is_arithmetic, stmt_decl_free, type_of, with_parameters,
};
use crate::server::empty_audit;
use crate::symbol_table::SymbolView;
use crate::value::Value;
use crate::vm::{
    Eval, Globals, Run, VmView, boolean_operator_msg, division_by_zero_msg, vm_bind, vm_call, vm_eval, vm_exec_block,
    vm_exec_stmt, vm_run, write_back,
};
use vstd::prelude::*;

verus! {

/// A value of the type the auditor names: an amount of that currency, or a
/// truth value for the boolean type.
pub open spec fn value_has_type(v: Value, t: Seq<char>) -> bool {
    match v {
        Value::Money { currency, .. } => currency == t && t != boolean_type(),
        Value::Boolean(_) => t == boolean_type(),
    }
}

/// The errors an audited program can still meet at run time: a division by
/// zero, or `<` / `>` between truth values.
pub open spec fn audited_failure(m: Seq<char>) -> bool {
    ||| m == "Division by zero"@
    ||| m == ev_boolean_operator_msg(Operator::LessThan)
    ||| m == ev_boolean_operator_msg(Operator::GreaterThan)
}

/// The memory holds every variable the auditor knows, with the type it gave it,
/// and no asset is named as the boolean type.
pub open spec fn memory_agrees(sym: SymbolView, mem: Map<Seq<char>, Value>) -> bool {
    &&& !sym.assets.contains_key(boolean_type())
    &&& forall|n: Seq<char>|
        #[trigger] sym.variables.contains_key(n) ==> mem.contains_key(n) && value_has_type(
            mem[n],
            sym.variables[n],
        )
}

/// An expression the auditor types evaluates to a value of that type, unless
/// it divides by zero, orders truth values, or overflows.
proof fn lemma_expression_is_type_safe(sym: SymbolView, mem: Map<Seq<char>, Value>, e: ExprView, t: Seq<char>)
    requires
        memory_agrees(sym, mem),
        type_of(sym, e) == Ok::<Seq<char>, Seq<char>>(t),
    ensures
        match ev_eval(mem, e) {
            Eval::Val(v) => value_has_type(v, t),
            Eval::Fail(m) => audited_failure(m),
            Eval::Halt => true,
        },
    decreases e,
{
    match e {
        ExprView::Money { .. } => {},
        ExprView::Boolean(_) => {},
        ExprView::Ident(n) => {},
        ExprView::Binary { left, op, right } => {
            let lt = type_of(sym, *left)->Ok_0;
            let rt = type_of(sym, *right)->Ok_0;
            lemma_expression_is_type_safe(sym, mem, *left, lt);
            lemma_expression_is_type_safe(sym, mem, *right, rt);
            match ev_eval(mem, *left) {
                Eval::Val(lv) => match ev_eval(mem, *right) {
                    Eval::Val(rv) => {
                        match (lv, rv) {
                            (Value::Money { amount: la, currency: lc }, Value::Money { amount: ra, currency: rc }) => {
                                assert(lc == rc);
                                match op {
                                    Operator::Plus => {},
                                    Operator::Minus => {},
                                    Operator::Multiply => {},
                                    Operator::Divide => {},
                                    _ => {},
                                }
                            },
                            (Value::Boolean(_), Value::Boolean(_)) => {
                                assert(!is_arithmetic(op));
                            },
                            _ => {},
                        }
                    },
                    _ => {},
                },
                _ => {},
            }
        },
    }
}

/// A statement that calls no transaction where it runs: not a call itself, and
/// no call in the blocks of an `if`. (A declaration's body runs only when called.)
pub open spec fn stmt_call_free(s: StmtView) -> bool
    decreases s,
{
    match s {
        StmtView::TxCall { .. } => false,
        StmtView::If { consequence, alternative, .. } => block_call_free(consequence) && match alternative {
            Some(alt) => block_call_free(alt),
            None => true,
        },
        _ => true,
    }
}

/// Statements that call no transaction where they run.
pub open spec fn block_call_free(ss: Seq<StmtView>) -> bool
    decreases ss,
{
    ss.len() == 0 || (stmt_call_free(ss[0]) && block_call_free(ss.drop_first()))
}

/// A statement that declares no asset named as the boolean type, at any depth.
pub open spec fn stmt_no_boolean_asset(s: StmtView) -> bool
    decreases s,
{
    match s {
        StmtView::Asset { ticker, .. } => ticker != boolean_type(),
        StmtView::If { consequence, alternative, .. } => block_no_boolean_asset(consequence) && match alternative {
            Some(alt) => block_no_boolean_asset(alt),
            None => true,
        },
        StmtView::TxDecl { body, .. } => block_no_boolean_asset(body),
        _ => true,
    }
}

/// Statements that declare no asset named as the boolean type, at any depth.
pub open spec fn block_no_boolean_asset(ss: Seq<StmtView>) -> bool
    decreases ss,
{
    ss.len() == 0 || (stmt_no_boolean_asset(ss[0]) && block_no_boolean_asset(ss.drop_first()))
}

/// Auditing never registers an asset named as the boolean type.
proof fn lemma_audit_statement_assets(st: AuditState, s: StmtView)
    requires
        !st.sym.assets.contains_key(boolean_type()),
        stmt_no_boolean_asset(s),
    ensures
        !audit_statement(st, s).0.sym.assets.contains_key(boolean_type()),
    decreases s,
{
    match s {
        StmtView::If { condition, consequence, alternative } => {
            lemma_audit_block_assets(st, consequence);
            let st1 = audit_block(st, consequence).0;
            let base = AuditState { sym: SymbolView { variables: st.sym.variables, ..st1.sym }, log: st1.log };
            match alternative {
                Some(alt) => lemma_audit_block_assets(base, alt),
                None => {},
            }
        },
        StmtView::TxDecl { name, parameters, body } => {
            let st1 = AuditState {
                sym: SymbolView {
                    transactions: st.sym.transactions.insert(name, parameters),
                    variables: with_parameters(Map::empty(), parameters),
                    ..st.sym
                },
                log: st.log.push(AuditEventView::TransactionRegistered { name }),
            };
            lemma_audit_block_assets(st1, body);
        },
        _ => {},
    }
}

proof fn lemma_audit_block_assets(st: AuditState, ss: Seq<StmtView>)
    requires
        !st.sym.assets.contains_key(boolean_type()),
        block_no_boolean_asset(ss),
    ensures
        !audit_block(st, ss).0.sym.assets.contains_key(boolean_type()),
    decreases ss,
{
    if ss.len() > 0 {
        lemma_audit_statement_assets(st, ss[0]);
        lemma_audit_block_assets(audit_statement(st, ss[0]).0, ss.drop_first());
    }
}

/// The outcome of running in the evaluator what the audit approved: a failure
/// only of the kinds an audit lets through, and on success a memory that
/// agrees with the auditor's symbol table afterwards.
pub open spec fn ev_outcome_agrees(run: EvRun, after: AuditState) -> bool {
    match run {
        EvRun::Halt => true,
        EvRun::Done { state, result } => match result {
            Ok(()) => memory_agrees(after.sym, state.memory),
            Err(m) => audited_failure(m),
        },
    }
}

proof fn lemma_stmt_is_type_safe(fuel: nat, st: EvState, audit: AuditState, s: StmtView)
    requires
        stmt_call_free(s),
        stmt_no_boolean_asset(s),
        audit_statement(audit, s).1 is Ok,
        memory_agrees(audit.sym, st.memory),
    ensures
        ev_outcome_agrees(ev_stmt(fuel, st, s), audit_statement(audit, s).0),
    decreases s,
{
    match s {
        StmtView::Asset { .. } => {},
        StmtView::Assign { identifier, value } => {
            let t = type_of(audit.sym, value)->Ok_0;
            lemma_expression_is_type_safe(audit.sym, st.memory, value, t);
        },
        StmtView::If { condition, consequence, alternative } => {
            lemma_expression_is_type_safe(audit.sym, st.memory, condition, boolean_type());
            lemma_audit_block_assets(audit, consequence);
            let (st1, r1) = audit_block(audit, consequence);
            let base = AuditState { sym: SymbolView { variables: audit.sym.variables, ..st1.sym }, log: st1.log };
            match alternative {
                Some(alt) => lemma_audit_block_assets(base, alt),
                None => {},
            }
            match ev_eval(st.memory, condition) {
                Eval::Val(Value::Boolean(true)) => {
                    lemma_block_is_type_safe(fuel, st, audit, consequence);
                },
                Eval::Val(Value::Boolean(false)) => {
                    match alternative {
                        Some(alt) => {
                            lemma_block_is_type_safe(fuel, st, base, alt);
                        },
                        None => {},
                    }
                },
                _ => {},
            }
        },
        StmtView::TxDecl { name, parameters, body } => {
            lemma_audit_statement_assets(audit, s);
        },
        _ => {},
    }
}

proof fn lemma_block_is_type_safe(fuel: nat, st: EvState, audit: AuditState, ss: Seq<StmtView>)
    requires
        block_call_free(ss),
        block_no_boolean_asset(ss),
        audit_block(audit, ss).1 is Ok,
        memory_agrees(audit.sym, st.memory),
    ensures
        ev_outcome_agrees(ev_block(fuel, st, ss), audit_block(audit, ss).0),
    decreases ss,
{
    if ss.len() > 0 {
        let (audit1, r) = audit_statement(audit, ss[0]);
        lemma_stmt_is_type_safe(fuel, st, audit, ss[0]);
        match ev_stmt(fuel, st, ss[0]) {
            EvRun::Done { state, result } => {
                if result is Ok {
                    lemma_block_is_type_safe(fuel, state, audit1, ss.drop_first());
                }
            },
            _ => {},
        }
    }
}

/// A program that passes the audit and calls no transaction runs in the
/// evaluator (where a call binds its parameters in the one memory and removes
/// them afterwards, so calls are left out) without an undefined variable, a mix of currencies or a mix of
/// amounts and truth values: it succeeds, stops at a division by zero or at
/// `<` / `>` between truth values, or overflows. (No asset may be named as the
/// boolean type; the lexer's tickers are three bytes long.)
pub proof fn lemma_audited_program_is_type_safe(fuel: nat, prog: Seq<StmtView>)
    requires
        block_call_free(prog),
        block_no_boolean_asset(prog),
        audit_block(empty_audit(), prog).1 is Ok,
    ensures
        match ev_block(fuel, EvState { memory: Map::empty(), vault: Map::empty() }, prog) {
            EvRun::Halt => true,
            EvRun::Done { result, .. } => result is Ok || audited_failure(result->Err_0),
        },
{
    lemma_block_is_type_safe(fuel, EvState { memory: Map::empty(), vault: Map::empty() }, empty_audit(), prog);
}

/// The errors an audited program can still meet in the machine: a division by
/// zero, or an operator other than `==` / `!=` between truth values.
pub open spec fn machine_audited_failure(m: Seq<char>) -> bool {
    m == division_by_zero_msg() || m == boolean_operator_msg()
}

proof fn lemma_machine_expression_is_type_safe(
    sym: SymbolView,
    locals: Map<Seq<char>, Value>,
    e: ExprView,
    t: Seq<char>,
)
    requires
        memory_agrees(sym, locals),
        type_of(sym, e) == Ok::<Seq<char>, Seq<char>>(t),
    ensures
        match vm_eval(locals, e) {
            Eval::Val(v) => value_has_type(v, t),
            Eval::Fail(m) => machine_audited_failure(m),
            Eval::Halt => true,
        },
    decreases e,
{
    match e {
        ExprView::Binary { left, op, right } => {
            let lt = type_of(sym, *left)->Ok_0;
            let rt = type_of(sym, *right)->Ok_0;
            lemma_machine_expression_is_type_safe(sym, locals, *left, lt);
            lemma_machine_expression_is_type_safe(sym, locals, *right, rt);
            match vm_eval(locals, *left) {
                Eval::Val(lv) => match vm_eval(locals, *right) {
                    Eval::Val(rv) => {
                        match (lv, rv) {
                            (Value::Money { currency: lc, .. }, Value::Money { currency: rc, .. }) => {
                                assert(lc == rc);
                            },
                            (Value::Boolean(_), Value::Boolean(_)) => {
                                assert(!is_arithmetic(op));
                            },
                            _ => {},
                        }
                    },
                    _ => {},
                },
                _ => {},
            }
        },
        _ => {},
    }
}


/// `big` knows every asset and transaction that `small` knows, the latter
/// with the same parameters.
pub open spec fn extends(big: SymbolView, small: SymbolView) -> bool {
    &&& forall|a: Seq<char>| #[trigger] small.assets.contains_key(a) ==> big.assets.contains_key(a)
    &&& forall|n: Seq<char>|
        #[trigger] small.transactions.contains_key(n) ==> big.transactions.contains_key(n)
            && big.transactions[n] == small.transactions[n]
}

/// The auditor's state for a body: its parameters alone, with the assets and
/// transactions known.
pub open spec fn body_state(ps: Seq<(Seq<char>, Seq<char>)>, sym: SymbolView) -> AuditState {
    AuditState {
        sym: SymbolView { variables: with_parameters(Map::empty(), ps), ..sym },
        log: Seq::empty(),
    }
}

/// A stored transaction that the audit approves under `sym`: its body declares
/// nothing, names no boolean asset, passes the audit from its parameters alone,
/// and leaves each parameter with its declared type.
pub open spec fn body_ok(ps: Seq<(Seq<char>, Seq<char>)>, body: Seq<StmtView>, sym: SymbolView) -> bool {
    &&& block_decl_free(body)
    &&& block_no_boolean_asset(body)
    &&& audit_block(body_state(ps, sym), body).1 is Ok
    &&& changed_parameter(ps, audit_block(body_state(ps, sym), body).0.sym.variables) is None
}

/// Every transaction the auditor knows is stored on the machine with the same
/// parameters and a body the audit approves.
pub open spec fn funcs_agree(sym: SymbolView, g: Globals) -> bool {
    forall|n: Seq<char>|
        #[trigger] sym.transactions.contains_key(n) ==> {
            &&& g.functions.contains_key(n)
            &&& g.functions[n].parameters == sym.transactions[n]
            &&& body_ok(g.functions[n].parameters, g.functions[n].body, sym)
        }
}

proof fn lemma_extends_trans(a: SymbolView, b: SymbolView, c: SymbolView)
    requires
        extends(a, b),
        extends(b, c),
    ensures
        extends(a, c),
{
    assert forall|x: Seq<char>| #[trigger] c.assets.contains_key(x) implies a.assets.contains_key(x) by {
        assert(b.assets.contains_key(x));
    }
    assert forall|n: Seq<char>| #[trigger] c.transactions.contains_key(n) implies a.transactions.contains_key(n)
        && a.transactions[n] == c.transactions[n] by {
        assert(b.transactions.contains_key(n));
    }
}

/// After an `if` the auditor knows at least what it knew after the consequence.
proof fn lemma_if_extends_consequence(audit: AuditState, s: StmtView)
    requires
        s is If,
        audit_statement(audit, s).1 is Ok,
    ensures
        ({
            let (c, cons, alt) = match s {
                StmtView::If { condition, consequence, alternative } => (condition, consequence, alternative),
                _ => (ExprView::Boolean(true), Seq::empty(), None),
            };
            &&& extends(audit_statement(audit, s).0.sym, audit_block(audit, cons).0.sym)
            &&& extends(audit_block(audit, cons).0.sym, audit.sym)
        }),
    decreases s, 0nat,
{
    match s {
        StmtView::If { condition, consequence, alternative } => {
            lemma_audit_block_grows(audit, consequence);
            let st1 = audit_block(audit, consequence).0;
            let base = AuditState { sym: SymbolView { variables: audit.sym.variables, ..st1.sym }, log: st1.log };
            assert(extends(base.sym, st1.sym));
            match alternative {
                Some(alt) => {
                    lemma_audit_block_grows(base, alt);
                    let st2 = audit_block(base, alt).0;
                    let after = audit_statement(audit, s).0;
                    assert(extends(after.sym, st2.sym));
                    lemma_extends_trans(after.sym, st2.sym, base.sym);
                    lemma_extends_trans(after.sym, base.sym, st1.sym);
                },
                None => {
                    let after = audit_statement(audit, s).0;
                    assert(extends(after.sym, base.sym));
                    lemma_extends_trans(after.sym, base.sym, st1.sym);
                },
            }
        },
        _ => {},
    }
}

proof fn lemma_type_of_extends(small: SymbolView, big: SymbolView, e: ExprView)
    requires
        extends(big, small),
        big.variables == small.variables,
        type_of(small, e) is Ok,
    ensures
        type_of(big, e) == type_of(small, e),
    decreases e,
{
    match e {
        ExprView::Binary { left, right, .. } => {
            lemma_type_of_extends(small, big, *left);
            lemma_type_of_extends(small, big, *right);
        },
        _ => {},
    }
}

proof fn lemma_check_arguments_extends(
    small: SymbolView,
    big: SymbolView,
    sig: Seq<(Seq<char>, Seq<char>)>,
    args: Seq<ExprView>,
    i: nat,
)
    requires
        extends(big, small),
        big.variables == small.variables,
        check_arguments(small, sig, args, i) is Ok,
    ensures
        check_arguments(big, sig, args, i) is Ok,
    decreases args.len() - i,
{
    if i < args.len() && i < sig.len() {
        lemma_type_of_extends(small, big, args[i as int]);
        lemma_check_arguments_extends(small, big, sig, args, i + 1);
    }
}

/// A declaration-free audit that passes with fewer assets and transactions
/// passes with more, ending with the same variables.
proof fn lemma_audit_statement_extends(st: AuditState, big: AuditState, s: StmtView)
    requires
        stmt_decl_free(s),
        extends(big.sym, st.sym),
        big.sym.variables == st.sym.variables,
        audit_statement(st, s).1 is Ok,
    ensures
        audit_statement(big, s).1 is Ok,
        audit_statement(big, s).0.sym.variables == audit_statement(st, s).0.sym.variables,
        extends(audit_statement(big, s).0.sym, audit_statement(st, s).0.sym),
    decreases s,
{
    match s {
        StmtView::Assign { value, .. } => {
            lemma_type_of_extends(st.sym, big.sym, value);
        },
        StmtView::If { condition, consequence, alternative } => {
            lemma_type_of_extends(st.sym, big.sym, condition);
            lemma_audit_block_extends(st, big, consequence);
            let st1 = audit_block(st, consequence).0;
            let big1 = audit_block(big, consequence).0;
            let base = AuditState { sym: SymbolView { variables: st.sym.variables, ..st1.sym }, log: st1.log };
            let bbase = AuditState { sym: SymbolView { variables: big.sym.variables, ..big1.sym }, log: big1.log };
            match alternative {
                Some(alt) => {
                    lemma_audit_block_extends(base, bbase, alt);
                },
                None => {},
            }
        },
        StmtView::TxCall { name, arguments } => {
            let sig = st.sym.transactions[name];
            lemma_check_arguments_extends(st.sym, big.sym, sig, arguments, 0);
        },
        _ => {},
    }
}

proof fn lemma_audit_block_extends(st: AuditState, big: AuditState, ss: Seq<StmtView>)
    requires
        block_decl_free(ss),
        extends(big.sym, st.sym),
        big.sym.variables == st.sym.variables,
        audit_block(st, ss).1 is Ok,
    ensures
        audit_block(big, ss).1 is Ok,
        audit_block(big, ss).0.sym.variables == audit_block(st, ss).0.sym.variables,
        extends(audit_block(big, ss).0.sym, audit_block(st, ss).0.sym),
    decreases ss,
{
    if ss.len() > 0 {
        lemma_audit_statement_extends(st, big, ss[0]);
        lemma_audit_block_extends(audit_statement(st, ss[0]).0, audit_statement(big, ss[0]).0, ss.drop_first());
    }
}

/// An audit that passes only adds assets and transactions; without
/// declarations it keeps the transactions as they were.
proof fn lemma_audit_statement_grows(st: AuditState, s: StmtView)
    requires
        audit_statement(st, s).1 is Ok,
    ensures
        extends(audit_statement(st, s).0.sym, st.sym),
        stmt_decl_free(s) ==> audit_statement(st, s).0.sym.transactions == st.sym.transactions,
    decreases s, 1nat,
{
    match s {
        StmtView::If { condition, consequence, alternative } => {
            lemma_audit_block_grows(st, consequence);
            let st1 = audit_block(st, consequence).0;
            let base = AuditState { sym: SymbolView { variables: st.sym.variables, ..st1.sym }, log: st1.log };
            match alternative {
                Some(alt) => lemma_audit_block_grows(base, alt),
                None => {},
            }
            lemma_if_extends_consequence(st, s);
            assert(extends(audit_statement(st, s).0.sym, st1.sym));
            assert(extends(st1.sym, st.sym));
            lemma_extends_trans(audit_statement(st, s).0.sym, st1.sym, st.sym);
        },
        StmtView::TxDecl { name, parameters, body } => {
            let st1 = AuditState {
                sym: SymbolView {
                    transactions: st.sym.transactions.insert(name, parameters),
                    variables: with_parameters(Map::empty(), parameters),
                    ..st.sym
                },
                log: st.log.push(AuditEventView::TransactionRegistered { name }),
            };
            lemma_audit_block_grows(st1, body);
            let after = audit_statement(st, s).0;
            assert(extends(after.sym, st1.sym));
            assert(extends(st1.sym, st.sym));
            lemma_extends_trans(after.sym, st1.sym, st.sym);
        },
        _ => {},
    }
}

proof fn lemma_audit_block_grows(st: AuditState, ss: Seq<StmtView>)
    requires
        audit_block(st, ss).1 is Ok,
    ensures
        extends(audit_block(st, ss).0.sym, st.sym),
        block_decl_free(ss) ==> audit_block(st, ss).0.sym.transactions == st.sym.transactions,
    decreases ss, 0nat,
{
    if ss.len() > 0 {
        lemma_audit_statement_grows(st, ss[0]);
        lemma_audit_block_grows(audit_statement(st, ss[0]).0, ss.drop_first());
    }
}

proof fn lemma_body_ok_extends(ps: Seq<(Seq<char>, Seq<char>)>, body: Seq<StmtView>, small: SymbolView, big: SymbolView)
    requires
        body_ok(ps, body, small),
        extends(big, small),
    ensures
        body_ok(ps, body, big),
{
    lemma_audit_block_extends(body_state(ps, small), body_state(ps, big), body);
}

proof fn lemma_funcs_agree_extends(small: SymbolView, big: SymbolView, g: Globals)
    requires
        funcs_agree(small, g),
        extends(big, small),
        big.transactions == small.transactions,
    ensures
        funcs_agree(big, g),
{
    assert forall|n: Seq<char>| #[trigger] big.transactions.contains_key(n) implies {
        &&& g.functions.contains_key(n)
        &&& g.functions[n].parameters == big.transactions[n]
        &&& body_ok(g.functions[n].parameters, g.functions[n].body, big)
    } by {
        assert(small.transactions.contains_key(n));
        lemma_body_ok_extends(g.functions[n].parameters, g.functions[n].body, small, big);
    }
}

/// The outcome of running on the machine what the audit approved.
pub open spec fn vm_outcome_agrees(run: Run, g: Globals, after: AuditState, decl_free: bool) -> bool {
    match run {
        Run::Halt => true,
        Run::Done { globals, locals, result } => {
            &&& decl_free ==> globals.functions == g.functions
            &&& match result {
                Ok(()) => memory_agrees(after.sym, locals) && funcs_agree(after.sym, globals),
                Err(m) => machine_audited_failure(m),
            }
        },
    }
}

/// Binding audited arguments: a failure the audit lets through, or a frame
/// holding each parameter with its type and write-backs from accounts of the
/// parameters' types.
proof fn lemma_machine_bind(
    sym: SymbolView,
    locals: Map<Seq<char>, Value>,
    ps: Seq<(Seq<char>, Seq<char>)>,
    args: Seq<ExprView>,
    i: nat,
    frame: Map<Seq<char>, Value>,
    wb: Seq<(Seq<char>, Seq<char>)>,
)
    requires
        memory_agrees(sym, locals),
        ps.len() == args.len(),
        i <= args.len(),
        check_arguments(sym, ps, args, i) is Ok,
        memory_agrees(SymbolView { variables: with_parameters(Map::empty(), ps.take(i as int)), ..sym }, frame),
        forall|j: int|
            0 <= j < wb.len() ==> exists|k: int|
                0 <= k < ps.len() && #[trigger] wb[j].1 == ps[k].0 && locals.contains_key(wb[j].0)
                    && value_has_type(locals[wb[j].0], ps[k].1) && sym.variables.contains_key(wb[j].0)
                    && sym.variables[wb[j].0] == ps[k].1,
    ensures
        match vm_bind(locals, ps, args, i, frame, wb) {
            crate::vm::Bind::Halt => true,
            crate::vm::Bind::Fail(m) => machine_audited_failure(m),
            crate::vm::Bind::Bound { frame: f, write_backs: w } => {
                &&& memory_agrees(SymbolView { variables: with_parameters(Map::empty(), ps), ..sym }, f)
                &&& forall|j: int|
                    0 <= j < w.len() ==> exists|k: int|
                        0 <= k < ps.len() && #[trigger] w[j].1 == ps[k].0 && locals.contains_key(w[j].0)
                            && value_has_type(locals[w[j].0], ps[k].1) && sym.variables.contains_key(w[j].0)
                            && sym.variables[w[j].0] == ps[k].1
            },
        },
    decreases args.len() - i,
{
    if i < args.len() {
        let t = ps[i as int].1;
        let p = ps[i as int].0;
        assert(type_of(sym, args[i as int]) == Ok::<Seq<char>, Seq<char>>(t));
        lemma_machine_expression_is_type_safe(sym, locals, args[i as int], t);
        match vm_eval(locals, args[i as int]) {
            Eval::Val(v) => {
                let wb2 = match args[i as int] {
                    ExprView::Ident(orig) => wb.push((orig, p)),
                    _ => wb,
                };
                assert(ps.take((i + 1) as int).drop_last() == ps.take(i as int));
                assert(ps.take((i + 1) as int).last() == ps[i as int]);
                let f2 = frame.insert(p, v);
                assert(value_has_type(v, t));
                assert(with_parameters(Map::empty(), ps.take((i + 1) as int)) == with_parameters(
                    Map::empty(),
                    ps.take(i as int),
                ).insert(p, t));
                let vars_i = with_parameters(Map::empty(), ps.take(i as int));
                let vars_n = with_parameters(Map::empty(), ps.take((i + 1) as int));
                assert forall|n: Seq<char>| #[trigger] vars_n.contains_key(n) implies f2.contains_key(n)
                    && value_has_type(f2[n], vars_n[n]) by {
                    if n != p {
                        assert(vars_i.contains_key(n));
                        let sv = SymbolView { variables: vars_i, ..sym };
                        assert(sv.variables.contains_key(n));
                        assert(frame.contains_key(n) && value_has_type(frame[n], vars_i[n]));
                        assert(vars_n[n] == vars_i[n]);
                    } else {
                        assert(vars_n[n] == t);
                        assert(f2[n] == v);
                    }
                }
                assert(memory_agrees(SymbolView { variables: vars_n, ..sym }, f2));
                assert forall|j: int|
                    0 <= j < wb2.len() implies exists|k: int|
                        0 <= k < ps.len() && #[trigger] wb2[j].1 == ps[k].0 && locals.contains_key(wb2[j].0)
                            && value_has_type(locals[wb2[j].0], ps[k].1) && sym.variables.contains_key(wb2[j].0)
                            && sym.variables[wb2[j].0] == ps[k].1 by {
                    if j < wb.len() {
                        assert(wb2[j] == wb[j]);
                    } else {
                        assert(0 <= i < ps.len() && wb2[j].1 == ps[i as int].0);
                    }
                }
                lemma_machine_bind(sym, locals, ps, args, i + 1, f2, wb2);
            },
            _ => {},
        }
    } else {
        assert(ps.take(i as int) == ps);
    }
}

/// Writing audited parameters back keeps every account at its type.
proof fn lemma_machine_write_back(
    sym: SymbolView,
    locals: Map<Seq<char>, Value>,
    frame: Map<Seq<char>, Value>,
    ps: Seq<(Seq<char>, Seq<char>)>,
    wb: Seq<(Seq<char>, Seq<char>)>,
    body_sym: SymbolView,
)
    requires
        memory_agrees(sym, locals),
        memory_agrees(body_sym, frame),
        changed_parameter(ps, body_sym.variables) is None,
        forall|j: int|
            0 <= j < wb.len() ==> exists|k: int|
                0 <= k < ps.len() && #[trigger] wb[j].1 == ps[k].0 && locals.contains_key(wb[j].0)
                    && value_has_type(locals[wb[j].0], ps[k].1) && sym.variables.contains_key(wb[j].0)
                    && sym.variables[wb[j].0] == ps[k].1,
    ensures
        memory_agrees(sym, write_back(locals, frame, wb)),
    decreases wb.len(),
{
    if wb.len() > 0 {
        let w = wb.drop_last();
        assert forall|j: int|
            0 <= j < w.len() implies exists|k: int|
                0 <= k < ps.len() && #[trigger] w[j].1 == ps[k].0 && locals.contains_key(w[j].0)
                    && value_has_type(locals[w[j].0], ps[k].1) && sym.variables.contains_key(w[j].0)
                    && sym.variables[w[j].0] == ps[k].1 by {
            assert(w[j] == wb[j]);
        }
        lemma_machine_write_back(sym, locals, frame, ps, w, body_sym);
        let (orig, p) = wb.last();
        let j = wb.len() - 1;
        assert(wb[j] == wb.last());
        let k = choose|k: int|
            0 <= k < ps.len() && #[trigger] wb[j].1 == ps[k].0 && locals.contains_key(wb[j].0) && value_has_type(
                locals[wb[j].0],
                ps[k].1,
            ) && sym.variables.contains_key(wb[j].0) && sym.variables[wb[j].0] == ps[k].1;
        lemma_changed_parameter_none(ps, body_sym.variables, k);
        assert(body_sym.variables.contains_key(p));
    }
}

proof fn lemma_changed_parameter_none(ps: Seq<(Seq<char>, Seq<char>)>, vars: Map<Seq<char>, Seq<char>>, k: int)
    requires
        changed_parameter(ps, vars) is None,
        0 <= k < ps.len(),
    ensures
        vars.contains_key(ps[k].0),
        vars[ps[k].0] == ps[k].1,
    decreases ps.len(),
{
    if k > 0 {
        assert(ps.drop_first()[k - 1] == ps[k]);
        lemma_changed_parameter_none(ps.drop_first(), vars, k - 1);
    }
}

proof fn lemma_machine_call_is_type_safe(
    fuel: nat,
    g: Globals,
    locals: Map<Seq<char>, Value>,
    audit: AuditState,
    s: StmtView,
)
    requires
        s is TxCall,
        audit_statement(audit, s).1 is Ok,
        memory_agrees(audit.sym, locals),
        funcs_agree(audit.sym, g),
    ensures
        vm_outcome_agrees(vm_call(fuel, g, locals, s), g, audit_statement(audit, s).0, true),
    decreases fuel, s, 0nat,
{
    let (name, args) = match s {
        StmtView::TxCall { name, arguments } => (name, arguments),
        _ => (Seq::empty(), Seq::empty()),
    };
    let sig = audit.sym.transactions[name];
    let f = g.functions[name];
    let ps = f.parameters;
    lemma_machine_bind(audit.sym, locals, ps, args, 0, Map::empty(), Seq::empty());
    match vm_bind(locals, ps, args, 0, Map::empty(), Seq::empty()) {
        crate::vm::Bind::Bound { frame, write_backs } => {
            if fuel > 0 {
                let bs = body_state(ps, audit.sym);
                assert(bs.sym == SymbolView { variables: with_parameters(Map::empty(), ps), ..audit.sym });
                assert(funcs_agree(bs.sym, g));
                lemma_machine_block_is_type_safe((fuel - 1) as nat, g, frame, bs, f.body);
                match vm_exec_block((fuel - 1) as nat, g, frame, f.body) {
                    Run::Done { globals: g2, locals: frame2, result } => {
                        if result is Ok {
                            let after = audit_block(bs, f.body).0;
                            lemma_machine_write_back(audit.sym, locals, frame2, ps, write_backs, after.sym);
                            let g3 = Globals { transactions: crate::vm::next_count(g2.transactions), ..g2 };
                            assert(g3.functions == g.functions);
                            assert(funcs_agree(audit.sym, g3));
                        }
                    },
                    _ => {},
                }
            }
        },
        _ => {},
    }
}

proof fn lemma_machine_stmt_is_type_safe(
    fuel: nat,
    g: Globals,
    locals: Map<Seq<char>, Value>,
    audit: AuditState,
    s: StmtView,
)
    requires
        stmt_no_boolean_asset(s),
        audit_statement(audit, s).1 is Ok,
        memory_agrees(audit.sym, locals),
        funcs_agree(audit.sym, g),
    ensures
        vm_outcome_agrees(vm_exec_stmt(fuel, g, locals, s), g, audit_statement(audit, s).0, stmt_decl_free(s)),
    decreases fuel, s, 1nat,
{
    lemma_audit_statement_grows(audit, s);
    match s {
        StmtView::Asset { ticker, precision } => {
            lemma_funcs_agree_extends(audit.sym, audit_statement(audit, s).0.sym, g);
            let g1 = Globals { assets: g.assets.insert(ticker, precision), ..g };
            assert(g1.functions == g.functions);
        },
        StmtView::Assign { identifier, value } => {
            let t = type_of(audit.sym, value)->Ok_0;
            lemma_machine_expression_is_type_safe(audit.sym, locals, value, t);
        },
        StmtView::If { condition, consequence, alternative } => {
            lemma_machine_expression_is_type_safe(audit.sym, locals, condition, boolean_type());
            lemma_audit_block_assets(audit, consequence);
            lemma_audit_block_grows(audit, consequence);
            let (st1, r1) = audit_block(audit, consequence);
            let base = AuditState { sym: SymbolView { variables: audit.sym.variables, ..st1.sym }, log: st1.log };
            let after = audit_statement(audit, s).0;
            match alternative {
                Some(alt) => {
                    lemma_audit_block_assets(base, alt);
                    lemma_audit_block_grows(base, alt);
                },
                None => {},
            }
            match vm_eval(locals, condition) {
                Eval::Val(Value::Boolean(true)) => {
                    lemma_machine_block_is_type_safe(fuel, g, locals, audit, consequence);
                    match vm_exec_block(fuel, g, locals, consequence) {
                        Run::Done { globals, result, .. } => {
                            if result is Ok {
                                lemma_if_extends_consequence(audit, s);
                                lemma_funcs_agree_extends(st1.sym, after.sym, globals);
                            }
                        },
                        _ => {},
                    }
                },
                Eval::Val(Value::Boolean(false)) => {
                    match alternative {
                        Some(alt) => {
                            lemma_funcs_agree_extends(audit.sym, base.sym, g);
                            lemma_machine_block_is_type_safe(fuel, g, locals, base, alt);
                        },
                        None => {
                            lemma_funcs_agree_extends(audit.sym, after.sym, g);
                        },
                    }
                },
                _ => {},
            }
        },
        StmtView::TxDecl { name, parameters, body } => {
            lemma_audit_statement_assets(audit, s);
            let st1 = AuditState {
                sym: SymbolView {
                    transactions: audit.sym.transactions.insert(name, parameters),
                    variables: with_parameters(Map::empty(), parameters),
                    ..audit.sym
                },
                log: audit.log.push(AuditEventView::TransactionRegistered { name }),
            };
            let after = audit_statement(audit, s).0;
            lemma_audit_block_grows(st1, body);
            let sym1 = SymbolView { transactions: audit.sym.transactions.insert(name, parameters), ..audit.sym };
            assert(st1.sym == body_state(parameters, sym1).sym);
            lemma_audit_block_extends(st1, body_state(parameters, sym1), body);
            lemma_audit_block_extends(body_state(parameters, sym1), st1, body);
            assert(body_ok(parameters, body, sym1));
            assert(extends(after.sym, sym1));
            lemma_body_ok_extends(parameters, body, sym1, after.sym);
            let fv = crate::vm::FunctionView { name, parameters, body, locals_count: parameters.len() };
            let g1 = Globals { functions: g.functions.insert(name, fv), ..g };
            assert forall|n: Seq<char>| #[trigger] after.sym.transactions.contains_key(n) implies {
                &&& g1.functions.contains_key(n)
                &&& g1.functions[n].parameters == after.sym.transactions[n]
                &&& body_ok(g1.functions[n].parameters, g1.functions[n].body, after.sym)
            } by {
                if n != name {
                    assert(audit.sym.transactions.contains_key(n));
                    lemma_body_ok_extends(g.functions[n].parameters, g.functions[n].body, audit.sym, after.sym);
                }
            }
        },
        StmtView::TxCall { .. } => {
            lemma_machine_call_is_type_safe(fuel, g, locals, audit, s);
        },
    }
}

proof fn lemma_machine_block_is_type_safe(
    fuel: nat,
    g: Globals,
    locals: Map<Seq<char>, Value>,
    audit: AuditState,
    ss: Seq<StmtView>,
)
    requires
        block_no_boolean_asset(ss),
        audit_block(audit, ss).1 is Ok,
        memory_agrees(audit.sym, locals),
        funcs_agree(audit.sym, g),
    ensures
        vm_outcome_agrees(vm_exec_block(fuel, g, locals, ss), g, audit_block(audit, ss).0, block_decl_free(ss)),
    decreases fuel, ss, 0nat,
{
    if ss.len() > 0 {
        let (audit1, r) = audit_statement(audit, ss[0]);
        lemma_machine_stmt_is_type_safe(fuel, g, locals, audit, ss[0]);
        match vm_exec_stmt(fuel, g, locals, ss[0]) {
            Run::Done { globals, locals: l1, result } => {
                if result is Ok {
                    lemma_machine_block_is_type_safe(fuel, globals, l1, audit1, ss.drop_first());
                }
            },
            _ => {},
        }
    }
}

/// A program that passes the audit runs on a machine with an empty memory and
/// no stored transactions without an undefined variable, a missing
/// transaction, a mix of currencies or a mix of amounts and truth values: it
/// succeeds, stops at a division by zero or at an ordering of truth values, or
/// overflows. Transactions may be called: each body runs in a frame holding its
/// parameters alone, as the audit checked it. (No asset may be named as the
/// boolean type; the lexer's tickers are three bytes long.)
pub proof fn lemma_audited_program_is_type_safe_on_the_machine(fuel: nat, v: VmView, prog: Seq<StmtView>)
    requires
        block_no_boolean_asset(prog),
        audit_block(empty_audit(), prog).1 is Ok,
        v.memory == Map::<Seq<char>, Value>::empty(),
    ensures
        match vm_run(fuel, v, prog) {
            None => true,
            Some((_, result)) => result is Ok || machine_audited_failure(result->Err_0),
        },
{
    lemma_machine_block_is_type_safe(fuel, v.globals, v.memory, empty_audit(), prog);
}

} // verus!
