//! What holds of the language across its parts: currencies never mix, the
//! auditor enforces transaction signatures, calls change only what they are
//! handed by name.
use crate::ast::{ExprView, Operator, StmtView};
use crate::codegen::{
    EvRun, EvState, accounts, ev_binary_op, ev_cleanup, ev_currency_mismatch_msg, ev_eval, ev_stmt, ev_write_back,
};
use crate::lexer::{classify_word, number_end, number_value, scan, skip_trivia, without_commas};
use crate::text::{ascii_upper, is_ascii_digit, is_ascii_letter};
use crate::token::TokenView;
use crate::money::{Amount, decimal_quotient};
use crate::semantic::{
    AuditEventView, AuditState, audit_statement, boolean_math_msg, boolean_type, check_arguments, if_condition_msg,
    is_arithmetic, type_mismatch_msg, type_of,
};
use crate::symbol_table::SymbolView;
use crate::value::Value;
use crate::vm::{
    Bind, Eval, Globals, Run, VmView, currency_mismatch_msg, division_by_zero_msg, money_or_halt, vm_binary_op,
    vm_bind, vm_call, vm_eval, vm_exec_block, vm_exec_stmt, vm_run, write_back,
};
use vstd::prelude::*;

verus! {

/// The machine never mixes currencies: an operation that yields an amount had
/// two amounts of that same currency as operands.
pub proof fn lemma_vm_result_keeps_currency(l: Value, r: Value, op: Operator, amount: Amount, currency: Seq<char>)
    requires
        vm_binary_op(l, r, op) == Eval::Val(Value::Money { amount, currency }),
    ensures
        l matches Value::Money { currency: lc, .. } && lc == currency,
        r matches Value::Money { currency: rc, .. } && rc == currency,
{
}

/// The machine refuses every operation, comparisons included, between two
/// currencies, and says which amounts it refused.
pub proof fn lemma_vm_rejects_mixed_currencies(a: Amount, lc: Seq<char>, b: Amount, rc: Seq<char>, op: Operator)
    requires
        lc != rc,
    ensures
        vm_binary_op(Value::Money { amount: a, currency: lc }, Value::Money { amount: b, currency: rc }, op)
            == Eval::Fail(currency_mismatch_msg(a, lc, b, rc)),
{
}

/// The machine refuses to divide by zero.
pub proof fn lemma_vm_rejects_division_by_zero(a: Amount, b: Amount, c: Seq<char>)
    requires
        b.same_value(Amount::zero_spec()),
    ensures
        vm_binary_op(Value::Money { amount: a, currency: c }, Value::Money { amount: b, currency: c }, Operator::Divide)
            == Eval::Fail(division_by_zero_msg()),
{
}

/// The evaluator refuses every operation, comparisons included, between two currencies.
pub proof fn lemma_evaluator_rejects_mixed_currencies(a: Amount, lc: Seq<char>, b: Amount, rc: Seq<char>, op: Operator)
    requires
        lc != rc,
    ensures
        ev_binary_op(Value::Money { amount: a, currency: lc }, Value::Money { amount: b, currency: rc }, op)
            == Eval::Fail(ev_currency_mismatch_msg(op, lc, rc)),
{
}

/// The evaluator never mixes currencies either.
pub proof fn lemma_evaluator_result_keeps_currency(l: Value, r: Value, op: Operator, amount: Amount, currency: Seq<char>)
    requires
        ev_binary_op(l, r, op) == Eval::Val(Value::Money { amount, currency }),
    ensures
        l matches Value::Money { currency: lc, .. } && lc == currency,
        r matches Value::Money { currency: rc, .. } && rc == currency,
{
}

/// The evaluator refuses to divide by zero.
pub proof fn lemma_evaluator_rejects_division_by_zero(a: Amount, b: Amount, c: Seq<char>)
    requires
        b.same_value(Amount::zero_spec()),
    ensures
        ev_binary_op(Value::Money { amount: a, currency: c }, Value::Money { amount: b, currency: c }, Operator::Divide)
            == Eval::Fail("Division by zero"@),
{
}

/// The auditor rejects an operation between operands of two types, such as two currencies.
pub proof fn lemma_audit_rejects_type_mismatch(
    sym: SymbolView,
    left: ExprView,
    op: Operator,
    right: ExprView,
    lt: Seq<char>,
    rt: Seq<char>,
)
    requires
        type_of(sym, left) == Ok::<Seq<char>, Seq<char>>(lt),
        type_of(sym, right) == Ok::<Seq<char>, Seq<char>>(rt),
        lt != rt,
    ensures
        type_of(sym, ExprView::Binary { left: Box::new(left), op, right: Box::new(right) })
            == Err::<Seq<char>, Seq<char>>(type_mismatch_msg(lt, rt)),
{
}

/// The auditor rejects arithmetic on truth values.
pub proof fn lemma_audit_rejects_boolean_math(sym: SymbolView, left: ExprView, op: Operator, right: ExprView)
    requires
        type_of(sym, left) == Ok::<Seq<char>, Seq<char>>(boolean_type()),
        type_of(sym, right) == Ok::<Seq<char>, Seq<char>>(boolean_type()),
        is_arithmetic(op),
    ensures
        type_of(sym, ExprView::Binary { left: Box::new(left), op, right: Box::new(right) })
            == Err::<Seq<char>, Seq<char>>(boolean_math_msg()),
{
}

proof fn lemma_check_arguments_ok(sym: SymbolView, sig: Seq<(Seq<char>, Seq<char>)>, args: Seq<ExprView>, i: nat)
    requires
        check_arguments(sym, sig, args, i) is Ok,
        sig.len() == args.len(),
    ensures
        forall|j: int| i <= j < args.len() ==> type_of(sym, #[trigger] args[j]) == Ok::<Seq<char>, Seq<char>>(
            sig[j].1,
        ),
    decreases args.len() - i,
{
    if i < args.len() {
        lemma_check_arguments_ok(sym, sig, args, i + 1);
        let t = type_of(sym, args[i as int]);
        assert(t is Ok);
        assert(t == Ok::<Seq<char>, Seq<char>>(sig[i as int].1));
    }
}

proof fn lemma_check_arguments_typed(sym: SymbolView, sig: Seq<(Seq<char>, Seq<char>)>, args: Seq<ExprView>, i: nat)
    requires
        sig.len() == args.len(),
        forall|j: int| i <= j < args.len() ==> type_of(sym, #[trigger] args[j]) == Ok::<Seq<char>, Seq<char>>(
            sig[j].1,
        ),
    ensures
        check_arguments(sym, sig, args, i) is Ok,
    decreases args.len() - i,
{
    if i < args.len() {
        assert(type_of(sym, args[i as int]) == Ok::<Seq<char>, Seq<char>>(sig[i as int].1));
        lemma_check_arguments_typed(sym, sig, args, i + 1);
    }
}

/// The auditor approves a call exactly when the transaction is declared, is
/// given as many arguments as it has parameters, and each argument has the type
/// its parameter requires; an approved call only adds its event to the log, and
/// a refused one changes nothing.
pub proof fn lemma_audit_enforces_signatures(st: AuditState, name: Seq<char>, args: Seq<ExprView>)
    ensures
        ({
            let (after, r) = audit_statement(st, StmtView::TxCall { name, arguments: args });
            &&& r is Ok <==> {
                &&& st.sym.transactions.contains_key(name)
                &&& st.sym.transactions[name].len() == args.len()
                &&& forall|j: int|
                    0 <= j < args.len() ==> type_of(st.sym, #[trigger] args[j]) == Ok::<Seq<char>, Seq<char>>(
                        st.sym.transactions[name][j].1,
                    )
            }
            &&& r is Ok ==> after == AuditState { log: st.log.push(AuditEventView::CallValidated { name }), ..st }
            &&& r is Err ==> after == st
        }),
{
    if st.sym.transactions.contains_key(name) && st.sym.transactions[name].len() == args.len() {
        let sig = st.sym.transactions[name];
        if check_arguments(st.sym, sig, args, 0) is Ok {
            lemma_check_arguments_ok(st.sym, sig, args, 0);
        } else if forall|j: int|
            0 <= j < args.len() ==> type_of(st.sym, #[trigger] args[j]) == Ok::<Seq<char>, Seq<char>>(sig[j].1) {
            lemma_check_arguments_typed(st.sym, sig, args, 0);
        }
    }
}

/// An assignment in the auditor: the variable takes the expression's type, or
/// the expression's error stops the audit and nothing changes.
pub proof fn lemma_audit_assignment(st: AuditState, id: Seq<char>, e: ExprView)
    ensures
        audit_statement(st, StmtView::Assign { identifier: id, value: e }) == match type_of(st.sym, e) {
            Ok(t) => (
                AuditState {
                    sym: SymbolView { variables: st.sym.variables.insert(id, t), ..st.sym },
                    log: st.log.push(AuditEventView::AssignmentValidated { identifier: id, value_type: t }),
                },
                Ok::<(), Seq<char>>(()),
            ),
            Err(m) => (st, Err(m)),
        },
{
}

/// An `if` whose condition is not a truth value is refused with its type
/// named, before either branch is audited.
pub proof fn lemma_audit_rejects_non_boolean_condition(
    st: AuditState,
    c: ExprView,
    cons: Seq<StmtView>,
    alt: Option<Seq<StmtView>>,
    t: Seq<char>,
)
    requires
        type_of(st.sym, c) == Ok::<Seq<char>, Seq<char>>(t),
        t != boolean_type(),
    ensures
        audit_statement(st, StmtView::If { condition: c, consequence: cons, alternative: alt }) == (
            st,
            Err::<(), Seq<char>>(if_condition_msg(t)),
        ),
{
}

/// The auditor types an operation: operands of two types are refused;
/// arithmetic keeps the operands' type, except on truth values, which it
/// refuses; a comparison gives a truth value.
pub proof fn lemma_audit_types_operations(sym: SymbolView, left: ExprView, op: Operator, right: ExprView)
    requires
        type_of(sym, left) is Ok,
        type_of(sym, right) is Ok,
    ensures
        ({
            let lt = type_of(sym, left)->Ok_0;
            let rt = type_of(sym, right)->Ok_0;
            type_of(sym, ExprView::Binary { left: Box::new(left), op, right: Box::new(right) }) == if lt != rt {
                Err(type_mismatch_msg(lt, rt))
            } else if is_arithmetic(op) {
                if lt == boolean_type() {
                    Err(boolean_math_msg())
                } else {
                    Ok(lt)
                }
            } else {
                Ok(boolean_type())
            }
        }),
{
}

/// An assignment in the evaluator: the variable takes the expression's value,
/// or the expression's error stops the run and nothing changes.
pub proof fn lemma_evaluator_assignment(fuel: nat, st: EvState, id: Seq<char>, e: ExprView)
    ensures
        ev_stmt(fuel, st, StmtView::Assign { identifier: id, value: e }) == match ev_eval(st.memory, e) {
            Eval::Val(v) => EvRun::Done {
                state: EvState { memory: st.memory.insert(id, v), ..st },
                result: Ok::<(), Seq<char>>(()),
            },
            Eval::Fail(m) => EvRun::Done { state: st, result: Err(m) },
            Eval::Halt => EvRun::Halt,
        },
{
}

/// In the evaluator, an operation between two amounts of different currencies
/// fails, whatever the operator, with a message that names both currencies.
pub proof fn lemma_evaluator_expression_rejects_mixed_currencies(
    mem: Map<Seq<char>, Value>,
    l: ExprView,
    op: Operator,
    r: ExprView,
)
    requires
        ev_eval(mem, l) matches Eval::Val(Value::Money { .. }),
        ev_eval(mem, r) matches Eval::Val(Value::Money { .. }),
        ev_eval(mem, l)->Val_0->currency != ev_eval(mem, r)->Val_0->currency,
    ensures
        ev_eval(mem, ExprView::Binary { left: Box::new(l), op, right: Box::new(r) }) == Eval::Fail(
            ev_currency_mismatch_msg(op, ev_eval(mem, l)->Val_0->currency, ev_eval(mem, r)->Val_0->currency),
        ),
{
}

/// In the evaluator, dividing two amounts of one currency fails on a zero
/// divisor and otherwise gives `Decimal`'s quotient (or halts where it overflows).
pub proof fn lemma_evaluator_division(mem: Map<Seq<char>, Value>, l: ExprView, r: ExprView, a: Amount, b: Amount, c: Seq<char>)
    requires
        ev_eval(mem, l) == Eval::Val(Value::Money { amount: a, currency: c }),
        ev_eval(mem, r) == Eval::Val(Value::Money { amount: b, currency: c }),
    ensures
        ev_eval(mem, ExprView::Binary { left: Box::new(l), op: Operator::Divide, right: Box::new(r) }) == if b.same_value(
            Amount::zero_spec(),
        ) {
            Eval::Fail("Division by zero"@)
        } else {
            money_or_halt(decimal_quotient(a, b), c)
        },
{
}

/// An assignment on the machine binds the variable in the running frame, or the
/// expression's error stops the run with the frame unchanged.
pub proof fn lemma_machine_assignment(fuel: nat, g: Globals, locals: Map<Seq<char>, Value>, id: Seq<char>, e: ExprView)
    ensures
        vm_exec_stmt(fuel, g, locals, StmtView::Assign { identifier: id, value: e }) == match vm_eval(locals, e) {
            Eval::Val(v) => Run::Done { globals: g, locals: locals.insert(id, v), result: Ok::<(), Seq<char>>(()) },
            Eval::Fail(m) => Run::Done { globals: g, locals, result: Err(m) },
            Eval::Halt => Run::Halt,
        },
{
}

/// An `if` on the machine runs the consequence on a true condition, the
/// alternative (or nothing) on a false one, and nothing on an amount.
pub proof fn lemma_machine_if(
    fuel: nat,
    g: Globals,
    locals: Map<Seq<char>, Value>,
    c: ExprView,
    cons: Seq<StmtView>,
    alt: Option<Seq<StmtView>>,
)
    ensures
        vm_exec_stmt(fuel, g, locals, StmtView::If { condition: c, consequence: cons, alternative: alt })
            == match vm_eval(locals, c) {
            Eval::Val(Value::Boolean(true)) => vm_exec_block(fuel, g, locals, cons),
            Eval::Val(Value::Boolean(false)) => match alt {
                Some(a) => vm_exec_block(fuel, g, locals, a),
                None => Run::Done { globals: g, locals, result: Ok::<(), Seq<char>>(()) },
            },
            Eval::Val(Value::Money { .. }) => Run::Done { globals: g, locals, result: Ok::<(), Seq<char>>(()) },
            Eval::Fail(m) => Run::Done { globals: g, locals, result: Err(m) },
            Eval::Halt => Run::Halt,
        },
{
}

/// After a call, an account handed in by name holds the final value of the
/// last parameter it was handed to.
pub proof fn lemma_write_back_reaches_account(
    caller: Map<Seq<char>, Value>,
    frame: Map<Seq<char>, Value>,
    wb: Seq<(Seq<char>, Seq<char>)>,
    k: int,
)
    requires
        0 <= k < wb.len(),
        frame.contains_key(wb[k].1),
        forall|j: int| k < j < wb.len() ==> #[trigger] wb[j].0 != wb[k].0,
    ensures
        write_back(caller, frame, wb).contains_key(wb[k].0),
        write_back(caller, frame, wb)[wb[k].0] == frame[wb[k].1],
    decreases wb.len(),
{
    if k < wb.len() - 1 {
        let w = wb.drop_last();
        assert(w[k] == wb[k]);
        assert forall|j: int| k < j < w.len() implies #[trigger] w[j].0 != w[k].0 by {
            assert(w[j] == wb[j]);
        }
        lemma_write_back_reaches_account(caller, frame, w, k);
        assert(wb.last().0 != wb[k].0);
    }
}

/// A call changes none of the caller's variables that it was not handed by name.
pub proof fn lemma_write_back_leaves_others(
    caller: Map<Seq<char>, Value>,
    frame: Map<Seq<char>, Value>,
    wb: Seq<(Seq<char>, Seq<char>)>,
    account: Seq<char>,
)
    requires
        forall|j: int| 0 <= j < wb.len() ==> #[trigger] wb[j].0 != account,
    ensures
        write_back(caller, frame, wb).contains_key(account) == caller.contains_key(account),
        caller.contains_key(account) ==> write_back(caller, frame, wb)[account] == caller[account],
    decreases wb.len(),
{
    if wb.len() > 0 {
        let w = wb.drop_last();
        assert forall|j: int| 0 <= j < w.len() implies #[trigger] w[j].0 != account by {
            assert(w[j] == wb[j]);
        }
        lemma_write_back_leaves_others(caller, frame, w, account);
        assert(wb[wb.len() - 1].0 != account);
    }
}

proof fn lemma_ev_write_back_leaves(mem: Map<Seq<char>, Value>, wb: Seq<(Seq<char>, Seq<char>)>, x: Seq<char>)
    requires
        forall|j: int| 0 <= j < wb.len() ==> #[trigger] wb[j].0 != x,
    ensures
        ev_write_back(mem, wb).contains_key(x) == mem.contains_key(x),
        mem.contains_key(x) ==> ev_write_back(mem, wb)[x] == mem[x],
    decreases wb.len(),
{
    if wb.len() > 0 {
        let w = wb.drop_last();
        assert forall|j: int| 0 <= j < w.len() implies #[trigger] w[j].0 != x by {
            assert(w[j] == wb[j]);
        }
        lemma_ev_write_back_leaves(mem, w, x);
        assert(wb[wb.len() - 1].0 != x);
    }
}

/// Pass by reference in the evaluator: after a call, an account handed in by
/// name holds the final value of its parameter (the parameter may share the
/// account's name), as long as no other argument names that account or that
/// parameter.
pub proof fn lemma_evaluator_write_back_reaches_account(
    mem: Map<Seq<char>, Value>,
    wb: Seq<(Seq<char>, Seq<char>)>,
    k: int,
)
    requires
        0 <= k < wb.len(),
        mem.contains_key(wb[k].1),
        forall|j: int| 0 <= j < wb.len() && j != k ==> #[trigger] wb[j].0 != wb[k].0 && wb[j].0 != wb[k].1,
    ensures
        ev_write_back(mem, wb).contains_key(wb[k].0),
        ev_write_back(mem, wb)[wb[k].0] == mem[wb[k].1],
    decreases wb.len(),
{
    let w = wb.drop_last();
    if k == wb.len() - 1 {
        assert forall|j: int| 0 <= j < w.len() implies #[trigger] w[j].0 != wb[k].1 by {
            assert(w[j] == wb[j]);
        }
        lemma_ev_write_back_leaves(mem, w, wb[k].1);
    } else {
        assert(w[k] == wb[k]);
        assert forall|j: int| 0 <= j < w.len() && j != k implies #[trigger] w[j].0 != w[k].0 && w[j].0 != w[k].1 by {
            assert(w[j] == wb[j]);
        }
        lemma_evaluator_write_back_reaches_account(mem, w, k);
        assert(wb[wb.len() - 1].0 != wb[k].0);
    }
}

/// After a call the evaluator removes every parameter it set, unless that
/// parameter is itself an account written back.
pub proof fn lemma_evaluator_cleans_up_parameters(
    mem: Map<Seq<char>, Value>,
    bound: Seq<Seq<char>>,
    wb: Seq<(Seq<char>, Seq<char>)>,
    p: Seq<char>,
)
    requires
        bound.contains(p),
        !accounts(wb).contains(p),
    ensures
        !ev_cleanup(mem, bound, wb).contains_key(p),
    decreases bound.len(),
{
    let b = bound.drop_last();
    if bound.last() != p {
        let i = choose|i: int| 0 <= i < bound.len() && bound[i] == p;
        assert(i < bound.len() - 1);
        assert(b[i] == p);
        lemma_evaluator_cleans_up_parameters(mem, b, wb, p);
    }
}

/// The clean-up after a call keeps every name that is not a parameter it set,
/// and every account written back, with its value.
pub proof fn lemma_evaluator_cleanup_keeps_accounts(
    mem: Map<Seq<char>, Value>,
    bound: Seq<Seq<char>>,
    wb: Seq<(Seq<char>, Seq<char>)>,
    a: Seq<char>,
)
    requires
        !bound.contains(a) || accounts(wb).contains(a),
    ensures
        ev_cleanup(mem, bound, wb).contains_key(a) == mem.contains_key(a),
        mem.contains_key(a) ==> ev_cleanup(mem, bound, wb)[a] == mem[a],
    decreases bound.len(),
{
    if bound.len() > 0 {
        let b = bound.drop_last();
        if !bound.contains(a) {
            assert forall|i: int| 0 <= i < b.len() implies b[i] != a by {
                assert(b[i] == bound[i]);
            }
            assert(!b.contains(a));
            assert(bound.last() != a) by {
                assert(bound[bound.len() - 1] == bound.last());
            }
        }
        lemma_evaluator_cleanup_keeps_accounts(mem, b, wb, a);
    }
}

/// A run that ends in an error leaves the machine's memory as it was.
pub proof fn lemma_failed_run_keeps_memory(fuel: nat, v: VmView, prog: Seq<StmtView>, after: VmView, m: Seq<char>)
    requires
        vm_run(fuel, v, prog) == Some((after, Err::<(), Seq<char>>(m))),
    ensures
        after.memory == v.memory,
        after.programs == v.programs,
{
}

/// Whether an expression reads the variable `n`.
pub open spec fn expr_reads(e: ExprView, n: Seq<char>) -> bool
    decreases e,
{
    match e {
        ExprView::Ident(m) => m == n,
        ExprView::Binary { left, right, .. } => expr_reads(*left, n) || expr_reads(*right, n),
        _ => false,
    }
}

/// Two frames that hold the same values for every variable the arguments read.
pub open spec fn agree_on_arguments(
    l1: Map<Seq<char>, Value>,
    l2: Map<Seq<char>, Value>,
    args: Seq<ExprView>,
) -> bool {
    forall|i: int, n: Seq<char>|
        0 <= i < args.len() && #[trigger] expr_reads(args[i], n) ==> l1.contains_key(n) == l2.contains_key(n)
            && (l1.contains_key(n) ==> l1[n] == l2[n])
}

proof fn lemma_eval_reads_only(l1: Map<Seq<char>, Value>, l2: Map<Seq<char>, Value>, e: ExprView)
    requires
        forall|n: Seq<char>|
            #[trigger] expr_reads(e, n) ==> l1.contains_key(n) == l2.contains_key(n) && (l1.contains_key(n)
                ==> l1[n] == l2[n]),
    ensures
        vm_eval(l1, e) == vm_eval(l2, e),
    decreases e,
{
    match e {
        ExprView::Ident(m) => {
            assert(expr_reads(e, m));
        },
        ExprView::Binary { left, right, .. } => {
            assert forall|n: Seq<char>| #[trigger] expr_reads(*left, n) implies l1.contains_key(n)
                == l2.contains_key(n) && (l1.contains_key(n) ==> l1[n] == l2[n]) by {
                assert(expr_reads(e, n));
            }
            assert forall|n: Seq<char>| #[trigger] expr_reads(*right, n) implies l1.contains_key(n)
                == l2.contains_key(n) && (l1.contains_key(n) ==> l1[n] == l2[n]) by {
                assert(expr_reads(e, n));
            }
            lemma_eval_reads_only(l1, l2, *left);
            lemma_eval_reads_only(l1, l2, *right);
        },
        _ => {},
    }
}

proof fn lemma_bind_reads_only(
    l1: Map<Seq<char>, Value>,
    l2: Map<Seq<char>, Value>,
    params: Seq<(Seq<char>, Seq<char>)>,
    args: Seq<ExprView>,
    i: nat,
    frame: Map<Seq<char>, Value>,
    wb: Seq<(Seq<char>, Seq<char>)>,
)
    requires
        agree_on_arguments(l1, l2, args),
    ensures
        vm_bind(l1, params, args, i, frame, wb) == vm_bind(l2, params, args, i, frame, wb),
    decreases args.len() - i,
{
    if i < args.len() && i < params.len() {
        assert forall|n: Seq<char>| #[trigger] expr_reads(args[i as int], n) implies l1.contains_key(n)
            == l2.contains_key(n) && (l1.contains_key(n) ==> l1[n] == l2[n]) by {}
        lemma_eval_reads_only(l1, l2, args[i as int]);
        let p = params[i as int].0;
        match vm_eval(l1, args[i as int]) {
            Eval::Val(v) => {
                let wb2 = match args[i as int] {
                    ExprView::Ident(orig) => wb.push((orig, p)),
                    _ => wb,
                };
                lemma_bind_reads_only(l1, l2, params, args, i + 1, frame.insert(p, v), wb2);
            },
            _ => {},
        }
    }
}

proof fn lemma_write_back_as_union(
    caller: Map<Seq<char>, Value>,
    frame: Map<Seq<char>, Value>,
    wb: Seq<(Seq<char>, Seq<char>)>,
)
    ensures
        write_back(caller, frame, wb) == caller.union_prefer_right(write_back(Map::empty(), frame, wb)),
    decreases wb.len(),
{
    if wb.len() == 0 {
        assert(caller.union_prefer_right(Map::<Seq<char>, Value>::empty()) =~= caller);
    } else {
        let w = wb.drop_last();
        lemma_write_back_as_union(caller, frame, w);
        let u = write_back(Map::empty(), frame, w);
        let (orig, p) = wb.last();
        if frame.contains_key(p) {
            assert(caller.union_prefer_right(u).insert(orig, frame[p]) =~= caller.union_prefer_right(
                u.insert(orig, frame[p]),
            ));
        }
    }
}

/// Each call runs in a frame of its own: what it returns, the machine's state
/// after it, and the updates it makes to the caller's variables depend on the
/// caller's variables only through the values its arguments read.
pub proof fn lemma_call_sees_only_its_arguments(
    fuel: nat,
    g: Globals,
    l1: Map<Seq<char>, Value>,
    l2: Map<Seq<char>, Value>,
    name: Seq<char>,
    args: Seq<ExprView>,
)
    requires
        agree_on_arguments(l1, l2, args),
    ensures
        ({
            let call = StmtView::TxCall { name, arguments: args };
            match (vm_call(fuel, g, l1, call), vm_call(fuel, g, l2, call)) {
                (Run::Halt, Run::Halt) => true,
                (
                    Run::Done { globals: g1, locals: a1, result: r1 },
                    Run::Done { globals: g2, locals: a2, result: r2 },
                ) => g1 == g2 && r1 == r2 && exists|u: Map<Seq<char>, Value>|
                    a1 == l1.union_prefer_right(u) && a2 == l2.union_prefer_right(u),
                _ => false,
            }
        }),
{
    let call = StmtView::TxCall { name, arguments: args };
    if g.functions.contains_key(name) {
        let f = g.functions[name];
        if args.len() == f.parameters.len() {
            lemma_bind_reads_only(l1, l2, f.parameters, args, 0, Map::empty(), Seq::empty());
            match vm_bind(l1, f.parameters, args, 0, Map::empty(), Seq::empty()) {
                Bind::Bound { frame, write_backs } => {
                    if fuel > 0 {
                        match vm_exec_block((fuel - 1) as nat, g, frame, f.body) {
                            Run::Done { globals: g2, locals: frame2, result } => {
                                if result is Ok {
                                    lemma_write_back_as_union(l1, frame2, write_backs);
                                    lemma_write_back_as_union(l2, frame2, write_backs);
                                    let u = write_back(Map::empty(), frame2, write_backs);
                                    assert(write_back(l1, frame2, write_backs) == l1.union_prefer_right(u));
                                } else {
                                    assert(l1 == l1.union_prefer_right(Map::<Seq<char>, Value>::empty()));
                                    assert(l2 == l2.union_prefer_right(Map::<Seq<char>, Value>::empty()));
                                }
                            },
                            _ => {},
                        }
                    }
                },
                _ => {
                    assert(l1 == l1.union_prefer_right(Map::<Seq<char>, Value>::empty()));
                    assert(l2 == l2.union_prefer_right(Map::<Seq<char>, Value>::empty()));
                },
            }
        } else {
            assert(l1 == l1.union_prefer_right(Map::<Seq<char>, Value>::empty()));
            assert(l2 == l2.union_prefer_right(Map::<Seq<char>, Value>::empty()));
        }
    } else {
        assert(l1 == l1.union_prefer_right(Map::<Seq<char>, Value>::empty()));
        assert(l2 == l2.union_prefer_right(Map::<Seq<char>, Value>::empty()));
    }
}

proof fn lemma_without_commas_idempotent(s: Seq<char>)
    ensures
        without_commas(without_commas(s)) == without_commas(s),
    decreases s.len(),
{
    if s.len() > 0 {
        let t = without_commas(s.drop_last());
        lemma_without_commas_idempotent(s.drop_last());
        if s.last() != ',' {
            assert(t.push(s.last()).drop_last() == t);
        }
    }
}

proof fn lemma_number_end_whole(s: Seq<char>, p: int)
    requires
        0 <= p <= s.len(),
        forall|i: int| 0 <= i < s.len() ==> is_ascii_digit(#[trigger] s[i]) || s[i] == '.' || s[i] == ',',
    ensures
        number_end(s, p) == s.len(),
    decreases s.len() - p,
{
    if p < s.len() {
        lemma_number_end_whole(s, p + 1);
    }
}

/// Numbers may be written with thousands separators: a text made of a digit
/// followed by digits, dots and commas is read as one amount, the same amount
/// as the text with its commas left out (`150,000.00` reads as `150000.00`).
pub proof fn lemma_commas_in_numbers_are_ignored(s: Seq<char>)
    requires
        s.len() > 0,
        is_ascii_digit(s[0]),
        forall|i: int| 0 <= i < s.len() ==> is_ascii_digit(#[trigger] s[i]) || s[i] == '.' || s[i] == ',',
    ensures
        scan(s, 0) == (TokenView::MoneyLiteral(number_value(s)), s.len() as int),
        number_value(s) == number_value(without_commas(s)),
{
    assert(skip_trivia(s, 0) == 0);
    lemma_number_end_whole(s, 0);
    assert(s.subrange(0, s.len() as int) == s);
    lemma_without_commas_idempotent(s);
}

/// A word of three ASCII letters is a currency ticker exactly when all three
/// are upper case (`KES`); otherwise it names a variable (`fee`, `Usd`).
pub proof fn lemma_three_letter_words(w: Seq<char>)
    requires
        w.len() == 3,
        forall|i: int| 0 <= i < 3 ==> is_ascii_letter(#[trigger] w[i]),
    ensures
        classify_word(w) == if (forall|i: int| 0 <= i < 3 ==> 'A' <= #[trigger] w[i] <= 'Z') {
            TokenView::CurrencyTicker(w)
        } else {
            TokenView::Identifier(w)
        },
{
    reveal_strlit("asset");
    reveal_strlit("if");
    reveal_strlit("else");
    reveal_strlit("true");
    reveal_strlit("false");
    reveal_strlit("transaction");
    assert(w[0] as u32 <= 0x7f && w[1] as u32 <= 0x7f && w[2] as u32 <= 0x7f);
    assert(w.drop_first().drop_first().drop_first() == Seq::<char>::empty());
    assert(w.drop_first()[0] == w[1]);
    assert(w.drop_first().drop_first()[0] == w[2]);
    reveal_with_fuel(vstd::utf8::encode_utf8, 4);
    assert(vstd::utf8::encode_utf8(w).len() == 3);
    assert(crate::text::all_ascii(w));
    let up = w.map_values(|c: char| ascii_upper(c));
    if forall|i: int| 0 <= i < 3 ==> 'A' <= #[trigger] w[i] <= 'Z' {
        assert(up =~= w);
    } else {
        let i = choose|i: int| 0 <= i < 3 && !('A' <= #[trigger] w[i] <= 'Z');
        assert(up[i] != w[i]);
    }
}

} // verus!
