//! The tree-walking evaluator: runs a program over one flat memory.
use crate::ast::{
    BlockStatement, ExprView, Expression, Operator, Program, Statement, StmtView, expr_view, exprs_view,
    lemma_exprs_view, lemma_stmts_view, params_view, stmt_view, stmts_view,
};
use crate::money::{
    Amount, decimal_checked_add, decimal_checked_div, decimal_checked_mul, decimal_checked_sub,
    decimal_difference, decimal_eq, decimal_gt, decimal_lt, decimal_product, decimal_quotient,
    decimal_sum, decimal_text,
};
use crate::table::Table;
use crate::text::{concat3, concat5};
use crate::value::{Value, bool_text, bool_to_text, debug_string, debug_text, value_text};
use crate::vm::{Eval, money_or_halt, result_view};
use vstd::prelude::*;
use vstd::string::*;

verus! {

/// The verb an error message uses for an operator.
pub open spec fn operator_verb(op: Operator) -> Seq<char> {
    match op {
        Operator::Plus => "add"@,
        Operator::Minus => "subtract"@,
        Operator::Multiply => "multiply"@,
        Operator::Divide => "divide"@,
        _ => "operate on"@,
    }
}

/// The operator's name as `Debug` writes it.
pub open spec fn operator_name(op: Operator) -> Seq<char> {
    match op {
        Operator::Plus => "Plus"@,
        Operator::Minus => "Minus"@,
        Operator::Multiply => "Multiply"@,
        Operator::Divide => "Divide"@,
        Operator::LessThan => "LessThan"@,
        Operator::GreaterThan => "GreaterThan"@,
        Operator::Equal => "Equal"@,
        Operator::NotEqual => "NotEqual"@,
    }
}

/// A value as `Debug` writes it.
pub open spec fn value_debug(v: Value) -> Seq<char> {
    match v {
        Value::Money { amount, currency } => "Money { amount: "@ + decimal_text(amount) + ", currency: "@
            + debug_text(currency) + " }"@,
        Value::Boolean(b) => "Boolean("@ + bool_text(b) + ")"@,
    }
}

pub open spec fn ev_currency_mismatch_msg(op: Operator, lc: Seq<char>, rc: Seq<char>) -> Seq<char> {
    "Currency mismatch: cannot "@ + operator_verb(op) + " "@ + lc + " with "@ + rc
}

pub open spec fn ev_boolean_operator_msg(op: Operator) -> Seq<char> {
    "Invalid operator "@ + operator_name(op) + " for boolean operands"@
}

pub open spec fn ev_type_mismatch_msg(l: Value, op: Operator, r: Value) -> Seq<char> {
    "Type mismatch in binary operation: "@ + value_debug(l) + " "@ + operator_name(op) + " "@ + value_debug(r)
}

pub open spec fn undefined_variable_msg(n: Seq<char>) -> Seq<char> {
    "Undefined variable: '"@ + n + "'"@
}

/// A binary operation: amounts must share a currency (for comparisons too).
pub open spec fn ev_binary_op(l: Value, r: Value, op: Operator) -> Eval {
    match (l, r) {
        (Value::Money { amount: la, currency: lc }, Value::Money { amount: ra, currency: rc }) => {
            if lc != rc {
                Eval::Fail(ev_currency_mismatch_msg(op, lc, rc))
            } else {
                match op {
                    Operator::Plus => money_or_halt(decimal_sum(la, ra), lc),
                    Operator::Minus => money_or_halt(decimal_difference(la, ra), lc),
                    Operator::Multiply => money_or_halt(decimal_product(la, ra), lc),
                    Operator::Divide => if ra.same_value(Amount::zero_spec()) {
                        Eval::Fail("Division by zero"@)
                    } else {
                        money_or_halt(decimal_quotient(la, ra), lc)
                    },
                    Operator::LessThan => Eval::Val(Value::Boolean(la.less_than(ra))),
                    Operator::GreaterThan => Eval::Val(Value::Boolean(ra.less_than(la))),
                    Operator::Equal => Eval::Val(Value::Boolean(la.same_value(ra))),
                    Operator::NotEqual => Eval::Val(Value::Boolean(!la.same_value(ra))),
                }
            }
        },
        (Value::Boolean(lb), Value::Boolean(rb)) => match op {
            Operator::Equal => Eval::Val(Value::Boolean(lb == rb)),
            Operator::NotEqual => Eval::Val(Value::Boolean(lb != rb)),
            _ => Eval::Fail(ev_boolean_operator_msg(op)),
        },
        _ => Eval::Fail(ev_type_mismatch_msg(l, op, r)),
    }
}

/// The value of an expression in the memory.
pub open spec fn ev_eval(mem: Map<Seq<char>, Value>, e: ExprView) -> Eval
    decreases e,
{
    match e {
        ExprView::Money { amount, currency } => Eval::Val(Value::Money { amount, currency }),
        ExprView::Boolean(b) => Eval::Val(Value::Boolean(b)),
        ExprView::Ident(n) => if mem.contains_key(n) {
            Eval::Val(mem[n])
        } else {
            Eval::Fail(undefined_variable_msg(n))
        },
        ExprView::Binary { left, op, right } => match ev_eval(mem, *left) {
            Eval::Val(lv) => match ev_eval(mem, *right) {
                Eval::Val(rv) => ev_binary_op(lv, rv, op),
                other => other,
            },
            other => other,
        },
    }
}

/// The evaluator's state: its memory and its stored transactions.
pub struct EvState {
    pub memory: Map<Seq<char>, Value>,
    pub vault: Map<Seq<char>, (Seq<(Seq<char>, Seq<char>)>, Seq<StmtView>)>,
}

/// The outcome of running statements: the state and the error that stopped
/// them, if any; or a halt (an overflow, a call with more arguments than
/// parameters, or calls nested deeper than allowed).
pub enum EvRun {
    Done { state: EvState, result: Result<(), Seq<char>> },
    Halt,
}

/// How binding the arguments of a call ends.
pub enum EvBind {
    Bound { memory: Map<Seq<char>, Value>, write_backs: Seq<(Seq<char>, Seq<char>)> },
    Fail { memory: Map<Seq<char>, Value>, message: Seq<char> },
    Halt,
}

/// Binds arguments `i..` to parameters in the memory itself, each argument
/// evaluated after the earlier parameters were set.
pub open spec fn ev_bind(
    params: Seq<(Seq<char>, Seq<char>)>,
    args: Seq<ExprView>,
    i: nat,
    mem: Map<Seq<char>, Value>,
    wb: Seq<(Seq<char>, Seq<char>)>,
) -> EvBind
    decreases args.len() - i,
{
    if i >= args.len() {
        EvBind::Bound { memory: mem, write_backs: wb }
    } else if i >= params.len() {
        EvBind::Halt
    } else {
        let p = params[i as int].0;
        match ev_eval(mem, args[i as int]) {
            Eval::Val(v) => {
                let wb2 = match args[i as int] {
                    ExprView::Ident(orig) => wb.push((orig, p)),
                    _ => wb,
                };
                ev_bind(params, args, i + 1, mem.insert(p, v), wb2)
            },
            Eval::Fail(m) => EvBind::Fail { memory: mem, message: m },
            Eval::Halt => EvBind::Halt,
        }
    }
}

/// After a call: each `(account, parameter)` pair copies the parameter's value
/// to the account, in order.
pub open spec fn ev_write_back(mem: Map<Seq<char>, Value>, wb: Seq<(Seq<char>, Seq<char>)>) -> Map<Seq<char>, Value>
    decreases wb.len(),
{
    if wb.len() == 0 {
        mem
    } else {
        let m1 = ev_write_back(mem, wb.drop_last());
        let (orig, p) = wb.last();
        if m1.contains_key(p) {
            m1.insert(orig, m1[p])
        } else {
            m1
        }
    }
}

/// The accounts that a call writes back to.
pub open spec fn accounts(wb: Seq<(Seq<char>, Seq<char>)>) -> Seq<Seq<char>> {
    wb.map_values(|x: (Seq<char>, Seq<char>)| x.0)
}

/// After the write-back: each parameter bound by the call is removed from the
/// memory, unless it is itself one of the accounts written back.
pub open spec fn ev_cleanup(
    mem: Map<Seq<char>, Value>,
    bound: Seq<Seq<char>>,
    wb: Seq<(Seq<char>, Seq<char>)>,
) -> Map<Seq<char>, Value>
    decreases bound.len(),
{
    if bound.len() == 0 {
        mem
    } else {
        let m1 = ev_cleanup(mem, bound.drop_last(), wb);
        if accounts(wb).contains(bound.last()) {
            m1
        } else {
            m1.remove(bound.last())
        }
    }
}

/// The names of the first `n` parameters.
pub open spec fn bound_names(params: Seq<(Seq<char>, Seq<char>)>, n: nat) -> Seq<Seq<char>> {
    params.take(n as int).map_values(|p: (Seq<char>, Seq<char>)| p.0)
}

/// Runs one statement.
pub open spec fn ev_stmt(fuel: nat, st: EvState, s: StmtView) -> EvRun
    decreases fuel, s, 1nat,
{
    match s {
        StmtView::Asset { .. } => EvRun::Done { state: st, result: Ok(()) },
        StmtView::Assign { identifier, value } => match ev_eval(st.memory, value) {
            Eval::Val(v) => EvRun::Done {
                state: EvState { memory: st.memory.insert(identifier, v), ..st },
                result: Ok(()),
            },
            Eval::Fail(m) => EvRun::Done { state: st, result: Err(m) },
            Eval::Halt => EvRun::Halt,
        },
        StmtView::If { condition, consequence, alternative } => match ev_eval(st.memory, condition) {
            Eval::Val(Value::Boolean(true)) => ev_block(fuel, st, consequence),
            Eval::Val(Value::Boolean(false)) => match alternative {
                Some(alt) => ev_block(fuel, st, alt),
                None => EvRun::Done { state: st, result: Ok(()) },
            },
            Eval::Val(Value::Money { .. }) => EvRun::Done { state: st, result: Ok(()) },
            Eval::Fail(m) => EvRun::Done { state: st, result: Err(m) },
            Eval::Halt => EvRun::Halt,
        },
        StmtView::TxDecl { name, parameters, body } => EvRun::Done {
            state: EvState { vault: st.vault.insert(name, (parameters, body)), ..st },
            result: Ok(()),
        },
        StmtView::TxCall { .. } => ev_call(fuel, st, s),
    }
}

/// Calls a stored transaction: the arguments are set as its parameters in the
/// memory, its body runs, each argument that names a variable gets its
/// parameter's final value back, and then every parameter the call set is
/// removed, except one that is itself such an account. Calling a transaction
/// that was never stored does nothing.
pub open spec fn ev_call(fuel: nat, st: EvState, call: StmtView) -> EvRun
    decreases fuel, call, 0nat,
{
    let (name, arguments) = match call {
        StmtView::TxCall { name, arguments } => (name, arguments),
        _ => (Seq::empty(), Seq::empty()),
    };
    if !st.vault.contains_key(name) {
        EvRun::Done { state: st, result: Ok(()) }
    } else {
        let (params, body) = st.vault[name];
        match ev_bind(params, arguments, 0, st.memory, Seq::empty()) {
            EvBind::Halt => EvRun::Halt,
            EvBind::Fail { memory, message } => EvRun::Done {
                state: EvState { memory, ..st },
                result: Err(message),
            },
            EvBind::Bound { memory, write_backs } => if fuel == 0 {
                EvRun::Halt
            } else {
                match ev_block((fuel - 1) as nat, EvState { memory, ..st }, body) {
                    EvRun::Halt => EvRun::Halt,
                    EvRun::Done { state, result } => match result {
                        Err(m) => EvRun::Done { state, result: Err(m) },
                        Ok(()) => EvRun::Done {
                            state: EvState {
                                memory: ev_cleanup(
                                    ev_write_back(state.memory, write_backs),
                                    bound_names(params, arguments.len()),
                                    write_backs,
                                ),
                                ..state
                            },
                            result: Ok(()),
                        },
                    },
                }
            },
        }
    }
}

/// Runs statements in order, stopping at the first error.
pub open spec fn ev_block(fuel: nat, st: EvState, ss: Seq<StmtView>) -> EvRun
    decreases fuel, ss, 0nat,
{
    if ss.len() == 0 {
        EvRun::Done { state: st, result: Ok(()) }
    } else {
        match ev_stmt(fuel, st, ss[0]) {
            EvRun::Halt => EvRun::Halt,
            EvRun::Done { state, result } => if result is Err {
                EvRun::Done { state, result }
            } else {
                ev_block(fuel, state, ss.drop_first())
            },
        }
    }
}

/// A run-time value.
#[derive(Debug, Clone)]
pub enum RuntimeValue {
    Money { amount: Amount, currency: String },
    Boolean(bool),
}

impl View for RuntimeValue {
    type V = Value;

    open spec fn view(&self) -> Value {
        match self {
            RuntimeValue::Money { amount, currency } => Value::Money { amount: *amount, currency: currency@ },
            RuntimeValue::Boolean(b) => Value::Boolean(*b),
        }
    }
}

impl RuntimeValue {
    /// A copy.
    pub fn duplicate(&self) -> (r: RuntimeValue)
        ensures
            r == *self,
    {
        match self {
            RuntimeValue::Money { amount, currency } => RuntimeValue::Money {
                amount: *amount,
                currency: currency.clone(),
            },
            RuntimeValue::Boolean(b) => RuntimeValue::Boolean(*b),
        }
    }

    /// The value as `Debug` writes it.
    pub fn debug_text(&self) -> (r: String)
        ensures
            r@ == value_debug(self@),
    {
        match self {
            RuntimeValue::Money { amount, currency } => {
                let a = amount.text();
                let c = debug_string(currency.as_str());
                concat5("Money { amount: ", a.as_str(), ", currency: ", c.as_str(), " }")
            },
            RuntimeValue::Boolean(b) => {
                let t = bool_to_text(*b);
                concat3("Boolean(", t.as_str(), ")")
            },
        }
    }
}

/// The value as a memory report shows it: `amount currency`, or `true` / `false`.
pub fn format_runtime_value(val: &RuntimeValue) -> (r: String)
    ensures
        r@ == value_text(val@),
{
    match val {
        RuntimeValue::Money { amount, currency } => concat3(amount.text().as_str(), " ", currency.as_str()),
        RuntimeValue::Boolean(b) => bool_to_text(*b),
    }
}

fn operator_verb_text(op: &Operator) -> (r: &'static str)
    ensures
        r@ == operator_verb(*op),
{
    match op {
        Operator::Plus => "add",
        Operator::Minus => "subtract",
        Operator::Multiply => "multiply",
        Operator::Divide => "divide",
        _ => "operate on",
    }
}

fn operator_name_text(op: &Operator) -> (r: &'static str)
    ensures
        r@ == operator_name(*op),
{
    match op {
        Operator::Plus => "Plus",
        Operator::Minus => "Minus",
        Operator::Multiply => "Multiply",
        Operator::Divide => "Divide",
        Operator::LessThan => "LessThan",
        Operator::GreaterThan => "GreaterThan",
        Operator::Equal => "Equal",
        Operator::NotEqual => "NotEqual",
    }
}

/// The values of a table by their views.
pub open spec fn memory_view(m: Map<Seq<char>, RuntimeValue>) -> Map<Seq<char>, Value> {
    m.map_values(|v: RuntimeValue| v@)
}

/// The stored transactions by their views.
pub open spec fn vault_view(m: Map<Seq<char>, (Vec<(String, String)>, BlockStatement)>) -> Map<
    Seq<char>,
    (Seq<(Seq<char>, Seq<char>)>, Seq<StmtView>),
> {
    m.map_values(|t: (Vec<(String, String)>, BlockStatement)| (params_view(t.0@), t.1@))
}

pub proof fn lemma_memory_insert(m: Map<Seq<char>, RuntimeValue>, k: Seq<char>, v: RuntimeValue)
    ensures
        memory_view(m.insert(k, v)) == memory_view(m).insert(k, v@),
{
    assert(memory_view(m.insert(k, v)) =~= memory_view(m).insert(k, v@));
}

pub proof fn lemma_memory_remove(m: Map<Seq<char>, RuntimeValue>, k: Seq<char>)
    ensures
        memory_view(m.remove(k)) == memory_view(m).remove(k),
{
    assert(memory_view(m.remove(k)) =~= memory_view(m).remove(k));
}

/// Why running stopped early.
enum Stop {
    Error(String),
    Halted,
}

spec fn stop_eval_agrees(r: Result<RuntimeValue, Stop>, e: Eval) -> bool {
    match e {
        Eval::Val(v) => r matches Ok(x) && x@ == v,
        Eval::Fail(m) => r matches Err(Stop::Error(x)) && x@ == m,
        Eval::Halt => r matches Err(Stop::Halted),
    }
}

spec fn ev_run_agrees(r: Result<(), Stop>, run: EvRun, st: EvState) -> bool {
    match run {
        EvRun::Halt => r matches Err(Stop::Halted),
        EvRun::Done { state, result } => {
            &&& st == state
            &&& match result {
                Ok(()) => r is Ok,
                Err(m) => r matches Err(Stop::Error(x)) && x@ == m,
            }
        },
    }
}


/// Runs a whole program; `None` for a halt.
pub open spec fn ev_program(fuel: nat, st: EvState, prog: Seq<StmtView>) -> Option<(EvState, Result<(), Seq<char>>)> {
    match ev_block(fuel, st, prog) {
        EvRun::Halt => None,
        EvRun::Done { state, result } => match result {
            Ok(()) => Some((state, Ok(()))),
            Err(m) => Some((state, Err(m))),
        },
    }
}

/// The evaluator: one memory for the whole program, and the stored transactions.
pub struct Evaluator {
    pub memory: Table<RuntimeValue>,
    pub transaction_vault: Table<(Vec<(String, String)>, BlockStatement)>,
}

impl Evaluator {
    /// The memory and stored transactions by their views.
    pub open spec fn state(&self) -> EvState {
        EvState { memory: memory_view(self.memory@), vault: vault_view(self.transaction_vault@) }
    }

    /// An evaluator with an empty memory and no stored transactions.
    pub fn new() -> (r: Evaluator)
        ensures
            r.memory@ == Map::<Seq<char>, RuntimeValue>::empty(),
            r.transaction_vault@ == Map::<Seq<char>, (Vec<(String, String)>, BlockStatement)>::empty(),
    {
        Evaluator { memory: Table::new(), transaction_vault: Table::new() }
    }

    /// Runs a program with calls nested at most `max_depth` deep. `None` where
    /// the run halts: an arithmetic overflow (where `Decimal`'s operators panic),
    /// a call with more arguments than parameters (where indexing panics), or
    /// calls nested deeper than that.
    pub fn try_evaluate_program(&mut self, program: &Program, max_depth: u64) -> (r: Option<Result<(), String>>)
        ensures
            match ev_program(max_depth as nat, old(self).state(), program@) {
                None => r is None,
                Some((st, res)) => r matches Some(x) && result_view(x) == res && final(self).state() == st,
            },
    {
        match self.evaluate_block(&program.statements, max_depth) {
            Ok(()) => Some(Ok(())),
            Err(Stop::Error(m)) => Some(Err(m)),
            Err(Stop::Halted) => None,
        }
    }

    /// Runs the statements of a program in order, stopping at the first error.
    /// The run must not halt (see `try_evaluate_program`).
    pub fn evaluate_program(&mut self, program: &Program) -> (r: Result<(), String>)
        requires
            ev_program(u64::MAX as nat, old(self).state(), program@) is Some,
        ensures
            ev_program(u64::MAX as nat, old(self).state(), program@) == Some((final(self).state(), result_view(r))),
    {
        match self.try_evaluate_program(program, u64::MAX) {
            Some(r) => r,
            None => Err(String::new()),
        }
    }

    #[verifier::rlimit(30)]
    fn evaluate_statement(&mut self, stmt: &Statement, fuel: u64) -> (r: Result<(), Stop>)
        ensures
            ev_run_agrees(r, ev_stmt(fuel as nat, old(self).state(), stmt@), final(self).state()),
        decreases fuel, stmt, 1nat,
    {
        match stmt {
            Statement::AssetDeclaration { .. } => Ok(()),
            Statement::Assignment { identifier, value } => {
                let val = match self.evaluate_expression(value) {
                    Ok(v) => v,
                    Err(f) => return Err(f),
                };
                proof {
                    lemma_memory_insert(self.memory@, identifier@, val);
                }
                self.memory.insert(identifier.clone(), val);
                Ok(())
            },
            Statement::IfStatement { condition, consequence, alternative } => {
                let cond = match self.evaluate_expression(condition) {
                    Ok(v) => v,
                    Err(f) => return Err(f),
                };
                match cond {
                    RuntimeValue::Boolean(is_true) => {
                        if is_true {
                            self.evaluate_block(&consequence.statements, fuel)
                        } else {
                            match alternative {
                                Some(alt) => self.evaluate_block(&alt.statements, fuel),
                                None => Ok(()),
                            }
                        }
                    },
                    _ => Ok(()),
                }
            },
            Statement::TransactionDeclaration { name, parameters, body } => {
                let entry = (crate::ast::copy_parameters(parameters), body.duplicate());
                proof {
                    assert(vault_view(self.transaction_vault@.insert(name@, entry)) =~= vault_view(
                        self.transaction_vault@,
                    ).insert(name@, (params_view(parameters@), body@)));
                }
                self.transaction_vault.insert(name.clone(), entry);
                Ok(())
            },
            Statement::TransactionCall { .. } => self.evaluate_call(stmt, fuel),
        }
    }

    #[verifier::rlimit(30)]
    fn evaluate_block(&mut self, stmts: &Vec<Statement>, fuel: u64) -> (r: Result<(), Stop>)
        ensures
            ev_run_agrees(r, ev_block(fuel as nat, old(self).state(), stmts_view(stmts@)), final(self).state()),
        decreases fuel, stmts, 0nat,
    {
        let ghost ss = stmts_view(stmts@);
        proof {
            lemma_stmts_view(stmts@);
        }
        let mut i: usize = 0;
        assert(ss.skip(0) == ss);
        while i < stmts.len()
            invariant
                i <= stmts@.len(),
                ss == stmts_view(stmts@),
                ss.len() == stmts@.len(),
                forall|j: int| 0 <= j < stmts@.len() ==> #[trigger] ss[j] == stmt_view(stmts@[j]),
                ev_block(fuel as nat, old(self).state(), ss) == ev_block(fuel as nat, self.state(), ss.skip(i as int)),
            decreases stmts@.len() - i,
        {
            assert(ss.skip(i as int)[0] == ss[i as int]);
            assert(ss.skip(i as int).drop_first() == ss.skip(i + 1));
            let r = self.evaluate_statement(&stmts[i], fuel);
            if r.is_err() {
                return r;
            }
            i = i + 1;
        }
        assert(ss.skip(i as int).len() == 0);
        Ok(())
    }

    #[verifier::loop_isolation(false)]
    #[verifier::rlimit(30)]
    fn evaluate_call(&mut self, stmt: &Statement, fuel: u64) -> (r: Result<(), Stop>)
        requires
            stmt is TransactionCall,
        ensures
            ev_run_agrees(r, ev_call(fuel as nat, old(self).state(), stmt@), final(self).state()),
        decreases fuel, stmt, 0nat,
    {
        let (name, arguments) = match stmt {
            Statement::TransactionCall { name, arguments } => (name, arguments),
            _ => {
                return Err(Stop::Halted);
            },
        };
        let (params, body) = match self.transaction_vault.get(name) {
            Some(t) => (crate::ast::copy_parameters(&t.0), t.1.duplicate()),
            None => {
                return Ok(());
            },
        };
        proof {
            lemma_exprs_view(arguments@);
        }
        let ghost pv = params_view(params@);
        let ghost args = exprs_view(arguments@);
        let mut write_backs: Vec<(String, String)> = Vec::new();
        assert(params_view(write_backs@) =~= Seq::<(Seq<char>, Seq<char>)>::empty());
        let mut i: usize = 0;
        while i < arguments.len()
            invariant
                i <= arguments@.len(),
                i <= params@.len(),
                pv == params_view(params@),
                pv.len() == params@.len(),
                args == exprs_view(arguments@),
                args.len() == arguments@.len(),
                forall|j: int| 0 <= j < arguments@.len() ==> #[trigger] args[j] == expr_view(arguments@[j]),
                self.transaction_vault@ == old(self).transaction_vault@,
                ev_bind(pv, args, 0, old(self).state().memory, Seq::empty()) == ev_bind(
                    pv,
                    args,
                    i as nat,
                    self.state().memory,
                    params_view(write_backs@),
                ),
            decreases arguments@.len() - i,
        {
            if i >= params.len() {
                return Err(Stop::Halted);
            }
            let param_name = params[i].0.clone();
            let val = match self.evaluate_expression(&arguments[i]) {
                Ok(v) => v,
                Err(f) => return Err(f),
            };
            proof {
                lemma_memory_insert(self.memory@, param_name@, val);
            }
            self.memory.insert(param_name.clone(), val);
            match &arguments[i] {
                Expression::Identifier(orig) => {
                    let ghost before = write_backs@;
                    write_backs.push((orig.clone(), param_name));
                    assert(params_view(write_backs@) =~= params_view(before).push((orig@, pv[i as int].0)));
                },
                _ => {},
            }
            i = i + 1;
        }
        if fuel == 0 {
            return Err(Stop::Halted);
        }
        match self.evaluate_block(&body.statements, fuel - 1) {
            Ok(()) => {},
            Err(f) => return Err(f),
        }
        let ghost wb = params_view(write_backs@);
        let ghost mem2 = self.state().memory;
        let ghost vault2 = self.state().vault;
        let mut j: usize = 0;
        assert(wb.take(0) =~= Seq::<(Seq<char>, Seq<char>)>::empty());
        while j < write_backs.len()
            invariant
                j <= write_backs@.len(),
                wb == params_view(write_backs@),
                wb.len() == write_backs@.len(),
                self.state().memory == ev_write_back(mem2, wb.take(j as int)),
                self.state().vault == vault2,
            decreases write_backs@.len() - j,
        {
            let pair = &write_backs[j];
            assert(wb.take(j + 1).drop_last() == wb.take(j as int));
            assert(wb.take(j + 1).last() == (pair.0@, pair.1@));
            match self.memory.get(&pair.1) {
                Some(v) => {
                    let v2 = v.duplicate();
                    proof {
                        lemma_memory_insert(self.memory@, pair.0@, v2);
                    }
                    self.memory.insert(pair.0.clone(), v2);
                },
                None => {},
            }
            j = j + 1;
        }
        assert(wb.take(j as int) == wb);
        let ghost mem3 = self.state().memory;
        let ghost bound = bound_names(pv, args.len());
        let ghost accts = accounts(wb);
        assert(bound.len() == arguments@.len());
        let mut k: usize = 0;
        assert(bound.take(0) =~= Seq::<Seq<char>>::empty());
        while k < arguments.len()
            invariant
                k <= arguments@.len(),
                arguments@.len() <= params@.len(),
                pv == params_view(params@),
                bound == bound_names(pv, args.len()),
                bound.len() == arguments@.len(),
                args.len() == arguments@.len(),
                wb == params_view(write_backs@),
                accts == accounts(wb),
                self.state().memory == ev_cleanup(mem3, bound.take(k as int), wb),
                self.state().vault == vault2,
            decreases arguments@.len() - k,
        {
            let name = &params[k].0;
            assert(bound[k as int] == name@);
            let mut is_account = false;
            let mut q: usize = 0;
            while q < write_backs.len()
                invariant
                    q <= write_backs@.len(),
                    wb == params_view(write_backs@),
                    accts == accounts(wb),
                    is_account == (exists|x: int| 0 <= x < q && accts[x] == name@),
                decreases write_backs@.len() - q,
            {
                assert(accts[q as int] == write_backs@[q as int].0@);
                if write_backs[q].0 == *name {
                    is_account = true;
                }
                assert(is_account == (exists|x: int| 0 <= x < q + 1 && accts[x] == name@)) by {
                    if accts[q as int] == name@ {
                        assert(0 <= q < q + 1 && accts[q as int] == name@);
                    }
                }
                q = q + 1;
            }
            assert(is_account == accts.contains(name@));
            assert(bound.take(k + 1).drop_last() == bound.take(k as int));
            assert(bound.take(k + 1).last() == name@);
            if !is_account {
                proof {
                    lemma_memory_remove(self.memory@, name@);
                }
                self.memory.remove(name);
            }
            k = k + 1;
        }
        assert(bound.take(k as int) == bound);
        Ok(())
    }

    #[verifier::rlimit(30)]
    fn evaluate_expression(&self, expr: &Expression) -> (r: Result<RuntimeValue, Stop>)
        ensures
            stop_eval_agrees(r, ev_eval(self.state().memory, expr@)),
        decreases expr,
    {
        match expr {
            Expression::MoneyLiteral { amount, currency } => Ok(
                RuntimeValue::Money { amount: *amount, currency: currency.clone() },
            ),
            Expression::BooleanLiteral(b) => Ok(RuntimeValue::Boolean(*b)),
            Expression::Identifier(name) => match self.memory.get(name) {
                Some(v) => Ok(v.duplicate()),
                None => Err(Stop::Error(concat3("Undefined variable: '", name.as_str(), "'"))),
            },
            Expression::BinaryOperation { left, operator, right } => {
                let l = match self.evaluate_expression(left) {
                    Ok(v) => v,
                    Err(f) => return Err(f),
                };
                let r = match self.evaluate_expression(right) {
                    Ok(v) => v,
                    Err(f) => return Err(f),
                };
                binary_operation(l, r, operator)
            },
        }
    }
}

/// A binary operation on two evaluated operands.
fn binary_operation(l: RuntimeValue, r: RuntimeValue, operator: &Operator) -> (res: Result<RuntimeValue, Stop>)
    ensures
        stop_eval_agrees(res, ev_binary_op(l@, r@, *operator)),
{
    match (&l, &r) {
        (RuntimeValue::Money { amount: l_amt, currency: l_cur }, RuntimeValue::Money { amount: r_amt, currency: r_cur }) => {
            proof {
                use_type_invariant(l_amt);
                use_type_invariant(r_amt);
            }
            if *l_cur != *r_cur {
                let mut m = concat5("Currency mismatch: cannot ", operator_verb_text(operator), " ", l_cur.as_str(), " with ");
                m.append(r_cur.as_str());
                return Err(Stop::Error(m));
            }
            let result = match operator {
                Operator::Plus => decimal_checked_add(l_amt, r_amt),
                Operator::Minus => decimal_checked_sub(l_amt, r_amt),
                Operator::Multiply => decimal_checked_mul(l_amt, r_amt),
                Operator::Divide => {
                    if r_amt.equals(&Amount::zero()) {
                        return Err(Stop::Error(String::from_str("Division by zero")));
                    }
                    decimal_checked_div(l_amt, r_amt)
                },
                Operator::LessThan => return Ok(RuntimeValue::Boolean(decimal_lt(l_amt, r_amt))),
                Operator::GreaterThan => return Ok(RuntimeValue::Boolean(decimal_gt(l_amt, r_amt))),
                Operator::Equal => return Ok(RuntimeValue::Boolean(decimal_eq(l_amt, r_amt))),
                Operator::NotEqual => return Ok(RuntimeValue::Boolean(!decimal_eq(l_amt, r_amt))),
            };
            match result {
                Some(a) => Ok(RuntimeValue::Money { amount: a, currency: l_cur.clone() }),
                None => Err(Stop::Halted),
            }
        },
        (RuntimeValue::Boolean(l_bool), RuntimeValue::Boolean(r_bool)) => {
            match operator {
                Operator::Equal => Ok(RuntimeValue::Boolean(*l_bool == *r_bool)),
                Operator::NotEqual => Ok(RuntimeValue::Boolean(*l_bool != *r_bool)),
                _ => Err(Stop::Error(concat3("Invalid operator ", operator_name_text(operator), " for boolean operands"))),
            }
        },
        _ => {
            let lt = l.debug_text();
            let rt = r.debug_text();
            let mut m = concat5("Type mismatch in binary operation: ", lt.as_str(), " ", operator_name_text(operator), " ");
            m.append(rt.as_str());
            Err(Stop::Error(m))
        },
    }
}

} // verus!
