//! The virtual machine: runs an audited program statement by statement, each
//! transaction in a frame of its own.
use crate::ast::{
    BlockStatement, ExprView, Expression, Operator, Program, Statement, StmtView, expr_view, exprs_view,
    lemma_exprs_view, lemma_stmts_view, params_view, stmt_view, stmts_view,
};
use crate::money::{
    Amount, decimal_checked_add, decimal_checked_div, decimal_checked_mul, decimal_checked_sub,
    decimal_difference, decimal_eq, decimal_gt, decimal_lt, decimal_product, decimal_quotient,
    decimal_sum, decimal_text,
};
use crate::table::Table;
use crate::text::{concat3, count_text, decimal_digits};
use crate::value::{Value, bool_to_text, value_text};
use crate::clock::{clock_now, duration_nanos, elapsed_since};
use vstd::prelude::*;
use vstd::string::*;

verus! {

/// What evaluating an expression gives: a value, an error, or a halt where the
/// arithmetic overflows (where `Decimal`'s operators panic).
pub enum Eval {
    Val(Value),
    Fail(Seq<char>),
    Halt,
}

/// A stored transaction as the machine sees it.
pub struct FunctionView {
    pub name: Seq<char>,
    pub parameters: Seq<(Seq<char>, Seq<char>)>,
    pub body: Seq<StmtView>,
    pub locals_count: nat,
}

/// The machine's state apart from the variables of the running frame.
pub struct Globals {
    pub functions: Map<Seq<char>, FunctionView>,
    pub assets: Map<Seq<char>, u32>,
    pub transactions: u64,
}

/// A counter after one more event; it wraps around at `u64::MAX`, as `wrapping_add` does.
pub open spec fn next_count(n: u64) -> u64 {
    if n == u64::MAX {
        0
    } else {
        (n + 1) as u64
    }
}

/// The outcome of running statements: the state and the error that stopped
/// them, if any; or a halt (an overflow, or calls nested deeper than allowed).
pub enum Run {
    Done { globals: Globals, locals: Map<Seq<char>, Value>, result: Result<(), Seq<char>> },
    Halt,
}

pub open spec fn variable_not_found_msg(n: Seq<char>) -> Seq<char> {
    "Variable '"@ + n + "' not found"@
}

pub open spec fn transaction_not_found_msg(n: Seq<char>) -> Seq<char> {
    "Transaction '"@ + n + "' not found"@
}

pub open spec fn argument_count_msg(n: Seq<char>, expected: nat, got: nat) -> Seq<char> {
    "Transaction '"@ + n + "' expects "@ + decimal_digits(expected) + " arguments, got "@ + decimal_digits(got)
}

pub open spec fn currency_mismatch_msg(la: Amount, lc: Seq<char>, ra: Amount, rc: Seq<char>) -> Seq<char> {
    "Currency mismatch: cannot operate "@ + decimal_text(la) + " "@ + lc + " with "@ + decimal_text(ra) + " "@ + rc
}

pub open spec fn division_by_zero_msg() -> Seq<char> {
    "Division by zero"@
}

pub open spec fn boolean_operator_msg() -> Seq<char> {
    "Invalid operator for boolean comparison"@
}

pub open spec fn type_mismatch_msg() -> Seq<char> {
    "Type mismatch in binary operation"@
}

/// An amount, or a halt where the operation overflowed.
pub open spec fn money_or_halt(r: Option<Amount>, currency: Seq<char>) -> Eval {
    match r {
        Some(a) => Eval::Val(Value::Money { amount: a, currency }),
        None => Eval::Halt,
    }
}

/// A binary operation on two values. Amounts must share a currency, for every
/// operator, comparisons included.
pub open spec fn vm_binary_op(l: Value, r: Value, op: Operator) -> Eval {
    match (l, r) {
        (Value::Money { amount: la, currency: lc }, Value::Money { amount: ra, currency: rc }) => {
            if lc != rc {
                Eval::Fail(currency_mismatch_msg(la, lc, ra, rc))
            } else {
                match op {
                    Operator::Plus => money_or_halt(decimal_sum(la, ra), lc),
                    Operator::Minus => money_or_halt(decimal_difference(la, ra), lc),
                    Operator::Multiply => money_or_halt(decimal_product(la, ra), lc),
                    Operator::Divide => if ra.same_value(Amount::zero_spec()) {
                        Eval::Fail(division_by_zero_msg())
                    } else {
                        money_or_halt(decimal_quotient(la, ra), lc)
                    },
                    Operator::LessThan => Eval::Val(Value::Boolean(la.less_than(ra))),
                    Operator::GreaterThan => Eval::Val(Value::Boolean(ra.less_than(la))),
                    Operator::Equal => Eval::Val(Value::Boolean(la.same_value(ra))),
                    Operator::NotEqual => Eval::Val(Value::Boolean(!la.same_value(ra))),
                }
            }
        },
        (Value::Boolean(lb), Value::Boolean(rb)) => match op {
            Operator::Equal => Eval::Val(Value::Boolean(lb == rb)),
            Operator::NotEqual => Eval::Val(Value::Boolean(lb != rb)),
            _ => Eval::Fail(boolean_operator_msg()),
        },
        _ => Eval::Fail(type_mismatch_msg()),
    }
}

/// The value of an expression in a frame's variables.
pub open spec fn vm_eval(locals: Map<Seq<char>, Value>, e: ExprView) -> Eval
    decreases e,
{
    match e {
        ExprView::Money { amount, currency } => Eval::Val(Value::Money { amount, currency }),
        ExprView::Boolean(b) => Eval::Val(Value::Boolean(b)),
        ExprView::Ident(n) => if locals.contains_key(n) {
            Eval::Val(locals[n])
        } else {
            Eval::Fail(variable_not_found_msg(n))
        },
        ExprView::Binary { left, op, right } => match vm_eval(locals, *left) {
            Eval::Val(lv) => match vm_eval(locals, *right) {
                Eval::Val(rv) => vm_binary_op(lv, rv, op),
                other => other,
            },
            other => other,
        },
    }
}

/// How binding the arguments of a call ends.
pub enum Bind {
    Bound { frame: Map<Seq<char>, Value>, write_backs: Seq<(Seq<char>, Seq<char>)> },
    Fail(Seq<char>),
    Halt,
}

/// Binds arguments `i..` to parameters in the new frame, each evaluated in the
/// caller's frame; an argument that names a variable is written back after the call.
pub open spec fn vm_bind(
    caller: Map<Seq<char>, Value>,
    params: Seq<(Seq<char>, Seq<char>)>,
    args: Seq<ExprView>,
    i: nat,
    frame: Map<Seq<char>, Value>,
    wb: Seq<(Seq<char>, Seq<char>)>,
) -> Bind
    decreases args.len() - i,
{
    if i >= args.len() || i >= params.len() {
        Bind::Bound { frame, write_backs: wb }
    } else {
        let p = params[i as int].0;
        match vm_eval(caller, args[i as int]) {
            Eval::Val(v) => {
                let wb2 = match args[i as int] {
                    ExprView::Ident(orig) => wb.push((orig, p)),
                    _ => wb,
                };
                vm_bind(caller, params, args, i + 1, frame.insert(p, v), wb2)
            },
            Eval::Fail(m) => Bind::Fail(m),
            Eval::Halt => Bind::Halt,
        }
    }
}

/// The caller's variables after each `(account, parameter)` pair copies the
/// parameter's final value back to the account, in order.
pub open spec fn write_back(
    caller: Map<Seq<char>, Value>,
    frame: Map<Seq<char>, Value>,
    wb: Seq<(Seq<char>, Seq<char>)>,
) -> Map<Seq<char>, Value>
    decreases wb.len(),
{
    if wb.len() == 0 {
        caller
    } else {
        let c1 = write_back(caller, frame, wb.drop_last());
        let (orig, p) = wb.last();
        if frame.contains_key(p) {
            c1.insert(orig, frame[p])
        } else {
            c1
        }
    }
}

/// Runs one statement in a frame; `fuel` bounds how deeply calls may nest.
pub open spec fn vm_exec_stmt(fuel: nat, g: Globals, locals: Map<Seq<char>, Value>, s: StmtView) -> Run
    decreases fuel, s, 1nat,
{
    match s {
        StmtView::Asset { ticker, precision } => Run::Done {
            globals: Globals { assets: g.assets.insert(ticker, precision), ..g },
            locals,
            result: Ok(()),
        },
        StmtView::Assign { identifier, value } => match vm_eval(locals, value) {
            Eval::Val(v) => Run::Done { globals: g, locals: locals.insert(identifier, v), result: Ok(()) },
            Eval::Fail(m) => Run::Done { globals: g, locals, result: Err(m) },
            Eval::Halt => Run::Halt,
        },
        StmtView::If { condition, consequence, alternative } => match vm_eval(locals, condition) {
            Eval::Val(Value::Boolean(true)) => vm_exec_block(fuel, g, locals, consequence),
            Eval::Val(Value::Boolean(false)) => match alternative {
                Some(alt) => vm_exec_block(fuel, g, locals, alt),
                None => Run::Done { globals: g, locals, result: Ok(()) },
            },
            Eval::Val(Value::Money { .. }) => Run::Done { globals: g, locals, result: Ok(()) },
            Eval::Fail(m) => Run::Done { globals: g, locals, result: Err(m) },
            Eval::Halt => Run::Halt,
        },
        StmtView::TxDecl { name, parameters, body } => Run::Done {
            globals: Globals {
                functions: g.functions.insert(
                    name,
                    FunctionView { name, parameters, body, locals_count: parameters.len() },
                ),
                ..g
            },
            locals,
            result: Ok(()),
        },
        StmtView::TxCall { .. } => vm_call(fuel, g, locals, s),
    }
}

/// Calls a stored transaction: its arguments are bound to its parameters in a
/// new frame, its body runs there, and then each argument that names a variable
/// gets the parameter's final value back.
pub open spec fn vm_call(fuel: nat, g: Globals, locals: Map<Seq<char>, Value>, call: StmtView) -> Run
    decreases fuel, call, 0nat,
{
    let (name, arguments) = match call {
        StmtView::TxCall { name, arguments } => (name, arguments),
        _ => (Seq::empty(), Seq::empty()),
    };
    if !g.functions.contains_key(name) {
        Run::Done { globals: g, locals, result: Err(transaction_not_found_msg(name)) }
    } else {
        let f = g.functions[name];
        if arguments.len() != f.parameters.len() {
            Run::Done {
                globals: g,
                locals,
                result: Err(argument_count_msg(name, f.parameters.len(), arguments.len())),
            }
        } else {
            match vm_bind(locals, f.parameters, arguments, 0, Map::empty(), Seq::empty()) {
                Bind::Fail(m) => Run::Done { globals: g, locals, result: Err(m) },
                Bind::Halt => Run::Halt,
                Bind::Bound { frame, write_backs } => if fuel == 0 {
                    Run::Halt
                } else {
                    match vm_exec_block((fuel - 1) as nat, g, frame, f.body) {
                        Run::Halt => Run::Halt,
                        Run::Done { globals: g2, locals: frame2, result } => match result {
                            Err(m) => Run::Done { globals: g2, locals, result: Err(m) },
                            Ok(()) => Run::Done {
                                globals: Globals { transactions: next_count(g2.transactions), ..g2 },
                                locals: write_back(locals, frame2, write_backs),
                                result: Ok(()),
                            },
                        },
                    }
                },
            }
        }
    }
}

/// Runs statements in order, stopping at the first error.
pub open spec fn vm_exec_block(fuel: nat, g: Globals, locals: Map<Seq<char>, Value>, ss: Seq<StmtView>) -> Run
    decreases fuel, ss, 0nat,
{
    if ss.len() == 0 {
        Run::Done { globals: g, locals, result: Ok(()) }
    } else {
        match vm_exec_stmt(fuel, g, locals, ss[0]) {
            Run::Halt => Run::Halt,
            Run::Done { globals, locals: l1, result } => if result is Err {
                Run::Done { globals, locals: l1, result }
            } else {
                vm_exec_block(fuel, globals, l1, ss.drop_first())
            },
        }
    }
}

/// The whole machine: its memory, its stored transactions and assets, the
/// number of transactions run and of programs run.
pub struct VmView {
    pub memory: Map<Seq<char>, Value>,
    pub globals: Globals,
    pub programs: u64,
}

/// Runs a program: its statements run in a frame that starts as a copy of the
/// memory; on success the frame becomes the memory, on an error the memory is
/// left as it was (the transactions and assets registered stay). `None` for a halt.
pub open spec fn vm_run(fuel: nat, v: VmView, prog: Seq<StmtView>) -> Option<(VmView, Result<(), Seq<char>>)> {
    match vm_exec_block(fuel, v.globals, v.memory, prog) {
        Run::Halt => None,
        Run::Done { globals, locals, result } => match result {
            Ok(()) => Some((VmView { memory: locals, globals, programs: next_count(v.programs) }, Ok(()))),
            Err(m) => Some((VmView { memory: v.memory, globals, programs: v.programs }, Err(m))),
        },
    }
}

/// Registers the assets and stores the transactions declared at the top level
/// of a program, in order; other statements are left for later.
pub open spec fn vm_compile(g: Globals, ss: Seq<StmtView>) -> Globals
    decreases ss.len(),
{
    if ss.len() == 0 {
        g
    } else {
        let g1 = vm_compile(g, ss.drop_last());
        match ss.last() {
            StmtView::Asset { ticker, precision } => Globals { assets: g1.assets.insert(ticker, precision), ..g1 },
            StmtView::TxDecl { name, parameters, body } => Globals {
                functions: g1.functions.insert(
                    name,
                    FunctionView { name, parameters, body, locals_count: parameters.len() },
                ),
                ..g1
            },
            _ => g1,
        }
    }
}

/// Instructions for a stack machine; the machine keeps a list of them with each
/// stored transaction.
#[derive(Debug, Clone)]
pub enum OpCode {
    Push(Amount),
    PushCurrency(String),
    Load(String),
    Store(String),
    Add,
    Subtract,
    Multiply,
    Divide,
    LessThan,
    GreaterThan,
    Equal,
    NotEqual,
    Jump(usize),
    JumpIfFalse(usize),
    JumpIfTrue(usize),
    PushTrue,
    PushFalse,
    BeginTransaction,
    EndTransaction,
    Halt,
}

/// A stored transaction: its parameters and its body.
#[derive(Debug)]
pub struct CompiledFunction {
    pub name: String,
    pub parameters: Vec<(String, String)>,
    pub bytecode: Vec<OpCode>,
    pub locals_count: usize,
    pub body: BlockStatement,
}

impl View for CompiledFunction {
    type V = FunctionView;

    open spec fn view(&self) -> FunctionView {
        FunctionView {
            name: self.name@,
            parameters: params_view(self.parameters@),
            body: self.body@,
            locals_count: self.locals_count as nat,
        }
    }
}

impl CompiledFunction {
    /// A copy of what running the transaction needs (its name, parameters and body).
    fn runnable_copy(&self) -> (r: CompiledFunction)
        ensures
            r@ == self@,
    {
        CompiledFunction {
            name: self.name.clone(),
            parameters: crate::ast::copy_parameters(&self.parameters),
            bytecode: Vec::new(),
            locals_count: self.locals_count,
            body: self.body.duplicate(),
        }
    }
}

/// A run-time value.
#[derive(Debug, Clone)]
pub enum VMValue {
    Money { amount: Amount, currency: String },
    Boolean(bool),
}

impl View for VMValue {
    type V = Value;

    open spec fn view(&self) -> Value {
        match self {
            VMValue::Money { amount, currency } => Value::Money { amount: *amount, currency: currency@ },
            VMValue::Boolean(b) => Value::Boolean(*b),
        }
    }
}

impl VMValue {
    /// A copy.
    pub fn duplicate(&self) -> (r: VMValue)
        ensures
            r == *self,
    {
        match self {
            VMValue::Money { amount, currency } => VMValue::Money { amount: *amount, currency: currency.clone() },
            VMValue::Boolean(b) => VMValue::Boolean(*b),
        }
    }

    /// A truth value is itself; an amount is true when it is not zero.
    pub fn is_truthy(&self) -> (r: bool)
        ensures
            r == match self@ {
                Value::Boolean(b) => b,
                Value::Money { amount, .. } => !amount.same_value(Amount::zero_spec()),
            },
    {
        match self {
            VMValue::Boolean(b) => *b,
            VMValue::Money { amount, .. } => !amount.equals(&Amount::zero()),
        }
    }

    /// The value as a memory report shows it.
    pub fn text(&self) -> (r: String)
        ensures
            r@ == value_text(self@),
    {
        match self {
            VMValue::Money { amount, currency } => concat3(amount.text().as_str(), " ", currency.as_str()),
            VMValue::Boolean(b) => bool_to_text(*b),
        }
    }
}

/// The values of a table by their views.
pub open spec fn values_view(m: Map<Seq<char>, VMValue>) -> Map<Seq<char>, Value> {
    m.map_values(|v: VMValue| v@)
}

/// The stored transactions by their views.
pub open spec fn functions_view(m: Map<Seq<char>, CompiledFunction>) -> Map<Seq<char>, FunctionView> {
    m.map_values(|f: CompiledFunction| f@)
}

pub proof fn lemma_values_insert(m: Map<Seq<char>, VMValue>, k: Seq<char>, v: VMValue)
    ensures
        values_view(m.insert(k, v)) == values_view(m).insert(k, v@),
{
    assert(values_view(m.insert(k, v)) =~= values_view(m).insert(k, v@));
}

pub proof fn lemma_functions_insert(m: Map<Seq<char>, CompiledFunction>, k: Seq<char>, f: CompiledFunction)
    ensures
        functions_view(m.insert(k, f)) == functions_view(m).insert(k, f@),
{
    assert(functions_view(m.insert(k, f)) =~= functions_view(m).insert(k, f@));
}

/// Counters that describe the machine's work.
#[derive(Debug, Clone, Copy)]
pub struct VMStats {
    pub instructions_executed: u64,
    pub transactions_executed: u64,
    pub peak_memory_usage: usize,
    pub total_execution_time_ns: u128,
}

impl Default for VMStats {
    fn default() -> (r: VMStats)
        ensures
            r.instructions_executed == 0,
            r.transactions_executed == 0,
            r.peak_memory_usage == 0,
            r.total_execution_time_ns == 0,
    {
        VMStats { instructions_executed: 0, transactions_executed: 0, peak_memory_usage: 0, total_execution_time_ns: 0 }
    }
}

/// The variables of one running statement list.
struct Frame {
    locals: Table<VMValue>,
}

/// Why running stopped early.
enum Fault {
    Error(String),
    Halted,
}

/// An exec evaluation agrees with the spec.
pub open spec fn eval_agrees(r: Result<VMValue, String>, e: Eval) -> bool {
    match e {
        Eval::Val(v) => r matches Ok(x) && x@ == v,
        Eval::Fail(m) => r matches Err(x) && x@ == m,
        Eval::Halt => false,
    }
}

spec fn fault_eval_agrees(r: Result<VMValue, Fault>, e: Eval) -> bool {
    match e {
        Eval::Val(v) => r matches Ok(x) && x@ == v,
        Eval::Fail(m) => r matches Err(Fault::Error(x)) && x@ == m,
        Eval::Halt => r matches Err(Fault::Halted),
    }
}

/// The result of running statements, with the state after.
spec fn run_agrees(r: Result<(), Fault>, run: Run, g: Globals, locals: Map<Seq<char>, Value>) -> bool {
    match run {
        Run::Halt => r matches Err(Fault::Halted),
        Run::Done { globals, locals: l, result } => {
            &&& g == globals
            &&& locals == l
            &&& match result {
                Ok(()) => r is Ok,
                Err(m) => r matches Err(Fault::Error(x)) && x@ == m,
            }
        },
    }
}

/// The result's text by its view.
pub open spec fn result_view(r: Result<(), String>) -> Result<(), Seq<char>> {
    match r {
        Ok(()) => Ok(()),
        Err(m) => Err(m@),
    }
}

/// The virtual machine.
pub struct YaraTVM {
    pub memory: Table<VMValue>,
    pub functions: Table<CompiledFunction>,
    pub assets: Table<u32>,
    pub stats: VMStats,
}

impl YaraTVM {
    /// The assets, stored transactions and transaction count.
    pub open spec fn globals(&self) -> Globals {
        Globals {
            functions: functions_view(self.functions@),
            assets: self.assets@,
            transactions: self.stats.transactions_executed,
        }
    }

    /// The machine as a whole.
    pub open spec fn state(&self) -> VmView {
        VmView { memory: values_view(self.memory@), globals: self.globals(), programs: self.stats.instructions_executed }
    }

    /// An empty machine.
    pub fn new() -> (r: YaraTVM)
        ensures
            r.memory@ == Map::<Seq<char>, VMValue>::empty(),
            r.functions@ == Map::<Seq<char>, CompiledFunction>::empty(),
            r.assets@ == Map::<Seq<char>, u32>::empty(),
            r.stats.instructions_executed == 0,
            r.stats.transactions_executed == 0,
            r.stats.peak_memory_usage == 0,
            r.stats.total_execution_time_ns == 0,
    {
        YaraTVM {
            memory: Table::new(),
            functions: Table::new(),
            assets: Table::new(),
            stats: VMStats::default(),
        }
    }

    /// A binary operation on two values, or `None` where the arithmetic
    /// overflows (where `Decimal`'s operators panic).
    pub fn checked_binary_op(&self, left: VMValue, right: VMValue, op: &Operator) -> (r: Option<
        Result<VMValue, String>,
    >)
        ensures
            match vm_binary_op(left@, right@, *op) {
                Eval::Halt => r is None,
                e => r matches Some(x) && eval_agrees(x, e),
            },
    {
        match (left, right) {
            (VMValue::Money { amount: l_amt, currency: l_cur }, VMValue::Money { amount: r_amt, currency: r_cur }) => {
                proof {
                    use_type_invariant(&l_amt);
                    use_type_invariant(&r_amt);
                }
                if l_cur != r_cur {
                    let lt = l_amt.text();
                    let rt = r_amt.text();
                    let mut m = crate::text::concat5(
                        "Currency mismatch: cannot operate ",
                        lt.as_str(),
                        " ",
                        l_cur.as_str(),
                        " with ",
                    );
                    m.append(rt.as_str());
                    m.append(" ");
                    m.append(r_cur.as_str());
                    return Some(Err(m));
                }
                let result = match op {
                    Operator::Plus => decimal_checked_add(&l_amt, &r_amt),
                    Operator::Minus => decimal_checked_sub(&l_amt, &r_amt),
                    Operator::Multiply => decimal_checked_mul(&l_amt, &r_amt),
                    Operator::Divide => {
                        if r_amt.equals(&Amount::zero()) {
                            return Some(Err(String::from_str("Division by zero")));
                        }
                        decimal_checked_div(&l_amt, &r_amt)
                    },
                    Operator::LessThan => return Some(Ok(VMValue::Boolean(decimal_lt(&l_amt, &r_amt)))),
                    Operator::GreaterThan => return Some(Ok(VMValue::Boolean(decimal_gt(&l_amt, &r_amt)))),
                    Operator::Equal => return Some(Ok(VMValue::Boolean(decimal_eq(&l_amt, &r_amt)))),
                    Operator::NotEqual => return Some(Ok(VMValue::Boolean(!decimal_eq(&l_amt, &r_amt)))),
                };
                match result {
                    Some(a) => Some(Ok(VMValue::Money { amount: a, currency: l_cur })),
                    None => None,
                }
            },
            (VMValue::Boolean(l_bool), VMValue::Boolean(r_bool)) => {
                match op {
                    Operator::Equal => Some(Ok(VMValue::Boolean(l_bool == r_bool))),
                    Operator::NotEqual => Some(Ok(VMValue::Boolean(l_bool != r_bool))),
                    _ => Some(Err(String::from_str("Invalid operator for boolean comparison"))),
                }
            },
            _ => Some(Err(String::from_str("Type mismatch in binary operation"))),
        }
    }

    /// A binary operation on two values. Amounts must share a currency, for
    /// every operator; dividing by zero is an error.
    pub fn execute_binary_op(&self, left: VMValue, right: VMValue, op: &Operator) -> (r: Result<VMValue, String>)
        requires
            vm_binary_op(left@, right@, *op) !is Halt,
        ensures
            eval_agrees(r, vm_binary_op(left@, right@, *op)),
    {
        match self.checked_binary_op(left, right, op) {
            Some(r) => r,
            None => Err(String::new()),
        }
    }
}

/// The machine's fields other than the assets, transactions and transaction count.
pub open spec fn same_rest(a: &YaraTVM, b: &YaraTVM) -> bool {
    &&& a.memory@ == b.memory@
    &&& a.stats.instructions_executed == b.stats.instructions_executed
    &&& a.stats.peak_memory_usage == b.stats.peak_memory_usage
    &&& a.stats.total_execution_time_ns == b.stats.total_execution_time_ns
}

/// A copy of a table of values.
#[verifier::loop_isolation(false)]
fn copy_values(t: &Table<VMValue>) -> (r: Table<VMValue>)
    ensures
        r@ == t@,
{
    let entries = t.entries();
    let mut out: Table<VMValue> = Table::new();
    let mut i: usize = 0;
    while i < entries.len()
        invariant
            i <= entries@.len(),
            forall|k: Seq<char>| #[trigger] out@.contains_key(k) <==> exists|j: int| 0 <= j < i && entries@[j].0@ == k,
            forall|k: Seq<char>| #[trigger] out@.contains_key(k) ==> t@.contains_key(k) && out@[k] == t@[k],
        decreases entries@.len() - i,
    {
        let e = &entries[i];
        assert(t@.contains_key(entries@[i as int].0@));
        out.insert(e.0.clone(), e.1.duplicate());
        i = i + 1;
    }
    assert(out@ =~= t@) by {
        assert forall|k: Seq<char>| #[trigger] t@.contains_key(k) implies out@.contains_key(k) by {
            let j = choose|j: int| 0 <= j < entries@.len() && entries@[j].0@ == k;
            assert(0 <= j < i && entries@[j].0@ == k);
        }
    }
    out
}

impl YaraTVM {
    #[verifier::rlimit(30)]
    fn evaluate_expression(&self, expr: &Expression, frame: &Frame) -> (r: Result<VMValue, Fault>)
        ensures
            fault_eval_agrees(r, vm_eval(values_view(frame.locals@), expr@)),
        decreases expr,
    {
        match expr {
            Expression::MoneyLiteral { amount, currency } => Ok(
                VMValue::Money { amount: *amount, currency: currency.clone() },
            ),
            Expression::BooleanLiteral(b) => Ok(VMValue::Boolean(*b)),
            Expression::Identifier(name) => match frame.locals.get(name) {
                Some(v) => Ok(v.duplicate()),
                None => Err(Fault::Error(concat3("Variable '", name.as_str(), "' not found"))),
            },
            Expression::BinaryOperation { left, operator, right } => {
                let l = match self.evaluate_expression(left, frame) {
                    Ok(v) => v,
                    Err(f) => return Err(f),
                };
                let r = match self.evaluate_expression(right, frame) {
                    Ok(v) => v,
                    Err(f) => return Err(f),
                };
                match self.checked_binary_op(l, r, operator) {
                    Some(Ok(v)) => Ok(v),
                    Some(Err(m)) => Err(Fault::Error(m)),
                    None => Err(Fault::Halted),
                }
            },
        }
    }

    #[verifier::rlimit(30)]
    fn execute_statement(&mut self, stmt: &Statement, frame: &mut Frame, fuel: u64) -> (r: Result<(), Fault>)
        ensures
            run_agrees(
                r,
                vm_exec_stmt(fuel as nat, old(self).globals(), values_view(old(frame).locals@), stmt@),
                final(self).globals(),
                values_view(final(frame).locals@),
            ),
            same_rest(final(self), old(self)),
        decreases fuel, stmt, 1nat,
    {
        match stmt {
            Statement::AssetDeclaration { ticker, precision } => {
                self.assets.insert(ticker.clone(), *precision);
                Ok(())
            },
            Statement::Assignment { identifier, value } => {
                let val = match self.evaluate_expression(value, frame) {
                    Ok(v) => v,
                    Err(f) => return Err(f),
                };
                proof {
                    lemma_values_insert(frame.locals@, identifier@, val);
                }
                frame.locals.insert(identifier.clone(), val);
                Ok(())
            },
            Statement::IfStatement { condition, consequence, alternative } => {
                let cond = match self.evaluate_expression(condition, frame) {
                    Ok(v) => v,
                    Err(f) => return Err(f),
                };
                match cond {
                    VMValue::Boolean(is_true) => {
                        if is_true {
                            self.execute_block(&consequence.statements, frame, fuel)
                        } else {
                            match alternative {
                                Some(alt) => self.execute_block(&alt.statements, frame, fuel),
                                None => Ok(()),
                            }
                        }
                    },
                    _ => Ok(()),
                }
            },
            Statement::TransactionDeclaration { name, parameters, body } => {
                let func = CompiledFunction {
                    name: name.clone(),
                    parameters: crate::ast::copy_parameters(parameters),
                    bytecode: Vec::new(),
                    locals_count: parameters.len(),
                    body: body.duplicate(),
                };
                proof {
                    lemma_functions_insert(self.functions@, name@, func);
                }
                self.functions.insert(name.clone(), func);
                Ok(())
            },
            Statement::TransactionCall { .. } => self.execute_transaction_call(stmt, frame, fuel),
        }
    }

    #[verifier::rlimit(30)]
    fn execute_block(&mut self, stmts: &Vec<Statement>, frame: &mut Frame, fuel: u64) -> (r: Result<(), Fault>)
        ensures
            run_agrees(
                r,
                vm_exec_block(fuel as nat, old(self).globals(), values_view(old(frame).locals@), stmts_view(stmts@)),
                final(self).globals(),
                values_view(final(frame).locals@),
            ),
            same_rest(final(self), old(self)),
        decreases fuel, stmts, 0nat,
    {
        let ghost ss = stmts_view(stmts@);
        proof {
            lemma_stmts_view(stmts@);
        }
        let mut i: usize = 0;
        assert(ss.skip(0) == ss);
        while i < stmts.len()
            invariant
                i <= stmts@.len(),
                ss == stmts_view(stmts@),
                ss.len() == stmts@.len(),
                forall|j: int| 0 <= j < stmts@.len() ==> #[trigger] ss[j] == stmt_view(stmts@[j]),
                vm_exec_block(fuel as nat, old(self).globals(), values_view(old(frame).locals@), ss) == vm_exec_block(
                    fuel as nat,
                    self.globals(),
                    values_view(frame.locals@),
                    ss.skip(i as int),
                ),
                same_rest(self, old(self)),
            decreases stmts@.len() - i,
        {
            assert(ss.skip(i as int)[0] == ss[i as int]);
            assert(ss.skip(i as int).drop_first() == ss.skip(i + 1));
            let r = self.execute_statement(&stmts[i], frame, fuel);
            if r.is_err() {
                return r;
            }
            i = i + 1;
        }
        assert(ss.skip(i as int).len() == 0);
        Ok(())
    }

    #[verifier::loop_isolation(false)]
    #[verifier::rlimit(30)]
    fn execute_transaction_call(&mut self, stmt: &Statement, caller: &mut Frame, fuel: u64) -> (r: Result<(), Fault>)
        requires
            stmt is TransactionCall,
        ensures
            run_agrees(
                r,
                vm_call(fuel as nat, old(self).globals(), values_view(old(caller).locals@), stmt@),
                final(self).globals(),
                values_view(final(caller).locals@),
            ),
            same_rest(final(self), old(self)),
        decreases fuel, stmt, 0nat,
    {
        let (name, arguments) = match stmt {
            Statement::TransactionCall { name, arguments } => (name, arguments),
            _ => {
                return Err(Fault::Halted);
            },
        };
        let func = match self.functions.get(name) {
            Some(f) => f.runnable_copy(),
            None => {
                return Err(Fault::Error(concat3("Transaction '", name.as_str(), "' not found")));
            },
        };
        proof {
            lemma_exprs_view(arguments@);
        }
        let n = func.parameters.len();
        if arguments.len() != n {
            let expected = count_text(n);
            let got = count_text(arguments.len());
            let mut m = crate::text::concat5("Transaction '", name.as_str(), "' expects ", expected.as_str(), " arguments, got ");
            m.append(got.as_str());
            return Err(Fault::Error(m));
        }
        let ghost caller0 = values_view(caller.locals@);
        let ghost params = params_view(func.parameters@);
        let ghost args = exprs_view(arguments@);
        let mut tx_frame = Frame { locals: Table::new() };
        let mut write_backs: Vec<(String, String)> = Vec::new();
        assert(values_view(tx_frame.locals@) =~= Map::<Seq<char>, Value>::empty());
        assert(params_view(write_backs@) =~= Seq::<(Seq<char>, Seq<char>)>::empty());
        let mut i: usize = 0;
        while i < arguments.len()
            invariant
                i <= arguments@.len(),
                n == arguments@.len(),
                n == func.parameters@.len(),
                params == params_view(func.parameters@),
                args == exprs_view(arguments@),
                args.len() == arguments@.len(),
                forall|j: int| 0 <= j < arguments@.len() ==> #[trigger] args[j] == expr_view(arguments@[j]),
                caller0 == values_view(caller.locals@),
                vm_bind(caller0, params, args, 0, Map::empty(), Seq::empty()) == vm_bind(
                    caller0,
                    params,
                    args,
                    i as nat,
                    values_view(tx_frame.locals@),
                    params_view(write_backs@),
                ),
            decreases arguments@.len() - i,
        {
            let param_name = func.parameters[i].0.clone();
            let val = match self.evaluate_expression(&arguments[i], caller) {
                Ok(v) => v,
                Err(f) => return Err(f),
            };
            proof {
                lemma_values_insert(tx_frame.locals@, param_name@, val);
            }
            tx_frame.locals.insert(param_name.clone(), val);
            match &arguments[i] {
                Expression::Identifier(orig) => {
                    let ghost before = write_backs@;
                    write_backs.push((orig.clone(), param_name));
                    assert(params_view(write_backs@) =~= params_view(before).push((orig@, params[i as int].0)));
                },
                _ => {},
            }
            i = i + 1;
        }
        if fuel == 0 {
            return Err(Fault::Halted);
        }
        match self.execute_block(&func.body.statements, &mut tx_frame, fuel - 1) {
            Ok(()) => {},
            Err(f) => return Err(f),
        }
        let ghost frame2 = values_view(tx_frame.locals@);
        let ghost wb = params_view(write_backs@);
        let mut j: usize = 0;
        assert(wb.take(0) =~= Seq::<(Seq<char>, Seq<char>)>::empty());
        while j < write_backs.len()
            invariant
                j <= write_backs@.len(),
                wb == params_view(write_backs@),
                wb.len() == write_backs@.len(),
                frame2 == values_view(tx_frame.locals@),
                values_view(caller.locals@) == write_back(caller0, frame2, wb.take(j as int)),
            decreases write_backs@.len() - j,
        {
            let pair = &write_backs[j];
            assert(wb.take(j + 1).drop_last() == wb.take(j as int));
            assert(wb.take(j + 1).last() == (pair.0@, pair.1@));
            match tx_frame.locals.get(&pair.1) {
                Some(v) => {
                    let v2 = v.duplicate();
                    proof {
                        lemma_values_insert(caller.locals@, pair.0@, v2);
                    }
                    caller.locals.insert(pair.0.clone(), v2);
                },
                None => {},
            }
            j = j + 1;
        }
        assert(wb.take(j as int) == wb);
        self.stats.transactions_executed = self.stats.transactions_executed.wrapping_add(1);
        Ok(())
    }
}

/// A memory report: each variable's value as text.
pub open spec fn snapshot_view(m: Map<Seq<char>, VMValue>) -> Map<Seq<char>, Seq<char>> {
    m.map_values(|v: VMValue| value_text(v@))
}

/// A table of strings by their views.
pub open spec fn strings_view(m: Map<Seq<char>, String>) -> Map<Seq<char>, Seq<char>> {
    m.map_values(|s: String| s@)
}

impl YaraTVM {
    /// Runs a program with calls nested at most `max_depth` deep. `None` where
    /// the run halts: an arithmetic overflow (where `Decimal`'s operators panic)
    /// or calls nested deeper than that.
    pub fn try_execute(&mut self, program: &Program, max_depth: u64) -> (r: Option<Result<(), String>>)
        ensures
            match vm_run(max_depth as nat, old(self).state(), program@) {
                None => r is None,
                Some((v, res)) => r matches Some(x) && result_view(x) == res && final(self).state() == v,
            },
            r is Some ==> final(self).stats.peak_memory_usage == old(self).stats.peak_memory_usage,
            (r matches Some(Err(_))) ==> final(self).stats.total_execution_time_ns
                == old(self).stats.total_execution_time_ns,
    {
        let start = clock_now();
        let mut main_frame = Frame { locals: copy_values(&self.memory) };
        match self.execute_block(&program.statements, &mut main_frame, max_depth) {
            Ok(()) => {},
            Err(Fault::Error(m)) => return Some(Err(m)),
            Err(Fault::Halted) => return None,
        }
        self.memory = main_frame.locals;
        let elapsed = elapsed_since(&start);
        self.stats.total_execution_time_ns = duration_nanos(&elapsed);
        self.stats.instructions_executed = self.stats.instructions_executed.wrapping_add(1);
        Some(Ok(()))
    }

    /// Runs a program: its statements run in a frame that starts as a copy of
    /// the memory, and on success the frame's variables become the memory. On an
    /// error the memory is left as it was. The run must not halt (overflow, or
    /// nest calls beyond `u64::MAX`).
    pub fn execute(&mut self, program: &Program) -> (r: Result<(), String>)
        requires
            vm_run(u64::MAX as nat, old(self).state(), program@) is Some,
        ensures
            vm_run(u64::MAX as nat, old(self).state(), program@) == Some((final(self).state(), result_view(r))),
            final(self).stats.peak_memory_usage == old(self).stats.peak_memory_usage,
            r is Err ==> final(self).stats.total_execution_time_ns == old(self).stats.total_execution_time_ns,
    {
        match self.try_execute(program, u64::MAX) {
            Some(r) => r,
            None => Err(String::new()),
        }
    }

    /// Registers the assets and stores the transactions declared at the top
    /// level of the program; nothing is run.
    pub fn compile(&mut self, program: &Program) -> (r: Result<(), String>)
        ensures
            r is Ok,
            final(self).globals() == vm_compile(old(self).globals(), program@),
            same_rest(final(self), old(self)),
    {
        let stmts = &program.statements;
        let ghost ss = stmts_view(stmts@);
        proof {
            lemma_stmts_view(stmts@);
        }
        let mut i: usize = 0;
        assert(ss.take(0) =~= Seq::<StmtView>::empty());
        while i < stmts.len()
            invariant
                i <= stmts@.len(),
                ss == stmts_view(stmts@),
                ss.len() == stmts@.len(),
                forall|j: int| 0 <= j < stmts@.len() ==> #[trigger] ss[j] == stmt_view(stmts@[j]),
                self.globals() == vm_compile(old(self).globals(), ss.take(i as int)),
                same_rest(self, old(self)),
            decreases stmts@.len() - i,
        {
            assert(ss.take(i + 1).drop_last() == ss.take(i as int));
            assert(ss.take(i + 1).last() == ss[i as int]);
            match &stmts[i] {
                Statement::AssetDeclaration { ticker, precision } => {
                    self.assets.insert(ticker.clone(), *precision);
                },
                Statement::TransactionDeclaration { name, parameters, body } => {
                    let func = CompiledFunction {
                        name: name.clone(),
                        parameters: crate::ast::copy_parameters(parameters),
                        bytecode: Vec::new(),
                        locals_count: parameters.len(),
                        body: body.duplicate(),
                    };
                    proof {
                        lemma_functions_insert(self.functions@, name@, func);
                    }
                    self.functions.insert(name.clone(), func);
                },
                _ => {},
            }
            i = i + 1;
        }
        assert(ss.take(i as int) == ss);
        Ok(())
    }

    /// The memory as text: each variable with its value as a report shows it.
    #[verifier::loop_isolation(false)]
    pub fn get_memory_snapshot(&self) -> (r: Table<String>)
        ensures
            strings_view(r@) == snapshot_view(self.memory@),
    {
        let entries = self.memory.entries();
        let mut out: Table<String> = Table::new();
        let mut i: usize = 0;
        while i < entries.len()
            invariant
                i <= entries@.len(),
                forall|k: Seq<char>| #[trigger] out@.contains_key(k) <==> exists|j: int| 0 <= j < i && entries@[j].0@ == k,
                forall|k: Seq<char>| #[trigger] out@.contains_key(k) ==> self.memory@.contains_key(k) && out@[k]@
                    == value_text(self.memory@[k]@),
            decreases entries@.len() - i,
        {
            let e = &entries[i];
            assert(self.memory@.contains_key(entries@[i as int].0@));
            out.insert(e.0.clone(), e.1.text());
            i = i + 1;
        }
        assert(strings_view(out@) =~= snapshot_view(self.memory@)) by {
            assert forall|k: Seq<char>| #[trigger] self.memory@.contains_key(k) implies out@.contains_key(k) by {
                let j = choose|j: int| 0 <= j < entries@.len() && entries@[j].0@ == k;
                assert(0 <= j < i && entries@[j].0@ == k);
            }
        }
        out
    }

    /// Empties the machine.
    pub fn reset(&mut self)
        ensures
            final(self).memory@ == Map::<Seq<char>, VMValue>::empty(),
            final(self).functions@ == Map::<Seq<char>, CompiledFunction>::empty(),
            final(self).assets@ == Map::<Seq<char>, u32>::empty(),
            final(self).stats.instructions_executed == 0,
            final(self).stats.transactions_executed == 0,
            final(self).stats.peak_memory_usage == 0,
            final(self).stats.total_execution_time_ns == 0,
    {
        self.memory.clear();
        self.functions.clear();
        self.assets.clear();
        self.stats = VMStats::default();
    }
}

} // verus!
