//! What single operations are for, stated against their inputs: `!=` answers
//! the opposite of `==`, a call writes back to every account named among its
//! arguments, a call's argument is a whole expression, and a request reports
//! every variable of the final memory.
use crate::ast::{ExprView, Operator, StmtView};
use crate::codegen::{EvBind, EvState, ev_binary_op, ev_bind, ev_program};
use crate::lexer::lemma_lex_token_not_eof;
use crate::money::{
    Amount, decimal_difference, decimal_product, decimal_quotient, decimal_sum, decimal_text,
};
use crate::parser::{
    Precedence, TokenSource, arg_loop, expr_loop, parse_expression, parse_source, parse_txcall, tk, token_operator,
    token_precedence,
};
use crate::semantic::audit_block;
use crate::server::{empty_audit, request_outcome};
use crate::token::TokenView;
use crate::value::{Value, value_text};
use crate::vm::{Eval, money_or_halt, vm_binary_op};
use vstd::prelude::*;

verus! {

/// On the machine, two amounts of one currency compare equal exactly when they
/// have the same numeric value, and `!=` always answers the opposite of `==`.
pub proof fn lemma_vm_not_equal_is_not_equal(a: Amount, b: Amount, c: Seq<char>)
    ensures
        vm_binary_op(Value::Money { amount: a, currency: c }, Value::Money { amount: b, currency: c }, Operator::Equal)
            == Eval::Val(Value::Boolean(a.same_value(b))),
        vm_binary_op(
            Value::Money { amount: a, currency: c },
            Value::Money { amount: b, currency: c },
            Operator::NotEqual,
        ) == Eval::Val(Value::Boolean(!a.same_value(b))),
{
}

/// On the machine, each operator on two amounts of one currency does what it
/// names: `+`, `-`, `*` and `/` give `Decimal`'s sum, difference, product and
/// quotient in that currency (or halt where it overflows), `/` refuses a zero
/// divisor, `<` orders by numeric value, and `a > b` answers `b < a`.
pub proof fn lemma_vm_same_currency_operations(a: Amount, b: Amount, c: Seq<char>)
    ensures
        ({
            let l = Value::Money { amount: a, currency: c };
            let r = Value::Money { amount: b, currency: c };
            &&& vm_binary_op(l, r, Operator::Plus) == money_or_halt(decimal_sum(a, b), c)
            &&& vm_binary_op(l, r, Operator::Minus) == money_or_halt(decimal_difference(a, b), c)
            &&& vm_binary_op(l, r, Operator::Multiply) == money_or_halt(decimal_product(a, b), c)
            &&& vm_binary_op(l, r, Operator::Divide) == if b.same_value(Amount::zero_spec()) {
                Eval::Fail("Division by zero"@)
            } else {
                money_or_halt(decimal_quotient(a, b), c)
            }
            &&& vm_binary_op(l, r, Operator::LessThan) == Eval::Val(Value::Boolean(a.less_than(b)))
            &&& vm_binary_op(l, r, Operator::GreaterThan) == vm_binary_op(r, l, Operator::LessThan)
        }),
{
}

/// In the evaluator, each operator on two amounts of one currency does what it
/// names, as on the machine.
pub proof fn lemma_evaluator_same_currency_operations(a: Amount, b: Amount, c: Seq<char>)
    ensures
        ({
            let l = Value::Money { amount: a, currency: c };
            let r = Value::Money { amount: b, currency: c };
            &&& ev_binary_op(l, r, Operator::Plus) == money_or_halt(decimal_sum(a, b), c)
            &&& ev_binary_op(l, r, Operator::Minus) == money_or_halt(decimal_difference(a, b), c)
            &&& ev_binary_op(l, r, Operator::Multiply) == money_or_halt(decimal_product(a, b), c)
            &&& ev_binary_op(l, r, Operator::Divide) == if b.same_value(Amount::zero_spec()) {
                Eval::Fail("Division by zero"@)
            } else {
                money_or_halt(decimal_quotient(a, b), c)
            }
            &&& ev_binary_op(l, r, Operator::LessThan) == Eval::Val(Value::Boolean(a.less_than(b)))
            &&& ev_binary_op(l, r, Operator::GreaterThan) == ev_binary_op(r, l, Operator::LessThan)
        }),
{
    reveal_strlit("Division by zero");
}

/// On the machine, `!=` between two truth values answers the opposite of `==`.
pub proof fn lemma_vm_not_equal_on_truth_values(x: bool, y: bool)
    ensures
        vm_binary_op(Value::Boolean(x), Value::Boolean(y), Operator::Equal) == Eval::Val(Value::Boolean(x == y)),
        vm_binary_op(Value::Boolean(x), Value::Boolean(y), Operator::NotEqual) == Eval::Val(Value::Boolean(x != y)),
{
}

/// In the evaluator too, two amounts of one currency compare equal exactly when
/// they have the same numeric value, and `!=` answers the opposite of `==`.
pub proof fn lemma_evaluator_not_equal_is_not_equal(a: Amount, b: Amount, c: Seq<char>)
    ensures
        ev_binary_op(Value::Money { amount: a, currency: c }, Value::Money { amount: b, currency: c }, Operator::Equal)
            == Eval::Val(Value::Boolean(a.same_value(b))),
        ev_binary_op(
            Value::Money { amount: a, currency: c },
            Value::Money { amount: b, currency: c },
            Operator::NotEqual,
        ) == Eval::Val(Value::Boolean(!a.same_value(b))),
{
}

/// The accounts of a call: for each argument that names a variable, in order,
/// that name paired with the parameter at the argument's position.
pub open spec fn identifier_arguments(params: Seq<(Seq<char>, Seq<char>)>, args: Seq<ExprView>) -> Seq<
    (Seq<char>, Seq<char>),
>
    decreases args.len(),
{
    if args.len() == 0 {
        Seq::empty()
    } else {
        let rest = identifier_arguments(params, args.drop_last());
        match args.last() {
            ExprView::Ident(n) => rest.push((n, params[args.len() - 1].0)),
            _ => rest,
        }
    }
}

proof fn lemma_identifier_arguments_contains(params: Seq<(Seq<char>, Seq<char>)>, args: Seq<ExprView>, j: int)
    requires
        0 <= j < args.len(),
        args[j] is Ident,
    ensures
        identifier_arguments(params, args).contains((args[j]->Ident_0, params[j].0)),
    decreases args.len(),
{
    let rest = identifier_arguments(params, args.drop_last());
    if j == args.len() - 1 {
        let pair = (args[j]->Ident_0, params[j].0);
        assert(identifier_arguments(params, args) == rest.push(pair));
        assert(identifier_arguments(params, args)[rest.len() as int] == pair);
    } else {
        assert(args.drop_last()[j] == args[j]);
        lemma_identifier_arguments_contains(params, args.drop_last(), j);
        let pair = (args[j]->Ident_0, params[j].0);
        let k = choose|k: int| 0 <= k < rest.len() && rest[k] == pair;
        let full = identifier_arguments(params, args);
        match args.last() {
            ExprView::Ident(n) => {
                assert(full == rest.push((n, params[args.len() - 1].0)));
                assert(full[k] == pair);
            },
            _ => {
                assert(full[k] == pair);
            },
        }
    }
}

proof fn lemma_ev_bind_write_backs(
    params: Seq<(Seq<char>, Seq<char>)>,
    args: Seq<ExprView>,
    i: nat,
    mem: Map<Seq<char>, Value>,
    wb: Seq<(Seq<char>, Seq<char>)>,
)
    requires
        i <= args.len(),
        wb == identifier_arguments(params, args.take(i as int)),
    ensures
        ev_bind(params, args, i, mem, wb) matches EvBind::Bound { write_backs, .. } ==> write_backs
            == identifier_arguments(params, args),
    decreases args.len() - i,
{
    if i < args.len() && i < params.len() {
        let p = params[i as int].0;
        assert(args.take((i + 1) as int).drop_last() == args.take(i as int));
        assert(args.take((i + 1) as int).last() == args[i as int]);
        match crate::codegen::ev_eval(mem, args[i as int]) {
            Eval::Val(v) => {
                let wb2 = match args[i as int] {
                    ExprView::Ident(orig) => wb.push((orig, p)),
                    _ => wb,
                };
                assert(wb2 == identifier_arguments(params, args.take((i + 1) as int)));
                lemma_ev_bind_write_backs(params, args, i + 1, mem.insert(p, v), wb2);
            },
            _ => {},
        }
    } else if i >= args.len() {
        assert(args.take(i as int) == args);
    }
}

/// Pass by reference in the evaluator: binding a call's arguments records,
/// in order, one write-back for every argument that names a variable, whatever
/// its position, pairing that account with the parameter at that position.
pub proof fn lemma_evaluator_writes_back_every_account(
    params: Seq<(Seq<char>, Seq<char>)>,
    args: Seq<ExprView>,
    mem: Map<Seq<char>, Value>,
)
    ensures
        ev_bind(params, args, 0, mem, Seq::empty()) matches EvBind::Bound { write_backs, .. } ==> {
            &&& write_backs == identifier_arguments(params, args)
            &&& forall|j: int|
                0 <= j < args.len() && #[trigger] args[j] is Ident ==> write_backs.contains(
                    (args[j]->Ident_0, params[j].0),
                )
        },
{
    assert(args.take(0) =~= Seq::<ExprView>::empty());
    lemma_ev_bind_write_backs(params, args, 0, mem, Seq::empty());
    assert forall|j: int| 0 <= j < args.len() && #[trigger] args[j] is Ident implies identifier_arguments(
        params,
        args,
    ).contains((args[j]->Ident_0, params[j].0)) by {
        lemma_identifier_arguments_contains(params, args, j);
    }
}

/// An expression parsed at the lowest precedence takes in every operator that
/// follows it: the token after it writes no operator.
proof fn lemma_expr_loop_is_maximal(input: TokenSource, k: nat, left: ExprView)
    requires
        expr_loop(input, k, left, Precedence::Lowest.level()).0 is Some,
    ensures
        token_operator(tk(input, expr_loop(input, k, left, Precedence::Lowest.level()).1 + 1)) is None,
    decreases crate::parser::room(input, k),
{
    let pk = tk(input, k + 1);
    if pk !is EOF && 1 < token_precedence(pk).level() {
        match token_operator(pk) {
            None => {},
            Some(op) => {
                if input.wf() {
                    lemma_lex_token_not_eof(input.text, input.start, k + 1);
                    let next_prec = token_precedence(tk(input, k + 2)).level();
                    let (right, k3) = parse_expression(input, k + 2, next_prec);
                    match right {
                        Some(r) => if k3 > k {
                            lemma_expr_loop_is_maximal(
                                input,
                                k3,
                                ExprView::Binary { left: Box::new(left), op, right: Box::new(r) },
                            );
                        },
                        None => {},
                    }
                }
            },
        }
    }
}

/// An expression parsed at the lowest precedence is maximal: whatever token
/// follows it writes no binary operator.
pub proof fn lemma_expression_takes_every_operator(input: TokenSource, k: nat)
    requires
        parse_expression(input, k, Precedence::Lowest.level()).0 is Some,
    ensures
        token_operator(tk(input, parse_expression(input, k, Precedence::Lowest.level()).1 + 1)) is None,
{
    let (left, k1) = crate::parser::parse_primary(input, k);
    lemma_expr_loop_is_maximal(input, k1, left->Some_0);
}

proof fn lemma_arg_loop_prefix(input: TokenSource, k: nat, acc: Seq<ExprView>)
    ensures
        arg_loop(input, k, acc).0.len() >= acc.len(),
        forall|i: int| 0 <= i < acc.len() ==> #[trigger] arg_loop(input, k, acc).0[i] == acc[i],
    decreases crate::parser::room(input, k),
{
    if !(tk(input, k) is CloseParen || tk(input, k) is EOF || !input.wf()) {
        lemma_lex_token_not_eof(input.text, input.start, k);
        let (e, k1) = parse_expression(input, k, Precedence::Lowest.level());
        let acc2 = match e {
            Some(x) => acc.push(x),
            None => acc,
        };
        let k3 = if tk(input, k1 + 1) is Comma {
            k1 + 2
        } else {
            k1 + 1
        };
        if k1 >= k {
            lemma_arg_loop_prefix(input, k3, acc2);
            assert forall|i: int| 0 <= i < acc.len() implies #[trigger] arg_loop(input, k, acc).0[i] == acc[i] by {
                assert(acc2[i] == acc[i]);
            }
        }
    }
}

/// Wherever a call's argument list goes on, its next argument is the whole
/// expression that starts there, parsed at the lowest precedence: every
/// argument, not only the first, takes in the operators that follow it.
pub proof fn lemma_every_argument_is_whole_expression(input: TokenSource, k: nat, acc: Seq<ExprView>)
    requires
        input.wf(),
        tk(input, k) !is CloseParen,
        tk(input, k) !is EOF,
        parse_expression(input, k, Precedence::Lowest.level()).0 is Some,
    ensures
        arg_loop(input, k, acc).0.len() > acc.len(),
        arg_loop(input, k, acc).0[acc.len() as int] == parse_expression(input, k, Precedence::Lowest.level()).0->Some_0,
        token_operator(tk(input, parse_expression(input, k, Precedence::Lowest.level()).1 + 1)) is None,
{
    lemma_lex_token_not_eof(input.text, input.start, k);
    let (e, k1) = parse_expression(input, k, Precedence::Lowest.level());
    let acc2 = acc.push(e->Some_0);
    let k3 = if tk(input, k1 + 1) is Comma {
        k1 + 2
    } else {
        k1 + 1
    };
    if k1 >= k {
        lemma_arg_loop_prefix(input, k3, acc2);
        assert(arg_loop(input, k3, acc2).0[acc.len() as int] == acc2[acc.len() as int]);
    }
    lemma_expression_takes_every_operator(input, k);
}

/// A call's first argument is a whole expression, parsed as the right side of
/// an assignment is: it takes in every operator that follows it (see
/// `lemma_expression_takes_every_operator`), so `Pay(10 KES + 5 KES)` has the
/// one argument `10 KES + 5 KES`.
pub proof fn lemma_call_argument_is_whole_expression(input: TokenSource, k: nat)
    requires
        input.wf(),
        tk(input, k) is Identifier,
        tk(input, k + 2) !is CloseParen,
        tk(input, k + 2) !is EOF,
        parse_expression(input, k + 2, Precedence::Lowest.level()).0 is Some,
    ensures
        parse_txcall(input, k).0 matches Some(StmtView::TxCall { arguments, .. }) && arguments.len() > 0
            && arguments[0] == parse_expression(input, k + 2, Precedence::Lowest.level()).0->Some_0,
        token_operator(tk(input, parse_expression(input, k + 2, Precedence::Lowest.level()).1 + 1)) is None,
{
    lemma_lex_token_not_eof(input.text, input.start, k + 2);
    let (e, k1) = parse_expression(input, k + 2, Precedence::Lowest.level());
    let acc2 = Seq::<ExprView>::empty().push(e->Some_0);
    let k3 = if tk(input, k1 + 1) is Comma {
        k1 + 2
    } else {
        k1 + 1
    };
    if k1 >= k + 2 {
        lemma_arg_loop_prefix(input, k3, acc2);
    }
    lemma_expression_takes_every_operator(input, k + 2);
}

/// How the report shows a value: an amount as its decimal text, a space and
/// its currency; a truth value as `true` or `false`.
pub open spec fn shown(v: Value) -> Seq<char> {
    match v {
        Value::Money { amount, currency } => decimal_text(amount) + seq![' '] + currency,
        Value::Boolean(b) => if b {
            seq!['t', 'r', 'u', 'e']
        } else {
            seq!['f', 'a', 'l', 's', 'e']
        },
    }
}

proof fn lemma_report_shows(mem: Map<Seq<char>, Value>)
    ensures
        mem.map_values(|v: Value| value_text(v)).dom() == mem.dom(),
        forall|k: Seq<char>| #[trigger] mem.contains_key(k) ==> mem.map_values(|v: Value| value_text(v))[k] == shown(
            mem[k],
        ),
{
    reveal_strlit("true");
    reveal_strlit("false");
    reveal_strlit(" ");
    assert(mem.map_values(|v: Value| value_text(v)).dom() =~= mem.dom());
    assert forall|k: Seq<char>| #[trigger] mem.contains_key(k) implies mem.map_values(|v: Value| value_text(v))[k]
        == shown(mem[k]) by {
        assert("true"@ =~= seq!['t', 'r', 'u', 'e']);
        assert("false"@ =~= seq!['f', 'a', 'l', 's', 'e']);
        assert(" "@ =~= seq![' ']);
    }
}

/// A request whose code passes the audit reports every variable of the
/// evaluator's final memory, and no other, each as `shown` writes it (truth
/// values included). Code that fails the audit is answered with the audit's
/// error.
#[verifier::spinoff_prover]
pub proof fn lemma_request_reports_every_variable(code: Seq<char>, max_depth: nat)
    ensures
        ({
            let prog = parse_source(TokenSource { text: code, start: 0 }).0;
            let run = ev_program(max_depth, EvState { memory: Map::empty(), vault: Map::empty() }, prog);
            match request_outcome(code, max_depth) {
                Some(Ok(report)) => {
                    &&& audit_block(empty_audit(), prog).1 is Ok
                    &&& run is Some
                    &&& report.dom() == run->Some_0.0.memory.dom()
                    &&& forall|k: Seq<char>|
                        #[trigger] run->Some_0.0.memory.contains_key(k) ==> report[k] == shown(
                            run->Some_0.0.memory[k],
                        )
                },
                Some(Err(m)) => audit_block(empty_audit(), prog).1 == Err::<(), Seq<char>>(m),
                None => audit_block(empty_audit(), prog).1 is Ok && run is None,
            }
        }),
{
    let prog = parse_source(TokenSource { text: code, start: 0 }).0;
    let run = ev_program(max_depth, EvState { memory: Map::empty(), vault: Map::empty() }, prog);
    match run {
        Some((st, _)) => lemma_report_shows(st.memory),
        None => {},
    }
}

} // verus!
