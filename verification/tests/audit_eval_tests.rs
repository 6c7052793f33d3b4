use yarat::ast::Program;
use yarat::codegen::{format_runtime_value, Evaluator, RuntimeValue};
use yarat::lexer::Lexer;
use yarat::money::Amount;
use yarat::parser::Parser;
use yarat::semantic::{Analyzer, AuditEvent};
use yarat::server::evaluate_request;
use yarat::symbol_table::SymbolTable;
use yarat::table::Table;
use yarat::text::count_text;

fn parse(code: &str) -> Program {
    let lexer = Lexer::new(code);
    let mut parser = Parser::new(lexer);
    parser.parse_program()
}

fn audit(code: &str) -> (Result<(), String>, Analyzer) {
    let program = parse(code);
    let mut analyzer = Analyzer::new();
    let r = analyzer.analyze_program(&program);
    (r, analyzer)
}

fn evaluate(code: &str) -> (Result<(), String>, Evaluator) {
    let program = parse(code);
    let mut evaluator = Evaluator::new();
    let r = evaluator.try_evaluate_program(&program, 64).expect("the run halted");
    (r, evaluator)
}

fn memory_text(ev: &Evaluator, name: &str) -> Option<String> {
    ev.memory.get(&name.to_string()).map(format_runtime_value)
}

const README_EXAMPLE: &str = "asset KES = Fiat(precision: 2)\nasset USD = Fiat(precision: 2)\nvault = 500.00 USD\nfee = 10.00 USD\nnet = vault - fee";

#[test]
fn auditor_accepts_the_readme_example() {
    let (r, analyzer) = audit(README_EXAMPLE);
    assert_eq!(r, Ok(()));
    assert_eq!(analyzer.symbol_table.lookup_variable("net"), Some(&"USD".to_string()));
    assert_eq!(analyzer.symbol_table.lookup_asset("KES").map(|a| a.precision), Some(2));
    assert_eq!(analyzer.audit_log().len(), 5);
    match &analyzer.audit_log()[0] {
        AuditEvent::AssetRegistered { ticker, precision } => {
            assert_eq!(ticker, "KES");
            assert_eq!(*precision, 2);
        }
        other => panic!("unexpected {:?}", other),
    }
    match &analyzer.audit_log()[4] {
        AuditEvent::AssignmentValidated { identifier, value_type } => {
            assert_eq!(identifier, "net");
            assert_eq!(value_type, "USD");
        }
        other => panic!("unexpected {:?}", other),
    }
}

#[test]
fn auditor_rejects_mixed_currencies() {
    let (r, _) = audit("asset KES = Fiat(precision: 2)\nasset USD = Fiat(precision: 2)\na = 1 KES + 1 USD");
    assert_eq!(
        r,
        Err("❌ CRITICAL ERROR: Type mismatch! Cannot operate between 'KES' and 'USD'.".to_string())
    );
}

#[test]
fn auditor_rejects_unregistered_asset() {
    let (r, _) = audit("a = 1 KES");
    assert_eq!(r, Err("❌ CRITICAL ERROR: Unregistered asset 'KES'.".to_string()));
}

#[test]
fn auditor_rejects_undefined_variable() {
    let (r, _) = audit("a = b");
    assert_eq!(r, Err("❌ CRITICAL ERROR: Variable 'b' is used before defined.".to_string()));
}

#[test]
fn auditor_rejects_math_on_booleans() {
    let (r, _) = audit("a = true + false");
    assert_eq!(r, Err("❌ CRITICAL ERROR: Cannot do math on Booleans.".to_string()));
}

#[test]
fn auditor_comparison_is_boolean() {
    let (r, analyzer) = audit("asset KES = Fiat(precision: 2)\nok = 1 KES < 2 KES\nsame = true == false");
    assert_eq!(r, Ok(()));
    assert_eq!(analyzer.symbol_table.lookup_variable("ok"), Some(&"BOOLEAN".to_string()));
    assert_eq!(analyzer.symbol_table.lookup_variable("same"), Some(&"BOOLEAN".to_string()));
}

#[test]
fn auditor_if_condition_must_be_boolean() {
    let (r, _) = audit("asset KES = Fiat(precision: 2)\nif 1 KES { a = true }");
    assert_eq!(
        r,
        Err("❌ CRITICAL ERROR: 'if' condition must be a Boolean, found 'KES'.".to_string())
    );
}

#[test]
fn auditor_checks_both_branches() {
    let (r, _) = audit("if true { a = true } else { b = c }");
    assert_eq!(r, Err("❌ CRITICAL ERROR: Variable 'c' is used before defined.".to_string()));
}

#[test]
fn auditor_enforces_argument_count() {
    let (r, _) = audit(
        "asset KES = Fiat(precision: 2)\ntransaction Pay(a: KES, b: KES) { a = a - b }\nPay(1 KES)",
    );
    assert_eq!(r, Err("❌ CRITICAL ERROR: Transaction 'Pay' expects 2 arguments.".to_string()));
}

#[test]
fn auditor_enforces_parameter_types() {
    let (r, _) = audit(
        "asset KES = Fiat(precision: 2)\nasset USD = Fiat(precision: 2)\ntransaction Pay(a: KES) { a = a }\nPay(1 USD)",
    );
    assert_eq!(
        r,
        Err("❌ CRITICAL ERROR: Contract parameter 'a' requires 'KES', but you passed 'USD'.".to_string())
    );
}

#[test]
fn auditor_rejects_undefined_transaction() {
    let (r, _) = audit("Pay()");
    assert_eq!(r, Err("❌ CRITICAL ERROR: Transaction 'Pay' is called but undefined.".to_string()));
}

#[test]
fn auditor_accepts_a_valid_call() {
    let (r, analyzer) = audit(
        "asset KES = Fiat(precision: 2)\nw = 5 KES\ntransaction Pay(a: KES) { a = a - 1 KES }\nPay(w)",
    );
    assert_eq!(r, Ok(()));
    let log = analyzer.audit_log();
    assert!(matches!(&log[log.len() - 1], AuditEvent::CallValidated { name } if name == "Pay"));
    assert!(log.iter().any(|e| matches!(e, AuditEvent::TransactionRegistered { name } if name == "Pay")));
    assert_eq!(analyzer.symbol_table.lookup_variable("a"), None);
    assert_eq!(analyzer.symbol_table.lookup_variable("w"), Some(&"KES".to_string()));
}

#[test]
fn evaluator_runs_the_readme_example() {
    let (r, ev) = evaluate(README_EXAMPLE);
    assert_eq!(r, Ok(()));
    assert_eq!(memory_text(&ev, "vault"), Some("500.00 USD".to_string()));
    assert_eq!(memory_text(&ev, "fee"), Some("10.00 USD".to_string()));
    assert_eq!(memory_text(&ev, "net"), Some("490.00 USD".to_string()));
}

#[test]
fn evaluator_writes_back_and_cleans_up() {
    let (r, ev) = evaluate(
        "asset KES = Fiat(precision: 2)\nwallet = 100 KES\ntransaction Charge(acct: KES, fee: KES) { acct = acct - fee }\nCharge(wallet, 30 KES)",
    );
    assert_eq!(r, Ok(()));
    assert_eq!(memory_text(&ev, "wallet"), Some("70 KES".to_string()));
    assert_eq!(memory_text(&ev, "acct"), None);
    assert_eq!(memory_text(&ev, "fee"), None);
}

#[test]
fn evaluator_passes_an_account_named_like_its_parameter_by_reference() {
    let (r, ev) = evaluate(
        "asset KES = Fiat(precision: 2)\nwallet = 100.00 KES\ntransaction Pay(wallet: KES) { wallet = wallet - 10.00 KES }\nPay(wallet)",
    );
    assert_eq!(r, Ok(()));
    assert_eq!(memory_text(&ev, "wallet"), Some("90.00 KES".to_string()));
    assert_eq!(ev.memory.entries().len(), 1);
}

#[test]
fn evaluator_removes_parameters_bound_to_literals() {
    let (r, ev) = evaluate("transaction T(x: KES) { }\nT(5.00 KES)");
    assert_eq!(r, Ok(()));
    assert!(ev.memory.is_empty());
}

#[test]
fn evaluator_undefined_variable() {
    let (r, _) = evaluate("a = b");
    assert_eq!(r, Err("Undefined variable: 'b'".to_string()));
}

#[test]
fn evaluator_currency_mismatch_names_the_operation() {
    let (r, _) = evaluate("a = 1 KES + 2 USD");
    assert_eq!(r, Err("Currency mismatch: cannot add KES with USD".to_string()));
    let (r, _) = evaluate("a = 1 KES / 2 USD");
    assert_eq!(r, Err("Currency mismatch: cannot divide KES with USD".to_string()));
    let (r, _) = evaluate("a = 1 KES < 2 USD");
    assert_eq!(r, Err("Currency mismatch: cannot operate on KES with USD".to_string()));
}

#[test]
fn evaluator_division_by_zero() {
    let (r, ev) = evaluate("x = 1 KES\na = 1 KES / 0 KES");
    assert_eq!(r, Err("Division by zero".to_string()));
    assert_eq!(memory_text(&ev, "x"), Some("1 KES".to_string()));
    assert_eq!(memory_text(&ev, "a"), None);
}

#[test]
fn evaluator_boolean_operators() {
    let (r, ev) = evaluate("a = true == false\nb = true != false");
    assert_eq!(r, Ok(()));
    assert_eq!(memory_text(&ev, "a"), Some("false".to_string()));
    assert_eq!(memory_text(&ev, "b"), Some("true".to_string()));
    let (r, _) = evaluate("a = true + false");
    assert_eq!(r, Err("Invalid operator Plus for boolean operands".to_string()));
}

#[test]
fn evaluator_type_mismatch_shows_both_values() {
    let (r, _) = evaluate("a = 1 KES < true");
    assert_eq!(
        r,
        Err("Type mismatch in binary operation: Money { amount: 1, currency: \"KES\" } LessThan Boolean(true)"
            .to_string())
    );
}

#[test]
fn evaluator_arithmetic_results() {
    let (r, ev) = evaluate("a = 2.5 KES * 4 KES\nb = 10 KES / 4 KES\nc = 3 KES > 2 KES");
    assert_eq!(r, Ok(()));
    assert_eq!(memory_text(&ev, "a"), Some("10.0 KES".to_string()));
    assert_eq!(memory_text(&ev, "b"), Some("2.50 KES".to_string()));
    assert_eq!(memory_text(&ev, "c"), Some("true".to_string()));
}

#[test]
fn evaluator_if_branches() {
    let (r, ev) = evaluate("if 1 KES < 2 KES { a = true } else { a = false }\nif false { b = true } else { b = false }");
    assert_eq!(r, Ok(()));
    assert_eq!(memory_text(&ev, "a"), Some("true".to_string()));
    assert_eq!(memory_text(&ev, "b"), Some("false".to_string()));
}

#[test]
fn evaluator_call_to_unknown_transaction_does_nothing() {
    let (r, ev) = evaluate("Pay(1 KES)");
    assert_eq!(r, Ok(()));
    assert!(ev.memory.is_empty());
}

#[test]
fn evaluator_more_arguments_than_parameters_halts() {
    let program = parse("transaction T(a: KES) { }\nT(1 KES, 2 KES)");
    let mut ev = Evaluator::new();
    assert!(ev.try_evaluate_program(&program, 64).is_none());
}

#[test]
fn evaluator_stores_transactions() {
    let (_, ev) = evaluate("transaction T(a: KES, b: USD) { x = a }");
    let (params, body) = ev.transaction_vault.get(&"T".to_string()).unwrap();
    assert_eq!(params, &vec![("a".to_string(), "KES".to_string()), ("b".to_string(), "USD".to_string())]);
    assert_eq!(body.statements.len(), 1);
}

#[test]
fn runtime_value_texts() {
    let v = RuntimeValue::Money { amount: Amount::parse("12.50").unwrap(), currency: "KES".to_string() };
    assert_eq!(format_runtime_value(&v), "12.50 KES");
    assert_eq!(v.debug_text(), "Money { amount: 12.50, currency: \"KES\" }");
    assert_eq!(format_runtime_value(&RuntimeValue::Boolean(true)), "true");
    assert_eq!(RuntimeValue::Boolean(false).debug_text(), "Boolean(false)");
}

#[test]
fn service_runs_the_api_example() {
    let r = evaluate_request(README_EXAMPLE, 64).unwrap().unwrap();
    assert_eq!(r.get(&"vault".to_string()), Some(&"500.00 USD".to_string()));
    assert_eq!(r.get(&"fee".to_string()), Some(&"10.00 USD".to_string()));
    assert_eq!(r.get(&"net".to_string()), Some(&"490.00 USD".to_string()));
    assert_eq!(r.entries().len(), 3);
}

#[test]
fn service_reports_the_audit_error() {
    let r = evaluate_request("a = 1 KES", 64).unwrap();
    assert_eq!(r.unwrap_err(), "❌ CRITICAL ERROR: Unregistered asset 'KES'.");
}

#[test]
fn service_keeps_memory_when_evaluation_fails() {
    let r = evaluate_request("asset KES = Fiat(precision: 2)\nx = 1 KES\ny = x / 0 KES", 64).unwrap().unwrap();
    assert_eq!(r.get(&"x".to_string()), Some(&"1 KES".to_string()));
    assert_eq!(r.get(&"y".to_string()), None);
}

#[test]
fn symbol_table_define_and_lookup() {
    let mut sym = SymbolTable::new();
    assert!(sym.lookup_asset("KES").is_none());
    sym.define_asset("KES".to_string(), 2);
    sym.define_asset("KES".to_string(), 4);
    assert_eq!(sym.lookup_asset("KES").unwrap().precision, 4);
    sym.define_variable("x".to_string(), "KES".to_string());
    assert_eq!(sym.lookup_variable("x"), Some(&"KES".to_string()));
    assert_eq!(sym.lookup_variable("y"), None);
    sym.define_transaction("T".to_string(), vec![("a".to_string(), "KES".to_string())]);
    assert_eq!(sym.lookup_transaction("T").unwrap().expected_parameters.len(), 1);
    assert!(sym.lookup_transaction("U").is_none());
}

#[test]
fn table_insert_get_remove() {
    let mut t: Table<u32> = Table::new();
    assert!(t.is_empty());
    t.insert("a".to_string(), 1);
    t.insert("b".to_string(), 2);
    t.insert("a".to_string(), 3);
    assert_eq!(t.entries().len(), 2);
    assert_eq!(t.get(&"a".to_string()), Some(&3));
    assert!(t.contains(&"b".to_string()));
    assert_eq!(t.remove(&"b".to_string()), Some(2));
    assert_eq!(t.remove(&"b".to_string()), None);
    assert!(!t.contains(&"b".to_string()));
    t.clear();
    assert!(t.is_empty());
}

#[test]
fn count_text_writes_decimal_digits() {
    assert_eq!(count_text(0), "0");
    assert_eq!(count_text(7), "7");
    assert_eq!(count_text(1203), "1203");
}

#[test]
fn audited_straight_line_program_stops_only_at_division_by_zero() {
    let code = "asset KES = Fiat(precision: 2)\nx = 5 KES\ny = x / 0 KES";
    let (r, _) = audit(code);
    assert_eq!(r, Ok(()));
    let (r, _) = evaluate(code);
    assert_eq!(r, Err("Division by zero".to_string()));
}

#[test]
fn audited_ordering_of_truth_values_fails_at_run_time() {
    let code = "a = true < false";
    let (r, _) = audit(code);
    assert_eq!(r, Ok(()));
    let (r, _) = evaluate(code);
    assert_eq!(r, Err("Invalid operator LessThan for boolean operands".to_string()));
    let mut vm = yarat::vm::YaraTVM::new();
    let r = vm.try_execute(&parse(code), 64).unwrap();
    assert_eq!(r, Err("Invalid operator for boolean comparison".to_string()));
}

#[test]
fn auditor_forgets_a_variable_the_branches_disagree_on() {
    let code = "asset KES = Fiat(precision: 2)\nasset USD = Fiat(precision: 2)\nif true { x = 1 KES } else { x = 1 USD }\ny = x + 1 USD";
    let (r, _) = audit(code);
    assert_eq!(r, Err("❌ CRITICAL ERROR: Variable 'x' is used before defined.".to_string()));
}

#[test]
fn auditor_keeps_a_variable_both_branches_agree_on() {
    let code = "asset KES = Fiat(precision: 2)\nif true { x = 1 KES } else { x = 2 KES }\ny = x + 1 KES";
    let (r, analyzer) = audit(code);
    assert_eq!(r, Ok(()));
    assert_eq!(analyzer.symbol_table.lookup_variable("y"), Some(&"KES".to_string()));
}

#[test]
fn auditor_rejects_a_branch_that_may_retype_a_variable() {
    let code = "asset KES = Fiat(precision: 2)\na = true\nif false { a = 0 KES }\nb = a + 0 KES";
    let (r, _) = audit(code);
    assert_eq!(r, Err("❌ CRITICAL ERROR: Variable 'a' is used before defined.".to_string()));
}

#[test]
fn auditor_keeps_parameters_inside_the_body() {
    let code = "asset KES = Fiat(precision: 2)\ntransaction T(p: KES) { q = p + 1 KES }\nx = p";
    let (r, analyzer) = audit(code);
    assert_eq!(r, Err("❌ CRITICAL ERROR: Variable 'p' is used before defined.".to_string()));
    assert_eq!(analyzer.symbol_table.lookup_transaction("T").map(|t| t.expected_parameters.len()), Some(1));
}

#[test]
fn auditor_checks_a_body_against_its_parameters_alone() {
    let code = "asset KES = Fiat(precision: 2)\ntreasury_vault = 1000000.00 KES\ntotal_disbursed = 0.00 KES\ntransaction ProcessLoan(loan_amount: KES, fee: KES, user_wallet: KES) {\n    if treasury_vault > loan_amount {\n        net_payout = loan_amount - fee\n        treasury_vault = treasury_vault - net_payout\n        user_wallet = user_wallet + net_payout\n        total_disbursed = total_disbursed + net_payout\n        status_success = true\n    } else {\n        status_success = false\n    }\n}";
    let (r, _) = audit(code);
    assert_eq!(r, Err("❌ CRITICAL ERROR: Variable 'treasury_vault' is used before defined.".to_string()));
    let vm_run = {
        let mut vm = yarat::vm::YaraTVM::new();
        vm.try_execute(&parse(&format!("{}\nProcessLoan(5 KES, 1 KES, treasury_vault)", code)), 64).unwrap()
    };
    assert_eq!(vm_run, Err("Variable 'treasury_vault' not found".to_string()));
}

#[test]
fn auditor_accepts_a_contract_over_its_parameters() {
    let code = "asset KES = Fiat(precision: 2)\ntransaction Pay(vault: KES, amount: KES, ok: BOOLEAN) {\n  if vault > amount { vault = vault - amount\n ok = true } else { ok = false }\n}\nv = 10 KES\nflag = false\nPay(v, 3 KES, flag)\nrest = v + 1 KES";
    let (r, _) = audit(code);
    assert_eq!(r, Ok(()));
    let mut vm = yarat::vm::YaraTVM::new();
    assert_eq!(vm.try_execute(&parse(code), 64).unwrap(), Ok(()));
    assert_eq!(vm.memory.get(&"rest".to_string()).map(|x| x.text()), Some("8 KES".to_string()));
}

#[test]
fn auditor_rejects_a_second_declaration() {
    let (r, _) = audit("transaction T(a: KES) { }\ntransaction T(b: USD) { }");
    assert_eq!(r, Err("❌ CRITICAL ERROR: Transaction 'T' is already defined.".to_string()));
}

#[test]
fn auditor_rejects_nested_declarations() {
    let (r, _) = audit("if true { transaction T(a: KES) { } }");
    assert_eq!(r, Err("❌ CRITICAL ERROR: Transactions must be declared at the top level.".to_string()));
    let (r, _) = audit("transaction T(a: KES) { transaction U(b: KES) { } }");
    assert_eq!(r, Err("❌ CRITICAL ERROR: Transactions must be declared at the top level.".to_string()));
}

#[test]
fn auditor_rejects_a_body_that_retypes_a_parameter() {
    let (r, _) = audit("transaction T(a: KES) { a = true }");
    assert_eq!(
        r,
        Err("❌ CRITICAL ERROR: Transaction 'T' must leave parameter 'a' with its declared type.".to_string())
    );
}

#[test]
fn evaluator_writes_negative_and_fractional_amounts() {
    let (r, ev) = evaluate("a = 1 KES - 3 KES\nb = 0.5 KES - 0.505 KES\nc = 2 KES - 2 KES");
    assert_eq!(r, Ok(()));
    assert_eq!(memory_text(&ev, "a"), Some("-2 KES".to_string()));
    assert_eq!(memory_text(&ev, "b"), Some("-0.005 KES".to_string()));
    assert_eq!(memory_text(&ev, "c"), Some("0 KES".to_string()));
}
