use yarat::ast::{Operator, Program};
use yarat::lexer::Lexer;
use yarat::money::Amount;
use yarat::parser::Parser;
use yarat::vm::{VMValue, YaraTVM};

fn amount(s: &str) -> Amount {
    Amount::parse(s).unwrap()
}

fn money(s: &str, currency: &str) -> VMValue {
    VMValue::Money { amount: amount(s), currency: currency.to_string() }
}

fn parse(code: &str) -> Program {
    let lexer = Lexer::new(code);
    let mut parser = Parser::new(lexer);
    parser.parse_program()
}

fn memory_text(vm: &YaraTVM, name: &str) -> Option<String> {
    vm.memory.get(&name.to_string()).map(|v| v.text())
}

#[test]
fn test_money_arithmetic_precision() {
    let vm = YaraTVM::new();
    let a = money("1000.00", "KES");
    let b = money("0.01", "KES");
    let sum = vm.execute_binary_op(a, b, &Operator::Plus).unwrap();
    match sum {
        VMValue::Money { amount: s, currency } => {
            assert!(s.equals(&amount("1000.01")));
            assert!(!s.equals(&amount("1000.0099999999")));
            assert_eq!(currency, "KES");
        }
        _ => panic!("expected an amount"),
    }
}

#[test]
fn test_currency_type_safety() {
    let usd = money("100.00", "USD");
    let kes = money("10000.00", "KES");
    let vm = YaraTVM::new();
    let result = vm.execute_binary_op(usd, kes, &Operator::Plus);
    assert!(result.is_err());
}

#[test]
fn vm_currency_mismatch_message_names_both_amounts() {
    let vm = YaraTVM::new();
    let r = vm.execute_binary_op(money("100.00", "USD"), money("5", "KES"), &Operator::Minus);
    assert_eq!(r.unwrap_err(), "Currency mismatch: cannot operate 100.00 USD with 5 KES");
}

#[test]
fn vm_refuses_to_compare_across_currencies() {
    let vm = YaraTVM::new();
    let r = vm.execute_binary_op(money("100.00", "USD"), money("100.00", "KES"), &Operator::Equal);
    assert_eq!(r.unwrap_err(), "Currency mismatch: cannot operate 100.00 USD with 100.00 KES");
    let r = vm.execute_binary_op(money("1", "USD"), money("2", "KES"), &Operator::NotEqual);
    assert!(r.is_err());
    let r = vm.execute_binary_op(money("1.0", "KES"), money("1.00", "KES"), &Operator::Equal).unwrap();
    assert!(matches!(r, VMValue::Boolean(true)));
}

#[test]
fn vm_comparisons_and_arithmetic() {
    let vm = YaraTVM::new();
    let r = vm.execute_binary_op(money("2.5", "KES"), money("10", "KES"), &Operator::LessThan).unwrap();
    assert!(matches!(r, VMValue::Boolean(true)));
    let r = vm.execute_binary_op(money("2.5", "KES"), money("10", "KES"), &Operator::GreaterThan).unwrap();
    assert!(matches!(r, VMValue::Boolean(false)));
    let r = vm.execute_binary_op(money("2.5", "KES"), money("4", "KES"), &Operator::Multiply).unwrap();
    assert_eq!(r.text(), "10.0 KES");
    let r = vm.execute_binary_op(money("10", "KES"), money("4", "KES"), &Operator::Divide).unwrap();
    assert_eq!(r.text(), "2.50 KES");
    let r = vm.execute_binary_op(money("10.00", "KES"), money("0.5", "KES"), &Operator::Minus).unwrap();
    assert_eq!(r.text(), "9.50 KES");
}

#[test]
fn vm_division_by_zero_is_an_error() {
    let vm = YaraTVM::new();
    let r = vm.execute_binary_op(money("10", "KES"), money("0.00", "KES"), &Operator::Divide);
    assert_eq!(r.unwrap_err(), "Division by zero");
}

#[test]
fn vm_boolean_operations() {
    let vm = YaraTVM::new();
    let r = vm.execute_binary_op(VMValue::Boolean(true), VMValue::Boolean(false), &Operator::NotEqual).unwrap();
    assert!(matches!(r, VMValue::Boolean(true)));
    let r = vm.execute_binary_op(VMValue::Boolean(true), VMValue::Boolean(false), &Operator::Plus);
    assert_eq!(r.unwrap_err(), "Invalid operator for boolean comparison");
    let r = vm.execute_binary_op(VMValue::Boolean(true), money("1", "KES"), &Operator::Equal);
    assert_eq!(r.unwrap_err(), "Type mismatch in binary operation");
}

#[test]
fn vm_overflow_is_reported_by_checked_operation() {
    let vm = YaraTVM::new();
    let big = "79228162514264337593543950335";
    let r = vm.checked_binary_op(money(big, "KES"), money(big, "KES"), &Operator::Plus);
    assert!(r.is_none());
    let r = vm.checked_binary_op(money("1", "KES"), money("2", "KES"), &Operator::Plus);
    assert_eq!(r.unwrap().unwrap().text(), "3 KES");
}

#[test]
fn vm_truthiness() {
    assert!(money("0.01", "KES").is_truthy());
    assert!(!money("0.00", "KES").is_truthy());
    assert!(VMValue::Boolean(true).is_truthy());
    assert!(!VMValue::Boolean(false).is_truthy());
}

#[test]
fn vm_runs_the_api_example() {
    let program = parse("asset USD = Fiat(precision: 2)\nvault = 500.00 USD\nfee = 10.00 USD\nnet = vault - fee");
    let mut vm = YaraTVM::new();
    assert!(vm.execute(&program).is_ok());
    assert_eq!(memory_text(&vm, "vault").unwrap(), "500.00 USD");
    assert_eq!(memory_text(&vm, "fee").unwrap(), "10.00 USD");
    assert_eq!(memory_text(&vm, "net").unwrap(), "490.00 USD");
    assert_eq!(*vm.assets.get(&"USD".to_string()).unwrap(), 2);
    assert_eq!(vm.stats.instructions_executed, 1);
    let snapshot = vm.get_memory_snapshot();
    assert_eq!(snapshot.get(&"net".to_string()).unwrap(), "490.00 USD");
    assert_eq!(snapshot.entries().len(), 3);
}

#[test]
fn vm_transaction_writes_back_to_accounts() {
    let code = "asset KES = Fiat(precision: 2)
        wallet = 100.00 KES
        shop = 0.00 KES
        transaction Pay(sender: KES, receiver: KES, amount: KES) {
            sender = sender - amount
            receiver = receiver + amount
        }
        Pay(wallet, shop, 30.00 KES)";
    let program = parse(code);
    let mut vm = YaraTVM::new();
    assert!(vm.execute(&program).is_ok());
    assert_eq!(memory_text(&vm, "wallet").unwrap(), "70.00 KES");
    assert_eq!(memory_text(&vm, "shop").unwrap(), "30.00 KES");
    assert!(memory_text(&vm, "sender").is_none());
    assert!(memory_text(&vm, "amount").is_none());
    assert_eq!(vm.stats.transactions_executed, 1);
    let f = vm.functions.get(&"Pay".to_string()).unwrap();
    assert_eq!(f.parameters.len(), 3);
    assert_eq!(f.locals_count, 3);
    assert_eq!(f.parameters[2].1, "KES");
}

#[test]
fn vm_transaction_cannot_see_globals() {
    let code = "asset KES = Fiat(precision: 2)
        treasury = 10.00 KES
        wallet = 1.00 KES
        transaction Take(w: KES) {
            w = w + treasury
        }
        Take(wallet)";
    let mut vm = YaraTVM::new();
    let r = vm.execute(&parse(code));
    assert_eq!(r.unwrap_err(), "Variable 'treasury' not found");
    assert!(memory_text(&vm, "wallet").is_none());
    assert!(vm.functions.get(&"Take".to_string()).is_some());
}

#[test]
fn vm_error_keeps_memory() {
    let mut vm = YaraTVM::new();
    assert!(vm.execute(&parse("asset KES = Fiat(precision: 2)\na = 1 KES")).is_ok());
    let r = vm.execute(&parse("a = 2 KES\nb = a / 0 KES"));
    assert_eq!(r.unwrap_err(), "Division by zero");
    assert_eq!(memory_text(&vm, "a").unwrap(), "1 KES");
    assert!(memory_text(&vm, "b").is_none());
    assert_eq!(vm.stats.instructions_executed, 1);
}

#[test]
fn vm_call_errors() {
    let mut vm = YaraTVM::new();
    let r = vm.execute(&parse("Missing(x)"));
    assert_eq!(r.unwrap_err(), "Transaction 'Missing' not found");
    let r = vm.execute(&parse("transaction T(a: KES) { a = a }\nT(x, y)"));
    assert_eq!(r.unwrap_err(), "Transaction 'T' expects 1 arguments, got 2");
}

#[test]
fn vm_if_statement_branches() {
    let code = "asset KES = Fiat(precision: 2)
        a = 5 KES
        if a > 1 KES { big = true } else { big = false }
        if a < 1 KES { small = true }";
    let mut vm = YaraTVM::new();
    assert!(vm.execute(&parse(code)).is_ok());
    assert_eq!(memory_text(&vm, "big").unwrap(), "true");
    assert!(memory_text(&vm, "small").is_none());
}

#[test]
fn vm_recursion_beyond_depth_halts() {
    let code = "asset KES = Fiat(precision: 2)
        transaction Spin(a: KES) { Spin(a) }
        x = 1 KES
        Spin(x)";
    let mut vm = YaraTVM::new();
    assert!(vm.try_execute(&parse(code), 20).is_none());
}

#[test]
fn vm_compile_registers_without_running() {
    let code = "asset KES = Fiat(precision: 4)
        a = 1 KES
        transaction T(p: KES) { p = p }";
    let mut vm = YaraTVM::new();
    assert!(vm.compile(&parse(code)).is_ok());
    assert_eq!(*vm.assets.get(&"KES".to_string()).unwrap(), 4);
    assert!(vm.functions.get(&"T".to_string()).unwrap().bytecode.is_empty());
    assert!(vm.memory.get(&"a".to_string()).is_none());
}

#[test]
fn vm_reset_clears_everything() {
    let mut vm = YaraTVM::new();
    assert!(vm.execute(&parse("asset KES = Fiat(precision: 2)\na = 1 KES\ntransaction T(p: KES) { p = p }\nT(a)")).is_ok());
    vm.reset();
    assert!(vm.memory.is_empty());
    assert!(vm.functions.is_empty());
    assert!(vm.assets.is_empty());
    assert_eq!(vm.stats.transactions_executed, 0);
    assert_eq!(vm.stats.instructions_executed, 0);
}
