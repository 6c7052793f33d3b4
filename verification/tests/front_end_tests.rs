use yarat::ast::{Expression, Operator, Program, Statement};
use yarat::lexer::Lexer;
use yarat::money::Amount;
use yarat::parser::Parser;
use yarat::token::Token;

fn tokens(code: &str) -> Vec<Token> {
    let mut lexer = Lexer::new(code);
    let mut out = Vec::new();
    loop {
        let t = lexer.next_token();
        let end = t == Token::EOF;
        out.push(t);
        if end {
            return out;
        }
    }
}

fn parse_with_ignored(code: &str) -> (Program, Vec<Token>) {
    let lexer = Lexer::new(code);
    let mut parser = Parser::new(lexer);
    let program = parser.parse_program();
    let ignored = parser.ignored_tokens().clone();
    (program, ignored)
}

fn amount(s: &str) -> Amount {
    Amount::parse(s).unwrap()
}

#[test]
fn lexer_reads_asset_declaration() {
    assert_eq!(
        tokens("asset KES = Fiat(precision: 2)"),
        vec![
            Token::AssetKeyword,
            Token::CurrencyTicker("KES".to_string()),
            Token::Assign,
            Token::Identifier("Fiat".to_string()),
            Token::OpenParen,
            Token::Identifier("precision".to_string()),
            Token::Colon,
            Token::MoneyLiteral(amount("2")),
            Token::CloseParen,
            Token::EOF,
        ]
    );
}

#[test]
fn lexer_strips_commas_from_numbers() {
    let ts = tokens("150,000.00 KES");
    assert_eq!(ts.len(), 3);
    match &ts[0] {
        Token::MoneyLiteral(a) => {
            assert!(a.equals(&amount("150000.00")));
            assert_eq!(a.text(), "150000.00");
        }
        other => panic!("unexpected {:?}", other),
    }
    assert_eq!(ts[1], Token::CurrencyTicker("KES".to_string()));
}

#[test]
fn lexer_unreadable_number_is_zero() {
    let ts = tokens("1.2.3");
    match &ts[0] {
        Token::MoneyLiteral(a) => assert_eq!(a.text(), "0"),
        other => panic!("unexpected {:?}", other),
    }
}

#[test]
fn lexer_three_letter_words() {
    assert_eq!(tokens("USD")[0], Token::CurrencyTicker("USD".to_string()));
    assert_eq!(tokens("fee")[0], Token::Identifier("fee".to_string()));
    assert_eq!(tokens("Usd")[0], Token::Identifier("Usd".to_string()));
    assert_eq!(tokens("fees")[0], Token::Identifier("fees".to_string()));
}

#[test]
fn lexer_keywords_and_operators() {
    assert_eq!(
        tokens("if else true false transaction == != ! = + - * / < > { } , @"),
        vec![
            Token::If,
            Token::Else,
            Token::True,
            Token::False,
            Token::Transaction,
            Token::Equal,
            Token::NotEqual,
            Token::Illegal('!'),
            Token::Assign,
            Token::Plus,
            Token::Minus,
            Token::Asterisk,
            Token::Slash,
            Token::LessThan,
            Token::GreaterThan,
            Token::LBrace,
            Token::RBrace,
            Token::Comma,
            Token::At,
            Token::EOF,
        ]
    );
}

#[test]
fn lexer_skips_comments_and_stays_at_end() {
    let mut lexer = Lexer::new("  // a comment\n x // trailing");
    assert_eq!(lexer.next_token(), Token::Identifier("x".to_string()));
    assert_eq!(lexer.next_token(), Token::EOF);
    assert_eq!(lexer.next_token(), Token::EOF);
    assert_eq!(lexer.next_token(), Token::EOF);
}

#[test]
fn lexer_illegal_character() {
    assert_eq!(tokens("#"), vec![Token::Illegal('#'), Token::EOF]);
}

#[test]
fn parser_reads_statements() {
    let (program, ignored) = parse_with_ignored(
        "asset KES = Fiat(precision: 2)\nvault = 500.00 KES\nfee = 10.00 @ KES\nnet = vault - fee * 2 KES",
    );
    assert!(ignored.is_empty());
    assert_eq!(program.statements.len(), 4);
    match &program.statements[0] {
        Statement::AssetDeclaration { ticker, precision } => {
            assert_eq!(ticker, "KES");
            assert_eq!(*precision, 2);
        }
        other => panic!("unexpected {:?}", other),
    }
    match &program.statements[2] {
        Statement::Assignment { identifier, value: Expression::MoneyLiteral { amount: a, currency } } => {
            assert_eq!(identifier, "fee");
            assert_eq!(a.text(), "10.00");
            assert_eq!(currency, "KES");
        }
        other => panic!("unexpected {:?}", other),
    }
    match &program.statements[3] {
        Statement::Assignment { value: Expression::BinaryOperation { left, operator, right }, .. } => {
            assert!(matches!(**left, Expression::Identifier(ref n) if n == "vault"));
            assert_eq!(*operator, Operator::Minus);
            assert!(matches!(**right, Expression::BinaryOperation { operator: Operator::Multiply, .. }));
        }
        other => panic!("unexpected {:?}", other),
    }
}

#[test]
fn parser_precision_that_is_not_an_integer_defaults_to_two() {
    let (program, _) = parse_with_ignored("asset KES = Fiat(precision: 2.5)");
    match &program.statements[0] {
        Statement::AssetDeclaration { precision, .. } => assert_eq!(*precision, 2),
        other => panic!("unexpected {:?}", other),
    }
}

#[test]
fn parser_reads_transactions_and_calls() {
    let (program, ignored) = parse_with_ignored(
        "transaction ProcessLoan(loan_amount: KES, fee: KES, user_wallet: KES) {\n  if loan_amount > fee { ok = true } else { ok = false }\n}\nProcessLoan(a, b, 3 KES)",
    );
    assert!(ignored.is_empty());
    assert_eq!(program.statements.len(), 2);
    match &program.statements[0] {
        Statement::TransactionDeclaration { name, parameters, body } => {
            assert_eq!(name, "ProcessLoan");
            assert_eq!(parameters.len(), 3);
            assert_eq!(parameters[1].0, "fee");
            assert_eq!(parameters[1].1, "KES");
            assert_eq!(body.statements.len(), 1);
            assert!(matches!(body.statements[0], Statement::IfStatement { alternative: Some(_), .. }));
        }
        other => panic!("unexpected {:?}", other),
    }
    match &program.statements[1] {
        Statement::TransactionCall { name, arguments } => {
            assert_eq!(name, "ProcessLoan");
            assert_eq!(arguments.len(), 3);
        }
        other => panic!("unexpected {:?}", other),
    }
}

#[test]
fn parser_records_ignored_statements() {
    let (program, ignored) = parse_with_ignored("x = \ny = true\n+ 1");
    assert_eq!(program.statements.len(), 1);
    match &program.statements[0] {
        Statement::Assignment { identifier, value: Expression::Identifier(v) } => {
            assert_eq!(identifier, "x");
            assert_eq!(v, "y");
        }
        other => panic!("unexpected {:?}", other),
    }
    assert_eq!(
        ignored,
        vec![Token::Assign, Token::True, Token::Plus, Token::MoneyLiteral(amount("1"))]
    );
}

#[test]
fn parser_records_ignored_statements_inside_blocks() {
    let (program, ignored) = parse_with_ignored("if true { 5 KES\n x = 1 KES }\ny = true");
    assert_eq!(program.statements.len(), 2);
    match &program.statements[0] {
        Statement::IfStatement { consequence, .. } => assert_eq!(consequence.statements.len(), 1),
        other => panic!("unexpected {:?}", other),
    }
    assert_eq!(ignored, vec![Token::MoneyLiteral(amount("5")), Token::CurrencyTicker("KES".to_string())]);
}
