//! The tokens of the language.
use crate::money::Amount;
use vstd::prelude::*;

verus! {

/// A token as the lexer hands it to the parser.
#[derive(Clone, Debug, PartialEq)]
pub enum Token {
    /// A number; the currency, when written, follows as its own token.
    MoneyLiteral(Amount),
    /// A word of three bytes, upper-cased.
    CurrencyTicker(String),
    AssetKeyword,
    Identifier(String),
    Plus,
    Minus,
    Assign,
    OpenParen,
    CloseParen,
    Colon,
    True,
    False,
    Asterisk,
    Slash,
    LessThan,
    GreaterThan,
    Equal,
    NotEqual,
    LBrace,
    RBrace,
    Comma,
    At,
    If,
    Else,
    Transaction,
    EOF,
    Illegal(char),
}

/// A token with its text as a sequence of characters.
pub enum TokenView {
    MoneyLiteral(Amount),
    CurrencyTicker(Seq<char>),
    AssetKeyword,
    Identifier(Seq<char>),
    Plus,
    Minus,
    Assign,
    OpenParen,
    CloseParen,
    Colon,
    True,
    False,
    Asterisk,
    Slash,
    LessThan,
    GreaterThan,
    Equal,
    NotEqual,
    LBrace,
    RBrace,
    Comma,
    At,
    If,
    Else,
    Transaction,
    EOF,
    Illegal(char),
}

impl View for Token {
    type V = TokenView;

    open spec fn view(&self) -> TokenView {
        match self {
            Token::MoneyLiteral(a) => TokenView::MoneyLiteral(*a),
            Token::CurrencyTicker(s) => TokenView::CurrencyTicker(s@),
            Token::AssetKeyword => TokenView::AssetKeyword,
            Token::Identifier(s) => TokenView::Identifier(s@),
            Token::Plus => TokenView::Plus,
            Token::Minus => TokenView::Minus,
            Token::Assign => TokenView::Assign,
            Token::OpenParen => TokenView::OpenParen,
            Token::CloseParen => TokenView::CloseParen,
            Token::Colon => TokenView::Colon,
            Token::True => TokenView::True,
            Token::False => TokenView::False,
            Token::Asterisk => TokenView::Asterisk,
            Token::Slash => TokenView::Slash,
            Token::LessThan => TokenView::LessThan,
            Token::GreaterThan => TokenView::GreaterThan,
            Token::Equal => TokenView::Equal,
            Token::NotEqual => TokenView::NotEqual,
            Token::LBrace => TokenView::LBrace,
            Token::RBrace => TokenView::RBrace,
            Token::Comma => TokenView::Comma,
            Token::At => TokenView::At,
            Token::If => TokenView::If,
            Token::Else => TokenView::Else,
            Token::Transaction => TokenView::Transaction,
            Token::EOF => TokenView::EOF,
            Token::Illegal(c) => TokenView::Illegal(*c),
        }
    }
}

impl Token {
    /// A copy of the token.
    pub fn duplicate(&self) -> (r: Token)
        ensures
            r == *self,
    {
        match self {
            Token::MoneyLiteral(a) => Token::MoneyLiteral(*a),
            Token::CurrencyTicker(s) => Token::CurrencyTicker(s.clone()),
            Token::AssetKeyword => Token::AssetKeyword,
            Token::Identifier(s) => Token::Identifier(s.clone()),
            Token::Plus => Token::Plus,
            Token::Minus => Token::Minus,
            Token::Assign => Token::Assign,
            Token::OpenParen => Token::OpenParen,
            Token::CloseParen => Token::CloseParen,
            Token::Colon => Token::Colon,
            Token::True => Token::True,
            Token::False => Token::False,
            Token::Asterisk => Token::Asterisk,
            Token::Slash => Token::Slash,
            Token::LessThan => Token::LessThan,
            Token::GreaterThan => Token::GreaterThan,
            Token::Equal => Token::Equal,
            Token::NotEqual => Token::NotEqual,
            Token::LBrace => Token::LBrace,
            Token::RBrace => Token::RBrace,
            Token::Comma => Token::Comma,
            Token::At => Token::At,
            Token::If => Token::If,
            Token::Else => Token::Else,
            Token::Transaction => Token::Transaction,
            Token::EOF => Token::EOF,
            Token::Illegal(c) => Token::Illegal(*c),
        }
    }

    /// Whether this is the end-of-input token.
    pub fn is_eof(&self) -> (r: bool)
        ensures
            r == (self@ is EOF),
    {
        matches!(self, Token::EOF)
    }
}

} // verus!
