//! The lexer: characters in, tokens out, one at a time.
use crate::money::{Amount, decimal_parse};
use crate::text::{is_ascii_letter, char_is_alphabetic, char_is_whitespace, chars_of, is_ascii_digit, is_white_space, string_from_chars, to_uppercase, unicode_alphabetic, upper_case_of};
use crate::token::{Token, TokenView};
use vstd::prelude::*;
use vstd::string::*;

verus! {

/// The character at `p`, or `'\0'` past the end.
pub open spec fn char_at(input: Seq<char>, p: int) -> char {
    if 0 <= p < input.len() {
        input[p]
    } else {
        '\0'
    }
}

/// A character that may start or continue a word: an alphabetic character
/// (among ASCII characters, the letters) or `_`.
pub open spec fn is_word_char(c: char) -> bool {
    if (c as u32) < 128 {
        is_ascii_letter(c) || c == '_'
    } else {
        unicode_alphabetic(c) || c == '_'
    }
}

/// The end of a `//` comment that starts at `p`: the next newline, NUL or the end.
pub open spec fn comment_end(input: Seq<char>, p: int) -> int
    decreases input.len() - p,
{
    if 0 <= p < input.len() && input[p] != '\n' && input[p] != '\0' {
        comment_end(input, p + 1)
    } else {
        p
    }
}

/// The position of the first character at or after `p` that is neither
/// whitespace nor inside a `//` comment.
pub open spec fn skip_trivia(input: Seq<char>, p: int) -> int
    decreases input.len() - p,
{
    if 0 <= p < input.len() {
        if is_white_space(input[p]) {
            skip_trivia(input, p + 1)
        } else if input[p] == '/' && char_at(input, p + 1) == '/' {
            let q = comment_end(input, p);
            if q > p && q <= input.len() {
                skip_trivia(input, q)
            } else {
                p
            }
        } else {
            p
        }
    } else {
        p
    }
}

/// The end of the run of word characters and digits that starts at `p`.
pub open spec fn word_end(input: Seq<char>, p: int) -> int
    decreases input.len() - p,
{
    if 0 <= p < input.len() && (is_word_char(input[p]) || is_ascii_digit(input[p])) {
        word_end(input, p + 1)
    } else {
        p
    }
}

/// The end of the run of digits, dots and commas that starts at `p`.
pub open spec fn number_end(input: Seq<char>, p: int) -> int
    decreases input.len() - p,
{
    if 0 <= p < input.len() && (is_ascii_digit(input[p]) || input[p] == '.' || input[p] == ',') {
        number_end(input, p + 1)
    } else {
        p
    }
}

/// The characters with every comma left out.
pub open spec fn without_commas(s: Seq<char>) -> Seq<char>
    decreases s.len(),
{
    if s.len() == 0 {
        s
    } else if s.last() == ',' {
        without_commas(s.drop_last())
    } else {
        without_commas(s.drop_last()).push(s.last())
    }
}

/// The amount that a written number stands for: its text without commas, read
/// as a decimal, or zero where it cannot be read.
pub open spec fn number_value(s: Seq<char>) -> Amount {
    match decimal_parse(without_commas(s)) {
        Some(a) => a,
        None => Amount::zero_spec(),
    }
}

/// The token that a word stands for: a keyword, a currency ticker (a word of
/// three bytes in UTF-8 written in upper case, such as `KES`), or an identifier.
pub open spec fn classify_word(w: Seq<char>) -> TokenView {
    if w == "asset"@ {
        TokenView::AssetKeyword
    } else if w == "if"@ {
        TokenView::If
    } else if w == "else"@ {
        TokenView::Else
    } else if w == "true"@ {
        TokenView::True
    } else if w == "false"@ {
        TokenView::False
    } else if w == "transaction"@ {
        TokenView::Transaction
    } else if vstd::utf8::encode_utf8(w).len() == 3 && upper_case_of(w) == w {
        TokenView::CurrencyTicker(w)
    } else {
        TokenView::Identifier(w)
    }
}

/// The token that punctuation `c` starts, where it is one character long.
pub open spec fn single_char_token(c: char) -> Option<TokenView> {
    if c == '+' {
        Some(TokenView::Plus)
    } else if c == '-' {
        Some(TokenView::Minus)
    } else if c == '*' {
        Some(TokenView::Asterisk)
    } else if c == '/' {
        Some(TokenView::Slash)
    } else if c == '<' {
        Some(TokenView::LessThan)
    } else if c == '>' {
        Some(TokenView::GreaterThan)
    } else if c == '(' {
        Some(TokenView::OpenParen)
    } else if c == ')' {
        Some(TokenView::CloseParen)
    } else if c == '{' {
        Some(TokenView::LBrace)
    } else if c == '}' {
        Some(TokenView::RBrace)
    } else if c == ':' {
        Some(TokenView::Colon)
    } else if c == ',' {
        Some(TokenView::Comma)
    } else if c == '@' {
        Some(TokenView::At)
    } else if c == '\0' {
        Some(TokenView::EOF)
    } else {
        None
    }
}

/// The token read from position `p0`, and the position after it.
pub open spec fn scan(input: Seq<char>, p0: int) -> (TokenView, int) {
    let p = skip_trivia(input, p0);
    let c = char_at(input, p);
    if c == '=' {
        if char_at(input, p + 1) == '=' {
            (TokenView::Equal, p + 2)
        } else {
            (TokenView::Assign, p + 1)
        }
    } else if c == '!' {
        if char_at(input, p + 1) == '=' {
            (TokenView::NotEqual, p + 2)
        } else {
            (TokenView::Illegal('!'), p + 1)
        }
    } else if single_char_token(c) is Some {
        (single_char_token(c)->0, if p < input.len() { p + 1 } else { p })
    } else if is_word_char(c) {
        let q = word_end(input, p);
        (classify_word(input.subrange(p, q)), q)
    } else if is_ascii_digit(c) {
        let q = number_end(input, p);
        (TokenView::MoneyLiteral(number_value(input.subrange(p, q))), q)
    } else {
        (TokenView::Illegal(c), p + 1)
    }
}

/// The lexer's position after `n` tokens have been read from position `start`.
pub open spec fn lex_pos(input: Seq<char>, start: int, n: nat) -> int
    decreases n,
{
    if n == 0 {
        start
    } else {
        scan(input, lex_pos(input, start, (n - 1) as nat)).1
    }
}

/// The token that the `n`-th read (counting from 0) from position `start` hands out.
pub open spec fn lex_token(input: Seq<char>, start: int, n: nat) -> TokenView {
    scan(input, lex_pos(input, start, n)).0
}

pub proof fn lemma_comment_end(input: Seq<char>, p: int)
    requires
        0 <= p,
    ensures
        p <= comment_end(input, p),
        comment_end(input, p) <= if p <= input.len() { input.len() as int } else { p },
    decreases input.len() - p,
{
    if 0 <= p < input.len() && input[p] != '\n' && input[p] != '\0' {
        lemma_comment_end(input, p + 1);
    }
}

pub proof fn lemma_skip_trivia(input: Seq<char>, p: int)
    requires
        0 <= p,
    ensures
        p <= skip_trivia(input, p),
        skip_trivia(input, p) <= if p <= input.len() { input.len() as int } else { p },
    decreases input.len() - p,
{
    if 0 <= p < input.len() {
        if is_white_space(input[p]) {
            lemma_skip_trivia(input, p + 1);
        } else if input[p] == '/' && char_at(input, p + 1) == '/' {
            let q = comment_end(input, p);
            if q > p && q <= input.len() {
                lemma_skip_trivia(input, q);
            }
        }
    }
}

pub proof fn lemma_word_end(input: Seq<char>, p: int)
    requires
        0 <= p,
    ensures
        p <= word_end(input, p),
        word_end(input, p) <= if p <= input.len() { input.len() as int } else { p },
    decreases input.len() - p,
{
    if 0 <= p < input.len() && (is_word_char(input[p]) || is_ascii_digit(input[p])) {
        lemma_word_end(input, p + 1);
    }
}

pub proof fn lemma_number_end(input: Seq<char>, p: int)
    requires
        0 <= p,
    ensures
        p <= number_end(input, p),
        number_end(input, p) <= if p <= input.len() { input.len() as int } else { p },
    decreases input.len() - p,
{
    if 0 <= p < input.len() && (is_ascii_digit(input[p]) || input[p] == '.' || input[p] == ',') {
        lemma_number_end(input, p + 1);
    }
}

/// A read moves the lexer forward while it is inside the input, never past the
/// end, and hands out the end token exactly where nothing else can be read.
pub proof fn lemma_scan_advances(input: Seq<char>, p: int)
    requires
        0 <= p <= input.len(),
    ensures
        p <= scan(input, p).1 <= input.len(),
        p < input.len() ==> p < scan(input, p).1,
        scan(input, p).0 !is EOF ==> p < input.len(),
{
    lemma_skip_trivia(input, p);
    let q = skip_trivia(input, p);
    lemma_word_end(input, q);
    lemma_number_end(input, q);
    let c = char_at(input, q);
    if q < input.len() {
        if is_word_char(c) {
            lemma_word_end(input, q + 1);
            assert(word_end(input, q) == word_end(input, q + 1));
        }
        if is_ascii_digit(c) {
            lemma_number_end(input, q + 1);
            assert(number_end(input, q) == number_end(input, q + 1));
        }
    }
}

/// After `n` reads from `start` the lexer stands at least `n` characters in, or at the end.
pub proof fn lemma_lex_pos(input: Seq<char>, start: int, n: nat)
    requires
        0 <= start <= input.len(),
    ensures
        start <= lex_pos(input, start, n) <= input.len(),
        start + n <= lex_pos(input, start, n) || lex_pos(input, start, n) == input.len(),
    decreases n,
{
    if n > 0 {
        lemma_lex_pos(input, start, (n - 1) as nat);
        lemma_scan_advances(input, lex_pos(input, start, (n - 1) as nat));
    }
}

/// A token other than the end token can only be read while fewer reads than
/// characters have been made.
pub proof fn lemma_lex_token_not_eof(input: Seq<char>, start: int, n: nat)
    requires
        0 <= start <= input.len(),
        lex_token(input, start, n) !is EOF,
    ensures
        n < input.len(),
{
    lemma_lex_pos(input, start, n);
    lemma_scan_advances(input, lex_pos(input, start, n));
}

/// Once `n` reaches the length of the input, every token read is the end token.
pub proof fn lemma_lex_token_eof(input: Seq<char>, start: int, n: nat)
    requires
        0 <= start <= input.len(),
        input.len() <= n,
    ensures
        lex_token(input, start, n) is EOF,
{
    if lex_token(input, start, n) !is EOF {
        lemma_lex_token_not_eof(input, start, n);
    }
}

/// The UTF-8 encoding of a concatenation is the concatenation of the encodings.
pub proof fn lemma_encode_utf8_add(a: Seq<char>, b: Seq<char>)
    ensures
        vstd::utf8::encode_utf8(a + b) == vstd::utf8::encode_utf8(a) + vstd::utf8::encode_utf8(b),
    decreases a.len(),
{
    if a.len() > 0 {
        lemma_encode_utf8_add(a.drop_first(), b);
        assert((a + b).drop_first() == a.drop_first() + b);
    }
}

/// Each character takes at least one byte in UTF-8.
pub proof fn lemma_encode_utf8_len(a: Seq<char>)
    ensures
        a.len() <= vstd::utf8::encode_utf8(a).len(),
    decreases a.len(),
{
    if a.len() > 0 {
        lemma_encode_utf8_len(a.drop_first());
    }
}

/// A run of characters takes no more bytes than the text it is taken from.
pub proof fn lemma_encode_utf8_subrange(a: Seq<char>, i: int, j: int)
    requires
        0 <= i <= j <= a.len(),
    ensures
        vstd::utf8::encode_utf8(a.subrange(i, j)).len() <= vstd::utf8::encode_utf8(a).len(),
{
    lemma_encode_utf8_add(a.subrange(0, i), a.subrange(i, j));
    lemma_encode_utf8_add(a.subrange(0, j), a.subrange(j, a.len() as int));
    assert(a.subrange(0, i) + a.subrange(i, j) == a.subrange(0, j));
    assert(a.subrange(0, j) + a.subrange(j, a.len() as int) == a);
}

/// The lexer: the characters of the source and the position of the current one.
pub struct Lexer {
    input: Vec<char>,
    position: usize,
    read_position: usize,
    ch: char,
}

impl Lexer {
    /// The characters being read.
    pub closed spec fn source(&self) -> Seq<char> {
        self.input@
    }

    /// The position of the current character.
    pub closed spec fn pos(&self) -> int {
        self.position as int
    }

    /// The fields agree with each other, and positions stay far from `usize::MAX`.
    pub closed spec fn wf(&self) -> bool {
        &&& self.read_position == self.position + 1
        &&& self.ch == char_at(self.input@, self.position as int)
        &&& vstd::utf8::encode_utf8(self.input@).len() + 3 <= usize::MAX
        &&& self.input@.len() + 3 <= usize::MAX
        &&& self.position <= self.input@.len()
    }

    /// A well-formed lexer stands inside its input or at its end.
    pub proof fn lemma_wf(&self)
        requires
            self.wf(),
        ensures
            0 <= self.pos() <= self.source().len(),
    {
    }

    /// A lexer at the first character of `input`.
    pub fn new(input: &str) -> (r: Lexer)
        requires
            vstd::utf8::encode_utf8(input@).len() + 3 <= usize::MAX,
        ensures
            r.wf(),
            r.source() == input@,
            r.pos() == 0,
    {
        let chars = chars_of(input);
        proof {
            lemma_encode_utf8_len(input@);
        }
        let ch = if chars.len() == 0 {
            '\0'
        } else {
            chars[0]
        };
        Lexer { input: chars, position: 0, read_position: 1, ch }
    }

    /// Moves to the next character; at the end of the input the lexer stays put.
    fn read_char(&mut self)
        requires
            old(self).wf(),
        ensures
            final(self).input@ == old(self).input@,
            final(self).wf(),
            final(self).position == if old(self).position < old(self).input@.len() {
                old(self).position + 1
            } else {
                old(self).position as int
            },
    {
        if self.position >= self.input.len() {
            return;
        }
        if self.read_position >= self.input.len() {
            self.ch = '\0';
        } else {
            self.ch = self.input[self.read_position];
        }
        self.position = self.read_position;
        self.read_position = self.read_position + 1;
    }

    fn peek_char(&self) -> (r: char)
        requires
            self.wf(),
        ensures
            r == char_at(self.input@, self.position + 1),
    {
        if self.read_position >= self.input.len() {
            '\0'
        } else {
            self.input[self.read_position]
        }
    }

    fn is_letter(&self, ch: char) -> (r: bool)
        ensures
            r == is_word_char(ch),
            (ch as u32) < 128 ==> (r == (is_ascii_letter(ch) || ch == '_')),
    {
        char_is_alphabetic(ch) || ch == '_'
    }

    fn skip_whitespace(&mut self)
        requires
            old(self).wf(),
        ensures
            final(self).input@ == old(self).input@,
            final(self).wf(),
            final(self).position == skip_trivia(old(self).input@, old(self).position as int),
    {
        let ghost input = self.input@;
        let ghost p0 = self.position as int;
        proof {
            lemma_skip_trivia(input, p0);
        }
        loop
            invariant
                self.input@ == input,
                self.wf(),
                p0 <= self.position,
                self.position <= input.len(),
                skip_trivia(input, self.position as int) == skip_trivia(input, p0),
            ensures
                self.position == skip_trivia(input, p0),
            decreases input.len() + 1 - self.position,
        {
            proof {
                lemma_skip_trivia(input, self.position as int);
            }
            if char_is_whitespace(self.ch) {
                self.read_char();
            } else if self.ch == '/' && self.peek_char() == '/' {
                let ghost start = self.position as int;
                proof {
                    lemma_comment_end(input, start);
                }
                while self.ch != '\n' && self.ch != '\0'
                    invariant
                        self.input@ == input,
                        self.wf(),
                        start <= self.position <= input.len(),
                        start < input.len(),
                        comment_end(input, self.position as int) == comment_end(input, start),
                    decreases input.len() - self.position,
                {
                    self.read_char();
                }
                assert(comment_end(input, start) == self.position as int);
                assert(self.position > start) by {
                    assert(char_at(input, start) == '/');
                }
            } else {
                assert(skip_trivia(input, self.position as int) == self.position as int);
                break;
            }
        }
    }

    fn read_identifier(&mut self) -> (r: String)
        requires
            old(self).wf(),
            old(self).pos() <= old(self).source().len(),
        ensures
            final(self).input@ == old(self).input@,
            final(self).wf(),
            final(self).position == word_end(old(self).input@, old(self).position as int),
            r@ == old(self).input@.subrange(old(self).position as int, final(self).position as int),
            vstd::utf8::encode_utf8(r@).len() <= vstd::utf8::encode_utf8(old(self).input@).len(),
    {
        let ghost input = self.input@;
        let position = self.position;
        proof {
            lemma_word_end(input, position as int);
        }
        let mut word: Vec<char> = Vec::new();
        while self.is_letter(self.ch) || is_digit(self.ch)
            invariant
                self.input@ == input,
                self.wf(),
                position <= self.position <= input.len(),
                word@ == input.subrange(position as int, self.position as int),
                word_end(input, self.position as int) == word_end(input, position as int),
            decreases input.len() - self.position,
        {
            word.push(self.ch);
            self.read_char();
            assert(word@ == input.subrange(position as int, self.position as int));
        }
        proof {
            lemma_encode_utf8_subrange(input, position as int, self.position as int);
        }
        string_from_chars(word.as_slice())
    }

    fn lookup_keyword_or_ident(&self, ident: &String) -> (r: Token)
        requires
            vstd::utf8::encode_utf8(ident@).len() <= usize::MAX,
        ensures
            r@ == classify_word(ident@),
    {
        if *ident == String::from_str("asset") {
            Token::AssetKeyword
        } else if *ident == String::from_str("if") {
            Token::If
        } else if *ident == String::from_str("else") {
            Token::Else
        } else if *ident == String::from_str("true") {
            Token::True
        } else if *ident == String::from_str("false") {
            Token::False
        } else if *ident == String::from_str("transaction") {
            Token::Transaction
        } else if ident.as_str().len() == 3 && to_uppercase(ident.as_str()) == *ident {
            Token::CurrencyTicker(ident.clone())
        } else {
            Token::Identifier(ident.clone())
        }
    }

    fn read_number(&mut self) -> (r: Amount)
        requires
            old(self).wf(),
            old(self).pos() <= old(self).source().len(),
        ensures
            final(self).input@ == old(self).input@,
            final(self).wf(),
            final(self).position == number_end(old(self).input@, old(self).position as int),
            r == number_value(
                old(self).input@.subrange(old(self).position as int, final(self).position as int),
            ),
    {
        let ghost input = self.input@;
        let position = self.position;
        proof {
            lemma_number_end(input, position as int);
        }
        let mut digits: Vec<char> = Vec::new();
        while is_digit(self.ch) || self.ch == '.' || self.ch == ','
            invariant
                self.input@ == input,
                self.wf(),
                position <= self.position <= input.len(),
                digits@ == without_commas(input.subrange(position as int, self.position as int)),
                number_end(input, self.position as int) == number_end(input, position as int),
            decreases input.len() - self.position,
        {
            let ghost before = input.subrange(position as int, self.position as int);
            if self.ch != ',' {
                digits.push(self.ch);
            }
            self.read_char();
            assert(input.subrange(position as int, self.position as int).drop_last() == before);
        }
        let text = string_from_chars(digits.as_slice());
        match Amount::parse(text.as_str()) {
            Some(a) => a,
            None => Amount::zero(),
        }
    }

    /// Reads the next token and moves past it.
    #[verifier::rlimit(30)]
    pub fn next_token(&mut self) -> (r: Token)
        requires
            old(self).wf(),
        ensures
            final(self).wf(),
            final(self).source() == old(self).source(),
            r@ == scan(old(self).source(), old(self).pos()).0,
            final(self).pos() == scan(old(self).source(), old(self).pos()).1,
    {
        let ghost input = self.input@;
        let ghost p0 = self.position as int;
        proof {
            lemma_scan_advances(input, p0);
            lemma_skip_trivia(input, p0);
        }
        self.skip_whitespace();
        let ghost p = self.position as int;
        proof {
            lemma_word_end(input, p);
            lemma_number_end(input, p);
        }
        let tok = if self.ch == '=' {
            if self.peek_char() == '=' {
                self.read_char();
                Token::Equal
            } else {
                Token::Assign
            }
        } else if self.ch == '!' {
            if self.peek_char() == '=' {
                self.read_char();
                Token::NotEqual
            } else {
                Token::Illegal(self.ch)
            }
        } else if self.ch == '+' {
            Token::Plus
        } else if self.ch == '-' {
            Token::Minus
        } else if self.ch == '*' {
            Token::Asterisk
        } else if self.ch == '/' {
            Token::Slash
        } else if self.ch == '<' {
            Token::LessThan
        } else if self.ch == '>' {
            Token::GreaterThan
        } else if self.ch == '(' {
            Token::OpenParen
        } else if self.ch == ')' {
            Token::CloseParen
        } else if self.ch == '{' {
            Token::LBrace
        } else if self.ch == '}' {
            Token::RBrace
        } else if self.ch == ':' {
            Token::Colon
        } else if self.ch == ',' {
            Token::Comma
        } else if self.ch == '@' {
            Token::At
        } else if self.ch == '\0' {
            Token::EOF
        } else {
            if self.is_letter(self.ch) {
                let ident = self.read_identifier();
                return self.lookup_keyword_or_ident(&ident);
            } else if is_digit(self.ch) {
                return Token::MoneyLiteral(self.read_number());
            } else {
                Token::Illegal(self.ch)
            }
        };
        self.read_char();
        tok
    }
}

/// `char::is_ascii_digit`.
fn is_digit(c: char) -> (r: bool)
    ensures
        r == is_ascii_digit(c),
{
    '0' <= c && c <= '9'
}

} // verus!
