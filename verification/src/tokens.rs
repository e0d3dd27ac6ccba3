//! Lexical tokens, their mathematical view, the reserved-word table and
//! the diagnostic text of a token.
//!
//! A numeric literal token carries its source lexeme; the decoding of a
//! lexeme into a double is the business of the evaluation port (see
//! `interpreter::NumberOps`), so the scanner and parser stay exact.

use vstd::prelude::*;

verus! {

/// One lexical unit. Literal-bearing kinds carry their payload; `Eof`
/// is the terminal marker, appearing exactly once at the end of a scan.
#[derive(Debug, Clone, PartialEq)]
pub enum Token {
    // Single character tokens
    LeftParen,
    RightParen,
    LeftBrace,
    RightBrace,
    Comma,
    Dot,
    Minus,
    Plus,
    Semicolon,
    Slash,
    Star,
    // One or two character
    Bang,
    BangEqual,
    Equal,
    EqualEqual,
    Greater,
    GreaterEqual,
    Less,
    LessEqual,
    // Literals
    Identifier(String),
    Str(String),
    Number(String),
    // Keywords
    And,
    Class,
    Else,
    False,
    Fun,
    For,
    If,
    Nil,
    Or,
    Print,
    Return,
    Super,
    This,
    True,
    Var,
    While,
    Eof,
}

/// The mathematical view of a token: payloads become character sequences.
pub enum TokenView {
    LeftParen,
    RightParen,
    LeftBrace,
    RightBrace,
    Comma,
    Dot,
    Minus,
    Plus,
    Semicolon,
    Slash,
    Star,
    Bang,
    BangEqual,
    Equal,
    EqualEqual,
    Greater,
    GreaterEqual,
    Less,
    LessEqual,
    Identifier(Seq<char>),
    Str(Seq<char>),
    Number(Seq<char>),
    And,
    Class,
    Else,
    False,
    Fun,
    For,
    If,
    Nil,
    Or,
    Print,
    Return,
    Super,
    This,
    True,
    Var,
    While,
    Eof,
}

impl View for Token {
    type V = TokenView;

    open spec fn view(&self) -> TokenView {
        match self {
            Token::LeftParen => TokenView::LeftParen,
            Token::RightParen => TokenView::RightParen,
            Token::LeftBrace => TokenView::LeftBrace,
            Token::RightBrace => TokenView::RightBrace,
            Token::Comma => TokenView::Comma,
            Token::Dot => TokenView::Dot,
            Token::Minus => TokenView::Minus,
            Token::Plus => TokenView::Plus,
            Token::Semicolon => TokenView::Semicolon,
            Token::Slash => TokenView::Slash,
            Token::Star => TokenView::Star,
            Token::Bang => TokenView::Bang,
            Token::BangEqual => TokenView::BangEqual,
            Token::Equal => TokenView::Equal,
            Token::EqualEqual => TokenView::EqualEqual,
            Token::Greater => TokenView::Greater,
            Token::GreaterEqual => TokenView::GreaterEqual,
            Token::Less => TokenView::Less,
            Token::LessEqual => TokenView::LessEqual,
            Token::Identifier(s) => TokenView::Identifier(s@),
            Token::Str(s) => TokenView::Str(s@),
            Token::Number(s) => TokenView::Number(s@),
            Token::And => TokenView::And,
            Token::Class => TokenView::Class,
            Token::Else => TokenView::Else,
            Token::False => TokenView::False,
            Token::Fun => TokenView::Fun,
            Token::For => TokenView::For,
            Token::If => TokenView::If,
            Token::Nil => TokenView::Nil,
            Token::Or => TokenView::Or,
            Token::Print => TokenView::Print,
            Token::Return => TokenView::Return,
            Token::Super => TokenView::Super,
            Token::This => TokenView::This,
            Token::True => TokenView::True,
            Token::Var => TokenView::Var,
            Token::While => TokenView::While,
            Token::Eof => TokenView::Eof,
        }
    }
}

/// The view of a whole token list.
pub open spec fn toks_view(v: Seq<Token>) -> Seq<TokenView> {
    v.map_values(|t: Token| t@)
}

/// Character-by-character string equality; used by the reserved-word table.
pub fn str_eq(a: &str, b: &str) -> (r: bool)
    ensures
        r == (a@ == b@),
{
    let alen = a.unicode_len();
    let blen = b.unicode_len();
    if alen != blen {
        return false;
    }
    let mut i: usize = 0;
    while i < alen
        invariant
            alen == a@.len(),
            alen == b@.len(),
            i <= alen,
            forall|j: int| 0 <= j < i ==> a@[j] == b@[j],
        decreases alen - i,
    {
        if a.get_char(i) != b.get_char(i) {
            return false;
        }
        i = i + 1;
    }
    proof {
        assert(a@ =~= b@);
    }
    true
}

/// The reserved-word table: which identifier lexemes are keywords.
pub open spec fn spec_keyword(s: Seq<char>) -> Option<TokenView> {
    if s == "and"@ {
        Some(TokenView::And)
    } else if s == "class"@ {
        Some(TokenView::Class)
    } else if s == "else"@ {
        Some(TokenView::Else)
    } else if s == "false"@ {
        Some(TokenView::False)
    } else if s == "for"@ {
        Some(TokenView::For)
    } else if s == "fun"@ {
        Some(TokenView::Fun)
    } else if s == "if"@ {
        Some(TokenView::If)
    } else if s == "nil"@ {
        Some(TokenView::Nil)
    } else if s == "or"@ {
        Some(TokenView::Or)
    } else if s == "print"@ {
        Some(TokenView::Print)
    } else if s == "return"@ {
        Some(TokenView::Return)
    } else if s == "super"@ {
        Some(TokenView::Super)
    } else if s == "this"@ {
        Some(TokenView::This)
    } else if s == "true"@ {
        Some(TokenView::True)
    } else if s == "var"@ {
        Some(TokenView::Var)
    } else if s == "while"@ {
        Some(TokenView::While)
    } else {
        None
    }
}

/// Case-sensitive lookup of an identifier lexeme in the reserved-word table.
pub fn keyword_token(id: &str) -> (r: Option<Token>)
    ensures
        match r {
            Some(t) => spec_keyword(id@) == Some(t@),
            None => spec_keyword(id@) is None,
        },
{
    if str_eq(id, "and") {
        Some(Token::And)
    } else if str_eq(id, "class") {
        Some(Token::Class)
    } else if str_eq(id, "else") {
        Some(Token::Else)
    } else if str_eq(id, "false") {
        Some(Token::False)
    } else if str_eq(id, "for") {
        Some(Token::For)
    } else if str_eq(id, "fun") {
        Some(Token::Fun)
    } else if str_eq(id, "if") {
        Some(Token::If)
    } else if str_eq(id, "nil") {
        Some(Token::Nil)
    } else if str_eq(id, "or") {
        Some(Token::Or)
    } else if str_eq(id, "print") {
        Some(Token::Print)
    } else if str_eq(id, "return") {
        Some(Token::Return)
    } else if str_eq(id, "super") {
        Some(Token::Super)
    } else if str_eq(id, "this") {
        Some(Token::This)
    } else if str_eq(id, "true") {
        Some(Token::True)
    } else if str_eq(id, "var") {
        Some(Token::Var)
    } else if str_eq(id, "while") {
        Some(Token::While)
    } else {
        None
    }
}

/// The diagnostic text of a token: punctuation and operators print as
/// themselves, literal-bearing tokens print their payload, keywords and
/// the end marker print their capitalized name.
pub open spec fn spec_token_text(t: TokenView) -> Seq<char> {
    match t {
        TokenView::LeftParen => "("@,
        TokenView::RightParen => ")"@,
        TokenView::LeftBrace => "{"@,
        TokenView::RightBrace => "}"@,
        TokenView::Comma => ","@,
        TokenView::Dot => "."@,
        TokenView::Minus => "-"@,
        TokenView::Plus => "+"@,
        TokenView::Semicolon => ";"@,
        TokenView::Slash => "/"@,
        TokenView::Star => "*"@,
        TokenView::Bang => "!"@,
        TokenView::BangEqual => "!="@,
        TokenView::Equal => "="@,
        TokenView::EqualEqual => "=="@,
        TokenView::Greater => ">"@,
        TokenView::GreaterEqual => ">="@,
        TokenView::Less => "<"@,
        TokenView::LessEqual => "<="@,
        TokenView::Identifier(s) => s,
        TokenView::Str(s) => s,
        TokenView::Number(s) => s,
        TokenView::And => "And"@,
        TokenView::Class => "Class"@,
        TokenView::Else => "Else"@,
        TokenView::False => "False"@,
        TokenView::Fun => "Fun"@,
        TokenView::For => "For"@,
        TokenView::If => "If"@,
        TokenView::Nil => "Nil"@,
        TokenView::Or => "Or"@,
        TokenView::Print => "Print"@,
        TokenView::Return => "Return"@,
        TokenView::Super => "Super"@,
        TokenView::This => "This"@,
        TokenView::True => "True"@,
        TokenView::Var => "Var"@,
        TokenView::While => "While"@,
        TokenView::Eof => "Eof"@,
    }
}

/// Renders one token for tracing and diagnostics.
pub fn token_text(t: &Token) -> (r: String)
    ensures
        r@ == spec_token_text(t@),
{
    match t {
        Token::LeftParen => String::from_str("("),
        Token::RightParen => String::from_str(")"),
        Token::LeftBrace => String::from_str("{"),
        Token::RightBrace => String::from_str("}"),
        Token::Comma => String::from_str(","),
        Token::Dot => String::from_str("."),
        Token::Minus => String::from_str("-"),
        Token::Plus => String::from_str("+"),
        Token::Semicolon => String::from_str(";"),
        Token::Slash => String::from_str("/"),
        Token::Star => String::from_str("*"),
        Token::Bang => String::from_str("!"),
        Token::BangEqual => String::from_str("!="),
        Token::Equal => String::from_str("="),
        Token::EqualEqual => String::from_str("=="),
        Token::Greater => String::from_str(">"),
        Token::GreaterEqual => String::from_str(">="),
        Token::Less => String::from_str("<"),
        Token::LessEqual => String::from_str("<="),
        Token::Identifier(s) => s.clone(),
        Token::Str(s) => s.clone(),
        Token::Number(s) => s.clone(),
        Token::And => String::from_str("And"),
        Token::Class => String::from_str("Class"),
        Token::Else => String::from_str("Else"),
        Token::False => String::from_str("False"),
        Token::Fun => String::from_str("Fun"),
        Token::For => String::from_str("For"),
        Token::If => String::from_str("If"),
        Token::Nil => String::from_str("Nil"),
        Token::Or => String::from_str("Or"),
        Token::Print => String::from_str("Print"),
        Token::Return => String::from_str("Return"),
        Token::Super => String::from_str("Super"),
        Token::This => String::from_str("This"),
        Token::True => String::from_str("True"),
        Token::Var => String::from_str("Var"),
        Token::While => String::from_str("While"),
        Token::Eof => String::from_str("Eof"),
    }
}

} // verus!
