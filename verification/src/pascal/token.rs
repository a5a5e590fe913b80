//! Tokens of the Pascal subset and the texts that name them in error messages.
use vstd::prelude::*;
use crate::text::{int_text, push_int, push_str};

verus! {

/// A token.
#[derive(Debug)]
pub enum Token {
    Integer(i32),
    Id(String),
    Plus,
    Minus,
    Mul,
    Div,
    LParen,
    RParen,
    Assign,
    Semi,
    Dot,
    Begin,
    End,
    Eof,
}

/// A token as a value.
pub enum SToken {
    Integer(i32),
    Id(Seq<char>),
    Plus,
    Minus,
    Mul,
    Div,
    LParen,
    RParen,
    Assign,
    Semi,
    Dot,
    Begin,
    End,
    Eof,
}

/// The kind of a token, without its payload.
#[derive(PartialEq, Eq, Structural, Clone, Copy, Debug)]
pub enum TokenKind {
    Integer,
    Id,
    Plus,
    Minus,
    Mul,
    Div,
    LParen,
    RParen,
    Assign,
    Semi,
    Dot,
    Begin,
    End,
    Eof,
}

impl View for Token {
    type V = SToken;

    open spec fn view(&self) -> SToken {
        match self {
            Token::Integer(v) => SToken::Integer(*v),
            Token::Id(s) => SToken::Id(s@),
            Token::Plus => SToken::Plus,
            Token::Minus => SToken::Minus,
            Token::Mul => SToken::Mul,
            Token::Div => SToken::Div,
            Token::LParen => SToken::LParen,
            Token::RParen => SToken::RParen,
            Token::Assign => SToken::Assign,
            Token::Semi => SToken::Semi,
            Token::Dot => SToken::Dot,
            Token::Begin => SToken::Begin,
            Token::End => SToken::End,
            Token::Eof => SToken::Eof,
        }
    }
}

/// The kind of a token.
pub open spec fn kind_of(t: SToken) -> TokenKind {
    match t {
        SToken::Integer(_) => TokenKind::Integer,
        SToken::Id(_) => TokenKind::Id,
        SToken::Plus => TokenKind::Plus,
        SToken::Minus => TokenKind::Minus,
        SToken::Mul => TokenKind::Mul,
        SToken::Div => TokenKind::Div,
        SToken::LParen => TokenKind::LParen,
        SToken::RParen => TokenKind::RParen,
        SToken::Assign => TokenKind::Assign,
        SToken::Semi => TokenKind::Semi,
        SToken::Dot => TokenKind::Dot,
        SToken::Begin => TokenKind::Begin,
        SToken::End => TokenKind::End,
        SToken::Eof => TokenKind::Eof,
    }
}

/// What Rust's `Debug` formatting shows for a string (quoted and escaped).
pub uninterp spec fn rust_debug_str(s: Seq<char>) -> Seq<char>;

/// Renders a string with `format!("{:?}", s)`. Claimed: the text is the named
/// `rust_debug_str` of the string; the escaping rules themselves are not stated.
#[verifier::external_body]
fn debug_str(s: &str) -> (text: String)
    ensures
        text@ == rust_debug_str(s@),
{
    format!("{:?}", s)
}

/// The name of a payload-free token kind.
pub open spec fn plain_kind_text(k: TokenKind) -> Seq<char> {
    match k {
        TokenKind::Integer => "Integer"@,
        TokenKind::Id => "Id"@,
        TokenKind::Plus => "Plus"@,
        TokenKind::Minus => "Minus"@,
        TokenKind::Mul => "Mul"@,
        TokenKind::Div => "Div"@,
        TokenKind::LParen => "LParen"@,
        TokenKind::RParen => "RParen"@,
        TokenKind::Assign => "Assign"@,
        TokenKind::Semi => "Semi"@,
        TokenKind::Dot => "Dot"@,
        TokenKind::Begin => "Begin"@,
        TokenKind::End => "End"@,
        TokenKind::Eof => "Eof"@,
    }
}

/// How a token is shown in error messages (its `Debug` form).
pub open spec fn token_text(t: SToken) -> Seq<char> {
    match t {
        SToken::Integer(v) => "Integer("@ + int_text(v as int) + ")"@,
        SToken::Id(s) => "Id("@ + rust_debug_str(s) + ")"@,
        _ => plain_kind_text(kind_of(t)),
    }
}

/// How an expected token kind is shown in error messages: the token the
/// parser asks for, with a zero or empty payload.
pub open spec fn expected_text(k: TokenKind) -> Seq<char> {
    match k {
        TokenKind::Integer => token_text(SToken::Integer(0)),
        TokenKind::Id => token_text(SToken::Id(Seq::empty())),
        _ => plain_kind_text(k),
    }
}

fn push_plain_kind(s: &mut String, k: TokenKind)
    ensures
        final(s)@ == old(s)@ + plain_kind_text(k),
{
    let name = match k {
        TokenKind::Integer => "Integer",
        TokenKind::Id => "Id",
        TokenKind::Plus => "Plus",
        TokenKind::Minus => "Minus",
        TokenKind::Mul => "Mul",
        TokenKind::Div => "Div",
        TokenKind::LParen => "LParen",
        TokenKind::RParen => "RParen",
        TokenKind::Assign => "Assign",
        TokenKind::Semi => "Semi",
        TokenKind::Dot => "Dot",
        TokenKind::Begin => "Begin",
        TokenKind::End => "End",
        TokenKind::Eof => "Eof",
    };
    push_str(s, name);
}

impl Token {
    /// The kind of the token.
    pub fn kind(&self) -> (k: TokenKind)
        ensures
            k == kind_of(self@),
    {
        match self {
            Token::Integer(_) => TokenKind::Integer,
            Token::Id(_) => TokenKind::Id,
            Token::Plus => TokenKind::Plus,
            Token::Minus => TokenKind::Minus,
            Token::Mul => TokenKind::Mul,
            Token::Div => TokenKind::Div,
            Token::LParen => TokenKind::LParen,
            Token::RParen => TokenKind::RParen,
            Token::Assign => TokenKind::Assign,
            Token::Semi => TokenKind::Semi,
            Token::Dot => TokenKind::Dot,
            Token::Begin => TokenKind::Begin,
            Token::End => TokenKind::End,
            Token::Eof => TokenKind::Eof,
        }
    }

    /// A copy of the token.
    pub fn duplicate(&self) -> (t: Token)
        ensures
            t@ == self@,
    {
        match self {
            Token::Integer(v) => Token::Integer(*v),
            Token::Id(s) => Token::Id(s.clone()),
            Token::Plus => Token::Plus,
            Token::Minus => Token::Minus,
            Token::Mul => Token::Mul,
            Token::Div => Token::Div,
            Token::LParen => Token::LParen,
            Token::RParen => Token::RParen,
            Token::Assign => Token::Assign,
            Token::Semi => Token::Semi,
            Token::Dot => Token::Dot,
            Token::Begin => Token::Begin,
            Token::End => Token::End,
            Token::Eof => Token::Eof,
        }
    }

    /// How the token is shown in error messages.
    pub fn debug_text(&self) -> (text: String)
        ensures
            text@ == token_text(self@),
    {
        let mut text = String::new();
        match self {
            Token::Integer(v) => {
                push_str(&mut text, "Integer(");
                push_int(&mut text, *v as i64);
                push_str(&mut text, ")");
            },
            Token::Id(s) => {
                push_str(&mut text, "Id(");
                let d = debug_str(s.as_str());
                push_str(&mut text, d.as_str());
                push_str(&mut text, ")");
            },
            _ => {
                push_plain_kind(&mut text, self.kind());
            },
        }
        text
    }
}

/// How an expected token kind is shown in error messages.
pub fn expected_kind_text(k: TokenKind) -> (text: String)
    ensures
        text@ == expected_text(k),
{
    match k {
        TokenKind::Integer => Token::Integer(0).debug_text(),
        TokenKind::Id => Token::Id(String::new()).debug_text(),
        _ => {
            let mut text = String::new();
            push_plain_kind(&mut text, k);
            text
        },
    }
}

} // verus!
