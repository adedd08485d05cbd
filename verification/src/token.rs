//! The lexical categories of the language and their printable forms.

use crate::text::{decimal, int_to_string, owned};
use vstd::prelude::*;

verus! {

/// A token of the source text. Literals and names carry their payload.
#[derive(Debug, Clone, PartialEq)]
pub enum Token {
    /// A character that starts no token.
    Illegal(char),
    /// The end of the input.
    Eof,
    Lbracket,
    Rbracket,
    Lparen,
    Rparen,
    Lbrace,
    Rbrace,
    Comma,
    Colon,
    Dot,
    Plus,
    Minus,
    Asterisk,
    Slash,
    Equal,
    Percet,
    DoubleEqual,
    GratherThan,
    GratherOrEqual,
    LessThan,
    LessOrEqual,
    Bang,
    NotEqual,
    DoublePlus,
    DoubleMinus,
    /// An integer literal.
    Int(i64),
    /// A float literal, kept as its text: digits on both sides of one dot.
    Float(String),
    /// A string literal, without its quotes.
    String(String),
    True,
    False,
    Let,
    If,
    For,
    In,
    Else,
    Func,
    Null,
    Import,
    Return,
    ClassArray,
    /// A name that is no reserved word.
    Identifier(String),
    TypeInt,
    TypeFloat,
    TypeString,
    TypeBoolean,
    TypeVoid,
}

/// The mathematical model of a [`Token`]: the same categories, with each
/// text payload as a sequence of characters.
pub enum TokenView {
    Illegal(char),
    Eof,
    Lbracket,
    Rbracket,
    Lparen,
    Rparen,
    Lbrace,
    Rbrace,
    Comma,
    Colon,
    Dot,
    Plus,
    Minus,
    Asterisk,
    Slash,
    Equal,
    Percet,
    DoubleEqual,
    GratherThan,
    GratherOrEqual,
    LessThan,
    LessOrEqual,
    Bang,
    NotEqual,
    DoublePlus,
    DoubleMinus,
    Int(i64),
    Float(Seq<char>),
    String(Seq<char>),
    True,
    False,
    Let,
    If,
    For,
    In,
    Else,
    Func,
    Null,
    Import,
    Return,
    ClassArray,
    Identifier(Seq<char>),
    TypeInt,
    TypeFloat,
    TypeString,
    TypeBoolean,
    TypeVoid,
}

impl View for Token {
    type V = TokenView;

    open spec fn view(&self) -> TokenView {
        match *self {
            Token::Illegal(c) => TokenView::Illegal(c),
            Token::Int(v) => TokenView::Int(v),
            Token::Float(s) => TokenView::Float(s@),
            Token::String(s) => TokenView::String(s@),
            Token::Identifier(s) => TokenView::Identifier(s@),
            Token::Eof => TokenView::Eof,
            Token::Lbracket => TokenView::Lbracket,
            Token::Rbracket => TokenView::Rbracket,
            Token::Lparen => TokenView::Lparen,
            Token::Rparen => TokenView::Rparen,
            Token::Lbrace => TokenView::Lbrace,
            Token::Rbrace => TokenView::Rbrace,
            Token::Comma => TokenView::Comma,
            Token::Colon => TokenView::Colon,
            Token::Dot => TokenView::Dot,
            Token::Plus => TokenView::Plus,
            Token::Minus => TokenView::Minus,
            Token::Asterisk => TokenView::Asterisk,
            Token::Slash => TokenView::Slash,
            Token::Equal => TokenView::Equal,
            Token::Percet => TokenView::Percet,
            Token::DoubleEqual => TokenView::DoubleEqual,
            Token::GratherThan => TokenView::GratherThan,
            Token::GratherOrEqual => TokenView::GratherOrEqual,
            Token::LessThan => TokenView::LessThan,
            Token::LessOrEqual => TokenView::LessOrEqual,
            Token::Bang => TokenView::Bang,
            Token::NotEqual => TokenView::NotEqual,
            Token::DoublePlus => TokenView::DoublePlus,
            Token::DoubleMinus => TokenView::DoubleMinus,
            Token::True => TokenView::True,
            Token::False => TokenView::False,
            Token::Let => TokenView::Let,
            Token::If => TokenView::If,
            Token::For => TokenView::For,
            Token::In => TokenView::In,
            Token::Else => TokenView::Else,
            Token::Func => TokenView::Func,
            Token::Null => TokenView::Null,
            Token::Import => TokenView::Import,
            Token::Return => TokenView::Return,
            Token::ClassArray => TokenView::ClassArray,
            Token::TypeInt => TokenView::TypeInt,
            Token::TypeFloat => TokenView::TypeFloat,
            Token::TypeString => TokenView::TypeString,
            Token::TypeBoolean => TokenView::TypeBoolean,
            Token::TypeVoid => TokenView::TypeVoid,
        }
    }
}

impl TokenView {
    /// The printable form of a token, as diagnostics show it.
    pub open spec fn text(self) -> Seq<char> {
        match self {
            TokenView::Illegal(c) => "[Illegal Token] "@.push(c),
            TokenView::Int(v) => decimal(v as int),
            TokenView::Float(s) => s,
            TokenView::String(s) => s,
            TokenView::Identifier(s) => s,
            TokenView::Eof => "EOF"@,
            TokenView::Lbracket => "["@,
            TokenView::Rbracket => "]"@,
            TokenView::Lparen => "("@,
            TokenView::Rparen => ")"@,
            TokenView::Lbrace => "{"@,
            TokenView::Rbrace => "}"@,
            TokenView::Comma => ","@,
            TokenView::Colon => ":"@,
            TokenView::Dot => "."@,
            TokenView::Plus => "+"@,
            TokenView::Minus => "-"@,
            TokenView::Asterisk => "*"@,
            TokenView::Slash => "/"@,
            TokenView::Equal => "="@,
            TokenView::Percet => "%"@,
            TokenView::DoubleEqual => "=="@,
            TokenView::GratherThan => ">"@,
            TokenView::GratherOrEqual => ">="@,
            TokenView::LessThan => "<"@,
            TokenView::LessOrEqual => "<="@,
            TokenView::Bang => "!"@,
            TokenView::NotEqual => "!="@,
            TokenView::DoublePlus => "++"@,
            TokenView::DoubleMinus => "--"@,
            TokenView::True => "true"@,
            TokenView::False => "false"@,
            TokenView::Let => "let"@,
            TokenView::If => "if"@,
            TokenView::For => "for"@,
            TokenView::In => "in"@,
            TokenView::Else => "else"@,
            TokenView::Func => "[Defined Function]"@,
            TokenView::Null => "null"@,
            TokenView::Import => "import"@,
            TokenView::Return => "return"@,
            TokenView::ClassArray => "[Built-in Class] Array"@,
            TokenView::TypeInt => "[Type Annotation] int"@,
            TokenView::TypeFloat => "[Type Annotation] float"@,
            TokenView::TypeString => "[Type Annotation] string"@,
            TokenView::TypeBoolean => "[Type Annotation] boolean"@,
            TokenView::TypeVoid => "[Type Annotation] void"@,
        }
    }
}

impl Token {
    /// The printable form of the token.
    pub fn to_string(&self) -> (r: String)
        ensures
            r@ == self@.text(),
    {
        match self {
            Token::Illegal(c) => {
                let mut out = owned("[Illegal Token] ");
                out.push(*c);
                out
            },
            Token::Int(v) => int_to_string(*v),
            Token::Float(s) => s.clone(),
            Token::String(s) => s.clone(),
            Token::Identifier(s) => s.clone(),
            Token::Eof => owned("EOF"),
            Token::Lbracket => owned("["),
            Token::Rbracket => owned("]"),
            Token::Lparen => owned("("),
            Token::Rparen => owned(")"),
            Token::Lbrace => owned("{"),
            Token::Rbrace => owned("}"),
            Token::Comma => owned(","),
            Token::Colon => owned(":"),
            Token::Dot => owned("."),
            Token::Plus => owned("+"),
            Token::Minus => owned("-"),
            Token::Asterisk => owned("*"),
            Token::Slash => owned("/"),
            Token::Equal => owned("="),
            Token::Percet => owned("%"),
            Token::DoubleEqual => owned("=="),
            Token::GratherThan => owned(">"),
            Token::GratherOrEqual => owned(">="),
            Token::LessThan => owned("<"),
            Token::LessOrEqual => owned("<="),
            Token::Bang => owned("!"),
            Token::NotEqual => owned("!="),
            Token::DoublePlus => owned("++"),
            Token::DoubleMinus => owned("--"),
            Token::True => owned("true"),
            Token::False => owned("false"),
            Token::Let => owned("let"),
            Token::If => owned("if"),
            Token::For => owned("for"),
            Token::In => owned("in"),
            Token::Else => owned("else"),
            Token::Func => owned("[Defined Function]"),
            Token::Null => owned("null"),
            Token::Import => owned("import"),
            Token::Return => owned("return"),
            Token::ClassArray => owned("[Built-in Class] Array"),
            Token::TypeInt => owned("[Type Annotation] int"),
            Token::TypeFloat => owned("[Type Annotation] float"),
            Token::TypeString => owned("[Type Annotation] string"),
            Token::TypeBoolean => owned("[Type Annotation] boolean"),
            Token::TypeVoid => owned("[Type Annotation] void"),
        }
    }

    /// Whether both tokens are of the same category with the same payload.
    pub fn same(&self, other: &Token) -> (r: bool)
        ensures
            r == (self@ == other@),
    {
        match (self, other) {
            (Token::Illegal(a), Token::Illegal(b)) => *a == *b,
            (Token::Int(a), Token::Int(b)) => *a == *b,
            (Token::Float(a), Token::Float(b)) => {
                assert((a@ == b@) == (self@ == other@));
                *a == *b
            },
            (Token::String(a), Token::String(b)) => {
                assert((a@ == b@) == (self@ == other@));
                *a == *b
            },
            (Token::Identifier(a), Token::Identifier(b)) => {
                assert((a@ == b@) == (self@ == other@));
                *a == *b
            },
            (Token::Eof, Token::Eof) => true,
            (Token::Lbracket, Token::Lbracket) => true,
            (Token::Rbracket, Token::Rbracket) => true,
            (Token::Lparen, Token::Lparen) => true,
            (Token::Rparen, Token::Rparen) => true,
            (Token::Lbrace, Token::Lbrace) => true,
            (Token::Rbrace, Token::Rbrace) => true,
            (Token::Comma, Token::Comma) => true,
            (Token::Colon, Token::Colon) => true,
            (Token::Dot, Token::Dot) => true,
            (Token::Plus, Token::Plus) => true,
            (Token::Minus, Token::Minus) => true,
            (Token::Asterisk, Token::Asterisk) => true,
            (Token::Slash, Token::Slash) => true,
            (Token::Equal, Token::Equal) => true,
            (Token::Percet, Token::Percet) => true,
            (Token::DoubleEqual, Token::DoubleEqual) => true,
            (Token::GratherThan, Token::GratherThan) => true,
            (Token::GratherOrEqual, Token::GratherOrEqual) => true,
            (Token::LessThan, Token::LessThan) => true,
            (Token::LessOrEqual, Token::LessOrEqual) => true,
            (Token::Bang, Token::Bang) => true,
            (Token::NotEqual, Token::NotEqual) => true,
            (Token::DoublePlus, Token::DoublePlus) => true,
            (Token::DoubleMinus, Token::DoubleMinus) => true,
            (Token::True, Token::True) => true,
            (Token::False, Token::False) => true,
            (Token::Let, Token::Let) => true,
            (Token::If, Token::If) => true,
            (Token::For, Token::For) => true,
            (Token::In, Token::In) => true,
            (Token::Else, Token::Else) => true,
            (Token::Func, Token::Func) => true,
            (Token::Null, Token::Null) => true,
            (Token::Import, Token::Import) => true,
            (Token::Return, Token::Return) => true,
            (Token::ClassArray, Token::ClassArray) => true,
            (Token::TypeInt, Token::TypeInt) => true,
            (Token::TypeFloat, Token::TypeFloat) => true,
            (Token::TypeString, Token::TypeString) => true,
            (Token::TypeBoolean, Token::TypeBoolean) => true,
            (Token::TypeVoid, Token::TypeVoid) => true,
            _ => false,
        }
    }
}

} // verus!
