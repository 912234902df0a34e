pub use crate::ast::lexer::Lexer;

use crate::ast::number::{parse_i64, parse_i64_spec};
use crate::ast::text::char_string;
use vstd::prelude::*;

verus! {

/// The category of a token.
#[allow(non_camel_case_types)]
#[derive(Debug, Clone, Copy, PartialEq, Eq, Structural)]
pub enum TokenTag {
    AND,
    OR,
    MOD,
    IN,
    EQUALS,
    VAR,
    OTHER,
    NUM,
    LEFT_PAREN,
    RIGHT_PAREN,
    STR,
}

/// Why the lexer produced no token.
#[allow(non_camel_case_types)]
#[derive(Debug)]
pub enum ErrCode {
    /// The input is exhausted. This is a signal to the reader of the token stream,
    /// not a fault in the input.
    READ_TO_END(String),
    /// The input cannot be a token.
    OTHER(String),
}

/// Why the lexer produced no token, as a mathematical value: the kind of the failure and
/// the text of its message.
pub enum Mishap {
    ReadToEnd(Seq<char>),
    Other(Seq<char>),
}

impl View for ErrCode {
    type V = Mishap;

    open spec fn view(&self) -> Mishap {
        match self {
            ErrCode::READ_TO_END(m) => Mishap::ReadToEnd(m@),
            ErrCode::OTHER(m) => Mishap::Other(m@),
        }
    }
}

/// What a text that is no number is refused with.
pub const NOT_A_NUMBER: &'static str = "Not a number lexeme";

impl TokenTag {
    /// The number that each tag is known by.
    pub open spec fn code(self) -> int {
        match self {
            TokenTag::AND => 256,
            TokenTag::OR => 257,
            TokenTag::MOD => 258,
            TokenTag::IN => 259,
            TokenTag::EQUALS => 260,
            TokenTag::VAR => 261,
            TokenTag::OTHER => 262,
            TokenTag::NUM => 263,
            TokenTag::LEFT_PAREN => 264,
            TokenTag::RIGHT_PAREN => 265,
            TokenTag::STR => 266,
        }
    }

    /// One of the five operator keywords.
    pub open spec fn is_operator(self) -> bool {
        self == TokenTag::AND || self == TokenTag::OR || self == TokenTag::MOD || self
            == TokenTag::IN || self == TokenTag::EQUALS
    }

    /// The number that the tag is known by.
    pub fn value(&self) -> (r: i32)
        ensures
            r == self.code(),
    {
        match *self {
            TokenTag::AND => 256,
            TokenTag::OR => 257,
            TokenTag::MOD => 258,
            TokenTag::IN => 259,
            TokenTag::EQUALS => 260,
            TokenTag::VAR => 261,
            TokenTag::OTHER => 262,
            TokenTag::NUM => 263,
            TokenTag::LEFT_PAREN => 264,
            TokenTag::RIGHT_PAREN => 265,
            TokenTag::STR => 266,
        }
    }
}

/// What a token is, apart from how it is stored: its tag and its text.
pub struct Tok {
    pub tag: TokenTag,
    pub lexeme: Seq<char>,
}

/// An operator keyword.
#[derive(Debug)]
pub struct OpType {
    tag: TokenTag,
    lexeme: String,
}

/// A reference to a variable; the text is the variable's name.
#[derive(Debug)]
pub struct Var {
    s: String,
    token_tag: TokenTag,
}

/// A number; the text spells `val` in decimal.
#[derive(Debug)]
pub struct Num {
    token_tag: TokenTag,
    val: i64,
    lexeme: String,
}

/// A string literal.
#[derive(Debug)]
pub struct Str {
    token_tag: TokenTag,
    s: String,
}

/// Any single character that is nothing else.
#[derive(Debug)]
pub struct Other {
    token_tag: TokenTag,
    lexeme: String,
}

/// A token of any of the five shapes.
#[derive(Debug)]
pub enum Token {
    Op(OpType),
    Var(Var),
    Num(Num),
    Str(Str),
    Other(Other),
}

impl View for OpType {
    type V = Tok;

    closed spec fn view(&self) -> Tok {
        Tok { tag: self.tag, lexeme: self.lexeme@ }
    }
}

impl OpType {
    /// The token with the tag `token_tag` and the text `lexeme`.
    pub fn create_with_token(token_tag: TokenTag, lexeme: String) -> (r: Result<Token, ErrCode>)
        ensures
            r matches Ok(t) && t@ == (Tok { tag: token_tag, lexeme: lexeme@ }),
    {
        Ok(Token::Op(OpType { tag: token_tag, lexeme: lexeme }))
    }

    /// The token's tag.
    pub fn token_tag(&self) -> (r: &TokenTag)
        ensures
            *r == self@.tag,
    {
        &self.tag
    }

    /// A copy of the token's text.
    pub fn lexeme(&self) -> (r: String)
        ensures
            r@ == self@.lexeme,
    {
        self.lexeme.clone()
    }
}

impl View for Var {
    type V = Tok;

    closed spec fn view(&self) -> Tok {
        Tok { tag: self.token_tag, lexeme: self.s@ }
    }
}

impl Var {
    /// The token with the tag `token_tag` and the text `s`.
    pub fn create_with_token_and_val(token_tag: TokenTag, s: String) -> (r: Result<Token, ErrCode>)
        ensures
            r matches Ok(t) && t@ == (Tok { tag: token_tag, lexeme: s@ }),
    {
        Ok(Token::Var(Var { s: s, token_tag: token_tag }))
    }

    /// The token's tag.
    pub fn token_tag(&self) -> (r: &TokenTag)
        ensures
            *r == self@.tag,
    {
        &self.token_tag
    }

    /// A copy of the token's text.
    pub fn lexeme(&self) -> (r: String)
        ensures
            r@ == self@.lexeme,
    {
        self.s.clone()
    }
}

impl View for Num {
    type V = Tok;

    closed spec fn view(&self) -> Tok {
        Tok { tag: self.token_tag, lexeme: self.lexeme@ }
    }
}

impl Num {
    /// The number that the token holds.
    pub closed spec fn number(&self) -> i64 {
        self.val
    }

    /// The token with the tag `token_tag` and the text `lexeme`, which must read as a signed
    /// 64-bit integer: that integer is the token's number.
    pub fn create_with_token_and_val(token_tag: TokenTag, lexeme: String) -> (r: Result<
        Token,
        ErrCode,
    >)
        ensures
            match parse_i64_spec(lexeme@) {
                Some(v) => r matches Ok(Token::Num(n)) && n@ == (Tok {
                    tag: token_tag,
                    lexeme: lexeme@,
                }) && n.number() == v,
                None => r matches Err(e) && e@ == Mishap::Other(NOT_A_NUMBER@),
            },
    {
        match parse_i64(lexeme.as_str()) {
            Some(v) => Ok(Token::Num(Num { token_tag: token_tag, val: v, lexeme: lexeme })),
            None => Err(ErrCode::OTHER(String::from_str(NOT_A_NUMBER))),
        }
    }

    /// The token's tag.
    pub fn token_tag(&self) -> (r: &TokenTag)
        ensures
            *r == self@.tag,
    {
        &self.token_tag
    }

    /// A copy of the token's text.
    pub fn lexeme(&self) -> (r: String)
        ensures
            r@ == self@.lexeme,
    {
        self.lexeme.clone()
    }

    /// The number that the token's text spells.
    pub fn val(&self) -> (r: i64)
        ensures
            r == self.number(),
    {
        self.val
    }
}

impl View for Str {
    type V = Tok;

    closed spec fn view(&self) -> Tok {
        Tok { tag: self.token_tag, lexeme: self.s@ }
    }
}

impl Str {
    /// The token with the tag `token_tag` and the text `s`.
    pub fn create_with_token_and_val(token_tag: TokenTag, s: String) -> (r: Result<Token, ErrCode>)
        ensures
            r matches Ok(t) && t@ == (Tok { tag: token_tag, lexeme: s@ }),
    {
        Ok(Token::Str(Str { token_tag: token_tag, s: s }))
    }

    /// The token's tag.
    pub fn token_tag(&self) -> (r: &TokenTag)
        ensures
            *r == self@.tag,
    {
        &self.token_tag
    }

    /// A copy of the token's text.
    pub fn lexeme(&self) -> (r: String)
        ensures
            r@ == self@.lexeme,
    {
        self.s.clone()
    }
}

impl View for Other {
    type V = Tok;

    closed spec fn view(&self) -> Tok {
        Tok { tag: self.token_tag, lexeme: self.lexeme@ }
    }
}

impl Other {
    /// The token with the tag `token_tag` whose text is the character `s`.
    pub fn create_with_token_and_val(token_tag: TokenTag, s: char) -> (r: Result<Token, ErrCode>)
        ensures
            r matches Ok(t) && t@ == (Tok { tag: token_tag, lexeme: seq![s] }),
    {
        Ok(Token::Other(Other { token_tag: token_tag, lexeme: char_string(s) }))
    }

    /// The token's tag.
    pub fn token_tag(&self) -> (r: &TokenTag)
        ensures
            *r == self@.tag,
    {
        &self.token_tag
    }

    /// A copy of the token's text.
    pub fn lexeme(&self) -> (r: String)
        ensures
            r@ == self@.lexeme,
    {
        self.lexeme.clone()
    }
}

impl View for Token {
    type V = Tok;

    open spec fn view(&self) -> Tok {
        match self {
            Token::Op(t) => t@,
            Token::Var(t) => t@,
            Token::Num(t) => t@,
            Token::Str(t) => t@,
            Token::Other(t) => t@,
        }
    }
}

impl Token {
    /// The token's tag.
    pub fn token_tag(&self) -> (r: &TokenTag)
        ensures
            *r == self@.tag,
    {
        match self {
            Token::Op(t) => t.token_tag(),
            Token::Var(t) => t.token_tag(),
            Token::Num(t) => t.token_tag(),
            Token::Str(t) => t.token_tag(),
            Token::Other(t) => t.token_tag(),
        }
    }

    /// A copy of the token's text.
    pub fn lexeme(&self) -> (r: String)
        ensures
            r@ == self@.lexeme,
    {
        match self {
            Token::Op(t) => t.lexeme(),
            Token::Var(t) => t.lexeme(),
            Token::Num(t) => t.lexeme(),
            Token::Str(t) => t.lexeme(),
            Token::Other(t) => t.lexeme(),
        }
    }
}

} // verus!
