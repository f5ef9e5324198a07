//! The tokens of Oat.

use vstd::prelude::*;

verus! {

#[derive(Debug, Clone, PartialEq, Eq)]
pub enum Token {
    Struct,
    Null,
    TVoid,
    TInt,
    TString,
    Else,
    If,
    Ifq,
    While,
    Return,
    Var,
    Global,
    Length,
    Dot,
    Semi,
    Comma,
    LBrace,
    RBrace,
    Plus,
    Dash,
    Star,
    Eq,
    Eqeq,
    Bang,
    Tilde,
    LParen,
    RParen,
    LBracket,
    RBracket,
    For,
    New,
    True,
    False,
    TBool,
    Ltlt,
    Gtgt,
    Gtgtgt,
    BangEq,
    Lt,
    Lteq,
    Gt,
    Gteq,
    Ampersand,
    Bar,
    IAnd,
    IOr,
    Arrow,
    Question,
    String(String),
    Ident(String),
    Int(i64),
}

/// The model of a `Token`.
pub enum Tok {
    Struct,
    Null,
    TVoid,
    TInt,
    TString,
    Else,
    If,
    Ifq,
    While,
    Return,
    Var,
    Global,
    Length,
    Dot,
    Semi,
    Comma,
    LBrace,
    RBrace,
    Plus,
    Dash,
    Star,
    Eq,
    Eqeq,
    Bang,
    Tilde,
    LParen,
    RParen,
    LBracket,
    RBracket,
    For,
    New,
    True,
    False,
    TBool,
    Ltlt,
    Gtgt,
    Gtgtgt,
    BangEq,
    Lt,
    Lteq,
    Gt,
    Gteq,
    Ampersand,
    Bar,
    IAnd,
    IOr,
    Arrow,
    Question,
    String(Seq<char>),
    Ident(Seq<char>),
    Int(i64),
}

impl View for Token {
    type V = Tok;

    open spec fn view(&self) -> Tok {
        match self {
            Token::Struct => Tok::Struct,
            Token::Null => Tok::Null,
            Token::TVoid => Tok::TVoid,
            Token::TInt => Tok::TInt,
            Token::TString => Tok::TString,
            Token::Else => Tok::Else,
            Token::If => Tok::If,
            Token::Ifq => Tok::Ifq,
            Token::While => Tok::While,
            Token::Return => Tok::Return,
            Token::Var => Tok::Var,
            Token::Global => Tok::Global,
            Token::Length => Tok::Length,
            Token::Dot => Tok::Dot,
            Token::Semi => Tok::Semi,
            Token::Comma => Tok::Comma,
            Token::LBrace => Tok::LBrace,
            Token::RBrace => Tok::RBrace,
            Token::Plus => Tok::Plus,
            Token::Dash => Tok::Dash,
            Token::Star => Tok::Star,
            Token::Eq => Tok::Eq,
            Token::Eqeq => Tok::Eqeq,
            Token::Bang => Tok::Bang,
            Token::Tilde => Tok::Tilde,
            Token::LParen => Tok::LParen,
            Token::RParen => Tok::RParen,
            Token::LBracket => Tok::LBracket,
            Token::RBracket => Tok::RBracket,
            Token::For => Tok::For,
            Token::New => Tok::New,
            Token::True => Tok::True,
            Token::False => Tok::False,
            Token::TBool => Tok::TBool,
            Token::Ltlt => Tok::Ltlt,
            Token::Gtgt => Tok::Gtgt,
            Token::Gtgtgt => Tok::Gtgtgt,
            Token::BangEq => Tok::BangEq,
            Token::Lt => Tok::Lt,
            Token::Lteq => Tok::Lteq,
            Token::Gt => Tok::Gt,
            Token::Gteq => Tok::Gteq,
            Token::Ampersand => Tok::Ampersand,
            Token::Bar => Tok::Bar,
            Token::IAnd => Tok::IAnd,
            Token::IOr => Tok::IOr,
            Token::Arrow => Tok::Arrow,
            Token::Question => Tok::Question,
            Token::String(s) => Tok::String(s@),
            Token::Ident(s) => Tok::Ident(s@),
            Token::Int(i) => Tok::Int(*i),
        }
    }
}

/// The models of a vector of tokens.
pub open spec fn tokens_view(tokens: Seq<Token>) -> Seq<Tok> {
    Seq::new(tokens.len(), |i: int| tokens[i]@)
}

/// How one stream of tokens compares with the start of another.
#[derive(Debug, Clone, Copy, PartialEq, Eq, Structural)]
pub enum CompareResult {
    /// The second stream is a prefix of the first.
    Match,
    /// The first stream is a proper prefix of the second.
    Incomplete,
    /// The streams differ at a position that both have.
    Error,
}

/// Whether two tokens stand for the same model.
pub fn token_eq(a: &Token, b: &Token) -> (r: bool)
    ensures
        r == (a@ == b@),
{
    match (a, b) {
        (Token::String(x), Token::String(y)) => *x == *y,
        (Token::Ident(x), Token::Ident(y)) => *x == *y,
        (Token::Int(x), Token::Int(y)) => *x == *y,
        (Token::Struct, Token::Struct) => true,
        (Token::Null, Token::Null) => true,
        (Token::TVoid, Token::TVoid) => true,
        (Token::TInt, Token::TInt) => true,
        (Token::TString, Token::TString) => true,
        (Token::Else, Token::Else) => true,
        (Token::If, Token::If) => true,
        (Token::Ifq, Token::Ifq) => true,
        (Token::While, Token::While) => true,
        (Token::Return, Token::Return) => true,
        (Token::Var, Token::Var) => true,
        (Token::Global, Token::Global) => true,
        (Token::Length, Token::Length) => true,
        (Token::Dot, Token::Dot) => true,
        (Token::Semi, Token::Semi) => true,
        (Token::Comma, Token::Comma) => true,
        (Token::LBrace, Token::LBrace) => true,
        (Token::RBrace, Token::RBrace) => true,
        (Token::Plus, Token::Plus) => true,
        (Token::Dash, Token::Dash) => true,
        (Token::Star, Token::Star) => true,
        (Token::Eq, Token::Eq) => true,
        (Token::Eqeq, Token::Eqeq) => true,
        (Token::Bang, Token::Bang) => true,
        (Token::Tilde, Token::Tilde) => true,
        (Token::LParen, Token::LParen) => true,
        (Token::RParen, Token::RParen) => true,
        (Token::LBracket, Token::LBracket) => true,
        (Token::RBracket, Token::RBracket) => true,
        (Token::For, Token::For) => true,
        (Token::New, Token::New) => true,
        (Token::True, Token::True) => true,
        (Token::False, Token::False) => true,
        (Token::TBool, Token::TBool) => true,
        (Token::Ltlt, Token::Ltlt) => true,
        (Token::Gtgt, Token::Gtgt) => true,
        (Token::Gtgtgt, Token::Gtgtgt) => true,
        (Token::BangEq, Token::BangEq) => true,
        (Token::Lt, Token::Lt) => true,
        (Token::Lteq, Token::Lteq) => true,
        (Token::Gt, Token::Gt) => true,
        (Token::Gteq, Token::Gteq) => true,
        (Token::Ampersand, Token::Ampersand) => true,
        (Token::Bar, Token::Bar) => true,
        (Token::IAnd, Token::IAnd) => true,
        (Token::IOr, Token::IOr) => true,
        (Token::Arrow, Token::Arrow) => true,
        (Token::Question, Token::Question) => true,
        _ => false,
    }
}

/// The first position at which both streams have a token and the tokens
/// differ, looking from position `i` on.
pub open spec fn first_difference(a: Seq<Tok>, b: Seq<Tok>, i: nat) -> Option<nat>
    decreases a.len() - i,
{
    if i >= a.len() || i >= b.len() {
        None
    } else if a[i as int] != b[i as int] {
        Some(i)
    } else {
        first_difference(a, b, i + 1)
    }
}

/// How the stream `a` compares with the start of the stream `b`.
pub open spec fn compare_streams(a: Seq<Tok>, b: Seq<Tok>) -> CompareResult {
    if first_difference(a, b, 0).is_some() {
        CompareResult::Error
    } else if a.len() >= b.len() {
        CompareResult::Match
    } else {
        CompareResult::Incomplete
    }
}

/// A view into a sequence of tokens.
#[derive(Debug)]
pub struct TokenStream<'a> {
    pub stream: &'a [Token],
}

impl<'a> TokenStream<'a> {
    /// The number of tokens in the stream.
    pub fn len(&self) -> (n: usize)
        ensures
            n == self.stream@.len(),
    {
        self.stream.len()
    }

    /// Compares the stream with the start of `t`.
    pub fn compare(&self, t: &TokenStream<'_>) -> (r: CompareResult)
        ensures
            r == compare_streams(tokens_view(self.stream@), tokens_view(t.stream@)),
    {
        let ghost a = tokens_view(self.stream@);
        let ghost b = tokens_view(t.stream@);
        let mut i: usize = 0;
        while i < self.stream.len() && i < t.stream.len()
            invariant
                a == tokens_view(self.stream@),
                b == tokens_view(t.stream@),
                first_difference(a, b, 0) == first_difference(a, b, i as nat),
            decreases self.stream.len() - i,
        {
            if !token_eq(&self.stream[i], &t.stream[i]) {
                return CompareResult::Error;
            }
            i += 1;
        }
        if self.len() >= t.len() {
            CompareResult::Match
        } else {
            CompareResult::Incomplete
        }
    }

    /// Compares the stream with the start of `t`. Tokens have no case, so
    /// this is `compare`.
    pub fn compare_no_case(&self, t: &TokenStream<'_>) -> (r: CompareResult)
        ensures
            r == compare_streams(tokens_view(self.stream@), tokens_view(t.stream@)),
    {
        self.compare(t)
    }
}

} // verus!
