//! Parsing from text.
//!
//! Each function lexes a text, interns its identifiers, and reads what one
//! rule of the grammar finds at its start. It returns what it read and the
//! position in the text, counted in characters, at which the rest starts;
//! the whole text was read when that position is the length of the text.

use crate::ast::{
    block_view, BinaryOp, Decl, Declaration, Expr, Expression, Id, RefTy, ReferenceType, RetTy,
    ReturnType, Statement, Stmt, Ty, Type, UnaryOp,
};
use crate::error::{ParseError, SyntaxError};
use crate::grammar::{
    array_at, binary_operator_at, block_at, bool_at, call_at, declaration_at, expression_at,
    identifier_at, is, is_ident, length_at, null_at, parenthesized_at, projection_at,
    reference_type_at, return_type_at, statement_at, type_at, unary_operator_at,
};
use crate::parser::{
    names_after, parse_array_at, parse_block_at, parse_declaration_at, parse_expression_at,
    parse_null_at, parse_reftype_at, parse_return_type_at, parse_statement_at, parse_type_at,
    prepare, read, Source,
};
use crate::symbol::Interner;
use crate::tokens::{Tok, Token};
use vstd::prelude::*;

verus! {

/// A boolean literal at `pos`.
pub fn parse_bool_at(src: &Source, pos: usize) -> (r: Option<(Expression, usize)>)
    requires
        src.wf(),
    ensures
        match r {
            Some((e, end)) => bool_at(src.toks(), src.syms(), pos as nat) == Some((e@, end as nat))
                && pos < end <= src.tokens@.len(),
            None => bool_at(src.toks(), src.syms(), pos as nat).is_none(),
        },
{
    if src.is(pos, &Token::True) {
        Some((Expression::CBool(true), pos + 1))
    } else if src.is(pos, &Token::False) {
        Some((Expression::CBool(false), pos + 1))
    } else {
        None
    }
}

/// An identifier at `pos`.
pub fn parse_identifier_at(src: &Source, pos: usize) -> (r: Option<(Id, usize)>)
    requires
        src.wf(),
    ensures
        match r {
            Some((id, end)) => identifier_at(src.toks(), src.syms(), pos as nat) == Some(
                (id, end as nat),
            ) && pos < end <= src.tokens@.len(),
            None => identifier_at(src.toks(), src.syms(), pos as nat).is_none(),
        },
{
    if src.is_ident(pos) {
        Some((src.symbols[pos], pos + 1))
    } else {
        None
    }
}

/// `length(e)` at `pos`.
pub fn parse_length_at(src: &Source, pos: usize) -> (r: Option<(Expression, usize)>)
    requires
        src.wf(),
    ensures
        match r {
            Some((e, end)) => length_at(src.toks(), src.syms(), pos as nat) == Some((e@, end as nat))
                && pos < end <= src.tokens@.len(),
            None => length_at(src.toks(), src.syms(), pos as nat).is_none(),
        },
{
    if src.is(pos, &Token::Length) && src.is(pos + 1, &Token::LParen) {
        match parse_expression_at(src, pos + 2) {
            Some((array, p)) => if src.is(p, &Token::RParen) {
                Some((Expression::Length(Box::new(array)), p + 1))
            } else {
                None
            },
            None => None,
        }
    } else {
        None
    }
}

/// An expression in parentheses at `pos`.
pub fn parse_parenthesized_at(src: &Source, pos: usize) -> (r: Option<(Expression, usize)>)
    requires
        src.wf(),
    ensures
        match r {
            Some((e, end)) => parenthesized_at(src.toks(), src.syms(), pos as nat) == Some(
                (e@, end as nat),
            ) && pos < end <= src.tokens@.len(),
            None => parenthesized_at(src.toks(), src.syms(), pos as nat).is_none(),
        },
{
    if src.is(pos, &Token::LParen) {
        match parse_expression_at(src, pos + 1) {
            Some((inner, p)) => if src.is(p, &Token::RParen) {
                Some((inner, p + 1))
            } else {
                None
            },
            None => None,
        }
    } else {
        None
    }
}

/// An expression at `pos` that is a call.
pub fn parse_call_at(src: &Source, pos: usize) -> (r: Option<(Expression, usize)>)
    requires
        src.wf(),
    ensures
        match r {
            Some((e, end)) => call_at(src.toks(), src.syms(), pos as nat) == Some((e@, end as nat))
                && pos < end <= src.tokens@.len(),
            None => call_at(src.toks(), src.syms(), pos as nat).is_none(),
        },
{
    match parse_expression_at(src, pos) {
        Some((e, p)) => {
            let is_call = match &e {
                Expression::Call(_, _) => true,
                _ => false,
            };
            if is_call {
                Some((e, p))
            } else {
                None
            }
        },
        None => None,
    }
}

/// An expression at `pos` that is a projection.
pub fn parse_projection_at(src: &Source, pos: usize) -> (r: Option<(Expression, usize)>)
    requires
        src.wf(),
    ensures
        match r {
            Some((e, end)) => projection_at(src.toks(), src.syms(), pos as nat) == Some(
                (e@, end as nat),
            ) && pos < end <= src.tokens@.len(),
            None => projection_at(src.toks(), src.syms(), pos as nat).is_none(),
        },
{
    match parse_expression_at(src, pos) {
        Some((e, p)) => {
            let is_projection = match &e {
                Expression::Proj(_, _) => true,
                _ => false,
            };
            if is_projection {
                Some((e, p))
            } else {
                None
            }
        },
        None => None,
    }
}

/// An expression at the start of a text.
pub fn parse_expression(interner: &mut Interner, input: &str) -> (r: Result<(Expression, usize), ParseError>)
    ensures
        final(interner)@ == names_after(old(interner)@, input@),
        match r {
            Ok((found, rest)) => read(
                old(interner)@,
                input@,
                |t: Seq<Tok>, y: Seq<Id>, pos: nat| expression_at(t, y, pos),
            ) == Ok::<(Expr, nat), SyntaxError>((found@, rest as nat)),
            Err(e) => read(
                old(interner)@,
                input@,
                |t: Seq<Tok>, y: Seq<Id>, pos: nat| expression_at(t, y, pos),
            ) == Err::<(Expr, nat), SyntaxError>(e@),
        },
{
    match prepare(interner, input) {
        Err(e) => Err(e),
        Ok(src) => match parse_expression_at(&src, 0) {
            Some((found, end)) => Ok((found, src.offset_of(end))),
            None => Err(ParseError::ParserError(src.offset_of(0))),
        },
    }
}

/// A type at the start of a text.
pub fn parse_type(interner: &mut Interner, input: &str) -> (r: Result<(Type, usize), ParseError>)
    ensures
        final(interner)@ == names_after(old(interner)@, input@),
        match r {
            Ok((found, rest)) => read(
                old(interner)@,
                input@,
                |t: Seq<Tok>, y: Seq<Id>, pos: nat| type_at(t, y, pos),
            ) == Ok::<(Ty, nat), SyntaxError>((found@, rest as nat)),
            Err(e) => read(
                old(interner)@,
                input@,
                |t: Seq<Tok>, y: Seq<Id>, pos: nat| type_at(t, y, pos),
            ) == Err::<(Ty, nat), SyntaxError>(e@),
        },
{
    match prepare(interner, input) {
        Err(e) => Err(e),
        Ok(src) => match parse_type_at(&src, 0) {
            Some((found, end)) => Ok((found, src.offset_of(end))),
            None => Err(ParseError::ParserError(src.offset_of(0))),
        },
    }
}

/// A reference type at the start of a text.
pub fn parse_reftype(interner: &mut Interner, input: &str) -> (r: Result<(ReferenceType, usize), ParseError>)
    ensures
        final(interner)@ == names_after(old(interner)@, input@),
        match r {
            Ok((found, rest)) => read(
                old(interner)@,
                input@,
                |t: Seq<Tok>, y: Seq<Id>, pos: nat| reference_type_at(t, y, pos),
            ) == Ok::<(RefTy, nat), SyntaxError>((found@, rest as nat)),
            Err(e) => read(
                old(interner)@,
                input@,
                |t: Seq<Tok>, y: Seq<Id>, pos: nat| reference_type_at(t, y, pos),
            ) == Err::<(RefTy, nat), SyntaxError>(e@),
        },
{
    match prepare(interner, input) {
        Err(e) => Err(e),
        Ok(src) => match parse_reftype_at(&src, 0) {
            Some((found, end)) => Ok((found, src.offset_of(end))),
            None => Err(ParseError::ParserError(src.offset_of(0))),
        },
    }
}

/// A return type at the start of a text.
pub fn parse_return_type(interner: &mut Interner, input: &str) -> (r: Result<(ReturnType, usize), ParseError>)
    ensures
        final(interner)@ == names_after(old(interner)@, input@),
        match r {
            Ok((found, rest)) => read(
                old(interner)@,
                input@,
                |t: Seq<Tok>, y: Seq<Id>, pos: nat| return_type_at(t, y, pos),
            ) == Ok::<(RetTy, nat), SyntaxError>((found@, rest as nat)),
            Err(e) => read(
                old(interner)@,
                input@,
                |t: Seq<Tok>, y: Seq<Id>, pos: nat| return_type_at(t, y, pos),
            ) == Err::<(RetTy, nat), SyntaxError>(e@),
        },
{
    match prepare(interner, input) {
        Err(e) => Err(e),
        Ok(src) => match parse_return_type_at(&src, 0) {
            Some((found, end)) => Ok((found, src.offset_of(end))),
            None => Err(ParseError::ParserError(src.offset_of(0))),
        },
    }
}

/// A statement at the start of a text.
pub fn parse_statement(interner: &mut Interner, input: &str) -> (r: Result<(Statement, usize), ParseError>)
    ensures
        final(interner)@ == names_after(old(interner)@, input@),
        match r {
            Ok((found, rest)) => read(
                old(interner)@,
                input@,
                |t: Seq<Tok>, y: Seq<Id>, pos: nat| statement_at(t, y, pos),
            ) == Ok::<(Stmt, nat), SyntaxError>((found@, rest as nat)),
            Err(e) => read(
                old(interner)@,
                input@,
                |t: Seq<Tok>, y: Seq<Id>, pos: nat| statement_at(t, y, pos),
            ) == Err::<(Stmt, nat), SyntaxError>(e@),
        },
{
    match prepare(interner, input) {
        Err(e) => Err(e),
        Ok(src) => match parse_statement_at(&src, 0) {
            Some((found, end)) => Ok((found, src.offset_of(end))),
            None => Err(ParseError::ParserError(src.offset_of(0))),
        },
    }
}

/// A declaration at the start of a text.
pub fn parse_declaration(interner: &mut Interner, input: &str) -> (r: Result<(Declaration, usize), ParseError>)
    ensures
        final(interner)@ == names_after(old(interner)@, input@),
        match r {
            Ok((found, rest)) => read(
                old(interner)@,
                input@,
                |t: Seq<Tok>, y: Seq<Id>, pos: nat| declaration_at(t, y, pos),
            ) == Ok::<(Decl, nat), SyntaxError>((found@, rest as nat)),
            Err(e) => read(
                old(interner)@,
                input@,
                |t: Seq<Tok>, y: Seq<Id>, pos: nat| declaration_at(t, y, pos),
            ) == Err::<(Decl, nat), SyntaxError>(e@),
        },
{
    match prepare(interner, input) {
        Err(e) => Err(e),
        Ok(src) => match parse_declaration_at(&src, 0) {
            Some((found, end)) => Ok((found, src.offset_of(end))),
            None => Err(ParseError::ParserError(src.offset_of(0))),
        },
    }
}

/// A null literal at the start of a text.
pub fn parse_null(interner: &mut Interner, input: &str) -> (r: Result<(Expression, usize), ParseError>)
    ensures
        final(interner)@ == names_after(old(interner)@, input@),
        match r {
            Ok((found, rest)) => read(
                old(interner)@,
                input@,
                |t: Seq<Tok>, y: Seq<Id>, pos: nat| null_at(t, y, pos),
            ) == Ok::<(Expr, nat), SyntaxError>((found@, rest as nat)),
            Err(e) => read(
                old(interner)@,
                input@,
                |t: Seq<Tok>, y: Seq<Id>, pos: nat| null_at(t, y, pos),
            ) == Err::<(Expr, nat), SyntaxError>(e@),
        },
{
    match prepare(interner, input) {
        Err(e) => Err(e),
        Ok(src) => match parse_null_at(&src, 0) {
            Some((found, end)) => Ok((found, src.offset_of(end))),
            None => Err(ParseError::ParserError(src.offset_of(0))),
        },
    }
}

/// An array expression at the start of a text.
pub fn parse_array(interner: &mut Interner, input: &str) -> (r: Result<(Expression, usize), ParseError>)
    ensures
        final(interner)@ == names_after(old(interner)@, input@),
        match r {
            Ok((found, rest)) => read(
                old(interner)@,
                input@,
                |t: Seq<Tok>, y: Seq<Id>, pos: nat| array_at(t, y, pos),
            ) == Ok::<(Expr, nat), SyntaxError>((found@, rest as nat)),
            Err(e) => read(
                old(interner)@,
                input@,
                |t: Seq<Tok>, y: Seq<Id>, pos: nat| array_at(t, y, pos),
            ) == Err::<(Expr, nat), SyntaxError>(e@),
        },
{
    match prepare(interner, input) {
        Err(e) => Err(e),
        Ok(src) => match parse_array_at(&src, 0) {
            Some((found, end)) => Ok((found, src.offset_of(end))),
            None => Err(ParseError::ParserError(src.offset_of(0))),
        },
    }
}

/// A boolean literal at the start of a text.
pub fn parse_bool(interner: &mut Interner, input: &str) -> (r: Result<(Expression, usize), ParseError>)
    ensures
        final(interner)@ == names_after(old(interner)@, input@),
        match r {
            Ok((found, rest)) => read(
                old(interner)@,
                input@,
                |t: Seq<Tok>, y: Seq<Id>, pos: nat| bool_at(t, y, pos),
            ) == Ok::<(Expr, nat), SyntaxError>((found@, rest as nat)),
            Err(e) => read(
                old(interner)@,
                input@,
                |t: Seq<Tok>, y: Seq<Id>, pos: nat| bool_at(t, y, pos),
            ) == Err::<(Expr, nat), SyntaxError>(e@),
        },
{
    match prepare(interner, input) {
        Err(e) => Err(e),
        Ok(src) => match parse_bool_at(&src, 0) {
            Some((found, end)) => Ok((found, src.offset_of(end))),
            None => Err(ParseError::ParserError(src.offset_of(0))),
        },
    }
}

/// `length(e)` at the start of a text.
pub fn parse_length(interner: &mut Interner, input: &str) -> (r: Result<(Expression, usize), ParseError>)
    ensures
        final(interner)@ == names_after(old(interner)@, input@),
        match r {
            Ok((found, rest)) => read(
                old(interner)@,
                input@,
                |t: Seq<Tok>, y: Seq<Id>, pos: nat| length_at(t, y, pos),
            ) == Ok::<(Expr, nat), SyntaxError>((found@, rest as nat)),
            Err(e) => read(
                old(interner)@,
                input@,
                |t: Seq<Tok>, y: Seq<Id>, pos: nat| length_at(t, y, pos),
            ) == Err::<(Expr, nat), SyntaxError>(e@),
        },
{
    match prepare(interner, input) {
        Err(e) => Err(e),
        Ok(src) => match parse_length_at(&src, 0) {
            Some((found, end)) => Ok((found, src.offset_of(end))),
            None => Err(ParseError::ParserError(src.offset_of(0))),
        },
    }
}

/// An expression in parentheses at the start of a text.
pub fn parenthesized(interner: &mut Interner, input: &str) -> (r: Result<(Expression, usize), ParseError>)
    ensures
        final(interner)@ == names_after(old(interner)@, input@),
        match r {
            Ok((found, rest)) => read(
                old(interner)@,
                input@,
                |t: Seq<Tok>, y: Seq<Id>, pos: nat| parenthesized_at(t, y, pos),
            ) == Ok::<(Expr, nat), SyntaxError>((found@, rest as nat)),
            Err(e) => read(
                old(interner)@,
                input@,
                |t: Seq<Tok>, y: Seq<Id>, pos: nat| parenthesized_at(t, y, pos),
            ) == Err::<(Expr, nat), SyntaxError>(e@),
        },
{
    match prepare(interner, input) {
        Err(e) => Err(e),
        Ok(src) => match parse_parenthesized_at(&src, 0) {
            Some((found, end)) => Ok((found, src.offset_of(end))),
            None => Err(ParseError::ParserError(src.offset_of(0))),
        },
    }
}

/// A call at the start of a text.
pub fn parse_call(interner: &mut Interner, input: &str) -> (r: Result<(Expression, usize), ParseError>)
    ensures
        final(interner)@ == names_after(old(interner)@, input@),
        match r {
            Ok((found, rest)) => read(
                old(interner)@,
                input@,
                |t: Seq<Tok>, y: Seq<Id>, pos: nat| call_at(t, y, pos),
            ) == Ok::<(Expr, nat), SyntaxError>((found@, rest as nat)),
            Err(e) => read(
                old(interner)@,
                input@,
                |t: Seq<Tok>, y: Seq<Id>, pos: nat| call_at(t, y, pos),
            ) == Err::<(Expr, nat), SyntaxError>(e@),
        },
{
    match prepare(interner, input) {
        Err(e) => Err(e),
        Ok(src) => match parse_call_at(&src, 0) {
            Some((found, end)) => Ok((found, src.offset_of(end))),
            None => Err(ParseError::ParserError(src.offset_of(0))),
        },
    }
}

/// A projection at the start of a text.
pub fn parse_projection(interner: &mut Interner, input: &str) -> (r: Result<(Expression, usize), ParseError>)
    ensures
        final(interner)@ == names_after(old(interner)@, input@),
        match r {
            Ok((found, rest)) => read(
                old(interner)@,
                input@,
                |t: Seq<Tok>, y: Seq<Id>, pos: nat| projection_at(t, y, pos),
            ) == Ok::<(Expr, nat), SyntaxError>((found@, rest as nat)),
            Err(e) => read(
                old(interner)@,
                input@,
                |t: Seq<Tok>, y: Seq<Id>, pos: nat| projection_at(t, y, pos),
            ) == Err::<(Expr, nat), SyntaxError>(e@),
        },
{
    match prepare(interner, input) {
        Err(e) => Err(e),
        Ok(src) => match parse_projection_at(&src, 0) {
            Some((found, end)) => Ok((found, src.offset_of(end))),
            None => Err(ParseError::ParserError(src.offset_of(0))),
        },
    }
}

/// A block at the start of a text.
pub fn parse_block(interner: &mut Interner, input: &str) -> (r: Result<(Vec<Statement>, usize), ParseError>)
    ensures
        final(interner)@ == names_after(old(interner)@, input@),
        match r {
            Ok((found, rest)) => read(
                old(interner)@,
                input@,
                |t: Seq<Tok>, y: Seq<Id>, pos: nat| block_at(t, y, pos),
            ) == Ok::<(Seq<Stmt>, nat), SyntaxError>((block_view(found@), rest as nat)),
            Err(e) => read(
                old(interner)@,
                input@,
                |t: Seq<Tok>, y: Seq<Id>, pos: nat| block_at(t, y, pos),
            ) == Err::<(Seq<Stmt>, nat), SyntaxError>(e@),
        },
{
    match prepare(interner, input) {
        Err(e) => Err(e),
        Ok(src) => match parse_block_at(&src, 0) {
            Some((found, end)) => Ok((found, src.offset_of(end))),
            None => Err(ParseError::ParserError(src.offset_of(0))),
        },
    }
}

/// An identifier at the start of a text.
pub fn parse_identifier(interner: &mut Interner, input: &str) -> (r: Result<(Id, usize), ParseError>)
    ensures
        final(interner)@ == names_after(old(interner)@, input@),
        match r {
            Ok((found, rest)) => read(
                old(interner)@,
                input@,
                |t: Seq<Tok>, y: Seq<Id>, pos: nat| identifier_at(t, y, pos),
            ) == Ok::<(Id, nat), SyntaxError>((found, rest as nat)),
            Err(e) => read(
                old(interner)@,
                input@,
                |t: Seq<Tok>, y: Seq<Id>, pos: nat| identifier_at(t, y, pos),
            ) == Err::<(Id, nat), SyntaxError>(e@),
        },
{
    match prepare(interner, input) {
        Err(e) => Err(e),
        Ok(src) => match parse_identifier_at(&src, 0) {
            Some((found, end)) => Ok((found, src.offset_of(end))),
            None => Err(ParseError::ParserError(src.offset_of(0))),
        },
    }
}

/// A unary operator at the start of a text.
pub fn parse_unop(interner: &mut Interner, input: &str) -> (r: Result<(UnaryOp, usize), ParseError>)
    ensures
        final(interner)@ == names_after(old(interner)@, input@),
        match r {
            Ok((found, rest)) => read(
                old(interner)@,
                input@,
                |t: Seq<Tok>, y: Seq<Id>, pos: nat| unary_operator_at(t, y, pos),
            ) == Ok::<(UnaryOp, nat), SyntaxError>((found, rest as nat)),
            Err(e) => read(
                old(interner)@,
                input@,
                |t: Seq<Tok>, y: Seq<Id>, pos: nat| unary_operator_at(t, y, pos),
            ) == Err::<(UnaryOp, nat), SyntaxError>(e@),
        },
{
    match prepare(interner, input) {
        Err(e) => Err(e),
        Ok(src) => {
            let found = if src.is(0, &Token::Dash) {
                Some(UnaryOp::Neg)
            } else if src.is(0, &Token::Bang) {
                Some(UnaryOp::Lognot)
            } else if src.is(0, &Token::Tilde) {
                Some(UnaryOp::Bitnot)
            } else {
                None
            };
            match found {
                Some(op) => Ok((op, src.offset_of(1))),
                None => Err(ParseError::ParserError(src.offset_of(0))),
            }
        },
    }
}

/// A binary operator at the start of a text.
pub fn parse_binop(interner: &mut Interner, input: &str) -> (r: Result<(BinaryOp, usize), ParseError>)
    ensures
        final(interner)@ == names_after(old(interner)@, input@),
        match r {
            Ok((found, rest)) => read(
                old(interner)@,
                input@,
                |t: Seq<Tok>, y: Seq<Id>, pos: nat| binary_operator_at(t, y, pos),
            ) == Ok::<(BinaryOp, nat), SyntaxError>((found, rest as nat)),
            Err(e) => read(
                old(interner)@,
                input@,
                |t: Seq<Tok>, y: Seq<Id>, pos: nat| binary_operator_at(t, y, pos),
            ) == Err::<(BinaryOp, nat), SyntaxError>(e@),
        },
{
    match prepare(interner, input) {
        Err(e) => Err(e),
        Ok(src) => match crate::parser::binary_operator_here(&src, 0) {
            Some(op) => Ok((op, src.offset_of(1))),
            None => Err(ParseError::ParserError(src.offset_of(0))),
        },
    }
}

} // verus!
