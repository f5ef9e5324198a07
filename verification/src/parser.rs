//! The parser: recursive descent over the tokens of a text.
//!
//! Each function reads what the grammar says stands at a position, and
//! returns it with the position after it.

use crate::ast::{
    bindings_view, block_view, expressions_view, fields_view, params_view, types_view, BinaryOp,
    Declaration, Expr, Expression, FieldSet, FunctionDecl, GlobalDeclaration, Id, Prog, Program,
    ReferenceType, ReturnType, Statement, Stmt, Type, TypeDeclaration, UnaryOp,
};
use crate::error::{ParseError, SyntaxError};
use crate::grammar::{
    array_at, atom_at, base_type_at, binary_at, binary_operator, binding_at, block_at, cast_at,
    constant_at, declaration_at, declarations_at, else_at, expression_at, expressions_at,
    fields_at, for_at, function_at, function_type_at, global_at, if_at, initializers_at,
    insert_field, interned, is, is_ident, more_bindings_at, more_expressions_at,
    more_parameters_at, more_types_at, null_at, operator_at, operators_at, parameters_at,
    postfix_at, precedence, reference_type_at, return_type_at, simple_at, statement_at,
    statements_at, struct_at, suffixes_at, symbol_of, symbols_of, type_at, type_suffixes_at,
    typed_name_at, types_at, unary_at, unary_operator, while_at,
};
use crate::lexer::{characters, lex, lexemes, scan, substring};
use crate::symbol::{Interner, Symbol};
use crate::table::{lemma_position, SymbolTable};
use crate::tokens::{token_eq, tokens_view, Tok, Token};
use crate::typecontext::names;
use vstd::prelude::*;

verus! {

/// A text that was lexed: its tokens, the symbol of each identifier among
/// them, and the position in the text at which each token starts.
#[derive(Debug)]
pub struct Source {
    pub tokens: Vec<Token>,
    pub symbols: Vec<Symbol>,
    pub offsets: Vec<usize>,
    /// The number of characters of the text.
    pub length: usize,
}

impl Source {
    /// Every token has a symbol and an offset.
    pub open spec fn wf(&self) -> bool {
        &&& self.tokens@.len() == self.symbols@.len()
        &&& self.tokens@.len() == self.offsets@.len()
    }

    /// The models of the tokens.
    pub open spec fn toks(&self) -> Seq<Tok> {
        tokens_view(self.tokens@)
    }

    /// The symbols of the tokens.
    pub open spec fn syms(&self) -> Seq<Id> {
        self.symbols@
    }

    /// The position in the text at which the token at `pos` starts, or the
    /// length of the text when there is no such token.
    pub open spec fn offset(&self, pos: nat) -> nat {
        if pos < self.offsets@.len() {
            self.offsets@[pos as int] as nat
        } else {
            self.length as nat
        }
    }

    /// Whether the token `k`, which carries no text or number, stands at
    /// `pos`.
    pub fn is(&self, pos: usize, k: &Token) -> (r: bool)
        ensures
            r == is(self.toks(), pos as nat, k@),
            r ==> pos < usize::MAX,
    {
        pos < self.tokens.len() && token_eq(&self.tokens[pos], k)
    }

    /// Whether an identifier stands at `pos`.
    pub fn is_ident(&self, pos: usize) -> (r: bool)
        ensures
            r == is_ident(self.toks(), pos as nat),
            r ==> pos < usize::MAX,
    {
        if pos < self.tokens.len() {
            match &self.tokens[pos] {
                Token::Ident(_) => true,
                _ => false,
            }
        } else {
            false
        }
    }

    /// The position in the text at which the token at `pos` starts.
    pub fn offset_of(&self, pos: usize) -> (r: usize)
        ensures
            r == self.offset(pos as nat),
    {
        if pos < self.offsets.len() {
            self.offsets[pos]
        } else {
            self.length
        }
    }
}

/// The types of a list that starts at `pos`.
pub fn parse_types(src: &Source, pos: usize) -> (r: (Vec<Type>, usize))
    requires
        src.wf(),
    ensures
        types_at(src.toks(), src.syms(), pos as nat, Seq::empty()) == (types_view(r.0@), r.1 as nat),
        pos <= r.1,
        pos <= src.tokens@.len() ==> r.1 <= src.tokens@.len(),
    decreases src.tokens@.len() - pos, 3nat,
{
    let mut types: Vec<Type> = Vec::new();
    assert(types_view(types@) =~= Seq::empty());
    let mut p = match parse_type_at(src, pos) {
        Some((first, p)) => {
            assert(types_view(types@).push(first@) =~= types_view(types@.push(first)));
            types.push(first);
            p
        },
        None => { return (types, pos); },
    };
    loop
        invariant
            src.wf(),
            pos < p <= src.tokens@.len(),
            types_at(src.toks(), src.syms(), pos as nat, Seq::empty()) == more_types_at(
                src.toks(),
                src.syms(),
                p as nat,
                types_view(types@),
            ),
        decreases src.tokens@.len() - p,
    {
        if !src.is(p, &Token::Comma) {
            return (types, p);
        }
        match parse_type_at(src, p + 1) {
            Some((next, q)) => {
                assert(types_view(types@).push(next@) =~= types_view(types@.push(next)));
                types.push(next);
                p = q;
            },
            None => { return (types, p); },
        }
    }
}

/// A function type at `pos`.
fn parse_function_type(src: &Source, pos: usize) -> (r: Option<(Type, usize)>)
    requires
        src.wf(),
    ensures
        match r {
            Some((ty, end)) => function_type_at(src.toks(), src.syms(), pos as nat) == Some(
                (ty@, end as nat),
            ) && pos < end <= src.tokens@.len(),
            None => function_type_at(src.toks(), src.syms(), pos as nat).is_none(),
        },
    decreases src.tokens@.len() - pos, 0nat,
{
    if !src.is(pos, &Token::LParen) {
        return None;
    }
    let (args, p) = parse_types(src, pos + 1);
    if !(src.is(p, &Token::RParen) && src.is(p + 1, &Token::Arrow)) {
        return None;
    }
    match parse_return_type_at(src, p + 2) {
        Some((ret, end)) => {
            let ty = Type::Ref(ReferenceType::Function(args, Box::new(ret)));
            assert(ty@->Ref_0->Function_0 =~= types_view(args@));
            Some((ty, end))
        },
        None => None,
    }
}

/// A type without suffixes at `pos`.
fn parse_base_type(src: &Source, pos: usize) -> (r: Option<(Type, usize)>)
    requires
        src.wf(),
    ensures
        match r {
            Some((ty, end)) => base_type_at(src.toks(), src.syms(), pos as nat) == Some(
                (ty@, end as nat),
            ) && pos < end <= src.tokens@.len(),
            None => base_type_at(src.toks(), src.syms(), pos as nat).is_none(),
        },
    decreases src.tokens@.len() - pos, 1nat,
{
    if pos >= src.tokens.len() {
        return None;
    }
    match &src.tokens[pos] {
        Token::TBool => Some((Type::Bool, pos + 1)),
        Token::TInt => Some((Type::Int, pos + 1)),
        Token::TString => Some((Type::Ref(ReferenceType::String), pos + 1)),
        Token::Ident(_) => Some((Type::Ref(ReferenceType::Struct(src.symbols[pos])), pos + 1)),
        Token::LParen => match parse_function_type(src, pos) {
            Some(r) => Some(r),
            None => match parse_type_at(src, pos + 1) {
                Some((inner, p)) => if src.is(p, &Token::RParen) {
                    Some((inner, p + 1))
                } else {
                    None
                },
                None => None,
            },
        },
        _ => None,
    }
}

fn is_reference(ty: &Type) -> (r: bool)
    ensures
        r == (ty@ is Ref),
{
    match ty {
        Type::Ref(_) => true,
        _ => false,
    }
}

/// The type that `ty` becomes under the suffixes from `pos` on.
fn parse_type_suffixes(src: &Source, pos: usize, ty: Type) -> (r: (Type, usize))
    requires
        src.wf(),
        pos <= src.tokens@.len(),
    ensures
        type_suffixes_at(src.toks(), pos as nat, ty@) == (r.0@, r.1 as nat),
        pos <= r.1 <= src.tokens@.len(),
{
    let ghost start = ty@;
    let mut current = ty;
    let mut p = pos;
    loop
        invariant
            src.wf(),
            pos <= p <= src.tokens@.len(),
            start == ty@,
            type_suffixes_at(src.toks(), pos as nat, start) == type_suffixes_at(
                src.toks(),
                p as nat,
                current@,
            ),
        decreases src.tokens@.len() - p,
    {
        if src.is(p, &Token::LBracket) && src.is(p + 1, &Token::RBracket) {
            current = Type::Ref(ReferenceType::Array(Box::new(current)));
            p = p + 2;
        } else if src.is(p, &Token::Question) && is_reference(&current) {
            current = match current {
                Type::Ref(r) => Type::NullRef(r),
                other => other,
            };
            p = p + 1;
        } else {
            return (current, p);
        }
    }
}

/// The type at `pos`.
pub fn parse_type_at(src: &Source, pos: usize) -> (r: Option<(Type, usize)>)
    requires
        src.wf(),
    ensures
        match r {
            Some((ty, end)) => type_at(src.toks(), src.syms(), pos as nat) == Some((ty@, end as nat))
                && pos < end <= src.tokens@.len(),
            None => type_at(src.toks(), src.syms(), pos as nat).is_none(),
        },
    decreases src.tokens@.len() - pos, 2nat,
{
    match parse_base_type(src, pos) {
        Some((base, p)) => Some(parse_type_suffixes(src, p, base)),
        None => None,
    }
}

/// The return type at `pos`.
pub fn parse_return_type_at(src: &Source, pos: usize) -> (r: Option<(ReturnType, usize)>)
    requires
        src.wf(),
    ensures
        match r {
            Some((ty, end)) => return_type_at(src.toks(), src.syms(), pos as nat) == Some(
                (ty@, end as nat),
            ) && pos < end <= src.tokens@.len(),
            None => return_type_at(src.toks(), src.syms(), pos as nat).is_none(),
        },
    decreases src.tokens@.len() - pos, 3nat,
{
    if src.is(pos, &Token::TVoid) {
        Some((ReturnType::ReturnVoid, pos + 1))
    } else {
        match parse_type_at(src, pos) {
            Some((ty, p)) => Some((ReturnType::ReturnValue(ty), p)),
            None => None,
        }
    }
}

/// The reference type at `pos`.
pub fn parse_reftype_at(src: &Source, pos: usize) -> (r: Option<(ReferenceType, usize)>)
    requires
        src.wf(),
    ensures
        match r {
            Some((ty, end)) => reference_type_at(src.toks(), src.syms(), pos as nat) == Some(
                (ty@, end as nat),
            ) && pos < end <= src.tokens@.len(),
            None => reference_type_at(src.toks(), src.syms(), pos as nat).is_none(),
        },
{
    match parse_type_at(src, pos) {
        Some((Type::Ref(r), p)) => Some((r, p)),
        _ => None,
    }
}

fn binary_operator_of(k: &Token) -> (r: Option<BinaryOp>)
    ensures
        r == binary_operator(k@),
{
    match k {
        Token::Plus => Some(BinaryOp::Add),
        Token::Dash => Some(BinaryOp::Sub),
        Token::Star => Some(BinaryOp::Mul),
        Token::Eqeq => Some(BinaryOp::Eq),
        Token::BangEq => Some(BinaryOp::Neq),
        Token::Lt => Some(BinaryOp::Lt),
        Token::Lteq => Some(BinaryOp::Lte),
        Token::Gt => Some(BinaryOp::Gt),
        Token::Gteq => Some(BinaryOp::Gte),
        Token::Ampersand => Some(BinaryOp::And),
        Token::Bar => Some(BinaryOp::Or),
        Token::IAnd => Some(BinaryOp::IAnd),
        Token::IOr => Some(BinaryOp::IOr),
        Token::Ltlt => Some(BinaryOp::Shl),
        Token::Gtgt => Some(BinaryOp::Shr),
        Token::Gtgtgt => Some(BinaryOp::Sar),
        _ => None,
    }
}

fn unary_operator_of(k: &Token) -> (r: Option<UnaryOp>)
    ensures
        r == unary_operator(k@),
{
    match k {
        Token::Dash => Some(UnaryOp::Neg),
        Token::Bang => Some(UnaryOp::Lognot),
        Token::Tilde => Some(UnaryOp::Bitnot),
        _ => None,
    }
}

fn precedence_of(op: BinaryOp) -> (r: usize)
    ensures
        r == precedence(op),
{
    match op {
        BinaryOp::Mul => 6,
        BinaryOp::Add | BinaryOp::Sub => 5,
        BinaryOp::Shl | BinaryOp::Shr | BinaryOp::Sar => 4,
        BinaryOp::Eq | BinaryOp::Neq | BinaryOp::Lt | BinaryOp::Lte | BinaryOp::Gt | BinaryOp::Gte => 3,
        BinaryOp::IAnd | BinaryOp::IOr => 2,
        BinaryOp::And | BinaryOp::Or => 1,
    }
}

/// The binary operator at `pos`.
pub fn binary_operator_here(src: &Source, pos: usize) -> (r: Option<BinaryOp>)
    ensures
        r == operator_at(src.toks(), pos as nat),
{
    if pos < src.tokens.len() {
        binary_operator_of(&src.tokens[pos])
    } else {
        None
    }
}

/// The call of `callee` with `args`.
fn call(callee: Expression, args: Vec<Expression>) -> (e: Expression)
    ensures
        e@ == Expr::Call(Box::new(callee@), expressions_view(args@)),
{
    let ghost av = expressions_view(args@);
    let e = Expression::Call(Box::new(callee), args);
    assert(e@->Call_1 =~= av);
    e
}

/// The array of the elements `elements`, of type `t`.
fn array_literal(t: Type, elements: Vec<Expression>) -> (e: Expression)
    ensures
        e@ == Expr::CArr(t@, expressions_view(elements@)),
{
    let ghost ev = expressions_view(elements@);
    let e = Expression::CArr(t, elements);
    assert(e@->CArr_1 =~= ev);
    e
}

/// The expression at `pos`.
pub fn parse_expression_at(src: &Source, pos: usize) -> (r: Option<(Expression, usize)>)
    requires
        src.wf(),
    ensures
        match r {
            Some((e, end)) => expression_at(src.toks(), src.syms(), pos as nat) == Some(
                (e@, end as nat),
            ) && pos < end <= src.tokens@.len(),
            None => expression_at(src.toks(), src.syms(), pos as nat).is_none(),
        },
    decreases src.tokens@.len() - pos, 5nat,
{
    parse_binary(src, pos, 1)
}

/// The expression at `pos` whose binary operators bind at least as tightly
/// as `min`.
fn parse_binary(src: &Source, pos: usize, min: usize) -> (r: Option<(Expression, usize)>)
    requires
        src.wf(),
    ensures
        match r {
            Some((e, end)) => binary_at(src.toks(), src.syms(), pos as nat, min as nat) == Some(
                (e@, end as nat),
            ) && pos < end <= src.tokens@.len(),
            None => binary_at(src.toks(), src.syms(), pos as nat, min as nat).is_none(),
        },
    decreases src.tokens@.len() - pos, 4nat,
{
    match parse_unary(src, pos) {
        Some((left, p)) => Some(parse_operators(src, p, left, min)),
        None => None,
    }
}

/// Applies to `left` the operators from `pos` on that bind at least as
/// tightly as `min`.
fn parse_operators(src: &Source, pos: usize, left: Expression, min: usize) -> (r: (Expression, usize))
    requires
        src.wf(),
        pos <= src.tokens@.len(),
    ensures
        operators_at(src.toks(), src.syms(), pos as nat, left@, min as nat) == (r.0@, r.1 as nat),
        pos <= r.1 <= src.tokens@.len(),
    decreases src.tokens@.len() - pos, 0nat,
{
    let ghost start = left@;
    let mut current = left;
    let mut p = pos;
    loop
        invariant
            src.wf(),
            pos <= p <= src.tokens@.len(),
            start == left@,
            operators_at(src.toks(), src.syms(), pos as nat, start, min as nat) == operators_at(
                src.toks(),
                src.syms(),
                p as nat,
                current@,
                min as nat,
            ),
        decreases src.tokens@.len() - p,
    {
        if p >= src.tokens.len() {
            return (current, p);
        }
        let op = match binary_operator_of(&src.tokens[p]) {
            Some(op) => op,
            None => { return (current, p); },
        };
        let prec = precedence_of(op);
        if prec < min {
            return (current, p);
        }
        match parse_binary(src, p + 1, prec + 1) {
            Some((right, q)) => {
                current = Expression::Binary { op, left: Box::new(current), right: Box::new(right) };
                p = q;
            },
            None => { return (current, p); },
        }
    }
}

/// The operand at `pos`.
fn parse_unary(src: &Source, pos: usize) -> (r: Option<(Expression, usize)>)
    requires
        src.wf(),
    ensures
        match r {
            Some((e, end)) => unary_at(src.toks(), src.syms(), pos as nat) == Some((e@, end as nat))
                && pos < end <= src.tokens@.len(),
            None => unary_at(src.toks(), src.syms(), pos as nat).is_none(),
        },
    decreases src.tokens@.len() - pos, 3nat,
{
    if pos >= src.tokens.len() {
        return None;
    }
    match unary_operator_of(&src.tokens[pos]) {
        Some(op) => match parse_unary(src, pos + 1) {
            Some((operand, p)) => Some((Expression::Unary(op, Box::new(operand)), p)),
            None => None,
        },
        None => parse_postfix(src, pos),
    }
}

/// An atom at `pos`, with the suffixes that follow it.
fn parse_postfix(src: &Source, pos: usize) -> (r: Option<(Expression, usize)>)
    requires
        src.wf(),
    ensures
        match r {
            Some((e, end)) => postfix_at(src.toks(), src.syms(), pos as nat) == Some((e@, end as nat))
                && pos < end <= src.tokens@.len(),
            None => postfix_at(src.toks(), src.syms(), pos as nat).is_none(),
        },
    decreases src.tokens@.len() - pos, 2nat,
{
    match parse_atom(src, pos) {
        Some((atom, p)) => Some(parse_suffix(src, p, atom)),
        None => None,
    }
}

/// Applies to `e` the suffixes from `pos` on: calls, indexings and
/// projections.
pub fn parse_suffix(src: &Source, pos: usize, e: Expression) -> (r: (Expression, usize))
    requires
        src.wf(),
        pos <= src.tokens@.len(),
    ensures
        suffixes_at(src.toks(), src.syms(), pos as nat, e@) == (r.0@, r.1 as nat),
        pos <= r.1 <= src.tokens@.len(),
    decreases src.tokens@.len() - pos, 0nat,
{
    let ghost start = e@;
    let mut current = e;
    let mut p = pos;
    loop
        invariant
            src.wf(),
            pos <= p <= src.tokens@.len(),
            start == e@,
            suffixes_at(src.toks(), src.syms(), pos as nat, start) == suffixes_at(
                src.toks(),
                src.syms(),
                p as nat,
                current@,
            ),
        decreases src.tokens@.len() - p,
    {
        if p >= src.tokens.len() {
            return (current, p);
        }
        match &src.tokens[p] {
            Token::LParen => {
                let (args, q) = parse_expressions(src, p + 1);
                if src.is(q, &Token::RParen) {
                    current = call(current, args);
                    p = q + 1;
                } else {
                    return (current, p);
                }
            },
            Token::LBracket => match parse_expression_at(src, p + 1) {
                Some((index, q)) => if src.is(q, &Token::RBracket) {
                    current = Expression::Index { value: Box::new(current), index: Box::new(index) };
                    p = q + 1;
                } else {
                    return (current, p);
                },
                None => { return (current, p); },
            },
            Token::Dot => if src.is_ident(p + 1) {
                current = Expression::Proj(Box::new(current), src.symbols[p + 1]);
                p = p + 2;
            } else {
                return (current, p);
            },
            _ => { return (current, p); },
        }
    }
}

/// The expressions of a list that starts at `pos`.
pub fn parse_expressions(src: &Source, pos: usize) -> (r: (Vec<Expression>, usize))
    requires
        src.wf(),
    ensures
        expressions_at(src.toks(), src.syms(), pos as nat, Seq::empty()) == (
            expressions_view(r.0@),
            r.1 as nat,
        ),
        pos <= r.1,
        pos <= src.tokens@.len() ==> r.1 <= src.tokens@.len(),
    decreases src.tokens@.len() - pos, 6nat,
{
    let mut list: Vec<Expression> = Vec::new();
    assert(expressions_view(list@) =~= Seq::empty());
    let mut p = match parse_expression_at(src, pos) {
        Some((first, p)) => {
            assert(expressions_view(list@).push(first@) =~= expressions_view(list@.push(first)));
            list.push(first);
            p
        },
        None => { return (list, pos); },
    };
    loop
        invariant
            src.wf(),
            pos < p <= src.tokens@.len(),
            expressions_at(src.toks(), src.syms(), pos as nat, Seq::empty()) == more_expressions_at(
                src.toks(),
                src.syms(),
                p as nat,
                expressions_view(list@),
            ),
        decreases src.tokens@.len() - p,
    {
        if !src.is(p, &Token::Comma) {
            return (list, p);
        }
        match parse_expression_at(src, p + 1) {
            Some((next, q)) => {
                assert(expressions_view(list@).push(next@) =~= expressions_view(list@.push(next)));
                list.push(next);
                p = q;
            },
            None => { return (list, p); },
        }
    }
}

/// A null literal at `pos`.
pub fn parse_null_at(src: &Source, pos: usize) -> (r: Option<(Expression, usize)>)
    requires
        src.wf(),
    ensures
        match r {
            Some((e, end)) => null_at(src.toks(), src.syms(), pos as nat) == Some((e@, end as nat))
                && pos < end <= src.tokens@.len(),
            None => null_at(src.toks(), src.syms(), pos as nat).is_none(),
        },
{
    match parse_reftype_at(src, pos) {
        Some((r, p)) => if src.is(p, &Token::Null) {
            Some((Expression::CNull(r), p + 1))
        } else {
            None
        },
        None => None,
    }
}

/// An array expression at `pos`.
pub fn parse_array_at(src: &Source, pos: usize) -> (r: Option<(Expression, usize)>)
    requires
        src.wf(),
    ensures
        match r {
            Some((e, end)) => array_at(src.toks(), src.syms(), pos as nat) == Some((e@, end as nat))
                && pos < end <= src.tokens@.len(),
            None => array_at(src.toks(), src.syms(), pos as nat).is_none(),
        },
    decreases src.tokens@.len() - pos, 0nat,
{
    if !src.is(pos, &Token::New) {
        return None;
    }
    let (ty, p) = match parse_type_at(src, pos + 1) {
        Some(x) => x,
        None => { return None; },
    };
    if p >= src.tokens.len() {
        return None;
    }
    if src.is(p, &Token::LBrace) && is_array(&ty) {
        let (elements, q) = parse_expressions(src, p + 1);
        if src.is(q, &Token::RBrace) {
            match ty {
                Type::Ref(ReferenceType::Array(element)) => Some(
                    (array_literal(*element, elements), q + 1),
                ),
                _ => None,
            }
        } else {
            None
        }
    } else if src.is(p, &Token::LBracket) {
        match parse_expression_at(src, p + 1) {
            Some((length, q)) => if src.is(q, &Token::RBracket) {
                Some((Expression::NewArr(ty, Box::new(length)), q + 1))
            } else {
                None
            },
            None => None,
        }
    } else {
        None
    }
}

fn is_array(ty: &Type) -> (r: bool)
    ensures
        r == (ty@ is Ref && ty@->Ref_0 is Array),
{
    match ty {
        Type::Ref(ReferenceType::Array(_)) => true,
        _ => false,
    }
}

/// The atom at `pos`.
fn parse_atom(src: &Source, pos: usize) -> (r: Option<(Expression, usize)>)
    requires
        src.wf(),
    ensures
        match r {
            Some((e, end)) => atom_at(src.toks(), src.syms(), pos as nat) == Some((e@, end as nat))
                && pos < end <= src.tokens@.len(),
            None => atom_at(src.toks(), src.syms(), pos as nat).is_none(),
        },
    decreases src.tokens@.len() - pos, 1nat,
{
    if pos >= src.tokens.len() {
        return None;
    }
    match parse_null_at(src, pos) {
        Some(r) => { return Some(r); },
        None => {},
    }
    match &src.tokens[pos] {
        Token::True => Some((Expression::CBool(true), pos + 1)),
        Token::False => Some((Expression::CBool(false), pos + 1)),
        Token::Int(v) => Some((Expression::CInt(*v), pos + 1)),
        Token::String(s) => Some((Expression::CStr(s.clone()), pos + 1)),
        Token::Ident(_) => Some((Expression::Id(src.symbols[pos]), pos + 1)),
        Token::Length => if src.is(pos + 1, &Token::LParen) {
            match parse_expression_at(src, pos + 2) {
                Some((array, p)) => if src.is(p, &Token::RParen) {
                    Some((Expression::Length(Box::new(array)), p + 1))
                } else {
                    None
                },
                None => None,
            }
        } else {
            None
        },
        Token::New => parse_array_at(src, pos),
        Token::LParen => match parse_expression_at(src, pos + 1) {
            Some((inner, p)) => if src.is(p, &Token::RParen) {
                Some((inner, p + 1))
            } else {
                None
            },
            None => None,
        },
        _ => None,
    }
}

/// A binding `id = e` at `pos`.
fn parse_binding(src: &Source, pos: usize) -> (r: Option<((Id, Expression), usize)>)
    requires
        src.wf(),
    ensures
        match r {
            Some(((name, init), end)) => binding_at(src.toks(), src.syms(), pos as nat) == Some(
                ((name, init@), end as nat),
            ) && pos < end <= src.tokens@.len(),
            None => binding_at(src.toks(), src.syms(), pos as nat).is_none(),
        },
{
    if src.is_ident(pos) && src.is(pos + 1, &Token::Eq) {
        match parse_expression_at(src, pos + 2) {
            Some((init, p)) => Some(((src.symbols[pos], init), p)),
            None => None,
        }
    } else {
        None
    }
}

/// The initializers of a `for` loop at `pos`.
pub fn parse_for_loop_init(src: &Source, pos: usize) -> (r: (Vec<(Id, Expression)>, usize))
    requires
        src.wf(),
    ensures
        initializers_at(src.toks(), src.syms(), pos as nat) == (bindings_view(r.0@), r.1 as nat),
        pos <= r.1,
        pos <= src.tokens@.len() ==> r.1 <= src.tokens@.len(),
{
    let mut list: Vec<(Id, Expression)> = Vec::new();
    assert(bindings_view(list@) =~= Seq::empty());
    if !src.is(pos, &Token::Var) {
        return (list, pos);
    }
    let mut p = match parse_binding(src, pos + 1) {
        Some((first, p)) => {
            assert(seq![(first.0, first.1@)] =~= bindings_view(list@.push(first)));
            list.push(first);
            p
        },
        None => { return (list, pos); },
    };
    loop
        invariant
            src.wf(),
            pos < p <= src.tokens@.len(),
            initializers_at(src.toks(), src.syms(), pos as nat) == more_bindings_at(
                src.toks(),
                src.syms(),
                p as nat,
                bindings_view(list@),
            ),
        decreases src.tokens@.len() - p,
    {
        if !src.is(p, &Token::Comma) {
            return (list, p);
        }
        match parse_binding(src, p + 1) {
            Some((next, q)) => {
                assert(bindings_view(list@).push((next.0, next.1@)) =~= bindings_view(
                    list@.push(next),
                ));
                list.push(next);
                p = q;
            },
            None => { return (list, p); },
        }
    }
}

/// An assignment or a call at `pos`, without the `;` that ends it as a
/// statement: what may stand as the update of a `for` loop.
pub fn parse_for_loop_update(src: &Source, pos: usize) -> (r: Option<(Statement, usize)>)
    requires
        src.wf(),
    ensures
        match r {
            Some((stmt, end)) => simple_at(src.toks(), src.syms(), pos as nat) == Some(
                (stmt@, end as nat),
            ) && pos < end <= src.tokens@.len(),
            None => simple_at(src.toks(), src.syms(), pos as nat).is_none(),
        },
{
    let (e, p) = match parse_expression_at(src, pos) {
        Some(x) => x,
        None => { return None; },
    };
    if src.is(p, &Token::Eq) {
        match parse_expression_at(src, p + 1) {
            Some((value, q)) => Some((Statement::Assignment(e, value), q)),
            None => None,
        }
    } else {
        match e {
            Expression::Call(callee, args) => {
                assert(e@->Call_1 =~= expressions_view(args@));
                Some((Statement::SCall(*callee, args), p))
            },
            _ => None,
        }
    }
}

/// `var id = e;` at `pos`.
fn parse_local(src: &Source, pos: usize) -> (r: Option<(Statement, usize)>)
    requires
        src.wf(),
        is(src.toks(), pos as nat, Tok::Var),
    ensures
        match r {
            Some((stmt, end)) => statement_at(src.toks(), src.syms(), pos as nat) == Some(
                (stmt@, end as nat),
            ) && pos < end <= src.tokens@.len(),
            None => statement_at(src.toks(), src.syms(), pos as nat).is_none(),
        },
{
    if pos >= src.tokens.len() {
        return None;
    }
    match parse_binding(src, pos + 1) {
        Some(((name, init), p)) => if src.is(p, &Token::Semi) {
            Some((Statement::Declaration(name, init), p + 1))
        } else {
            None
        },
        None => None,
    }
}

/// `return;` or `return e;` at `pos`.
fn parse_return(src: &Source, pos: usize) -> (r: Option<(Statement, usize)>)
    requires
        src.wf(),
        is(src.toks(), pos as nat, Tok::Return),
    ensures
        match r {
            Some((stmt, end)) => statement_at(src.toks(), src.syms(), pos as nat) == Some(
                (stmt@, end as nat),
            ) && pos < end <= src.tokens@.len(),
            None => statement_at(src.toks(), src.syms(), pos as nat).is_none(),
        },
{
    if pos >= src.tokens.len() {
        return None;
    }
    if src.is(pos + 1, &Token::Semi) {
        Some((Statement::Return(None), pos + 2))
    } else {
        match parse_expression_at(src, pos + 1) {
            Some((value, p)) => if src.is(p, &Token::Semi) {
                Some((Statement::Return(Some(value)), p + 1))
            } else {
                None
            },
            None => None,
        }
    }
}

/// An assignment or a call that stands as a statement, at `pos`.
fn parse_simple(src: &Source, pos: usize) -> (r: Option<(Statement, usize)>)
    requires
        src.wf(),
        pos < src.tokens@.len(),
        !(src.toks()[pos as int] is Var),
        !(src.toks()[pos as int] is If),
        !(src.toks()[pos as int] is Ifq),
        !(src.toks()[pos as int] is For),
        !(src.toks()[pos as int] is While),
        !(src.toks()[pos as int] is Return),
    ensures
        match r {
            Some((stmt, end)) => statement_at(src.toks(), src.syms(), pos as nat) == Some(
                (stmt@, end as nat),
            ) && pos < end <= src.tokens@.len(),
            None => statement_at(src.toks(), src.syms(), pos as nat).is_none(),
        },
{
    match parse_for_loop_update(src, pos) {
        Some((stmt, p)) => if src.is(p, &Token::Semi) {
            Some((stmt, p + 1))
        } else {
            None
        },
        None => None,
    }
}

/// The statement at `pos`.
pub fn parse_statement_at(src: &Source, pos: usize) -> (r: Option<(Statement, usize)>)
    requires
        src.wf(),
    ensures
        match r {
            Some((stmt, end)) => statement_at(src.toks(), src.syms(), pos as nat) == Some(
                (stmt@, end as nat),
            ) && pos < end <= src.tokens@.len(),
            None => statement_at(src.toks(), src.syms(), pos as nat).is_none(),
        },
    decreases src.tokens@.len() - pos, 3nat,
{
    if pos >= src.tokens.len() {
        return None;
    }
    if src.is(pos, &Token::Var) {
        parse_local(src, pos)
    } else if src.is(pos, &Token::If) {
        parse_if(src, pos)
    } else if src.is(pos, &Token::Ifq) {
        parse_cast(src, pos)
    } else if src.is(pos, &Token::For) {
        parse_for(src, pos)
    } else if src.is(pos, &Token::While) {
        parse_while(src, pos)
    } else if src.is(pos, &Token::Return) {
        parse_return(src, pos)
    } else {
        parse_simple(src, pos)
    }
}

/// The statements from `pos` on.
fn parse_statements(src: &Source, pos: usize) -> (r: (Vec<Statement>, usize))
    requires
        src.wf(),
    ensures
        statements_at(src.toks(), src.syms(), pos as nat, Seq::empty()) == (
            block_view(r.0@),
            r.1 as nat,
        ),
        pos <= r.1,
        pos <= src.tokens@.len() ==> r.1 <= src.tokens@.len(),
    decreases src.tokens@.len() - pos, 4nat,
{
    let mut list: Vec<Statement> = Vec::new();
    assert(block_view(list@) =~= Seq::empty());
    let mut p = pos;
    loop
        invariant
            src.wf(),
            pos <= p,
            pos <= src.tokens@.len() ==> p <= src.tokens@.len(),
            statements_at(src.toks(), src.syms(), pos as nat, Seq::empty()) == statements_at(
                src.toks(),
                src.syms(),
                p as nat,
                block_view(list@),
            ),
        decreases src.tokens@.len() - p,
    {
        match parse_statement_at(src, p) {
            Some((stmt, q)) => {
                assert(block_view(list@).push(stmt@) =~= block_view(list@.push(stmt)));
                list.push(stmt);
                p = q;
            },
            None => { return (list, p); },
        }
    }
}

/// The block at `pos`.
pub fn parse_block_at(src: &Source, pos: usize) -> (r: Option<(Vec<Statement>, usize)>)
    requires
        src.wf(),
    ensures
        match r {
            Some((block, end)) => block_at(src.toks(), src.syms(), pos as nat) == Some(
                (block_view(block@), end as nat),
            ) && pos < end <= src.tokens@.len(),
            None => block_at(src.toks(), src.syms(), pos as nat).is_none(),
        },
    decreases src.tokens@.len() - pos, 1nat,
{
    if !src.is(pos, &Token::LBrace) {
        return None;
    }
    let (block, p) = parse_statements(src, pos + 1);
    if src.is(p, &Token::RBrace) {
        Some((block, p + 1))
    } else {
        None
    }
}

/// The `else` part at `pos`.
fn parse_else(src: &Source, pos: usize) -> (r: (Vec<Statement>, usize))
    requires
        src.wf(),
        pos <= src.tokens@.len(),
    ensures
        else_at(src.toks(), src.syms(), pos as nat) == (block_view(r.0@), r.1 as nat),
        pos <= r.1 <= src.tokens@.len(),
    decreases src.tokens@.len() - pos, 2nat,
{
    if src.is(pos, &Token::Else) {
        match parse_block_at(src, pos + 1) {
            Some((block, p)) => { return (block, p); },
            None => {},
        }
    }
    let empty: Vec<Statement> = Vec::new();
    assert(block_view(empty@) =~= Seq::empty());
    (empty, pos)
}

/// The statement `if (condition) then else else_`.
fn if_statement(condition: Expression, then: Vec<Statement>, else_: Vec<Statement>) -> (s: Statement)
    ensures
        s@ == (Stmt::If { condition: condition@, then: block_view(then@), else_: block_view(else_@) }),
{
    let ghost tv = block_view(then@);
    let ghost ev = block_view(else_@);
    let s = Statement::If { condition, then, else_ };
    assert(s@->If_then =~= tv);
    assert(s@->If_else_ =~= ev);
    s
}

/// The statement `if? (r name = source) then else else_`.
fn cast_statement(
    r: ReferenceType,
    name: Id,
    source: Expression,
    then: Vec<Statement>,
    else_: Vec<Statement>,
) -> (s: Statement)
    ensures
        s@ == Stmt::Cast(r@, name, source@, block_view(then@), block_view(else_@)),
{
    let ghost tv = block_view(then@);
    let ghost ev = block_view(else_@);
    let s = Statement::Cast(r, name, source, then, else_);
    assert(s@->Cast_3 =~= tv);
    assert(s@->Cast_4 =~= ev);
    s
}

/// The statement `while (condition) body`.
fn while_statement(condition: Expression, body: Vec<Statement>) -> (s: Statement)
    ensures
        s@ == (Stmt::While { condition: condition@, body: block_view(body@) }),
{
    let ghost bv = block_view(body@);
    let s = Statement::While { condition, body };
    assert(s@->While_body =~= bv);
    s
}

/// The model of an optional expression.
pub open spec fn optional_view(e: Option<Expression>) -> Option<Expr> {
    match e {
        Some(e) => Some(e@),
        None => None,
    }
}

/// The model of an optional statement.
pub open spec fn update_view(s: Option<Statement>) -> Option<Box<Stmt>> {
    match s {
        Some(s) => Some(Box::new(s@)),
        None => None,
    }
}

/// The statement `for (init; condition; update) body`.
fn for_statement(
    init: Vec<(Id, Expression)>,
    condition: Option<Expression>,
    update: Option<Statement>,
    body: Vec<Statement>,
) -> (s: Statement)
    ensures
        s@ == (Stmt::For {
            init: bindings_view(init@),
            condition: optional_view(condition),
            update: update_view(update),
            body: block_view(body@),
        }),
{
    let ghost bv = block_view(body@);
    let update = match update {
        Some(u) => Some(Box::new(u)),
        None => None,
    };
    let s = Statement::For { init, condition, update, body };
    assert(s@->For_body =~= bv);
    s
}

/// `if` at `pos`.
fn parse_if(src: &Source, pos: usize) -> (r: Option<(Statement, usize)>)
    requires
        src.wf(),
    ensures
        match r {
            Some((stmt, end)) => if_at(src.toks(), src.syms(), pos as nat) == Some((stmt@, end as nat))
                && pos < end <= src.tokens@.len(),
            None => if_at(src.toks(), src.syms(), pos as nat).is_none(),
        },
    decreases src.tokens@.len() - pos, 2nat,
{
    if !(src.is(pos, &Token::If) && src.is(pos + 1, &Token::LParen)) {
        return None;
    }
    let (condition, p) = match parse_expression_at(src, pos + 2) {
        Some(x) => x,
        None => { return None; },
    };
    if !src.is(p, &Token::RParen) {
        return None;
    }
    let (then, q) = match parse_block_at(src, p + 1) {
        Some(x) => x,
        None => { return None; },
    };
    let (else_, end) = parse_else(src, q);
    Some((if_statement(condition, then, else_), end))
}

/// `if?` at `pos`.
fn parse_cast(src: &Source, pos: usize) -> (r: Option<(Statement, usize)>)
    requires
        src.wf(),
    ensures
        match r {
            Some((stmt, end)) => cast_at(src.toks(), src.syms(), pos as nat) == Some(
                (stmt@, end as nat),
            ) && pos < end <= src.tokens@.len(),
            None => cast_at(src.toks(), src.syms(), pos as nat).is_none(),
        },
    decreases src.tokens@.len() - pos, 2nat,
{
    if !(src.is(pos, &Token::Ifq) && src.is(pos + 1, &Token::LParen)) {
        return None;
    }
    let (r, p) = match parse_reftype_at(src, pos + 2) {
        Some(x) => x,
        None => { return None; },
    };
    let ((name, source), q) = match parse_binding(src, p) {
        Some(x) => x,
        None => { return None; },
    };
    if !src.is(q, &Token::RParen) {
        return None;
    }
    let (then, u) = match parse_block_at(src, q + 1) {
        Some(x) => x,
        None => { return None; },
    };
    let (else_, end) = parse_else(src, u);
    Some((cast_statement(r, name, source, then, else_), end))
}

/// `for` at `pos`.
fn parse_for(src: &Source, pos: usize) -> (r: Option<(Statement, usize)>)
    requires
        src.wf(),
    ensures
        match r {
            Some((stmt, end)) => for_at(src.toks(), src.syms(), pos as nat) == Some((stmt@, end as nat))
                && pos < end <= src.tokens@.len(),
            None => for_at(src.toks(), src.syms(), pos as nat).is_none(),
        },
    decreases src.tokens@.len() - pos, 2nat,
{
    if !(src.is(pos, &Token::For) && src.is(pos + 1, &Token::LParen)) {
        return None;
    }
    let (init, p) = parse_for_loop_init(src, pos + 2);
    if !src.is(p, &Token::Semi) {
        return None;
    }
    let (condition, q) = match parse_expression_at(src, p + 1) {
        Some((c, q)) => (Some(c), q),
        None => (None, p + 1),
    };
    if !src.is(q, &Token::Semi) {
        return None;
    }
    let (update, u) = match parse_for_loop_update(src, q + 1) {
        Some((stmt, u)) => (Some(stmt), u),
        None => (None, q + 1),
    };
    if !src.is(u, &Token::RParen) {
        return None;
    }
    match parse_block_at(src, u + 1) {
        Some((body, end)) => Some((for_statement(init, condition, update, body), end)),
        None => None,
    }
}

/// `while` at `pos`.
fn parse_while(src: &Source, pos: usize) -> (r: Option<(Statement, usize)>)
    requires
        src.wf(),
    ensures
        match r {
            Some((stmt, end)) => while_at(src.toks(), src.syms(), pos as nat) == Some(
                (stmt@, end as nat),
            ) && pos < end <= src.tokens@.len(),
            None => while_at(src.toks(), src.syms(), pos as nat).is_none(),
        },
    decreases src.tokens@.len() - pos, 2nat,
{
    if !(src.is(pos, &Token::While) && src.is(pos + 1, &Token::LParen)) {
        return None;
    }
    let (condition, p) = match parse_expression_at(src, pos + 2) {
        Some(x) => x,
        None => { return None; },
    };
    if !src.is(p, &Token::RParen) {
        return None;
    }
    match parse_block_at(src, p + 1) {
        Some((body, end)) => Some((while_statement(condition, body), end)),
        None => None,
    }
}

/// Declares the field `name` with the type `ty`.
fn declare_field(fields: &mut FieldSet, name: Id, ty: Type)
    ensures
        fields_view(*final(fields)) == insert_field(fields_view(*old(fields)), name, ty@),
{
    let _ = fields.len();
    let ghost before = *fields;
    assert(names(fields_view(before)) =~= before.keys());
    proof {
        lemma_position(before.keys(), name);
    }
    fields.insert(name, ty);
    assert(fields_view(*fields) =~= insert_field(fields_view(before), name, ty@));
}

/// A typed name `T id` at `pos`: a parameter or a field.
pub fn parse_argspec(src: &Source, pos: usize) -> (r: Option<((Type, Id), usize)>)
    requires
        src.wf(),
    ensures
        match r {
            Some(((ty, name), end)) => typed_name_at(src.toks(), src.syms(), pos as nat) == Some(
                ((ty@, name), end as nat),
            ) && pos < end <= src.tokens@.len(),
            None => typed_name_at(src.toks(), src.syms(), pos as nat).is_none(),
        },
{
    match parse_type_at(src, pos) {
        Some((ty, p)) => if src.is_ident(p) {
            Some(((ty, src.symbols[p]), p + 1))
        } else {
            None
        },
        None => None,
    }
}

/// The fields `T id;` from `pos` on.
fn parse_fields(src: &Source, pos: usize) -> (r: (FieldSet, usize))
    requires
        src.wf(),
    ensures
        fields_at(src.toks(), src.syms(), pos as nat, Seq::empty()) == (fields_view(r.0), r.1 as nat),
        pos <= r.1,
        pos <= src.tokens@.len() ==> r.1 <= src.tokens@.len(),
{
    let mut fields: FieldSet = SymbolTable::new();
    assert(fields_view(fields) =~= Seq::empty());
    let mut p = pos;
    loop
        invariant
            src.wf(),
            pos <= p,
            pos <= src.tokens@.len() ==> p <= src.tokens@.len(),
            fields_at(src.toks(), src.syms(), pos as nat, Seq::empty()) == fields_at(
                src.toks(),
                src.syms(),
                p as nat,
                fields_view(fields),
            ),
        decreases src.tokens@.len() - p,
    {
        match parse_argspec(src, p) {
            Some(((ty, name), q)) => if src.is(q, &Token::Semi) {
                declare_field(&mut fields, name, ty);
                p = q + 1;
            } else {
                return (fields, p);
            },
            None => { return (fields, p); },
        }
    }
}

/// The parameters at `pos`.
fn parse_parameters(src: &Source, pos: usize) -> (r: (Vec<(Type, Id)>, usize))
    requires
        src.wf(),
    ensures
        parameters_at(src.toks(), src.syms(), pos as nat) == (params_view(r.0@), r.1 as nat),
        pos <= r.1,
        pos <= src.tokens@.len() ==> r.1 <= src.tokens@.len(),
{
    let mut list: Vec<(Type, Id)> = Vec::new();
    assert(params_view(list@) =~= Seq::empty());
    let mut p = match parse_argspec(src, pos) {
        Some((first, p)) => {
            assert(seq![(first.0@, first.1)] =~= params_view(list@.push(first)));
            list.push(first);
            p
        },
        None => { return (list, pos); },
    };
    loop
        invariant
            src.wf(),
            pos < p <= src.tokens@.len(),
            parameters_at(src.toks(), src.syms(), pos as nat) == more_parameters_at(
                src.toks(),
                src.syms(),
                p as nat,
                params_view(list@),
            ),
        decreases src.tokens@.len() - p,
    {
        if !src.is(p, &Token::Comma) {
            return (list, p);
        }
        match parse_argspec(src, p + 1) {
            Some((next, q)) => {
                assert(params_view(list@).push((next.0@, next.1)) =~= params_view(list@.push(next)));
                list.push(next);
                p = q;
            },
            None => { return (list, p); },
        }
    }
}

/// A function at `pos`.
pub fn parse_function_declaration(src: &Source, pos: usize) -> (r: Option<(FunctionDecl, usize)>)
    requires
        src.wf(),
    ensures
        match r {
            Some((f, end)) => function_at(src.toks(), src.syms(), pos as nat) == Some(
                (f@, end as nat),
            ) && pos < end <= src.tokens@.len(),
            None => function_at(src.toks(), src.syms(), pos as nat).is_none(),
        },
{
    let (return_type, p) = match parse_return_type_at(src, pos) {
        Some(x) => x,
        None => { return None; },
    };
    if !(src.is_ident(p) && src.is(p + 1, &Token::LParen)) {
        return None;
    }
    let (args, q) = parse_parameters(src, p + 2);
    if !src.is(q, &Token::RParen) {
        return None;
    }
    match parse_block_at(src, q + 1) {
        Some((body, end)) => Some(
            (FunctionDecl { return_type, name: src.symbols[p], args, body }, end),
        ),
        None => None,
    }
}

/// A struct at `pos`.
pub fn parse_type_declaration(src: &Source, pos: usize) -> (r: Option<(Declaration, usize)>)
    requires
        src.wf(),
    ensures
        match r {
            Some((d, end)) => struct_at(src.toks(), src.syms(), pos as nat) == Some((d@, end as nat))
                && pos < end <= src.tokens@.len(),
            None => struct_at(src.toks(), src.syms(), pos as nat).is_none(),
        },
{
    if !(src.is(pos, &Token::Struct) && src.is_ident(pos + 1) && src.is(pos + 2, &Token::LBrace)) {
        return None;
    }
    let (fields, p) = parse_fields(src, pos + 3);
    if src.is(p, &Token::RBrace) {
        Some((Declaration::Type(TypeDeclaration { name: src.symbols[pos + 1], fields }), p + 1))
    } else {
        None
    }
}

/// The initializer of a global at `pos`.
fn parse_constant(src: &Source, pos: usize) -> (r: Option<(Expression, usize)>)
    requires
        src.wf(),
    ensures
        match r {
            Some((e, end)) => constant_at(src.toks(), src.syms(), pos as nat) == Some(
                (e@, end as nat),
            ) && pos < end <= src.tokens@.len(),
            None => constant_at(src.toks(), src.syms(), pos as nat).is_none(),
        },
{
    if pos >= src.tokens.len() {
        return None;
    }
    match parse_null_at(src, pos) {
        Some(r) => { return Some(r); },
        None => {},
    }
    match &src.tokens[pos] {
        Token::True => Some((Expression::CBool(true), pos + 1)),
        Token::False => Some((Expression::CBool(false), pos + 1)),
        Token::Int(v) => Some((Expression::CInt(*v), pos + 1)),
        Token::Dash => if src.tokens.len() - pos > 1 {
            match &src.tokens[pos + 1] {
                Token::Int(v) => if *v > i64::MIN {
                    Some((Expression::CInt(-*v), pos + 2))
                } else {
                    None
                },
                _ => None,
            }
        } else {
            None
        },
        Token::String(s) => Some((Expression::CStr(s.clone()), pos + 1)),
        Token::Ident(_) => Some((Expression::Id(src.symbols[pos]), pos + 1)),
        _ => None,
    }
}

/// A global at `pos`.
pub fn parse_global_def(src: &Source, pos: usize) -> (r: Option<(Declaration, usize)>)
    requires
        src.wf(),
    ensures
        match r {
            Some((d, end)) => global_at(src.toks(), src.syms(), pos as nat) == Some((d@, end as nat))
                && pos < end <= src.tokens@.len(),
            None => global_at(src.toks(), src.syms(), pos as nat).is_none(),
        },
{
    if !(src.is(pos, &Token::Global) && src.is_ident(pos + 1) && src.is(pos + 2, &Token::Eq)) {
        return None;
    }
    match parse_constant(src, pos + 3) {
        Some((init, p)) => if src.is(p, &Token::Semi) {
            Some(
                (
                    Declaration::Variable(GlobalDeclaration { name: src.symbols[pos + 1], init }),
                    p + 1,
                ),
            )
        } else {
            None
        },
        None => None,
    }
}

/// The declaration at `pos`.
pub fn parse_declaration_at(src: &Source, pos: usize) -> (r: Option<(Declaration, usize)>)
    requires
        src.wf(),
    ensures
        match r {
            Some((d, end)) => declaration_at(src.toks(), src.syms(), pos as nat) == Some(
                (d@, end as nat),
            ) && pos < end <= src.tokens@.len(),
            None => declaration_at(src.toks(), src.syms(), pos as nat).is_none(),
        },
{
    match parse_function_declaration(src, pos) {
        Some((f, p)) => Some((Declaration::Function(f), p)),
        None => match parse_type_declaration(src, pos) {
            Some(r) => Some(r),
            None => parse_global_def(src, pos),
        },
    }
}

/// The declarations from the start of the text on, and the position of the
/// first token that starts none.
pub fn parse_program_internal(src: &Source) -> (r: (Program, usize))
    requires
        src.wf(),
    ensures
        declarations_at(src.toks(), src.syms(), 0, Seq::empty()) == (r.0@, r.1 as nat),
        r.1 <= src.tokens@.len(),
{
    let mut declarations: Vec<Declaration> = Vec::new();
    let ghost mut found: Prog = Seq::empty();
    let mut p: usize = 0;
    loop
        invariant
            src.wf(),
            p <= src.tokens@.len(),
            found.len() == declarations@.len(),
            forall|i: int| 0 <= i < found.len() ==> found[i] == declarations@[i]@,
            declarations_at(src.toks(), src.syms(), 0, Seq::empty()) == declarations_at(
                src.toks(),
                src.syms(),
                p as nat,
                found,
            ),
        decreases src.tokens@.len() - p,
    {
        match parse_declaration_at(src, p) {
            Some((d, q)) => {
                proof {
                    found = found.push(d@);
                }
                declarations.push(d);
                p = q;
            },
            None => {
                let program = Program { declarations };
                assert(program@ =~= found);
                return (program, p);
            },
        }
    }
}

/// Interns the identifiers among `tokens`, in order. Returns the symbol of
/// each token.
pub fn resolve(interner: &mut Interner, tokens: &Vec<Token>) -> (symbols: Vec<Symbol>)
    ensures
        symbols@ == symbols_of(old(interner)@, tokens_view(tokens@)),
        final(interner)@ == interned(old(interner)@, tokens_view(tokens@), tokens@.len() as nat),
{
    let ghost start = interner@;
    let ghost t = tokens_view(tokens@);
    let mut symbols: Vec<Symbol> = Vec::new();
    let mut i: usize = 0;
    while i < tokens.len()
        invariant
            i <= tokens.len(),
            start == old(interner)@,
            t == tokens_view(tokens@),
            symbols@.len() == i,
            interner@ == interned(start, t, i as nat),
            forall|j: int| 0 <= j < i ==> symbols@[j] == symbol_of(start, t, j),
        decreases tokens.len() - i,
    {
        let symbol = match &tokens[i] {
            Token::Ident(word) => interner.intern(word.as_str()),
            _ => Symbol { index: 0 },
        };
        symbols.push(symbol);
        i += 1;
    }
    assert(symbols@ =~= symbols_of(start, t));
    symbols
}

/// The tokens of what the lexer found.
pub open spec fn kinds(found: Seq<(Tok, nat)>) -> Seq<Tok> {
    Seq::new(found.len(), |i: int| found[i].0)
}

/// The position in the text at which the token at `pos` starts, or the
/// length of the text when there is no such token.
pub open spec fn start_of(found: Seq<(Tok, nat)>, pos: nat, length: nat) -> nat {
    if pos < found.len() {
        found[pos as int].1
    } else {
        length
    }
}

/// The names that an interner holds after a text was read with it: those
/// it held, and the identifiers of the text. A text that cannot be lexed
/// leaves the interner as it was.
pub open spec fn names_after(names: Seq<Seq<char>>, s: Seq<char>) -> Seq<Seq<char>> {
    match lex(s) {
        Ok(found) => interned(names, kinds(found), found.len()),
        Err(_) => names,
    }
}

/// Lexes a text and interns its identifiers.
pub fn prepare(interner: &mut Interner, input: &str) -> (r: Result<Source, ParseError>)
    ensures
        final(interner)@ == names_after(old(interner)@, input@),
        match r {
            Ok(src) => {
                &&& src.wf()
                &&& lex(input@) matches Ok(found)
                &&& src.toks() == kinds(found)
                &&& src.syms() == symbols_of(old(interner)@, kinds(found))
                &&& src.length == input@.len()
                &&& forall|pos: nat| src.offset(pos) == #[trigger] start_of(found, pos, input@.len())
            },
            Err(e) => lex(input@) matches Err(position) && e@ == SyntaxError::ParserError(position),
        },
{
    let chars = characters(input);
    match scan(&chars) {
        Err(position) => Err(ParseError::ParserError(position)),
        Ok((tokens, offsets)) => {
            let ghost found = lexemes(tokens@, offsets@);
            assert(tokens_view(tokens@) =~= kinds(found));
            let symbols = resolve(interner, &tokens);
            let src = Source { tokens, symbols, offsets, length: chars.len() };
            Ok(src)
        },
    }
}

/// What reading a text from its start gives, for a rule `at` of the
/// grammar: what the rule finds at the first token, with the position in
/// the text at which the rest starts. Fails at the position of the first
/// character that starts no token, if there is one, and else at the first
/// token, if the rule finds nothing there.
pub open spec fn read<A>(
    names: Seq<Seq<char>>,
    s: Seq<char>,
    at: spec_fn(Seq<Tok>, Seq<Id>, nat) -> Option<(A, nat)>,
) -> Result<(A, nat), SyntaxError> {
    match lex(s) {
        Err(position) => Err(SyntaxError::ParserError(position)),
        Ok(found) => match at(kinds(found), symbols_of(names, kinds(found)), 0) {
            Some((a, end)) => Ok((a, start_of(found, end, s.len()))),
            None => Err(SyntaxError::ParserError(start_of(found, 0, s.len()))),
        },
    }
}

/// The program that a text spells. The text has to be declarations from
/// start to end: it fails with the rest of the text, from the first token
/// on that starts no declaration.
pub open spec fn program_of(names: Seq<Seq<char>>, s: Seq<char>) -> Result<Prog, SyntaxError> {
    match lex(s) {
        Err(position) => Err(SyntaxError::ParserError(position)),
        Ok(found) => {
            let (declarations, end) = declarations_at(
                kinds(found),
                symbols_of(names, kinds(found)),
                0,
                Seq::empty(),
            );
            if end >= found.len() {
                Ok(declarations)
            } else {
                Err(
                    SyntaxError::RemainingInput(
                        s.subrange(start_of(found, end, s.len()) as int, s.len() as int),
                    ),
                )
            }
        },
    }
}

/// Parses a program. Identifiers are interned in `interner`.
pub fn parse_program(interner: &mut Interner, input: &str) -> (r: Result<Program, ParseError>)
    ensures
        final(interner)@ == names_after(old(interner)@, input@),
        match r {
            Ok(program) => program_of(old(interner)@, input@) == Ok::<Prog, SyntaxError>(program@),
            Err(e) => program_of(old(interner)@, input@) == Err::<Prog, SyntaxError>(e@),
        },
{
    let chars = characters(input);
    match scan(&chars) {
        Err(position) => Err(ParseError::ParserError(position)),
        Ok((tokens, offsets)) => {
            let ghost found = lexemes(tokens@, offsets@);
            assert(tokens_view(tokens@) =~= kinds(found));
            let symbols = resolve(interner, &tokens);
            let src = Source { tokens, symbols, offsets, length: chars.len() };
            let (program, end) = parse_program_internal(&src);
            if end >= src.tokens.len() {
                Ok(program)
            } else {
                let start = src.offsets[end];
                Err(ParseError::RemainingInput(substring(&chars, start, chars.len())))
            }
        },
    }
}

/// Reading declarations never goes past the end of the tokens.
pub proof fn lemma_declarations_end(t: Seq<Tok>, y: Seq<Id>, pos: nat, acc: Prog)
    requires
        pos <= t.len(),
    ensures
        pos <= declarations_at(t, y, pos, acc).1 <= t.len(),
    decreases t.len() - pos,
{
    match declaration_at(t, y, pos) {
        Some((d, p)) => {
            if pos < p <= t.len() {
                lemma_declarations_end(t, y, p, acc.push(d));
            }
        },
        None => {},
    }
}

/// A text that is a program is read to its end: every character of it is
/// a space or belongs to a token, and the declarations of the program take
/// every token.
pub proof fn lemma_program_consumes_all(names: Seq<Seq<char>>, s: Seq<char>)
    requires
        program_of(names, s) is Ok,
    ensures
        lex(s) is Ok,
        declarations_at(
            kinds(lex(s)->Ok_0),
            symbols_of(names, kinds(lex(s)->Ok_0)),
            0,
            Seq::empty(),
        ) == (program_of(names, s)->Ok_0, lex(s)->Ok_0.len()),
{
    let found = lex(s)->Ok_0;
    lemma_declarations_end(kinds(found), symbols_of(names, kinds(found)), 0, Seq::empty());
}

} // verus!
