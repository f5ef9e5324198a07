//! From a program to its text and back.
//!
//! `program_text` is the text that `Program::to_text` writes for a
//! program. Parsing that text gives the program back, and parsing any
//! text, writing the program that it spells and parsing what was written
//! gives the program of the first text.

use crate::ast::{BinaryOp, Decl, Expr, Fields, FunDecl, Id, Prog, RefTy, RetTy, Stmt, Ty};
use crate::error::SyntaxError;
use crate::grammar::{
    array_at, atom_at, base_type_at, binary_at, binding_at, block_at, cast_at, declaration_at,
    declarations_at, else_at, expression_at, expressions_at, fields_at, for_at, function_at,
    function_type_at, if_at, initializers_at, insert_field, interned, is, is_ident,
    more_bindings_at, more_expressions_at, more_parameters_at, more_types_at, null_at,
    operator_at, operators_at, parameters_at, postfix_at, precedence, reference_type_at,
    return_type_at, simple_at, statement_at, statements_at, struct_at, suffixes_at, symbol_of,
    symbols_of, type_at, type_suffixes_at, typed_name_at, types_at, unary_at, unary_operator,
    while_at,
};
use crate::lexer::lex;
use crate::parser::{kinds, names_after, program_of};
use crate::symbol::{
    intern_names, lemma_intern_keeps_distinct, position_of, symbol_index, MAX_INDEX,
};
use crate::table::{lemma_position, position};
use crate::text::{
    all_lexable, is_identifier, lemma_lexed_lexable, lemma_text_read, lexable, tokens_text,
};
use crate::tokens::Tok;
use crate::typecontext;
use crate::unparse::{
    binary_token, binding_words, block_words, condition_words, constant, constant_words,
    declaration_words, declarations_words, expression_words, fields_words, function_words,
    ident, initializers_words, lemma_declarations_written, lemma_written_program_read,
    list_words, more_bindings_words, more_list_words, more_parameters_words, more_types_words,
    operand_words, parameters_words, parens, plain, program_words, reference_words,
    return_words, simple_words, spells, statement_words, statements_words, target_words,
    type_words, typed_name_words, types_words, unary_token, update_words, written_declaration,
    written_program,
};
use vstd::prelude::*;

verus! {

/// Whether the symbol stands for an identifier among `names`.
pub open spec fn fit_id(names: Seq<Seq<char>>, x: Id) -> bool {
    &&& x.index < names.len()
    &&& x.index <= MAX_INDEX
    &&& is_identifier(names[x.index as int])
}

/// Whether the symbols of the type stand for identifiers.
pub open spec fn fit_type(names: Seq<Seq<char>>, ty: Ty) -> bool
    decreases ty,
{
    match ty {
        Ty::Bool | Ty::Int => true,
        Ty::Ref(r) => fit_reference(names, r),
        Ty::NullRef(r) => fit_reference(names, r),
    }
}

/// Whether the symbols of the reference type stand for identifiers.
pub open spec fn fit_reference(names: Seq<Seq<char>>, r: RefTy) -> bool
    decreases r,
{
    match r {
        RefTy::String => true,
        RefTy::Struct(x) => fit_id(names, x),
        RefTy::Array(element) => fit_type(names, *element),
        RefTy::Function(args, ret) => (forall|i: int|
            0 <= i < args.len() ==> fit_type(names, #[trigger] args[i])) && fit_return(names, *ret),
    }
}

/// Whether the symbols of the return type stand for identifiers.
pub open spec fn fit_return(names: Seq<Seq<char>>, ret: RetTy) -> bool
    decreases ret,
{
    match ret {
        RetTy::Void => true,
        RetTy::Value(ty) => fit_type(names, ty),
    }
}

/// Whether the symbols of the expression stand for identifiers, and none
/// of its numbers is negative.
pub open spec fn fit_expression(names: Seq<Seq<char>>, e: Expr) -> bool
    decreases e,
{
    match e {
        Expr::CNull(r) => fit_reference(names, r),
        Expr::CBool(_) => true,
        Expr::CInt(v) => v >= 0,
        Expr::CStr(_) => true,
        Expr::Id(x) => fit_id(names, x),
        Expr::CArr(ty, elements) => fit_type(names, ty) && forall|i: int|
            0 <= i < elements.len() ==> fit_expression(names, #[trigger] elements[i]),
        Expr::NewArr(ty, length) => fit_type(names, ty) && fit_expression(names, *length),
        Expr::Index { value, index } => fit_expression(names, *value) && fit_expression(
            names,
            *index,
        ),
        Expr::Length(array) => fit_expression(names, *array),
        Expr::CStruct(_, _) => true,
        Expr::Proj(object, field) => fit_expression(names, *object) && fit_id(names, field),
        Expr::Call(callee, args) => fit_expression(names, *callee) && forall|i: int|
            0 <= i < args.len() ==> fit_expression(names, #[trigger] args[i]),
        Expr::Binary { op, left, right } => fit_expression(names, *left) && fit_expression(
            names,
            *right,
        ),
        Expr::Unary(_, operand) => fit_expression(names, *operand),
    }
}

/// Whether each expression of the list is fit.
pub open spec fn fit_list(names: Seq<Seq<char>>, list: Seq<Expr>) -> bool {
    forall|i: int| 0 <= i < list.len() ==> fit_expression(names, #[trigger] list[i])
}

/// Whether each binding of the list is fit.
pub open spec fn fit_bindings(names: Seq<Seq<char>>, list: Seq<(Id, Expr)>) -> bool {
    forall|i: int|
        0 <= i < list.len() ==> fit_id(names, (#[trigger] list[i]).0) && fit_expression(
            names,
            list[i].1,
        )
}

/// Whether the symbols of the statement stand for identifiers, and none
/// of its numbers is negative.
pub open spec fn fit_statement(names: Seq<Seq<char>>, s: Stmt) -> bool
    decreases s,
{
    match s {
        Stmt::Assignment(target, value) => fit_expression(names, target) && fit_expression(
            names,
            value,
        ),
        Stmt::Declaration(x, init) => fit_id(names, x) && fit_expression(names, init),
        Stmt::SCall(callee, args) => fit_expression(names, callee) && fit_list(names, args),
        Stmt::If { condition, then, else_ } => fit_expression(names, condition) && (forall|i: int|
            0 <= i < then.len() ==> fit_statement(names, #[trigger] then[i])) && (forall|i: int|
            0 <= i < else_.len() ==> fit_statement(names, #[trigger] else_[i])),
        Stmt::Cast(r, x, source, then, else_) => fit_reference(names, r) && fit_id(names, x)
            && fit_expression(names, source) && (forall|i: int|
            0 <= i < then.len() ==> fit_statement(names, #[trigger] then[i])) && (forall|i: int|
            0 <= i < else_.len() ==> fit_statement(names, #[trigger] else_[i])),
        Stmt::For { init, condition, update, body } => fit_bindings(names, init) && (match condition {
            Some(c) => fit_expression(names, c),
            None => true,
        }) && (match update {
            Some(u) => fit_statement(names, *u),
            None => true,
        }) && (forall|i: int| 0 <= i < body.len() ==> fit_statement(names, #[trigger] body[i])),
        Stmt::While { condition, body } => fit_expression(names, condition) && (forall|i: int|
            0 <= i < body.len() ==> fit_statement(names, #[trigger] body[i])),
        Stmt::Return(None) => true,
        Stmt::Return(Some(value)) => fit_expression(names, value),
    }
}

/// Whether each statement of the block is fit.
pub open spec fn fit_block(names: Seq<Seq<char>>, block: Seq<Stmt>) -> bool {
    forall|i: int| 0 <= i < block.len() ==> fit_statement(names, #[trigger] block[i])
}

/// Whether the constant is fit: a number has to be one whose sign can be
/// written before it.
pub open spec fn fit_constant(names: Seq<Seq<char>>, e: Expr) -> bool {
    match e {
        Expr::CInt(v) => v > i64::MIN,
        _ => fit_expression(names, e),
    }
}

/// Whether each typed name of the list is fit.
pub open spec fn fit_parameters(names: Seq<Seq<char>>, list: Seq<(Ty, Id)>) -> bool {
    forall|i: int|
        0 <= i < list.len() ==> fit_type(names, (#[trigger] list[i]).0) && fit_id(names, list[i].1)
}

/// Whether each field is fit.
pub open spec fn fit_fields(names: Seq<Seq<char>>, fields: Fields) -> bool {
    forall|i: int|
        0 <= i < fields.len() ==> fit_id(names, (#[trigger] fields[i]).0) && fit_type(
            names,
            fields[i].1,
        )
}

/// Whether the symbols of the declaration stand for identifiers, and its
/// numbers can be written.
pub open spec fn fit_declaration(names: Seq<Seq<char>>, d: Decl) -> bool {
    match d {
        Decl::Variable { name, init } => fit_id(names, name) && fit_constant(names, init),
        Decl::Function(f) => fit_return(names, f.return_type) && fit_id(names, f.name)
            && fit_parameters(names, f.args) && fit_block(names, f.body),
        Decl::Type { name, fields } => fit_id(names, name) && fit_fields(names, fields),
    }
}

/// Whether each declaration of the program is fit.
pub open spec fn fit_program(names: Seq<Seq<char>>, p: Prog) -> bool {
    forall|i: int| 0 <= i < p.len() ==> fit_declaration(names, #[trigger] p[i])
}

/// Whether the token with its symbol is one that the lexer gives, and
/// its symbol is that of its word.
pub open spec fn good(names: Seq<Seq<char>>, w: (Tok, Id)) -> bool {
    &&& lexable(w.0)
    &&& w.0 matches Tok::Ident(word) ==> w.1.index < names.len() && w.1.index <= MAX_INDEX && word
        == names[w.1.index as int]
}

/// Whether each of the tokens is good.
pub open spec fn all_good(names: Seq<Seq<char>>, w: Seq<(Tok, Id)>) -> bool {
    forall|k: int| 0 <= k < w.len() ==> good(names, #[trigger] w[k])
}

/// Good tokens after good tokens are good.
pub proof fn lemma_good_concat(names: Seq<Seq<char>>, a: Seq<(Tok, Id)>, b: Seq<(Tok, Id)>)
    requires
        all_good(names, a),
        all_good(names, b),
    ensures
        all_good(names, a + b),
{
    let w = a + b;
    assert forall|k: int| 0 <= k < w.len() implies good(names, #[trigger] w[k]) by {
        if k < a.len() {
            assert(w[k] == a[k]);
        } else {
            assert(w[k] == b[k - a.len()]);
        }
    }
}

/// Good tokens and one more are good.
pub proof fn lemma_good_push(names: Seq<Seq<char>>, a: Seq<(Tok, Id)>, k: (Tok, Id))
    requires
        all_good(names, a),
        good(names, k),
    ensures
        all_good(names, a.push(k)),
{
    lemma_good_concat(names, a, seq![k]);
    assert(a + seq![k] =~= a.push(k));
}

/// The tokens of a fit type are good.
pub proof fn lemma_type_good(names: Seq<Seq<char>>, ty: Ty)
    requires
        fit_type(names, ty),
    ensures
        all_good(names, type_words(names, ty)),
    decreases ty, 0nat,
{
    match ty {
        Ty::Bool => {},
        Ty::Int => {},
        Ty::Ref(r) => {
            lemma_reference_good(names, r);
        },
        Ty::NullRef(r) => {
            lemma_reference_good(names, r);
            lemma_good_push(names, reference_words(names, r), plain(Tok::Question));
        },
    }
}

/// The tokens of a fit reference type are good.
pub proof fn lemma_reference_good(names: Seq<Seq<char>>, r: RefTy)
    requires
        fit_reference(names, r),
    ensures
        all_good(names, reference_words(names, r)),
    decreases r, 0nat,
{
    match r {
        RefTy::String => {},
        RefTy::Struct(x) => {},
        RefTy::Array(element) => {
            lemma_type_good(names, *element);
            lemma_good_concat(
                names,
                type_words(names, *element),
                seq![plain(Tok::LBracket), plain(Tok::RBracket)],
            );
        },
        RefTy::Function(args, ret) => {
            let open = seq![plain(Tok::LParen), plain(Tok::LParen)];
            let list = types_words(names, args);
            let arrow = seq![plain(Tok::RParen), plain(Tok::Arrow)];
            let result = return_words(names, *ret);
            if args.len() > 0 {
                lemma_type_good(names, args[0]);
                lemma_more_types_good(names, args, 1);
                lemma_good_concat(names, type_words(names, args[0]), more_types_words(names, args, 1));
            }
            match *ret {
                RetTy::Void => {},
                RetTy::Value(ty) => {
                    lemma_type_good(names, ty);
                },
            }
            lemma_good_concat(names, open, list);
            lemma_good_concat(names, open + list, arrow);
            lemma_good_push(names, result, plain(Tok::RParen));
            lemma_good_concat(names, (open + list) + arrow, result.push(plain(Tok::RParen)));
        },
    }
}

/// The tokens of the rest of a list of fit types are good.
pub proof fn lemma_more_types_good(names: Seq<Seq<char>>, types: Seq<Ty>, i: nat)
    requires
        forall|k: int| 0 <= k < types.len() ==> fit_type(names, #[trigger] types[k]),
    ensures
        all_good(names, more_types_words(names, types, i)),
    decreases types, types.len() - i,
{
    if i < types.len() {
        lemma_type_good(names, types[i as int]);
        lemma_more_types_good(names, types, i + 1);
        lemma_good_concat(names, seq![plain(Tok::Comma)], type_words(names, types[i as int]));
        lemma_good_concat(
            names,
            seq![plain(Tok::Comma)] + type_words(names, types[i as int]),
            more_types_words(names, types, i + 1),
        );
    }
}

/// Good tokens in parentheses are good.
pub proof fn lemma_parens_good(names: Seq<Seq<char>>, w: Seq<(Tok, Id)>)
    requires
        all_good(names, w),
    ensures
        all_good(names, parens(w)),
{
    lemma_good_concat(names, seq![plain(Tok::LParen)], w);
    lemma_good_concat(names, seq![plain(Tok::LParen)] + w, seq![plain(Tok::RParen)]);
}

/// The tokens of a fit expression are good, alone and as an operand.
pub proof fn lemma_expression_good(names: Seq<Seq<char>>, e: Expr)
    requires
        fit_expression(names, e),
    ensures
        all_good(names, expression_words(names, e)),
        all_good(names, target_words(names, e)),
        all_good(names, operand_words(names, e)),
    decreases e, 0nat,
{
    let w = expression_words(names, e);
    match e {
        Expr::CNull(r) => {
            lemma_reference_good(names, r);
            lemma_good_push(names, reference_words(names, r), plain(Tok::Null));
        },
        Expr::CBool(b) => {},
        Expr::CInt(v) => {},
        Expr::CStr(text) => {},
        Expr::Id(x) => {},
        Expr::CArr(ty, elements) => {
            let array = Ty::Ref(RefTy::Array(Box::new(ty)));
            let tw = type_words(names, array);
            lemma_type_good(names, array);
            lemma_list_good(names, elements);
            lemma_good_concat(names, seq![plain(Tok::New)], tw);
            lemma_good_concat(names, seq![plain(Tok::New)] + tw, seq![plain(Tok::LBrace)]);
            lemma_good_push(names, list_words(names, elements), plain(Tok::RBrace));
            lemma_good_concat(
                names,
                (seq![plain(Tok::New)] + tw) + seq![plain(Tok::LBrace)],
                list_words(names, elements).push(plain(Tok::RBrace)),
            );
        },
        Expr::NewArr(ty, length) => {
            let tw = type_words(names, ty);
            lemma_type_good(names, ty);
            lemma_expression_good(names, *length);
            lemma_good_concat(names, seq![plain(Tok::New)], tw);
            lemma_good_concat(names, seq![plain(Tok::New)] + tw, seq![plain(Tok::LBracket)]);
            lemma_good_push(names, expression_words(names, *length), plain(Tok::RBracket));
            lemma_good_concat(
                names,
                (seq![plain(Tok::New)] + tw) + seq![plain(Tok::LBracket)],
                expression_words(names, *length).push(plain(Tok::RBracket)),
            );
        },
        Expr::Index { value, index } => {
            let tw = target_words(names, *value);
            lemma_expression_good(names, *value);
            lemma_expression_good(names, *index);
            lemma_good_concat(names, tw, seq![plain(Tok::LBracket)]);
            lemma_good_push(names, expression_words(names, *index), plain(Tok::RBracket));
            lemma_good_concat(
                names,
                tw + seq![plain(Tok::LBracket)],
                expression_words(names, *index).push(plain(Tok::RBracket)),
            );
        },
        Expr::Length(array) => {
            lemma_expression_good(names, *array);
            lemma_good_push(names, expression_words(names, *array), plain(Tok::RParen));
            lemma_good_concat(
                names,
                seq![plain(Tok::Length), plain(Tok::LParen)],
                expression_words(names, *array).push(plain(Tok::RParen)),
            );
        },
        Expr::CStruct(_, _) => {},
        Expr::Proj(object, field) => {
            lemma_expression_good(names, *object);
            lemma_good_concat(
                names,
                target_words(names, *object),
                seq![plain(Tok::Dot), ident(names, field)],
            );
        },
        Expr::Call(callee, args) => {
            let tw = target_words(names, *callee);
            lemma_expression_good(names, *callee);
            lemma_list_good(names, args);
            lemma_good_concat(names, tw, seq![plain(Tok::LParen)]);
            lemma_good_push(names, list_words(names, args), plain(Tok::RParen));
            lemma_good_concat(
                names,
                tw + seq![plain(Tok::LParen)],
                list_words(names, args).push(plain(Tok::RParen)),
            );
        },
        Expr::Binary { op, left, right } => {
            lemma_expression_good(names, *left);
            lemma_expression_good(names, *right);
            let lw = operand_words(names, *left);
            let ow = seq![plain(binary_token(op))];
            assert(all_good(names, ow)) by {
                lemma_operator_good(names, op);
            }
            lemma_good_concat(names, lw, ow);
            lemma_good_concat(names, lw + ow, operand_words(names, *right));
        },
        Expr::Unary(op, operand) => {
            lemma_expression_good(names, *operand);
            let ow = seq![plain(unary_token(op))];
            lemma_good_concat(names, ow, operand_words(names, *operand));
        },
    }
    lemma_parens_good(names, w);
}

/// The token of a binary operator is good.
pub proof fn lemma_operator_good(names: Seq<Seq<char>>, op: BinaryOp)
    ensures
        all_good(names, seq![plain(binary_token(op))]),
{
}

/// The tokens of a list of fit expressions are good.
pub proof fn lemma_list_good(names: Seq<Seq<char>>, list: Seq<Expr>)
    requires
        fit_list(names, list),
    ensures
        all_good(names, list_words(names, list)),
    decreases list, list.len() + 1,
{
    if list.len() > 0 {
        lemma_expression_good(names, list[0]);
        lemma_more_list_good(names, list, 1);
        lemma_good_concat(names, expression_words(names, list[0]), more_list_words(names, list, 1));
    }
}

/// The tokens of the rest of a list of fit expressions are good.
pub proof fn lemma_more_list_good(names: Seq<Seq<char>>, list: Seq<Expr>, i: nat)
    requires
        fit_list(names, list),
    ensures
        all_good(names, more_list_words(names, list, i)),
    decreases list, list.len() - i,
{
    if i < list.len() {
        lemma_expression_good(names, list[i as int]);
        lemma_more_list_good(names, list, i + 1);
        lemma_good_concat(names, seq![plain(Tok::Comma)], expression_words(names, list[i as int]));
        lemma_good_concat(
            names,
            seq![plain(Tok::Comma)] + expression_words(names, list[i as int]),
            more_list_words(names, list, i + 1),
        );
    }
}

/// The tokens of a fit binding are good.
pub proof fn lemma_binding_good(names: Seq<Seq<char>>, x: Id, e: Expr)
    requires
        fit_id(names, x),
        fit_expression(names, e),
    ensures
        all_good(names, binding_words(names, x, e)),
{
    lemma_expression_good(names, e);
    lemma_good_concat(names, seq![ident(names, x), plain(Tok::Eq)], expression_words(names, e));
}

/// The tokens of the rest of a list of fit bindings are good.
pub proof fn lemma_more_bindings_good(names: Seq<Seq<char>>, list: Seq<(Id, Expr)>, i: nat)
    requires
        fit_bindings(names, list),
    ensures
        all_good(names, more_bindings_words(names, list, i)),
    decreases list.len() - i,
{
    if i < list.len() {
        let here = binding_words(names, list[i as int].0, list[i as int].1);
        lemma_binding_good(names, list[i as int].0, list[i as int].1);
        lemma_more_bindings_good(names, list, i + 1);
        lemma_good_concat(names, seq![plain(Tok::Comma)], here);
        lemma_good_concat(
            names,
            seq![plain(Tok::Comma)] + here,
            more_bindings_words(names, list, i + 1),
        );
    }
}

/// The tokens of fit initializers are good.
pub proof fn lemma_initializers_good(names: Seq<Seq<char>>, list: Seq<(Id, Expr)>)
    requires
        fit_bindings(names, list),
    ensures
        all_good(names, initializers_words(names, list)),
{
    if list.len() > 0 {
        let here = binding_words(names, list[0].0, list[0].1);
        lemma_binding_good(names, list[0].0, list[0].1);
        lemma_more_bindings_good(names, list, 1);
        lemma_good_concat(names, seq![plain(Tok::Var)], here);
        lemma_good_concat(names, seq![plain(Tok::Var)] + here, more_bindings_words(names, list, 1));
    }
}

/// The tokens of a fit assignment or call are good.
pub proof fn lemma_simple_good(names: Seq<Seq<char>>, s: Stmt)
    requires
        fit_statement(names, s),
    ensures
        all_good(names, simple_words(names, s)),
{
    match s {
        Stmt::Assignment(target, value) => {
            lemma_expression_good(names, target);
            lemma_expression_good(names, value);
            lemma_good_concat(names, expression_words(names, target), seq![plain(Tok::Eq)]);
            lemma_good_concat(
                names,
                expression_words(names, target) + seq![plain(Tok::Eq)],
                expression_words(names, value),
            );
        },
        Stmt::SCall(callee, args) => {
            lemma_expression_good(names, Expr::Call(Box::new(callee), args));
        },
        _ => {},
    }
}

/// The tokens of the two blocks of a conditional are good where those
/// of each block are.
pub proof fn lemma_branches_good(names: Seq<Seq<char>>, head: Seq<(Tok, Id)>, then: Seq<(Tok, Id)>, else_: Seq<(Tok, Id)>)
    requires
        all_good(names, head),
        all_good(names, then),
        all_good(names, else_),
    ensures
        all_good(names, head + then + seq![plain(Tok::Else)] + else_),
{
    lemma_good_concat(names, head, then);
    lemma_good_concat(names, head + then, seq![plain(Tok::Else)]);
    lemma_good_concat(names, head + then + seq![plain(Tok::Else)], else_);
}

/// The tokens of a fit statement are good.
pub proof fn lemma_statement_good(names: Seq<Seq<char>>, s: Stmt)
    requires
        fit_statement(names, s),
    ensures
        all_good(names, statement_words(names, s)),
    decreases s, 0nat,
{
    match s {
        Stmt::Assignment(_, _) | Stmt::SCall(_, _) => {
            lemma_simple_good(names, s);
            lemma_good_push(names, simple_words(names, s), plain(Tok::Semi));
        },
        Stmt::Declaration(x, init) => {
            lemma_binding_good(names, x, init);
            lemma_good_push(names, binding_words(names, x, init), plain(Tok::Semi));
            lemma_good_concat(
                names,
                seq![plain(Tok::Var)],
                binding_words(names, x, init).push(plain(Tok::Semi)),
            );
        },
        Stmt::If { condition, then, else_ } => {
            let first = seq![plain(Tok::If), plain(Tok::LParen)];
            let cw = expression_words(names, condition);
            lemma_expression_good(names, condition);
            lemma_block_good(names, then);
            lemma_block_good(names, else_);
            lemma_good_concat(names, first, cw);
            lemma_good_concat(names, first + cw, seq![plain(Tok::RParen)]);
            lemma_branches_good(
                names,
                (first + cw) + seq![plain(Tok::RParen)],
                block_words(names, then),
                block_words(names, else_),
            );
        },
        Stmt::Cast(r, x, source, then, else_) => {
            let first = seq![plain(Tok::Ifq), plain(Tok::LParen)];
            let rw = reference_words(names, r);
            let bw = binding_words(names, x, source);
            lemma_reference_good(names, r);
            lemma_binding_good(names, x, source);
            lemma_block_good(names, then);
            lemma_block_good(names, else_);
            lemma_good_concat(names, first, rw);
            lemma_good_concat(names, first + rw, bw);
            lemma_good_concat(names, (first + rw) + bw, seq![plain(Tok::RParen)]);
            lemma_branches_good(
                names,
                ((first + rw) + bw) + seq![plain(Tok::RParen)],
                block_words(names, then),
                block_words(names, else_),
            );
        },
        Stmt::For { init, condition, update, body } => {
            let first = seq![plain(Tok::For), plain(Tok::LParen)];
            let iw = initializers_words(names, init);
            let semi = seq![plain(Tok::Semi)];
            let cw = condition_words(names, condition);
            let uw = update_words(names, update);
            let close = seq![plain(Tok::RParen)];
            let bw = block_words(names, body);
            lemma_initializers_good(names, init);
            match condition {
                Some(c) => {
                    lemma_expression_good(names, c);
                },
                None => {},
            }
            match update {
                Some(u) => {
                    lemma_simple_good(names, *u);
                },
                None => {},
            }
            lemma_block_good(names, body);
            lemma_good_concat(names, first, iw);
            lemma_good_concat(names, first + iw, semi);
            lemma_good_concat(names, (first + iw) + semi, cw);
            lemma_good_concat(names, ((first + iw) + semi) + cw, semi);
            lemma_good_concat(names, (((first + iw) + semi) + cw) + semi, uw);
            lemma_good_concat(names, ((((first + iw) + semi) + cw) + semi) + uw, close);
            lemma_good_concat(names, (((((first + iw) + semi) + cw) + semi) + uw) + close, bw);
        },
        Stmt::While { condition, body } => {
            let first = seq![plain(Tok::While), plain(Tok::LParen)];
            let cw = expression_words(names, condition);
            lemma_expression_good(names, condition);
            lemma_block_good(names, body);
            lemma_good_concat(names, first, cw);
            lemma_good_concat(names, first + cw, seq![plain(Tok::RParen)]);
            lemma_good_concat(
                names,
                (first + cw) + seq![plain(Tok::RParen)],
                block_words(names, body),
            );
        },
        Stmt::Return(None) => {},
        Stmt::Return(Some(value)) => {
            lemma_expression_good(names, value);
            lemma_good_push(names, expression_words(names, value), plain(Tok::Semi));
            lemma_good_concat(
                names,
                seq![plain(Tok::Return)],
                expression_words(names, value).push(plain(Tok::Semi)),
            );
        },
    }
}

/// The tokens of a fit block are good.
pub proof fn lemma_block_good(names: Seq<Seq<char>>, block: Seq<Stmt>)
    requires
        fit_block(names, block),
    ensures
        all_good(names, block_words(names, block)),
    decreases block, block.len() + 1,
{
    lemma_statements_good(names, block, 0);
    lemma_good_push(names, statements_words(names, block, 0), plain(Tok::RBrace));
    lemma_good_concat(
        names,
        seq![plain(Tok::LBrace)],
        statements_words(names, block, 0).push(plain(Tok::RBrace)),
    );
}

/// The tokens of the statements of a fit block are good.
pub proof fn lemma_statements_good(names: Seq<Seq<char>>, block: Seq<Stmt>, i: nat)
    requires
        fit_block(names, block),
    ensures
        all_good(names, statements_words(names, block, i)),
    decreases block, block.len() - i,
{
    if i < block.len() {
        lemma_statement_good(names, block[i as int]);
        lemma_statements_good(names, block, i + 1);
        lemma_good_concat(
            names,
            statement_words(names, block[i as int]),
            statements_words(names, block, i + 1),
        );
    }
}

/// The tokens of a fit typed name are good.
pub proof fn lemma_typed_name_good(names: Seq<Seq<char>>, ty: Ty, x: Id)
    requires
        fit_type(names, ty),
        fit_id(names, x),
    ensures
        all_good(names, typed_name_words(names, ty, x)),
{
    lemma_type_good(names, ty);
    lemma_good_push(names, type_words(names, ty), ident(names, x));
}

/// The tokens of the rest of a list of fit parameters are good.
pub proof fn lemma_more_parameters_good(names: Seq<Seq<char>>, list: Seq<(Ty, Id)>, i: nat)
    requires
        fit_parameters(names, list),
    ensures
        all_good(names, more_parameters_words(names, list, i)),
    decreases list.len() - i,
{
    if i < list.len() {
        let here = typed_name_words(names, list[i as int].0, list[i as int].1);
        lemma_typed_name_good(names, list[i as int].0, list[i as int].1);
        lemma_more_parameters_good(names, list, i + 1);
        lemma_good_concat(names, seq![plain(Tok::Comma)], here);
        lemma_good_concat(
            names,
            seq![plain(Tok::Comma)] + here,
            more_parameters_words(names, list, i + 1),
        );
    }
}

/// The tokens of the fields of a struct from position `i` on are good.
pub proof fn lemma_fields_good(names: Seq<Seq<char>>, fields: Fields, i: nat)
    requires
        fit_fields(names, fields),
    ensures
        all_good(names, fields_words(names, fields, i)),
    decreases fields.len() - i,
{
    if i < fields.len() {
        let here = typed_name_words(names, fields[i as int].1, fields[i as int].0);
        lemma_typed_name_good(names, fields[i as int].1, fields[i as int].0);
        lemma_fields_good(names, fields, i + 1);
        lemma_good_push(names, here, plain(Tok::Semi));
        lemma_good_concat(names, here.push(plain(Tok::Semi)), fields_words(names, fields, i + 1));
    }
}

/// The tokens of a fit function are good.
pub proof fn lemma_function_good(names: Seq<Seq<char>>, f: FunDecl)
    requires
        fit_declaration(names, Decl::Function(f)),
    ensures
        all_good(names, function_words(names, f)),
{
    let rw = return_words(names, f.return_type);
    let name = seq![ident(names, f.name), plain(Tok::LParen)];
    let pw = parameters_words(names, f.args);
    let close = seq![plain(Tok::RParen)];
    let bw = block_words(names, f.body);
    match f.return_type {
        RetTy::Void => {},
        RetTy::Value(ty) => {
            lemma_type_good(names, ty);
        },
    }
    if f.args.len() > 0 {
        let here = typed_name_words(names, f.args[0].0, f.args[0].1);
        lemma_typed_name_good(names, f.args[0].0, f.args[0].1);
        lemma_more_parameters_good(names, f.args, 1);
        lemma_good_concat(names, here, more_parameters_words(names, f.args, 1));
    }
    lemma_block_good(names, f.body);
    lemma_good_concat(names, rw, name);
    lemma_good_concat(names, rw + name, pw);
    lemma_good_concat(names, (rw + name) + pw, close);
    lemma_good_concat(names, ((rw + name) + pw) + close, bw);
}

/// The tokens of a fit constant are good.
pub proof fn lemma_constant_good(names: Seq<Seq<char>>, e: Expr)
    requires
        constant(e),
        fit_constant(names, e),
    ensures
        all_good(names, constant_words(names, e)),
{
    match e {
        Expr::CInt(v) => {},
        _ => {
            lemma_expression_good(names, e);
        },
    }
}

/// The tokens of a fit declaration are good.
pub proof fn lemma_declaration_good(names: Seq<Seq<char>>, d: Decl)
    requires
        fit_declaration(names, d),
        d is Variable ==> constant(d->Variable_init),
    ensures
        all_good(names, declaration_words(names, d)),
{
    match d {
        Decl::Variable { name, init } => {
            let first = seq![plain(Tok::Global), ident(names, name), plain(Tok::Eq)];
            lemma_constant_good(names, init);
            lemma_good_push(names, constant_words(names, init), plain(Tok::Semi));
            lemma_good_concat(names, first, constant_words(names, init).push(plain(Tok::Semi)));
        },
        Decl::Function(f) => {
            lemma_function_good(names, f);
        },
        Decl::Type { name, fields } => {
            let first = seq![plain(Tok::Struct), ident(names, name), plain(Tok::LBrace)];
            lemma_fields_good(names, fields, 0);
            lemma_good_push(names, fields_words(names, fields, 0), plain(Tok::RBrace));
            lemma_good_concat(names, first, fields_words(names, fields, 0).push(plain(Tok::RBrace)));
        },
    }
}

/// The tokens of the declarations of a fit program from position `i` on
/// are good.
pub proof fn lemma_declarations_good(names: Seq<Seq<char>>, p: Prog, i: nat)
    requires
        fit_program(names, p),
        forall|k: int| 0 <= k < p.len() && (#[trigger] p[k]) is Variable ==> constant(p[k]->Variable_init),
    ensures
        all_good(names, declarations_words(names, p, i)),
    decreases p.len() - i,
{
    if i < p.len() {
        lemma_declaration_good(names, p[i as int]);
        lemma_declarations_good(names, p, i + 1);
        lemma_good_concat(names, declaration_words(names, p[i as int]), declarations_words(names, p, i + 1));
    }
}

/// The tokens without their symbols.
pub open spec fn tokens_of(w: Seq<(Tok, Id)>) -> Seq<Tok> {
    Seq::new(w.len(), |k: int| w[k].0)
}

/// A program, written as text: its tokens, each followed by a blank.
pub open spec fn program_text(names: Seq<Seq<char>>, p: Prog) -> Seq<char> {
    tokens_text(tokens_of(program_words(names, p)), 0)
}

/// Interning the identifiers of good tokens adds no name.
pub proof fn lemma_interned_known(names: Seq<Seq<char>>, w: Seq<(Tok, Id)>, n: nat)
    requires
        all_good(names, w),
        n <= w.len(),
    ensures
        interned(names, tokens_of(w), n) == names,
    decreases n,
{
    if n > 0 {
        lemma_interned_known(names, w, (n - 1) as nat);
        assert(good(names, w[n - 1]));
        match w[n - 1].0 {
            Tok::Ident(word) => {
                assert(names[w[n - 1].1.index as int] == word);
                assert(names.contains(word));
            },
            _ => {},
        }
    }
}

/// Good tokens are lexable, and the symbols that an interner gives to
/// their identifiers are the symbols that they carry.
pub proof fn lemma_symbols_known(names: Seq<Seq<char>>, w: Seq<(Tok, Id)>)
    requires
        names.no_duplicates(),
        all_good(names, w),
    ensures
        all_lexable(tokens_of(w)),
        spells(tokens_of(w), symbols_of(names, tokens_of(w)), 0, w),
        interned(names, tokens_of(w), w.len()) == names,
{
    let t = tokens_of(w);
    let y = symbols_of(names, t);
    assert forall|k: int| 0 <= k < t.len() implies lexable(#[trigger] t[k]) by {
        assert(good(names, w[k]));
    }
    assert forall|k: int| 0 <= k < w.len() implies t[0 + k] == (#[trigger] w[k]).0 && (w[k].0 is Ident
        ==> y[0 + k] == w[k].1) by {
        assert(good(names, w[k]));
        match w[k].0 {
            Tok::Ident(word) => {
                let x = w[k].1;
                lemma_interned_known(names, w, k as nat);
                assert(names[x.index as int] == word);
                assert(names.contains(word));
                let found = names.index_of(word);
                assert(names[found] == word);
                assert(found == x.index);
                assert(position_of(names, word) == x.index);
                assert(symbol_index(x.index as nat) == x.index) by {
                    assert((x.index as nat) % 0x1_0000_0000 == x.index as nat);
                }
                assert(y[k] == symbol_of(names, t, k));
            },
            _ => {},
        }
    }
    lemma_interned_known(names, w, w.len());
}

/// A program that is written as a text is parsed from it again: where
/// the program can be written, its symbols stand for identifiers among
/// the names of an interner that holds no name twice, and its numbers are
/// not negative, parsing its text with that interner gives the program,
/// and the interner learns no name.
pub proof fn lemma_written_text_read(names: Seq<Seq<char>>, p: Prog)
    requires
        names.no_duplicates(),
        written_program(p),
        fit_program(names, p),
    ensures
        program_of(names, program_text(names, p)) == Ok::<Prog, SyntaxError>(p),
        names_after(names, program_text(names, p)) == names,
{
    let w = program_words(names, p);
    let t = tokens_of(w);
    let s = program_text(names, p);
    assert forall|k: int| 0 <= k < p.len() && (#[trigger] p[k]) is Variable implies constant(
        p[k]->Variable_init,
    ) by {
        assert(written_declaration(p[k]));
    }
    lemma_declarations_good(names, p, 0);
    lemma_symbols_known(names, w);
    lemma_text_read(t);
    let found = lex(s)->Ok_0;
    assert(kinds(found) == t);
    assert(found.len() == t.len());
    lemma_written_program_read(names, t, symbols_of(names, t), p);
}

/// Whether the tokens with their symbols are such as a lexer and an
/// interner that holds `names` in the end give: each identifier has a
/// symbol that stands for an identifier, and no number is negative.
pub open spec fn lexed(names: Seq<Seq<char>>, t: Seq<Tok>, y: Seq<Id>) -> bool {
    &&& t.len() == y.len()
    &&& forall|i: int| 0 <= i < t.len() && (#[trigger] t[i]) is Ident ==> fit_id(names, y[i])
    &&& forall|i: int| 0 <= i < t.len() && (#[trigger] t[i]) is Int ==> t[i]->Int_0 >= 0
}

/// Whether each type of the list is fit.
pub open spec fn fit_types(names: Seq<Seq<char>>, types: Seq<Ty>) -> bool {
    forall|i: int| 0 <= i < types.len() ==> fit_type(names, #[trigger] types[i])
}

/// What is read as a list of types, after fit types, is fit.
pub proof fn lemma_types_fit(names: Seq<Seq<char>>, t: Seq<Tok>, y: Seq<Id>, pos: nat, acc: Seq<Ty>)
    requires
        lexed(names, t, y),
        fit_types(names, acc),
    ensures
        fit_types(names, types_at(t, y, pos, acc).0),
    decreases t.len() - pos, 3nat,
{
    lemma_type_fit(names, t, y, pos);
    match type_at(t, y, pos) {
        Some((first, p)) => {
            if pos < p <= t.len() {
                lemma_types_pushed(names, acc, first);
                lemma_more_types_fit(names, t, y, p, acc.push(first));
            }
        },
        None => {},
    }
}

/// Fit types and one more are fit.
pub proof fn lemma_types_pushed(names: Seq<Seq<char>>, acc: Seq<Ty>, ty: Ty)
    requires
        fit_types(names, acc),
        fit_type(names, ty),
    ensures
        fit_types(names, acc.push(ty)),
{
    let more = acc.push(ty);
    assert forall|i: int| 0 <= i < more.len() implies fit_type(names, #[trigger] more[i]) by {
        if i < acc.len() {
            assert(more[i] == acc[i]);
        }
    }
}

/// What is read as the rest of a list of types, after fit types, is fit.
pub proof fn lemma_more_types_fit(names: Seq<Seq<char>>, t: Seq<Tok>, y: Seq<Id>, pos: nat, acc: Seq<Ty>)
    requires
        lexed(names, t, y),
        fit_types(names, acc),
    ensures
        fit_types(names, more_types_at(t, y, pos, acc).0),
    decreases t.len() - pos, 0nat,
{
    if is(t, pos, Tok::Comma) {
        lemma_type_fit(names, t, y, pos + 1);
        match type_at(t, y, pos + 1) {
            Some((next, p)) => {
                if pos + 1 < p <= t.len() {
                    lemma_types_pushed(names, acc, next);
                    lemma_more_types_fit(names, t, y, p, acc.push(next));
                }
            },
            None => {},
        }
    }
}

/// What is read as a function type is fit.
pub proof fn lemma_function_type_fit(names: Seq<Seq<char>>, t: Seq<Tok>, y: Seq<Id>, pos: nat)
    requires
        lexed(names, t, y),
    ensures
        function_type_at(t, y, pos) matches Some((ty, _)) ==> fit_type(names, ty),
    decreases t.len() - pos, 0nat,
{
    if is(t, pos, Tok::LParen) {
        lemma_types_fit(names, t, y, pos + 1, Seq::empty());
        let (args, p) = types_at(t, y, pos + 1, Seq::empty());
        if is(t, p, Tok::RParen) && is(t, p + 1, Tok::Arrow) && pos < p {
            lemma_return_fit(names, t, y, p + 2);
        }
    }
}

/// What is read as a type without suffixes is fit.
pub proof fn lemma_base_type_fit(names: Seq<Seq<char>>, t: Seq<Tok>, y: Seq<Id>, pos: nat)
    requires
        lexed(names, t, y),
    ensures
        base_type_at(t, y, pos) matches Some((ty, _)) ==> fit_type(names, ty),
    decreases t.len() - pos, 1nat,
{
    if pos < t.len() && pos < y.len() {
        match t[pos as int] {
            Tok::LParen => {
                lemma_function_type_fit(names, t, y, pos);
                lemma_type_fit(names, t, y, pos + 1);
            },
            _ => {},
        }
    }
}

/// What a fit type becomes under suffixes is fit.
pub proof fn lemma_type_suffixes_fit(names: Seq<Seq<char>>, t: Seq<Tok>, pos: nat, ty: Ty)
    requires
        fit_type(names, ty),
    ensures
        fit_type(names, type_suffixes_at(t, pos, ty).0),
    decreases t.len() - pos,
{
    if is(t, pos, Tok::LBracket) && is(t, pos + 1, Tok::RBracket) {
        lemma_type_suffixes_fit(names, t, pos + 2, Ty::Ref(RefTy::Array(Box::new(ty))));
    } else if is(t, pos, Tok::Question) && ty is Ref {
        lemma_type_suffixes_fit(names, t, pos + 1, Ty::NullRef(ty->Ref_0));
    }
}

/// What is read as a type is fit.
pub proof fn lemma_type_fit(names: Seq<Seq<char>>, t: Seq<Tok>, y: Seq<Id>, pos: nat)
    requires
        lexed(names, t, y),
    ensures
        type_at(t, y, pos) matches Some((ty, _)) ==> fit_type(names, ty),
        reference_type_at(t, y, pos) matches Some((r, _)) ==> fit_reference(names, r),
    decreases t.len() - pos, 2nat,
{
    lemma_base_type_fit(names, t, y, pos);
    match base_type_at(t, y, pos) {
        Some((base, p)) => {
            lemma_type_suffixes_fit(names, t, p, base);
        },
        None => {},
    }
}

/// What is read as a return type is fit.
pub proof fn lemma_return_fit(names: Seq<Seq<char>>, t: Seq<Tok>, y: Seq<Id>, pos: nat)
    requires
        lexed(names, t, y),
    ensures
        return_type_at(t, y, pos) matches Some((ret, _)) ==> fit_return(names, ret),
    decreases t.len() - pos, 3nat,
{
    if !(is(t, pos, Tok::TVoid)) {
        lemma_type_fit(names, t, y, pos);
    }
}

/// What is read as an atom is fit.
pub proof fn lemma_atom_fit(names: Seq<Seq<char>>, t: Seq<Tok>, y: Seq<Id>, pos: nat)
    requires
        lexed(names, t, y),
    ensures
        atom_at(t, y, pos) matches Some((e, _)) ==> fit_expression(names, e),
    decreases t.len() - pos, 1nat,
{
    if pos < t.len() && pos < y.len() {
        lemma_type_fit(names, t, y, pos);
        if null_at(t, y, pos) is None {
            match t[pos as int] {
                Tok::Length => {
                    if is(t, pos + 1, Tok::LParen) {
                        lemma_expression_fit(names, t, y, pos + 2);
                    }
                },
                Tok::New => {
                    lemma_array_fit(names, t, y, pos);
                },
                Tok::LParen => {
                    lemma_expression_fit(names, t, y, pos + 1);
                },
                _ => {},
            }
        }
    }
}

/// What is read as an array expression is fit.
pub proof fn lemma_array_fit(names: Seq<Seq<char>>, t: Seq<Tok>, y: Seq<Id>, pos: nat)
    requires
        lexed(names, t, y),
    ensures
        array_at(t, y, pos) matches Some((e, _)) ==> fit_expression(names, e),
    decreases t.len() - pos, 0nat,
{
    if is(t, pos, Tok::New) {
        lemma_type_fit(names, t, y, pos + 1);
        match type_at(t, y, pos + 1) {
            Some((ty, p)) => {
                if pos < p < t.len() {
                    lemma_expressions_fit(names, t, y, p + 1, Seq::empty());
                    lemma_expression_fit(names, t, y, p + 1);
                }
            },
            None => {},
        }
    }
}

/// What is read as an atom with its suffixes is fit.
pub proof fn lemma_postfix_fit(names: Seq<Seq<char>>, t: Seq<Tok>, y: Seq<Id>, pos: nat)
    requires
        lexed(names, t, y),
    ensures
        postfix_at(t, y, pos) matches Some((e, _)) ==> fit_expression(names, e),
    decreases t.len() - pos, 2nat,
{
    lemma_atom_fit(names, t, y, pos);
    match atom_at(t, y, pos) {
        Some((atom, p)) => {
            if pos < p <= t.len() {
                lemma_suffixes_fit(names, t, y, p, atom);
            }
        },
        None => {},
    }
}

/// What a fit expression becomes under suffixes is fit.
pub proof fn lemma_suffixes_fit(names: Seq<Seq<char>>, t: Seq<Tok>, y: Seq<Id>, pos: nat, e: Expr)
    requires
        lexed(names, t, y),
        fit_expression(names, e),
    ensures
        fit_expression(names, suffixes_at(t, y, pos, e).0),
    decreases t.len() - pos, 0nat,
{
    if pos < t.len() {
        match t[pos as int] {
            Tok::LParen => {
                lemma_expressions_fit(names, t, y, pos + 1, Seq::empty());
                let (args, p) = expressions_at(t, y, pos + 1, Seq::empty());
                if is(t, p, Tok::RParen) && pos < p {
                    lemma_suffixes_fit(names, t, y, p + 1, Expr::Call(Box::new(e), args));
                }
            },
            Tok::LBracket => {
                lemma_expression_fit(names, t, y, pos + 1);
                match expression_at(t, y, pos + 1) {
                    Some((index, p)) => {
                        if is(t, p, Tok::RBracket) && pos < p {
                            lemma_suffixes_fit(
                                names,
                                t,
                                y,
                                p + 1,
                                Expr::Index { value: Box::new(e), index: Box::new(index) },
                            );
                        }
                    },
                    None => {},
                }
            },
            Tok::Dot => {
                if is_ident(t, pos + 1) && pos + 1 < y.len() {
                    lemma_suffixes_fit(
                        names,
                        t,
                        y,
                        pos + 2,
                        Expr::Proj(Box::new(e), y[pos as int + 1]),
                    );
                }
            },
            _ => {},
        }
    }
}

/// What is read as an operand is fit.
pub proof fn lemma_unary_fit(names: Seq<Seq<char>>, t: Seq<Tok>, y: Seq<Id>, pos: nat)
    requires
        lexed(names, t, y),
    ensures
        unary_at(t, y, pos) matches Some((e, _)) ==> fit_expression(names, e),
    decreases t.len() - pos, 3nat,
{
    if pos < t.len() {
        match unary_operator(t[pos as int]) {
            Some(op) => {
                lemma_unary_fit(names, t, y, pos + 1);
            },
            None => {
                lemma_postfix_fit(names, t, y, pos);
            },
        }
    }
}

/// What is read as an expression with binary operators is fit.
pub proof fn lemma_binary_fit(names: Seq<Seq<char>>, t: Seq<Tok>, y: Seq<Id>, pos: nat, min: nat)
    requires
        lexed(names, t, y),
    ensures
        binary_at(t, y, pos, min) matches Some((e, _)) ==> fit_expression(names, e),
    decreases t.len() - pos, 4nat,
{
    lemma_unary_fit(names, t, y, pos);
    match unary_at(t, y, pos) {
        Some((left, p)) => {
            if pos < p <= t.len() {
                lemma_operators_fit(names, t, y, p, left, min);
            }
        },
        None => {},
    }
}

/// What a fit expression becomes under binary operators is fit.
pub proof fn lemma_operators_fit(
    names: Seq<Seq<char>>,
    t: Seq<Tok>,
    y: Seq<Id>,
    pos: nat,
    left: Expr,
    min: nat,
)
    requires
        lexed(names, t, y),
        fit_expression(names, left),
    ensures
        fit_expression(names, operators_at(t, y, pos, left, min).0),
    decreases t.len() - pos, 0nat,
{
    match operator_at(t, pos) {
        Some(op) => {
            if precedence(op) >= min && pos < t.len() {
                lemma_binary_fit(names, t, y, pos + 1, precedence(op) + 1);
                match binary_at(t, y, pos + 1, precedence(op) + 1) {
                    Some((right, p)) => {
                        if pos + 1 < p <= t.len() {
                            lemma_operators_fit(
                                names,
                                t,
                                y,
                                p,
                                Expr::Binary { op, left: Box::new(left), right: Box::new(right) },
                                min,
                            );
                        }
                    },
                    None => {},
                }
            }
        },
        None => {},
    }
}

/// What is read as an expression is fit.
pub proof fn lemma_expression_fit(names: Seq<Seq<char>>, t: Seq<Tok>, y: Seq<Id>, pos: nat)
    requires
        lexed(names, t, y),
    ensures
        expression_at(t, y, pos) matches Some((e, _)) ==> fit_expression(names, e),
    decreases t.len() - pos, 5nat,
{
    lemma_binary_fit(names, t, y, pos, 1);
}

/// Fit expressions and one more are fit.
pub proof fn lemma_list_pushed(names: Seq<Seq<char>>, acc: Seq<Expr>, e: Expr)
    requires
        fit_list(names, acc),
        fit_expression(names, e),
    ensures
        fit_list(names, acc.push(e)),
{
    let more = acc.push(e);
    assert forall|i: int| 0 <= i < more.len() implies fit_expression(names, #[trigger] more[i]) by {
        if i < acc.len() {
            assert(more[i] == acc[i]);
        }
    }
}

/// What is read as a list of expressions, after fit expressions, is fit.
pub proof fn lemma_expressions_fit(
    names: Seq<Seq<char>>,
    t: Seq<Tok>,
    y: Seq<Id>,
    pos: nat,
    acc: Seq<Expr>,
)
    requires
        lexed(names, t, y),
        fit_list(names, acc),
    ensures
        fit_list(names, expressions_at(t, y, pos, acc).0),
    decreases t.len() - pos, 6nat,
{
    lemma_expression_fit(names, t, y, pos);
    match expression_at(t, y, pos) {
        Some((first, p)) => {
            if pos < p <= t.len() {
                lemma_list_pushed(names, acc, first);
                lemma_more_expressions_fit(names, t, y, p, acc.push(first));
            }
        },
        None => {},
    }
}

/// What is read as the rest of a list of expressions, after fit
/// expressions, is fit.
pub proof fn lemma_more_expressions_fit(
    names: Seq<Seq<char>>,
    t: Seq<Tok>,
    y: Seq<Id>,
    pos: nat,
    acc: Seq<Expr>,
)
    requires
        lexed(names, t, y),
        fit_list(names, acc),
    ensures
        fit_list(names, more_expressions_at(t, y, pos, acc).0),
    decreases t.len() - pos, 0nat,
{
    if is(t, pos, Tok::Comma) {
        lemma_expression_fit(names, t, y, pos + 1);
        match expression_at(t, y, pos + 1) {
            Some((next, p)) => {
                if pos + 1 < p <= t.len() {
                    lemma_list_pushed(names, acc, next);
                    lemma_more_expressions_fit(names, t, y, p, acc.push(next));
                }
            },
            None => {},
        }
    }
}

/// What is read as a binding is fit.
pub proof fn lemma_binding_fit(names: Seq<Seq<char>>, t: Seq<Tok>, y: Seq<Id>, pos: nat)
    requires
        lexed(names, t, y),
    ensures
        binding_at(t, y, pos) matches Some(((x, e), _)) ==> fit_id(names, x) && fit_expression(
            names,
            e,
        ),
{
    lemma_expression_fit(names, t, y, pos + 2);
}

/// Fit bindings and one more are fit.
pub proof fn lemma_bindings_pushed(names: Seq<Seq<char>>, acc: Seq<(Id, Expr)>, b: (Id, Expr))
    requires
        fit_bindings(names, acc),
        fit_id(names, b.0),
        fit_expression(names, b.1),
    ensures
        fit_bindings(names, acc.push(b)),
{
    let more = acc.push(b);
    assert forall|i: int| 0 <= i < more.len() implies fit_id(names, (#[trigger] more[i]).0)
        && fit_expression(names, more[i].1) by {
        if i < acc.len() {
            assert(more[i] == acc[i]);
        }
    }
}

/// What is read as the rest of a list of bindings, after fit bindings, is
/// fit.
pub proof fn lemma_more_bindings_fit(
    names: Seq<Seq<char>>,
    t: Seq<Tok>,
    y: Seq<Id>,
    pos: nat,
    acc: Seq<(Id, Expr)>,
)
    requires
        lexed(names, t, y),
        fit_bindings(names, acc),
    ensures
        fit_bindings(names, more_bindings_at(t, y, pos, acc).0),
    decreases t.len() - pos,
{
    if is(t, pos, Tok::Comma) {
        lemma_binding_fit(names, t, y, pos + 1);
        match binding_at(t, y, pos + 1) {
            Some((next, p)) => {
                if pos + 1 < p <= t.len() {
                    lemma_bindings_pushed(names, acc, next);
                    lemma_more_bindings_fit(names, t, y, p, acc.push(next));
                }
            },
            None => {},
        }
    }
}

/// What is read as the initializers of a `for` loop is fit.
pub proof fn lemma_initializers_fit(names: Seq<Seq<char>>, t: Seq<Tok>, y: Seq<Id>, pos: nat)
    requires
        lexed(names, t, y),
    ensures
        fit_bindings(names, initializers_at(t, y, pos).0),
{
    if is(t, pos, Tok::Var) {
        lemma_binding_fit(names, t, y, pos + 1);
        match binding_at(t, y, pos + 1) {
            Some((first, p)) => {
                if pos + 1 < p <= t.len() {
                    lemma_bindings_pushed(names, Seq::empty(), first);
                    assert(Seq::<(Id, Expr)>::empty().push(first) =~= seq![first]);
                    lemma_more_bindings_fit(names, t, y, p, seq![first]);
                }
            },
            None => {},
        }
    }
}

/// What is read as an assignment or a call is fit.
pub proof fn lemma_simple_fit(names: Seq<Seq<char>>, t: Seq<Tok>, y: Seq<Id>, pos: nat)
    requires
        lexed(names, t, y),
    ensures
        simple_at(t, y, pos) matches Some((s, _)) ==> fit_statement(names, s),
{
    lemma_expression_fit(names, t, y, pos);
    match expression_at(t, y, pos) {
        Some((e, p)) => {
            lemma_expression_fit(names, t, y, p + 1);
        },
        None => {},
    }
}

/// What is read as a block is fit.
pub proof fn lemma_block_fit(names: Seq<Seq<char>>, t: Seq<Tok>, y: Seq<Id>, pos: nat)
    requires
        lexed(names, t, y),
    ensures
        block_at(t, y, pos) matches Some((block, _)) ==> fit_block(names, block),
    decreases t.len() - pos, 1nat,
{
    if is(t, pos, Tok::LBrace) {
        lemma_statements_fit(names, t, y, pos + 1, Seq::empty());
    }
}

/// What is read as an `else` part is fit.
pub proof fn lemma_else_fit(names: Seq<Seq<char>>, t: Seq<Tok>, y: Seq<Id>, pos: nat)
    requires
        lexed(names, t, y),
    ensures
        fit_block(names, else_at(t, y, pos).0),
    decreases t.len() - pos, 2nat,
{
    if is(t, pos, Tok::Else) {
        lemma_block_fit(names, t, y, pos + 1);
    }
}

/// What is read as an `if` is fit.
pub proof fn lemma_if_fit(names: Seq<Seq<char>>, t: Seq<Tok>, y: Seq<Id>, pos: nat)
    requires
        lexed(names, t, y),
    ensures
        if_at(t, y, pos) matches Some((s, _)) ==> fit_statement(names, s),
    decreases t.len() - pos, 2nat,
{
    if is(t, pos, Tok::If) && is(t, pos + 1, Tok::LParen) {
        lemma_expression_fit(names, t, y, pos + 2);
        match expression_at(t, y, pos + 2) {
            Some((condition, p)) => {
                if is(t, p, Tok::RParen) && pos < p {
                    lemma_block_fit(names, t, y, p + 1);
                    match block_at(t, y, p + 1) {
                        Some((then, q)) => {
                            if p < q <= t.len() {
                                lemma_else_fit(names, t, y, q);
                            }
                        },
                        None => {},
                    }
                }
            },
            None => {},
        }
    }
}

/// What is read as an `if?` is fit.
pub proof fn lemma_cast_fit(names: Seq<Seq<char>>, t: Seq<Tok>, y: Seq<Id>, pos: nat)
    requires
        lexed(names, t, y),
    ensures
        cast_at(t, y, pos) matches Some((s, _)) ==> fit_statement(names, s),
    decreases t.len() - pos, 2nat,
{
    if is(t, pos, Tok::Ifq) && is(t, pos + 1, Tok::LParen) {
        lemma_type_fit(names, t, y, pos + 2);
        match reference_type_at(t, y, pos + 2) {
            Some((r, p)) => {
                lemma_binding_fit(names, t, y, p);
                match binding_at(t, y, p) {
                    Some(((name, source), q)) => {
                        if is(t, q, Tok::RParen) && pos < q {
                            lemma_block_fit(names, t, y, q + 1);
                            match block_at(t, y, q + 1) {
                                Some((then, u)) => {
                                    if q < u <= t.len() {
                                        lemma_else_fit(names, t, y, u);
                                    }
                                },
                                None => {},
                            }
                        }
                    },
                    None => {},
                }
            },
            None => {},
        }
    }
}

/// What is read as a `for` is fit.
pub proof fn lemma_for_fit(names: Seq<Seq<char>>, t: Seq<Tok>, y: Seq<Id>, pos: nat)
    requires
        lexed(names, t, y),
    ensures
        for_at(t, y, pos) matches Some((s, _)) ==> fit_statement(names, s),
    decreases t.len() - pos, 2nat,
{
    if is(t, pos, Tok::For) && is(t, pos + 1, Tok::LParen) {
        lemma_initializers_fit(names, t, y, pos + 2);
        let (init, p) = initializers_at(t, y, pos + 2);
        if is(t, p, Tok::Semi) {
            lemma_expression_fit(names, t, y, p + 1);
            let q = match expression_at(t, y, p + 1) {
                Some((c, q)) => q,
                None => p + 1,
            };
            if is(t, q, Tok::Semi) {
                lemma_simple_fit(names, t, y, q + 1);
                let u = match simple_at(t, y, q + 1) {
                    Some((stmt, u)) => u,
                    None => q + 1,
                };
                if is(t, u, Tok::RParen) && pos < u {
                    lemma_block_fit(names, t, y, u + 1);
                }
            }
        }
    }
}

/// What is read as a `while` is fit.
pub proof fn lemma_while_fit(names: Seq<Seq<char>>, t: Seq<Tok>, y: Seq<Id>, pos: nat)
    requires
        lexed(names, t, y),
    ensures
        while_at(t, y, pos) matches Some((s, _)) ==> fit_statement(names, s),
    decreases t.len() - pos, 2nat,
{
    if is(t, pos, Tok::While) && is(t, pos + 1, Tok::LParen) {
        lemma_expression_fit(names, t, y, pos + 2);
        match expression_at(t, y, pos + 2) {
            Some((condition, p)) => {
                if is(t, p, Tok::RParen) && pos < p {
                    lemma_block_fit(names, t, y, p + 1);
                }
            },
            None => {},
        }
    }
}

/// What is read as a statement is fit.
pub proof fn lemma_statement_fit(names: Seq<Seq<char>>, t: Seq<Tok>, y: Seq<Id>, pos: nat)
    requires
        lexed(names, t, y),
    ensures
        statement_at(t, y, pos) matches Some((s, _)) ==> fit_statement(names, s),
    decreases t.len() - pos, 3nat,
{
    if pos < t.len() {
        match t[pos as int] {
            Tok::Var => {
                lemma_binding_fit(names, t, y, pos + 1);
            },
            Tok::If => {
                lemma_if_fit(names, t, y, pos);
            },
            Tok::Ifq => {
                lemma_cast_fit(names, t, y, pos);
            },
            Tok::For => {
                lemma_for_fit(names, t, y, pos);
            },
            Tok::While => {
                lemma_while_fit(names, t, y, pos);
            },
            Tok::Return => {
                lemma_expression_fit(names, t, y, pos + 1);
            },
            _ => {
                lemma_simple_fit(names, t, y, pos);
            },
        }
    }
}

/// What is read as statements, after fit statements, is fit.
pub proof fn lemma_statements_fit(
    names: Seq<Seq<char>>,
    t: Seq<Tok>,
    y: Seq<Id>,
    pos: nat,
    acc: Seq<Stmt>,
)
    requires
        lexed(names, t, y),
        fit_block(names, acc),
    ensures
        fit_block(names, statements_at(t, y, pos, acc).0),
    decreases t.len() - pos, 4nat,
{
    lemma_statement_fit(names, t, y, pos);
    match statement_at(t, y, pos) {
        Some((stmt, p)) => {
            if pos < p <= t.len() {
                let more = acc.push(stmt);
                assert forall|i: int| 0 <= i < more.len() implies fit_statement(
                    names,
                    #[trigger] more[i],
                ) by {
                    if i < acc.len() {
                        assert(more[i] == acc[i]);
                    }
                }
                lemma_statements_fit(names, t, y, p, more);
            }
        },
        None => {},
    }
}

/// What is read as a typed name is fit.
pub proof fn lemma_typed_name_fit(names: Seq<Seq<char>>, t: Seq<Tok>, y: Seq<Id>, pos: nat)
    requires
        lexed(names, t, y),
    ensures
        typed_name_at(t, y, pos) matches Some(((ty, x), _)) ==> fit_type(names, ty) && fit_id(
            names,
            x,
        ),
{
    lemma_type_fit(names, t, y, pos);
}

/// What is read as the rest of a list of parameters, after fit
/// parameters, is fit.
pub proof fn lemma_more_parameters_fit(
    names: Seq<Seq<char>>,
    t: Seq<Tok>,
    y: Seq<Id>,
    pos: nat,
    acc: Seq<(Ty, Id)>,
)
    requires
        lexed(names, t, y),
        fit_parameters(names, acc),
    ensures
        fit_parameters(names, more_parameters_at(t, y, pos, acc).0),
    decreases t.len() - pos,
{
    if is(t, pos, Tok::Comma) {
        lemma_typed_name_fit(names, t, y, pos + 1);
        match typed_name_at(t, y, pos + 1) {
            Some((next, p)) => {
                if pos + 1 < p <= t.len() {
                    let more = acc.push(next);
                    assert forall|i: int| 0 <= i < more.len() implies fit_type(
                        names,
                        (#[trigger] more[i]).0,
                    ) && fit_id(names, more[i].1) by {
                        if i < acc.len() {
                            assert(more[i] == acc[i]);
                        }
                    }
                    lemma_more_parameters_fit(names, t, y, p, more);
                }
            },
            None => {},
        }
    }
}

/// What is read as the parameters of a function is fit.
pub proof fn lemma_parameters_fit(names: Seq<Seq<char>>, t: Seq<Tok>, y: Seq<Id>, pos: nat)
    requires
        lexed(names, t, y),
    ensures
        fit_parameters(names, parameters_at(t, y, pos).0),
{
    lemma_typed_name_fit(names, t, y, pos);
    match typed_name_at(t, y, pos) {
        Some((first, p)) => {
            if pos < p <= t.len() {
                lemma_more_parameters_fit(names, t, y, p, seq![first]);
            }
        },
        None => {},
    }
}

/// What is read as fields, after fit fields, is fit.
pub proof fn lemma_fields_fit(names: Seq<Seq<char>>, t: Seq<Tok>, y: Seq<Id>, pos: nat, acc: Fields)
    requires
        lexed(names, t, y),
        fit_fields(names, acc),
    ensures
        fit_fields(names, fields_at(t, y, pos, acc).0),
    decreases t.len() - pos,
{
    lemma_typed_name_fit(names, t, y, pos);
    match typed_name_at(t, y, pos) {
        Some(((ty, name), p)) => {
            if is(t, p, Tok::Semi) && pos < p {
                let more = insert_field(acc, name, ty);
                lemma_position(typecontext::names(acc), name);
                assert forall|i: int| 0 <= i < more.len() implies fit_id(
                    names,
                    (#[trigger] more[i]).0,
                ) && fit_type(names, more[i].1) by {
                    match position(typecontext::names(acc), name) {
                        Some(k) => {
                            if i != k {
                                assert(more[i] == acc[i]);
                            }
                        },
                        None => {
                            if i < acc.len() {
                                assert(more[i] == acc[i]);
                            }
                        },
                    }
                }
                lemma_fields_fit(names, t, y, p + 1, more);
            }
        },
        None => {},
    }
}

/// What is read as a declaration is fit.
pub proof fn lemma_declaration_fit(names: Seq<Seq<char>>, t: Seq<Tok>, y: Seq<Id>, pos: nat)
    requires
        lexed(names, t, y),
    ensures
        declaration_at(t, y, pos) matches Some((d, _)) ==> fit_declaration(names, d),
{
    lemma_return_fit(names, t, y, pos);
    match function_at(t, y, pos) {
        Some((f, p)) => {
            let head = return_type_at(t, y, pos)->Some_0.1;
            lemma_parameters_fit(names, t, y, head + 2);
            let (args, q) = parameters_at(t, y, head + 2);
            lemma_block_fit(names, t, y, q + 1);
        },
        None => {
            match struct_at(t, y, pos) {
                Some(r) => {
                    lemma_fields_fit(names, t, y, pos + 3, Seq::empty());
                },
                None => {
                    lemma_type_fit(names, t, y, pos + 3);
                },
            }
        },
    }
}

/// What is read as declarations, after fit declarations, is fit.
pub proof fn lemma_declarations_fit(names: Seq<Seq<char>>, t: Seq<Tok>, y: Seq<Id>, pos: nat, acc: Prog)
    requires
        lexed(names, t, y),
        fit_program(names, acc),
    ensures
        fit_program(names, declarations_at(t, y, pos, acc).0),
    decreases t.len() - pos,
{
    lemma_declaration_fit(names, t, y, pos);
    match declaration_at(t, y, pos) {
        Some((d, p)) => {
            if pos < p <= t.len() {
                let more = acc.push(d);
                assert forall|i: int| 0 <= i < more.len() implies fit_declaration(
                    names,
                    #[trigger] more[i],
                ) by {
                    if i < acc.len() {
                        assert(more[i] == acc[i]);
                    }
                }
                lemma_declarations_fit(names, t, y, p, more);
            }
        },
        None => {},
    }
}

/// An interner keeps the names that it holds, each at its place, while
/// it is given more tokens.
pub proof fn lemma_interned_grows(names: Seq<Seq<char>>, t: Seq<Tok>, i: nat, j: nat)
    requires
        i <= j <= t.len(),
    ensures
        interned(names, t, i).len() <= interned(names, t, j).len(),
        forall|k: int|
            0 <= k < interned(names, t, i).len() ==> interned(names, t, j)[k] == #[trigger] interned(
                names,
                t,
                i,
            )[k],
    decreases j,
{
    if i < j {
        lemma_interned_grows(names, t, i, (j - 1) as nat);
    }
}

/// An interner that holds no name twice holds none twice after it is
/// given tokens.
pub proof fn lemma_interned_distinct(names: Seq<Seq<char>>, t: Seq<Tok>, n: nat)
    requires
        names.no_duplicates(),
    ensures
        interned(names, t, n).no_duplicates(),
    decreases n,
{
    if n > 0 && n <= t.len() {
        lemma_interned_distinct(names, t, (n - 1) as nat);
        match t[n - 1] {
            Tok::Ident(word) => {
                lemma_intern_keeps_distinct(interned(names, t, (n - 1) as nat), word);
            },
            _ => {},
        }
    }
}

/// The symbols that an interner gives to lexable tokens stand for their
/// words among the names that it holds in the end, where those are not
/// more than there are symbols.
pub proof fn lemma_symbols_lexed(names: Seq<Seq<char>>, t: Seq<Tok>)
    requires
        all_lexable(t),
        interned(names, t, t.len()).len() <= MAX_INDEX + 1,
    ensures
        lexed(interned(names, t, t.len()), t, symbols_of(names, t)),
{
    let last = interned(names, t, t.len());
    let y = symbols_of(names, t);
    assert forall|i: int| 0 <= i < t.len() && (#[trigger] t[i]) is Ident implies fit_id(last, y[i]) by {
        let word = t[i]->Ident_0;
        let before = interned(names, t, i as nat);
        let after = interned(names, t, (i + 1) as nat);
        let place = position_of(before, word);
        assert(after == intern_names(before, word));
        if before.contains(word) {
            let k = before.index_of(word);
            assert(before[k] == word);
        }
        assert(place < after.len() && after[place as int] == word);
        lemma_interned_grows(names, t, (i + 1) as nat, t.len());
        assert(last[place as int] == after[place as int]);
        assert(symbol_index(place) == place) by {
            assert(place % 0x1_0000_0000 == place);
        }
        assert(y[i] == symbol_of(names, t, i));
        assert(lexable(t[i]));
    }
    assert forall|i: int| 0 <= i < t.len() && (#[trigger] t[i]) is Int implies t[i]->Int_0 >= 0 by {
        assert(lexable(t[i]));
    }
}

/// Parsing a text, writing the program that it spells as a text, and
/// parsing what was written gives the program of the first text. The
/// second text is parsed with the interner as the first text left it,
/// which has to hold no more names than there are symbols, and none
/// twice.
pub proof fn lemma_parse_write_parse(names: Seq<Seq<char>>, s: Seq<char>)
    requires
        names.no_duplicates(),
        names_after(names, s).len() <= MAX_INDEX + 1,
        program_of(names, s) is Ok,
    ensures
        program_of(
            names_after(names, s),
            program_text(names_after(names, s), program_of(names, s)->Ok_0),
        ) == program_of(names, s),
{
    let found = lex(s)->Ok_0;
    let t = kinds(found);
    let y = symbols_of(names, t);
    let p = program_of(names, s)->Ok_0;
    let after = names_after(names, s);
    assert(found.len() == t.len());
    assert(after == interned(names, t, t.len()));
    assert(p == declarations_at(t, y, 0, Seq::empty()).0);
    lemma_declarations_written(t, y, 0, Seq::empty());
    lemma_lexed_lexable(s);
    lemma_symbols_lexed(names, t);
    lemma_interned_distinct(names, t, t.len());
    lemma_declarations_fit(after, t, y, 0, Seq::empty());
    lemma_written_text_read(after, p);
}

} // verus!
