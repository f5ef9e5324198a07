//! Programs written as text.
//!
//! A program is written as the tokens that `program_words` gives it, and
//! tokens as the text that `tokens_text` gives them: each token is
//! followed by a blank. What is written parses to the program again.

use crate::ast::{
    bindings_view, block_view, expressions_view, fields_view, params_view, BinaryOp, Declaration,
    Expr, Expression, FieldSet, FunctionDecl, Id, Program, ReferenceType, ReturnType, Statement,
    Stmt, Type, UnaryOp,
};
use crate::lexer::{characters, push_char};
use crate::roundtrip::{program_text, tokens_of};
use crate::symbol::Interner;
use crate::text::{digit_char, digits, quoted, token_text, tokens_text};
use crate::tokens::{tokens_view, Tok, Token};
use crate::unparse::{
    binary_token, binding_words, block_words, condition_words, constant_words, declaration_words,
    declarations_words, expression_words, fields_words, function_words, ident,
    initializers_words, list_words, more_bindings_words, more_list_words, more_parameters_words,
    more_types_words, operand_words, parameters_words, parens, plain, program_words,
    reference_words, return_words, simple_words, statement_words, statements_words, target_words,
    type_words, typed_name_words, types_words, unary_token, update_words,
};
use vstd::prelude::*;
use vstd::string::StringExecFns;

verus! {

/// Whether the tokens `after` are the tokens `before`, and after them
/// the tokens `w` without their symbols.
pub open spec fn wrote(before: Seq<Token>, after: Seq<Token>, w: Seq<(Tok, Id)>) -> bool {
    tokens_view(after) == tokens_view(before) + tokens_of(w)
}

/// Writing one piece after another is writing the two.
pub proof fn lemma_wrote_more(
    a: Seq<Token>,
    b: Seq<Token>,
    c: Seq<Token>,
    first: Seq<(Tok, Id)>,
    second: Seq<(Tok, Id)>,
)
    requires
        wrote(a, b, first),
        wrote(b, c, second),
    ensures
        wrote(a, c, first + second),
{
    assert(tokens_of(first + second) =~= tokens_of(first) + tokens_of(second));
    assert(tokens_view(a) + (tokens_of(first) + tokens_of(second)) =~= (tokens_view(a) + tokens_of(
        first,
    )) + tokens_of(second));
}

/// Writing nothing leaves the tokens as they are.
pub proof fn lemma_wrote_nothing(a: Seq<Token>)
    ensures
        wrote(a, a, Seq::empty()),
{
    assert(tokens_view(a) + tokens_of(Seq::empty()) =~= tokens_view(a));
}

/// Writes a token that is no identifier.
fn put(out: &mut Vec<Token>, token: Token)
    requires
        !(token@ is Ident),
    ensures
        wrote(old(out)@, final(out)@, seq![plain(token@)]),
{
    let ghost k = token@;
    let ghost before = tokens_view(out@);
    out.push(token);
    assert(tokens_view(out@) =~= before + tokens_of(seq![plain(k)]));
}

/// Writes an identifier as the interner spells it.
fn put_identifier(out: &mut Vec<Token>, x: Id, interner: &Interner)
    ensures
        wrote(old(out)@, final(out)@, seq![ident(interner@, x)]),
{
    let ghost before = tokens_view(out@);
    let mut word = String::new();
    match interner.lookup(x) {
        Some(name) => {
            word.append(name);
            assert(word@ =~= interner@[x.index as int]);
        },
        None => {},
    }
    out.push(Token::Ident(word));
    assert(tokens_view(out@) =~= before + tokens_of(seq![ident(interner@, x)]));
}

/// Writes a type.
pub fn write_type(t: &Type, interner: &Interner, out: &mut Vec<Token>)
    ensures
        wrote(old(out)@, final(out)@, type_words(interner@, t@)),
    decreases t,
{
    match t {
        Type::Bool => {
            put(out, Token::TBool);
        },
        Type::Int => {
            put(out, Token::TInt);
        },
        Type::Ref(r) => {
            write_reference(r, interner, out);
        },
        Type::NullRef(r) => {
            let ghost a = out@;
            write_reference(r, interner, out);
            let ghost b = out@;
            put(out, Token::Question);
            proof {
                let w = reference_words(interner@, r@);
                lemma_wrote_more(a, b, out@, w, seq![plain(Tok::Question)]);
                assert(w + seq![plain(Tok::Question)] =~= w.push(plain(Tok::Question)));
            }
        },
    }
}

/// Writes a reference type.
pub fn write_reference(r: &ReferenceType, interner: &Interner, out: &mut Vec<Token>)
    ensures
        wrote(old(out)@, final(out)@, reference_words(interner@, r@)),
    decreases r,
{
    let ghost names = interner@;
    let ghost start = out@;
    match r {
        ReferenceType::String => {
            put(out, Token::TString);
        },
        ReferenceType::Struct(x) => {
            put_identifier(out, *x, interner);
        },
        ReferenceType::Array(element) => {
            write_type(element, interner, out);
            let ghost b = out@;
            put(out, Token::LBracket);
            let ghost c = out@;
            put(out, Token::RBracket);
            proof {
                let w = type_words(names, element@);
                lemma_wrote_more(start, b, c, w, seq![plain(Tok::LBracket)]);
                lemma_wrote_more(
                    start,
                    c,
                    out@,
                    w + seq![plain(Tok::LBracket)],
                    seq![plain(Tok::RBracket)],
                );
                assert((w + seq![plain(Tok::LBracket)]) + seq![plain(Tok::RBracket)] =~= w + seq![
                    plain(Tok::LBracket),
                    plain(Tok::RBracket),
                ]);
            }
        },
        ReferenceType::Function(args, ret) => {
            let ghost types = r@->Function_0;
            put(out, Token::LParen);
            let ghost b = out@;
            put(out, Token::LParen);
            let ghost mut w: Seq<(Tok, Id)> = seq![plain(Tok::LParen), plain(Tok::LParen)];
            proof {
                lemma_wrote_more(start, b, out@, seq![plain(Tok::LParen)], seq![plain(Tok::LParen)]);
                assert(seq![plain(Tok::LParen)] + seq![plain(Tok::LParen)] =~= w);
            }
            let ghost open = w;
            let mut i: usize = 0;
            if args.len() > 0 {
                assert(decreases_to!(r => r->Function_0[0]));
                assert(types[0] == args@[0]@);
                let ghost c = out@;
                write_type(&args[0], interner, out);
                proof {
                    lemma_wrote_more(start, c, out@, w, type_words(names, types[0]));
                    w = w + type_words(names, types[0]);
                }
                i = 1;
            }
            assert(w + more_types_words(names, types, i as nat) =~= open + types_words(names, types));
            while i < args.len()
                invariant
                    1 <= i <= args.len() || args.len() == 0 && i == 0,
                    names == interner@,
                    *r == ReferenceType::Function(*args, *ret),
                    types == r@->Function_0,
                    types.len() == args.len(),
                    wrote(start, out@, w),
                    w + more_types_words(names, types, i as nat) == open + types_words(names, types),
                decreases args.len() - i,
            {
                assert(decreases_to!(r => r->Function_0[i as int]));
                assert(types[i as int] == args@[i as int]@);
                let ghost c = out@;
                put(out, Token::Comma);
                let ghost d = out@;
                write_type(&args[i], interner, out);
                proof {
                    let here = type_words(names, types[i as int]);
                    lemma_wrote_more(start, c, d, w, seq![plain(Tok::Comma)]);
                    lemma_wrote_more(start, d, out@, w + seq![plain(Tok::Comma)], here);
                    let next = (w + seq![plain(Tok::Comma)]) + here;
                    assert(next + more_types_words(names, types, (i + 1) as nat) =~= w
                        + more_types_words(names, types, i as nat));
                    w = next;
                }
                i += 1;
            }
            assert(more_types_words(names, types, i as nat) =~= Seq::empty());
            assert(w =~= open + types_words(names, types));
            let ghost c = out@;
            put(out, Token::RParen);
            let ghost d = out@;
            put(out, Token::Arrow);
            let ghost e = out@;
            write_return(ret, interner, out);
            let ghost f = out@;
            put(out, Token::RParen);
            proof {
                let result = return_words(names, ret@);
                lemma_wrote_more(start, c, d, w, seq![plain(Tok::RParen)]);
                lemma_wrote_more(start, d, e, w + seq![plain(Tok::RParen)], seq![plain(Tok::Arrow)]);
                let upto = (w + seq![plain(Tok::RParen)]) + seq![plain(Tok::Arrow)];
                lemma_wrote_more(start, e, f, upto, result);
                lemma_wrote_more(start, f, out@, upto + result, seq![plain(Tok::RParen)]);
                assert((upto + result) + seq![plain(Tok::RParen)] =~= reference_words(names, r@));
            }
        },
    }
}

/// Writes a return type.
pub fn write_return(r: &ReturnType, interner: &Interner, out: &mut Vec<Token>)
    ensures
        wrote(old(out)@, final(out)@, return_words(interner@, r@)),
    decreases r,
{
    match r {
        ReturnType::ReturnVoid => {
            put(out, Token::TVoid);
        },
        ReturnType::ReturnValue(t) => {
            write_type(t, interner, out);
        },
    }
}

/// The token of a binary operator.
fn binary_operator_token(op: BinaryOp) -> (token: Token)
    ensures
        token@ == binary_token(op),
{
    match op {
        BinaryOp::Add => Token::Plus,
        BinaryOp::Sub => Token::Dash,
        BinaryOp::Mul => Token::Star,
        BinaryOp::Eq => Token::Eqeq,
        BinaryOp::Neq => Token::BangEq,
        BinaryOp::Lt => Token::Lt,
        BinaryOp::Lte => Token::Lteq,
        BinaryOp::Gt => Token::Gt,
        BinaryOp::Gte => Token::Gteq,
        BinaryOp::And => Token::Ampersand,
        BinaryOp::Or => Token::Bar,
        BinaryOp::IAnd => Token::IAnd,
        BinaryOp::IOr => Token::IOr,
        BinaryOp::Shl => Token::Ltlt,
        BinaryOp::Shr => Token::Gtgt,
        BinaryOp::Sar => Token::Gtgtgt,
    }
}

/// The token of a unary operator.
fn unary_operator_token(op: UnaryOp) -> (token: Token)
    ensures
        token@ == unary_token(op),
{
    match op {
        UnaryOp::Neg => Token::Dash,
        UnaryOp::Lognot => Token::Bang,
        UnaryOp::Bitnot => Token::Tilde,
    }
}

/// Writes a token that is no identifier after what was written since
/// `start`.
fn then_put(out: &mut Vec<Token>, token: Token, Ghost(start): Ghost<Seq<Token>>, Ghost(w): Ghost<
    Seq<(Tok, Id)>,
>)
    requires
        !(token@ is Ident),
        wrote(start, old(out)@, w),
    ensures
        wrote(start, final(out)@, w.push(plain(token@))),
{
    let ghost k = token@;
    let ghost before = out@;
    put(out, token);
    proof {
        lemma_wrote_more(start, before, out@, w, seq![plain(k)]);
        assert(w + seq![plain(k)] =~= w.push(plain(k)));
    }
}

/// Writes a list of expressions, with commas between them.
pub fn write_list(list: &Vec<Expression>, interner: &Interner, out: &mut Vec<Token>)
    ensures
        wrote(old(out)@, final(out)@, list_words(interner@, expressions_view(list@))),
    decreases list, 0nat,
{
    let ghost names = interner@;
    let ghost start = out@;
    let ghost items = expressions_view(list@);
    let ghost mut w: Seq<(Tok, Id)> = Seq::empty();
    proof {
        lemma_wrote_nothing(start);
    }
    let mut i: usize = 0;
    if list.len() > 0 {
        assert(decreases_to!(*list => list[0]));
        write_expression(&list[0], interner, out);
        proof {
            w = expression_words(names, items[0]);
        }
        i = 1;
    }
    assert(w + more_list_words(names, items, i as nat) =~= list_words(names, items));
    while i < list.len()
        invariant
            1 <= i <= list.len() || list.len() == 0 && i == 0,
            names == interner@,
            items == expressions_view(list@),
            wrote(start, out@, w),
            w + more_list_words(names, items, i as nat) == list_words(names, items),
        decreases list.len() - i,
    {
        assert(decreases_to!(*list => list[i as int]));
        then_put(out, Token::Comma, Ghost(start), Ghost(w));
        let ghost c = out@;
        write_expression(&list[i], interner, out);
        proof {
            let here = expression_words(names, items[i as int]);
            lemma_wrote_more(start, c, out@, w.push(plain(Tok::Comma)), here);
            let next = w.push(plain(Tok::Comma)) + here;
            assert(next + more_list_words(names, items, (i + 1) as nat) =~= w + more_list_words(
                names,
                items,
                i as nat,
            ));
            w = next;
        }
        i += 1;
    }
    assert(more_list_words(names, items, i as nat) =~= Seq::empty());
    assert(w =~= list_words(names, items));
}

/// Writes an expression that a suffix follows: in parentheses where it is
/// an operation.
pub fn write_target(e: &Expression, interner: &Interner, out: &mut Vec<Token>)
    ensures
        wrote(old(out)@, final(out)@, target_words(interner@, e@)),
    decreases e, 2nat,
{
    let ghost start = out@;
    match e {
        Expression::Binary { .. } | Expression::Unary(_, _) => {
            put(out, Token::LParen);
            let ghost b = out@;
            write_expression(e, interner, out);
            proof {
                lemma_wrote_more(
                    start,
                    b,
                    out@,
                    seq![plain(Tok::LParen)],
                    expression_words(interner@, e@),
                );
            }
            let ghost w = seq![plain(Tok::LParen)] + expression_words(interner@, e@);
            then_put(out, Token::RParen, Ghost(start), Ghost(w));
            assert(w.push(plain(Tok::RParen)) =~= parens(expression_words(interner@, e@)));
        },
        _ => {
            write_expression(e, interner, out);
        },
    }
}

/// Writes an operand: in parentheses where it is a binary operation.
pub fn write_operand(e: &Expression, interner: &Interner, out: &mut Vec<Token>)
    ensures
        wrote(old(out)@, final(out)@, operand_words(interner@, e@)),
    decreases e, 2nat,
{
    let ghost start = out@;
    match e {
        Expression::Binary { .. } => {
            put(out, Token::LParen);
            let ghost b = out@;
            write_expression(e, interner, out);
            proof {
                lemma_wrote_more(
                    start,
                    b,
                    out@,
                    seq![plain(Tok::LParen)],
                    expression_words(interner@, e@),
                );
            }
            let ghost w = seq![plain(Tok::LParen)] + expression_words(interner@, e@);
            then_put(out, Token::RParen, Ghost(start), Ghost(w));
            assert(w.push(plain(Tok::RParen)) =~= parens(expression_words(interner@, e@)));
        },
        _ => {
            write_expression(e, interner, out);
        },
    }
}

/// Writes an expression. Of a struct literal nothing is written.
pub fn write_expression(e: &Expression, interner: &Interner, out: &mut Vec<Token>)
    ensures
        wrote(old(out)@, final(out)@, expression_words(interner@, e@)),
    decreases e, 1nat,
{
    let ghost names = interner@;
    let ghost start = out@;
    match e {
        Expression::CNull(r) => {
            write_reference(r, interner, out);
            then_put(out, Token::Null, Ghost(start), Ghost(reference_words(names, r@)));
        },
        Expression::CBool(b) => {
            if *b {
                put(out, Token::True);
            } else {
                put(out, Token::False);
            }
        },
        Expression::CInt(v) => {
            put(out, Token::Int(*v));
        },
        Expression::CStr(text) => {
            put(out, Token::String(text.clone()));
        },
        Expression::Id(x) => {
            put_identifier(out, *x, interner);
        },
        Expression::CArr(t, elements) => {
            let ghost items = e@->CArr_1;
            assert(items =~= expressions_view(elements@));
            put(out, Token::New);
            let ghost b = out@;
            write_type(t, interner, out);
            let ghost w1 = seq![plain(Tok::New)] + type_words(names, t@);
            proof {
                lemma_wrote_more(start, b, out@, seq![plain(Tok::New)], type_words(names, t@));
            }
            then_put(out, Token::LBracket, Ghost(start), Ghost(w1));
            then_put(out, Token::RBracket, Ghost(start), Ghost(w1.push(plain(Tok::LBracket))));
            let ghost w2 = w1.push(plain(Tok::LBracket)).push(plain(Tok::RBracket));
            then_put(out, Token::LBrace, Ghost(start), Ghost(w2));
            let ghost c = out@;
            write_list(elements, interner, out);
            let ghost w3 = w2.push(plain(Tok::LBrace)) + list_words(names, items);
            proof {
                lemma_wrote_more(start, c, out@, w2.push(plain(Tok::LBrace)), list_words(names, items));
            }
            then_put(out, Token::RBrace, Ghost(start), Ghost(w3));
            assert(w3.push(plain(Tok::RBrace)) =~= expression_words(names, e@));
        },
        Expression::NewArr(t, length) => {
            put(out, Token::New);
            let ghost b = out@;
            write_type(t, interner, out);
            let ghost w1 = seq![plain(Tok::New)] + type_words(names, t@);
            proof {
                lemma_wrote_more(start, b, out@, seq![plain(Tok::New)], type_words(names, t@));
            }
            then_put(out, Token::LBracket, Ghost(start), Ghost(w1));
            let ghost c = out@;
            write_expression(length, interner, out);
            let ghost w2 = w1.push(plain(Tok::LBracket)) + expression_words(names, length@);
            proof {
                lemma_wrote_more(
                    start,
                    c,
                    out@,
                    w1.push(plain(Tok::LBracket)),
                    expression_words(names, length@),
                );
            }
            then_put(out, Token::RBracket, Ghost(start), Ghost(w2));
            assert(w2.push(plain(Tok::RBracket)) =~= expression_words(names, e@));
        },
        Expression::Index { value, index } => {
            write_target(value, interner, out);
            let ghost w1 = target_words(names, value@);
            then_put(out, Token::LBracket, Ghost(start), Ghost(w1));
            let ghost c = out@;
            write_expression(index, interner, out);
            let ghost w2 = w1.push(plain(Tok::LBracket)) + expression_words(names, index@);
            proof {
                lemma_wrote_more(
                    start,
                    c,
                    out@,
                    w1.push(plain(Tok::LBracket)),
                    expression_words(names, index@),
                );
            }
            then_put(out, Token::RBracket, Ghost(start), Ghost(w2));
            assert(w2.push(plain(Tok::RBracket)) =~= expression_words(names, e@));
        },
        Expression::Length(array) => {
            put(out, Token::Length);
            let ghost w0 = seq![plain(Tok::Length)];
            then_put(out, Token::LParen, Ghost(start), Ghost(w0));
            let ghost w1 = w0.push(plain(Tok::LParen));
            let ghost c = out@;
            write_expression(array, interner, out);
            let ghost w2 = w1 + expression_words(names, array@);
            proof {
                lemma_wrote_more(start, c, out@, w1, expression_words(names, array@));
            }
            then_put(out, Token::RParen, Ghost(start), Ghost(w2));
            assert(w2.push(plain(Tok::RParen)) =~= expression_words(names, e@));
        },
        Expression::CStruct(_, _) => {
            proof {
                lemma_wrote_nothing(start);
            }
        },
        Expression::Proj(object, field) => {
            write_target(object, interner, out);
            let ghost w1 = target_words(names, object@);
            then_put(out, Token::Dot, Ghost(start), Ghost(w1));
            let ghost c = out@;
            put_identifier(out, *field, interner);
            proof {
                lemma_wrote_more(start, c, out@, w1.push(plain(Tok::Dot)), seq![ident(names, *field)]);
                assert(w1.push(plain(Tok::Dot)) + seq![ident(names, *field)] =~= expression_words(
                    names,
                    e@,
                ));
            }
        },
        Expression::Call(callee, args) => {
            let ghost items = e@->Call_1;
            assert(items =~= expressions_view(args@));
            write_target(callee, interner, out);
            let ghost w1 = target_words(names, callee@);
            then_put(out, Token::LParen, Ghost(start), Ghost(w1));
            let ghost c = out@;
            write_list(args, interner, out);
            let ghost w2 = w1.push(plain(Tok::LParen)) + list_words(names, items);
            proof {
                lemma_wrote_more(start, c, out@, w1.push(plain(Tok::LParen)), list_words(names, items));
            }
            then_put(out, Token::RParen, Ghost(start), Ghost(w2));
            assert(w2.push(plain(Tok::RParen)) =~= expression_words(names, e@));
        },
        Expression::Binary { op, left, right } => {
            write_operand(left, interner, out);
            let ghost w1 = operand_words(names, left@);
            then_put(out, binary_operator_token(*op), Ghost(start), Ghost(w1));
            let ghost c = out@;
            write_operand(right, interner, out);
            proof {
                lemma_wrote_more(
                    start,
                    c,
                    out@,
                    w1.push(plain(binary_token(*op))),
                    operand_words(names, right@),
                );
                assert(w1.push(plain(binary_token(*op))) + operand_words(names, right@)
                    =~= expression_words(names, e@));
            }
        },
        Expression::Unary(op, operand) => {
            put(out, unary_operator_token(*op));
            let ghost c = out@;
            write_operand(operand, interner, out);
            proof {
                lemma_wrote_more(
                    start,
                    c,
                    out@,
                    seq![plain(unary_token(*op))],
                    operand_words(names, operand@),
                );
            }
        },
    }
}

/// Writes a binding `id = e`.
fn write_binding(x: Id, e: &Expression, interner: &Interner, out: &mut Vec<Token>)
    ensures
        wrote(old(out)@, final(out)@, binding_words(interner@, x, e@)),
{
    let ghost names = interner@;
    let ghost start = out@;
    put_identifier(out, x, interner);
    let ghost w0 = seq![ident(names, x)];
    then_put(out, Token::Eq, Ghost(start), Ghost(w0));
    let ghost c = out@;
    write_expression(e, interner, out);
    proof {
        lemma_wrote_more(start, c, out@, w0.push(plain(Tok::Eq)), expression_words(names, e@));
        assert(w0.push(plain(Tok::Eq)) + expression_words(names, e@) =~= binding_words(names, x, e@));
    }
}

/// Writes the initializers of a `for` loop.
fn write_initializers(list: &Vec<(Id, Expression)>, interner: &Interner, out: &mut Vec<Token>)
    ensures
        wrote(old(out)@, final(out)@, initializers_words(interner@, bindings_view(list@))),
{
    let ghost names = interner@;
    let ghost start = out@;
    let ghost items = bindings_view(list@);
    let ghost mut w: Seq<(Tok, Id)> = Seq::empty();
    proof {
        lemma_wrote_nothing(start);
    }
    let mut i: usize = 0;
    if list.len() > 0 {
        put(out, Token::Var);
        let ghost c = out@;
        write_binding(list[0].0, &list[0].1, interner, out);
        proof {
            let here = binding_words(names, items[0].0, items[0].1);
            lemma_wrote_more(start, c, out@, seq![plain(Tok::Var)], here);
            w = seq![plain(Tok::Var)] + here;
        }
        i = 1;
    }
    assert(w + more_bindings_words(names, items, i as nat) =~= initializers_words(names, items));
    while i < list.len()
        invariant
            1 <= i <= list.len() || list.len() == 0 && i == 0,
            names == interner@,
            items == bindings_view(list@),
            wrote(start, out@, w),
            w + more_bindings_words(names, items, i as nat) == initializers_words(names, items),
        decreases list.len() - i,
    {
        then_put(out, Token::Comma, Ghost(start), Ghost(w));
        let ghost c = out@;
        write_binding(list[i].0, &list[i].1, interner, out);
        proof {
            let here = binding_words(names, items[i as int].0, items[i as int].1);
            lemma_wrote_more(start, c, out@, w.push(plain(Tok::Comma)), here);
            let next = w.push(plain(Tok::Comma)) + here;
            assert(next + more_bindings_words(names, items, (i + 1) as nat) =~= w
                + more_bindings_words(names, items, i as nat));
            w = next;
        }
        i += 1;
    }
    assert(more_bindings_words(names, items, i as nat) =~= Seq::empty());
    assert(w =~= initializers_words(names, items));
}

/// Writes an assignment or a call without the `;` that ends it as a
/// statement. Of another statement nothing is written.
fn write_simple(s: &Statement, interner: &Interner, out: &mut Vec<Token>)
    ensures
        wrote(old(out)@, final(out)@, simple_words(interner@, s@)),
{
    let ghost names = interner@;
    let ghost start = out@;
    match s {
        Statement::Assignment(target, value) => {
            write_expression(target, interner, out);
            let ghost w1 = expression_words(names, target@);
            then_put(out, Token::Eq, Ghost(start), Ghost(w1));
            let ghost c = out@;
            write_expression(value, interner, out);
            proof {
                lemma_wrote_more(start, c, out@, w1.push(plain(Tok::Eq)), expression_words(names, value@));
                assert(w1.push(plain(Tok::Eq)) + expression_words(names, value@) =~= simple_words(
                    names,
                    s@,
                ));
            }
        },
        Statement::SCall(callee, args) => {
            let ghost items = expressions_view(args@);
            write_target(callee, interner, out);
            let ghost w1 = target_words(names, callee@);
            then_put(out, Token::LParen, Ghost(start), Ghost(w1));
            let ghost c = out@;
            write_list(args, interner, out);
            let ghost w2 = w1.push(plain(Tok::LParen)) + list_words(names, items);
            proof {
                lemma_wrote_more(start, c, out@, w1.push(plain(Tok::LParen)), list_words(names, items));
            }
            then_put(out, Token::RParen, Ghost(start), Ghost(w2));
            assert(w2.push(plain(Tok::RParen)) =~= expression_words(
                names,
                Expr::Call(Box::new(callee@), items),
            ));
        },
        _ => {
            proof {
                lemma_wrote_nothing(start);
            }
        },
    }
}

/// Writes a block: its statements in braces.
pub fn write_block(block: &Vec<Statement>, interner: &Interner, out: &mut Vec<Token>)
    ensures
        wrote(old(out)@, final(out)@, block_words(interner@, block_view(block@))),
    decreases block, 0nat,
{
    let ghost names = interner@;
    let ghost start = out@;
    let ghost stmts = block_view(block@);
    put(out, Token::LBrace);
    let ghost mut w: Seq<(Tok, Id)> = seq![plain(Tok::LBrace)];
    let ghost open = w;
    let mut i: usize = 0;
    while i < block.len()
        invariant
            i <= block.len(),
            names == interner@,
            stmts == block_view(block@),
            wrote(start, out@, w),
            w + statements_words(names, stmts, i as nat) == open + statements_words(names, stmts, 0),
        decreases block.len() - i,
    {
        assert(decreases_to!(*block => block[i as int]));
        let ghost c = out@;
        write_statement(&block[i], interner, out);
        proof {
            let here = statement_words(names, stmts[i as int]);
            lemma_wrote_more(start, c, out@, w, here);
            assert((w + here) + statements_words(names, stmts, (i + 1) as nat) =~= w
                + statements_words(names, stmts, i as nat));
            w = w + here;
        }
        i += 1;
    }
    assert(statements_words(names, stmts, i as nat) =~= Seq::empty());
    assert(w =~= open + statements_words(names, stmts, 0));
    then_put(out, Token::RBrace, Ghost(start), Ghost(w));
    assert(w.push(plain(Tok::RBrace)) =~= block_words(names, stmts));
}

/// The two blocks of a conditional.
pub open spec fn branches_of(s: Stmt) -> (Seq<Stmt>, Seq<Stmt>) {
    match s {
        Stmt::If { condition, then, else_ } => (then, else_),
        Stmt::Cast(_, _, _, then, else_) => (then, else_),
        _ => (Seq::empty(), Seq::empty()),
    }
}

/// Writes the two blocks of a conditional, with `else` between them,
/// after what was written since `start`.
fn write_branches(
    s: &Statement,
    interner: &Interner,
    out: &mut Vec<Token>,
    Ghost(start): Ghost<Seq<Token>>,
    Ghost(w): Ghost<Seq<(Tok, Id)>>,
)
    requires
        s is If || s is Cast,
        wrote(start, old(out)@, w),
    ensures
        wrote(
            start,
            final(out)@,
            w + block_words(interner@, branches_of(s@).0) + seq![plain(Tok::Else)] + block_words(
                interner@,
                branches_of(s@).1,
            ),
        ),
    decreases s, 0nat,
{
    let ghost names = interner@;
    let ghost b = out@;
    let (then, else_) = match s {
        Statement::If { condition, then, else_ } => {
            assert(s@->If_then =~= block_view(then@));
            assert(s@->If_else_ =~= block_view(else_@));
            assert(decreases_to!(s => s->If_then));
            assert(decreases_to!(s => s->If_else_));
            (then, else_)
        },
        Statement::Cast(_, _, _, then, else_) => {
            assert(s@->Cast_3 =~= block_view(then@));
            assert(s@->Cast_4 =~= block_view(else_@));
            assert(decreases_to!(s => s->Cast_3));
            assert(decreases_to!(s => s->Cast_4));
            (then, else_)
        },
        _ => vstd::pervasive::unreached(),
    };
    write_block(then, interner, out);
    let ghost w1 = w + block_words(names, block_view(then@));
    proof {
        lemma_wrote_more(start, b, out@, w, block_words(names, block_view(then@)));
    }
    then_put(out, Token::Else, Ghost(start), Ghost(w1));
    let ghost c = out@;
    write_block(else_, interner, out);
    proof {
        lemma_wrote_more(start, c, out@, w1.push(plain(Tok::Else)), block_words(names, block_view(else_@)));
        assert(w1.push(plain(Tok::Else)) + block_words(names, block_view(else_@)) =~= w
            + block_words(names, block_view(then@)) + seq![plain(Tok::Else)] + block_words(
            names,
            block_view(else_@),
        ));
    }
}

/// Writes an `if`.
fn write_if(s: &Statement, interner: &Interner, out: &mut Vec<Token>)
    requires
        s is If,
    ensures
        wrote(old(out)@, final(out)@, statement_words(interner@, s@)),
    decreases s, 1nat,
{
    let ghost names = interner@;
    let ghost start = out@;
    match s {
        Statement::If { condition, then, else_ } => {
            assert(s@->If_then =~= block_view(then@));
            assert(s@->If_else_ =~= block_view(else_@));
            put(out, Token::If);
            let ghost w0 = seq![plain(Tok::If)];
            then_put(out, Token::LParen, Ghost(start), Ghost(w0));
            let ghost c = out@;
            write_expression(condition, interner, out);
            let ghost w1 = w0.push(plain(Tok::LParen)) + expression_words(names, condition@);
            proof {
                lemma_wrote_more(
                    start,
                    c,
                    out@,
                    w0.push(plain(Tok::LParen)),
                    expression_words(names, condition@),
                );
            }
            then_put(out, Token::RParen, Ghost(start), Ghost(w1));
            let ghost w2 = w1.push(plain(Tok::RParen));
            write_branches(s, interner, out, Ghost(start), Ghost(w2));
            assert(w1.push(plain(Tok::RParen)) + block_words(names, block_view(then@)) + seq![
                plain(Tok::Else),
            ] + block_words(names, block_view(else_@)) =~= statement_words(names, s@));
        },
        _ => {
            vstd::pervasive::unreached::<()>();
        },
    }
}

/// Writes an `if?`.
fn write_cast(s: &Statement, interner: &Interner, out: &mut Vec<Token>)
    requires
        s is Cast,
    ensures
        wrote(old(out)@, final(out)@, statement_words(interner@, s@)),
    decreases s, 1nat,
{
    let ghost names = interner@;
    let ghost start = out@;
    match s {
        Statement::Cast(r, x, source, then, else_) => {
            assert(s@->Cast_3 =~= block_view(then@));
            assert(s@->Cast_4 =~= block_view(else_@));
            put(out, Token::Ifq);
            let ghost w0 = seq![plain(Tok::Ifq)];
            then_put(out, Token::LParen, Ghost(start), Ghost(w0));
            let ghost c = out@;
            write_reference(r, interner, out);
            let ghost w1 = w0.push(plain(Tok::LParen)) + reference_words(names, r@);
            proof {
                lemma_wrote_more(start, c, out@, w0.push(plain(Tok::LParen)), reference_words(names, r@));
            }
            let ghost d = out@;
            write_binding(*x, source, interner, out);
            let ghost w2 = w1 + binding_words(names, *x, source@);
            proof {
                lemma_wrote_more(start, d, out@, w1, binding_words(names, *x, source@));
            }
            then_put(out, Token::RParen, Ghost(start), Ghost(w2));
            let ghost w3 = w2.push(plain(Tok::RParen));
            write_branches(s, interner, out, Ghost(start), Ghost(w3));
            assert(w2.push(plain(Tok::RParen)) + block_words(names, block_view(then@)) + seq![
                plain(Tok::Else),
            ] + block_words(names, block_view(else_@)) =~= statement_words(names, s@));
        },
        _ => {
            vstd::pervasive::unreached::<()>();
        },
    }
}

/// Writes a `for`.
fn write_for(s: &Statement, interner: &Interner, out: &mut Vec<Token>)
    requires
        s is For,
    ensures
        wrote(old(out)@, final(out)@, statement_words(interner@, s@)),
    decreases s, 1nat,
{
    let ghost names = interner@;
    let ghost start = out@;
    match s {
        Statement::For { init, condition, update, body } => {
            assert(s@->For_body =~= block_view(body@));
            put(out, Token::For);
            let ghost w0 = seq![plain(Tok::For)];
            then_put(out, Token::LParen, Ghost(start), Ghost(w0));
            let ghost c = out@;
            write_initializers(init, interner, out);
            let ghost w1 = w0.push(plain(Tok::LParen)) + initializers_words(names, bindings_view(init@));
            proof {
                lemma_wrote_more(
                    start,
                    c,
                    out@,
                    w0.push(plain(Tok::LParen)),
                    initializers_words(names, bindings_view(init@)),
                );
            }
            then_put(out, Token::Semi, Ghost(start), Ghost(w1));
            let ghost w2 = w1.push(plain(Tok::Semi)) + condition_words(names, s@->For_condition);
            let ghost d = out@;
            match condition {
                Some(e) => {
                    write_expression(e, interner, out);
                },
                None => {
                    proof {
                        lemma_wrote_nothing(d);
                    }
                },
            }
            proof {
                lemma_wrote_more(start, d, out@, w1.push(plain(Tok::Semi)), condition_words(names, s@->For_condition));
            }
            then_put(out, Token::Semi, Ghost(start), Ghost(w2));
            let ghost w3 = w2.push(plain(Tok::Semi)) + update_words(names, s@->For_update);
            let ghost f = out@;
            match update {
                Some(u) => {
                    write_simple(u, interner, out);
                },
                None => {
                    proof {
                        lemma_wrote_nothing(f);
                    }
                },
            }
            proof {
                lemma_wrote_more(start, f, out@, w2.push(plain(Tok::Semi)), update_words(names, s@->For_update));
            }
            then_put(out, Token::RParen, Ghost(start), Ghost(w3));
            let ghost g = out@;
            assert(decreases_to!(s => s->For_body));
            write_block(body, interner, out);
            proof {
                lemma_wrote_more(start, g, out@, w3.push(plain(Tok::RParen)), block_words(names, block_view(body@)));
                assert(w3.push(plain(Tok::RParen)) + block_words(names, block_view(body@))
                    =~= statement_words(names, s@));
            }
        },
        _ => {
            vstd::pervasive::unreached::<()>();
        },
    }
}

/// Writes a `while`.
fn write_while(s: &Statement, interner: &Interner, out: &mut Vec<Token>)
    requires
        s is While,
    ensures
        wrote(old(out)@, final(out)@, statement_words(interner@, s@)),
    decreases s, 1nat,
{
    let ghost names = interner@;
    let ghost start = out@;
    match s {
        Statement::While { condition, body } => {
            assert(s@->While_body =~= block_view(body@));
            put(out, Token::While);
            let ghost w0 = seq![plain(Tok::While)];
            then_put(out, Token::LParen, Ghost(start), Ghost(w0));
            let ghost c = out@;
            write_expression(condition, interner, out);
            let ghost w1 = w0.push(plain(Tok::LParen)) + expression_words(names, condition@);
            proof {
                lemma_wrote_more(
                    start,
                    c,
                    out@,
                    w0.push(plain(Tok::LParen)),
                    expression_words(names, condition@),
                );
            }
            then_put(out, Token::RParen, Ghost(start), Ghost(w1));
            let ghost g = out@;
            assert(decreases_to!(s => s->While_body));
            write_block(body, interner, out);
            proof {
                lemma_wrote_more(start, g, out@, w1.push(plain(Tok::RParen)), block_words(names, block_view(body@)));
                assert(w1.push(plain(Tok::RParen)) + block_words(names, block_view(body@))
                    =~= statement_words(names, s@));
            }
        },
        _ => {
            vstd::pervasive::unreached::<()>();
        },
    }
}

/// Writes a statement.
pub fn write_statement(s: &Statement, interner: &Interner, out: &mut Vec<Token>)
    ensures
        wrote(old(out)@, final(out)@, statement_words(interner@, s@)),
    decreases s, 2nat,
{
    let ghost names = interner@;
    let ghost start = out@;
    match s {
        Statement::Assignment(_, _) | Statement::SCall(_, _) => {
            write_simple(s, interner, out);
            then_put(out, Token::Semi, Ghost(start), Ghost(simple_words(names, s@)));
        },
        Statement::Declaration(x, init) => {
            put(out, Token::Var);
            let ghost c = out@;
            write_binding(*x, init, interner, out);
            let ghost w1 = seq![plain(Tok::Var)] + binding_words(names, *x, init@);
            proof {
                lemma_wrote_more(start, c, out@, seq![plain(Tok::Var)], binding_words(names, *x, init@));
            }
            then_put(out, Token::Semi, Ghost(start), Ghost(w1));
            assert(w1.push(plain(Tok::Semi)) =~= statement_words(names, s@));
        },
        Statement::If { .. } => {
            write_if(s, interner, out);
        },
        Statement::Cast(_, _, _, _, _) => {
            write_cast(s, interner, out);
        },
        Statement::For { .. } => {
            write_for(s, interner, out);
        },
        Statement::While { .. } => {
            write_while(s, interner, out);
        },
        Statement::Return(None) => {
            put(out, Token::Return);
            let ghost w0 = seq![plain(Tok::Return)];
            then_put(out, Token::Semi, Ghost(start), Ghost(w0));
            assert(w0.push(plain(Tok::Semi)) =~= statement_words(names, s@));
        },
        Statement::Return(Some(value)) => {
            put(out, Token::Return);
            let ghost c = out@;
            write_expression(value, interner, out);
            let ghost w1 = seq![plain(Tok::Return)] + expression_words(names, value@);
            proof {
                lemma_wrote_more(start, c, out@, seq![plain(Tok::Return)], expression_words(names, value@));
            }
            then_put(out, Token::Semi, Ghost(start), Ghost(w1));
            assert(w1.push(plain(Tok::Semi)) =~= statement_words(names, s@));
        },
    }
}

/// Writes a typed name `T id`.
fn write_typed_name(ty: &Type, x: Id, interner: &Interner, out: &mut Vec<Token>)
    ensures
        wrote(old(out)@, final(out)@, typed_name_words(interner@, ty@, x)),
{
    let ghost names = interner@;
    let ghost start = out@;
    write_type(ty, interner, out);
    let ghost c = out@;
    put_identifier(out, x, interner);
    proof {
        lemma_wrote_more(start, c, out@, type_words(names, ty@), seq![ident(names, x)]);
        assert(type_words(names, ty@) + seq![ident(names, x)] =~= typed_name_words(names, ty@, x));
    }
}

/// Writes the parameters of a function.
fn write_parameters(list: &Vec<(Type, Id)>, interner: &Interner, out: &mut Vec<Token>)
    ensures
        wrote(old(out)@, final(out)@, parameters_words(interner@, params_view(list@))),
{
    let ghost names = interner@;
    let ghost start = out@;
    let ghost items = params_view(list@);
    let ghost mut w: Seq<(Tok, Id)> = Seq::empty();
    proof {
        lemma_wrote_nothing(start);
    }
    let mut i: usize = 0;
    if list.len() > 0 {
        write_typed_name(&list[0].0, list[0].1, interner, out);
        proof {
            w = typed_name_words(names, items[0].0, items[0].1);
        }
        i = 1;
    }
    assert(w + more_parameters_words(names, items, i as nat) =~= parameters_words(names, items));
    while i < list.len()
        invariant
            1 <= i <= list.len() || list.len() == 0 && i == 0,
            names == interner@,
            items == params_view(list@),
            wrote(start, out@, w),
            w + more_parameters_words(names, items, i as nat) == parameters_words(names, items),
        decreases list.len() - i,
    {
        then_put(out, Token::Comma, Ghost(start), Ghost(w));
        let ghost c = out@;
        write_typed_name(&list[i].0, list[i].1, interner, out);
        proof {
            let here = typed_name_words(names, items[i as int].0, items[i as int].1);
            lemma_wrote_more(start, c, out@, w.push(plain(Tok::Comma)), here);
            let next = w.push(plain(Tok::Comma)) + here;
            assert(next + more_parameters_words(names, items, (i + 1) as nat) =~= w
                + more_parameters_words(names, items, i as nat));
            w = next;
        }
        i += 1;
    }
    assert(more_parameters_words(names, items, i as nat) =~= Seq::empty());
    assert(w =~= parameters_words(names, items));
}

/// Writes a function.
pub fn write_function(f: &FunctionDecl, interner: &Interner, out: &mut Vec<Token>)
    ensures
        wrote(old(out)@, final(out)@, function_words(interner@, f@)),
{
    let ghost names = interner@;
    let ghost start = out@;
    write_return(&f.return_type, interner, out);
    let ghost w0 = return_words(names, f.return_type@);
    let ghost b = out@;
    put_identifier(out, f.name, interner);
    let ghost w1 = w0 + seq![ident(names, f.name)];
    proof {
        lemma_wrote_more(start, b, out@, w0, seq![ident(names, f.name)]);
    }
    then_put(out, Token::LParen, Ghost(start), Ghost(w1));
    let ghost c = out@;
    write_parameters(&f.args, interner, out);
    let ghost w2 = w1.push(plain(Tok::LParen)) + parameters_words(names, params_view(f.args@));
    proof {
        lemma_wrote_more(
            start,
            c,
            out@,
            w1.push(plain(Tok::LParen)),
            parameters_words(names, params_view(f.args@)),
        );
    }
    then_put(out, Token::RParen, Ghost(start), Ghost(w2));
    let ghost d = out@;
    write_block(&f.body, interner, out);
    proof {
        lemma_wrote_more(start, d, out@, w2.push(plain(Tok::RParen)), block_words(names, block_view(f.body@)));
        assert(w2.push(plain(Tok::RParen)) + block_words(names, block_view(f.body@)) =~= function_words(
            names,
            f@,
        ));
    }
}

/// Writes the fields of a struct, each as `T id;`.
fn write_fields(fields: &FieldSet, interner: &Interner, out: &mut Vec<Token>)
    ensures
        wrote(old(out)@, final(out)@, fields_words(interner@, fields_view(*fields), 0)),
{
    let ghost names = interner@;
    let ghost start = out@;
    let ghost items = fields_view(*fields);
    let ghost mut w: Seq<(Tok, Id)> = Seq::empty();
    proof {
        lemma_wrote_nothing(start);
    }
    let n = fields.len();
    let mut i: usize = 0;
    while i < n
        invariant
            i <= n,
            n == fields.keys().len(),
            names == interner@,
            items == fields_view(*fields),
            wrote(start, out@, w),
            w + fields_words(names, items, i as nat) == fields_words(names, items, 0),
        decreases n - i,
    {
        match fields.get_index(i) {
            Some((x, ty)) => {
                let ghost c = out@;
                write_typed_name(ty, x, interner, out);
                let ghost here = typed_name_words(names, items[i as int].1, items[i as int].0);
                proof {
                    lemma_wrote_more(start, c, out@, w, here);
                }
                then_put(out, Token::Semi, Ghost(start), Ghost(w + here));
                proof {
                    let next = (w + here).push(plain(Tok::Semi));
                    assert(next + fields_words(names, items, (i + 1) as nat) =~= w + fields_words(
                        names,
                        items,
                        i as nat,
                    ));
                    w = next;
                }
            },
            None => {},
        }
        i += 1;
    }
    assert(fields_words(names, items, i as nat) =~= Seq::empty());
    assert(w =~= fields_words(names, items, 0));
}

/// Writes a constant: a negative number with its sign before it, where
/// the number without the sign can be written.
fn write_constant(e: &Expression, interner: &Interner, out: &mut Vec<Token>)
    ensures
        wrote(old(out)@, final(out)@, constant_words(interner@, e@)),
{
    let ghost start = out@;
    match e {
        Expression::CInt(v) => {
            if *v < 0 && *v > i64::MIN {
                put(out, Token::Dash);
                let ghost w0 = seq![plain(Tok::Dash)];
                then_put(out, Token::Int(-*v), Ghost(start), Ghost(w0));
                assert(w0.push(plain(Tok::Int((-*v) as i64))) =~= constant_words(interner@, e@));
            } else {
                put(out, Token::Int(*v));
            }
        },
        _ => {
            write_expression(e, interner, out);
        },
    }
}

/// Writes a declaration.
pub fn write_declaration(d: &Declaration, interner: &Interner, out: &mut Vec<Token>)
    ensures
        wrote(old(out)@, final(out)@, declaration_words(interner@, d@)),
{
    let ghost names = interner@;
    let ghost start = out@;
    match d {
        Declaration::Variable(g) => {
            put(out, Token::Global);
            let ghost b = out@;
            put_identifier(out, g.name, interner);
            let ghost w1 = seq![plain(Tok::Global)] + seq![ident(names, g.name)];
            proof {
                lemma_wrote_more(start, b, out@, seq![plain(Tok::Global)], seq![ident(names, g.name)]);
            }
            then_put(out, Token::Eq, Ghost(start), Ghost(w1));
            let ghost c = out@;
            write_constant(&g.init, interner, out);
            let ghost w2 = w1.push(plain(Tok::Eq)) + constant_words(names, g.init@);
            proof {
                lemma_wrote_more(start, c, out@, w1.push(plain(Tok::Eq)), constant_words(names, g.init@));
            }
            then_put(out, Token::Semi, Ghost(start), Ghost(w2));
            assert(w2.push(plain(Tok::Semi)) =~= declaration_words(names, d@));
        },
        Declaration::Function(f) => {
            write_function(f, interner, out);
        },
        Declaration::Type(t) => {
            put(out, Token::Struct);
            let ghost b = out@;
            put_identifier(out, t.name, interner);
            let ghost w1 = seq![plain(Tok::Struct)] + seq![ident(names, t.name)];
            proof {
                lemma_wrote_more(start, b, out@, seq![plain(Tok::Struct)], seq![ident(names, t.name)]);
            }
            then_put(out, Token::LBrace, Ghost(start), Ghost(w1));
            let ghost c = out@;
            write_fields(&t.fields, interner, out);
            let ghost w2 = w1.push(plain(Tok::LBrace)) + fields_words(names, fields_view(t.fields), 0);
            proof {
                lemma_wrote_more(
                    start,
                    c,
                    out@,
                    w1.push(plain(Tok::LBrace)),
                    fields_words(names, fields_view(t.fields), 0),
                );
            }
            then_put(out, Token::RBrace, Ghost(start), Ghost(w2));
            assert(w2.push(plain(Tok::RBrace)) =~= declaration_words(names, d@));
        },
    }
}

/// The tokens of a program, as `program_words` writes them.
pub fn program_tokens(program: &Program, interner: &Interner) -> (tokens: Vec<Token>)
    ensures
        tokens_view(tokens@) == tokens_of(program_words(interner@, program@)),
{
    let ghost names = interner@;
    let ghost p = program@;
    let mut out: Vec<Token> = Vec::new();
    let ghost start = out@;
    let ghost mut w: Seq<(Tok, Id)> = Seq::empty();
    proof {
        lemma_wrote_nothing(start);
    }
    let mut i: usize = 0;
    while i < program.declarations.len()
        invariant
            i <= program.declarations.len(),
            names == interner@,
            p == program@,
            start == Seq::<Token>::empty(),
            wrote(start, out@, w),
            w + declarations_words(names, p, i as nat) == declarations_words(names, p, 0),
        decreases program.declarations.len() - i,
    {
        let ghost c = out@;
        write_declaration(&program.declarations[i], interner, &mut out);
        proof {
            let here = declaration_words(names, p[i as int]);
            lemma_wrote_more(start, c, out@, w, here);
            assert((w + here) + declarations_words(names, p, (i + 1) as nat) =~= w
                + declarations_words(names, p, i as nat));
            w = w + here;
        }
        i += 1;
    }
    assert(declarations_words(names, p, i as nat) =~= Seq::empty());
    assert(w =~= program_words(names, p));
    assert(tokens_view(start) + tokens_of(w) =~= tokens_of(w));
    out
}

/// The character that writes a digit.
fn digit_character(d: u64) -> (c: char)
    requires
        d < 10,
    ensures
        c == digit_char(d as nat),
{
    if d == 0 {
        '0'
    } else if d == 1 {
        '1'
    } else if d == 2 {
        '2'
    } else if d == 3 {
        '3'
    } else if d == 4 {
        '4'
    } else if d == 5 {
        '5'
    } else if d == 6 {
        '6'
    } else if d == 7 {
        '7'
    } else if d == 8 {
        '8'
    } else {
        '9'
    }
}

/// Writes a number in decimal digits.
fn write_digits(n: u64, text: &mut String)
    ensures
        final(text)@ == old(text)@ + digits(n as nat),
    decreases n,
{
    let ghost before = text@;
    if n >= 10 {
        write_digits(n / 10, text);
    }
    push_char(text, digit_character(n % 10));
    assert(text@ =~= before + digits(n as nat));
}

/// The text of a token that is a word or a mark.
fn fixed_text(token: &Token) -> (text: &'static str)
    requires
        !(token@ is Ident),
        !(token@ is Int),
        !(token@ is String),
    ensures
        text@ == token_text(token@),
{
    match token {
        Token::Struct => "struct",
        Token::Null => "null",
        Token::TVoid => "void",
        Token::TInt => "int",
        Token::TString => "string",
        Token::Else => "else",
        Token::If => "if",
        Token::Ifq => "if?",
        Token::While => "while",
        Token::Return => "return",
        Token::Var => "var",
        Token::Global => "global",
        Token::Length => "length",
        Token::Dot => ".",
        Token::Semi => ";",
        Token::Comma => ",",
        Token::LBrace => "{",
        Token::RBrace => "}",
        Token::Plus => "+",
        Token::Dash => "-",
        Token::Star => "*",
        Token::Eq => "=",
        Token::Eqeq => "==",
        Token::Bang => "!",
        Token::Tilde => "~",
        Token::LParen => "(",
        Token::RParen => ")",
        Token::LBracket => "[",
        Token::RBracket => "]",
        Token::For => "for",
        Token::New => "new",
        Token::True => "true",
        Token::False => "false",
        Token::TBool => "bool",
        Token::Ltlt => "<<",
        Token::Gtgt => ">>",
        Token::Gtgtgt => ">>>",
        Token::BangEq => "!=",
        Token::Lt => "<",
        Token::Lteq => "<=",
        Token::Gt => ">",
        Token::Gteq => ">=",
        Token::Ampersand => "&",
        Token::Bar => "|",
        Token::IAnd => "[&]",
        Token::IOr => "[|]",
        Token::Arrow => "->",
        Token::Question => "?",
        _ => vstd::pervasive::unreached(),
    }
}

impl Token {
    /// The text of the token. A string stands between quotes, with a
    /// backslash before each quote and backslash in it, and a negative
    /// number has its sign before it.
    pub fn to_text(&self) -> (text: String)
        ensures
            text@ == token_text(self@),
    {
        let mut text = String::new();
        match self {
            Token::Ident(word) => {
                text.append(word.as_str());
                assert(text@ =~= token_text(self@));
            },
            Token::Int(v) => {
                if *v >= 0 {
                    write_digits(*v as u64, &mut text);
                } else {
                    push_char(&mut text, '-');
                    let magnitude: u64 = if *v == i64::MIN {
                        9223372036854775808u64
                    } else {
                        (-*v) as u64
                    };
                    write_digits(magnitude, &mut text);
                }
                assert(text@ =~= token_text(self@));
            },
            Token::String(content) => {
                let chars = characters(content.as_str());
                push_char(&mut text, '"');
                let ghost open = text@;
                let mut i: usize = 0;
                while i < chars.len()
                    invariant
                        i <= chars.len(),
                        chars@ == content@,
                        text@ + quoted(content@, i as nat) == open + quoted(content@, 0),
                    decreases chars.len() - i,
                {
                    let c = chars[i];
                    let ghost before = text@;
                    if c == '"' || c == '\\' {
                        push_char(&mut text, '\\');
                    }
                    push_char(&mut text, c);
                    assert(text@ + quoted(content@, (i + 1) as nat) =~= before + quoted(
                        content@,
                        i as nat,
                    ));
                    i += 1;
                }
                assert(quoted(content@, i as nat) =~= Seq::empty());
                assert(text@ =~= open + quoted(content@, 0));
                push_char(&mut text, '"');
                assert(text@ =~= token_text(self@));
            },
            other => {
                text.append(fixed_text(other));
                assert(text@ =~= token_text(self@));
            },
        }
        text
    }
}

/// The text of tokens: each is followed by a blank.
pub fn tokens_to_text(tokens: &Vec<Token>) -> (text: String)
    ensures
        text@ == tokens_text(tokens_view(tokens@), 0),
{
    let ghost items = tokens_view(tokens@);
    let mut text = String::new();
    let mut i: usize = 0;
    assert(text@ + tokens_text(items, 0) =~= tokens_text(items, 0));
    while i < tokens.len()
        invariant
            i <= tokens.len(),
            items == tokens_view(tokens@),
            text@ + tokens_text(items, i as nat) == tokens_text(items, 0),
        decreases tokens.len() - i,
    {
        let ghost before = text@;
        let here = tokens[i].to_text();
        text.append(here.as_str());
        push_char(&mut text, ' ');
        assert(text@ + tokens_text(items, (i + 1) as nat) =~= before + tokens_text(items, i as nat));
        i += 1;
    }
    assert(tokens_text(items, i as nat) =~= Seq::empty());
    assert(text@ =~= tokens_text(items, 0));
    text
}

impl Program {
    /// The program as a text that spells it: its tokens, each followed by
    /// a blank. Identifiers are spelled as `interner` has them.
    pub fn to_text(&self, interner: &Interner) -> (text: String)
        ensures
            text@ == program_text(interner@, self@),
    {
        let tokens = program_tokens(self, interner);
        tokens_to_text(&tokens)
    }
}

} // verus!
