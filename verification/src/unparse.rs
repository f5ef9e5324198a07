//! Programs as tokens, and the tokens read again.
//!
//! `program_words` gives the tokens of a text of a program, each
//! identifier with its symbol. Function types, and operands that are
//! themselves operations, stand in parentheses, and every conditional has
//! its `else` part. The rules of the grammar read these tokens as the
//! program.

use crate::ast::{BinaryOp, Decl, Expr, Fields, FunDecl, Id, Prog, RefTy, RetTy, Stmt, Ty, UnaryOp};
use crate::grammar::{
    array_at, atom_at, base_type_at, binary_at, binary_operator, binding_at, block_at, cast_at,
    constant_at, declaration_at, declarations_at, else_at, expression_at, expressions_at,
    fields_at, for_at, function_at, function_type_at, global_at, if_at, initializers_at,
    insert_field, is, is_ident, more_bindings_at, more_expressions_at, more_parameters_at,
    more_types_at, null_at, operator_at, operators_at, parameters_at, postfix_at, precedence,
    reference_type_at, return_type_at, simple_at, statement_at, statements_at, struct_at,
    suffixes_at, type_at, type_suffixes_at, typed_name_at, types_at, unary_at, unary_operator,
    while_at,
};
use crate::table::{lemma_position, position};
use crate::typecontext::names;
use crate::symbol::Symbol;
use crate::tokens::Tok;
use vstd::prelude::*;

verus! {

/// A token that is no identifier, with the symbol that such tokens carry.
pub open spec fn plain(k: Tok) -> (Tok, Id) {
    (k, Symbol { index: 0 })
}

/// The identifier `x` as a token, spelled as `names` has it. An
/// identifier that `names` does not have is spelled with no character.
pub open spec fn ident(names: Seq<Seq<char>>, x: Id) -> (Tok, Id) {
    (
        Tok::Ident(
            if x.index < names.len() {
                names[x.index as int]
            } else {
                Seq::empty()
            },
        ),
        x,
    )
}

/// Whether the tokens `w` stand at `pos`, each identifier with its symbol.
pub open spec fn spells(t: Seq<Tok>, y: Seq<Id>, pos: nat, w: Seq<(Tok, Id)>) -> bool {
    &&& t.len() == y.len()
    &&& pos + w.len() <= t.len()
    &&& forall|k: int|
        0 <= k < w.len() ==> t[pos + k] == (#[trigger] w[k]).0 && (w[k].0 is Ident ==> y[pos + k]
            == w[k].1)
}

/// Where two pieces stand one after the other, each stands.
pub proof fn lemma_spells_split(t: Seq<Tok>, y: Seq<Id>, pos: nat, a: Seq<(Tok, Id)>, b: Seq<(Tok, Id)>)
    requires
        spells(t, y, pos, a + b),
    ensures
        spells(t, y, pos, a),
        spells(t, y, pos + a.len(), b),
{
    let w = a + b;
    assert forall|k: int| 0 <= k < a.len() implies t[pos + k] == (#[trigger] a[k]).0 && (a[k].0 is Ident
        ==> y[pos + k] == a[k].1) by {
        assert(w[k] == a[k]);
    }
    assert forall|k: int| 0 <= k < b.len() implies t[pos + a.len() + k] == (#[trigger] b[k]).0 && (
    b[k].0 is Ident ==> y[pos + a.len() + k] == b[k].1) by {
        assert(w[a.len() + k] == b[k]);
    }
}

/// The token at a position of a piece that stands in the text.
pub proof fn lemma_spells_at(t: Seq<Tok>, y: Seq<Id>, pos: nat, w: Seq<(Tok, Id)>, k: int)
    requires
        spells(t, y, pos, w),
        0 <= k < w.len(),
    ensures
        pos + k < t.len(),
        t[pos + k] == w[k].0,
        w[k].0 is Ident ==> y[pos + k] == w[k].1,
{
    assert(t[pos + k] == w[k].0);
}

/// A type, written as tokens. A function type stands in parentheses.
pub open spec fn type_words(names: Seq<Seq<char>>, ty: Ty) -> Seq<(Tok, Id)>
    decreases ty, 0nat,
{
    match ty {
        Ty::Bool => seq![plain(Tok::TBool)],
        Ty::Int => seq![plain(Tok::TInt)],
        Ty::Ref(r) => reference_words(names, r),
        Ty::NullRef(r) => reference_words(names, r).push(plain(Tok::Question)),
    }
}

/// A reference type, written as tokens.
pub open spec fn reference_words(names: Seq<Seq<char>>, r: RefTy) -> Seq<(Tok, Id)>
    decreases r, 0nat,
{
    match r {
        RefTy::String => seq![plain(Tok::TString)],
        RefTy::Struct(x) => seq![ident(names, x)],
        RefTy::Array(element) => type_words(names, *element) + seq![
            plain(Tok::LBracket),
            plain(Tok::RBracket),
        ],
        RefTy::Function(args, ret) => seq![plain(Tok::LParen), plain(Tok::LParen)] + types_words(
            names,
            args,
        ) + seq![plain(Tok::RParen), plain(Tok::Arrow)] + return_words(names, *ret).push(
            plain(Tok::RParen),
        ),
    }
}

/// A list of types, written as tokens with commas between them.
pub open spec fn types_words(names: Seq<Seq<char>>, types: Seq<Ty>) -> Seq<(Tok, Id)>
    decreases types, types.len() + 1,
{
    if types.len() == 0 {
        Seq::empty()
    } else {
        type_words(names, types[0]) + more_types_words(names, types, 1)
    }
}

/// The types from position `i` on, each written after a comma.
pub open spec fn more_types_words(names: Seq<Seq<char>>, types: Seq<Ty>, i: nat) -> Seq<(Tok, Id)>
    decreases types, types.len() - i,
{
    if i >= types.len() {
        Seq::empty()
    } else {
        seq![plain(Tok::Comma)] + type_words(names, types[i as int]) + more_types_words(
            names,
            types,
            i + 1,
        )
    }
}

/// A return type, written as tokens.
pub open spec fn return_words(names: Seq<Seq<char>>, ret: RetTy) -> Seq<(Tok, Id)>
    decreases ret, 0nat,
{
    match ret {
        RetTy::Void => seq![plain(Tok::TVoid)],
        RetTy::Value(ty) => type_words(names, ty),
    }
}

/// Whether the token can start a type.
pub open spec fn starts_type(k: Tok) -> bool {
    k == Tok::TBool || k == Tok::TInt || k == Tok::TString || k is Ident || k == Tok::LParen
}

/// Whether no type that ends before `pos` goes on there: neither `?` nor
/// `[]` stands at `pos`.
pub open spec fn type_ends(t: Seq<Tok>, pos: nat) -> bool {
    !(is(t, pos, Tok::Question)) && !(is(t, pos, Tok::LBracket) && is(t, pos + 1, Tok::RBracket))
}

/// A type is written with at least one token, and its first token starts
/// a type.
pub proof fn lemma_type_starts(names: Seq<Seq<char>>, ty: Ty)
    ensures
        type_words(names, ty).len() > 0,
        starts_type(type_words(names, ty)[0].0),
    decreases ty, 1nat,
{
    match ty {
        Ty::Bool => {},
        Ty::Int => {},
        Ty::Ref(r) => {
            lemma_reference_starts(names, r);
        },
        Ty::NullRef(r) => {
            lemma_reference_starts(names, r);
        },
    }
}

/// A reference type is written with at least one token, and its first
/// token starts a type.
pub proof fn lemma_reference_starts(names: Seq<Seq<char>>, r: RefTy)
    ensures
        reference_words(names, r).len() > 0,
        starts_type(reference_words(names, r)[0].0),
    decreases r, 1nat,
{
    match r {
        RefTy::String => {},
        RefTy::Struct(_) => {},
        RefTy::Array(element) => {
            lemma_type_starts(names, *element);
        },
        RefTy::Function(args, ret) => {
            let w = seq![plain(Tok::LParen), plain(Tok::LParen)] + types_words(names, args) + seq![
                plain(Tok::RParen),
                plain(Tok::Arrow),
            ] + return_words(names, *ret).push(plain(Tok::RParen));
            assert(w[0] == plain(Tok::LParen));
        },
    }
}

/// A token that stands alone where it is written stands in the text.
pub proof fn lemma_spells_one(t: Seq<Tok>, y: Seq<Id>, pos: nat, k: (Tok, Id))
    requires
        spells(t, y, pos, seq![k]),
    ensures
        is(t, pos, k.0),
        k.0 is Ident ==> y[pos as int] == k.1,
        t.len() == y.len(),
{
    lemma_spells_at(t, y, pos, seq![k], 0);
}

/// Two tokens that are written one after the other stand in the text.
pub proof fn lemma_spells_two(t: Seq<Tok>, y: Seq<Id>, pos: nat, a: (Tok, Id), b: (Tok, Id))
    requires
        spells(t, y, pos, seq![a, b]),
    ensures
        is(t, pos, a.0),
        is(t, pos + 1, b.0),
        t.len() == y.len(),
{
    lemma_spells_at(t, y, pos, seq![a, b], 0);
    lemma_spells_at(t, y, pos, seq![a, b], 1);
}

/// A written type is read as that type, with the suffixes that follow it.
pub proof fn lemma_type_read(names: Seq<Seq<char>>, t: Seq<Tok>, y: Seq<Id>, pos: nat, ty: Ty)
    requires
        spells(t, y, pos, type_words(names, ty)),
        !(is(t, pos + type_words(names, ty).len(), Tok::Arrow)),
    ensures
        type_at(t, y, pos) == Some(type_suffixes_at(t, pos + type_words(names, ty).len(), ty)),
    decreases ty, 2nat,
{
    let w = type_words(names, ty);
    match ty {
        Ty::Bool => {
            lemma_spells_one(t, y, pos, plain(Tok::TBool));
            assert(base_type_at(t, y, pos) == Some((Ty::Bool, pos + 1)));
        },
        Ty::Int => {
            lemma_spells_one(t, y, pos, plain(Tok::TInt));
            assert(base_type_at(t, y, pos) == Some((Ty::Int, pos + 1)));
        },
        Ty::Ref(r) => {
            lemma_reference_read(names, t, y, pos, r);
        },
        Ty::NullRef(r) => {
            let inner = reference_words(names, r);
            assert(w =~= inner + seq![plain(Tok::Question)]);
            lemma_spells_split(t, y, pos, inner, seq![plain(Tok::Question)]);
            lemma_spells_one(t, y, pos + inner.len(), plain(Tok::Question));
            lemma_reference_read(names, t, y, pos, r);
            let p = pos + inner.len();
            assert(type_suffixes_at(t, p, Ty::Ref(r)) == type_suffixes_at(t, p + 1, Ty::NullRef(r)));
        },
    }
}

/// A written reference type is read as that type, with the suffixes that
/// follow it.
pub proof fn lemma_reference_read(names: Seq<Seq<char>>, t: Seq<Tok>, y: Seq<Id>, pos: nat, r: RefTy)
    requires
        spells(t, y, pos, reference_words(names, r)),
        !(is(t, pos + reference_words(names, r).len(), Tok::Arrow)),
    ensures
        type_at(t, y, pos) == Some(
            type_suffixes_at(t, pos + reference_words(names, r).len(), Ty::Ref(r)),
        ),
    decreases r, 2nat,
{
    let w = reference_words(names, r);
    match r {
        RefTy::String => {
            lemma_spells_one(t, y, pos, plain(Tok::TString));
            assert(base_type_at(t, y, pos) == Some((Ty::Ref(RefTy::String), pos + 1)));
        },
        RefTy::Struct(x) => {
            lemma_spells_one(t, y, pos, ident(names, x));
            assert(base_type_at(t, y, pos) == Some((Ty::Ref(RefTy::Struct(x)), pos + 1)));
        },
        RefTy::Array(element) => {
            let inner = type_words(names, *element);
            let brackets = seq![plain(Tok::LBracket), plain(Tok::RBracket)];
            lemma_spells_split(t, y, pos, inner, brackets);
            let p = pos + inner.len();
            lemma_spells_two(t, y, p, plain(Tok::LBracket), plain(Tok::RBracket));
            lemma_type_read(names, t, y, pos, *element);
            assert(type_suffixes_at(t, p, *element) == type_suffixes_at(
                t,
                p + 2,
                Ty::Ref(RefTy::Array(Box::new(*element))),
            ));
        },
        RefTy::Function(args, ret) => {
            let open = seq![plain(Tok::LParen), plain(Tok::LParen)];
            let list = types_words(names, args);
            let arrow = seq![plain(Tok::RParen), plain(Tok::Arrow)];
            let result = return_words(names, *ret);
            let close = seq![plain(Tok::RParen)];
            assert(w =~= ((open + list) + arrow) + (result + close));
            lemma_spells_split(t, y, pos, (open + list) + arrow, result + close);
            lemma_spells_split(t, y, pos, open + list, arrow);
            lemma_spells_split(t, y, pos, open, list);
            let a = pos + 2 + list.len();
            lemma_spells_split(t, y, a + 2, result, close);
            let e = a + 2 + result.len();
            lemma_spells_two(t, y, pos, plain(Tok::LParen), plain(Tok::LParen));
            lemma_spells_two(t, y, a, plain(Tok::RParen), plain(Tok::Arrow));
            lemma_spells_one(t, y, e, plain(Tok::RParen));
            lemma_types_read(names, t, y, pos + 2, args);
            assert(types_at(t, y, pos + 2, Seq::empty()) == (args, a));
            lemma_return_read(names, t, y, a + 2, *ret);
            assert(return_type_at(t, y, a + 2) == Some((*ret, e)));
            let f = Ty::Ref(RefTy::Function(args, Box::new(*ret)));
            assert(function_type_at(t, y, pos + 1) == Some((f, e)));
            assert(base_type_at(t, y, pos + 1) == Some((f, e)));
            assert(type_suffixes_at(t, e, f) == (f, e));
            assert(type_at(t, y, pos + 1) == Some((f, e)));
            assert(more_types_at(t, y, e, seq![f]) == (seq![f], e));
            assert(Seq::<Ty>::empty().push(f) =~= seq![f]);
            assert(types_at(t, y, pos + 1, Seq::empty()) == (seq![f], e));
            assert(function_type_at(t, y, pos) is None);
            assert(base_type_at(t, y, pos) == Some((f, e + 1)));
        },
    }
}

/// A written list of types is read as that list.
pub proof fn lemma_types_read(names: Seq<Seq<char>>, t: Seq<Tok>, y: Seq<Id>, pos: nat, types: Seq<Ty>)
    requires
        spells(t, y, pos, types_words(names, types)),
        is(t, pos + types_words(names, types).len(), Tok::RParen),
    ensures
        types_at(t, y, pos, Seq::empty()) == (types, pos + types_words(names, types).len()),
    decreases types, types.len() + 1,
{
    if types.len() == 0 {
        assert(base_type_at(t, y, pos) is None);
        assert(types =~= Seq::empty());
    } else {
        let first = type_words(names, types[0]);
        let rest = more_types_words(names, types, 1);
        lemma_spells_split(t, y, pos, first, rest);
        lemma_type_starts(names, types[0]);
        let p = pos + first.len();
        lemma_more_types_first(names, t, y, p, types, 1);
        lemma_type_read(names, t, y, pos, types[0]);
        assert(type_suffixes_at(t, p, types[0]) == (types[0], p));
        lemma_more_types_read(names, t, y, p, types, 1, seq![types[0]]);
        assert(Seq::<Ty>::empty().push(types[0]) =~= seq![types[0]]);
        assert(seq![types[0]] + types.subrange(1, types.len() as int) =~= types);
    }
}

/// What stands where the rest of a list of types is written: a comma, or
/// what follows the list.
pub proof fn lemma_more_types_first(
    names: Seq<Seq<char>>,
    t: Seq<Tok>,
    y: Seq<Id>,
    pos: nat,
    types: Seq<Ty>,
    i: nat,
)
    requires
        spells(t, y, pos, more_types_words(names, types, i)),
        is(t, pos + more_types_words(names, types, i).len(), Tok::RParen),
    ensures
        is(t, pos, Tok::Comma) || is(t, pos, Tok::RParen),
{
    if i < types.len() {
        let w = more_types_words(names, types, i);
        assert(w[0] == plain(Tok::Comma));
        lemma_spells_at(t, y, pos, w, 0);
    }
}

/// The rest of a written list of types is read as the rest of that list.
pub proof fn lemma_more_types_read(
    names: Seq<Seq<char>>,
    t: Seq<Tok>,
    y: Seq<Id>,
    pos: nat,
    types: Seq<Ty>,
    i: nat,
    acc: Seq<Ty>,
)
    requires
        i <= types.len(),
        spells(t, y, pos, more_types_words(names, types, i)),
        is(t, pos + more_types_words(names, types, i).len(), Tok::RParen),
    ensures
        more_types_at(t, y, pos, acc) == (
            acc + types.subrange(i as int, types.len() as int),
            pos + more_types_words(names, types, i).len(),
        ),
    decreases types, types.len() - i,
{
    if i >= types.len() {
        assert(acc + types.subrange(i as int, types.len() as int) =~= acc);
    } else {
        let comma = seq![plain(Tok::Comma)];
        let here = type_words(names, types[i as int]);
        let rest = more_types_words(names, types, i + 1);
        lemma_spells_split(t, y, pos, comma + here, rest);
        lemma_spells_split(t, y, pos, comma, here);
        lemma_spells_one(t, y, pos, plain(Tok::Comma));
        lemma_type_starts(names, types[i as int]);
        let p = pos + 1 + here.len();
        lemma_more_types_first(names, t, y, p, types, i + 1);
        lemma_type_read(names, t, y, pos + 1, types[i as int]);
        assert(type_suffixes_at(t, p, types[i as int]) == (types[i as int], p));
        lemma_more_types_read(names, t, y, p, types, i + 1, acc.push(types[i as int]));
        assert(acc.push(types[i as int]) + types.subrange(i as int + 1, types.len() as int) =~= acc
            + types.subrange(i as int, types.len() as int));
    }
}

/// A written return type is read as that return type.
pub proof fn lemma_return_read(names: Seq<Seq<char>>, t: Seq<Tok>, y: Seq<Id>, pos: nat, ret: RetTy)
    requires
        spells(t, y, pos, return_words(names, ret)),
        type_ends(t, pos + return_words(names, ret).len()),
        !(is(t, pos + return_words(names, ret).len(), Tok::Arrow)),
    ensures
        return_type_at(t, y, pos) == Some((ret, pos + return_words(names, ret).len())),
    decreases ret, 3nat,
{
    match ret {
        RetTy::Void => {
            lemma_spells_one(t, y, pos, plain(Tok::TVoid));
        },
        RetTy::Value(ty) => {
            lemma_type_starts(names, ty);
            lemma_spells_at(t, y, pos, type_words(names, ty), 0);
            lemma_type_read(names, t, y, pos, ty);
            let p = pos + type_words(names, ty).len();
            assert(type_suffixes_at(t, p, ty) == (ty, p));
        },
    }
}

/// A written type, where no suffix follows it, is read as that type.
pub proof fn lemma_type_exact(names: Seq<Seq<char>>, t: Seq<Tok>, y: Seq<Id>, pos: nat, ty: Ty)
    requires
        spells(t, y, pos, type_words(names, ty)),
        type_ends(t, pos + type_words(names, ty).len()),
        !(is(t, pos + type_words(names, ty).len(), Tok::Arrow)),
    ensures
        type_at(t, y, pos) == Some((ty, pos + type_words(names, ty).len())),
{
    lemma_type_read(names, t, y, pos, ty);
    let p = pos + type_words(names, ty).len();
    assert(type_suffixes_at(t, p, ty) == (ty, p));
}

/// A written reference type, where no suffix follows it, is read as that
/// reference type.
pub proof fn lemma_reference_exact(names: Seq<Seq<char>>, t: Seq<Tok>, y: Seq<Id>, pos: nat, r: RefTy)
    requires
        spells(t, y, pos, reference_words(names, r)),
        type_ends(t, pos + reference_words(names, r).len()),
        !(is(t, pos + reference_words(names, r).len(), Tok::Arrow)),
    ensures
        reference_type_at(t, y, pos) == Some((r, pos + reference_words(names, r).len())),
{
    lemma_reference_read(names, t, y, pos, r);
    let p = pos + reference_words(names, r).len();
    assert(type_suffixes_at(t, p, Ty::Ref(r)) == (Ty::Ref(r), p));
}

/// The token that spells a binary operator.
pub open spec fn binary_token(op: BinaryOp) -> Tok {
    match op {
        BinaryOp::Add => Tok::Plus,
        BinaryOp::Sub => Tok::Dash,
        BinaryOp::Mul => Tok::Star,
        BinaryOp::Eq => Tok::Eqeq,
        BinaryOp::Neq => Tok::BangEq,
        BinaryOp::Lt => Tok::Lt,
        BinaryOp::Lte => Tok::Lteq,
        BinaryOp::Gt => Tok::Gt,
        BinaryOp::Gte => Tok::Gteq,
        BinaryOp::And => Tok::Ampersand,
        BinaryOp::Or => Tok::Bar,
        BinaryOp::IAnd => Tok::IAnd,
        BinaryOp::IOr => Tok::IOr,
        BinaryOp::Shl => Tok::Ltlt,
        BinaryOp::Shr => Tok::Gtgt,
        BinaryOp::Sar => Tok::Gtgtgt,
    }
}

/// The token that spells a unary operator.
pub open spec fn unary_token(op: UnaryOp) -> Tok {
    match op {
        UnaryOp::Neg => Tok::Dash,
        UnaryOp::Lognot => Tok::Bang,
        UnaryOp::Bitnot => Tok::Tilde,
    }
}

/// Tokens in parentheses.
pub open spec fn parens(w: Seq<(Tok, Id)>) -> Seq<(Tok, Id)> {
    seq![plain(Tok::LParen)] + w + seq![plain(Tok::RParen)]
}

/// Whether the expression can be written: it holds no struct literal,
/// which the grammar has no rule for.
pub open spec fn written(e: Expr) -> bool
    decreases e,
{
    match e {
        Expr::CNull(_) | Expr::CBool(_) | Expr::CInt(_) | Expr::CStr(_) | Expr::Id(_) => true,
        Expr::CArr(_, elements) => forall|i: int|
            0 <= i < elements.len() ==> written(#[trigger] elements[i]),
        Expr::NewArr(_, length) => written(*length),
        Expr::Index { value, index } => written(*value) && written(*index),
        Expr::Length(array) => written(*array),
        Expr::CStruct(_, _) => false,
        Expr::Proj(object, _) => written(*object),
        Expr::Call(callee, args) => written(*callee) && forall|i: int|
            0 <= i < args.len() ==> written(#[trigger] args[i]),
        Expr::Binary { op, left, right } => written(*left) && written(*right),
        Expr::Unary(_, operand) => written(*operand),
    }
}

/// An expression, written as tokens.
pub open spec fn expression_words(names: Seq<Seq<char>>, e: Expr) -> Seq<(Tok, Id)>
    decreases e, 0nat,
{
    match e {
        Expr::CNull(r) => reference_words(names, r).push(plain(Tok::Null)),
        Expr::CBool(b) => if b {
            seq![plain(Tok::True)]
        } else {
            seq![plain(Tok::False)]
        },
        Expr::CInt(v) => seq![plain(Tok::Int(v))],
        Expr::CStr(text) => seq![plain(Tok::String(text))],
        Expr::Id(x) => seq![ident(names, x)],
        Expr::CArr(ty, elements) => seq![plain(Tok::New)] + type_words(
            names,
            Ty::Ref(RefTy::Array(Box::new(ty))),
        ) + seq![plain(Tok::LBrace)] + list_words(names, elements).push(plain(Tok::RBrace)),
        Expr::NewArr(ty, length) => seq![plain(Tok::New)] + type_words(names, ty) + seq![
            plain(Tok::LBracket),
        ] + expression_words(names, *length).push(plain(Tok::RBracket)),
        Expr::Index { value, index } => target_words(names, *value) + seq![plain(Tok::LBracket)]
            + expression_words(names, *index).push(plain(Tok::RBracket)),
        Expr::Length(array) => seq![plain(Tok::Length), plain(Tok::LParen)] + expression_words(
            names,
            *array,
        ).push(plain(Tok::RParen)),
        Expr::CStruct(_, _) => Seq::empty(),
        Expr::Proj(object, field) => target_words(names, *object) + seq![
            plain(Tok::Dot),
            ident(names, field),
        ],
        Expr::Call(callee, args) => target_words(names, *callee) + seq![plain(Tok::LParen)]
            + list_words(names, args).push(plain(Tok::RParen)),
        Expr::Binary { op, left, right } => operand_words(names, *left) + seq![
            plain(binary_token(op)),
        ] + operand_words(names, *right),
        Expr::Unary(op, operand) => seq![plain(unary_token(op))] + operand_words(names, *operand),
    }
}

/// An expression that a suffix follows: in parentheses where it is an
/// operation.
pub open spec fn target_words(names: Seq<Seq<char>>, e: Expr) -> Seq<(Tok, Id)>
    decreases e, 1nat,
{
    if e is Binary || e is Unary {
        parens(expression_words(names, e))
    } else {
        expression_words(names, e)
    }
}

/// An operand: in parentheses where it is a binary operation.
pub open spec fn operand_words(names: Seq<Seq<char>>, e: Expr) -> Seq<(Tok, Id)>
    decreases e, 1nat,
{
    if e is Binary {
        parens(expression_words(names, e))
    } else {
        expression_words(names, e)
    }
}

/// A list of expressions, written as tokens with commas between them.
pub open spec fn list_words(names: Seq<Seq<char>>, list: Seq<Expr>) -> Seq<(Tok, Id)>
    decreases list, list.len() + 1,
{
    if list.len() == 0 {
        Seq::empty()
    } else {
        expression_words(names, list[0]) + more_list_words(names, list, 1)
    }
}

/// The expressions from position `i` on, each written after a comma.
pub open spec fn more_list_words(names: Seq<Seq<char>>, list: Seq<Expr>, i: nat) -> Seq<(Tok, Id)>
    decreases list, list.len() - i,
{
    if i >= list.len() {
        Seq::empty()
    } else {
        seq![plain(Tok::Comma)] + expression_words(names, list[i as int]) + more_list_words(
            names,
            list,
            i + 1,
        )
    }
}

/// Whether the token can start an atom with its suffixes.
pub open spec fn starts_postfix(k: Tok) -> bool {
    starts_type(k) || k == Tok::True || k == Tok::False || k is Int || k is String || k == Tok::New
        || k == Tok::Length
}

/// Whether the token can start an expression.
pub open spec fn starts_expression(k: Tok) -> bool {
    starts_postfix(k) || k == Tok::Dash || k == Tok::Bang || k == Tok::Tilde
}

/// Whether what stands at `pos` goes on neither a type nor a null
/// literal: it is none of `null`, `?`, `->` and `[]`.
pub open spec fn free(t: Seq<Tok>, pos: nat) -> bool {
    &&& !(is(t, pos, Tok::Null))
    &&& !(is(t, pos, Tok::Arrow))
    &&& type_ends(t, pos)
}

/// A written expression has at least one token, and its first token
/// starts an expression: an atom, unless the expression is an operation.
pub proof fn lemma_expression_starts(names: Seq<Seq<char>>, e: Expr)
    requires
        written(e),
    ensures
        expression_words(names, e).len() > 0,
        starts_expression(expression_words(names, e)[0].0),
        !(e is Unary) && !(e is Binary) ==> starts_postfix(expression_words(names, e)[0].0),
        target_words(names, e).len() > 0,
        starts_postfix(target_words(names, e)[0].0),
        operand_words(names, e).len() > 0,
        starts_expression(operand_words(names, e)[0].0),
        !(e is Unary) ==> starts_postfix(operand_words(names, e)[0].0),
    decreases e,
{
    let w = expression_words(names, e);
    match e {
        Expr::CNull(r) => {
            lemma_reference_starts(names, r);
            assert(w[0] == reference_words(names, r)[0]);
        },
        Expr::CBool(b) => {},
        Expr::CInt(v) => {},
        Expr::CStr(text) => {},
        Expr::Id(x) => {},
        Expr::CArr(ty, elements) => {
            assert(w[0] == plain(Tok::New));
        },
        Expr::NewArr(ty, length) => {
            assert(w[0] == plain(Tok::New));
        },
        Expr::Index { value, index } => {
            lemma_expression_starts(names, *value);
            assert(w[0] == target_words(names, *value)[0]);
        },
        Expr::Length(array) => {
            assert(w[0] == plain(Tok::Length));
        },
        Expr::CStruct(_, _) => {},
        Expr::Proj(object, field) => {
            lemma_expression_starts(names, *object);
            assert(w[0] == target_words(names, *object)[0]);
        },
        Expr::Call(callee, args) => {
            lemma_expression_starts(names, *callee);
            assert(w[0] == target_words(names, *callee)[0]);
        },
        Expr::Binary { op, left, right } => {
            lemma_expression_starts(names, *left);
            assert(w[0] == operand_words(names, *left)[0]);
        },
        Expr::Unary(op, operand) => {
            assert(w[0] == plain(unary_token(op)));
        },
    }
    assert(parens(w)[0] == plain(Tok::LParen));
}

/// Whether a type that is read at `q` from the written piece of length
/// `n` ends within the piece, and before its end only where neither a
/// comma nor a closing parenthesis stands.
pub open spec fn held(t: Seq<Tok>, y: Seq<Id>, q: nat, n: nat) -> bool {
    type_at(t, y, q) matches Some((_, p)) ==> q < p <= q + n && (p < q + n ==> t[p as int]
        != Tok::Comma && t[p as int] != Tok::RParen)
}

/// No type is read where none can start.
pub proof fn lemma_no_type_start(t: Seq<Tok>, y: Seq<Id>, q: nat)
    requires
        q >= t.len() || !starts_type(t[q as int]),
    ensures
        type_at(t, y, q) is None,
        null_at(t, y, q) is None,
{
    assert(base_type_at(t, y, q) is None);
}

/// A type that is read within the first part of a piece is read within
/// the piece, where neither a comma nor a closing parenthesis follows the
/// first part.
pub proof fn lemma_held_longer(t: Seq<Tok>, y: Seq<Id>, q: nat, part: nat, n: nat)
    requires
        held(t, y, q, part),
        part < n,
        q + part < t.len(),
        t[q as int + part] != Tok::Comma,
        t[q as int + part] != Tok::RParen,
    ensures
        held(t, y, q, n),
{
}

/// Where a written null literal starts, a type is read up to `null`.
pub proof fn lemma_no_type_null(names: Seq<Seq<char>>, t: Seq<Tok>, y: Seq<Id>, q: nat, r: RefTy)
    requires
        spells(t, y, q, expression_words(names, Expr::CNull(r))),
    ensures
        held(t, y, q, expression_words(names, Expr::CNull(r)).len()),
{
    let rw = reference_words(names, r);
    assert(expression_words(names, Expr::CNull(r)) =~= rw + seq![plain(Tok::Null)]);
    lemma_spells_split(t, y, q, rw, seq![plain(Tok::Null)]);
    lemma_spells_one(t, y, q + rw.len(), plain(Tok::Null));
    lemma_reference_read(names, t, y, q, r);
    lemma_reference_starts(names, r);
    assert(type_suffixes_at(t, q + rw.len(), Ty::Ref(r)) == (Ty::Ref(r), q + rw.len()));
}

/// Where an identifier stands that nothing of a type follows, the type
/// that is read is the identifier alone, and no null literal is read.
pub proof fn lemma_no_type_identifier(t: Seq<Tok>, y: Seq<Id>, q: nat)
    requires
        t.len() == y.len(),
        q < t.len(),
        t[q as int] is Ident,
        free(t, q + 1),
    ensures
        held(t, y, q, 1),
        null_at(t, y, q) is None,
{
    let base = Ty::Ref(RefTy::Struct(y[q as int]));
    assert(base_type_at(t, y, q) == Some((base, q + 1)));
    assert(type_suffixes_at(t, q + 1, base) == (base, q + 1));
}

/// Where a written expression starts, a type is read only within it.
pub proof fn lemma_no_type(names: Seq<Seq<char>>, t: Seq<Tok>, y: Seq<Id>, q: nat, e: Expr)
    requires
        written(e),
        spells(t, y, q, expression_words(names, e)),
        free(t, q + expression_words(names, e).len()),
    ensures
        held(t, y, q, expression_words(names, e).len()),
    decreases e, 0nat,
{
    let w = expression_words(names, e);
    lemma_expression_starts(names, e);
    lemma_spells_at(t, y, q, w, 0);
    match e {
        Expr::CNull(r) => {
            lemma_no_type_null(names, t, y, q, r);
        },
        Expr::Id(x) => {
            lemma_no_type_identifier(t, y, q);
        },
        Expr::Index { value, index } => {
            let tw = target_words(names, *value);
            let open = seq![plain(Tok::LBracket)];
            let rest = expression_words(names, *index).push(plain(Tok::RBracket));
            lemma_spells_split(t, y, q, tw + open, rest);
            lemma_spells_split(t, y, q, tw, open);
            lemma_spells_one(t, y, q + tw.len(), plain(Tok::LBracket));
            lemma_expression_starts(names, *index);
            assert(rest[0] == expression_words(names, *index)[0]);
            lemma_spells_at(t, y, q + tw.len() + 1, rest, 0);
            lemma_no_type_target(names, t, y, q, *value);
            lemma_held_longer(t, y, q, tw.len(), w.len());
        },
        Expr::Proj(object, field) => {
            let tw = target_words(names, *object);
            let rest = seq![plain(Tok::Dot), ident(names, field)];
            lemma_spells_split(t, y, q, tw, rest);
            lemma_spells_two(t, y, q + tw.len(), plain(Tok::Dot), ident(names, field));
            lemma_no_type_target(names, t, y, q, *object);
            lemma_held_longer(t, y, q, tw.len(), w.len());
        },
        Expr::Call(callee, args) => {
            let tw = target_words(names, *callee);
            let open = seq![plain(Tok::LParen)];
            let rest = list_words(names, args).push(plain(Tok::RParen));
            lemma_spells_split(t, y, q, tw + open, rest);
            lemma_spells_split(t, y, q, tw, open);
            lemma_spells_one(t, y, q + tw.len(), plain(Tok::LParen));
            lemma_no_type_target(names, t, y, q, *callee);
            lemma_held_longer(t, y, q, tw.len(), w.len());
        },
        Expr::Binary { op, left, right } => {
            let lw = operand_words(names, *left);
            let ow = seq![plain(binary_token(op))];
            let rw = operand_words(names, *right);
            lemma_spells_split(t, y, q, lw + ow, rw);
            lemma_spells_split(t, y, q, lw, ow);
            lemma_spells_one(t, y, q + lw.len(), plain(binary_token(op)));
            lemma_expression_starts(names, *right);
            lemma_no_type_operand(names, t, y, q, *left);
            lemma_held_longer(t, y, q, lw.len(), w.len());
        },
        Expr::CStruct(_, _) => {},
        _ => {
            lemma_no_type_start(t, y, q);
        },
    }
}

/// Where a written expression starts that a suffix follows, a type is read
/// only within it.
pub proof fn lemma_no_type_target(names: Seq<Seq<char>>, t: Seq<Tok>, y: Seq<Id>, q: nat, e: Expr)
    requires
        written(e),
        spells(t, y, q, target_words(names, e)),
        free(t, q + target_words(names, e).len()),
    ensures
        held(t, y, q, target_words(names, e).len()),
    decreases e, 2nat,
{
    if e is Binary || e is Unary {
        lemma_no_type_parens(names, t, y, q, e);
    } else {
        lemma_no_type(names, t, y, q, e);
    }
}

/// Where a written operand starts, a type is read only within it.
pub proof fn lemma_no_type_operand(names: Seq<Seq<char>>, t: Seq<Tok>, y: Seq<Id>, q: nat, e: Expr)
    requires
        written(e),
        spells(t, y, q, operand_words(names, e)),
        free(t, q + operand_words(names, e).len()),
    ensures
        held(t, y, q, operand_words(names, e).len()),
    decreases e, 2nat,
{
    if e is Binary {
        lemma_no_type_parens(names, t, y, q, e);
    } else {
        lemma_no_type(names, t, y, q, e);
    }
}

/// Where a written expression stands in parentheses, a type is read only
/// up to the closing one.
pub proof fn lemma_no_type_parens(names: Seq<Seq<char>>, t: Seq<Tok>, y: Seq<Id>, q: nat, e: Expr)
    requires
        written(e),
        spells(t, y, q, parens(expression_words(names, e))),
        free(t, q + expression_words(names, e).len() + 2),
    ensures
        type_at(t, y, q) matches Some((_, p)) ==> p == q + expression_words(names, e).len() + 2,
    decreases e, 1nat,
{
    let w = expression_words(names, e);
    let n = w.len();
    lemma_spells_split(t, y, q, seq![plain(Tok::LParen)] + w, seq![plain(Tok::RParen)]);
    lemma_spells_split(t, y, q, seq![plain(Tok::LParen)], w);
    lemma_spells_one(t, y, q, plain(Tok::LParen));
    lemma_spells_one(t, y, q + 1 + n, plain(Tok::RParen));
    lemma_expression_starts(names, e);
    lemma_spells_at(t, y, q + 1, w, 0);
    lemma_no_type(names, t, y, q + 1, e);
    let end = q + 1 + n;
    match type_at(t, y, q + 1) {
        None => {
            assert(types_at(t, y, q + 1, Seq::empty()) == (Seq::<Ty>::empty(), q + 1));
            assert(function_type_at(t, y, q) is None);
            assert(base_type_at(t, y, q) is None);
        },
        Some((inner, p)) => {
            assert(more_types_at(t, y, p, Seq::<Ty>::empty().push(inner)) == (
                Seq::<Ty>::empty().push(inner),
                p,
            ));
            assert(types_at(t, y, q + 1, Seq::empty()) == (Seq::<Ty>::empty().push(inner), p));
            assert(function_type_at(t, y, q) is None);
            if p < end {
                assert(base_type_at(t, y, q) is None);
            } else {
                assert(base_type_at(t, y, q) == Some((inner, p + 1)));
                assert(type_suffixes_at(t, p + 1, inner) == (inner, p + 1));
            }
        },
    }
}

/// No null literal is read where a written expression stands in
/// parentheses.
pub proof fn lemma_parens_not_null(names: Seq<Seq<char>>, t: Seq<Tok>, y: Seq<Id>, q: nat, e: Expr)
    requires
        written(e),
        spells(t, y, q, parens(expression_words(names, e))),
        free(t, q + expression_words(names, e).len() + 2),
    ensures
        null_at(t, y, q) is None,
{
    lemma_no_type_parens(names, t, y, q, e);
}

/// Whether what stands at `pos` goes on no operand: no suffix starts
/// there, and nothing that goes on a type.
pub open spec fn suffix_ends(t: Seq<Tok>, pos: nat) -> bool {
    &&& free(t, pos)
    &&& !(is(t, pos, Tok::LParen))
    &&& !(is(t, pos, Tok::LBracket))
    &&& !(is(t, pos, Tok::Dot))
}

/// Whether what stands at `pos` ends an expression: the text ends there,
/// or one of `)`, `]`, `}`, `,`, `;` and `=` stands there.
pub open spec fn expression_ends(t: Seq<Tok>, pos: nat) -> bool {
    pos >= t.len() || t[pos as int] == Tok::RParen || t[pos as int] == Tok::RBracket || t[pos as int]
        == Tok::RBrace || t[pos as int] == Tok::Comma || t[pos as int] == Tok::Semi || t[pos as int]
        == Tok::Eq
}

/// Whether the expression is an atom: neither an operation nor an
/// expression with a suffix.
pub open spec fn atomic(e: Expr) -> bool {
    e is CNull || e is CBool || e is CInt || e is CStr || e is Id || e is CArr || e is NewArr
        || e is Length
}

/// No expression is read where none can start.
pub proof fn lemma_no_expression(t: Seq<Tok>, y: Seq<Id>, q: nat)
    requires
        q >= t.len() || !starts_expression(t[q as int]),
    ensures
        expression_at(t, y, q) is None,
{
    assert(base_type_at(t, y, q) is None);
    assert(null_at(t, y, q) is None);
    assert(atom_at(t, y, q) is None);
    assert(postfix_at(t, y, q) is None);
    assert(unary_at(t, y, q) is None);
    assert(binary_at(t, y, q, 1) is None);
}

/// The order in which the facts on reading an expression are shown.
pub open spec fn expression_rank(e: Expr) -> nat {
    if e is Binary {
        1
    } else if e is Unary {
        2
    } else {
        3
    }
}

/// The order in which the facts on reading an operand are shown.
pub open spec fn operand_rank(e: Expr) -> nat {
    if e is Binary {
        3
    } else if e is Unary {
        1
    } else {
        2
    }
}

/// The order in which the facts on reading an expression in parentheses
/// are shown.
pub open spec fn parens_rank(e: Expr) -> nat {
    if e is Binary {
        2
    } else if e is Unary {
        3
    } else {
        4
    }
}

/// The order in which the facts on reading what a suffix follows are
/// shown.
pub open spec fn target_rank(e: Expr) -> nat {
    if e is Binary || e is Unary {
        4
    } else {
        1
    }
}

/// A written atom is read as that atom.
pub proof fn lemma_atom_read(names: Seq<Seq<char>>, t: Seq<Tok>, y: Seq<Id>, q: nat, e: Expr)
    requires
        written(e),
        atomic(e),
        spells(t, y, q, expression_words(names, e)),
        free(t, q + expression_words(names, e).len()),
    ensures
        atom_at(t, y, q) == Some((e, q + expression_words(names, e).len())),
    decreases e, 0nat,
{
    let w = expression_words(names, e);
    lemma_expression_starts(names, e);
    lemma_spells_at(t, y, q, w, 0);
    match e {
        Expr::CNull(r) => {
            let rw = reference_words(names, r);
            assert(w =~= rw + seq![plain(Tok::Null)]);
            lemma_spells_split(t, y, q, rw, seq![plain(Tok::Null)]);
            lemma_spells_one(t, y, q + rw.len(), plain(Tok::Null));
            lemma_reference_exact(names, t, y, q, r);
        },
        Expr::CBool(b) => {
            assert(base_type_at(t, y, q) is None);
        },
        Expr::CInt(v) => {
            assert(base_type_at(t, y, q) is None);
        },
        Expr::CStr(text) => {
            assert(base_type_at(t, y, q) is None);
        },
        Expr::Id(x) => {
            let base = Ty::Ref(RefTy::Struct(y[q as int]));
            assert(base_type_at(t, y, q) == Some((base, q + 1)));
            assert(type_suffixes_at(t, q + 1, base) == (base, q + 1));
            assert(null_at(t, y, q) is None);
        },
        Expr::CArr(ty, elements) => {
            let array = Ty::Ref(RefTy::Array(Box::new(ty)));
            let first = seq![plain(Tok::New)];
            let tw = type_words(names, array);
            let open = seq![plain(Tok::LBrace)];
            let lw = list_words(names, elements);
            let close = seq![plain(Tok::RBrace)];
            assert(w =~= ((first + tw) + open) + (lw + close));
            lemma_spells_split(t, y, q, (first + tw) + open, lw + close);
            lemma_spells_split(t, y, q, first + tw, open);
            lemma_spells_split(t, y, q, first, tw);
            let p = q + 1 + tw.len();
            lemma_spells_split(t, y, p + 1, lw, close);
            lemma_spells_one(t, y, q, plain(Tok::New));
            lemma_spells_one(t, y, p, plain(Tok::LBrace));
            lemma_spells_one(t, y, p + 1 + lw.len(), plain(Tok::RBrace));
            assert(base_type_at(t, y, q) is None);
            lemma_type_starts(names, array);
            lemma_type_exact(names, t, y, q + 1, array);
            lemma_list_read(names, t, y, p + 1, elements);
            assert(array_at(t, y, q) == Some((e, p + 1 + lw.len() + 1)));
        },
        Expr::NewArr(ty, length) => {
            let first = seq![plain(Tok::New)];
            let tw = type_words(names, ty);
            let open = seq![plain(Tok::LBracket)];
            let lw = expression_words(names, *length);
            let close = seq![plain(Tok::RBracket)];
            assert(w =~= ((first + tw) + open) + (lw + close));
            lemma_spells_split(t, y, q, (first + tw) + open, lw + close);
            lemma_spells_split(t, y, q, first + tw, open);
            lemma_spells_split(t, y, q, first, tw);
            let p = q + 1 + tw.len();
            lemma_spells_split(t, y, p + 1, lw, close);
            lemma_spells_one(t, y, q, plain(Tok::New));
            lemma_spells_one(t, y, p, plain(Tok::LBracket));
            lemma_spells_one(t, y, p + 1 + lw.len(), plain(Tok::RBracket));
            lemma_expression_starts(names, *length);
            lemma_spells_at(t, y, p + 1, lw, 0);
            assert(base_type_at(t, y, q) is None);
            lemma_type_starts(names, ty);
            lemma_type_exact(names, t, y, q + 1, ty);
            lemma_expression_read(names, t, y, p + 1, *length);
            assert(array_at(t, y, q) == Some((e, p + 1 + lw.len() + 1)));
        },
        Expr::Length(array) => {
            let first = seq![plain(Tok::Length), plain(Tok::LParen)];
            let aw = expression_words(names, *array);
            let close = seq![plain(Tok::RParen)];
            assert(w =~= first + (aw + close));
            lemma_spells_split(t, y, q, first, aw + close);
            lemma_spells_split(t, y, q + 2, aw, close);
            lemma_spells_two(t, y, q, plain(Tok::Length), plain(Tok::LParen));
            lemma_spells_one(t, y, q + 2 + aw.len(), plain(Tok::RParen));
            assert(base_type_at(t, y, q) is None);
            lemma_expression_read(names, t, y, q + 2, *array);
        },
        _ => {},
    }
}

/// A written expression in parentheses is read as that expression.
pub proof fn lemma_parens_read(names: Seq<Seq<char>>, t: Seq<Tok>, y: Seq<Id>, q: nat, e: Expr)
    requires
        written(e),
        spells(t, y, q, parens(expression_words(names, e))),
        free(t, q + expression_words(names, e).len() + 2),
    ensures
        atom_at(t, y, q) == Some((e, q + expression_words(names, e).len() + 2)),
    decreases e, parens_rank(e),
{
    let w = expression_words(names, e);
    lemma_spells_split(t, y, q, seq![plain(Tok::LParen)] + w, seq![plain(Tok::RParen)]);
    lemma_spells_split(t, y, q, seq![plain(Tok::LParen)], w);
    lemma_spells_one(t, y, q, plain(Tok::LParen));
    lemma_spells_one(t, y, q + 1 + w.len(), plain(Tok::RParen));
    lemma_parens_not_null(names, t, y, q, e);
    lemma_expression_read(names, t, y, q + 1, e);
}

/// What a suffix follows is read with the suffixes that follow it.
pub proof fn lemma_target_read(names: Seq<Seq<char>>, t: Seq<Tok>, y: Seq<Id>, q: nat, e: Expr)
    requires
        written(e),
        spells(t, y, q, target_words(names, e)),
        free(t, q + target_words(names, e).len()),
    ensures
        postfix_at(t, y, q) == Some(suffixes_at(t, y, q + target_words(names, e).len(), e)),
    decreases e, target_rank(e),
{
    let w = target_words(names, e);
    lemma_expression_starts(names, e);
    if e is Binary || e is Unary {
        lemma_parens_read(names, t, y, q, e);
    } else if atomic(e) {
        lemma_atom_read(names, t, y, q, e);
    } else {
        match e {
            Expr::Index { value, index } => {
                let tw = target_words(names, *value);
                let open = seq![plain(Tok::LBracket)];
                let iw = expression_words(names, *index);
                let close = seq![plain(Tok::RBracket)];
                assert(w =~= (tw + open) + (iw + close));
                lemma_spells_split(t, y, q, tw + open, iw + close);
                lemma_spells_split(t, y, q, tw, open);
                let p = q + tw.len();
                lemma_spells_split(t, y, p + 1, iw, close);
                lemma_spells_one(t, y, p, plain(Tok::LBracket));
                lemma_spells_one(t, y, p + 1 + iw.len(), plain(Tok::RBracket));
                lemma_expression_starts(names, *index);
                lemma_spells_at(t, y, p + 1, iw, 0);
                lemma_target_read(names, t, y, q, *value);
                lemma_expression_read(names, t, y, p + 1, *index);
                assert(suffixes_at(t, y, p, *value) == suffixes_at(t, y, p + 1 + iw.len() + 1, e));
            },
            Expr::Proj(object, field) => {
                let tw = target_words(names, *object);
                let rest = seq![plain(Tok::Dot), ident(names, field)];
                lemma_spells_split(t, y, q, tw, rest);
                let p = q + tw.len();
                lemma_spells_two(t, y, p, plain(Tok::Dot), ident(names, field));
                lemma_spells_at(t, y, p, rest, 1);
                lemma_target_read(names, t, y, q, *object);
                assert(suffixes_at(t, y, p, *object) == suffixes_at(t, y, p + 2, e));
            },
            Expr::Call(callee, args) => {
                let tw = target_words(names, *callee);
                let open = seq![plain(Tok::LParen)];
                let lw = list_words(names, args);
                let close = seq![plain(Tok::RParen)];
                assert(w =~= (tw + open) + (lw + close));
                lemma_spells_split(t, y, q, tw + open, lw + close);
                lemma_spells_split(t, y, q, tw, open);
                let p = q + tw.len();
                lemma_spells_split(t, y, p + 1, lw, close);
                lemma_spells_one(t, y, p, plain(Tok::LParen));
                lemma_spells_one(t, y, p + 1 + lw.len(), plain(Tok::RParen));
                lemma_target_read(names, t, y, q, *callee);
                lemma_list_read(names, t, y, p + 1, args);
                assert(suffixes_at(t, y, p, *callee) == suffixes_at(t, y, p + 1 + lw.len() + 1, e));
            },
            _ => {},
        }
    }
}

/// A written operand is read as that operand.
pub proof fn lemma_operand_read(names: Seq<Seq<char>>, t: Seq<Tok>, y: Seq<Id>, q: nat, e: Expr)
    requires
        written(e),
        spells(t, y, q, operand_words(names, e)),
        suffix_ends(t, q + operand_words(names, e).len()),
    ensures
        unary_at(t, y, q) == Some((e, q + operand_words(names, e).len())),
    decreases e, operand_rank(e),
{
    let w = operand_words(names, e);
    let end = q + w.len();
    lemma_expression_starts(names, e);
    lemma_spells_at(t, y, q, w, 0);
    match e {
        Expr::Binary { op, left, right } => {
            lemma_parens_read(names, t, y, q, e);
            assert(suffixes_at(t, y, end, e) == (e, end));
            assert(postfix_at(t, y, q) == Some((e, end)));
        },
        Expr::Unary(op, operand) => {
            let first = seq![plain(unary_token(op))];
            let ow = operand_words(names, *operand);
            lemma_spells_split(t, y, q, first, ow);
            lemma_spells_one(t, y, q, plain(unary_token(op)));
            assert(unary_operator(t[q as int]) == Some(op));
            lemma_operand_read(names, t, y, q + 1, *operand);
        },
        _ => {
            lemma_target_read(names, t, y, q, e);
            assert(suffixes_at(t, y, end, e) == (e, end));
            assert(unary_operator(t[q as int]) is None);
        },
    }
}

/// A written expression is read as that expression.
pub proof fn lemma_expression_read(names: Seq<Seq<char>>, t: Seq<Tok>, y: Seq<Id>, q: nat, e: Expr)
    requires
        written(e),
        spells(t, y, q, expression_words(names, e)),
        expression_ends(t, q + expression_words(names, e).len()),
    ensures
        expression_at(t, y, q) == Some((e, q + expression_words(names, e).len())),
    decreases e, expression_rank(e),
{
    let w = expression_words(names, e);
    let end = q + w.len();
    lemma_expression_starts(names, e);
    match e {
        Expr::Binary { op, left, right } => {
            let lw = operand_words(names, *left);
            let ow = seq![plain(binary_token(op))];
            let rw = operand_words(names, *right);
            lemma_spells_split(t, y, q, lw + ow, rw);
            lemma_spells_split(t, y, q, lw, ow);
            let p = q + lw.len();
            lemma_spells_one(t, y, p, plain(binary_token(op)));
            lemma_expression_starts(names, *left);
            lemma_expression_starts(names, *right);
            assert(binary_operator(binary_token(op)) == Some(op));
            lemma_operand_read(names, t, y, q, *left);
            lemma_operand_read(names, t, y, p + 1, *right);
            assert(operator_at(t, end) is None);
            assert(operators_at(t, y, end, *right, precedence(op) + 1) == (*right, end));
            assert(binary_at(t, y, p + 1, precedence(op) + 1) == Some((*right, end)));
            assert(operators_at(t, y, end, e, 1) == (e, end));
            assert(operator_at(t, p) == Some(op));
            assert(operators_at(t, y, p, *left, 1) == (e, end));
            assert(binary_at(t, y, q, 1) == Some((e, end)));
        },
        _ => {
            lemma_operand_read(names, t, y, q, e);
            assert(operator_at(t, end) is None);
            assert(operators_at(t, y, end, e, 1) == (e, end));
            assert(binary_at(t, y, q, 1) == Some((e, end)));
        },
    }
}

/// Whether every expression of the list can be written.
pub open spec fn all_written(list: Seq<Expr>) -> bool {
    forall|i: int| 0 <= i < list.len() ==> written(#[trigger] list[i])
}

/// A written list of expressions, which `)` or `}` follows, is read as
/// that list.
pub proof fn lemma_list_read(names: Seq<Seq<char>>, t: Seq<Tok>, y: Seq<Id>, q: nat, list: Seq<Expr>)
    requires
        all_written(list),
        spells(t, y, q, list_words(names, list)),
        is(t, q + list_words(names, list).len(), Tok::RParen) || is(
            t,
            q + list_words(names, list).len(),
            Tok::RBrace,
        ),
    ensures
        expressions_at(t, y, q, Seq::empty()) == (list, q + list_words(names, list).len()),
    decreases list, list.len() + 1,
{
    if list.len() == 0 {
        lemma_no_expression(t, y, q);
        assert(list =~= Seq::empty());
    } else {
        let first = expression_words(names, list[0]);
        let rest = more_list_words(names, list, 1);
        lemma_spells_split(t, y, q, first, rest);
        lemma_expression_starts(names, list[0]);
        let p = q + first.len();
        lemma_more_list_first(names, t, y, p, list, 1);
        lemma_expression_read(names, t, y, q, list[0]);
        lemma_more_list_read(names, t, y, p, list, 1, seq![list[0]]);
        assert(Seq::<Expr>::empty().push(list[0]) =~= seq![list[0]]);
        assert(seq![list[0]] + list.subrange(1, list.len() as int) =~= list);
    }
}

/// What stands where the rest of a list of expressions is written: a
/// comma, or what follows the list.
pub proof fn lemma_more_list_first(
    names: Seq<Seq<char>>,
    t: Seq<Tok>,
    y: Seq<Id>,
    q: nat,
    list: Seq<Expr>,
    i: nat,
)
    requires
        spells(t, y, q, more_list_words(names, list, i)),
        expression_ends(t, q + more_list_words(names, list, i).len()),
    ensures
        expression_ends(t, q),
{
    if i < list.len() {
        let w = more_list_words(names, list, i);
        assert(w[0] == plain(Tok::Comma));
        lemma_spells_at(t, y, q, w, 0);
    }
}

/// The rest of a written list of expressions is read as the rest of that
/// list.
pub proof fn lemma_more_list_read(
    names: Seq<Seq<char>>,
    t: Seq<Tok>,
    y: Seq<Id>,
    q: nat,
    list: Seq<Expr>,
    i: nat,
    acc: Seq<Expr>,
)
    requires
        i <= list.len(),
        all_written(list),
        spells(t, y, q, more_list_words(names, list, i)),
        is(t, q + more_list_words(names, list, i).len(), Tok::RParen) || is(
            t,
            q + more_list_words(names, list, i).len(),
            Tok::RBrace,
        ),
    ensures
        more_expressions_at(t, y, q, acc) == (
            acc + list.subrange(i as int, list.len() as int),
            q + more_list_words(names, list, i).len(),
        ),
    decreases list, list.len() - i,
{
    if i >= list.len() {
        assert(acc + list.subrange(i as int, list.len() as int) =~= acc);
    } else {
        let comma = seq![plain(Tok::Comma)];
        let here = expression_words(names, list[i as int]);
        let rest = more_list_words(names, list, i + 1);
        lemma_spells_split(t, y, q, comma + here, rest);
        lemma_spells_split(t, y, q, comma, here);
        lemma_spells_one(t, y, q, plain(Tok::Comma));
        lemma_expression_starts(names, list[i as int]);
        let p = q + 1 + here.len();
        lemma_more_list_first(names, t, y, p, list, i + 1);
        lemma_expression_read(names, t, y, q + 1, list[i as int]);
        lemma_more_list_read(names, t, y, p, list, i + 1, acc.push(list[i as int]));
        assert(acc.push(list[i as int]) + list.subrange(i as int + 1, list.len() as int) =~= acc
            + list.subrange(i as int, list.len() as int));
    }
}

/// Whether the statement can be written: so can its expressions and its
/// statements, and what a `for` loop does after each turn is an
/// assignment or a call.
pub open spec fn written_statement(s: Stmt) -> bool
    decreases s,
{
    match s {
        Stmt::Assignment(target, value) => written(target) && written(value),
        Stmt::Declaration(_, init) => written(init),
        Stmt::SCall(callee, args) => written(callee) && all_written(args),
        Stmt::If { condition, then, else_ } => written(condition) && (forall|i: int|
            0 <= i < then.len() ==> written_statement(#[trigger] then[i])) && (forall|i: int|
            0 <= i < else_.len() ==> written_statement(#[trigger] else_[i])),
        Stmt::Cast(_, _, source, then, else_) => written(source) && (forall|i: int|
            0 <= i < then.len() ==> written_statement(#[trigger] then[i])) && (forall|i: int|
            0 <= i < else_.len() ==> written_statement(#[trigger] else_[i])),
        Stmt::For { init, condition, update, body } => (forall|i: int|
            0 <= i < init.len() ==> written((#[trigger] init[i]).1)) && (match condition {
            Some(c) => written(c),
            None => true,
        }) && (match update {
            Some(u) => (*u is Assignment || *u is SCall) && written_statement(*u),
            None => true,
        }) && (forall|i: int| 0 <= i < body.len() ==> written_statement(#[trigger] body[i])),
        Stmt::While { condition, body } => written(condition) && (forall|i: int|
            0 <= i < body.len() ==> written_statement(#[trigger] body[i])),
        Stmt::Return(None) => true,
        Stmt::Return(Some(value)) => written(value),
    }
}

/// Whether every statement of the block can be written.
pub open spec fn written_block(block: Seq<Stmt>) -> bool {
    forall|i: int| 0 <= i < block.len() ==> written_statement(#[trigger] block[i])
}

/// A binding `id = e`, written as tokens.
pub open spec fn binding_words(names: Seq<Seq<char>>, x: Id, e: Expr) -> Seq<(Tok, Id)> {
    seq![ident(names, x), plain(Tok::Eq)] + expression_words(names, e)
}

/// The bindings from position `i` on, each written after a comma.
pub open spec fn more_bindings_words(names: Seq<Seq<char>>, list: Seq<(Id, Expr)>, i: nat) -> Seq<
    (Tok, Id),
>
    decreases list.len() - i,
{
    if i >= list.len() {
        Seq::empty()
    } else {
        seq![plain(Tok::Comma)] + binding_words(names, list[i as int].0, list[i as int].1)
            + more_bindings_words(names, list, i + 1)
    }
}

/// The initializers of a `for` loop, written as tokens: nothing, or `var`
/// and the bindings.
pub open spec fn initializers_words(names: Seq<Seq<char>>, list: Seq<(Id, Expr)>) -> Seq<(Tok, Id)> {
    if list.len() == 0 {
        Seq::empty()
    } else {
        seq![plain(Tok::Var)] + binding_words(names, list[0].0, list[0].1) + more_bindings_words(
            names,
            list,
            1,
        )
    }
}

/// An assignment or a call, written as tokens without the `;` that ends
/// it as a statement.
pub open spec fn simple_words(names: Seq<Seq<char>>, s: Stmt) -> Seq<(Tok, Id)> {
    match s {
        Stmt::Assignment(target, value) => expression_words(names, target) + seq![plain(Tok::Eq)]
            + expression_words(names, value),
        Stmt::SCall(callee, args) => expression_words(names, Expr::Call(Box::new(callee), args)),
        _ => Seq::empty(),
    }
}

/// A statement, written as tokens.
pub open spec fn statement_words(names: Seq<Seq<char>>, s: Stmt) -> Seq<(Tok, Id)>
    decreases s, 0nat,
{
    match s {
        Stmt::Assignment(_, _) => simple_words(names, s).push(plain(Tok::Semi)),
        Stmt::SCall(_, _) => simple_words(names, s).push(plain(Tok::Semi)),
        Stmt::Declaration(x, init) => seq![plain(Tok::Var)] + binding_words(names, x, init).push(
            plain(Tok::Semi),
        ),
        Stmt::If { condition, then, else_ } => seq![plain(Tok::If), plain(Tok::LParen)]
            + expression_words(names, condition) + seq![plain(Tok::RParen)] + block_words(
            names,
            then,
        ) + seq![plain(Tok::Else)] + block_words(names, else_),
        Stmt::Cast(r, x, source, then, else_) => seq![plain(Tok::Ifq), plain(Tok::LParen)]
            + reference_words(names, r) + binding_words(names, x, source) + seq![
            plain(Tok::RParen),
        ] + block_words(names, then) + seq![plain(Tok::Else)] + block_words(names, else_),
        Stmt::For { init, condition, update, body } => seq![plain(Tok::For), plain(Tok::LParen)]
            + initializers_words(names, init) + seq![plain(Tok::Semi)] + condition_words(
            names,
            condition,
        ) + seq![plain(Tok::Semi)] + update_words(names, update) + seq![plain(Tok::RParen)]
            + block_words(names, body),
        Stmt::While { condition, body } => seq![plain(Tok::While), plain(Tok::LParen)]
            + expression_words(names, condition) + seq![plain(Tok::RParen)] + block_words(
            names,
            body,
        ),
        Stmt::Return(None) => seq![plain(Tok::Return), plain(Tok::Semi)],
        Stmt::Return(Some(value)) => seq![plain(Tok::Return)] + expression_words(names, value).push(
            plain(Tok::Semi),
        ),
    }
}

/// A block, written as tokens: its statements in braces.
pub open spec fn block_words(names: Seq<Seq<char>>, block: Seq<Stmt>) -> Seq<(Tok, Id)>
    decreases block, block.len() + 1,
{
    seq![plain(Tok::LBrace)] + statements_words(names, block, 0).push(plain(Tok::RBrace))
}

/// The statements from position `i` on, written as tokens.
pub open spec fn statements_words(names: Seq<Seq<char>>, block: Seq<Stmt>, i: nat) -> Seq<(Tok, Id)>
    decreases block, block.len() - i,
{
    if i >= block.len() {
        Seq::empty()
    } else {
        statement_words(names, block[i as int]) + statements_words(names, block, i + 1)
    }
}

/// A written binding is read as that binding.
pub proof fn lemma_binding_read(names: Seq<Seq<char>>, t: Seq<Tok>, y: Seq<Id>, q: nat, x: Id, e: Expr)
    requires
        written(e),
        spells(t, y, q, binding_words(names, x, e)),
        expression_ends(t, q + binding_words(names, x, e).len()),
    ensures
        binding_at(t, y, q) == Some(((x, e), q + binding_words(names, x, e).len())),
        binding_words(names, x, e).len() > 2,
{
    let first = seq![ident(names, x), plain(Tok::Eq)];
    let w = expression_words(names, e);
    lemma_spells_split(t, y, q, first, w);
    lemma_spells_two(t, y, q, ident(names, x), plain(Tok::Eq));
    lemma_spells_at(t, y, q, first, 0);
    lemma_expression_starts(names, e);
    lemma_expression_read(names, t, y, q + 2, e);
}

/// The rest of a written list of bindings, which `;` follows, is read as
/// the rest of that list.
pub proof fn lemma_more_bindings_read(
    names: Seq<Seq<char>>,
    t: Seq<Tok>,
    y: Seq<Id>,
    q: nat,
    list: Seq<(Id, Expr)>,
    i: nat,
    acc: Seq<(Id, Expr)>,
)
    requires
        i <= list.len(),
        forall|k: int| 0 <= k < list.len() ==> written((#[trigger] list[k]).1),
        spells(t, y, q, more_bindings_words(names, list, i)),
        is(t, q + more_bindings_words(names, list, i).len(), Tok::Semi),
    ensures
        more_bindings_at(t, y, q, acc) == (
            acc + list.subrange(i as int, list.len() as int),
            q + more_bindings_words(names, list, i).len(),
        ),
        expression_ends(t, q),
    decreases list.len() - i,
{
    if i >= list.len() {
        assert(acc + list.subrange(i as int, list.len() as int) =~= acc);
    } else {
        let comma = seq![plain(Tok::Comma)];
        let here = binding_words(names, list[i as int].0, list[i as int].1);
        let rest = more_bindings_words(names, list, i + 1);
        lemma_spells_split(t, y, q, comma + here, rest);
        lemma_spells_split(t, y, q, comma, here);
        lemma_spells_one(t, y, q, plain(Tok::Comma));
        let p = q + 1 + here.len();
        lemma_more_bindings_read(names, t, y, p, list, i + 1, acc.push(list[i as int]));
        lemma_binding_read(names, t, y, q + 1, list[i as int].0, list[i as int].1);
        assert(acc.push(list[i as int]) + list.subrange(i as int + 1, list.len() as int) =~= acc
            + list.subrange(i as int, list.len() as int));
    }
}

/// The written initializers of a `for` loop are read as those
/// initializers.
pub proof fn lemma_initializers_read(
    names: Seq<Seq<char>>,
    t: Seq<Tok>,
    y: Seq<Id>,
    q: nat,
    list: Seq<(Id, Expr)>,
)
    requires
        forall|k: int| 0 <= k < list.len() ==> written((#[trigger] list[k]).1),
        spells(t, y, q, initializers_words(names, list)),
        is(t, q + initializers_words(names, list).len(), Tok::Semi),
    ensures
        initializers_at(t, y, q) == (list, q + initializers_words(names, list).len()),
{
    if list.len() == 0 {
        assert(list =~= Seq::empty());
    } else {
        let first = seq![plain(Tok::Var)];
        let here = binding_words(names, list[0].0, list[0].1);
        let rest = more_bindings_words(names, list, 1);
        lemma_spells_split(t, y, q, first + here, rest);
        lemma_spells_split(t, y, q, first, here);
        lemma_spells_one(t, y, q, plain(Tok::Var));
        let p = q + 1 + here.len();
        lemma_more_bindings_read(names, t, y, p, list, 1, seq![list[0]]);
        lemma_binding_read(names, t, y, q + 1, list[0].0, list[0].1);
        assert(seq![list[0]] + list.subrange(1, list.len() as int) =~= list);
    }
}

/// A written assignment or call is read as that statement.
pub proof fn lemma_simple_read(names: Seq<Seq<char>>, t: Seq<Tok>, y: Seq<Id>, q: nat, s: Stmt)
    requires
        s is Assignment || s is SCall,
        written_statement(s),
        spells(t, y, q, simple_words(names, s)),
        is(t, q + simple_words(names, s).len(), Tok::Semi) || is(
            t,
            q + simple_words(names, s).len(),
            Tok::RParen,
        ),
    ensures
        simple_at(t, y, q) == Some((s, q + simple_words(names, s).len())),
        simple_words(names, s).len() > 0,
        starts_expression(simple_words(names, s)[0].0),
{
    match s {
        Stmt::Assignment(target, value) => {
            let tw = expression_words(names, target);
            let eq = seq![plain(Tok::Eq)];
            let vw = expression_words(names, value);
            lemma_spells_split(t, y, q, tw + eq, vw);
            lemma_spells_split(t, y, q, tw, eq);
            lemma_spells_one(t, y, q + tw.len(), plain(Tok::Eq));
            lemma_expression_starts(names, target);
            assert((tw + eq + vw)[0] == tw[0]);
            lemma_expression_read(names, t, y, q, target);
            lemma_expression_read(names, t, y, q + tw.len() + 1, value);
        },
        Stmt::SCall(callee, args) => {
            let call = Expr::Call(Box::new(callee), args);
            lemma_expression_starts(names, call);
            lemma_expression_read(names, t, y, q, call);
        },
        _ => {},
    }
}

/// A statement is written with at least one token, and a block with at
/// least two.
pub proof fn lemma_statement_starts(names: Seq<Seq<char>>, s: Stmt)
    requires
        written_statement(s),
    ensures
        statement_words(names, s).len() > 0,
{
    match s {
        Stmt::Assignment(target, value) => {},
        Stmt::SCall(callee, args) => {},
        Stmt::Declaration(x, init) => {},
        Stmt::If { condition, then, else_ } => {},
        Stmt::Cast(r, x, source, then, else_) => {},
        Stmt::For { init, condition, update, body } => {},
        Stmt::While { condition, body } => {},
        Stmt::Return(None) => {},
        Stmt::Return(Some(value)) => {},
    }
}

/// No statement is read where `}` stands.
pub proof fn lemma_no_statement(t: Seq<Tok>, y: Seq<Id>, q: nat)
    requires
        is(t, q, Tok::RBrace),
    ensures
        statement_at(t, y, q) is None,
{
    lemma_no_expression(t, y, q);
}

/// Where a block, `else` and another block are written one after the
/// other, each stands in the text.
pub proof fn lemma_branches_split(
    t: Seq<Tok>,
    y: Seq<Id>,
    q: nat,
    then: Seq<(Tok, Id)>,
    else_: Seq<(Tok, Id)>,
)
    requires
        spells(t, y, q, then + seq![plain(Tok::Else)] + else_),
    ensures
        spells(t, y, q, then),
        is(t, q + then.len(), Tok::Else),
        spells(t, y, q + then.len() + 1, else_),
{
    lemma_spells_split(t, y, q, then + seq![plain(Tok::Else)], else_);
    lemma_spells_split(t, y, q, then, seq![plain(Tok::Else)]);
    lemma_spells_one(t, y, q + then.len(), plain(Tok::Else));
}

/// Whether the written block is read as that block at `q`.
pub open spec fn block_read(names: Seq<Seq<char>>, t: Seq<Tok>, y: Seq<Id>, q: nat, block: Seq<Stmt>) -> bool {
    &&& block_at(t, y, q) == Some((block, q + block_words(names, block).len()))
    &&& block_words(names, block).len() >= 2
    &&& q + block_words(names, block).len() <= t.len()
}

/// A written assignment, call, declaration or return is read as that
/// statement.
pub proof fn lemma_plain_statement_read(names: Seq<Seq<char>>, t: Seq<Tok>, y: Seq<Id>, q: nat, s: Stmt)
    requires
        s is Assignment || s is SCall || s is Declaration || s is Return,
        written_statement(s),
        spells(t, y, q, statement_words(names, s)),
    ensures
        statement_at(t, y, q) == Some((s, q + statement_words(names, s).len())),
{
    let w = statement_words(names, s);
    let end = q + w.len();
    lemma_statement_starts(names, s);
    lemma_spells_at(t, y, q, w, 0);
    match s {
        Stmt::Assignment(_, _) | Stmt::SCall(_, _) => {
            let sw = simple_words(names, s);
            let semi = seq![plain(Tok::Semi)];
            assert(w =~= sw + semi);
            lemma_spells_split(t, y, q, sw, semi);
            lemma_spells_one(t, y, q + sw.len(), plain(Tok::Semi));
            lemma_simple_read(names, t, y, q, s);
            assert(w[0] == sw[0]);
        },
        Stmt::Declaration(x, init) => {
            let first = seq![plain(Tok::Var)];
            let bw = binding_words(names, x, init);
            let semi = seq![plain(Tok::Semi)];
            assert(w =~= (first + bw) + semi);
            lemma_spells_split(t, y, q, first + bw, semi);
            lemma_spells_split(t, y, q, first, bw);
            lemma_spells_one(t, y, q, plain(Tok::Var));
            lemma_spells_one(t, y, q + 1 + bw.len(), plain(Tok::Semi));
            lemma_binding_read(names, t, y, q + 1, x, init);
        },
        Stmt::Return(None) => {
            lemma_spells_two(t, y, q, plain(Tok::Return), plain(Tok::Semi));
        },
        Stmt::Return(Some(value)) => {
            let first = seq![plain(Tok::Return)];
            let vw = expression_words(names, value);
            let semi = seq![plain(Tok::Semi)];
            assert(w =~= (first + vw) + semi);
            lemma_spells_split(t, y, q, first + vw, semi);
            lemma_spells_split(t, y, q, first, vw);
            lemma_spells_one(t, y, q, plain(Tok::Return));
            lemma_spells_one(t, y, q + 1 + vw.len(), plain(Tok::Semi));
            lemma_expression_starts(names, value);
            lemma_spells_at(t, y, q + 1, vw, 0);
            lemma_expression_read(names, t, y, q + 1, value);
        },
        _ => {},
    }
}

/// Where the two blocks of a written `if` stand.
pub open spec fn if_blocks(names: Seq<Seq<char>>, q: nat, s: Stmt) -> (nat, nat) {
    let p = q + 2 + expression_words(names, s->If_condition).len() + 1;
    (p, p + block_words(names, s->If_then).len() + 1)
}

/// The blocks of a written `if` stand where `if_blocks` says.
pub proof fn lemma_if_split(names: Seq<Seq<char>>, t: Seq<Tok>, y: Seq<Id>, q: nat, s: Stmt)
    requires
        s is If,
        written_statement(s),
        spells(t, y, q, statement_words(names, s)),
    ensures
        spells(t, y, if_blocks(names, q, s).0, block_words(names, s->If_then)),
        spells(t, y, if_blocks(names, q, s).1, block_words(names, s->If_else_)),
        is(t, q, Tok::If),
        is(t, q + 1, Tok::LParen),
        expression_at(t, y, q + 2) == Some(
            (s->If_condition, (if_blocks(names, q, s).0 - 1) as nat),
        ),
        is(t, (if_blocks(names, q, s).0 - 1) as nat, Tok::RParen),
        is(t, (if_blocks(names, q, s).1 - 1) as nat, Tok::Else),
        if_blocks(names, q, s).1 + block_words(names, s->If_else_).len() == q + statement_words(
            names,
            s,
        ).len(),
{
    let w = statement_words(names, s);
    match s {
        Stmt::If { condition, then, else_ } => {
            let first = seq![plain(Tok::If), plain(Tok::LParen)];
            let cw = expression_words(names, condition);
            let close = seq![plain(Tok::RParen)];
            let rest = block_words(names, then) + seq![plain(Tok::Else)] + block_words(names, else_);
            assert(w =~= ((first + cw) + close) + rest);
            lemma_spells_split(t, y, q, (first + cw) + close, rest);
            lemma_spells_split(t, y, q, first + cw, close);
            lemma_spells_split(t, y, q, first, cw);
            lemma_spells_two(t, y, q, plain(Tok::If), plain(Tok::LParen));
            let p = q + 2 + cw.len();
            lemma_spells_one(t, y, p, plain(Tok::RParen));
            lemma_expression_read(names, t, y, q + 2, condition);
            lemma_branches_split(t, y, p + 1, block_words(names, then), block_words(names, else_));
        },
        _ => {},
    }
}

/// A written `if` whose blocks are read as they are written is read as
/// that statement.
pub proof fn lemma_if_join(names: Seq<Seq<char>>, t: Seq<Tok>, y: Seq<Id>, q: nat, s: Stmt)
    requires
        s is If,
        written_statement(s),
        spells(t, y, q, statement_words(names, s)),
        block_read(names, t, y, if_blocks(names, q, s).0, s->If_then),
        block_read(names, t, y, if_blocks(names, q, s).1, s->If_else_),
    ensures
        statement_at(t, y, q) == Some((s, q + statement_words(names, s).len())),
{
    lemma_if_split(names, t, y, q, s);
    let (p1, p2) = if_blocks(names, q, s);
    let end = q + statement_words(names, s).len();
    assert(else_at(t, y, (p2 - 1) as nat) == (s->If_else_, end));
    assert(if_at(t, y, q) == Some((s, end)));
}

/// Where the two blocks of a written `if?` stand.
pub open spec fn cast_blocks(names: Seq<Seq<char>>, q: nat, s: Stmt) -> (nat, nat) {
    let p = q + 2 + reference_words(names, s->Cast_0).len() + binding_words(
        names,
        s->Cast_1,
        s->Cast_2,
    ).len() + 1;
    (p, p + block_words(names, s->Cast_3).len() + 1)
}

/// The blocks of a written `if?` stand where `cast_blocks` says.
pub proof fn lemma_cast_split(names: Seq<Seq<char>>, t: Seq<Tok>, y: Seq<Id>, q: nat, s: Stmt)
    requires
        s is Cast,
        written_statement(s),
        spells(t, y, q, statement_words(names, s)),
    ensures
        spells(t, y, cast_blocks(names, q, s).0, block_words(names, s->Cast_3)),
        spells(t, y, cast_blocks(names, q, s).1, block_words(names, s->Cast_4)),
        is(t, q, Tok::Ifq),
        is(t, q + 1, Tok::LParen),
        reference_type_at(t, y, q + 2) == Some(
            (s->Cast_0, q + 2 + reference_words(names, s->Cast_0).len()),
        ),
        binding_at(t, y, q + 2 + reference_words(names, s->Cast_0).len()) == Some(
            ((s->Cast_1, s->Cast_2), (cast_blocks(names, q, s).0 - 1) as nat),
        ),
        is(t, (cast_blocks(names, q, s).0 - 1) as nat, Tok::RParen),
        is(t, (cast_blocks(names, q, s).1 - 1) as nat, Tok::Else),
        cast_blocks(names, q, s).1 + block_words(names, s->Cast_4).len() == q + statement_words(
            names,
            s,
        ).len(),
{
    let w = statement_words(names, s);
    match s {
        Stmt::Cast(r, x, source, then, else_) => {
            let first = seq![plain(Tok::Ifq), plain(Tok::LParen)];
            let rw = reference_words(names, r);
            let bw = binding_words(names, x, source);
            let close = seq![plain(Tok::RParen)];
            let rest = block_words(names, then) + seq![plain(Tok::Else)] + block_words(names, else_);
            assert(w =~= (((first + rw) + bw) + close) + rest);
            lemma_spells_split(t, y, q, ((first + rw) + bw) + close, rest);
            lemma_spells_split(t, y, q, (first + rw) + bw, close);
            lemma_spells_split(t, y, q, first + rw, bw);
            lemma_spells_split(t, y, q, first, rw);
            lemma_spells_two(t, y, q, plain(Tok::Ifq), plain(Tok::LParen));
            let p = q + 2 + rw.len();
            lemma_spells_at(t, y, p, bw, 0);
            lemma_spells_at(t, y, p, bw, 1);
            let u = p + bw.len();
            lemma_spells_one(t, y, u, plain(Tok::RParen));
            lemma_reference_exact(names, t, y, q + 2, r);
            lemma_binding_read(names, t, y, p, x, source);
            lemma_branches_split(t, y, u + 1, block_words(names, then), block_words(names, else_));
        },
        _ => {},
    }
}

/// A written `if?` whose blocks are read as they are written is read as
/// that statement.
pub proof fn lemma_cast_join(names: Seq<Seq<char>>, t: Seq<Tok>, y: Seq<Id>, q: nat, s: Stmt)
    requires
        s is Cast,
        written_statement(s),
        spells(t, y, q, statement_words(names, s)),
        block_read(names, t, y, cast_blocks(names, q, s).0, s->Cast_3),
        block_read(names, t, y, cast_blocks(names, q, s).1, s->Cast_4),
    ensures
        statement_at(t, y, q) == Some((s, q + statement_words(names, s).len())),
{
    lemma_cast_split(names, t, y, q, s);
    let (p1, p2) = cast_blocks(names, q, s);
    let end = q + statement_words(names, s).len();
    assert(else_at(t, y, (p2 - 1) as nat) == (s->Cast_4, end));
    assert(cast_at(t, y, q) == Some((s, end)));
}

/// Where the block of a written `while` stands.
pub open spec fn while_block(names: Seq<Seq<char>>, q: nat, s: Stmt) -> nat {
    q + 2 + expression_words(names, s->While_condition).len() + 1
}

/// The block of a written `while` stands where `while_block` says.
pub proof fn lemma_while_split(names: Seq<Seq<char>>, t: Seq<Tok>, y: Seq<Id>, q: nat, s: Stmt)
    requires
        s is While,
        written_statement(s),
        spells(t, y, q, statement_words(names, s)),
    ensures
        spells(t, y, while_block(names, q, s), block_words(names, s->While_body)),
        is(t, q, Tok::While),
        is(t, q + 1, Tok::LParen),
        expression_at(t, y, q + 2) == Some(
            (s->While_condition, (while_block(names, q, s) - 1) as nat),
        ),
        is(t, (while_block(names, q, s) - 1) as nat, Tok::RParen),
        while_block(names, q, s) + block_words(names, s->While_body).len() == q + statement_words(
            names,
            s,
        ).len(),
{
    let w = statement_words(names, s);
    match s {
        Stmt::While { condition, body } => {
            let first = seq![plain(Tok::While), plain(Tok::LParen)];
            let cw = expression_words(names, condition);
            let close = seq![plain(Tok::RParen)];
            let bw = block_words(names, body);
            assert(w =~= ((first + cw) + close) + bw);
            lemma_spells_split(t, y, q, (first + cw) + close, bw);
            lemma_spells_split(t, y, q, first + cw, close);
            lemma_spells_split(t, y, q, first, cw);
            lemma_spells_two(t, y, q, plain(Tok::While), plain(Tok::LParen));
            let p = q + 2 + cw.len();
            lemma_spells_one(t, y, p, plain(Tok::RParen));
            lemma_expression_read(names, t, y, q + 2, condition);
        },
        _ => {},
    }
}

/// A written `while` whose block is read as it is written is read as
/// that statement.
pub proof fn lemma_while_join(names: Seq<Seq<char>>, t: Seq<Tok>, y: Seq<Id>, q: nat, s: Stmt)
    requires
        s is While,
        written_statement(s),
        spells(t, y, q, statement_words(names, s)),
        block_read(names, t, y, while_block(names, q, s), s->While_body),
    ensures
        statement_at(t, y, q) == Some((s, q + statement_words(names, s).len())),
{
    lemma_while_split(names, t, y, q, s);
    let end = q + statement_words(names, s).len();
    assert(while_at(t, y, q) == Some((s, end)));
}

/// The condition of a `for` loop, written as tokens.
pub open spec fn condition_words(names: Seq<Seq<char>>, condition: Option<Expr>) -> Seq<(Tok, Id)> {
    match condition {
        Some(c) => expression_words(names, c),
        None => Seq::empty(),
    }
}

/// What a `for` loop does after each turn, written as tokens.
pub open spec fn update_words(names: Seq<Seq<char>>, update: Option<Box<Stmt>>) -> Seq<(Tok, Id)> {
    match update {
        Some(u) => simple_words(names, *u),
        None => Seq::empty(),
    }
}

/// Where the block of a written `for` stands.
pub open spec fn for_block(names: Seq<Seq<char>>, q: nat, s: Stmt) -> nat {
    q + 2 + initializers_words(names, s->For_init).len() + 1 + condition_words(
        names,
        s->For_condition,
    ).len() + 1 + update_words(names, s->For_update).len() + 1
}

/// The block of a written `for` stands where `for_block` says, and what
/// stands before it is read as the head of the loop.
pub proof fn lemma_for_split(names: Seq<Seq<char>>, t: Seq<Tok>, y: Seq<Id>, q: nat, s: Stmt)
    requires
        s is For,
        written_statement(s),
        spells(t, y, q, statement_words(names, s)),
    ensures
        spells(t, y, for_block(names, q, s), block_words(names, s->For_body)),
        is(t, q, Tok::For),
        is(t, q + 1, Tok::LParen),
        ({
            let p = q + 2 + initializers_words(names, s->For_init).len();
            let c = p + 1 + condition_words(names, s->For_condition).len();
            let u = c + 1 + update_words(names, s->For_update).len();
            &&& initializers_at(t, y, q + 2) == (s->For_init, p)
            &&& is(t, p, Tok::Semi)
            &&& match s->For_condition {
                Some(e) => expression_at(t, y, p + 1) == Some((e, c)),
                None => expression_at(t, y, p + 1) is None,
            }
            &&& is(t, c, Tok::Semi)
            &&& match s->For_update {
                Some(b) => simple_at(t, y, c + 1) == Some((*b, u)),
                None => simple_at(t, y, c + 1) is None,
            }
            &&& is(t, u, Tok::RParen)
            &&& u + 1 == for_block(names, q, s)
        }),
        for_block(names, q, s) + block_words(names, s->For_body).len() == q + statement_words(
            names,
            s,
        ).len(),
{
    let w = statement_words(names, s);
    match s {
        Stmt::For { init, condition, update, body } => {
            let first = seq![plain(Tok::For), plain(Tok::LParen)];
            let iw = initializers_words(names, init);
            let semi = seq![plain(Tok::Semi)];
            let cw = condition_words(names, condition);
            let uw = update_words(names, update);
            let close = seq![plain(Tok::RParen)];
            let bw = block_words(names, body);
            assert(w =~= ((((((first + iw) + semi) + cw) + semi) + uw) + close) + bw);
            lemma_spells_split(t, y, q, (((((first + iw) + semi) + cw) + semi) + uw) + close, bw);
            lemma_spells_split(t, y, q, ((((first + iw) + semi) + cw) + semi) + uw, close);
            lemma_spells_split(t, y, q, (((first + iw) + semi) + cw) + semi, uw);
            lemma_spells_split(t, y, q, ((first + iw) + semi) + cw, semi);
            lemma_spells_split(t, y, q, (first + iw) + semi, cw);
            lemma_spells_split(t, y, q, first + iw, semi);
            lemma_spells_split(t, y, q, first, iw);
            lemma_spells_two(t, y, q, plain(Tok::For), plain(Tok::LParen));
            let p = q + 2 + iw.len();
            lemma_spells_one(t, y, p, plain(Tok::Semi));
            let c = p + 1 + cw.len();
            lemma_spells_one(t, y, c, plain(Tok::Semi));
            let u = c + 1 + uw.len();
            lemma_spells_one(t, y, u, plain(Tok::RParen));
            lemma_initializers_read(names, t, y, q + 2, init);
            match condition {
                Some(e) => {
                    lemma_expression_read(names, t, y, p + 1, e);
                },
                None => {
                    lemma_no_expression(t, y, p + 1);
                },
            }
            match update {
                Some(b) => {
                    lemma_simple_read(names, t, y, c + 1, *b);
                },
                None => {
                    lemma_no_expression(t, y, c + 1);
                    assert(simple_at(t, y, c + 1) is None);
                },
            }
        },
        _ => {},
    }
}

/// A written `for` whose block is read as it is written is read as that
/// statement.
pub proof fn lemma_for_join(names: Seq<Seq<char>>, t: Seq<Tok>, y: Seq<Id>, q: nat, s: Stmt)
    requires
        s is For,
        written_statement(s),
        spells(t, y, q, statement_words(names, s)),
        block_read(names, t, y, for_block(names, q, s), s->For_body),
    ensures
        statement_at(t, y, q) == Some((s, q + statement_words(names, s).len())),
{
    lemma_for_split(names, t, y, q, s);
    let end = q + statement_words(names, s).len();
    assert(for_at(t, y, q) == Some((s, end)));
}

/// A written statement is read as that statement.
pub proof fn lemma_statement_read(names: Seq<Seq<char>>, t: Seq<Tok>, y: Seq<Id>, q: nat, s: Stmt)
    requires
        written_statement(s),
        spells(t, y, q, statement_words(names, s)),
    ensures
        statement_at(t, y, q) == Some((s, q + statement_words(names, s).len())),
    decreases s, 0nat, 1nat,
{
    match s {
        Stmt::If { condition, then, else_ } => {
            lemma_if_split(names, t, y, q, s);
            lemma_block_read(names, t, y, if_blocks(names, q, s).0, then);
            lemma_block_read(names, t, y, if_blocks(names, q, s).1, else_);
            lemma_if_join(names, t, y, q, s);
        },
        Stmt::Cast(r, x, source, then, else_) => {
            lemma_cast_split(names, t, y, q, s);
            lemma_block_read(names, t, y, cast_blocks(names, q, s).0, then);
            lemma_block_read(names, t, y, cast_blocks(names, q, s).1, else_);
            lemma_cast_join(names, t, y, q, s);
        },
        Stmt::For { init, condition, update, body } => {
            lemma_for_split(names, t, y, q, s);
            lemma_block_read(names, t, y, for_block(names, q, s), body);
            lemma_for_join(names, t, y, q, s);
        },
        Stmt::While { condition, body } => {
            lemma_while_split(names, t, y, q, s);
            lemma_block_read(names, t, y, while_block(names, q, s), body);
            lemma_while_join(names, t, y, q, s);
        },
        _ => {
            lemma_plain_statement_read(names, t, y, q, s);
        },
    }
}

/// The written statements of a block from position `i` on, which `}`
/// follows, are read as those statements.
pub proof fn lemma_statements_read(
    names: Seq<Seq<char>>,
    t: Seq<Tok>,
    y: Seq<Id>,
    q: nat,
    block: Seq<Stmt>,
    i: nat,
    acc: Seq<Stmt>,
)
    requires
        i <= block.len(),
        written_block(block),
        spells(t, y, q, statements_words(names, block, i)),
        is(t, q + statements_words(names, block, i).len(), Tok::RBrace),
    ensures
        statements_at(t, y, q, acc) == (
            acc + block.subrange(i as int, block.len() as int),
            q + statements_words(names, block, i).len(),
        ),
    decreases block, block.len() - i, 0nat,
{
    if i >= block.len() {
        lemma_no_statement(t, y, q);
        assert(acc + block.subrange(i as int, block.len() as int) =~= acc);
    } else {
        let here = statement_words(names, block[i as int]);
        let rest = statements_words(names, block, i + 1);
        lemma_spells_split(t, y, q, here, rest);
        lemma_statement_starts(names, block[i as int]);
        lemma_statement_read(names, t, y, q, block[i as int]);
        lemma_statements_read(names, t, y, q + here.len(), block, i + 1, acc.push(block[i as int]));
        assert(acc.push(block[i as int]) + block.subrange(i as int + 1, block.len() as int) =~= acc
            + block.subrange(i as int, block.len() as int));
    }
}

/// A written block is read as that block.
pub proof fn lemma_block_read(names: Seq<Seq<char>>, t: Seq<Tok>, y: Seq<Id>, q: nat, block: Seq<Stmt>)
    requires
        written_block(block),
        spells(t, y, q, block_words(names, block)),
    ensures
        block_read(names, t, y, q, block),
    decreases block, block.len() + 1, 0nat,
{
    let sw = statements_words(names, block, 0);
    let open = seq![plain(Tok::LBrace)];
    let close = seq![plain(Tok::RBrace)];
    assert(block_words(names, block) =~= open + (sw + close));
    lemma_spells_split(t, y, q, open, sw + close);
    lemma_spells_split(t, y, q + 1, sw, close);
    lemma_spells_one(t, y, q, plain(Tok::LBrace));
    lemma_spells_one(t, y, q + 1 + sw.len(), plain(Tok::RBrace));
    lemma_statements_read(names, t, y, q + 1, block, 0, Seq::empty());
    assert(Seq::<Stmt>::empty() + block.subrange(0, block.len() as int) =~= block);
}

/// A typed name `T id`, written as tokens.
pub open spec fn typed_name_words(words: Seq<Seq<char>>, ty: Ty, x: Id) -> Seq<(Tok, Id)> {
    type_words(words, ty).push(ident(words, x))
}

/// The parameters from position `i` on, each written after a comma.
pub open spec fn more_parameters_words(words: Seq<Seq<char>>, list: Seq<(Ty, Id)>, i: nat) -> Seq<
    (Tok, Id),
>
    decreases list.len() - i,
{
    if i >= list.len() {
        Seq::empty()
    } else {
        seq![plain(Tok::Comma)] + typed_name_words(words, list[i as int].0, list[i as int].1)
            + more_parameters_words(words, list, i + 1)
    }
}

/// The parameters of a function, written as tokens with commas between
/// them.
pub open spec fn parameters_words(words: Seq<Seq<char>>, list: Seq<(Ty, Id)>) -> Seq<(Tok, Id)> {
    if list.len() == 0 {
        Seq::empty()
    } else {
        typed_name_words(words, list[0].0, list[0].1) + more_parameters_words(words, list, 1)
    }
}

/// A function, written as tokens.
pub open spec fn function_words(words: Seq<Seq<char>>, f: FunDecl) -> Seq<(Tok, Id)> {
    return_words(words, f.return_type) + seq![ident(words, f.name), plain(Tok::LParen)]
        + parameters_words(words, f.args) + seq![plain(Tok::RParen)] + block_words(words, f.body)
}

/// The fields from position `i` on, each written as `T id;`.
pub open spec fn fields_words(words: Seq<Seq<char>>, fields: Fields, i: nat) -> Seq<(Tok, Id)>
    decreases fields.len() - i,
{
    if i >= fields.len() {
        Seq::empty()
    } else {
        typed_name_words(words, fields[i as int].1, fields[i as int].0).push(plain(Tok::Semi))
            + fields_words(words, fields, i + 1)
    }
}

/// Whether the expression can initialize a global: it is a literal or
/// the name of a global.
pub open spec fn constant(e: Expr) -> bool {
    e is CNull || e is CBool || e is CInt || e is CStr || e is Id
}

/// A constant, written as tokens. A negative number is written with its
/// sign before it, where the number without the sign can be written.
pub open spec fn constant_words(words: Seq<Seq<char>>, e: Expr) -> Seq<(Tok, Id)> {
    match e {
        Expr::CInt(v) => if i64::MIN < v < 0 {
            seq![plain(Tok::Dash), plain(Tok::Int((-v) as i64))]
        } else {
            seq![plain(Tok::Int(v))]
        },
        _ => expression_words(words, e),
    }
}

/// Whether the declaration can be written: so can the body of a function,
/// the fields of a struct differ in their names, and the initializer of a
/// global is a constant.
pub open spec fn written_declaration(d: Decl) -> bool {
    match d {
        Decl::Variable { name, init } => constant(init),
        Decl::Function(f) => written_block(f.body),
        Decl::Type { name, fields } => names(fields).no_duplicates(),
    }
}

/// Whether every declaration of the program can be written.
pub open spec fn written_program(p: Prog) -> bool {
    forall|i: int| 0 <= i < p.len() ==> written_declaration(#[trigger] p[i])
}

/// A declaration, written as tokens.
pub open spec fn declaration_words(words: Seq<Seq<char>>, d: Decl) -> Seq<(Tok, Id)> {
    match d {
        Decl::Variable { name, init } => seq![
            plain(Tok::Global),
            ident(words, name),
            plain(Tok::Eq),
        ] + constant_words(words, init).push(plain(Tok::Semi)),
        Decl::Function(f) => function_words(words, f),
        Decl::Type { name, fields } => seq![
            plain(Tok::Struct),
            ident(words, name),
            plain(Tok::LBrace),
        ] + fields_words(words, fields, 0).push(plain(Tok::RBrace)),
    }
}

/// The declarations of a program from position `i` on, written as tokens.
pub open spec fn declarations_words(words: Seq<Seq<char>>, p: Prog, i: nat) -> Seq<(Tok, Id)>
    decreases p.len() - i,
{
    if i >= p.len() {
        Seq::empty()
    } else {
        declaration_words(words, p[i as int]) + declarations_words(words, p, i + 1)
    }
}

/// A program, written as tokens.
pub open spec fn program_words(words: Seq<Seq<char>>, p: Prog) -> Seq<(Tok, Id)> {
    declarations_words(words, p, 0)
}

/// A written typed name is read as that type and name.
pub proof fn lemma_typed_name_read(
    words: Seq<Seq<char>>,
    t: Seq<Tok>,
    y: Seq<Id>,
    q: nat,
    ty: Ty,
    x: Id,
)
    requires
        spells(t, y, q, typed_name_words(words, ty, x)),
    ensures
        typed_name_at(t, y, q) == Some(((ty, x), q + typed_name_words(words, ty, x).len())),
        typed_name_words(words, ty, x).len() >= 2,
{
    let tw = type_words(words, ty);
    let name = seq![ident(words, x)];
    assert(typed_name_words(words, ty, x) =~= tw + name);
    lemma_spells_split(t, y, q, tw, name);
    lemma_spells_one(t, y, q + tw.len(), ident(words, x));
    lemma_type_starts(words, ty);
    lemma_type_exact(words, t, y, q, ty);
}

/// No typed name is read where no type can start.
pub proof fn lemma_no_typed_name(t: Seq<Tok>, y: Seq<Id>, q: nat)
    requires
        q >= t.len() || !starts_type(t[q as int]),
    ensures
        typed_name_at(t, y, q) is None,
{
    lemma_no_type_start(t, y, q);
}

/// The rest of a written list of parameters, which `)` follows, is read
/// as the rest of that list.
pub proof fn lemma_more_parameters_read(
    words: Seq<Seq<char>>,
    t: Seq<Tok>,
    y: Seq<Id>,
    q: nat,
    list: Seq<(Ty, Id)>,
    i: nat,
    acc: Seq<(Ty, Id)>,
)
    requires
        i <= list.len(),
        spells(t, y, q, more_parameters_words(words, list, i)),
        is(t, q + more_parameters_words(words, list, i).len(), Tok::RParen),
    ensures
        more_parameters_at(t, y, q, acc) == (
            acc + list.subrange(i as int, list.len() as int),
            q + more_parameters_words(words, list, i).len(),
        ),
    decreases list.len() - i,
{
    if i >= list.len() {
        assert(acc + list.subrange(i as int, list.len() as int) =~= acc);
    } else {
        let comma = seq![plain(Tok::Comma)];
        let here = typed_name_words(words, list[i as int].0, list[i as int].1);
        let rest = more_parameters_words(words, list, i + 1);
        lemma_spells_split(t, y, q, comma + here, rest);
        lemma_spells_split(t, y, q, comma, here);
        lemma_spells_one(t, y, q, plain(Tok::Comma));
        lemma_typed_name_read(words, t, y, q + 1, list[i as int].0, list[i as int].1);
        lemma_more_parameters_read(words, t, y, q + 1 + here.len(), list, i + 1, acc.push(list[i as int]));
        assert(acc.push(list[i as int]) + list.subrange(i as int + 1, list.len() as int) =~= acc
            + list.subrange(i as int, list.len() as int));
    }
}

/// The written parameters of a function are read as those parameters.
pub proof fn lemma_parameters_read(
    words: Seq<Seq<char>>,
    t: Seq<Tok>,
    y: Seq<Id>,
    q: nat,
    list: Seq<(Ty, Id)>,
)
    requires
        spells(t, y, q, parameters_words(words, list)),
        is(t, q + parameters_words(words, list).len(), Tok::RParen),
    ensures
        parameters_at(t, y, q) == (list, q + parameters_words(words, list).len()),
{
    if list.len() == 0 {
        lemma_no_typed_name(t, y, q);
        assert(list =~= Seq::empty());
    } else {
        let here = typed_name_words(words, list[0].0, list[0].1);
        let rest = more_parameters_words(words, list, 1);
        lemma_spells_split(t, y, q, here, rest);
        lemma_typed_name_read(words, t, y, q, list[0].0, list[0].1);
        lemma_more_parameters_read(words, t, y, q + here.len(), list, 1, seq![list[0]]);
        assert(seq![list[0]] + list.subrange(1, list.len() as int) =~= list);
    }
}

/// A written function is read as that function.
pub proof fn lemma_function_read(words: Seq<Seq<char>>, t: Seq<Tok>, y: Seq<Id>, q: nat, f: FunDecl)
    requires
        written_block(f.body),
        spells(t, y, q, function_words(words, f)),
    ensures
        function_at(t, y, q) == Some((f, q + function_words(words, f).len())),
        function_words(words, f).len() > 0,
{
    let rw = return_words(words, f.return_type);
    let name = seq![ident(words, f.name), plain(Tok::LParen)];
    let pw = parameters_words(words, f.args);
    let close = seq![plain(Tok::RParen)];
    let bw = block_words(words, f.body);
    lemma_spells_split(t, y, q, ((rw + name) + pw) + close, bw);
    lemma_spells_split(t, y, q, (rw + name) + pw, close);
    lemma_spells_split(t, y, q, rw + name, pw);
    lemma_spells_split(t, y, q, rw, name);
    let p = q + rw.len();
    lemma_spells_two(t, y, p, ident(words, f.name), plain(Tok::LParen));
    lemma_spells_at(t, y, p, name, 0);
    let e = p + 2 + pw.len();
    lemma_spells_one(t, y, e, plain(Tok::RParen));
    lemma_return_read(words, t, y, q, f.return_type);
    lemma_parameters_read(words, t, y, p + 2, f.args);
    lemma_block_read(words, t, y, e + 1, f.body);
}

/// The written fields of a struct from position `i` on, which `}`
/// follows, are read after the fields before them.
pub proof fn lemma_fields_read(
    words: Seq<Seq<char>>,
    t: Seq<Tok>,
    y: Seq<Id>,
    q: nat,
    fields: Fields,
    i: nat,
)
    requires
        i <= fields.len(),
        names(fields).no_duplicates(),
        spells(t, y, q, fields_words(words, fields, i)),
        is(t, q + fields_words(words, fields, i).len(), Tok::RBrace),
    ensures
        fields_at(t, y, q, fields.subrange(0, i as int)) == (
            fields,
            q + fields_words(words, fields, i).len(),
        ),
    decreases fields.len() - i,
{
    let acc = fields.subrange(0, i as int);
    if i >= fields.len() {
        lemma_no_typed_name(t, y, q);
        assert(acc =~= fields);
    } else {
        let (x, ty) = fields[i as int];
        let here = typed_name_words(words, ty, x);
        let semi = seq![plain(Tok::Semi)];
        let rest = fields_words(words, fields, i + 1);
        assert(fields_words(words, fields, i) =~= (here + semi) + rest);
        lemma_spells_split(t, y, q, here + semi, rest);
        lemma_spells_split(t, y, q, here, semi);
        lemma_spells_one(t, y, q + here.len(), plain(Tok::Semi));
        lemma_typed_name_read(words, t, y, q, ty, x);
        lemma_position(names(acc), x);
        assert(!names(acc).contains(x)) by {
            if names(acc).contains(x) {
                let k = choose|k: int| 0 <= k < names(acc).len() && names(acc)[k] == x;
                assert(names(fields)[k] == x);
                assert(names(fields)[i as int] == x);
            }
        }
        assert(insert_field(acc, x, ty) =~= fields.subrange(0, i as int + 1));
        lemma_fields_read(words, t, y, q + here.len() + 1, fields, i + 1);
    }
}

/// A written struct is read as that struct.
pub proof fn lemma_struct_read(words: Seq<Seq<char>>, t: Seq<Tok>, y: Seq<Id>, q: nat, d: Decl)
    requires
        d is Type,
        written_declaration(d),
        spells(t, y, q, declaration_words(words, d)),
    ensures
        declaration_at(t, y, q) == Some((d, q + declaration_words(words, d).len())),
        declaration_words(words, d).len() > 0,
{
    let w = declaration_words(words, d);
    let name = d->Type_name;
    let fields = d->Type_fields;
    let first = seq![plain(Tok::Struct), ident(words, name), plain(Tok::LBrace)];
    let fw = fields_words(words, fields, 0);
    let close = seq![plain(Tok::RBrace)];
    assert(w =~= first + (fw + close));
    lemma_spells_split(t, y, q, first, fw + close);
    lemma_spells_split(t, y, q + 3, fw, close);
    lemma_spells_at(t, y, q, first, 0);
    lemma_spells_at(t, y, q, first, 1);
    lemma_spells_at(t, y, q, first, 2);
    lemma_spells_one(t, y, q + 3 + fw.len(), plain(Tok::RBrace));
    lemma_no_type_start(t, y, q);
    assert(return_type_at(t, y, q) is None);
    assert(function_at(t, y, q) is None);
    assert(fields.subrange(0, 0) =~= Seq::empty());
    lemma_fields_read(words, t, y, q + 3, fields, 0);
    assert(struct_at(t, y, q) == Some((d, q + w.len())));
}

/// A written global is read as that global.
pub proof fn lemma_global_read(words: Seq<Seq<char>>, t: Seq<Tok>, y: Seq<Id>, q: nat, d: Decl)
    requires
        d is Variable,
        written_declaration(d),
        spells(t, y, q, declaration_words(words, d)),
    ensures
        declaration_at(t, y, q) == Some((d, q + declaration_words(words, d).len())),
        declaration_words(words, d).len() > 0,
{
    let w = declaration_words(words, d);
    let name = d->Variable_name;
    let init = d->Variable_init;
    let first = seq![plain(Tok::Global), ident(words, name), plain(Tok::Eq)];
    let iw = constant_words(words, init);
    let close = seq![plain(Tok::Semi)];
    assert(w =~= first + (iw + close));
    lemma_spells_split(t, y, q, first, iw + close);
    lemma_spells_split(t, y, q + 3, iw, close);
    lemma_spells_at(t, y, q, first, 0);
    lemma_spells_at(t, y, q, first, 1);
    lemma_spells_at(t, y, q, first, 2);
    lemma_spells_one(t, y, q + 3 + iw.len(), plain(Tok::Semi));
    lemma_no_type_start(t, y, q);
    assert(return_type_at(t, y, q) is None);
    assert(function_at(t, y, q) is None);
    assert(struct_at(t, y, q) is None);
    lemma_constant_read(words, t, y, q + 3, init);
    assert(global_at(t, y, q) == Some((d, q + w.len())));
}

/// A written declaration is read as that declaration.
pub proof fn lemma_declaration_read(words: Seq<Seq<char>>, t: Seq<Tok>, y: Seq<Id>, q: nat, d: Decl)
    requires
        written_declaration(d),
        spells(t, y, q, declaration_words(words, d)),
    ensures
        declaration_at(t, y, q) == Some((d, q + declaration_words(words, d).len())),
        declaration_words(words, d).len() > 0,
{
    match d {
        Decl::Function(f) => {
            lemma_function_read(words, t, y, q, f);
        },
        Decl::Type { name, fields } => {
            lemma_struct_read(words, t, y, q, d);
        },
        Decl::Variable { name, init } => {
            lemma_global_read(words, t, y, q, d);
        },
    }
}

/// A written constant is read as that constant.
pub proof fn lemma_constant_read(words: Seq<Seq<char>>, t: Seq<Tok>, y: Seq<Id>, q: nat, e: Expr)
    requires
        constant(e),
        spells(t, y, q, constant_words(words, e)),
        is(t, q + constant_words(words, e).len(), Tok::Semi),
    ensures
        constant_at(t, y, q) == Some((e, q + constant_words(words, e).len())),
{
    let w = constant_words(words, e);
    match e {
        Expr::CNull(r) => {
            let rw = reference_words(words, r);
            assert(w =~= rw + seq![plain(Tok::Null)]);
            lemma_spells_split(t, y, q, rw, seq![plain(Tok::Null)]);
            lemma_spells_one(t, y, q + rw.len(), plain(Tok::Null));
            lemma_reference_starts(words, r);
            lemma_reference_exact(words, t, y, q, r);
        },
        Expr::Id(x) => {
            lemma_spells_at(t, y, q, w, 0);
            lemma_no_type_identifier(t, y, q);
        },
        Expr::CInt(v) => {
            lemma_spells_at(t, y, q, w, 0);
            lemma_no_type_start(t, y, q);
            if i64::MIN < v < 0 {
                lemma_spells_at(t, y, q, w, 1);
            }
        },
        _ => {
            lemma_spells_at(t, y, q, w, 0);
            lemma_no_type_start(t, y, q);
        },
    }
}

/// No declaration is read at the end of the text.
pub proof fn lemma_no_declaration(t: Seq<Tok>, y: Seq<Id>, q: nat)
    requires
        q >= t.len(),
    ensures
        declaration_at(t, y, q) is None,
{
    lemma_no_type_start(t, y, q);
}

/// The written declarations of a program from position `i` on, with
/// which the text ends, are read as those declarations.
pub proof fn lemma_declarations_read(
    words: Seq<Seq<char>>,
    t: Seq<Tok>,
    y: Seq<Id>,
    q: nat,
    p: Prog,
    i: nat,
    acc: Prog,
)
    requires
        i <= p.len(),
        written_program(p),
        spells(t, y, q, declarations_words(words, p, i)),
        q + declarations_words(words, p, i).len() == t.len(),
    ensures
        declarations_at(t, y, q, acc) == (acc + p.subrange(i as int, p.len() as int), t.len()),
    decreases p.len() - i,
{
    if i >= p.len() {
        lemma_no_declaration(t, y, q);
        assert(acc + p.subrange(i as int, p.len() as int) =~= acc);
    } else {
        let here = declaration_words(words, p[i as int]);
        let rest = declarations_words(words, p, i + 1);
        lemma_spells_split(t, y, q, here, rest);
        lemma_declaration_read(words, t, y, q, p[i as int]);
        lemma_declarations_read(words, t, y, q + here.len(), p, i + 1, acc.push(p[i as int]));
        assert(acc.push(p[i as int]) + p.subrange(i as int + 1, p.len() as int) =~= acc + p.subrange(
            i as int,
            p.len() as int,
        ));
    }
}

/// A program that is written as tokens is read from them again: where
/// the tokens of a text, with the symbols of its identifiers, are those of
/// a program that can be written, the declarations that are read from
/// the text are that program, and they take every token.
pub proof fn lemma_written_program_read(words: Seq<Seq<char>>, t: Seq<Tok>, y: Seq<Id>, p: Prog)
    requires
        written_program(p),
        spells(t, y, 0, program_words(words, p)),
        t.len() == program_words(words, p).len(),
    ensures
        declarations_at(t, y, 0, Seq::empty()) == (p, t.len()),
{
    lemma_declarations_read(words, t, y, 0, p, 0, Seq::empty());
    assert(Seq::<Decl>::empty() + p.subrange(0, p.len() as int) =~= p);
}

/// What is read as an atom can be written.
pub proof fn lemma_atom_written(t: Seq<Tok>, y: Seq<Id>, pos: nat)
    ensures
        atom_at(t, y, pos) matches Some((e, _)) ==> written(e),
    decreases t.len() - pos, 1nat,
{
    if pos < t.len() && pos < y.len() && null_at(t, y, pos) is None {
        match t[pos as int] {
            Tok::Length => {
                if is(t, pos + 1, Tok::LParen) {
                    lemma_expression_written(t, y, pos + 2);
                }
            },
            Tok::New => {
                lemma_array_written(t, y, pos);
            },
            Tok::LParen => {
                lemma_expression_written(t, y, pos + 1);
            },
            _ => {},
        }
    }
}

/// What is read as an array expression can be written.
pub proof fn lemma_array_written(t: Seq<Tok>, y: Seq<Id>, pos: nat)
    ensures
        array_at(t, y, pos) matches Some((e, _)) ==> written(e),
    decreases t.len() - pos, 0nat,
{
    if is(t, pos, Tok::New) {
        match type_at(t, y, pos + 1) {
            Some((ty, p)) => {
                if pos < p < t.len() {
                    lemma_expressions_written(t, y, p + 1, Seq::empty());
                    lemma_expression_written(t, y, p + 1);
                }
            },
            None => {},
        }
    }
}

/// What is read as an atom with its suffixes can be written.
pub proof fn lemma_postfix_written(t: Seq<Tok>, y: Seq<Id>, pos: nat)
    ensures
        postfix_at(t, y, pos) matches Some((e, _)) ==> written(e),
    decreases t.len() - pos, 2nat,
{
    lemma_atom_written(t, y, pos);
    match atom_at(t, y, pos) {
        Some((atom, p)) => {
            if pos < p <= t.len() {
                lemma_suffixes_written(t, y, p, atom);
            }
        },
        None => {},
    }
}

/// What an expression that can be written becomes under suffixes can be
/// written.
pub proof fn lemma_suffixes_written(t: Seq<Tok>, y: Seq<Id>, pos: nat, e: Expr)
    requires
        written(e),
    ensures
        written(suffixes_at(t, y, pos, e).0),
    decreases t.len() - pos, 0nat,
{
    if pos < t.len() {
        match t[pos as int] {
            Tok::LParen => {
                lemma_expressions_written(t, y, pos + 1, Seq::empty());
                let (args, p) = expressions_at(t, y, pos + 1, Seq::empty());
                if is(t, p, Tok::RParen) && pos < p {
                    lemma_suffixes_written(t, y, p + 1, Expr::Call(Box::new(e), args));
                }
            },
            Tok::LBracket => {
                lemma_expression_written(t, y, pos + 1);
                match expression_at(t, y, pos + 1) {
                    Some((index, p)) => {
                        if is(t, p, Tok::RBracket) && pos < p {
                            lemma_suffixes_written(
                                t,
                                y,
                                p + 1,
                                Expr::Index { value: Box::new(e), index: Box::new(index) },
                            );
                        }
                    },
                    None => {},
                }
            },
            Tok::Dot => {
                if is_ident(t, pos + 1) && pos + 1 < y.len() {
                    lemma_suffixes_written(t, y, pos + 2, Expr::Proj(Box::new(e), y[pos as int + 1]));
                }
            },
            _ => {},
        }
    }
}

/// What is read as an operand can be written.
pub proof fn lemma_unary_written(t: Seq<Tok>, y: Seq<Id>, pos: nat)
    ensures
        unary_at(t, y, pos) matches Some((e, _)) ==> written(e),
    decreases t.len() - pos, 3nat,
{
    if pos < t.len() {
        match unary_operator(t[pos as int]) {
            Some(op) => {
                lemma_unary_written(t, y, pos + 1);
            },
            None => {
                lemma_postfix_written(t, y, pos);
            },
        }
    }
}

/// What is read as an expression with binary operators can be written.
pub proof fn lemma_binary_written(t: Seq<Tok>, y: Seq<Id>, pos: nat, min: nat)
    ensures
        binary_at(t, y, pos, min) matches Some((e, _)) ==> written(e),
    decreases t.len() - pos, 4nat,
{
    lemma_unary_written(t, y, pos);
    match unary_at(t, y, pos) {
        Some((left, p)) => {
            if pos < p <= t.len() {
                lemma_operators_written(t, y, p, left, min);
            }
        },
        None => {},
    }
}

/// What an expression that can be written becomes under binary operators
/// can be written.
pub proof fn lemma_operators_written(t: Seq<Tok>, y: Seq<Id>, pos: nat, left: Expr, min: nat)
    requires
        written(left),
    ensures
        written(operators_at(t, y, pos, left, min).0),
    decreases t.len() - pos, 0nat,
{
    match operator_at(t, pos) {
        Some(op) => {
            if precedence(op) >= min && pos < t.len() {
                lemma_binary_written(t, y, pos + 1, precedence(op) + 1);
                match binary_at(t, y, pos + 1, precedence(op) + 1) {
                    Some((right, p)) => {
                        if pos + 1 < p <= t.len() {
                            lemma_operators_written(
                                t,
                                y,
                                p,
                                Expr::Binary { op, left: Box::new(left), right: Box::new(right) },
                                min,
                            );
                        }
                    },
                    None => {},
                }
            }
        },
        None => {},
    }
}

/// What is read as an expression can be written.
pub proof fn lemma_expression_written(t: Seq<Tok>, y: Seq<Id>, pos: nat)
    ensures
        expression_at(t, y, pos) matches Some((e, _)) ==> written(e),
    decreases t.len() - pos, 5nat,
{
    lemma_binary_written(t, y, pos, 1);
}

/// What is read as a list of expressions, after expressions that can be
/// written, can be written.
pub proof fn lemma_expressions_written(t: Seq<Tok>, y: Seq<Id>, pos: nat, acc: Seq<Expr>)
    requires
        all_written(acc),
    ensures
        all_written(expressions_at(t, y, pos, acc).0),
    decreases t.len() - pos, 6nat,
{
    lemma_expression_written(t, y, pos);
    match expression_at(t, y, pos) {
        Some((first, p)) => {
            if pos < p <= t.len() {
                lemma_pushed_written(acc, first);
                lemma_more_expressions_written(t, y, p, acc.push(first));
            }
        },
        None => {},
    }
}

/// A list of expressions that can be written, and one more, can be
/// written.
pub proof fn lemma_pushed_written(acc: Seq<Expr>, e: Expr)
    requires
        all_written(acc),
        written(e),
    ensures
        all_written(acc.push(e)),
{
    let more = acc.push(e);
    assert forall|i: int| 0 <= i < more.len() implies written(#[trigger] more[i]) by {
        if i < acc.len() {
            assert(more[i] == acc[i]);
        }
    }
}

/// What is read as the rest of a list of expressions, after expressions
/// that can be written, can be written.
pub proof fn lemma_more_expressions_written(t: Seq<Tok>, y: Seq<Id>, pos: nat, acc: Seq<Expr>)
    requires
        all_written(acc),
    ensures
        all_written(more_expressions_at(t, y, pos, acc).0),
    decreases t.len() - pos, 0nat,
{
    if is(t, pos, Tok::Comma) {
        lemma_expression_written(t, y, pos + 1);
        match expression_at(t, y, pos + 1) {
            Some((next, p)) => {
                if pos + 1 < p <= t.len() {
                    lemma_pushed_written(acc, next);
                    lemma_more_expressions_written(t, y, p, acc.push(next));
                }
            },
            None => {},
        }
    }
}

/// Whether the expressions of the bindings can be written.
pub open spec fn bindings_written(list: Seq<(Id, Expr)>) -> bool {
    forall|i: int| 0 <= i < list.len() ==> written((#[trigger] list[i]).1)
}

/// What is read as a binding can be written.
pub proof fn lemma_binding_written(t: Seq<Tok>, y: Seq<Id>, pos: nat)
    ensures
        binding_at(t, y, pos) matches Some(((_, e), _)) ==> written(e),
{
    lemma_expression_written(t, y, pos + 2);
}

/// What is read as the rest of a list of bindings, after bindings that
/// can be written, can be written.
pub proof fn lemma_more_bindings_written(t: Seq<Tok>, y: Seq<Id>, pos: nat, acc: Seq<(Id, Expr)>)
    requires
        bindings_written(acc),
    ensures
        bindings_written(more_bindings_at(t, y, pos, acc).0),
    decreases t.len() - pos,
{
    if is(t, pos, Tok::Comma) {
        lemma_binding_written(t, y, pos + 1);
        match binding_at(t, y, pos + 1) {
            Some((next, p)) => {
                if pos + 1 < p <= t.len() {
                    let more = acc.push(next);
                    assert forall|i: int| 0 <= i < more.len() implies written(
                        (#[trigger] more[i]).1,
                    ) by {
                        if i < acc.len() {
                            assert(more[i] == acc[i]);
                        }
                    }
                    lemma_more_bindings_written(t, y, p, more);
                }
            },
            None => {},
        }
    }
}

/// What is read as the initializers of a `for` loop can be written.
pub proof fn lemma_initializers_written(t: Seq<Tok>, y: Seq<Id>, pos: nat)
    ensures
        bindings_written(initializers_at(t, y, pos).0),
{
    if is(t, pos, Tok::Var) {
        lemma_binding_written(t, y, pos + 1);
        match binding_at(t, y, pos + 1) {
            Some((first, p)) => {
                if pos + 1 < p <= t.len() {
                    lemma_more_bindings_written(t, y, p, seq![first]);
                }
            },
            None => {},
        }
    }
}

/// What is read as an assignment or a call is one of the two, and can be
/// written.
pub proof fn lemma_simple_written(t: Seq<Tok>, y: Seq<Id>, pos: nat)
    ensures
        simple_at(t, y, pos) matches Some((s, _)) ==> (s is Assignment || s is SCall)
            && written_statement(s),
{
    lemma_expression_written(t, y, pos);
    match expression_at(t, y, pos) {
        Some((e, p)) => {
            lemma_expression_written(t, y, p + 1);
        },
        None => {},
    }
}

/// What is read as a block can be written.
pub proof fn lemma_block_written(t: Seq<Tok>, y: Seq<Id>, pos: nat)
    ensures
        block_at(t, y, pos) matches Some((block, _)) ==> written_block(block),
    decreases t.len() - pos, 1nat,
{
    if is(t, pos, Tok::LBrace) {
        lemma_statements_written(t, y, pos + 1, Seq::empty());
    }
}

/// What is read as an `else` part can be written.
pub proof fn lemma_else_written(t: Seq<Tok>, y: Seq<Id>, pos: nat)
    ensures
        written_block(else_at(t, y, pos).0),
    decreases t.len() - pos, 2nat,
{
    if is(t, pos, Tok::Else) {
        lemma_block_written(t, y, pos + 1);
    }
}

/// What is read as an `if` can be written.
pub proof fn lemma_if_written(t: Seq<Tok>, y: Seq<Id>, pos: nat)
    ensures
        if_at(t, y, pos) matches Some((s, _)) ==> written_statement(s),
    decreases t.len() - pos, 2nat,
{
    if is(t, pos, Tok::If) && is(t, pos + 1, Tok::LParen) {
        lemma_expression_written(t, y, pos + 2);
        match expression_at(t, y, pos + 2) {
            Some((condition, p)) => {
                if is(t, p, Tok::RParen) && pos < p {
                    lemma_block_written(t, y, p + 1);
                    match block_at(t, y, p + 1) {
                        Some((then, q)) => {
                            if p < q <= t.len() {
                                lemma_else_written(t, y, q);
                            }
                        },
                        None => {},
                    }
                }
            },
            None => {},
        }
    }
}

/// What is read as an `if?` can be written.
pub proof fn lemma_cast_written(t: Seq<Tok>, y: Seq<Id>, pos: nat)
    ensures
        cast_at(t, y, pos) matches Some((s, _)) ==> written_statement(s),
    decreases t.len() - pos, 2nat,
{
    if is(t, pos, Tok::Ifq) && is(t, pos + 1, Tok::LParen) {
        match reference_type_at(t, y, pos + 2) {
            Some((r, p)) => {
                lemma_binding_written(t, y, p);
                match binding_at(t, y, p) {
                    Some(((name, source), q)) => {
                        if is(t, q, Tok::RParen) && pos < q {
                            lemma_block_written(t, y, q + 1);
                            match block_at(t, y, q + 1) {
                                Some((then, u)) => {
                                    if q < u <= t.len() {
                                        lemma_else_written(t, y, u);
                                    }
                                },
                                None => {},
                            }
                        }
                    },
                    None => {},
                }
            },
            None => {},
        }
    }
}

/// What is read as a `for` can be written.
pub proof fn lemma_for_written(t: Seq<Tok>, y: Seq<Id>, pos: nat)
    ensures
        for_at(t, y, pos) matches Some((s, _)) ==> written_statement(s),
    decreases t.len() - pos, 2nat,
{
    if is(t, pos, Tok::For) && is(t, pos + 1, Tok::LParen) {
        lemma_initializers_written(t, y, pos + 2);
        let (init, p) = initializers_at(t, y, pos + 2);
        if is(t, p, Tok::Semi) {
            lemma_expression_written(t, y, p + 1);
            let q = match expression_at(t, y, p + 1) {
                Some((c, q)) => q,
                None => p + 1,
            };
            if is(t, q, Tok::Semi) {
                lemma_simple_written(t, y, q + 1);
                let u = match simple_at(t, y, q + 1) {
                    Some((stmt, u)) => u,
                    None => q + 1,
                };
                if is(t, u, Tok::RParen) && pos < u {
                    lemma_block_written(t, y, u + 1);
                }
            }
        }
    }
}

/// What is read as a `while` can be written.
pub proof fn lemma_while_written(t: Seq<Tok>, y: Seq<Id>, pos: nat)
    ensures
        while_at(t, y, pos) matches Some((s, _)) ==> written_statement(s),
    decreases t.len() - pos, 2nat,
{
    if is(t, pos, Tok::While) && is(t, pos + 1, Tok::LParen) {
        lemma_expression_written(t, y, pos + 2);
        match expression_at(t, y, pos + 2) {
            Some((condition, p)) => {
                if is(t, p, Tok::RParen) && pos < p {
                    lemma_block_written(t, y, p + 1);
                }
            },
            None => {},
        }
    }
}

/// What is read as a statement can be written.
pub proof fn lemma_statement_written(t: Seq<Tok>, y: Seq<Id>, pos: nat)
    ensures
        statement_at(t, y, pos) matches Some((s, _)) ==> written_statement(s),
    decreases t.len() - pos, 3nat,
{
    if pos < t.len() {
        match t[pos as int] {
            Tok::Var => {
                lemma_binding_written(t, y, pos + 1);
            },
            Tok::If => {
                lemma_if_written(t, y, pos);
            },
            Tok::Ifq => {
                lemma_cast_written(t, y, pos);
            },
            Tok::For => {
                lemma_for_written(t, y, pos);
            },
            Tok::While => {
                lemma_while_written(t, y, pos);
            },
            Tok::Return => {
                lemma_expression_written(t, y, pos + 1);
            },
            _ => {
                lemma_simple_written(t, y, pos);
            },
        }
    }
}

/// What is read as statements, after statements that can be written, can
/// be written.
pub proof fn lemma_statements_written(t: Seq<Tok>, y: Seq<Id>, pos: nat, acc: Seq<Stmt>)
    requires
        written_block(acc),
    ensures
        written_block(statements_at(t, y, pos, acc).0),
    decreases t.len() - pos, 4nat,
{
    lemma_statement_written(t, y, pos);
    match statement_at(t, y, pos) {
        Some((stmt, p)) => {
            if pos < p <= t.len() {
                let more = acc.push(stmt);
                assert forall|i: int| 0 <= i < more.len() implies written_statement(
                    #[trigger] more[i],
                ) by {
                    if i < acc.len() {
                        assert(more[i] == acc[i]);
                    }
                }
                lemma_statements_written(t, y, p, more);
            }
        },
        None => {},
    }
}

/// The names of the fields that are read, after fields whose names
/// differ, differ.
pub proof fn lemma_fields_written(t: Seq<Tok>, y: Seq<Id>, pos: nat, acc: Fields)
    requires
        names(acc).no_duplicates(),
    ensures
        names(fields_at(t, y, pos, acc).0).no_duplicates(),
    decreases t.len() - pos,
{
    match typed_name_at(t, y, pos) {
        Some(((ty, name), p)) => {
            if is(t, p, Tok::Semi) && pos < p {
                let more = insert_field(acc, name, ty);
                lemma_position(names(acc), name);
                match position(names(acc), name) {
                    Some(i) => {
                        assert(names(more) =~= names(acc));
                    },
                    None => {
                        assert(names(more) =~= names(acc).push(name));
                    },
                }
                lemma_fields_written(t, y, p + 1, more);
            }
        },
        None => {},
    }
}

/// What is read as a declaration can be written.
pub proof fn lemma_declaration_written(t: Seq<Tok>, y: Seq<Id>, pos: nat)
    ensures
        declaration_at(t, y, pos) matches Some((d, _)) ==> written_declaration(d),
{
    match function_at(t, y, pos) {
        Some((f, p)) => {
            let head = return_type_at(t, y, pos)->Some_0.1;
            let (args, q) = parameters_at(t, y, head + 2);
            lemma_block_written(t, y, q + 1);
        },
        None => {
            match struct_at(t, y, pos) {
                Some(r) => {
                    assert(names(Seq::<(Id, Ty)>::empty()) =~= Seq::<Id>::empty());
                    lemma_fields_written(t, y, pos + 3, Seq::empty());
                },
                None => {},
            }
        },
    }
}

/// What is read as declarations, after declarations that can be written,
/// can be written.
pub proof fn lemma_declarations_written(t: Seq<Tok>, y: Seq<Id>, pos: nat, acc: Prog)
    requires
        written_program(acc),
    ensures
        written_program(declarations_at(t, y, pos, acc).0),
    decreases t.len() - pos,
{
    lemma_declaration_written(t, y, pos);
    match declaration_at(t, y, pos) {
        Some((d, p)) => {
            if pos < p <= t.len() {
                let more = acc.push(d);
                assert forall|i: int| 0 <= i < more.len() implies written_declaration(
                    #[trigger] more[i],
                ) by {
                    if i < acc.len() {
                        assert(more[i] == acc[i]);
                    }
                }
                lemma_declarations_written(t, y, p, more);
            }
        },
        None => {},
    }
}

/// Reading what was written gives back what was read: the program that is
/// read from a text, written as tokens, is read from those tokens as the
/// same program. `read` and `y` are the tokens of the text and the symbols
/// of its identifiers, and `t` and `z` those of the text that is written.
pub proof fn lemma_round_trip(
    words: Seq<Seq<char>>,
    read: Seq<Tok>,
    y: Seq<Id>,
    t: Seq<Tok>,
    z: Seq<Id>,
)
    requires
        spells(t, z, 0, program_words(words, declarations_at(read, y, 0, Seq::empty()).0)),
        t.len() == program_words(words, declarations_at(read, y, 0, Seq::empty()).0).len(),
    ensures
        declarations_at(t, z, 0, Seq::empty()) == (
            declarations_at(read, y, 0, Seq::empty()).0,
            t.len(),
        ),
{
    lemma_declarations_written(read, y, 0, Seq::empty());
    lemma_written_program_read(words, t, z, declarations_at(read, y, 0, Seq::empty()).0);
}

} // verus!
