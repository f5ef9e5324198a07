//! The grammar of Oat, stated over tokens.
//!
//! A text is lexed into tokens, and each identifier among them is replaced
//! by its symbol. The functions of this file say what stands at a position
//! of such a text: `type_at` the type, `expression_at` the expression,
//! `statement_at` the statement and `declaration_at` the declaration that
//! starts there, each with the position after it; `None` where none starts
//! there. An alternative that fails gives way to the next one of its rule,
//! and a repetition stops before the first item that fails.

use crate::ast::{BinaryOp, Decl, Expr, Fields, FunDecl, Id, Prog, RefTy, RetTy, Stmt, Ty, UnaryOp};
use crate::symbol::{intern_names, position_of, symbol_index, Symbol};
use crate::table::position;
use crate::tokens::Tok;
use crate::typecontext::names;
use vstd::prelude::*;

verus! {

/// Whether the token `k` stands at `pos`.
pub open spec fn is(t: Seq<Tok>, pos: nat, k: Tok) -> bool {
    pos < t.len() && t[pos as int] == k
}

/// Whether an identifier stands at `pos`.
pub open spec fn is_ident(t: Seq<Tok>, pos: nat) -> bool {
    pos < t.len() && t[pos as int] is Ident
}

/// The names that an interner holds once it was given, in order, the
/// identifiers among the first `n` tokens.
pub open spec fn interned(names: Seq<Seq<char>>, t: Seq<Tok>, n: nat) -> Seq<Seq<char>>
    decreases n,
{
    if n == 0 || n > t.len() {
        names
    } else {
        match t[n - 1] {
            Tok::Ident(word) => intern_names(interned(names, t, (n - 1) as nat), word),
            _ => interned(names, t, (n - 1) as nat),
        }
    }
}

/// The symbol of the token at position `i`: that of its word in the interner
/// as the tokens before it left it, for an identifier. Other tokens get the
/// first symbol, which nothing reads.
pub open spec fn symbol_of(names: Seq<Seq<char>>, t: Seq<Tok>, i: int) -> Symbol {
    if 0 <= i < t.len() {
        match t[i] {
            Tok::Ident(word) => Symbol {
                index: symbol_index(position_of(interned(names, t, i as nat), word)) as u32,
            },
            _ => Symbol { index: 0 },
        }
    } else {
        Symbol { index: 0 }
    }
}

/// The symbols of the tokens of a text.
pub open spec fn symbols_of(names: Seq<Seq<char>>, t: Seq<Tok>) -> Seq<Symbol> {
    Seq::new(t.len(), |i: int| symbol_of(names, t, i))
}

/// The types of a list `T, T, ...` that starts at `pos`, after the types
/// `acc`. A list may be empty.
pub open spec fn types_at(t: Seq<Tok>, y: Seq<Id>, pos: nat, acc: Seq<Ty>) -> (Seq<Ty>, nat)
    decreases t.len() - pos, 3nat,
{
    match type_at(t, y, pos) {
        Some((first, p)) => if pos < p <= t.len() {
            more_types_at(t, y, p, acc.push(first))
        } else {
            (acc, pos)
        },
        None => (acc, pos),
    }
}

/// The rest of a list of types: `, T` any number of times.
pub open spec fn more_types_at(t: Seq<Tok>, y: Seq<Id>, pos: nat, acc: Seq<Ty>) -> (Seq<Ty>, nat)
    decreases t.len() - pos, 0nat,
{
    if is(t, pos, Tok::Comma) {
        match type_at(t, y, pos + 1) {
            Some((next, p)) => if pos + 1 < p <= t.len() {
                more_types_at(t, y, p, acc.push(next))
            } else {
                (acc, pos)
            },
            None => (acc, pos),
        }
    } else {
        (acc, pos)
    }
}

/// A function type `(T, ...) -> R` at `pos`.
pub open spec fn function_type_at(t: Seq<Tok>, y: Seq<Id>, pos: nat) -> Option<(Ty, nat)>
    decreases t.len() - pos, 0nat,
{
    if is(t, pos, Tok::LParen) {
        let (args, p) = types_at(t, y, pos + 1, Seq::empty());
        if is(t, p, Tok::RParen) && is(t, p + 1, Tok::Arrow) && pos < p {
            match return_type_at(t, y, p + 2) {
                Some((ret, end)) => Some((Ty::Ref(RefTy::Function(args, Box::new(ret))), end)),
                None => None,
            }
        } else {
            None
        }
    } else {
        None
    }
}

/// A type without suffixes at `pos`: `bool`, `int`, `string`, the name of a
/// struct, a function type, or a type in parentheses.
pub open spec fn base_type_at(t: Seq<Tok>, y: Seq<Id>, pos: nat) -> Option<(Ty, nat)>
    decreases t.len() - pos, 1nat,
{
    if pos >= t.len() || pos >= y.len() {
        None
    } else {
        match t[pos as int] {
            Tok::TBool => Some((Ty::Bool, pos + 1)),
            Tok::TInt => Some((Ty::Int, pos + 1)),
            Tok::TString => Some((Ty::Ref(RefTy::String), pos + 1)),
            Tok::Ident(_) => Some((Ty::Ref(RefTy::Struct(y[pos as int])), pos + 1)),
            Tok::LParen => match function_type_at(t, y, pos) {
                Some(r) => Some(r),
                None => match type_at(t, y, pos + 1) {
                    Some((inner, p)) => if is(t, p, Tok::RParen) {
                        Some((inner, p + 1))
                    } else {
                        None
                    },
                    None => None,
                },
            },
            _ => None,
        }
    }
}

/// The type that `ty` becomes under the suffixes from `pos` on: `[]` makes
/// an array of it, and `?` makes a reference type nullable.
pub open spec fn type_suffixes_at(t: Seq<Tok>, pos: nat, ty: Ty) -> (Ty, nat)
    decreases t.len() - pos,
{
    if is(t, pos, Tok::LBracket) && is(t, pos + 1, Tok::RBracket) {
        type_suffixes_at(t, pos + 2, Ty::Ref(RefTy::Array(Box::new(ty))))
    } else if is(t, pos, Tok::Question) && ty is Ref {
        type_suffixes_at(t, pos + 1, Ty::NullRef(ty->Ref_0))
    } else {
        (ty, pos)
    }
}

/// The type at `pos`.
pub open spec fn type_at(t: Seq<Tok>, y: Seq<Id>, pos: nat) -> Option<(Ty, nat)>
    decreases t.len() - pos, 2nat,
{
    match base_type_at(t, y, pos) {
        Some((base, p)) => Some(type_suffixes_at(t, p, base)),
        None => None,
    }
}

/// The return type at `pos`: `void` or a type.
pub open spec fn return_type_at(t: Seq<Tok>, y: Seq<Id>, pos: nat) -> Option<(RetTy, nat)>
    decreases t.len() - pos, 3nat,
{
    if is(t, pos, Tok::TVoid) {
        Some((RetTy::Void, pos + 1))
    } else {
        match type_at(t, y, pos) {
            Some((ty, p)) => Some((RetTy::Value(ty), p)),
            None => None,
        }
    }
}

/// The reference type at `pos`.
pub open spec fn reference_type_at(t: Seq<Tok>, y: Seq<Id>, pos: nat) -> Option<(RefTy, nat)> {
    match type_at(t, y, pos) {
        Some((Ty::Ref(r), p)) => Some((r, p)),
        _ => None,
    }
}

/// The binary operator that a token spells.
pub open spec fn binary_operator(k: Tok) -> Option<BinaryOp> {
    match k {
        Tok::Plus => Some(BinaryOp::Add),
        Tok::Dash => Some(BinaryOp::Sub),
        Tok::Star => Some(BinaryOp::Mul),
        Tok::Eqeq => Some(BinaryOp::Eq),
        Tok::BangEq => Some(BinaryOp::Neq),
        Tok::Lt => Some(BinaryOp::Lt),
        Tok::Lteq => Some(BinaryOp::Lte),
        Tok::Gt => Some(BinaryOp::Gt),
        Tok::Gteq => Some(BinaryOp::Gte),
        Tok::Ampersand => Some(BinaryOp::And),
        Tok::Bar => Some(BinaryOp::Or),
        Tok::IAnd => Some(BinaryOp::IAnd),
        Tok::IOr => Some(BinaryOp::IOr),
        Tok::Ltlt => Some(BinaryOp::Shl),
        Tok::Gtgt => Some(BinaryOp::Shr),
        Tok::Gtgtgt => Some(BinaryOp::Sar),
        _ => None,
    }
}

/// The unary operator that a token spells.
pub open spec fn unary_operator(k: Tok) -> Option<UnaryOp> {
    match k {
        Tok::Dash => Some(UnaryOp::Neg),
        Tok::Bang => Some(UnaryOp::Lognot),
        Tok::Tilde => Some(UnaryOp::Bitnot),
        _ => None,
    }
}

/// How tightly a binary operator binds: multiplication most, then addition,
/// shifts, comparisons, the bitwise operators, and the boolean operators
/// least.
pub open spec fn precedence(op: BinaryOp) -> nat {
    match op {
        BinaryOp::Mul => 6,
        BinaryOp::Add | BinaryOp::Sub => 5,
        BinaryOp::Shl | BinaryOp::Shr | BinaryOp::Sar => 4,
        BinaryOp::Eq | BinaryOp::Neq | BinaryOp::Lt | BinaryOp::Lte | BinaryOp::Gt | BinaryOp::Gte => 3,
        BinaryOp::IAnd | BinaryOp::IOr => 2,
        BinaryOp::And | BinaryOp::Or => 1,
    }
}

/// The binary operator at `pos`.
pub open spec fn operator_at(t: Seq<Tok>, pos: nat) -> Option<BinaryOp> {
    if pos < t.len() {
        binary_operator(t[pos as int])
    } else {
        None
    }
}

/// The expression at `pos`.
pub open spec fn expression_at(t: Seq<Tok>, y: Seq<Id>, pos: nat) -> Option<(Expr, nat)>
    decreases t.len() - pos, 5nat,
{
    binary_at(t, y, pos, 1)
}

/// The expression at `pos` whose binary operators all bind at least as
/// tightly as `min`. Operators of one precedence group to the left.
pub open spec fn binary_at(t: Seq<Tok>, y: Seq<Id>, pos: nat, min: nat) -> Option<(Expr, nat)>
    decreases t.len() - pos, 4nat,
{
    match unary_at(t, y, pos) {
        Some((left, p)) => if pos < p <= t.len() {
            Some(operators_at(t, y, p, left, min))
        } else {
            None
        },
        None => None,
    }
}

/// The expression that `left` becomes when the operators from `pos` on that
/// bind at least as tightly as `min` are applied to it, each to what stands
/// left of it and to the operand at its right, which takes the operators
/// that bind more tightly.
pub open spec fn operators_at(t: Seq<Tok>, y: Seq<Id>, pos: nat, left: Expr, min: nat) -> (Expr, nat)
    decreases t.len() - pos, 0nat,
{
    match operator_at(t, pos) {
        Some(op) => if precedence(op) >= min && pos < t.len() {
            match binary_at(t, y, pos + 1, precedence(op) + 1) {
                Some((right, p)) => if pos + 1 < p <= t.len() {
                    operators_at(
                        t,
                        y,
                        p,
                        Expr::Binary { op, left: Box::new(left), right: Box::new(right) },
                        min,
                    )
                } else {
                    (left, pos)
                },
                None => (left, pos),
            }
        } else {
            (left, pos)
        },
        None => (left, pos),
    }
}

/// The operand at `pos`: prefix operators, then an atom with its suffixes.
pub open spec fn unary_at(t: Seq<Tok>, y: Seq<Id>, pos: nat) -> Option<(Expr, nat)>
    decreases t.len() - pos, 3nat,
{
    if pos >= t.len() {
        None
    } else {
        match unary_operator(t[pos as int]) {
            Some(op) => match unary_at(t, y, pos + 1) {
                Some((operand, p)) => Some((Expr::Unary(op, Box::new(operand)), p)),
                None => None,
            },
            None => postfix_at(t, y, pos),
        }
    }
}

/// An atom at `pos`, with the suffixes that follow it.
pub open spec fn postfix_at(t: Seq<Tok>, y: Seq<Id>, pos: nat) -> Option<(Expr, nat)>
    decreases t.len() - pos, 2nat,
{
    match atom_at(t, y, pos) {
        Some((atom, p)) => if pos < p <= t.len() {
            Some(suffixes_at(t, y, p, atom))
        } else {
            None
        },
        None => None,
    }
}

/// The expression that `e` becomes under the suffixes from `pos` on: a call
/// `(e, ...)`, an index `[e]`, or a projection `.f`.
pub open spec fn suffixes_at(t: Seq<Tok>, y: Seq<Id>, pos: nat, e: Expr) -> (Expr, nat)
    decreases t.len() - pos, 0nat,
{
    if pos >= t.len() {
        (e, pos)
    } else {
        match t[pos as int] {
            Tok::LParen => {
                let (args, p) = expressions_at(t, y, pos + 1, Seq::empty());
                if is(t, p, Tok::RParen) && pos < p {
                    suffixes_at(t, y, p + 1, Expr::Call(Box::new(e), args))
                } else {
                    (e, pos)
                }
            },
            Tok::LBracket => match expression_at(t, y, pos + 1) {
                Some((index, p)) => if is(t, p, Tok::RBracket) && pos < p {
                    suffixes_at(t, y, p + 1, Expr::Index { value: Box::new(e), index: Box::new(index) })
                } else {
                    (e, pos)
                },
                None => (e, pos),
            },
            Tok::Dot => if is_ident(t, pos + 1) && pos + 1 < y.len() {
                suffixes_at(t, y, pos + 2, Expr::Proj(Box::new(e), y[pos as int + 1]))
            } else {
                (e, pos)
            },
            _ => (e, pos),
        }
    }
}

/// The expressions of a list `e, e, ...` that starts at `pos`, after the
/// expressions `acc`. A list may be empty.
pub open spec fn expressions_at(t: Seq<Tok>, y: Seq<Id>, pos: nat, acc: Seq<Expr>) -> (Seq<Expr>, nat)
    decreases t.len() - pos, 6nat,
{
    match expression_at(t, y, pos) {
        Some((first, p)) => if pos < p <= t.len() {
            more_expressions_at(t, y, p, acc.push(first))
        } else {
            (acc, pos)
        },
        None => (acc, pos),
    }
}

/// The rest of a list of expressions: `, e` any number of times.
pub open spec fn more_expressions_at(t: Seq<Tok>, y: Seq<Id>, pos: nat, acc: Seq<Expr>) -> (
    Seq<Expr>,
    nat,
)
    decreases t.len() - pos, 0nat,
{
    if is(t, pos, Tok::Comma) {
        match expression_at(t, y, pos + 1) {
            Some((next, p)) => if pos + 1 < p <= t.len() {
                more_expressions_at(t, y, p, acc.push(next))
            } else {
                (acc, pos)
            },
            None => (acc, pos),
        }
    } else {
        (acc, pos)
    }
}

/// A null literal at `pos`: a reference type, then `null`.
pub open spec fn null_at(t: Seq<Tok>, y: Seq<Id>, pos: nat) -> Option<(Expr, nat)> {
    match reference_type_at(t, y, pos) {
        Some((r, p)) => if is(t, p, Tok::Null) {
            Some((Expr::CNull(r), p + 1))
        } else {
            None
        },
        None => None,
    }
}

/// An array expression at `pos`: `new T[]{e, ...}`, which lists the
/// elements, or `new T[e]`, which gives the length.
pub open spec fn array_at(t: Seq<Tok>, y: Seq<Id>, pos: nat) -> Option<(Expr, nat)>
    decreases t.len() - pos, 0nat,
{
    if is(t, pos, Tok::New) {
        match type_at(t, y, pos + 1) {
            Some((ty, p)) => if pos < p < t.len() {
                if t[p as int] == Tok::LBrace && ty is Ref && ty->Ref_0 is Array {
                    let (elements, q) = expressions_at(t, y, p + 1, Seq::empty());
                    if is(t, q, Tok::RBrace) {
                        Some((Expr::CArr(*ty->Ref_0->Array_0, elements), q + 1))
                    } else {
                        None
                    }
                } else if t[p as int] == Tok::LBracket {
                    match expression_at(t, y, p + 1) {
                        Some((length, q)) => if is(t, q, Tok::RBracket) {
                            Some((Expr::NewArr(ty, Box::new(length)), q + 1))
                        } else {
                            None
                        },
                        None => None,
                    }
                } else {
                    None
                }
            } else {
                None
            },
            None => None,
        }
    } else {
        None
    }
}

/// The atom at `pos`: a literal, an identifier, `length(e)`, an array
/// expression, or an expression in parentheses.
pub open spec fn atom_at(t: Seq<Tok>, y: Seq<Id>, pos: nat) -> Option<(Expr, nat)>
    decreases t.len() - pos, 1nat,
{
    if pos >= t.len() || pos >= y.len() {
        None
    } else {
        match null_at(t, y, pos) {
            Some(r) => Some(r),
            None => match t[pos as int] {
                Tok::True => Some((Expr::CBool(true), pos + 1)),
                Tok::False => Some((Expr::CBool(false), pos + 1)),
                Tok::Int(v) => Some((Expr::CInt(v), pos + 1)),
                Tok::String(s) => Some((Expr::CStr(s), pos + 1)),
                Tok::Ident(_) => Some((Expr::Id(y[pos as int]), pos + 1)),
                Tok::Length => if is(t, pos + 1, Tok::LParen) {
                    match expression_at(t, y, pos + 2) {
                        Some((array, p)) => if is(t, p, Tok::RParen) {
                            Some((Expr::Length(Box::new(array)), p + 1))
                        } else {
                            None
                        },
                        None => None,
                    }
                } else {
                    None
                },
                Tok::New => array_at(t, y, pos),
                Tok::LParen => match expression_at(t, y, pos + 1) {
                    Some((inner, p)) => if is(t, p, Tok::RParen) {
                        Some((inner, p + 1))
                    } else {
                        None
                    },
                    None => None,
                },
                _ => None,
            },
        }
    }
}

/// A binding `id = e` at `pos`.
pub open spec fn binding_at(t: Seq<Tok>, y: Seq<Id>, pos: nat) -> Option<((Id, Expr), nat)> {
    if is_ident(t, pos) && pos < y.len() && is(t, pos + 1, Tok::Eq) {
        match expression_at(t, y, pos + 2) {
            Some((init, p)) => Some(((y[pos as int], init), p)),
            None => None,
        }
    } else {
        None
    }
}

/// The rest of a list of bindings: `, id = e` any number of times.
pub open spec fn more_bindings_at(t: Seq<Tok>, y: Seq<Id>, pos: nat, acc: Seq<(Id, Expr)>) -> (
    Seq<(Id, Expr)>,
    nat,
)
    decreases t.len() - pos,
{
    if is(t, pos, Tok::Comma) {
        match binding_at(t, y, pos + 1) {
            Some((next, p)) => if pos + 1 < p <= t.len() {
                more_bindings_at(t, y, p, acc.push(next))
            } else {
                (acc, pos)
            },
            None => (acc, pos),
        }
    } else {
        (acc, pos)
    }
}

/// The initializers of a `for` loop at `pos`: nothing, or `var` and one or
/// more bindings.
pub open spec fn initializers_at(t: Seq<Tok>, y: Seq<Id>, pos: nat) -> (Seq<(Id, Expr)>, nat) {
    if is(t, pos, Tok::Var) {
        match binding_at(t, y, pos + 1) {
            Some((first, p)) => if pos + 1 < p <= t.len() {
                more_bindings_at(t, y, p, seq![first])
            } else {
                (Seq::empty(), pos)
            },
            None => (Seq::empty(), pos),
        }
    } else {
        (Seq::empty(), pos)
    }
}

/// An assignment `e = e` or a call `e(e, ...)` at `pos`, without the `;`
/// that ends it as a statement.
pub open spec fn simple_at(t: Seq<Tok>, y: Seq<Id>, pos: nat) -> Option<(Stmt, nat)> {
    match expression_at(t, y, pos) {
        Some((e, p)) => if is(t, p, Tok::Eq) {
            match expression_at(t, y, p + 1) {
                Some((value, q)) => Some((Stmt::Assignment(e, value), q)),
                None => None,
            }
        } else {
            match e {
                Expr::Call(callee, args) => Some((Stmt::SCall(*callee, args), p)),
                _ => None,
            }
        },
        None => None,
    }
}

/// The statement at `pos`.
pub open spec fn statement_at(t: Seq<Tok>, y: Seq<Id>, pos: nat) -> Option<(Stmt, nat)>
    decreases t.len() - pos, 3nat,
{
    if pos >= t.len() {
        None
    } else {
        match t[pos as int] {
            Tok::Var => match binding_at(t, y, pos + 1) {
                Some(((name, init), p)) => if is(t, p, Tok::Semi) {
                    Some((Stmt::Declaration(name, init), p + 1))
                } else {
                    None
                },
                None => None,
            },
            Tok::If => if_at(t, y, pos),
            Tok::Ifq => cast_at(t, y, pos),
            Tok::For => for_at(t, y, pos),
            Tok::While => while_at(t, y, pos),
            Tok::Return => if is(t, pos + 1, Tok::Semi) {
                Some((Stmt::Return(None), pos + 2))
            } else {
                match expression_at(t, y, pos + 1) {
                    Some((value, p)) => if is(t, p, Tok::Semi) {
                        Some((Stmt::Return(Some(value)), p + 1))
                    } else {
                        None
                    },
                    None => None,
                }
            },
            _ => match simple_at(t, y, pos) {
                Some((stmt, p)) => if is(t, p, Tok::Semi) {
                    Some((stmt, p + 1))
                } else {
                    None
                },
                None => None,
            },
        }
    }
}

/// The statements from `pos` on, after the statements `acc`.
pub open spec fn statements_at(t: Seq<Tok>, y: Seq<Id>, pos: nat, acc: Seq<Stmt>) -> (Seq<Stmt>, nat)
    decreases t.len() - pos, 4nat,
{
    match statement_at(t, y, pos) {
        Some((stmt, p)) => if pos < p <= t.len() {
            statements_at(t, y, p, acc.push(stmt))
        } else {
            (acc, pos)
        },
        None => (acc, pos),
    }
}

/// The block `{ statements }` at `pos`.
pub open spec fn block_at(t: Seq<Tok>, y: Seq<Id>, pos: nat) -> Option<(Seq<Stmt>, nat)>
    decreases t.len() - pos, 1nat,
{
    if is(t, pos, Tok::LBrace) {
        let (stmts, p) = statements_at(t, y, pos + 1, Seq::empty());
        if is(t, p, Tok::RBrace) {
            Some((stmts, p + 1))
        } else {
            None
        }
    } else {
        None
    }
}

/// The `else` part at `pos`: `else` and a block, or nothing, which stands
/// for an empty block.
pub open spec fn else_at(t: Seq<Tok>, y: Seq<Id>, pos: nat) -> (Seq<Stmt>, nat)
    decreases t.len() - pos, 2nat,
{
    if is(t, pos, Tok::Else) {
        match block_at(t, y, pos + 1) {
            Some((block, p)) => (block, p),
            None => (Seq::empty(), pos),
        }
    } else {
        (Seq::empty(), pos)
    }
}

/// `if (e) block` with its `else` part, at `pos`.
pub open spec fn if_at(t: Seq<Tok>, y: Seq<Id>, pos: nat) -> Option<(Stmt, nat)>
    decreases t.len() - pos, 2nat,
{
    if is(t, pos, Tok::If) && is(t, pos + 1, Tok::LParen) {
        match expression_at(t, y, pos + 2) {
            Some((condition, p)) => if is(t, p, Tok::RParen) && pos < p {
                match block_at(t, y, p + 1) {
                    Some((then, q)) => if p < q <= t.len() {
                        let (else_, end) = else_at(t, y, q);
                        Some((Stmt::If { condition, then, else_ }, end))
                    } else {
                        None
                    },
                    None => None,
                }
            } else {
                None
            },
            None => None,
        }
    } else {
        None
    }
}

/// `if? (R id = e) block` with its `else` part, at `pos`.
pub open spec fn cast_at(t: Seq<Tok>, y: Seq<Id>, pos: nat) -> Option<(Stmt, nat)>
    decreases t.len() - pos, 2nat,
{
    if is(t, pos, Tok::Ifq) && is(t, pos + 1, Tok::LParen) {
        match reference_type_at(t, y, pos + 2) {
            Some((r, p)) => match binding_at(t, y, p) {
                Some(((name, source), q)) => if is(t, q, Tok::RParen) && pos < q {
                    match block_at(t, y, q + 1) {
                        Some((then, u)) => if q < u <= t.len() {
                            let (else_, end) = else_at(t, y, u);
                            Some((Stmt::Cast(r, name, source, then, else_), end))
                        } else {
                            None
                        },
                        None => None,
                    }
                } else {
                    None
                },
                None => None,
            },
            None => None,
        }
    } else {
        None
    }
}

/// `for (initializers; condition; update) block` at `pos`. The condition
/// and the update may be left out.
pub open spec fn for_at(t: Seq<Tok>, y: Seq<Id>, pos: nat) -> Option<(Stmt, nat)>
    decreases t.len() - pos, 2nat,
{
    if is(t, pos, Tok::For) && is(t, pos + 1, Tok::LParen) {
        let (init, p) = initializers_at(t, y, pos + 2);
        if is(t, p, Tok::Semi) {
            let (condition, q) = match expression_at(t, y, p + 1) {
                Some((c, q)) => (Some(c), q),
                None => (None, p + 1),
            };
            if is(t, q, Tok::Semi) {
                let (update, u) = match simple_at(t, y, q + 1) {
                    Some((stmt, u)) => (Some(Box::new(stmt)), u),
                    None => (None, q + 1),
                };
                if is(t, u, Tok::RParen) && pos < u {
                    match block_at(t, y, u + 1) {
                        Some((body, end)) => Some((Stmt::For { init, condition, update, body }, end)),
                        None => None,
                    }
                } else {
                    None
                }
            } else {
                None
            }
        } else {
            None
        }
    } else {
        None
    }
}

/// `while (e) block` at `pos`.
pub open spec fn while_at(t: Seq<Tok>, y: Seq<Id>, pos: nat) -> Option<(Stmt, nat)>
    decreases t.len() - pos, 2nat,
{
    if is(t, pos, Tok::While) && is(t, pos + 1, Tok::LParen) {
        match expression_at(t, y, pos + 2) {
            Some((condition, p)) => if is(t, p, Tok::RParen) && pos < p {
                match block_at(t, y, p + 1) {
                    Some((body, end)) => Some((Stmt::While { condition, body }, end)),
                    None => None,
                }
            } else {
                None
            },
            None => None,
        }
    } else {
        None
    }
}

/// The fields after `name` was declared with the type `ty`: a name declared
/// before keeps its place and gets the new type.
pub open spec fn insert_field(fields: Fields, name: Id, ty: Ty) -> Fields {
    match position(names(fields), name) {
        Some(i) => fields.update(i as int, (name, ty)),
        None => fields.push((name, ty)),
    }
}

/// A typed name `T id` at `pos`.
pub open spec fn typed_name_at(t: Seq<Tok>, y: Seq<Id>, pos: nat) -> Option<((Ty, Id), nat)> {
    match type_at(t, y, pos) {
        Some((ty, p)) => if is_ident(t, p) && p < y.len() {
            Some(((ty, y[p as int]), p + 1))
        } else {
            None
        },
        None => None,
    }
}

/// The fields `T id;` from `pos` on, after the fields `acc`.
pub open spec fn fields_at(t: Seq<Tok>, y: Seq<Id>, pos: nat, acc: Fields) -> (Fields, nat)
    decreases t.len() - pos,
{
    match typed_name_at(t, y, pos) {
        Some(((ty, name), p)) => if is(t, p, Tok::Semi) && pos < p {
            fields_at(t, y, p + 1, insert_field(acc, name, ty))
        } else {
            (acc, pos)
        },
        None => (acc, pos),
    }
}

/// The rest of a list of parameters: `, T id` any number of times.
pub open spec fn more_parameters_at(t: Seq<Tok>, y: Seq<Id>, pos: nat, acc: Seq<(Ty, Id)>) -> (
    Seq<(Ty, Id)>,
    nat,
)
    decreases t.len() - pos,
{
    if is(t, pos, Tok::Comma) {
        match typed_name_at(t, y, pos + 1) {
            Some((next, p)) => if pos + 1 < p <= t.len() {
                more_parameters_at(t, y, p, acc.push(next))
            } else {
                (acc, pos)
            },
            None => (acc, pos),
        }
    } else {
        (acc, pos)
    }
}

/// The parameters `T id, T id, ...` at `pos`. The list may be empty.
pub open spec fn parameters_at(t: Seq<Tok>, y: Seq<Id>, pos: nat) -> (Seq<(Ty, Id)>, nat) {
    match typed_name_at(t, y, pos) {
        Some((first, p)) => if pos < p <= t.len() {
            more_parameters_at(t, y, p, seq![first])
        } else {
            (Seq::empty(), pos)
        },
        None => (Seq::empty(), pos),
    }
}

/// A function `R id(parameters) block` at `pos`.
pub open spec fn function_at(t: Seq<Tok>, y: Seq<Id>, pos: nat) -> Option<(FunDecl, nat)> {
    match return_type_at(t, y, pos) {
        Some((return_type, p)) => if is_ident(t, p) && p < y.len() && is(t, p + 1, Tok::LParen) {
            let (args, q) = parameters_at(t, y, p + 2);
            if is(t, q, Tok::RParen) {
                match block_at(t, y, q + 1) {
                    Some((body, end)) => Some(
                        (FunDecl { return_type, name: y[p as int], args, body }, end),
                    ),
                    None => None,
                }
            } else {
                None
            }
        } else {
            None
        },
        None => None,
    }
}

/// A struct `struct id { fields }` at `pos`.
pub open spec fn struct_at(t: Seq<Tok>, y: Seq<Id>, pos: nat) -> Option<(Decl, nat)> {
    if is(t, pos, Tok::Struct) && is_ident(t, pos + 1) && pos + 1 < y.len() && is(
        t,
        pos + 2,
        Tok::LBrace,
    ) {
        let (fields, p) = fields_at(t, y, pos + 3, Seq::empty());
        if is(t, p, Tok::RBrace) {
            Some((Decl::Type { name: y[pos as int + 1], fields }, p + 1))
        } else {
            None
        }
    } else {
        None
    }
}

/// The initializer of a global at `pos`: a null, boolean, integer or string
/// literal, or the name of a global.
pub open spec fn constant_at(t: Seq<Tok>, y: Seq<Id>, pos: nat) -> Option<(Expr, nat)> {
    if pos >= t.len() || pos >= y.len() {
        None
    } else {
        match null_at(t, y, pos) {
            Some(r) => Some(r),
            None => match t[pos as int] {
                Tok::True => Some((Expr::CBool(true), pos + 1)),
                Tok::False => Some((Expr::CBool(false), pos + 1)),
                Tok::Int(v) => Some((Expr::CInt(v), pos + 1)),
                Tok::Dash => if pos + 1 < t.len() && t[pos as int + 1] is Int && t[pos as int
                    + 1]->Int_0 > i64::MIN {
                    Some((Expr::CInt((-t[pos as int + 1]->Int_0) as i64), pos + 2))
                } else {
                    None
                },
                Tok::String(s) => Some((Expr::CStr(s), pos + 1)),
                Tok::Ident(_) => Some((Expr::Id(y[pos as int]), pos + 1)),
                _ => None,
            },
        }
    }
}

/// A global `global id = constant;` at `pos`.
pub open spec fn global_at(t: Seq<Tok>, y: Seq<Id>, pos: nat) -> Option<(Decl, nat)> {
    if is(t, pos, Tok::Global) && is_ident(t, pos + 1) && pos + 1 < y.len() && is(t, pos + 2, Tok::Eq) {
        match constant_at(t, y, pos + 3) {
            Some((init, p)) => if is(t, p, Tok::Semi) {
                Some((Decl::Variable { name: y[pos as int + 1], init }, p + 1))
            } else {
                None
            },
            None => None,
        }
    } else {
        None
    }
}

/// The declaration at `pos`: a function, a struct or a global.
pub open spec fn declaration_at(t: Seq<Tok>, y: Seq<Id>, pos: nat) -> Option<(Decl, nat)> {
    match function_at(t, y, pos) {
        Some((f, p)) => Some((Decl::Function(f), p)),
        None => match struct_at(t, y, pos) {
            Some(r) => Some(r),
            None => global_at(t, y, pos),
        },
    }
}

/// The declarations from `pos` on, after the declarations `acc`.
pub open spec fn declarations_at(t: Seq<Tok>, y: Seq<Id>, pos: nat, acc: Prog) -> (Prog, nat)
    decreases t.len() - pos,
{
    match declaration_at(t, y, pos) {
        Some((d, p)) => if pos < p <= t.len() {
            declarations_at(t, y, p, acc.push(d))
        } else {
            (acc, pos)
        },
        None => (acc, pos),
    }
}

/// A boolean literal at `pos`.
pub open spec fn bool_at(t: Seq<Tok>, y: Seq<Id>, pos: nat) -> Option<(Expr, nat)> {
    if is(t, pos, Tok::True) {
        Some((Expr::CBool(true), pos + 1))
    } else if is(t, pos, Tok::False) {
        Some((Expr::CBool(false), pos + 1))
    } else {
        None
    }
}

/// An identifier at `pos`.
pub open spec fn identifier_at(t: Seq<Tok>, y: Seq<Id>, pos: nat) -> Option<(Id, nat)> {
    if is_ident(t, pos) && pos < y.len() {
        Some((y[pos as int], pos + 1))
    } else {
        None
    }
}

/// `length(e)` at `pos`.
pub open spec fn length_at(t: Seq<Tok>, y: Seq<Id>, pos: nat) -> Option<(Expr, nat)> {
    if is(t, pos, Tok::Length) && is(t, pos + 1, Tok::LParen) {
        match expression_at(t, y, pos + 2) {
            Some((array, p)) => if is(t, p, Tok::RParen) {
                Some((Expr::Length(Box::new(array)), p + 1))
            } else {
                None
            },
            None => None,
        }
    } else {
        None
    }
}

/// An expression in parentheses at `pos`.
pub open spec fn parenthesized_at(t: Seq<Tok>, y: Seq<Id>, pos: nat) -> Option<(Expr, nat)> {
    if is(t, pos, Tok::LParen) {
        match expression_at(t, y, pos + 1) {
            Some((inner, p)) => if is(t, p, Tok::RParen) {
                Some((inner, p + 1))
            } else {
                None
            },
            None => None,
        }
    } else {
        None
    }
}

/// An expression at `pos` that is a call.
pub open spec fn call_at(t: Seq<Tok>, y: Seq<Id>, pos: nat) -> Option<(Expr, nat)> {
    match expression_at(t, y, pos) {
        Some((e, p)) => if e is Call {
            Some((e, p))
        } else {
            None
        },
        None => None,
    }
}

/// An expression at `pos` that is a projection.
pub open spec fn projection_at(t: Seq<Tok>, y: Seq<Id>, pos: nat) -> Option<(Expr, nat)> {
    match expression_at(t, y, pos) {
        Some((e, p)) => if e is Proj {
            Some((e, p))
        } else {
            None
        },
        None => None,
    }
}

/// The unary operator at `pos`.
pub open spec fn unary_operator_at(t: Seq<Tok>, y: Seq<Id>, pos: nat) -> Option<(UnaryOp, nat)> {
    if pos < t.len() {
        match unary_operator(t[pos as int]) {
            Some(op) => Some((op, pos + 1)),
            None => None,
        }
    } else {
        None
    }
}

/// The binary operator at `pos`, with the position after it.
pub open spec fn binary_operator_at(t: Seq<Tok>, y: Seq<Id>, pos: nat) -> Option<(BinaryOp, nat)> {
    match operator_at(t, pos) {
        Some(op) => Some((op, pos + 1)),
        None => None,
    }
}

} // verus!
