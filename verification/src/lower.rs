//! Lowering: from the syntax tree to LLVMLite.
//!
//! An expression lowers to a type, an operand that holds its value, and a
//! stream of the instructions that compute the operand. A statement lowers
//! to a stream in which labels and terminators mark the blocks. The rules
//! are stated as functions on the models, and the lowering pass computes
//! them. Names are made fresh from counters, which the rules thread through.

use crate::ast::{BinaryOp, Expr, Id, RefTy, RetTy, Stmt, Ty, UnaryOp};
use crate::errors::Error;
use crate::llvmlite::{
    BinaryOperator, Condition, Gid, LInit, LInstruction, LTerminator, LType, Label, Operand,
    Runtime, Uid,
};
use crate::symbol::Symbol;
use crate::typecontext::{field_of, struct_fields, Structs};
use vstd::prelude::*;

verus! {

/// An element of a stream of code.
pub enum Elt {
    /// The start of the block with the label.
    Label(Label),
    /// An instruction, with the identifier that it defines.
    Ins(Uid, LInstruction),
    /// The terminator that ends the block.
    Term(LTerminator),
    /// A global that the code needs: the text of a string literal.
    Global(Gid, LType, LInit),
}

/// The counters from which names are made: the next local identifier, the
/// next label, and the next string literal.
#[derive(Debug, Clone, Copy, PartialEq, Eq, Structural)]
pub struct Names {
    pub uid: u32,
    pub label: u32,
    pub text: u32,
}

/// What identifiers stand for in lowered code: the address of a variable,
/// or a function, with the type of the operand.
pub type Ctx = Map<Id, (LType, Operand)>;

/// What an expression lowers to: its type, the operand that holds its
/// value, the code that computes it, and the counters after it.
pub type Lowered = Result<(LType, Operand, Seq<Elt>, Names), Error>;

/// What a statement lowers to: the code, and the counters after it.
pub type Code = Result<(Seq<Elt>, Names), Error>;

/// A fresh local identifier, and the counters after it.
pub open spec fn fresh_uid(n: Names) -> Result<(Uid, Names), Error> {
    if n.uid == u32::MAX {
        Err(Error::OutOfNames)
    } else {
        Ok((Symbol { index: n.uid }, Names { uid: (n.uid + 1) as u32, label: n.label, text: n.text }))
    }
}

/// A fresh label, and the counters after it.
pub open spec fn fresh_label(n: Names) -> Result<(Label, Names), Error> {
    if n.label == u32::MAX {
        Err(Error::OutOfNames)
    } else {
        Ok(
            (
                Symbol { index: n.label },
                Names { uid: n.uid, label: (n.label + 1) as u32, text: n.text },
            ),
        )
    }
}

/// A fresh global for the text of a string literal, and the counters after
/// it.
pub open spec fn fresh_text(n: Names) -> Result<(Gid, Names), Error> {
    if n.text == u32::MAX {
        Err(Error::OutOfNames)
    } else {
        Ok((Gid::Text(n.text), Names { uid: n.uid, label: n.label, text: (n.text + 1) as u32 }))
    }
}

/// The code `s`, followed by the instruction `ins` under a fresh
/// identifier. Gives the identifier, the code, and the counters.
pub open spec fn emit(s: Seq<Elt>, ins: LInstruction, n: Names) -> Result<(Uid, Seq<Elt>, Names), Error> {
    match fresh_uid(n) {
        Err(e) => Err(e),
        Ok((u, n1)) => Ok((u, s.push(Elt::Ins(u, ins)), n1)),
    }
}

/// The representation of an array of elements of type `t`: its length,
/// then its elements.
pub open spec fn array_of(t: LType) -> LType {
    LType::Struct(seq![LType::I64, LType::Array(0, Box::new(t))])
}

/// The LLVMLite type of a type of Oat.
pub open spec fn ll_type(t: Ty) -> LType
    decreases t,
{
    match t {
        Ty::Bool => LType::I1,
        Ty::Int => LType::I64,
        Ty::Ref(r) => LType::Ptr(Box::new(ll_pointee(r))),
        Ty::NullRef(r) => LType::Ptr(Box::new(ll_pointee(r))),
    }
}

/// What a reference of a reference type of Oat points to.
pub open spec fn ll_pointee(r: RefTy) -> LType
    decreases r,
{
    match r {
        RefTy::String => LType::I8,
        RefTy::Struct(name) => LType::Namedt(name),
        RefTy::Array(t) => array_of(ll_type(*t)),
        RefTy::Function(args, ret) => LType::Fun(
            Seq::new(
                args.len(),
                |i: int|
                    if 0 <= i < args.len() {
                        ll_type(args[i])
                    } else {
                        LType::Void
                    },
            ),
            Box::new(ll_return(*ret)),
        ),
    }
}

/// The LLVMLite type of a return type of Oat.
pub open spec fn ll_return(r: RetTy) -> LType
    decreases r,
{
    match r {
        RetTy::Void => LType::Void,
        RetTy::Value(t) => ll_type(t),
    }
}

/// An identifier as a value: a function stands for itself, and a variable
/// is read from its address.
pub open spec fn lower_identifier(ctx: Ctx, x: Id, n: Names) -> Lowered {
    if !ctx.contains_key(x) {
        Err(Error::UnboundIdentifier(x))
    } else {
        let (t, o) = ctx[x];
        match t {
            LType::Ptr(inner) => if *inner is Fun {
                Ok((t, o, Seq::empty(), n))
            } else {
                match emit(Seq::empty(), LInstruction::Load(*inner, o), n) {
                    Err(e) => Err(e),
                    Ok((u, s, n1)) => Ok((*inner, Operand::Id(u), s, n1)),
                }
            },
            _ => Err(Error::DerefNonPointer),
        }
    }
}

/// A unary operation on the operand `a`, which the code `s` computes.
pub open spec fn lower_unary(op: UnaryOp, a: Operand, s: Seq<Elt>, n: Names) -> Lowered {
    let (ins, t) = match op {
        UnaryOp::Neg => (
            LInstruction::Binop(BinaryOperator::Sub, LType::I64, Operand::Const(0), a),
            LType::I64,
        ),
        UnaryOp::Lognot => (
            LInstruction::Icmp(Condition::Eq, LType::I1, a, Operand::Const(0)),
            LType::I1,
        ),
        UnaryOp::Bitnot => (
            LInstruction::Binop(BinaryOperator::Xor, LType::I64, a, Operand::Const(-1i64)),
            LType::I64,
        ),
    };
    match emit(s, ins, n) {
        Err(e) => Err(e),
        Ok((u, s1, n1)) => Ok((t, Operand::Id(u), s1, n1)),
    }
}

/// The instruction of a binary operation on operands of which the left one
/// has the type `t`, and the type of its result.
pub open spec fn binary_instruction(op: BinaryOp, t: LType, a: Operand, b: Operand) -> (
    LInstruction,
    LType,
) {
    match op {
        BinaryOp::Add => (LInstruction::Binop(BinaryOperator::Add, LType::I64, a, b), LType::I64),
        BinaryOp::Sub => (LInstruction::Binop(BinaryOperator::Sub, LType::I64, a, b), LType::I64),
        BinaryOp::Mul => (LInstruction::Binop(BinaryOperator::Mul, LType::I64, a, b), LType::I64),
        BinaryOp::IAnd => (LInstruction::Binop(BinaryOperator::And, LType::I64, a, b), LType::I64),
        BinaryOp::IOr => (LInstruction::Binop(BinaryOperator::Or, LType::I64, a, b), LType::I64),
        BinaryOp::Shl => (LInstruction::Binop(BinaryOperator::Shl, LType::I64, a, b), LType::I64),
        BinaryOp::Shr => (LInstruction::Binop(BinaryOperator::Lshr, LType::I64, a, b), LType::I64),
        BinaryOp::Sar => (LInstruction::Binop(BinaryOperator::Ashr, LType::I64, a, b), LType::I64),
        BinaryOp::And => (LInstruction::Binop(BinaryOperator::And, LType::I1, a, b), LType::I1),
        BinaryOp::Or => (LInstruction::Binop(BinaryOperator::Or, LType::I1, a, b), LType::I1),
        BinaryOp::Eq => (LInstruction::Icmp(Condition::Eq, t, a, b), LType::I1),
        BinaryOp::Neq => (LInstruction::Icmp(Condition::Ne, t, a, b), LType::I1),
        BinaryOp::Lt => (LInstruction::Icmp(Condition::Slt, LType::I64, a, b), LType::I1),
        BinaryOp::Lte => (LInstruction::Icmp(Condition::Sle, LType::I64, a, b), LType::I1),
        BinaryOp::Gt => (LInstruction::Icmp(Condition::Sgt, LType::I64, a, b), LType::I1),
        BinaryOp::Gte => (LInstruction::Icmp(Condition::Sge, LType::I64, a, b), LType::I1),
    }
}

/// A binary operation on operands that the code `s` computes.
pub open spec fn lower_binary(op: BinaryOp, t: LType, a: Operand, b: Operand, s: Seq<Elt>, n: Names) -> Lowered {
    let (ins, result) = binary_instruction(op, t, a, b);
    match emit(s, ins, n) {
        Err(e) => Err(e),
        Ok((u, s1, n1)) => Ok((result, Operand::Id(u), s1, n1)),
    }
}

/// The type of the elements of an array, given the type of a reference to
/// the array.
pub open spec fn element_type(t: LType) -> Option<LType> {
    match t {
        LType::Ptr(inner) => match *inner {
            LType::Struct(parts) => if parts.len() == 2 && parts[0] == LType::I64 && parts[1] is Array {
                Some(*parts[1]->Array_1)
            } else {
                None
            },
            _ => None,
        },
        _ => None,
    }
}

/// The length of the array at `a`: read from the first part of its
/// representation.
pub open spec fn lower_length(t: LType, a: Operand, s: Seq<Elt>, n: Names) -> Lowered {
    if element_type(t).is_none() {
        Err(Error::DerefNonPointer)
    } else {
        match emit(s, LInstruction::Gep(t, a, seq![Operand::Const(0), Operand::Const(0)]), n) {
            Err(e) => Err(e),
            Ok((p, s1, n1)) => match emit(s1, LInstruction::Load(LType::I64, Operand::Id(p)), n1) {
                Err(e) => Err(e),
                Ok((u, s2, n2)) => Ok((LType::I64, Operand::Id(u), s2, n2)),
            },
        }
    }
}

/// The address of the element at `index` of the array at `a`.
pub open spec fn element_address(t: LType, a: Operand, index: Operand, s: Seq<Elt>, n: Names) -> Lowered {
    match element_type(t) {
        None => Err(Error::DerefNonPointer),
        Some(element) => match emit(
            s,
            LInstruction::Gep(t, a, seq![Operand::Const(0), Operand::Const(1), index]),
            n,
        ) {
            Err(e) => Err(e),
            Ok((p, s1, n1)) => Ok((element, Operand::Id(p), s1, n1)),
        },
    }
}

/// The element at `index` of the array at `a`.
pub open spec fn lower_index(t: LType, a: Operand, index: Operand, s: Seq<Elt>, n: Names) -> Lowered {
    match element_address(t, a, index, s, n) {
        Err(e) => Err(e),
        Ok((element, p, s1, n1)) => match emit(s1, LInstruction::Load(element, p), n1) {
            Err(e) => Err(e),
            Ok((u, s2, n2)) => Ok((element, Operand::Id(u), s2, n2)),
        },
    }
}

/// The address of the field `field` of the struct at `a`. Gives the type of
/// the field and the operand that holds its address.
pub open spec fn field_address(
    structs: Structs,
    t: LType,
    a: Operand,
    field: Id,
    s: Seq<Elt>,
    n: Names,
) -> Lowered {
    match t {
        LType::Ptr(inner) => match *inner {
            LType::Namedt(name) => match struct_fields(structs, name) {
                None => Err(Error::StructNotFound(name)),
                Some(fields) => match field_of(fields, field) {
                    None => Err(Error::FieldNotFound(name, field)),
                    Some((i, ft)) => if i > i64::MAX {
                        Err(Error::OutOfNames)
                    } else {
                        match emit(
                            s,
                            LInstruction::Gep(t, a, seq![Operand::Const(0), Operand::Const(i as i64)]),
                            n,
                        ) {
                            Err(e) => Err(e),
                            Ok((p, s1, n1)) => Ok((ll_type(ft), Operand::Id(p), s1, n1)),
                        }
                    },
                },
            },
            _ => Err(Error::DerefNonPointer),
        },
        _ => Err(Error::DerefNonPointer),
    }
}

/// The field `field` of the struct at `a`.
pub open spec fn lower_projection(
    structs: Structs,
    t: LType,
    a: Operand,
    field: Id,
    s: Seq<Elt>,
    n: Names,
) -> Lowered {
    match field_address(structs, t, a, field, s, n) {
        Err(e) => Err(e),
        Ok((ft, p, s1, n1)) => match emit(s1, LInstruction::Load(ft, p), n1) {
            Err(e) => Err(e),
            Ok((u, s2, n2)) => Ok((ft, Operand::Id(u), s2, n2)),
        },
    }
}

/// A call of the function at `f` with arguments that the code `s` computes.
pub open spec fn lower_call(t: LType, f: Operand, args: Seq<(LType, Operand)>, s: Seq<Elt>, n: Names) -> Lowered {
    match t {
        LType::Ptr(inner) => match *inner {
            LType::Fun(_, ret) => match emit(s, LInstruction::Call(*ret, f, args), n) {
                Err(e) => Err(e),
                Ok((u, s1, n1)) => Ok((*ret, Operand::Id(u), s1, n1)),
            },
            _ => Err(Error::NotAFunction),
        },
        _ => Err(Error::NotAFunction),
    }
}

/// A new array of `length` elements of type `element`: the runtime
/// allocates it, the pointer is cast to the type of the array, and the
/// length is stored.
pub open spec fn lower_new_array(element: LType, length: Operand, s: Seq<Elt>, n: Names) -> Lowered {
    let raw_type = LType::Ptr(Box::new(LType::I64));
    let array_type = LType::Ptr(Box::new(array_of(element)));
    match emit(
        s,
        LInstruction::Call(raw_type, Operand::Gid(Gid::External(Runtime::AllocArray)), seq![(LType::I64, length)]),
        n,
    ) {
        Err(e) => Err(e),
        Ok((raw, s1, n1)) => match emit(
            s1,
            LInstruction::Bitcast(raw_type, Operand::Id(raw), array_type),
            n1,
        ) {
            Err(e) => Err(e),
            Ok((array, s2, n2)) => match emit(
                s2,
                LInstruction::Gep(array_type, Operand::Id(array), seq![Operand::Const(0), Operand::Const(0)]),
                n2,
            ) {
                Err(e) => Err(e),
                Ok((p, s3, n3)) => match emit(
                    s3,
                    LInstruction::Store(LType::I64, length, Operand::Id(p)),
                    n3,
                ) {
                    Err(e) => Err(e),
                    Ok((_, s4, n4)) => Ok((array_type, Operand::Id(array), s4, n4)),
                },
            },
        },
    }
}

/// A string literal: its text becomes a fresh global, as the bytes of the
/// text and a zero byte, and the literal stands for the address of the
/// global.
pub open spec fn lower_text(text: Seq<char>, n: Names) -> Lowered {
    if text.len() >= usize::MAX {
        Err(Error::OutOfNames)
    } else {
        match fresh_text(n) {
            Err(e) => Err(e),
            Ok((g, n1)) => Ok(
                (
                    LType::Ptr(Box::new(LType::I8)),
                    Operand::Gid(g),
                    seq![
                        Elt::Global(
                            g,
                            LType::Array(text.len() + 1, Box::new(LType::I8)),
                            LInit::String(text),
                        ),
                    ],
                    n1,
                ),
            ),
        }
    }
}

/// An expression as a value.
pub open spec fn lower_expression(structs: Structs, ctx: Ctx, e: Expr, n: Names) -> Lowered
    decreases e, 0nat,
{
    match e {
        Expr::CInt(i) => Ok((LType::I64, Operand::Const(i), Seq::empty(), n)),
        Expr::CBool(b) => Ok(
            (
                LType::I1,
                Operand::Const(
                    if b {
                        1
                    } else {
                        0
                    },
                ),
                Seq::empty(),
                n,
            ),
        ),
        Expr::CNull(r) => Ok(
            (LType::Ptr(Box::new(ll_pointee(r))), Operand::Null, Seq::empty(), n),
        ),
        Expr::CStr(text) => lower_text(text, n),
        Expr::Id(x) => lower_identifier(ctx, x, n),
        Expr::Unary(op, operand) => match lower_expression(structs, ctx, *operand, n) {
            Err(e) => Err(e),
            Ok((_, a, s, n1)) => lower_unary(op, a, s, n1),
        },
        Expr::Binary { op, left, right } => match lower_expression(structs, ctx, *left, n) {
            Err(e) => Err(e),
            Ok((t, a, s1, n1)) => match lower_expression(structs, ctx, *right, n1) {
                Err(e) => Err(e),
                Ok((_, b, s2, n2)) => lower_binary(op, t, a, b, s1 + s2, n2),
            },
        },
        Expr::Length(array) => match lower_expression(structs, ctx, *array, n) {
            Err(e) => Err(e),
            Ok((t, a, s, n1)) => lower_length(t, a, s, n1),
        },
        Expr::Index { value, index } => match lower_expression(structs, ctx, *value, n) {
            Err(e) => Err(e),
            Ok((t, a, s1, n1)) => match lower_expression(structs, ctx, *index, n1) {
                Err(e) => Err(e),
                Ok((_, i, s2, n2)) => lower_index(t, a, i, s1 + s2, n2),
            },
        },
        Expr::Proj(object, field) => match lower_expression(structs, ctx, *object, n) {
            Err(e) => Err(e),
            Ok((t, a, s, n1)) => lower_projection(structs, t, a, field, s, n1),
        },
        Expr::Call(callee, args) => match lower_expression(structs, ctx, *callee, n) {
            Err(e) => Err(e),
            Ok((t, f, s, n1)) => match lower_arguments(structs, ctx, args, 0, Seq::empty(), s, n1) {
                Err(e) => Err(e),
                Ok((typed, s1, n2)) => lower_call(t, f, typed, s1, n2),
            },
        },
        Expr::NewArr(t, length) => match lower_expression(structs, ctx, *length, n) {
            Err(e) => Err(e),
            Ok((_, l, s, n1)) => lower_new_array(ll_type(t), l, s, n1),
        },
        Expr::CArr(t, elements) => if elements.len() > i64::MAX {
            Err(Error::OutOfNames)
        } else {
            match lower_new_array(
                ll_type(t),
                Operand::Const(elements.len() as i64),
                Seq::empty(),
                n,
            ) {
                Err(e) => Err(e),
                Ok((ta, a, s, n1)) => match lower_elements(structs, ctx, ta, a, elements, 0, s, n1) {
                    Err(e) => Err(e),
                    Ok((s1, n2)) => Ok((ta, a, s1, n2)),
                },
            }
        },
        Expr::CStruct(name, fields) => {
            let t = LType::Ptr(Box::new(LType::Namedt(name)));
            match emit(Seq::empty(), LInstruction::Alloca(LType::Namedt(name)), n) {
                Err(e) => Err(e),
                Ok((u, s, n1)) => match lower_fields(
                    structs,
                    ctx,
                    t,
                    Operand::Id(u),
                    fields,
                    0,
                    s,
                    n1,
                ) {
                    Err(e) => Err(e),
                    Ok((s1, n2)) => Ok((t, Operand::Id(u), s1, n2)),
                },
            }
        },
    }
}

/// The arguments of a call from position `i` on, in source order: their
/// types and operands after `typed`, and their code after `s`.
pub open spec fn lower_arguments(
    structs: Structs,
    ctx: Ctx,
    args: Seq<Expr>,
    i: nat,
    typed: Seq<(LType, Operand)>,
    s: Seq<Elt>,
    n: Names,
) -> Result<(Seq<(LType, Operand)>, Seq<Elt>, Names), Error>
    decreases args, args.len() - i,
{
    if i >= args.len() {
        Ok((typed, s, n))
    } else {
        match lower_expression(structs, ctx, args[i as int], n) {
            Err(e) => Err(e),
            Ok((t, o, s1, n1)) => lower_arguments(structs, ctx, args, i + 1, typed.push((t, o)), s + s1, n1),
        }
    }
}

/// The elements of an array literal from position `i` on: each is computed
/// and stored at its place in the array at `a`.
pub open spec fn lower_elements(
    structs: Structs,
    ctx: Ctx,
    t: LType,
    a: Operand,
    elements: Seq<Expr>,
    i: nat,
    s: Seq<Elt>,
    n: Names,
) -> Code
    decreases elements, elements.len() - i,
{
    if i >= elements.len() || i > i64::MAX {
        Ok((s, n))
    } else {
        match lower_expression(structs, ctx, elements[i as int], n) {
            Err(e) => Err(e),
            Ok((_, o, s1, n1)) => match element_address(t, a, Operand::Const(i as i64), s + s1, n1) {
                Err(e) => Err(e),
                Ok((te, p, s2, n2)) => match emit(s2, LInstruction::Store(te, o, p), n2) {
                    Err(e) => Err(e),
                    Ok((_, s3, n3)) => lower_elements(structs, ctx, t, a, elements, i + 1, s3, n3),
                },
            },
        }
    }
}

/// The fields of a struct literal from position `i` on, in source order:
/// each is computed and stored in its field of the struct at `a`.
pub open spec fn lower_fields(
    structs: Structs,
    ctx: Ctx,
    t: LType,
    a: Operand,
    fields: Seq<(Id, Expr)>,
    i: nat,
    s: Seq<Elt>,
    n: Names,
) -> Code
    decreases fields, fields.len() - i,
{
    if i >= fields.len() {
        Ok((s, n))
    } else {
        match lower_expression(structs, ctx, fields[i as int].1, n) {
            Err(e) => Err(e),
            Ok((_, o, s1, n1)) => match field_address(structs, t, a, fields[i as int].0, s + s1, n1) {
                Err(e) => Err(e),
                Ok((tf, p, s2, n2)) => match emit(s2, LInstruction::Store(tf, o, p), n2) {
                    Err(e) => Err(e),
                    Ok((_, s3, n3)) => lower_fields(structs, ctx, t, a, fields, i + 1, s3, n3),
                },
            },
        }
    }
}

/// What a statement lowers to: what identifiers stand for after it, its
/// code, and the counters after it.
pub type Effect = Result<(Ctx, Seq<Elt>, Names), Error>;

/// A new variable `name` of type `t` that holds `o`: a slot is allocated
/// and `o` stored in it, after the code `s`. The name stands for the slot.
pub open spec fn declare_local(ctx: Ctx, name: Id, t: LType, o: Operand, s: Seq<Elt>, n: Names) -> Effect {
    match emit(s, LInstruction::Alloca(t), n) {
        Err(e) => Err(e),
        Ok((slot, s1, n1)) => match emit(s1, LInstruction::Store(t, o, Operand::Id(slot)), n1) {
            Err(e) => Err(e),
            Ok((_, s2, n2)) => Ok(
                (ctx.insert(name, (LType::Ptr(Box::new(t)), Operand::Id(slot))), s2, n2),
            ),
        },
    }
}

/// The bindings from position `i` on, each declared in turn after the code
/// `s`.
pub open spec fn lower_bindings(
    structs: Structs,
    ctx: Ctx,
    bindings: Seq<(Id, Expr)>,
    i: nat,
    s: Seq<Elt>,
    n: Names,
) -> Effect
    decreases bindings.len() - i,
{
    if i >= bindings.len() {
        Ok((ctx, s, n))
    } else {
        match lower_expression(structs, ctx, bindings[i as int].1, n) {
            Err(e) => Err(e),
            Ok((t, o, s1, n1)) => match declare_local(ctx, bindings[i as int].0, t, o, s + s1, n1) {
                Err(e) => Err(e),
                Ok((ctx1, s2, n2)) => lower_bindings(structs, ctx1, bindings, i + 1, s2, n2),
            },
        }
    }
}

/// The place that an assignment writes: a variable, a field or an element.
/// Gives the type of what the place holds, and the operand that holds its
/// address.
pub open spec fn lower_address(structs: Structs, ctx: Ctx, target: Expr, n: Names) -> Lowered {
    match target {
        Expr::Id(x) => if !ctx.contains_key(x) {
            Err(Error::UnboundIdentifier(x))
        } else {
            match ctx[x].0 {
                LType::Ptr(inner) => if *inner is Fun {
                    Err(Error::NotAssignable)
                } else {
                    Ok((*inner, ctx[x].1, Seq::empty(), n))
                },
                _ => Err(Error::DerefNonPointer),
            }
        },
        Expr::Proj(object, field) => match lower_expression(structs, ctx, *object, n) {
            Err(e) => Err(e),
            Ok((t, a, s, n1)) => field_address(structs, t, a, field, s, n1),
        },
        Expr::Index { value, index } => match lower_expression(structs, ctx, *value, n) {
            Err(e) => Err(e),
            Ok((t, a, s1, n1)) => match lower_expression(structs, ctx, *index, n1) {
                Err(e) => Err(e),
                Ok((_, i, s2, n2)) => element_address(t, a, i, s1 + s2, n2),
            },
        },
        _ => Err(Error::NotAssignable),
    }
}

/// Three fresh labels, and the counters after them.
pub open spec fn fresh_labels(n: Names) -> Result<(Label, Label, Label, Names), Error> {
    match fresh_label(n) {
        Err(e) => Err(e),
        Ok((a, n1)) => match fresh_label(n1) {
            Err(e) => Err(e),
            Ok((b, n2)) => match fresh_label(n2) {
                Err(e) => Err(e),
                Ok((c, n3)) => Ok((a, b, c, n3)),
            },
        },
    }
}

/// The code of a conditional: after `s`, which computes the condition `c`,
/// the block branches to `then` or to `else_`, and each of them to the
/// block `merge`, with which the code goes on.
pub open spec fn branches(
    s: Seq<Elt>,
    c: Operand,
    then: Label,
    else_: Label,
    merge: Label,
    then_code: Seq<Elt>,
    else_code: Seq<Elt>,
) -> Seq<Elt> {
    s + seq![Elt::Term(LTerminator::CondBreak(c, then, else_)), Elt::Label(then)] + then_code
        + seq![Elt::Term(LTerminator::Break(merge)), Elt::Label(else_)] + else_code + seq![
        Elt::Term(LTerminator::Break(merge)),
        Elt::Label(merge),
    ]
}

/// The code of a loop: after `s`, the block `head` computes the condition
/// `c` and branches to `body` or to `exit`; the body branches back to
/// `head`; and the code goes on with the block `exit`.
pub open spec fn looped(
    s: Seq<Elt>,
    head: Label,
    body: Label,
    exit: Label,
    head_code: Seq<Elt>,
    c: Operand,
    body_code: Seq<Elt>,
) -> Seq<Elt> {
    s + seq![Elt::Term(LTerminator::Break(head)), Elt::Label(head)] + head_code + seq![
        Elt::Term(LTerminator::CondBreak(c, body, exit)),
        Elt::Label(body),
    ] + body_code + seq![Elt::Term(LTerminator::Break(head)), Elt::Label(exit)]
}

/// The condition of a loop: the expression, or the constant `true` where
/// the loop has none.
pub open spec fn lower_condition(structs: Structs, ctx: Ctx, condition: Option<Expr>, n: Names) -> Lowered {
    match condition {
        Some(c) => lower_expression(structs, ctx, c, n),
        None => Ok((LType::I1, Operand::Const(1), Seq::empty(), n)),
    }
}

/// A statement of a function that returns `ret`.
pub open spec fn lower_statement(structs: Structs, ctx: Ctx, ret: LType, stmt: Stmt, n: Names) -> Effect
    decreases stmt, 0nat,
{
    match stmt {
        Stmt::Assignment(target, value) => match lower_address(structs, ctx, target, n) {
            Err(e) => Err(e),
            Ok((t, p, s1, n1)) => match lower_expression(structs, ctx, value, n1) {
                Err(e) => Err(e),
                Ok((_, o, s2, n2)) => match emit(s1 + s2, LInstruction::Store(t, o, p), n2) {
                    Err(e) => Err(e),
                    Ok((_, s3, n3)) => Ok((ctx, s3, n3)),
                },
            },
        },
        Stmt::Declaration(name, init) => match lower_expression(structs, ctx, init, n) {
            Err(e) => Err(e),
            Ok((t, o, s, n1)) => declare_local(ctx, name, t, o, s, n1),
        },
        Stmt::SCall(callee, args) => match lower_expression(structs, ctx, callee, n) {
            Err(e) => Err(e),
            Ok((t, f, s, n1)) => match lower_arguments(structs, ctx, args, 0, Seq::empty(), s, n1) {
                Err(e) => Err(e),
                Ok((typed, s1, n2)) => match lower_call(t, f, typed, s1, n2) {
                    Err(e) => Err(e),
                    Ok((_, _, s2, n3)) => Ok((ctx, s2, n3)),
                },
            },
        },
        Stmt::If { condition, then, else_ } => match lower_expression(structs, ctx, condition, n) {
            Err(e) => Err(e),
            Ok((_, c, s, n1)) => match fresh_labels(n1) {
                Err(e) => Err(e),
                Ok((lt, le, lm, n2)) => match lower_block(structs, ctx, ret, then, 0, Seq::empty(), n2) {
                    Err(e) => Err(e),
                    Ok((st, n3)) => match lower_block(structs, ctx, ret, else_, 0, Seq::empty(), n3) {
                        Err(e) => Err(e),
                        Ok((se, n4)) => Ok((ctx, branches(s, c, lt, le, lm, st, se), n4)),
                    },
                },
            },
        },
        Stmt::Cast(r, name, source, then, else_) => match lower_expression(structs, ctx, source, n) {
            Err(e) => Err(e),
            Ok((t, o, s, n1)) => match declare_local(
                ctx,
                name,
                LType::Ptr(Box::new(ll_pointee(r))),
                o,
                s,
                n1,
            ) {
                Err(e) => Err(e),
                Ok((bound, s1, n2)) => match emit(
                    s1,
                    LInstruction::Icmp(Condition::Ne, t, o, Operand::Null),
                    n2,
                ) {
                    Err(e) => Err(e),
                    Ok((c, s2, n3)) => match fresh_labels(n3) {
                        Err(e) => Err(e),
                        Ok((lt, le, lm, n4)) => match lower_block(
                            structs,
                            bound,
                            ret,
                            then,
                            0,
                            Seq::empty(),
                            n4,
                        ) {
                            Err(e) => Err(e),
                            Ok((st, n5)) => match lower_block(
                                structs,
                                ctx,
                                ret,
                                else_,
                                0,
                                Seq::empty(),
                                n5,
                            ) {
                                Err(e) => Err(e),
                                Ok((se, n6)) => Ok(
                                    (ctx, branches(s2, Operand::Id(c), lt, le, lm, st, se), n6),
                                ),
                            },
                        },
                    },
                },
            },
        },
        Stmt::For { init, condition, update, body } => match lower_bindings(
            structs,
            ctx,
            init,
            0,
            Seq::empty(),
            n,
        ) {
            Err(e) => Err(e),
            Ok((inner, s, n1)) => match fresh_labels(n1) {
                Err(e) => Err(e),
                Ok((lh, lb, lx, n2)) => match lower_condition(structs, inner, condition, n2) {
                    Err(e) => Err(e),
                    Ok((_, c, sc, n3)) => match lower_block(
                        structs,
                        inner,
                        ret,
                        body,
                        0,
                        Seq::empty(),
                        n3,
                    ) {
                        Err(e) => Err(e),
                        Ok((sb, n4)) => {
                            let updated = match update {
                                None => Ok((inner, Seq::empty(), n4)),
                                Some(u) => lower_statement(structs, inner, ret, *u, n4),
                            };
                            match updated {
                                Err(e) => Err(e),
                                Ok((_, su, n5)) => Ok(
                                    (ctx, looped(s, lh, lb, lx, sc, c, sb + su), n5),
                                ),
                            }
                        },
                    },
                },
            },
        },
        Stmt::While { condition, body } => match fresh_labels(n) {
            Err(e) => Err(e),
            Ok((lh, lb, lx, n1)) => match lower_expression(structs, ctx, condition, n1) {
                Err(e) => Err(e),
                Ok((_, c, sc, n2)) => match lower_block(structs, ctx, ret, body, 0, Seq::empty(), n2) {
                    Err(e) => Err(e),
                    Ok((sb, n3)) => Ok((ctx, looped(Seq::empty(), lh, lb, lx, sc, c, sb), n3)),
                },
            },
        },
        Stmt::Return(None) => Ok(
            (ctx, seq![Elt::Term(LTerminator::Ret(LType::Void, None))], n),
        ),
        Stmt::Return(Some(value)) => match lower_expression(structs, ctx, value, n) {
            Err(e) => Err(e),
            Ok((t, o, s, n1)) => Ok((ctx, s.push(Elt::Term(LTerminator::Ret(t, Some(o)))), n1)),
        },
    }
}

/// The statements of a block from position `i` on, after the code `s`.
/// What a statement declares is known to the statements after it.
pub open spec fn lower_block(
    structs: Structs,
    ctx: Ctx,
    ret: LType,
    block: Seq<Stmt>,
    i: nat,
    s: Seq<Elt>,
    n: Names,
) -> Code
    decreases block, block.len() - i,
{
    if i >= block.len() {
        Ok((s, n))
    } else {
        match lower_statement(structs, ctx, ret, block[i as int], n) {
            Err(e) => Err(e),
            Ok((ctx1, s1, n1)) => lower_block(structs, ctx1, ret, block, i + 1, s + s1, n1),
        }
    }
}

/// The code of a block is the code of its statements in their order: it
/// starts with the code `s` that was there, goes on with the code of the
/// statement at position `i`, and what follows is the code of the
/// statements after it.
pub proof fn lemma_block_in_order(
    structs: Structs,
    ctx: Ctx,
    ret: LType,
    block: Seq<Stmt>,
    i: nat,
    s: Seq<Elt>,
    n: Names,
)
    requires
        lower_block(structs, ctx, ret, block, i, s, n) is Ok,
    ensures
        lower_block(structs, ctx, ret, block, i, s, n)->Ok_0.0.len() >= s.len(),
        lower_block(structs, ctx, ret, block, i, s, n)->Ok_0.0.subrange(0, s.len() as int) == s,
        i < block.len() ==> ({
            let first = lower_statement(structs, ctx, ret, block[i as int], n)->Ok_0;
            let all = lower_block(structs, ctx, ret, block, i, s, n)->Ok_0.0;
            &&& lower_statement(structs, ctx, ret, block[i as int], n) is Ok
            &&& all.len() >= s.len() + first.1.len()
            &&& all.subrange(0, (s.len() + first.1.len()) as int) == s + first.1
            &&& lower_block(structs, ctx, ret, block, i, s, n) == lower_block(
                structs,
                first.0,
                ret,
                block,
                i + 1,
                s + first.1,
                first.2,
            )
        }),
    decreases block.len() - i,
{
    if i >= block.len() {
        assert(s.subrange(0, s.len() as int) =~= s);
    } else {
        let first = lower_statement(structs, ctx, ret, block[i as int], n)->Ok_0;
        let next = s + first.1;
        lemma_block_in_order(structs, first.0, ret, block, i + 1, next, first.2);
        let all = lower_block(structs, ctx, ret, block, i, s, n)->Ok_0.0;
        assert(all.subrange(0, s.len() as int) =~= all.subrange(0, next.len() as int).subrange(
            0,
            s.len() as int,
        ));
        assert(next.subrange(0, s.len() as int) =~= s);
    }
}

} // verus!
