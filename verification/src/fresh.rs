//! Fresh names: what the code of lowering holds of the names that it
//! makes.
//!
//! Code that is lowered between two states of the counters defines only
//! identifiers numbered between them, each later than the one before;
//! marks only labels numbered between them, each once; and branches only to
//! labels that it marks itself. Such code is called fine here. All code
//! that lowering makes is fine.

use crate::ast::{BinaryOp, Expr, Id, Stmt, UnaryOp};
use crate::llvmlite::{
    BinaryOperator, Condition, Gid, LInstruction, LTerminator, LType, Label, Operand, Runtime,
};
use crate::lower::{
    array_of, binary_instruction, branches, declare_local, element_address, emit, field_address,
    fresh_labels, ll_pointee, ll_type, looped, lower_address, lower_arguments, lower_binary,
    lower_bindings, lower_block, lower_call, lower_condition, lower_elements, lower_expression,
    lower_fields, lower_identifier, lower_index, lower_length, lower_new_array,
    lower_projection, lower_statement, lower_text, lower_unary, Ctx, Elt, Names,
};
use crate::symbol::Symbol;
use crate::typecontext::{field_of, struct_fields, Structs};
use vstd::prelude::*;

verus! {

/// No counter of `n` is ahead of that of `m`.
pub open spec fn before(n: Names, m: Names) -> bool {
    n.uid <= m.uid && n.label <= m.label && n.text <= m.text
}

/// Whether the code marks the label `l`.
pub open spec fn marks(d: Seq<Elt>, l: Label) -> bool {
    exists|j: int| 0 <= j < d.len() && #[trigger] d[j] == Elt::Label(l)
}

/// Whether the code marks every label that the terminator branches to.
pub open spec fn lands(d: Seq<Elt>, t: LTerminator) -> bool {
    match t {
        LTerminator::Ret(_, _) => true,
        LTerminator::Break(l) => marks(d, l),
        LTerminator::CondBreak(_, l1, l2) => marks(d, l1) && marks(d, l2),
    }
}

/// Whether the code was made between the states `n` and `m` of the
/// counters: its identifiers and labels are numbered from `n` up to `m`,
/// its identifiers increase, its labels differ, and its terminators branch
/// to labels that it marks.
pub open spec fn fine(d: Seq<Elt>, n: Names, m: Names) -> bool {
    &&& before(n, m)
    &&& forall|i: int|
        0 <= i < d.len() && (#[trigger] d[i]) is Ins ==> n.uid <= d[i]->Ins_0.index < m.uid
    &&& forall|i: int, j: int|
        0 <= i < j < d.len() && (#[trigger] d[i]) is Ins && (#[trigger] d[j]) is Ins
            ==> d[i]->Ins_0.index < d[j]->Ins_0.index
    &&& forall|i: int|
        0 <= i < d.len() && (#[trigger] d[i]) is Label ==> n.label <= d[i]->Label_0.index < m.label
    &&& forall|i: int, j: int|
        0 <= i < j < d.len() && (#[trigger] d[i]) is Label && (#[trigger] d[j]) is Label
            ==> d[i]->Label_0 != d[j]->Label_0
    &&& forall|i: int| 0 <= i < d.len() && (#[trigger] d[i]) is Term ==> lands(d, d[i]->Term_0)
}

/// Whether the code `out` is the code `s`, and after it code that was made
/// between the states `n` and `m` of the counters.
pub open spec fn extends(s: Seq<Elt>, out: Seq<Elt>, n: Names, m: Names) -> bool {
    &&& out.len() >= s.len()
    &&& out.subrange(0, s.len() as int) == s
    &&& fine(out.subrange(s.len() as int, out.len() as int), n, m)
}

/// What a longer piece of code marks, a piece of it marks too, moved by
/// where the piece starts.
pub proof fn lemma_marks_part(whole: Seq<Elt>, part: Seq<Elt>, at: int, l: Label)
    requires
        0 <= at,
        at + part.len() <= whole.len(),
        forall|k: int| 0 <= k < part.len() ==> whole[at + k] == #[trigger] part[k],
        marks(part, l),
    ensures
        marks(whole, l),
{
    let j = choose|j: int| 0 <= j < part.len() && #[trigger] part[j] == Elt::Label(l);
    assert(whole[at + j] == Elt::Label(l));
}

/// Where a terminator lands in a piece of code, it lands in the whole.
pub proof fn lemma_lands_part(whole: Seq<Elt>, part: Seq<Elt>, at: int, t: LTerminator)
    requires
        0 <= at,
        at + part.len() <= whole.len(),
        forall|k: int| 0 <= k < part.len() ==> whole[at + k] == #[trigger] part[k],
        lands(part, t),
    ensures
        lands(whole, t),
{
    match t {
        LTerminator::Ret(_, _) => {},
        LTerminator::Break(l) => {
            lemma_marks_part(whole, part, at, l);
        },
        LTerminator::CondBreak(_, l1, l2) => {
            lemma_marks_part(whole, part, at, l1);
            lemma_marks_part(whole, part, at, l2);
        },
    }
}

/// No code is fine between any state and itself.
pub proof fn lemma_fine_empty(n: Names)
    ensures
        fine(Seq::empty(), n, n),
{
}

/// Code that is fine between two states is fine between states that lie
/// further apart.
pub proof fn lemma_fine_widen(d: Seq<Elt>, n0: Names, n: Names, m: Names, m1: Names)
    requires
        fine(d, n, m),
        before(n0, n),
        before(m, m1),
    ensures
        fine(d, n0, m1),
{
}

/// Code made between `n` and `k`, followed by code made between `k` and
/// `m`, is code made between `n` and `m`.
pub proof fn lemma_fine_concat(a: Seq<Elt>, b: Seq<Elt>, n: Names, k: Names, m: Names)
    requires
        fine(a, n, k),
        fine(b, k, m),
    ensures
        fine(a + b, n, m),
{
    let d = a + b;
    assert forall|i: int| 0 <= i < d.len() && (#[trigger] d[i]) is Ins implies n.uid
        <= d[i]->Ins_0.index < m.uid by {
        if i < a.len() {
            assert(d[i] == a[i]);
        } else {
            assert(d[i] == b[i - a.len()]);
        }
    }
    assert forall|i: int, j: int|
        0 <= i < j < d.len() && (#[trigger] d[i]) is Ins && (#[trigger] d[j]) is Ins implies d[i]->Ins_0.index
        < d[j]->Ins_0.index by {
        if j < a.len() {
            assert(d[i] == a[i] && d[j] == a[j]);
        } else if i >= a.len() {
            assert(d[i] == b[i - a.len()] && d[j] == b[j - a.len()]);
        } else {
            assert(d[i] == a[i] && d[j] == b[j - a.len()]);
        }
    }
    assert forall|i: int| 0 <= i < d.len() && (#[trigger] d[i]) is Label implies n.label
        <= d[i]->Label_0.index < m.label by {
        if i < a.len() {
            assert(d[i] == a[i]);
        } else {
            assert(d[i] == b[i - a.len()]);
        }
    }
    assert forall|i: int, j: int|
        0 <= i < j < d.len() && (#[trigger] d[i]) is Label && (#[trigger] d[j]) is Label implies d[i]->Label_0
        != d[j]->Label_0 by {
        if j < a.len() {
            assert(d[i] == a[i] && d[j] == a[j]);
        } else if i >= a.len() {
            assert(d[i] == b[i - a.len()] && d[j] == b[j - a.len()]);
        } else {
            assert(d[i] == a[i] && d[j] == b[j - a.len()]);
        }
    }
    assert forall|i: int| 0 <= i < d.len() && (#[trigger] d[i]) is Term implies lands(
        d,
        d[i]->Term_0,
    ) by {
        if i < a.len() {
            assert(d[i] == a[i]);
            lemma_lands_part(d, a, 0, a[i]->Term_0);
        } else {
            assert(d[i] == b[i - a.len()]);
            lemma_lands_part(d, b, a.len() as int, b[i - a.len()]->Term_0);
        }
    }
}

/// Code that goes on from fine code with fine code is fine.
pub proof fn lemma_extends_fine(s: Seq<Elt>, out: Seq<Elt>, n0: Names, n: Names, m: Names)
    requires
        fine(s, n0, n),
        extends(s, out, n, m),
    ensures
        fine(out, n0, m),
{
    let d = out.subrange(s.len() as int, out.len() as int);
    lemma_fine_concat(s, d, n0, n, m);
    assert(s + d =~= out);
}

/// Going on twice is going on.
pub proof fn lemma_extends_twice(s: Seq<Elt>, a: Seq<Elt>, b: Seq<Elt>, n: Names, k: Names, m: Names)
    requires
        extends(s, a, n, k),
        extends(a, b, k, m),
    ensures
        extends(s, b, n, m),
{
    let d1 = a.subrange(s.len() as int, a.len() as int);
    let d2 = b.subrange(a.len() as int, b.len() as int);
    lemma_fine_concat(d1, d2, n, k, m);
    assert(d1 + d2 =~= b.subrange(s.len() as int, b.len() as int));
    assert(b.subrange(0, s.len() as int) =~= b.subrange(0, a.len() as int).subrange(
        0,
        s.len() as int,
    ));
}

/// Code followed by fine code goes on with it.
pub proof fn lemma_extends_with(s: Seq<Elt>, d: Seq<Elt>, n: Names, m: Names)
    requires
        fine(d, n, m),
    ensures
        extends(s, s + d, n, m),
{
    assert((s + d).subrange(0, s.len() as int) =~= s);
    assert((s + d).subrange(s.len() as int, (s + d).len() as int) =~= d);
}

/// Code goes on with nothing.
pub proof fn lemma_extends_same(s: Seq<Elt>, n: Names)
    ensures
        extends(s, s, n, n),
{
    assert(s.subrange(0, s.len() as int) =~= s);
    assert(s.subrange(s.len() as int, s.len() as int) =~= Seq::<Elt>::empty());
}

/// One instruction under the next identifier is fine code.
pub proof fn lemma_emit(s: Seq<Elt>, ins: LInstruction, n: Names)
    requires
        emit(s, ins, n) is Ok,
    ensures
        extends(s, emit(s, ins, n)->Ok_0.1, n, emit(s, ins, n)->Ok_0.2),
        emit(s, ins, n)->Ok_0.0.index == n.uid,
        emit(s, ins, n)->Ok_0.2 == (Names { uid: (n.uid + 1) as u32, label: n.label, text: n.text }),
{
    let u = Symbol { index: n.uid };
    let m = emit(s, ins, n)->Ok_0.2;
    let d = seq![Elt::Ins(u, ins)];
    assert(fine(d, n, m));
    lemma_extends_with(s, d, n, m);
    assert(s + d =~= s.push(Elt::Ins(u, ins)));
}

/// Two instructions, each under the next identifier, are fine code.
pub proof fn lemma_emit_twice(s: Seq<Elt>, a: LInstruction, b: LInstruction, n: Names)
    requires
        emit(s, a, n) is Ok,
        emit(emit(s, a, n)->Ok_0.1, b, emit(s, a, n)->Ok_0.2) is Ok,
    ensures
        extends(
            s,
            emit(emit(s, a, n)->Ok_0.1, b, emit(s, a, n)->Ok_0.2)->Ok_0.1,
            n,
            emit(emit(s, a, n)->Ok_0.1, b, emit(s, a, n)->Ok_0.2)->Ok_0.2,
        ),
{
    let (_, s1, n1) = emit(s, a, n)->Ok_0;
    let (_, s2, n2) = emit(s1, b, n1)->Ok_0;
    lemma_emit(s, a, n);
    lemma_emit(s1, b, n1);
    lemma_extends_twice(s, s1, s2, n, n1, n2);
}

/// The code that reads a variable is fine.
pub proof fn lemma_identifier(ctx: Ctx, x: Id, n: Names)
    requires
        lower_identifier(ctx, x, n) is Ok,
    ensures
        fine(lower_identifier(ctx, x, n)->Ok_0.2, n, lower_identifier(ctx, x, n)->Ok_0.3),
{
    let (t, o) = ctx[x];
    let inner = *t->Ptr_0;
    if inner is Fun {
        lemma_fine_empty(n);
    } else {
        lemma_emit(Seq::empty(), LInstruction::Load(inner, o), n);
        let (_, s, m) = emit(Seq::empty(), LInstruction::Load(inner, o), n)->Ok_0;
        assert(s.subrange(0, s.len() as int) =~= s);
    }
}

/// The code of a unary operation goes on from the code of its operand.
pub proof fn lemma_unary(op: UnaryOp, a: Operand, s: Seq<Elt>, n: Names)
    requires
        lower_unary(op, a, s, n) is Ok,
    ensures
        extends(s, lower_unary(op, a, s, n)->Ok_0.2, n, lower_unary(op, a, s, n)->Ok_0.3),
{
    match op {
        UnaryOp::Neg => {
            lemma_emit(
                s,
                LInstruction::Binop(
                    BinaryOperator::Sub,
                    LType::I64,
                    Operand::Const(0),
                    a,
                ),
                n,
            );
        },
        UnaryOp::Lognot => {
            lemma_emit(
                s,
                LInstruction::Icmp(Condition::Eq, LType::I1, a, Operand::Const(0)),
                n,
            );
        },
        UnaryOp::Bitnot => {
            lemma_emit(
                s,
                LInstruction::Binop(
                    BinaryOperator::Xor,
                    LType::I64,
                    a,
                    Operand::Const(-1i64),
                ),
                n,
            );
        },
    }
}

/// The code of a binary operation goes on from the code of its operands.
pub proof fn lemma_binary(op: BinaryOp, t: LType, a: Operand, b: Operand, s: Seq<Elt>, n: Names)
    requires
        lower_binary(op, t, a, b, s, n) is Ok,
    ensures
        extends(
            s,
            lower_binary(op, t, a, b, s, n)->Ok_0.2,
            n,
            lower_binary(op, t, a, b, s, n)->Ok_0.3,
        ),
{
    lemma_emit(s, binary_instruction(op, t, a, b).0, n);
}

/// The code that reads the length of an array goes on from the code of the
/// array.
pub proof fn lemma_length(t: LType, a: Operand, s: Seq<Elt>, n: Names)
    requires
        lower_length(t, a, s, n) is Ok,
    ensures
        extends(s, lower_length(t, a, s, n)->Ok_0.2, n, lower_length(t, a, s, n)->Ok_0.3),
{
    let first = LInstruction::Gep(t, a, seq![Operand::Const(0), Operand::Const(0)]);
    let p = emit(s, first, n)->Ok_0.0;
    lemma_emit_twice(s, first, LInstruction::Load(LType::I64, Operand::Id(p)), n);
}

/// The code that computes the address of an element goes on from the code
/// of the array and of the index.
pub proof fn lemma_element_address(t: LType, a: Operand, index: Operand, s: Seq<Elt>, n: Names)
    requires
        element_address(t, a, index, s, n) is Ok,
    ensures
        extends(
            s,
            element_address(t, a, index, s, n)->Ok_0.2,
            n,
            element_address(t, a, index, s, n)->Ok_0.3,
        ),
{
    lemma_emit(s, LInstruction::Gep(t, a, seq![Operand::Const(0), Operand::Const(1), index]), n);
}

/// The code that reads an element goes on from the code of the array and of
/// the index.
pub proof fn lemma_index(t: LType, a: Operand, index: Operand, s: Seq<Elt>, n: Names)
    requires
        lower_index(t, a, index, s, n) is Ok,
    ensures
        extends(s, lower_index(t, a, index, s, n)->Ok_0.2, n, lower_index(t, a, index, s, n)->Ok_0.3),
{
    lemma_element_address(t, a, index, s, n);
    let (element, p, s1, n1) = element_address(t, a, index, s, n)->Ok_0;
    lemma_emit(s1, LInstruction::Load(element, p), n1);
    let (_, s2, n2) = emit(s1, LInstruction::Load(element, p), n1)->Ok_0;
    lemma_extends_twice(s, s1, s2, n, n1, n2);
}

/// The code that computes the address of a field goes on from the code of
/// the struct.
pub proof fn lemma_field_address(structs: Structs, t: LType, a: Operand, field: Id, s: Seq<Elt>, n: Names)
    requires
        field_address(structs, t, a, field, s, n) is Ok,
    ensures
        extends(
            s,
            field_address(structs, t, a, field, s, n)->Ok_0.2,
            n,
            field_address(structs, t, a, field, s, n)->Ok_0.3,
        ),
{
    let name = t->Ptr_0->Namedt_0;
    let fields = struct_fields(structs, name)->Some_0;
    let i = field_of(fields, field)->Some_0.0;
    lemma_emit(s, LInstruction::Gep(t, a, seq![Operand::Const(0), Operand::Const(i as i64)]), n);
}

/// The code that reads a field goes on from the code of the struct.
pub proof fn lemma_projection(structs: Structs, t: LType, a: Operand, field: Id, s: Seq<Elt>, n: Names)
    requires
        lower_projection(structs, t, a, field, s, n) is Ok,
    ensures
        extends(
            s,
            lower_projection(structs, t, a, field, s, n)->Ok_0.2,
            n,
            lower_projection(structs, t, a, field, s, n)->Ok_0.3,
        ),
{
    lemma_field_address(structs, t, a, field, s, n);
    let (ft, p, s1, n1) = field_address(structs, t, a, field, s, n)->Ok_0;
    lemma_emit(s1, LInstruction::Load(ft, p), n1);
    let (_, s2, n2) = emit(s1, LInstruction::Load(ft, p), n1)->Ok_0;
    lemma_extends_twice(s, s1, s2, n, n1, n2);
}

/// The code of a call goes on from the code of the callee and of the
/// arguments.
pub proof fn lemma_call(t: LType, f: Operand, args: Seq<(LType, Operand)>, s: Seq<Elt>, n: Names)
    requires
        lower_call(t, f, args, s, n) is Ok,
    ensures
        extends(s, lower_call(t, f, args, s, n)->Ok_0.2, n, lower_call(t, f, args, s, n)->Ok_0.3),
{
    let ret = *t->Ptr_0->Fun_1;
    lemma_emit(s, LInstruction::Call(ret, f, args), n);
}

/// The code that makes an array goes on from the code of its length.
pub proof fn lemma_new_array(element: LType, length: Operand, s: Seq<Elt>, n: Names)
    requires
        lower_new_array(element, length, s, n) is Ok,
    ensures
        extends(
            s,
            lower_new_array(element, length, s, n)->Ok_0.2,
            n,
            lower_new_array(element, length, s, n)->Ok_0.3,
        ),
{
    let raw_type = LType::Ptr(Box::new(LType::I64));
    let array_type = LType::Ptr(Box::new(array_of(element)));
    let i1 = LInstruction::Call(
        raw_type,
        Operand::Gid(Gid::External(Runtime::AllocArray)),
        seq![(LType::I64, length)],
    );
    let (raw, s1, n1) = emit(s, i1, n)->Ok_0;
    let i2 = LInstruction::Bitcast(raw_type, Operand::Id(raw), array_type);
    let (array, s2, n2) = emit(s1, i2, n1)->Ok_0;
    let i3 = LInstruction::Gep(array_type, Operand::Id(array), seq![Operand::Const(0), Operand::Const(0)]);
    let (p, s3, n3) = emit(s2, i3, n2)->Ok_0;
    let i4 = LInstruction::Store(LType::I64, length, Operand::Id(p));
    let (_, s4, n4) = emit(s3, i4, n3)->Ok_0;
    lemma_emit_twice(s, i1, i2, n);
    lemma_emit_twice(s2, i3, i4, n2);
    lemma_extends_twice(s, s2, s4, n, n2, n4);
}

/// The code of a string literal is fine.
pub proof fn lemma_text(text: Seq<char>, n: Names)
    requires
        lower_text(text, n) is Ok,
    ensures
        fine(lower_text(text, n)->Ok_0.2, n, lower_text(text, n)->Ok_0.3),
{
}

/// The code of an expression is fine.
pub proof fn lemma_expression(structs: Structs, ctx: Ctx, e: Expr, n: Names)
    requires
        lower_expression(structs, ctx, e, n) is Ok,
    ensures
        fine(lower_expression(structs, ctx, e, n)->Ok_0.2, n, lower_expression(structs, ctx, e, n)->Ok_0.3),
    decreases e, 0nat,
{
    let none = Seq::<Elt>::empty();
    match e {
        Expr::CInt(_) => {
            lemma_fine_empty(n);
        },
        Expr::CBool(_) => {
            lemma_fine_empty(n);
        },
        Expr::CNull(_) => {
            lemma_fine_empty(n);
        },
        Expr::CStr(text) => {
            lemma_text(text, n);
        },
        Expr::Id(x) => {
            lemma_identifier(ctx, x, n);
        },
        Expr::Unary(op, operand) => {
            lemma_expression(structs, ctx, *operand, n);
            let (_, a, s, n1) = lower_expression(structs, ctx, *operand, n)->Ok_0;
            lemma_unary(op, a, s, n1);
            lemma_extends_fine(s, lower_unary(op, a, s, n1)->Ok_0.2, n, n1, lower_unary(op, a, s, n1)->Ok_0.3);
        },
        Expr::Binary { op, left, right } => {
            lemma_expression(structs, ctx, *left, n);
            let (t, a, s1, n1) = lower_expression(structs, ctx, *left, n)->Ok_0;
            lemma_expression(structs, ctx, *right, n1);
            let (_, b, s2, n2) = lower_expression(structs, ctx, *right, n1)->Ok_0;
            lemma_fine_concat(s1, s2, n, n1, n2);
            lemma_binary(op, t, a, b, s1 + s2, n2);
            let r = lower_binary(op, t, a, b, s1 + s2, n2)->Ok_0;
            lemma_extends_fine(s1 + s2, r.2, n, n2, r.3);
        },
        Expr::Length(array) => {
            lemma_expression(structs, ctx, *array, n);
            let (t, a, s, n1) = lower_expression(structs, ctx, *array, n)->Ok_0;
            lemma_length(t, a, s, n1);
            let r = lower_length(t, a, s, n1)->Ok_0;
            lemma_extends_fine(s, r.2, n, n1, r.3);
        },
        Expr::Index { value, index } => {
            lemma_expression(structs, ctx, *value, n);
            let (t, a, s1, n1) = lower_expression(structs, ctx, *value, n)->Ok_0;
            lemma_expression(structs, ctx, *index, n1);
            let (_, i, s2, n2) = lower_expression(structs, ctx, *index, n1)->Ok_0;
            lemma_fine_concat(s1, s2, n, n1, n2);
            lemma_index(t, a, i, s1 + s2, n2);
            let r = lower_index(t, a, i, s1 + s2, n2)->Ok_0;
            lemma_extends_fine(s1 + s2, r.2, n, n2, r.3);
        },
        Expr::Proj(object, field) => {
            lemma_expression(structs, ctx, *object, n);
            let (t, a, s, n1) = lower_expression(structs, ctx, *object, n)->Ok_0;
            lemma_projection(structs, t, a, field, s, n1);
            let r = lower_projection(structs, t, a, field, s, n1)->Ok_0;
            lemma_extends_fine(s, r.2, n, n1, r.3);
        },
        Expr::Call(callee, args) => {
            lemma_expression(structs, ctx, *callee, n);
            let (t, f, s, n1) = lower_expression(structs, ctx, *callee, n)->Ok_0;
            lemma_arguments(structs, ctx, args, 0, Seq::empty(), s, n1);
            let (typed, s1, n2) = lower_arguments(structs, ctx, args, 0, Seq::empty(), s, n1)->Ok_0;
            lemma_extends_fine(s, s1, n, n1, n2);
            lemma_call(t, f, typed, s1, n2);
            let r = lower_call(t, f, typed, s1, n2)->Ok_0;
            lemma_extends_fine(s1, r.2, n, n2, r.3);
        },
        Expr::NewArr(t, length) => {
            lemma_expression(structs, ctx, *length, n);
            let (_, l, s, n1) = lower_expression(structs, ctx, *length, n)->Ok_0;
            lemma_new_array(ll_type(t), l, s, n1);
            let r = lower_new_array(ll_type(t), l, s, n1)->Ok_0;
            lemma_extends_fine(s, r.2, n, n1, r.3);
        },
        Expr::CArr(t, elements) => {
            let length = Operand::Const(elements.len() as i64);
            lemma_new_array(ll_type(t), length, none, n);
            let (ta, a, s, n1) = lower_new_array(ll_type(t), length, none, n)->Ok_0;
            lemma_fine_empty(n);
            lemma_extends_fine(none, s, n, n, n1);
            lemma_elements(structs, ctx, ta, a, elements, 0, s, n1);
            let (s1, n2) = lower_elements(structs, ctx, ta, a, elements, 0, s, n1)->Ok_0;
            lemma_extends_fine(s, s1, n, n1, n2);
        },
        Expr::CStruct(name, fields) => {
            let t = LType::Ptr(Box::new(LType::Namedt(name)));
            lemma_emit(none, LInstruction::Alloca(LType::Namedt(name)), n);
            let (u, s, n1) = emit(none, LInstruction::Alloca(LType::Namedt(name)), n)->Ok_0;
            lemma_fine_empty(n);
            lemma_extends_fine(none, s, n, n, n1);
            lemma_fields(structs, ctx, t, Operand::Id(u), fields, 0, s, n1);
            let (s1, n2) = lower_fields(structs, ctx, t, Operand::Id(u), fields, 0, s, n1)->Ok_0;
            lemma_extends_fine(s, s1, n, n1, n2);
        },
    }
}

/// The code of the arguments of a call goes on from the code before them.
pub proof fn lemma_arguments(
    structs: Structs,
    ctx: Ctx,
    args: Seq<Expr>,
    i: nat,
    typed: Seq<(LType, Operand)>,
    s: Seq<Elt>,
    n: Names,
)
    requires
        lower_arguments(structs, ctx, args, i, typed, s, n) is Ok,
    ensures
        extends(
            s,
            lower_arguments(structs, ctx, args, i, typed, s, n)->Ok_0.1,
            n,
            lower_arguments(structs, ctx, args, i, typed, s, n)->Ok_0.2,
        ),
    decreases args, args.len() - i,
{
    if i >= args.len() {
        lemma_extends_same(s, n);
    } else {
        lemma_expression(structs, ctx, args[i as int], n);
        let (t, o, s1, n1) = lower_expression(structs, ctx, args[i as int], n)->Ok_0;
        lemma_extends_with(s, s1, n, n1);
        lemma_arguments(structs, ctx, args, i + 1, typed.push((t, o)), s + s1, n1);
        let r = lower_arguments(structs, ctx, args, i + 1, typed.push((t, o)), s + s1, n1)->Ok_0;
        lemma_extends_twice(s, s + s1, r.1, n, n1, r.2);
    }
}

/// The code of the elements of an array literal goes on from the code
/// before them.
pub proof fn lemma_elements(
    structs: Structs,
    ctx: Ctx,
    t: LType,
    a: Operand,
    elements: Seq<Expr>,
    i: nat,
    s: Seq<Elt>,
    n: Names,
)
    requires
        lower_elements(structs, ctx, t, a, elements, i, s, n) is Ok,
    ensures
        extends(
            s,
            lower_elements(structs, ctx, t, a, elements, i, s, n)->Ok_0.0,
            n,
            lower_elements(structs, ctx, t, a, elements, i, s, n)->Ok_0.1,
        ),
    decreases elements, elements.len() - i,
{
    if i >= elements.len() || i > i64::MAX {
        lemma_extends_same(s, n);
    } else {
        lemma_expression(structs, ctx, elements[i as int], n);
        let (_, o, s1, n1) = lower_expression(structs, ctx, elements[i as int], n)->Ok_0;
        lemma_extends_with(s, s1, n, n1);
        lemma_element_address(t, a, Operand::Const(i as i64), s + s1, n1);
        let (te, p, s2, n2) = element_address(t, a, Operand::Const(i as i64), s + s1, n1)->Ok_0;
        lemma_extends_twice(s, s + s1, s2, n, n1, n2);
        lemma_emit(s2, LInstruction::Store(te, o, p), n2);
        let (_, s3, n3) = emit(s2, LInstruction::Store(te, o, p), n2)->Ok_0;
        lemma_extends_twice(s, s2, s3, n, n2, n3);
        lemma_elements(structs, ctx, t, a, elements, i + 1, s3, n3);
        let r = lower_elements(structs, ctx, t, a, elements, i + 1, s3, n3)->Ok_0;
        lemma_extends_twice(s, s3, r.0, n, n3, r.1);
    }
}

/// The code of the fields of a struct literal goes on from the code
/// before them.
pub proof fn lemma_fields(
    structs: Structs,
    ctx: Ctx,
    t: LType,
    a: Operand,
    fields: Seq<(Id, Expr)>,
    i: nat,
    s: Seq<Elt>,
    n: Names,
)
    requires
        lower_fields(structs, ctx, t, a, fields, i, s, n) is Ok,
    ensures
        extends(
            s,
            lower_fields(structs, ctx, t, a, fields, i, s, n)->Ok_0.0,
            n,
            lower_fields(structs, ctx, t, a, fields, i, s, n)->Ok_0.1,
        ),
    decreases fields, fields.len() - i,
{
    if i >= fields.len() {
        lemma_extends_same(s, n);
    } else {
        lemma_expression(structs, ctx, fields[i as int].1, n);
        let (_, o, s1, n1) = lower_expression(structs, ctx, fields[i as int].1, n)->Ok_0;
        lemma_extends_with(s, s1, n, n1);
        lemma_field_address(structs, t, a, fields[i as int].0, s + s1, n1);
        let (tf, p, s2, n2) = field_address(structs, t, a, fields[i as int].0, s + s1, n1)->Ok_0;
        lemma_extends_twice(s, s + s1, s2, n, n1, n2);
        lemma_emit(s2, LInstruction::Store(tf, o, p), n2);
        let (_, s3, n3) = emit(s2, LInstruction::Store(tf, o, p), n2)->Ok_0;
        lemma_extends_twice(s, s2, s3, n, n2, n3);
        lemma_fields(structs, ctx, t, a, fields, i + 1, s3, n3);
        let r = lower_fields(structs, ctx, t, a, fields, i + 1, s3, n3)->Ok_0;
        lemma_extends_twice(s, s3, r.0, n, n3, r.1);
    }
}

/// Three fresh labels are numbered one after another.
pub proof fn lemma_fresh_labels(n: Names)
    requires
        fresh_labels(n) is Ok,
    ensures
        ({
            let (a, b, c, m) = fresh_labels(n)->Ok_0;
            &&& a.index == n.label
            &&& b.index == n.label + 1
            &&& c.index == n.label + 2
            &&& n.label + 3 <= u32::MAX
            &&& m == (Names { uid: n.uid, label: (n.label + 3) as u32, text: n.text })
        }),
{
}

/// The code of a conditional is fine where its three parts are, and its
/// three labels are fresh between the condition and the branches.
pub proof fn lemma_branches(
    s: Seq<Elt>,
    c: Operand,
    st: Seq<Elt>,
    se: Seq<Elt>,
    n0: Names,
    n1: Names,
    n3: Names,
    n4: Names,
)
    requires
        fine(s, n0, n1),
        fresh_labels(n1) is Ok,
        fine(st, fresh_labels(n1)->Ok_0.3, n3),
        fine(se, n3, n4),
    ensures
        ({
            let (lt, le, lm, _) = fresh_labels(n1)->Ok_0;
            fine(branches(s, c, lt, le, lm, st, se), n0, n4)
        }),
{
    let (lt, le, lm, n2) = fresh_labels(n1)->Ok_0;
    lemma_fresh_labels(n1);
    let d = branches(s, c, lt, le, lm, st, se);
    let a = s.len() as int;
    let b = st.len() as int;
    let e = se.len() as int;
    assert(d.len() == a + b + e + 6);
    assert(forall|i: int| 0 <= i < a ==> #[trigger] d[i] == s[i]);
    assert(d[a] == Elt::Term(LTerminator::CondBreak(c, lt, le)));
    assert(d[a + 1] == Elt::Label(lt));
    assert(forall|i: int| a + 2 <= i < a + 2 + b ==> #[trigger] d[i] == st[i - (a + 2)]);
    assert(d[a + 2 + b] == Elt::Term(LTerminator::Break(lm)));
    assert(d[a + 3 + b] == Elt::Label(le));
    assert(forall|i: int| a + 4 + b <= i < a + 4 + b + e ==> #[trigger] d[i] == se[i - (a + 4 + b)]);
    assert(d[a + 4 + b + e] == Elt::Term(LTerminator::Break(lm)));
    assert(d[a + 5 + b + e] == Elt::Label(lm));
    assert(marks(d, lt));
    assert(marks(d, le));
    assert(marks(d, lm));
    assert forall|i: int| 0 <= i < d.len() && (#[trigger] d[i]) is Term implies lands(
        d,
        d[i]->Term_0,
    ) by {
        if i < a {
            lemma_lands_part(d, s, 0, s[i]->Term_0);
        } else if a + 2 <= i < a + 2 + b {
            lemma_lands_part(d, st, a + 2, st[i - (a + 2)]->Term_0);
        } else if a + 4 + b <= i < a + 4 + b + e {
            lemma_lands_part(d, se, a + 4 + b, se[i - (a + 4 + b)]->Term_0);
        }
    }
}

/// The code of a loop is fine where its three parts are, and its three
/// labels are fresh between the code before the loop and its condition.
pub proof fn lemma_looped(
    s: Seq<Elt>,
    sc: Seq<Elt>,
    c: Operand,
    sb: Seq<Elt>,
    n0: Names,
    n1: Names,
    n3: Names,
    n4: Names,
)
    requires
        fine(s, n0, n1),
        fresh_labels(n1) is Ok,
        fine(sc, fresh_labels(n1)->Ok_0.3, n3),
        fine(sb, n3, n4),
    ensures
        ({
            let (lh, lb, lx, _) = fresh_labels(n1)->Ok_0;
            fine(looped(s, lh, lb, lx, sc, c, sb), n0, n4)
        }),
{
    let (lh, lb, lx, n2) = fresh_labels(n1)->Ok_0;
    lemma_fresh_labels(n1);
    let d = looped(s, lh, lb, lx, sc, c, sb);
    let a = s.len() as int;
    let b = sc.len() as int;
    let e = sb.len() as int;
    assert(d.len() == a + b + e + 6);
    assert(forall|i: int| 0 <= i < a ==> #[trigger] d[i] == s[i]);
    assert(d[a] == Elt::Term(LTerminator::Break(lh)));
    assert(d[a + 1] == Elt::Label(lh));
    assert(forall|i: int| a + 2 <= i < a + 2 + b ==> #[trigger] d[i] == sc[i - (a + 2)]);
    assert(d[a + 2 + b] == Elt::Term(LTerminator::CondBreak(c, lb, lx)));
    assert(d[a + 3 + b] == Elt::Label(lb));
    assert(forall|i: int| a + 4 + b <= i < a + 4 + b + e ==> #[trigger] d[i] == sb[i - (a + 4 + b)]);
    assert(d[a + 4 + b + e] == Elt::Term(LTerminator::Break(lh)));
    assert(d[a + 5 + b + e] == Elt::Label(lx));
    assert(marks(d, lh));
    assert(marks(d, lb));
    assert(marks(d, lx));
    assert forall|i: int| 0 <= i < d.len() && (#[trigger] d[i]) is Term implies lands(
        d,
        d[i]->Term_0,
    ) by {
        if i < a {
            lemma_lands_part(d, s, 0, s[i]->Term_0);
        } else if a + 2 <= i < a + 2 + b {
            lemma_lands_part(d, sc, a + 2, sc[i - (a + 2)]->Term_0);
        } else if a + 4 + b <= i < a + 4 + b + e {
            lemma_lands_part(d, sb, a + 4 + b, sb[i - (a + 4 + b)]->Term_0);
        }
    }
}

/// The code that declares a local variable goes on from the code of its
/// value.
pub proof fn lemma_declare_local(ctx: Ctx, name: Id, t: LType, o: Operand, s: Seq<Elt>, n: Names)
    requires
        declare_local(ctx, name, t, o, s, n) is Ok,
    ensures
        extends(
            s,
            declare_local(ctx, name, t, o, s, n)->Ok_0.1,
            n,
            declare_local(ctx, name, t, o, s, n)->Ok_0.2,
        ),
{
    let slot = emit(s, LInstruction::Alloca(t), n)->Ok_0.0;
    lemma_emit_twice(s, LInstruction::Alloca(t), LInstruction::Store(t, o, Operand::Id(slot)), n);
}

/// The code of the bindings of a loop goes on from the code before them.
pub proof fn lemma_bindings(
    structs: Structs,
    ctx: Ctx,
    bindings: Seq<(Id, Expr)>,
    i: nat,
    s: Seq<Elt>,
    n: Names,
)
    requires
        lower_bindings(structs, ctx, bindings, i, s, n) is Ok,
    ensures
        extends(
            s,
            lower_bindings(structs, ctx, bindings, i, s, n)->Ok_0.1,
            n,
            lower_bindings(structs, ctx, bindings, i, s, n)->Ok_0.2,
        ),
    decreases bindings.len() - i,
{
    if i >= bindings.len() {
        lemma_extends_same(s, n);
    } else {
        lemma_expression(structs, ctx, bindings[i as int].1, n);
        let (t, o, s1, n1) = lower_expression(structs, ctx, bindings[i as int].1, n)->Ok_0;
        lemma_extends_with(s, s1, n, n1);
        lemma_declare_local(ctx, bindings[i as int].0, t, o, s + s1, n1);
        let (ctx1, s2, n2) = declare_local(ctx, bindings[i as int].0, t, o, s + s1, n1)->Ok_0;
        lemma_extends_twice(s, s + s1, s2, n, n1, n2);
        lemma_bindings(structs, ctx1, bindings, i + 1, s2, n2);
        let r = lower_bindings(structs, ctx1, bindings, i + 1, s2, n2)->Ok_0;
        lemma_extends_twice(s, s2, r.1, n, n2, r.2);
    }
}

/// The code that computes the place of an assignment is fine.
pub proof fn lemma_address(structs: Structs, ctx: Ctx, target: Expr, n: Names)
    requires
        lower_address(structs, ctx, target, n) is Ok,
    ensures
        fine(lower_address(structs, ctx, target, n)->Ok_0.2, n, lower_address(structs, ctx, target, n)->Ok_0.3),
{
    match target {
        Expr::Id(_) => {
            lemma_fine_empty(n);
        },
        Expr::Proj(object, field) => {
            lemma_expression(structs, ctx, *object, n);
            let (t, a, s, n1) = lower_expression(structs, ctx, *object, n)->Ok_0;
            lemma_field_address(structs, t, a, field, s, n1);
            let r = field_address(structs, t, a, field, s, n1)->Ok_0;
            lemma_extends_fine(s, r.2, n, n1, r.3);
        },
        Expr::Index { value, index } => {
            lemma_expression(structs, ctx, *value, n);
            let (t, a, s1, n1) = lower_expression(structs, ctx, *value, n)->Ok_0;
            lemma_expression(structs, ctx, *index, n1);
            let (_, i, s2, n2) = lower_expression(structs, ctx, *index, n1)->Ok_0;
            lemma_fine_concat(s1, s2, n, n1, n2);
            lemma_element_address(t, a, i, s1 + s2, n2);
            let r = element_address(t, a, i, s1 + s2, n2)->Ok_0;
            lemma_extends_fine(s1 + s2, r.2, n, n2, r.3);
        },
        _ => {},
    }
}

/// Fine code that ends with a return is fine.
pub proof fn lemma_returned(s: Seq<Elt>, t: LType, o: Option<Operand>, n: Names, m: Names)
    requires
        fine(s, n, m),
    ensures
        fine(s.push(Elt::Term(LTerminator::Ret(t, o))), n, m),
{
    let last = seq![Elt::Term(LTerminator::Ret(t, o))];
    assert(fine(last, m, m));
    lemma_fine_concat(s, last, n, m, m);
    assert(s + last =~= s.push(Elt::Term(LTerminator::Ret(t, o))));
}

/// The code of a statement is fine.
pub proof fn lemma_statement(structs: Structs, ctx: Ctx, ret: LType, stmt: Stmt, n: Names)
    requires
        lower_statement(structs, ctx, ret, stmt, n) is Ok,
    ensures
        fine(
            lower_statement(structs, ctx, ret, stmt, n)->Ok_0.1,
            n,
            lower_statement(structs, ctx, ret, stmt, n)->Ok_0.2,
        ),
    decreases stmt, 0nat,
{
    let none = Seq::<Elt>::empty();
    match stmt {
        Stmt::Assignment(target, value) => {
            lemma_address(structs, ctx, target, n);
            let (t, p, s1, n1) = lower_address(structs, ctx, target, n)->Ok_0;
            lemma_expression(structs, ctx, value, n1);
            let (_, o, s2, n2) = lower_expression(structs, ctx, value, n1)->Ok_0;
            lemma_fine_concat(s1, s2, n, n1, n2);
            lemma_emit(s1 + s2, LInstruction::Store(t, o, p), n2);
            let r = emit(s1 + s2, LInstruction::Store(t, o, p), n2)->Ok_0;
            lemma_extends_fine(s1 + s2, r.1, n, n2, r.2);
        },
        Stmt::Declaration(name, init) => {
            lemma_expression(structs, ctx, init, n);
            let (t, o, s, n1) = lower_expression(structs, ctx, init, n)->Ok_0;
            lemma_declare_local(ctx, name, t, o, s, n1);
            let r = declare_local(ctx, name, t, o, s, n1)->Ok_0;
            lemma_extends_fine(s, r.1, n, n1, r.2);
        },
        Stmt::SCall(callee, args) => {
            lemma_expression(structs, ctx, callee, n);
            let (t, f, s, n1) = lower_expression(structs, ctx, callee, n)->Ok_0;
            lemma_arguments(structs, ctx, args, 0, Seq::empty(), s, n1);
            let (typed, s1, n2) = lower_arguments(structs, ctx, args, 0, Seq::empty(), s, n1)->Ok_0;
            lemma_extends_fine(s, s1, n, n1, n2);
            lemma_call(t, f, typed, s1, n2);
            let r = lower_call(t, f, typed, s1, n2)->Ok_0;
            lemma_extends_fine(s1, r.2, n, n2, r.3);
        },
        Stmt::If { condition, then, else_ } => {
            lemma_expression(structs, ctx, condition, n);
            let (_, c, s, n1) = lower_expression(structs, ctx, condition, n)->Ok_0;
            let (lt, le, lm, n2) = fresh_labels(n1)->Ok_0;
            lemma_whole_block(structs, ctx, ret, then, n2);
            let (st, n3) = lower_block(structs, ctx, ret, then, 0, none, n2)->Ok_0;
            lemma_whole_block(structs, ctx, ret, else_, n3);
            let (se, n4) = lower_block(structs, ctx, ret, else_, 0, none, n3)->Ok_0;
            lemma_branches(s, c, st, se, n, n1, n3, n4);
        },
        Stmt::Cast(r, name, source, then, else_) => {
            lemma_expression(structs, ctx, source, n);
            let (t, o, s, n1) = lower_expression(structs, ctx, source, n)->Ok_0;
            let slot = LType::Ptr(Box::new(ll_pointee(r)));
            lemma_declare_local(ctx, name, slot, o, s, n1);
            let (bound, s1, n2) = declare_local(ctx, name, slot, o, s, n1)->Ok_0;
            lemma_extends_fine(s, s1, n, n1, n2);
            let test = LInstruction::Icmp(Condition::Ne, t, o, Operand::Null);
            lemma_emit(s1, test, n2);
            let (c, s2, n3) = emit(s1, test, n2)->Ok_0;
            lemma_extends_fine(s1, s2, n, n2, n3);
            let (lt, le, lm, n4) = fresh_labels(n3)->Ok_0;
            lemma_whole_block(structs, bound, ret, then, n4);
            let (st, n5) = lower_block(structs, bound, ret, then, 0, none, n4)->Ok_0;
            lemma_whole_block(structs, ctx, ret, else_, n5);
            let (se, n6) = lower_block(structs, ctx, ret, else_, 0, none, n5)->Ok_0;
            lemma_branches(s2, Operand::Id(c), st, se, n, n3, n5, n6);
        },
        Stmt::For { init, condition, update, body } => {
            lemma_whole_bindings(structs, ctx, init, n);
            let (inner, s, n1) = lower_bindings(structs, ctx, init, 0, none, n)->Ok_0;
            let (lh, lb, lx, n2) = fresh_labels(n1)->Ok_0;
            let (_, c, sc, n3) = lower_condition(structs, inner, condition, n2)->Ok_0;
            match condition {
                Some(e) => {
                    lemma_expression(structs, inner, e, n2);
                },
                None => {
                    lemma_fine_empty(n2);
                },
            }
            lemma_whole_block(structs, inner, ret, body, n3);
            let (sb, n4) = lower_block(structs, inner, ret, body, 0, none, n3)->Ok_0;
            match update {
                None => {
                    lemma_fine_empty(n4);
                    lemma_fine_concat(sb, none, n3, n4, n4);
                    lemma_looped(s, sc, c, sb + none, n, n1, n3, n4);
                },
                Some(u) => {
                    lemma_statement(structs, inner, ret, *u, n4);
                    let (_, su, n5) = lower_statement(structs, inner, ret, *u, n4)->Ok_0;
                    lemma_fine_concat(sb, su, n3, n4, n5);
                    lemma_looped(s, sc, c, sb + su, n, n1, n3, n5);
                },
            }
        },
        Stmt::While { condition, body } => {
            let (lh, lb, lx, n1) = fresh_labels(n)->Ok_0;
            lemma_expression(structs, ctx, condition, n1);
            let (_, c, sc, n2) = lower_expression(structs, ctx, condition, n1)->Ok_0;
            lemma_whole_block(structs, ctx, ret, body, n2);
            let (sb, n3) = lower_block(structs, ctx, ret, body, 0, none, n2)->Ok_0;
            lemma_fine_empty(n);
            lemma_looped(none, sc, c, sb, n, n, n2, n3);
        },
        Stmt::Return(None) => {
            lemma_fine_empty(n);
            lemma_returned(none, LType::Void, None, n, n);
            assert(none.push(Elt::Term(LTerminator::Ret(LType::Void, None))) =~= seq![
                Elt::Term(LTerminator::Ret(LType::Void, None)),
            ]);
        },
        Stmt::Return(Some(value)) => {
            lemma_expression(structs, ctx, value, n);
            let (t, o, s, n1) = lower_expression(structs, ctx, value, n)->Ok_0;
            lemma_returned(s, t, Some(o), n, n1);
        },
    }
}

/// The code of a block goes on from the code before it.
pub proof fn lemma_block(
    structs: Structs,
    ctx: Ctx,
    ret: LType,
    block: Seq<Stmt>,
    i: nat,
    s: Seq<Elt>,
    n: Names,
)
    requires
        lower_block(structs, ctx, ret, block, i, s, n) is Ok,
    ensures
        extends(
            s,
            lower_block(structs, ctx, ret, block, i, s, n)->Ok_0.0,
            n,
            lower_block(structs, ctx, ret, block, i, s, n)->Ok_0.1,
        ),
    decreases block, block.len() - i,
{
    if i >= block.len() {
        lemma_extends_same(s, n);
    } else {
        lemma_statement(structs, ctx, ret, block[i as int], n);
        let (ctx1, s1, n1) = lower_statement(structs, ctx, ret, block[i as int], n)->Ok_0;
        lemma_extends_with(s, s1, n, n1);
        lemma_block(structs, ctx1, ret, block, i + 1, s + s1, n1);
        let r = lower_block(structs, ctx1, ret, block, i + 1, s + s1, n1)->Ok_0;
        lemma_extends_twice(s, s + s1, r.0, n, n1, r.1);
    }
}

/// The code of a whole block is fine.
pub proof fn lemma_whole_block(structs: Structs, ctx: Ctx, ret: LType, block: Seq<Stmt>, n: Names)
    requires
        lower_block(structs, ctx, ret, block, 0, Seq::empty(), n) is Ok,
    ensures
        fine(
            lower_block(structs, ctx, ret, block, 0, Seq::empty(), n)->Ok_0.0,
            n,
            lower_block(structs, ctx, ret, block, 0, Seq::empty(), n)->Ok_0.1,
        ),
    decreases block, block.len() + 1,
{
    lemma_block(structs, ctx, ret, block, 0, Seq::empty(), n);
    let out = lower_block(structs, ctx, ret, block, 0, Seq::empty(), n)->Ok_0.0;
    assert(out.subrange(0, out.len() as int) =~= out);
}

/// The code of all the bindings of a loop is fine.
pub proof fn lemma_whole_bindings(structs: Structs, ctx: Ctx, bindings: Seq<(Id, Expr)>, n: Names)
    requires
        lower_bindings(structs, ctx, bindings, 0, Seq::empty(), n) is Ok,
    ensures
        fine(
            lower_bindings(structs, ctx, bindings, 0, Seq::empty(), n)->Ok_0.1,
            n,
            lower_bindings(structs, ctx, bindings, 0, Seq::empty(), n)->Ok_0.2,
        ),
{
    lemma_bindings(structs, ctx, bindings, 0, Seq::empty(), n);
    let out = lower_bindings(structs, ctx, bindings, 0, Seq::empty(), n)->Ok_0.1;
    assert(out.subrange(0, out.len() as int) =~= out);
}

} // verus!
