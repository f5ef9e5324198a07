//! The lowering pass: it computes what the rules of lowering state.

use crate::ast;
use crate::ast::{
    bindings_view, block_view, expressions_view, BinaryOp, Expression, Id, Statement, UnaryOp,
};
use crate::errors::Error;
use crate::llvmlite::{
    clone_type, typed_operands_view, BinaryOperator, Condition, Gid, GlobalInitializer,
    Instruction, LInit, LTerminator, LType, Label, Operand, Runtime, Terminator, Type, Uid,
};
use crate::lower::{
    array_of, binary_instruction, branches, declare_local, element_address, element_type, emit,
    field_address, fresh_label, fresh_labels, fresh_uid, looped, lower_address, lower_arguments,
    lower_binary, lower_bindings, lower_block, lower_call, lower_condition, lower_elements,
    lower_expression, lower_fields, lower_identifier, lower_index, lower_length, lower_new_array,
    lower_projection, lower_statement, lower_text, lower_unary, ll_pointee,
    ll_return, ll_type, Code, Ctx, Effect, Elt, Lowered, Names,
};
use crate::symbol::Symbol;
use crate::table::{lemma_position, SymbolTable};
use crate::typecontext::{names, TypingContext};
use vstd::prelude::*;

verus! {

/// An element of a stream of code.
#[derive(Debug)]
pub enum Element {
    Label(Label),
    Ins(Uid, Instruction),
    Term(Terminator),
    Global(Gid, Type, GlobalInitializer),
}

impl View for Element {
    type V = Elt;

    open spec fn view(&self) -> Elt {
        match self {
            Element::Label(l) => Elt::Label(*l),
            Element::Ins(u, ins) => Elt::Ins(*u, ins@),
            Element::Term(t) => Elt::Term(t@),
            Element::Global(g, t, init) => Elt::Global(*g, t@, init@),
        }
    }
}

/// The models of a stream of code.
pub open spec fn elements_view(s: Seq<Element>) -> Seq<Elt> {
    Seq::new(s.len(), |i: int| s[i]@)
}

/// What identifiers stand for in lowered code.
#[derive(Debug)]
pub struct Context {
    pub operands: SymbolTable<(Type, Operand)>,
}

impl View for Context {
    type V = Ctx;

    open spec fn view(&self) -> Ctx {
        Map::new(
            |k: Id| self.operands.map().contains_key(k),
            |k: Id| (self.operands.map()[k].0@, self.operands.map()[k].1),
        )
    }
}

impl Context {
    /// A context in which no identifier stands for anything.
    pub fn new() -> (c: Context)
        ensures
            c@ == Map::<Id, (LType, Operand)>::empty(),
    {
        let c = Context { operands: SymbolTable::new() };
        assert(c@ =~= Map::<Id, (LType, Operand)>::empty());
        c
    }

    /// Lets `id` stand for the operand `op` of type `type_`.
    pub fn bind(&mut self, id: Id, type_: Type, op: Operand)
        ensures
            final(self)@ == old(self)@.insert(id, (type_@, op)),
    {
        let ghost before = self@;
        self.operands.put(id, (type_, op));
        assert(self@ =~= before.insert(id, (type_@, op)));
    }

    /// A copy of the context.
    pub fn copy(&self) -> (c: Context)
        ensures
            c@ == self@,
    {
        let mut copy: SymbolTable<(Type, Operand)> = SymbolTable::new();
        let n = self.operands.len();
        let mut i: usize = 0;
        while i < n
            invariant
                i <= n,
                n == self.operands.keys().len(),
                self.operands.wf(),
                copy.wf(),
                copy.keys() =~= self.operands.keys().subrange(0, i as int),
                copy.values().len() == i,
                forall|j: int|
                    0 <= j < i ==> copy.values()[j].0@ == self.operands.values()[j].0@
                        && copy.values()[j].1 == self.operands.values()[j].1,
            decreases n - i,
        {
            match self.operands.get_index(i) {
                Some((name, entry)) => {
                    proof {
                        let keys = copy.keys();
                        if keys.contains(name) {
                            let j = choose|j: int| 0 <= j < keys.len() && keys[j] == name;
                            assert(self.operands.keys()[j] == self.operands.keys()[i as int]);
                        }
                        lemma_position(keys, name);
                    }
                    copy.insert(name, (clone_type(&entry.0), entry.1));
                    assert(copy.keys() =~= self.operands.keys().subrange(0, i + 1));
                },
                None => {},
            }
            i += 1;
        }
        assert(copy.keys() =~= self.operands.keys());
        let c = Context { operands: copy };
        assert(c@ =~= self@) by {
            assert forall|k: Id| c@.contains_key(k) implies c@[k] == self@[k] by {
                lemma_position(self.operands.keys(), k);
            }
        }
        c
    }

    /// The context in which, besides, `id` stands for the operand `op` of
    /// type `type_`.
    pub fn extend_operand(&self, id: Id, type_: Type, op: Operand) -> (c: Context)
        ensures
            c@ == self@.insert(id, (type_@, op)),
    {
        let mut copy = self.copy();
        copy.bind(id, type_, op);
        copy
    }

    /// What `id` stands for.
    pub fn lookup(&self, id: Id) -> (r: Option<(Type, Operand)>)
        ensures
            match r {
                Some((t, o)) => self@.contains_key(id) && self@[id] == (t@, o),
                None => !self@.contains_key(id),
            },
    {
        match self.operands.find(id) {
            Some(entry) => Some((clone_type(&entry.0), entry.1)),
            None => None,
        }
    }
}

/// What an expression was lowered to, as a model.
pub open spec fn lowered_view(r: Result<(Type, Operand, Vec<Element>, Names), Error>) -> Lowered {
    match r {
        Ok((t, o, s, n)) => Ok((t@, o, elements_view(s@), n)),
        Err(e) => Err(e),
    }
}

/// The code that statements were lowered to, as a model.
pub open spec fn code_view(r: Result<(Vec<Element>, Names), Error>) -> Code {
    match r {
        Ok((s, n)) => Ok((elements_view(s@), n)),
        Err(e) => Err(e),
    }
}

/// What a statement was lowered to, as a model.
pub open spec fn effect_view(r: Result<(Context, Vec<Element>, Names), Error>) -> Effect {
    match r {
        Ok((c, s, n)) => Ok((c@, elements_view(s@), n)),
        Err(e) => Err(e),
    }
}

/// A fresh local identifier.
pub fn new_uid(n: Names) -> (r: Result<(Uid, Names), Error>)
    ensures
        r == fresh_uid(n),
{
    if n.uid == u32::MAX {
        Err(Error::OutOfNames)
    } else {
        Ok((Symbol { index: n.uid }, Names { uid: n.uid + 1, label: n.label, text: n.text }))
    }
}

/// A fresh label.
pub fn new_label(n: Names) -> (r: Result<(Label, Names), Error>)
    ensures
        r == fresh_label(n),
{
    if n.label == u32::MAX {
        Err(Error::OutOfNames)
    } else {
        Ok((Symbol { index: n.label }, Names { uid: n.uid, label: n.label + 1, text: n.text }))
    }
}

/// Three fresh labels.
pub fn new_labels(n: Names) -> (r: Result<(Label, Label, Label, Names), Error>)
    ensures
        r == fresh_labels(n),
{
    let (a, n1) = match new_label(n) {
        Ok(x) => x,
        Err(e) => { return Err(e); },
    };
    let (b, n2) = match new_label(n1) {
        Ok(x) => x,
        Err(e) => { return Err(e); },
    };
    let (c, n3) = match new_label(n2) {
        Ok(x) => x,
        Err(e) => { return Err(e); },
    };
    Ok((a, b, c, n3))
}

/// Appends the code `more` to the code `s`.
pub fn join(s: Vec<Element>, more: Vec<Element>) -> (r: Vec<Element>)
    ensures
        elements_view(r@) == elements_view(s@) + elements_view(more@),
{
    let mut s = s;
    let mut more = more;
    let ghost a = elements_view(s@);
    let ghost b = elements_view(more@);
    s.append(&mut more);
    assert(elements_view(s@) =~= a + b);
    s
}

/// Appends an element to the code `s`.
pub fn with(s: Vec<Element>, e: Element) -> (r: Vec<Element>)
    ensures
        elements_view(r@) == elements_view(s@).push(e@),
{
    let mut s = s;
    let ghost a = elements_view(s@);
    let ghost ev = e@;
    s.push(e);
    assert(elements_view(s@) =~= a.push(ev));
    s
}

/// No code.
pub fn nothing() -> (r: Vec<Element>)
    ensures
        elements_view(r@) == Seq::<Elt>::empty(),
{
    let r: Vec<Element> = Vec::new();
    assert(elements_view(r@) =~= Seq::<Elt>::empty());
    r
}

/// Appends the instruction `ins` to the code `s`, under a fresh identifier.
pub fn emit_instruction(s: Vec<Element>, ins: Instruction, n: Names) -> (r: Result<
    (Uid, Vec<Element>, Names),
    Error,
>)
    ensures
        match r {
            Ok((u, s1, n1)) => emit(elements_view(s@), ins@, n) == Ok::<(Uid, Seq<Elt>, Names), Error>(
                (u, elements_view(s1@), n1),
            ),
            Err(e) => emit(elements_view(s@), ins@, n) == Err::<(Uid, Seq<Elt>, Names), Error>(e),
        },
{
    match new_uid(n) {
        Err(e) => Err(e),
        Ok((u, n1)) => Ok((u, with(s, Element::Ins(u, ins)), n1)),
    }
}

/// The LLVMLite type of a type of Oat.
pub fn compile_type(t: &ast::Type) -> (r: Type)
    ensures
        r@ == ll_type(t@),
    decreases t,
{
    match t {
        ast::Type::Bool => Type::I1,
        ast::Type::Int => Type::I64,
        ast::Type::Ref(r) => Type::Ptr(Box::new(compile_reference(r))),
        ast::Type::NullRef(r) => Type::Ptr(Box::new(compile_reference(r))),
    }
}

/// The representation of an array of elements of type `t`.
pub fn array_type(t: Type) -> (r: Type)
    ensures
        r@ == array_of(t@),
{
    let ghost tv = t@;
    let mut parts: Vec<Type> = Vec::new();
    parts.push(Type::I64);
    parts.push(Type::Array(0, Box::new(t)));
    assert(parts@[0]@ == LType::I64);
    assert(parts@[1]@ == LType::Array(0, Box::new(tv)));
    let r = Type::Struct(parts);
    assert(r@->Struct_0 =~= array_of(tv)->Struct_0);
    r
}

/// What a reference of a reference type of Oat points to.
pub fn compile_reference(r: &ast::ReferenceType) -> (t: Type)
    ensures
        t@ == ll_pointee(r@),
    decreases r,
{
    match r {
        ast::ReferenceType::String => Type::I8,
        ast::ReferenceType::Struct(name) => Type::Namedt(*name),
        ast::ReferenceType::Array(element) => array_type(compile_type(element)),
        ast::ReferenceType::Function(args, ret) => {
            let mut types: Vec<Type> = Vec::new();
            let mut i: usize = 0;
            while i < args.len()
                invariant
                    i <= args.len(),
                    *r == ast::ReferenceType::Function(*args, *ret),
                    types@.len() == i,
                    forall|j: int| 0 <= j < i ==> types@[j]@ == ll_type(args@[j]@),
                decreases args.len() - i,
            {
                assert(decreases_to!(r => r->Function_0[i as int]));
                types.push(compile_type(&args[i]));
                i += 1;
            }
            let t = Type::Fun(types, Box::new(compile_return(ret)));
            assert(t@->Fun_0 =~= ll_pointee(r@)->Fun_0);
            t
        },
    }
}

/// The LLVMLite type of a return type of Oat.
pub fn compile_return(r: &ast::ReturnType) -> (t: Type)
    ensures
        t@ == ll_return(r@),
    decreases r,
{
    match r {
        ast::ReturnType::ReturnVoid => Type::Void,
        ast::ReturnType::ReturnValue(t) => compile_type(t),
    }
}

impl ast::Type {
    /// The LLVMLite type of the type.
    pub fn compile(&self) -> (r: Type)
        ensures
            r@ == ll_type(self@),
    {
        compile_type(self)
    }
}

impl ast::ReturnType {
    /// The LLVMLite type of the return type.
    pub fn compile(&self) -> (r: Type)
        ensures
            r@ == ll_return(self@),
    {
        compile_return(self)
    }
}

/// An identifier as a value.
pub fn compile_identifier(ctx: &Context, x: Id, n: Names) -> (r: Result<
    (Type, Operand, Vec<Element>, Names),
    Error,
>)
    ensures
        lowered_view(r) == lower_identifier(ctx@, x, n),
{
    match ctx.lookup(x) {
        None => Err(Error::UnboundIdentifier(x)),
        Some((t, o)) => match t {
            Type::Ptr(inner) => {
                let is_function = match &*inner {
                    Type::Fun(_, _) => true,
                    _ => false,
                };
                assert(t@ == LType::Ptr(Box::new(inner@)));
                assert(is_function == (inner@ is Fun));
                if is_function {
                    Ok((Type::Ptr(inner), o, nothing(), n))
                } else {
                    match emit_instruction(nothing(), Instruction::Load(clone_type(&inner), o), n) {
                        Err(e) => Err(e),
                        Ok((u, s, n1)) => Ok((*inner, Operand::Id(u), s, n1)),
                    }
                }
            },
            _ => Err(Error::DerefNonPointer),
        },
    }
}

/// A unary operation.
pub fn compile_unary(op: UnaryOp, a: Operand, s: Vec<Element>, n: Names) -> (r: Result<
    (Type, Operand, Vec<Element>, Names),
    Error,
>)
    ensures
        lowered_view(r) == lower_unary(op, a, elements_view(s@), n),
{
    let (ins, t) = match op {
        UnaryOp::Neg => (
            Instruction::Binop(BinaryOperator::Sub, Type::I64, Operand::Const(0), a),
            Type::I64,
        ),
        UnaryOp::Lognot => (Instruction::Icmp(Condition::Eq, Type::I1, a, Operand::Const(0)), Type::I1),
        UnaryOp::Bitnot => (
            Instruction::Binop(BinaryOperator::Xor, Type::I64, a, Operand::Const(-1)),
            Type::I64,
        ),
    };
    match emit_instruction(s, ins, n) {
        Err(e) => Err(e),
        Ok((u, s1, n1)) => Ok((t, Operand::Id(u), s1, n1)),
    }
}

/// The instruction of a binary operation, and the type of its result.
pub fn binary_instruction_of(op: BinaryOp, t: Type, a: Operand, b: Operand) -> (r: (Instruction, Type))
    ensures
        (r.0@, r.1@) == binary_instruction(op, t@, a, b),
{
    match op {
        BinaryOp::Add => (Instruction::Binop(BinaryOperator::Add, Type::I64, a, b), Type::I64),
        BinaryOp::Sub => (Instruction::Binop(BinaryOperator::Sub, Type::I64, a, b), Type::I64),
        BinaryOp::Mul => (Instruction::Binop(BinaryOperator::Mul, Type::I64, a, b), Type::I64),
        BinaryOp::IAnd => (Instruction::Binop(BinaryOperator::And, Type::I64, a, b), Type::I64),
        BinaryOp::IOr => (Instruction::Binop(BinaryOperator::Or, Type::I64, a, b), Type::I64),
        BinaryOp::Shl => (Instruction::Binop(BinaryOperator::Shl, Type::I64, a, b), Type::I64),
        BinaryOp::Shr => (Instruction::Binop(BinaryOperator::Lshr, Type::I64, a, b), Type::I64),
        BinaryOp::Sar => (Instruction::Binop(BinaryOperator::Ashr, Type::I64, a, b), Type::I64),
        BinaryOp::And => (Instruction::Binop(BinaryOperator::And, Type::I1, a, b), Type::I1),
        BinaryOp::Or => (Instruction::Binop(BinaryOperator::Or, Type::I1, a, b), Type::I1),
        BinaryOp::Eq => (Instruction::Icmp(Condition::Eq, t, a, b), Type::I1),
        BinaryOp::Neq => (Instruction::Icmp(Condition::Ne, t, a, b), Type::I1),
        BinaryOp::Lt => (Instruction::Icmp(Condition::Slt, Type::I64, a, b), Type::I1),
        BinaryOp::Lte => (Instruction::Icmp(Condition::Sle, Type::I64, a, b), Type::I1),
        BinaryOp::Gt => (Instruction::Icmp(Condition::Sgt, Type::I64, a, b), Type::I1),
        BinaryOp::Gte => (Instruction::Icmp(Condition::Sge, Type::I64, a, b), Type::I1),
    }
}

/// A binary operation.
pub fn compile_binary(op: BinaryOp, t: Type, a: Operand, b: Operand, s: Vec<Element>, n: Names) -> (r:
    Result<(Type, Operand, Vec<Element>, Names), Error>)
    ensures
        lowered_view(r) == lower_binary(op, t@, a, b, elements_view(s@), n),
{
    let (ins, result) = binary_instruction_of(op, t, a, b);
    match emit_instruction(s, ins, n) {
        Err(e) => Err(e),
        Ok((u, s1, n1)) => Ok((result, Operand::Id(u), s1, n1)),
    }
}

/// The type of the elements of an array, given the type of a reference to
/// the array.
pub fn element_type_of(t: &Type) -> (r: Option<Type>)
    ensures
        match r {
            Some(e) => element_type(t@) == Some(e@),
            None => element_type(t@).is_none(),
        },
{
    match t {
        Type::Ptr(inner) => match &**inner {
            Type::Struct(parts) => {
                assert(inner@->Struct_0 =~= crate::llvmlite::types_view(parts@));
                if parts.len() == 2 {
                    match (&parts[0], &parts[1]) {
                        (Type::I64, Type::Array(_, element)) => Some(clone_type(element)),
                        _ => None,
                    }
                } else {
                    None
                }
            },
            _ => None,
        },
        _ => None,
    }
}

/// The two operands of a path into a struct or an array.
fn path2(a: Operand, b: Operand) -> (r: Vec<Operand>)
    ensures
        r@ == seq![a, b],
{
    let mut r: Vec<Operand> = Vec::new();
    r.push(a);
    r.push(b);
    assert(r@ =~= seq![a, b]);
    r
}

/// The three operands of a path to an element of an array.
fn path3(a: Operand, b: Operand, c: Operand) -> (r: Vec<Operand>)
    ensures
        r@ == seq![a, b, c],
{
    let mut r: Vec<Operand> = Vec::new();
    r.push(a);
    r.push(b);
    r.push(c);
    assert(r@ =~= seq![a, b, c]);
    r
}

/// The length of an array.
pub fn compile_length(t: Type, a: Operand, s: Vec<Element>, n: Names) -> (r: Result<
    (Type, Operand, Vec<Element>, Names),
    Error,
>)
    ensures
        lowered_view(r) == lower_length(t@, a, elements_view(s@), n),
{
    if element_type_of(&t).is_none() {
        return Err(Error::DerefNonPointer);
    }
    let (p, s1, n1) = match emit_instruction(
        s,
        Instruction::Gep(t, a, path2(Operand::Const(0), Operand::Const(0))),
        n,
    ) {
        Ok(x) => x,
        Err(e) => { return Err(e); },
    };
    match emit_instruction(s1, Instruction::Load(Type::I64, Operand::Id(p)), n1) {
        Err(e) => Err(e),
        Ok((u, s2, n2)) => Ok((Type::I64, Operand::Id(u), s2, n2)),
    }
}

/// The address of an element of an array.
pub fn compile_element_address(t: Type, a: Operand, index: Operand, s: Vec<Element>, n: Names) -> (r:
    Result<(Type, Operand, Vec<Element>, Names), Error>)
    ensures
        lowered_view(r) == element_address(t@, a, index, elements_view(s@), n),
{
    match element_type_of(&t) {
        None => Err(Error::DerefNonPointer),
        Some(element) => match emit_instruction(
            s,
            Instruction::Gep(t, a, path3(Operand::Const(0), Operand::Const(1), index)),
            n,
        ) {
            Err(e) => Err(e),
            Ok((p, s1, n1)) => Ok((element, Operand::Id(p), s1, n1)),
        },
    }
}

/// An element of an array.
pub fn compile_index(t: Type, a: Operand, index: Operand, s: Vec<Element>, n: Names) -> (r: Result<
    (Type, Operand, Vec<Element>, Names),
    Error,
>)
    ensures
        lowered_view(r) == lower_index(t@, a, index, elements_view(s@), n),
{
    match compile_element_address(t, a, index, s, n) {
        Err(e) => Err(e),
        Ok((element, p, s1, n1)) => match emit_instruction(
            s1,
            Instruction::Load(clone_type(&element), p),
            n1,
        ) {
            Err(e) => Err(e),
            Ok((u, s2, n2)) => Ok((element, Operand::Id(u), s2, n2)),
        },
    }
}

/// The address of a field of a struct.
pub fn compile_field_address(
    tc: &TypingContext,
    t: Type,
    a: Operand,
    field: Id,
    s: Vec<Element>,
    n: Names,
) -> (r: Result<(Type, Operand, Vec<Element>, Names), Error>)
    ensures
        lowered_view(r) == field_address(tc@, t@, a, field, elements_view(s@), n),
{
    let name = match &t {
        Type::Ptr(inner) => {
            assert(t@ == LType::Ptr(Box::new(inner@)));
            match &**inner {
                Type::Namedt(name) => {
                    assert(inner@ == LType::Namedt(*name));
                    *name
                },
                _ => {
                    assert(!(inner@ is Namedt));
                    return Err(Error::DerefNonPointer);
                },
            }
        },
        _ => {
            assert(!(t@ is Ptr));
            return Err(Error::DerefNonPointer);
        },
    };
    let (i, ft) = match tc.get_type(&name) {
        None => { return Err(Error::StructNotFound(name)); },
        Some(fields) => {
            let found = fields.get_full(field);
            assert(names(crate::ast::fields_view(*fields)) =~= fields.keys());
            proof {
                lemma_position(fields.keys(), field);
            }
            match found {
                None => { return Err(Error::FieldNotFound(name, field)); },
                Some((i, ft)) => (i, compile_type(ft)),
            }
        },
    };
    if i as u64 > 0x7fff_ffff_ffff_ffff {
        return Err(Error::OutOfNames);
    }
    match emit_instruction(
        s,
        Instruction::Gep(t, a, path2(Operand::Const(0), Operand::Const(i as i64))),
        n,
    ) {
        Err(e) => Err(e),
        Ok((p, s1, n1)) => Ok((ft, Operand::Id(p), s1, n1)),
    }
}

/// A field of a struct.
pub fn compile_projection(
    tc: &TypingContext,
    t: Type,
    a: Operand,
    field: Id,
    s: Vec<Element>,
    n: Names,
) -> (r: Result<(Type, Operand, Vec<Element>, Names), Error>)
    ensures
        lowered_view(r) == lower_projection(tc@, t@, a, field, elements_view(s@), n),
{
    match compile_field_address(tc, t, a, field, s, n) {
        Err(e) => Err(e),
        Ok((ft, p, s1, n1)) => match emit_instruction(s1, Instruction::Load(clone_type(&ft), p), n1) {
            Err(e) => Err(e),
            Ok((u, s2, n2)) => Ok((ft, Operand::Id(u), s2, n2)),
        },
    }
}

/// A call.
pub fn compile_call(t: Type, f: Operand, args: Vec<(Type, Operand)>, s: Vec<Element>, n: Names) -> (r:
    Result<(Type, Operand, Vec<Element>, Names), Error>)
    ensures
        lowered_view(r) == lower_call(t@, f, typed_operands_view(args@), elements_view(s@), n),
{
    let ret = match t {
        Type::Ptr(inner) => match *inner {
            Type::Fun(_, ret) => *ret,
            _ => { return Err(Error::NotAFunction); },
        },
        _ => { return Err(Error::NotAFunction); },
    };
    match emit_instruction(s, Instruction::Call(clone_type(&ret), f, args), n) {
        Err(e) => Err(e),
        Ok((u, s1, n1)) => Ok((ret, Operand::Id(u), s1, n1)),
    }
}

/// A new array.
pub fn compile_new_array(element: Type, length: Operand, s: Vec<Element>, n: Names) -> (r: Result<
    (Type, Operand, Vec<Element>, Names),
    Error,
>)
    ensures
        lowered_view(r) == lower_new_array(element@, length, elements_view(s@), n),
{
    let mut args: Vec<(Type, Operand)> = Vec::new();
    args.push((Type::I64, length));
    assert(typed_operands_view(args@) =~= seq![(LType::I64, length)]);
    let (raw, s1, n1) = match emit_instruction(
        s,
        Instruction::Call(
            Type::Ptr(Box::new(Type::I64)),
            Operand::Gid(Gid::External(Runtime::AllocArray)),
            args,
        ),
        n,
    ) {
        Ok(x) => x,
        Err(e) => { return Err(e); },
    };
    let array = array_type(element);
    let (cast, s2, n2) = match emit_instruction(
        s1,
        Instruction::Bitcast(
            Type::Ptr(Box::new(Type::I64)),
            Operand::Id(raw),
            Type::Ptr(Box::new(clone_type(&array))),
        ),
        n1,
    ) {
        Ok(x) => x,
        Err(e) => { return Err(e); },
    };
    let (p, s3, n3) = match emit_instruction(
        s2,
        Instruction::Gep(
            Type::Ptr(Box::new(clone_type(&array))),
            Operand::Id(cast),
            path2(Operand::Const(0), Operand::Const(0)),
        ),
        n2,
    ) {
        Ok(x) => x,
        Err(e) => { return Err(e); },
    };
    match emit_instruction(s3, Instruction::Store(Type::I64, length, Operand::Id(p)), n3) {
        Err(e) => Err(e),
        Ok((_, s4, n4)) => Ok((Type::Ptr(Box::new(array)), Operand::Id(cast), s4, n4)),
    }
}

/// Lowers an expression.
pub fn compile_expression(tc: &TypingContext, ctx: &Context, e: &Expression, n: Names) -> (r: Result<
    (Type, Operand, Vec<Element>, Names),
    Error,
>)
    ensures
        lowered_view(r) == lower_expression(tc@, ctx@, e@, n),
    decreases e, 1nat,
{
    match e {
        Expression::CInt(i) => Ok((Type::I64, Operand::Const(*i), nothing(), n)),
        Expression::CBool(b) => Ok(
            (
                Type::I1,
                Operand::Const(
                    if *b {
                        1
                    } else {
                        0
                    },
                ),
                nothing(),
                n,
            ),
        ),
        Expression::CNull(r) => Ok((Type::Ptr(Box::new(compile_reference(r))), Operand::Null, nothing(), n)),
        Expression::CStr(text) => compile_text(text, n),
        Expression::Id(x) => compile_identifier(ctx, *x, n),
        Expression::Unary(op, operand) => match compile_expression(tc, ctx, operand, n) {
            Err(e) => Err(e),
            Ok((_, a, s, n1)) => compile_unary(*op, a, s, n1),
        },
        Expression::Binary { op, left, right } => match compile_expression(tc, ctx, left, n) {
            Err(e) => Err(e),
            Ok((t, a, s1, n1)) => match compile_expression(tc, ctx, right, n1) {
                Err(e) => Err(e),
                Ok((_, b, s2, n2)) => compile_binary(*op, t, a, b, join(s1, s2), n2),
            },
        },
        Expression::Length(array) => match compile_expression(tc, ctx, array, n) {
            Err(e) => Err(e),
            Ok((t, a, s, n1)) => compile_length(t, a, s, n1),
        },
        Expression::Index { value, index } => match compile_expression(tc, ctx, value, n) {
            Err(e) => Err(e),
            Ok((t, a, s1, n1)) => match compile_expression(tc, ctx, index, n1) {
                Err(e) => Err(e),
                Ok((_, i, s2, n2)) => compile_index(t, a, i, join(s1, s2), n2),
            },
        },
        Expression::Proj(object, field) => match compile_expression(tc, ctx, object, n) {
            Err(e) => Err(e),
            Ok((t, a, s, n1)) => compile_projection(tc, t, a, *field, s, n1),
        },
        Expression::Call(callee, args) => {
            assert(e@->Call_1 =~= expressions_view(args@));
            match compile_expression(tc, ctx, callee, n) {
                Err(e) => Err(e),
                Ok((t, f, s, n1)) => match compile_arguments(tc, ctx, args, s, n1) {
                    Err(e) => Err(e),
                    Ok((typed, s1, n2)) => compile_call(t, f, typed, s1, n2),
                },
            }
        },
        Expression::NewArr(t, length) => match compile_expression(tc, ctx, length, n) {
            Err(e) => Err(e),
            Ok((_, l, s, n1)) => compile_new_array(compile_type(t), l, s, n1),
        },
        Expression::CArr(t, elements) => {
            assert(e@->CArr_1 =~= expressions_view(elements@));
            if elements.len() as u64 > 0x7fff_ffff_ffff_ffff {
                return Err(Error::OutOfNames);
            }
            match compile_new_array(
                compile_type(t),
                Operand::Const(elements.len() as i64),
                nothing(),
                n,
            ) {
                Err(e) => Err(e),
                Ok((ta, a, s, n1)) => match compile_elements(tc, ctx, &ta, a, elements, s, n1) {
                    Err(e) => Err(e),
                    Ok((s1, n2)) => Ok((ta, a, s1, n2)),
                },
            }
        },
        Expression::CStruct(name, fields) => {
            assert(e@->CStruct_1 =~= bindings_view(fields@));
            match emit_instruction(nothing(), Instruction::Alloca(Type::Namedt(*name)), n) {
                Err(e) => Err(e),
                Ok((u, s, n1)) => {
                    let t = Type::Ptr(Box::new(Type::Namedt(*name)));
                    match compile_fields(tc, ctx, &t, Operand::Id(u), fields, s, n1) {
                        Err(e) => Err(e),
                        Ok((s1, n2)) => Ok((t, Operand::Id(u), s1, n2)),
                    }
                },
            }
        },
    }
}

/// Lowers a string literal: its text becomes a global.
pub fn compile_text(text: &String, n: Names) -> (r: Result<(Type, Operand, Vec<Element>, Names), Error>)
    ensures
        lowered_view(r) == lower_text(text@, n),
{
    let length = text.as_str().unicode_len();
    if length == usize::MAX {
        return Err(Error::OutOfNames);
    }
    if n.text == u32::MAX {
        return Err(Error::OutOfNames);
    }
    let g = Gid::Text(n.text);
    let n1 = Names { uid: n.uid, label: n.label, text: n.text + 1 };
    let global = Element::Global(
        g,
        Type::Array(length + 1, Box::new(Type::I8)),
        GlobalInitializer::String(text.clone()),
    );
    let ghost gv = global@;
    assert(Type::I8@ == LType::I8);
    assert(gv == Elt::Global(
        g,
        LType::Array((length + 1) as nat, Box::new(LType::I8)),
        LInit::String(text@),
    ));
    let s = with(nothing(), global);
    assert(elements_view(s@) =~= seq![gv]);
    let t = Type::Ptr(Box::new(Type::I8));
    assert(t@ == LType::Ptr(Box::new(LType::I8)));
    Ok((t, Operand::Gid(g), s, n1))
}

/// Lowers the arguments of a call, in source order, after the code `s`.
pub fn compile_arguments(
    tc: &TypingContext,
    ctx: &Context,
    args: &Vec<Expression>,
    s: Vec<Element>,
    n: Names,
) -> (r: Result<(Vec<(Type, Operand)>, Vec<Element>, Names), Error>)
    ensures
        match r {
            Ok((typed, s1, n1)) => lower_arguments(
                tc@,
                ctx@,
                expressions_view(args@),
                0,
                Seq::empty(),
                elements_view(s@),
                n,
            ) == Ok::<(Seq<(LType, Operand)>, Seq<Elt>, Names), Error>(
                (typed_operands_view(typed@), elements_view(s1@), n1),
            ),
            Err(e) => lower_arguments(
                tc@,
                ctx@,
                expressions_view(args@),
                0,
                Seq::empty(),
                elements_view(s@),
                n,
            ) == Err::<(Seq<(LType, Operand)>, Seq<Elt>, Names), Error>(e),
        },
    decreases args, 0nat,
{
    let ghost av = expressions_view(args@);
    let ghost start = elements_view(s@);
    let mut typed: Vec<(Type, Operand)> = Vec::new();
    assert(typed_operands_view(typed@) =~= Seq::empty());
    let mut code = s;
    let mut names = n;
    let mut i: usize = 0;
    while i < args.len()
        invariant
            i <= args.len(),
            av == expressions_view(args@),
            start == elements_view(s@),
            lower_arguments(tc@, ctx@, av, 0, Seq::empty(), start, n) == lower_arguments(
                tc@,
                ctx@,
                av,
                i as nat,
                typed_operands_view(typed@),
                elements_view(code@),
                names,
            ),
        decreases args.len() - i,
    {
        match compile_expression(tc, ctx, &args[i], names) {
            Err(e) => { return Err(e); },
            Ok((t, o, s1, n1)) => {
                let ghost before = typed_operands_view(typed@);
                let ghost tv = t@;
                typed.push((t, o));
                assert(typed_operands_view(typed@) =~= before.push((tv, o)));
                code = join(code, s1);
                names = n1;
            },
        }
        i += 1;
    }
    Ok((typed, code, names))
}

/// Lowers the elements of an array literal: each is stored at its place in
/// the array at `a`.
fn compile_elements(
    tc: &TypingContext,
    ctx: &Context,
    t: &Type,
    a: Operand,
    elements: &Vec<Expression>,
    s: Vec<Element>,
    n: Names,
) -> (r: Result<(Vec<Element>, Names), Error>)
    requires
        elements@.len() <= i64::MAX,
    ensures
        code_view(r) == lower_elements(
            tc@,
            ctx@,
            t@,
            a,
            expressions_view(elements@),
            0,
            elements_view(s@),
            n,
        ),
    decreases elements, 0nat,
{
    let ghost ev = expressions_view(elements@);
    let ghost start = elements_view(s@);
    let mut code = s;
    let mut names = n;
    let mut i: usize = 0;
    while i < elements.len()
        invariant
            i <= elements.len(),
            elements@.len() <= i64::MAX,
            ev == expressions_view(elements@),
            start == elements_view(s@),
            lower_elements(tc@, ctx@, t@, a, ev, 0, start, n) == lower_elements(
                tc@,
                ctx@,
                t@,
                a,
                ev,
                i as nat,
                elements_view(code@),
                names,
            ),
        decreases elements.len() - i,
    {
        let (o, s1, n1) = match compile_expression(tc, ctx, &elements[i], names) {
            Err(e) => { return Err(e); },
            Ok((_, o, s1, n1)) => (o, s1, n1),
        };
        let (te, p, s2, n2) = match compile_element_address(
            clone_type(t),
            a,
            Operand::Const(i as i64),
            join(code, s1),
            n1,
        ) {
            Err(e) => { return Err(e); },
            Ok(x) => x,
        };
        match emit_instruction(s2, Instruction::Store(te, o, p), n2) {
            Err(e) => { return Err(e); },
            Ok((_, s3, n3)) => {
                code = s3;
                names = n3;
            },
        }
        i += 1;
    }
    Ok((code, names))
}

/// Lowers the fields of a struct literal: each is stored in its field of
/// the struct at `a`.
pub fn compile_fields(
    tc: &TypingContext,
    ctx: &Context,
    t: &Type,
    a: Operand,
    fields: &Vec<(Id, Expression)>,
    s: Vec<Element>,
    n: Names,
) -> (r: Result<(Vec<Element>, Names), Error>)
    ensures
        code_view(r) == lower_fields(
            tc@,
            ctx@,
            t@,
            a,
            bindings_view(fields@),
            0,
            elements_view(s@),
            n,
        ),
    decreases fields, 0nat,
{
    let ghost fv = bindings_view(fields@);
    let ghost start = elements_view(s@);
    let mut code = s;
    let mut names = n;
    let mut i: usize = 0;
    while i < fields.len()
        invariant
            i <= fields.len(),
            fv == bindings_view(fields@),
            start == elements_view(s@),
            lower_fields(tc@, ctx@, t@, a, fv, 0, start, n) == lower_fields(
                tc@,
                ctx@,
                t@,
                a,
                fv,
                i as nat,
                elements_view(code@),
                names,
            ),
        decreases fields.len() - i,
    {
        let (o, s1, n1) = match compile_expression(tc, ctx, &fields[i].1, names) {
            Err(e) => { return Err(e); },
            Ok((_, o, s1, n1)) => (o, s1, n1),
        };
        let (tf, p, s2, n2) = match compile_field_address(
            tc,
            clone_type(t),
            a,
            fields[i].0,
            join(code, s1),
            n1,
        ) {
            Err(e) => { return Err(e); },
            Ok(x) => x,
        };
        match emit_instruction(s2, Instruction::Store(tf, o, p), n2) {
            Err(e) => { return Err(e); },
            Ok((_, s3, n3)) => {
                code = s3;
                names = n3;
            },
        }
        i += 1;
    }
    Ok((code, names))
}

impl Expression {
    /// Lowers the expression: its type, the operand that holds its value,
    /// and the code that computes it.
    pub fn compile(&self, tc: &TypingContext, ctx: &Context, n: Names) -> (r: Result<
        (Type, Operand, Vec<Element>, Names),
        Error,
    >)
        ensures
            lowered_view(r) == lower_expression(tc@, ctx@, self@, n),
    {
        compile_expression(tc, ctx, self, n)
    }
}

/// Declares a variable: allocates its slot and stores its value there.
pub fn compile_local(ctx: Context, name: Id, t: Type, o: Operand, s: Vec<Element>, n: Names) -> (r: Result<
    (Context, Vec<Element>, Names),
    Error,
>)
    ensures
        effect_view(r) == declare_local(ctx@, name, t@, o, elements_view(s@), n),
{
    let (slot, s1, n1) = match emit_instruction(s, Instruction::Alloca(clone_type(&t)), n) {
        Ok(x) => x,
        Err(e) => { return Err(e); },
    };
    let (_, s2, n2) = match emit_instruction(
        s1,
        Instruction::Store(clone_type(&t), o, Operand::Id(slot)),
        n1,
    ) {
        Ok(x) => x,
        Err(e) => { return Err(e); },
    };
    let mut ctx = ctx;
    let ghost tv = t@;
    let pointer = Type::Ptr(Box::new(t));
    assert(pointer@ == LType::Ptr(Box::new(tv)));
    ctx.bind(name, pointer, Operand::Id(slot));
    Ok((ctx, s2, n2))
}

/// Declares each binding in turn, after the code `s`.
pub fn compile_bindings(
    tc: &TypingContext,
    ctx: Context,
    bindings: &Vec<(Id, Expression)>,
    s: Vec<Element>,
    n: Names,
) -> (r: Result<(Context, Vec<Element>, Names), Error>)
    ensures
        effect_view(r) == lower_bindings(tc@, ctx@, bindings_view(bindings@), 0, elements_view(s@), n),
{
    let ghost bv = bindings_view(bindings@);
    let ghost start_ctx = ctx@;
    let ghost start = elements_view(s@);
    let mut current = ctx;
    let mut code = s;
    let mut names = n;
    let mut i: usize = 0;
    while i < bindings.len()
        invariant
            i <= bindings.len(),
            bv == bindings_view(bindings@),
            start_ctx == ctx@,
            start == elements_view(s@),
            lower_bindings(tc@, start_ctx, bv, 0, start, n) == lower_bindings(
                tc@,
                current@,
                bv,
                i as nat,
                elements_view(code@),
                names,
            ),
        decreases bindings.len() - i,
    {
        let (t, o, s1, n1) = match compile_expression(tc, &current, &bindings[i].1, names) {
            Ok(x) => x,
            Err(e) => { return Err(e); },
        };
        match compile_local(current, bindings[i].0, t, o, join(code, s1), n1) {
            Err(e) => { return Err(e); },
            Ok((c, s2, n2)) => {
                current = c;
                code = s2;
                names = n2;
            },
        }
        i += 1;
    }
    Ok((current, code, names))
}

/// Lowers the place that an assignment writes.
pub fn compile_address(tc: &TypingContext, ctx: &Context, target: &Expression, n: Names) -> (r: Result<
    (Type, Operand, Vec<Element>, Names),
    Error,
>)
    ensures
        lowered_view(r) == lower_address(tc@, ctx@, target@, n),
{
    match target {
        Expression::Id(x) => match ctx.lookup(*x) {
            None => Err(Error::UnboundIdentifier(*x)),
            Some((t, o)) => match t {
                Type::Ptr(inner) => {
                    let is_function = match &*inner {
                        Type::Fun(_, _) => true,
                        _ => false,
                    };
                    assert(ctx@[*x].0 == LType::Ptr(Box::new(inner@)));
                    assert(is_function == (inner@ is Fun));
                    if is_function {
                        Err(Error::NotAssignable)
                    } else {
                        Ok((*inner, o, nothing(), n))
                    }
                },
                _ => {
                    assert(!(ctx@[*x].0 is Ptr));
                    Err(Error::DerefNonPointer)
                },
            },
        },
        Expression::Proj(object, field) => match compile_expression(tc, ctx, object, n) {
            Err(e) => Err(e),
            Ok((t, a, s, n1)) => compile_field_address(tc, t, a, *field, s, n1),
        },
        Expression::Index { value, index } => match compile_expression(tc, ctx, value, n) {
            Err(e) => Err(e),
            Ok((t, a, s1, n1)) => match compile_expression(tc, ctx, index, n1) {
                Err(e) => Err(e),
                Ok((_, i, s2, n2)) => compile_element_address(t, a, i, join(s1, s2), n2),
            },
        },
        _ => Err(Error::NotAssignable),
    }
}

/// Puts the code of a conditional together.
pub fn assemble_branches(
    s: Vec<Element>,
    c: Operand,
    then: Label,
    else_: Label,
    merge: Label,
    then_code: Vec<Element>,
    else_code: Vec<Element>,
) -> (r: Vec<Element>)
    ensures
        elements_view(r@) == branches(
            elements_view(s@),
            c,
            then,
            else_,
            merge,
            elements_view(then_code@),
            elements_view(else_code@),
        ),
{
    let ghost sv = elements_view(s@);
    let ghost tv = elements_view(then_code@);
    let ghost ev = elements_view(else_code@);
    let r = with(s, Element::Term(Terminator::CondBreak(c, then, else_)));
    let r = with(r, Element::Label(then));
    let r = join(r, then_code);
    let r = with(r, Element::Term(Terminator::Break(merge)));
    let r = with(r, Element::Label(else_));
    let r = join(r, else_code);
    let r = with(r, Element::Term(Terminator::Break(merge)));
    let r = with(r, Element::Label(merge));
    assert(elements_view(r@) =~= branches(sv, c, then, else_, merge, tv, ev));
    r
}

/// Puts the code of a loop together.
pub fn assemble_loop(
    s: Vec<Element>,
    head: Label,
    body: Label,
    exit: Label,
    head_code: Vec<Element>,
    c: Operand,
    body_code: Vec<Element>,
) -> (r: Vec<Element>)
    ensures
        elements_view(r@) == looped(
            elements_view(s@),
            head,
            body,
            exit,
            elements_view(head_code@),
            c,
            elements_view(body_code@),
        ),
{
    let ghost sv = elements_view(s@);
    let ghost hv = elements_view(head_code@);
    let ghost bv = elements_view(body_code@);
    let r = with(s, Element::Term(Terminator::Break(head)));
    let r = with(r, Element::Label(head));
    let r = join(r, head_code);
    let r = with(r, Element::Term(Terminator::CondBreak(c, body, exit)));
    let r = with(r, Element::Label(body));
    let r = join(r, body_code);
    let r = with(r, Element::Term(Terminator::Break(head)));
    let r = with(r, Element::Label(exit));
    assert(elements_view(r@) =~= looped(sv, head, body, exit, hv, c, bv));
    r
}

/// Lowers a statement of a function that returns `ret`.
pub fn compile_statement(
    tc: &TypingContext,
    ctx: Context,
    ret: &Type,
    stmt: &Statement,
    n: Names,
) -> (r: Result<(Context, Vec<Element>, Names), Error>)
    ensures
        effect_view(r) == lower_statement(tc@, ctx@, ret@, stmt@, n),
    decreases stmt, 1nat,
{
    match stmt {
        Statement::Assignment(..) => compile_assignment(tc, ctx, ret, stmt, n),
        Statement::Declaration(..) => compile_declaration(tc, ctx, ret, stmt, n),
        Statement::SCall(..) => compile_call_statement(tc, ctx, ret, stmt, n),
        Statement::If { .. } => compile_if(tc, ctx, ret, stmt, n),
        Statement::Cast(..) => compile_cast(tc, ctx, ret, stmt, n),
        Statement::For { .. } => compile_for(tc, ctx, ret, stmt, n),
        Statement::While { .. } => compile_while(tc, ctx, ret, stmt, n),
        Statement::Return(_) => compile_return_statement(tc, ctx, ret, stmt, n),
    }
}

/// The rule for assignments.
fn compile_assignment(
    tc: &TypingContext,
    ctx: Context,
    ret: &Type,
    stmt: &Statement,
    n: Names,
) -> (r: Result<(Context, Vec<Element>, Names), Error>)
    requires
        stmt is Assignment,
    ensures
        effect_view(r) == lower_statement(tc@, ctx@, ret@, stmt@, n),
{
    match stmt {
        Statement::Assignment(target, value) => {
            let (t, p, s1, n1) = match compile_address(tc, &ctx, target, n) {
                Ok(x) => x,
                Err(e) => { return Err(e); },
            };
            let (o, s2, n2) = match compile_expression(tc, &ctx, value, n1) {
                Ok((_, o, s2, n2)) => (o, s2, n2),
                Err(e) => { return Err(e); },
            };
            match emit_instruction(join(s1, s2), Instruction::Store(t, o, p), n2) {
                Err(e) => Err(e),
                Ok((_, s3, n3)) => Ok((ctx, s3, n3)),
            }
        },
        _ => vstd::pervasive::unreached(),
    }
}

/// The rule for declarations.
fn compile_declaration(
    tc: &TypingContext,
    ctx: Context,
    ret: &Type,
    stmt: &Statement,
    n: Names,
) -> (r: Result<(Context, Vec<Element>, Names), Error>)
    requires
        stmt is Declaration,
    ensures
        effect_view(r) == lower_statement(tc@, ctx@, ret@, stmt@, n),
{
    match stmt {
        Statement::Declaration(name, init) => match compile_expression(tc, &ctx, init, n) {
            Err(e) => Err(e),
            Ok((t, o, s, n1)) => compile_local(ctx, *name, t, o, s, n1),
        },
        _ => vstd::pervasive::unreached(),
    }
}

/// The rule for calls that stand as statements.
fn compile_call_statement(
    tc: &TypingContext,
    ctx: Context,
    ret: &Type,
    stmt: &Statement,
    n: Names,
) -> (r: Result<(Context, Vec<Element>, Names), Error>)
    requires
        stmt is SCall,
    ensures
        effect_view(r) == lower_statement(tc@, ctx@, ret@, stmt@, n),
{
    match stmt {
        Statement::SCall(callee, args) => {
            let (t, f, s, n1) = match compile_expression(tc, &ctx, callee, n) {
                Ok(x) => x,
                Err(e) => { return Err(e); },
            };
            let (typed, s1, n2) = match compile_arguments(tc, &ctx, args, s, n1) {
                Ok(x) => x,
                Err(e) => { return Err(e); },
            };
            match compile_call(t, f, typed, s1, n2) {
                Err(e) => Err(e),
                Ok((_, _, s2, n3)) => Ok((ctx, s2, n3)),
            }
        },
        _ => vstd::pervasive::unreached(),
    }
}

/// The rules for `return`.
fn compile_return_statement(
    tc: &TypingContext,
    ctx: Context,
    ret: &Type,
    stmt: &Statement,
    n: Names,
) -> (r: Result<(Context, Vec<Element>, Names), Error>)
    requires
        stmt is Return,
    ensures
        effect_view(r) == lower_statement(tc@, ctx@, ret@, stmt@, n),
{
    match stmt {
        Statement::Return(None) => {
            let s = with(nothing(), Element::Term(Terminator::Ret(Type::Void, None)));
            assert(elements_view(s@) =~= seq![Elt::Term(LTerminator::Ret(LType::Void, None))]);
            Ok((ctx, s, n))
        },
        Statement::Return(Some(value)) => match compile_expression(tc, &ctx, value, n) {
            Err(e) => Err(e),
            Ok((t, o, s, n1)) => Ok((ctx, with(s, Element::Term(Terminator::Ret(t, Some(o)))), n1)),
        },
        _ => vstd::pervasive::unreached(),
    }
}

/// The rule for `if`.
fn compile_if(
    tc: &TypingContext,
    ctx: Context,
    ret: &Type,
    stmt: &Statement,
    n: Names,
) -> (r: Result<(Context, Vec<Element>, Names), Error>)
    requires
        stmt is If,
    ensures
        effect_view(r) == lower_statement(tc@, ctx@, ret@, stmt@, n),
    decreases stmt, 0nat,
{
    match stmt {
        Statement::If { condition, then, else_ } => {
            assert(stmt@->If_then =~= block_view(then@));
            assert(stmt@->If_else_ =~= block_view(else_@));
            assert(decreases_to!(stmt => stmt->If_then));
            assert(decreases_to!(stmt => stmt->If_else_));
            let (c, s, n1) = match compile_expression(tc, &ctx, condition, n) {
                Ok((_, c, s, n1)) => (c, s, n1),
                Err(e) => { return Err(e); },
            };
            let (lt, le, lm, n2) = match new_labels(n1) {
                Ok(x) => x,
                Err(e) => { return Err(e); },
            };
            let (st, n3) = match compile_block(tc, &ctx, ret, then, n2) {
                Ok(x) => x,
                Err(e) => { return Err(e); },
            };
            let (se, n4) = match compile_block(tc, &ctx, ret, else_, n3) {
                Ok(x) => x,
                Err(e) => { return Err(e); },
            };
            Ok((ctx, assemble_branches(s, c, lt, le, lm, st, se), n4))
        },
        _ => vstd::pervasive::unreached(),
    }
}

/// The rule for `if?`.
fn compile_cast(
    tc: &TypingContext,
    ctx: Context,
    ret: &Type,
    stmt: &Statement,
    n: Names,
) -> (r: Result<(Context, Vec<Element>, Names), Error>)
    requires
        stmt is Cast,
    ensures
        effect_view(r) == lower_statement(tc@, ctx@, ret@, stmt@, n),
    decreases stmt, 0nat,
{
    match stmt {
        Statement::Cast(r, name, source, then, else_) => {
            assert(stmt@->Cast_3 =~= block_view(then@));
            assert(stmt@->Cast_4 =~= block_view(else_@));
            assert(decreases_to!(stmt => stmt->Cast_3));
            assert(decreases_to!(stmt => stmt->Cast_4));
            let (t, o, s, n1) = match compile_expression(tc, &ctx, source, n) {
                Ok(x) => x,
                Err(e) => { return Err(e); },
            };
            let pointee = compile_reference(r);
            let ghost pv = pointee@;
            let pointer = Type::Ptr(Box::new(pointee));
            assert(pointer@ == LType::Ptr(Box::new(pv)));
            let (bound, s1, n2) = match compile_local(ctx.copy(), *name, pointer, o, s, n1) {
                Ok(x) => x,
                Err(e) => { return Err(e); },
            };
            let (c, s2, n3) = match emit_instruction(
                s1,
                Instruction::Icmp(Condition::Ne, t, o, Operand::Null),
                n2,
            ) {
                Ok(x) => x,
                Err(e) => { return Err(e); },
            };
            let (lt, le, lm, n4) = match new_labels(n3) {
                Ok(x) => x,
                Err(e) => { return Err(e); },
            };
            let (st, n5) = match compile_block(tc, &bound, ret, then, n4) {
                Ok(x) => x,
                Err(e) => { return Err(e); },
            };
            let (se, n6) = match compile_block(tc, &ctx, ret, else_, n5) {
                Ok(x) => x,
                Err(e) => { return Err(e); },
            };
            Ok((ctx, assemble_branches(s2, Operand::Id(c), lt, le, lm, st, se), n6))
        },
        _ => vstd::pervasive::unreached(),
    }
}

/// The condition of a loop.
pub fn compile_condition_of(
    tc: &TypingContext,
    ctx: &Context,
    condition: &Option<Expression>,
    n: Names,
) -> (r: Result<(Type, Operand, Vec<Element>, Names), Error>)
    ensures
        lowered_view(r) == lower_condition(
            tc@,
            ctx@,
            match condition {
                Some(c) => Some(c@),
                None => None,
            },
            n,
        ),
{
    match condition {
        Some(c) => compile_expression(tc, ctx, c, n),
        None => Ok((Type::I1, Operand::Const(1), nothing(), n)),
    }
}

/// The rule for `for`.
fn compile_for(
    tc: &TypingContext,
    ctx: Context,
    ret: &Type,
    stmt: &Statement,
    n: Names,
) -> (r: Result<(Context, Vec<Element>, Names), Error>)
    requires
        stmt is For,
    ensures
        effect_view(r) == lower_statement(tc@, ctx@, ret@, stmt@, n),
    decreases stmt, 0nat,
{
    match stmt {
        Statement::For { init, condition, update, body } => {
            assert(stmt@->For_body =~= block_view(body@));
            assert(decreases_to!(stmt => stmt->For_body));
            let (inner, s, n1) = match compile_bindings(tc, ctx.copy(), init, nothing(), n) {
                Ok(x) => x,
                Err(e) => { return Err(e); },
            };
            let (lh, lb, lx, n2) = match new_labels(n1) {
                Ok(x) => x,
                Err(e) => { return Err(e); },
            };
            let (c, sc, n3) = match compile_condition_of(tc, &inner, condition, n2) {
                Ok((_, c, sc, n3)) => (c, sc, n3),
                Err(e) => { return Err(e); },
            };
            let (sb, n4) = match compile_block(tc, &inner, ret, body, n3) {
                Ok(x) => x,
                Err(e) => { return Err(e); },
            };
            let (su, n5) = match update {
                None => (nothing(), n4),
                Some(u) => match compile_statement(tc, inner, ret, u, n4) {
                    Ok((_, su, n5)) => (su, n5),
                    Err(e) => { return Err(e); },
                },
            };
            Ok((ctx, assemble_loop(s, lh, lb, lx, sc, c, join(sb, su)), n5))
        },
        _ => vstd::pervasive::unreached(),
    }
}

/// The rule for `while`.
fn compile_while(
    tc: &TypingContext,
    ctx: Context,
    ret: &Type,
    stmt: &Statement,
    n: Names,
) -> (r: Result<(Context, Vec<Element>, Names), Error>)
    requires
        stmt is While,
    ensures
        effect_view(r) == lower_statement(tc@, ctx@, ret@, stmt@, n),
    decreases stmt, 0nat,
{
    match stmt {
        Statement::While { condition, body } => {
            assert(stmt@->While_body =~= block_view(body@));
            assert(decreases_to!(stmt => stmt->While_body));
            let (lh, lb, lx, n1) = match new_labels(n) {
                Ok(x) => x,
                Err(e) => { return Err(e); },
            };
            let (c, sc, n2) = match compile_expression(tc, &ctx, condition, n1) {
                Ok((_, c, sc, n2)) => (c, sc, n2),
                Err(e) => { return Err(e); },
            };
            let (sb, n3) = match compile_block(tc, &ctx, ret, body, n2) {
                Ok(x) => x,
                Err(e) => { return Err(e); },
            };
            Ok((ctx, assemble_loop(nothing(), lh, lb, lx, sc, c, sb), n3))
        },
        _ => vstd::pervasive::unreached(),
    }
}

/// Lowers the statements of a block, in order. What a statement declares
/// is known to the statements after it, and to nothing outside the block.
pub fn compile_block(tc: &TypingContext, ctx: &Context, ret: &Type, block: &Vec<Statement>, n: Names) -> (r:
    Result<(Vec<Element>, Names), Error>)
    ensures
        code_view(r) == lower_block(tc@, ctx@, ret@, block_view(block@), 0, Seq::empty(), n),
    decreases block, 2nat,
{
    let ghost stmts = block_view(block@);
    let mut current = ctx.copy();
    let mut code = nothing();
    let mut names = n;
    let mut i: usize = 0;
    while i < block.len()
        invariant
            i <= block.len(),
            stmts == block_view(block@),
            lower_block(tc@, ctx@, ret@, stmts, 0, Seq::empty(), n) == lower_block(
                tc@,
                current@,
                ret@,
                stmts,
                i as nat,
                elements_view(code@),
                names,
            ),
        decreases block.len() - i,
    {
        assert(decreases_to!(*block => block[i as int]));
        match compile_statement(tc, current, ret, &block[i], names) {
            Err(e) => { return Err(e); },
            Ok((c, s1, n1)) => {
                current = c;
                code = join(code, s1);
                names = n1;
            },
        }
        i += 1;
    }
    Ok((code, names))
}

} // verus!
