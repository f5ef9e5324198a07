//! The surface syntax tree of Oat, and the mathematical values that its trees
//! stand for.
//!
//! Each tree type has a model: `Type` stands for a `Ty`, `Expression` for an
//! `Expr`, and so on. The model of a tree is its view, written `tree@`. Models
//! hold sequences where trees hold vectors, so two models are equal exactly
//! when they are built alike, and contracts are stated over them.

use crate::symbol::Symbol;
use crate::table::SymbolTable;
use vstd::prelude::*;
use vstd::std_specs::cmp::PartialEqSpecImpl;
use vstd::std_specs::convert::FromSpecImpl;

verus! {

/// Identifiers are interned.
pub type Id = Symbol;

#[derive(Debug, PartialEq, Eq, Structural, Clone, Copy)]
pub enum UnaryOp {
    Neg,
    Lognot,
    Bitnot,
}

#[derive(Debug, PartialEq, Eq, Structural, Clone, Copy)]
pub enum BinaryOp {
    Add,
    Sub,
    Mul,
    Eq,
    Neq,
    Lt,
    Lte,
    Gt,
    Gte,
    And,
    Or,
    IAnd,
    IOr,
    Shl,
    Shr,
    Sar,
}

#[derive(Debug)]
pub enum Type {
    Bool,
    Int,
    Ref(ReferenceType),
    NullRef(ReferenceType),
}

#[derive(Debug)]
pub enum ReferenceType {
    String,
    Struct(Id),
    Array(Box<Type>),
    Function(Vec<Type>, Box<ReturnType>),
}

#[derive(Debug)]
pub enum ReturnType {
    ReturnVoid,
    ReturnValue(Type),
}

#[derive(Debug, PartialEq, Eq)]
pub enum Expression {
    CNull(ReferenceType),
    CBool(bool),
    CInt(i64),
    CStr(String),
    Id(Id),
    CArr(Type, Vec<Expression>),
    NewArr(Type, Box<Expression>),
    Index { value: Box<Expression>, index: Box<Expression> },
    Length(Box<Expression>),
    CStruct(Id, Vec<(Id, Expression)>),
    Proj(Box<Expression>, Id),
    Call(Box<Expression>, Vec<Expression>),
    Binary { op: BinaryOp, left: Box<Expression>, right: Box<Expression> },
    Unary(UnaryOp, Box<Expression>),
}

#[derive(Debug, PartialEq, Eq)]
pub enum Statement {
    Assignment(Expression, Expression),
    Declaration(Id, Expression),
    SCall(Expression, Vec<Expression>),
    If { condition: Expression, then: Block, else_: Block },
    /// `if? (R id = e) then else`: runs `then` with `id` bound to the value
    /// of `e` when that value is not null, and `else` otherwise.
    Cast(ReferenceType, Id, Expression, Block, Block),
    /// `for (init; condition; update) body`.
    For {
        init: Vec<(Id, Expression)>,
        condition: Option<Expression>,
        update: Option<Box<Statement>>,
        body: Block,
    },
    While { condition: Expression, body: Block },
    Return(Option<Expression>),
}

pub type Block = Vec<Statement>;

#[derive(Debug, PartialEq, Eq)]
pub struct GlobalDeclaration {
    pub name: Id,
    pub init: Expression,
}

#[derive(Debug, PartialEq, Eq)]
pub struct FunctionDecl {
    pub return_type: ReturnType,
    pub name: Id,
    pub args: Vec<(Type, Id)>,
    pub body: Block,
}

/// The fields of a struct, in declaration order.
pub type FieldSet = SymbolTable<Type>;

#[derive(Debug, PartialEq, Eq)]
pub struct TypeDeclaration {
    pub name: Id,
    pub fields: FieldSet,
}

#[derive(Debug, PartialEq, Eq)]
pub enum Declaration {
    Variable(GlobalDeclaration),
    Function(FunctionDecl),
    Type(TypeDeclaration),
}

#[derive(Debug, PartialEq, Eq)]
pub struct Program {
    pub declarations: Vec<Declaration>,
}

/// The model of a `Type`.
pub enum Ty {
    Bool,
    Int,
    Ref(RefTy),
    NullRef(RefTy),
}

/// The model of a `ReferenceType`.
pub enum RefTy {
    String,
    Struct(Id),
    Array(Box<Ty>),
    Function(Seq<Ty>, Box<RetTy>),
}

/// The model of a `ReturnType`.
pub enum RetTy {
    Void,
    Value(Ty),
}

/// The model of an `Expression`.
pub enum Expr {
    CNull(RefTy),
    CBool(bool),
    CInt(i64),
    CStr(Seq<char>),
    Id(Id),
    CArr(Ty, Seq<Expr>),
    NewArr(Ty, Box<Expr>),
    Index { value: Box<Expr>, index: Box<Expr> },
    Length(Box<Expr>),
    CStruct(Id, Seq<(Id, Expr)>),
    Proj(Box<Expr>, Id),
    Call(Box<Expr>, Seq<Expr>),
    Binary { op: BinaryOp, left: Box<Expr>, right: Box<Expr> },
    Unary(UnaryOp, Box<Expr>),
}

/// The model of a `Statement`.
pub enum Stmt {
    Assignment(Expr, Expr),
    Declaration(Id, Expr),
    SCall(Expr, Seq<Expr>),
    If { condition: Expr, then: Seq<Stmt>, else_: Seq<Stmt> },
    Cast(RefTy, Id, Expr, Seq<Stmt>, Seq<Stmt>),
    For { init: Seq<(Id, Expr)>, condition: Option<Expr>, update: Option<Box<Stmt>>, body: Seq<Stmt> },
    While { condition: Expr, body: Seq<Stmt> },
    Return(Option<Expr>),
}

/// The model of a `FunctionDecl`.
pub struct FunDecl {
    pub return_type: RetTy,
    pub name: Id,
    pub args: Seq<(Ty, Id)>,
    pub body: Seq<Stmt>,
}

/// The fields of a struct as a sequence of names and types, in declaration
/// order.
pub type Fields = Seq<(Id, Ty)>;

/// The model of a `Declaration`.
pub enum Decl {
    Variable { name: Id, init: Expr },
    Function(FunDecl),
    Type { name: Id, fields: Fields },
}

/// The model of a `Program`: its declarations in source order.
pub type Prog = Seq<Decl>;

pub open spec fn type_view(t: Type) -> Ty
    decreases t,
{
    match t {
        Type::Bool => Ty::Bool,
        Type::Int => Ty::Int,
        Type::Ref(r) => Ty::Ref(reference_view(r)),
        Type::NullRef(r) => Ty::NullRef(reference_view(r)),
    }
}

pub open spec fn reference_view(r: ReferenceType) -> RefTy
    decreases r,
{
    match r {
        ReferenceType::String => RefTy::String,
        ReferenceType::Struct(id) => RefTy::Struct(id),
        ReferenceType::Array(t) => RefTy::Array(Box::new(type_view(*t))),
        ReferenceType::Function(args, ret) => RefTy::Function(
            Seq::new(
                args.len() as nat,
                |i: int|
                    if 0 <= i < args.len() {
                        type_view(args[i])
                    } else {
                        Ty::Bool
                    },
            ),
            Box::new(return_view(*ret)),
        ),
    }
}

pub open spec fn return_view(r: ReturnType) -> RetTy
    decreases r,
{
    match r {
        ReturnType::ReturnVoid => RetTy::Void,
        ReturnType::ReturnValue(t) => RetTy::Value(type_view(t)),
    }
}

impl View for Type {
    type V = Ty;

    open spec fn view(&self) -> Ty {
        type_view(*self)
    }
}

impl View for ReferenceType {
    type V = RefTy;

    open spec fn view(&self) -> RefTy {
        reference_view(*self)
    }
}

impl View for ReturnType {
    type V = RetTy;

    open spec fn view(&self) -> RetTy {
        return_view(*self)
    }
}

/// The models of a vector of types.
pub open spec fn types_view(types: Seq<Type>) -> Seq<Ty> {
    Seq::new(types.len(), |i: int| types[i]@)
}

pub open spec fn expression_view(e: Expression) -> Expr
    decreases e,
{
    match e {
        Expression::CNull(r) => Expr::CNull(r@),
        Expression::CBool(b) => Expr::CBool(b),
        Expression::CInt(i) => Expr::CInt(i),
        Expression::CStr(s) => Expr::CStr(s@),
        Expression::Id(id) => Expr::Id(id),
        Expression::CArr(t, elements) => Expr::CArr(
            t@,
            Seq::new(
                elements.len() as nat,
                |i: int|
                    if 0 <= i < elements.len() {
                        expression_view(elements[i])
                    } else {
                        Expr::CBool(false)
                    },
            ),
        ),
        Expression::NewArr(t, n) => Expr::NewArr(t@, Box::new(expression_view(*n))),
        Expression::Index { value, index } => Expr::Index {
            value: Box::new(expression_view(*value)),
            index: Box::new(expression_view(*index)),
        },
        Expression::Length(a) => Expr::Length(Box::new(expression_view(*a))),
        Expression::CStruct(name, fields) => Expr::CStruct(
            name,
            Seq::new(
                fields.len() as nat,
                |i: int|
                    if 0 <= i < fields.len() {
                        (fields[i].0, expression_view(fields[i].1))
                    } else {
                        (name, Expr::CBool(false))
                    },
            ),
        ),
        Expression::Proj(object, field) => Expr::Proj(Box::new(expression_view(*object)), field),
        Expression::Call(callee, args) => Expr::Call(
            Box::new(expression_view(*callee)),
            Seq::new(
                args.len() as nat,
                |i: int|
                    if 0 <= i < args.len() {
                        expression_view(args[i])
                    } else {
                        Expr::CBool(false)
                    },
            ),
        ),
        Expression::Binary { op, left, right } => Expr::Binary {
            op,
            left: Box::new(expression_view(*left)),
            right: Box::new(expression_view(*right)),
        },
        Expression::Unary(op, operand) => Expr::Unary(op, Box::new(expression_view(*operand))),
    }
}

impl View for Expression {
    type V = Expr;

    open spec fn view(&self) -> Expr {
        expression_view(*self)
    }
}

/// The models of a vector of expressions.
pub open spec fn expressions_view(es: Seq<Expression>) -> Seq<Expr> {
    Seq::new(es.len(), |i: int| es[i]@)
}

/// The models of a vector of named expressions.
pub open spec fn bindings_view(bs: Seq<(Id, Expression)>) -> Seq<(Id, Expr)> {
    Seq::new(bs.len(), |i: int| (bs[i].0, bs[i].1@))
}

pub open spec fn statement_view(s: Statement) -> Stmt
    decreases s,
{
    match s {
        Statement::Assignment(target, value) => Stmt::Assignment(target@, value@),
        Statement::Declaration(name, init) => Stmt::Declaration(name, init@),
        Statement::SCall(callee, args) => Stmt::SCall(callee@, expressions_view(args@)),
        Statement::If { condition, then, else_ } => Stmt::If {
            condition: condition@,
            then: Seq::new(
                then.len() as nat,
                |i: int|
                    if 0 <= i < then.len() {
                        statement_view(then[i])
                    } else {
                        Stmt::Return(None)
                    },
            ),
            else_: Seq::new(
                else_.len() as nat,
                |i: int|
                    if 0 <= i < else_.len() {
                        statement_view(else_[i])
                    } else {
                        Stmt::Return(None)
                    },
            ),
        },
        Statement::Cast(r, name, source, then, else_) => Stmt::Cast(
            r@,
            name,
            source@,
            Seq::new(
                then.len() as nat,
                |i: int|
                    if 0 <= i < then.len() {
                        statement_view(then[i])
                    } else {
                        Stmt::Return(None)
                    },
            ),
            Seq::new(
                else_.len() as nat,
                |i: int|
                    if 0 <= i < else_.len() {
                        statement_view(else_[i])
                    } else {
                        Stmt::Return(None)
                    },
            ),
        ),
        Statement::For { init, condition, update, body } => Stmt::For {
            init: bindings_view(init@),
            condition: match condition {
                Some(c) => Some(c@),
                None => None,
            },
            update: match update {
                Some(u) => Some(Box::new(statement_view(*u))),
                None => None,
            },
            body: Seq::new(
                body.len() as nat,
                |i: int|
                    if 0 <= i < body.len() {
                        statement_view(body[i])
                    } else {
                        Stmt::Return(None)
                    },
            ),
        },
        Statement::While { condition, body } => Stmt::While {
            condition: condition@,
            body: Seq::new(
                body.len() as nat,
                |i: int|
                    if 0 <= i < body.len() {
                        statement_view(body[i])
                    } else {
                        Stmt::Return(None)
                    },
            ),
        },
        Statement::Return(value) => Stmt::Return(
            match value {
                Some(v) => Some(v@),
                None => None,
            },
        ),
    }
}

impl View for Statement {
    type V = Stmt;

    open spec fn view(&self) -> Stmt {
        statement_view(*self)
    }
}

/// The model of a block: the models of its statements, in order.
pub open spec fn block_view(block: Seq<Statement>) -> Seq<Stmt> {
    Seq::new(block.len(), |i: int| block[i]@)
}

/// The model of a field set: its names and the models of their types, in
/// declaration order.
pub open spec fn fields_view(fields: FieldSet) -> Fields {
    Seq::new(fields.keys().len(), |i: int| (fields.keys()[i], fields.values()[i]@))
}

/// The model of a parameter list.
pub open spec fn params_view(params: Seq<(Type, Id)>) -> Seq<(Ty, Id)> {
    Seq::new(params.len(), |i: int| (params[i].0@, params[i].1))
}

impl View for FunctionDecl {
    type V = FunDecl;

    open spec fn view(&self) -> FunDecl {
        FunDecl {
            return_type: self.return_type@,
            name: self.name,
            args: params_view(self.args@),
            body: block_view(self.body@),
        }
    }
}

impl View for Declaration {
    type V = Decl;

    open spec fn view(&self) -> Decl {
        match self {
            Declaration::Variable(g) => Decl::Variable { name: g.name, init: g.init@ },
            Declaration::Function(f) => Decl::Function(f@),
            Declaration::Type(t) => Decl::Type { name: t.name, fields: fields_view(t.fields) },
        }
    }
}

impl View for Program {
    type V = Prog;

    open spec fn view(&self) -> Prog {
        Seq::new(self.declarations@.len(), |i: int| self.declarations@[i]@)
    }
}

/// The type that a unary operator takes, and the type that it gives.
pub open spec fn unary_types(op: UnaryOp) -> (Ty, Ty) {
    match op {
        UnaryOp::Neg | UnaryOp::Bitnot => (Ty::Int, Ty::Int),
        UnaryOp::Lognot => (Ty::Bool, Ty::Bool),
    }
}

/// The types that a binary operator takes and the type that it gives, or
/// `None` for the equality operators, which take any two values of one type.
pub open spec fn binary_types(op: BinaryOp) -> Option<((Ty, Ty), Ty)> {
    match op {
        BinaryOp::Add | BinaryOp::Mul | BinaryOp::Sub | BinaryOp::Shl | BinaryOp::Shr | BinaryOp::Sar
        | BinaryOp::IAnd | BinaryOp::IOr => Some(((Ty::Int, Ty::Int), Ty::Int)),
        BinaryOp::Lt | BinaryOp::Lte | BinaryOp::Gt | BinaryOp::Gte => Some(
            ((Ty::Int, Ty::Int), Ty::Bool),
        ),
        BinaryOp::And | BinaryOp::Or => Some(((Ty::Bool, Ty::Bool), Ty::Bool)),
        BinaryOp::Eq | BinaryOp::Neq => None,
    }
}

impl UnaryOp {
    /// The type that the operator takes, and the type that it gives.
    pub fn op_type(&self) -> (r: (Type, Type))
        ensures
            (r.0@, r.1@) == unary_types(*self),
    {
        match self {
            UnaryOp::Neg | UnaryOp::Bitnot => (Type::Int, Type::Int),
            UnaryOp::Lognot => (Type::Bool, Type::Bool),
        }
    }
}

impl BinaryOp {
    /// The types that the operator takes and the type that it gives, or
    /// `None` for the equality operators.
    pub fn op_type(&self) -> (r: Option<((Type, Type), Type)>)
        ensures
            match r {
                Some(((a, b), out)) => binary_types(*self) == Some(((a@, b@), out@)),
                None => binary_types(*self).is_none(),
            },
    {
        match self {
            BinaryOp::Add | BinaryOp::Mul | BinaryOp::Sub | BinaryOp::Shl | BinaryOp::Shr
            | BinaryOp::Sar | BinaryOp::IAnd | BinaryOp::IOr => Some(
                ((Type::Int, Type::Int), Type::Int),
            ),
            BinaryOp::Lt | BinaryOp::Lte | BinaryOp::Gt | BinaryOp::Gte => Some(
                ((Type::Int, Type::Int), Type::Bool),
            ),
            BinaryOp::And | BinaryOp::Or => Some(((Type::Bool, Type::Bool), Type::Bool)),
            BinaryOp::Eq | BinaryOp::Neq => None,
        }
    }
}

impl Type {
    /// Whether the type admits null.
    pub fn is_nullable(&self) -> (r: bool)
        ensures
            r == (self@ is NullRef),
    {
        match self {
            Type::NullRef(_) => true,
            _ => false,
        }
    }
}

/// Whether two types stand for the same model.
pub fn type_eq(a: &Type, b: &Type) -> (r: bool)
    ensures
        r == (a@ == b@),
    decreases a,
{
    match (a, b) {
        (Type::Bool, Type::Bool) => true,
        (Type::Int, Type::Int) => true,
        (Type::Ref(x), Type::Ref(y)) => reference_eq(x, y),
        (Type::NullRef(x), Type::NullRef(y)) => reference_eq(x, y),
        _ => false,
    }
}

/// Whether two reference types stand for the same model.
pub fn reference_eq(a: &ReferenceType, b: &ReferenceType) -> (r: bool)
    ensures
        r == (a@ == b@),
    decreases a,
{
    match (a, b) {
        (ReferenceType::String, ReferenceType::String) => true,
        (ReferenceType::Struct(x), ReferenceType::Struct(y)) => x.index == y.index,
        (ReferenceType::Array(x), ReferenceType::Array(y)) => type_eq(x, y),
        (ReferenceType::Function(xs, xr), ReferenceType::Function(ys, yr)) => {
            let ghost xv = a@->Function_0;
            let ghost yv = b@->Function_0;
            if xs.len() != ys.len() {
                assert(xv.len() != yv.len());
                return false;
            }
            if !return_eq(xr, yr) {
                return false;
            }
            let mut i: usize = 0;
            while i < xs.len()
                invariant
                    i <= xs.len(),
                    xs.len() == ys.len(),
                    a == ReferenceType::Function(*xs, *xr),
                    a@ == RefTy::Function(xv, Box::new(xr@)),
                    b@ == RefTy::Function(yv, Box::new(yr@)),
                    xr@ == yr@,
                    xv =~= types_view(xs@),
                    yv =~= types_view(ys@),
                    forall|j: int| 0 <= j < i ==> xv[j] == yv[j],
                decreases xs.len() - i,
            {
                assert(a->Function_0 == *xs);
                assert(decreases_to!(a => a->Function_0[i as int]));
                if !type_eq(&xs[i], &ys[i]) {
                    assert(xv[i as int] == xs@[i as int]@);
                    assert(yv[i as int] == ys@[i as int]@);
                    return false;
                }
                i += 1;
            }
            assert(xv =~= yv);
            true
        },
        _ => false,
    }
}

/// Whether two return types stand for the same model.
pub fn return_eq(a: &ReturnType, b: &ReturnType) -> (r: bool)
    ensures
        r == (a@ == b@),
    decreases a,
{
    match (a, b) {
        (ReturnType::ReturnVoid, ReturnType::ReturnVoid) => true,
        (ReturnType::ReturnValue(x), ReturnType::ReturnValue(y)) => type_eq(x, y),
        _ => false,
    }
}

/// A copy of a type.
pub fn clone_type(t: &Type) -> (r: Type)
    ensures
        r@ == t@,
    decreases t,
{
    match t {
        Type::Bool => Type::Bool,
        Type::Int => Type::Int,
        Type::Ref(x) => Type::Ref(clone_reference(x)),
        Type::NullRef(x) => Type::NullRef(clone_reference(x)),
    }
}

/// A copy of a reference type.
pub fn clone_reference(t: &ReferenceType) -> (r: ReferenceType)
    ensures
        r@ == t@,
    decreases t,
{
    match t {
        ReferenceType::String => ReferenceType::String,
        ReferenceType::Struct(id) => ReferenceType::Struct(*id),
        ReferenceType::Array(x) => ReferenceType::Array(Box::new(clone_type(x))),
        ReferenceType::Function(args, ret) => {
            let mut copies: Vec<Type> = Vec::new();
            let mut i: usize = 0;
            while i < args.len()
                invariant
                    i <= args.len(),
                    *t == ReferenceType::Function(*args, *ret),
                    copies@.len() == i,
                    forall|j: int| 0 <= j < i ==> copies@[j]@ == args@[j]@,
                decreases args.len() - i,
            {
                assert(t->Function_0 == *args);
                assert(decreases_to!(t => t->Function_0[i as int]));
                copies.push(clone_type(&args[i]));
                i += 1;
            }
            let r = ReferenceType::Function(copies, Box::new(clone_return(ret)));
            assert(r@->Function_0 =~= t@->Function_0);
            r
        },
    }
}

/// A copy of a return type.
pub fn clone_return(t: &ReturnType) -> (r: ReturnType)
    ensures
        r@ == t@,
    decreases t,
{
    match t {
        ReturnType::ReturnVoid => ReturnType::ReturnVoid,
        ReturnType::ReturnValue(x) => ReturnType::ReturnValue(clone_type(x)),
    }
}

impl PartialEq for Type {
    fn eq(&self, other: &Type) -> (r: bool) {
        type_eq(self, other)
    }
}

impl PartialEqSpecImpl for Type {
    open spec fn obeys_eq_spec() -> bool {
        true
    }

    open spec fn eq_spec(&self, other: &Type) -> bool {
        self@ == other@
    }
}

impl Eq for Type {

}

impl PartialEq for ReferenceType {
    fn eq(&self, other: &ReferenceType) -> (r: bool) {
        reference_eq(self, other)
    }
}

impl PartialEqSpecImpl for ReferenceType {
    open spec fn obeys_eq_spec() -> bool {
        true
    }

    open spec fn eq_spec(&self, other: &ReferenceType) -> bool {
        self@ == other@
    }
}

impl Eq for ReferenceType {

}

impl PartialEq for ReturnType {
    fn eq(&self, other: &ReturnType) -> (r: bool) {
        return_eq(self, other)
    }
}

impl PartialEqSpecImpl for ReturnType {
    open spec fn obeys_eq_spec() -> bool {
        true
    }

    open spec fn eq_spec(&self, other: &ReturnType) -> bool {
        self@ == other@
    }
}

impl Eq for ReturnType {

}

impl Clone for Type {
    fn clone(&self) -> (r: Type)
        ensures
            r@ == self@,
    {
        clone_type(self)
    }
}

impl Clone for ReferenceType {
    fn clone(&self) -> (r: ReferenceType)
        ensures
            r@ == self@,
    {
        clone_reference(self)
    }
}

impl Clone for ReturnType {
    fn clone(&self) -> (r: ReturnType)
        ensures
            r@ == self@,
    {
        clone_return(self)
    }
}

/// A copy of a vector of expressions.
pub fn clone_expressions(es: &Vec<Expression>) -> (r: Vec<Expression>)
    ensures
        expressions_view(r@) == expressions_view(es@),
    decreases es,
{
    let mut copies: Vec<Expression> = Vec::new();
    let mut i: usize = 0;
    while i < es.len()
        invariant
            i <= es.len(),
            copies@.len() == i,
            forall|j: int| 0 <= j < i ==> copies@[j]@ == es@[j]@,
        decreases es.len() - i,
    {
        copies.push(clone_expression(&es[i]));
        i += 1;
    }
    assert(expressions_view(copies@) =~= expressions_view(es@));
    copies
}

/// A copy of an expression.
pub fn clone_expression(e: &Expression) -> (r: Expression)
    ensures
        r@ == e@,
    decreases e,
{
    match e {
        Expression::CNull(rt) => Expression::CNull(clone_reference(rt)),
        Expression::CBool(b) => Expression::CBool(*b),
        Expression::CInt(i) => Expression::CInt(*i),
        Expression::CStr(s) => Expression::CStr(s.clone()),
        Expression::Id(id) => Expression::Id(*id),
        Expression::CArr(t, elements) => {
            assert(e@->CArr_1 =~= expressions_view(elements@));
            let r = Expression::CArr(clone_type(t), clone_expressions(elements));
            assert(r@->CArr_1 =~= e@->CArr_1);
            r
        },
        Expression::NewArr(t, n) => Expression::NewArr(clone_type(t), Box::new(clone_expression(n))),
        Expression::Index { value, index } => Expression::Index {
            value: Box::new(clone_expression(value)),
            index: Box::new(clone_expression(index)),
        },
        Expression::Length(a) => Expression::Length(Box::new(clone_expression(a))),
        Expression::CStruct(name, fields) => {
            let mut copies: Vec<(Id, Expression)> = Vec::new();
            let mut i: usize = 0;
            while i < fields.len()
                invariant
                    i <= fields.len(),
                    *e == Expression::CStruct(*name, *fields),
                    copies@.len() == i,
                    forall|j: int|
                        0 <= j < i ==> copies@[j].0 == fields@[j].0 && copies@[j].1@ == fields@[j].1@,
                decreases fields.len() - i,
            {
                assert(decreases_to!(e => e->CStruct_1[i as int].1));
                copies.push((fields[i].0, clone_expression(&fields[i].1)));
                i += 1;
            }
            let r = Expression::CStruct(*name, copies);
            assert(r@->CStruct_1 =~= e@->CStruct_1);
            r
        },
        Expression::Proj(object, field) => Expression::Proj(Box::new(clone_expression(object)), *field),
        Expression::Call(callee, args) => {
            assert(e@->Call_1 =~= expressions_view(args@));
            let r = Expression::Call(Box::new(clone_expression(callee)), clone_expressions(args));
            assert(r@->Call_1 =~= e@->Call_1);
            r
        },
        Expression::Binary { op, left, right } => Expression::Binary {
            op: *op,
            left: Box::new(clone_expression(left)),
            right: Box::new(clone_expression(right)),
        },
        Expression::Unary(op, operand) => Expression::Unary(*op, Box::new(clone_expression(operand))),
    }
}

impl Clone for Expression {
    fn clone(&self) -> (r: Expression)
        ensures
            r@ == self@,
    {
        clone_expression(self)
    }
}

/// A copy of a block.
pub fn clone_block(block: &Vec<Statement>) -> (r: Vec<Statement>)
    ensures
        block_view(r@) == block_view(block@),
    decreases block,
{
    let mut copies: Vec<Statement> = Vec::new();
    let mut i: usize = 0;
    while i < block.len()
        invariant
            i <= block.len(),
            copies@.len() == i,
            forall|j: int| 0 <= j < i ==> copies@[j]@ == block@[j]@,
        decreases block.len() - i,
    {
        copies.push(clone_statement(&block[i]));
        i += 1;
    }
    assert(block_view(copies@) =~= block_view(block@));
    copies
}

/// A copy of a statement.
pub fn clone_statement(s: &Statement) -> (r: Statement)
    ensures
        r@ == s@,
    decreases s,
{
    match s {
        Statement::Assignment(target, value) => Statement::Assignment(
            clone_expression(target),
            clone_expression(value),
        ),
        Statement::Declaration(name, init) => Statement::Declaration(*name, clone_expression(init)),
        Statement::SCall(callee, args) => Statement::SCall(
            clone_expression(callee),
            clone_expressions(args),
        ),
        Statement::If { condition, then, else_ } => {
            assert(s@->If_then =~= block_view(then@));
            assert(s@->If_else_ =~= block_view(else_@));
            let r = Statement::If {
                condition: clone_expression(condition),
                then: clone_block(then),
                else_: clone_block(else_),
            };
            assert(r@->If_then =~= s@->If_then);
            assert(r@->If_else_ =~= s@->If_else_);
            r
        },
        Statement::Cast(rt, name, source, then, else_) => {
            assert(s@->Cast_3 =~= block_view(then@));
            assert(s@->Cast_4 =~= block_view(else_@));
            let r = Statement::Cast(
                clone_reference(rt),
                *name,
                clone_expression(source),
                clone_block(then),
                clone_block(else_),
            );
            assert(r@->Cast_3 =~= s@->Cast_3);
            assert(r@->Cast_4 =~= s@->Cast_4);
            r
        },
        Statement::For { init, condition, update, body } => {
            assert(s@->For_body =~= block_view(body@));
            let mut bindings: Vec<(Id, Expression)> = Vec::new();
            let mut i: usize = 0;
            while i < init.len()
                invariant
                    i <= init.len(),
                    bindings@.len() == i,
                    forall|j: int|
                        0 <= j < i ==> bindings@[j].0 == init@[j].0 && bindings@[j].1@ == init@[j].1@,
                decreases init.len() - i,
            {
                bindings.push((init[i].0, clone_expression(&init[i].1)));
                i += 1;
            }
            assert(bindings_view(bindings@) =~= bindings_view(init@));
            let r = Statement::For {
                init: bindings,
                condition: match condition {
                    Some(c) => Some(clone_expression(c)),
                    None => None,
                },
                update: match update {
                    Some(u) => Some(Box::new(clone_statement(u))),
                    None => None,
                },
                body: clone_block(body),
            };
            assert(r@->For_body =~= s@->For_body);
            r
        },
        Statement::While { condition, body } => {
            assert(s@->While_body =~= block_view(body@));
            let r = Statement::While { condition: clone_expression(condition), body: clone_block(body) };
            assert(r@->While_body =~= s@->While_body);
            r
        },
        Statement::Return(value) => Statement::Return(
            match value {
                Some(v) => Some(clone_expression(v)),
                None => None,
            },
        ),
    }
}

impl Clone for Statement {
    fn clone(&self) -> (r: Statement)
        ensures
            r@ == self@,
    {
        clone_statement(self)
    }
}

impl From<i64> for Expression {
    fn from(value: i64) -> (e: Expression) {
        Expression::CInt(value)
    }
}

impl FromSpecImpl<i64> for Expression {
    open spec fn obeys_from_spec() -> bool {
        true
    }

    open spec fn from_spec(value: i64) -> Expression {
        Expression::CInt(value)
    }
}

impl From<i32> for Expression {
    fn from(value: i32) -> (e: Expression) {
        Expression::CInt(value as i64)
    }
}

impl FromSpecImpl<i32> for Expression {
    open spec fn obeys_from_spec() -> bool {
        true
    }

    open spec fn from_spec(value: i32) -> Expression {
        Expression::CInt(value as i64)
    }
}

impl From<u32> for Expression {
    fn from(value: u32) -> (e: Expression) {
        Expression::CInt(value as i64)
    }
}

impl FromSpecImpl<u32> for Expression {
    open spec fn obeys_from_spec() -> bool {
        true
    }

    open spec fn from_spec(value: u32) -> Expression {
        Expression::CInt(value as i64)
    }
}

impl From<Id> for Expression {
    fn from(id: Id) -> (e: Expression) {
        Expression::Id(id)
    }
}

impl FromSpecImpl<Id> for Expression {
    open spec fn obeys_from_spec() -> bool {
        true
    }

    open spec fn from_spec(id: Id) -> Expression {
        Expression::Id(id)
    }
}

} // verus!
