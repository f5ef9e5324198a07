//! LLVMLite: the intermediate representation, a subset of LLVM.
//!
//! As for the syntax tree, each type of the representation has a model,
//! which is its view: `Type` stands for an `LType`, `Instruction` for an
//! `LInstruction`, and so on.

use crate::symbol::Symbol;
use crate::table::SymbolTable;
use vstd::prelude::*;

verus! {

/// Type identifiers: the names of structs.
pub type Tid = Symbol;

/// Local identifiers. They are numbered within each function.
pub type Uid = Symbol;

/// Labels of blocks. They are numbered within each function.
pub type Label = Symbol;

/// The functions of the runtime that compiled code calls.
#[derive(Debug, Clone, Copy, PartialEq, Eq, Structural, Hash)]
pub enum Runtime {
    /// `oat_alloc_array(i64) -> ptr`
    AllocArray,
    /// `oat_malloc(i64) -> ptr`
    Malloc,
    StringOfInt,
    StringCat,
    PrintString,
    PrintInt,
}

/// Global identifiers.
#[derive(Debug, Clone, Copy, PartialEq, Eq, Structural, Hash)]
pub enum Gid {
    /// A function or a global variable of the program.
    Name(Symbol),
    /// The text of a string literal, numbered within the program.
    Text(u32),
    /// A function of the runtime.
    External(Runtime),
}

/// LLVM types.
#[derive(Debug, PartialEq, Eq)]
pub enum Type {
    Void,
    I1,
    I8,
    I64,
    Ptr(Box<Type>),
    Struct(Vec<Type>),
    Array(usize, Box<Type>),
    Fun(Vec<Type>, Box<Type>),
    Namedt(Tid),
}

/// The type signature of a function.
#[derive(Debug, PartialEq, Eq)]
pub struct FunctionType {
    pub arg_types: Vec<Type>,
    pub ret_type: Type,
}

/// Syntactic values.
#[derive(Debug, Clone, Copy, PartialEq, Eq, Structural)]
pub enum Operand {
    Null,
    Const(i64),
    Gid(Gid),
    Id(Uid),
}

/// Binary i64 operations.
#[derive(Debug, Clone, Copy, PartialEq, Eq, Structural)]
pub enum BinaryOperator {
    Add,
    Sub,
    Mul,
    Shl,
    Lshr,
    Ashr,
    And,
    Or,
    Xor,
}

/// Comparison operators.
#[derive(Debug, Clone, Copy, PartialEq, Eq, Structural)]
pub enum Condition {
    Eq,
    Ne,
    Slt,
    Sle,
    Sgt,
    Sge,
}

/// Non-terminating instructions.
#[derive(Debug, PartialEq, Eq)]
pub enum Instruction {
    Binop(BinaryOperator, Type, Operand, Operand),
    Alloca(Type),
    Load(Type, Operand),
    Store(Type, Operand, Operand),
    Icmp(Condition, Type, Operand, Operand),
    Call(Type, Operand, Vec<(Type, Operand)>),
    Bitcast(Type, Operand, Type),
    Gep(Type, Operand, Vec<Operand>),
}

/// Terminators of a block.
#[derive(Debug, PartialEq, Eq)]
pub enum Terminator {
    Ret(Type, Option<Operand>),
    Break(Label),
    CondBreak(Operand, Label, Label),
}

/// Blocks.
#[derive(Debug, PartialEq, Eq)]
pub struct Block {
    pub instructions: Vec<(Uid, Instruction)>,
    pub terminator: (Uid, Terminator),
}

/// Control flow graphs: an entry block, and the other blocks by their
/// labels, in the order in which they were made.
#[derive(Debug, PartialEq, Eq)]
pub struct ControlFlowGraph {
    pub entry: Block,
    pub blocks: SymbolTable<Block>,
}

/// Function declarations.
#[derive(Debug, PartialEq, Eq)]
pub struct FunctionDecl {
    pub type_signature: FunctionType,
    pub parameters: Vec<Uid>,
    pub cfg: ControlFlowGraph,
}

/// The initializers for a global definition. They are more limited than
/// expressions.
#[derive(Debug, PartialEq, Eq)]
pub enum GlobalInitializer {
    Null,
    Gid(Gid),
    Int(i64),
    String(String),
    Array(Vec<(Type, GlobalInitializer)>),
    Struct(Vec<(Type, GlobalInitializer)>),
    Bitcast(Type, Box<GlobalInitializer>, Type),
}

/// Top-level definitions for values.
#[derive(Debug, PartialEq, Eq)]
pub struct GlobalDeclaration(pub Type, pub GlobalInitializer);

/// The named types of a program.
pub type TypeContext = SymbolTable<Type>;

/// An LLVMLite program. Every part keeps the order of the source.
#[derive(Debug, PartialEq, Eq)]
pub struct Program {
    pub types: TypeContext,
    pub globals: Vec<(Gid, GlobalDeclaration)>,
    pub functions: Vec<(Gid, FunctionDecl)>,
    pub externals: Vec<(Gid, Type)>,
}

/// The model of a `Type`.
pub enum LType {
    Void,
    I1,
    I8,
    I64,
    Ptr(Box<LType>),
    Struct(Seq<LType>),
    Array(nat, Box<LType>),
    Fun(Seq<LType>, Box<LType>),
    Namedt(Tid),
}

/// The model of an `Instruction`.
pub enum LInstruction {
    Binop(BinaryOperator, LType, Operand, Operand),
    Alloca(LType),
    Load(LType, Operand),
    Store(LType, Operand, Operand),
    Icmp(Condition, LType, Operand, Operand),
    Call(LType, Operand, Seq<(LType, Operand)>),
    Bitcast(LType, Operand, LType),
    Gep(LType, Operand, Seq<Operand>),
}

/// The model of a `Terminator`.
pub enum LTerminator {
    Ret(LType, Option<Operand>),
    Break(Label),
    CondBreak(Operand, Label, Label),
}

/// The model of a `Block`.
pub struct LBlock {
    pub instructions: Seq<(Uid, LInstruction)>,
    pub terminator: (Uid, LTerminator),
}

/// The model of a `ControlFlowGraph`.
pub struct LCfg {
    pub entry: LBlock,
    pub blocks: Seq<(Label, LBlock)>,
}

/// The model of a `FunctionDecl`.
pub struct LFunction {
    pub arg_types: Seq<LType>,
    pub ret_type: LType,
    pub parameters: Seq<Uid>,
    pub cfg: LCfg,
}

/// The model of a `GlobalInitializer`.
pub enum LInit {
    Null,
    Gid(Gid),
    Int(i64),
    String(Seq<char>),
    Array(Seq<(LType, LInit)>),
    Struct(Seq<(LType, LInit)>),
    Bitcast(LType, Box<LInit>, LType),
}

/// The model of a `Program`.
pub struct LProgram {
    pub types: Seq<(Tid, LType)>,
    pub globals: Seq<(Gid, (LType, LInit))>,
    pub functions: Seq<(Gid, LFunction)>,
    pub externals: Seq<(Gid, LType)>,
}

pub open spec fn type_view(t: Type) -> LType
    decreases t,
{
    match t {
        Type::Void => LType::Void,
        Type::I1 => LType::I1,
        Type::I8 => LType::I8,
        Type::I64 => LType::I64,
        Type::Ptr(inner) => LType::Ptr(Box::new(type_view(*inner))),
        Type::Struct(fields) => LType::Struct(
            Seq::new(
                fields.len() as nat,
                |i: int|
                    if 0 <= i < fields.len() {
                        type_view(fields[i])
                    } else {
                        LType::Void
                    },
            ),
        ),
        Type::Array(n, element) => LType::Array(n as nat, Box::new(type_view(*element))),
        Type::Fun(args, ret) => LType::Fun(
            Seq::new(
                args.len() as nat,
                |i: int|
                    if 0 <= i < args.len() {
                        type_view(args[i])
                    } else {
                        LType::Void
                    },
            ),
            Box::new(type_view(*ret)),
        ),
        Type::Namedt(name) => LType::Namedt(name),
    }
}

impl View for Type {
    type V = LType;

    open spec fn view(&self) -> LType {
        type_view(*self)
    }
}

/// The models of a vector of types.
pub open spec fn types_view(types: Seq<Type>) -> Seq<LType> {
    Seq::new(types.len(), |i: int| types[i]@)
}

/// The models of a vector of typed operands.
pub open spec fn typed_operands_view(args: Seq<(Type, Operand)>) -> Seq<(LType, Operand)> {
    Seq::new(args.len(), |i: int| (args[i].0@, args[i].1))
}

impl View for Instruction {
    type V = LInstruction;

    open spec fn view(&self) -> LInstruction {
        match self {
            Instruction::Binop(op, t, a, b) => LInstruction::Binop(*op, t@, *a, *b),
            Instruction::Alloca(t) => LInstruction::Alloca(t@),
            Instruction::Load(t, p) => LInstruction::Load(t@, *p),
            Instruction::Store(t, v, p) => LInstruction::Store(t@, *v, *p),
            Instruction::Icmp(c, t, a, b) => LInstruction::Icmp(*c, t@, *a, *b),
            Instruction::Call(t, f, args) => LInstruction::Call(t@, *f, typed_operands_view(args@)),
            Instruction::Bitcast(t, v, u) => LInstruction::Bitcast(t@, *v, u@),
            Instruction::Gep(t, base, path) => LInstruction::Gep(t@, *base, path@),
        }
    }
}

impl View for Terminator {
    type V = LTerminator;

    open spec fn view(&self) -> LTerminator {
        match self {
            Terminator::Ret(t, v) => LTerminator::Ret(t@, *v),
            Terminator::Break(l) => LTerminator::Break(*l),
            Terminator::CondBreak(c, l1, l2) => LTerminator::CondBreak(*c, *l1, *l2),
        }
    }
}

/// The models of a vector of instructions with the identifiers they define.
pub open spec fn instructions_view(instructions: Seq<(Uid, Instruction)>) -> Seq<(Uid, LInstruction)> {
    Seq::new(instructions.len(), |i: int| (instructions[i].0, instructions[i].1@))
}

impl View for Block {
    type V = LBlock;

    open spec fn view(&self) -> LBlock {
        LBlock {
            instructions: instructions_view(self.instructions@),
            terminator: (self.terminator.0, self.terminator.1@),
        }
    }
}

/// The model of a table of blocks.
pub open spec fn blocks_view(blocks: SymbolTable<Block>) -> Seq<(Label, LBlock)> {
    Seq::new(blocks.keys().len(), |i: int| (blocks.keys()[i], blocks.values()[i]@))
}

impl View for ControlFlowGraph {
    type V = LCfg;

    open spec fn view(&self) -> LCfg {
        LCfg { entry: self.entry@, blocks: blocks_view(self.blocks) }
    }
}

impl View for FunctionDecl {
    type V = LFunction;

    open spec fn view(&self) -> LFunction {
        LFunction {
            arg_types: types_view(self.type_signature.arg_types@),
            ret_type: self.type_signature.ret_type@,
            parameters: self.parameters@,
            cfg: self.cfg@,
        }
    }
}

pub open spec fn initializer_view(init: GlobalInitializer) -> LInit
    decreases init,
{
    match init {
        GlobalInitializer::Null => LInit::Null,
        GlobalInitializer::Gid(g) => LInit::Gid(g),
        GlobalInitializer::Int(i) => LInit::Int(i),
        GlobalInitializer::String(s) => LInit::String(s@),
        GlobalInitializer::Array(items) => LInit::Array(
            Seq::new(
                items.len() as nat,
                |i: int|
                    if 0 <= i < items.len() {
                        (items[i].0@, initializer_view(items[i].1))
                    } else {
                        (LType::Void, LInit::Null)
                    },
            ),
        ),
        GlobalInitializer::Struct(items) => LInit::Struct(
            Seq::new(
                items.len() as nat,
                |i: int|
                    if 0 <= i < items.len() {
                        (items[i].0@, initializer_view(items[i].1))
                    } else {
                        (LType::Void, LInit::Null)
                    },
            ),
        ),
        GlobalInitializer::Bitcast(t, inner, u) => LInit::Bitcast(
            t@,
            Box::new(initializer_view(*inner)),
            u@,
        ),
    }
}

impl View for GlobalInitializer {
    type V = LInit;

    open spec fn view(&self) -> LInit {
        initializer_view(*self)
    }
}

/// The model of a table of named types.
pub open spec fn named_types_view(types: TypeContext) -> Seq<(Tid, LType)> {
    Seq::new(types.keys().len(), |i: int| (types.keys()[i], types.values()[i]@))
}

impl View for Program {
    type V = LProgram;

    open spec fn view(&self) -> LProgram {
        LProgram {
            types: named_types_view(self.types),
            globals: Seq::new(
                self.globals@.len(),
                |i: int| (self.globals@[i].0, (self.globals@[i].1.0@, self.globals@[i].1.1@)),
            ),
            functions: Seq::new(
                self.functions@.len(),
                |i: int| (self.functions@[i].0, self.functions@[i].1@),
            ),
            externals: Seq::new(
                self.externals@.len(),
                |i: int| (self.externals@[i].0, self.externals@[i].1@),
            ),
        }
    }
}

/// A copy of a type.
pub fn clone_type(t: &Type) -> (r: Type)
    ensures
        r@ == t@,
    decreases t,
{
    match t {
        Type::Void => Type::Void,
        Type::I1 => Type::I1,
        Type::I8 => Type::I8,
        Type::I64 => Type::I64,
        Type::Ptr(inner) => Type::Ptr(Box::new(clone_type(inner))),
        Type::Struct(fields) => {
            let mut copies: Vec<Type> = Vec::new();
            let mut i: usize = 0;
            while i < fields.len()
                invariant
                    i <= fields.len(),
                    *t == Type::Struct(*fields),
                    copies@.len() == i,
                    forall|j: int| 0 <= j < i ==> copies@[j]@ == fields@[j]@,
                decreases fields.len() - i,
            {
                assert(decreases_to!(t => t->Struct_0[i as int]));
                copies.push(clone_type(&fields[i]));
                i += 1;
            }
            let r = Type::Struct(copies);
            assert(r@->Struct_0 =~= t@->Struct_0);
            r
        },
        Type::Array(n, element) => Type::Array(*n, Box::new(clone_type(element))),
        Type::Fun(args, ret) => {
            let mut copies: Vec<Type> = Vec::new();
            let mut i: usize = 0;
            while i < args.len()
                invariant
                    i <= args.len(),
                    *t == Type::Fun(*args, *ret),
                    copies@.len() == i,
                    forall|j: int| 0 <= j < i ==> copies@[j]@ == args@[j]@,
                decreases args.len() - i,
            {
                assert(decreases_to!(t => t->Fun_0[i as int]));
                copies.push(clone_type(&args[i]));
                i += 1;
            }
            let r = Type::Fun(copies, Box::new(clone_type(ret)));
            assert(r@->Fun_0 =~= t@->Fun_0);
            r
        },
        Type::Namedt(name) => Type::Namedt(*name),
    }
}

/// The type of pointers to `t`.
pub fn pointer_to(t: Type) -> (r: Type)
    ensures
        r@ == LType::Ptr(Box::new(t@)),
{
    let ghost tv = t@;
    let r = Type::Ptr(Box::new(t));
    assert(r@ == LType::Ptr(Box::new(tv)));
    r
}

impl Clone for Type {
    fn clone(&self) -> (r: Type)
        ensures
            r@ == self@,
    {
        clone_type(self)
    }
}

} // verus!
