//! The code generator: from LLVMLite to x86. It computes what instruction
//! selection states.

use crate::errors::Error;
use crate::layout::{layout_function, Layout};
use crate::llvmlite;
use crate::llvmlite::{
    blocks_view, instructions_view, named_types_view, typed_operands_view, Block, FunctionDecl,
    Gid, GlobalDeclaration, GlobalInitializer, LInit, LType, Label, Runtime, Terminator, Tid, Type,
    TypeContext, Uid,
};
use crate::select::{
    argument_register, binary_opcode, block_code, block_label, call, compiled_condition, epilogue,
    gep, global_label, imm, initializer_data, ins0, ins1, ins2, instructions_code, load, load_both,
    mangle, parameters_code, parts_data, prefix_size, prologue, push_arguments, reg,
    register_arguments, runtime_name, select, slot, step, store, terminator_code, then, walk, Env,
};
use crate::sizeof::sizeof;
use crate::symbol::Interner;
use crate::table::lemma_position;
use crate::typecontext::names;
use crate::x86;
use crate::x86::{
    data_view, decimal_text, quad_text, Asm, AsmBlock, AsmContent, Data, Datum, Imm, Immediate,
    Ins, Instruction, Opcode, Operand, Opnd, Register,
};
use vstd::prelude::*;
use vstd::string::StringExecFns;

verus! {

/// What the code of a function is generated in.
pub struct Context<'a> {
    pub types: &'a TypeContext,
    pub layout: Layout,
    pub interner: &'a Interner,
    pub linux: bool,
    pub function: String,
}

impl<'a> View for Context<'a> {
    type V = Env;

    open spec fn view(&self) -> Env {
        Env {
            types: named_types_view(*self.types),
            frame: self.layout@,
            names: self.interner@,
            linux: self.linux,
            function: self.function@,
        }
    }
}

impl<'a> Context<'a> {
    pub fn new(
        types: &'a TypeContext,
        layout: Layout,
        interner: &'a Interner,
        linux: bool,
        function: String,
    ) -> (c: Context<'a>)
        ensures
            c@ == (Env {
                types: named_types_view(*types),
                frame: layout@,
                names: interner@,
                linux,
                function: function@,
            }),
    {
        Context { types, layout, interner, linux, function }
    }
}

/// The models of code, or the error.
pub open spec fn code_view(r: Result<Vec<Instruction>, Error>) -> Result<Seq<Ins>, Error> {
    match r {
        Ok(c) => Ok(x86::instructions_view(c@)),
        Err(e) => Err(e),
    }
}

/// The model of an instruction, or the error.
pub open spec fn one_view(r: Result<Instruction, Error>) -> Result<Ins, Error> {
    match r {
        Ok(i) => Ok(i@),
        Err(e) => Err(e),
    }
}

/// The text of a label, or the error.
pub open spec fn label_view(r: Result<String, Error>) -> Result<Seq<char>, Error> {
    match r {
        Ok(l) => Ok(l@),
        Err(e) => Err(e),
    }
}

pub fn register(r: Register) -> (o: Operand)
    ensures
        o@ == reg(r),
{
    Operand::Register(r)
}

pub fn literal(i: i64) -> (o: Operand)
    ensures
        o@ == imm(i),
{
    Operand::Immediate(Immediate::Literal(i))
}

/// The slot at `offset` from the frame pointer.
pub fn rbp_offset(offset: i64) -> (o: Operand)
    ensures
        o@ == slot(offset),
{
    Operand::IndDispReg(Immediate::Literal(offset), Register::Rbp)
}

pub fn instruction0(opcode: Opcode) -> (i: Instruction)
    ensures
        i@ == ins0(opcode),
{
    let i = Instruction { opcode, operands: Vec::new() };
    assert(i@.operands =~= Seq::empty());
    i
}

pub fn instruction1(opcode: Opcode, a: Operand) -> (i: Instruction)
    ensures
        i@ == ins1(opcode, a@),
{
    let ghost av = a@;
    let mut operands: Vec<Operand> = Vec::new();
    operands.push(a);
    let i = Instruction { opcode, operands };
    assert(i@.operands =~= seq![av]);
    i
}

pub fn instruction2(opcode: Opcode, a: Operand, b: Operand) -> (i: Instruction)
    ensures
        i@ == ins2(opcode, a@, b@),
{
    let ghost av = a@;
    let ghost bv = b@;
    let mut operands: Vec<Operand> = Vec::new();
    operands.push(a);
    operands.push(b);
    let i = Instruction { opcode, operands };
    assert(i@.operands =~= seq![av, bv]);
    i
}

/// Appends an instruction to code.
pub fn extend(code: Vec<Instruction>, i: Instruction) -> (r: Vec<Instruction>)
    ensures
        x86::instructions_view(r@) == x86::instructions_view(code@).push(i@),
{
    let mut code = code;
    let ghost before = x86::instructions_view(code@);
    let ghost iv = i@;
    code.push(i);
    assert(x86::instructions_view(code@) =~= before.push(iv));
    code
}

/// Appends code to code.
pub fn concat(code: Vec<Instruction>, more: Vec<Instruction>) -> (r: Vec<Instruction>)
    ensures
        x86::instructions_view(r@) == x86::instructions_view(code@) + x86::instructions_view(more@),
{
    let mut code = code;
    let mut more = more;
    let ghost a = x86::instructions_view(code@);
    let ghost b = x86::instructions_view(more@);
    code.append(&mut more);
    assert(x86::instructions_view(code@) =~= a + b);
    code
}

/// No code.
pub fn empty() -> (r: Vec<Instruction>)
    ensures
        x86::instructions_view(r@) == Seq::<Ins>::empty(),
{
    let r: Vec<Instruction> = Vec::new();
    assert(x86::instructions_view(r@) =~= Seq::<Ins>::empty());
    r
}

/// The code, then the instruction, if both are there.
pub fn and_then(code: Result<Vec<Instruction>, Error>, i: Result<Instruction, Error>) -> (r: Result<
    Vec<Instruction>,
    Error,
>)
    ensures
        code_view(r) == then(code_view(code), one_view(i)),
{
    match code {
        Err(e) => Err(e),
        Ok(c) => match i {
            Err(e) => Err(e),
            Ok(i) => Ok(extend(c, i)),
        },
    }
}

/// The name of a function of the runtime.
pub fn runtime_name_of(r: Runtime) -> (name: &'static str)
    ensures
        name@ == runtime_name(r),
{
    match r {
        Runtime::AllocArray => "oat_alloc_array",
        Runtime::Malloc => "oat_malloc",
        Runtime::StringOfInt => "string_of_int",
        Runtime::StringCat => "string_cat",
        Runtime::PrintString => "print_string",
        Runtime::PrintInt => "print_int",
    }
}

/// The label of a global name on the platform.
pub fn mangled(linux: bool, name: &str) -> (label: String)
    ensures
        label@ == mangle(linux, name@),
{
    let mut label = String::new();
    if !linux {
        label.append("_");
    }
    label.append(name);
    assert(label@ =~= mangle(linux, name@));
    label
}

/// The label of a global.
pub fn global_label_of(interner: &Interner, linux: bool, g: Gid) -> (r: Result<String, Error>)
    ensures
        label_view(r) == global_label(interner@, linux, g),
{
    match g {
        Gid::Name(symbol) => match interner.lookup(symbol) {
            Some(name) => Ok(mangled(linux, name)),
            None => Err(Error::UnboundIdentifier(symbol)),
        },
        Gid::Text(k) => {
            let mut name = String::new();
            name.append("oat_str");
            name.append(quad_text(k as i64).as_str());
            assert(name@ =~= "oat_str"@ + decimal_text(k as i64));
            Ok(mangled(linux, name.as_str()))
        },
        Gid::External(r) => Ok(mangled(linux, runtime_name_of(r))),
    }
}

/// The label of a block of a function.
pub fn block_label_of(function: &str, l: Label) -> (label: String)
    ensures
        label@ == block_label(function@, l),
{
    let mut label = String::new();
    label.append(function);
    label.append(".");
    label.append(quad_text(l.index as i64).as_str());
    assert(label@ =~= block_label(function@, l));
    label
}

/// The instruction that brings the value of an operand to `dest`.
pub fn compile_operand(context: &Context<'_>, operand: llvmlite::Operand, dest: Operand) -> (r: Result<
    Instruction,
    Error,
>)
    ensures
        one_view(r) == load(context@, operand, dest@),
{
    match operand {
        llvmlite::Operand::Null => Ok(instruction2(Opcode::Movq, literal(0), dest)),
        llvmlite::Operand::Const(i) => Ok(instruction2(Opcode::Movq, literal(i), dest)),
        llvmlite::Operand::Gid(g) => match global_label_of(context.interner, context.linux, g) {
            Err(e) => Err(e),
            Ok(l) => Ok(
                instruction2(
                    Opcode::Leaq,
                    Operand::IndDispReg(Immediate::Label(l), Register::Rip),
                    dest,
                ),
            ),
        },
        llvmlite::Operand::Id(u) => match context.layout.lookup(u) {
            None => Err(Error::Unplaced(u)),
            Some((offset, address)) => if address {
                Ok(instruction2(Opcode::Leaq, rbp_offset(offset), dest))
            } else {
                Ok(instruction2(Opcode::Movq, rbp_offset(offset), dest))
            },
        },
    }
}

/// The instruction that stores `%rax` in the slot of `uid`.
pub fn compile_store(context: &Context<'_>, uid: Uid) -> (r: Result<Instruction, Error>)
    ensures
        one_view(r) == store(context@, uid),
{
    match context.layout.lookup(uid) {
        None => Err(Error::Unplaced(uid)),
        Some((offset, _)) => Ok(
            instruction2(Opcode::Movq, register(Register::Rax), rbp_offset(offset)),
        ),
    }
}

/// The opcode of a binary operation.
pub fn compile_binary_operator(op: llvmlite::BinaryOperator) -> (r: Opcode)
    ensures
        r == binary_opcode(op),
{
    match op {
        llvmlite::BinaryOperator::Add => Opcode::Addq,
        llvmlite::BinaryOperator::Sub => Opcode::Subq,
        llvmlite::BinaryOperator::Mul => Opcode::Imulq,
        llvmlite::BinaryOperator::Shl => Opcode::Shlq,
        llvmlite::BinaryOperator::Lshr => Opcode::Shrq,
        llvmlite::BinaryOperator::Ashr => Opcode::Sarq,
        llvmlite::BinaryOperator::And => Opcode::Andq,
        llvmlite::BinaryOperator::Or => Opcode::Orq,
        llvmlite::BinaryOperator::Xor => Opcode::Xorq,
    }
}

/// The condition of a comparison.
pub fn compile_condition(cond: llvmlite::Condition) -> (r: x86::Condition)
    ensures
        r == compiled_condition(cond),
{
    match cond {
        llvmlite::Condition::Eq => x86::Condition::Eq,
        llvmlite::Condition::Ne => x86::Condition::Neq,
        llvmlite::Condition::Slt => x86::Condition::Lt,
        llvmlite::Condition::Sle => x86::Condition::Le,
        llvmlite::Condition::Sge => x86::Condition::Ge,
        llvmlite::Condition::Sgt => x86::Condition::Gt,
    }
}

/// The code that brings `a` to `%rax` and `b` to `%rcx`.
pub fn compile_operands(context: &Context<'_>, a: llvmlite::Operand, b: llvmlite::Operand) -> (r: Result<
    Vec<Instruction>,
    Error,
>)
    ensures
        code_view(r) == load_both(context@, a, b),
{
    and_then(
        and_then(Ok(empty()), compile_operand(context, a, register(Register::Rax))),
        compile_operand(context, b, register(Register::Rcx)),
    )
}

/// The sum of the sizes of the first `k` fields, if it fits the machine.
fn prefix_size_of(types: &TypeContext, fields: &Vec<Type>, k: usize) -> (r: Option<usize>)
    requires
        k <= fields@.len(),
    ensures
        match r {
            Some(n) => prefix_size(named_types_view(*types), llvmlite::types_view(fields@), k as nat)
                == Some(n as nat),
            None => match prefix_size(
                named_types_view(*types),
                llvmlite::types_view(fields@),
                k as nat,
            ) {
                Some(n) => n > usize::MAX,
                None => true,
            },
        },
{
    let ghost tv = named_types_view(*types);
    let ghost fv = llvmlite::types_view(fields@);
    let mut total: usize = 0;
    let mut i: usize = 0;
    while i < k
        invariant
            i <= k <= fields@.len(),
            tv == named_types_view(*types),
            fv == llvmlite::types_view(fields@),
            prefix_size(tv, fv, i as nat) == Some(total as nat),
        decreases k - i,
    {
        let size = match sizeof(types, &fields[i]) {
            Some(s) => s,
            None => {
                proof {
                    lemma_prefix_size_grows(tv, fv, (i + 1) as nat, k as nat);
                }
                return None;
            },
        };
        total = match total.checked_add(size) {
            Some(t) => t,
            None => {
                proof {
                    lemma_prefix_size_grows(tv, fv, (i + 1) as nat, k as nat);
                }
                return None;
            },
        };
        i += 1;
    }
    Some(total)
}

/// The sizes of more fields add up to no less, and are defined only if
/// those of fewer are.
pub proof fn lemma_prefix_size_grows(types: Seq<(Tid, LType)>, fields: Seq<LType>, i: nat, k: nat)
    requires
        i <= k,
    ensures
        prefix_size(types, fields, k).is_some() ==> prefix_size(types, fields, i).is_some()
            && prefix_size(types, fields, i).unwrap() <= prefix_size(types, fields, k).unwrap(),
    decreases k - i,
{
    if i < k {
        lemma_prefix_size_grows(types, fields, i, (k - 1) as nat);
    }
}

/// The code that adds to the address in `%rax` what the indices of the
/// path from position `i` on select within a value of type `t`.
fn compile_walk(
    context: &Context<'_>,
    t: &Type,
    path: &Vec<llvmlite::Operand>,
    i: usize,
    code: Vec<Instruction>,
    depth: usize,
) -> (r: Result<Vec<Instruction>, Error>)
    ensures
        code_view(r) == walk(context@, t@, path@, i as nat, x86::instructions_view(code@), depth as nat),
    decreases path@.len() - i, 1nat, depth,
{
    if i >= path.len() {
        return Ok(code);
    }
    match t {
        Type::Struct(fields) => {
            assert(t@->Struct_0 =~= llvmlite::types_view(fields@));
            match path[i] {
                llvmlite::Operand::Const(k) => {
                    if k < 0 || k as u64 >= fields.len() as u64 {
                        return Err(Error::DerefNonPointer);
                    }
                    let index = k as usize;
                    let offset = match prefix_size_of(context.types, fields, index) {
                        Some(o) => o,
                        None => { return Err(Error::Unsized); },
                    };
                    if offset as u64 > 0x7fff_ffff_ffff_ffff {
                        return Err(Error::Unsized);
                    }
                    let code = extend(
                        code,
                        instruction2(
                            Opcode::Leaq,
                            Operand::IndDispReg(Immediate::Literal(offset as i64), Register::Rax),
                            register(Register::Rax),
                        ),
                    );
                    compile_walk(context, &fields[index], path, i + 1, code, context.types.len())
                },
                _ => Err(Error::DerefNonPointer),
            }
        },
        Type::Array(_, element) => compile_step(context, element, path, i, code),
        Type::Namedt(name) => {
            let found = context.types.get_full(*name);
            assert(names(named_types_view(*context.types)) =~= context.types.keys());
            proof {
                lemma_position(context.types.keys(), *name);
            }
            match found {
                None => Err(Error::DerefNonPointer),
                Some((_, u)) => if depth == 0 {
                    Err(Error::DerefNonPointer)
                } else {
                    compile_walk(context, u, path, i, code, depth - 1)
                },
            }
        },
        _ => Err(Error::DerefNonPointer),
    }
}

/// The code that adds to the address in `%rax` the index at position `i`
/// times the size of `element`, and goes on within `element`.
fn compile_step(
    context: &Context<'_>,
    element: &Type,
    path: &Vec<llvmlite::Operand>,
    i: usize,
    code: Vec<Instruction>,
) -> (r: Result<Vec<Instruction>, Error>)
    ensures
        code_view(r) == step(context@, element@, path@, i as nat, x86::instructions_view(code@)),
    decreases path@.len() - i, 0nat, 0nat,
{
    if i >= path.len() {
        return Ok(code);
    }
    let size = match sizeof(context.types, element) {
        Some(s) => s,
        None => { return Err(Error::Unsized); },
    };
    if size as u64 > 0x7fff_ffff_ffff_ffff {
        return Err(Error::Unsized);
    }
    let l = match compile_operand(context, path[i], register(Register::Rcx)) {
        Ok(l) => l,
        Err(e) => { return Err(e); },
    };
    let code = extend(code, l);
    let code = extend(code, instruction2(Opcode::Imulq, literal(size as i64), register(Register::Rcx)));
    let code = extend(
        code,
        instruction2(Opcode::Addq, register(Register::Rcx), register(Register::Rax)),
    );
    compile_walk(context, element, path, i + 1, code, context.types.len())
}

/// Generates code that computes a pointer value.
///
/// * `type_` has to be a pointer type
/// * `op` is the base address of the calculation
pub fn compile_get_element_pointer(
    context: &Context<'_>,
    type_: &Type,
    op: &llvmlite::Operand,
    path: &Vec<llvmlite::Operand>,
) -> (r: Result<Vec<Instruction>, Error>)
    ensures
        code_view(r) == gep(context@, type_@, *op, path@),
{
    match type_ {
        Type::Ptr(pointee) => match compile_operand(context, *op, register(Register::Rax)) {
            Err(e) => Err(e),
            Ok(l) => {
                let code = extend(empty(), l);
                assert(x86::instructions_view(code@) =~= seq![l@]);
                compile_step(context, pointee, path, 0, code)
            },
        },
        _ => Err(Error::DerefNonPointer),
    }
}

/// The register that carries the argument at position `i`, for the first
/// six.
pub fn argument_register_of(i: usize) -> (r: Register)
    ensures
        r == argument_register(i as nat),
{
    if i == 0 {
        Register::Rdi
    } else if i == 1 {
        Register::Rsi
    } else if i == 2 {
        Register::Rdx
    } else if i == 3 {
        Register::Rcx
    } else if i == 4 {
        Register::R08
    } else {
        Register::R09
    }
}

/// The code of a call.
#[verifier::loop_isolation(false)]
pub fn compile_call(context: &Context<'_>, f: llvmlite::Operand, args: &Vec<(Type, llvmlite::Operand)>) -> (r:
    Result<Vec<Instruction>, Error>)
    ensures
        code_view(r) == call(context@, f, typed_operands_view(args@)),
{
    let ghost av = typed_operands_view(args@);
    let n = args.len();
    if n as u64 > 0x0fff_ffff_ffff_ffff {
        return Err(Error::Unsized);
    }
    let count: u64 = if n > 6 {
        (n - 6) as u64
    } else {
        0
    };
    let mut code = empty();
    if count % 2 == 1 {
        code = extend(code, instruction2(Opcode::Subq, literal(8), register(Register::Rsp)));
        assert(x86::instructions_view(code@) =~= seq![ins2(Opcode::Subq, imm(8), reg(Register::Rsp))]);
    }
    let ghost padding = x86::instructions_view(code@);
    let mut i: usize = n;
    while i > 6
        invariant
            i <= n,
            n == args@.len(),
            av == typed_operands_view(args@),
            push_arguments(context@, av, n as nat, padding) == push_arguments(
                context@,
                av,
                i as nat,
                x86::instructions_view(code@),
            ),
        decreases i,
    {
        let l = match compile_operand(context, args[i - 1].1, register(Register::Rax)) {
            Ok(l) => l,
            Err(e) => { return Err(e); },
        };
        code = extend(code, l);
        code = extend(code, instruction1(Opcode::Pushq, register(Register::Rax)));
        i -= 1;
    }
    let ghost pushed = x86::instructions_view(code@);
    let mut j: usize = 0;
    while j < 6 && j < n
        invariant
            j <= 6,
            n == args@.len(),
            av == typed_operands_view(args@),
            register_arguments(context@, av, 0, pushed) == register_arguments(
                context@,
                av,
                j as nat,
                x86::instructions_view(code@),
            ),
        decreases 6 - j,
    {
        let l = match compile_operand(context, args[j].1, register(argument_register_of(j))) {
            Ok(l) => l,
            Err(e) => { return Err(e); },
        };
        code = extend(code, l);
        j += 1;
    }
    match f {
        llvmlite::Operand::Gid(g) => match global_label_of(context.interner, context.linux, g) {
            Err(e) => { return Err(e); },
            Ok(l) => {
                code = extend(
                    code,
                    instruction1(Opcode::Callq, Operand::Immediate(Immediate::Label(l))),
                );
            },
        },
        _ => match compile_operand(context, f, register(Register::Rax)) {
            Err(e) => { return Err(e); },
            Ok(l) => {
                code = extend(code, l);
                code = extend(code, instruction1(Opcode::Callq, register(Register::Rax)));
            },
        },
    }
    let bytes: u64 = 8 * (count + count % 2);
    if bytes > 0 {
        code = extend(code, instruction2(Opcode::Addq, literal(bytes as i64), register(Register::Rsp)));
    }
    Ok(code)
}

/// The code of an instruction that defines `uid`.
pub fn compile_instruction(context: &Context<'_>, uid: Uid, ins: &llvmlite::Instruction) -> (r: Result<
    Vec<Instruction>,
    Error,
>)
    ensures
        code_view(r) == select(context@, uid, ins@),
{
    match ins {
        llvmlite::Instruction::Binop(op, _, a, b) => and_then(
            and_then(
                compile_operands(context, *a, *b),
                Ok(
                    instruction2(
                        compile_binary_operator(*op),
                        register(Register::Rcx),
                        register(Register::Rax),
                    ),
                ),
            ),
            compile_store(context, uid),
        ),
        llvmlite::Instruction::Alloca(_) => Ok(empty()),
        llvmlite::Instruction::Load(_, p) => and_then(
            and_then(
                and_then(
                    and_then(Ok(empty()), compile_operand(context, *p, register(Register::Rax))),
                    Ok(
                        instruction2(
                            Opcode::Movq,
                            Operand::IndReg(Register::Rax),
                            register(Register::Rcx),
                        ),
                    ),
                ),
                Ok(instruction2(Opcode::Movq, register(Register::Rcx), register(Register::Rax))),
            ),
            compile_store(context, uid),
        ),
        llvmlite::Instruction::Store(_, v, p) => and_then(
            compile_operands(context, *v, *p),
            Ok(instruction2(Opcode::Movq, register(Register::Rax), Operand::IndReg(Register::Rcx))),
        ),
        llvmlite::Instruction::Icmp(c, _, a, b) => and_then(
            and_then(
                and_then(
                    and_then(
                        compile_operands(context, *a, *b),
                        Ok(instruction2(Opcode::Cmpq, register(Register::Rcx), register(Register::Rax))),
                    ),
                    Ok(instruction1(Opcode::Setb(compile_condition(*c)), register(Register::Rax))),
                ),
                Ok(instruction2(Opcode::Andq, literal(1), register(Register::Rax))),
            ),
            compile_store(context, uid),
        ),
        llvmlite::Instruction::Call(_, f, args) => and_then(
            compile_call(context, *f, args),
            compile_store(context, uid),
        ),
        llvmlite::Instruction::Bitcast(_, v, _) => and_then(
            and_then(Ok(empty()), compile_operand(context, *v, register(Register::Rax))),
            compile_store(context, uid),
        ),
        llvmlite::Instruction::Gep(t, base, path) => and_then(
            compile_get_element_pointer(context, t, base, path),
            compile_store(context, uid),
        ),
    }
}

/// The code that leaves a function.
pub fn compile_epilogue(code: Vec<Instruction>) -> (r: Vec<Instruction>)
    ensures
        x86::instructions_view(r@) == x86::instructions_view(code@) + epilogue(),
{
    let ghost before = x86::instructions_view(code@);
    let code = extend(code, instruction2(Opcode::Movq, register(Register::Rbp), register(Register::Rsp)));
    let code = extend(code, instruction1(Opcode::Popq, register(Register::Rbp)));
    let code = extend(code, instruction0(Opcode::Retq));
    assert(x86::instructions_view(code@) =~= before + epilogue());
    code
}

/// A jump of the kind `opcode` to the block `l` of the function.
fn jump(context: &Context<'_>, opcode: Opcode, l: Label) -> (i: Instruction)
    ensures
        i@ == ins1(opcode, Opnd::Immediate(Imm::Label(block_label(context@.function, l)))),
{
    instruction1(
        opcode,
        Operand::Immediate(Immediate::Label(block_label_of(context.function.as_str(), l))),
    )
}

/// The code of a terminator.
pub fn compile_terminator(context: &Context<'_>, t: &Terminator) -> (r: Result<Vec<Instruction>, Error>)
    ensures
        code_view(r) == terminator_code(context@, t@),
{
    match t {
        Terminator::Ret(_, None) => {
            let code = compile_epilogue(empty());
            assert(x86::instructions_view(code@) =~= epilogue());
            Ok(code)
        },
        Terminator::Ret(_, Some(v)) => match compile_operand(context, *v, register(Register::Rax)) {
            Err(e) => Err(e),
            Ok(l) => {
                let ghost lv = l@;
                let code = extend(empty(), l);
                assert(x86::instructions_view(code@) =~= seq![lv]);
                Ok(compile_epilogue(code))
            },
        },
        Terminator::Break(l) => {
            let j = jump(context, Opcode::Jmp, *l);
            let ghost jv = j@;
            let code = extend(empty(), j);
            assert(x86::instructions_view(code@) =~= seq![jv]);
            Ok(code)
        },
        Terminator::CondBreak(c, l1, l2) => match compile_operand(context, *c, register(Register::Rax)) {
            Err(e) => Err(e),
            Ok(l) => {
                let ghost lv = l@;
                let code = extend(empty(), l);
                let code = extend(code, instruction2(Opcode::Cmpq, literal(0), register(Register::Rax)));
                let code = extend(code, jump(context, Opcode::J(x86::Condition::Neq), *l1));
                let code = extend(code, jump(context, Opcode::Jmp, *l2));
                assert(x86::instructions_view(code@) =~= seq![
                    lv,
                    ins2(Opcode::Cmpq, imm(0), reg(Register::Rax)),
                    ins1(
                        Opcode::J(x86::Condition::Neq),
                        Opnd::Immediate(Imm::Label(block_label(context@.function, *l1))),
                    ),
                    ins1(
                        Opcode::Jmp,
                        Opnd::Immediate(Imm::Label(block_label(context@.function, *l2))),
                    ),
                ]);
                Ok(code)
            },
        },
    }
}

/// The code of a block, after the code `code`.
#[verifier::loop_isolation(false)]
pub fn compile_block(context: &Context<'_>, block: &Block, code: Vec<Instruction>) -> (r: Result<
    Vec<Instruction>,
    Error,
>)
    ensures
        code_view(r) == block_code(context@, block@, x86::instructions_view(code@)),
{
    let ghost iv = instructions_view(block.instructions@);
    let ghost start = x86::instructions_view(code@);
    let mut code = code;
    let mut i: usize = 0;
    while i < block.instructions.len()
        invariant
            i <= block.instructions.len(),
            iv == instructions_view(block.instructions@),
            instructions_code(context@, iv, 0, start) == instructions_code(
                context@,
                iv,
                i as nat,
                x86::instructions_view(code@),
            ),
        decreases block.instructions.len() - i,
    {
        match compile_instruction(context, block.instructions[i].0, &block.instructions[i].1) {
            Err(e) => { return Err(e); },
            Ok(c) => {
                code = concat(code, c);
            },
        }
        i += 1;
    }
    match compile_terminator(context, &block.terminator.1) {
        Err(e) => Err(e),
        Ok(t) => Ok(concat(code, t)),
    }
}

/// The code that enters a function.
pub fn compile_prologue(bytes: i64) -> (r: Vec<Instruction>)
    ensures
        x86::instructions_view(r@) == prologue(bytes),
{
    let code = extend(empty(), instruction1(Opcode::Pushq, register(Register::Rbp)));
    let code = extend(code, instruction2(Opcode::Movq, register(Register::Rsp), register(Register::Rbp)));
    let code = extend(code, instruction2(Opcode::Subq, literal(bytes), register(Register::Rsp)));
    assert(x86::instructions_view(code@) =~= prologue(bytes));
    code
}

/// The code that brings the parameters to their slots, after the code
/// `code`.
#[verifier::loop_isolation(false)]
pub fn compile_parameters(context: &Context<'_>, parameters: &Vec<Uid>, code: Vec<Instruction>) -> (r:
    Result<Vec<Instruction>, Error>)
    ensures
        code_view(r) == parameters_code(context@, parameters@, 0, x86::instructions_view(code@)),
{
    let ghost start = x86::instructions_view(code@);
    let mut code = code;
    let mut i: usize = 0;
    while i < parameters.len()
        invariant
            i <= parameters.len(),
            parameters_code(context@, parameters@, 0, start) == parameters_code(
                context@,
                parameters@,
                i as nat,
                x86::instructions_view(code@),
            ),
        decreases parameters.len() - i,
    {
        if i as u64 > 0x0fff_ffff_ffff_ffff {
            return Err(Error::Unsized);
        }
        let offset = match context.layout.lookup(parameters[i]) {
            Some((offset, _)) => offset,
            None => { return Err(Error::Unplaced(parameters[i])); },
        };
        if i < 6 {
            code = extend(
                code,
                instruction2(Opcode::Movq, register(argument_register_of(i)), rbp_offset(offset)),
            );
        } else {
            let above: i64 = 16 + 8 * ((i - 6) as i64);
            code = extend(
                code,
                instruction2(Opcode::Movq, rbp_offset(above), register(Register::Rax)),
            );
            code = extend(
                code,
                instruction2(Opcode::Movq, register(Register::Rax), rbp_offset(offset)),
            );
        }
        i += 1;
    }
    Ok(code)
}

/// The models of a list of blocks.
pub open spec fn blocks_model(blocks: Seq<AsmBlock>) -> Seq<Asm> {
    Seq::new(blocks.len(), |i: int| blocks[i]@)
}

/// The blocks as models, or the error.
pub open spec fn blocks_result(r: Result<Vec<AsmBlock>, Error>) -> Result<Seq<Asm>, Error> {
    match r {
        Ok(b) => Ok(blocks_model(b@)),
        Err(e) => Err(e),
    }
}

/// Appends a block to blocks.
fn with_block(blocks: Vec<AsmBlock>, b: AsmBlock) -> (r: Vec<AsmBlock>)
    ensures
        blocks_model(r@) == blocks_model(blocks@).push(b@),
{
    let mut blocks = blocks;
    let ghost before = blocks_model(blocks@);
    let ghost bv = b@;
    blocks.push(b);
    assert(blocks_model(blocks@) =~= before.push(bv));
    blocks
}

/// A copy of a text.
fn copy_text(s: &String) -> (r: String)
    ensures
        r@ == s@,
{
    s.clone()
}

/// The blocks of a function, after the blocks `acc`: the block with which
/// it starts, which carries the label of the function and begins with the
/// prologue, then one for each labelled block, in order.
#[verifier::loop_isolation(false)]
pub fn compile_function_declaration(
    types: &TypeContext,
    interner: &Interner,
    linux: bool,
    g: Gid,
    decl: &FunctionDecl,
    acc: Vec<AsmBlock>,
) -> (r: Result<Vec<AsmBlock>, Error>)
    ensures
        blocks_result(r) == crate::select::function_asm(
            named_types_view(*types),
            interner@,
            linux,
            g,
            decl@,
            blocks_model(acc@),
        ),
{
    let label = match global_label_of(interner, linux, g) {
        Ok(l) => l,
        Err(e) => { return Err(e); },
    };
    let layout = match layout_function(types, decl) {
        Ok(l) => l,
        Err(e) => { return Err(e); },
    };
    let tmpsize: i64 = 8 * (layout.count as i64);
    let context = Context::new(types, layout, interner, linux, copy_text(&label));
    let ghost env = context@;
    assert(crate::select::function_env(named_types_view(*types), interner@, linux, g, decl@) == Ok::<
        Env,
        Error,
    >(env));
    let code = match compile_parameters(&context, &decl.parameters, compile_prologue(tmpsize)) {
        Ok(c) => c,
        Err(e) => { return Err(e); },
    };
    let code = match compile_block(&context, &decl.cfg.entry, code) {
        Ok(c) => c,
        Err(e) => { return Err(e); },
    };
    let first = AsmBlock { label, global: true, content: AsmContent::Text(code) };
    let ghost start = blocks_model(acc@).push(first@);
    let mut blocks = with_block(acc, first);
    let ghost labelled = blocks_view(decl.cfg.blocks);
    let n = decl.cfg.blocks.len();
    let mut i: usize = 0;
    while i < n
        invariant
            i <= n,
            n == labelled.len(),
            decl.cfg.blocks.wf(),
            crate::select::blocks_asm(env, labelled, 0, start) == crate::select::blocks_asm(
                env,
                labelled,
                i as nat,
                blocks_model(blocks@),
            ),
        decreases n - i,
    {
        match decl.cfg.blocks.get_index(i) {
            Some((l, b)) => {
                let code = match compile_block(&context, b, empty()) {
                    Ok(c) => c,
                    Err(e) => { return Err(e); },
                };
                blocks = with_block(
                    blocks,
                    AsmBlock {
                        label: block_label_of(context.function.as_str(), l),
                        global: false,
                        content: AsmContent::Text(code),
                    },
                );
            },
            None => {},
        }
        i += 1;
    }
    Ok(blocks)
}

/// The data as models, or the error.
pub open spec fn data_result(r: Result<Vec<Data>, Error>) -> Result<Seq<Datum>, Error> {
    match r {
        Ok(d) => Ok(data_view(d@)),
        Err(e) => Err(e),
    }
}

/// Appends a datum to data.
fn with_datum(data: Vec<Data>, d: Data) -> (r: Vec<Data>)
    ensures
        data_view(r@) == data_view(data@).push(d@),
{
    let mut data = data;
    let ghost before = data_view(data@);
    let ghost dv = d@;
    data.push(d);
    assert(data_view(data@) =~= before.push(dv));
    data
}

/// The data of an initializer, after the data `acc`.
pub fn compile_initializer(
    interner: &Interner,
    linux: bool,
    initializer: &GlobalInitializer,
    acc: Vec<Data>,
) -> (r: Result<Vec<Data>, Error>)
    ensures
        data_result(r) == initializer_data(interner@, linux, initializer@, data_view(acc@)),
    decreases initializer, 1nat,
{
    match initializer {
        GlobalInitializer::Null => Ok(with_datum(acc, Data::Quad(Immediate::Literal(0)))),
        GlobalInitializer::Int(i) => Ok(with_datum(acc, Data::Quad(Immediate::Literal(*i)))),
        GlobalInitializer::Gid(g) => match global_label_of(interner, linux, *g) {
            Err(e) => Err(e),
            Ok(l) => Ok(with_datum(acc, Data::Quad(Immediate::Label(l)))),
        },
        GlobalInitializer::String(s) => Ok(with_datum(acc, Data::Asciz(copy_text(s)))),
        GlobalInitializer::Array(parts) => {
            assert(initializer@->Array_0 =~= parts_view(parts@));
            compile_parts(interner, linux, parts, acc)
        },
        GlobalInitializer::Struct(parts) => {
            assert(initializer@->Struct_0 =~= parts_view(parts@));
            compile_parts(interner, linux, parts, acc)
        },
        GlobalInitializer::Bitcast(_, inner, _) => compile_initializer(interner, linux, inner, acc),
    }
}

/// The models of the parts of an initializer.
pub open spec fn parts_view(parts: Seq<(Type, GlobalInitializer)>) -> Seq<(LType, LInit)> {
    Seq::new(parts.len(), |i: int| (parts[i].0@, parts[i].1@))
}

/// The data of the parts of an initializer, in order, after the data
/// `acc`.
pub fn compile_parts(
    interner: &Interner,
    linux: bool,
    parts: &Vec<(Type, GlobalInitializer)>,
    acc: Vec<Data>,
) -> (r: Result<Vec<Data>, Error>)
    ensures
        data_result(r) == parts_data(interner@, linux, parts_view(parts@), 0, data_view(acc@)),
    decreases parts, 0nat,
{
    let ghost pv = parts_view(parts@);
    let ghost start = data_view(acc@);
    let mut data = acc;
    let mut i: usize = 0;
    while i < parts.len()
        invariant
            i <= parts.len(),
            pv == parts_view(parts@),
            start == data_view(acc@),
            parts_data(interner@, linux, pv, 0, start) == parts_data(
                interner@,
                linux,
                pv,
                i as nat,
                data_view(data@),
            ),
        decreases parts.len() - i,
    {
        match compile_initializer(interner, linux, &parts[i].1, data) {
            Err(e) => { return Err(e); },
            Ok(d) => {
                data = d;
            },
        }
        i += 1;
    }
    Ok(data)
}

/// The block of a global: its data, under its label.
pub fn compile_global_declaration(interner: &Interner, linux: bool, g: Gid, decl: &GlobalDeclaration) -> (r:
    Result<AsmBlock, Error>)
    ensures
        match r {
            Ok(b) => crate::select::data_asm(interner@, linux, g, decl.1@) == Ok::<Asm, Error>(b@),
            Err(e) => crate::select::data_asm(interner@, linux, g, decl.1@) == Err::<Asm, Error>(e),
        },
{
    let label = match global_label_of(interner, linux, g) {
        Ok(l) => l,
        Err(e) => { return Err(e); },
    };
    let start: Vec<Data> = Vec::new();
    assert(data_view(start@) =~= Seq::empty());
    match compile_initializer(interner, linux, &decl.1, start) {
        Err(e) => Err(e),
        Ok(data) => Ok(AsmBlock { label, global: true, content: AsmContent::Data(data) }),
    }
}

/// The program as a model, or the error.
pub open spec fn program_result(r: Result<x86::Program, Error>) -> Result<Seq<Asm>, Error> {
    match r {
        Ok(p) => Ok(p@),
        Err(e) => Err(e),
    }
}

/// Generates the code of a program: the blocks of its globals, then those
/// of its functions, each in the order of the program. On Linux the labels
/// of globals are their names, and elsewhere their names after an
/// underscore.
#[verifier::loop_isolation(false)]
pub fn compile_program(interner: &Interner, linux: bool, program: &llvmlite::Program) -> (r: Result<
    x86::Program,
    Error,
>)
    ensures
        program_result(r) == crate::select::program_asm(interner@, linux, program@),
        r matches Ok(p) ==> x86::program_writable(p@),
{
    let ghost globals = program@.globals;
    let mut blocks: Vec<AsmBlock> = Vec::new();
    assert(blocks_model(blocks@) =~= Seq::empty());
    let mut i: usize = 0;
    while i < program.globals.len()
        invariant
            i <= program.globals.len(),
            crate::select::globals_asm(interner@, linux, globals, 0, Seq::empty())
                == crate::select::globals_asm(
                interner@,
                linux,
                globals,
                i as nat,
                blocks_model(blocks@),
            ),
        decreases program.globals.len() - i,
    {
        match compile_global_declaration(interner, linux, program.globals[i].0, &program.globals[i].1) {
            Err(e) => { return Err(e); },
            Ok(b) => {
                blocks = with_block(blocks, b);
            },
        }
        i += 1;
    }
    let ghost data = blocks_model(blocks@);
    let ghost functions = program@.functions;
    let ghost types = named_types_view(program.types);
    let mut j: usize = 0;
    while j < program.functions.len()
        invariant
            j <= program.functions.len(),
            crate::select::functions_asm(types, interner@, linux, functions, 0, data)
                == crate::select::functions_asm(
                types,
                interner@,
                linux,
                functions,
                j as nat,
                blocks_model(blocks@),
            ),
        decreases program.functions.len() - j,
    {
        match compile_function_declaration(
            &program.types,
            interner,
            linux,
            program.functions[j].0,
            &program.functions[j].1,
            blocks,
        ) {
            Err(e) => { return Err(e); },
            Ok(b) => {
                blocks = b;
            },
        }
        j += 1;
    }
    let p = x86::Program { blocks };
    assert(p@ =~= blocks_model(p.blocks@));
    proof {
        crate::select::lemma_program_writable(interner@, linux, program@);
    }
    Ok(p)
}

} // verus!
