//! Instruction selection: what each instruction of LLVMLite becomes in
//! x86, stated over the models.
//!
//! Every value lives in its slot of the frame. An instruction loads its
//! operands into the scratch registers `%rax` and `%rcx`, works on them,
//! and stores the result in the slot of the identifier that it defines.

use crate::errors::Error;
use crate::layout::Frame;
use crate::llvmlite::{
    BinaryOperator, Condition, Gid, LBlock, LFunction, LInit, LInstruction, LProgram, LTerminator,
    LType, Label, Operand, Runtime, Tid, Uid,
};
use crate::sizeof::{named, sizeof_spec};
use crate::x86;
use crate::x86::{decimal_text, Asm, Content, Datum, Imm, Ins, Opcode, Opnd, Register};
use vstd::prelude::*;

verus! {

/// What code generation works in: the named types, the frame of the
/// function, the interned names, the naming of the platform, and the label
/// of the function.
pub struct Env {
    pub types: Seq<(Tid, LType)>,
    pub frame: Frame,
    pub names: Seq<Seq<char>>,
    pub linux: bool,
    pub function: Seq<char>,
}

/// The name of a function of the runtime.
pub open spec fn runtime_name(r: Runtime) -> Seq<char> {
    match r {
        Runtime::AllocArray => "oat_alloc_array"@,
        Runtime::Malloc => "oat_malloc"@,
        Runtime::StringOfInt => "string_of_int"@,
        Runtime::StringCat => "string_cat"@,
        Runtime::PrintString => "print_string"@,
        Runtime::PrintInt => "print_int"@,
    }
}

/// The label of a global name on the platform: the name itself on Linux,
/// and the name after an underscore elsewhere.
pub open spec fn mangle(linux: bool, name: Seq<char>) -> Seq<char> {
    if linux {
        name
    } else {
        "_"@ + name
    }
}

/// The label of a global.
pub open spec fn global_label(names: Seq<Seq<char>>, linux: bool, g: Gid) -> Result<Seq<char>, Error> {
    match g {
        Gid::Name(symbol) => if symbol.index < names.len() {
            Ok(mangle(linux, names[symbol.index as int]))
        } else {
            Err(Error::UnboundIdentifier(symbol))
        },
        Gid::Text(k) => Ok(mangle(linux, "oat_str"@ + decimal_text(k as i64))),
        Gid::External(r) => Ok(mangle(linux, runtime_name(r))),
    }
}

/// The label of a block of a function: the label of the function, a dot,
/// and the number of the block.
pub open spec fn block_label(function: Seq<char>, l: Label) -> Seq<char> {
    function + "."@ + decimal_text(l.index as i64)
}

pub open spec fn reg(r: Register) -> Opnd {
    Opnd::Register(r)
}

pub open spec fn imm(i: i64) -> Opnd {
    Opnd::Immediate(Imm::Literal(i))
}

/// The slot at an offset from the frame pointer.
pub open spec fn slot(offset: i64) -> Opnd {
    Opnd::IndDispReg(Imm::Literal(offset), Register::Rbp)
}

pub open spec fn ins0(opcode: Opcode) -> Ins {
    Ins { opcode, operands: Seq::empty() }
}

pub open spec fn ins1(opcode: Opcode, a: Opnd) -> Ins {
    Ins { opcode, operands: seq![a] }
}

pub open spec fn ins2(opcode: Opcode, a: Opnd, b: Opnd) -> Ins {
    Ins { opcode, operands: seq![a, b] }
}

/// The instruction that brings the value of an operand to `dest`.
pub open spec fn load(env: Env, op: Operand, dest: Opnd) -> Result<Ins, Error> {
    match op {
        Operand::Null => Ok(ins2(Opcode::Movq, imm(0), dest)),
        Operand::Const(i) => Ok(ins2(Opcode::Movq, imm(i), dest)),
        Operand::Gid(g) => match global_label(env.names, env.linux, g) {
            Err(e) => Err(e),
            Ok(l) => Ok(
                ins2(Opcode::Leaq, Opnd::IndDispReg(Imm::Label(l), Register::Rip), dest),
            ),
        },
        Operand::Id(u) => if !env.frame.places.contains_key(u) {
            Err(Error::Unplaced(u))
        } else {
            let (offset, address) = env.frame.places[u];
            if address {
                Ok(ins2(Opcode::Leaq, slot(offset), dest))
            } else {
                Ok(ins2(Opcode::Movq, slot(offset), dest))
            }
        },
    }
}

/// The instruction that stores `%rax` in the slot of `uid`.
pub open spec fn store(env: Env, uid: Uid) -> Result<Ins, Error> {
    if !env.frame.places.contains_key(uid) {
        Err(Error::Unplaced(uid))
    } else {
        Ok(ins2(Opcode::Movq, reg(Register::Rax), slot(env.frame.places[uid].0)))
    }
}

/// The code `code`, then the instruction `r`, if there is one.
pub open spec fn then(code: Result<Seq<Ins>, Error>, r: Result<Ins, Error>) -> Result<Seq<Ins>, Error> {
    match code {
        Err(e) => Err(e),
        Ok(c) => match r {
            Err(e) => Err(e),
            Ok(i) => Ok(c.push(i)),
        },
    }
}

/// The opcode of a binary operation.
pub open spec fn binary_opcode(op: BinaryOperator) -> Opcode {
    match op {
        BinaryOperator::Add => Opcode::Addq,
        BinaryOperator::Sub => Opcode::Subq,
        BinaryOperator::Mul => Opcode::Imulq,
        BinaryOperator::Shl => Opcode::Shlq,
        BinaryOperator::Lshr => Opcode::Shrq,
        BinaryOperator::Ashr => Opcode::Sarq,
        BinaryOperator::And => Opcode::Andq,
        BinaryOperator::Or => Opcode::Orq,
        BinaryOperator::Xor => Opcode::Xorq,
    }
}

/// The condition of a comparison.
pub open spec fn compiled_condition(c: Condition) -> x86::Condition {
    match c {
        Condition::Eq => x86::Condition::Eq,
        Condition::Ne => x86::Condition::Neq,
        Condition::Slt => x86::Condition::Lt,
        Condition::Sle => x86::Condition::Le,
        Condition::Sgt => x86::Condition::Gt,
        Condition::Sge => x86::Condition::Ge,
    }
}

/// The code that brings `a` to `%rax` and `b` to `%rcx`.
pub open spec fn load_both(env: Env, a: Operand, b: Operand) -> Result<Seq<Ins>, Error> {
    then(then(Ok(Seq::empty()), load(env, a, reg(Register::Rax))), load(env, b, reg(Register::Rcx)))
}

/// The sum of the sizes of the first `k` fields.
pub open spec fn prefix_size(types: Seq<(Tid, LType)>, fields: Seq<LType>, k: nat) -> Option<nat>
    decreases k,
{
    if k == 0 {
        Some(0)
    } else if k > fields.len() {
        None
    } else {
        match prefix_size(types, fields, (k - 1) as nat) {
            None => None,
            Some(before) => match sizeof_spec(types, fields[k - 1]) {
                None => None,
                Some(s) => Some(before + s),
            },
        }
    }
}

/// The code that adds to the address in `%rax` what the indices of the
/// path from position `i` on select within a value of type `t`, after the
/// code `code`. An index into a struct has to be a constant, and adds the
/// sizes of the fields before it; an index into an array adds as many
/// times the size of an element. At most `depth` names are resolved
/// before an index is taken.
pub open spec fn walk(env: Env, t: LType, path: Seq<Operand>, i: nat, code: Seq<Ins>, depth: nat) -> Result<
    Seq<Ins>,
    Error,
>
    decreases path.len() - i, 1nat, depth,
{
    if i >= path.len() {
        Ok(code)
    } else {
        match t {
            LType::Struct(fields) => match path[i as int] {
                Operand::Const(k) => if 0 <= k < fields.len() {
                    match prefix_size(env.types, fields, k as nat) {
                        None => Err(Error::Unsized),
                        Some(offset) => if offset > i64::MAX || offset > usize::MAX {
                            Err(Error::Unsized)
                        } else {
                            walk(
                                env,
                                fields[k as int],
                                path,
                                i + 1,
                                code.push(
                                    ins2(
                                        Opcode::Leaq,
                                        Opnd::IndDispReg(Imm::Literal(offset as i64), Register::Rax),
                                        reg(Register::Rax),
                                    ),
                                ),
                                env.types.len(),
                            )
                        },
                    }
                } else {
                    Err(Error::DerefNonPointer)
                },
                _ => Err(Error::DerefNonPointer),
            },
            LType::Array(_, element) => step(env, *element, path, i, code),
            LType::Namedt(name) => match named(env.types, name) {
                None => Err(Error::DerefNonPointer),
                Some(u) => if depth == 0 {
                    Err(Error::DerefNonPointer)
                } else {
                    walk(env, u, path, i, code, (depth - 1) as nat)
                },
            },
            _ => Err(Error::DerefNonPointer),
        }
    }
}

/// The code that adds to the address in `%rax` the index at position `i`
/// times the size of `element`, and goes on within `element`.
pub open spec fn step(env: Env, element: LType, path: Seq<Operand>, i: nat, code: Seq<Ins>) -> Result<
    Seq<Ins>,
    Error,
>
    decreases path.len() - i, 0nat, 0nat,
{
    if i >= path.len() {
        Ok(code)
    } else {
        match sizeof_spec(env.types, element) {
            None => Err(Error::Unsized),
            Some(size) => if size > i64::MAX || size > usize::MAX {
                Err(Error::Unsized)
            } else {
                match load(env, path[i as int], reg(Register::Rcx)) {
                    Err(e) => Err(e),
                    Ok(l) => walk(
                        env,
                        element,
                        path,
                        i + 1,
                        code.push(l).push(ins2(Opcode::Imulq, imm(size as i64), reg(Register::Rcx))).push(
                            ins2(Opcode::Addq, reg(Register::Rcx), reg(Register::Rax)),
                        ),
                        env.types.len(),
                    ),
                }
            },
        }
    }
}

/// The code of `getelementptr`: the address of the base, and what the path
/// adds to it. The base has to be a pointer, and the first index counts
/// values of the type that it points to.
pub open spec fn gep(env: Env, t: LType, base: Operand, path: Seq<Operand>) -> Result<Seq<Ins>, Error> {
    match t {
        LType::Ptr(pointee) => match load(env, base, reg(Register::Rax)) {
            Err(e) => Err(e),
            Ok(l) => step(env, *pointee, path, 0, seq![l]),
        },
        _ => Err(Error::DerefNonPointer),
    }
}

/// The registers that carry the first six arguments of a call.
pub open spec fn argument_register(i: nat) -> Register {
    if i == 0 {
        Register::Rdi
    } else if i == 1 {
        Register::Rsi
    } else if i == 2 {
        Register::Rdx
    } else if i == 3 {
        Register::Rcx
    } else if i == 4 {
        Register::R08
    } else {
        Register::R09
    }
}

/// The code that pushes the arguments from position `i - 1` down to
/// position six, after the code `code`.
pub open spec fn push_arguments(env: Env, args: Seq<(LType, Operand)>, i: nat, code: Seq<Ins>) -> Result<
    Seq<Ins>,
    Error,
>
    decreases i,
{
    if i <= 6 || i > args.len() {
        Ok(code)
    } else {
        match load(env, args[i - 1].1, reg(Register::Rax)) {
            Err(e) => Err(e),
            Ok(l) => push_arguments(
                env,
                args,
                (i - 1) as nat,
                code.push(l).push(ins1(Opcode::Pushq, reg(Register::Rax))),
            ),
        }
    }
}

/// The code that brings the arguments from position `i` up to position
/// five to their registers, after the code `code`.
pub open spec fn register_arguments(env: Env, args: Seq<(LType, Operand)>, i: nat, code: Seq<Ins>) -> Result<
    Seq<Ins>,
    Error,
>
    decreases args.len() - i,
{
    if i >= 6 || i >= args.len() {
        Ok(code)
    } else {
        match load(env, args[i as int].1, reg(argument_register(i))) {
            Err(e) => Err(e),
            Ok(l) => register_arguments(env, args, i + 1, code.push(l)),
        }
    }
}

/// The number of arguments that a call passes on the stack.
pub open spec fn spilled(args: nat) -> nat {
    if args > 6 {
        (args - 6) as nat
    } else {
        0
    }
}

/// The bytes that a call puts on the stack: eight for each argument
/// passed there, and eight more where their number is odd, which keeps
/// the stack aligned to sixteen bytes.
pub open spec fn stack_bytes(args: nat) -> nat {
    8 * (spilled(args) + spilled(args) % 2)
}

/// The target of a call.
pub open spec fn call_target(env: Env, f: Operand, code: Seq<Ins>) -> Result<Seq<Ins>, Error> {
    match f {
        Operand::Gid(g) => match global_label(env.names, env.linux, g) {
            Err(e) => Err(e),
            Ok(l) => Ok(code.push(ins1(Opcode::Callq, Opnd::Immediate(Imm::Label(l))))),
        },
        _ => match load(env, f, reg(Register::Rax)) {
            Err(e) => Err(e),
            Ok(l) => Ok(code.push(l).push(ins1(Opcode::Callq, reg(Register::Rax)))),
        },
    }
}

/// The code of a call: the stack is padded where that keeps it aligned,
/// the arguments after the sixth are pushed from the right, the first six
/// go to their registers, the function is called, and the stack is
/// restored.
pub open spec fn call(env: Env, f: Operand, args: Seq<(LType, Operand)>) -> Result<Seq<Ins>, Error> {
    if args.len() > 0x0fff_ffff_ffff_ffff {
        Err(Error::Unsized)
    } else {
        let padding = if spilled(args.len()) % 2 == 1 {
            seq![ins2(Opcode::Subq, imm(8), reg(Register::Rsp))]
        } else {
            Seq::empty()
        };
        match push_arguments(env, args, args.len(), padding) {
            Err(e) => Err(e),
            Ok(pushed) => match register_arguments(env, args, 0, pushed) {
                Err(e) => Err(e),
                Ok(ready) => match call_target(env, f, ready) {
                    Err(e) => Err(e),
                    Ok(called) => if stack_bytes(args.len()) > 0 {
                        Ok(
                            called.push(
                                ins2(
                                    Opcode::Addq,
                                    imm(stack_bytes(args.len()) as i64),
                                    reg(Register::Rsp),
                                ),
                            ),
                        )
                    } else {
                        Ok(called)
                    },
                },
            },
        }
    }
}

/// The code of an instruction that defines `uid`.
pub open spec fn select(env: Env, uid: Uid, ins: LInstruction) -> Result<Seq<Ins>, Error> {
    match ins {
        LInstruction::Binop(op, _, a, b) => then(
            then(
                load_both(env, a, b),
                Ok(ins2(binary_opcode(op), reg(Register::Rcx), reg(Register::Rax))),
            ),
            store(env, uid),
        ),
        LInstruction::Alloca(_) => Ok(Seq::empty()),
        LInstruction::Load(_, p) => then(
            then(
                then(
                    then(Ok(Seq::empty()), load(env, p, reg(Register::Rax))),
                    Ok(ins2(Opcode::Movq, Opnd::IndReg(Register::Rax), reg(Register::Rcx))),
                ),
                Ok(ins2(Opcode::Movq, reg(Register::Rcx), reg(Register::Rax))),
            ),
            store(env, uid),
        ),
        LInstruction::Store(_, v, p) => then(
            load_both(env, v, p),
            Ok(ins2(Opcode::Movq, reg(Register::Rax), Opnd::IndReg(Register::Rcx))),
        ),
        LInstruction::Icmp(c, _, a, b) => then(
            then(
                then(
                    then(load_both(env, a, b), Ok(ins2(Opcode::Cmpq, reg(Register::Rcx), reg(Register::Rax)))),
                    Ok(ins1(Opcode::Setb(compiled_condition(c)), reg(Register::Rax))),
                ),
                Ok(ins2(Opcode::Andq, imm(1), reg(Register::Rax))),
            ),
            store(env, uid),
        ),
        LInstruction::Call(_, f, args) => then(call(env, f, args), store(env, uid)),
        LInstruction::Bitcast(_, v, _) => then(
            then(Ok(Seq::empty()), load(env, v, reg(Register::Rax))),
            store(env, uid),
        ),
        LInstruction::Gep(t, base, path) => then(gep(env, t, base, path), store(env, uid)),
    }
}

/// The code that leaves a function: the stack pointer and the frame
/// pointer of the caller are restored, and control returns.
pub open spec fn epilogue() -> Seq<Ins> {
    seq![
        ins2(Opcode::Movq, reg(Register::Rbp), reg(Register::Rsp)),
        ins1(Opcode::Popq, reg(Register::Rbp)),
        ins0(Opcode::Retq),
    ]
}

/// The code of a terminator.
pub open spec fn terminator_code(env: Env, t: LTerminator) -> Result<Seq<Ins>, Error> {
    match t {
        LTerminator::Ret(_, None) => Ok(epilogue()),
        LTerminator::Ret(_, Some(v)) => match load(env, v, reg(Register::Rax)) {
            Err(e) => Err(e),
            Ok(l) => Ok(seq![l] + epilogue()),
        },
        LTerminator::Break(l) => Ok(
            seq![ins1(Opcode::Jmp, Opnd::Immediate(Imm::Label(block_label(env.function, l))))],
        ),
        LTerminator::CondBreak(c, l1, l2) => match load(env, c, reg(Register::Rax)) {
            Err(e) => Err(e),
            Ok(l) => Ok(
                seq![
                    l,
                    ins2(Opcode::Cmpq, imm(0), reg(Register::Rax)),
                    ins1(
                        Opcode::J(x86::Condition::Neq),
                        Opnd::Immediate(Imm::Label(block_label(env.function, l1))),
                    ),
                    ins1(Opcode::Jmp, Opnd::Immediate(Imm::Label(block_label(env.function, l2)))),
                ],
            ),
        },
    }
}

/// The code of the instructions from position `i` on, after the code
/// `code`.
pub open spec fn instructions_code(
    env: Env,
    instructions: Seq<(Uid, LInstruction)>,
    i: nat,
    code: Seq<Ins>,
) -> Result<Seq<Ins>, Error>
    decreases instructions.len() - i,
{
    if i >= instructions.len() {
        Ok(code)
    } else {
        match select(env, instructions[i as int].0, instructions[i as int].1) {
            Err(e) => Err(e),
            Ok(c) => instructions_code(env, instructions, i + 1, code + c),
        }
    }
}

/// The code of a block after the code `code`: that of its instructions,
/// then that of its terminator.
pub open spec fn block_code(env: Env, b: LBlock, code: Seq<Ins>) -> Result<Seq<Ins>, Error> {
    match instructions_code(env, b.instructions, 0, code) {
        Err(e) => Err(e),
        Ok(c) => match terminator_code(env, b.terminator.1) {
            Err(e) => Err(e),
            Ok(t) => Ok(c + t),
        },
    }
}

/// The code that enters a function: the frame pointer of the caller is
/// saved, the frame pointer is set, and the frame is made.
pub open spec fn prologue(bytes: i64) -> Seq<Ins> {
    seq![
        ins1(Opcode::Pushq, reg(Register::Rbp)),
        ins2(Opcode::Movq, reg(Register::Rsp), reg(Register::Rbp)),
        ins2(Opcode::Subq, imm(bytes), reg(Register::Rsp)),
    ]
}

/// The code that brings the parameters from position `i` on to their
/// slots: the first six come in registers, and the others lie above the
/// frame, where the caller pushed them.
pub open spec fn parameters_code(env: Env, parameters: Seq<Uid>, i: nat, code: Seq<Ins>) -> Result<
    Seq<Ins>,
    Error,
>
    decreases parameters.len() - i,
{
    if i >= parameters.len() {
        Ok(code)
    } else if i > 0x0fff_ffff_ffff_ffff {
        Err(Error::Unsized)
    } else if !env.frame.places.contains_key(parameters[i as int]) {
        Err(Error::Unplaced(parameters[i as int]))
    } else {
        let home = slot(env.frame.places[parameters[i as int]].0);
        if i < 6 {
            parameters_code(
                env,
                parameters,
                i + 1,
                code.push(ins2(Opcode::Movq, reg(argument_register(i)), home)),
            )
        } else {
            parameters_code(
                env,
                parameters,
                i + 1,
                code.push(ins2(Opcode::Movq, slot((16 + 8 * (i - 6)) as i64), reg(Register::Rax))).push(
                    ins2(Opcode::Movq, reg(Register::Rax), home),
                ),
            )
        }
    }
}

/// The data of an initializer, after the data `acc`: a quad word for a
/// number, an address or null, the text of a string, and the data of the
/// parts of an array or struct, in order.
pub open spec fn initializer_data(names: Seq<Seq<char>>, linux: bool, init: LInit, acc: Seq<Datum>) -> Result<
    Seq<Datum>,
    Error,
>
    decreases init, 0nat,
{
    match init {
        LInit::Null => Ok(acc.push(Datum::Quad(Imm::Literal(0)))),
        LInit::Int(i) => Ok(acc.push(Datum::Quad(Imm::Literal(i)))),
        LInit::Gid(g) => match global_label(names, linux, g) {
            Err(e) => Err(e),
            Ok(l) => Ok(acc.push(Datum::Quad(Imm::Label(l)))),
        },
        LInit::String(s) => Ok(acc.push(Datum::Asciz(s))),
        LInit::Array(parts) => parts_data(names, linux, parts, 0, acc),
        LInit::Struct(parts) => parts_data(names, linux, parts, 0, acc),
        LInit::Bitcast(_, inner, _) => initializer_data(names, linux, *inner, acc),
    }
}

/// The data of the parts from position `i` on, after the data `acc`.
pub open spec fn parts_data(
    names: Seq<Seq<char>>,
    linux: bool,
    parts: Seq<(LType, LInit)>,
    i: nat,
    acc: Seq<Datum>,
) -> Result<Seq<Datum>, Error>
    decreases parts, parts.len() - i,
{
    if i >= parts.len() {
        Ok(acc)
    } else {
        match initializer_data(names, linux, parts[i as int].1, acc) {
            Err(e) => Err(e),
            Ok(more) => parts_data(names, linux, parts, i + 1, more),
        }
    }
}

/// The block with which a function starts: under the label of the
/// function, the prologue, the code that brings the parameters to their
/// slots, and the code of the entry block.
pub open spec fn entry_asm(env: Env, f: LFunction) -> Result<Asm, Error> {
    match parameters_code(env, f.parameters, 0, prologue((8 * env.frame.count) as i64)) {
        Err(e) => Err(e),
        Ok(code) => match block_code(env, f.cfg.entry, code) {
            Err(e) => Err(e),
            Ok(all) => Ok(Asm { label: env.function, global: true, content: Content::Text(all) }),
        },
    }
}

/// The blocks of the labelled blocks from position `i` on, after the
/// blocks `acc`.
pub open spec fn blocks_asm(env: Env, blocks: Seq<(Label, LBlock)>, i: nat, acc: Seq<Asm>) -> Result<
    Seq<Asm>,
    Error,
>
    decreases blocks.len() - i,
{
    if i >= blocks.len() {
        Ok(acc)
    } else {
        match block_code(env, blocks[i as int].1, Seq::empty()) {
            Err(e) => Err(e),
            Ok(code) => blocks_asm(
                env,
                blocks,
                i + 1,
                acc.push(
                    Asm {
                        label: block_label(env.function, blocks[i as int].0),
                        global: false,
                        content: Content::Text(code),
                    },
                ),
            ),
        }
    }
}

/// What a function is generated in.
pub open spec fn function_env(
    types: Seq<(Tid, LType)>,
    names: Seq<Seq<char>>,
    linux: bool,
    g: Gid,
    f: LFunction,
) -> Result<Env, Error> {
    match global_label(names, linux, g) {
        Err(e) => Err(e),
        Ok(function) => match crate::layout::frame_of(types, f) {
            Err(e) => Err(e),
            Ok(frame) => Ok(Env { types, frame, names, linux, function }),
        },
    }
}

/// The blocks of a function, after the blocks `acc`: the block with which
/// it starts, then one for each labelled block, in order.
pub open spec fn function_asm(
    types: Seq<(Tid, LType)>,
    names: Seq<Seq<char>>,
    linux: bool,
    g: Gid,
    f: LFunction,
    acc: Seq<Asm>,
) -> Result<Seq<Asm>, Error> {
    match function_env(types, names, linux, g, f) {
        Err(e) => Err(e),
        Ok(env) => match entry_asm(env, f) {
            Err(e) => Err(e),
            Ok(first) => blocks_asm(env, f.cfg.blocks, 0, acc.push(first)),
        },
    }
}

/// The block of a global: its data, under its label.
pub open spec fn data_asm(names: Seq<Seq<char>>, linux: bool, g: Gid, init: LInit) -> Result<Asm, Error> {
    match global_label(names, linux, g) {
        Err(e) => Err(e),
        Ok(label) => match initializer_data(names, linux, init, Seq::empty()) {
            Err(e) => Err(e),
            Ok(data) => Ok(Asm { label, global: true, content: Content::Data(data) }),
        },
    }
}

/// The blocks of the globals from position `i` on, after the blocks `acc`.
pub open spec fn globals_asm(
    names: Seq<Seq<char>>,
    linux: bool,
    globals: Seq<(Gid, (LType, LInit))>,
    i: nat,
    acc: Seq<Asm>,
) -> Result<Seq<Asm>, Error>
    decreases globals.len() - i,
{
    if i >= globals.len() {
        Ok(acc)
    } else {
        match data_asm(names, linux, globals[i as int].0, globals[i as int].1.1) {
            Err(e) => Err(e),
            Ok(b) => globals_asm(names, linux, globals, i + 1, acc.push(b)),
        }
    }
}

/// The blocks of the functions from position `i` on, after the blocks
/// `acc`.
pub open spec fn functions_asm(
    types: Seq<(Tid, LType)>,
    names: Seq<Seq<char>>,
    linux: bool,
    functions: Seq<(Gid, LFunction)>,
    i: nat,
    acc: Seq<Asm>,
) -> Result<Seq<Asm>, Error>
    decreases functions.len() - i,
{
    if i >= functions.len() {
        Ok(acc)
    } else {
        match function_asm(types, names, linux, functions[i as int].0, functions[i as int].1, acc) {
            Err(e) => Err(e),
            Ok(more) => functions_asm(types, names, linux, functions, i + 1, more),
        }
    }
}

/// The blocks of a program: those of its globals, then those of its
/// functions, each in the order of the program.
pub open spec fn program_asm(names: Seq<Seq<char>>, linux: bool, p: LProgram) -> Result<Seq<Asm>, Error> {
    match globals_asm(names, linux, p.globals, 0, Seq::empty()) {
        Err(e) => Err(e),
        Ok(data) => functions_asm(p.types, names, linux, p.functions, 0, data),
    }
}

/// Whether code ends by leaving its block: with a return or a jump.
pub open spec fn leaves(code: Seq<Ins>) -> bool {
    code.len() > 0 && (code.last().opcode == Opcode::Retq || code.last().opcode == Opcode::Jmp)
}

/// The code of a terminator ends by leaving the block.
pub proof fn lemma_terminator_leaves(env: Env, t: LTerminator)
    requires
        terminator_code(env, t).is_ok(),
    ensures
        leaves(terminator_code(env, t).unwrap()),
{
}

/// The code of a block ends by leaving the block: with a return or a jump.
pub proof fn lemma_block_leaves(env: Env, b: LBlock, code: Seq<Ins>)
    requires
        block_code(env, b, code).is_ok(),
    ensures
        leaves(block_code(env, b, code).unwrap()),
{
    lemma_terminator_leaves(env, b.terminator.1);
}

/// Bringing parameters to their slots adds to the code, and keeps what was
/// there.
pub proof fn lemma_parameters_keep(env: Env, parameters: Seq<Uid>, i: nat, code: Seq<Ins>)
    requires
        parameters_code(env, parameters, i, code).is_ok(),
    ensures
        parameters_code(env, parameters, i, code).unwrap().len() >= code.len(),
        parameters_code(env, parameters, i, code).unwrap().subrange(0, code.len() as int) == code,
    decreases parameters.len() - i,
{
    if i >= parameters.len() {
        assert(code.subrange(0, code.len() as int) =~= code);
    } else {
        let home = slot(env.frame.places[parameters[i as int]].0);
        let next = if i < 6 {
            code.push(ins2(Opcode::Movq, reg(argument_register(i)), home))
        } else {
            code.push(ins2(Opcode::Movq, slot((16 + 8 * (i - 6)) as i64), reg(Register::Rax))).push(
                ins2(Opcode::Movq, reg(Register::Rax), home),
            )
        };
        lemma_parameters_keep(env, parameters, i + 1, next);
        let all = parameters_code(env, parameters, i + 1, next).unwrap();
        assert(all.subrange(0, code.len() as int) =~= all.subrange(0, next.len() as int).subrange(
            0,
            code.len() as int,
        ));
        assert(next.subrange(0, code.len() as int) =~= code);
    }
}

/// The code of instructions adds to the code, and keeps what was there.
pub proof fn lemma_instructions_keep(env: Env, instructions: Seq<(Uid, LInstruction)>, i: nat, code: Seq<Ins>)
    requires
        instructions_code(env, instructions, i, code).is_ok(),
    ensures
        instructions_code(env, instructions, i, code).unwrap().len() >= code.len(),
        instructions_code(env, instructions, i, code).unwrap().subrange(0, code.len() as int) == code,
    decreases instructions.len() - i,
{
    if i >= instructions.len() {
        assert(code.subrange(0, code.len() as int) =~= code);
    } else {
        let c = select(env, instructions[i as int].0, instructions[i as int].1).unwrap();
        lemma_instructions_keep(env, instructions, i + 1, code + c);
        let all = instructions_code(env, instructions, i + 1, code + c).unwrap();
        assert(all.subrange(0, code.len() as int) =~= all.subrange(0, (code + c).len() as int).subrange(
            0,
            code.len() as int,
        ));
        assert((code + c).subrange(0, code.len() as int) =~= code);
    }
}

/// The block with which a function starts begins with the prologue, and
/// ends by leaving the block: with a return or a jump.
pub proof fn lemma_entry_begins_and_ends(env: Env, f: LFunction)
    requires
        entry_asm(env, f).is_ok(),
    ensures
        entry_asm(env, f).unwrap().content matches Content::Text(code) && code.len() >= 3
            && code.subrange(0, 3) == prologue((8 * env.frame.count) as i64) && leaves(code),
{
    let start = prologue((8 * env.frame.count) as i64);
    let with_parameters = parameters_code(env, f.parameters, 0, start).unwrap();
    lemma_parameters_keep(env, f.parameters, 0, start);
    lemma_block_leaves(env, f.cfg.entry, with_parameters);
    let body = instructions_code(env, f.cfg.entry.instructions, 0, with_parameters).unwrap();
    lemma_instructions_keep(env, f.cfg.entry.instructions, 0, with_parameters);
    let t = terminator_code(env, f.cfg.entry.terminator.1).unwrap();
    let code = body + t;
    assert(code.subrange(0, 3) =~= body.subrange(0, with_parameters.len() as int).subrange(0, 3));
    assert(with_parameters.subrange(0, 3) =~= with_parameters.subrange(0, start.len() as int));
}

/// Every block made for the labelled blocks of a function ends by leaving
/// the block, if those before them do.
pub proof fn lemma_blocks_leave(env: Env, blocks: Seq<(Label, LBlock)>, i: nat, acc: Seq<Asm>)
    requires
        blocks_asm(env, blocks, i, acc).is_ok(),
        forall|k: int| 0 <= k < acc.len() ==> text_leaves(#[trigger] acc[k]),
    ensures
        forall|k: int|
            0 <= k < blocks_asm(env, blocks, i, acc).unwrap().len() ==> text_leaves(
                #[trigger] blocks_asm(env, blocks, i, acc).unwrap()[k],
            ),
    decreases blocks.len() - i,
{
    if i < blocks.len() {
        lemma_block_leaves(env, blocks[i as int].1, Seq::empty());
        let code = block_code(env, blocks[i as int].1, Seq::empty()).unwrap();
        let b = Asm {
            label: block_label(env.function, blocks[i as int].0),
            global: false,
            content: Content::Text(code),
        };
        lemma_blocks_leave(env, blocks, i + 1, acc.push(b));
    }
}

/// Whether a block of code ends by leaving it. Blocks of data do.
pub open spec fn text_leaves(b: Asm) -> bool {
    match b.content {
        Content::Text(code) => leaves(code),
        Content::Data(_) => true,
    }
}

/// Every block of code that is made for a function ends with a return or
/// a jump, and the first of them begins with the prologue of the function.
pub proof fn lemma_function_blocks(
    types: Seq<(Tid, LType)>,
    names: Seq<Seq<char>>,
    linux: bool,
    g: Gid,
    f: LFunction,
)
    requires
        function_asm(types, names, linux, g, f, Seq::empty()).is_ok(),
    ensures
        ({
            let blocks = function_asm(types, names, linux, g, f, Seq::empty()).unwrap();
            let env = function_env(types, names, linux, g, f).unwrap();
            &&& blocks.len() >= 1
            &&& blocks[0] == entry_asm(env, f).unwrap()
            &&& blocks[0].content matches Content::Text(code) && code.len() >= 3 && code.subrange(0, 3)
                == prologue((8 * env.frame.count) as i64)
            &&& forall|k: int| 0 <= k < blocks.len() ==> text_leaves(#[trigger] blocks[k])
        }),
{
    let env = function_env(types, names, linux, g, f).unwrap();
    let first = entry_asm(env, f).unwrap();
    lemma_entry_begins_and_ends(env, f);
    let start = Seq::<Asm>::empty().push(first);
    assert(text_leaves(start[0]));
    lemma_blocks_leave(env, f.cfg.blocks, 0, start);
    lemma_blocks_keep(env, f.cfg.blocks, 0, start);
}

/// The blocks made for labelled blocks come after those that were there.
pub proof fn lemma_blocks_keep(env: Env, blocks: Seq<(Label, LBlock)>, i: nat, acc: Seq<Asm>)
    requires
        blocks_asm(env, blocks, i, acc).is_ok(),
    ensures
        blocks_asm(env, blocks, i, acc).unwrap().len() >= acc.len(),
        forall|k: int|
            0 <= k < acc.len() ==> blocks_asm(env, blocks, i, acc).unwrap()[k] == #[trigger] acc[k],
    decreases blocks.len() - i,
{
    if i < blocks.len() {
        let code = block_code(env, blocks[i as int].1, Seq::empty()).unwrap();
        let b = Asm {
            label: block_label(env.function, blocks[i as int].0),
            global: false,
            content: Content::Text(code),
        };
        let next = acc.push(b);
        lemma_blocks_keep(env, blocks, i + 1, next);
        let all = blocks_asm(env, blocks, i, acc).unwrap();
        assert forall|k: int| 0 <= k < acc.len() implies all[k] == #[trigger] acc[k] by {
            assert(all[k] == next[k]);
        }
    }
}

/// Whether every instruction of the code can be written.
pub open spec fn all_writable(code: Seq<Ins>) -> bool {
    forall|i: int| 0 <= i < code.len() ==> x86::writable(#[trigger] code[i])
}

/// Code that can be written, followed by an instruction that can, can be
/// written.
pub proof fn lemma_push_writable(code: Seq<Ins>, i: Ins)
    requires
        all_writable(code),
        x86::writable(i),
    ensures
        all_writable(code.push(i)),
{
    assert forall|k: int| 0 <= k < code.push(i).len() implies x86::writable(
        #[trigger] code.push(i)[k],
    ) by {
        if k < code.len() {
            assert(x86::writable(code[k]));
        }
    }
}

/// Code that can be written, followed by code that can, can be written.
pub proof fn lemma_add_writable(a: Seq<Ins>, b: Seq<Ins>)
    requires
        all_writable(a),
        all_writable(b),
    ensures
        all_writable(a + b),
{
    assert forall|k: int| 0 <= k < (a + b).len() implies x86::writable(#[trigger] (a + b)[k]) by {
        if k < a.len() {
            assert(x86::writable(a[k]));
        } else {
            assert(x86::writable(b[k - a.len()]));
        }
    }
}

/// The code that walks a path can be written.
pub proof fn lemma_walk_writable(env: Env, t: LType, path: Seq<Operand>, i: nat, code: Seq<Ins>, depth: nat)
    requires
        walk(env, t, path, i, code, depth) is Ok,
        all_writable(code),
    ensures
        all_writable(walk(env, t, path, i, code, depth)->Ok_0),
    decreases path.len() - i, 1nat, depth,
{
    if i < path.len() {
        match t {
            LType::Struct(fields) => {
                let k = path[i as int]->Const_0;
                let offset = prefix_size(env.types, fields, k as nat)->Some_0;
                let next = code.push(
                    ins2(
                        Opcode::Leaq,
                        Opnd::IndDispReg(Imm::Literal(offset as i64), Register::Rax),
                        reg(Register::Rax),
                    ),
                );
                lemma_push_writable(
                    code,
                    ins2(
                        Opcode::Leaq,
                        Opnd::IndDispReg(Imm::Literal(offset as i64), Register::Rax),
                        reg(Register::Rax),
                    ),
                );
                lemma_walk_writable(env, fields[k as int], path, i + 1, next, env.types.len());
            },
            LType::Array(_, element) => {
                lemma_step_writable(env, *element, path, i, code);
            },
            LType::Namedt(name) => {
                lemma_walk_writable(env, named(env.types, name)->Some_0, path, i, code, (depth - 1) as nat);
            },
            _ => {},
        }
    }
}

/// The code that takes a step of a path can be written.
pub proof fn lemma_step_writable(env: Env, element: LType, path: Seq<Operand>, i: nat, code: Seq<Ins>)
    requires
        step(env, element, path, i, code) is Ok,
        all_writable(code),
    ensures
        all_writable(step(env, element, path, i, code)->Ok_0),
    decreases path.len() - i, 0nat, 0nat,
{
    if i < path.len() {
        let size = sizeof_spec(env.types, element)->Some_0;
        let l = load(env, path[i as int], reg(Register::Rcx))->Ok_0;
        let a = code.push(l);
        let b = a.push(ins2(Opcode::Imulq, imm(size as i64), reg(Register::Rcx)));
        let c = b.push(ins2(Opcode::Addq, reg(Register::Rcx), reg(Register::Rax)));
        lemma_push_writable(code, l);
        lemma_push_writable(a, ins2(Opcode::Imulq, imm(size as i64), reg(Register::Rcx)));
        lemma_push_writable(b, ins2(Opcode::Addq, reg(Register::Rcx), reg(Register::Rax)));
        lemma_walk_writable(env, element, path, i + 1, c, env.types.len());
    }
}

/// The code that pushes arguments can be written.
pub proof fn lemma_pushes_writable(env: Env, args: Seq<(LType, Operand)>, i: nat, code: Seq<Ins>)
    requires
        push_arguments(env, args, i, code) is Ok,
        all_writable(code),
    ensures
        all_writable(push_arguments(env, args, i, code)->Ok_0),
    decreases i,
{
    if !(i <= 6 || i > args.len()) {
        let l = load(env, args[i - 1].1, reg(Register::Rax))->Ok_0;
        let a = code.push(l);
        lemma_push_writable(code, l);
        lemma_push_writable(a, ins1(Opcode::Pushq, reg(Register::Rax)));
        lemma_pushes_writable(
            env,
            args,
            (i - 1) as nat,
            a.push(ins1(Opcode::Pushq, reg(Register::Rax))),
        );
    }
}

/// The code that brings arguments to registers can be written.
pub proof fn lemma_registers_writable(env: Env, args: Seq<(LType, Operand)>, i: nat, code: Seq<Ins>)
    requires
        register_arguments(env, args, i, code) is Ok,
        all_writable(code),
    ensures
        all_writable(register_arguments(env, args, i, code)->Ok_0),
    decreases args.len() - i,
{
    if !(i >= 6 || i >= args.len()) {
        let l = load(env, args[i as int].1, reg(argument_register(i)))->Ok_0;
        lemma_push_writable(code, l);
        lemma_registers_writable(env, args, i + 1, code.push(l));
    }
}

/// The code of a call can be written.
pub proof fn lemma_call_writable(env: Env, f: Operand, args: Seq<(LType, Operand)>)
    requires
        call(env, f, args) is Ok,
    ensures
        all_writable(call(env, f, args)->Ok_0),
{
    let padding = if spilled(args.len()) % 2 == 1 {
        seq![ins2(Opcode::Subq, imm(8), reg(Register::Rsp))]
    } else {
        Seq::empty()
    };
    assert(all_writable(padding));
    lemma_pushes_writable(env, args, args.len(), padding);
    let pushed = push_arguments(env, args, args.len(), padding)->Ok_0;
    lemma_registers_writable(env, args, 0, pushed);
    let ready = register_arguments(env, args, 0, pushed)->Ok_0;
    let called = call_target(env, f, ready)->Ok_0;
    match f {
        Operand::Gid(g) => {
            let l = global_label(env.names, env.linux, g)->Ok_0;
            lemma_push_writable(ready, ins1(Opcode::Callq, Opnd::Immediate(Imm::Label(l))));
        },
        _ => {
            let l = load(env, f, reg(Register::Rax))->Ok_0;
            lemma_push_writable(ready, l);
            lemma_push_writable(ready.push(l), ins1(Opcode::Callq, reg(Register::Rax)));
        },
    }
    if stack_bytes(args.len()) > 0 {
        lemma_push_writable(
            called,
            ins2(Opcode::Addq, imm(stack_bytes(args.len()) as i64), reg(Register::Rsp)),
        );
    }
}

/// The code of an instruction can be written.
pub proof fn lemma_select_writable(env: Env, uid: Uid, ins: LInstruction)
    requires
        select(env, uid, ins) is Ok,
    ensures
        all_writable(select(env, uid, ins)->Ok_0),
{
    let none = Seq::<Ins>::empty();
    assert(all_writable(none));
    match ins {
        LInstruction::Binop(op, _, a, b) => {
            let la = load(env, a, reg(Register::Rax))->Ok_0;
            let lb = load(env, b, reg(Register::Rcx))->Ok_0;
            let o = ins2(binary_opcode(op), reg(Register::Rcx), reg(Register::Rax));
            let st = store(env, uid)->Ok_0;
            lemma_push_writable(none, la);
            lemma_push_writable(none.push(la), lb);
            lemma_push_writable(none.push(la).push(lb), o);
            lemma_push_writable(none.push(la).push(lb).push(o), st);
        },
        LInstruction::Alloca(_) => {},
        LInstruction::Load(_, p) => {
            let lp = load(env, p, reg(Register::Rax))->Ok_0;
            let m1 = ins2(Opcode::Movq, Opnd::IndReg(Register::Rax), reg(Register::Rcx));
            let m2 = ins2(Opcode::Movq, reg(Register::Rcx), reg(Register::Rax));
            let st = store(env, uid)->Ok_0;
            lemma_push_writable(none, lp);
            lemma_push_writable(none.push(lp), m1);
            lemma_push_writable(none.push(lp).push(m1), m2);
            lemma_push_writable(none.push(lp).push(m1).push(m2), st);
        },
        LInstruction::Store(_, v, p) => {
            let la = load(env, v, reg(Register::Rax))->Ok_0;
            let lb = load(env, p, reg(Register::Rcx))->Ok_0;
            let m = ins2(Opcode::Movq, reg(Register::Rax), Opnd::IndReg(Register::Rcx));
            lemma_push_writable(none, la);
            lemma_push_writable(none.push(la), lb);
            lemma_push_writable(none.push(la).push(lb), m);
        },
        LInstruction::Icmp(c, _, a, b) => {
            let la = load(env, a, reg(Register::Rax))->Ok_0;
            let lb = load(env, b, reg(Register::Rcx))->Ok_0;
            let cmp = ins2(Opcode::Cmpq, reg(Register::Rcx), reg(Register::Rax));
            let set = ins1(Opcode::Setb(compiled_condition(c)), reg(Register::Rax));
            let and = ins2(Opcode::Andq, imm(1), reg(Register::Rax));
            let st = store(env, uid)->Ok_0;
            assert(set.operands[0] == reg(Register::Rax));
            lemma_push_writable(none, la);
            lemma_push_writable(none.push(la), lb);
            lemma_push_writable(none.push(la).push(lb), cmp);
            lemma_push_writable(none.push(la).push(lb).push(cmp), set);
            lemma_push_writable(none.push(la).push(lb).push(cmp).push(set), and);
            lemma_push_writable(none.push(la).push(lb).push(cmp).push(set).push(and), st);
        },
        LInstruction::Call(_, f, args) => {
            lemma_call_writable(env, f, args);
            lemma_push_writable(call(env, f, args)->Ok_0, store(env, uid)->Ok_0);
        },
        LInstruction::Bitcast(_, v, _) => {
            let lv = load(env, v, reg(Register::Rax))->Ok_0;
            let st = store(env, uid)->Ok_0;
            lemma_push_writable(none, lv);
            lemma_push_writable(none.push(lv), st);
        },
        LInstruction::Gep(t, base, path) => {
            let l = load(env, base, reg(Register::Rax))->Ok_0;
            assert(all_writable(seq![l])) by {
                assert(seq![l][0] == l);
            }
            lemma_step_writable(env, *t->Ptr_0, path, 0, seq![l]);
            lemma_push_writable(gep(env, t, base, path)->Ok_0, store(env, uid)->Ok_0);
        },
    }
}

/// The code of a terminator can be written.
pub proof fn lemma_terminator_writable(env: Env, t: LTerminator)
    requires
        terminator_code(env, t) is Ok,
    ensures
        all_writable(terminator_code(env, t)->Ok_0),
{
    let code = terminator_code(env, t)->Ok_0;
    assert forall|k: int| 0 <= k < code.len() implies x86::writable(#[trigger] code[k]) by {
        match t {
            LTerminator::Ret(_, None) => {},
            LTerminator::Ret(_, Some(v)) => {},
            LTerminator::Break(l) => {
                assert(code[0].operands.len() == 1);
            },
            LTerminator::CondBreak(c, l1, l2) => {
                assert(code[2].operands.len() == 1);
                assert(code[3].operands.len() == 1);
            },
        }
    }
}

/// The code of instructions can be written.
pub proof fn lemma_instructions_writable(
    env: Env,
    instructions: Seq<(Uid, LInstruction)>,
    i: nat,
    code: Seq<Ins>,
)
    requires
        instructions_code(env, instructions, i, code) is Ok,
        all_writable(code),
    ensures
        all_writable(instructions_code(env, instructions, i, code)->Ok_0),
    decreases instructions.len() - i,
{
    if i < instructions.len() {
        lemma_select_writable(env, instructions[i as int].0, instructions[i as int].1);
        let c = select(env, instructions[i as int].0, instructions[i as int].1)->Ok_0;
        lemma_add_writable(code, c);
        lemma_instructions_writable(env, instructions, i + 1, code + c);
    }
}

/// The code of a block can be written.
pub proof fn lemma_block_writable(env: Env, b: LBlock, code: Seq<Ins>)
    requires
        block_code(env, b, code) is Ok,
        all_writable(code),
    ensures
        all_writable(block_code(env, b, code)->Ok_0),
{
    lemma_instructions_writable(env, b.instructions, 0, code);
    lemma_terminator_writable(env, b.terminator.1);
    lemma_add_writable(
        instructions_code(env, b.instructions, 0, code)->Ok_0,
        terminator_code(env, b.terminator.1)->Ok_0,
    );
}

/// The code that brings parameters to their slots can be written.
pub proof fn lemma_parameters_writable(env: Env, parameters: Seq<Uid>, i: nat, code: Seq<Ins>)
    requires
        parameters_code(env, parameters, i, code) is Ok,
        all_writable(code),
    ensures
        all_writable(parameters_code(env, parameters, i, code)->Ok_0),
    decreases parameters.len() - i,
{
    if i < parameters.len() {
        let home = slot(env.frame.places[parameters[i as int]].0);
        if i < 6 {
            let m = ins2(Opcode::Movq, reg(argument_register(i)), home);
            lemma_push_writable(code, m);
            lemma_parameters_writable(env, parameters, i + 1, code.push(m));
        } else {
            let m1 = ins2(Opcode::Movq, slot((16 + 8 * (i - 6)) as i64), reg(Register::Rax));
            let m2 = ins2(Opcode::Movq, reg(Register::Rax), home);
            lemma_push_writable(code, m1);
            lemma_push_writable(code.push(m1), m2);
            lemma_parameters_writable(env, parameters, i + 1, code.push(m1).push(m2));
        }
    }
}

/// The blocks made for labelled blocks can be written, if those before
/// them can.
pub proof fn lemma_blocks_writable(env: Env, blocks: Seq<(Label, LBlock)>, i: nat, acc: Seq<Asm>)
    requires
        blocks_asm(env, blocks, i, acc) is Ok,
        x86::program_writable(acc),
    ensures
        x86::program_writable(blocks_asm(env, blocks, i, acc)->Ok_0),
    decreases blocks.len() - i,
{
    if i < blocks.len() {
        assert(all_writable(Seq::<Ins>::empty()));
        lemma_block_writable(env, blocks[i as int].1, Seq::empty());
        let code = block_code(env, blocks[i as int].1, Seq::empty())->Ok_0;
        let b = Asm {
            label: block_label(env.function, blocks[i as int].0),
            global: false,
            content: Content::Text(code),
        };
        lemma_with_block_writable(acc, b);
        lemma_blocks_writable(env, blocks, i + 1, acc.push(b));
    }
}

/// Blocks that can be written, followed by a block that can, can be
/// written.
pub proof fn lemma_with_block_writable(acc: Seq<Asm>, b: Asm)
    requires
        x86::program_writable(acc),
        x86::block_writable(b),
    ensures
        x86::program_writable(acc.push(b)),
{
    assert forall|k: int| 0 <= k < acc.push(b).len() implies x86::block_writable(
        #[trigger] acc.push(b)[k],
    ) by {
        if k < acc.len() {
            assert(x86::block_writable(acc[k]));
        }
    }
}

/// The blocks of a function can be written, if those before them can.
pub proof fn lemma_function_writable(
    types: Seq<(Tid, LType)>,
    names: Seq<Seq<char>>,
    linux: bool,
    g: Gid,
    f: LFunction,
    acc: Seq<Asm>,
)
    requires
        function_asm(types, names, linux, g, f, acc) is Ok,
        x86::program_writable(acc),
    ensures
        x86::program_writable(function_asm(types, names, linux, g, f, acc)->Ok_0),
{
    let env = function_env(types, names, linux, g, f)->Ok_0;
    let start = prologue((8 * env.frame.count) as i64);
    assert(all_writable(start)) by {
        assert forall|k: int| 0 <= k < start.len() implies x86::writable(#[trigger] start[k]) by {}
    }
    lemma_parameters_writable(env, f.parameters, 0, start);
    lemma_block_writable(env, f.cfg.entry, parameters_code(env, f.parameters, 0, start)->Ok_0);
    let first = entry_asm(env, f)->Ok_0;
    lemma_with_block_writable(acc, first);
    lemma_blocks_writable(env, f.cfg.blocks, 0, acc.push(first));
}

/// The blocks of functions can be written, if those before them can.
pub proof fn lemma_functions_writable(
    types: Seq<(Tid, LType)>,
    names: Seq<Seq<char>>,
    linux: bool,
    functions: Seq<(Gid, LFunction)>,
    i: nat,
    acc: Seq<Asm>,
)
    requires
        functions_asm(types, names, linux, functions, i, acc) is Ok,
        x86::program_writable(acc),
    ensures
        x86::program_writable(functions_asm(types, names, linux, functions, i, acc)->Ok_0),
    decreases functions.len() - i,
{
    if i < functions.len() {
        lemma_function_writable(types, names, linux, functions[i as int].0, functions[i as int].1, acc);
        lemma_functions_writable(
            types,
            names,
            linux,
            functions,
            i + 1,
            function_asm(types, names, linux, functions[i as int].0, functions[i as int].1, acc)->Ok_0,
        );
    }
}

/// The blocks of globals can be written, if those before them can.
pub proof fn lemma_globals_writable(
    names: Seq<Seq<char>>,
    linux: bool,
    globals: Seq<(Gid, (LType, LInit))>,
    i: nat,
    acc: Seq<Asm>,
)
    requires
        globals_asm(names, linux, globals, i, acc) is Ok,
        x86::program_writable(acc),
    ensures
        x86::program_writable(globals_asm(names, linux, globals, i, acc)->Ok_0),
    decreases globals.len() - i,
{
    if i < globals.len() {
        let b = data_asm(names, linux, globals[i as int].0, globals[i as int].1.1)->Ok_0;
        lemma_with_block_writable(acc, b);
        lemma_globals_writable(names, linux, globals, i + 1, acc.push(b));
    }
}

/// Every instruction of the code that is generated for a program can be
/// written as text.
pub proof fn lemma_program_writable(names: Seq<Seq<char>>, linux: bool, p: LProgram)
    requires
        program_asm(names, linux, p) is Ok,
    ensures
        x86::program_writable(program_asm(names, linux, p)->Ok_0),
{
    assert(x86::program_writable(Seq::<Asm>::empty()));
    lemma_globals_writable(names, linux, p.globals, 0, Seq::empty());
    lemma_functions_writable(
        p.types,
        names,
        linux,
        p.functions,
        0,
        globals_asm(names, linux, p.globals, 0, Seq::empty())->Ok_0,
    );
}

} // verus!
