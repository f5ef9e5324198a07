//! A representation of a subset of x86-64, and its text in AT&T syntax.
//!
//! Each type has a model, which is its view, and the text of a value is
//! stated over the models: `program_text` is the assembly text of a whole
//! program.

use vstd::prelude::*;
use vstd::string::StringExecFns;

verus! {

/// Labels for code and globals.
pub type Label = String;

/// A quad word.
pub type Quad = i64;

#[derive(Debug, Copy, Clone, PartialEq, Eq, Structural)]
pub enum Register {
    /// Instruction pointer
    Rip,
    Rax,
    Rbx,
    Rcx,
    Rdx,
    Rsi,
    Rdi,
    Rbp,
    Rsp,
    R08,
    R09,
    R10,
    R11,
    R12,
    R13,
    R14,
    R15,
}

/// The low byte of a register.
#[derive(Debug, Copy, Clone, PartialEq, Eq, Structural)]
pub struct ByteRegister(pub Register);

/// Immediates.
#[derive(Debug, Clone, PartialEq, Eq)]
pub enum Immediate {
    Literal(Quad),
    Label(Label),
}

#[derive(Debug, Clone, PartialEq, Eq)]
pub enum Operand {
    Immediate(Immediate),
    Register(Register),
    /// Indirect by displacement
    IndDisp(Immediate),
    /// Indirect by register: (%reg)
    IndReg(Register),
    /// Indirect displacement(%reg)
    IndDispReg(Immediate, Register),
}

/// An operand as the byte that a `set` instruction writes.
#[derive(Debug, Clone, PartialEq, Eq)]
pub struct ByteOperand(pub Operand);

/// An operand as the target of a jump or a call.
#[derive(Debug, Clone, PartialEq, Eq)]
pub struct JumpOperand(pub Operand);

#[derive(Debug, Copy, Clone, PartialEq, Eq, Structural)]
pub enum Condition {
    Eq,
    Neq,
    Gt,
    Ge,
    Lt,
    Le,
}

#[derive(Debug, Clone, Copy, PartialEq, Eq, Structural)]
pub enum Opcode {
    Movq,
    Pushq,
    Popq,
    Leaq,
    Incq,
    Decq,
    Negq,
    Notq,
    Addq,
    Subq,
    Imulq,
    Xorq,
    Orq,
    Andq,
    Shlq,
    Sarq,
    Shrq,
    Jmp,
    J(Condition),
    Cmpq,
    Setb(Condition),
    Callq,
    Retq,
}

#[derive(Debug, Clone, PartialEq, Eq)]
pub struct Instruction {
    pub opcode: Opcode,
    pub operands: Vec<Operand>,
}

#[derive(Debug, Clone, PartialEq, Eq)]
pub enum Data {
    Asciz(String),
    Quad(Immediate),
}

#[derive(Debug, Clone, PartialEq, Eq)]
pub enum AsmContent {
    Text(Vec<Instruction>),
    Data(Vec<Data>),
}

#[derive(Debug, Clone, PartialEq, Eq)]
pub struct AsmBlock {
    pub label: Label,
    pub global: bool,
    pub content: AsmContent,
}

#[derive(Debug, Clone, PartialEq, Eq)]
pub struct Program {
    pub blocks: Vec<AsmBlock>,
}

/// The model of an `Immediate`.
pub enum Imm {
    Literal(Quad),
    Label(Seq<char>),
}

/// The model of an `Operand`.
pub enum Opnd {
    Immediate(Imm),
    Register(Register),
    IndDisp(Imm),
    IndReg(Register),
    IndDispReg(Imm, Register),
}

/// The model of an `Instruction`.
pub struct Ins {
    pub opcode: Opcode,
    pub operands: Seq<Opnd>,
}

/// The model of a `Data`.
pub enum Datum {
    Asciz(Seq<char>),
    Quad(Imm),
}

/// The model of an `AsmContent`.
pub enum Content {
    Text(Seq<Ins>),
    Data(Seq<Datum>),
}

/// The model of an `AsmBlock`.
pub struct Asm {
    pub label: Seq<char>,
    pub global: bool,
    pub content: Content,
}

impl View for Immediate {
    type V = Imm;

    open spec fn view(&self) -> Imm {
        match self {
            Immediate::Literal(q) => Imm::Literal(*q),
            Immediate::Label(l) => Imm::Label(l@),
        }
    }
}

impl View for Operand {
    type V = Opnd;

    open spec fn view(&self) -> Opnd {
        match self {
            Operand::Immediate(i) => Opnd::Immediate(i@),
            Operand::Register(r) => Opnd::Register(*r),
            Operand::IndDisp(i) => Opnd::IndDisp(i@),
            Operand::IndReg(r) => Opnd::IndReg(*r),
            Operand::IndDispReg(i, r) => Opnd::IndDispReg(i@, *r),
        }
    }
}

/// The models of a vector of operands.
pub open spec fn operands_view(operands: Seq<Operand>) -> Seq<Opnd> {
    Seq::new(operands.len(), |i: int| operands[i]@)
}

impl View for Instruction {
    type V = Ins;

    open spec fn view(&self) -> Ins {
        Ins { opcode: self.opcode, operands: operands_view(self.operands@) }
    }
}

/// The models of a vector of instructions.
pub open spec fn instructions_view(instructions: Seq<Instruction>) -> Seq<Ins> {
    Seq::new(instructions.len(), |i: int| instructions[i]@)
}

impl View for Data {
    type V = Datum;

    open spec fn view(&self) -> Datum {
        match self {
            Data::Asciz(s) => Datum::Asciz(s@),
            Data::Quad(i) => Datum::Quad(i@),
        }
    }
}

/// The models of a vector of data.
pub open spec fn data_view(data: Seq<Data>) -> Seq<Datum> {
    Seq::new(data.len(), |i: int| data[i]@)
}

impl View for AsmContent {
    type V = Content;

    open spec fn view(&self) -> Content {
        match self {
            AsmContent::Text(instructions) => Content::Text(instructions_view(instructions@)),
            AsmContent::Data(data) => Content::Data(data_view(data@)),
        }
    }
}

impl View for AsmBlock {
    type V = Asm;

    open spec fn view(&self) -> Asm {
        Asm { label: self.label@, global: self.global, content: self.content@ }
    }
}

impl View for Program {
    type V = Seq<Asm>;

    open spec fn view(&self) -> Seq<Asm> {
        Seq::new(self.blocks@.len(), |i: int| self.blocks@[i]@)
    }
}

/// What can be made an operand: quad words, labels, registers, immediates
/// and operands themselves.
pub trait ToOperand: Sized {
    /// The operand that the value stands for.
    spec fn operand(self) -> Opnd;

    fn to_operand(self) -> (o: Operand)
        ensures
            o@ == self.operand(),
    ;
}

impl ToOperand for Quad {
    open spec fn operand(self) -> Opnd {
        Opnd::Immediate(Imm::Literal(self))
    }

    fn to_operand(self) -> (o: Operand) {
        Operand::Immediate(Immediate::Literal(self))
    }
}

impl ToOperand for Label {
    open spec fn operand(self) -> Opnd {
        Opnd::Immediate(Imm::Label(self@))
    }

    fn to_operand(self) -> (o: Operand) {
        Operand::Immediate(Immediate::Label(self))
    }
}

impl ToOperand for Register {
    open spec fn operand(self) -> Opnd {
        Opnd::Register(self)
    }

    fn to_operand(self) -> (o: Operand) {
        Operand::Register(self)
    }
}

impl ToOperand for Immediate {
    open spec fn operand(self) -> Opnd {
        Opnd::Immediate(self@)
    }

    fn to_operand(self) -> (o: Operand) {
        Operand::Immediate(self)
    }
}

impl ToOperand for Operand {
    open spec fn operand(self) -> Opnd {
        self@
    }

    fn to_operand(self) -> (o: Operand) {
        self
    }
}

impl Immediate {
    /// The memory at the address that the immediate gives.
    pub fn displacement(self) -> (o: Operand)
        ensures
            o@ == Opnd::IndDisp(self@),
    {
        Operand::IndDisp(self)
    }
}

impl Register {
    /// The memory at the address in the register, displaced by `i`.
    pub fn indirect(self, i: Immediate) -> (o: Operand)
        ensures
            o@ == Opnd::IndDispReg(i@, self),
    {
        Operand::IndDispReg(i, self)
    }
}

/// `i64::to_string`: the decimal text of a number.
pub uninterp spec fn decimal_text(n: i64) -> Seq<char>;

/// `str::escape_default`: the text with every character that is not
/// printable ASCII, and every quote and backslash, written as an escape.
pub uninterp spec fn escaped_text(s: Seq<char>) -> Seq<char>;

/// `i64::to_string`: the text of a number is a function of the number.
#[verifier::external_body]
pub(crate) fn quad_text(n: i64) -> (text: String)
    ensures
        text@ == decimal_text(n),
{
    n.to_string()
}

/// `str::escape_default`: the escaped text is a function of the text.
#[verifier::external_body]
pub(crate) fn escape_text(s: &str) -> (text: String)
    ensures
        text@ == escaped_text(s@),
{
    s.escape_default().to_string()
}

pub open spec fn register_text(r: Register) -> Seq<char> {
    match r {
        Register::Rip => "%rip"@,
        Register::Rax => "%rax"@,
        Register::Rbx => "%rbx"@,
        Register::Rcx => "%rcx"@,
        Register::Rdx => "%rdx"@,
        Register::Rsi => "%rsi"@,
        Register::Rdi => "%rdi"@,
        Register::Rbp => "%rbp"@,
        Register::Rsp => "%rsp"@,
        Register::R08 => "%r8"@,
        Register::R09 => "%r9"@,
        Register::R10 => "%r10"@,
        Register::R11 => "%r11"@,
        Register::R12 => "%r12"@,
        Register::R13 => "%r13"@,
        Register::R14 => "%r14"@,
        Register::R15 => "%r15"@,
    }
}

/// The name of the low byte of a register. The instruction pointer has
/// none.
pub open spec fn byte_register_text(r: Register) -> Seq<char> {
    match r {
        Register::Rip => Seq::empty(),
        Register::Rax => "%al"@,
        Register::Rbx => "%bl"@,
        Register::Rcx => "%cl"@,
        Register::Rdx => "%dl"@,
        Register::Rsi => "%sil"@,
        Register::Rdi => "%dil"@,
        Register::Rbp => "%bpl"@,
        Register::Rsp => "%spl"@,
        Register::R08 => "%r8b"@,
        Register::R09 => "%r9b"@,
        Register::R10 => "%r10b"@,
        Register::R11 => "%r11b"@,
        Register::R12 => "%r12b"@,
        Register::R13 => "%r13b"@,
        Register::R14 => "%r14b"@,
        Register::R15 => "%r15b"@,
    }
}

pub open spec fn immediate_text(i: Imm) -> Seq<char> {
    match i {
        Imm::Literal(q) => decimal_text(q),
        Imm::Label(l) => l,
    }
}

pub open spec fn operand_text(o: Opnd) -> Seq<char> {
    match o {
        Opnd::Immediate(i) => "$"@ + immediate_text(i),
        Opnd::Register(r) => register_text(r),
        Opnd::IndDisp(i) => immediate_text(i),
        Opnd::IndReg(r) => "("@ + register_text(r) + ")"@,
        Opnd::IndDispReg(i, r) => immediate_text(i) + "("@ + register_text(r) + ")"@,
    }
}

/// The text of an operand of a `set` instruction: a register is named by
/// its low byte.
pub open spec fn byte_operand_text(o: Opnd) -> Seq<char> {
    match o {
        Opnd::Register(r) => byte_register_text(r),
        _ => operand_text(o),
    }
}

/// The text of the target of a jump or call: a label stands for itself,
/// and any other operand is marked with `*` as indirect.
pub open spec fn jump_operand_text(o: Opnd) -> Seq<char> {
    match o {
        Opnd::Immediate(i) => immediate_text(i),
        _ => "*"@ + operand_text(o),
    }
}

pub open spec fn condition_text(c: Condition) -> Seq<char> {
    match c {
        Condition::Eq => "e"@,
        Condition::Neq => "ne"@,
        Condition::Gt => "g"@,
        Condition::Ge => "ge"@,
        Condition::Lt => "l"@,
        Condition::Le => "le"@,
    }
}

pub open spec fn opcode_text(op: Opcode) -> Seq<char> {
    match op {
        Opcode::Movq => "movq"@,
        Opcode::Pushq => "pushq"@,
        Opcode::Popq => "popq"@,
        Opcode::Leaq => "leaq"@,
        Opcode::Incq => "incq"@,
        Opcode::Decq => "decq"@,
        Opcode::Negq => "negq"@,
        Opcode::Notq => "notq"@,
        Opcode::Addq => "addq"@,
        Opcode::Subq => "subq"@,
        Opcode::Imulq => "imulq"@,
        Opcode::Xorq => "xorq"@,
        Opcode::Orq => "orq"@,
        Opcode::Andq => "andq"@,
        Opcode::Shlq => "shlq"@,
        Opcode::Sarq => "sarq"@,
        Opcode::Shrq => "shrq"@,
        Opcode::Jmp => "jmp"@,
        Opcode::J(c) => "j"@ + condition_text(c),
        Opcode::Cmpq => "cmpq"@,
        Opcode::Setb(c) => "set"@ + condition_text(c),
        Opcode::Callq => "callq"@,
        Opcode::Retq => "retq"@,
    }
}

/// The texts of the operands from position `i` on, separated by `, `, after
/// the text `acc`.
pub open spec fn operands_text(operands: Seq<Opnd>, i: nat, acc: Seq<char>) -> Seq<char>
    decreases operands.len() - i,
{
    if i >= operands.len() {
        acc
    } else if i == 0 {
        operands_text(operands, i + 1, acc + operand_text(operands[i as int]))
    } else {
        operands_text(operands, i + 1, acc + ", "@ + operand_text(operands[i as int]))
    }
}

/// Whether an instruction can be written: a jump, a call or a `set` has an
/// operand, and a `set` does not name the instruction pointer.
pub open spec fn writable(ins: Ins) -> bool {
    match ins.opcode {
        Opcode::J(_) | Opcode::Jmp | Opcode::Callq => ins.operands.len() >= 1,
        Opcode::Setb(_) => ins.operands.len() >= 1 && ins.operands[0] != Opnd::Register(Register::Rip),
        _ => true,
    }
}

/// The line of an instruction, without its line end: a tab, the opcode, a
/// tab, and the operands. A jump or call shows its first operand as a
/// target, and a `set` its first operand as a byte.
pub open spec fn instruction_text(ins: Ins) -> Seq<char> {
    "\t"@ + opcode_text(ins.opcode) + "\t"@ + match ins.opcode {
        Opcode::J(_) | Opcode::Jmp | Opcode::Callq => jump_operand_text(ins.operands[0]),
        Opcode::Setb(_) => byte_operand_text(ins.operands[0]),
        _ => operands_text(ins.operands, 0, Seq::empty()),
    }
}

/// The line of a datum, without its line end.
pub open spec fn datum_text(d: Datum) -> Seq<char> {
    match d {
        Datum::Asciz(s) => "\t.asciz\t\""@ + escaped_text(s) + "\""@,
        Datum::Quad(i) => "\t.quad\t"@ + immediate_text(i),
    }
}

/// The lines of the instructions from position `i` on, after the text
/// `acc`.
pub open spec fn instructions_text(instructions: Seq<Ins>, i: nat, acc: Seq<char>) -> Seq<char>
    decreases instructions.len() - i,
{
    if i >= instructions.len() {
        acc
    } else {
        instructions_text(instructions, i + 1, acc + instruction_text(instructions[i as int]) + "\n"@)
    }
}

/// The lines of the data from position `i` on, after the text `acc`.
pub open spec fn data_text(data: Seq<Datum>, i: nat, acc: Seq<char>) -> Seq<char>
    decreases data.len() - i,
{
    if i >= data.len() {
        acc
    } else {
        data_text(data, i + 1, acc + datum_text(data[i as int]) + "\n"@)
    }
}

/// The text of what a block holds: the section directive and the lines.
pub open spec fn content_text(c: Content) -> Seq<char> {
    match c {
        Content::Text(instructions) => instructions_text(instructions, 0, "\t.text\n"@),
        Content::Data(data) => data_text(data, 0, "\t.data\n"@),
    }
}

/// The head of a block: the section directive, the `.globl` line of a
/// global block, and the label.
pub open spec fn head_text(b: Asm) -> Seq<char> {
    let section = match b.content {
        Content::Text(_) => "\t.text\n"@,
        Content::Data(_) => "\t.data\n"@,
    };
    let visibility = if b.global {
        "\t.globl\t"@ + b.label + "\n"@
    } else {
        Seq::empty()
    };
    section + visibility + b.label + ":\n"@
}

/// The text of a block: its head, then its lines.
pub open spec fn block_text(b: Asm) -> Seq<char> {
    match b.content {
        Content::Text(instructions) => instructions_text(instructions, 0, head_text(b)),
        Content::Data(data) => data_text(data, 0, head_text(b)),
    }
}

/// The texts of the blocks from position `i` on, after the text `acc`.
pub open spec fn program_text(blocks: Seq<Asm>, i: nat, acc: Seq<char>) -> Seq<char>
    decreases blocks.len() - i,
{
    if i >= blocks.len() {
        acc
    } else {
        program_text(blocks, i + 1, acc + block_text(blocks[i as int]))
    }
}

/// Whether every instruction of a block can be written.
pub open spec fn block_writable(b: Asm) -> bool {
    match b.content {
        Content::Text(instructions) => forall|i: int|
            0 <= i < instructions.len() ==> writable(#[trigger] instructions[i]),
        Content::Data(_) => true,
    }
}

/// Whether every instruction of a program can be written.
pub open spec fn program_writable(blocks: Seq<Asm>) -> bool {
    forall|i: int| 0 <= i < blocks.len() ==> block_writable(#[trigger] blocks[i])
}

impl Register {
    /// The name of the register.
    pub fn to_text(&self) -> (text: &'static str)
        ensures
            text@ == register_text(*self),
    {
        match self {
            Register::Rip => "%rip",
            Register::Rax => "%rax",
            Register::Rbx => "%rbx",
            Register::Rcx => "%rcx",
            Register::Rdx => "%rdx",
            Register::Rsi => "%rsi",
            Register::Rdi => "%rdi",
            Register::Rbp => "%rbp",
            Register::Rsp => "%rsp",
            Register::R08 => "%r8",
            Register::R09 => "%r9",
            Register::R10 => "%r10",
            Register::R11 => "%r11",
            Register::R12 => "%r12",
            Register::R13 => "%r13",
            Register::R14 => "%r14",
            Register::R15 => "%r15",
        }
    }
}

impl ByteRegister {
    /// The name of the low byte of the register.
    pub fn to_text(&self) -> (text: &'static str)
        requires
            self.0 != Register::Rip,
        ensures
            text@ == byte_register_text(self.0),
    {
        match self.0 {
            Register::Rax => "%al",
            Register::Rbx => "%bl",
            Register::Rcx => "%cl",
            Register::Rdx => "%dl",
            Register::Rsi => "%sil",
            Register::Rdi => "%dil",
            Register::Rbp => "%bpl",
            Register::Rsp => "%spl",
            Register::R08 => "%r8b",
            Register::R09 => "%r9b",
            Register::R10 => "%r10b",
            Register::R11 => "%r11b",
            Register::R12 => "%r12b",
            Register::R13 => "%r13b",
            Register::R14 => "%r14b",
            Register::R15 => "%r15b",
            Register::Rip => vstd::pervasive::unreached(),
        }
    }
}

impl Immediate {
    /// The text of the immediate: the number, or the label.
    pub fn to_text(&self) -> (text: String)
        ensures
            text@ == immediate_text(self@),
    {
        match self {
            Immediate::Literal(q) => quad_text(*q),
            Immediate::Label(l) => l.clone(),
        }
    }
}

impl Operand {
    /// The text of the operand.
    pub fn to_text(&self) -> (text: String)
        ensures
            text@ == operand_text(self@),
    {
        let mut text = String::new();
        match self {
            Operand::Immediate(i) => {
                text.append("$");
                text.append(i.to_text().as_str());
                assert(text@ =~= operand_text(self@));
            },
            Operand::Register(r) => {
                text.append(r.to_text());
                assert(text@ =~= operand_text(self@));
            },
            Operand::IndDisp(i) => {
                text.append(i.to_text().as_str());
                assert(text@ =~= operand_text(self@));
            },
            Operand::IndReg(r) => {
                text.append("(");
                text.append(r.to_text());
                text.append(")");
                assert(text@ =~= operand_text(self@));
            },
            Operand::IndDispReg(i, r) => {
                text.append(i.to_text().as_str());
                text.append("(");
                text.append(r.to_text());
                text.append(")");
                assert(text@ =~= operand_text(self@));
            },
        }
        text
    }
}

/// The text of an operand as the byte that a `set` writes.
pub fn byte_text(o: &Operand) -> (text: String)
    requires
        o@ != Opnd::Register(Register::Rip),
    ensures
        text@ == byte_operand_text(o@),
{
    match o {
        Operand::Register(r) => {
            let mut text = String::new();
            text.append(ByteRegister(*r).to_text());
            assert(text@ =~= byte_operand_text(o@));
            text
        },
        other => other.to_text(),
    }
}

/// The text of an operand as the target of a jump or call.
pub fn jump_text(o: &Operand) -> (text: String)
    ensures
        text@ == jump_operand_text(o@),
{
    match o {
        Operand::Immediate(i) => i.to_text(),
        other => {
            let mut text = String::new();
            text.append("*");
            text.append(other.to_text().as_str());
            assert(text@ =~= jump_operand_text(o@));
            text
        },
    }
}

impl ByteOperand {
    /// The text of the operand as the byte that a `set` writes.
    pub fn to_text(&self) -> (text: String)
        requires
            self.0@ != Opnd::Register(Register::Rip),
        ensures
            text@ == byte_operand_text(self.0@),
    {
        byte_text(&self.0)
    }
}

impl JumpOperand {
    /// The text of the operand as the target of a jump or call.
    pub fn to_text(&self) -> (text: String)
        ensures
            text@ == jump_operand_text(self.0@),
    {
        jump_text(&self.0)
    }
}

impl Condition {
    /// The suffix that the condition gives to an opcode.
    pub fn to_text(&self) -> (text: &'static str)
        ensures
            text@ == condition_text(*self),
    {
        match self {
            Condition::Eq => "e",
            Condition::Neq => "ne",
            Condition::Gt => "g",
            Condition::Ge => "ge",
            Condition::Lt => "l",
            Condition::Le => "le",
        }
    }
}

impl Opcode {
    /// The mnemonic of the opcode.
    pub fn to_text(&self) -> (text: String)
        ensures
            text@ == opcode_text(*self),
    {
        let mut text = String::new();
        match self {
            Opcode::Movq => {
                text.append("movq");
            },
            Opcode::Pushq => {
                text.append("pushq");
            },
            Opcode::Popq => {
                text.append("popq");
            },
            Opcode::Leaq => {
                text.append("leaq");
            },
            Opcode::Incq => {
                text.append("incq");
            },
            Opcode::Decq => {
                text.append("decq");
            },
            Opcode::Negq => {
                text.append("negq");
            },
            Opcode::Notq => {
                text.append("notq");
            },
            Opcode::Addq => {
                text.append("addq");
            },
            Opcode::Subq => {
                text.append("subq");
            },
            Opcode::Imulq => {
                text.append("imulq");
            },
            Opcode::Xorq => {
                text.append("xorq");
            },
            Opcode::Orq => {
                text.append("orq");
            },
            Opcode::Andq => {
                text.append("andq");
            },
            Opcode::Shlq => {
                text.append("shlq");
            },
            Opcode::Sarq => {
                text.append("sarq");
            },
            Opcode::Shrq => {
                text.append("shrq");
            },
            Opcode::Jmp => {
                text.append("jmp");
            },
            Opcode::Cmpq => {
                text.append("cmpq");
            },
            Opcode::Callq => {
                text.append("callq");
            },
            Opcode::Retq => {
                text.append("retq");
            },
            Opcode::J(c) => {
                text.append("j");
                text.append(c.to_text());
            },
            Opcode::Setb(c) => {
                text.append("set");
                text.append(c.to_text());
            },
        }
        assert(text@ =~= opcode_text(*self));
        text
    }
}

impl Instruction {
    /// Whether the instruction can be written.
    pub fn is_writable(&self) -> (r: bool)
        ensures
            r == writable(self@),
    {
        match self.opcode {
            Opcode::J(_) | Opcode::Jmp | Opcode::Callq => self.operands.len() >= 1,
            Opcode::Setb(_) => {
                if self.operands.len() >= 1 {
                    match &self.operands[0] {
                        Operand::Register(Register::Rip) => false,
                        _ => true,
                    }
                } else {
                    false
                }
            },
            _ => true,
        }
    }

    /// The line of the instruction, without its line end.
    pub fn to_text(&self) -> (text: String)
        requires
            writable(self@),
        ensures
            text@ == instruction_text(self@),
    {
        let mut text = String::new();
        text.append("\t");
        text.append(self.opcode.to_text().as_str());
        text.append("\t");
        let ghost head = text@;
        assert(head =~= "\t"@ + opcode_text(self.opcode) + "\t"@);
        match self.opcode {
            Opcode::J(_) | Opcode::Jmp | Opcode::Callq => {
                assert(self@.operands[0] == self.operands@[0]@);
                text.append(jump_text(&self.operands[0]).as_str());
            },
            Opcode::Setb(_) => {
                assert(self@.operands[0] == self.operands@[0]@);
                text.append(byte_text(&self.operands[0]).as_str());
            },
            _ => {
                let ghost operands = self@.operands;
                let mut list = String::new();
                let mut i: usize = 0;
                while i < self.operands.len()
                    invariant
                        i <= self.operands.len(),
                        operands == operands_view(self.operands@),
                        operands_text(operands, 0, Seq::empty()) == operands_text(
                            operands,
                            i as nat,
                            list@,
                        ),
                    decreases self.operands.len() - i,
                {
                    let ghost before = list@;
                    if i > 0 {
                        list.append(", ");
                    }
                    list.append(self.operands[i].to_text().as_str());
                    assert(i > 0 ==> list@ =~= before + ", "@ + operand_text(operands[i as int]));
                    assert(i == 0 ==> list@ =~= before + operand_text(operands[i as int]));
                    i += 1;
                }
                text.append(list.as_str());
            },
        }
        assert(text@ =~= instruction_text(self@));
        text
    }
}

impl Data {
    /// The line of the datum, without its line end.
    pub fn to_text(&self) -> (text: String)
        ensures
            text@ == datum_text(self@),
    {
        let mut text = String::new();
        match self {
            Data::Asciz(s) => {
                text.append("\t.asciz\t\"");
                text.append(escape_text(s.as_str()).as_str());
                text.append("\"");
                assert(text@ =~= datum_text(self@));
            },
            Data::Quad(i) => {
                text.append("\t.quad\t");
                text.append(i.to_text().as_str());
                assert(text@ =~= datum_text(self@));
            },
        }
        text
    }
}

/// Appends the lines of the instructions to `text`.
fn append_instructions(text: &mut String, instructions: &Vec<Instruction>)
    requires
        forall|i: int| 0 <= i < instructions@.len() ==> writable(#[trigger] instructions@[i]@),
    ensures
        final(text)@ == instructions_text(instructions_view(instructions@), 0, old(text)@),
{
    let ghost lines = instructions_view(instructions@);
    let ghost start = text@;
    let mut i: usize = 0;
    while i < instructions.len()
        invariant
            i <= instructions.len(),
            lines == instructions_view(instructions@),
            forall|i: int| 0 <= i < instructions@.len() ==> writable(#[trigger] instructions@[i]@),
            instructions_text(lines, 0, start) == instructions_text(lines, i as nat, text@),
        decreases instructions.len() - i,
    {
        let ghost before = text@;
        text.append(instructions[i].to_text().as_str());
        text.append("\n");
        assert(text@ =~= before + instruction_text(lines[i as int]) + "\n"@);
        i += 1;
    }
}

/// Appends the lines of the data to `text`.
fn append_data(text: &mut String, data: &Vec<Data>)
    ensures
        final(text)@ == data_text(data_view(data@), 0, old(text)@),
{
    let ghost lines = data_view(data@);
    let ghost start = text@;
    let mut i: usize = 0;
    while i < data.len()
        invariant
            i <= data.len(),
            lines == data_view(data@),
            data_text(lines, 0, start) == data_text(lines, i as nat, text@),
        decreases data.len() - i,
    {
        let ghost before = text@;
        text.append(data[i].to_text().as_str());
        text.append("\n");
        assert(text@ =~= before + datum_text(lines[i as int]) + "\n"@);
        i += 1;
    }
}

impl AsmContent {
    /// The section directive and the lines of the content.
    pub fn to_text(&self) -> (text: String)
        requires
            self matches AsmContent::Text(instructions) ==> forall|i: int|
                0 <= i < instructions@.len() ==> writable(#[trigger] instructions@[i]@),
        ensures
            text@ == content_text(self@),
    {
        let mut text = String::new();
        match self {
            AsmContent::Text(instructions) => {
                text.append("\t.text\n");
                assert(text@ =~= "\t.text\n"@);
                append_instructions(&mut text, instructions);
            },
            AsmContent::Data(data) => {
                text.append("\t.data\n");
                assert(text@ =~= "\t.data\n"@);
                append_data(&mut text, data);
            },
        }
        text
    }
}

impl AsmBlock {
    /// Whether every instruction of the block can be written.
    pub fn is_writable(&self) -> (r: bool)
        ensures
            r == block_writable(self@),
    {
        match &self.content {
            AsmContent::Text(instructions) => {
                let mut i: usize = 0;
                while i < instructions.len()
                    invariant
                        i <= instructions.len(),
                        self@.content == Content::Text(instructions_view(instructions@)),
                        forall|j: int| 0 <= j < i ==> writable(#[trigger] instructions@[j]@),
                    decreases instructions.len() - i,
                {
                    if !instructions[i].is_writable() {
                        let ghost lines = self@.content->Text_0;
                        assert(lines[i as int] == instructions@[i as int]@);
                        assert(!writable(lines[i as int]));
                        return false;
                    }
                    i += 1;
                }
                assert forall|j: int| 0 <= j < instructions_view(instructions@).len() implies writable(
                    #[trigger] instructions_view(instructions@)[j],
                ) by {
                    assert(writable(instructions@[j]@));
                }
                true
            },
            AsmContent::Data(_) => true,
        }
    }

    /// The text of the block: the section directive, the `.globl` line of a
    /// global block, the label, and the lines.
    pub fn to_text(&self) -> (text: String)
        requires
            block_writable(self@),
        ensures
            text@ == block_text(self@),
    {
        let mut text = String::new();
        match &self.content {
            AsmContent::Text(_) => {
                text.append("\t.text\n");
            },
            AsmContent::Data(_) => {
                text.append("\t.data\n");
            },
        }
        if self.global {
            text.append("\t.globl\t");
            text.append(self.label.as_str());
            text.append("\n");
        }
        text.append(self.label.as_str());
        text.append(":\n");
        assert(text@ =~= head_text(self@));
        match &self.content {
            AsmContent::Text(instructions) => {
                let ghost lines = self@.content->Text_0;
                assert(lines =~= instructions_view(instructions@));
                assert forall|i: int| 0 <= i < instructions@.len() implies writable(
                    #[trigger] instructions@[i]@,
                ) by {
                    assert(writable(lines[i]));
                }
                append_instructions(&mut text, instructions);
            },
            AsmContent::Data(data) => {
                append_data(&mut text, data);
            },
        }
        text
    }
}

impl Program {
    /// Whether every instruction of the program can be written.
    pub fn is_writable(&self) -> (r: bool)
        ensures
            r == program_writable(self@),
    {
        let mut i: usize = 0;
        while i < self.blocks.len()
            invariant
                i <= self.blocks.len(),
                forall|j: int| 0 <= j < i ==> block_writable(#[trigger] self@[j]),
            decreases self.blocks.len() - i,
        {
            if !self.blocks[i].is_writable() {
                assert(!block_writable(self@[i as int]));
                return false;
            }
            i += 1;
        }
        true
    }

    /// The assembly text of the program: the texts of its blocks, in order.
    pub fn to_text(&self) -> (text: String)
        requires
            program_writable(self@),
        ensures
            text@ == program_text(self@, 0, Seq::empty()),
    {
        let ghost blocks = self@;
        let mut text = String::new();
        let mut i: usize = 0;
        while i < self.blocks.len()
            invariant
                i <= self.blocks.len(),
                blocks == self@,
                program_writable(blocks),
                program_text(blocks, 0, Seq::empty()) == program_text(blocks, i as nat, text@),
            decreases self.blocks.len() - i,
        {
            let ghost before = text@;
            assert(block_writable(blocks[i as int]));
            text.append(self.blocks[i].to_text().as_str());
            i += 1;
        }
        text
    }
}

} // verus!
