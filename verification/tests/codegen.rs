use oatmilk::backend::{compile_condition, compile_program, rbp_offset};
use oatmilk::errors::Error;
use oatmilk::layout::layout_function;
use oatmilk::llvmlite;
use oatmilk::parser::parse_program;
use oatmilk::program::RuntimeNames;
use oatmilk::symbol::{Interner, Symbol};
use oatmilk::x86::{
    AsmBlock, AsmContent, ByteOperand, ByteRegister, Condition, Data, Immediate, Instruction,
    JumpOperand, Opcode, Operand, Program, Register, ToOperand,
};

fn runtime(interner: &mut Interner) -> RuntimeNames {
    RuntimeNames {
        string_of_int: interner.intern("string_of_int"),
        string_cat: interner.intern("string_cat"),
        print_string: interner.intern("print_string"),
        print_int: interner.intern("print_int"),
    }
}

fn lowered(interner: &mut Interner, text: &str) -> llvmlite::Program {
    let program = parse_program(interner, text).expect("the text is a program");
    let names = runtime(interner);
    oatmilk::program::compile_program(&program, names).expect("the program lowers")
}

fn compiled(text: &str, linux: bool) -> Program {
    let mut interner = Interner::new();
    let program = lowered(&mut interner, text);
    compile_program(&interner, linux, &program).expect("code is generated")
}

fn text_of(program: &Program) -> String {
    assert!(program.is_writable());
    program.to_text()
}

#[test]
fn returning_a_constant_is_four_instructions() {
    let program = compiled("int main() { return 42; }", true);
    assert_eq!(
        text_of(&program),
        "\t.text\n\t.globl\tmain\nmain:\n\
         \tpushq\t%rbp\n\tmovq\t%rsp, %rbp\n\tsubq\t$0, %rsp\n\
         \tmovq\t$42, %rax\n\tmovq\t%rbp, %rsp\n\tpopq\t%rbp\n\tretq\t\n"
    );
}

#[test]
fn the_first_parameter_comes_in_rdi() {
    let program = compiled("int f(int x) { return x + 1; }", true);
    assert_eq!(program.blocks.len(), 1);
    let block = &program.blocks[0];
    assert_eq!(block.label, "f");
    assert!(block.global);
    let lines: Vec<String> = match &block.content {
        AsmContent::Text(instructions) => instructions.iter().map(|i| i.to_text()).collect(),
        AsmContent::Data(_) => panic!("a function is code"),
    };
    assert_eq!(
        lines,
        vec![
            "\tpushq\t%rbp",
            "\tmovq\t%rsp, %rbp",
            "\tsubq\t$40, %rsp",
            // the parameter goes to the first slot
            "\tmovq\t%rdi, -8(%rbp)",
            // its own slot holds its value
            "\tmovq\t-8(%rbp), %rax",
            "\tleaq\t-16(%rbp), %rcx",
            "\tmovq\t%rax, (%rcx)",
            "\tleaq\t-16(%rbp), %rax",
            "\tmovq\t(%rax), %rcx",
            "\tmovq\t%rcx, %rax",
            "\tmovq\t%rax, -32(%rbp)",
            "\tmovq\t-32(%rbp), %rax",
            "\tmovq\t$1, %rcx",
            "\taddq\t%rcx, %rax",
            "\tmovq\t%rax, -40(%rbp)",
            "\tmovq\t-40(%rbp), %rax",
            "\tmovq\t%rbp, %rsp",
            "\tpopq\t%rbp",
            "\tretq\t",
        ]
    );
}

#[test]
fn every_block_of_code_ends_with_a_return_or_a_jump() {
    for linux in [true, false] {
        let program = compiled(
            "global count = 0;
             int sum(int[] v) {
                 var total = 0;
                 for (var i = 0; i < length(v); i = i + 1) {
                     if (v[i] > 0) { total = total + v[i]; }
                 }
                 return total;
             }
             int many(int a, int b, int c, int d, int e, int f, int g, int h) { return a + h; }
             int main() {
                 var v = new int[]{1, 2, 3};
                 print_int(many(1, 2, 3, 4, 5, 6, 7, sum(v)));
                 return 0;
             }",
            linux,
        );
        let mut functions = 0;
        for block in &program.blocks {
            if let AsmContent::Text(code) = &block.content {
                let last = code.last().expect("a block of code is not empty");
                assert!(matches!(last.opcode, Opcode::Retq | Opcode::Jmp));
                if block.global {
                    functions += 1;
                    assert_eq!(code[0].opcode, Opcode::Pushq);
                    assert_eq!(code[0].operands, vec![Operand::Register(Register::Rbp)]);
                    assert_eq!(code[1].opcode, Opcode::Movq);
                    assert_eq!(
                        code[1].operands,
                        vec![Operand::Register(Register::Rsp), Operand::Register(Register::Rbp)]
                    );
                    assert_eq!(code[2].opcode, Opcode::Subq);
                    assert_eq!(code[2].operands[1], Operand::Register(Register::Rsp));
                }
            }
        }
        assert_eq!(functions, 3);
        assert!(program.is_writable());
    }
}

#[test]
fn labels_follow_the_platform() {
    let source = "global g = 7; global s = \"a\\\"b\"; int main() { print_int(g); while (true) { } return 0; }";
    let linux = compiled(source, true);
    let other = compiled(source, false);
    let labels = |p: &Program| p.blocks.iter().map(|b| b.label.clone()).collect::<Vec<_>>();
    assert_eq!(
        labels(&linux),
        vec!["g", "oat_str0", "s", "main", "main.0", "main.1", "main.2"]
    );
    assert_eq!(
        labels(&other),
        vec!["_g", "_oat_str0", "_s", "_main", "_main.0", "_main.1", "_main.2"]
    );
    let text = text_of(&other);
    assert!(text.starts_with(
        "\t.data\n\t.globl\t_g\n_g:\n\t.quad\t7\n\
         \t.data\n\t.globl\t_oat_str0\n_oat_str0:\n\t.asciz\t\"a\\\"b\"\n\
         \t.data\n\t.globl\t_s\n_s:\n\t.quad\t_oat_str0\n\
         \t.text\n\t.globl\t_main\n_main:\n"
    ));
    assert!(text.contains("\tcallq\t_print_int\n"));
    assert!(text.contains("\tleaq\t_g(%rip), %rax\n"));
    assert!(text.contains("\tjmp\t_main.0\n"));
    assert!(text.contains("\t.text\n_main.0:\n"));
    assert!(text_of(&linux).contains("\tcallq\tprint_int\n"));
}

#[test]
fn arguments_after_the_sixth_go_on_the_stack() {
    let program = compiled(
        "int many(int a, int b, int c, int d, int e, int f, int g) { return g; }
         int main() { return many(1, 2, 3, 4, 5, 6, 7); }",
        true,
    );
    let text = text_of(&program);
    // one argument is pushed, so the stack is padded
    assert!(text.contains(
        "\tsubq\t$8, %rsp\n\tmovq\t$7, %rax\n\tpushq\t%rax\n\
         \tmovq\t$1, %rdi\n\tmovq\t$2, %rsi\n\tmovq\t$3, %rdx\n\tmovq\t$4, %rcx\n\
         \tmovq\t$5, %r8\n\tmovq\t$6, %r9\n\tcallq\tmany\n\taddq\t$16, %rsp\n"
    ));
    // the callee finds it above its frame
    assert!(text.contains("\tmovq\t16(%rbp), %rax\n\tmovq\t%rax, -56(%rbp)\n"));
}

#[test]
fn comparisons_set_a_byte() {
    let program = compiled("bool f(int x) { return x <= 3; }", true);
    let text = text_of(&program);
    assert!(text.contains("\tcmpq\t%rcx, %rax\n\tsetle\t%al\n\tandq\t$1, %rax\n"));
}

#[test]
fn conditional_branches_compare_with_zero() {
    let program = compiled("int f(bool c) { if (c) { return 1; } return 2; }", true);
    let text = text_of(&program);
    assert!(text.contains("\tcmpq\t$0, %rax\n\tjne\tf.0\n\tjmp\tf.1\n"));
    assert!(text.contains("\t.text\nf.2:\n\tmovq\t$2, %rax\n"));
}

#[test]
fn addresses_count_the_fields_before() {
    let program = compiled(
        "struct triple { int a; int b; int c; } int third(triple t) { return t.c; }
         int element(int[] v, int i) { return v[i]; }",
        true,
    );
    let text = text_of(&program);
    // the struct itself, then sixteen bytes of fields before the third
    assert!(text.contains("\tmovq\t$0, %rcx\n\timulq\t$24, %rcx\n\taddq\t%rcx, %rax\n\tleaq\t16(%rax), %rax\n"));
    // an element lies behind the length of the array
    assert!(text.contains("\tleaq\t8(%rax), %rax\n"));
    assert!(text.contains("\timulq\t$8, %rcx\n\taddq\t%rcx, %rax\n"));
}

#[test]
fn a_name_that_is_not_interned_has_no_label() {
    let mut interner = Interner::new();
    let program = lowered(&mut interner, "int main() { return 0; }");
    let empty = Interner::new();
    assert_eq!(
        compile_program(&empty, true, &program),
        Err(Error::UnboundIdentifier(interner.intern("main")))
    );
}

#[test]
fn frames_place_identifiers_in_order() {
    let mut interner = Interner::new();
    let program = lowered(
        &mut interner,
        "struct pair { int a; int b; } int f(int x, int y) { var p = new pair[1]; return x; }",
    );
    let f = &program.functions[0].1;
    let layout = layout_function(&program.types, f).unwrap();
    // the parameters come first
    assert_eq!(layout.lookup(Symbol::new(0)), Some((-8, false)));
    assert_eq!(layout.lookup(Symbol::new(3)), Some((-16, false)));
    // then what the instructions define: the slot of the first parameter
    // stands for its address
    assert_eq!(layout.lookup(Symbol::new(1)), Some((-24, true)));
    assert_eq!(layout.lookup(Symbol::new(2)), Some((-32, false)));
    assert_eq!(layout.lookup(Symbol::new(4)), Some((-40, true)));
    assert_eq!(layout.lookup(Symbol::new(1000)), None);
    assert_eq!(layout.count as usize, layout.places.len());
}

#[test]
fn operands_are_written_in_att_syntax() {
    let label = Immediate::Label("start".to_string());
    assert_eq!(Immediate::Literal(-3).to_text(), "-3");
    assert_eq!(label.to_text(), "start");
    assert_eq!(Operand::Immediate(Immediate::Literal(5)).to_text(), "$5");
    assert_eq!(Operand::Register(Register::R08).to_text(), "%r8");
    assert_eq!(Operand::IndDisp(label.clone()).to_text(), "start");
    assert_eq!(Operand::IndReg(Register::Rax).to_text(), "(%rax)");
    assert_eq!(Operand::IndDispReg(Immediate::Literal(-8), Register::Rbp).to_text(), "-8(%rbp)");
    assert_eq!(rbp_offset(-16).to_text(), "-16(%rbp)");
    assert_eq!(Register::Rsp.indirect(Immediate::Literal(8)).to_text(), "8(%rsp)");
    assert_eq!(label.clone().displacement(), Operand::IndDisp(label.clone()));
    assert_eq!(ByteOperand(Operand::Register(Register::Rax)).to_text(), "%al");
    assert_eq!(ByteOperand(Operand::IndReg(Register::Rax)).to_text(), "(%rax)");
    assert_eq!(ByteRegister(Register::R15).to_text(), "%r15b");
    assert_eq!(ByteRegister(Register::Rsi).to_text(), "%sil");
    assert_eq!(JumpOperand(Operand::Immediate(label.clone())).to_text(), "start");
    assert_eq!(JumpOperand(Operand::Register(Register::Rax)).to_text(), "*%rax");
    assert_eq!(JumpOperand(Operand::IndReg(Register::Rax)).to_text(), "*(%rax)");
    assert_eq!(Opcode::J(Condition::Neq).to_text(), "jne");
    assert_eq!(Opcode::Setb(Condition::Ge).to_text(), "setge");
    assert_eq!(Opcode::Imulq.to_text(), "imulq");
    assert_eq!(Condition::Gt.to_text(), "g");
    assert_eq!(Condition::Lt.to_text(), "l");
    assert_eq!(Condition::Eq.to_text(), "e");
    assert_eq!(Data::Quad(Immediate::Literal(9)).to_text(), "\t.quad\t9");
    assert_eq!(Data::Asciz("a\tb".to_string()).to_text(), "\t.asciz\t\"a\\tb\"");
}

#[test]
fn values_become_operands() {
    assert_eq!(7i64.to_operand(), Operand::Immediate(Immediate::Literal(7)));
    assert_eq!(
        "l".to_string().to_operand(),
        Operand::Immediate(Immediate::Label("l".to_string()))
    );
    assert_eq!(Register::Rdx.to_operand(), Operand::Register(Register::Rdx));
    assert_eq!(
        Immediate::Literal(1).to_operand(),
        Operand::Immediate(Immediate::Literal(1))
    );
    assert_eq!(Operand::IndReg(Register::Rbx).to_operand(), Operand::IndReg(Register::Rbx));
}

#[test]
fn conditions_compile() {
    assert_eq!(compile_condition(llvmlite::Condition::Eq), Condition::Eq);
    assert_eq!(compile_condition(llvmlite::Condition::Ne), Condition::Neq);
    assert_eq!(compile_condition(llvmlite::Condition::Slt), Condition::Lt);
    assert_eq!(compile_condition(llvmlite::Condition::Sle), Condition::Le);
    assert_eq!(compile_condition(llvmlite::Condition::Sgt), Condition::Gt);
    assert_eq!(compile_condition(llvmlite::Condition::Sge), Condition::Ge);
}

#[test]
fn instructions_that_cannot_be_written_are_found() {
    let jump = Instruction { opcode: Opcode::Jmp, operands: vec![] };
    let set = Instruction {
        opcode: Opcode::Setb(Condition::Eq),
        operands: vec![Operand::Register(Register::Rip)],
    };
    let ret = Instruction { opcode: Opcode::Retq, operands: vec![] };
    assert!(!jump.is_writable());
    assert!(!set.is_writable());
    assert!(ret.is_writable());
    let block = AsmBlock {
        label: "b".to_string(),
        global: false,
        content: AsmContent::Text(vec![ret.clone(), jump]),
    };
    assert!(!block.is_writable());
    let program = Program { blocks: vec![block] };
    assert!(!program.is_writable());
    let fine = AsmBlock { label: "b".to_string(), global: false, content: AsmContent::Text(vec![ret]) };
    assert_eq!(fine.to_text(), "\t.text\nb:\n\tretq\t\n");
    assert_eq!(
        AsmContent::Data(vec![Data::Quad(Immediate::Literal(1))]).to_text(),
        "\t.data\n\t.quad\t1\n"
    );
}
