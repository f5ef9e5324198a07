use oatmilk::driver::{assembly, compile, runtime_names, Failure};
use oatmilk::error::{ParseError, TypeError};
use oatmilk::llvmlite::{FunctionType, Operand, Type};
use oatmilk::symbol::Interner;
use oatmilk::wasm::{ValType, WasmType};
use std::cmp::Ordering;

#[test]
fn a_text_becomes_assembly() {
    let mut interner = Interner::new();
    let program = compile(&mut interner, "int main() { return 42; }", true).unwrap();
    let text = assembly(&program).expect("what is generated can be written");
    assert!(text.ends_with("\tmovq\t$42, %rax\n\tmovq\t%rbp, %rsp\n\tpopq\t%rbp\n\tretq\t\n"));
    assert!(text.starts_with("\t.text\n\t.globl\tmain\nmain:\n\tpushq\t%rbp\n"));
}

#[test]
fn the_first_stage_that_fails_ends_the_compilation() {
    let mut interner = Interner::new();
    assert_eq!(
        compile(&mut interner, "int main() { return 42 }", true),
        Err(Failure::Parse(ParseError::RemainingInput("int main() { return 42 }".to_string())))
    );
    assert_eq!(
        compile(&mut interner, "int main() { return @; }", true),
        Err(Failure::Parse(ParseError::ParserError(20)))
    );
    assert_eq!(
        compile(&mut interner, "int main() { return true; }", true),
        Err(Failure::Type(TypeError::IncompatibleType))
    );
    assert_eq!(
        compile(&mut interner, "void f() { f = 3; }", false),
        Err(Failure::Type(TypeError::CannotAssignFunction))
    );
}

#[test]
fn the_runtime_is_named_after_the_program() {
    let mut interner = Interner::new();
    interner.intern("main");
    let names = runtime_names(&mut interner);
    assert_eq!(names.string_of_int.index(), 1);
    assert_eq!(names.string_cat.index(), 2);
    assert_eq!(names.print_string.index(), 3);
    assert_eq!(names.print_int.index(), 4);
    assert_eq!(runtime_names(&mut interner), names);
    assert_eq!(interner.len(), 5);
}

#[test]
fn operands_are_partly_ordered() {
    assert_eq!(Operand::Null.partial_cmp(&Operand::Null), Some(Ordering::Equal));
    assert_eq!(Operand::Const(1).partial_cmp(&Operand::Const(2)), Some(Ordering::Less));
    assert_eq!(Operand::Const(2).partial_cmp(&Operand::Const(2)), Some(Ordering::Equal));
    assert_eq!(Operand::Const(3).partial_cmp(&Operand::Const(2)), Some(Ordering::Greater));
    assert_eq!(Operand::Const(3).partial_cmp(&Operand::Null), None);
    assert_eq!(Operand::Null.partial_cmp(&Operand::Const(0)), None);
    assert!(Operand::Const(-1) < Operand::Const(0));
}

#[test]
fn values_and_functions_have_types_in_webassembly() {
    assert_eq!(Type::Void.wasm_type(), Some(WasmType::Void));
    assert_eq!(Type::I1.wasm_type(), Some(WasmType::Value(ValType::I32)));
    assert_eq!(Type::I8.wasm_type(), Some(WasmType::Value(ValType::I32)));
    assert_eq!(Type::I64.wasm_type(), Some(WasmType::Value(ValType::I64)));
    assert_eq!(Type::Ptr(Box::new(Type::I8)).wasm_type(), None);
    assert_eq!(Type::Struct(vec![]).wasm_type(), None);
    assert_eq!(
        Type::Fun(vec![Type::I64, Type::I1], Box::new(Type::I64)).wasm_type(),
        Some(WasmType::Function(vec![ValType::I64, ValType::I32], vec![ValType::I64]))
    );
    assert_eq!(
        Type::Fun(vec![], Box::new(Type::Void)).wasm_type(),
        Some(WasmType::Function(vec![], vec![]))
    );
    assert_eq!(Type::Fun(vec![Type::Void], Box::new(Type::Void)).wasm_type(), None);
    assert_eq!(Type::Fun(vec![], Box::new(Type::Ptr(Box::new(Type::I8)))).wasm_type(), None);
    let signature = FunctionType { arg_types: vec![Type::I8], ret_type: Type::I1 };
    assert_eq!(
        signature.wasm_type(),
        Some(WasmType::Function(vec![ValType::I32], vec![ValType::I32]))
    );
    assert_eq!(WasmType::Value(ValType::I64).value_type(), ValType::I64);
}
