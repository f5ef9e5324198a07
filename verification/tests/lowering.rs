use oatmilk::ast;
use oatmilk::cfg::{is_closed, is_single_assignment};
use oatmilk::errors::Error;
use oatmilk::fold::{compile_body, constant_fold_expression, constant_fold_statement};
use oatmilk::llvmlite::{
    BinaryOperator, FunctionDecl, Gid, GlobalDeclaration, GlobalInitializer, Instruction, Operand,
    Program, Terminator, Type,
};
use oatmilk::parse::{parse_expression, parse_statement};
use oatmilk::parser::parse_program;
use oatmilk::program::{compile_program, RuntimeNames};
use oatmilk::sizeof::sizeof;
use oatmilk::symbol::{Interner, Symbol};
use oatmilk::table::SymbolTable;
use oatmilk::typecheck::type_check;

fn runtime(interner: &mut Interner) -> RuntimeNames {
    RuntimeNames {
        string_of_int: interner.intern("string_of_int"),
        string_cat: interner.intern("string_cat"),
        print_string: interner.intern("print_string"),
        print_int: interner.intern("print_int"),
    }
}

fn lower(interner: &mut Interner, text: &str) -> Result<Program, Error> {
    let program = parse_program(interner, text).expect("the text is a program");
    let names = runtime(interner);
    compile_program(&program, names)
}

fn function<'a>(program: &'a Program, interner: &mut Interner, name: &str) -> &'a FunctionDecl {
    let g = Gid::Name(interner.intern(name));
    &program.functions.iter().find(|(n, _)| *n == g).expect("the function is declared").1
}

fn instructions(f: &FunctionDecl) -> Vec<&Instruction> {
    let mut all: Vec<&Instruction> = f.cfg.entry.instructions.iter().map(|(_, i)| i).collect();
    let mut k = 0;
    while let Some((_, b)) = f.cfg.blocks.get_index(k) {
        all.extend(b.instructions.iter().map(|(_, i)| i));
        k += 1;
    }
    all
}

#[test]
fn an_empty_function_is_a_single_return() {
    let mut interner = Interner::new();
    let program = lower(&mut interner, "struct empty {}\nvoid f() { }").unwrap();
    let empty = interner.intern("empty");
    assert_eq!(program.types.len(), 1);
    assert_eq!(program.types.get_index(0), Some((empty, &Type::Struct(vec![]))));
    assert_eq!(program.functions.len(), 1);
    let f = function(&program, &mut interner, "f");
    assert_eq!(f.type_signature.ret_type, Type::Void);
    assert!(f.type_signature.arg_types.is_empty());
    assert!(f.parameters.is_empty());
    assert!(f.cfg.entry.instructions.is_empty());
    assert_eq!(f.cfg.entry.terminator.1, Terminator::Ret(Type::Void, None));
    assert_eq!(f.cfg.blocks.len(), 0);
}

#[test]
fn returning_a_constant_needs_no_instruction() {
    let mut interner = Interner::new();
    let program = lower(&mut interner, "int main() { return 42; }").unwrap();
    let main = function(&program, &mut interner, "main");
    assert_eq!(main.type_signature.ret_type, Type::I64);
    assert!(main.cfg.entry.instructions.iter().all(|(_, i)| !matches!(i, Instruction::Binop(..))));
    assert!(main.cfg.entry.instructions.is_empty());
    assert_eq!(main.cfg.entry.terminator.1, Terminator::Ret(Type::I64, Some(Operand::Const(42))));
}

#[test]
fn a_parameter_lives_in_a_slot() {
    let mut interner = Interner::new();
    let program = lower(&mut interner, "int f(int x) { return x + 1; }").unwrap();
    let f = function(&program, &mut interner, "f");
    assert_eq!(f.type_signature.arg_types, vec![Type::I64]);
    assert_eq!(f.parameters, vec![Symbol::new(0)]);
    let p = Operand::Id(Symbol::new(0));
    let slot = Operand::Id(Symbol::new(1));
    let loaded = Operand::Id(Symbol::new(3));
    let sum = Operand::Id(Symbol::new(4));
    assert_eq!(
        f.cfg.entry.instructions,
        vec![
            (Symbol::new(1), Instruction::Alloca(Type::I64)),
            (Symbol::new(2), Instruction::Store(Type::I64, p, slot)),
            (Symbol::new(3), Instruction::Load(Type::I64, slot)),
            (Symbol::new(4), Instruction::Binop(BinaryOperator::Add, Type::I64, loaded, Operand::Const(1))),
        ]
    );
    assert_eq!(f.cfg.entry.terminator.1, Terminator::Ret(Type::I64, Some(sum)));
}

#[test]
fn projections_are_addresses_and_loads() {
    let mut interner = Interner::new();
    let text = "struct point { int x; int y; }  int dist(point p) { return p.x + p.y; }";
    let program = lower(&mut interner, text).unwrap();
    let source = parse_program(&mut interner, text).unwrap();
    assert_eq!(type_check(&source), Ok(()));
    let point = interner.intern("point");
    assert_eq!(program.types.get(point), Some(&Type::Struct(vec![Type::I64, Type::I64])));
    let dist = function(&program, &mut interner, "dist");
    let all = instructions(dist);
    let paths: Vec<&Vec<Operand>> = all
        .iter()
        .filter_map(|i| match i {
            Instruction::Gep(t, _, path) => {
                assert_eq!(*t, Type::Ptr(Box::new(Type::Namedt(point))));
                Some(path)
            },
            _ => None,
        })
        .collect();
    assert_eq!(
        paths,
        vec![
            &vec![Operand::Const(0), Operand::Const(0)],
            &vec![Operand::Const(0), Operand::Const(1)]
        ]
    );
    let field_loads =
        all.iter().filter(|i| matches!(i, Instruction::Load(Type::I64, _))).count();
    assert_eq!(field_loads, 2);
    let adds = all
        .iter()
        .filter(|i| matches!(i, Instruction::Binop(BinaryOperator::Add, Type::I64, _, _)))
        .count();
    assert_eq!(adds, 1);
}

#[test]
fn every_graph_is_closed_and_defines_each_identifier_once() {
    let mut interner = Interner::new();
    let program = lower(
        &mut interner,
        "struct pair { int a; int[] b; }
         global limit = 3;
         global greeting = \"hi\";
         int sum(int[] v) {
             var total = 0;
             for (var i = 0; i < length(v); i = i + 1) {
                 if (v[i] > limit) { total = total + v[i]; } else { total = total - 1; }
             }
             while (total > 100) { total = total >> 1; }
             return total;
         }
         int first(int[]? v) {
             if? (int[] w = v) { return w[0]; } else { return 0; }
         }
         void show(pair p) {
             print_string(string_cat(greeting, string_of_int(sum(p.b) + p.a)));
             p.b[0] = -p.a;
             p.a = ~first(p.b);
             return;
         }
         int main() {
             var v = new int[]{1, 2, 3};
             var w = new int[length(v)];
             print_int(sum(v));
             if (!(first(v) == 1) | false) { return 1; }
             return 0;
         }",
    )
    .unwrap();
    assert_eq!(program.functions.len(), 4);
    for (_, f) in &program.functions {
        assert!(is_closed(&f.cfg));
        assert!(is_single_assignment(&f.parameters, &f.cfg));
    }
    let names: Vec<Gid> = program.functions.iter().map(|(g, _)| *g).collect();
    assert_eq!(
        names,
        vec![
            Gid::Name(interner.intern("sum")),
            Gid::Name(interner.intern("first")),
            Gid::Name(interner.intern("show")),
            Gid::Name(interner.intern("main")),
        ]
    );
    let limit = Gid::Name(interner.intern("limit"));
    let greeting = Gid::Name(interner.intern("greeting"));
    assert_eq!(
        program.globals,
        vec![
            (limit, GlobalDeclaration(Type::I64, GlobalInitializer::Int(3))),
            (
                Gid::Text(0),
                GlobalDeclaration(
                    Type::Array(3, Box::new(Type::I8)),
                    GlobalInitializer::String("hi".to_string())
                )
            ),
            (
                greeting,
                GlobalDeclaration(Type::Ptr(Box::new(Type::I8)), GlobalInitializer::Gid(Gid::Text(0)))
            ),
        ]
    );
    assert_eq!(program.externals.len(), 6);
}

#[test]
fn branches_make_blocks_in_order() {
    let mut interner = Interner::new();
    let program =
        lower(&mut interner, "int f(bool c) { if (c) { return 1; } else { return 2; } }").unwrap();
    let f = function(&program, &mut interner, "f");
    let then = Symbol::new(0);
    let else_ = Symbol::new(1);
    let merge = Symbol::new(2);
    match &f.cfg.entry.terminator.1 {
        Terminator::CondBreak(_, a, b) => {
            assert_eq!((*a, *b), (then, else_));
        },
        other => panic!("the entry block branches, but ends with {:?}", other),
    }
    assert_eq!(f.cfg.blocks.len(), 3);
    let block = |k: usize| f.cfg.blocks.get_index(k).unwrap();
    assert_eq!(block(0).0, then);
    assert_eq!(block(0).1.terminator.1, Terminator::Ret(Type::I64, Some(Operand::Const(1))));
    assert_eq!(block(1).0, else_);
    assert_eq!(block(1).1.terminator.1, Terminator::Ret(Type::I64, Some(Operand::Const(2))));
    assert_eq!(block(2).0, merge);
    assert_eq!(block(2).1.terminator.1, Terminator::Ret(Type::I64, Some(Operand::Const(0))));
}

#[test]
fn what_cannot_be_lowered_fails() {
    let mut interner = Interner::new();
    let x = interner.intern("x");
    let s = interner.intern("s");
    let f = interner.intern("f");
    assert_eq!(lower(&mut interner, "int f() { return x; }"), Err(Error::UnboundIdentifier(x)));
    assert_eq!(lower(&mut interner, "void f() { f = 1; }"), Err(Error::NotAssignable));
    assert_eq!(lower(&mut interner, "void f() { 1 = 1; }").is_err(), true);
    assert_eq!(lower(&mut interner, "void f(int x) { x(); }"), Err(Error::NotAFunction));
    assert_eq!(lower(&mut interner, "int f(int x) { return x[0]; }"), Err(Error::DerefNonPointer));
    assert_eq!(lower(&mut interner, "int f(int x) { return length(x); }"), Err(Error::DerefNonPointer));
    assert_eq!(lower(&mut interner, "int f(int x) { return x.s; }"), Err(Error::DerefNonPointer));
    assert_eq!(lower(&mut interner, "int f(s p) { return p.x; }"), Err(Error::StructNotFound(s)));
    assert_eq!(
        lower(&mut interner, "struct s { int y; } int f(s p) { return p.x; }"),
        Err(Error::FieldNotFound(s, x))
    );
    assert_eq!(lower(&mut interner, "global g = h;").is_err(), true);
    let _ = f;
}

#[test]
fn types_lower() {
    let mut interner = Interner::new();
    let name = interner.intern("s");
    let array = |t: Type| Type::Struct(vec![Type::I64, Type::Array(0, Box::new(t))]);
    let ptr = |t: Type| Type::Ptr(Box::new(t));
    assert_eq!(ast::Type::Bool.compile(), Type::I1);
    assert_eq!(ast::Type::Int.compile(), Type::I64);
    assert_eq!(ast::Type::Ref(ast::ReferenceType::String).compile(), ptr(Type::I8));
    assert_eq!(ast::Type::NullRef(ast::ReferenceType::String).compile(), ptr(Type::I8));
    assert_eq!(ast::Type::Ref(ast::ReferenceType::Struct(name)).compile(), ptr(Type::Namedt(name)));
    assert_eq!(
        ast::Type::Ref(ast::ReferenceType::Array(Box::new(ast::Type::Int))).compile(),
        ptr(array(Type::I64))
    );
    assert_eq!(
        ast::Type::Ref(ast::ReferenceType::Function(
            vec![ast::Type::Int, ast::Type::Bool],
            Box::new(ast::ReturnType::ReturnVoid)
        ))
        .compile(),
        ptr(Type::Fun(vec![Type::I64, Type::I1], Box::new(Type::Void)))
    );
    assert_eq!(ast::ReturnType::ReturnVoid.compile(), Type::Void);
    assert_eq!(ast::ReturnType::ReturnValue(ast::Type::Int).compile(), Type::I64);
}

#[test]
fn sizes_add_up() {
    let mut tc: SymbolTable<Type> = SymbolTable::new();
    let pair = Symbol::new(0);
    let nested = Symbol::new(1);
    let knot = Symbol::new(2);
    let list = Symbol::new(3);
    tc.insert(pair, Type::Struct(vec![Type::I64, Type::I1]));
    tc.insert(nested, Type::Struct(vec![Type::Namedt(pair), Type::I8, Type::Ptr(Box::new(Type::Namedt(nested)))]));
    tc.insert(knot, Type::Struct(vec![Type::Namedt(knot)]));
    tc.insert(list, Type::Struct(vec![Type::I64, Type::Ptr(Box::new(Type::Namedt(list)))]));
    assert_eq!(sizeof(&tc, &Type::Void), Some(0));
    assert_eq!(sizeof(&tc, &Type::I1), Some(8));
    assert_eq!(sizeof(&tc, &Type::I8), Some(1));
    assert_eq!(sizeof(&tc, &Type::I64), Some(8));
    assert_eq!(sizeof(&tc, &Type::Ptr(Box::new(Type::Void))), Some(8));
    assert_eq!(sizeof(&tc, &Type::Fun(vec![Type::I64], Box::new(Type::I64))), Some(0));
    assert_eq!(sizeof(&tc, &Type::Struct(vec![])), Some(0));
    assert_eq!(sizeof(&tc, &Type::Namedt(pair)), Some(16));
    assert_eq!(sizeof(&tc, &Type::Namedt(nested)), Some(25));
    assert_eq!(sizeof(&tc, &Type::Array(3, Box::new(Type::Namedt(pair)))), Some(48));
    assert_eq!(sizeof(&tc, &Type::Array(0, Box::new(Type::I64))), Some(0));
    assert_eq!(
        sizeof(&tc, &Type::Struct(vec![Type::Struct(vec![Type::I64, Type::I64]), Type::I64])),
        Some(24)
    );
    assert_eq!(sizeof(&tc, &Type::Namedt(list)), Some(16));
    // a name that stands for nothing, and a type that holds itself
    assert_eq!(sizeof(&tc, &Type::Namedt(Symbol::new(9))), None);
    assert_eq!(sizeof(&tc, &Type::Namedt(knot)), None);
    assert_eq!(sizeof(&tc, &Type::Array(usize::MAX, Box::new(Type::I64))), None);
}

#[test]
fn constants_fold() {
    let mut interner = Interner::new();
    let mut fold = |text: &str| {
        let (e, _) = parse_expression(&mut interner, text).unwrap();
        constant_fold_expression(&e)
    };
    assert_eq!(fold("1 + 2 * 3"), ast::Expression::CInt(7));
    assert_eq!(fold("7 - 10"), ast::Expression::CInt(-3));
    assert_eq!(fold("6 [&] 3"), ast::Expression::CInt(2));
    assert_eq!(fold("6 [|] 3"), ast::Expression::CInt(7));
    assert_eq!(fold("9223372036854775807 + 1"), ast::Expression::CInt(i64::MIN));
    assert_eq!(fold("1 < 2"), ast::Expression::CBool(true));
    assert_eq!(fold("2 <= 1"), ast::Expression::CBool(false));
    assert_eq!(fold("2 > 1"), ast::Expression::CBool(true));
    assert_eq!(fold("1 >= 2"), ast::Expression::CBool(false));
    assert_eq!(fold("1 == 1"), ast::Expression::CBool(true));
    assert_eq!(fold("1 != 1"), ast::Expression::CBool(false));
    assert_eq!(fold("true == false"), ast::Expression::CBool(false));
    assert_eq!(fold("true & false"), ast::Expression::CBool(false));
    assert_eq!(fold("true | false"), ast::Expression::CBool(true));
    assert_eq!(fold("(1 < 2) & (2 < 3)"), ast::Expression::CBool(true));
    // shifts are left alone, and so is what is no literal
    let (shift, _) = parse_expression(&mut Interner::new(), "1 << 2").unwrap();
    assert_eq!(constant_fold_expression(&shift), shift);
    let mut names = Interner::new();
    let (call, _) = parse_expression(&mut names, "f() & false").unwrap();
    assert_eq!(constant_fold_expression(&call), call);
    let (mixed, _) = parse_expression(&mut names, "x + (1 + 2)").unwrap();
    let (expected, _) = parse_expression(&mut names, "x + 3").unwrap();
    assert_eq!(constant_fold_expression(&mixed), expected);
    let (array, _) = parse_expression(&mut names, "new int[]{1 + 1, x}").unwrap();
    let (expected, _) = parse_expression(&mut names, "new int[]{2, x}").unwrap();
    assert_eq!(constant_fold_expression(&array), expected);
}

#[test]
fn constant_conditions_choose_their_branch() {
    let mut interner = Interner::new();
    let mut stmts = |text: &str| {
        let (s, _) = parse_statement(&mut interner, text).unwrap();
        s
    };
    let then = stmts("x = 1;");
    let else_ = stmts("x = 2;");
    let chosen = constant_fold_statement(&stmts("if (1 < 2) { x = 1; } else { x = 2; }"));
    assert_eq!(chosen, vec![then.clone()]);
    let chosen = constant_fold_statement(&stmts("if (2 < 1) { x = 1; } else { x = 2; }"));
    assert_eq!(chosen, vec![else_.clone()]);
    let kept = stmts("if (c) { x = 1; } else { x = 2; }");
    assert_eq!(constant_fold_statement(&kept), vec![kept.clone()]);
    assert_eq!(constant_fold_statement(&stmts("while (false) { x = 1; }")), vec![]);
    let forever = stmts("while (true) { x = 1; }");
    assert_eq!(constant_fold_statement(&forever), vec![forever.clone()]);
    assert_eq!(constant_fold_statement(&stmts("x = 1 + 1;")), vec![stmts("x = 2;")]);
    assert_eq!(constant_fold_statement(&stmts("var x = 2 * 3;")), vec![stmts("var x = 6;")]);
    assert_eq!(constant_fold_statement(&stmts("f(1 + 1);")), vec![stmts("f(1 + 1);")]);
    assert_eq!(
        compile_body(&vec![
            stmts("if (true) { x = 1; x = 2; }"),
            stmts("while (1 == 2) { }"),
            stmts("if (false) { } else { if (true) { x = 1; } }"),
        ]),
        vec![then.clone(), else_, then]
    );
}
