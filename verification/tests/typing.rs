use oatmilk::ast::{
    Expression, FieldSet, ReferenceType, ReturnType, Statement, Type, TypeDeclaration,
};
use oatmilk::error::TypeError;
use oatmilk::locals::LocalsContext;
use oatmilk::parse::{parse_expression, parse_statement, parse_type};
use oatmilk::parser::parse_program;
use oatmilk::symbol::Interner;
use oatmilk::typecheck::{
    check_duplicate_fields, type_check, type_check_block, type_check_statement,
};
use oatmilk::typecontext::TypingContext;

fn check(text: &str) -> Result<(), TypeError> {
    let mut interner = Interner::new();
    let program = parse_program(&mut interner, text).expect("the text is a program");
    type_check(&program)
}

fn ty(interner: &mut Interner, text: &str) -> Type {
    let (t, rest) = parse_type(interner, text).expect("the text is a type");
    assert_eq!(rest, text.chars().count());
    t
}

fn expr(interner: &mut Interner, text: &str) -> Expression {
    let (e, rest) = parse_expression(interner, text).expect("the text is an expression");
    assert_eq!(rest, text.chars().count());
    e
}

fn stmt(interner: &mut Interner, text: &str) -> Statement {
    let (s, rest) = parse_statement(interner, text).expect("the text is a statement");
    assert_eq!(rest, text.chars().count());
    s
}

/// A context with the structs `a { int x; }`, `b { int x; int y; }`,
/// `c { int x; int y; bool z; }` and `d { bool x; }`.
fn structs(interner: &mut Interner) -> TypingContext {
    let x = interner.intern("x");
    let y = interner.intern("y");
    let z = interner.intern("z");
    let mut a = FieldSet::new();
    a.insert(x, Type::Int);
    let mut b = FieldSet::new();
    b.insert(x, Type::Int);
    b.insert(y, Type::Int);
    let mut c = FieldSet::new();
    c.insert(x, Type::Int);
    c.insert(y, Type::Int);
    c.insert(z, Type::Bool);
    let mut d = FieldSet::new();
    d.insert(x, Type::Bool);
    TypingContext::from_declarations(&vec![
        TypeDeclaration { name: interner.intern("a"), fields: a },
        TypeDeclaration { name: interner.intern("b"), fields: b },
        TypeDeclaration { name: interner.intern("c"), fields: c },
        TypeDeclaration { name: interner.intern("d"), fields: d },
    ])
}

#[test]
fn every_type_is_a_subtype_of_itself() {
    let mut interner = Interner::new();
    let tc = structs(&mut interner);
    for text in ["int", "bool", "string", "string?", "int[]", "a", "b?", "(int, a) -> b", "() -> void", "nowhere", "nowhere[]?"] {
        let t = ty(&mut interner, text);
        assert_eq!(tc.is_subtype(&t, &t), Ok(true), "{}", text);
    }
}

#[test]
fn a_struct_with_more_fields_is_a_subtype() {
    let mut interner = Interner::new();
    let tc = structs(&mut interner);
    let a = ty(&mut interner, "a");
    let b = ty(&mut interner, "b");
    let c = ty(&mut interner, "c");
    let d = ty(&mut interner, "d");
    assert_eq!(tc.is_subtype(&b, &a), Ok(true));
    assert_eq!(tc.is_subtype(&c, &b), Ok(true));
    assert_eq!(tc.is_subtype(&c, &a), Ok(true));
    assert_eq!(tc.is_subtype(&a, &b), Ok(false));
    assert_eq!(tc.is_subtype(&a, &c), Ok(false));
    // the same name with another type
    assert_eq!(tc.is_subtype(&a, &d), Ok(false));
    assert_eq!(tc.is_subtype(&d, &a), Ok(false));
}

#[test]
fn subtyping_is_transitive_on_these_types() {
    let mut interner = Interner::new();
    let tc = structs(&mut interner);
    let texts = [
        "int", "bool", "string", "string?", "a", "b", "c", "d", "a?", "b?", "c?", "int[]", "a[]",
        "b[]", "(a) -> c", "(b) -> b", "(c) -> a", "(c) -> a?", "() -> void", "() -> int",
    ];
    let types: Vec<Type> = texts.iter().map(|t| ty(&mut interner, t)).collect();
    let mut chains = 0;
    for r in &types {
        for s in &types {
            for t in &types {
                if tc.is_subtype(r, s) == Ok(true) && tc.is_subtype(s, t) == Ok(true) {
                    assert_eq!(tc.is_subtype(r, t), Ok(true), "{:?} {:?} {:?}", r, s, t);
                    chains += 1;
                }
            }
        }
    }
    assert!(chains > types.len());
}

#[test]
fn references_nullable_references_arrays_and_functions() {
    let mut interner = Interner::new();
    let tc = structs(&mut interner);
    let mut sub = |a: &str, b: &str| {
        let a = ty(&mut interner, a);
        let b = ty(&mut interner, b);
        tc.is_subtype(&a, &b)
    };
    assert_eq!(sub("string", "string?"), Ok(true));
    assert_eq!(sub("string?", "string"), Ok(false));
    assert_eq!(sub("b", "a?"), Ok(true));
    assert_eq!(sub("b?", "a?"), Ok(true));
    assert_eq!(sub("b?", "a"), Ok(false));
    assert_eq!(sub("int", "bool"), Ok(false));
    assert_eq!(sub("int", "string"), Ok(false));
    // arrays are invariant
    assert_eq!(sub("b[]", "a[]"), Ok(false));
    assert_eq!(sub("a[]", "a[]"), Ok(true));
    // arguments go the other way, results the same way
    assert_eq!(sub("(a) -> b", "(b) -> a"), Ok(true));
    assert_eq!(sub("(b) -> b", "(a) -> a"), Ok(false));
    assert_eq!(sub("(a) -> a", "(a) -> b"), Ok(false));
    assert_eq!(sub("(a) -> void", "(a) -> void"), Ok(true));
    assert_eq!(sub("(a) -> void", "(a) -> a"), Ok(false));
    assert_eq!(sub("(a, a) -> a", "(a) -> a"), Ok(false));
    assert_eq!(sub("string", "a"), Ok(false));
}

#[test]
fn comparing_an_undeclared_struct_fails() {
    let mut interner = Interner::new();
    let tc = structs(&mut interner);
    let a = ty(&mut interner, "a");
    let nowhere = ty(&mut interner, "nowhere");
    let name = interner.intern("nowhere");
    assert_eq!(tc.is_subtype(&a, &nowhere), Err(TypeError::StructNotFound(name)));
    assert_eq!(tc.is_subtype(&nowhere, &a), Err(TypeError::StructNotFound(name)));
}

#[test]
fn structs_that_hold_themselves_compare() {
    let mut interner = Interner::new();
    let program = parse_program(
        &mut interner,
        "struct l { int head; l? tail; } struct m { int head; m? tail; bool mark; }",
    )
    .unwrap();
    let tc = oatmilk::typecheck::program_context(&program);
    let l = ty(&mut interner, "l");
    let m = ty(&mut interner, "m");
    assert_eq!(tc.is_subtype(&l, &l), Ok(true));
    // `m` is `l` with a field more, but its `tail` is an `m?`, and whether
    // that is an `l?` hangs on the very comparison
    assert_eq!(tc.is_subtype(&m, &l), Ok(false));
    assert_eq!(l.type_check(&tc), Ok(()));
    assert_eq!(m.type_check(&tc), Ok(()));
    let n = ty(&mut interner, "(l) -> nowhere[]");
    assert_eq!(n.type_check(&tc), Err(TypeError::StructNotFound(interner.intern("nowhere"))));
    assert_eq!(Type::Int.type_check(&tc), Ok(()));
}

#[test]
fn expressions_have_the_types_of_the_rules() {
    let mut interner = Interner::new();
    let tc = structs(&mut interner);
    let mut lc = LocalsContext::new();
    lc.set(interner.intern("i"), Type::Int);
    lc.set(interner.intern("t"), Type::Bool);
    lc.set(interner.intern("s"), ty(&mut interner, "string"));
    lc.set(interner.intern("v"), ty(&mut interner, "int[]"));
    lc.set(interner.intern("p"), ty(&mut interner, "b"));
    lc.set(interner.intern("f"), ty(&mut interner, "(int, a) -> bool"));
    lc.set(interner.intern("g"), ty(&mut interner, "() -> void"));
    let mut type_of = |text: &str| {
        let e = expr(&mut interner, text);
        e.type_check(&tc, &lc)
    };
    assert_eq!(type_of("1"), Ok(Type::Int));
    assert_eq!(type_of("true"), Ok(Type::Bool));
    assert_eq!(type_of("\"x\""), Ok(Type::Ref(ReferenceType::String)));
    assert_eq!(type_of("string null"), Ok(Type::NullRef(ReferenceType::String)));
    assert_eq!(type_of("i"), Ok(Type::Int));
    assert_eq!(type_of("i + 1 * i"), Ok(Type::Int));
    assert_eq!(type_of("i << 2"), Ok(Type::Int));
    assert_eq!(type_of("i [&] 3"), Ok(Type::Int));
    assert_eq!(type_of("i < 1"), Ok(Type::Bool));
    assert_eq!(type_of("t & t | t"), Ok(Type::Bool));
    assert_eq!(type_of("s == s"), Ok(Type::Bool));
    assert_eq!(type_of("i != i"), Ok(Type::Bool));
    assert_eq!(type_of("-i"), Ok(Type::Int));
    assert_eq!(type_of("~i"), Ok(Type::Int));
    assert_eq!(type_of("!t"), Ok(Type::Bool));
    assert_eq!(type_of("length(v)"), Ok(Type::Int));
    assert_eq!(type_of("v[0]"), Ok(Type::Int));
    assert_eq!(type_of("p.y"), Ok(Type::Int));
    assert_eq!(type_of("new int[3]"), Ok(Type::Ref(ReferenceType::Array(Box::new(Type::Int)))));
    assert_eq!(type_of("new int[]{1, 2}"), Ok(Type::Ref(ReferenceType::Array(Box::new(Type::Int)))));
    assert_eq!(type_of("f(1, p)"), Ok(Type::Bool));
}

#[test]
fn each_expression_error_has_its_input() {
    let mut interner = Interner::new();
    let tc = structs(&mut interner);
    let mut lc = LocalsContext::new();
    lc.set(interner.intern("i"), Type::Int);
    lc.set(interner.intern("t"), Type::Bool);
    lc.set(interner.intern("v"), ty(&mut interner, "int[]"));
    lc.set(interner.intern("p"), ty(&mut interner, "b"));
    lc.set(interner.intern("q"), ty(&mut interner, "nowhere"));
    lc.set(interner.intern("f"), ty(&mut interner, "(int, a) -> bool"));
    lc.set(interner.intern("g"), ty(&mut interner, "() -> void"));
    let u = interner.intern("u");
    let w = interner.intern("w");
    let nowhere = interner.intern("nowhere");
    let b = ty(&mut interner, "b");
    let mut error = |text: &str| {
        let e = expr(&mut interner, text);
        e.type_check(&tc, &lc).expect_err("the expression is ill typed")
    };
    assert_eq!(error("u"), TypeError::UndefinedVariable(u));
    assert_eq!(error("length(i)"), TypeError::CannotGetLength(Type::Int));
    assert_eq!(error("i[0]"), TypeError::CannotSubscript(Type::Int));
    assert_eq!(error("v[t]"), TypeError::NonIntegerIndex(Type::Bool));
    assert_eq!(error("p.w"), TypeError::FieldNotFound(b.clone(), w));
    assert_eq!(error("q.w"), TypeError::StructNotFound(nowhere));
    assert_eq!(error("i.w"), TypeError::IncompatibleType);
    assert_eq!(error("-t"), TypeError::IncompatibleType);
    assert_eq!(error("!i"), TypeError::IncompatibleType);
    assert_eq!(error("i + t"), TypeError::IncompatibleType);
    assert_eq!(error("i & t"), TypeError::IncompatibleType);
    assert_eq!(error("i == t"), TypeError::IncompatibleType);
    assert_eq!(error("new int[t]"), TypeError::ArrayLength(Type::Bool));
    assert_eq!(
        error("new int[]{1, t}"),
        TypeError::IncompatibleArrayElement { array: Type::Int, elt: Type::Bool }
    );
    assert_eq!(error("i(1)"), TypeError::CanOnlyCallFunctions);
    assert_eq!(error("f(1)"), TypeError::IncompatibleFunctionArgCounts { expected: 2, given: 1 });
    assert_eq!(error("f(t, p)"), TypeError::IncompatibleType);
    assert_eq!(error("g()"), TypeError::VoidExpression);
    assert_eq!(error("u + length(i)"), TypeError::UndefinedVariable(u));
}

#[test]
fn struct_literals_give_every_field_once() {
    let mut interner = Interner::new();
    let tc = structs(&mut interner);
    let lc = LocalsContext::new();
    let b = interner.intern("b");
    let x = interner.intern("x");
    let y = interner.intern("y");
    let z = interner.intern("z");
    let nowhere = interner.intern("nowhere");
    let literal = |name, fields: Vec<(oatmilk::symbol::Symbol, i64)>| {
        Expression::CStruct(name, fields.into_iter().map(|(f, v)| (f, Expression::CInt(v))).collect())
    };
    let b_type = Type::Ref(ReferenceType::Struct(b));
    assert_eq!(literal(b, vec![(x, 1), (y, 2)]).type_check(&tc, &lc), Ok(b_type.clone()));
    assert_eq!(literal(b, vec![(y, 2), (x, 1)]).type_check(&tc, &lc), Ok(b_type.clone()));
    // fields that the struct does not have are not looked at
    assert_eq!(literal(b, vec![(y, 2), (z, 0), (x, 1)]).type_check(&tc, &lc), Ok(b_type.clone()));
    assert_eq!(
        literal(b, vec![(x, 1)]).type_check(&tc, &lc),
        Err(TypeError::MissingField(b_type.clone(), y))
    );
    assert_eq!(
        literal(nowhere, vec![(x, 1)]).type_check(&tc, &lc),
        Err(TypeError::StructNotFound(nowhere))
    );
    assert_eq!(
        Expression::CStruct(b, vec![(x, Expression::CInt(1)), (y, Expression::CBool(true))])
            .type_check(&tc, &lc),
        Err(TypeError::IncompatibleType)
    );
}

#[test]
fn a_field_given_twice_is_rejected_in_any_order() {
    let mut interner = Interner::new();
    let tc = structs(&mut interner);
    let lc = LocalsContext::new();
    let b = interner.intern("b");
    let x = interner.intern("x");
    let y = interner.intern("y");
    let nowhere = interner.intern("nowhere");
    let one = || Expression::CInt(1);
    for fields in [
        vec![(x, one()), (x, one()), (y, one())],
        vec![(x, one()), (y, one()), (x, one())],
        vec![(y, one()), (x, one()), (x, one())],
    ] {
        assert_eq!(check_duplicate_fields(&fields).err(), Some(TypeError::DuplicateField(x)));
        assert_eq!(
            Expression::CStruct(b, fields.clone()).type_check(&tc, &lc),
            Err(TypeError::DuplicateField(x))
        );
        // whatever the struct
        assert_eq!(
            Expression::CStruct(nowhere, fields).type_check(&tc, &lc),
            Err(TypeError::DuplicateField(x))
        );
    }
    // the first field that repeats is named
    assert_eq!(
        Expression::CStruct(b, vec![(y, one()), (x, one()), (x, one()), (y, one())])
            .type_check(&tc, &lc),
        Err(TypeError::DuplicateField(x))
    );
    let index = check_duplicate_fields(&vec![(y, one()), (x, one())]).unwrap();
    assert_eq!(index.get(x), Some(&1));
    assert_eq!(index.get(y), Some(&0));
}

#[test]
fn a_function_that_may_fall_through_did_not_return() {
    assert_eq!(
        check("int f(int x) { if (x==0) { return 1; } }"),
        Err(TypeError::DidNotReturn { expected_ret_type: ReturnType::ReturnValue(Type::Int) })
    );
    assert_eq!(
        check("int f() { }"),
        Err(TypeError::DidNotReturn { expected_ret_type: ReturnType::ReturnValue(Type::Int) })
    );
    assert_eq!(
        check("bool f(int x) { var y = x; while (y < 3) { y = y + 1; } }"),
        Err(TypeError::DidNotReturn { expected_ret_type: ReturnType::ReturnValue(Type::Bool) })
    );
    assert_eq!(check("int f(int x) { if (x==0) { return 1; } else { return 2; } }"), Ok(()));
    assert_eq!(check("int f(int x) { if (x==0) { return 1; } return 2; }"), Ok(()));
    assert_eq!(check("void f() { }"), Ok(()));
}

#[test]
fn code_after_a_return_is_dead() {
    assert_eq!(check("int f() { return 1; return 2; }"), Err(TypeError::DeadCodeAfterReturn));
    assert_eq!(check("void f() { return; var x = 1; }"), Err(TypeError::DeadCodeAfterReturn));
    assert_eq!(
        check("int f(int x) { if (x == 0) { return 1; x = 2; } return 3; }"),
        Err(TypeError::DeadCodeAfterReturn)
    );
    assert_eq!(
        check("int f(int x) { if (x == 0) { return 1; } else { return 2; } return 3; }"),
        Err(TypeError::DeadCodeAfterReturn)
    );
}

#[test]
fn a_function_cannot_be_assigned() {
    assert_eq!(check("void f() { f = 3; }"), Err(TypeError::CannotAssignFunction));
    assert_eq!(check("void g() { } void f() { g = f; }"), Err(TypeError::CannotAssignFunction));
}

#[test]
fn each_statement_error_has_its_input() {
    assert_eq!(check("int f() { return; }"), Err(TypeError::ReturnValueMissing));
    assert_eq!(check("void f() { return 1; }"), Err(TypeError::ReturnValueProvidedInVoidFunction));
    assert_eq!(check("int f() { return true; }"), Err(TypeError::IncompatibleType));
    assert_eq!(check("void f() { var x = 1; x = true; }"), Err(TypeError::IncompatibleType));
    assert_eq!(check("void f() { if (1) { } }"), Err(TypeError::IncompatibleType));
    assert_eq!(check("void f() { while (1) { } }"), Err(TypeError::IncompatibleType));
    assert_eq!(check("void f() { for (; 1; ) { } }"), Err(TypeError::IncompatibleType));
    assert_eq!(check("int g() { return 1; } void f() { g(); }"), Err(TypeError::IncompatibleType));
    assert_eq!(
        check("void g(int x) { } void f() { g(); }"),
        Err(TypeError::IncompatibleFunctionArgCounts { expected: 1, given: 0 })
    );
    assert_eq!(check("void f() { var x = 1; if? (string s = x) { } }"), Err(TypeError::IncompatibleType));
    assert_eq!(check("global g = 1; void f() { var x = g + h; }").is_err(), true);
}

#[test]
fn programs_that_the_rules_accept() {
    assert_eq!(check("struct empty {}\nvoid f() { }"), Ok(()));
    assert_eq!(check("int main() { return 42; }"), Ok(()));
    assert_eq!(check("int f(int x) { return x + 1; }"), Ok(()));
    assert_eq!(
        check("struct point { int x; int y; }  int dist(point p) { return p.x + p.y; }"),
        Ok(())
    );
    assert_eq!(
        check(
            "global limit = 10;
             global name = \"oat\";
             global other = limit;
             int sum(int[] v) {
                 var total = 0;
                 for (var i = 0; i < length(v); i = i + 1) { total = total + v[i]; }
                 return total;
             }
             int first(int[]? v) {
                 if? (int[] w = v) { return w[0]; } else { return limit; }
             }
             void run() {
                 var v = new int[]{1, 2, 3};
                 var s = sum(v);
                 v[0] = s;
                 run();
                 return;
             }
             int forever() { for (; true; ) { return 1; } }
             int twice((int) -> int f, int x) { return f(f(x)); }"
        ),
        Ok(())
    );
}

#[test]
fn globals_are_known_to_every_function() {
    assert_eq!(check("int f() { return g(); } int g() { return f(); }"), Ok(()));
    assert_eq!(check("global a = b; global b = 1;").is_err(), true);
    assert_eq!(check("global b = 1; global a = b; int f() { return a; }"), Ok(()));
}

#[test]
fn blocks_scope_what_they_declare() {
    let mut interner = Interner::new();
    let tc = TypingContext::new();
    let x = interner.intern("x");
    let lc = LocalsContext::new();
    let declare = stmt(&mut interner, "var x = 1;");
    let (ends, lc) = type_check_statement(&declare, &tc, lc, &ReturnType::ReturnVoid).unwrap();
    assert!(!ends);
    assert_eq!(lc.lookup(x), Some(Type::Int));
    let shadow = vec![stmt(&mut interner, "var x = true;"), stmt(&mut interner, "return;")];
    let (ends, lc) = type_check_block(&shadow, &tc, lc, &ReturnType::ReturnVoid).unwrap();
    assert!(ends);
    assert_eq!(lc.lookup(x), Some(Type::Int));
    let lc = lc.new_child();
    assert_eq!(lc.lookup(x), Some(Type::Int));
    let mut lc = lc;
    lc.set(x, Type::Bool);
    assert_eq!(lc.lookup(x), Some(Type::Bool));
    let lc = lc.parent();
    assert_eq!(lc.lookup(x), Some(Type::Int));
    let lc = lc.parent();
    assert_eq!(lc.lookup(x), Some(Type::Int));
}

#[test]
fn fields_are_found_by_name() {
    let mut interner = Interner::new();
    let tc = structs(&mut interner);
    let b = interner.intern("b");
    let x = interner.intern("x");
    let y = interner.intern("y");
    let z = interner.intern("z");
    assert_eq!(tc.len(), 4);
    assert_eq!(tc.get_field(&b, &x), Some((0, &Type::Int)));
    assert_eq!(tc.get_field(&b, &y), Some((1, &Type::Int)));
    assert_eq!(tc.get_field(&b, &z), None);
    assert_eq!(tc.get_field(&z, &x), None);
    assert_eq!(tc.get_type(&b).map(|f| f.len()), Some(2));
    assert!(Type::NullRef(ReferenceType::String).is_nullable());
    assert!(!Type::Int.is_nullable());
}
