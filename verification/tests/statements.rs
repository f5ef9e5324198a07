use oatmilk::ast::{
    BinaryOp, Declaration, Expression, FieldSet, FunctionDecl, GlobalDeclaration, Program,
    ReferenceType, ReturnType, Statement, Type, TypeDeclaration,
};
use oatmilk::error::ParseError;
use oatmilk::parse::{parse_block, parse_declaration, parse_statement};
use oatmilk::parser::parse_program;
use oatmilk::symbol::Interner;

fn statement(interner: &mut Interner, text: &str) -> Statement {
    let (found, rest) = parse_statement(interner, text).expect("the text is a statement");
    assert_eq!(rest, text.chars().count());
    found
}

fn block(interner: &mut Interner, text: &str) -> Vec<Statement> {
    let (found, rest) = parse_block(interner, text).expect("the text is a block");
    assert_eq!(rest, text.chars().count());
    found
}

fn declaration(interner: &mut Interner, text: &str) -> Declaration {
    let (found, rest) = parse_declaration(interner, text).expect("the text is a declaration");
    assert_eq!(rest, text.chars().count());
    found
}

fn id(interner: &mut Interner, name: &str) -> Expression {
    Expression::Id(interner.intern(name))
}

fn binary(op: BinaryOp, left: Expression, right: Expression) -> Expression {
    Expression::Binary { op, left: Box::new(left), right: Box::new(right) }
}

#[test]
fn assignment() {
    let mut interner = Interner::new();
    let x = id(&mut interner, "x");
    assert_eq!(statement(&mut interner, "x = 0;"), Statement::Assignment(x, (0i64).into()));
}

#[test]
fn if_() {
    let mut interner = Interner::new();
    let x = id(&mut interner, "x");
    let y = id(&mut interner, "y");
    assert_eq!(
        statement(&mut interner, "if (x == 0) { y = 1; } else { y = 2; }"),
        Statement::If {
            condition: binary(BinaryOp::Eq, x, 0i64.into()),
            then: vec![Statement::Assignment(y.clone(), 1i64.into())],
            else_: vec![Statement::Assignment(y.clone(), 2i64.into())],
        }
    );
}

#[test]
fn for_() {
    let mut interner = Interner::new();
    let x = id(&mut interner, "x");
    let f = id(&mut interner, "f");
    let name = interner.intern("x");
    assert_eq!(
        statement(&mut interner, "for (var x = 0; x < 10; x = x + 1) { f(x); }"),
        Statement::For {
            init: vec![(name, 0_i64.into())],
            condition: Some(binary(BinaryOp::Lt, x.clone(), 10_i64.into())),
            update: Some(Box::new(Statement::Assignment(
                x.clone(),
                binary(BinaryOp::Add, x.clone(), 1_i64.into()),
            ))),
            body: vec![Statement::SCall(f, vec![x.clone()])],
        }
    );
}

#[test]
fn simple_block() {
    let mut interner = Interner::new();
    assert_eq!(parse_block(&mut interner, "{}"), Ok((vec![], 2)));
}

#[test]
fn single_statment() {
    let mut interner = Interner::new();
    let x = id(&mut interner, "x");
    assert_eq!(block(&mut interner, "{ x=0; }"), vec![Statement::Assignment(x, 0i64.into())]);
}

#[test]
fn multi_statement() {
    let mut interner = Interner::new();
    let x = id(&mut interner, "x");
    assert_eq!(
        block(&mut interner, "{ x=0; x=1; }"),
        vec![
            Statement::Assignment(x.clone(), 0i64.into()),
            Statement::Assignment(x.clone(), 1i64.into()),
        ]
    );
}

#[test]
fn simple_function() {
    let mut interner = Interner::new();
    let f = interner.intern("f");
    assert_eq!(
        declaration(&mut interner, "void f() {}"),
        Declaration::Function(FunctionDecl {
            return_type: ReturnType::ReturnVoid,
            name: f,
            args: vec![],
            body: vec![],
        })
    );
}

#[test]
fn one_arg() {
    let mut interner = Interner::new();
    let f = interner.intern("f");
    let x = interner.intern("x");
    assert_eq!(
        declaration(&mut interner, "void f(int x) {}"),
        Declaration::Function(FunctionDecl {
            return_type: ReturnType::ReturnVoid,
            name: f,
            args: vec![(Type::Int, x)],
            body: vec![],
        })
    );
}

#[test]
fn empty_struct() {
    let mut interner = Interner::new();
    let empty = interner.intern("empty");
    assert_eq!(
        declaration(&mut interner, "struct empty {}"),
        Declaration::Type(TypeDeclaration { name: empty, fields: FieldSet::new() })
    );
}

#[test]
fn point() {
    let mut interner = Interner::new();
    let point = interner.intern("point");
    let x = interner.intern("x");
    let y = interner.intern("y");
    let mut fields = FieldSet::new();
    fields.insert(x, Type::Int);
    fields.insert(y, Type::Int);
    assert_eq!(
        declaration(&mut interner, "struct point { int x; int y; }"),
        Declaration::Type(TypeDeclaration { name: point, fields })
    );
}

#[test]
fn point_program() {
    let mut interner = Interner::new();
    let src = "struct empty {}\nvoid f() {  }\nstruct point { int x; int y; }\n";
    let program = parse_program(&mut interner, src).expect("the text is a program");
    assert_eq!(program.declarations.len(), 3);
    assert!(matches!(program.declarations[0], Declaration::Type(_)));
    assert!(matches!(program.declarations[1], Declaration::Function(_)));
    assert!(matches!(program.declarations[2], Declaration::Type(_)));
}

#[test]
fn an_empty_struct_and_an_empty_function_make_a_program() {
    let mut interner = Interner::new();
    let empty = interner.intern("empty");
    let f = interner.intern("f");
    assert_eq!(
        parse_program(&mut interner, "struct empty {}\nvoid f() { }"),
        Ok(Program {
            declarations: vec![
                Declaration::Type(TypeDeclaration { name: empty, fields: FieldSet::new() }),
                Declaration::Function(FunctionDecl {
                    return_type: ReturnType::ReturnVoid,
                    name: f,
                    args: vec![],
                    body: vec![],
                }),
            ],
        })
    );
}

#[test]
fn a_program_has_to_be_declarations_to_its_end() {
    let mut interner = Interner::new();
    assert_eq!(parse_program(&mut interner, ""), Ok(Program { declarations: vec![] }));
    assert_eq!(
        parse_program(&mut interner, "void f() {} oops"),
        Err(ParseError::RemainingInput("oops".to_string()))
    );
    // the declaration that does not parse is the rest
    assert_eq!(
        parse_program(&mut interner, "void f() {}\nint g() { return ; ; }"),
        Err(ParseError::RemainingInput("int g() { return ; ; }".to_string()))
    );
    assert_eq!(
        parse_program(&mut interner, "void f() { x = #; }"),
        Err(ParseError::ParserError(15))
    );
}

#[test]
fn every_kind_of_statement_parses() {
    let mut interner = Interner::new();
    let x = id(&mut interner, "x");
    let f = id(&mut interner, "f");
    let s = interner.intern("s");
    let name = interner.intern("x");
    assert_eq!(
        statement(&mut interner, "var x = 1;"),
        Statement::Declaration(name, 1i64.into())
    );
    assert_eq!(statement(&mut interner, "return;"), Statement::Return(None));
    assert_eq!(statement(&mut interner, "return x;"), Statement::Return(Some(x.clone())));
    assert_eq!(
        statement(&mut interner, "f(x);"),
        Statement::SCall(f.clone(), vec![x.clone()])
    );
    assert_eq!(
        statement(&mut interner, "while (true) { }"),
        Statement::While { condition: Expression::CBool(true), body: vec![] }
    );
    assert_eq!(
        statement(&mut interner, "if (x) { return; }"),
        Statement::If { condition: x.clone(), then: vec![Statement::Return(None)], else_: vec![] }
    );
    assert_eq!(
        statement(&mut interner, "if? (string s = x) { f(s); } else { }"),
        Statement::Cast(
            ReferenceType::String,
            s,
            x.clone(),
            vec![Statement::SCall(f.clone(), vec![Expression::Id(s)])],
            vec![]
        )
    );
    assert_eq!(
        statement(&mut interner, "for (;;) { }"),
        Statement::For { init: vec![], condition: None, update: None, body: vec![] }
    );
    assert_eq!(
        statement(&mut interner, "for (var x = 0, s = 1; ; f()) { }"),
        Statement::For {
            init: vec![(name, 0i64.into()), (s, 1i64.into())],
            condition: None,
            update: Some(Box::new(Statement::SCall(f.clone(), vec![]))),
            body: vec![],
        }
    );
    assert_eq!(
        statement(&mut interner, "x[0] = x.s;"),
        Statement::Assignment(
            Expression::Index { value: Box::new(x.clone()), index: Box::new(0i64.into()) },
            Expression::Proj(Box::new(x.clone()), s)
        )
    );
}

#[test]
fn an_expression_that_is_no_call_is_no_statement() {
    let mut interner = Interner::new();
    assert_eq!(parse_statement(&mut interner, "x + 1;"), Err(ParseError::ParserError(0)));
    assert_eq!(parse_statement(&mut interner, "x = 1"), Err(ParseError::ParserError(0)));
    assert_eq!(parse_statement(&mut interner, "var = 1;"), Err(ParseError::ParserError(0)));
    assert_eq!(parse_block(&mut interner, "{ x = 1; "), Err(ParseError::ParserError(0)));
}

#[test]
fn globals_take_constants() {
    let mut interner = Interner::new();
    let g = interner.intern("g");
    let h = interner.intern("h");
    assert_eq!(
        declaration(&mut interner, "global g = 42;"),
        Declaration::Variable(GlobalDeclaration { name: g, init: Expression::CInt(42) })
    );
    assert_eq!(
        declaration(&mut interner, "global g = -42;"),
        Declaration::Variable(GlobalDeclaration { name: g, init: Expression::CInt(-42) })
    );
    assert_eq!(
        declaration(&mut interner, "global g = \"text\";"),
        Declaration::Variable(GlobalDeclaration { name: g, init: Expression::CStr("text".to_string()) })
    );
    assert_eq!(
        declaration(&mut interner, "global g = true;"),
        Declaration::Variable(GlobalDeclaration { name: g, init: Expression::CBool(true) })
    );
    assert_eq!(
        declaration(&mut interner, "global g = int[] null;"),
        Declaration::Variable(GlobalDeclaration {
            name: g,
            init: Expression::CNull(ReferenceType::Array(Box::new(Type::Int))),
        })
    );
    assert_eq!(
        declaration(&mut interner, "global g = h;"),
        Declaration::Variable(GlobalDeclaration { name: g, init: Expression::Id(h) })
    );
    // anything else is no initializer of a global
    assert_eq!(parse_declaration(&mut interner, "global g = 1 + 2;"), Err(ParseError::ParserError(0)));
    assert_eq!(parse_declaration(&mut interner, "global g = f();"), Err(ParseError::ParserError(0)));
}

#[test]
fn fields_keep_their_order() {
    let mut interner = Interner::new();
    let d = declaration(&mut interner, "struct s { int b; bool a; string c; }");
    let b = interner.intern("b");
    let a = interner.intern("a");
    let c = interner.intern("c");
    match d {
        Declaration::Type(t) => {
            assert_eq!(t.fields.len(), 3);
            assert_eq!(t.fields.get_index(0), Some((b, &Type::Int)));
            assert_eq!(t.fields.get_index(1), Some((a, &Type::Bool)));
            assert_eq!(t.fields.get_index(2), Some((c, &Type::Ref(ReferenceType::String))));
        },
        _ => panic!("a struct was declared"),
    }
}
