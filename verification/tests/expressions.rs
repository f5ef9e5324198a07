use oatmilk::ast::{BinaryOp, Expression, ReferenceType, Type, UnaryOp};
use oatmilk::error::ParseError;
use oatmilk::parse::{
    parenthesized, parse_array, parse_binop, parse_bool, parse_call, parse_expression, parse_identifier,
    parse_length, parse_null, parse_projection, parse_unop,
};
use oatmilk::parser::{parse_suffix, prepare};
use oatmilk::symbol::{Interner, Symbol};

fn parses(interner: &mut Interner, text: &str) -> Expression {
    let (found, rest) = parse_expression(interner, text).expect("the text is an expression");
    assert_eq!(rest, text.chars().count());
    found
}

fn id(interner: &mut Interner, name: &str) -> Expression {
    Expression::Id(interner.intern(name))
}

fn binary(op: BinaryOp, left: Expression, right: Expression) -> Expression {
    Expression::Binary { op, left: Box::new(left), right: Box::new(right) }
}

#[test]
fn from_i64() {
    assert_eq!(Expression::CInt(23_i64), 23_i64.into())
}

#[test]
fn from_i32() {
    assert_eq!(Expression::CInt(23_i64), 23_i32.into())
}

#[test]
fn carray() {
    let mut interner = Interner::new();
    let text = "new int[]{ 1, 2, 3 }";
    assert_eq!(
        parse_array(&mut interner, text),
        Ok((
            Expression::CArr(Type::Int, vec![1i64.into(), 2i64.into(), 3i64.into()]),
            text.chars().count()
        ))
    );
}

#[test]
fn new_array() {
    let mut interner = Interner::new();
    assert_eq!(
        parse_array(&mut interner, "new int[3]"),
        Ok((Expression::NewArr(Type::Int, Box::new(3i64.into())), 10))
    );
}

#[test]
fn bool_tests() {
    let mut interner = Interner::new();
    assert_eq!(parse_bool(&mut interner, "true"), Ok((Expression::CBool(true), 4)));
    assert_eq!(parse_bool(&mut interner, "false"), Ok((Expression::CBool(false), 5)));
    assert_eq!(parse_bool(&mut interner, "True"), Err(ParseError::ParserError(0)));
}

#[test]
fn all_alpha() {
    let mut interner = Interner::new();
    let expected = interner.intern("variable");
    assert_eq!(parse_identifier(&mut interner, "variable").unwrap(), (expected, 8));
}

#[test]
fn test_suffix() {
    let mut interner = Interner::new();
    let base = id(&mut interner, "base");
    let x = id(&mut interner, "x");
    let name = interner.intern("name");

    let src = prepare(&mut interner, "(1)").unwrap();
    assert_eq!(
        parse_suffix(&src, 0, base.clone()),
        (Expression::Call(Box::new(base.clone()), vec![Expression::CInt(1i64)]), 3)
    );

    let src = prepare(&mut interner, "(1, x)").unwrap();
    assert_eq!(
        parse_suffix(&src, 0, base.clone()),
        (
            Expression::Call(Box::new(base.clone()), vec![Expression::CInt(1i64), x.clone()]),
            src.tokens.len()
        )
    );

    let src = prepare(&mut interner, "[x]").unwrap();
    assert_eq!(
        parse_suffix(&src, 0, base.clone()),
        (Expression::Index { value: Box::new(base.clone()), index: Box::new(x.clone()) }, 3)
    );

    let src = prepare(&mut interner, ".name").unwrap();
    assert_eq!(
        parse_suffix(&src, 0, base.clone()),
        (Expression::Proj(Box::new(base.clone()), name), 2)
    );
}

#[test]
fn negative() {
    let mut interner = Interner::new();
    let x = id(&mut interner, "x");
    assert_eq!(parses(&mut interner, "-x"), Expression::Unary(UnaryOp::Neg, Box::new(x)));
}

#[test]
fn mod_string() {
    let mut interner = Interner::new();
    assert_eq!(parses(&mut interner, "\"hello\""), Expression::CStr("hello".to_string()));
    assert_eq!(
        oatmilk::parse::parse_reftype(&mut interner, "string"),
        Ok((ReferenceType::String, 6))
    );
}

#[test]
fn length() {
    let mut interner = Interner::new();
    let a = id(&mut interner, "a");
    assert_eq!(parses(&mut interner, "length(a)"), Expression::Length(Box::new(a.clone())));
    assert_eq!(
        parse_length(&mut interner, "length(a)"),
        Ok((Expression::Length(Box::new(a)), 9))
    );
}

#[test]
fn call_empty() {
    let mut interner = Interner::new();
    let f = id(&mut interner, "f");
    assert_eq!(parses(&mut interner, "f()"), Expression::Call(Box::new(f), vec![]));
}

#[test]
fn call_several() {
    let mut interner = Interner::new();
    let g = id(&mut interner, "g");
    let x = id(&mut interner, "x");
    let y = id(&mut interner, "y");
    assert_eq!(
        parses(&mut interner, "g(x, y, 0, 1)"),
        Expression::Call(Box::new(g), vec![x, y, 0i64.into(), 1i64.into()])
    );
}

#[test]
fn nested_calls() {
    let mut interner = Interner::new();
    let f = id(&mut interner, "f");
    let g = id(&mut interner, "g");
    assert_eq!(
        parses(&mut interner, "f(g())"),
        Expression::Call(Box::new(f), vec![Expression::Call(Box::new(g), vec![])])
    );
}

#[test]
fn negated_compound() {
    let mut interner = Interner::new();
    let f = id(&mut interner, "f");
    let x = id(&mut interner, "x");
    let y = id(&mut interner, "y");
    assert_eq!(
        parses(&mut interner, "!f(x, y)"),
        Expression::Unary(UnaryOp::Lognot, Box::new(Expression::Call(Box::new(f), vec![x, y])))
    );
}

#[test]
fn binary_expression() {
    let mut interner = Interner::new();
    assert_eq!(
        parses(&mut interner, "2 + 3"),
        binary(BinaryOp::Add, Expression::CInt(2), Expression::CInt(3))
    );
}

#[test]
fn complex_call() {
    let mut interner = Interner::new();
    let request = id(&mut interner, "request");
    let headers = interner.intern("headers");
    let browser = interner.intern("browser");
    let user_agent = Expression::CStr("User-Agent".to_string());
    let request_headers = Expression::Proj(Box::new(request), headers);
    let req_head_user_agent =
        Expression::Index { value: Box::new(request_headers), index: Box::new(user_agent) };
    let rh_ua_browser = Expression::Proj(Box::new(req_head_user_agent), browser);
    assert_eq!(
        parses(&mut interner, "request.headers[\"User-Agent\"].browser()"),
        Expression::Call(Box::new(rh_ua_browser), vec![])
    );
}

#[test]
fn null_string() {
    let mut interner = Interner::new();
    assert_eq!(
        parse_null(&mut interner, "string NULL"),
        Ok((Expression::CNull(ReferenceType::String), 11))
    );
}

#[test]
fn array() {
    let mut interner = Interner::new();
    assert_eq!(
        parse_null(&mut interner, "int[] NULL"),
        Ok((Expression::CNull(ReferenceType::Array(Box::new(Type::Int))), 10))
    );
}

#[test]
fn null_is_spelled_in_either_case() {
    let mut interner = Interner::new();
    assert_eq!(
        parse_null(&mut interner, "string null"),
        Ok((Expression::CNull(ReferenceType::String), 11))
    );
}

#[test]
fn operators_of_one_precedence_group_to_the_left() {
    let mut interner = Interner::new();
    let a = id(&mut interner, "a");
    let b = id(&mut interner, "b");
    let c = id(&mut interner, "c");
    assert_eq!(
        parses(&mut interner, "a+b+c"),
        binary(BinaryOp::Add, binary(BinaryOp::Add, a.clone(), b.clone()), c.clone())
    );
    assert_eq!(
        parses(&mut interner, "a-b-c"),
        binary(BinaryOp::Sub, binary(BinaryOp::Sub, a, b), c)
    );
}

#[test]
fn multiplication_binds_tighter_than_addition() {
    let mut interner = Interner::new();
    let a = id(&mut interner, "a");
    let b = id(&mut interner, "b");
    let c = id(&mut interner, "c");
    assert_eq!(
        parses(&mut interner, "a + b * c"),
        binary(BinaryOp::Add, a.clone(), binary(BinaryOp::Mul, b.clone(), c.clone()))
    );
    assert_eq!(
        parses(&mut interner, "a * b + c"),
        binary(BinaryOp::Add, binary(BinaryOp::Mul, a.clone(), b.clone()), c.clone())
    );
    assert_eq!(
        parses(&mut interner, "(a + b) * c"),
        binary(BinaryOp::Mul, binary(BinaryOp::Add, a, b), c)
    );
}

#[test]
fn precedence_orders_every_group() {
    let mut interner = Interner::new();
    let a = id(&mut interner, "a");
    let b = id(&mut interner, "b");
    let c = id(&mut interner, "c");
    let d = id(&mut interner, "d");
    // shifts bind tighter than comparisons, and addition tighter than shifts
    assert_eq!(
        parses(&mut interner, "a < b << c + d"),
        binary(
            BinaryOp::Lt,
            a.clone(),
            binary(BinaryOp::Shl, b.clone(), binary(BinaryOp::Add, c.clone(), d.clone()))
        )
    );
    // comparisons bind tighter than the bitwise operators, and those tighter
    // than the boolean operators
    assert_eq!(
        parses(&mut interner, "a | b [&] c == d"),
        binary(
            BinaryOp::Or,
            a.clone(),
            binary(BinaryOp::IAnd, b.clone(), binary(BinaryOp::Eq, c.clone(), d.clone()))
        )
    );
    assert_eq!(
        parses(&mut interner, "a >>> b >> c"),
        binary(BinaryOp::Shr, binary(BinaryOp::Sar, a, b), c)
    );
}

#[test]
fn a_prefix_operator_binds_tighter_than_a_binary_one() {
    let mut interner = Interner::new();
    let x = id(&mut interner, "x");
    let y = id(&mut interner, "y");
    assert_eq!(
        parses(&mut interner, "-x + ~y"),
        binary(
            BinaryOp::Add,
            Expression::Unary(UnaryOp::Neg, Box::new(x)),
            Expression::Unary(UnaryOp::Bitnot, Box::new(y))
        )
    );
}

#[test]
fn an_expression_stops_where_it_cannot_go_on() {
    let mut interner = Interner::new();
    let x = id(&mut interner, "x");
    // the rest starts at the `)`
    assert_eq!(parse_expression(&mut interner, "x + 1 ) y"), Ok((binary(BinaryOp::Add, x.clone(), 1i64.into()), 6)));
    // an operator without a right operand does not belong to the expression
    assert_eq!(parse_expression(&mut interner, "x +"), Ok((x, 2)));
    assert_eq!(parse_expression(&mut interner, ")"), Err(ParseError::ParserError(0)));
    assert_eq!(parse_expression(&mut interner, "  "), Err(ParseError::ParserError(2)));
    assert_eq!(parse_expression(&mut interner, "x $"), Err(ParseError::ParserError(2)));
}

#[test]
fn operators_are_read_from_text() {
    let mut interner = Interner::new();
    assert_eq!(parse_unop(&mut interner, "-"), Ok((UnaryOp::Neg, 1)));
    assert_eq!(parse_unop(&mut interner, "!"), Ok((UnaryOp::Lognot, 1)));
    assert_eq!(parse_unop(&mut interner, "~"), Ok((UnaryOp::Bitnot, 1)));
    assert_eq!(parse_unop(&mut interner, "+"), Err(ParseError::ParserError(0)));
    let table = [
        ("+", BinaryOp::Add),
        ("-", BinaryOp::Sub),
        ("*", BinaryOp::Mul),
        ("==", BinaryOp::Eq),
        ("!=", BinaryOp::Neq),
        ("<", BinaryOp::Lt),
        ("<=", BinaryOp::Lte),
        (">", BinaryOp::Gt),
        (">=", BinaryOp::Gte),
        ("&", BinaryOp::And),
        ("|", BinaryOp::Or),
        ("[&]", BinaryOp::IAnd),
        ("[|]", BinaryOp::IOr),
        ("<<", BinaryOp::Shl),
        (">>", BinaryOp::Shr),
        (">>>", BinaryOp::Sar),
    ];
    for (text, op) in table {
        assert_eq!(parse_binop(&mut interner, text), Ok((op, text.len())));
    }
    assert_eq!(parse_binop(&mut interner, "!"), Err(ParseError::ParserError(0)));
}

#[test]
fn calls_projections_and_parentheses_are_told_apart() {
    let mut interner = Interner::new();
    let f = id(&mut interner, "f");
    let p = id(&mut interner, "p");
    let x = interner.intern("x");
    assert_eq!(parse_call(&mut interner, "f()"), Ok((Expression::Call(Box::new(f.clone()), vec![]), 3)));
    assert_eq!(parse_call(&mut interner, "f"), Err(ParseError::ParserError(0)));
    assert_eq!(
        parse_projection(&mut interner, "p.x"),
        Ok((Expression::Proj(Box::new(p.clone()), x), 3))
    );
    assert_eq!(parse_projection(&mut interner, "p"), Err(ParseError::ParserError(0)));
    assert_eq!(parenthesized(&mut interner, "(p)"), Ok((p, 3)));
    assert_eq!(parenthesized(&mut interner, "p"), Err(ParseError::ParserError(0)));
}

#[test]
fn identifiers_are_interned_in_the_order_of_the_text() {
    let mut interner = Interner::new();
    let e = parses(&mut interner, "b + a + b");
    assert_eq!(interner.len(), 2);
    let b = Symbol::new(0);
    let a = Symbol::new(1);
    assert_eq!(interner.lookup(b), Some("b"));
    assert_eq!(interner.lookup(a), Some("a"));
    assert_eq!(
        e,
        binary(
            BinaryOp::Add,
            binary(BinaryOp::Add, Expression::Id(b), Expression::Id(a)),
            Expression::Id(b)
        )
    );
}
