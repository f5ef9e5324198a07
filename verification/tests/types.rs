use oatmilk::ast::{ReferenceType, ReturnType, Type};
use oatmilk::error::ParseError;
use oatmilk::parse::{parse_reftype, parse_return_type, parse_type};
use oatmilk::parser::{parse_types, prepare};
use oatmilk::symbol::{Interner, Symbol};

#[test]
fn int_arr() {
    let mut interner = Interner::new();
    assert_eq!(
        parse_type(&mut interner, "int[]"),
        Ok((Type::Ref(ReferenceType::Array(Box::new(Type::Int))), 5))
    );
}

#[test]
fn type_list() {
    let mut interner = Interner::new();
    let src = prepare(&mut interner, "()").unwrap();
    // between the parentheses stand no types
    assert_eq!(parse_types(&src, 1), (vec![], 1));
    let src = prepare(&mut interner, "(int, bool)").unwrap();
    assert_eq!(parse_types(&src, 1), (vec![Type::Int, Type::Bool], 4));
}

#[test]
fn fn_raw() {
    let mut interner = Interner::new();
    assert_eq!(
        parse_reftype(&mut interner, "() -> bool"),
        Ok((
            ReferenceType::Function(vec![], Box::new(ReturnType::ReturnValue(Type::Bool))),
            10
        ))
    );
}

#[test]
fn string_arr() {
    let mut interner = Interner::new();
    assert_eq!(
        parse_type(&mut interner, "string[]"),
        Ok((Type::Ref(ReferenceType::Array(Box::new(Type::Ref(ReferenceType::String)))), 8))
    );
}

#[test]
fn paren_int() {
    let mut interner = Interner::new();
    assert_eq!(parse_type(&mut interner, "(int)"), Ok((Type::Int, 5)));
}

#[test]
fn paren_int_arr() {
    let mut interner = Interner::new();
    assert_eq!(
        parse_type(&mut interner, "(int[])"),
        Ok((Type::Ref(ReferenceType::Array(Box::new(Type::Int))), 7))
    );
}

#[test]
fn nullable_string() {
    let mut interner = Interner::new();
    assert_eq!(parse_type(&mut interner, "string?"), Ok((Type::NullRef(ReferenceType::String), 7)));
}

#[test]
fn boolean() {
    let mut interner = Interner::new();
    assert_eq!(parse_type(&mut interner, "bool"), Ok((Type::Bool, 4)));
}

#[test]
fn int_() {
    let mut interner = Interner::new();
    assert_eq!(parse_type(&mut interner, "int"), Ok((Type::Int, 3)));
}

#[test]
fn fn_ret_bool() {
    let mut interner = Interner::new();
    assert_eq!(
        parse_type(&mut interner, "() -> bool"),
        Ok((
            Type::Ref(ReferenceType::Function(vec![], Box::new(ReturnType::ReturnValue(Type::Bool)))),
            10
        ))
    );
}

#[test]
fn my_class() {
    let mut interner = Interner::new();
    let name = interner.intern("MyClass");
    assert_eq!(
        parse_type(&mut interner, "MyClass"),
        Ok((Type::Ref(ReferenceType::Struct(name)), 7))
    );
}

#[test]
fn ret_void() {
    let mut interner = Interner::new();
    assert_eq!(parse_return_type(&mut interner, "void"), Ok((ReturnType::ReturnVoid, 4)));
}

#[test]
fn ret_bool() {
    let mut interner = Interner::new();
    assert_eq!(
        parse_return_type(&mut interner, "bool"),
        Ok((ReturnType::ReturnValue(Type::Bool), 4))
    );
}

#[test]
fn ret_null_ref() {
    let mut interner = Interner::new();
    let my_class = ReferenceType::Struct(interner.intern("MyClass"));
    assert_eq!(
        parse_return_type(&mut interner, "MyClass?"),
        Ok((ReturnType::ReturnValue(Type::NullRef(my_class)), 8))
    );
}

#[test]
fn ret_struct_ref() {
    let mut interner = Interner::new();
    let my_class = ReferenceType::Struct(interner.intern("MyClass"));
    assert_eq!(
        parse_return_type(&mut interner, "MyClass"),
        Ok((ReturnType::ReturnValue(Type::Ref(my_class)), 7))
    );
}

#[test]
fn function_types_take_arguments() {
    let mut interner = Interner::new();
    assert_eq!(
        parse_type(&mut interner, "(int, string) -> void"),
        Ok((
            Type::Ref(ReferenceType::Function(
                vec![Type::Int, Type::Ref(ReferenceType::String)],
                Box::new(ReturnType::ReturnVoid)
            )),
            21
        ))
    );
}

#[test]
fn the_nullable_mark_applies_to_reference_types_only() {
    let mut interner = Interner::new();
    // `int` takes no `?`: the type ends before it
    assert_eq!(parse_type(&mut interner, "int?"), Ok((Type::Int, 3)));
    assert_eq!(
        parse_type(&mut interner, "int[]?"),
        Ok((Type::NullRef(ReferenceType::Array(Box::new(Type::Int))), 6))
    );
    assert_eq!(
        parse_type(&mut interner, "int[]?[]"),
        Ok((
            Type::Ref(ReferenceType::Array(Box::new(Type::NullRef(ReferenceType::Array(Box::new(
                Type::Int
            )))))),
            8
        ))
    );
}

#[test]
fn what_is_no_reference_type_is_refused_as_one() {
    let mut interner = Interner::new();
    assert_eq!(parse_reftype(&mut interner, "int"), Err(ParseError::ParserError(0)));
    assert_eq!(parse_reftype(&mut interner, "string?"), Err(ParseError::ParserError(0)));
    assert_eq!(parse_type(&mut interner, "void"), Err(ParseError::ParserError(0)));
}

#[test]
fn types_are_shown_as_text() {
    let mut interner = Interner::new();
    let point = Symbol::intern(&mut interner, "point");
    assert_eq!(Type::Bool.to_text(&interner), Some("bool".to_string()));
    assert_eq!(Type::Int.to_text(&interner), Some("int".to_string()));
    assert_eq!(
        Type::Ref(ReferenceType::String).to_text(&interner),
        Some("string".to_string())
    );
    assert_eq!(
        Type::NullRef(ReferenceType::Struct(point)).to_text(&interner),
        Some("point".to_string())
    );
    assert_eq!(
        ReferenceType::Array(Box::new(Type::Int)).to_text(&interner),
        Some("int[]".to_string())
    );
    assert_eq!(ReturnType::ReturnVoid.to_text(&interner), Some("void".to_string()));
    assert_eq!(
        ReturnType::ReturnValue(Type::Ref(ReferenceType::Array(Box::new(Type::Ref(
            ReferenceType::Struct(point)
        )))))
        .to_text(&interner),
        Some("point[]".to_string())
    );
}

#[test]
fn function_types_are_shown_with_a_comma_after_each_argument() {
    let interner = Interner::new();
    let none = ReferenceType::Function(vec![], Box::new(ReturnType::ReturnVoid));
    assert_eq!(none.to_text(&interner), Some("() -> void".to_string()));
    let two = ReferenceType::Function(
        vec![Type::Int, Type::Ref(ReferenceType::Array(Box::new(Type::Bool)))],
        Box::new(ReturnType::ReturnValue(Type::Int)),
    );
    assert_eq!(two.to_text(&interner), Some("(int, bool[], ) -> int".to_string()));
}

#[test]
fn a_type_of_an_unknown_struct_is_not_shown() {
    let mut interner = Interner::new();
    let known = Symbol::intern(&mut interner, "known");
    let unknown = Symbol { index: known.index + 1 };
    assert_eq!(Type::Ref(ReferenceType::Struct(unknown)).to_text(&interner), None);
    assert_eq!(
        ReferenceType::Array(Box::new(Type::Ref(ReferenceType::Struct(unknown))))
            .to_text(&interner),
        None
    );
    assert_eq!(
        ReferenceType::Function(
            vec![Type::Int, Type::Ref(ReferenceType::Struct(unknown))],
            Box::new(ReturnType::ReturnVoid)
        )
        .to_text(&interner),
        None
    );
    assert_eq!(
        ReferenceType::Function(
            vec![Type::Ref(ReferenceType::Struct(known))],
            Box::new(ReturnType::ReturnValue(Type::Ref(ReferenceType::Struct(unknown))))
        )
        .to_text(&interner),
        None
    );
}
