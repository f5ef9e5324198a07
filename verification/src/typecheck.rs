//! The type checker.
//!
//! The typing rules are stated as functions on the models of the syntax
//! tree: `type_of` gives the type of an expression, `check_statement` the
//! effect of a statement on the scopes and whether control can leave it, and
//! `check_program` the verdict on a program. The checker computes these.

use crate::ast::{
    binary_types, bindings_view, block_view, clone_reference, expressions_view, clone_return,
    clone_type, fields_view, params_view, type_eq, types_view, unary_types, Decl, Declaration,
    Expr, Expression, Fields, FunDecl, FunctionDecl, GlobalDeclaration, Id, Prog, Program, RefTy,
    ReferenceType, RetTy, ReturnType, Statement, Stmt, Ty, Type,
};
use crate::error::{typed_view, unit_view, TyError, TypeError};
use crate::locals::{bind, lookup, LocalsContext, Scopes};
use crate::table::{lemma_position, position, SymbolTable};
use crate::typecontext::{
    declare, field_of, names, ref_subtype, struct_fields, subtype, Structs, TypingContext,
};
use vstd::pervasive::unreached;
use vstd::prelude::*;

verus! {

/// The first name, from position `i` on, that also stands at an earlier
/// position.
pub open spec fn first_duplicate(names: Seq<Id>, i: nat) -> Option<Id>
    decreases names.len() - i,
{
    if i >= names.len() {
        None
    } else if names.subrange(0, i as int).contains(names[i as int]) {
        Some(names[i as int])
    } else {
        first_duplicate(names, i + 1)
    }
}

/// The type of an expression in a context of structs and scopes, or the
/// first error that the typing rules meet.
pub open spec fn type_of(structs: Structs, scopes: Scopes, e: Expr) -> Result<Ty, TyError>
    decreases e, 0nat,
{
    match e {
        Expr::CNull(r) => Ok(Ty::NullRef(r)),
        Expr::CBool(_) => Ok(Ty::Bool),
        Expr::CInt(_) => Ok(Ty::Int),
        Expr::CStr(_) => Ok(Ty::Ref(RefTy::String)),
        Expr::Id(name) => match lookup(scopes, name) {
            Some(t) => Ok(t),
            None => Err(TyError::UndefinedVariable(name)),
        },
        Expr::Length(array) => match type_of(structs, scopes, *array) {
            Err(e) => Err(e),
            Ok(Ty::Ref(RefTy::Array(_))) => Ok(Ty::Int),
            Ok(t) => Err(TyError::CannotGetLength(t)),
        },
        Expr::Index { value, index } => match type_of(structs, scopes, *value) {
            Err(e) => Err(e),
            Ok(Ty::Ref(RefTy::Array(element))) => match type_of(structs, scopes, *index) {
                Err(e) => Err(e),
                Ok(Ty::Int) => Ok(*element),
                Ok(t) => Err(TyError::NonIntegerIndex(t)),
            },
            Ok(t) => Err(TyError::CannotSubscript(t)),
        },
        Expr::CStruct(name, fields) => match first_duplicate(names(fields), 0) {
            Some(field) => Err(TyError::DuplicateField(field)),
            None => match struct_fields(structs, name) {
                None => Err(TyError::StructNotFound(name)),
                Some(declared) => match fields_ok(structs, scopes, name, declared, fields, 0) {
                    Err(e) => Err(e),
                    Ok(_) => Ok(Ty::Ref(RefTy::Struct(name))),
                },
            },
        },
        Expr::Proj(object, field) => match type_of(structs, scopes, *object) {
            Err(e) => Err(e),
            Ok(Ty::Ref(RefTy::Struct(name))) => match struct_fields(structs, name) {
                None => Err(TyError::StructNotFound(name)),
                Some(declared) => match field_of(declared, field) {
                    None => Err(TyError::FieldNotFound(Ty::Ref(RefTy::Struct(name)), field)),
                    Some((_, t)) => Ok(t),
                },
            },
            Ok(_) => Err(TyError::IncompatibleType),
        },
        Expr::Unary(op, operand) => match type_of(structs, scopes, *operand) {
            Err(e) => Err(e),
            Ok(t) => if t == unary_types(op).0 {
                Ok(unary_types(op).1)
            } else {
                Err(TyError::IncompatibleType)
            },
        },
        Expr::Binary { op, left, right } => match type_of(structs, scopes, *left) {
            Err(e) => Err(e),
            Ok(lt) => match type_of(structs, scopes, *right) {
                Err(e) => Err(e),
                Ok(rt) => match binary_types(op) {
                    Some(((a, b), out)) => if lt == a && rt == b {
                        Ok(out)
                    } else {
                        Err(TyError::IncompatibleType)
                    },
                    None => if lt == rt {
                        Ok(Ty::Bool)
                    } else {
                        Err(TyError::IncompatibleType)
                    },
                },
            },
        },
        Expr::NewArr(t, length) => match type_of(structs, scopes, *length) {
            Err(e) => Err(e),
            Ok(Ty::Int) => Ok(Ty::Ref(RefTy::Array(Box::new(t)))),
            Ok(tl) => Err(TyError::ArrayLength(tl)),
        },
        Expr::CArr(t, elements) => match elements_ok(structs, scopes, t, elements, 0) {
            Err(e) => Err(e),
            Ok(_) => Ok(Ty::Ref(RefTy::Array(Box::new(t)))),
        },
        Expr::Call(callee, args) => match type_of(structs, scopes, *callee) {
            Err(e) => Err(e),
            Ok(Ty::Ref(RefTy::Function(params, ret))) => match arguments_ok(
                structs,
                scopes,
                params,
                args,
            ) {
                Err(e) => Err(e),
                Ok(_) => match *ret {
                    RetTy::Void => Err(TyError::VoidExpression),
                    RetTy::Value(t) => Ok(t),
                },
            },
            Ok(_) => Err(TyError::CanOnlyCallFunctions),
        },
    }
}

/// From position `i` on, each element has a subtype of `t`.
pub open spec fn elements_ok(structs: Structs, scopes: Scopes, t: Ty, elements: Seq<Expr>, i: nat) -> Result<
    (),
    TyError,
>
    decreases elements, elements.len() - i,
{
    if i >= elements.len() {
        Ok(())
    } else {
        match type_of(structs, scopes, elements[i as int]) {
            Err(e) => Err(e),
            Ok(te) => match subtype(structs, te, t) {
                Err(e) => Err(e),
                Ok(false) => Err(TyError::IncompatibleArrayElement { array: t, elt: te }),
                Ok(true) => elements_ok(structs, scopes, t, elements, i + 1),
            },
        }
    }
}

/// There are as many arguments as parameters, and each argument has a
/// subtype of its parameter.
pub open spec fn arguments_ok(structs: Structs, scopes: Scopes, params: Seq<Ty>, args: Seq<Expr>) -> Result<
    (),
    TyError,
>
    decreases args, args.len() + 1,
{
    if params.len() != args.len() {
        Err(TyError::IncompatibleFunctionArgCounts { expected: params.len(), given: args.len() })
    } else {
        args_ok(structs, scopes, params, args, 0)
    }
}

/// From position `i` on, each argument has a subtype of the parameter at its
/// position.
pub open spec fn args_ok(structs: Structs, scopes: Scopes, params: Seq<Ty>, args: Seq<Expr>, i: nat) -> Result<
    (),
    TyError,
>
    decreases args, args.len() - i,
{
    if i >= args.len() || i >= params.len() {
        Ok(())
    } else {
        match type_of(structs, scopes, args[i as int]) {
            Err(e) => Err(e),
            Ok(t) => match subtype(structs, t, params[i as int]) {
                Err(e) => Err(e),
                Ok(false) => Err(TyError::IncompatibleType),
                Ok(true) => args_ok(structs, scopes, params, args, i + 1),
            },
        }
    }
}

/// From position `i` on, each declared field of the struct `name` is given
/// by the literal, with a value whose type is a subtype of the field's.
pub open spec fn fields_ok(
    structs: Structs,
    scopes: Scopes,
    name: Id,
    declared: Fields,
    given: Seq<(Id, Expr)>,
    i: nat,
) -> Result<(), TyError>
    decreases given, declared.len() - i,
{
    if i >= declared.len() {
        Ok(())
    } else {
        let field = declared[i as int].0;
        match position(names(given), field) {
            None => Err(TyError::MissingField(Ty::Ref(RefTy::Struct(name)), field)),
            Some(k) => if k >= given.len() {
                Err(TyError::MissingField(Ty::Ref(RefTy::Struct(name)), field))
            } else {
                match type_of(structs, scopes, given[k as int].1) {
                    Err(e) => Err(e),
                    Ok(t) => match subtype(structs, t, declared[i as int].1) {
                        Err(e) => Err(e),
                        Ok(false) => Err(TyError::IncompatibleType),
                        Ok(true) => fields_ok(structs, scopes, name, declared, given, i + 1),
                    },
                }
            },
        }
    }
}

/// The names of the fields that a struct literal gives.
pub open spec fn field_names(fields: Seq<(Id, Expression)>) -> Seq<Id> {
    Seq::new(fields.len(), |i: int| fields[i].0)
}

/// Looks for a field name that a struct literal gives twice. Without one,
/// returns the table from each field name to its position in the literal.
pub fn check_duplicate_fields(fields: &Vec<(Id, Expression)>) -> (r: Result<
    SymbolTable<usize>,
    TypeError,
>)
    ensures
        match r {
            Ok(index) => {
                &&& first_duplicate(field_names(fields@), 0).is_none()
                &&& index.wf()
                &&& index.keys() == field_names(fields@)
                &&& forall|j: int| 0 <= j < fields@.len() ==> index.values()[j] == j
            },
            Err(e) => first_duplicate(field_names(fields@), 0).is_some() && e@
                == TyError::DuplicateField(first_duplicate(field_names(fields@), 0).unwrap()),
        },
{
    let ghost all = field_names(fields@);
    let mut index: SymbolTable<usize> = SymbolTable::new();
    let mut i: usize = 0;
    while i < fields.len()
        invariant
            i <= fields.len(),
            all == field_names(fields@),
            index.wf(),
            index.keys() =~= all.subrange(0, i as int),
            forall|j: int| 0 <= j < i ==> index.values()[j] == j,
            first_duplicate(all, 0) == first_duplicate(all, i as nat),
        decreases fields.len() - i,
    {
        let name = fields[i].0;
        assert(all[i as int] == name);
        match index.get_full(name) {
            Some(_) => {
                return Err(TypeError::DuplicateField(name));
            },
            None => {
                proof {
                    lemma_position(index.keys(), name);
                }
                index.insert(name, i);
                assert(index.keys() =~= all.subrange(0, i + 1));
            },
        }
        i += 1;
    }
    assert(index.keys() =~= all);
    Ok(index)
}

/// The type of an expression, or the first error that the typing rules meet.
pub fn type_check_expression(e: &Expression, tc: &TypingContext, lc: &LocalsContext) -> (r: Result<
    Type,
    TypeError,
>)
    ensures
        typed_view(r) == type_of(tc@, lc@, e@),
    decreases e,
{
    match e {
        Expression::CNull(rt) => Ok(Type::NullRef(clone_reference(rt))),
        Expression::CBool(_) => Ok(Type::Bool),
        Expression::CInt(_) => Ok(Type::Int),
        Expression::CStr(_) => Ok(Type::Ref(ReferenceType::String)),
        Expression::Id(name) => match lc.lookup(*name) {
            Some(t) => Ok(t),
            None => Err(TypeError::UndefinedVariable(*name)),
        },
        Expression::Length(array) => match type_check_expression(array, tc, lc) {
            Err(e) => Err(e),
            Ok(Type::Ref(ReferenceType::Array(_))) => Ok(Type::Int),
            Ok(t) => Err(TypeError::CannotGetLength(t)),
        },
        Expression::Index { value, index } => match type_check_expression(value, tc, lc) {
            Err(e) => Err(e),
            Ok(Type::Ref(ReferenceType::Array(element))) => match type_check_expression(
                index,
                tc,
                lc,
            ) {
                Err(e) => Err(e),
                Ok(Type::Int) => Ok(*element),
                Ok(t) => Err(TypeError::NonIntegerIndex(t)),
            },
            Ok(t) => Err(TypeError::CannotSubscript(t)),
        },
        Expression::CStruct(name, fields) => {
            assert(e@->CStruct_1 =~= bindings_view(fields@));
            assert(names(bindings_view(fields@)) =~= field_names(fields@));
            match type_check_struct_literal(*name, fields, tc, lc) {
                Ok(_) => Ok(Type::Ref(ReferenceType::Struct(*name))),
                Err(e) => Err(e),
            }
        },
        Expression::Proj(object, field) => match type_check_expression(object, tc, lc) {
            Err(e) => Err(e),
            Ok(Type::Ref(ReferenceType::Struct(name))) => match tc.get_type(&name) {
                None => Err(TypeError::StructNotFound(name)),
                Some(declared) => {
                    assert(names(fields_view(*declared)) =~= declared.keys());
                    match declared.get_full(*field) {
                        None => Err(
                            TypeError::FieldNotFound(Type::Ref(ReferenceType::Struct(name)), *field),
                        ),
                        Some((_, t)) => {
                            proof {
                                lemma_position(declared.keys(), *field);
                            }
                            Ok(clone_type(t))
                        },
                    }
                },
            },
            Ok(_) => Err(TypeError::IncompatibleType),
        },
        Expression::Unary(op, operand) => {
            let t = match type_check_expression(operand, tc, lc) {
                Ok(t) => t,
                Err(e) => { return Err(e); },
            };
            let (expected, result) = op.op_type();
            if type_eq(&t, &expected) {
                Ok(result)
            } else {
                Err(TypeError::IncompatibleType)
            }
        },
        Expression::Binary { op, left, right } => {
            let lt = match type_check_expression(left, tc, lc) {
                Ok(t) => t,
                Err(e) => { return Err(e); },
            };
            let rt = match type_check_expression(right, tc, lc) {
                Ok(t) => t,
                Err(e) => { return Err(e); },
            };
            match op.op_type() {
                Some(((a, b), out)) => if type_eq(&lt, &a) && type_eq(&rt, &b) {
                    Ok(out)
                } else {
                    Err(TypeError::IncompatibleType)
                },
                None => if type_eq(&lt, &rt) {
                    Ok(Type::Bool)
                } else {
                    Err(TypeError::IncompatibleType)
                },
            }
        },
        Expression::NewArr(t, length) => match type_check_expression(length, tc, lc) {
            Err(e) => Err(e),
            Ok(Type::Int) => Ok(Type::Ref(ReferenceType::Array(Box::new(clone_type(t))))),
            Ok(tl) => Err(TypeError::ArrayLength(tl)),
        },
        Expression::CArr(t, elements) => {
            assert(e@->CArr_1 =~= expressions_view(elements@));
            match type_check_elements(t, elements, tc, lc) {
                Ok(_) => Ok(Type::Ref(ReferenceType::Array(Box::new(clone_type(t))))),
                Err(e) => Err(e),
            }
        },
        Expression::Call(callee, args) => {
            assert(e@->Call_1 =~= expressions_view(args@));
            let (params, ret) = match type_check_expression(callee, tc, lc) {
                Err(e) => { return Err(e); },
                Ok(Type::Ref(ReferenceType::Function(params, ret))) => (params, ret),
                Ok(_) => { return Err(TypeError::CanOnlyCallFunctions); },
            };
            assert(type_of(tc@, lc@, *e@->Call_0)->Ok_0->Ref_0->Function_0 =~= types_view(params@));
            match type_check_arguments(&params, args, tc, lc) {
                Err(e) => Err(e),
                Ok(_) => match *ret {
                    ReturnType::ReturnVoid => Err(TypeError::VoidExpression),
                    ReturnType::ReturnValue(t) => Ok(t),
                },
            }
        },
    }
}

/// Checks that each declared field of the struct `name` is given once by a
/// literal with the fields `fields`, with a value of a fitting type.
pub fn type_check_struct_literal(
    name: Id,
    fields: &Vec<(Id, Expression)>,
    tc: &TypingContext,
    lc: &LocalsContext,
) -> (r: Result<(), TypeError>)
    ensures
        unit_view(r) == match first_duplicate(field_names(fields@), 0) {
            Some(field) => Err(TyError::DuplicateField(field)),
            None => match struct_fields(tc@, name) {
                None => Err(TyError::StructNotFound(name)),
                Some(declared) => fields_ok(tc@, lc@, name, declared, bindings_view(fields@), 0),
            },
        },
    decreases fields,
{
    let ghost given = bindings_view(fields@);
    assert(names(given) =~= field_names(fields@));
    let index = match check_duplicate_fields(fields) {
        Ok(index) => index,
        Err(e) => { return Err(e); },
    };
    let declared = match tc.get_type(&name) {
        Some(declared) => declared,
        None => { return Err(TypeError::StructNotFound(name)); },
    };
    let ghost dv = fields_view(*declared);
    let n = declared.len();
    let mut i: usize = 0;
    while i < n
        invariant
            i <= n,
            n == dv.len(),
            dv == fields_view(*declared),
            declared.wf(),
            given == bindings_view(fields@),
            names(given) == field_names(fields@),
            first_duplicate(field_names(fields@), 0).is_none(),
            struct_fields(tc@, name) == Some(dv),
            index.wf(),
            index.keys() == field_names(fields@),
            forall|j: int| 0 <= j < fields@.len() ==> index.values()[j] == j,
            fields_ok(tc@, lc@, name, dv, given, 0) == fields_ok(tc@, lc@, name, dv, given, i as nat),
        decreases n - i,
    {
        match declared.get_index(i) {
            Some((field, field_type)) => {
                match index.get_full(field) {
                    None => {
                        return Err(
                            TypeError::MissingField(Type::Ref(ReferenceType::Struct(name)), field),
                        );
                    },
                    Some((_, k)) => {
                        proof {
                            lemma_position(index.keys(), field);
                        }
                        let k = *k;
                        let t = match type_check_expression(&fields[k].1, tc, lc) {
                            Ok(t) => t,
                            Err(e) => { return Err(e); },
                        };
                        match tc.is_subtype(&t, field_type) {
                            Err(e) => { return Err(e); },
                            Ok(false) => { return Err(TypeError::IncompatibleType); },
                            Ok(true) => {},
                        }
                    },
                }
            },
            None => {},
        }
        i += 1;
    }
    Ok(())
}

/// Checks that each element of an array literal has a subtype of the
/// element type `t`.
pub fn type_check_elements(t: &Type, elements: &Vec<Expression>, tc: &TypingContext, lc: &LocalsContext) -> (r:
    Result<(), TypeError>)
    ensures
        unit_view(r) == elements_ok(tc@, lc@, t@, expressions_view(elements@), 0),
    decreases elements,
{
    let ghost ev = expressions_view(elements@);
    let mut i: usize = 0;
    while i < elements.len()
        invariant
            i <= elements.len(),
            ev == expressions_view(elements@),
            elements_ok(tc@, lc@, t@, ev, 0) == elements_ok(tc@, lc@, t@, ev, i as nat),
        decreases elements.len() - i,
    {
        let te = match type_check_expression(&elements[i], tc, lc) {
            Ok(te) => te,
            Err(e) => { return Err(e); },
        };
        match tc.is_subtype(&te, t) {
            Err(e) => { return Err(e); },
            Ok(false) => {
                return Err(TypeError::IncompatibleArrayElement { array: clone_type(t), elt: te });
            },
            Ok(true) => {},
        }
        i += 1;
    }
    Ok(())
}

/// Checks the arguments of a call against the parameter types: their number,
/// then each argument's type.
pub fn type_check_arguments(
    arg_types: &Vec<Type>,
    args: &Vec<Expression>,
    tc: &TypingContext,
    lc: &LocalsContext,
) -> (r: Result<(), TypeError>)
    ensures
        unit_view(r) == arguments_ok(tc@, lc@, types_view(arg_types@), expressions_view(args@)),
    decreases args,
{
    let ghost av = expressions_view(args@);
    let ghost pv = types_view(arg_types@);
    if arg_types.len() != args.len() {
        return Err(
            TypeError::IncompatibleFunctionArgCounts { expected: arg_types.len(), given: args.len() },
        );
    }
    let mut i: usize = 0;
    while i < args.len()
        invariant
            i <= args.len(),
            arg_types.len() == args.len(),
            av == expressions_view(args@),
            pv == types_view(arg_types@),
            args_ok(tc@, lc@, pv, av, 0) == args_ok(tc@, lc@, pv, av, i as nat),
        decreases args.len() - i,
    {
        let t = match type_check_expression(&args[i], tc, lc) {
            Ok(t) => t,
            Err(e) => { return Err(e); },
        };
        match tc.is_subtype(&t, &arg_types[i]) {
            Err(e) => { return Err(e); },
            Ok(false) => { return Err(TypeError::IncompatibleType); },
            Ok(true) => {},
        }
        i += 1;
    }
    Ok(())
}

impl Expression {
    /// The type of the expression, or the first error that the typing rules
    /// meet.
    pub fn type_check(&self, tc: &TypingContext, lc: &LocalsContext) -> (r: Result<Type, TypeError>)
        ensures
            typed_view(r) == type_of(tc@, lc@, self@),
    {
        type_check_expression(self, tc, lc)
    }
}

/// Whether `name` is bound to a function.
pub open spec fn is_function(scopes: Scopes, name: Id) -> bool {
    lookup(scopes, name) matches Some(Ty::Ref(RefTy::Function(_, _)))
}

/// The scopes after each of the bindings from position `i` on was typed and
/// bound in turn, each in the scopes that the ones before it left.
pub open spec fn bind_all(structs: Structs, scopes: Scopes, bindings: Seq<(Id, Expr)>, i: nat) -> Result<
    Scopes,
    TyError,
>
    decreases bindings.len() - i,
{
    if i >= bindings.len() {
        Ok(scopes)
    } else {
        match type_of(structs, scopes, bindings[i as int].1) {
            Err(e) => Err(e),
            Ok(t) => bind_all(structs, bind(scopes, bindings[i as int].0, t), bindings, i + 1),
        }
    }
}

/// An absent condition is accepted; a present one has to be a boolean.
pub open spec fn condition_ok(structs: Structs, scopes: Scopes, condition: Option<Expr>) -> Result<
    (),
    TyError,
> {
    match condition {
        None => Ok(()),
        Some(c) => match type_of(structs, scopes, c) {
            Err(e) => Err(e),
            Ok(Ty::Bool) => Ok(()),
            Ok(_) => Err(TyError::IncompatibleType),
        },
    }
}

/// The effect of a statement: whether control cannot fall through it, and
/// the scopes that it leaves. `expected` is the return type of the function
/// that the statement stands in.
pub open spec fn check_statement(structs: Structs, scopes: Scopes, stmt: Stmt, expected: RetTy) -> Result<
    (bool, Scopes),
    TyError,
>
    decreases stmt, 0nat,
{
    match stmt {
        Stmt::Assignment(target, value) => if target is Id && is_function(scopes, target->Id_0) {
            Err(TyError::CannotAssignFunction)
        } else {
            match type_of(structs, scopes, target) {
                Err(e) => Err(e),
                Ok(tt) => match type_of(structs, scopes, value) {
                    Err(e) => Err(e),
                    Ok(tv) => match subtype(structs, tv, tt) {
                        Err(e) => Err(e),
                        Ok(false) => Err(TyError::IncompatibleType),
                        Ok(true) => Ok((false, scopes)),
                    },
                },
            }
        },
        Stmt::Declaration(name, init) => match type_of(structs, scopes, init) {
            Err(e) => Err(e),
            Ok(t) => Ok((false, bind(scopes, name, t))),
        },
        Stmt::SCall(callee, args) => match type_of(structs, scopes, callee) {
            Err(e) => Err(e),
            Ok(Ty::Ref(RefTy::Function(params, ret))) => if *ret == RetTy::Void {
                match arguments_ok(structs, scopes, params, args) {
                    Err(e) => Err(e),
                    Ok(_) => Ok((false, scopes)),
                }
            } else {
                Err(TyError::IncompatibleType)
            },
            Ok(_) => Err(TyError::IncompatibleType),
        },
        Stmt::If { condition, then, else_ } => match type_of(structs, scopes, condition) {
            Err(e) => Err(e),
            Ok(Ty::Bool) => match check_block(structs, scopes, then, expected) {
                Err(e) => Err(e),
                Ok(then_returns) => match check_block(structs, scopes, else_, expected) {
                    Err(e) => Err(e),
                    Ok(else_returns) => Ok((then_returns && else_returns, scopes)),
                },
            },
            Ok(_) => Err(TyError::IncompatibleType),
        },
        Stmt::Cast(r, name, source, then, else_) => match type_of(structs, scopes, source) {
            Err(e) => Err(e),
            Ok(Ty::NullRef(rs)) => match ref_subtype(structs, rs, r) {
                Err(e) => Err(e),
                Ok(false) => Err(TyError::IncompatibleType),
                Ok(true) => match check_statements(
                    structs,
                    bind(scopes.push(Map::empty()), name, Ty::Ref(r)),
                    then,
                    0,
                    false,
                    expected,
                ) {
                    Err(e) => Err(e),
                    Ok(then_returns) => match check_block(structs, scopes, else_, expected) {
                        Err(e) => Err(e),
                        Ok(else_returns) => Ok((then_returns && else_returns, scopes)),
                    },
                },
            },
            Ok(_) => Err(TyError::IncompatibleType),
        },
        Stmt::For { init, condition, update, body } => match bind_all(
            structs,
            scopes.push(Map::empty()),
            init,
            0,
        ) {
            Err(e) => Err(e),
            Ok(inner) => match condition_ok(structs, inner, condition) {
                Err(e) => Err(e),
                Ok(_) => {
                    let updated = match update {
                        None => Ok((false, inner)),
                        Some(u) => check_statement(structs, inner, *u, expected),
                    };
                    match updated {
                        Err(e) => Err(e),
                        Ok((_, after)) => match check_block(structs, after, body, expected) {
                            Err(e) => Err(e),
                            Ok(body_returns) => Ok(
                                (condition == Some(Expr::CBool(true)) && body_returns, scopes),
                            ),
                        },
                    }
                },
            },
        },
        Stmt::While { condition, body } => match type_of(structs, scopes, condition) {
            Err(e) => Err(e),
            Ok(Ty::Bool) => match check_block(structs, scopes, body, expected) {
                Err(e) => Err(e),
                Ok(body_returns) => Ok((body_returns, scopes)),
            },
            Ok(_) => Err(TyError::IncompatibleType),
        },
        Stmt::Return(None) => if expected == RetTy::Void {
            Ok((true, scopes))
        } else {
            Err(TyError::ReturnValueMissing)
        },
        Stmt::Return(Some(value)) => match type_of(structs, scopes, value) {
            Err(e) => Err(e),
            Ok(t) => match expected {
                RetTy::Void => Err(TyError::ReturnValueProvidedInVoidFunction),
                RetTy::Value(te) => match subtype(structs, t, te) {
                    Err(e) => Err(e),
                    Ok(false) => Err(TyError::IncompatibleType),
                    Ok(true) => Ok((true, scopes)),
                },
            },
        },
    }
}

/// Whether control cannot fall through a block, which is checked in a new
/// innermost scope of its own.
pub open spec fn check_block(structs: Structs, scopes: Scopes, block: Seq<Stmt>, expected: RetTy) -> Result<
    bool,
    TyError,
>
    decreases block, block.len() + 1,
{
    check_statements(structs, scopes.push(Map::empty()), block, 0, false, expected)
}

/// Whether control cannot fall through the statements from position `i` on.
/// `returned` says that it cannot fall through the statement before them:
/// then any statement that follows is dead code.
pub open spec fn check_statements(
    structs: Structs,
    scopes: Scopes,
    block: Seq<Stmt>,
    i: nat,
    returned: bool,
    expected: RetTy,
) -> Result<bool, TyError>
    decreases block, block.len() - i,
{
    if i >= block.len() {
        Ok(returned)
    } else if returned {
        Err(TyError::DeadCodeAfterReturn)
    } else {
        match check_statement(structs, scopes, block[i as int], expected) {
            Err(e) => Err(e),
            Ok((ends, after)) => check_statements(structs, after, block, i + 1, ends, expected),
        }
    }
}

/// The scopes after the parameters from position `i` on were bound.
pub open spec fn bind_params(scopes: Scopes, params: Seq<(Ty, Id)>, i: nat) -> Scopes
    decreases params.len() - i,
{
    if i >= params.len() {
        scopes
    } else {
        bind_params(bind(scopes, params[i as int].1, params[i as int].0), params, i + 1)
    }
}

/// The verdict on a function: its body is checked with the parameters bound
/// in a new scope, and has to return on every path if the function returns a
/// value.
pub open spec fn check_function(structs: Structs, globals: Scopes, f: FunDecl) -> Result<(), TyError> {
    match check_block(
        structs,
        bind_params(globals.push(Map::empty()), f.args, 0),
        f.body,
        f.return_type,
    ) {
        Err(e) => Err(e),
        Ok(ends) => if f.return_type != RetTy::Void && !ends {
            Err(TyError::DidNotReturn { expected_ret_type: f.return_type })
        } else {
            Ok(())
        },
    }
}

/// The type of a global's initializer, which has to be a constant or the
/// name of another global.
pub open spec fn global_type(scopes: Scopes, init: Expr) -> Result<Ty, TyError> {
    match init {
        Expr::CNull(r) => Ok(Ty::NullRef(r)),
        Expr::CBool(_) => Ok(Ty::Bool),
        Expr::CInt(_) => Ok(Ty::Int),
        Expr::CStr(_) => Ok(Ty::Ref(RefTy::String)),
        Expr::Id(name) => match lookup(scopes, name) {
            Some(t) => Ok(t),
            None => Err(TyError::UndefinedVariable(name)),
        },
        _ => Err(TyError::IncompatibleType),
    }
}

/// The types of a parameter list.
pub open spec fn param_types(params: Seq<(Ty, Id)>) -> Seq<Ty> {
    Seq::new(params.len(), |i: int| params[i].0)
}

/// The type under which a function is known to the program.
pub open spec fn function_type(f: FunDecl) -> Ty {
    Ty::Ref(RefTy::Function(param_types(f.args), Box::new(f.return_type)))
}

/// The scopes after the globals declared from position `i` on were bound, in
/// source order: a function to its type, a variable to the type of its
/// initializer.
pub open spec fn bind_globals(prog: Prog, scopes: Scopes, i: nat) -> Result<Scopes, TyError>
    decreases prog.len() - i,
{
    if i >= prog.len() {
        Ok(scopes)
    } else {
        match prog[i as int] {
            Decl::Function(f) => bind_globals(prog, bind(scopes, f.name, function_type(f)), i + 1),
            Decl::Variable { name, init } => match global_type(scopes, init) {
                Err(e) => Err(e),
                Ok(t) => bind_globals(prog, bind(scopes, name, t), i + 1),
            },
            Decl::Type { .. } => bind_globals(prog, scopes, i + 1),
        }
    }
}

/// The structs that the first `n` declarations of a program declare.
pub open spec fn program_structs(prog: Prog, n: nat) -> Structs
    decreases n,
{
    if n == 0 || n > prog.len() {
        Seq::empty()
    } else {
        match prog[n - 1] {
            Decl::Type { name, fields } => declare(program_structs(prog, (n - 1) as nat), name, fields),
            _ => program_structs(prog, (n - 1) as nat),
        }
    }
}

/// The verdict on the functions declared from position `i` on.
pub open spec fn check_functions(structs: Structs, globals: Scopes, prog: Prog, i: nat) -> Result<
    (),
    TyError,
>
    decreases prog.len() - i,
{
    if i >= prog.len() {
        Ok(())
    } else {
        match check_declaration(structs, globals, prog[i as int]) {
            Err(e) => Err(e),
            Ok(_) => check_functions(structs, globals, prog, i + 1),
        }
    }
}

/// The verdict on a declaration: that on the function, if it declares one.
pub open spec fn check_declaration(structs: Structs, globals: Scopes, d: Decl) -> Result<(), TyError> {
    match d {
        Decl::Function(f) => check_function(structs, globals, f),
        _ => Ok(()),
    }
}

/// The verdict on a program: every global is bound, then every function is
/// checked, in source order. The first error ends the check.
pub open spec fn check_program(prog: Prog) -> Result<(), TyError> {
    match bind_globals(prog, seq![Map::<Id, Ty>::empty()], 0) {
        Err(e) => Err(e),
        Ok(globals) => check_functions(program_structs(prog, prog.len()), globals, prog, 0),
    }
}

/// The two stacks of scopes have the same height and differ at most in the
/// innermost scope.
pub open spec fn same_outer(before: Scopes, after: Scopes) -> bool {
    &&& after.len() == before.len()
    &&& forall|j: int| 0 <= j < before.len() - 1 ==> after[j] == before[j]
}

/// Types and binds each initializer in turn, in the innermost scope.
pub fn bind_initializers(init: &Vec<(Id, Expression)>, tc: &TypingContext, lc: LocalsContext) -> (r: Result<
    LocalsContext,
    TypeError,
>)
    ensures
        match r {
            Ok(after) => bind_all(tc@, lc@, bindings_view(init@), 0) == Ok::<Scopes, TyError>(after@)
                && same_outer(lc@, after@),
            Err(e) => bind_all(tc@, lc@, bindings_view(init@), 0) == Err::<Scopes, TyError>(e@),
        },
{
    let ghost start = lc@;
    let ghost bindings = bindings_view(init@);
    let mut inner = lc;
    let mut i: usize = 0;
    while i < init.len()
        invariant
            i <= init.len(),
            start == lc@,
            bindings == bindings_view(init@),
            same_outer(start, inner@),
            bind_all(tc@, start, bindings, 0) == bind_all(tc@, inner@, bindings, i as nat),
        decreases init.len() - i,
    {
        let t = match type_check_expression(&init[i].1, tc, &inner) {
            Ok(t) => t,
            Err(e) => { return Err(e); },
        };
        inner.set(init[i].0, t);
        i += 1;
    }
    Ok(inner)
}

/// Checks a statement of a function that returns `should_return`. Returns
/// whether control cannot fall through the statement, and the scopes as the
/// statement leaves them.
pub fn type_check_statement(
    stmt: &Statement,
    tc: &TypingContext,
    lc: LocalsContext,
    should_return: &ReturnType,
) -> (r: Result<(bool, LocalsContext), TypeError>)
    ensures
        match r {
            Ok((ends, after)) => check_statement(tc@, lc@, stmt@, should_return@) == Ok::<
                (bool, Scopes),
                TyError,
            >((ends, after@)) && same_outer(lc@, after@),
            Err(e) => check_statement(tc@, lc@, stmt@, should_return@) == Err::<
                (bool, Scopes),
                TyError,
            >(e@),
        },
    decreases stmt, 1nat,
{
    match stmt {
        Statement::If { .. } => type_check_if(stmt, tc, lc, should_return),
        Statement::Cast(..) => type_check_cast(stmt, tc, lc, should_return),
        Statement::For { .. } => type_check_for(stmt, tc, lc, should_return),
        Statement::While { .. } => type_check_while(stmt, tc, lc, should_return),
        Statement::Return(_) => type_check_return(stmt, tc, lc, should_return),
        Statement::Assignment(..) => type_check_assignment(stmt, tc, lc, should_return),
        Statement::Declaration(..) => type_check_local(stmt, tc, lc, should_return),
        Statement::SCall(..) => type_check_call_statement(stmt, tc, lc, should_return),
    }
}

/// The rule for assignments.
fn type_check_assignment(
    stmt: &Statement,
    tc: &TypingContext,
    lc: LocalsContext,
    should_return: &ReturnType,
) -> (r: Result<(bool, LocalsContext), TypeError>)
    requires
        stmt is Assignment,
    ensures
        match r {
            Ok((ends, after)) => check_statement(tc@, lc@, stmt@, should_return@) == Ok::<
                (bool, Scopes),
                TyError,
            >((ends, after@)) && same_outer(lc@, after@),
            Err(e) => check_statement(tc@, lc@, stmt@, should_return@) == Err::<
                (bool, Scopes),
                TyError,
            >(e@),
        },
{
    match stmt {
        Statement::Assignment(target, value) => {
            let to_function = match target {
                Expression::Id(name) => match lc.lookup(*name) {
                    Some(Type::Ref(ReferenceType::Function(_, _))) => true,
                    _ => false,
                },
                _ => false,
            };
            if to_function {
                return Err(TypeError::CannotAssignFunction);
            }
            let tt = match type_check_expression(target, tc, &lc) {
                Ok(t) => t,
                Err(e) => { return Err(e); },
            };
            let tv = match type_check_expression(value, tc, &lc) {
                Ok(t) => t,
                Err(e) => { return Err(e); },
            };
            match tc.is_subtype(&tv, &tt) {
                Err(e) => Err(e),
                Ok(false) => Err(TypeError::IncompatibleType),
                Ok(true) => Ok((false, lc)),
            }
        },
        _ => unreached(),
    }
}

/// The rule for declarations.
fn type_check_local(
    stmt: &Statement,
    tc: &TypingContext,
    lc: LocalsContext,
    should_return: &ReturnType,
) -> (r: Result<(bool, LocalsContext), TypeError>)
    requires
        stmt is Declaration,
    ensures
        match r {
            Ok((ends, after)) => check_statement(tc@, lc@, stmt@, should_return@) == Ok::<
                (bool, Scopes),
                TyError,
            >((ends, after@)) && same_outer(lc@, after@),
            Err(e) => check_statement(tc@, lc@, stmt@, should_return@) == Err::<
                (bool, Scopes),
                TyError,
            >(e@),
        },
{
    match stmt {
        Statement::Declaration(name, init) => {
            let t = match type_check_expression(init, tc, &lc) {
                Ok(t) => t,
                Err(e) => { return Err(e); },
            };
            let mut lc = lc;
            lc.set(*name, t);
            Ok((false, lc))
        },
        _ => unreached(),
    }
}

/// The rule for calls that stand as statements.
fn type_check_call_statement(
    stmt: &Statement,
    tc: &TypingContext,
    lc: LocalsContext,
    should_return: &ReturnType,
) -> (r: Result<(bool, LocalsContext), TypeError>)
    requires
        stmt is SCall,
    ensures
        match r {
            Ok((ends, after)) => check_statement(tc@, lc@, stmt@, should_return@) == Ok::<
                (bool, Scopes),
                TyError,
            >((ends, after@)) && same_outer(lc@, after@),
            Err(e) => check_statement(tc@, lc@, stmt@, should_return@) == Err::<
                (bool, Scopes),
                TyError,
            >(e@),
        },
{
    match stmt {
        Statement::SCall(callee, args) => {
            let ghost callee_type = type_of(tc@, lc@, stmt@->SCall_0);
            assert(stmt@->SCall_1 == expressions_view(args@));
            match type_check_expression(callee, tc, &lc) {
                Err(e) => Err(e),
                Ok(Type::Ref(ReferenceType::Function(params, ret))) => {
                    assert(callee_type->Ok_0->Ref_0->Function_0 =~= types_view(params@));
                    assert(callee_type == Ok::<Ty, TyError>(
                        Ty::Ref(RefTy::Function(types_view(params@), Box::new(ret@))),
                    ));
                    match *ret {
                        ReturnType::ReturnVoid => match type_check_arguments(&params, args, tc, &lc) {
                            Err(e) => Err(e),
                            Ok(_) => Ok((false, lc)),
                        },
                        ReturnType::ReturnValue(_) => Err(TypeError::IncompatibleType),
                    }
                },
                Ok(t) => {
                    assert(!(t@ matches Ty::Ref(RefTy::Function(_, _))));
                    Err(TypeError::IncompatibleType)
                },
            }
        },
        _ => unreached(),
    }
}

/// The rules for `return`.
fn type_check_return(
    stmt: &Statement,
    tc: &TypingContext,
    lc: LocalsContext,
    should_return: &ReturnType,
) -> (r: Result<(bool, LocalsContext), TypeError>)
    requires
        stmt is Return,
    ensures
        match r {
            Ok((ends, after)) => check_statement(tc@, lc@, stmt@, should_return@) == Ok::<
                (bool, Scopes),
                TyError,
            >((ends, after@)) && same_outer(lc@, after@),
            Err(e) => check_statement(tc@, lc@, stmt@, should_return@) == Err::<
                (bool, Scopes),
                TyError,
            >(e@),
        },
{
    match stmt {
        Statement::Return(None) => match should_return {
            ReturnType::ReturnVoid => Ok((true, lc)),
            _ => Err(TypeError::ReturnValueMissing),
        },
        Statement::Return(Some(value)) => {
            let t = match type_check_expression(value, tc, &lc) {
                Ok(t) => t,
                Err(e) => { return Err(e); },
            };
            match should_return {
                ReturnType::ReturnVoid => Err(TypeError::ReturnValueProvidedInVoidFunction),
                ReturnType::ReturnValue(expected) => match tc.is_subtype(&t, expected) {
                    Err(e) => Err(e),
                    Ok(false) => Err(TypeError::IncompatibleType),
                    Ok(true) => Ok((true, lc)),
                },
            }
        },
        _ => unreached(),
    }
}

/// The rule for `if`.
fn type_check_if(
    stmt: &Statement,
    tc: &TypingContext,
    lc: LocalsContext,
    should_return: &ReturnType,
) -> (r: Result<(bool, LocalsContext), TypeError>)
    requires
        stmt is If,
    ensures
        match r {
            Ok((ends, after)) => check_statement(tc@, lc@, stmt@, should_return@) == Ok::<
                (bool, Scopes),
                TyError,
            >((ends, after@)) && same_outer(lc@, after@),
            Err(e) => check_statement(tc@, lc@, stmt@, should_return@) == Err::<
                (bool, Scopes),
                TyError,
            >(e@),
        },
    decreases stmt, 0nat,
{
    match stmt {
        Statement::If { condition, then, else_ } => {
            assert(stmt@->If_then =~= block_view(then@));
            assert(stmt@->If_else_ =~= block_view(else_@));
            match type_check_expression(condition, tc, &lc) {
                Err(e) => { return Err(e); },
                Ok(Type::Bool) => {},
                Ok(_) => { return Err(TypeError::IncompatibleType); },
            }
            assert(decreases_to!(stmt => stmt->If_then));
            assert(decreases_to!(stmt => stmt->If_else_));
            let (then_ends, lc) = match type_check_block(then, tc, lc, should_return) {
                Ok(x) => x,
                Err(e) => { return Err(e); },
            };
            let (else_ends, lc) = match type_check_block(else_, tc, lc, should_return) {
                Ok(x) => x,
                Err(e) => { return Err(e); },
            };
            Ok((then_ends && else_ends, lc))
        },
        _ => unreached(),
    }
}

/// The rule for `if?`.
fn type_check_cast(
    stmt: &Statement,
    tc: &TypingContext,
    lc: LocalsContext,
    should_return: &ReturnType,
) -> (r: Result<(bool, LocalsContext), TypeError>)
    requires
        stmt is Cast,
    ensures
        match r {
            Ok((ends, after)) => check_statement(tc@, lc@, stmt@, should_return@) == Ok::<
                (bool, Scopes),
                TyError,
            >((ends, after@)) && same_outer(lc@, after@),
            Err(e) => check_statement(tc@, lc@, stmt@, should_return@) == Err::<
                (bool, Scopes),
                TyError,
            >(e@),
        },
    decreases stmt, 0nat,
{
    match stmt {
        Statement::Cast(r, name, source, then, else_) => {
            assert(stmt@->Cast_3 =~= block_view(then@));
            assert(stmt@->Cast_4 =~= block_view(else_@));
            let rs = match type_check_expression(source, tc, &lc) {
                Err(e) => { return Err(e); },
                Ok(Type::NullRef(rs)) => rs,
                Ok(_) => { return Err(TypeError::IncompatibleType); },
            };
            match tc.is_ref_subtype(&rs, r) {
                Err(e) => { return Err(e); },
                Ok(false) => { return Err(TypeError::IncompatibleType); },
                Ok(true) => {},
            }
            let ghost outer = lc@;
            let mut inner = lc.new_child();
            inner.set(*name, Type::Ref(clone_reference(r)));
            assert(decreases_to!(stmt => stmt->Cast_3));
            assert(decreases_to!(stmt => stmt->Cast_4));
            let (then_ends, inner) = match type_check_statements(then, tc, inner, should_return) {
                Ok(x) => x,
                Err(e) => { return Err(e); },
            };
            let lc = inner.parent();
            assert(lc@ =~= outer);
            let (else_ends, lc) = match type_check_block(else_, tc, lc, should_return) {
                Ok(x) => x,
                Err(e) => { return Err(e); },
            };
            Ok((then_ends && else_ends, lc))
        },
        _ => unreached(),
    }
}

/// The rule for `for`.
fn type_check_for(
    stmt: &Statement,
    tc: &TypingContext,
    lc: LocalsContext,
    should_return: &ReturnType,
) -> (r: Result<(bool, LocalsContext), TypeError>)
    requires
        stmt is For,
    ensures
        match r {
            Ok((ends, after)) => check_statement(tc@, lc@, stmt@, should_return@) == Ok::<
                (bool, Scopes),
                TyError,
            >((ends, after@)) && same_outer(lc@, after@),
            Err(e) => check_statement(tc@, lc@, stmt@, should_return@) == Err::<
                (bool, Scopes),
                TyError,
            >(e@),
        },
    decreases stmt, 0nat,
{
    match stmt {
        Statement::For { init, condition, update, body } => {
            assert(stmt@->For_body =~= block_view(body@));
            let ghost outer = lc@;
            let inner = match bind_initializers(init, tc, lc.new_child()) {
                Ok(inner) => inner,
                Err(e) => { return Err(e); },
            };
            let constant_true = match condition {
                None => false,
                Some(c) => {
                    match type_check_expression(c, tc, &inner) {
                        Err(e) => { return Err(e); },
                        Ok(Type::Bool) => {},
                        Ok(_) => { return Err(TypeError::IncompatibleType); },
                    }
                    match c {
                        Expression::CBool(true) => true,
                        _ => false,
                    }
                },
            };
            let inner = match update {
                None => inner,
                Some(u) => match type_check_statement(u, tc, inner, should_return) {
                    Ok((_, after)) => after,
                    Err(e) => { return Err(e); },
                },
            };
            assert(decreases_to!(stmt => stmt->For_body));
            let (body_ends, inner) = match type_check_block(body, tc, inner, should_return) {
                Ok(x) => x,
                Err(e) => { return Err(e); },
            };
            let lc = inner.parent();
            assert(lc@ =~= outer);
            Ok((constant_true && body_ends, lc))
        },
        _ => unreached(),
    }
}

/// The rule for `while`.
fn type_check_while(
    stmt: &Statement,
    tc: &TypingContext,
    lc: LocalsContext,
    should_return: &ReturnType,
) -> (r: Result<(bool, LocalsContext), TypeError>)
    requires
        stmt is While,
    ensures
        match r {
            Ok((ends, after)) => check_statement(tc@, lc@, stmt@, should_return@) == Ok::<
                (bool, Scopes),
                TyError,
            >((ends, after@)) && same_outer(lc@, after@),
            Err(e) => check_statement(tc@, lc@, stmt@, should_return@) == Err::<
                (bool, Scopes),
                TyError,
            >(e@),
        },
    decreases stmt, 0nat,
{
    match stmt {
        Statement::While { condition, body } => {
            assert(stmt@->While_body =~= block_view(body@));
            match type_check_expression(condition, tc, &lc) {
                Err(e) => { return Err(e); },
                Ok(Type::Bool) => {},
                Ok(_) => { return Err(TypeError::IncompatibleType); },
            }
            assert(decreases_to!(stmt => stmt->While_body));
            type_check_block(body, tc, lc, should_return)
        },
        _ => unreached(),
    }
}

/// Checks the statements of a block in the scopes given, without opening a
/// scope for them. Returns whether control cannot fall through them, and the
/// scopes as they leave them.
pub fn type_check_statements(
    block: &Vec<Statement>,
    tc: &TypingContext,
    lc: LocalsContext,
    should_return: &ReturnType,
) -> (r: Result<(bool, LocalsContext), TypeError>)
    ensures
        match r {
            Ok((ends, after)) => check_statements(
                tc@,
                lc@,
                block_view(block@),
                0,
                false,
                should_return@,
            ) == Ok::<bool, TyError>(ends) && same_outer(lc@, after@),
            Err(e) => check_statements(tc@, lc@, block_view(block@), 0, false, should_return@)
                == Err::<bool, TyError>(e@),
        },
    decreases block, 2nat,
{
    let ghost start = lc@;
    let ghost stmts = block_view(block@);
    let mut current = lc;
    let mut ended = false;
    let mut i: usize = 0;
    while i < block.len()
        invariant
            i <= block.len(),
            start == lc@,
            stmts == block_view(block@),
            same_outer(start, current@),
            check_statements(tc@, start, stmts, 0, false, should_return@) == check_statements(
                tc@,
                current@,
                stmts,
                i as nat,
                ended,
                should_return@,
            ),
        decreases block.len() - i,
    {
        if ended {
            return Err(TypeError::DeadCodeAfterReturn);
        }
        assert(decreases_to!(*block => block[i as int]));
        let (ends, after) = match type_check_statement(&block[i], tc, current, should_return) {
            Ok(x) => x,
            Err(e) => { return Err(e); },
        };
        current = after;
        ended = ends;
        i += 1;
    }
    Ok((ended, current))
}

/// Checks a block in a new innermost scope of its own. Returns whether
/// control cannot fall through the block, and the scopes, which are those
/// given.
pub fn type_check_block(
    block: &Vec<Statement>,
    tc: &TypingContext,
    lc: LocalsContext,
    should_return: &ReturnType,
) -> (r: Result<(bool, LocalsContext), TypeError>)
    ensures
        match r {
            Ok((ends, after)) => check_block(tc@, lc@, block_view(block@), should_return@) == Ok::<
                bool,
                TyError,
            >(ends) && after@ == lc@,
            Err(e) => check_block(tc@, lc@, block_view(block@), should_return@) == Err::<bool, TyError>(
                e@,
            ),
        },
    decreases block, 3nat,
{
    let ghost outer = lc@;
    let inner = lc.new_child();
    match type_check_statements(block, tc, inner, should_return) {
        Err(e) => Err(e),
        Ok((ends, inner)) => {
            let lc = inner.parent();
            assert(lc@ =~= outer);
            Ok((ends, lc))
        },
    }
}

/// Checks a function declared in a program whose globals are bound in `lc`.
/// Returns the scopes, which are those given.
pub fn type_check_function(f: &FunctionDecl, tc: &TypingContext, lc: LocalsContext) -> (r: Result<
    LocalsContext,
    TypeError,
>)
    ensures
        match r {
            Ok(after) => check_function(tc@, lc@, f@) == Ok::<(), TyError>(()) && after@ == lc@,
            Err(e) => check_function(tc@, lc@, f@) == Err::<(), TyError>(e@),
        },
{
    let ghost outer = lc@;
    let ghost params = params_view(f.args@);
    let mut inner = lc.new_child();
    let ghost start = inner@;
    let mut i: usize = 0;
    while i < f.args.len()
        invariant
            i <= f.args.len(),
            params == params_view(f.args@),
            same_outer(start, inner@),
            bind_params(start, params, 0) == bind_params(inner@, params, i as nat),
        decreases f.args.len() - i,
    {
        inner.set(f.args[i].1, clone_type(&f.args[i].0));
        i += 1;
    }
    match type_check_block(&f.body, tc, inner, &f.return_type) {
        Err(e) => Err(e),
        Ok((ends, inner)) => {
            let must_return = match f.return_type {
                ReturnType::ReturnVoid => false,
                ReturnType::ReturnValue(_) => true,
            };
            if must_return && !ends {
                Err(TypeError::DidNotReturn { expected_ret_type: clone_return(&f.return_type) })
            } else {
                let lc = inner.parent();
                assert(lc@ =~= outer);
                Ok(lc)
            }
        },
    }
}

impl FunctionDecl {
    /// Checks the function in a program whose globals are bound in `lc`.
    /// Returns the scopes, which are those given.
    pub fn type_check(&self, tc: &TypingContext, lc: LocalsContext) -> (r: Result<
        LocalsContext,
        TypeError,
    >)
        ensures
            match r {
                Ok(after) => check_function(tc@, lc@, self@) == Ok::<(), TyError>(()) && after@
                    == lc@,
                Err(e) => check_function(tc@, lc@, self@) == Err::<(), TyError>(e@),
            },
    {
        type_check_function(self, tc, lc)
    }

    /// The type under which the function is known to the program.
    pub fn function_type(&self) -> (t: Type)
        ensures
            t@ == function_type(self@),
    {
        let mut arg_types: Vec<Type> = Vec::new();
        let mut i: usize = 0;
        while i < self.args.len()
            invariant
                i <= self.args.len(),
                arg_types@.len() == i,
                forall|j: int| 0 <= j < i ==> arg_types@[j]@ == self.args@[j].0@,
            decreases self.args.len() - i,
        {
            arg_types.push(clone_type(&self.args[i].0));
            i += 1;
        }
        let t = Type::Ref(
            ReferenceType::Function(arg_types, Box::new(clone_return(&self.return_type))),
        );
        assert(t@->Ref_0->Function_0 =~= param_types(self@.args));
        t
    }
}

impl GlobalDeclaration {
    /// The type of the global: that of its initializer, which has to be a
    /// constant or the name of a global bound in `lc`.
    pub fn type_check(&self, lc: &LocalsContext) -> (r: Result<Type, TypeError>)
        ensures
            typed_view(r) == global_type(lc@, self.init@),
    {
        match &self.init {
            Expression::CNull(rt) => Ok(Type::NullRef(clone_reference(rt))),
            Expression::CBool(_) => Ok(Type::Bool),
            Expression::CInt(_) => Ok(Type::Int),
            Expression::CStr(_) => Ok(Type::Ref(ReferenceType::String)),
            Expression::Id(name) => match lc.lookup(*name) {
                Some(t) => Ok(t),
                None => Err(TypeError::UndefinedVariable(*name)),
            },
            _ => Err(TypeError::IncompatibleType),
        }
    }
}

/// The structs that a program declares.
pub fn program_context(prog: &Program) -> (tc: TypingContext)
    ensures
        tc@ == program_structs(prog@, prog@.len()),
{
    let mut tc = TypingContext::new();
    let mut i: usize = 0;
    while i < prog.declarations.len()
        invariant
            i <= prog.declarations.len(),
            tc@ == program_structs(prog@, i as nat),
        decreases prog.declarations.len() - i,
    {
        match &prog.declarations[i] {
            Declaration::Type(td) => {
                tc.declare(td.name, crate::typecontext::clone_fields(&td.fields));
            },
            _ => {},
        }
        i += 1;
    }
    tc
}

/// The scope of a program's globals.
pub fn program_globals(prog: &Program) -> (r: Result<LocalsContext, TypeError>)
    ensures
        match r {
            Ok(globals) => bind_globals(prog@, seq![Map::<Id, Ty>::empty()], 0) == Ok::<
                Scopes,
                TyError,
            >(globals@),
            Err(e) => bind_globals(prog@, seq![Map::<Id, Ty>::empty()], 0) == Err::<Scopes, TyError>(
                e@,
            ),
        },
{
    let mut globals = LocalsContext::new();
    let ghost start = globals@;
    let mut i: usize = 0;
    while i < prog.declarations.len()
        invariant
            i <= prog.declarations.len(),
            start == seq![Map::<Id, Ty>::empty()],
            bind_globals(prog@, start, 0) == bind_globals(prog@, globals@, i as nat),
        decreases prog.declarations.len() - i,
    {
        assert(prog@[i as int] == prog.declarations@[i as int]@);
        match &prog.declarations[i] {
            Declaration::Function(f) => {
                globals.set(f.name, f.function_type());
            },
            Declaration::Variable(g) => {
                let t = match g.type_check(&globals) {
                    Ok(t) => t,
                    Err(e) => { return Err(e); },
                };
                globals.set(g.name, t);
            },
            Declaration::Type(_) => {},
        }
        i += 1;
    }
    Ok(globals)
}

/// Checks a declaration of a program whose globals are bound in `lc`: the
/// function, if it declares one. Returns the scopes, which are those given.
pub fn type_check_declaration(d: &Declaration, tc: &TypingContext, lc: LocalsContext) -> (r: Result<
    LocalsContext,
    TypeError,
>)
    ensures
        match r {
            Ok(after) => check_declaration(tc@, lc@, d@) == Ok::<(), TyError>(()) && after@ == lc@,
            Err(e) => check_declaration(tc@, lc@, d@) == Err::<(), TyError>(e@),
        },
{
    match d {
        Declaration::Function(f) => type_check_function(f, tc, lc),
        _ => Ok(lc),
    }
}

/// Checks a program. Succeeds exactly when the typing rules accept the
/// program, and otherwise returns the first error that they meet.
pub fn type_check(prog: &Program) -> (r: Result<(), TypeError>)
    ensures
        unit_view(r) == check_program(prog@),
{
    let tc = program_context(prog);
    let globals = match program_globals(prog) {
        Ok(globals) => globals,
        Err(e) => { return Err(e); },
    };
    let ghost scopes = globals@;
    let ghost verdict = check_program(prog@);
    assert(verdict == check_functions(tc@, scopes, prog@, 0));
    let mut lc = globals;
    let mut i: usize = 0;
    while i < prog.declarations.len()
        invariant
            i <= prog.declarations.len(),
            lc@ == scopes,
            verdict == check_program(prog@),
            verdict == check_functions(tc@, scopes, prog@, i as nat),
        decreases prog.declarations.len() - i,
    {
        assert(prog@[i as int] == prog.declarations@[i as int]@);
        lc = match type_check_declaration(&prog.declarations[i], &tc, lc) {
            Ok(after) => after,
            Err(e) => { return Err(e); },
        };
        i += 1;
    }
    assert(verdict == Ok::<(), TyError>(()));
    Ok(())
}

impl Program {
    /// Checks the program. Succeeds exactly when the typing rules accept it,
    /// and otherwise returns the first error that they meet.
    pub fn type_check(&self) -> (r: Result<(), TypeError>)
        ensures
            unit_view(r) == check_program(self@),
    {
        type_check(self)
    }
}

/// A struct literal that gives a field twice is rejected for that, whatever
/// the context, the struct named and the order of its fields.
pub proof fn lemma_duplicate_field_rejected(
    structs: Structs,
    scopes: Scopes,
    name: Id,
    fields: Seq<(Id, Expr)>,
)
    requires
        !names(fields).no_duplicates(),
    ensures
        type_of(structs, scopes, Expr::CStruct(name, fields)) matches Err(
            TyError::DuplicateField(field),
        ) && exists|i: int, j: int|
            0 <= i < j < fields.len() && fields[i].0 == field && fields[j].0 == field,
{
    let ns = names(fields);
    let (a, b) = choose|a: int, b: int| 0 <= a < ns.len() && 0 <= b < ns.len() && a != b && ns[a] == ns[b];
    let hi = if a < b { b } else { a };
    let lo = if a < b { a } else { b };
    assert(ns.subrange(0, hi)[lo] == ns[hi]);
    lemma_first_duplicate(ns, 0, hi as nat);
    let field = first_duplicate(ns, 0).unwrap();
    let j = choose|j: int| 0 <= j < ns.len() && ns[j] == field && ns.subrange(0, j).contains(field);
    let i = choose|i: int| 0 <= i < j && ns.subrange(0, j)[i] == field;
    assert(fields[i].0 == field && fields[j].0 == field);
}

/// If some position from `i` on repeats an earlier name, `first_duplicate`
/// finds a name that stands at two positions.
pub proof fn lemma_first_duplicate(names: Seq<Id>, i: nat, k: nat)
    requires
        i <= k < names.len(),
        names.subrange(0, k as int).contains(names[k as int]),
    ensures
        first_duplicate(names, i) matches Some(field) && exists|j: int|
            0 <= j < names.len() && names[j] == field && names.subrange(0, j).contains(field),
    decreases k - i,
{
    if names.subrange(0, i as int).contains(names[i as int]) {
    } else {
        lemma_first_duplicate(names, i + 1, k);
    }
}

/// A function that has to return a value, and whose body type checks but
/// can be left by falling through, is rejected for not returning.
pub proof fn lemma_did_not_return(structs: Structs, globals: Scopes, f: FunDecl)
    requires
        f.return_type is Value,
        check_block(
            structs,
            bind_params(globals.push(Map::empty()), f.args, 0),
            f.body,
            f.return_type,
        ) == Ok::<bool, TyError>(false),
    ensures
        check_function(structs, globals, f) == Err::<(), TyError>(
            TyError::DidNotReturn { expected_ret_type: f.return_type },
        ),
{
}

/// Where a statement that type checks and cannot be left by falling through,
/// such as a `return`, is followed by another statement of its block, the
/// block is rejected as holding dead code.
pub proof fn lemma_dead_code_after_return(
    structs: Structs,
    scopes: Scopes,
    block: Seq<Stmt>,
    i: nat,
    expected: RetTy,
)
    requires
        i + 1 < block.len(),
        check_statement(structs, scopes, block[i as int], expected) matches Ok((ends, _)) && ends,
    ensures
        check_statements(structs, scopes, block, i, false, expected) == Err::<bool, TyError>(
            TyError::DeadCodeAfterReturn,
        ),
{
    let after = check_statement(structs, scopes, block[i as int], expected)->Ok_0.1;
    assert(check_statements(structs, after, block, i + 1, true, expected) == Err::<bool, TyError>(
        TyError::DeadCodeAfterReturn,
    ));
}

/// A `return` statement that type checks ends its block: control cannot
/// fall through it.
pub proof fn lemma_return_ends(structs: Structs, scopes: Scopes, value: Option<Expr>, expected: RetTy)
    requires
        check_statement(structs, scopes, Stmt::Return(value), expected) is Ok,
    ensures
        check_statement(structs, scopes, Stmt::Return(value), expected) == Ok::<
            (bool, Scopes),
            TyError,
        >((true, scopes)),
{
}

/// Whether a type is well formed: every struct that it names, and every
/// struct that those name in turn, is declared. `seen` holds the structs
/// whose fields are being looked through; meeting one of them again is how
/// a recursive struct shows, and is accepted.
pub open spec fn well_formed(structs: Structs, t: Ty, seen: Seq<Id>) -> Result<(), TyError>
    decreases structs.len() - seen.len(), 1nat, t, 0nat,
{
    match t {
        Ty::Ref(r) => ref_well_formed(structs, r, seen),
        Ty::NullRef(r) => ref_well_formed(structs, r, seen),
        _ => Ok(()),
    }
}

/// Whether a reference type is well formed.
pub open spec fn ref_well_formed(structs: Structs, r: RefTy, seen: Seq<Id>) -> Result<(), TyError>
    decreases structs.len() - seen.len(), 1nat, r, 0nat,
{
    match r {
        RefTy::String => Ok(()),
        RefTy::Struct(name) => if seen.contains(name) {
            Ok(())
        } else {
            match struct_fields(structs, name) {
                None => Err(TyError::StructNotFound(name)),
                Some(fields) => if seen.len() >= structs.len() {
                    Ok(())
                } else {
                    fields_well_formed(structs, fields, 0, seen.push(name))
                },
            }
        },
        RefTy::Array(t) => well_formed(structs, *t, seen),
        RefTy::Function(args, ret) => match types_well_formed(structs, args, 0, seen) {
            Err(e) => Err(e),
            Ok(_) => match *ret {
                RetTy::Void => Ok(()),
                RetTy::Value(t) => well_formed(structs, t, seen),
            },
        },
    }
}

/// Whether the types from position `i` on are well formed.
pub open spec fn types_well_formed(structs: Structs, types: Seq<Ty>, i: nat, seen: Seq<Id>) -> Result<
    (),
    TyError,
>
    decreases structs.len() - seen.len(), 1nat, types, types.len() - i,
{
    if i >= types.len() {
        Ok(())
    } else {
        match well_formed(structs, types[i as int], seen) {
            Err(e) => Err(e),
            Ok(_) => types_well_formed(structs, types, i + 1, seen),
        }
    }
}

/// Whether the types of the fields from position `i` on are well formed.
pub open spec fn fields_well_formed(structs: Structs, fields: Fields, i: nat, seen: Seq<Id>) -> Result<
    (),
    TyError,
>
    decreases structs.len() - seen.len(), 2nat, fields, fields.len() - i,
{
    if i >= fields.len() {
        Ok(())
    } else {
        match well_formed(structs, fields[i as int].1, seen) {
            Err(e) => Err(e),
            Ok(_) => fields_well_formed(structs, fields, i + 1, seen),
        }
    }
}

/// Whether `id` is among `ids`.
pub fn contains_id(ids: &Vec<Id>, id: Id) -> (r: bool)
    ensures
        r == ids@.contains(id),
{
    let mut i: usize = 0;
    while i < ids.len()
        invariant
            i <= ids.len(),
            forall|j: int| 0 <= j < i ==> ids@[j] != id,
        decreases ids.len() - i,
    {
        if ids[i].index == id.index {
            return true;
        }
        i += 1;
    }
    false
}

/// Checks that a type is well formed, given the structs whose fields are
/// being looked through. Leaves `seen` as it found it.
pub fn tc_type(type_: &Type, tc: &TypingContext, seen: &mut Vec<Id>) -> (r: Result<(), TypeError>)
    ensures
        unit_view(r) == well_formed(tc@, type_@, old(seen)@),
        final(seen)@ == old(seen)@,
    decreases tc@.len() - old(seen)@.len(), 1nat, type_, 0nat,
{
    match type_ {
        Type::Ref(r) => tc_reference(r, tc, seen),
        Type::NullRef(r) => tc_reference(r, tc, seen),
        _ => Ok(()),
    }
}

/// Checks that a reference type is well formed. Leaves `seen` as it found
/// it.
pub fn tc_reference(r: &ReferenceType, tc: &TypingContext, seen: &mut Vec<Id>) -> (res: Result<
    (),
    TypeError,
>)
    ensures
        unit_view(res) == ref_well_formed(tc@, r@, old(seen)@),
        final(seen)@ == old(seen)@,
    decreases tc@.len() - old(seen)@.len(), 1nat, r, 0nat,
{
    match r {
        ReferenceType::String => Ok(()),
        ReferenceType::Struct(name) => {
            if contains_id(seen, *name) {
                return Ok(());
            }
            let fields = match tc.get_type(name) {
                Some(fields) => fields,
                None => { return Err(TypeError::StructNotFound(*name)); },
            };
            if seen.len() >= tc.len() {
                return Ok(());
            }
            let ghost before = seen@;
            let ghost fv = fields_view(*fields);
            seen.push(*name);
            let n = fields.len();
            let mut i: usize = 0;
            while i < n
                invariant
                    i <= n,
                    n == fv.len(),
                    fv == fields_view(*fields),
                    fields.wf(),
                    seen@ == before.push(*name),
                    before.len() < tc@.len(),
                    old(seen)@ == before,
                    r@ == RefTy::Struct(*name),
                    !before.contains(*name),
                    struct_fields(tc@, *name) == Some(fv),
                    fields_well_formed(tc@, fv, 0, seen@) == fields_well_formed(tc@, fv, i as nat, seen@),
                decreases n - i,
            {
                match fields.get_index(i) {
                    Some((_, t)) => {
                        match tc_type(t, tc, seen) {
                            Ok(_) => {},
                            Err(e) => {
                                seen.pop();
                                assert(seen@ =~= before);
                                return Err(e);
                            },
                        }
                    },
                    None => {},
                }
                i += 1;
            }
            seen.pop();
            assert(seen@ =~= before);
            Ok(())
        },
        ReferenceType::Array(t) => tc_type(t, tc, seen),
        ReferenceType::Function(args, ret) => {
            let ghost av = r@->Function_0;
            assert(av =~= types_view(args@));
            let mut i: usize = 0;
            while i < args.len()
                invariant
                    i <= args.len(),
                    *r == ReferenceType::Function(*args, *ret),
                    av == types_view(args@),
                    r@ == RefTy::Function(av, Box::new(ret@)),
                    seen@ == old(seen)@,
                    types_well_formed(tc@, av, 0, seen@) == types_well_formed(tc@, av, i as nat, seen@),
                decreases args.len() - i,
            {
                assert(decreases_to!(r => r->Function_0[i as int]));
                match tc_type(&args[i], tc, seen) {
                    Ok(_) => {},
                    Err(e) => { return Err(e); },
                }
                i += 1;
            }
            match &**ret {
                ReturnType::ReturnVoid => Ok(()),
                ReturnType::ReturnValue(t) => tc_type(t, tc, seen),
            }
        },
    }
}

impl Type {
    /// Checks that the type is well formed: that every struct it names, and
    /// every struct that those name in turn, is declared in `tc`.
    pub fn type_check(&self, tc: &TypingContext) -> (r: Result<(), TypeError>)
        ensures
            unit_view(r) == well_formed(tc@, self@, Seq::<Id>::empty()),
    {
        let mut seen: Vec<Id> = Vec::new();
        tc_type(self, tc, &mut seen)
    }
}

/// Whether a statement holds no `return`, however deep.
pub open spec fn returns_nowhere(stmt: Stmt) -> bool
    decreases stmt, 0nat,
{
    match stmt {
        Stmt::Return(_) => false,
        Stmt::If { then, else_, .. } => block_returns_nowhere(then, 0) && block_returns_nowhere(else_, 0),
        Stmt::Cast(_, _, _, then, else_) => block_returns_nowhere(then, 0) && block_returns_nowhere(
            else_,
            0,
        ),
        Stmt::For { update, body, .. } => block_returns_nowhere(body, 0) && match update {
            Some(u) => returns_nowhere(*u),
            None => true,
        },
        Stmt::While { body, .. } => block_returns_nowhere(body, 0),
        _ => true,
    }
}

/// Whether the statements of a block from position `i` on hold no `return`.
pub open spec fn block_returns_nowhere(block: Seq<Stmt>, i: nat) -> bool
    decreases block, block.len() - i,
{
    if i >= block.len() {
        true
    } else {
        returns_nowhere(block[i as int]) && block_returns_nowhere(block, i + 1)
    }
}

/// Control can fall through a statement that type checks and holds no
/// `return`.
pub proof fn lemma_falls_through(structs: Structs, scopes: Scopes, stmt: Stmt, expected: RetTy)
    requires
        returns_nowhere(stmt),
        check_statement(structs, scopes, stmt, expected) is Ok,
    ensures
        !check_statement(structs, scopes, stmt, expected)->Ok_0.0,
    decreases stmt, 0nat,
{
    match stmt {
        Stmt::If { condition, then, else_ } => {
            assert(type_of(structs, scopes, condition) == Ok::<Ty, TyError>(Ty::Bool));
            assert(check_block(structs, scopes, then, expected) is Ok);
            lemma_block_falls_through(structs, scopes.push(Map::empty()), then, 0, expected);
        },
        Stmt::Cast(r, name, source, then, else_) => {
            lemma_block_falls_through(
                structs,
                bind(scopes.push(Map::empty()), name, Ty::Ref(r)),
                then,
                0,
                expected,
            );
        },
        Stmt::For { init, condition, update, body } => {
            let inner = bind_all(structs, scopes.push(Map::empty()), init, 0)->Ok_0;
            assert(bind_all(structs, scopes.push(Map::empty()), init, 0) is Ok);
            assert(condition_ok(structs, inner, condition) is Ok);
            let after = match update {
                None => inner,
                Some(u) => check_statement(structs, inner, *u, expected)->Ok_0.1,
            };
            assert(check_block(structs, after, body, expected) is Ok);
            lemma_block_falls_through(structs, after.push(Map::empty()), body, 0, expected);
        },
        Stmt::While { condition, body } => {
            assert(type_of(structs, scopes, condition) == Ok::<Ty, TyError>(Ty::Bool));
            assert(check_block(structs, scopes, body, expected) is Ok);
            lemma_block_falls_through(structs, scopes.push(Map::empty()), body, 0, expected);
        },
        _ => {},
    }
}

/// Control can fall through statements that type check and hold no
/// `return`.
pub proof fn lemma_block_falls_through(
    structs: Structs,
    scopes: Scopes,
    block: Seq<Stmt>,
    i: nat,
    expected: RetTy,
)
    requires
        block_returns_nowhere(block, i),
        check_statements(structs, scopes, block, i, false, expected) is Ok,
    ensures
        check_statements(structs, scopes, block, i, false, expected) == Ok::<bool, TyError>(false),
    decreases block, block.len() - i,
{
    if i < block.len() {
        lemma_falls_through(structs, scopes, block[i as int], expected);
        let after = check_statement(structs, scopes, block[i as int], expected)->Ok_0.1;
        lemma_block_falls_through(structs, after, block, i + 1, expected);
    }
}

/// A function that has to return a value and whose body holds no `return`
/// is rejected: for not returning, if nothing else is wrong with its body.
pub proof fn lemma_no_return_did_not_return(structs: Structs, globals: Scopes, f: FunDecl)
    requires
        f.return_type is Value,
        block_returns_nowhere(f.body, 0),
    ensures
        check_function(structs, globals, f) is Err,
        check_block(
            structs,
            bind_params(globals.push(Map::empty()), f.args, 0),
            f.body,
            f.return_type,
        ) is Ok ==> check_function(structs, globals, f) == Err::<(), TyError>(
            TyError::DidNotReturn { expected_ret_type: f.return_type },
        ),
{
    let scopes = bind_params(globals.push(Map::empty()), f.args, 0);
    if check_block(structs, scopes, f.body, f.return_type) is Ok {
        lemma_block_falls_through(structs, scopes.push(Map::empty()), f.body, 0, f.return_type);
    }
}

} // verus!
