//! Lowering of functions and of whole programs.

use crate::ast;
use crate::ast::{
    fields_view, params_view, Decl, Declaration, Expr, Expression, Fields, FunDecl, Id, Prog,
};
use crate::cfg::{
    build, closed, globals_of, globals_view, graph_of, single_assignment,
};
use crate::compile::{
    compile_block, compile_local, compile_reference, compile_return, compile_type, elements_view,
    new_uid, nothing, Context, Element,
};
use crate::errors::Error;
use crate::fresh::{
    fine, lemma_declare_local, lemma_extends_fine, lemma_fine_concat, lemma_fine_empty,
    lemma_fine_widen, lemma_whole_block,
};
use crate::llvmlite::{
    clone_type, named_types_view, pointer_to, types_view, FunctionDecl, FunctionType, Gid,
    GlobalDeclaration, GlobalInitializer, LFunction, LInit, LProgram, LTerminator, LType, Operand,
    Program, Runtime, Terminator, Tid, Type, TypeContext, Uid,
};
use crate::lower::{
    declare_local, fresh_uid, lower_block, ll_pointee, ll_return, ll_type,
    Ctx, Elt, Names,
};
use crate::sound::{defines, lemma_graph};
use crate::table::{lemma_position, SymbolTable};
use crate::typecheck::{program_context, program_structs};
use crate::typecontext::{names, Structs, TypingContext};
use vstd::prelude::*;

verus! {

/// What the parameters of a function lower to: what identifiers stand for,
/// the identifiers of the parameters, the code that stores each parameter
/// in a slot of its own, and the counters.
pub type Entry = Result<(Ctx, Seq<Uid>, Seq<Elt>, Names), Error>;

/// The parameters from position `i` on: each gets an identifier, and a
/// slot in which its value is stored and for which its name stands.
pub open spec fn lower_parameters(
    ctx: Ctx,
    params: Seq<(ast::Ty, Id)>,
    i: nat,
    uids: Seq<Uid>,
    s: Seq<Elt>,
    n: Names,
) -> Entry
    decreases params.len() - i,
{
    if i >= params.len() {
        Ok((ctx, uids, s, n))
    } else {
        match fresh_uid(n) {
            Err(e) => Err(e),
            Ok((u, n1)) => match declare_local(
                ctx,
                params[i as int].1,
                ll_type(params[i as int].0),
                Operand::Id(u),
                s,
                n1,
            ) {
                Err(e) => Err(e),
                Ok((ctx1, s1, n2)) => lower_parameters(ctx1, params, i + 1, uids.push(u), s1, n2),
            },
        }
    }
}

/// The terminator of a block that the code leaves open at the end of a
/// function: a return, of zero where the function returns a value.
pub open spec fn fallback(ret: LType) -> LTerminator {
    if ret is Void {
        LTerminator::Ret(ret, None)
    } else {
        LTerminator::Ret(ret, Some(Operand::Const(0)))
    }
}

/// The types of the parameters of a function.
pub open spec fn argument_types(params: Seq<(ast::Ty, Id)>) -> Seq<LType> {
    Seq::new(params.len(), |i: int| ll_type(params[i].0))
}

/// The type of a function as a value: a pointer to a function.
pub open spec fn function_pointer(f: FunDecl) -> LType {
    LType::Ptr(
        Box::new(LType::Fun(argument_types(f.args), Box::new(ll_return(f.return_type)))),
    )
}

/// A function: its parameters are stored in slots, its body is lowered
/// after them, and the code is cut into the blocks of a graph. The local
/// identifiers and the labels are numbered from zero, and the texts of
/// string literals from `text` on. Gives the function, the globals that its
/// string literals need, and the number of the next text.
pub open spec fn lower_function(structs: Structs, globals: Ctx, f: FunDecl, text: u32) -> Result<
    (LFunction, Seq<(Gid, (LType, LInit))>, u32),
    Error,
> {
    let ret = ll_return(f.return_type);
    match lower_parameters(
        globals,
        f.args,
        0,
        Seq::empty(),
        Seq::empty(),
        Names { uid: 0, label: 0, text },
    ) {
        Err(e) => Err(e),
        Ok((ctx, parameters, s, n)) => match lower_block(structs, ctx, ret, f.body, 0, Seq::empty(), n) {
            Err(e) => Err(e),
            Ok((body, n1)) => Ok(
                (
                    LFunction {
                        arg_types: argument_types(f.args),
                        ret_type: ret,
                        parameters,
                        cfg: graph_of(s + body, fallback(ret)),
                    },
                    globals_of(s + body, 0, Seq::empty()),
                    n1.text,
                ),
            ),
        },
    }
}

/// Whether the identifiers are numbered below the counter, differ from one
/// another, and are none of those that the code defines.
pub open spec fn apart(uids: Seq<Uid>, s: Seq<Elt>, n: Names) -> bool {
    &&& uids.no_duplicates()
    &&& forall|k: int| 0 <= k < uids.len() ==> (#[trigger] uids[k]).index < n.uid
    &&& forall|k: int| 0 <= k < uids.len() ==> !defines(s, #[trigger] uids[k])
}

/// The code that stores the parameters is fine, and the identifiers of the
/// parameters stay apart from it.
pub proof fn lemma_parameters(
    ctx: Ctx,
    params: Seq<(ast::Ty, Id)>,
    i: nat,
    uids: Seq<Uid>,
    s: Seq<Elt>,
    n0: Names,
    n: Names,
)
    requires
        lower_parameters(ctx, params, i, uids, s, n) is Ok,
        fine(s, n0, n),
        apart(uids, s, n),
    ensures
        fine(
            lower_parameters(ctx, params, i, uids, s, n)->Ok_0.2,
            n0,
            lower_parameters(ctx, params, i, uids, s, n)->Ok_0.3,
        ),
        apart(
            lower_parameters(ctx, params, i, uids, s, n)->Ok_0.1,
            lower_parameters(ctx, params, i, uids, s, n)->Ok_0.2,
            lower_parameters(ctx, params, i, uids, s, n)->Ok_0.3,
        ),
    decreases params.len() - i,
{
    if i < params.len() {
        let (u, n1) = fresh_uid(n)->Ok_0;
        let t = ll_type(params[i as int].0);
        lemma_declare_local(ctx, params[i as int].1, t, Operand::Id(u), s, n1);
        let (ctx1, s1, n2) = declare_local(ctx, params[i as int].1, t, Operand::Id(u), s, n1)->Ok_0;
        lemma_fine_widen(s, n0, n0, n, n1);
        lemma_extends_fine(s, s1, n0, n1, n2);
        let more = uids.push(u);
        let d = s1.subrange(s.len() as int, s1.len() as int);
        assert forall|k: int| 0 <= k < more.len() implies !defines(s1, #[trigger] more[k]) by {
            if defines(s1, more[k]) {
                let j = choose|j: int|
                    0 <= j < s1.len() && (#[trigger] s1[j]) is Ins && s1[j]->Ins_0 == more[k];
                if j < s.len() {
                    assert(s1.subrange(0, s.len() as int)[j] == s1[j]);
                    assert(s[j] is Ins);
                    if k < uids.len() {
                        assert(defines(s, uids[k]));
                    }
                } else {
                    assert(d[j - s.len()] == s1[j]);
                    assert(d[j - s.len()] is Ins);
                    if k < uids.len() {
                        assert(more[k] == uids[k]);
                    }
                }
            }
        }
        assert forall|a: int, b: int| 0 <= a < more.len() && 0 <= b < more.len() && a != b implies more[a]
            != more[b] by {
            if a < uids.len() {
                assert(more[a] == uids[a]);
            }
            if b < uids.len() {
                assert(more[b] == uids[b]);
            }
        }
        assert forall|k: int| 0 <= k < more.len() implies (#[trigger] more[k]).index < n2.uid by {
            if k < uids.len() {
                assert(more[k] == uids[k]);
            }
        }
        lemma_parameters(ctx1, params, i + 1, more, s1, n0, n2);
    }
}

/// Every function lowers to a closed graph in which no identifier is
/// defined twice.
pub proof fn lemma_function_well_formed(structs: Structs, globals: Ctx, f: FunDecl, text: u32)
    requires
        lower_function(structs, globals, f, text) is Ok,
    ensures
        closed(lower_function(structs, globals, f, text)->Ok_0.0.cfg),
        single_assignment(
            lower_function(structs, globals, f, text)->Ok_0.0.parameters,
            lower_function(structs, globals, f, text)->Ok_0.0.cfg,
        ),
{
    let ret = ll_return(f.return_type);
    let n0 = Names { uid: 0, label: 0, text };
    let none = Seq::<Elt>::empty();
    lemma_fine_empty(n0);
    lemma_parameters(globals, f.args, 0, Seq::empty(), none, n0, n0);
    let (ctx, parameters, s, n) = lower_parameters(globals, f.args, 0, Seq::empty(), none, n0)->Ok_0;
    lemma_whole_block(structs, ctx, ret, f.body, n);
    let (body, n1) = lower_block(structs, ctx, ret, f.body, 0, none, n)->Ok_0;
    lemma_fine_concat(s, body, n0, n, n1);
    let d = s + body;
    assert forall|k: int| 0 <= k < parameters.len() implies !defines(d, #[trigger] parameters[k]) by {
        if defines(d, parameters[k]) {
            let j = choose|j: int|
                0 <= j < d.len() && (#[trigger] d[j]) is Ins && d[j]->Ins_0 == parameters[k];
            if j < s.len() {
                assert(s[j] == d[j]);
                assert(defines(s, parameters[k]));
            } else {
                assert(body[j - s.len()] == d[j]);
                assert(body[j - s.len()] is Ins);
            }
        }
    }
    lemma_graph(d, fallback(ret), parameters, n0, n1);
}

/// The named type of a struct: the types of its fields, in declaration
/// order.
pub open spec fn struct_type(fields: Fields) -> LType {
    LType::Struct(Seq::new(fields.len(), |i: int| ll_type(fields[i].1)))
}

/// The named types of the structs of a program, in declaration order.
pub open spec fn named_types(structs: Structs) -> Seq<(Tid, LType)> {
    Seq::new(structs.len(), |i: int| (structs[i].0, struct_type(structs[i].1)))
}

/// What the globals of a program lower to: what their names stand for, the
/// globals themselves, and the number of the next text.
pub type Globals = Result<(Ctx, Seq<(Gid, (LType, LInit))>, u32), Error>;

/// The global variable `name` with the initializer `init`. A string gets a
/// global of its own for its text, and the variable holds the address of
/// that.
pub open spec fn lower_global(
    ctx: Ctx,
    name: Id,
    init: Expr,
    acc: Seq<(Gid, (LType, LInit))>,
    text: u32,
) -> Globals {
    let g = Gid::Name(name);
    match init {
        Expr::CNull(r) => {
            let t = LType::Ptr(Box::new(ll_pointee(r)));
            Ok((
                ctx.insert(name, (LType::Ptr(Box::new(t)), Operand::Gid(g))),
                acc.push((g, (t, LInit::Null))),
                text,
            ))
        },
        Expr::CBool(b) => Ok(
            (
                ctx.insert(name, (LType::Ptr(Box::new(LType::I1)), Operand::Gid(g))),
                acc.push(
                    (
                        g,
                        (
                            LType::I1,
                            LInit::Int(
                                if b {
                                    1
                                } else {
                                    0
                                },
                            ),
                        ),
                    ),
                ),
                text,
            ),
        ),
        Expr::CInt(i) => Ok(
            (
                ctx.insert(name, (LType::Ptr(Box::new(LType::I64)), Operand::Gid(g))),
                acc.push((g, (LType::I64, LInit::Int(i)))),
                text,
            ),
        ),
        Expr::CStr(s) => if text == u32::MAX || s.len() >= usize::MAX {
            Err(Error::OutOfNames)
        } else {
            let t = LType::Ptr(Box::new(LType::I8));
            Ok((
                ctx.insert(name, (LType::Ptr(Box::new(t)), Operand::Gid(g))),
                acc.push(
                    (
                        Gid::Text(text),
                        (LType::Array(s.len() + 1, Box::new(LType::I8)), LInit::String(s)),
                    ),
                ).push((g, (t, LInit::Gid(Gid::Text(text))))),
                (text + 1) as u32,
            ))
        },
        Expr::Id(other) => if !ctx.contains_key(other) {
            Err(Error::UnboundIdentifier(other))
        } else {
            match ctx[other] {
                (LType::Ptr(t), Operand::Gid(o)) => Ok(
                    (
                        ctx.insert(name, (LType::Ptr(Box::new(LType::Ptr(t))), Operand::Gid(g))),
                        acc.push((g, (LType::Ptr(t), LInit::Gid(o)))),
                        text,
                    ),
                ),
                _ => Err(Error::DerefNonPointer),
            }
        },
        _ => Err(Error::NotAssignable),
    }
}

/// The globals declared from position `i` on, in source order: a function
/// stands for itself, and a variable for its address.
pub open spec fn lower_globals(
    prog: Prog,
    i: nat,
    ctx: Ctx,
    acc: Seq<(Gid, (LType, LInit))>,
    text: u32,
) -> Globals
    decreases prog.len() - i,
{
    if i >= prog.len() {
        Ok((ctx, acc, text))
    } else {
        match prog[i as int] {
            Decl::Function(f) => lower_globals(
                prog,
                i + 1,
                ctx.insert(f.name, (function_pointer(f), Operand::Gid(Gid::Name(f.name)))),
                acc,
                text,
            ),
            Decl::Variable { name, init } => match lower_global(ctx, name, init, acc, text) {
                Err(e) => Err(e),
                Ok((ctx1, acc1, text1)) => lower_globals(prog, i + 1, ctx1, acc1, text1),
            },
            Decl::Type { .. } => lower_globals(prog, i + 1, ctx, acc, text),
        }
    }
}

/// What the functions of a program lower to: the functions, and the
/// globals of the program with those that string literals need.
pub type Functions = Result<(Seq<(Gid, LFunction)>, Seq<(Gid, (LType, LInit))>), Error>;

/// The functions declared from position `i` on, in source order.
pub open spec fn lower_functions(
    structs: Structs,
    ctx: Ctx,
    prog: Prog,
    i: nat,
    functions: Seq<(Gid, LFunction)>,
    globals: Seq<(Gid, (LType, LInit))>,
    text: u32,
) -> Functions
    decreases prog.len() - i,
{
    if i >= prog.len() {
        Ok((functions, globals))
    } else {
        match prog[i as int] {
            Decl::Function(f) => match lower_function(structs, ctx, f, text) {
                Err(e) => Err(e),
                Ok((lowered, more, text1)) => lower_functions(
                    structs,
                    ctx,
                    prog,
                    i + 1,
                    functions.push((Gid::Name(f.name), lowered)),
                    globals + more,
                    text1,
                ),
            },
            _ => lower_functions(structs, ctx, prog, i + 1, functions, globals, text),
        }
    }
}

/// A pointer to bytes.
pub open spec fn bytes() -> LType {
    LType::Ptr(Box::new(LType::I8))
}

/// The functions of the runtime, with their types.
pub open spec fn externals() -> Seq<(Gid, LType)> {
    seq![
        (
            Gid::External(Runtime::AllocArray),
            LType::Fun(seq![LType::I64], Box::new(LType::Ptr(Box::new(LType::I64)))),
        ),
        (Gid::External(Runtime::Malloc), LType::Fun(seq![LType::I64], Box::new(bytes()))),
        (Gid::External(Runtime::StringOfInt), LType::Fun(seq![LType::I64], Box::new(bytes()))),
        (Gid::External(Runtime::StringCat), LType::Fun(seq![bytes(), bytes()], Box::new(bytes()))),
        (Gid::External(Runtime::PrintString), LType::Fun(seq![bytes()], Box::new(LType::Void))),
        (Gid::External(Runtime::PrintInt), LType::Fun(seq![LType::I64], Box::new(LType::Void))),
    ]
}

/// What the identifiers of the runtime stand for.
pub open spec fn runtime_context(names: RuntimeNames) -> Ctx {
    Map::<Id, (LType, Operand)>::empty().insert(
        names.string_of_int,
        (LType::Ptr(Box::new(externals()[2].1)), Operand::Gid(Gid::External(Runtime::StringOfInt))),
    ).insert(
        names.string_cat,
        (LType::Ptr(Box::new(externals()[3].1)), Operand::Gid(Gid::External(Runtime::StringCat))),
    ).insert(
        names.print_string,
        (LType::Ptr(Box::new(externals()[4].1)), Operand::Gid(Gid::External(Runtime::PrintString))),
    ).insert(
        names.print_int,
        (LType::Ptr(Box::new(externals()[5].1)), Operand::Gid(Gid::External(Runtime::PrintInt))),
    )
}

/// The symbols under which programs call the functions of the runtime.
#[derive(Debug, Clone, Copy, PartialEq, Eq, Structural)]
pub struct RuntimeNames {
    pub string_of_int: Id,
    pub string_cat: Id,
    pub print_string: Id,
    pub print_int: Id,
}

/// A program: its structs become named types, its globals and functions
/// are lowered in source order, and the functions of the runtime are
/// declared as externals.
pub open spec fn lower_program(prog: Prog, runtime: RuntimeNames) -> Result<LProgram, Error> {
    let structs = program_structs(prog, prog.len());
    match lower_globals(prog, 0, runtime_context(runtime), Seq::empty(), 0) {
        Err(e) => Err(e),
        Ok((ctx, globals, text)) => match lower_functions(
            structs,
            ctx,
            prog,
            0,
            Seq::empty(),
            globals,
            text,
        ) {
            Err(e) => Err(e),
            Ok((functions, all)) => Ok(
                LProgram { types: named_types(structs), globals: all, functions, externals: externals() },
            ),
        },
    }
}

/// The terminator of a block that the code leaves open at the end of a
/// function.
pub fn fallback_of(ret: &Type) -> (t: Terminator)
    ensures
        t@ == fallback(ret@),
{
    match ret {
        Type::Void => Terminator::Ret(Type::Void, None),
        other => Terminator::Ret(clone_type(other), Some(Operand::Const(0))),
    }
}

/// The types of the parameters of a function.
pub fn argument_types_of(params: &Vec<(ast::Type, Id)>) -> (r: Vec<Type>)
    ensures
        types_view(r@) == argument_types(params_view(params@)),
{
    let mut types: Vec<Type> = Vec::new();
    let mut i: usize = 0;
    while i < params.len()
        invariant
            i <= params.len(),
            types@.len() == i,
            forall|j: int| 0 <= j < i ==> types@[j]@ == ll_type(params@[j].0@),
        decreases params.len() - i,
    {
        types.push(compile_type(&params[i].0));
        i += 1;
    }
    assert(types_view(types@) =~= argument_types(params_view(params@)));
    types
}

/// The type of a function as a value.
pub fn function_pointer_of(f: &ast::FunctionDecl) -> (t: Type)
    ensures
        t@ == function_pointer(f@),
{
    let args = argument_types_of(&f.args);
    let ret = compile_return(&f.return_type);
    let ghost av = types_view(args@);
    let ghost rv = ret@;
    let function = Type::Fun(args, Box::new(ret));
    assert(function@->Fun_0 =~= av);
    assert(function@ == LType::Fun(av, Box::new(rv)));
    let t = Type::Ptr(Box::new(function));
    assert(t@ == LType::Ptr(Box::new(LType::Fun(av, Box::new(rv)))));
    t
}

/// Lowers the parameters of a function.
pub fn compile_parameters(ctx: Context, params: &Vec<(ast::Type, Id)>, n: Names) -> (r: Result<
    (Context, Vec<Uid>, Vec<Element>, Names),
    Error,
>)
    ensures
        match r {
            Ok((c, uids, s, n1)) => lower_parameters(
                ctx@,
                params_view(params@),
                0,
                Seq::empty(),
                Seq::empty(),
                n,
            ) == Ok::<(Ctx, Seq<Uid>, Seq<Elt>, Names), Error>((c@, uids@, elements_view(s@), n1)),
            Err(e) => lower_parameters(ctx@, params_view(params@), 0, Seq::empty(), Seq::empty(), n)
                == Err::<(Ctx, Seq<Uid>, Seq<Elt>, Names), Error>(e),
        },
{
    let ghost pv = params_view(params@);
    let ghost start = ctx@;
    let mut current = ctx;
    let mut uids: Vec<Uid> = Vec::new();
    let mut code = nothing();
    let mut names = n;
    let mut i: usize = 0;
    while i < params.len()
        invariant
            i <= params.len(),
            pv == params_view(params@),
            start == ctx@,
            lower_parameters(start, pv, 0, Seq::empty(), Seq::empty(), n) == lower_parameters(
                current@,
                pv,
                i as nat,
                uids@,
                elements_view(code@),
                names,
            ),
        decreases params.len() - i,
    {
        let (u, n1) = match new_uid(names) {
            Ok(x) => x,
            Err(e) => { return Err(e); },
        };
        match compile_local(current, params[i].1, compile_type(&params[i].0), Operand::Id(u), code, n1) {
            Err(e) => { return Err(e); },
            Ok((c, s1, n2)) => {
                current = c;
                code = s1;
                names = n2;
                uids.push(u);
            },
        }
        i += 1;
    }
    Ok((current, uids, code, names))
}

/// Lowers a function of a program whose globals stand for what `globals`
/// says. The texts of its string literals are numbered from `text` on.
/// Returns the function, the globals that its string literals need, and
/// the number of the next text. The graph of the function is closed, and
/// none of its identifiers is defined twice.
pub fn compile_function(tc: &TypingContext, globals: &Context, f: &ast::FunctionDecl, text: u32) -> (r:
    Result<(FunctionDecl, Vec<(Gid, GlobalDeclaration)>, u32), Error>)
    ensures
        match r {
            Ok((lowered, more, next)) => lower_function(tc@, globals@, f@, text) == Ok::<
                (LFunction, Seq<(Gid, (LType, LInit))>, u32),
                Error,
            >((lowered@, globals_view(more@), next)) && closed(lowered@.cfg) && single_assignment(
                lowered@.parameters,
                lowered@.cfg,
            ),
            Err(e) => lower_function(tc@, globals@, f@, text) == Err::<
                (LFunction, Seq<(Gid, (LType, LInit))>, u32),
                Error,
            >(e),
        },
{
    let ret = compile_return(&f.return_type);
    let (ctx, parameters, s, n) = match compile_parameters(
        globals.copy(),
        &f.args,
        Names { uid: 0, label: 0, text },
    ) {
        Ok(x) => x,
        Err(e) => { return Err(e); },
    };
    let (body, n1) = match compile_block(tc, &ctx, &ret, &f.body, n) {
        Ok(x) => x,
        Err(e) => { return Err(e); },
    };
    let stream = crate::compile::join(s, body);
    let (cfg, more) = build(stream, fallback_of(&ret));
    proof {
        lemma_function_well_formed(tc@, globals@, f@, text);
    }
    let lowered = FunctionDecl {
        type_signature: FunctionType { arg_types: argument_types_of(&f.args), ret_type: ret },
        parameters,
        cfg,
    };
    Ok((lowered, more, n1.text))
}

impl ast::FunctionDecl {
    /// Lowers the function.
    pub fn compile(&self, tc: &TypingContext, globals: &Context, text: u32) -> (r: Result<
        (FunctionDecl, Vec<(Gid, GlobalDeclaration)>, u32),
        Error,
    >)
        ensures
            match r {
                Ok((lowered, more, next)) => lower_function(tc@, globals@, self@, text) == Ok::<
                    (LFunction, Seq<(Gid, (LType, LInit))>, u32),
                    Error,
                >((lowered@, globals_view(more@), next)) && closed(lowered@.cfg)
                    && single_assignment(lowered@.parameters, lowered@.cfg),
                Err(e) => lower_function(tc@, globals@, self@, text) == Err::<
                    (LFunction, Seq<(Gid, (LType, LInit))>, u32),
                    Error,
                >(e),
            },
    {
        compile_function(tc, globals, self, text)
    }
}

/// The named type of a struct.
pub fn struct_type_of(fields: &ast::FieldSet) -> (t: Type)
    ensures
        t@ == struct_type(fields_view(*fields)),
{
    let n = fields.len();
    let mut types: Vec<Type> = Vec::new();
    let mut i: usize = 0;
    while i < n
        invariant
            i <= n,
            n == fields.keys().len(),
            fields.wf(),
            types@.len() == i,
            forall|j: int| 0 <= j < i ==> types@[j]@ == ll_type(fields.values()[j]@),
        decreases n - i,
    {
        match fields.get_index(i) {
            Some((_, t)) => {
                types.push(compile_type(t));
            },
            None => {
                types.push(Type::Void);
            },
        }
        i += 1;
    }
    let t = Type::Struct(types);
    assert(t@->Struct_0 =~= struct_type(fields_view(*fields))->Struct_0);
    t
}

/// The named types of the structs of a typing context.
pub fn named_types_of(tc: &TypingContext) -> (types: TypeContext)
    ensures
        named_types_view(types) == named_types(tc@),
{
    let n = tc.structs.len();
    let mut types: TypeContext = SymbolTable::new();
    let mut i: usize = 0;
    while i < n
        invariant
            i <= n,
            n == tc.structs.keys().len(),
            tc.structs.wf(),
            types.wf(),
            types.keys() =~= tc.structs.keys().subrange(0, i as int),
            types.values().len() == i,
            forall|j: int|
                0 <= j < i ==> types.values()[j]@ == struct_type(fields_view(tc.structs.values()[j])),
        decreases n - i,
    {
        match tc.structs.get_index(i) {
            Some((name, fields)) => {
                proof {
                    let keys = types.keys();
                    if keys.contains(name) {
                        let j = choose|j: int| 0 <= j < keys.len() && keys[j] == name;
                        assert(tc.structs.keys()[j] == tc.structs.keys()[i as int]);
                    }
                    lemma_position(keys, name);
                }
                types.insert(name, struct_type_of(fields));
                assert(types.keys() =~= tc.structs.keys().subrange(0, i + 1));
            },
            None => {},
        }
        i += 1;
    }
    assert(types.keys() =~= tc.structs.keys());
    assert(named_types_view(types) =~= named_types(tc@));
    types
}

/// Lowers a global variable.
pub fn compile_global_variable(
    ctx: Context,
    name: Id,
    init: &Expression,
    acc: Vec<(Gid, GlobalDeclaration)>,
    text: u32,
) -> (r: Result<(Context, Vec<(Gid, GlobalDeclaration)>, u32), Error>)
    ensures
        match r {
            Ok((c, globals, next)) => lower_global(ctx@, name, init@, globals_view(acc@), text) == Ok::<
                (Ctx, Seq<(Gid, (LType, LInit))>, u32),
                Error,
            >((c@, globals_view(globals@), next)),
            Err(e) => lower_global(ctx@, name, init@, globals_view(acc@), text) == Err::<
                (Ctx, Seq<(Gid, (LType, LInit))>, u32),
                Error,
            >(e),
        },
{
    let g = Gid::Name(name);
    let mut ctx = ctx;
    let mut acc = acc;
    let ghost before = globals_view(acc@);
    match init {
        Expression::CNull(r) => {
            let pointee = compile_reference(r);
            let ghost pv = pointee@;
            let t = Type::Ptr(Box::new(pointee));
            assert(t@ == LType::Ptr(Box::new(pv)));
            let slot = Type::Ptr(Box::new(clone_type(&t)));
            assert(slot@ == LType::Ptr(Box::new(t@)));
            ctx.bind(name, slot, Operand::Gid(g));
            let ghost tv = t@;
            acc.push((g, GlobalDeclaration(t, GlobalInitializer::Null)));
            assert(globals_view(acc@) =~= before.push((g, (tv, LInit::Null))));
            Ok((ctx, acc, text))
        },
        Expression::CBool(b) => {
            let slot = pointer_to(Type::I1);
            ctx.bind(name, slot, Operand::Gid(g));
            let value: i64 = if *b {
                1
            } else {
                0
            };
            acc.push((g, GlobalDeclaration(Type::I1, GlobalInitializer::Int(value))));
            assert(globals_view(acc@) =~= before.push((g, (LType::I1, LInit::Int(value)))));
            Ok((ctx, acc, text))
        },
        Expression::CInt(i) => {
            let slot = pointer_to(Type::I64);
            ctx.bind(name, slot, Operand::Gid(g));
            acc.push((g, GlobalDeclaration(Type::I64, GlobalInitializer::Int(*i))));
            assert(globals_view(acc@) =~= before.push((g, (LType::I64, LInit::Int(*i)))));
            Ok((ctx, acc, text))
        },
        Expression::CStr(s) => {
            let length = s.as_str().unicode_len();
            if text == u32::MAX || length == usize::MAX {
                return Err(Error::OutOfNames);
            }
            let t = pointer_to(Type::I8);
            let slot = Type::Ptr(Box::new(clone_type(&t)));
            assert(slot@ == LType::Ptr(Box::new(t@)));
            ctx.bind(name, slot, Operand::Gid(g));
            let bytes = Type::Array(length + 1, Box::new(Type::I8));
            assert(bytes@ == LType::Array((length + 1) as nat, Box::new(LType::I8)));
            let ghost bv = bytes@;
            let ghost tv = t@;
            acc.push((Gid::Text(text), GlobalDeclaration(bytes, GlobalInitializer::String(s.clone()))));
            acc.push((g, GlobalDeclaration(t, GlobalInitializer::Gid(Gid::Text(text)))));
            assert(globals_view(acc@) =~= before.push((Gid::Text(text), (bv, LInit::String(s@)))).push(
                (g, (tv, LInit::Gid(Gid::Text(text)))),
            ));
            Ok((ctx, acc, text + 1))
        },
        Expression::Id(other) => match ctx.lookup(*other) {
            None => Err(Error::UnboundIdentifier(*other)),
            Some((Type::Ptr(inner), Operand::Gid(o))) => {
                let ghost iv = inner@;
                let t = Type::Ptr(inner);
                assert(t@ == LType::Ptr(Box::new(iv)));
                let slot = Type::Ptr(Box::new(clone_type(&t)));
                assert(slot@ == LType::Ptr(Box::new(t@)));
                ctx.bind(name, slot, Operand::Gid(g));
                let ghost tv = t@;
                acc.push((g, GlobalDeclaration(t, GlobalInitializer::Gid(o))));
                assert(globals_view(acc@) =~= before.push((g, (tv, LInit::Gid(o)))));
                Ok((ctx, acc, text))
            },
            Some((t, _)) => Err(Error::DerefNonPointer),
        },
        _ => Err(Error::NotAssignable),
    }
}

/// What the identifiers of the runtime stand for.
pub fn runtime_context_of(runtime: RuntimeNames) -> (ctx: Context)
    ensures
        ctx@ == runtime_context(runtime),
{
    let list = externals_of();
    let mut ctx = Context::new();
    let t2 = Type::Ptr(Box::new(clone_type(&list[2].1)));
    assert(t2@ == LType::Ptr(Box::new(externals()[2].1)));
    ctx.bind(runtime.string_of_int, t2, Operand::Gid(Gid::External(Runtime::StringOfInt)));
    let t3 = Type::Ptr(Box::new(clone_type(&list[3].1)));
    assert(t3@ == LType::Ptr(Box::new(externals()[3].1)));
    ctx.bind(runtime.string_cat, t3, Operand::Gid(Gid::External(Runtime::StringCat)));
    let t4 = Type::Ptr(Box::new(clone_type(&list[4].1)));
    assert(t4@ == LType::Ptr(Box::new(externals()[4].1)));
    ctx.bind(runtime.print_string, t4, Operand::Gid(Gid::External(Runtime::PrintString)));
    let t5 = Type::Ptr(Box::new(clone_type(&list[5].1)));
    assert(t5@ == LType::Ptr(Box::new(externals()[5].1)));
    ctx.bind(runtime.print_int, t5, Operand::Gid(Gid::External(Runtime::PrintInt)));
    ctx
}

/// A pointer to bytes.
fn bytes_type() -> (t: Type)
    ensures
        t@ == bytes(),
{
    pointer_to(Type::I8)
}

/// The type of a function with the parameters and the result given.
fn function_type(args: Vec<Type>, ret: Type) -> (t: Type)
    ensures
        t@ == LType::Fun(types_view(args@), Box::new(ret@)),
{
    let ghost av = types_view(args@);
    let ghost rv = ret@;
    let t = Type::Fun(args, Box::new(ret));
    assert(t@->Fun_0 =~= av);
    t
}

fn one(t: Type) -> (r: Vec<Type>)
    ensures
        types_view(r@) == seq![t@],
{
    let ghost tv = t@;
    let mut r: Vec<Type> = Vec::new();
    r.push(t);
    assert(types_view(r@) =~= seq![tv]);
    r
}

fn two(a: Type, b: Type) -> (r: Vec<Type>)
    ensures
        types_view(r@) == seq![a@, b@],
{
    let ghost av = a@;
    let ghost bv = b@;
    let mut r: Vec<Type> = Vec::new();
    r.push(a);
    r.push(b);
    assert(types_view(r@) =~= seq![av, bv]);
    r
}

/// The models of a list of externals.
pub open spec fn externals_view(list: Seq<(Gid, Type)>) -> Seq<(Gid, LType)> {
    Seq::new(list.len(), |i: int| (list[i].0, list[i].1@))
}

/// The functions of the runtime, with their types.
pub fn externals_of() -> (r: Vec<(Gid, Type)>)
    ensures
        externals_view(r@) == externals(),
        r@.len() == 6,
        forall|i: int| 0 <= i < 6 ==> (#[trigger] r@[i]).1@ == externals()[i].1,
{
    let mut r: Vec<(Gid, Type)> = Vec::new();
    let raw = pointer_to(Type::I64);
    r.push((Gid::External(Runtime::AllocArray), function_type(one(Type::I64), raw)));
    r.push((Gid::External(Runtime::Malloc), function_type(one(Type::I64), bytes_type())));
    r.push((Gid::External(Runtime::StringOfInt), function_type(one(Type::I64), bytes_type())));
    r.push(
        (
            Gid::External(Runtime::StringCat),
            function_type(two(bytes_type(), bytes_type()), bytes_type()),
        ),
    );
    r.push((Gid::External(Runtime::PrintString), function_type(one(bytes_type()), Type::Void)));
    r.push((Gid::External(Runtime::PrintInt), function_type(one(Type::I64), Type::Void)));
    assert(externals_view(r@) =~= externals());
    r
}

/// Whether every function of the program has a closed graph in which no
/// identifier is defined twice.
pub open spec fn well_formed(p: LProgram) -> bool {
    forall|i: int|
        0 <= i < p.functions.len() ==> closed((#[trigger] p.functions[i]).1.cfg) && single_assignment(
            p.functions[i].1.parameters,
            p.functions[i].1.cfg,
        )
}

/// Whether each of the functions has a closed graph in which no
/// identifier is defined twice.
pub open spec fn all_well_formed(functions: Seq<(Gid, LFunction)>) -> bool {
    forall|i: int|
        0 <= i < functions.len() ==> closed((#[trigger] functions[i]).1.cfg) && single_assignment(
            functions[i].1.parameters,
            functions[i].1.cfg,
        )
}

/// Functions that are lowered after well formed functions are well formed
/// with them.
pub proof fn lemma_functions_well_formed(
    structs: Structs,
    ctx: Ctx,
    prog: Prog,
    i: nat,
    functions: Seq<(Gid, LFunction)>,
    globals: Seq<(Gid, (LType, LInit))>,
    text: u32,
)
    requires
        all_well_formed(functions),
        lower_functions(structs, ctx, prog, i, functions, globals, text) is Ok,
    ensures
        all_well_formed(lower_functions(structs, ctx, prog, i, functions, globals, text)->Ok_0.0),
    decreases prog.len() - i,
{
    if i < prog.len() {
        match prog[i as int] {
            Decl::Function(f) => {
                lemma_function_well_formed(structs, ctx, f, text);
                let (lowered, more, text1) = lower_function(structs, ctx, f, text)->Ok_0;
                let next = functions.push((Gid::Name(f.name), lowered));
                assert forall|k: int| 0 <= k < next.len() implies closed((#[trigger] next[k]).1.cfg)
                    && single_assignment(next[k].1.parameters, next[k].1.cfg) by {
                    if k < functions.len() {
                        assert(next[k] == functions[k]);
                    }
                }
                lemma_functions_well_formed(structs, ctx, prog, i + 1, next, globals + more, text1);
            },
            _ => {
                lemma_functions_well_formed(structs, ctx, prog, i + 1, functions, globals, text);
            },
        }
    }
}

/// Every program lowers to a program that is well formed: each branch of
/// each function goes to a block of that function, and each local
/// identifier of a function is defined once.
pub proof fn lemma_program_well_formed(prog: Prog, runtime: RuntimeNames)
    requires
        lower_program(prog, runtime) is Ok,
    ensures
        well_formed(lower_program(prog, runtime)->Ok_0),
{
    let structs = program_structs(prog, prog.len());
    let (ctx, globals, text) = lower_globals(prog, 0, runtime_context(runtime), Seq::empty(), 0)->Ok_0;
    lemma_functions_well_formed(structs, ctx, prog, 0, Seq::empty(), globals, text);
}

/// The models of a list of functions.
pub open spec fn functions_view(list: Seq<(Gid, FunctionDecl)>) -> Seq<(Gid, LFunction)> {
    Seq::new(list.len(), |i: int| (list[i].0, list[i].1@))
}

/// Lowers a program. `runtime` gives the symbols under which the program
/// calls the functions of the runtime. In the program returned, every
/// function has a closed graph, and none of its identifiers is defined
/// twice.
pub fn compile_program(prog: &ast::Program, runtime: RuntimeNames) -> (r: Result<Program, Error>)
    ensures
        match r {
            Ok(p) => lower_program(prog@, runtime) == Ok::<LProgram, Error>(p@) && well_formed(p@),
            Err(e) => lower_program(prog@, runtime) == Err::<LProgram, Error>(e),
        },
{
    let tc = program_context(prog);
    let ghost verdict = lower_program(prog@, runtime);
    let mut ctx = runtime_context_of(runtime);
    let mut globals: Vec<(Gid, GlobalDeclaration)> = Vec::new();
    assert(globals_view(globals@) =~= Seq::empty());
    let mut text: u32 = 0;
    let mut i: usize = 0;
    while i < prog.declarations.len()
        invariant
            i <= prog.declarations.len(),
            lower_globals(prog@, 0, runtime_context(runtime), Seq::empty(), 0) == lower_globals(
                prog@,
                i as nat,
                ctx@,
                globals_view(globals@),
                text,
            ),
            verdict == lower_program(prog@, runtime),
        decreases prog.declarations.len() - i,
    {
        assert(prog@[i as int] == prog.declarations@[i as int]@);
        match &prog.declarations[i] {
            Declaration::Function(f) => {
                ctx.bind(f.name, function_pointer_of(f), Operand::Gid(Gid::Name(f.name)));
            },
            Declaration::Variable(g) => {
                match compile_global_variable(ctx, g.name, &g.init, globals, text) {
                    Err(e) => { return Err(e); },
                    Ok((c, more, next)) => {
                        ctx = c;
                        globals = more;
                        text = next;
                    },
                }
            },
            Declaration::Type(_) => {},
        }
        i += 1;
    }
    let mut functions: Vec<(Gid, FunctionDecl)> = Vec::new();
    assert(functions_view(functions@) =~= Seq::empty());
    let ghost start_globals = globals_view(globals@);
    let ghost start_text = text;
    let mut j: usize = 0;
    while j < prog.declarations.len()
        invariant
            j <= prog.declarations.len(),
            tc@ == program_structs(prog@, prog@.len()),
            verdict == lower_program(prog@, runtime),
            lower_globals(prog@, 0, runtime_context(runtime), Seq::empty(), 0) == Ok::<
                (Ctx, Seq<(Gid, (LType, LInit))>, u32),
                Error,
            >((ctx@, start_globals, start_text)),
            lower_functions(tc@, ctx@, prog@, 0, Seq::empty(), start_globals, start_text)
                == lower_functions(
                tc@,
                ctx@,
                prog@,
                j as nat,
                functions_view(functions@),
                globals_view(globals@),
                text,
            ),
            forall|k: int|
                0 <= k < functions@.len() ==> closed((#[trigger] functions@[k]).1@.cfg)
                    && single_assignment(functions@[k].1@.parameters, functions@[k].1@.cfg),
        decreases prog.declarations.len() - j,
    {
        assert(prog@[j as int] == prog.declarations@[j as int]@);
        match &prog.declarations[j] {
            Declaration::Function(f) => {
                match compile_function(&tc, &ctx, f, text) {
                    Err(e) => { return Err(e); },
                    Ok((lowered, more, next)) => {
                        let ghost before = functions_view(functions@);
                        let ghost gb = globals_view(globals@);
                        let ghost lv = lowered@;
                        let ghost mv = globals_view(more@);
                        functions.push((Gid::Name(f.name), lowered));
                        assert(functions_view(functions@) =~= before.push((Gid::Name(f.name), lv)));
                        let mut more = more;
                        globals.append(&mut more);
                        assert(globals_view(globals@) =~= gb + mv);
                        text = next;
                    },
                }
            },
            _ => {},
        }
        j += 1;
    }
    let p = Program { types: named_types_of(&tc), globals, functions, externals: externals_of() };
    assert(p@.functions =~= functions_view(p.functions@));
    assert(p@.globals =~= globals_view(p.globals@));
    assert(p@.externals =~= externals());
    assert forall|k: int| 0 <= k < p@.functions.len() implies closed(
        (#[trigger] p@.functions[k]).1.cfg,
    ) && single_assignment(p@.functions[k].1.parameters, p@.functions[k].1.cfg) by {
        assert(closed(p.functions@[k].1@.cfg));
    }
    Ok(p)
}

impl ast::Program {
    /// Lowers the program.
    pub fn compile(&self, runtime: RuntimeNames) -> (r: Result<Program, Error>)
        ensures
            match r {
                Ok(p) => lower_program(self@, runtime) == Ok::<LProgram, Error>(p@) && well_formed(p@),
                Err(e) => lower_program(self@, runtime) == Err::<LProgram, Error>(e),
            },
    {
        compile_program(self, runtime)
    }
}

/// The names of the functions that a program declares from position `i`
/// on, in source order.
pub open spec fn function_names(prog: Prog, i: nat) -> Seq<Gid>
    decreases prog.len() - i,
{
    if i >= prog.len() {
        Seq::empty()
    } else {
        match prog[i as int] {
            Decl::Function(f) => seq![Gid::Name(f.name)] + function_names(prog, i + 1),
            _ => function_names(prog, i + 1),
        }
    }
}

/// The names of the global variables that a program declares from position
/// `i` on, in source order.
pub open spec fn variable_names(prog: Prog, i: nat) -> Seq<Gid>
    decreases prog.len() - i,
{
    if i >= prog.len() {
        Seq::empty()
    } else {
        match prog[i as int] {
            Decl::Variable { name, .. } => seq![Gid::Name(name)] + variable_names(prog, i + 1),
            _ => variable_names(prog, i + 1),
        }
    }
}

/// Those of the first `n` globals that carry a name of the program, in
/// order. The texts of string literals carry none.
pub open spec fn named_globals(globals: Seq<(Gid, (LType, LInit))>, n: nat) -> Seq<Gid>
    decreases n,
{
    if n == 0 || n > globals.len() {
        Seq::empty()
    } else if globals[n - 1].0 is Name {
        named_globals(globals, (n - 1) as nat).push(globals[n - 1].0)
    } else {
        named_globals(globals, (n - 1) as nat)
    }
}

/// The first elements of a list of named things.
pub open spec fn firsts<A>(list: Seq<(Gid, A)>) -> Seq<Gid> {
    Seq::new(list.len(), |i: int| list[i].0)
}

/// The functions of the lowered program are those of the source, in the
/// order of the source.
pub proof fn lemma_functions_in_order(
    structs: Structs,
    ctx: Ctx,
    prog: Prog,
    i: nat,
    functions: Seq<(Gid, LFunction)>,
    globals: Seq<(Gid, (LType, LInit))>,
    text: u32,
)
    requires
        lower_functions(structs, ctx, prog, i, functions, globals, text).is_ok(),
    ensures
        firsts(lower_functions(structs, ctx, prog, i, functions, globals, text).unwrap().0)
            == firsts(functions) + function_names(prog, i),
        lower_functions(structs, ctx, prog, i, functions, globals, text).unwrap().1.len()
            >= globals.len(),
        lower_functions(structs, ctx, prog, i, functions, globals, text).unwrap().1.subrange(
            0,
            globals.len() as int,
        ) == globals,
    decreases prog.len() - i,
{
    if i >= prog.len() {
        assert(firsts(functions) + function_names(prog, i) =~= firsts(functions));
        assert(globals.subrange(0, globals.len() as int) =~= globals);
    } else {
        match prog[i as int] {
            Decl::Function(f) => {
                let (lowered, more, text1) = lower_function(structs, ctx, f, text).unwrap();
                let next = functions.push((Gid::Name(f.name), lowered));
                lemma_functions_in_order(structs, ctx, prog, i + 1, next, globals + more, text1);
                assert(firsts(next) + function_names(prog, i + 1) =~= firsts(functions)
                    + function_names(prog, i));
                let all = lower_functions(structs, ctx, prog, i, functions, globals, text).unwrap().1;
                assert(all.subrange(0, globals.len() as int) =~= all.subrange(
                    0,
                    (globals + more).len() as int,
                ).subrange(0, globals.len() as int));
                assert((globals + more).subrange(0, globals.len() as int) =~= globals);
            },
            _ => {
                lemma_functions_in_order(structs, ctx, prog, i + 1, functions, globals, text);
            },
        }
    }
}

/// The globals that carry a name are the variables of the source, in the
/// order of the source.
pub proof fn lemma_globals_in_order(
    prog: Prog,
    i: nat,
    ctx: Ctx,
    acc: Seq<(Gid, (LType, LInit))>,
    text: u32,
)
    requires
        lower_globals(prog, i, ctx, acc, text).is_ok(),
    ensures
        named_globals(
            lower_globals(prog, i, ctx, acc, text).unwrap().1,
            lower_globals(prog, i, ctx, acc, text).unwrap().1.len(),
        ) == named_globals(acc, acc.len()) + variable_names(prog, i),
    decreases prog.len() - i,
{
    if i >= prog.len() {
        assert(named_globals(acc, acc.len()) + variable_names(prog, i) =~= named_globals(
            acc,
            acc.len(),
        ));
    } else {
        match prog[i as int] {
            Decl::Function(f) => {
                lemma_globals_in_order(
                    prog,
                    i + 1,
                    ctx.insert(f.name, (function_pointer(f), Operand::Gid(Gid::Name(f.name)))),
                    acc,
                    text,
                );
            },
            Decl::Variable { name, init } => {
                let (ctx1, acc1, text1) = lower_global(ctx, name, init, acc, text).unwrap();
                lemma_globals_in_order(prog, i + 1, ctx1, acc1, text1);
                lemma_global_adds_its_name(ctx, name, init, acc, text);
                assert(named_globals(acc1, acc1.len()) + variable_names(prog, i + 1)
                    =~= named_globals(acc, acc.len()) + variable_names(prog, i));
            },
            Decl::Type { .. } => {
                lemma_globals_in_order(prog, i + 1, ctx, acc, text);
            },
        }
    }
}

/// Lowering a global variable adds one global that carries a name: that of
/// the variable.
pub proof fn lemma_global_adds_its_name(
    ctx: Ctx,
    name: Id,
    init: Expr,
    acc: Seq<(Gid, (LType, LInit))>,
    text: u32,
)
    requires
        lower_global(ctx, name, init, acc, text).is_ok(),
    ensures
        named_globals(
            lower_global(ctx, name, init, acc, text).unwrap().1,
            lower_global(ctx, name, init, acc, text).unwrap().1.len(),
        ) == named_globals(acc, acc.len()).push(Gid::Name(name)),
{
    let out = lower_global(ctx, name, init, acc, text).unwrap().1;
    lemma_named_globals_prefix(out, acc.len());
    assert(out.subrange(0, acc.len() as int) =~= acc);
    if init is CStr {
        assert(out.len() == acc.len() + 2);
        assert(named_globals(out, out.len()) == named_globals(out, (out.len() - 1) as nat).push(
            Gid::Name(name),
        ));
        assert(named_globals(out, (out.len() - 1) as nat) == named_globals(out, acc.len()));
    } else {
        assert(out.len() == acc.len() + 1);
    }
}

/// The named globals among the first `n` are those of any list that starts
/// with the same `n` globals.
pub proof fn lemma_named_globals_prefix(globals: Seq<(Gid, (LType, LInit))>, n: nat)
    requires
        n <= globals.len(),
    ensures
        named_globals(globals, n) == named_globals(globals.subrange(0, n as int), n),
    decreases n,
{
    if n > 0 {
        lemma_named_globals_prefix(globals, (n - 1) as nat);
        let part = globals.subrange(0, n as int);
        lemma_named_globals_prefix(part, (n - 1) as nat);
        assert(part.subrange(0, n - 1) =~= globals.subrange(0, n - 1));
    }
}

/// Lowering keeps the order of the source: the functions of the lowered
/// program are the functions of the source in source order, its named
/// types are the structs of the source in declaration order, each with the
/// types of its fields in declaration order, and its globals start with
/// the variables of the source in source order.
pub proof fn lemma_source_order(prog: Prog, runtime: RuntimeNames)
    requires
        lower_program(prog, runtime).is_ok(),
    ensures
        ({
            let p = lower_program(prog, runtime).unwrap();
            let structs = program_structs(prog, prog.len());
            let declared = lower_globals(prog, 0, runtime_context(runtime), Seq::empty(), 0).unwrap().1;
            &&& firsts(p.functions) == function_names(prog, 0)
            &&& p.types.len() == structs.len()
            &&& forall|i: int|
                0 <= i < structs.len() ==> (#[trigger] p.types[i]).0 == structs[i].0 && p.types[i].1
                    == struct_type(structs[i].1)
            &&& forall|i: int, k: int|
                0 <= i < structs.len() && 0 <= k < structs[i].1.len() ==> (#[trigger] struct_type(
                    structs[i].1,
                )->Struct_0[k]) == ll_type(structs[i].1[k].1)
            &&& declared.len() <= p.globals.len()
            &&& p.globals.subrange(0, declared.len() as int) == declared
            &&& named_globals(declared, declared.len()) == variable_names(prog, 0)
        }),
{
    let structs = program_structs(prog, prog.len());
    let (ctx, declared, text) = lower_globals(prog, 0, runtime_context(runtime), Seq::empty(), 0).unwrap();
    lemma_functions_in_order(structs, ctx, prog, 0, Seq::empty(), declared, text);
    lemma_globals_in_order(prog, 0, runtime_context(runtime), Seq::empty(), 0);
    assert(firsts(Seq::<(Gid, LFunction)>::empty()) + function_names(prog, 0) =~= function_names(
        prog,
        0,
    ));
    assert(named_globals(Seq::<(Gid, (LType, LInit))>::empty(), 0) + variable_names(prog, 0)
        =~= variable_names(prog, 0));
}

} // verus!
