//! The compiler as one function: from source text to x86.

use crate::backend;
use crate::error::{ParseError, SyntaxError, TyError, TypeError};
use crate::errors::Error;
use crate::parser::{names_after, parse_program, program_of};
use crate::program::{compile_program, lower_program, RuntimeNames};
use crate::select::program_asm;
use crate::symbol::{intern_names, position_of, symbol_index, Interner, Symbol};
use crate::typecheck::{check_program, type_check};
use crate::x86;
use crate::x86::Asm;
use vstd::prelude::*;

verus! {

/// Why a text was not compiled: the stage that failed, and its error.
#[derive(Debug, PartialEq, Eq)]
pub enum Failure {
    Parse(ParseError),
    Type(TypeError),
    Lowering(Error),
}

/// The model of a `Failure`.
pub enum Fault {
    Parse(SyntaxError),
    Type(TyError),
    Lowering(Error),
}

impl View for Failure {
    type V = Fault;

    open spec fn view(&self) -> Fault {
        match self {
            Failure::Parse(e) => Fault::Parse(e@),
            Failure::Type(e) => Fault::Type(e@),
            Failure::Lowering(e) => Fault::Lowering(*e),
        }
    }
}

/// The symbol that a name gets from an interner that holds `names`.
pub open spec fn symbol_for(names: Seq<Seq<char>>, name: Seq<char>) -> Symbol {
    Symbol { index: symbol_index(position_of(names, name)) as u32 }
}

/// The symbols of the functions of the runtime, in an interner that holds
/// `names` and is given their names in turn.
pub open spec fn runtime_symbols(names: Seq<Seq<char>>) -> RuntimeNames {
    let n1 = intern_names(names, "string_of_int"@);
    let n2 = intern_names(n1, "string_cat"@);
    let n3 = intern_names(n2, "print_string"@);
    RuntimeNames {
        string_of_int: symbol_for(names, "string_of_int"@),
        string_cat: symbol_for(n1, "string_cat"@),
        print_string: symbol_for(n2, "print_string"@),
        print_int: symbol_for(n3, "print_int"@),
    }
}

/// The names that an interner holds after it was given the names of the
/// functions of the runtime.
pub open spec fn with_runtime(names: Seq<Seq<char>>) -> Seq<Seq<char>> {
    intern_names(
        intern_names(intern_names(intern_names(names, "string_of_int"@), "string_cat"@), "print_string"@),
        "print_int"@,
    )
}

/// Interns the names of the functions of the runtime.
pub fn runtime_names(interner: &mut Interner) -> (r: RuntimeNames)
    ensures
        r == runtime_symbols(old(interner)@),
        final(interner)@ == with_runtime(old(interner)@),
{
    let string_of_int = interner.intern("string_of_int");
    let string_cat = interner.intern("string_cat");
    let print_string = interner.intern("print_string");
    let print_int = interner.intern("print_int");
    RuntimeNames { string_of_int, string_cat, print_string, print_int }
}

/// What compiling a text gives: the text is parsed, the program is type
/// checked, lowered, and compiled to x86. The first stage that fails
/// ends the compilation with its error.
pub open spec fn compiled(names: Seq<Seq<char>>, s: Seq<char>, linux: bool) -> Result<Seq<Asm>, Fault> {
    match program_of(names, s) {
        Err(e) => Err(Fault::Parse(e)),
        Ok(p) => match check_program(p) {
            Err(e) => Err(Fault::Type(e)),
            Ok(_) => match lower_program(p, runtime_symbols(names_after(names, s))) {
                Err(e) => Err(Fault::Lowering(e)),
                Ok(l) => match program_asm(with_runtime(names_after(names, s)), linux, l) {
                    Err(e) => Err(Fault::Lowering(e)),
                    Ok(a) => Ok(a),
                },
            },
        },
    }
}

/// Compiles a text. With `linux` set the labels of globals are their names,
/// and otherwise their names after an underscore.
pub fn compile(interner: &mut Interner, input: &str, linux: bool) -> (r: Result<x86::Program, Failure>)
    ensures
        match r {
            Ok(p) => compiled(old(interner)@, input@, linux) == Ok::<Seq<Asm>, Fault>(p@)
                && x86::program_writable(p@),
            Err(e) => compiled(old(interner)@, input@, linux) == Err::<Seq<Asm>, Fault>(e@),
        },
        final(interner)@ == if program_of(old(interner)@, input@) is Ok && check_program(
            program_of(old(interner)@, input@)->Ok_0,
        ) is Ok {
            with_runtime(names_after(old(interner)@, input@))
        } else {
            names_after(old(interner)@, input@)
        },
{
    let program = match parse_program(interner, input) {
        Ok(p) => p,
        Err(e) => { return Err(Failure::Parse(e)); },
    };
    match type_check(&program) {
        Ok(_) => {},
        Err(e) => { return Err(Failure::Type(e)); },
    }
    let runtime = runtime_names(interner);
    let lowered = match compile_program(&program, runtime) {
        Ok(l) => l,
        Err(e) => { return Err(Failure::Lowering(e)); },
    };
    match backend::compile_program(interner, linux, &lowered) {
        Ok(p) => Ok(p),
        Err(e) => Err(Failure::Lowering(e)),
    }
}

/// The assembly text of a program, if each of its instructions can be
/// written.
pub fn assembly(program: &x86::Program) -> (r: Option<String>)
    ensures
        match r {
            Some(text) => x86::program_writable(program@) && text@ == x86::program_text(
                program@,
                0,
                Seq::empty(),
            ),
            None => !x86::program_writable(program@),
        },
{
    if program.is_writable() {
        Some(program.to_text())
    } else {
        None
    }
}

} // verus!
