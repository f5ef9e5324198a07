//! Types as text, for messages.
//!
//! A struct is shown by its name, an array by the type of its elements and
//! `[]`, and a function by the types of its arguments, each followed by a
//! comma, in parentheses, and `->` with what it returns. A nullable
//! reference is shown as the reference.

use crate::ast::{RefTy, ReferenceType, RetTy, ReturnType, Ty, Type};
use crate::symbol::Interner;
use vstd::prelude::*;
use vstd::string::StringExecFns;

verus! {

/// Whether `names` holds the name of every struct of the type.
pub open spec fn known_type(names: Seq<Seq<char>>, ty: Ty) -> bool
    decreases ty,
{
    match ty {
        Ty::Bool | Ty::Int => true,
        Ty::Ref(r) => known_reference(names, r),
        Ty::NullRef(r) => known_reference(names, r),
    }
}

/// Whether `names` holds the name of every struct of the reference type.
pub open spec fn known_reference(names: Seq<Seq<char>>, r: RefTy) -> bool
    decreases r,
{
    match r {
        RefTy::String => true,
        RefTy::Struct(x) => x.index < names.len(),
        RefTy::Array(element) => known_type(names, *element),
        RefTy::Function(args, ret) => (forall|i: int|
            0 <= i < args.len() ==> known_type(names, #[trigger] args[i])) && known_return(
            names,
            *ret,
        ),
    }
}

/// Whether `names` holds the name of every struct of the return type.
pub open spec fn known_return(names: Seq<Seq<char>>, ret: RetTy) -> bool
    decreases ret,
{
    match ret {
        RetTy::Void => true,
        RetTy::Value(ty) => known_type(names, ty),
    }
}

/// The text of a type.
pub open spec fn type_text(names: Seq<Seq<char>>, ty: Ty) -> Seq<char>
    decreases ty, 0nat,
{
    match ty {
        Ty::Bool => "bool"@,
        Ty::Int => "int"@,
        Ty::Ref(r) => reference_text(names, r),
        Ty::NullRef(r) => reference_text(names, r),
    }
}

/// The text of a reference type.
pub open spec fn reference_text(names: Seq<Seq<char>>, r: RefTy) -> Seq<char>
    decreases r, 0nat,
{
    match r {
        RefTy::String => "string"@,
        RefTy::Struct(x) => names[x.index as int],
        RefTy::Array(element) => type_text(names, *element) + "[]"@,
        RefTy::Function(args, ret) => "("@ + arguments_text(names, args, 0) + ") -> "@ + return_text(
            names,
            *ret,
        ),
    }
}

/// The text of the argument types from position `i` on: each is followed
/// by a comma and a blank.
pub open spec fn arguments_text(names: Seq<Seq<char>>, args: Seq<Ty>, i: nat) -> Seq<char>
    decreases args, args.len() - i,
{
    if i >= args.len() {
        Seq::empty()
    } else {
        type_text(names, args[i as int]) + ", "@ + arguments_text(names, args, i + 1)
    }
}

/// The text of a return type.
pub open spec fn return_text(names: Seq<Seq<char>>, ret: RetTy) -> Seq<char>
    decreases ret, 0nat,
{
    match ret {
        RetTy::Void => "void"@,
        RetTy::Value(ty) => type_text(names, ty),
    }
}

/// Whether `r` is the text `text` where it is `known`, and nothing where
/// it is not.
pub open spec fn shown(r: Option<String>, known: bool, text: Seq<char>) -> bool {
    match r {
        Some(s) => known && s@ == text,
        None => !known,
    }
}

/// The text of a type, if the interner holds the names of its structs.
pub fn show_type(t: &Type, interner: &Interner) -> (r: Option<String>)
    ensures
        shown(r, known_type(interner@, t@), type_text(interner@, t@)),
    decreases t,
{
    match t {
        Type::Bool => {
            let mut text = String::new();
            text.append("bool");
            assert(text@ =~= "bool"@);
            Some(text)
        },
        Type::Int => {
            let mut text = String::new();
            text.append("int");
            assert(text@ =~= "int"@);
            Some(text)
        },
        Type::Ref(r) => show_reference(r, interner),
        Type::NullRef(r) => show_reference(r, interner),
    }
}

/// The text of a reference type, if the interner holds the names of its
/// structs.
pub fn show_reference(r: &ReferenceType, interner: &Interner) -> (text: Option<String>)
    ensures
        shown(text, known_reference(interner@, r@), reference_text(interner@, r@)),
    decreases r,
{
    let ghost names = interner@;
    match r {
        ReferenceType::String => {
            let mut text = String::new();
            text.append("string");
            assert(text@ =~= "string"@);
            Some(text)
        },
        ReferenceType::Struct(x) => match interner.lookup(*x) {
            Some(name) => {
                let mut text = String::new();
                text.append(name);
                assert(text@ =~= names[x.index as int]);
                Some(text)
            },
            None => None,
        },
        ReferenceType::Array(element) => match show_type(element, interner) {
            Some(inner) => {
                let mut text = inner;
                text.append("[]");
                Some(text)
            },
            None => None,
        },
        ReferenceType::Function(args, ret) => {
            let ghost types = r@->Function_0;
            let mut text = String::new();
            text.append("(");
            assert(text@ =~= "("@);
            let mut i: usize = 0;
            while i < args.len()
                invariant
                    i <= args.len(),
                    names == interner@,
                    *r == ReferenceType::Function(*args, *ret),
                    types == r@->Function_0,
                    types.len() == args.len(),
                    forall|j: int| 0 <= j < i ==> known_type(names, #[trigger] types[j]),
                    text@ + arguments_text(names, types, i as nat) == "("@ + arguments_text(
                        names,
                        types,
                        0,
                    ),
                decreases args.len() - i,
            {
                assert(decreases_to!(r => r->Function_0[i as int]));
                assert(types[i as int] == args@[i as int]@);
                let ghost before = text@;
                match show_type(&args[i], interner) {
                    Some(here) => {
                        text.append(here.as_str());
                        text.append(", ");
                        assert(text@ + arguments_text(names, types, (i + 1) as nat) =~= before
                            + arguments_text(names, types, i as nat));
                    },
                    None => {
                        return None;
                    },
                }
                i += 1;
            }
            assert(arguments_text(names, types, i as nat) =~= Seq::empty());
            assert(text@ =~= "("@ + arguments_text(names, types, 0));
            match show_return(ret, interner) {
                Some(result) => {
                    text.append(") -> ");
                    text.append(result.as_str());
                    Some(text)
                },
                None => None,
            }
        },
    }
}

/// The text of a return type, if the interner holds the names of its
/// structs.
pub fn show_return(r: &ReturnType, interner: &Interner) -> (text: Option<String>)
    ensures
        shown(text, known_return(interner@, r@), return_text(interner@, r@)),
    decreases r,
{
    match r {
        ReturnType::ReturnVoid => {
            let mut text = String::new();
            text.append("void");
            assert(text@ =~= "void"@);
            Some(text)
        },
        ReturnType::ReturnValue(t) => show_type(t, interner),
    }
}

impl Type {
    /// The text of the type, if the interner holds the names of its
    /// structs.
    pub fn to_text(&self, interner: &Interner) -> (r: Option<String>)
        ensures
            shown(r, known_type(interner@, self@), type_text(interner@, self@)),
    {
        show_type(self, interner)
    }
}

impl ReferenceType {
    /// The text of the reference type, if the interner holds the names of
    /// its structs.
    pub fn to_text(&self, interner: &Interner) -> (r: Option<String>)
        ensures
            shown(r, known_reference(interner@, self@), reference_text(interner@, self@)),
    {
        show_reference(self, interner)
    }
}

impl ReturnType {
    /// The text of the return type, if the interner holds the names of its
    /// structs.
    pub fn to_text(&self, interner: &Interner) -> (r: Option<String>)
        ensures
            shown(r, known_return(interner@, self@), return_text(interner@, self@)),
    {
        show_return(self, interner)
    }
}

} // verus!
