//! The types of WebAssembly that the types of LLVMLite stand for.

use crate::llvmlite::{types_view, FunctionDecl, FunctionType, LType, Type};
use vstd::prelude::*;

verus! {

/// The types of values in WebAssembly.
#[derive(Debug, Clone, Copy, PartialEq, Eq, Structural)]
pub enum ValType {
    I32,
    I64,
}

/// What a type of LLVMLite is in WebAssembly: nothing, a value, or a
/// function from values to values.
#[derive(Debug, PartialEq, Eq)]
pub enum WasmType {
    Void,
    Value(ValType),
    Function(Vec<ValType>, Vec<ValType>),
}

/// The model of a `WasmType`.
pub enum Wasm {
    Void,
    Value(ValType),
    Function(Seq<ValType>, Seq<ValType>),
}

impl View for WasmType {
    type V = Wasm;

    open spec fn view(&self) -> Wasm {
        match self {
            WasmType::Void => Wasm::Void,
            WasmType::Value(v) => Wasm::Value(*v),
            WasmType::Function(args, results) => Wasm::Function(args@, results@),
        }
    }
}

/// The value type of a type of LLVMLite: 32 bits for `i1` and `i8`, and 64
/// for `i64`. No other type is a value.
pub open spec fn value_type(t: LType) -> Option<ValType> {
    match t {
        LType::I1 | LType::I8 => Some(ValType::I32),
        LType::I64 => Some(ValType::I64),
        _ => None,
    }
}

/// The value types of the types from position `i` on, after `acc`, if each
/// of them is a value.
pub open spec fn value_types(types: Seq<LType>, i: nat, acc: Seq<ValType>) -> Option<Seq<ValType>>
    decreases types.len() - i,
{
    if i >= types.len() {
        Some(acc)
    } else {
        match value_type(types[i as int]) {
            Some(v) => value_types(types, i + 1, acc.push(v)),
            None => None,
        }
    }
}

/// The results of a function that returns `t`: none for `void`, and one
/// for a value.
pub open spec fn result_types(t: LType) -> Option<Seq<ValType>> {
    match t {
        LType::Void => Some(Seq::empty()),
        _ => match value_type(t) {
            Some(v) => Some(seq![v]),
            None => None,
        },
    }
}

/// The type of a function in WebAssembly, if its arguments and its result
/// are values.
pub open spec fn function_wasm(args: Seq<LType>, ret: LType) -> Option<Wasm> {
    match result_types(ret) {
        None => None,
        Some(results) => match value_types(args, 0, Seq::empty()) {
            None => None,
            Some(params) => Some(Wasm::Function(params, results)),
        },
    }
}

/// What a type of LLVMLite is in WebAssembly. Pointers, structs, arrays
/// and named types are nothing there.
pub open spec fn wasm_of(t: LType) -> Option<Wasm> {
    match t {
        LType::Void => Some(Wasm::Void),
        LType::Fun(args, ret) => function_wasm(args, *ret),
        _ => match value_type(t) {
            Some(v) => Some(Wasm::Value(v)),
            None => None,
        },
    }
}

/// The model of what was found, if anything was.
pub open spec fn found(r: Option<WasmType>) -> Option<Wasm> {
    match r {
        Some(t) => Some(t@),
        None => None,
    }
}

fn value_type_of(t: &Type) -> (r: Option<ValType>)
    ensures
        r == value_type(t@),
{
    match t {
        Type::I1 | Type::I8 => Some(ValType::I32),
        Type::I64 => Some(ValType::I64),
        _ => None,
    }
}

fn function_type_of(args: &Vec<Type>, ret: &Type) -> (r: Option<WasmType>)
    ensures
        found(r) == function_wasm(types_view(args@), ret@),
{
    let results: Vec<ValType> = match ret {
        Type::Void => Vec::new(),
        other => match value_type_of(other) {
            Some(v) => {
                let mut one: Vec<ValType> = Vec::new();
                one.push(v);
                one
            },
            None => { return None; },
        },
    };
    assert(result_types(ret@) == Some(results@)) by {
        if ret@ is Void {
            assert(results@ =~= Seq::empty());
        } else {
            assert(results@ =~= seq![value_type(ret@).unwrap()]);
        }
    }
    let ghost tv = types_view(args@);
    let mut params: Vec<ValType> = Vec::new();
    let mut i: usize = 0;
    while i < args.len()
        invariant
            i <= args.len(),
            tv == types_view(args@),
            value_types(tv, 0, Seq::empty()) == value_types(tv, i as nat, params@),
        decreases args.len() - i,
    {
        match value_type_of(&args[i]) {
            Some(v) => {
                params.push(v);
            },
            None => { return None; },
        }
        i += 1;
    }
    Some(WasmType::Function(params, results))
}

impl Type {
    /// What the type is in WebAssembly, if it is anything there.
    pub fn wasm_type(&self) -> (r: Option<WasmType>)
        ensures
            found(r) == wasm_of(self@),
    {
        match self {
            Type::Void => Some(WasmType::Void),
            Type::Fun(args, ret) => {
                assert(self@->Fun_0 =~= types_view(args@));
                function_type_of(args, ret)
            },
            other => match value_type_of(other) {
                Some(v) => Some(WasmType::Value(v)),
                None => None,
            },
        }
    }
}

impl FunctionType {
    /// The type of the function in WebAssembly, if its arguments and its
    /// result are values.
    pub fn wasm_type(&self) -> (r: Option<WasmType>)
        ensures
            found(r) == function_wasm(types_view(self.arg_types@), self.ret_type@),
    {
        function_type_of(&self.arg_types, &self.ret_type)
    }
}

impl FunctionDecl {
    /// The type of the function in WebAssembly.
    pub fn wasm_type(&self) -> (r: Option<WasmType>)
        ensures
            found(r) == function_wasm(self@.arg_types, self@.ret_type),
    {
        self.type_signature.wasm_type()
    }
}

impl WasmType {
    /// The value type, of a value.
    pub fn value_type(self) -> (r: ValType)
        requires
            self is Value,
        ensures
            self@ == Wasm::Value(r),
    {
        match self {
            WasmType::Value(v) => v,
            _ => vstd::pervasive::unreached(),
        }
    }
}

} // verus!
