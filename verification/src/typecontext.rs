//! The typing context, which maps each struct name to its fields, and the
//! subtyping relation that it induces.

use crate::ast::{
    clone_type, fields_view, type_eq, types_view, FieldSet, Fields, Id, RefTy, ReferenceType,
    RetTy, ReturnType, Ty, Type, TypeDeclaration,
};
use crate::error::{flag_view, TyError, TypeError};
use crate::table::{lemma_position, position, SymbolTable};
use vstd::prelude::*;

verus! {

/// The model of a typing context: the declared structs with their fields, in
/// declaration order and without repeated names.
pub type Structs = Seq<(Id, Fields)>;

/// The names of a sequence of named things.
pub open spec fn names<A>(entries: Seq<(Id, A)>) -> Seq<Id> {
    Seq::new(entries.len(), |i: int| entries[i].0)
}

/// The fields of the struct called `name`, if it is declared.
pub open spec fn struct_fields(structs: Structs, name: Id) -> Option<Fields> {
    match position(names(structs), name) {
        Some(i) => Some(structs[i as int].1),
        None => None,
    }
}

/// The position and type of the field called `field` among `fields`.
pub open spec fn field_of(fields: Fields, field: Id) -> Option<(nat, Ty)> {
    match position(names(fields), field) {
        Some(i) => Some((i, fields[i as int].1)),
        None => None,
    }
}

/// The context after the struct `name` was declared with `fields`: a name
/// declared before keeps its place and gets the new fields.
pub open spec fn declare(structs: Structs, name: Id, fields: Fields) -> Structs {
    match position(names(structs), name) {
        Some(i) => structs.update(i as int, (name, fields)),
        None => structs.push((name, fields)),
    }
}

/// The context after the first `n` of `declarations` were declared in turn.
pub open spec fn declare_all(declarations: Seq<(Id, Fields)>, n: nat) -> Structs
    decreases n,
{
    if n == 0 || n > declarations.len() {
        Seq::empty()
    } else {
        declare(
            declare_all(declarations, (n - 1) as nat),
            declarations[n - 1].0,
            declarations[n - 1].1,
        )
    }
}

/// How many struct comparisons may be nested: one more than the number of
/// pairs of declared structs. A longer chain compares some pair of structs
/// within its own comparison, and such a comparison does not hold.
pub open spec fn depth_bound(structs: Structs) -> nat {
    structs.len() * structs.len() + 1
}

/// `sub` is a subtype of `sup`.
pub open spec fn subtype(structs: Structs, sub: Ty, sup: Ty) -> Result<bool, TyError> {
    related(structs, sub, sup, false, depth_bound(structs))
}

/// `sub` is a subtype of `sup` as reference types.
pub open spec fn ref_subtype(structs: Structs, sub: RefTy, sup: RefTy) -> Result<bool, TyError> {
    ref_related(structs, sub, sup, false, depth_bound(structs))
}

/// `sub` is a subtype of `sup` as return types.
pub open spec fn return_subtype(structs: Structs, sub: RetTy, sup: RetTy) -> Result<bool, TyError> {
    ret_related(structs, sub, sup, false, depth_bound(structs))
}

/// With `flip` unset: `a` is a subtype of `b`. With `flip` set: `b` is a
/// subtype of `a`. At most `depth` struct comparisons are nested.
pub open spec fn related(structs: Structs, a: Ty, b: Ty, flip: bool, depth: nat) -> Result<
    bool,
    TyError,
>
    decreases depth, 1nat, a, 0nat,
{
    if a == b {
        Ok(true)
    } else {
        match (a, b) {
            (Ty::NullRef(x), Ty::NullRef(y)) => ref_related(structs, x, y, flip, depth),
            (Ty::Ref(x), Ty::Ref(y)) => ref_related(structs, x, y, flip, depth),
            (Ty::Ref(x), Ty::NullRef(y)) => if flip {
                Ok(false)
            } else {
                ref_related(structs, x, y, flip, depth)
            },
            (Ty::NullRef(x), Ty::Ref(y)) => if flip {
                ref_related(structs, x, y, flip, depth)
            } else {
                Ok(false)
            },
            _ => Ok(false),
        }
    }
}

/// The relation of `related`, on reference types.
pub open spec fn ref_related(structs: Structs, x: RefTy, y: RefTy, flip: bool, depth: nat) -> Result<
    bool,
    TyError,
>
    decreases depth, 1nat, x, 0nat,
{
    match (x, y) {
        (RefTy::String, RefTy::String) => Ok(true),
        (RefTy::Array(s), RefTy::Array(t)) => Ok(*s == *t),
        (RefTy::Struct(s), RefTy::Struct(t)) => {
            let (sub, sup) = if flip {
                (t, s)
            } else {
                (s, t)
            };
            match struct_fields(structs, sub) {
                None => Err(TyError::StructNotFound(sub)),
                Some(sub_fields) => match struct_fields(structs, sup) {
                    None => Err(TyError::StructNotFound(sup)),
                    Some(sup_fields) => if depth == 0 || sub_fields.len() < sup_fields.len() {
                        Ok(false)
                    } else {
                        fields_related(structs, sub_fields, sup_fields, 0, (depth - 1) as nat)
                    },
                },
            }
        },
        (RefTy::Function(xs, xr), RefTy::Function(ys, yr)) => if xs.len() != ys.len() {
            Ok(false)
        } else {
            match ret_related(structs, *xr, *yr, flip, depth) {
                Err(e) => Err(e),
                Ok(false) => Ok(false),
                Ok(true) => args_related(structs, xs, ys, 0, !flip, depth),
            }
        },
        _ => Ok(false),
    }
}

/// The relation of `related`, on return types.
pub open spec fn ret_related(structs: Structs, x: RetTy, y: RetTy, flip: bool, depth: nat) -> Result<
    bool,
    TyError,
>
    decreases depth, 1nat, x, 0nat,
{
    match (x, y) {
        (RetTy::Void, RetTy::Void) => Ok(true),
        (RetTy::Value(s), RetTy::Value(t)) => related(structs, s, t, flip, depth),
        _ => Ok(false),
    }
}

/// From position `i` on, each of `xs` is related to the one of `ys` at the
/// same position.
pub open spec fn args_related(
    structs: Structs,
    xs: Seq<Ty>,
    ys: Seq<Ty>,
    i: nat,
    flip: bool,
    depth: nat,
) -> Result<bool, TyError>
    decreases depth, 1nat, xs, xs.len() - i,
{
    if i >= xs.len() || i >= ys.len() {
        Ok(true)
    } else {
        match related(structs, xs[i as int], ys[i as int], flip, depth) {
            Err(e) => Err(e),
            Ok(false) => Ok(false),
            Ok(true) => args_related(structs, xs, ys, i + 1, flip, depth),
        }
    }
}

/// From position `i` up to the length of `sup`, the field of `sub` has the
/// name of the field of `sup` at the same position, and a subtype of its type.
pub open spec fn fields_related(structs: Structs, sub: Fields, sup: Fields, i: nat, depth: nat) -> Result<
    bool,
    TyError,
>
    decreases depth, 2nat, sup, sup.len() - i,
{
    if i >= sup.len() || i >= sub.len() {
        Ok(true)
    } else if sub[i as int].0 != sup[i as int].0 {
        Ok(false)
    } else {
        match related(structs, sub[i as int].1, sup[i as int].1, false, depth) {
            Err(e) => Err(e),
            Ok(false) => Ok(false),
            Ok(true) => fields_related(structs, sub, sup, i + 1, depth),
        }
    }
}

/// Every type is a subtype of itself.
pub proof fn lemma_subtype_reflexive(structs: Structs, t: Ty)
    ensures
        subtype(structs, t, t) == Ok::<bool, TyError>(true),
{
}

/// The typing context: the declared structs and their fields.
#[derive(Debug)]
pub struct TypingContext {
    pub structs: SymbolTable<FieldSet>,
}

impl View for TypingContext {
    type V = Structs;

    open spec fn view(&self) -> Structs {
        Seq::new(
            self.structs.keys().len(),
            |i: int| (self.structs.keys()[i], fields_view(self.structs.values()[i])),
        )
    }
}

/// A copy of a field set.
pub fn clone_fields(fields: &FieldSet) -> (r: FieldSet)
    ensures
        fields_view(r) == fields_view(*fields),
{
    let mut copy: FieldSet = SymbolTable::new();
    let n = fields.len();
    let mut i: usize = 0;
    while i < n
        invariant
            i <= n,
            n == fields.keys().len(),
            fields.wf(),
            copy.wf(),
            copy.keys() =~= fields.keys().subrange(0, i as int),
            copy.values().len() == i,
            forall|j: int| 0 <= j < i ==> copy.values()[j]@ == fields.values()[j]@,
        decreases n - i,
    {
        match fields.get_index(i) {
            Some((name, t)) => {
                proof {
                    let keys = copy.keys();
                    if keys.contains(name) {
                        let j = choose|j: int| 0 <= j < keys.len() && keys[j] == name;
                        assert(fields.keys()[j] == fields.keys()[i as int]);
                    }
                    lemma_position(keys, name);
                }
                copy.insert(name, clone_type(t));
                assert(copy.keys() =~= fields.keys().subrange(0, i + 1));
            },
            None => {},
        }
        i += 1;
    }
    assert(copy.keys() =~= fields.keys());
    assert(fields_view(copy) =~= fields_view(*fields));
    copy
}

/// The names and field models of a sequence of type declarations.
pub open spec fn declarations_view(declarations: Seq<TypeDeclaration>) -> Seq<(Id, Fields)> {
    Seq::new(declarations.len(), |i: int| (declarations[i].name, fields_view(declarations[i].fields)))
}

impl TypingContext {
    /// A context without structs.
    pub fn new() -> (tc: TypingContext)
        ensures
            tc@ == Seq::<(Id, Fields)>::empty(),
    {
        let tc = TypingContext { structs: SymbolTable::new() };
        assert(tc@ =~= Seq::<(Id, Fields)>::empty());
        tc
    }

    /// The number of structs declared.
    pub fn len(&self) -> (n: usize)
        ensures
            n == self@.len(),
    {
        self.structs.len()
    }

    /// Declares the struct `name` with `fields`.
    pub fn declare(&mut self, name: Id, fields: FieldSet)
        ensures
            final(self)@ == declare(old(self)@, name, fields_view(fields)),
    {
        let ghost before = self@;
        let ghost keys = self.structs.keys();
        let n = self.structs.len();
        assert(names(before) =~= keys);
        proof {
            lemma_position(keys, name);
        }
        self.structs.insert(name, fields);
        assert(self@ =~= declare(before, name, fields_view(fields)));
    }

    /// The fields of the struct called `name`.
    pub fn get_type(&self, name: &Id) -> (r: Option<&FieldSet>)
        ensures
            match r {
                Some(f) => struct_fields(self@, *name) == Some(fields_view(*f)),
                None => struct_fields(self@, *name).is_none(),
            },
    {
        let r = self.structs.get_full(*name);
        assert(names(self@) =~= self.structs.keys());
        proof {
            lemma_position(self.structs.keys(), *name);
        }
        match r {
            Some((_, f)) => Some(f),
            None => None,
        }
    }

    /// The position and type of a field of a struct.
    pub fn get_field(&self, struct_name: &Id, field_name: &Id) -> (r: Option<(usize, &Type)>)
        ensures
            match r {
                Some((i, t)) => struct_fields(self@, *struct_name).is_some() && field_of(
                    struct_fields(self@, *struct_name).unwrap(),
                    *field_name,
                ) == Some((i as nat, t@)),
                None => struct_fields(self@, *struct_name).is_none() || field_of(
                    struct_fields(self@, *struct_name).unwrap(),
                    *field_name,
                ).is_none(),
            },
    {
        match self.get_type(struct_name) {
            None => None,
            Some(fields) => {
                let r = fields.get_full(*field_name);
                assert(names(fields_view(*fields)) =~= fields.keys());
                proof {
                    lemma_position(fields.keys(), *field_name);
                }
                r
            },
        }
    }

    /// The context that `declarations` declare, taken in order.
    pub fn from_declarations(declarations: &Vec<TypeDeclaration>) -> (tc: TypingContext)
        ensures
            tc@ == declare_all(declarations_view(declarations@), declarations@.len()),
    {
        let mut tc = TypingContext::new();
        let mut i: usize = 0;
        while i < declarations.len()
            invariant
                i <= declarations.len(),
                tc@ == declare_all(declarations_view(declarations@), i as nat),
            decreases declarations.len() - i,
        {
            let declaration = &declarations[i];
            tc.declare(declaration.name, clone_fields(&declaration.fields));
            i += 1;
        }
        tc
    }

    /// Whether `sub` is a subtype of `sup`. Fails when a struct that has to
    /// be compared is not declared.
    pub fn is_subtype(&self, sub: &Type, sup: &Type) -> (r: Result<bool, TypeError>)
        ensures
            flag_view(r) == subtype(self@, sub@, sup@),
    {
        let depth = self.depth_bound();
        self.related(sub, sup, false, depth)
    }

    /// Whether `sub` is a subtype of `sup` as reference types.
    pub fn is_ref_subtype(&self, sub: &ReferenceType, sup: &ReferenceType) -> (r: Result<
        bool,
        TypeError,
    >)
        ensures
            flag_view(r) == ref_subtype(self@, sub@, sup@),
    {
        let depth = self.depth_bound();
        self.ref_related(sub, sup, false, depth)
    }

    /// Whether `sub` is a subtype of `sup` as return types.
    pub fn is_return_subtype(&self, sub: &ReturnType, sup: &ReturnType) -> (r: Result<
        bool,
        TypeError,
    >)
        ensures
            flag_view(r) == return_subtype(self@, sub@, sup@),
    {
        let depth = self.depth_bound();
        self.ret_related(sub, sup, false, depth)
    }

    fn depth_bound(&self) -> (depth: u128)
        ensures
            depth == depth_bound(self@),
    {
        let n = self.len() as u128;
        assert(n * n + 1 <= u128::MAX) by (nonlinear_arith)
            requires
                n <= 0xffff_ffff_ffff_ffff,
        ;
        n * n + 1
    }

    fn related(&self, a: &Type, b: &Type, flip: bool, depth: u128) -> (r: Result<bool, TypeError>)
        ensures
            flag_view(r) == related(self@, a@, b@, flip, depth as nat),
        decreases depth, 1nat, a, 0nat,
    {
        if type_eq(a, b) {
            return Ok(true);
        }
        match (a, b) {
            (Type::NullRef(x), Type::NullRef(y)) => self.ref_related(x, y, flip, depth),
            (Type::Ref(x), Type::Ref(y)) => self.ref_related(x, y, flip, depth),
            (Type::Ref(x), Type::NullRef(y)) => if flip {
                Ok(false)
            } else {
                self.ref_related(x, y, flip, depth)
            },
            (Type::NullRef(x), Type::Ref(y)) => if flip {
                self.ref_related(x, y, flip, depth)
            } else {
                Ok(false)
            },
            _ => Ok(false),
        }
    }

    fn ref_related(&self, x: &ReferenceType, y: &ReferenceType, flip: bool, depth: u128) -> (r: Result<
        bool,
        TypeError,
    >)
        ensures
            flag_view(r) == ref_related(self@, x@, y@, flip, depth as nat),
        decreases depth, 1nat, x, 0nat,
    {
        match (x, y) {
            (ReferenceType::String, ReferenceType::String) => Ok(true),
            (ReferenceType::Array(s), ReferenceType::Array(t)) => Ok(type_eq(s, t)),
            (ReferenceType::Struct(s), ReferenceType::Struct(t)) => {
                let (sub, sup) = if flip {
                    (*t, *s)
                } else {
                    (*s, *t)
                };
                let sub_fields = match self.get_type(&sub) {
                    Some(f) => f,
                    None => { return Err(TypeError::StructNotFound(sub)); },
                };
                let sup_fields = match self.get_type(&sup) {
                    Some(f) => f,
                    None => { return Err(TypeError::StructNotFound(sup)); },
                };
                if depth == 0 || sub_fields.len() < sup_fields.len() {
                    return Ok(false);
                }
                self.fields_related(sub_fields, sup_fields, depth - 1)
            },
            (ReferenceType::Function(xs, xr), ReferenceType::Function(ys, yr)) => {
                let ghost xv = x@->Function_0;
                let ghost yv = y@->Function_0;
                if xs.len() != ys.len() {
                    return Ok(false);
                }
                match self.ret_related(xr, yr, flip, depth) {
                    Err(e) => { return Err(e); },
                    Ok(false) => { return Ok(false); },
                    Ok(true) => {},
                }
                let mut i: usize = 0;
                while i < xs.len()
                    invariant
                        i <= xs.len(),
                        xs.len() == ys.len(),
                        *x == ReferenceType::Function(*xs, *xr),
                        x@ == RefTy::Function(xv, Box::new(xr@)),
                        y@ == RefTy::Function(yv, Box::new(yr@)),
                        ret_related(self@, xr@, yr@, flip, depth as nat) == Ok::<bool, TyError>(true),
                        xv =~= types_view(xs@),
                        yv =~= types_view(ys@),
                        args_related(self@, xv, yv, 0, !flip, depth as nat) == args_related(
                            self@,
                            xv,
                            yv,
                            i as nat,
                            !flip,
                            depth as nat,
                        ),
                    decreases xs.len() - i,
                {
                    assert(decreases_to!(x => x->Function_0[i as int]));
                    match self.related(&xs[i], &ys[i], !flip, depth) {
                        Err(e) => { return Err(e); },
                        Ok(false) => { return Ok(false); },
                        Ok(true) => {},
                    }
                    i += 1;
                }
                Ok(true)
            },
            _ => Ok(false),
        }
    }

    fn ret_related(&self, x: &ReturnType, y: &ReturnType, flip: bool, depth: u128) -> (r: Result<
        bool,
        TypeError,
    >)
        ensures
            flag_view(r) == ret_related(self@, x@, y@, flip, depth as nat),
        decreases depth, 1nat, x, 0nat,
    {
        match (x, y) {
            (ReturnType::ReturnVoid, ReturnType::ReturnVoid) => Ok(true),
            (ReturnType::ReturnValue(s), ReturnType::ReturnValue(t)) => self.related(s, t, flip, depth),
            _ => Ok(false),
        }
    }

    fn fields_related(&self, sub: &FieldSet, sup: &FieldSet, depth: u128) -> (r: Result<bool, TypeError>)
        ensures
            flag_view(r) == fields_related(self@, fields_view(*sub), fields_view(*sup), 0, depth as nat),
        decreases depth, 2nat, sup, 0nat,
    {
        let ghost subv = fields_view(*sub);
        let ghost supv = fields_view(*sup);
        let n = sup.len();
        let m = sub.len();
        let mut i: usize = 0;
        while i < n && i < m
            invariant
                n == supv.len(),
                m == subv.len(),
                subv == fields_view(*sub),
                supv == fields_view(*sup),
                fields_related(self@, subv, supv, 0, depth as nat) == fields_related(
                    self@,
                    subv,
                    supv,
                    i as nat,
                    depth as nat,
                ),
            decreases n - i,
        {
            match (sub.get_index(i), sup.get_index(i)) {
                (Some((f1, t1)), Some((f2, t2))) => {
                    if f1.index != f2.index {
                        return Ok(false);
                    }
                    match self.related(t1, t2, false, depth) {
                        Err(e) => { return Err(e); },
                        Ok(false) => { return Ok(false); },
                        Ok(true) => {},
                    }
                },
                _ => {},
            }
            i += 1;
        }
        Ok(true)
    }
}

} // verus!
