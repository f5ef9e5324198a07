//! The sizes of LLVMLite types, in bytes.

use crate::llvmlite::{named_types_view, LType, Tid, Type, TypeContext};
use crate::table::{lemma_position, position};
use crate::typecontext::names;
use vstd::prelude::*;

verus! {

/// The type that a name stands for.
pub open spec fn named(types: Seq<(Tid, LType)>, name: Tid) -> Option<LType> {
    match position(names(types), name) {
        Some(i) => Some(types[i as int].1),
        None => None,
    }
}

/// The size of a type: nothing for `void` and for functions, one byte for
/// `i8`, eight for `i1`, `i64` and pointers, the sum of the sizes of its
/// fields for a struct, and the size of its elements times their number
/// for an array. A name has the size of the type it stands for. There is no
/// size where a name stands for nothing, or where more names are nested by
/// value than `depth` allows, as happens when a named type holds itself.
pub open spec fn size_of(types: Seq<(Tid, LType)>, t: LType, depth: nat) -> Option<nat>
    decreases depth, t, 0nat,
{
    match t {
        LType::Void => Some(0),
        LType::I8 => Some(1),
        LType::I1 | LType::I64 | LType::Ptr(_) => Some(8),
        LType::Fun(_, _) => Some(0),
        LType::Struct(fields) => fields_size(types, fields, 0, depth),
        LType::Array(n, element) => match size_of(types, *element, depth) {
            Some(s) => Some(n * s),
            None => None,
        },
        LType::Namedt(name) => match named(types, name) {
            Some(u) => if depth == 0 {
                None
            } else {
                size_of(types, u, (depth - 1) as nat)
            },
            None => None,
        },
    }
}

/// The sum of the sizes of the fields from position `i` on.
pub open spec fn fields_size(types: Seq<(Tid, LType)>, fields: Seq<LType>, i: nat, depth: nat) -> Option<
    nat,
>
    decreases depth, fields, fields.len() - i,
{
    if i >= fields.len() {
        Some(0)
    } else {
        match size_of(types, fields[i as int], depth) {
            Some(s) => match fields_size(types, fields, i + 1, depth) {
                Some(rest) => Some(s + rest),
                None => None,
            },
            None => None,
        }
    }
}

/// The size of a type in a context of named types.
pub open spec fn sizeof_spec(types: Seq<(Tid, LType)>, t: LType) -> Option<nat> {
    size_of(types, t, types.len())
}

/// The size of a struct is the sum of the sizes of its fields.
pub proof fn lemma_struct_size(types: Seq<(Tid, LType)>, fields: Seq<LType>, depth: nat)
    ensures
        size_of(types, LType::Struct(fields), depth) == fields_size(types, fields, 0, depth),
{
}

/// The sizes of the fields from position `i` on add up to those of the
/// field at `i` and of the fields after it.
pub proof fn lemma_fields_size_step(types: Seq<(Tid, LType)>, fields: Seq<LType>, i: nat, depth: nat)
    requires
        i < fields.len(),
        fields_size(types, fields, i, depth).is_some(),
    ensures
        size_of(types, fields[i as int], depth).is_some(),
        fields_size(types, fields, i + 1, depth).is_some(),
        fields_size(types, fields, i, depth).unwrap() == size_of(
            types,
            fields[i as int],
            depth,
        ).unwrap() + fields_size(types, fields, i + 1, depth).unwrap(),
{
}

/// A struct nested in a struct counts with the sizes of its own fields: the
/// size of `{ {inner...}, rest... }` is the sum of the sizes of `inner` and
/// of `rest`.
pub proof fn lemma_nested_struct_size(
    types: Seq<(Tid, LType)>,
    inner: Seq<LType>,
    rest: Seq<LType>,
    depth: nat,
)
    requires
        fields_size(types, inner, 0, depth).is_some(),
        fields_size(types, rest, 0, depth).is_some(),
    ensures
        size_of(types, LType::Struct(seq![LType::Struct(inner)] + rest), depth) == Some(
            fields_size(types, inner, 0, depth).unwrap() + fields_size(types, rest, 0, depth).unwrap(),
        ),
{
    let all = seq![LType::Struct(inner)] + rest;
    assert forall|j: int| 0 <= j < rest.len() implies all[j + 1] == rest[j] by {}
    lemma_fields_size_shift(types, all, rest, 1, 0, depth);
    assert(all[0] == LType::Struct(inner));
    assert(size_of(types, all[0], depth) == fields_size(types, inner, 0, depth));
    assert(fields_size(types, all, 1, depth) == fields_size(types, rest, 0, depth));
    assert(fields_size(types, all, 0, depth) == Some(
        fields_size(types, inner, 0, depth).unwrap() + fields_size(types, rest, 0, depth).unwrap(),
    ));
}

/// The fields of `a` from `i + k` on are those of `b` from `i` on: their
/// sizes add up to the same.
proof fn lemma_fields_size_shift(
    types: Seq<(Tid, LType)>,
    a: Seq<LType>,
    b: Seq<LType>,
    k: nat,
    i: nat,
    depth: nat,
)
    requires
        a.len() == b.len() + k,
        forall|j: int| 0 <= j < b.len() ==> a[j + k] == b[j],
    ensures
        fields_size(types, a, i + k, depth) == fields_size(types, b, i, depth),
    decreases b.len() - i,
{
    if i < b.len() {
        assert(a[i as int + k as int] == b[i as int]);
        lemma_fields_size_shift(types, a, b, k, i + 1, depth);
    }
}

/// The size of a type in bytes, if it has one that fits the machine.
pub fn sizeof(tc: &TypeContext, ty: &Type) -> (r: Option<usize>)
    ensures
        match r {
            Some(n) => sizeof_spec(named_types_view(*tc), ty@) == Some(n as nat),
            None => match sizeof_spec(named_types_view(*tc), ty@) {
                Some(n) => n > usize::MAX,
                None => true,
            },
        },
{
    let depth = tc.len();
    size_with_depth(tc, ty, depth)
}

fn size_with_depth(tc: &TypeContext, ty: &Type, depth: usize) -> (r: Option<usize>)
    ensures
        match r {
            Some(n) => size_of(named_types_view(*tc), ty@, depth as nat) == Some(n as nat),
            None => match size_of(named_types_view(*tc), ty@, depth as nat) {
                Some(n) => n > usize::MAX,
                None => true,
            },
        },
    decreases depth, ty, 0nat,
{
    match ty {
        Type::Void => Some(0),
        Type::I8 => Some(1),
        Type::I1 | Type::I64 | Type::Ptr(_) => Some(8),
        Type::Fun(_, _) => Some(0),
        Type::Struct(fields) => {
            let ghost types = named_types_view(*tc);
            let ghost fv = ty@->Struct_0;
            let mut i: usize = fields.len();
            let mut total: usize = 0;
            while i > 0
                invariant
                    i <= fields.len(),
                    *ty == Type::Struct(*fields),
                    types == named_types_view(*tc),
                    fv == ty@->Struct_0,
                    fv.len() == fields@.len(),
                    forall|j: int| 0 <= j < fv.len() ==> fv[j] == fields@[j]@,
                    fields_size(types, fv, i as nat, depth as nat) == Some(total as nat),
                decreases i,
            {
                i -= 1;
                assert(decreases_to!(ty => ty->Struct_0[i as int]));
                match size_with_depth(tc, &fields[i], depth) {
                    Some(s) => match total.checked_add(s) {
                        Some(sum) => {
                            total = sum;
                        },
                        None => {
                            proof {
                                lemma_fields_size_grows(types, fv, 0, i as nat, depth as nat);
                            }
                            return None;
                        },
                    },
                    None => {
                        proof {
                            lemma_fields_size_grows(types, fv, 0, i as nat, depth as nat);
                        }
                        return None;
                    },
                }
            }
            Some(total)
        },
        Type::Array(n, element) => match size_with_depth(tc, element, depth) {
            Some(s) => {
                proof {
                    if (*n as nat) * (s as nat) > usize::MAX {
                    }
                }
                n.checked_mul(s)
            },
            None => {
                proof {
                    let whole = size_of(named_types_view(*tc), *ty@->Array_1, depth as nat);
                    if whole.is_some() && *n >= 1 {
                        assert((*n as nat) * whole.unwrap() >= whole.unwrap()) by (nonlinear_arith)
                            requires
                                *n >= 1,
                        ;
                    }
                }
                if *n == 0 {
                    zero_length(tc, element, depth)
                } else {
                    None
                }
            },
        },
        Type::Namedt(name) => {
            let r = tc.get_full(*name);
            assert(names(named_types_view(*tc)) =~= tc.keys());
            proof {
                lemma_position(tc.keys(), *name);
            }
            match r {
                Some((_, u)) => if depth == 0 {
                    None
                } else {
                    size_with_depth(tc, u, depth - 1)
                },
                None => None,
            }
        },
    }
}

/// The size of an array without elements, whose element type has no size
/// that fits the machine: nothing, if the element type has a size at all.
fn zero_length(tc: &TypeContext, element: &Type, depth: usize) -> (r: Option<usize>)
    requires
        match size_of(named_types_view(*tc), element@, depth as nat) {
            Some(n) => n > usize::MAX,
            None => true,
        },
    ensures
        match r {
            Some(n) => n == 0 && size_of(named_types_view(*tc), element@, depth as nat).is_some(),
            None => size_of(named_types_view(*tc), element@, depth as nat).is_none(),
        },
    decreases depth, element, 1nat,
{
    if has_size(tc, element, depth) {
        Some(0)
    } else {
        None
    }
}

/// Whether a type has a size, be it too large for the machine.
fn has_size(tc: &TypeContext, ty: &Type, depth: usize) -> (r: bool)
    ensures
        r == size_of(named_types_view(*tc), ty@, depth as nat).is_some(),
    decreases depth, ty, 0nat,
{
    match ty {
        Type::Struct(fields) => {
            let ghost types = named_types_view(*tc);
            let ghost fv = ty@->Struct_0;
            let mut i: usize = fields.len();
            while i > 0
                invariant
                    i <= fields.len(),
                    *ty == Type::Struct(*fields),
                    types == named_types_view(*tc),
                    fv == ty@->Struct_0,
                    fv.len() == fields@.len(),
                    forall|j: int| 0 <= j < fv.len() ==> fv[j] == fields@[j]@,
                    fields_size(types, fv, i as nat, depth as nat).is_some(),
                decreases i,
            {
                i -= 1;
                assert(decreases_to!(ty => ty->Struct_0[i as int]));
                if !has_size(tc, &fields[i], depth) {
                    proof {
                        lemma_fields_size_grows(types, fv, 0, i as nat, depth as nat);
                    }
                    return false;
                }
            }
            true
        },
        Type::Array(_, element) => has_size(tc, element, depth),
        Type::Namedt(name) => {
            let r = tc.get_full(*name);
            assert(names(named_types_view(*tc)) =~= tc.keys());
            proof {
                lemma_position(tc.keys(), *name);
            }
            match r {
                Some((_, u)) => if depth == 0 {
                    false
                } else {
                    has_size(tc, u, depth - 1)
                },
                None => false,
            }
        },
        _ => true,
    }
}

/// The sizes of the fields from an earlier position on are defined only if
/// those from a later position on are, and are then no smaller.
pub proof fn lemma_fields_size_grows(
    types: Seq<(Tid, LType)>,
    fields: Seq<LType>,
    i: nat,
    k: nat,
    depth: nat,
)
    requires
        i <= k <= fields.len(),
    ensures
        fields_size(types, fields, i, depth).is_some() ==> {
            let whole = fields_size(types, fields, i, depth).unwrap();
            &&& fields_size(types, fields, k, depth).is_some()
            &&& fields_size(types, fields, k, depth).unwrap() <= whole
            &&& k < fields.len() ==> {
                &&& size_of(types, fields[k as int], depth).is_some()
                &&& fields_size(types, fields, k + 1, depth).is_some()
                &&& size_of(types, fields[k as int], depth).unwrap() + fields_size(
                    types,
                    fields,
                    k + 1,
                    depth,
                ).unwrap() <= whole
            }
        },
    decreases k - i,
{
    if i < k {
        lemma_fields_size_grows(types, fields, i + 1, k, depth);
    }
}

} // verus!
