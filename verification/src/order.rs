//! The order of operands: constants are ordered as numbers, null equals
//! itself, and no other two operands compare.

use crate::llvmlite::Operand;
use core::cmp::Ordering;
use vstd::prelude::*;
use vstd::std_specs::cmp::PartialOrdSpecImpl;

verus! {

impl PartialOrd for Operand {
    fn partial_cmp(&self, other: &Operand) -> (r: Option<Ordering>) {
        match (self, other) {
            (Operand::Null, Operand::Null) => Some(Ordering::Equal),
            (Operand::Const(x), Operand::Const(y)) => if *x < *y {
                Some(Ordering::Less)
            } else if *x == *y {
                Some(Ordering::Equal)
            } else {
                Some(Ordering::Greater)
            },
            _ => None,
        }
    }
}

impl PartialOrdSpecImpl for Operand {
    open spec fn obeys_partial_cmp_spec() -> bool {
        true
    }

    open spec fn partial_cmp_spec(&self, other: &Operand) -> Option<Ordering> {
        match (self, other) {
            (Operand::Null, Operand::Null) => Some(Ordering::Equal),
            (Operand::Const(x), Operand::Const(y)) => if *x < *y {
                Some(Ordering::Less)
            } else if *x == *y {
                Some(Ordering::Equal)
            } else {
                Some(Ordering::Greater)
            },
            _ => None,
        }
    }
}

} // verus!
