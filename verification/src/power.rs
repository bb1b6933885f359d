//! Binding powers: how tightly an operator binds in each syntactic role.
//!
//! A larger power binds tighter. An infix operator whose left power is below its
//! right power associates to the left; one whose left power is above its right
//! power associates to the right.

use vstd::prelude::*;
use vstd::pervasive::unreached;

verus! {

/// The right binding power of `op` as a prefix operator, if it is one.
pub open spec fn prefix_power(op: char) -> Option<nat> {
    if op == '+' || op == '-' {
        Some(5)
    } else {
        None
    }
}

/// The left binding power of `op` as a postfix operator, if it is one.
pub open spec fn postfix_power(op: char) -> Option<nat> {
    if op == '[' || op == '!' {
        Some(6)
    } else {
        None
    }
}

/// The left and right binding powers of `op` as an infix operator, if it is one.
pub open spec fn infix_power(op: char) -> Option<(nat, nat)> {
    if op == '+' || op == '-' {
        Some((1, 2))
    } else if op == '*' || op == '/' {
        Some((3, 4))
    } else if op == '.' {
        Some((8, 7))
    } else if op == '?' {
        Some((10, 9))
    } else {
        None
    }
}

/// Whether `op` is a prefix operator.
pub fn is_prefix_op(op: char) -> (b: bool)
    ensures
        b == prefix_power(op).is_some(),
{
    op == '+' || op == '-'
}

/// Whether `op` is an infix operator.
pub fn is_infix_op(op: char) -> (b: bool)
    ensures
        b == infix_power(op).is_some(),
{
    op == '+' || op == '-' || op == '*' || op == '/' || op == '.' || op == '?'
}

/// The binding power of the prefix operator `op`. To look up another
/// character is a fault of the caller.
pub fn prefix_bp(op: char) -> (bp: ((), u32))
    requires
        prefix_power(op).is_some(),
    ensures
        prefix_power(op) == Some(bp.1 as nat),
{
    if op == '+' || op == '-' {
        ((), 5)
    } else {
        unreached()
    }
}

/// The left and right binding powers of the infix operator `op`. To look up
/// another character is a fault of the caller.
pub fn infix_bp(op: char) -> (bp: (u32, u32))
    requires
        infix_power(op).is_some(),
    ensures
        infix_power(op) == Some((bp.0 as nat, bp.1 as nat)),
{
    if op == '+' || op == '-' {
        (1, 2)
    } else if op == '*' || op == '/' {
        (3, 4)
    } else if op == '.' {
        (8, 7)
    } else if op == '?' {
        (10, 9)
    } else {
        unreached()
    }
}

/// The binding power of `op` as a postfix operator; `None` if it is none.
pub fn postfix_bp(op: char) -> (bp: Option<(u32, ())>)
    ensures
        match bp {
            Some(p) => postfix_power(op) == Some(p.0 as nat),
            None => postfix_power(op).is_none(),
        },
{
    if op == '[' || op == '!' {
        Some((6, ()))
    } else {
        None
    }
}

} // verus!
