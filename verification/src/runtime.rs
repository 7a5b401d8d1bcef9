use vstd::prelude::*;

verus! {

/// A Lox value as compiled code holds it: a tag that says what it is and 64
/// bits of payload (the bits of a number, 0 or 1 for a boolean, an address
/// for a string or an object).
#[derive(Debug, Clone, Copy, PartialEq, Eq, Structural)]
pub struct LoxValue {
    pub tag: u8,
    pub bits: u64,
}

pub const TAG_NUMBER: u8 = 0;

pub const TAG_BOOL: u8 = 1;

pub const TAG_NIL: u8 = 2;

pub const TAG_STRING: u8 = 3;

pub const TAG_CLOSURE: u8 = 4;

pub const TAG_CLASS: u8 = 5;

pub const TAG_INSTANCE: u8 = 6;

pub const TAG_BOUND_METHOD: u8 = 7;

/// Lox truthiness: `nil` and `false` are false, every other value is true.
pub open spec fn truthy(v: LoxValue) -> bool {
    !(v.tag == TAG_NIL || (v.tag == TAG_BOOL && v.bits == 0))
}

/// The boolean `b` as compiled code holds it: payload 1 for true, 0 for false.
pub open spec fn bool_lox(b: bool) -> LoxValue {
    LoxValue { tag: TAG_BOOL, bits: if b { 1u64 } else { 0u64 } }
}

/// `nil` as compiled code holds it.
pub open spec fn nil_lox() -> LoxValue {
    LoxValue { tag: TAG_NIL, bits: 0 }
}

/// Whether a value is truthy.
pub fn is_truthy(v: LoxValue) -> (r: bool)
    ensures
        r == truthy(v),
{
    !(v.tag == TAG_NIL || (v.tag == TAG_BOOL && v.bits == 0))
}

/// The value of a boolean.
pub fn bool_value(b: bool) -> (v: LoxValue)
    ensures
        v == bool_lox(b),
        truthy(v) == b,
{
    LoxValue { tag: TAG_BOOL, bits: if b { 1 } else { 0 } }
}

/// The value `nil`.
pub fn nil_value() -> (v: LoxValue)
    ensures
        v == nil_lox(),
        !truthy(v),
{
    LoxValue { tag: TAG_NIL, bits: 0 }
}

} // verus!
