use vstd::prelude::*;

use crate::text::str_to_string;

verus! {

/// The native function `clock`, which gives the time in seconds.
#[derive(Debug, Clone, Copy)]
pub struct ClockCallable;

impl ClockCallable {
    /// `clock` takes no arguments.
    pub fn arity(&self) -> (r: usize)
        ensures
            r == 0,
    {
        0
    }

    /// How `clock` prints: "<fn clock>".
    pub fn to_string(&self) -> (r: String)
        ensures
            r@ == "<fn clock>"@,
    {
        str_to_string("<fn clock>")
    }

}

} // verus!
