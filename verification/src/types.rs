use vstd::prelude::*;

verus! {

/// The types of values.
#[derive(PartialEq, Eq, Structural, Clone, Copy, Debug)]
pub enum Types {
    Bool,
    Number,
    String,
    Nil,
}

} // verus!
