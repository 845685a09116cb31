//! Typed values stored as bytes: a boolean is one byte, 1 for true and 0 for false.
use vstd::prelude::*;

verus! {

/// The stored form of a boolean.
pub fn bool_to_value(b: bool) -> (r: Vec<u8>)
    ensures
        r@ == seq![if b { 1u8 } else { 0u8 }],
{
    if b {
        vec![1u8]
    } else {
        vec![0u8]
    }
}

/// The boolean a stored value holds: a single byte, true when it is 1; nothing for a
/// value of another length.
pub fn bool_from_value(v: &[u8]) -> (r: Option<bool>)
    ensures
        r == (if v@.len() == 1 {
            Some(v@[0] == 1u8)
        } else {
            None::<bool>
        }),
{
    if v.len() == 1 {
        Some(v[0] == 1)
    } else {
        None
    }
}

} // verus!
