//! Writing class names out as one class list.

use vstd::prelude::*;
use crate::text::{join_spaced, slice_views, spaced, views};

verus! {

/// The class names in order, with a single space between neighbours and
/// none before the first or after the last.
pub fn serialize(names: &Vec<String>) -> (r: String)
    ensures
        r@ == spaced(views(names@)),
{
    let mut parts: Vec<&str> = Vec::new();
    let mut i: usize = 0;
    while i < names.len()
        invariant
            i <= names.len(),
            parts.len() == i,
            forall|k: int| 0 <= k < i ==> (#[trigger] parts@[k])@ == names@[k]@,
        decreases names.len() - i,
    {
        parts.push(names[i].as_str());
        i += 1;
    }
    assert(slice_views(parts@) =~= views(names@));
    join_spaced(parts.as_slice())
}

} // verus!
