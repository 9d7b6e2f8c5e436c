use vstd::prelude::*;

verus! {

/// A function placed in a switchable ROM bank; it does nothing.
pub fn test_function() {
}

} // verus!
