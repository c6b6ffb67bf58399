use vstd::prelude::*;

verus! {

/// Does nothing; for call sites that want to say so explicitly.
pub fn do_nothing() {
}

} // verus!
