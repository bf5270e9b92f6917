//! An account in two parts: a header of fixed size and a pool of slots that
//! grows.

use vstd::prelude::*;

verus! {

/// An account: its header `fixed` and its slot pool `dynamic`.
pub struct DynamicAccount<Fixed, Dynamic> {
    pub fixed: Fixed,
    pub dynamic: Dynamic,
}

} // verus!
