//! What can go wrong in a store that is held in memory.

use vstd::prelude::*;

verus! {

/// Why a store could not take another row.
#[derive(Debug, Clone, Copy, PartialEq, Eq, Structural)]
pub enum StorageError {
    /// The last id in use is the largest that 32 bits hold.
    IdsExhausted,
}

} // verus!
