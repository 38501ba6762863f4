//! Opaque resource handles and per-resource load states.

use vstd::prelude::*;

verus! {

/// An opaque, copyable reference to a resource that may not yet be resolved.
///
/// A handle carries a slot index and a generation counter. Two handles refer
/// to the same underlying resource exactly when both fields are equal; a
/// handle whose generation no longer matches the slot's current generation is
/// stale and must be rejected rather than answered with stale data.
#[derive(Clone, Copy, PartialEq, Eq, Structural, Debug)]
pub struct Handle {
    pub slot: usize,
    pub generation: u64,
}

/// The load state of one resource.
///
/// Per handle the state is monotonic except for an explicit reload: once
/// `Loaded` or `Failed`, a resource does not silently revert to `Unloaded`.
#[derive(Debug)]
pub enum LoadState {
    Unloaded,
    Loading,
    Loaded,
    Failed(String),
}

impl LoadState {
    /// Severity used for worst-case aggregation, ordered
    /// `Failed > Loading > Unloaded > Loaded`.
    pub open spec fn severity(&self) -> int {
        match self {
            LoadState::Loaded => 0,
            LoadState::Unloaded => 1,
            LoadState::Loading => 2,
            LoadState::Failed(_) => 3,
        }
    }

    /// Two states agree when they are the same variant and, for failures,
    /// their reasons read the same.
    pub open spec fn agrees_with(&self, other: &LoadState) -> bool {
        &&& self.severity() == other.severity()
        &&& (self matches LoadState::Failed(r) ==> (other matches LoadState::Failed(
            s,
        ) && r@ == s@))
    }

    /// The severity as a machine integer, for worst-case comparisons.
    pub fn severity_level(&self) -> (s: u8)
        ensures
            s as int == self.severity(),
    {
        match self {
            LoadState::Loaded => 0,
            LoadState::Unloaded => 1,
            LoadState::Loading => 2,
            LoadState::Failed(_) => 3,
        }
    }
}

impl Clone for LoadState {
    /// The clone is the same variant and carries an equal failure reason.
    fn clone(&self) -> (r: Self)
        ensures
            r.agrees_with(self),
            self.agrees_with(&r),
    {
        match self {
            LoadState::Unloaded => LoadState::Unloaded,
            LoadState::Loading => LoadState::Loading,
            LoadState::Loaded => LoadState::Loaded,
            LoadState::Failed(reason) => LoadState::Failed(reason.clone()),
        }
    }
}

} // verus!
