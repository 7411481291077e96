//! The interface that the storage engines share.

use vstd::prelude::*;
use super::ghs::{DiskEntry, GhsSlicePlan, PlanView, disks_view, plans_view};

verus! {

/// The value of a planner's answer: the plan's slices, or the error text.
pub open spec fn blueprint_result_view(r: Result<Vec<GhsSlicePlan>, String>) -> Result<Seq<PlanView>, Seq<char>> {
    match r {
        Ok(v) => Ok(plans_view(v@)),
        Err(e) => Err(e@),
    }
}

/// A storage engine turns a list of disks (name, size in bytes) into a slicing
/// plan, or refuses with a message.
pub trait StorageBackend {
    /// The disk lists that the engine can plan for without overflowing.
    spec fn admits(&self, disks: Seq<DiskEntry>) -> bool;

    /// The engine's answer for a disk list.
    spec fn spec_blueprint(&self, disks: Seq<DiskEntry>) -> Result<Seq<PlanView>, Seq<char>>;

    fn generate_blueprint(&self, pool_name: &str, disks: &[(String, u64)]) -> (r: Result<
        Vec<GhsSlicePlan>,
        String,
    >)
        requires
            self.admits(disks_view(disks@)),
        ensures
            blueprint_result_view(r) == self.spec_blueprint(disks_view(disks@)),
    ;
}

} // verus!
