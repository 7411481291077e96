//! The LVM engine: one linear slice over the whole of every disk.

use vstd::prelude::*;
use super::StorageBackend;
use super::ghs::{DiskEntry, GhsRaidType, GhsSlicePlan, PartitionTarget, PlanView, TargetView, disks_view, plans_view, raid_for_count};
use super::zfs::{whole_disk_plan, max_disk_size, whole_disk_targets_exec};

verus! {

pub open spec fn lvm_blueprint(d: Seq<DiskEntry>) -> Result<Seq<PlanView>, Seq<char>> {
    if d.len() == 0 {
        Err("❌ LVM 구성을 위해서는 최소 1개 이상의 디스크가 필요합니다.\n"@)
    } else {
        Ok(seq![whole_disk_plan(d, GhsRaidType::SafeSingle)])
    }
}

/// The LVM backend.
pub struct LvmBackend;

impl StorageBackend for LvmBackend {
    open spec fn admits(&self, disks: Seq<DiskEntry>) -> bool {
        true
    }

    open spec fn spec_blueprint(&self, disks: Seq<DiskEntry>) -> Result<Seq<PlanView>, Seq<char>> {
        lvm_blueprint(disks)
    }

    fn generate_blueprint(&self, _pool_name: &str, disks: &[(String, u64)]) -> (r: Result<
        Vec<GhsSlicePlan>,
        String,
    >) {
        if disks.len() == 0 {
            return Err(String::from_str("❌ LVM 구성을 위해서는 최소 1개 이상의 디스크가 필요합니다.\n"));
        }
        let targets = whole_disk_targets_exec(disks);
        let mut blueprints: Vec<GhsSlicePlan> = Vec::new();
        blueprints.push(
            GhsSlicePlan {
                slice_index: 1,
                chunk_size_bytes: max_disk_size(disks),
                raid_type: GhsRaidType::SafeSingle,
                targets,
            },
        );
        proof {
            assert(plans_view(blueprints@) =~= seq![whole_disk_plan(disks_view(disks@), GhsRaidType::SafeSingle)]);
        }
        Ok(blueprints)
    }
}

} // verus!
