//! The ZFS engine: one slice over the whole of every disk; the pool itself is
//! built by `zpool` with a vdev layout chosen by the number of disks.

use vstd::prelude::*;
use super::StorageBackend;
use super::ghs::{DiskEntry, GhsRaidType, GhsSlicePlan, PartitionTarget, PlanView, TargetView, disks_view, plans_view, raid_for_count};

verus! {

/// The largest size among the entries, or zero.
pub open spec fn max_size(d: Seq<DiskEntry>) -> u64
    decreases d.len(),
{
    if d.len() == 0 {
        0
    } else {
        let m = max_size(d.drop_last());
        if d.last().1 > m {
            d.last().1
        } else {
            m
        }
    }
}

/// Partition one, from offset zero, on every disk in order.
pub open spec fn whole_disk_targets(d: Seq<DiskEntry>) -> Seq<TargetView> {
    d.map_values(|e: DiskEntry| TargetView { disk_name: e.0, partition_index: 1, start_offset_bytes: 0 })
}

/// A single slice numbered one over whole disks, as large as the largest disk.
pub open spec fn whole_disk_plan(d: Seq<DiskEntry>, raid: GhsRaidType) -> PlanView {
    PlanView {
        slice_index: 1,
        chunk_size_bytes: max_size(d),
        raid_type: raid,
        targets: whole_disk_targets(d),
    }
}

pub open spec fn zfs_blueprint(d: Seq<DiskEntry>) -> Result<Seq<PlanView>, Seq<char>> {
    if d.len() == 0 {
        Err("❌ ZFS 구성을 위해서는 최소 1개 이상의 디스크가 필요합니다.\n"@)
    } else {
        Ok(seq![whole_disk_plan(d, raid_for_count(d.len()))])
    }
}

/// The largest size among the disks, or zero.
pub(crate) fn max_disk_size(disks: &[(String, u64)]) -> (r: u64)
    ensures
        r == max_size(disks_view(disks@)),
{
    let mut m: u64 = 0;
    let mut i: usize = 0;
    while i < disks.len()
        invariant
            i <= disks.len(),
            m == max_size(disks_view(disks@).take(i as int)),
        decreases disks.len() - i,
    {
        let ghost d = disks_view(disks@).take(i + 1);
        assert(d.drop_last() =~= disks_view(disks@).take(i as int));
        if disks[i].1 > m {
            m = disks[i].1;
        }
        i = i + 1;
    }
    assert(disks_view(disks@).take(disks.len() as int) =~= disks_view(disks@));
    m
}

/// Partition one, from offset zero, on every disk in order.
pub(crate) fn whole_disk_targets_exec(disks: &[(String, u64)]) -> (r: Vec<PartitionTarget>)
    ensures
        r@.map_values(|t: PartitionTarget| t@) == whole_disk_targets(disks_view(disks@)),
{
    let mut targets: Vec<PartitionTarget> = Vec::new();
    let mut i: usize = 0;
    while i < disks.len()
        invariant
            i <= disks.len(),
            targets@.map_values(|t: PartitionTarget| t@) == whole_disk_targets(disks_view(disks@)).take(i as int),
        decreases disks.len() - i,
    {
        let name = disks[i].0.clone();
        let ghost old_t = targets@;
        targets.push(PartitionTarget { disk_name: name, partition_index: 1, start_offset_bytes: 0 });
        assert(targets@.map_values(|t: PartitionTarget| t@) =~= old_t.map_values(|t: PartitionTarget| t@).push(
            TargetView { disk_name: disks@[i as int].0@, partition_index: 1, start_offset_bytes: 0 },
        ));
        i = i + 1;
        assert(targets@.map_values(|t: PartitionTarget| t@) =~= whole_disk_targets(disks_view(disks@)).take(i as int));
    }
    assert(whole_disk_targets(disks_view(disks@)).take(disks.len() as int) =~= whole_disk_targets(disks_view(disks@)));
    targets
}

/// The ZFS backend.
pub struct ZfsBackend;

impl StorageBackend for ZfsBackend {
    open spec fn admits(&self, disks: Seq<DiskEntry>) -> bool {
        true
    }

    open spec fn spec_blueprint(&self, disks: Seq<DiskEntry>) -> Result<Seq<PlanView>, Seq<char>> {
        zfs_blueprint(disks)
    }

    fn generate_blueprint(&self, _pool_name: &str, disks: &[(String, u64)]) -> (r: Result<
        Vec<GhsSlicePlan>,
        String,
    >) {
        if disks.len() == 0 {
            return Err(String::from_str("❌ ZFS 구성을 위해서는 최소 1개 이상의 디스크가 필요합니다.\n"));
        }
        let targets = whole_disk_targets_exec(disks);
        let raid_type = if disks.len() == 1 {
            GhsRaidType::SafeSingle
        } else if disks.len() == 2 {
            GhsRaidType::Raid1
        } else {
            GhsRaidType::Raid5
        };
        let mut blueprints: Vec<GhsSlicePlan> = Vec::new();
        blueprints.push(
            GhsSlicePlan { slice_index: 1, chunk_size_bytes: max_disk_size(disks), raid_type, targets },
        );
        proof {
            assert(plans_view(blueprints@) =~= seq![whole_disk_plan(disks_view(disks@), raid_for_count(disks@.len()))]);
        }
        Ok(blueprints)
    }
}

} // verus!
