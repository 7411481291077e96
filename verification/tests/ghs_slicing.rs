use garam::storage::ghs::{plannable_disks, GhsBackend, GhsRaidType, GhsSlicePlan, PureGhsEngine};
use garam::storage::lvm::LvmBackend;
use garam::storage::zfs::ZfsBackend;
use garam::storage::StorageBackend;

fn disks(list: &[(&str, u64)]) -> Vec<(String, u64)> {
    list.iter().map(|(n, s)| (n.to_string(), *s)).collect()
}

fn targets(p: &GhsSlicePlan) -> Vec<(String, u32, u64)> {
    p.targets
        .iter()
        .map(|t| (t.disk_name.clone(), t.partition_index, t.start_offset_bytes))
        .collect()
}

#[test]
fn three_unequal_disks_are_cut_into_three_slices() {
    let plans = PureGhsEngine::new(disks(&[("sdb", 100), ("sdc", 200), ("sdd", 300)])).generate_slicing_blueprint();
    assert_eq!(plans.len(), 3);
    assert_eq!(plans[0].slice_index, 1);
    assert_eq!(plans[0].chunk_size_bytes, 100);
    assert_eq!(plans[0].raid_type, GhsRaidType::Raid5);
    assert_eq!(
        targets(&plans[0]),
        vec![("sdb".to_string(), 1, 0), ("sdc".to_string(), 1, 0), ("sdd".to_string(), 1, 0)]
    );
    assert_eq!(plans[1].slice_index, 2);
    assert_eq!(plans[1].chunk_size_bytes, 100);
    assert_eq!(plans[1].raid_type, GhsRaidType::Raid1);
    assert_eq!(targets(&plans[1]), vec![("sdc".to_string(), 2, 100), ("sdd".to_string(), 2, 100)]);
    assert_eq!(plans[2].slice_index, 3);
    assert_eq!(plans[2].chunk_size_bytes, 100);
    assert_eq!(plans[2].raid_type, GhsRaidType::SafeSingle);
    assert_eq!(targets(&plans[2]), vec![("sdd".to_string(), 3, 200)]);
}

#[test]
fn every_byte_of_every_disk_is_planned() {
    let input = disks(&[("sda", 7_000), ("sdb", 3_000), ("sdc", 3_000), ("sdd", 12_500), ("sde", 1)]);
    let plans = PureGhsEngine::new(input.clone()).generate_slicing_blueprint();
    for (name, size) in &input {
        let mut used = 0u64;
        let mut next_offset = 0u64;
        let mut next_index = 1u32;
        for p in &plans {
            for t in &p.targets {
                if &t.disk_name == name {
                    assert_eq!(t.start_offset_bytes, next_offset);
                    assert_eq!(t.partition_index, next_index);
                    next_offset += p.chunk_size_bytes;
                    next_index += 1;
                    used += p.chunk_size_bytes;
                }
            }
        }
        assert_eq!(used, *size);
    }
    for (k, p) in plans.iter().enumerate() {
        assert_eq!(p.slice_index as usize, k + 1);
        assert!(p.chunk_size_bytes > 0);
        let expected = match p.targets.len() {
            1 => GhsRaidType::SafeSingle,
            2 => GhsRaidType::Raid1,
            _ => GhsRaidType::Raid5,
        };
        assert_eq!(p.raid_type, expected);
        if k + 1 < plans.len() {
            assert!(p.targets.len() >= 2);
        }
    }
}

#[test]
fn equal_disks_make_one_slice() {
    let plans = PureGhsEngine::new(disks(&[("sdb", 500), ("sdc", 500)])).generate_slicing_blueprint();
    assert_eq!(plans.len(), 1);
    assert_eq!(plans[0].raid_type, GhsRaidType::Raid1);
    assert_eq!(plans[0].chunk_size_bytes, 500);
}

#[test]
fn a_single_disk_is_a_safe_single_slice() {
    let plans = PureGhsEngine::new(disks(&[("sdb", 64)])).generate_slicing_blueprint();
    assert_eq!(plans.len(), 1);
    assert_eq!(plans[0].raid_type, GhsRaidType::SafeSingle);
    assert_eq!(targets(&plans[0]), vec![("sdb".to_string(), 1, 0)]);
}

#[test]
fn empty_disks_and_no_disks_give_no_slices() {
    assert!(PureGhsEngine::new(vec![]).generate_slicing_blueprint().is_empty());
    let plans = PureGhsEngine::new(disks(&[("sdb", 0), ("sdc", 10)])).generate_slicing_blueprint();
    assert_eq!(plans.len(), 1);
    assert_eq!(targets(&plans[0]), vec![("sdc".to_string(), 1, 0)]);
}

#[test]
fn equal_sizes_keep_their_input_order() {
    let plans = PureGhsEngine::new(disks(&[("sdz", 10), ("sda", 10), ("sdm", 5)])).generate_slicing_blueprint();
    assert_eq!(
        targets(&plans[0]),
        vec![("sdm".to_string(), 1, 0), ("sdz".to_string(), 1, 0), ("sda".to_string(), 1, 0)]
    );
    assert_eq!(targets(&plans[1]), vec![("sdz".to_string(), 2, 5), ("sda".to_string(), 2, 5)]);
}

#[test]
fn a_repeated_disk_name_shares_one_offset_track() {
    let plans = PureGhsEngine::new(disks(&[("sda", 10), ("sda", 20)])).generate_slicing_blueprint();
    assert_eq!(plans.len(), 2);
    assert_eq!(targets(&plans[0]), vec![("sda".to_string(), 1, 0), ("sda".to_string(), 2, 10)]);
    assert_eq!(targets(&plans[1]), vec![("sda".to_string(), 3, 20)]);
}

#[test]
fn hybrid_backend_returns_the_engine_plan() {
    let d = disks(&[("sdb", 100), ("sdc", 300)]);
    let plans = GhsBackend.generate_blueprint("tank", &d).unwrap();
    assert_eq!(plans.len(), 2);
    assert_eq!(plans[1].raid_type, GhsRaidType::SafeSingle);
}

#[test]
fn zfs_backend_picks_the_vdev_by_disk_count() {
    let one = ZfsBackend.generate_blueprint("tank", &disks(&[("sdb", 5)])).unwrap();
    assert_eq!(one[0].raid_type, GhsRaidType::SafeSingle);
    let two = ZfsBackend.generate_blueprint("tank", &disks(&[("sdb", 5), ("sdc", 9)])).unwrap();
    assert_eq!(two.len(), 1);
    assert_eq!(two[0].raid_type, GhsRaidType::Raid1);
    assert_eq!(two[0].chunk_size_bytes, 9);
    assert_eq!(targets(&two[0]), vec![("sdb".to_string(), 1, 0), ("sdc".to_string(), 1, 0)]);
    let three = ZfsBackend.generate_blueprint("tank", &disks(&[("a", 1), ("b", 2), ("c", 3)])).unwrap();
    assert_eq!(three[0].raid_type, GhsRaidType::Raid5);
    assert_eq!(three[0].slice_index, 1);
}

#[test]
fn zfs_and_lvm_backends_refuse_no_disks() {
    let e = ZfsBackend.generate_blueprint("tank", &[]).unwrap_err();
    assert_eq!(e, "❌ ZFS 구성을 위해서는 최소 1개 이상의 디스크가 필요합니다.\n");
    let e = LvmBackend.generate_blueprint("tank", &[]).unwrap_err();
    assert_eq!(e, "❌ LVM 구성을 위해서는 최소 1개 이상의 디스크가 필요합니다.\n");
}

#[test]
fn lvm_backend_is_one_linear_slice() {
    let plans = LvmBackend.generate_blueprint("tank", &disks(&[("sdb", 5), ("sdc", 9), ("sdd", 2)])).unwrap();
    assert_eq!(plans.len(), 1);
    assert_eq!(plans[0].raid_type, GhsRaidType::SafeSingle);
    assert_eq!(plans[0].chunk_size_bytes, 9);
    assert_eq!(plans[0].targets.len(), 3);
}

#[test]
fn planner_takes_disks_whose_sizes_fit() {
    assert!(plannable_disks(&disks(&[("sdb", 100), ("sdc", 200)])));
    assert!(plannable_disks(&disks(&[])));
    assert!(plannable_disks(&disks(&[("sdb", u64::MAX), ("sdc", u64::MAX)])));
    assert!(plannable_disks(&disks(&[("sdb", u64::MAX - 1), ("sdb", 1)])));
    assert!(!plannable_disks(&disks(&[("sdb", u64::MAX), ("sdb", 1)])));
    let many: Vec<(String, u64)> = (0..3000).map(|i| (format!("d{}", i), 1)).collect();
    assert!(plannable_disks(&many));
}

#[test]
fn two_huge_disks_are_planned() {
    let half = 1u64 << 63;
    let plan = PureGhsEngine::new(disks(&[("sdb", half), ("sdc", half)])).generate_slicing_blueprint();
    assert_eq!(plan.len(), 1);
    assert_eq!(plan[0].chunk_size_bytes, half);
    assert_eq!(plan[0].raid_type, GhsRaidType::Raid1);
}

#[test]
fn disk_order_only_reorders_equal_size_targets() {
    let a = PureGhsEngine::new(disks(&[("sdb", 100), ("sdc", 300), ("sdd", 100), ("sde", 200)]))
        .generate_slicing_blueprint();
    let b = PureGhsEngine::new(disks(&[("sde", 200), ("sdd", 100), ("sdc", 300), ("sdb", 100)]))
        .generate_slicing_blueprint();
    assert_eq!(a.len(), b.len());
    for (p, q) in a.iter().zip(b.iter()) {
        assert_eq!(p.slice_index, q.slice_index);
        assert_eq!(p.chunk_size_bytes, q.chunk_size_bytes);
        assert_eq!(p.raid_type, q.raid_type);
        let mut tp = targets(p);
        let mut tq = targets(q);
        tp.sort();
        tq.sort();
        assert_eq!(tp, tq);
    }
}
