use garam::storage::gfs::GfsStorageManager;
use garam::storage::pipeline::{
    check_build_disks, completed_resources, disk_bytes_checked, disk_bytes_from_sectors, disk_scan_failed_message, failure_outcome,
    layered_build_steps, lock_busy_message, lock_failed_message, next_build_action, plan_build, rollback_plan, BuildAction, BuildPlan, BuildStep,
    RollbackStep, WorkerCommand,
};
use garam::storage::ghs::PureGhsEngine;
use garam::storage::lvm::LvmBackend;
use garam::storage::StorageBackend;

fn disks(list: &[(&str, u64)]) -> Vec<(String, u64)> {
    list.iter().map(|(n, s)| (n.to_string(), *s)).collect()
}

fn line(c: &WorkerCommand) -> String {
    let mut s = c.command.clone();
    for a in &c.args {
        s.push(' ');
        s.push_str(a);
    }
    s
}

fn step_lines(steps: &[BuildStep]) -> Vec<String> {
    steps.iter().map(|s| line(&s.command)).collect()
}

#[test]
fn zfs_dry_run_reports_the_zpool_command() {
    match plan_build("tank", "zfs", "raid1", &disks(&[("sdb", 10), ("sdc", 10)]), true, "TX1") {
        BuildPlan::Finished(m) => assert_eq!(m, "🔍 [ZFS 드라이런 통과] zpool create tank mirror\n"),
        _ => panic!("expected a finished dry run"),
    }
}

#[test]
fn zfs_build_runs_one_zpool_create_without_rollback() {
    match plan_build("tank", "zfs", "x", &disks(&[("sdb", 10), ("sdc", 10), ("sdd", 10)]), false, "TX1") {
        BuildPlan::Run { steps, success, rollback_on_failure } => {
            assert_eq!(step_lines(&steps), vec!["zpool create tank raidz sdb sdc sdd".to_string()]);
            assert!(steps[0].undo.is_none());
            assert_eq!(success, "🟢 [ZFS 완공] 가람 ZFS 풀 'tank' 안착 완공.\n");
            assert!(!rollback_on_failure);
        },
        _ => panic!("expected a run"),
    }
    match plan_build("solo", "zfs", "x", &disks(&[("sdb", 10)]), false, "TX1") {
        BuildPlan::Run { steps, .. } => assert_eq!(step_lines(&steps), vec!["zpool create solo sdb".to_string()]),
        _ => panic!("expected a run"),
    }
}

#[test]
fn unknown_engine_and_empty_disks_are_refused() {
    match plan_build("tank", "ext4", "raid1", &disks(&[("sdb", 10)]), false, "TX1") {
        BuildPlan::Refused(e) => assert_eq!(e, "❌ 지원하지 않는 엔진: ext4"),
        _ => panic!("expected a refusal"),
    }
    match plan_build("tank", "lvm", "raid1", &vec![], false, "TX1") {
        BuildPlan::Refused(e) => assert_eq!(e, "❌ LVM 구성을 위해서는 최소 1개 이상의 디스크가 필요합니다.\n"),
        _ => panic!("expected a refusal"),
    }
}

#[test]
fn layered_dry_run_runs_nothing() {
    match plan_build("tank", "hybrid", "raid5", &disks(&[("sdb", 10), ("sdc", 20)]), true, "TX9") {
        BuildPlan::Finished(m) => assert_eq!(m, "🔍 [TXID: TX9] [드라이런 성공] 'tank' 풀 가상 트랜잭션 도면 패스 완료.\n"),
        _ => panic!("expected a finished dry run"),
    }
}

fn lvm_steps() -> Vec<BuildStep> {
    match plan_build("tank", "lvm", "raid1", &disks(&[("sdb", 10), ("sdc", 20)]), false, "TX1") {
        BuildPlan::Run { steps, success, rollback_on_failure } => {
            assert!(rollback_on_failure);
            assert_eq!(
                success,
                "🏗️ [가람 소켓 트랜잭션] 'tank' 물리 매립 공정 집행서\n🟢 [완공 보증] 가람 GFS 인프라 원자적 타설 완료 ➔ /storage/tank\n"
            );
            steps
        },
        _ => panic!("expected a run"),
    }
}

#[test]
fn layered_build_lists_every_command_in_order() {
    let steps = lvm_steps();
    assert_eq!(
        step_lines(&steps),
        vec![
            "sfdisk --append --no-reread /dev/sdb",
            "sfdisk --append --no-reread /dev/sdc",
            "mdadm --create /dev/md_garam_tank_1 --metadata=1.2 --force --quiet --level=linear --raid-devices=2 /dev/sdb1 /dev/sdc1",
            "pvcreate -f /dev/md_garam_tank_1",
            "vgcreate vg_tank /dev/md_garam_tank_1",
            "lvcreate -l 100%FREE -n data vg_tank",
            "mkfs.btrfs -f /dev/vg_tank/data",
            "mkdir -p /storage/tank",
            "mount /dev/vg_tank/data /storage/tank",
        ]
        .iter()
        .map(|s| s.to_string())
        .collect::<Vec<_>>()
    );
    for s in &steps {
        let nothing = s.command.command == "mkfs.btrfs" || s.command.command == "mkdir";
        assert_eq!(s.undo.is_none(), nothing);
    }
}

#[test]
fn raid_levels_follow_the_plan() {
    let plans = LvmBackend.generate_blueprint("p", &disks(&[("sdb", 1024), ("sdc", 2048), ("sdd", 512)])).unwrap();
    let linear = layered_build_steps("p", &plans);
    assert!(line(&linear[3].command).contains("--level=linear --raid-devices=3 /dev/sdb1 /dev/sdc1 /dev/sdd1"));
    let plans = PureGhsEngine::new(disks(&[("sdb", 1024), ("sdc", 2048), ("sdd", 2048)])).generate_slicing_blueprint();
    let steps = layered_build_steps("p", &plans);
    let lines: Vec<String> = steps.iter().map(|s| line(&s.command)).collect();
    assert_eq!(lines[0], "sfdisk --append --no-reread /dev/sdb");
    assert_eq!(lines[1], "sfdisk --append --no-reread /dev/sdc");
    assert_eq!(lines[2], "sfdisk --append --no-reread /dev/sdd");
    for k in 0..3 {
        assert_eq!(steps[k].command.stdin.as_deref(), Some("start=0, size=2\n"));
    }
    assert!(lines[3].contains("--level=5 --raid-devices=3 /dev/sdb1 /dev/sdc1 /dev/sdd1"));
    assert!(steps[3].command.stdin.is_none());
    assert_eq!(lines[4], "sfdisk --append --no-reread /dev/sdc");
    assert_eq!(lines[5], "sfdisk --append --no-reread /dev/sdd");
    assert_eq!(steps[4].command.stdin.as_deref(), Some("start=2, size=2\n"));
    assert_eq!(steps[5].command.stdin.as_deref(), Some("start=2, size=2\n"));
    assert!(lines[6].contains("--level=1 --raid-devices=2 /dev/sdc2 /dev/sdd2"));
}

#[test]
fn failed_build_rolls_back_newest_first() {
    let steps = lvm_steps();
    let (cmds, msg) = failure_outcome(true, &steps, 4, "boom", "TX7");
    assert_eq!(
        cmds.iter().map(line).collect::<Vec<_>>(),
        vec![
            "pvremove -f /dev/md_garam_tank_1",
            "mdadm --stop /dev/md_garam_tank_1",
            "mdadm --zero-superblock /dev/md_garam_tank_1",
            "dd if=/dev/zero of=/dev/sdc bs=1M count=10 oflag=direct",
            "blockdev --rereadpt /dev/sdc",
            "dd if=/dev/zero of=/dev/sdb bs=1M count=10 oflag=direct",
            "blockdev --rereadpt /dev/sdb",
        ]
        .iter()
        .map(|s| s.to_string())
        .collect::<Vec<_>>()
    );
    assert_eq!(msg, "❌ [TXID: TX7] [롤백 완공] 설정된 소켓 관로를 백트랙하여 클린 철수 성공. (사유: boom)");
}

#[test]
fn failure_after_mount_undoes_everything() {
    let steps = lvm_steps();
    let stack = completed_resources(&steps, steps.len());
    assert_eq!(stack.len(), 7);
    let cmds = rollback_plan(&stack);
    assert_eq!(line(&cmds[0]), "umount -f /storage/tank");
    assert_eq!(line(&cmds[1]), "rmdir /storage/tank");
    assert_eq!(line(&cmds[2]), "lvremove -f vg_tank/data");
    assert_eq!(line(&cmds[3]), "vgremove -f vg_tank");
}

#[test]
fn failure_without_rollback_reports_the_reason() {
    let (cmds, msg) = failure_outcome(false, &vec![], 0, "worker said no", "TX1");
    assert!(cmds.is_empty());
    assert_eq!(msg, "worker said no");
}

#[test]
fn first_step_failure_rolls_back_nothing() {
    let steps = lvm_steps();
    let (cmds, _) = failure_outcome(true, &steps, 0, "x", "T");
    assert!(cmds.is_empty());
}

#[test]
fn rollback_of_a_single_resource() {
    let stack = vec![RollbackStep::LvCreated { vg_name: "vg_a".to_string(), lv_name: "data".to_string() }];
    let cmds = rollback_plan(&stack);
    assert_eq!(cmds.iter().map(line).collect::<Vec<_>>(), vec!["lvremove -f vg_a/data".to_string()]);
}

#[test]
fn system_and_mounted_disks_are_refused() {
    let raw = vec!["sdb".to_string(), "sda".to_string()];
    assert_eq!(
        check_build_disks(&raw, "sda", "").unwrap_err(),
        "🚨 [빌드 거부] '/dev/sda'는 가람OS 메인 시스템 디스크입니다!\n"
    );
    assert_eq!(
        check_build_disks(&raw, "nvme0n1", "/dev/sdb1\n/dev/nvme0n1p2\n").unwrap_err(),
        "🚨 [빌드 거부] '/dev/sdb'는 현재 활성 장치입니다!\n"
    );
    assert!(check_build_disks(&raw, "nvme0n1", "/dev/nvme0n1p2\n").is_ok());
}

#[test]
fn sector_counts_become_bytes() {
    assert_eq!(disk_bytes_from_sectors("1000\n"), Ok(512_000));
    assert_eq!(disk_bytes_from_sectors("  +7 "), Ok(3584));
    assert_eq!(disk_bytes_from_sectors(""), Err("cannot parse integer from empty string".to_string()));
    assert_eq!(disk_bytes_from_sectors("12a"), Err("invalid digit found in string".to_string()));
    assert_eq!(disk_bytes_from_sectors("-5"), Err("invalid digit found in string".to_string()));
    assert_eq!(
        disk_bytes_from_sectors("99999999999999999999"),
        Err("number too large to fit in target type".to_string())
    );
}

#[test]
fn pipeline_messages() {
    assert_eq!(lock_busy_message("T1"), "🚨 [TXID: T1] [접근 거부] 다른 스토리지 빌드 공정이 커널을 점유 중입니다.");
    assert_eq!(lock_failed_message("denied"), "❌ 락 파일 생성 실패: denied");
    assert_eq!(disk_scan_failed_message("sdb", "gone"), "❌ 디스크 sdb 스캔 실패: gone");
}

#[test]
fn gfs_manager_commands() {
    let m = GfsStorageManager::new("/storage/tank", "/run/worker.sock");
    assert_eq!(m.mount_point, "/storage/tank");
    assert_eq!(m.worker_socket, "/run/worker.sock");
    let cmds = m.format_and_mount_commands("/dev/vg_tank/data");
    assert_eq!(
        cmds.iter().map(line).collect::<Vec<_>>(),
        vec![
            "mkfs.btrfs -f /dev/vg_tank/data".to_string(),
            "mkdir -p /storage/tank".to_string(),
            "mount /dev/vg_tank/data /storage/tank".to_string(),
        ]
    );
    let (tx, snap) = m.snapshot_command("pre-blackout");
    assert_eq!(tx, "UPS-EMERG");
    assert_eq!(line(&snap), "btrfs subvolume snapshot /storage/tank /storage/tank/.snapshots/pre-blackout");
}

#[test]
fn sector_counts_that_overflow_are_flagged() {
    assert_eq!(disk_bytes_checked("36028797018963967\n"), Some(Ok(36028797018963967 * 512)));
    assert_eq!(disk_bytes_checked("36028797018963968\n"), None);
    assert!(matches!(disk_bytes_checked("x"), Some(Err(_))));
}

#[test]
fn build_driver_runs_steps_in_order_and_stops_at_the_first_failure() {
    let steps = lvm_steps();
    let ok = "done";
    assert!(matches!(next_build_action(&steps, ok, true, 0, None, "TX"), BuildAction::RunStep(0)));
    assert!(matches!(next_build_action(&steps, ok, true, 4, None, "TX"), BuildAction::RunStep(4)));
    match next_build_action(&steps, ok, true, steps.len(), None, "TX") {
        BuildAction::Succeed(m) => assert_eq!(m, "done"),
        _ => panic!("expected success"),
    }
    match next_build_action(&steps, ok, true, 4, Some("boom"), "TX7") {
        BuildAction::RollBack(cmds, msg) => {
            let (expected, expected_msg) = failure_outcome(true, &steps, 4, "boom", "TX7");
            assert_eq!(cmds.iter().map(line).collect::<Vec<_>>(), expected.iter().map(line).collect::<Vec<_>>());
            assert_eq!(msg, expected_msg);
        },
        _ => panic!("expected a rollback"),
    }
}
