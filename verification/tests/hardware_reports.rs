use garam::hardware::boot::BootInspector;
use garam::hardware::disks::{
    fetch_real_smart_metrics, find_system_os_disk, get_disk_realtime_temperature_only, get_disk_smart,
    get_fresh_disk_list, is_drivetemp_sensor, parse_millidegree, sensor_link_matches, skip_hwmon_dir,
    smart_report_targets, DiskInfo, LsblkOutput,
};
use garam::hardware::power::{UpsController, UpsStatus};
use garam::hardware::sysmon::SystemMonitor;

fn names(v: &[&str]) -> Vec<String> {
    v.iter().map(|s| s.to_string()).collect()
}

#[test]
fn disk_list_drops_pseudo_devices_and_sorts() {
    let r = get_fresh_disk_list(&names(&["sdb", "loop0", "sda", "ram1", "sr0", "nvme0n1", "sdaa"]));
    assert_eq!(r, names(&["nvme0n1", "sda", "sdaa", "sdb"]));
}

#[test]
fn disk_list_falls_back_to_sda() {
    assert_eq!(get_fresh_disk_list(&names(&["loop1", "sr0"])), names(&["sda"]));
    assert_eq!(get_fresh_disk_list(&vec![]), names(&["sda"]));
}

#[test]
fn system_disk_from_findmnt() {
    assert_eq!(find_system_os_disk(Some(b"/dev/sda2\n")), "sda");
    assert_eq!(find_system_os_disk(Some(b"/dev/nvme0n1p3\n")), "nvme0n1");
    assert_eq!(find_system_os_disk(Some(b"/dev/mapper/root")), "mapperroot");
    assert_eq!(find_system_os_disk(Some(b"nvme1")), "nvme");
    assert_eq!(find_system_os_disk(None), "sda");
    assert_eq!(find_system_os_disk(Some(b"/dev/mmcblk0p2\n")), "mmcblk0");
    assert_eq!(find_system_os_disk(Some(b"/dev/sda2\n")), "sda");
}

#[test]
fn disk_list_drops_virtual_block_devices() {
    assert_eq!(get_fresh_disk_list(&names(&["sda", "dm-0", "md127", "zram0"])), names(&["sda"]));
}

#[test]
fn smart_reports_reallocated_sectors() {
    let out = "Device Model:     WDC WD40\n  5 Reallocated_Sector_Ct   0x0033   100   100   010    Pre-fail  Always       -       8\n";
    assert_eq!(
        fetch_real_smart_metrics(Some(out.as_bytes())),
        "   [장치 정보] 모델명: WDC WD40  |  시리얼: N/A (시리얼 없음)\n   [건강 상태] Health: PASSED  |  Temperature: 0C (센서 없음)  |  Bad Sectors: 8\n"
    );
}

const SMART_SAMPLE: &str = "smartctl 7.2\n=== START OF INFORMATION SECTION ===\nDevice Model:     Samsung SSD 870\r\nSerial Number:    S5AB12345\n194 Temperature_Celsius     0x0022   067   052   000    Old_age   Always       -       33\n";

#[test]
fn smart_output_is_summarised() {
    assert_eq!(
        fetch_real_smart_metrics(Some(SMART_SAMPLE.as_bytes())),
        "   [장치 정보] 모델명: Samsung SSD 870  |  시리얼: S5AB12345\n   [건강 상태] Health: PASSED  |  Temperature: 33C  |  Bad Sectors: 0 (정상)\n"
    );
}

#[test]
fn smart_vendor_and_product_join() {
    let out = "Vendor:               QEMU\nProduct:              QEMU HARDDISK\nCurrent Drive Temperature:     40 C\nDevice lacks\n/dev/sda: device lacks SMART capability.\n";
    assert_eq!(
        fetch_real_smart_metrics(Some(out.as_bytes())),
        "   [장치 정보] 모델명: QEMU QEMU HARDDISK  |  시리얼: N/A (시리얼 없음)\n   [건강 상태] Health: WARN (가상화 장치 능력이 부족함)  |  Temperature: CC  |  Bad Sectors: 0 (정상)\n"
    );
}

#[test]
fn smart_without_output() {
    assert_eq!(fetch_real_smart_metrics(Some(b"  \n")), "   [건강 상태] Health: UNKNOWN (물리 드라이버 미응답)\n");
    assert_eq!(fetch_real_smart_metrics(None), "   Health: UNKNOWN (커널 크래시)\n");
}

fn listing() -> LsblkOutput {
    LsblkOutput {
        blockdevices: vec![
            DiskInfo { name: "sda".to_string(), size: "100G".to_string(), device_type: "disk".to_string() },
            DiskInfo { name: "sr0".to_string(), size: "1G".to_string(), device_type: "disk".to_string() },
            DiskInfo { name: "sdb".to_string(), size: "2T".to_string(), device_type: "disk".to_string() },
            DiskInfo { name: "md0".to_string(), size: "2T".to_string(), device_type: "raid1".to_string() },
        ],
    }
}

#[test]
fn full_health_report() {
    let l = listing();
    assert_eq!(smart_report_targets(&l), names(&["sda", "sdb"]));
    let r = get_disk_smart("all", "sda", Some(&l), &names(&["M1\n", "M2\n"]));
    let expected = format!(
        "🏥 [가람OS 종합 디스크 무결성 진단 리포트]\n{eq}\n▶️ /dev/sda [용량: 100G] (🚨 SYSTEM OS ROLE)\nM1\n{d}\n▶️ /dev/sdb [용량: 2T]\nM2\n{d}\n{eq}\n",
        eq = "=".repeat(50),
        d = "-".repeat(50)
    );
    assert_eq!(r, expected);
    let missing = get_disk_smart("all", "sda", None, &vec![]);
    assert_eq!(
        missing,
        format!("🏥 [가람OS 종합 디스크 무결성 진단 리포트]\n{eq}\n❌ 커널 디스크 목록을 불러오지 못했습니다.\n{eq}\n", eq = "=".repeat(50))
    );
}

#[test]
fn single_disk_health_report() {
    let r = get_disk_smart("sdb", "sda", None, &names(&["M\n"]));
    assert_eq!(r, format!("🏥 [가람OS 디스크 진단] /dev/sdb\n{d}\nM\n{d}\n", d = "-".repeat(38)));
    let s = get_disk_smart("sda", "sda", None, &names(&["M\n"]));
    assert!(s.starts_with("🏥 [가람OS 디스크 진단] /dev/sda (🚨 SYSTEM OS ROLE)\n"));
}

#[test]
fn temperatures() {
    assert_eq!(get_disk_realtime_temperature_only(Some(45_000)), "45°C");
    assert_eq!(get_disk_realtime_temperature_only(Some(45_999)), "45°C");
    assert_eq!(get_disk_realtime_temperature_only(Some(-1_500)), "-1°C");
    assert_eq!(get_disk_realtime_temperature_only(None), "(가상화)");
    assert_eq!(parse_millidegree(" 42000\n"), Some(42_000));
    assert_eq!(parse_millidegree("-5"), Some(-5));
    assert_eq!(parse_millidegree("+7"), Some(7));
    assert_eq!(parse_millidegree("abc"), None);
    assert_eq!(parse_millidegree("-"), None);
    assert_eq!(parse_millidegree("2147483648"), None);
    assert_eq!(parse_millidegree("-2147483648"), Some(i32::MIN));
    assert!(is_drivetemp_sensor("drivetemp\n"));
    assert!(!is_drivetemp_sensor("coretemp\n"));
    assert!(sensor_link_matches("../../devices/pci0000:00/ata1/host0/target0:0:0/0:0:0:0/block/sda", "sda"));
    assert!(!sensor_link_matches("../../devices/nvme0", "sda"));
    assert!(skip_hwmon_dir("power") && skip_hwmon_dir("subsystem") && !skip_hwmon_dir("hwmon0"));
}

#[test]
fn memory_counters() {
    let meminfo = "MemTotal:       16384000 kB\nMemFree:         1000000 kB\nMemAvailable:    8192000 kB\n";
    assert_eq!(SystemMonitor::parse_meminfo_kb(meminfo), (16_384_000, 8_192_000));
    assert_eq!(SystemMonitor::parse_meminfo_kb("MemTotal: x kB\n"), (0, 0));
    assert_eq!(SystemMonitor::memory_mb(16_384_000, 8_192_000), (16_000, 8_000));
    assert_eq!(SystemMonitor::memory_mb(1_024, 4_096), (1, 0));
}

#[test]
fn cpu_counters() {
    let stat = "cpu  10 20 30 40 50 60 x\ncpu0 1 2 3 4\n";
    assert_eq!(SystemMonitor::read_cpu_jiffies(stat), Some((90, 210)));
    assert_eq!(SystemMonitor::read_cpu_jiffies("cpu  1 2 3 4\n"), Some((4, 10)));
    assert_eq!(SystemMonitor::read_cpu_jiffies("cpu  1 2 3\n"), Some((0, 0)));
    assert_eq!(SystemMonitor::read_cpu_jiffies("intr 1 2 3 4 5\n"), Some((0, 0)));
    assert_eq!(SystemMonitor::read_cpu_jiffies(""), Some((0, 0)));
    assert_eq!(SystemMonitor::read_cpu_jiffies("cpu  18446744073709551615 1 2 3\n"), None);
    assert_eq!(SystemMonitor::cpu_deltas((0, 0), (5, 10)), None);
    assert_eq!(SystemMonitor::cpu_deltas((5, 10), (7, 20)), Some((2, 10)));
    assert_eq!(SystemMonitor::cpu_deltas((9, 30), (7, 20)), Some((0, 0)));
}

#[test]
fn boot_verdict() {
    let tools = BootInspector::essential_tools();
    assert_eq!(tools.len(), 17);
    assert_eq!(tools[0], "sfdisk");
    assert_eq!(tools[9], "mkdir");
    assert_eq!(tools[12], "rmdir");
    assert_eq!(tools[16], "blockdev");
    assert_eq!(BootInspector::integrity_verdict(&vec![true; 17]), Ok(()));
    let mut present = vec![true; 17];
    present[0] = false;
    present[14] = false;
    assert_eq!(
        BootInspector::integrity_verdict(&present),
        Err("❌ 필수 도구 누락으로 부팅 거부: [\"sfdisk\", \"zpool\"]".to_string())
    );
    let mut present = vec![true; 17];
    present[9] = false;
    present[12] = false;
    assert_eq!(
        BootInspector::integrity_verdict(&present),
        Err("❌ 필수 도구 누락으로 부팅 거부: [\"mkdir\", \"rmdir\"]".to_string())
    );
}

#[test]
fn ups_profiles() {
    assert_eq!(
        UpsController::read_ups_telemetry(true),
        UpsStatus { ac_connected: false, battery_pct: 18, ups_voltage_decivolts: 118, backup_time_left_min: 6 }
    );
    assert_eq!(
        UpsController::read_ups_telemetry(false),
        UpsStatus { ac_connected: true, battery_pct: 100, ups_voltage_decivolts: 142, backup_time_left_min: 180 }
    );
}
