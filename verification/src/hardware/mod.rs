//! Hardware inventory and health: the disk list, the system disk, SMART
//! reports, temperatures, memory and CPU counters, and the boot-time tool check.

pub mod disks;
pub mod sysmon;
pub mod boot;
pub mod power;
