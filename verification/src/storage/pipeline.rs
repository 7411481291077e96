//! The storage build pipeline, as a plan: which worker commands build a pool,
//! which resource each successful command leaves behind, and which commands
//! undo a failed build, most recent resource first. The caller runs the
//! commands in order through the disk worker and stops at the first failure.

use vstd::prelude::*;
use crate::text::{
    decimal, has_infix, strings_view, str_equals, chars_of, contains_chars, u64_to_decimal,
    clone_strings, extend_strings, push_string, trim_ws, trim_str, parse_unsigned, parse_unsigned_chars,
    int_error_text, int_error_string, IntParseError,
};
use super::ghs::{
    GhsBackend, GhsRaidType, GhsSlicePlan, PartitionTarget, PlanView, TargetView, DiskEntry, disks_view,
    plans_view, plannable, ghs_blueprint,
};
use super::zfs::{ZfsBackend, zfs_blueprint};
use super::lvm::{LvmBackend, lvm_blueprint};
use super::{StorageBackend, blueprint_result_view};

verus! {

/// One command for the root disk worker: the program, its arguments, and
/// the text for its standard input when it reads one.
pub struct WorkerCommand {
    pub command: String,
    pub args: Vec<String>,
    pub stdin: Option<String>,
}

pub struct CommandView {
    pub command: Seq<char>,
    pub args: Seq<Seq<char>>,
    pub stdin: Option<Seq<char>>,
}

impl View for WorkerCommand {
    type V = CommandView;

    open spec fn view(&self) -> CommandView {
        CommandView {
            command: self.command@,
            args: strings_view(self.args@),
            stdin: match self.stdin {
                Some(t) => Some(t@),
                None => None,
            },
        }
    }
}

/// A resource that a successful build step left behind, and that a rollback
/// has to remove.
#[derive(Debug)]
pub enum RollbackStep {
    PartitionCreated { disk: String },
    MdadmArrayCreated { md_device: String },
    PvCreated { md_devices: Vec<String> },
    VgCreated { vg_name: String },
    LvCreated { vg_name: String, lv_name: String },
    Mounted { mount_point: String },
}

pub enum RollbackView {
    PartitionCreated(Seq<char>),
    MdadmArrayCreated(Seq<char>),
    PvCreated(Seq<Seq<char>>),
    VgCreated(Seq<char>),
    LvCreated(Seq<char>, Seq<char>),
    Mounted(Seq<char>),
}

impl View for RollbackStep {
    type V = RollbackView;

    open spec fn view(&self) -> RollbackView {
        match self {
            RollbackStep::PartitionCreated { disk } => RollbackView::PartitionCreated(disk@),
            RollbackStep::MdadmArrayCreated { md_device } => RollbackView::MdadmArrayCreated(md_device@),
            RollbackStep::PvCreated { md_devices } => RollbackView::PvCreated(strings_view(md_devices@)),
            RollbackStep::VgCreated { vg_name } => RollbackView::VgCreated(vg_name@),
            RollbackStep::LvCreated { vg_name, lv_name } => RollbackView::LvCreated(vg_name@, lv_name@),
            RollbackStep::Mounted { mount_point } => RollbackView::Mounted(mount_point@),
        }
    }
}

/// A command of the build, with the resource it leaves behind when it succeeds.
pub struct BuildStep {
    pub command: WorkerCommand,
    pub undo: Option<RollbackStep>,
}

pub struct StepView {
    pub command: CommandView,
    pub undo: Option<RollbackView>,
}

impl View for BuildStep {
    type V = StepView;

    open spec fn view(&self) -> StepView {
        StepView {
            command: self.command@,
            undo: match self.undo {
                Some(u) => Some(u@),
                None => None,
            },
        }
    }
}

pub open spec fn steps_view(v: Seq<BuildStep>) -> Seq<StepView> {
    v.map_values(|b: BuildStep| b@)
}

pub open spec fn commands_view(v: Seq<WorkerCommand>) -> Seq<CommandView> {
    v.map_values(|c: WorkerCommand| c@)
}

pub open spec fn rollbacks_view(v: Seq<RollbackStep>) -> Seq<RollbackView> {
    v.map_values(|r: RollbackStep| r@)
}

/// A command that reads no standard input.
pub open spec fn cmd(c: Seq<char>, args: Seq<Seq<char>>) -> CommandView {
    CommandView { command: c, args, stdin: None }
}

pub open spec fn dev_path(disk: Seq<char>) -> Seq<char> {
    "/dev/"@ + disk
}

/// The md array device of slice `idx` of pool `pool`.
pub open spec fn md_device(pool: Seq<char>, idx: u32) -> Seq<char> {
    "/dev/md_garam_"@ + pool + "_"@ + decimal(idx as nat)
}

/// The partition device of a target: the disk device and the partition number.
pub open spec fn part_device(t: TargetView) -> Seq<char> {
    "/dev/"@ + t.disk_name + decimal(t.partition_index as nat)
}

/// The `mdadm` level of a slice's RAID type.
pub open spec fn level_word(r: GhsRaidType) -> Seq<char> {
    match r {
        GhsRaidType::Raid1 => "1"@,
        GhsRaidType::Raid5 => "5"@,
        GhsRaidType::SafeSingle => "linear"@,
    }
}

/// The level arguments of `mdadm` for a slice: its plan's RAID level over
/// all of its `count` partitions.
pub open spec fn level_args(r: GhsRaidType, count: nat) -> Seq<Seq<char>> {
    seq!["--level="@ + level_word(r), "--raid-devices="@ + decimal(count)]
}

/// The `sfdisk` script line of a piece: its first sector and its length, in
/// 512-byte sectors.
pub open spec fn partition_spec(t: TargetView, chunk: u64) -> Seq<char> {
    "start="@ + decimal(t.start_offset_bytes as nat / 512) + ", size="@ + decimal(chunk as nat / 512) + "\n"@
}

/// Appends the partition of a piece of `chunk` bytes at the target's offset:
/// `sfdisk --append --no-reread` on the disk, with the piece's script line on
/// its standard input.
pub open spec fn partition_step(t: TargetView, chunk: u64) -> StepView {
    StepView {
        command: CommandView {
            command: "sfdisk"@,
            args: seq!["--append"@, "--no-reread"@, dev_path(t.disk_name)],
            stdin: Some(partition_spec(t, chunk)),
        },
        undo: Some(RollbackView::PartitionCreated(t.disk_name)),
    }
}

pub open spec fn mdadm_step(pool: Seq<char>, p: PlanView) -> StepView {
    let md = md_device(pool, p.slice_index);
    StepView {
        command: cmd(
            "mdadm"@,
            seq!["--create"@, md, "--metadata=1.2"@, "--force"@, "--quiet"@] + level_args(p.raid_type, p.targets.len())
                + p.targets.map_values(|t: TargetView| part_device(t)),
        ),
        undo: Some(RollbackView::MdadmArrayCreated(md)),
    }
}

/// The steps of one slice: a partition on each target disk, then the array.
pub open spec fn slice_steps(pool: Seq<char>, p: PlanView) -> Seq<StepView> {
    p.targets.map_values(|t: TargetView| partition_step(t, p.chunk_size_bytes)).push(mdadm_step(pool, p))
}

pub open spec fn all_slice_steps(pool: Seq<char>, plans: Seq<PlanView>) -> Seq<StepView>
    decreases plans.len(),
{
    if plans.len() == 0 {
        seq![]
    } else {
        all_slice_steps(pool, plans.drop_last()) + slice_steps(pool, plans.last())
    }
}

pub open spec fn md_devices(pool: Seq<char>, plans: Seq<PlanView>) -> Seq<Seq<char>> {
    plans.map_values(|p: PlanView| md_device(pool, p.slice_index))
}

pub open spec fn volume_group(pool: Seq<char>) -> Seq<char> {
    "vg_"@ + pool
}

pub open spec fn logical_volume(pool: Seq<char>) -> Seq<char> {
    "/dev/"@ + volume_group(pool) + "/data"@
}

pub open spec fn pool_mount_point(pool: Seq<char>) -> Seq<char> {
    "/storage/"@ + pool
}

/// Format `dev` with btrfs, create the mount point, and mount it there.
pub open spec fn format_and_mount_commands(mount_point: Seq<char>, dev: Seq<char>) -> Seq<CommandView> {
    seq![
        cmd("mkfs.btrfs"@, seq!["-f"@, dev]),
        cmd("mkdir"@, seq!["-p"@, mount_point]),
        cmd("mount"@, seq![dev, mount_point]),
    ]
}

/// The steps after the arrays: the LVM layers, then format and mount.
pub open spec fn volume_steps(pool: Seq<char>, plans: Seq<PlanView>) -> Seq<StepView> {
    let mds = md_devices(pool, plans);
    let vg = volume_group(pool);
    let lv = logical_volume(pool);
    let mp = pool_mount_point(pool);
    let fm = format_and_mount_commands(mp, lv);
    seq![
        StepView { command: cmd("pvcreate"@, seq!["-f"@] + mds), undo: Some(RollbackView::PvCreated(mds)) },
        StepView { command: cmd("vgcreate"@, seq![vg] + mds), undo: Some(RollbackView::VgCreated(vg)) },
        StepView {
            command: cmd("lvcreate"@, seq!["-l"@, "100%FREE"@, "-n"@, "data"@, vg]),
            undo: Some(RollbackView::LvCreated(vg, "data"@)),
        },
        StepView { command: fm[0], undo: None },
        StepView { command: fm[1], undo: None },
        StepView { command: fm[2], undo: Some(RollbackView::Mounted(mp)) },
    ]
}

/// All steps of a layered (md + LVM + btrfs) build of `plans`.
pub open spec fn layered_steps(pool: Seq<char>, plans: Seq<PlanView>) -> Seq<StepView> {
    all_slice_steps(pool, plans) + volume_steps(pool, plans)
}

/// The commands that remove one resource.
pub open spec fn undo_commands(r: RollbackView) -> Seq<CommandView> {
    match r {
        RollbackView::Mounted(mp) => seq![cmd("umount"@, seq!["-f"@, mp]), cmd("rmdir"@, seq![mp])],
        RollbackView::LvCreated(vg, lv) => seq![cmd("lvremove"@, seq!["-f"@, vg + "/"@ + lv])],
        RollbackView::VgCreated(vg) => seq![cmd("vgremove"@, seq!["-f"@, vg])],
        RollbackView::PvCreated(mds) => mds.map_values(|md: Seq<char>| cmd("pvremove"@, seq!["-f"@, md])),
        RollbackView::MdadmArrayCreated(md) => seq![
            cmd("mdadm"@, seq!["--stop"@, md]),
            cmd("mdadm"@, seq!["--zero-superblock"@, md]),
        ],
        RollbackView::PartitionCreated(disk) => seq![
            cmd("dd"@, seq!["if=/dev/zero"@, "of=/dev/"@ + disk, "bs=1M"@, "count=10"@, "oflag=direct"@]),
            cmd("blockdev"@, seq!["--rereadpt"@, dev_path(disk)]),
        ],
    }
}

/// The rollback of a stack of resources: the most recent one first.
pub open spec fn rollback_commands(stack: Seq<RollbackView>) -> Seq<CommandView>
    decreases stack.len(),
{
    if stack.len() == 0 {
        seq![]
    } else {
        undo_commands(stack.last()) + rollback_commands(stack.drop_last())
    }
}

/// The resources left behind by the first `n` steps, in the order they were made.
pub open spec fn done_resources(steps: Seq<StepView>, n: int) -> Seq<RollbackView>
    decreases n,
{
    if n <= 0 {
        seq![]
    } else {
        let prev = done_resources(steps, n - 1);
        match steps[n - 1].undo {
            Some(r) => prev.push(r),
            None => prev,
        }
    }
}


fn lit(s: &str) -> (r: String)
    ensures
        r@ == s@,
{
    String::from_str(s)
}

fn new_command(c: &str, args: Vec<String>) -> (r: WorkerCommand)
    ensures
        r@ == cmd(c@, strings_view(args@)),
{
    WorkerCommand { command: lit(c), args, stdin: None }
}

fn args1(a: String) -> (r: Vec<String>)
    ensures
        strings_view(r@) == seq![a@],
{
    let mut v: Vec<String> = Vec::new();
    push_string(&mut v, a);
    assert(strings_view(v@) =~= seq![a@]);
    v
}

fn args2(a: String, b: String) -> (r: Vec<String>)
    ensures
        strings_view(r@) == seq![a@, b@],
{
    let mut v: Vec<String> = Vec::new();
    push_string(&mut v, a);
    push_string(&mut v, b);
    assert(strings_view(v@) =~= seq![a@, b@]);
    v
}

fn dev_path_exec(disk: &str) -> (r: String)
    ensures
        r@ == dev_path(disk@),
{
    let mut r = lit("/dev/");
    r.append(disk);
    r
}

fn md_device_exec(pool: &str, idx: u32) -> (r: String)
    ensures
        r@ == md_device(pool@, idx),
{
    let mut r = lit("/dev/md_garam_");
    r.append(pool);
    r.append("_");
    let d = u64_to_decimal(idx as u64);
    r.append(d.as_str());
    r
}

fn part_device_exec(t: &PartitionTarget) -> (r: String)
    ensures
        r@ == part_device(t@),
{
    let mut r = lit("/dev/");
    r.append(t.disk_name.as_str());
    let d = u64_to_decimal(t.partition_index as u64);
    r.append(d.as_str());
    r
}

fn level_args_exec(r: GhsRaidType, count: usize) -> (v: Vec<String>)
    ensures
        strings_view(v@) == level_args(r, count as nat),
{
    let mut l = lit("--level=");
    match r {
        GhsRaidType::Raid1 => l.append("1"),
        GhsRaidType::Raid5 => l.append("5"),
        GhsRaidType::SafeSingle => l.append("linear"),
    }
    let mut d = lit("--raid-devices=");
    let n = u64_to_decimal(count as u64);
    d.append(n.as_str());
    args2(l, d)
}

fn partition_step_exec(t: &PartitionTarget, chunk: u64) -> (r: BuildStep)
    ensures
        r@ == partition_step(t@, chunk),
{
    let mut spec = lit("start=");
    let b = u64_to_decimal(t.start_offset_bytes / 512);
    spec.append(b.as_str());
    spec.append(", size=");
    let c = u64_to_decimal(chunk / 512);
    spec.append(c.as_str());
    spec.append("\n");
    let mut args: Vec<String> = Vec::new();
    push_string(&mut args, lit("--append"));
    push_string(&mut args, lit("--no-reread"));
    push_string(&mut args, dev_path_exec(t.disk_name.as_str()));
    assert(strings_view(args@) =~= seq!["--append"@, "--no-reread"@, dev_path(t.disk_name@)]);
    BuildStep {
        command: WorkerCommand { command: lit("sfdisk"), args, stdin: Some(spec) },
        undo: Some(RollbackStep::PartitionCreated { disk: t.disk_name.clone() }),
    }
}

fn mdadm_step_exec(pool: &str, p: &GhsSlicePlan) -> (r: BuildStep)
    ensures
        r@ == mdadm_step(pool@, p@),
{
    let md = md_device_exec(pool, p.slice_index);
    let mut args: Vec<String> = Vec::new();
    push_string(&mut args, lit("--create"));
    push_string(&mut args, md.clone());
    push_string(&mut args, lit("--metadata=1.2"));
    push_string(&mut args, lit("--force"));
    push_string(&mut args, lit("--quiet"));
    let level = level_args_exec(p.raid_type, p.targets.len());
    extend_strings(&mut args, &level);
    let ghost head = strings_view(args@);
    let mut i: usize = 0;
    while i < p.targets.len()
        invariant
            i <= p.targets.len(),
            strings_view(args@) == head + p@.targets.map_values(|t: TargetView| part_device(t)).take(i as int),
        decreases p.targets.len() - i,
    {
        let d = part_device_exec(&p.targets[i]);
        push_string(&mut args, d);
        proof {
            assert(p@.targets[i as int] == p.targets@[i as int]@);
        }
        i = i + 1;
        assert(strings_view(args@) =~= head + p@.targets.map_values(|t: TargetView| part_device(t)).take(i as int));
    }
    proof {
        let parts = p@.targets.map_values(|t: TargetView| part_device(t));
        assert(parts.take(p.targets.len() as int) =~= parts);
        assert(seq!["--create"@, md@, "--metadata=1.2"@, "--force"@, "--quiet"@] + level_args(p@.raid_type, p@.targets.len())
            =~= head);
    }
    BuildStep {
        command: new_command("mdadm", args),
        undo: Some(RollbackStep::MdadmArrayCreated { md_device: md }),
    }
}

fn push_step(steps: &mut Vec<BuildStep>, b: BuildStep)
    ensures
        steps_view(final(steps)@) == steps_view(old(steps)@).push(b@),
{
    let ghost before = steps@;
    steps.push(b);
    assert(steps_view(steps@) =~= steps_view(before).push(b@));
}

fn push_slice_steps(steps: &mut Vec<BuildStep>, pool: &str, p: &GhsSlicePlan)
    ensures
        steps_view(final(steps)@) == steps_view(old(steps)@) + slice_steps(pool@, p@),
{
    let ghost sf = p@.targets.map_values(|t: TargetView| partition_step(t, p@.chunk_size_bytes));
    let mut i: usize = 0;
    while i < p.targets.len()
        invariant
            i <= p.targets.len(),
            sf == p@.targets.map_values(|t: TargetView| partition_step(t, p@.chunk_size_bytes)),
            steps_view(steps@) == steps_view(old(steps)@) + sf.take(i as int),
        decreases p.targets.len() - i,
    {
        let b = partition_step_exec(&p.targets[i], p.chunk_size_bytes);
        let ghost before = steps_view(steps@);
        push_step(steps, b);
        proof {
            assert(p@.targets[i as int] == p.targets@[i as int]@);
            assert(sf[i as int] == b@);
            assert(sf.take(i + 1) =~= sf.take(i as int).push(sf[i as int]));
            assert(steps_view(steps@) =~= before.push(b@));
        }
        i = i + 1;
        assert(steps_view(steps@) =~= steps_view(old(steps)@) + sf.take(i as int));
    }
    assert(sf.take(p.targets.len() as int) =~= sf);
    let m = mdadm_step_exec(pool, p);
    push_step(steps, m);
    assert(steps_view(steps@) =~= steps_view(old(steps)@) + slice_steps(pool@, p@));
}

fn md_devices_exec(pool: &str, plans: &Vec<GhsSlicePlan>) -> (r: Vec<String>)
    ensures
        strings_view(r@) == md_devices(pool@, plans_view(plans@)),
{
    let mut r: Vec<String> = Vec::new();
    let mut i: usize = 0;
    while i < plans.len()
        invariant
            i <= plans.len(),
            strings_view(r@) == md_devices(pool@, plans_view(plans@)).take(i as int),
        decreases plans.len() - i,
    {
        push_string(&mut r, md_device_exec(pool, plans[i].slice_index));
        i = i + 1;
        assert(strings_view(r@) =~= md_devices(pool@, plans_view(plans@)).take(i as int));
    }
    assert(md_devices(pool@, plans_view(plans@)).take(plans.len() as int) =~= md_devices(pool@, plans_view(plans@)));
    r
}

/// The commands that format a device with btrfs and mount it at `mount_point`.
pub fn format_and_mount_exec(mount_point: &str, dev: &str) -> (r: Vec<WorkerCommand>)
    ensures
        commands_view(r@) == format_and_mount_commands(mount_point@, dev@),
{
    let mut r: Vec<WorkerCommand> = Vec::new();
    r.push(new_command("mkfs.btrfs", args2(lit("-f"), lit(dev))));
    r.push(new_command("mkdir", args2(lit("-p"), lit(mount_point))));
    r.push(new_command("mount", args2(lit(dev), lit(mount_point))));
    assert(commands_view(r@) =~= format_and_mount_commands(mount_point@, dev@));
    r
}

/// The steps of a layered build of `plans` for pool `pool`.
pub fn layered_build_steps(pool: &str, plans: &Vec<GhsSlicePlan>) -> (r: Vec<BuildStep>)
    ensures
        steps_view(r@) == layered_steps(pool@, plans_view(plans@)),
{
    let mut steps: Vec<BuildStep> = Vec::new();
    let mut i: usize = 0;
    while i < plans.len()
        invariant
            i <= plans.len(),
            steps_view(steps@) == all_slice_steps(pool@, plans_view(plans@).take(i as int)),
        decreases plans.len() - i,
    {
        push_slice_steps(&mut steps, pool, &plans[i]);
        proof {
            let pv = plans_view(plans@).take(i + 1);
            assert(pv.drop_last() =~= plans_view(plans@).take(i as int));
        }
        i = i + 1;
    }
    assert(plans_view(plans@).take(plans.len() as int) =~= plans_view(plans@));
    let ghost s0 = steps_view(steps@);
    let mds = md_devices_exec(pool, plans);
    let mut vg = lit("vg_");
    vg.append(pool);
    let mut lv = lit("/dev/");
    lv.append(vg.as_str());
    lv.append("/data");
    let mut mp = lit("/storage/");
    mp.append(pool);

    let ghost pl = plans_view(plans@);
    let ghost mdv = md_devices(pool@, pl);
    let ghost vgv = volume_group(pool@);
    let ghost lvv = logical_volume(pool@);
    let ghost mpv = pool_mount_point(pool@);
    assert(vg@ == vgv);
    assert(lv@ == lvv);
    assert(mp@ == mpv);
    let mut pv_args: Vec<String> = Vec::new();
    push_string(&mut pv_args, lit("-f"));
    extend_strings(&mut pv_args, &mds);
    assert(strings_view(pv_args@) =~= seq!["-f"@] + mdv);
    let b1 = BuildStep {
        command: new_command("pvcreate", pv_args),
        undo: Some(RollbackStep::PvCreated { md_devices: clone_strings(&mds) }),
    };
    assert(b1@ == StepView { command: cmd("pvcreate"@, seq!["-f"@] + mdv), undo: Some(RollbackView::PvCreated(mdv)) });
    push_step(&mut steps, b1);
    let mut vg_args: Vec<String> = Vec::new();
    push_string(&mut vg_args, vg.clone());
    extend_strings(&mut vg_args, &mds);
    assert(strings_view(vg_args@) =~= seq![vgv] + mdv);
    let b2 = BuildStep {
        command: new_command("vgcreate", vg_args),
        undo: Some(RollbackStep::VgCreated { vg_name: vg.clone() }),
    };
    assert(b2@ == StepView { command: cmd("vgcreate"@, seq![vgv] + mdv), undo: Some(RollbackView::VgCreated(vgv)) });
    push_step(&mut steps, b2);
    let mut lv_args: Vec<String> = Vec::new();
    push_string(&mut lv_args, lit("-l"));
    push_string(&mut lv_args, lit("100%FREE"));
    push_string(&mut lv_args, lit("-n"));
    push_string(&mut lv_args, lit("data"));
    push_string(&mut lv_args, vg.clone());
    let b3 = BuildStep {
        command: new_command("lvcreate", lv_args),
        undo: Some(RollbackStep::LvCreated { vg_name: vg.clone(), lv_name: lit("data") }),
    };
    assert(strings_view(lv_args@) =~= seq!["-l"@, "100%FREE"@, "-n"@, "data"@, vgv]);
    push_step(&mut steps, b3);
    let b4 = BuildStep { command: new_command("mkfs.btrfs", args2(lit("-f"), lv.clone())), undo: None };
    push_step(&mut steps, b4);
    let b5 = BuildStep { command: new_command("mkdir", args2(lit("-p"), mp.clone())), undo: None };
    push_step(&mut steps, b5);
    let b6 = BuildStep {
        command: new_command("mount", args2(lv.clone(), mp.clone())),
        undo: Some(RollbackStep::Mounted { mount_point: mp }),
    };
    push_step(&mut steps, b6);
    proof {
        let fm = format_and_mount_commands(mpv, lvv);
        let vs = seq![
            StepView { command: cmd("pvcreate"@, seq!["-f"@] + mdv), undo: Some(RollbackView::PvCreated(mdv)) },
            StepView { command: cmd("vgcreate"@, seq![vgv] + mdv), undo: Some(RollbackView::VgCreated(vgv)) },
            StepView {
                command: cmd("lvcreate"@, seq!["-l"@, "100%FREE"@, "-n"@, "data"@, vgv]),
                undo: Some(RollbackView::LvCreated(vgv, "data"@)),
            },
            StepView { command: fm[0], undo: None },
            StepView { command: fm[1], undo: None },
            StepView { command: fm[2], undo: Some(RollbackView::Mounted(mpv)) },
        ];
        assert(vs =~= volume_steps(pool@, pl));
        assert(steps_view(steps@) =~= s0.push(b1@).push(b2@).push(b3@).push(b4@).push(b5@).push(b6@));
        assert(steps_view(steps@) =~= s0 + vs);
        assert(steps_view(steps@) =~= layered_steps(pool@, pl));
    }
    steps
}


fn clone_rollback(r: &RollbackStep) -> (c: RollbackStep)
    ensures
        c@ == r@,
{
    match r {
        RollbackStep::PartitionCreated { disk } => RollbackStep::PartitionCreated { disk: disk.clone() },
        RollbackStep::MdadmArrayCreated { md_device } => RollbackStep::MdadmArrayCreated { md_device: md_device.clone() },
        RollbackStep::PvCreated { md_devices } => RollbackStep::PvCreated { md_devices: clone_strings(md_devices) },
        RollbackStep::VgCreated { vg_name } => RollbackStep::VgCreated { vg_name: vg_name.clone() },
        RollbackStep::LvCreated { vg_name, lv_name } => RollbackStep::LvCreated {
            vg_name: vg_name.clone(),
            lv_name: lv_name.clone(),
        },
        RollbackStep::Mounted { mount_point } => RollbackStep::Mounted { mount_point: mount_point.clone() },
    }
}

fn push_command(v: &mut Vec<WorkerCommand>, c: WorkerCommand)
    ensures
        commands_view(final(v)@) == commands_view(old(v)@).push(c@),
{
    let ghost before = v@;
    v.push(c);
    assert(commands_view(v@) =~= commands_view(before).push(c@));
}

fn push_undo_commands(out: &mut Vec<WorkerCommand>, r: &RollbackStep)
    ensures
        commands_view(final(out)@) == commands_view(old(out)@) + undo_commands(r@),
{
    match r {
        RollbackStep::Mounted { mount_point } => {
            push_command(out, new_command("umount", args2(lit("-f"), mount_point.clone())));
            push_command(out, new_command("rmdir", args1(mount_point.clone())));
            assert(commands_view(out@) =~= commands_view(old(out)@) + undo_commands(r@));
        },
        RollbackStep::LvCreated { vg_name, lv_name } => {
            let mut target = vg_name.clone();
            target.append("/");
            target.append(lv_name.as_str());
            push_command(out, new_command("lvremove", args2(lit("-f"), target)));
            assert(commands_view(out@) =~= commands_view(old(out)@) + undo_commands(r@));
        },
        RollbackStep::VgCreated { vg_name } => {
            push_command(out, new_command("vgremove", args2(lit("-f"), vg_name.clone())));
            assert(commands_view(out@) =~= commands_view(old(out)@) + undo_commands(r@));
        },
        RollbackStep::PvCreated { md_devices } => {
            let ghost mv = strings_view(md_devices@);
            let ghost want = mv.map_values(|md: Seq<char>| cmd("pvremove"@, seq!["-f"@, md]));
            let mut i: usize = 0;
            while i < md_devices.len()
                invariant
                    i <= md_devices.len(),
                    mv == strings_view(md_devices@),
                    want == mv.map_values(|md: Seq<char>| cmd("pvremove"@, seq!["-f"@, md])),
                    commands_view(out@) == commands_view(old(out)@) + want.take(i as int),
                decreases md_devices.len() - i,
            {
                push_command(out, new_command("pvremove", args2(lit("-f"), md_devices[i].clone())));
                i = i + 1;
                assert(commands_view(out@) =~= commands_view(old(out)@) + want.take(i as int));
            }
            assert(want.take(md_devices.len() as int) =~= want);
            assert(commands_view(out@) =~= commands_view(old(out)@) + undo_commands(r@));
        },
        RollbackStep::MdadmArrayCreated { md_device } => {
            push_command(out, new_command("mdadm", args2(lit("--stop"), md_device.clone())));
            push_command(out, new_command("mdadm", args2(lit("--zero-superblock"), md_device.clone())));
            assert(commands_view(out@) =~= commands_view(old(out)@) + undo_commands(r@));
        },
        RollbackStep::PartitionCreated { disk } => {
            let mut of = lit("of=/dev/");
            of.append(disk.as_str());
            let mut a: Vec<String> = Vec::new();
            push_string(&mut a, lit("if=/dev/zero"));
            push_string(&mut a, of);
            push_string(&mut a, lit("bs=1M"));
            push_string(&mut a, lit("count=10"));
            push_string(&mut a, lit("oflag=direct"));
            assert(strings_view(a@) =~= seq!["if=/dev/zero"@, "of=/dev/"@ + disk@, "bs=1M"@, "count=10"@, "oflag=direct"@]);
            push_command(out, new_command("dd", a));
            push_command(out, new_command("blockdev", args2(lit("--rereadpt"), dev_path_exec(disk.as_str()))));
            assert(commands_view(out@) =~= commands_view(old(out)@) + undo_commands(r@));
        },
    }
}

/// The commands that undo a stack of resources, the most recent one first.
pub fn rollback_plan(stack: &Vec<RollbackStep>) -> (r: Vec<WorkerCommand>)
    ensures
        commands_view(r@) == rollback_commands(rollbacks_view(stack@)),
{
    let mut out: Vec<WorkerCommand> = Vec::new();
    let mut i: usize = stack.len();
    assert(rollbacks_view(stack@).take(stack.len() as int) =~= rollbacks_view(stack@));
    assert(commands_view(out@) =~= Seq::<CommandView>::empty());
    while i > 0
        invariant
            i <= stack.len(),
            commands_view(out@) + rollback_commands(rollbacks_view(stack@).take(i as int))
                == rollback_commands(rollbacks_view(stack@)),
        decreases i,
    {
        let ghost before = commands_view(out@);
        push_undo_commands(&mut out, &stack[i - 1]);
        proof {
            let t = rollbacks_view(stack@).take(i as int);
            assert(t.drop_last() =~= rollbacks_view(stack@).take(i - 1));
            assert(t.last() == stack@[i - 1]@);
            assert(before + (undo_commands(t.last()) + rollback_commands(t.drop_last()))
                =~= (before + undo_commands(t.last())) + rollback_commands(t.drop_last()));
        }
        i = i - 1;
    }
    assert(rollbacks_view(stack@).take(0) =~= Seq::<RollbackView>::empty());
    assert(commands_view(out@) + Seq::<CommandView>::empty() =~= commands_view(out@));
    out
}

/// The resources left behind by the first `n` steps of a build, oldest first.
pub fn completed_resources(steps: &Vec<BuildStep>, n: usize) -> (r: Vec<RollbackStep>)
    requires
        n <= steps.len(),
    ensures
        rollbacks_view(r@) == done_resources(steps_view(steps@), n as int),
{
    let mut r: Vec<RollbackStep> = Vec::new();
    let mut i: usize = 0;
    assert(rollbacks_view(r@) =~= Seq::<RollbackView>::empty());
    while i < n
        invariant
            i <= n <= steps.len(),
            rollbacks_view(r@) == done_resources(steps_view(steps@), i as int),
        decreases n - i,
    {
        match &steps[i].undo {
            Some(u) => {
                let c = clone_rollback(u);
                let ghost before = r@;
                r.push(c);
                assert(rollbacks_view(r@) =~= rollbacks_view(before).push(c@));
            },
            None => {},
        }
        assert(steps_view(steps@)[i as int] == steps@[i as int]@);
        i = i + 1;
    }
    r
}

/// Refusal when another build holds the storage lock.
pub open spec fn lock_busy_text(tx_id: Seq<char>) -> Seq<char> {
    "🚨 [TXID: "@ + tx_id + "] [접근 거부] 다른 스토리지 빌드 공정이 커널을 점유 중입니다."@
}

pub fn lock_busy_message(tx_id: &str) -> (r: String)
    ensures
        r@ == lock_busy_text(tx_id@),
{
    let mut r = lit("🚨 [TXID: ");
    r.append(tx_id);
    r.append("] [접근 거부] 다른 스토리지 빌드 공정이 커널을 점유 중입니다.");
    r
}

/// Refusal when the storage lock cannot be written; `reason` is the I/O error.
pub fn lock_failed_message(reason: &str) -> (r: String)
    ensures
        r@ == "❌ 락 파일 생성 실패: "@ + reason@,
{
    let mut r = lit("❌ 락 파일 생성 실패: ");
    r.append(reason);
    r
}

/// Refusal when the size of disk `disk` cannot be read or parsed.
pub fn disk_scan_failed_message(disk: &str, reason: &str) -> (r: String)
    ensures
        r@ == "❌ 디스크 "@ + disk@ + " 스캔 실패: "@ + reason@,
{
    let mut r = lit("❌ 디스크 ");
    r.append(disk);
    r.append(" 스캔 실패: ");
    r.append(reason);
    r
}

/// The first of `disks` (in order) that is the system disk or occurs in the
/// list of mounted sources decides the refusal; otherwise the disks may be used.
pub open spec fn build_disks_check(disks: Seq<Seq<char>>, sys_disk: Seq<char>, mounted: Seq<char>) -> Result<
    (),
    Seq<char>,
>
    decreases disks.len(),
{
    if disks.len() == 0 {
        Ok(())
    } else if disks[0] == sys_disk {
        Err("🚨 [빌드 거부] '/dev/"@ + disks[0] + "'는 가람OS 메인 시스템 디스크입니다!\n"@)
    } else if has_infix(mounted, disks[0]) {
        Err("🚨 [빌드 거부] '/dev/"@ + disks[0] + "'는 현재 활성 장치입니다!\n"@)
    } else {
        build_disks_check(disks.drop_first(), sys_disk, mounted)
    }
}

/// Refuses a build that would touch the system disk or a mounted device.
pub fn check_build_disks(raw_disks: &Vec<String>, sys_os_disk: &str, mounted_sources: &str) -> (r: Result<(), String>)
    ensures
        match r {
            Ok(()) => build_disks_check(strings_view(raw_disks@), sys_os_disk@, mounted_sources@) == Ok::<(), Seq<char>>(()),
            Err(e) => build_disks_check(strings_view(raw_disks@), sys_os_disk@, mounted_sources@) == Err::<(), Seq<char>>(e@),
        },
{
    let mounted = chars_of(mounted_sources);
    let mut i: usize = 0;
    let ghost all = strings_view(raw_disks@);
    assert(all.skip(0) =~= all);
    while i < raw_disks.len()
        invariant
            i <= raw_disks.len(),
            all == strings_view(raw_disks@),
            mounted@ == mounted_sources@,
            build_disks_check(all, sys_os_disk@, mounted_sources@)
                == build_disks_check(all.skip(i as int), sys_os_disk@, mounted_sources@),
        decreases raw_disks.len() - i,
    {
        let d = &raw_disks[i];
        assert(all.skip(i as int)[0] == d@);
        if str_equals(d.as_str(), sys_os_disk) {
            let mut e = lit("🚨 [빌드 거부] '/dev/");
            e.append(d.as_str());
            e.append("'는 가람OS 메인 시스템 디스크입니다!\n");
            return Err(e);
        }
        let dc = chars_of(d.as_str());
        if contains_chars(mounted.as_slice(), dc.as_slice()) {
            let mut e = lit("🚨 [빌드 거부] '/dev/");
            e.append(d.as_str());
            e.append("'는 현재 활성 장치입니다!\n");
            return Err(e);
        }
        assert(all.skip(i as int).drop_first() =~= all.skip(i + 1));
        i = i + 1;
    }
    assert(all.skip(i as int) =~= Seq::<Seq<char>>::empty());
    Ok(())
}

/// The size in bytes of a disk whose sysfs `size` file reads `text` (a count
/// of 512-byte sectors), or the parse error's text.
pub open spec fn disk_bytes_from_text(text: Seq<char>) -> Result<nat, Seq<char>> {
    match parse_unsigned(trim_ws(text), u64::MAX as nat) {
        Ok(v) => Ok(v * 512),
        Err(e) => Err(int_error_text(e)),
    }
}

/// Reads a sysfs sector count and turns it into bytes.
pub fn disk_bytes_from_sectors(text: &str) -> (r: Result<u64, String>)
    requires
        disk_bytes_from_text(text@) is Ok ==> disk_bytes_from_text(text@)->Ok_0 <= u64::MAX,
    ensures
        match r {
            Ok(v) => disk_bytes_from_text(text@) == Ok::<nat, Seq<char>>(v as nat),
            Err(e) => disk_bytes_from_text(text@) == Err::<nat, Seq<char>>(e@),
        },
{
    let t = trim_str(text);
    let c = chars_of(t.as_str());
    match parse_unsigned_chars(c.as_slice(), u64::MAX) {
        Ok(v) => Ok(v * 512),
        Err(e) => Err(int_error_string(e)),
    }
}


/// Reads a sysfs sector count and turns it into bytes, or `None` when the
/// count parses but its bytes do not fit in 64 bits (where the plain
/// [`disk_bytes_from_sectors`] may not be called).
pub fn disk_bytes_checked(text: &str) -> (r: Option<Result<u64, String>>)
    ensures
        r is None <==> (disk_bytes_from_text(text@) is Ok && disk_bytes_from_text(text@)->Ok_0 > u64::MAX),
        r matches Some(x) ==> match x {
            Ok(v) => disk_bytes_from_text(text@) == Ok::<nat, Seq<char>>(v as nat),
            Err(e) => disk_bytes_from_text(text@) == Err::<nat, Seq<char>>(e@),
        },
{
    let t = trim_str(text);
    let c = chars_of(t.as_str());
    match parse_unsigned_chars(c.as_slice(), u64::MAX) {
        Ok(v) => {
            if v > 36028797018963967 {
                None
            } else {
                Some(disk_bytes_from_sectors(text))
            }
        },
        Err(_) => Some(disk_bytes_from_sectors(text)),
    }
}

/// What a build does once its disks are checked and sized.
pub enum BuildPlan {
    /// Stop with this error; nothing runs.
    Refused(String),
    /// Stop with this success message; nothing runs (a dry run).
    Finished(String),
    /// Run the steps in order; on success report `success`; on the first
    /// failure, undo the completed steps if `rollback_on_failure`.
    Run { steps: Vec<BuildStep>, success: String, rollback_on_failure: bool },
}

pub enum BuildPlanView {
    Refused(Seq<char>),
    Finished(Seq<char>),
    Run { steps: Seq<StepView>, success: Seq<char>, rollback_on_failure: bool },
}

impl View for BuildPlan {
    type V = BuildPlanView;

    open spec fn view(&self) -> BuildPlanView {
        match self {
            BuildPlan::Refused(e) => BuildPlanView::Refused(e@),
            BuildPlan::Finished(m) => BuildPlanView::Finished(m@),
            BuildPlan::Run { steps, success, rollback_on_failure } => BuildPlanView::Run {
                steps: steps_view(steps@),
                success: success@,
                rollback_on_failure: *rollback_on_failure,
            },
        }
    }
}

/// The slicing answer of the engine named `engine`, or `None` for an engine
/// that does not exist.
pub open spec fn engine_blueprint(engine: Seq<char>, d: Seq<DiskEntry>) -> Option<Result<Seq<PlanView>, Seq<char>>> {
    if engine == "hybrid"@ {
        Some(Ok(ghs_blueprint(d)))
    } else if engine == "zfs"@ {
        Some(zfs_blueprint(d))
    } else if engine == "lvm"@ || engine == "btrfs"@ {
        Some(lvm_blueprint(d))
    } else {
        None
    }
}

/// The `zpool` vdev keyword of a RAID level.
pub open spec fn zfs_vdev_word(r: GhsRaidType) -> Seq<char> {
    match r {
        GhsRaidType::Raid1 => "mirror"@,
        GhsRaidType::Raid5 => "raidz"@,
        GhsRaidType::SafeSingle => ""@,
    }
}

/// `zpool create` arguments: the pool, the vdev keyword when there is one,
/// then the disks.
pub open spec fn zpool_args(pool: Seq<char>, p: PlanView) -> Seq<Seq<char>> {
    let w = zfs_vdev_word(p.raid_type);
    (if w.len() == 0 {
        seq!["create"@, pool]
    } else {
        seq!["create"@, pool, w]
    }) + p.targets.map_values(|t: TargetView| t.disk_name)
}

pub open spec fn layered_report(pool: Seq<char>) -> Seq<char> {
    "🏗️ [가람 소켓 트랜잭션] '"@ + pool + "' 물리 매립 공정 집행서\n"@ + "🟢 [완공 보증] 가람 GFS 인프라 원자적 타설 완료 ➔ /storage/"@
        + pool + "\n"@
}

/// The plan of a build of pool `pool` with engine `engine` over disks `d`
/// (name, bytes). Each slice is built at its plan's RAID level, so the
/// requested RAID text `raid` does not change the plan.
pub open spec fn build_plan(
    pool: Seq<char>,
    engine: Seq<char>,
    raid: Seq<char>,
    d: Seq<DiskEntry>,
    dry_run: bool,
    tx: Seq<char>,
) -> BuildPlanView {
    match engine_blueprint(engine, d) {
        None => BuildPlanView::Refused("❌ 지원하지 않는 엔진: "@ + engine),
        Some(Err(e)) => BuildPlanView::Refused(e),
        Some(Ok(plans)) => if engine == "zfs"@ {
            if plans.len() == 0 {
                BuildPlanView::Refused("❌ ZFS 도면 명세 유실"@)
            } else if dry_run {
                BuildPlanView::Finished(
                    "🔍 [ZFS 드라이런 통과] zpool create "@ + pool + " "@ + zfs_vdev_word(plans[0].raid_type) + "\n"@,
                )
            } else {
                BuildPlanView::Run {
                    steps: seq![StepView { command: cmd("zpool"@, zpool_args(pool, plans[0])), undo: None }],
                    success: "🟢 [ZFS 완공] 가람 ZFS 풀 '"@ + pool + "' 안착 완공.\n"@,
                    rollback_on_failure: false,
                }
            }
        } else if dry_run {
            BuildPlanView::Finished("🔍 [TXID: "@ + tx + "] [드라이런 성공] '"@ + pool + "' 풀 가상 트랜잭션 도면 패스 완료.\n"@)
        } else {
            BuildPlanView::Run {
                steps: layered_steps(pool, plans),
                success: layered_report(pool),
                rollback_on_failure: true,
            }
        },
    }
}

fn zfs_vdev_word_exec(r: GhsRaidType) -> (w: String)
    ensures
        w@ == zfs_vdev_word(r),
{
    match r {
        GhsRaidType::Raid1 => lit("mirror"),
        GhsRaidType::Raid5 => lit("raidz"),
        GhsRaidType::SafeSingle => lit(""),
    }
}

fn zpool_args_exec(pool: &str, p: &GhsSlicePlan) -> (r: Vec<String>)
    ensures
        strings_view(r@) == zpool_args(pool@, p@),
{
    let w = zfs_vdev_word_exec(p.raid_type);
    let mut args: Vec<String> = Vec::new();
    push_string(&mut args, lit("create"));
    push_string(&mut args, lit(pool));
    if w.unicode_len() != 0 {
        push_string(&mut args, w);
    }
    let ghost head = strings_view(args@);
    let ghost names = p@.targets.map_values(|t: TargetView| t.disk_name);
    let mut i: usize = 0;
    while i < p.targets.len()
        invariant
            i <= p.targets.len(),
            names == p@.targets.map_values(|t: TargetView| t.disk_name),
            strings_view(args@) == head + names.take(i as int),
        decreases p.targets.len() - i,
    {
        push_string(&mut args, p.targets[i].disk_name.clone());
        proof {
            assert(p@.targets[i as int] == p.targets@[i as int]@);
        }
        i = i + 1;
        assert(strings_view(args@) =~= head + names.take(i as int));
    }
    assert(names.take(p.targets.len() as int) =~= names);
    args
}

/// The plan of a build: see [`build_plan`]. The hybrid engine needs its
/// disks [`plannable`].
pub fn plan_build(
    pool_name: &str,
    engine_type: &str,
    raid_type: &str,
    disks: &Vec<(String, u64)>,
    dry_run: bool,
    tx_id: &str,
) -> (r: BuildPlan)
    requires
        engine_type@ == "hybrid"@ ==> plannable(disks_view(disks@)),
    ensures
        r@ == build_plan(pool_name@, engine_type@, raid_type@, disks_view(disks@), dry_run, tx_id@),
{
    let is_zfs = str_equals(engine_type, "zfs");
    let answer = if str_equals(engine_type, "hybrid") {
        GhsBackend.generate_blueprint(pool_name, disks.as_slice())
    } else if is_zfs {
        ZfsBackend.generate_blueprint(pool_name, disks.as_slice())
    } else if str_equals(engine_type, "lvm") || str_equals(engine_type, "btrfs") {
        LvmBackend.generate_blueprint(pool_name, disks.as_slice())
    } else {
        let mut e = lit("❌ 지원하지 않는 엔진: ");
        e.append(engine_type);
        return BuildPlan::Refused(e);
    };

    let blueprints = match answer {
        Ok(b) => b,
        Err(e) => {
            return BuildPlan::Refused(e);
        },
    };
    if is_zfs {
        if blueprints.len() == 0 {
            return BuildPlan::Refused(lit("❌ ZFS 도면 명세 유실"));
        }
        let plan = &blueprints[0];
        if dry_run {
            let mut m = lit("🔍 [ZFS 드라이런 통과] zpool create ");
            m.append(pool_name);
            m.append(" ");
            let w = zfs_vdev_word_exec(plan.raid_type);
            m.append(w.as_str());
            m.append("\n");
            return BuildPlan::Finished(m);
        }
        let mut steps: Vec<BuildStep> = Vec::new();
        push_step(&mut steps, BuildStep { command: new_command("zpool", zpool_args_exec(pool_name, plan)), undo: None });
        let mut success = lit("🟢 [ZFS 완공] 가람 ZFS 풀 '");
        success.append(pool_name);
        success.append("' 안착 완공.\n");
        assert(steps_view(steps@) =~= seq![
            StepView { command: cmd("zpool"@, zpool_args(pool_name@, plans_view(blueprints@)[0])), undo: None },
        ]);
        return BuildPlan::Run { steps, success, rollback_on_failure: false };
    }
    if dry_run {
        let mut m = lit("🔍 [TXID: ");
        m.append(tx_id);
        m.append("] [드라이런 성공] '");
        m.append(pool_name);
        m.append("' 풀 가상 트랜잭션 도면 패스 완료.\n");
        return BuildPlan::Finished(m);
    }
    let steps = layered_build_steps(pool_name, &blueprints);
    let mut report = lit("🏗️ [가람 소켓 트랜잭션] '");
    report.append(pool_name);
    report.append("' 물리 매립 공정 집행서\n");
    report.append("🟢 [완공 보증] 가람 GFS 인프라 원자적 타설 완료 ➔ /storage/");
    report.append(pool_name);
    report.append("\n");
    BuildPlan::Run { steps, success: report, rollback_on_failure: true }
}

/// After step `failed_at` failed with `reason`: the commands that undo the
/// steps before it (newest resource first) and the error to report, or no
/// commands and the reason itself where the plan does not roll back.
pub open spec fn failure_outcome_spec(
    rollback_on_failure: bool,
    steps: Seq<StepView>,
    failed_at: int,
    reason: Seq<char>,
    tx: Seq<char>,
) -> (Seq<CommandView>, Seq<char>) {
    if rollback_on_failure {
        (
            rollback_commands(done_resources(steps, failed_at)),
            "❌ [TXID: "@ + tx + "] [롤백 완공] 설정된 소켓 관로를 백트랙하여 클린 철수 성공. (사유: "@ + reason + ")"@,
        )
    } else {
        (seq![], reason)
    }
}

/// What to do when step `failed_at` of `steps` failed: see [`failure_outcome_spec`].
pub fn failure_outcome(
    rollback_on_failure: bool,
    steps: &Vec<BuildStep>,
    failed_at: usize,
    reason: &str,
    tx_id: &str,
) -> (r: (Vec<WorkerCommand>, String))
    requires
        failed_at <= steps.len(),
    ensures
        (commands_view(r.0@), r.1@) == failure_outcome_spec(
            rollback_on_failure,
            steps_view(steps@),
            failed_at as int,
            reason@,
            tx_id@,
        ),
{
    if rollback_on_failure {
        let stack = completed_resources(steps, failed_at);
        let cmds = rollback_plan(&stack);
        let mut m = lit("❌ [TXID: ");
        m.append(tx_id);
        m.append("] [롤백 완공] 설정된 소켓 관로를 백트랙하여 클린 철수 성공. (사유: ");
        m.append(reason);
        m.append(")");
        (cmds, m)
    } else {
        let cmds: Vec<WorkerCommand> = Vec::new();
        assert(commands_view(cmds@) =~= Seq::<CommandView>::empty());
        (cmds, lit(reason))
    }
}


/// What the build driver does next.
pub enum BuildAction {
    /// Run step `i` of the plan.
    RunStep(usize),
    /// Run these undo commands in order (their failures are ignored), then
    /// report this error.
    RollBack(Vec<WorkerCommand>, String),
    /// Report success with this message.
    Succeed(String),
}

/// The driver's next move in running `steps`: the first `done` steps have
/// succeeded, and `failure` is the error of step `done` when it failed. Steps
/// run one after another; the first failure ends the build with the rollback
/// of [`failure_outcome`]; when all have run, the build succeeds.
pub fn next_build_action(
    steps: &Vec<BuildStep>,
    success: &str,
    rollback_on_failure: bool,
    done: usize,
    failure: Option<&str>,
    tx_id: &str,
) -> (r: BuildAction)
    requires
        done <= steps.len(),
        failure is Some ==> done < steps.len(),
    ensures
        failure is None && done < steps.len() ==> (r matches BuildAction::RunStep(i) && i == done),
        failure is None && done == steps.len() ==> (r matches BuildAction::Succeed(m) && m@ == success@),
        failure matches Some(reason) ==> (r matches BuildAction::RollBack(cmds, msg) && (commands_view(cmds@), msg@)
            == failure_outcome_spec(rollback_on_failure, steps_view(steps@), done as int, reason@, tx_id@)),
{
    match failure {
        Some(reason) => {
            let (cmds, msg) = failure_outcome(rollback_on_failure, steps, done, reason, tx_id);
            BuildAction::RollBack(cmds, msg)
        },
        None => if done < steps.len() {
            BuildAction::RunStep(done)
        } else {
            BuildAction::Succeed(lit(success))
        },
    }
}

/// Only formatting and creating the mount point leave nothing to undo.
pub open spec fn leaves_nothing(c: CommandView) -> bool {
    c.command == "mkfs.btrfs"@ || c.command == "mkdir"@
}

proof fn lemma_command_words_differ()
    ensures
        "sfdisk"@ != "mkfs.btrfs"@,
        "sfdisk"@ != "mkdir"@,
        "mdadm"@ != "mkfs.btrfs"@,
        "mdadm"@ != "mkdir"@,
        "pvcreate"@ != "mkfs.btrfs"@,
        "pvcreate"@ != "mkdir"@,
        "vgcreate"@ != "mkfs.btrfs"@,
        "vgcreate"@ != "mkdir"@,
        "lvcreate"@ != "mkfs.btrfs"@,
        "lvcreate"@ != "mkdir"@,
        "mount"@ != "mkfs.btrfs"@,
        "mount"@ != "mkdir"@,
{
    reveal_strlit("sfdisk");
    reveal_strlit("mkfs.btrfs");
    reveal_strlit("mkdir");
    reveal_strlit("mdadm");
    reveal_strlit("pvcreate");
    reveal_strlit("vgcreate");
    reveal_strlit("lvcreate");
    reveal_strlit("mount");
    assert("sfdisk"@.len() == 6);
    assert("mkfs.btrfs"@.len() == 10);
    assert("mkdir"@.len() == 5);
    assert("mdadm"@.len() == 5);
    assert("pvcreate"@.len() == 8);
    assert("vgcreate"@.len() == 8);
    assert("lvcreate"@.len() == 8);
    assert("mount"@.len() == 5);
    assert("mdadm"@[1] != "mkdir"@[1]);
    assert("mount"@[1] != "mkdir"@[1]);
}

proof fn lemma_slice_steps_undoable(pool: Seq<char>, plans: Seq<PlanView>)
    ensures
        forall|k: int|
            0 <= k < all_slice_steps(pool, plans).len() ==> (#[trigger] all_slice_steps(pool, plans)[k]).undo
                is Some && !leaves_nothing(all_slice_steps(pool, plans)[k].command),
    decreases plans.len(),
{
    lemma_command_words_differ();
    if plans.len() > 0 {
        lemma_slice_steps_undoable(pool, plans.drop_last());
        let a = all_slice_steps(pool, plans.drop_last());
        let b = slice_steps(pool, plans.last());
        let all = all_slice_steps(pool, plans);
        assert forall|k: int| 0 <= k < all.len() implies (#[trigger] all[k]).undo is Some && !leaves_nothing(all[k].command) by {
            if k < a.len() {
                assert(all[k] == a[k]);
            } else {
                assert(all[k] == b[k - a.len()]);
                let p = plans.last();
                if k - a.len() < p.targets.len() {
                    assert(b[k - a.len()] == partition_step(p.targets[k - a.len()], p.chunk_size_bytes));
                } else {
                    assert(b[k - a.len()] == mdadm_step(pool, p));
                }
            }
        }
    }
}

/// Every step of a layered build that creates something records what it
/// created, so that a rollback can remove it: only the formatting and the
/// creation of the mount point leave no rollback entry.
pub proof fn law_layered_steps_are_undoable(pool: Seq<char>, plans: Seq<PlanView>)
    ensures
        forall|k: int|
            0 <= k < layered_steps(pool, plans).len() ==> ((#[trigger] layered_steps(pool, plans)[k]).undo
                is None <==> leaves_nothing(layered_steps(pool, plans)[k].command)),
{
    lemma_command_words_differ();
    lemma_slice_steps_undoable(pool, plans);
    let a = all_slice_steps(pool, plans);
    let v = volume_steps(pool, plans);
    let all = layered_steps(pool, plans);
    assert forall|k: int| 0 <= k < all.len() implies ((#[trigger] all[k]).undo is None <==> leaves_nothing(all[k].command)) by {
        if k < a.len() {
            assert(all[k] == a[k]);
        } else {
            assert(all[k] == v[k - a.len()]);
            let fm = format_and_mount_commands(pool_mount_point(pool), logical_volume(pool));
            assert(fm[0].command == "mkfs.btrfs"@);
            assert(fm[1].command == "mkdir"@);
            assert(fm[2].command == "mount"@);
        }
    }
}

/// A dry run never runs a command.
pub proof fn law_dry_run_runs_nothing(
    pool: Seq<char>,
    engine: Seq<char>,
    raid: Seq<char>,
    d: Seq<DiskEntry>,
    tx: Seq<char>,
)
    ensures
        !(build_plan(pool, engine, raid, d, true, tx) is Run),
{
}

/// A build that passes the disk check touches neither the system disk nor a
/// device that occurs among the mounted sources.
pub proof fn law_checked_disks_are_free(disks: Seq<Seq<char>>, sys_disk: Seq<char>, mounted: Seq<char>)
    requires
        build_disks_check(disks, sys_disk, mounted) is Ok,
    ensures
        forall|i: int| 0 <= i < disks.len() ==> #[trigger] disks[i] != sys_disk && !has_infix(mounted, disks[i]),
    decreases disks.len(),
{
    if disks.len() > 0 {
        law_checked_disks_are_free(disks.drop_first(), sys_disk, mounted);
        assert forall|i: int| 0 <= i < disks.len() implies #[trigger] disks[i] != sys_disk && !has_infix(mounted, disks[i]) by {
            if i > 0 {
                assert(disks[i] == disks.drop_first()[i - 1]);
            }
        }
    }
}

/// A failed build with rollback removes the resources of the completed steps
/// newest first: the undo commands of the last completed resource come
/// before those of the ones made earlier.
pub proof fn law_rollback_newest_first(stack: Seq<RollbackView>, r: RollbackView)
    ensures
        rollback_commands(stack.push(r)) == undo_commands(r) + rollback_commands(stack),
{
    assert(stack.push(r).drop_last() =~= stack);
}

/// Every array of a layered build joins the pool: right after the slices, the
/// build turns the array of every slice, in slice order, into a physical
/// volume (and records all of them for the rollback), then puts all of them
/// into the pool's volume group.
pub proof fn law_every_array_joins_the_pool(pool: Seq<char>, plans: Seq<PlanView>)
    ensures
        ({
            let steps = layered_steps(pool, plans);
            let a = all_slice_steps(pool, plans).len() as int;
            &&& steps[a].command.command == "pvcreate"@
            &&& steps[a].command.args.len() == plans.len() + 1
            &&& steps[a].command.args[0] == "-f"@
            &&& forall|k: int|
                0 <= k < plans.len() ==> #[trigger] steps[a].command.args[k + 1] == md_device(pool, plans[k].slice_index)
            &&& steps[a].undo matches Some(RollbackView::PvCreated(m)) && m.len() == plans.len()
                && forall|k: int| 0 <= k < plans.len() ==> #[trigger] m[k] == md_device(pool, plans[k].slice_index)
            &&& steps[a + 1].command.command == "vgcreate"@
            &&& steps[a + 1].command.args.len() == plans.len() + 1
            &&& steps[a + 1].command.args[0] == "vg_"@ + pool
            &&& forall|k: int|
                0 <= k < plans.len() ==> #[trigger] steps[a + 1].command.args[k + 1] == md_device(pool, plans[k].slice_index)
        }),
{
    let steps = layered_steps(pool, plans);
    let a = all_slice_steps(pool, plans).len() as int;
    let v = volume_steps(pool, plans);
    let mds = md_devices(pool, plans);
    assert(steps[a] == v[0]);
    assert(steps[a + 1] == v[1]);
    assert forall|k: int| 0 <= k < plans.len() implies #[trigger] steps[a].command.args[k + 1] == md_device(pool, plans[k].slice_index) by {
        assert(steps[a].command.args[k + 1] == mds[k]);
    }
    assert forall|k: int| 0 <= k < plans.len() implies #[trigger] steps[a + 1].command.args[k + 1] == md_device(pool, plans[k].slice_index) by {
        assert(steps[a + 1].command.args[k + 1] == mds[k]);
    }
}

/// Undoing the physical volumes of a build removes every one of them, in
/// order, with `pvremove -f`; a rollback whose only resource is that set of
/// physical volumes runs exactly those commands.
pub proof fn law_undo_removes_every_physical_volume(mds: Seq<Seq<char>>)
    ensures
        undo_commands(RollbackView::PvCreated(mds)).len() == mds.len(),
        forall|k: int|
            0 <= k < mds.len() ==> (#[trigger] undo_commands(RollbackView::PvCreated(mds))[k]).command == "pvremove"@
                && undo_commands(RollbackView::PvCreated(mds))[k].args == seq!["-f"@, mds[k]]
                && undo_commands(RollbackView::PvCreated(mds))[k].stdin is None,
        rollback_commands(seq![RollbackView::PvCreated(mds)]) =~= undo_commands(RollbackView::PvCreated(mds)),
{
    let s = seq![RollbackView::PvCreated(mds)];
    assert(s.drop_last() =~= Seq::<RollbackView>::empty());
    assert(rollback_commands(s.drop_last()) =~= Seq::<CommandView>::empty());
    assert(undo_commands(RollbackView::PvCreated(mds)) + Seq::<CommandView>::empty() =~= undo_commands(RollbackView::PvCreated(mds)));
}

/// A slice is built as one partition per target, in target order, then one
/// array over all of them: each partition is appended to its disk by `sfdisk`
/// with the target's offset and the slice's chunk (in 512-byte sectors) on
/// its input; the array is created at the slice's RAID level with one device
/// per target, naming each target's partition in target order.
pub proof fn law_slice_partitions_then_array(pool: Seq<char>, p: PlanView)
    ensures
        slice_steps(pool, p).len() == p.targets.len() + 1,
        forall|k: int|
            0 <= k < p.targets.len() ==> {
                &&& (#[trigger] slice_steps(pool, p)[k]).command.command == "sfdisk"@
                &&& slice_steps(pool, p)[k].command.args == seq![
                    "--append"@,
                    "--no-reread"@,
                    "/dev/"@ + p.targets[k].disk_name,
                ]
                &&& slice_steps(pool, p)[k].command.stdin == Some(
                    "start="@ + decimal(p.targets[k].start_offset_bytes as nat / 512) + ", size="@ + decimal(
                        p.chunk_size_bytes as nat / 512,
                    ) + "\n"@,
                )
            },
        ({
            let m = slice_steps(pool, p)[p.targets.len() as int].command;
            &&& m.command == "mdadm"@
            &&& m.args.len() == 7 + p.targets.len()
            &&& m.args[0] == "--create"@
            &&& m.args[1] == "/dev/md_garam_"@ + pool + "_"@ + decimal(p.slice_index as nat)
            &&& m.args[5] == "--level="@ + match p.raid_type {
                GhsRaidType::Raid1 => "1"@,
                GhsRaidType::Raid5 => "5"@,
                GhsRaidType::SafeSingle => "linear"@,
            }
            &&& m.args[6] == "--raid-devices="@ + decimal(p.targets.len())
            &&& forall|k: int|
                0 <= k < p.targets.len() ==> #[trigger] m.args[7 + k] == "/dev/"@ + p.targets[k].disk_name + decimal(
                    p.targets[k].partition_index as nat,
                )
        }),
{
    let st = slice_steps(pool, p);
    let m = st[p.targets.len() as int].command;
    assert forall|k: int| 0 <= k < p.targets.len() implies #[trigger] m.args[7 + k] == "/dev/"@ + p.targets[k].disk_name
        + decimal(p.targets[k].partition_index as nat) by {
        assert(m.args[7 + k] == p.targets.map_values(|t: TargetView| part_device(t))[k]);
    }
}

} // verus!
