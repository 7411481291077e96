//! The GFS file system finisher: the worker commands that format and mount a
//! pool's volume, and that snapshot it before a power loss.

use vstd::prelude::*;
use crate::text::strings_view;
use super::pipeline::{WorkerCommand, CommandView, cmd, commands_view, format_and_mount_commands, format_and_mount_exec};

verus! {

/// Formats and mounts volumes at one mount point, through the disk worker at
/// `worker_socket`.
pub struct GfsStorageManager {
    pub mount_point: String,
    pub worker_socket: String,
}

/// The transaction id under which the emergency snapshot runs.
pub open spec fn snapshot_tx() -> Seq<char> {
    "UPS-EMERG"@
}

/// The btrfs snapshot of `mount_point` named `name`, under `.snapshots`.
pub open spec fn snapshot_command(mount_point: Seq<char>, name: Seq<char>) -> CommandView {
    cmd(
        "btrfs"@,
        seq!["subvolume"@, "snapshot"@, mount_point, mount_point + "/.snapshots/"@ + name],
    )
}

impl GfsStorageManager {
    pub fn new(mount_point: &str, worker_socket: &str) -> (r: Self)
        ensures
            r.mount_point@ == mount_point@,
            r.worker_socket@ == worker_socket@,
    {
        Self { mount_point: String::from_str(mount_point), worker_socket: String::from_str(worker_socket) }
    }

    /// The commands that format `dev_path` with btrfs and mount it at the
    /// manager's mount point, in order.
    pub fn format_and_mount_commands(&self, dev_path: &str) -> (r: Vec<WorkerCommand>)
        ensures
            commands_view(r@) == format_and_mount_commands(self.mount_point@, dev_path@),
    {
        format_and_mount_exec(self.mount_point.as_str(), dev_path)
    }

    /// The transaction id and the command of an emergency snapshot.
    pub fn snapshot_command(&self, snapshot_name: &str) -> (r: (String, WorkerCommand))
        ensures
            r.0@ == snapshot_tx(),
            r.1@ == snapshot_command(self.mount_point@, snapshot_name@),
    {
        let mut snap_path = self.mount_point.clone();
        snap_path.append("/.snapshots/");
        snap_path.append(snapshot_name);
        let mut args: Vec<String> = Vec::new();
        args.push(String::from_str("subvolume"));
        args.push(String::from_str("snapshot"));
        args.push(self.mount_point.clone());
        args.push(snap_path);
        assert(strings_view(args@) =~= seq![
            "subvolume"@,
            "snapshot"@,
            self.mount_point@,
            self.mount_point@ + "/.snapshots/"@ + snapshot_name@,
        ]);
        (String::from_str("UPS-EMERG"), WorkerCommand { command: String::from_str("btrfs"), args, stdin: None })
    }
}

} // verus!
