# garam

The core of the Garam storage and hardware daemon, verified with Verus.

- `src/` is the library. `storage/` plans pools: the hybrid slicing planner
  (`ghs.rs`, with `ghs_order.rs` proving that the plan ignores the order of
  the disks), the ZFS and LVM planners, and `pipeline.rs`, which turns a plan
  into the worker commands of a build and the commands that undo a failed one.
  `hardware/` interprets what is read from the machine (`/sys/block`,
  `findmnt`, `smartctl`, hwmon, `/proc`). `common.rs` holds the socket request
  types, the pool-argument parser and the formatters; `daemon.rs` and `ctl.rs`
  hold the decisions of the daemon's control socket and of the command-line
  tool; `docker/authz.rs` is the resource policy of the docker authorization
  plugin. `text.rs` gives std's string operations verified counterparts.
- `app/` is the program around it: sockets, processes, files, the HTTP
  endpoint of the plugin, the command line, and what is computed in floating
  point.
- `tests/` runs the library on concrete inputs.
