//! Storage planning: the slicing planners of the three engines, and the plan
//! of the commands that build a pool and undo a failed build.

pub mod ghs;
pub mod zfs;
pub mod lvm;
pub mod pipeline;
pub mod gfs;
pub mod ghs_order;
pub mod backend;

pub use backend::{StorageBackend, blueprint_result_view};
