//! Core logic of the Garam storage and hardware daemon: the command-line token
//! parser, the text formatters, the hybrid slicing planner and the storage build
//! pipeline planner, the hardware report parsers and the docker authorization policy.

pub mod text;
pub mod common;
pub mod storage;
pub mod hardware;
pub mod daemon;
pub mod ctl;
pub mod docker;
