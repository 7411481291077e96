//! Docker integration.

pub mod authz;
