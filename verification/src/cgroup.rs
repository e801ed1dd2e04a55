//! Control groups.

pub mod admission;
pub mod agreement;
pub mod collections;
pub mod controls;
pub mod files;
pub mod forest;
pub mod identity;
pub mod laws;
pub mod limits;
pub mod listing;
pub mod lookup;
pub mod namespace;
pub mod nodes;
pub mod options;
pub mod outcomes;
pub mod paths;
pub mod peaks;
pub mod places;
pub mod registry;
pub mod rename;
pub mod transfer;
pub mod tree;
pub mod uclamp;
pub mod writes;
