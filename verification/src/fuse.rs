//! File systems in user space: the transport to a daemon, and what the kernel
//! keeps of the file system that the daemon serves.

pub mod bodies;
pub mod cache;
pub mod closing;
pub mod conduct;
pub mod connection;
pub mod control;
pub mod creation;
pub mod directory;
pub mod errno;
pub mod file;
pub mod holdings;
pub mod ioctl;
pub mod keeping;
pub mod laws;
pub mod layout;
pub mod metadata;
pub mod mounts;
pub mod notice;
pub mod opening;
pub mod poll;
pub mod prepared;
pub mod ranges;
pub mod replies;
pub mod request;
pub mod superblock;
pub mod syncing;
pub mod teardown;
pub mod wire;
pub mod writeback;
