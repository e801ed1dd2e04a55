//! Input event devices.

pub mod bits;
pub mod client;
pub mod device;
pub mod event;
pub mod hex;
pub mod ioctl;
pub mod laws;
pub mod manager;
pub mod shown;
pub mod sysfs;
