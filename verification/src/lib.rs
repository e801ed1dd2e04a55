//! The logic of a kernel's pseudo file systems.
//!
//! What the kernel shows as files without any disk behind them: control groups,
//! input event devices, the display and its early screen, and file systems whose
//! daemon runs in user space.  This crate decides; the caller waits, wakes, copies
//! to user memory and talks to drivers, and hands the outcomes back.
//!
//! * [`cgroup`]: control groups, the processes in them, their limits and clamps.
//! * [`evdev`]: event devices, their open files and the directory of their nodes.
//! * [`fuse`]: the connection to a daemon, and what the kernel keeps of the file
//!   system that the daemon serves.
//! * [`scanout`], [`bootfb`], [`fb`], [`console_font`], [`early_screen`], [`drm`]:
//!   pixels, the firmware's framebuffer, the framebuffer device, the font, the
//!   screen before there is a console, and the display nodes.
//! * [`log`]: the socket that programs log to.
//! * [`registration`]: devices as the device registry shows them.
//! * [`error`], [`bytes`], [`text`]: failures, integers in byte images, and numbers
//!   and words in texts.

pub mod bootfb;
pub mod bytes;
pub mod cgroup;
pub mod console_font;
pub mod drm;
pub mod early_screen;
pub mod error;
pub mod evdev;
pub mod fb;
pub mod fuse;
pub mod log;
pub mod registration;
pub mod scanout;
pub mod text;
