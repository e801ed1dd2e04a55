//! The display nodes and the log socket.

use pseudofs::drm::{
    node_path, node_stat, sysfs_registrations, Mode, DRM_PRIMARY_DEVICE_ID, DRM_PRIMARY_NODE_MODE,
    DRM_RENDER_DEVICE_ID, DRM_RENDER_NODE_MODE, S_IFCHR,
};
use pseudofs::error::Error;
use pseudofs::log::{log_step, LogStep};
use pseudofs::registration::DeviceAttribute;

#[test]
fn primary_node_registers_linux_identity_and_opens_per_ofd() {
    let metadata = node_stat(false);
    assert_eq!(metadata.rdev, (226, 0));
    assert_eq!(metadata.mode & 0o7777, 0o600);
    assert_eq!(metadata.mode & !0o7777, S_IFCHR);
    assert_eq!(S_IFCHR, linux_raw_sys::general::S_IFCHR);
    assert_eq!(DRM_PRIMARY_DEVICE_ID, (226, 0));
    assert_eq!(DRM_PRIMARY_NODE_MODE, 0o600);
    assert_eq!(node_path(false), "/dev/dri/card0");
}

#[test]
fn a_render_node_has_a_number_of_its_own() {
    assert_eq!(node_stat(true).rdev, (226, 128));
    assert_eq!(DRM_RENDER_DEVICE_ID, (226, 128));
    assert_eq!(DRM_RENDER_NODE_MODE, 0o600);
    assert_eq!(node_path(true), "/dev/dri/renderD128");
}

#[test]
fn an_adapter_is_registered_with_its_connector() {
    let mode = Mode { width: 1280, height: 800 };
    let shown = sysfs_registrations(mode, false);
    assert_eq!(shown.len(), 2);
    assert_eq!(shown[0].name, b"card0");
    assert_eq!(shown[0].node, Some(((226, 0), b"dri/card0".to_vec())));
    assert_eq!(shown[1].name, b"card0-Virtual-1");
    assert_eq!(shown[1].parent, Some((b"virtio0".to_vec(), b"card0".to_vec())));
    match &shown[1].attributes[1] {
        DeviceAttribute::Text { name, value } => {
            assert_eq!(name, b"modes");
            assert_eq!(value, b"1280x800\n");
        }
        DeviceAttribute::Directory { .. } => panic!("a file"),
    }
    let rendering = sysfs_registrations(mode, true);
    assert_eq!(rendering.len(), 3);
    assert_eq!(rendering[2].node, Some(((226, 128), b"dri/renderD128".to_vec())));
}

#[test]
fn log_lines_lose_their_trailing_blanks() {
    assert!(matches!(log_step(Ok(b"hello \t\r\n")), LogStep::Line(line) if line == b"hello"));
    assert!(matches!(log_step(Ok(b" in front")), LogStep::Line(line) if line == b" in front"));
    assert!(matches!(log_step(Ok(b"\n \x0c")), LogStep::Skip));
    assert!(matches!(log_step(Ok(b"")), LogStep::Stop(None)));
    assert!(matches!(log_step(Err(Error::Io)), LogStep::Stop(Some(Error::Io))));
}
