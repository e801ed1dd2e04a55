//! The nodes of a display adapter.

use vstd::prelude::*;
use vstd::utf8::encode_utf8;
use crate::registration::{attribute, attribute_views, file, text, DeviceAttribute, Registration,
    RegistrationView};
use crate::text::{decimal, push_decimal, push_text};

verus! {

/// The device number of the primary node.
pub const DRM_PRIMARY_DEVICE_ID: (u32, u32) = (226, 0);

pub const DRM_PRIMARY_NODE_MODE: u16 = 0o600;

/// The device number of the render node.
pub const DRM_RENDER_DEVICE_ID: (u32, u32) = (226, 128);

/// The group that renders gets the node from the device manager.  Until then nobody else
/// has it.
pub const DRM_RENDER_NODE_MODE: u16 = 0o600;

/// The type bits of a character device.
pub const S_IFCHR: u32 = 0o020000;

/// The size of a picture.
#[derive(Clone, Copy, Debug, PartialEq, Eq, Structural)]
pub struct Mode {
    pub width: u32,
    pub height: u32,
}

/// The line that says what sizes there are.
pub open spec fn mode_line(mode: Mode) -> Seq<u8> {
    (decimal(mode.width as nat) + encode_utf8("x"@) + decimal(mode.height as nat)).push(10u8)
}

fn mode_text(mode: Mode) -> (line: Vec<u8>)
    ensures
        line@ == mode_line(mode),
{
    let mut line: Vec<u8> = Vec::new();
    push_decimal(&mut line, mode.width as u128);
    push_text(&mut line, "x");
    push_decimal(&mut line, mode.height as u128);
    line.push(10);
    assert(line@ =~= mode_line(mode));
    line
}

/// A node of the adapter.
pub open spec fn node_view(name: Seq<char>, number: (u32, u32), node: Seq<char>) -> RegistrationView {
    RegistrationView {
        root: encode_utf8("virtio0"@),
        subsystem: encode_utf8("drm"@),
        name: encode_utf8(name),
        parent: None,
        node: Some((number, encode_utf8(node))),
        device_type: encode_utf8("drm_minor"@),
        attributes: Seq::empty(),
        bus: None,
    }
}

/// The adapter's only output.
pub open spec fn connector_view(mode: Mode) -> RegistrationView {
    RegistrationView {
        root: encode_utf8("virtio0"@),
        subsystem: encode_utf8("drm"@),
        name: encode_utf8("card0-Virtual-1"@),
        parent: Some((encode_utf8("virtio0"@), encode_utf8("card0"@))),
        node: None,
        device_type: encode_utf8("drm_connector"@),
        attributes: seq![
            file("status"@, encode_utf8("connected\n"@)),
            file("modes"@, mode_line(mode)),
        ],
        bus: None,
    }
}

/// What is told of an adapter, in the order in which it is reserved and published: the
/// primary node, its output and, where the adapter renders, the render node.
pub open spec fn adapter_view(mode: Mode, renders: bool) -> Seq<RegistrationView> {
    let shown = seq![
        node_view("card0"@, DRM_PRIMARY_DEVICE_ID, "dri/card0"@),
        connector_view(mode),
    ];
    if renders {
        shown.push(node_view("renderD128"@, DRM_RENDER_DEVICE_ID, "dri/renderD128"@))
    } else {
        shown
    }
}

fn node_registration(name: &str, number: (u32, u32), node: &str) -> (registration: Registration)
    ensures
        registration@ == node_view(name@, number, node@),
{
    let attributes: Vec<DeviceAttribute> = Vec::new();
    assert(attribute_views(attributes@) =~= Seq::empty());
    Registration {
        root: text("virtio0"),
        subsystem: text("drm"),
        name: text(name),
        parent: None,
        node: Some((number, text(node))),
        device_type: text("drm_minor"),
        attributes,
        bus: None,
    }
}

fn connector_registration(mode: Mode) -> (registration: Registration)
    ensures
        registration@ == connector_view(mode),
{
    let mut attributes: Vec<DeviceAttribute> = Vec::new();
    attributes.push(attribute("status", text("connected\n")));
    attributes.push(attribute("modes", mode_text(mode)));
    assert(attribute_views(attributes@) =~= connector_view(mode).attributes);
    Registration {
        root: text("virtio0"),
        subsystem: text("drm"),
        name: text("card0-Virtual-1"),
        parent: Some((text("virtio0"), text("card0"))),
        node: None,
        device_type: text("drm_connector"),
        attributes,
        bus: None,
    }
}

pub open spec fn registration_views(registrations: Seq<Registration>) -> Seq<RegistrationView> {
    Seq::new(registrations.len(), |i: int| registrations[i]@)
}

/// What the device tree is told of an adapter.
pub fn sysfs_registrations(mode: Mode, renders: bool) -> (registrations: Vec<Registration>)
    ensures
        registration_views(registrations@) == adapter_view(mode, renders),
{
    let mut registrations: Vec<Registration> = Vec::new();
    registrations.push(node_registration("card0", DRM_PRIMARY_DEVICE_ID, "dri/card0"));
    registrations.push(connector_registration(mode));
    if renders {
        registrations.push(
            node_registration("renderD128", DRM_RENDER_DEVICE_ID, "dri/renderD128"),
        );
    }
    assert(registration_views(registrations@) =~= adapter_view(mode, renders));
    registrations
}

/// What is said of an open node.
#[derive(Clone, Copy, Debug)]
pub struct NodeStat {
    pub rdev: (u32, u32),
    pub mode: u32,
    pub nlink: u32,
    pub blksize: u32,
}

/// What is said of an open node.
pub fn node_stat(render: bool) -> (stat: NodeStat)
    ensures
        stat.rdev == (if render {
            DRM_RENDER_DEVICE_ID
        } else {
            DRM_PRIMARY_DEVICE_ID
        }),
        stat.mode == 0o020600,
        stat.nlink == 1,
        stat.blksize == 4096,
{
    assert(0o020000u32 | 0o600u32 == 0o020600u32) by (bit_vector);
    NodeStat {
        rdev: if render {
            DRM_RENDER_DEVICE_ID
        } else {
            DRM_PRIMARY_DEVICE_ID
        },
        mode: S_IFCHR | (if render {
            DRM_RENDER_NODE_MODE as u32
        } else {
            DRM_PRIMARY_NODE_MODE as u32
        }),
        nlink: 1,
        blksize: 4096,
    }
}

/// The path of an open node.
pub fn node_path(render: bool) -> (path: &'static str)
    ensures
        path@ == (if render {
            "/dev/dri/renderD128"@
        } else {
            "/dev/dri/card0"@
        }),
{
    if render {
        "/dev/dri/renderD128"
    } else {
        "/dev/dri/card0"
    }
}

/// The size of a picture is told by width and height in decimal, with a cross between them, on a
/// line.
pub proof fn law_a_size_is_told_on_a_line(mode: Mode)
    ensures
        mode_line(mode) == decimal(mode.width as nat) + seq![120u8] + decimal(mode.height as nat)
            + seq![10u8],
{
    reveal_strlit("x");
    assert(vstd::utf8::is_ascii_chars("x"@));
    vstd::utf8::is_ascii_chars_encode_utf8("x"@);
    assert(encode_utf8("x"@) =~= seq![120u8]);
    assert(mode_line(mode) =~= decimal(mode.width as nat) + seq![120u8] + decimal(
        mode.height as nat,
    ) + seq![10u8]);
}

/// What is told of an adapter: the node of its pictures, its output below that node, with the
/// sizes that it has, and the node that renders only where it does.  The nodes differ in their
/// minor number.
pub proof fn law_an_adapter_is_told_in_order(mode: Mode, renders: bool)
    ensures
        ({
            let told = adapter_view(mode, renders);
            &&& told.len() == (if renders {
                3nat
            } else {
                2nat
            })
            &&& told[0].node is Some
            &&& (told[0].node->0).0 == (226u32, 0u32)
            &&& told[0].parent is None
            &&& told[1].node is None
            &&& told[1].parent == Some((told[0].root, told[0].name))
            &&& told[1].attributes.len() == 2
            &&& told[1].attributes[1] == file("modes"@, mode_line(mode))
            &&& renders ==> told[2].node is Some && (told[2].node->0).0 == (226u32, 128u32)
                && told[2].root == told[0].root && told[2].parent is None
        }),
{
}

} // verus!
