//! What the system's device tree says of an input device.

use vstd::prelude::*;
use vstd::utf8::encode_utf8;
use crate::bytes::{push_bytes, push_zeroes, to_vec};
use crate::evdev::bits::{bitmap_hex, bitmap_text};
use crate::evdev::event::{codes_of, EventType, EV_COUNT};
use crate::evdev::hex::{padded_hex, push_padded_hex};
use crate::evdev::ioctl::{class_bits, class_bytes, text_bytes, text_image, InputDeviceId};
use crate::registration::{attribute, attribute_views, file, pair_views, text, AttributeView,
    DeviceAttribute, Registration, RegistrationView};
use crate::text::{decimal, push_decimal, push_text};

verus! {

/// Where a device is on its bus.
#[derive(Clone, Copy, Debug, PartialEq, Eq, Structural)]
pub struct InputBusIdentity {
    pub vendor_id: u16,
    pub device_id: u16,
    pub domain: u32,
    pub bus: u8,
    pub device: u8,
    pub function: u8,
    pub virtio_index: u32,
}

/// Four hexadecimal digits on a line.
pub open spec fn hex_line(n: nat) -> Seq<u8> {
    padded_hex(n, 4, false).push(10u8)
}

fn hex_text(n: u16) -> (bytes: Vec<u8>)
    ensures
        bytes@ == hex_line(n as nat),
{
    let mut bytes: Vec<u8> = Vec::new();
    push_padded_hex(&mut bytes, n as u64, 4, false);
    bytes.push(10);
    assert(bytes@ =~= hex_line(n as nat));
    bytes
}

/// A number on a line.
pub open spec fn index_line(n: nat) -> Seq<u8> {
    decimal(n).push(10u8)
}

fn index_text(n: u32) -> (bytes: Vec<u8>)
    ensures
        bytes@ == index_line(n as nat),
{
    let mut bytes: Vec<u8> = Vec::new();
    push_decimal(&mut bytes, n as u128);
    bytes.push(10);
    assert(bytes@ =~= index_line(n as nat));
    bytes
}

/// The name of a device's root bus.
pub open spec fn root_name(id: InputBusIdentity) -> Seq<u8> {
    encode_utf8("pci"@) + padded_hex(id.domain as nat, 4, false) + encode_utf8(":"@) + padded_hex(
        id.bus as nat,
        2,
        false,
    )
}

/// The name of a device on its bus.
pub open spec fn bdf_name(id: InputBusIdentity) -> Seq<u8> {
    padded_hex(id.domain as nat, 4, false) + encode_utf8(":"@) + padded_hex(
        id.bus as nat,
        2,
        false,
    ) + encode_utf8(":"@) + padded_hex(id.device as nat, 2, false) + encode_utf8("."@) + padded_hex(
        id.function as nat,
        1,
        false,
    )
}

/// The name of a device's transport.
pub open spec fn transport_name(id: InputBusIdentity) -> Seq<u8> {
    encode_utf8("virtio"@) + decimal(id.virtio_index as nat)
}

/// Whether a device sits on a bus, and is not a virtual one.
pub open spec fn on_bus(id: InputBusIdentity) -> bool {
    id.vendor_id != 0 || id.device_id != 0
}

/// The path right above a device's subsystem directory.
pub open spec fn transport_path(id: InputBusIdentity) -> Seq<u8> {
    if on_bus(id) {
        root_name(id) + encode_utf8("/"@) + bdf_name(id) + encode_utf8("/"@) + transport_name(id)
    } else {
        encode_utf8("virtual/virtio"@) + decimal(id.virtio_index as nat)
    }
}

pub fn has_pci_transport(identity: InputBusIdentity) -> (has: bool)
    ensures
        has == on_bus(identity),
{
    identity.vendor_id != 0 || identity.device_id != 0
}

pub fn pci_root_name(identity: InputBusIdentity) -> (name: Vec<u8>)
    ensures
        name@ == root_name(identity),
{
    let mut name = text("pci");
    push_padded_hex(&mut name, identity.domain as u64, 4, false);
    push_text(&mut name, ":");
    push_padded_hex(&mut name, identity.bus as u64, 2, false);
    name
}

pub fn pci_bdf_name(identity: InputBusIdentity) -> (name: Vec<u8>)
    ensures
        name@ == bdf_name(identity),
{
    let mut name: Vec<u8> = Vec::new();
    push_padded_hex(&mut name, identity.domain as u64, 4, false);
    assert(name@ =~= padded_hex(identity.domain as nat, 4, false));
    push_text(&mut name, ":");
    push_padded_hex(&mut name, identity.bus as u64, 2, false);
    push_text(&mut name, ":");
    push_padded_hex(&mut name, identity.device as u64, 2, false);
    push_text(&mut name, ".");
    push_padded_hex(&mut name, identity.function as u64, 1, false);
    name
}

pub fn virtio_name(identity: InputBusIdentity) -> (name: Vec<u8>)
    ensures
        name@ == transport_name(identity),
{
    let mut name = text("virtio");
    push_decimal(&mut name, identity.virtio_index as u128);
    name
}

pub fn input_transport_path(identity: InputBusIdentity) -> (path: Vec<u8>)
    ensures
        path@ == transport_path(identity),
{
    if !has_pci_transport(identity) {
        let mut path = text("virtual/virtio");
        push_decimal(&mut path, identity.virtio_index as u128);
        return path;
    }
    let mut path = pci_root_name(identity);
    push_text(&mut path, "/");
    push_bytes(&mut path, pci_bdf_name(identity).as_slice());
    push_text(&mut path, "/");
    push_bytes(&mut path, virtio_name(identity).as_slice());
    path
}

/// The alias by which a bus device is matched.
pub open spec fn bus_alias(id: InputBusIdentity) -> Seq<u8> {
    encode_utf8("pci:v"@) + padded_hex(id.vendor_id as nat, 8, true) + encode_utf8("d"@)
        + padded_hex(id.device_id as nat, 8, true) + encode_utf8("sv*sd*bc*sc*i*\n"@)
}

fn pci_modalias(identity: InputBusIdentity) -> (alias: Vec<u8>)
    ensures
        alias@ == bus_alias(identity),
{
    let mut alias = text("pci:v");
    push_padded_hex(&mut alias, identity.vendor_id as u64, 8, true);
    push_text(&mut alias, "d");
    push_padded_hex(&mut alias, identity.device_id as u64, 8, true);
    push_text(&mut alias, "sv*sd*bc*sc*i*\n");
    alias
}

/// What is known of a device when it is registered.
pub struct InputSysfsDescription {
    pub name: Vec<u8>,
    pub phys: Vec<u8>,
    pub uniq: Vec<u8>,
    pub id: InputDeviceId,
    pub modalias: Vec<u8>,
    pub capabilities: Vec<(Vec<u8>, Vec<u8>)>,
    pub properties: Vec<u8>,
    pub pci_vendor: u16,
    pub pci_device: u16,
    pub pci_modalias: Vec<u8>,
    pub virtio_index: u32,
}

impl InputSysfsDescription {
    /// The files of the device.
    pub open spec fn files(self) -> Seq<AttributeView> {
        seq![
            file("name"@, self.name@),
            file("phys"@, self.phys@),
            file("uniq"@, self.uniq@),
            file("modalias"@, self.modalias@),
            file("pci_vendor"@, hex_line(self.pci_vendor as nat)),
            file("pci_device"@, hex_line(self.pci_device as nat)),
            file("pci_modalias"@, self.pci_modalias@),
            file("virtio_index"@, index_line(self.virtio_index as nat)),
            file("properties"@, self.properties@),
            AttributeView::Directory {
                name: encode_utf8("id"@),
                children: seq![
                    (encode_utf8("bustype"@), hex_line(self.id.bus_type as nat)),
                    (encode_utf8("vendor"@), hex_line(self.id.vendor as nat)),
                    (encode_utf8("product"@), hex_line(self.id.product as nat)),
                    (encode_utf8("version"@), hex_line(self.id.version as nat)),
                ],
            },
            AttributeView::Directory {
                name: encode_utf8("capabilities"@),
                children: pair_views(self.capabilities@),
            },
        ]
    }

    pub fn attributes(&self) -> (attributes: Vec<DeviceAttribute>)
        ensures
            attribute_views(attributes@) == self.files(),
    {
        let mut ids: Vec<(Vec<u8>, Vec<u8>)> = Vec::new();
        ids.push((text("bustype"), hex_text(self.id.bus_type)));
        ids.push((text("vendor"), hex_text(self.id.vendor)));
        ids.push((text("product"), hex_text(self.id.product)));
        ids.push((text("version"), hex_text(self.id.version)));
        assert(pair_views(ids@) =~= seq![
            (encode_utf8("bustype"@), hex_line(self.id.bus_type as nat)),
            (encode_utf8("vendor"@), hex_line(self.id.vendor as nat)),
            (encode_utf8("product"@), hex_line(self.id.product as nat)),
            (encode_utf8("version"@), hex_line(self.id.version as nat)),
        ]);
        let mut attributes: Vec<DeviceAttribute> = Vec::new();
        attributes.push(attribute("name", to_vec(self.name.as_slice())));
        attributes.push(attribute("phys", to_vec(self.phys.as_slice())));
        attributes.push(attribute("uniq", to_vec(self.uniq.as_slice())));
        attributes.push(attribute("modalias", to_vec(self.modalias.as_slice())));
        attributes.push(attribute("pci_vendor", hex_text(self.pci_vendor)));
        attributes.push(attribute("pci_device", hex_text(self.pci_device)));
        attributes.push(attribute("pci_modalias", to_vec(self.pci_modalias.as_slice())));
        attributes.push(attribute("virtio_index", index_text(self.virtio_index)));
        attributes.push(attribute("properties", to_vec(self.properties.as_slice())));
        attributes.push(DeviceAttribute::Directory { name: text("id"), children: ids });
        attributes.push(
            DeviceAttribute::Directory {
                name: text("capabilities"),
                children: copy_pairs(&self.capabilities),
            },
        );
        assert(attribute_views(attributes@) =~= self.files());
        attributes
    }
}

fn copy_pairs(pairs: &Vec<(Vec<u8>, Vec<u8>)>) -> (copy: Vec<(Vec<u8>, Vec<u8>)>)
    ensures
        pair_views(copy@) == pair_views(pairs@),
{
    let mut copy: Vec<(Vec<u8>, Vec<u8>)> = Vec::new();
    let mut i: usize = 0;
    while i < pairs.len()
        invariant
            i <= pairs@.len(),
            copy@.len() == i,
            forall|j: int|
                0 <= j < i ==> (#[trigger] copy@[j]).0@ == pairs@[j].0@ && copy@[j].1@
                    == pairs@[j].1@,
        decreases pairs@.len() - i,
    {
        copy.push((to_vec(pairs[i].0.as_slice()), to_vec(pairs[i].1.as_slice())));
        i = i + 1;
    }
    assert(pair_views(copy@) =~= pair_views(pairs@));
    copy
}

/// What a driver says of a device.
pub struct InputFacts {
    pub name: Vec<u8>,
    pub location: Vec<u8>,
    pub unique: Vec<u8>,
    pub id: InputDeviceId,
    /// For every number of a class whether the device has it.
    pub classes: Vec<bool>,
    /// The codes that the device has of the classes of [`capability_class`].
    pub codes: Vec<Vec<u8>>,
    /// The properties, where the driver knows them.
    pub properties: Option<Vec<u8>>,
}

/// The class of a capability, and its name.
pub open spec fn capability_class(i: int) -> (Seq<char>, EventType) {
    if i == 0 {
        ("key"@, EventType::Key)
    } else if i == 1 {
        ("rel"@, EventType::Relative)
    } else if i == 2 {
        ("abs"@, EventType::Absolute)
    } else if i == 3 {
        ("msc"@, EventType::Misc)
    } else if i == 4 {
        ("led"@, EventType::Led)
    } else if i == 5 {
        ("snd"@, EventType::Sound)
    } else if i == 6 {
        ("ff"@, EventType::ForceFeedback)
    } else {
        ("sw"@, EventType::Switch)
    }
}

/// The bytes of a class's codes.
pub open spec fn code_bytes(class: EventType) -> nat {
    (codes_of(class) + 7) / 8
}

/// The capabilities: the classes that a device has, and the codes of each of the
/// first `n`.
pub open spec fn capabilities(facts: InputFacts, n: nat) -> Seq<(Seq<u8>, Seq<u8>)>
    decreases n,
{
    if n == 0 {
        seq![(encode_utf8("ev"@), bitmap_text(class_bits(facts.classes@, 4, 0x20)))]
    } else {
        let (name, class) = capability_class(n - 1);
        capabilities(facts, (n - 1) as nat).push(
            (
                encode_utf8(name),
                bitmap_text(text_image(facts.codes@[n - 1]@, code_bytes(class))),
            ),
        )
    }
}

/// The alias by which an input device is matched.
pub open spec fn input_alias(id: InputDeviceId) -> Seq<u8> {
    encode_utf8("input:b"@) + padded_hex(id.bus_type as nat, 4, false) + encode_utf8("v"@)
        + padded_hex(id.vendor as nat, 4, false) + encode_utf8("p"@) + padded_hex(
        id.product as nat,
        4,
        false,
    ) + encode_utf8("e"@) + padded_hex(id.version as nat, 4, false) + encode_utf8("\n"@)
}

/// The place of a device: the one that its driver names, else one below its
/// transport.
pub open spec fn input_place(facts: InputFacts, id: InputBusIdentity) -> Seq<u8> {
    if facts.location@.len() == 0 {
        transport_path(id) + encode_utf8("/input"@)
    } else {
        facts.location@
    }
}

/// The text of a device's properties: none, where the driver does not know them.
pub open spec fn property_text(facts: InputFacts) -> Seq<u8> {
    bitmap_text(
        match facts.properties {
            Some(bits) => text_image(bits@, 4),
            None => Seq::new(4, |i: int| 0u8),
        },
    )
}

/// The files of a device.
pub open spec fn input_files(facts: InputFacts, id: InputBusIdentity) -> Seq<AttributeView> {
    seq![
        file("name"@, facts.name@),
        file("phys"@, input_place(facts, id)),
        file("uniq"@, facts.unique@),
        file("modalias"@, input_alias(facts.id)),
        file("pci_vendor"@, hex_line(id.vendor_id as nat)),
        file("pci_device"@, hex_line(id.device_id as nat)),
        file("pci_modalias"@, bus_alias(id)),
        file("virtio_index"@, index_line(id.virtio_index as nat)),
        file("properties"@, property_text(facts)),
        AttributeView::Directory {
            name: encode_utf8("id"@),
            children: seq![
                (encode_utf8("bustype"@), hex_line(facts.id.bus_type as nat)),
                (encode_utf8("vendor"@), hex_line(facts.id.vendor as nat)),
                (encode_utf8("product"@), hex_line(facts.id.product as nat)),
                (encode_utf8("version"@), hex_line(facts.id.version as nat)),
            ],
        },
        AttributeView::Directory {
            name: encode_utf8("capabilities"@),
            children: capabilities(facts, 8),
        },
    ]
}

/// Describe a device.  A device whose driver names no place is given one below its
/// transport.
pub fn input_sysfs_description(facts: &InputFacts, identity: InputBusIdentity) -> (description:
    InputSysfsDescription)
    requires
        facts.classes@.len() == EV_COUNT,
        facts.codes@.len() == 8,
    ensures
        description.name@ == facts.name@,
        description.phys@ == input_place(*facts, identity),
        description.uniq@ == facts.unique@,
        description.id == facts.id,
        description.modalias@ == input_alias(facts.id),
        pair_views(description.capabilities@) == capabilities(*facts, 8),
        description.properties@ == property_text(*facts),
        description.pci_vendor == identity.vendor_id,
        description.pci_device == identity.device_id,
        description.pci_modalias@ == bus_alias(identity),
        description.virtio_index == identity.virtio_index,
        description.files() == input_files(*facts, identity),
{
    let mut caps: Vec<(Vec<u8>, Vec<u8>)> = Vec::new();
    let classes = class_bytes(&facts.classes, 4);
    proof {
        class_bits_len(facts.classes@, 4, 0x20);
    }
    caps.push((text("ev"), bitmap_hex(classes.as_slice())));
    assert(pair_views(caps@) =~= capabilities(*facts, 0));
    let mut i: usize = 0;
    while i < 8
        invariant
            i <= 8,
            facts.codes@.len() == 8,
            pair_views(caps@) == capabilities(*facts, i as nat),
        decreases 8 - i,
    {
        let (name, class): (&str, EventType) = match i {
            0 => ("key", EventType::Key),
            1 => ("rel", EventType::Relative),
            2 => ("abs", EventType::Absolute),
            3 => ("msc", EventType::Misc),
            4 => ("led", EventType::Led),
            5 => ("snd", EventType::Sound),
            6 => ("ff", EventType::ForceFeedback),
            _ => ("sw", EventType::Switch),
        };
        let len: usize = (class.bits_count() + 7) / 8;
        let bits = text_bytes(&facts.codes[i], len);
        let line = bitmap_hex(bits.as_slice());
        let ghost before = caps@;
        caps.push((text(name), line));
        assert(pair_views(caps@) =~= capabilities(*facts, (i + 1) as nat));
        i = i + 1;
    }
    let properties: Vec<u8> = match &facts.properties {
        Some(bits) => text_bytes(bits, 4),
        None => {
            let mut zeroes: Vec<u8> = Vec::new();
            push_zeroes(&mut zeroes, 4);
            assert(zeroes@ =~= Seq::new(4, |i: int| 0u8));
            zeroes
        },
    };
    let phys: Vec<u8> = if facts.location.len() == 0 {
        let mut path = input_transport_path(identity);
        push_text(&mut path, "/input");
        path
    } else {
        to_vec(facts.location.as_slice())
    };
    let mut modalias = text("input:b");
    push_padded_hex(&mut modalias, facts.id.bus_type as u64, 4, false);
    push_text(&mut modalias, "v");
    push_padded_hex(&mut modalias, facts.id.vendor as u64, 4, false);
    push_text(&mut modalias, "p");
    push_padded_hex(&mut modalias, facts.id.product as u64, 4, false);
    push_text(&mut modalias, "e");
    push_padded_hex(&mut modalias, facts.id.version as u64, 4, false);
    push_text(&mut modalias, "\n");
    let description = InputSysfsDescription {
        name: to_vec(facts.name.as_slice()),
        phys,
        uniq: to_vec(facts.unique.as_slice()),
        id: facts.id,
        modalias,
        capabilities: caps,
        properties: bitmap_hex(properties.as_slice()),
        pci_vendor: identity.vendor_id,
        pci_device: identity.device_id,
        pci_modalias: pci_modalias(identity),
        virtio_index: identity.virtio_index,
    };
    assert(description.files() =~= input_files(*facts, identity));
    description
}

proof fn class_bits_len(classes: Seq<bool>, len: nat, n: nat)
    ensures
        class_bits(classes, len, n).len() == len,
    decreases n,
{
    if n > 0 {
        class_bits_len(classes, len, (n - 1) as nat);
    }
}

/// The device on its bus.
pub open spec fn pci_view(id: InputBusIdentity) -> RegistrationView {
    RegistrationView {
        root: root_name(id),
        subsystem: encode_utf8("pci"@),
        name: bdf_name(id),
        parent: None,
        node: None,
        device_type: encode_utf8("pci_device"@),
        attributes: seq![
            file(
                "vendor"@,
                (encode_utf8("0x"@) + padded_hex(id.vendor_id as nat, 4, false)).push(10u8),
            ),
            file(
                "device"@,
                (encode_utf8("0x"@) + padded_hex(id.device_id as nat, 4, false)).push(10u8),
            ),
            file("modalias"@, bus_alias(id)),
        ],
        bus: Some((encode_utf8("pci"@), false)),
    }
}

/// The device's transport.
pub open spec fn virtio_view(id: InputBusIdentity) -> RegistrationView {
    RegistrationView {
        root: root_name(id),
        subsystem: encode_utf8("virtio"@),
        name: transport_name(id),
        parent: Some((root_name(id), bdf_name(id))),
        node: None,
        device_type: encode_utf8("virtio_device"@),
        attributes: seq![
            file("modalias"@, encode_utf8("virtio:d00000012v00001AF4\n"@)),
            file("virtio_index"@, index_line(id.virtio_index as nat)),
        ],
        bus: Some((encode_utf8("virtio"@), true)),
    }
}

/// The name of an input device.
pub open spec fn numbered(prefix: Seq<char>, minor: u32) -> Seq<u8> {
    encode_utf8(prefix) + decimal(minor as nat)
}

pub fn numbered_name(prefix: &str, minor: u32) -> (name: Vec<u8>)
    ensures
        name@ == numbered(prefix@, minor),
{
    let mut name = text(prefix);
    push_decimal(&mut name, minor as u128);
    name
}

/// The input device.
pub open spec fn parent_view(id: InputBusIdentity, minor: u32, files: Seq<AttributeView>) -> RegistrationView {
    RegistrationView {
        root: encode_utf8("pci"@),
        subsystem: encode_utf8("input"@),
        name: numbered("input"@, minor),
        parent: Some((transport_path(id), encode_utf8("input"@))),
        node: None,
        device_type: encode_utf8("input"@),
        attributes: files,
        bus: None,
    }
}

/// The event node below it.
pub open spec fn event_view(id: InputBusIdentity, minor: u32) -> RegistrationView {
    RegistrationView {
        root: encode_utf8("pci"@),
        subsystem: encode_utf8("input"@),
        name: numbered("event"@, minor),
        parent: Some((transport_path(id) + encode_utf8("/input"@), numbered("input"@, minor))),
        node: Some(((13, (64 + minor) as u32), encode_utf8("input/"@) + numbered("event"@, minor))),
        device_type: encode_utf8("input"@),
        attributes: Seq::empty(),
        bus: None,
    }
}

pub fn pci_sysfs_registration(identity: InputBusIdentity) -> (registration: Registration)
    ensures
        registration@ == pci_view(identity),
{
    let mut vendor = text("0x");
    push_padded_hex(&mut vendor, identity.vendor_id as u64, 4, false);
    vendor.push(10);
    let mut device = text("0x");
    push_padded_hex(&mut device, identity.device_id as u64, 4, false);
    device.push(10);
    let mut attributes: Vec<DeviceAttribute> = Vec::new();
    attributes.push(attribute("vendor", vendor));
    attributes.push(attribute("device", device));
    attributes.push(attribute("modalias", pci_modalias(identity)));
    assert(attribute_views(attributes@) =~= pci_view(identity).attributes);
    Registration {
        root: pci_root_name(identity),
        subsystem: text("pci"),
        name: pci_bdf_name(identity),
        parent: None,
        node: None,
        device_type: text("pci_device"),
        attributes,
        bus: Some((text("pci"), false)),
    }
}

pub fn virtio_sysfs_registration(identity: InputBusIdentity) -> (registration: Registration)
    ensures
        registration@ == virtio_view(identity),
{
    let mut attributes: Vec<DeviceAttribute> = Vec::new();
    attributes.push(attribute("modalias", text("virtio:d00000012v00001AF4\n")));
    attributes.push(attribute("virtio_index", index_text(identity.virtio_index)));
    assert(attribute_views(attributes@) =~= virtio_view(identity).attributes);
    Registration {
        root: pci_root_name(identity),
        subsystem: text("virtio"),
        name: virtio_name(identity),
        parent: Some((pci_root_name(identity), pci_bdf_name(identity))),
        node: None,
        device_type: text("virtio_device"),
        attributes,
        bus: Some((text("virtio"), true)),
    }
}

/// The input device.
pub fn parent_registration(
    identity: InputBusIdentity,
    minor: u32,
    description: &InputSysfsDescription,
) -> (registration: Registration)
    ensures
        registration@ == parent_view(identity, minor, description.files()),
{
    Registration {
        root: text("pci"),
        subsystem: text("input"),
        name: numbered_name("input", minor),
        parent: Some((input_transport_path(identity), text("input"))),
        node: None,
        device_type: text("input"),
        attributes: description.attributes(),
        bus: None,
    }
}

/// The event node below it.
pub fn event_registration(identity: InputBusIdentity, minor: u32) -> (registration: Registration)
    requires
        minor <= u32::MAX - 64,
    ensures
        registration@ == event_view(identity, minor),
{
    let mut path = input_transport_path(identity);
    push_text(&mut path, "/input");
    let mut devname = text("input/");
    push_bytes(&mut devname, numbered_name("event", minor).as_slice());
    let attributes: Vec<DeviceAttribute> = Vec::new();
    assert(attribute_views(attributes@) =~= Seq::empty());
    Registration {
        root: text("pci"),
        subsystem: text("input"),
        name: numbered_name("event", minor),
        parent: Some((path, numbered_name("input", minor))),
        node: Some(((13, 64 + minor), devname)),
        device_type: text("input"),
        attributes,
        bus: None,
    }
}

} // verus!
