//! What the system's device tree is told of a device.

use vstd::prelude::*;
use vstd::utf8::encode_utf8;
use crate::text::push_text;

verus! {

/// A file, or a directory of files, below a device.
pub enum DeviceAttribute {
    Text { name: Vec<u8>, value: Vec<u8> },
    Directory { name: Vec<u8>, children: Vec<(Vec<u8>, Vec<u8>)> },
}

/// What is said of an attribute.
pub enum AttributeView {
    Text { name: Seq<u8>, value: Seq<u8> },
    Directory { name: Seq<u8>, children: Seq<(Seq<u8>, Seq<u8>)> },
}

/// The pairs of names and values, as bytes.
pub open spec fn pair_views(pairs: Seq<(Vec<u8>, Vec<u8>)>) -> Seq<(Seq<u8>, Seq<u8>)> {
    pairs.map_values(|p: (Vec<u8>, Vec<u8>)| (p.0@, p.1@))
}

impl DeviceAttribute {
    pub open spec fn view(&self) -> AttributeView {
        match self {
            DeviceAttribute::Text { name, value } => AttributeView::Text {
                name: name@,
                value: value@,
            },
            DeviceAttribute::Directory { name, children } => AttributeView::Directory {
                name: name@,
                children: pair_views(children@),
            },
        }
    }

    pub fn name(&self) -> (name: &Vec<u8>)
        ensures
            name@ == (match self@ {
                AttributeView::Text { name, .. } => name,
                AttributeView::Directory { name, .. } => name,
            }),
    {
        match self {
            DeviceAttribute::Text { name, .. } => name,
            DeviceAttribute::Directory { name, .. } => name,
        }
    }
}

/// The views of attributes.
pub open spec fn attribute_views(attributes: Seq<DeviceAttribute>) -> Seq<AttributeView> {
    attributes.map_values(|a: DeviceAttribute| a@)
}

/// A file of this name.
pub open spec fn file(name: Seq<char>, value: Seq<u8>) -> AttributeView {
    AttributeView::Text { name: encode_utf8(name), value }
}

/// The bytes of a text.
pub fn text(words: &str) -> (bytes: Vec<u8>)
    ensures
        bytes@ == encode_utf8(words@),
{
    let mut bytes: Vec<u8> = Vec::new();
    push_text(&mut bytes, words);
    assert(bytes@ =~= encode_utf8(words@));
    bytes
}

/// A file of this name.
pub fn attribute(name: &str, value: Vec<u8>) -> (attribute: DeviceAttribute)
    ensures
        attribute@ == file(name@, value@),
{
    DeviceAttribute::Text { name: text(name), value }
}

/// A device that is to be registered.
pub struct Registration {
    /// The root below which it stands, where no parent is named.
    pub root: Vec<u8>,
    pub subsystem: Vec<u8>,
    pub name: Vec<u8>,
    /// The path and the name of what it stands below.
    pub parent: Option<(Vec<u8>, Vec<u8>)>,
    /// The device number, and the name of the node.
    pub node: Option<((u32, u32), Vec<u8>)>,
    pub device_type: Vec<u8>,
    pub attributes: Vec<DeviceAttribute>,
    /// The bus it is matched on, and whether a driver has it.
    pub bus: Option<(Vec<u8>, bool)>,
}

/// What is said of a registration.
pub struct RegistrationView {
    pub root: Seq<u8>,
    pub subsystem: Seq<u8>,
    pub name: Seq<u8>,
    pub parent: Option<(Seq<u8>, Seq<u8>)>,
    pub node: Option<((u32, u32), Seq<u8>)>,
    pub device_type: Seq<u8>,
    pub attributes: Seq<AttributeView>,
    pub bus: Option<(Seq<u8>, bool)>,
}

impl Registration {
    pub open spec fn view(&self) -> RegistrationView {
        RegistrationView {
            root: self.root@,
            subsystem: self.subsystem@,
            name: self.name@,
            parent: match self.parent {
                Some(p) => Some((p.0@, p.1@)),
                None => None,
            },
            node: match self.node {
                Some(n) => Some((n.0, n.1@)),
                None => None,
            },
            device_type: self.device_type@,
            attributes: attribute_views(self.attributes@),
            bus: match self.bus {
                Some(b) => Some((b.0@, b.1)),
                None => None,
            },
        }
    }
}

} // verus!
