//! From udev events to engine commands.

use vstd::prelude::*;

use crate::engine::messages::EngineCommand;
use crate::input;
use crate::input::{parse_number, trim};

verus! {

/// What happened to a device node, as far as it matters.
#[derive(Clone, Copy, PartialEq, Eq, Structural, Debug)]
pub enum NodeEvent {
    Add,
    Remove,
    /// Changes that have no effect on the engine.
    Other,
}

/// What udev knows of a device node.
#[derive(Debug)]
pub struct DeviceNode {
    /// The kernel's name of the node, such as `hidraw0`. It names the device for
    /// as long as the session lasts.
    pub sysname: String,
    /// The path of the device file, if there is one.
    pub devnode: Option<String>,
    /// The vendor id attribute of the USB device above it, if there is one.
    pub id_vendor: Option<String>,
    /// The product id attribute of the USB device above it, if there is one.
    pub id_product: Option<String>,
}

/// The id that a USB attribute writes in hexadecimal.
pub open spec fn usb_id(attribute: Seq<char>) -> Option<nat> {
    input::numeral(input::trimmed(attribute), 16, u16::MAX as nat)
}

/// The id in a USB attribute that may be missing.
pub open spec fn usb_id_in(attribute: Option<String>) -> Option<nat> {
    match attribute {
        Some(text) => usb_id(text@),
        None => None,
    }
}

/// Reads a USB attribute in hexadecimal.
pub fn parse_usb_id(attribute: &str) -> (id: Option<u16>)
    ensures
        match usb_id(attribute@) {
            Some(n) => id == Some(n as u16) && n <= u16::MAX,
            None => id is None,
        },
{
    let t: String = trim(attribute);
    match parse_number(t.as_str(), 16, 0xffff) {
        Some(n) => Some(n as u16),
        None => None,
    }
}

/// `command` announces `node`. It needs a device file and both USB ids.
pub open spec fn announces(command: Option<EngineCommand>, node: DeviceNode) -> bool {
    match (node.devnode, usb_id_in(node.id_vendor), usb_id_in(node.id_product)) {
        (Some(path), Some(vid), Some(pid)) => {
            &&& command matches Some(
                EngineCommand::DeviceConnected { device_id, vendor_id, product_id, hidraw_path },
            )
            &&& device_id@ == node.sysname@
            &&& vendor_id == vid
            &&& product_id == pid
            &&& hidraw_path@ == path@
        },
        _ => command is None,
    }
}

/// The command that announces a node. Nodes without a device file, and nodes that
/// are not below a USB device, are passed over.
pub fn device_to_connect_command(node: DeviceNode) -> (command: Option<EngineCommand>)
    ensures
        announces(command, node),
{
    let path: String = match node.devnode {
        Some(p) => p,
        None => {
            return None;
        },
    };
    let vendor: Option<u16> = match &node.id_vendor {
        Some(a) => parse_usb_id(a.as_str()),
        None => None,
    };
    let product: Option<u16> = match &node.id_product {
        Some(a) => parse_usb_id(a.as_str()),
        None => None,
    };
    match (vendor, product) {
        (Some(vendor_id), Some(product_id)) => Some(
            EngineCommand::DeviceConnected {
                device_id: node.sysname,
                vendor_id,
                product_id,
                hidraw_path: path,
            },
        ),
        _ => None,
    }
}

/// The command for an event: nodes that come are announced, nodes that go are
/// taken leave of, and other events are ignored.
pub fn event_to_command(event: NodeEvent, node: DeviceNode) -> (command: Option<EngineCommand>)
    ensures
        match event {
            NodeEvent::Add => announces(command, node),
            NodeEvent::Remove => command matches Some(EngineCommand::DeviceDisconnected { device_id })
                && device_id@ == node.sysname@,
            NodeEvent::Other => command is None,
        },
{
    match event {
        NodeEvent::Add => device_to_connect_command(node),
        NodeEvent::Remove => Some(EngineCommand::DeviceDisconnected { device_id: node.sysname }),
        NodeEvent::Other => None,
    }
}

/// An id in a USB attribute is four hexadecimal digits, in either case and with
/// white space around them or not.
pub proof fn usb_ids_are_hexadecimal(id: u16, lead: Seq<char>, trail: Seq<char>)
    requires
        forall|i: int| 0 <= i < lead.len() ==> input::blank(#[trigger] lead[i]),
        forall|i: int| 0 <= i < trail.len() ==> input::blank(#[trigger] trail[i]),
    ensures
        usb_id(lead + crate::text::hex(id as nat, 4) + trail) == Some(id as nat),
        usb_id(lead + input::uppered(crate::text::hex(id as nat, 4)) + trail) == Some(id as nat),
{
    let digits = crate::text::hex(id as nat, 4);
    let capitals = input::uppered(digits);
    input::hexadecimals_read_back(id as nat, 4);
    input::leading_zeros_do_not_count(digits);
    input::numerals_are_digits(digits, 16, 0xffff);
    input::numerals_are_digits(capitals, 16, 0xffff);
    input::digit_values(digits[0], 16);
    input::digit_values(digits[3], 16);
    input::digit_values(capitals[0], 16);
    input::digit_values(capitals[3], 16);
    assert(input::digit_value(digits[0], 16) is Some);
    assert(input::digit_value(digits[3], 16) is Some);
    assert(input::digit_value(capitals[0], 16) is Some);
    assert(input::digit_value(capitals[3], 16) is Some);
    input::padding_is_trimmed(lead, digits, trail);
    input::padding_is_trimmed(lead, capitals, trail);
}

/// A node is announced exactly if it has a device file and both USB ids, under the
/// kernel's name and with that file and those ids.
pub proof fn nodes_are_announced_as_they_are(command: Option<EngineCommand>, node: DeviceNode)
    requires
        announces(command, node),
    ensures
        command is Some <==> node.devnode is Some && node.id_vendor is Some && node.id_product is Some && usb_id(
            node.id_vendor->0@,
        ) is Some && usb_id(node.id_product->0@) is Some,
        command matches Some(c) ==> {
            &&& c matches EngineCommand::DeviceConnected { device_id, vendor_id, product_id, hidraw_path }
            &&& device_id@ == node.sysname@
            &&& Some(vendor_id as nat) == usb_id(node.id_vendor->0@)
            &&& Some(product_id as nat) == usb_id(node.id_product->0@)
            &&& hidraw_path@ == node.devnode->0@
        },
{
}

} // verus!
