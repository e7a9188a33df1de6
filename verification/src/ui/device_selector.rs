//! Device records as the pickers show them, grouped by tracking origin.

use vstd::prelude::*;
use vstd::utf8::{decode_utf8, encode_utf8, is_char_boundary};
use vstd::string::StringSliceAdditionalSpecFns;
use crate::xr::device_id_of;

verus! {

/// A 32-bit float carried by its bit pattern.  The library stores and moves
/// such values and never computes with them.
#[derive(Clone, Copy, Debug, PartialEq, Eq, Structural)]
pub struct FloatBits(pub u32);

impl View for FloatBits {
    type V = FloatBits;

    open spec fn view(&self) -> FloatBits {
        *self
    }
}

/// A tracked device.
#[derive(Debug)]
pub struct Device {
    pub name: String,
    /// Unique ID. Important for Vive trackers which share the same name.
    pub serial: String,
    pub description: String,
    /// Name of the tracking origin the device belongs to.
    pub category: String,
    /// Identifier of that tracking origin.
    pub category_index: u32,
    pub device_index: u32,
    /// Charge fraction (0.0 to 1.0) when the device reports a battery.
    pub battery_charge: Option<FloatBits>,
    pub battery_charging: bool,
}

/// A device as plain values.
pub struct DeviceView {
    pub name: Seq<char>,
    pub serial: Seq<char>,
    pub description: Seq<char>,
    pub category: Seq<char>,
    pub category_index: u32,
    pub device_index: u32,
    pub battery_charge: Option<FloatBits>,
    pub battery_charging: bool,
}

impl View for Device {
    type V = DeviceView;

    open spec fn view(&self) -> DeviceView {
        DeviceView {
            name: self.name@,
            serial: self.serial@,
            description: self.description@,
            category: self.category@,
            category_index: self.category_index,
            device_index: self.device_index,
            battery_charge: self.battery_charge,
            battery_charging: self.battery_charging,
        }
    }
}

/// Two devices are the same device when everything but the battery state agrees.
pub open spec fn same_device(a: DeviceView, b: DeviceView) -> bool {
    &&& a.name == b.name
    &&& a.serial == b.serial
    &&& a.category == b.category
    &&& a.category_index == b.category_index
    &&& a.device_index == b.device_index
}

/// Law: a device stays the same device whatever its battery reports.
pub proof fn lemma_battery_does_not_change_identity(d: DeviceView, charge: Option<FloatBits>, charging: bool)
    ensures
        same_device(d, DeviceView { battery_charge: charge, battery_charging: charging, ..d }),
        same_device(d, d),
{
}

impl PartialEq for Device {
    fn eq(&self, other: &Self) -> (r: bool) {
        // Battery state doesn't affect device identity
        self.name == other.name && self.serial == other.serial && self.category == other.category
            && self.category_index == other.category_index && self.device_index == other.device_index
    }
}

impl vstd::std_specs::cmp::PartialEqSpecImpl for Device {
    open spec fn obeys_eq_spec() -> bool {
        true
    }

    open spec fn eq_spec(&self, other: &Device) -> bool {
        same_device(self@, other@)
    }
}

impl Eq for Device {}

impl Clone for Device {
    fn clone(&self) -> (r: Self)
        ensures
            r@ == self@,
    {
        Device {
            name: self.name.clone(),
            serial: self.serial.clone(),
            description: self.description.clone(),
            category: self.category.clone(),
            category_index: self.category_index,
            device_index: self.device_index,
            battery_charge: self.battery_charge,
            battery_charging: self.battery_charging,
        }
    }
}

/// `s` fits in memory, and cutting off all but its last 8 bytes lands on a
/// character boundary.
pub open spec fn suffix_cut_ok(s: Seq<char>) -> bool {
    &&& encode_utf8(s).len() <= usize::MAX
    &&& encode_utf8(s).len() > 8 ==> is_char_boundary(encode_utf8(s), encode_utf8(s).len() - 8)
}

/// Showing device `d`'s serial tail cuts no character in two.  The tail is
/// only taken from a non-empty serial that differs from the name.
pub open spec fn tail_cut_ok(d: DeviceView) -> bool {
    d.serial.len() != 0 && d.serial != d.name ==> suffix_cut_ok(d.serial)
}

/// The last 8 bytes of `s` (all of `s` when it is that short), as characters.
pub open spec fn serial_suffix_spec(s: Seq<char>) -> Seq<char> {
    let b = encode_utf8(s);
    if b.len() > 8 {
        decode_utf8(b.subrange(b.len() - 8, b.len() as int))
    } else {
        s
    }
}

/// The short form of a serial shown next to names: its last 8 bytes.
pub fn serial_suffix(serial: &str) -> (r: &str)
    requires
        suffix_cut_ok(serial@),
    ensures
        r@ == serial_suffix_spec(serial@),
{
    broadcast use vstd::utf8::encode_utf8_decode_utf8;
    let len = serial.len();
    assert(serial.spec_bytes() == encode_utf8(serial@));
    if len > 8 {
        let (_, tail) = serial.split_at(len - 8);
        proof {
            assert(tail.spec_bytes() == encode_utf8(tail@));
            assert(decode_utf8(encode_utf8(tail@)) == tail@);
        }
        tail
    } else {
        serial
    }
}

/// What `display_name` shows for a device.
pub open spec fn display_name_spec(d: DeviceView) -> Seq<char> {
    if d.serial.len() != 0 && d.serial != d.name {
        d.name + " ["@ + serial_suffix_spec(d.serial) + "]"@
    } else if d.description.len() != 0 {
        d.name + " ("@ + d.description + ")"@
    } else {
        d.name
    }
}

impl Device {
    /// The label of the device: the name, with the serial's tail when the
    /// serial could tell same-named devices apart, or else with the description.
    pub fn display_name(&self) -> (s: String)
        requires
            tail_cut_ok(self@),
        ensures
            s@ == display_name_spec(self@),
    {
        if !self.serial.as_str().is_empty() && !(self.serial == self.name) {
            let suffix = serial_suffix(self.serial.as_str());
            let mut s = self.name.clone();
            s.append(" [");
            s.append(suffix);
            s.append("]");
            s
        } else if !self.description.as_str().is_empty() {
            let mut s = self.name.clone();
            s.append(" (");
            s.append(self.description.as_str());
            s.append(")");
            s
        } else {
            self.name.clone()
        }
    }

    /// The device's identifier: its serial, or its name when there is no serial.
    pub fn unique_id(&self) -> (id: &str)
        ensures
            id@ == device_id_of(self.serial@, self.name@),
    {
        if !self.serial.as_str().is_empty() {
            self.serial.as_str()
        } else {
            self.name.as_str()
        }
    }
}

/// The devices of one tracking origin.
#[derive(Clone, Debug)]
pub struct Category {
    /// Identifier of the tracking origin.
    pub index: u32,
    pub name: String,
    pub devices: Vec<Device>,
}

/// A category as plain values.
pub struct CategoryView {
    pub index: u32,
    pub name: Seq<char>,
    pub devices: Seq<DeviceView>,
}

impl View for Category {
    type V = CategoryView;

    open spec fn view(&self) -> CategoryView {
        CategoryView {
            index: self.index,
            name: self.name@,
            devices: self.devices@.map_values(|d: Device| d@),
        }
    }
}

} // verus!
