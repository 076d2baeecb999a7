//! Driver selection, from the device list and the environment.

use vstd::prelude::*;

use crate::input;
use crate::input::{parse_number, same, trim};
use crate::sorted::{Key, SortedMap};
use crate::text::Sign;

verus! {

/// Rows and columns of the EK68; the device cannot be asked.
pub const EK68_MATRIX: (u8, u8) = (5, 15);

/// The base layer and the Fn layer.
pub const EK68_LAYERS: u8 = 2;

/// One row of G-keys on the G915.
pub const G915_MATRIX: (u8, u8) = (1, 5);

/// One layer for each M-key.
pub const G915_LAYERS: u8 = 3;

/// Rows and columns that are allowed on a VIA keyboard that the device list does
/// not name.
pub const VIA_CEILING: (u8, u8) = (16, 16);

/// The driver families, with what they have to be told of the device.
#[derive(Clone, Copy, PartialEq, Eq, Structural, Debug)]
pub enum Backend {
    /// `layers`, where it is given, overrides the count that the firmware reports.
    Via { rows: u8, cols: u8, layers: Option<u8> },
    Gmk67,
    Logitech,
}

impl Backend {
    /// Rows and columns.
    pub open spec fn matrix(&self) -> (u8, u8) {
        match *self {
            Backend::Via { rows, cols, .. } => (rows, cols),
            Backend::Gmk67 => EK68_MATRIX,
            Backend::Logitech => G915_MATRIX,
        }
    }

    /// The number of layers, if it is not for the firmware to say.
    pub open spec fn fixed_layers(&self) -> Option<u8> {
        match *self {
            Backend::Via { layers, .. } => layers,
            Backend::Gmk67 => Some(EK68_LAYERS),
            Backend::Logitech => Some(G915_LAYERS),
        }
    }

    /// Rows and columns.
    pub fn matrix_dimensions(&self) -> (m: (u8, u8))
        ensures
            m == self.matrix(),
    {
        match *self {
            Backend::Via { rows, cols, .. } => (rows, cols),
            Backend::Gmk67 => EK68_MATRIX,
            Backend::Logitech => G915_MATRIX,
        }
    }

    /// The number of layers of a device whose firmware reports `reported`.
    pub fn layer_count(&self, reported: u8) -> (n: u8)
        ensures
            n == match self.fixed_layers() {
                Some(layers) => layers,
                None => reported,
            },
    {
        match *self {
            Backend::Via { layers, .. } => match layers {
                Some(n) => n,
                None => reported,
            },
            Backend::Gmk67 => EK68_LAYERS,
            Backend::Logitech => G915_LAYERS,
        }
    }
}

/// One entry of the device list.
#[derive(Debug)]
pub struct DeviceConfig {
    pub vid: u16,
    pub pid: u16,
    pub rows: u8,
    pub cols: u8,
    pub layer_count_override: Option<u8>,
    /// The name of the driver; VIA where it is left out.
    pub driver: Option<String>,
    /// Consent to a driver that no hardware has confirmed.
    pub experimental: bool,
}

/// The entry names this driver.
pub open spec fn names_driver(dev: DeviceConfig, name: Seq<char>) -> bool {
    dev.driver matches Some(driver) && driver@ == name
}

/// The backend that an entry asks for. `epomaker` is an old name of `gmk67`.
/// `logitech` is granted to experimental entries only. Everything else is VIA.
pub open spec fn backend_for(dev: DeviceConfig) -> Backend {
    if names_driver(dev, "gmk67"@) || names_driver(dev, "epomaker"@) {
        Backend::Gmk67
    } else if names_driver(dev, "logitech"@) && dev.experimental {
        Backend::Logitech
    } else {
        Backend::Via { rows: dev.rows, cols: dev.cols, layers: dev.layer_count_override }
    }
}

/// The backend that an entry asks for.
pub fn select_backend(dev: &DeviceConfig) -> (backend: Backend)
    ensures
        backend == backend_for(*dev),
{
    if let Some(name) = &dev.driver {
        if same(name.as_str(), "gmk67") || same(name.as_str(), "epomaker") {
            return Backend::Gmk67;
        }
        if same(name.as_str(), "logitech") && dev.experimental {
            return Backend::Logitech;
        }
    }
    Backend::Via { rows: dev.rows, cols: dev.cols, layers: dev.layer_count_override }
}

/// A USB vendor and product id.
#[derive(Clone, Copy, PartialEq, Eq, Structural, Debug)]
pub struct UsbId {
    pub vendor_id: u16,
    pub product_id: u16,
}

impl Key for UsbId {
    type Model = (u16, u16);

    open spec fn model(&self) -> (u16, u16) {
        (self.vendor_id, self.product_id)
    }

    open spec fn precedes(a: (u16, u16), b: (u16, u16)) -> bool {
        a.0 < b.0 || (a.0 == b.0 && a.1 < b.1)
    }

    proof fn strict_order(a: (u16, u16), b: (u16, u16), c: (u16, u16)) {
    }

    fn sign(&self, other: &UsbId) -> (s: Sign) {
        if self.vendor_id < other.vendor_id {
            Sign::Less
        } else if self.vendor_id > other.vendor_id {
            Sign::More
        } else if self.product_id < other.product_id {
            Sign::Less
        } else if self.product_id > other.product_id {
            Sign::More
        } else {
            Sign::Same
        }
    }
}

/// Which backend drives which device.
pub struct DriverTable {
    pub by_vid_pid: SortedMap<UsbId, Backend>,
    /// Tried for devices that the table does not list.
    pub via_fallback: Option<Backend>,
}

impl DriverTable {
    pub open spec fn wf(&self) -> bool {
        self.by_vid_pid.wf()
    }

    /// The listed backend, else the fallback.
    pub open spec fn choice(&self, vendor_id: u16, product_id: u16) -> Option<Backend> {
        if self.by_vid_pid@.dom().contains((vendor_id, product_id)) {
            Some(self.by_vid_pid@[(vendor_id, product_id)])
        } else {
            self.via_fallback
        }
    }

    /// The backend for a device: the listed one, else the fallback.
    pub fn select(&self, vendor_id: u16, product_id: u16) -> (backend: Option<Backend>)
        requires
            self.wf(),
        ensures
            backend == self.choice(vendor_id, product_id),
    {
        match self.by_vid_pid.get(&UsbId { vendor_id, product_id }) {
            Some(b) => Some(*b),
            None => self.via_fallback,
        }
    }
}

/// The backends of the listed devices. Where a device is listed twice, the later
/// entry counts.
pub open spec fn listed(devices: Seq<DeviceConfig>) -> Map<(u16, u16), Backend>
    decreases devices.len(),
{
    if devices.len() == 0 {
        Map::empty()
    } else {
        let dev = devices.last();
        listed(devices.drop_last()).insert((dev.vid, dev.pid), backend_for(dev))
    }
}

/// The driver table for a device list. Devices that it does not name are tried
/// as VIA keyboards of up to 16 rows and columns.
pub fn build_driver_table(devices: &[DeviceConfig]) -> (table: DriverTable)
    ensures
        table.wf(),
        table.by_vid_pid@ == listed(devices@),
        table.via_fallback == Some(
            (Backend::Via { rows: VIA_CEILING.0, cols: VIA_CEILING.1, layers: None }),
        ),
{
    let mut by_vid_pid: SortedMap<UsbId, Backend> = SortedMap::new();
    let mut i: usize = 0;
    proof {
        assert(devices@.take(0) =~= Seq::<DeviceConfig>::empty());
    }
    while i < devices.len()
        invariant
            i <= devices@.len(),
            by_vid_pid.wf(),
            by_vid_pid@ == listed(devices@.take(i as int)),
        decreases devices@.len() - i,
    {
        let dev: &DeviceConfig = &devices[i];
        let backend: Backend = select_backend(dev);
        by_vid_pid.insert(UsbId { vendor_id: dev.vid, product_id: dev.pid }, backend);
        proof {
            assert(devices@.take(i + 1).drop_last() =~= devices@.take(i as int));
        }
        i = i + 1;
    }
    proof {
        assert(devices@.take(i as int) =~= devices@);
    }
    DriverTable {
        by_vid_pid,
        via_fallback: Some(Backend::Via { rows: VIA_CEILING.0, cols: VIA_CEILING.1, layers: None }),
    }
}

/// The flush interval in milliseconds that the environment asks for, if it asks
/// for one: writes are coalesced only if the value is a positive integer.
pub fn coalesce_interval(value: Option<&str>) -> (interval: Option<u64>)
    ensures
        interval == match value {
            Some(s) => match input::numeral(input::trimmed(s@), 10, u64::MAX as nat) {
                Some(n) if n > 0 => Some(n as u64),
                _ => None,
            },
            None => None,
        },
{
    match value {
        Some(s) => {
            let t: String = trim(s);
            match parse_number(t.as_str(), 10, u64::MAX) {
                Some(n) => if n > 0 {
                    Some(n)
                } else {
                    None
                },
                None => None,
            }
        },
        None => None,
    }
}

/// A device that the list does not name is left to the fallback.
pub proof fn unlisted_devices_fall_back(devices: Seq<DeviceConfig>, vendor_id: u16, product_id: u16)
    requires
        forall|i: int|
            0 <= i < devices.len() ==> (#[trigger] devices[i]).vid != vendor_id || devices[i].pid != product_id,
    ensures
        !listed(devices).dom().contains((vendor_id, product_id)),
    decreases devices.len(),
{
    if devices.len() > 0 {
        let before = devices.drop_last();
        assert(devices.last() == devices[devices.len() - 1]);
        assert forall|i: int| 0 <= i < before.len() implies (#[trigger] before[i]).vid != vendor_id || before[i].pid
            != product_id by {
            assert(before[i] == devices[i]);
        }
        unlisted_devices_fall_back(before, vendor_id, product_id);
    }
}

/// A listed device is driven as its last entry says.
pub proof fn the_last_entry_counts(devices: Seq<DeviceConfig>, vendor_id: u16, product_id: u16, i: int)
    requires
        0 <= i < devices.len(),
        devices[i].vid == vendor_id,
        devices[i].pid == product_id,
        forall|j: int|
            i < j < devices.len() ==> (#[trigger] devices[j]).vid != vendor_id || devices[j].pid != product_id,
    ensures
        listed(devices).dom().contains((vendor_id, product_id)),
        listed(devices)[(vendor_id, product_id)] == backend_for(devices[i]),
    decreases devices.len(),
{
    if i < devices.len() - 1 {
        let before = devices.drop_last();
        assert(devices.last() == devices[devices.len() - 1]);
        assert forall|j: int| i < j < before.len() implies (#[trigger] before[j]).vid != vendor_id || before[j].pid
            != product_id by {
            assert(before[j] == devices[j]);
        }
        the_last_entry_counts(before, vendor_id, product_id, i);
    }
}

/// An experimental driver is selected for a device only where an entry for that
/// device names it and gives consent.
pub proof fn experimental_drivers_need_consent(devices: Seq<DeviceConfig>, id: (u16, u16))
    requires
        listed(devices).dom().contains(id),
        listed(devices)[id] == Backend::Logitech,
    ensures
        exists|i: int|
            0 <= i < devices.len() && (#[trigger] devices[i]).vid == id.0 && devices[i].pid == id.1
                && names_driver(devices[i], "logitech"@) && devices[i].experimental,
    decreases devices.len(),
{
    let before = devices.drop_last();
    let dev = devices.last();
    if id == (dev.vid, dev.pid) {
        assert(devices[devices.len() - 1] == dev);
    } else {
        experimental_drivers_need_consent(before, id);
        let i = choose|i: int|
            0 <= i < before.len() && (#[trigger] before[i]).vid == id.0 && before[i].pid == id.1 && names_driver(
                before[i],
                "logitech"@,
            ) && before[i].experimental;
        assert(devices[i] == before[i]);
    }
}

/// What the backends have of rows, columns and layers: VIA what it is told, the
/// EK68 five by fifteen on two layers, and the G915 one by five on three.
pub proof fn backends_have_their_dimensions(backend: Backend)
    ensures
        backend matches Backend::Via { rows, cols, layers } ==> backend.matrix() == (rows, cols)
            && backend.fixed_layers() == layers,
        backend is Gmk67 ==> backend.matrix() == (5u8, 15u8) && backend.fixed_layers() == Some(2u8),
        backend is Logitech ==> backend.matrix() == (1u8, 5u8) && backend.fixed_layers() == Some(3u8),
        VIA_CEILING == (16u8, 16u8),
{
}

/// The names of the drivers decide: `gmk67` and `epomaker` for the EK68,
/// `logitech` only with consent, and VIA, of the listed dimensions, for the rest.
pub proof fn names_decide_the_backend(dev: DeviceConfig)
    ensures
        backend_for(dev) is Gmk67 <==> dev.driver is Some && (dev.driver->0@ == "gmk67"@ || dev.driver->0@
            == "epomaker"@),
        backend_for(dev) is Logitech <==> dev.driver is Some && dev.driver->0@ == "logitech"@ && dev.experimental,
        backend_for(dev) matches Backend::Via { rows, cols, layers } ==> rows == dev.rows && cols == dev.cols && layers
            == dev.layer_count_override,
        dev.driver is None ==> backend_for(dev) is Via,
{
    reveal_strlit("gmk67");
    reveal_strlit("epomaker");
    reveal_strlit("logitech");
    assert("logitech"@[0] != "epomaker"@[0]);
    assert("logitech"@.len() != "gmk67"@.len());
}

/// The last entry for a device counts, and a device without an entry is not listed.
pub proof fn the_last_listing_counts(devices: Seq<DeviceConfig>, i: int, id: (u16, u16))
    ensures
        0 <= i < devices.len() && (forall|j: int|
            i < j < devices.len() ==> ((#[trigger] devices[j]).vid, devices[j].pid) != (devices[i].vid, devices[i].pid))
            ==> listed(devices).dom().contains((devices[i].vid, devices[i].pid)) && listed(devices)[(
            devices[i].vid,
            devices[i].pid,
        )] == backend_for(devices[i]),
        listed(devices).dom().contains(id) ==> exists|j: int|
            0 <= j < devices.len() && ((#[trigger] devices[j]).vid, devices[j].pid) == id,
    decreases devices.len(),
{
    if devices.len() > 0 {
        let before = devices.drop_last();
        the_last_listing_counts(before, i, id);
        if listed(before).dom().contains(id) {
            let j = choose|j: int| 0 <= j < before.len() && ((#[trigger] before[j]).vid, before[j].pid) == id;
            assert(devices[j] == before[j]);
        } else {
            assert(devices[devices.len() - 1] == devices.last());
        }
        if 0 <= i < before.len() && (forall|j: int|
            i < j < devices.len() ==> ((#[trigger] devices[j]).vid, devices[j].pid) != (devices[i].vid, devices[i].pid)) {
            assert(before[i] == devices[i]);
            assert forall|j: int| i < j < before.len() implies ((#[trigger] before[j]).vid, before[j].pid) != (
                before[i].vid,
                before[i].pid,
            ) by {
                assert(before[j] == devices[j]);
            }
            let last = devices[devices.len() - 1];
            assert((last.vid, last.pid) != (devices[i].vid, devices[i].pid));
        }
    }
}

/// A listed device has the backend of its listing, and any other the fallback.
pub proof fn the_table_goes_before_the_fallback(table: &DriverTable, vendor_id: u16, product_id: u16)
    ensures
        table.by_vid_pid@.dom().contains((vendor_id, product_id)) ==> table.choice(vendor_id, product_id) == Some(
            table.by_vid_pid@[(vendor_id, product_id)],
        ),
        !table.by_vid_pid@.dom().contains((vendor_id, product_id)) ==> table.choice(vendor_id, product_id)
            == table.via_fallback,
{
}

/// A layer count that is fixed, or overridden, counts over what the firmware reports.
pub proof fn fixed_layers_count(backend: Backend, reported: u8, n: u8)
    requires
        call_ensures(Backend::layer_count, (&backend, reported), n),
    ensures
        backend is Gmk67 ==> n == 2,
        backend is Logitech ==> n == 3,
        backend matches Backend::Via { rows: _, cols: _, layers } ==> n == if layers is Some { layers->0 } else { reported },
{
}

/// A positive number of milliseconds, with white space around it or not, turns
/// write coalescing on; zero does not.
pub proof fn positive_intervals_coalesce(ms: u64, value: &str, interval: Option<u64>)
    requires
        call_ensures(coalesce_interval, (Some(value),), interval),
        input::trimmed(value@) == crate::text::dec(ms as nat),
    ensures
        interval == if ms > 0 { Some(ms) } else { None },
{
    let s = crate::text::dec(ms as nat);
    input::decimals_read_back(ms as nat);
    input::numerals_are_digits(s, 10, u64::MAX as nat);
    assert(input::digit_value(s[0], 10) is Some);
}

} // verus!
