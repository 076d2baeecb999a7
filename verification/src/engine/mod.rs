//! The engine: which devices are attached, and what each command does to them.
//!
//! The engine owns no channel and no task. A command goes in, and what is to be
//! done in answer to it comes out as a list of [`messages::Effect`]s, in the
//! order in which they are to be performed.

use vstd::prelude::*;

use crate::config::DriverTable;
use crate::engine::messages::{
    DeviceHandle, DeviceIdentity, DeviceInfo, DeviceSite, Effect, EngineCommand, WorkerOp,
};
use crate::engine::topology::{DeviceTopology, KeyMatrix};
use crate::hal::DriverError;
use crate::sorted::SortedMap;
use crate::text::push_dec;

pub mod laws;
pub mod messages;
pub mod reconnect;
pub mod topology;
pub mod worker;

verus! {

/// Capacity of the lifecycle broadcast channel.
pub const LIFECYCLE_CHANNEL_CAPACITY: usize = 64;

/// Capacity of the engine command channel.
pub const ENGINE_CHANNEL_CAPACITY: usize = 32;

/// Capacity of one device worker's channel.
pub const WORKER_CHANNEL_CAPACITY: usize = 16;

/// News about a device, for the clients of the daemon.
#[derive(Clone, Debug)]
pub enum LifecycleEvent {
    /// A worker is attached and ready.
    DeviceAdded(String),
    /// A worker has been evicted.
    DeviceRemoved(String),
    /// The keymap has changed in a way that clients can observe.
    LayoutUpdated(String),
}

/// Errors at and above the engine.
#[derive(Debug)]
pub enum DaemonError {
    /// A driver reported an error.
    Driver(DriverError),
    /// No device has this id.
    DeviceNotFound { device_id: String },
    /// The session may not touch this device.
    DeviceUnauthorized { device_id: String },
    /// The device's worker panicked.
    DeviceTaskPanicked { device_id: String },
    /// The engine no longer takes commands.
    EngineSend,
    /// The reply channel closed without a reply; carries the channel's own words.
    ReplyDropped(String),
    /// An engine-level deadline passed; carries the timer's own words.
    Elapsed(String),
    /// The request cannot be routed.
    DbusRouting(String),
}

impl DaemonError {
    /// The message shown for the error.
    pub open spec fn text(&self) -> Seq<char> {
        match self {
            DaemonError::Driver(e) => "driver error: "@ + e.text(),
            DaemonError::DeviceNotFound { device_id } => "no device registered with id `"@ + device_id@
                + "`"@,
            DaemonError::DeviceUnauthorized { device_id } => "session not authorized for device `"@
                + device_id@ + "`"@,
            DaemonError::DeviceTaskPanicked { device_id } => "worker task for device `"@ + device_id@
                + "` panicked"@,
            DaemonError::EngineSend => "failed to dispatch command to engine: receiver dropped"@,
            DaemonError::ReplyDropped(detail) => "engine reply channel was closed: "@ + detail@,
            DaemonError::Elapsed(detail) => "engine-level deadline elapsed: "@ + detail@,
            DaemonError::DbusRouting(detail) => "dbus routing error: "@ + detail@,
        }
    }

    /// The message shown for the error.
    pub fn to_text(&self) -> (out: String)
        ensures
            out@ == self.text(),
    {
        match self {
            DaemonError::Driver(e) => "driver error: ".to_owned().concat(e.to_text().as_str()),
            DaemonError::DeviceNotFound { device_id } => "no device registered with id `".to_owned().concat(
                device_id.as_str(),
            ).concat("`"),
            DaemonError::DeviceUnauthorized { device_id } => "session not authorized for device `".to_owned().concat(
            device_id.as_str()).concat("`"),
            DaemonError::DeviceTaskPanicked { device_id } => "worker task for device `".to_owned().concat(
                device_id.as_str(),
            ).concat("` panicked"),
            DaemonError::EngineSend => "failed to dispatch command to engine: receiver dropped".to_owned(),
            DaemonError::ReplyDropped(detail) => "engine reply channel was closed: ".to_owned().concat(
                detail.as_str(),
            ),
            DaemonError::Elapsed(detail) => "engine-level deadline elapsed: ".to_owned().concat(
                detail.as_str(),
            ),
            DaemonError::DbusRouting(detail) => "dbus routing error: ".to_owned().concat(detail.as_str()),
        }
    }

    /// The answer that no device has the id `id`.
    pub open spec fn is_not_found(&self, id: Seq<char>) -> bool {
        self matches DaemonError::DeviceNotFound { device_id } && device_id@ == id
    }

    /// The routing error that reads `words`.
    pub open spec fn is_routing(&self, words: Seq<char>) -> bool {
        self matches DaemonError::DbusRouting(detail) && detail@ == words
    }
}

/// How an out-of-bounds address is reported.
pub open spec fn out_of_bounds_text(id: Seq<char>, layer: u8, row: u8, col: u8) -> Seq<char> {
    "(layer="@ + crate::text::dec(layer as nat) + ", row="@ + crate::text::dec(row as nat) + ", col="@ + crate::text::dec(col as nat)
        + ") out of bounds for device `"@ + id + "`"@
}

/// The error for an address outside the device's keymap.
fn out_of_bounds(device_id: &str, layer: u8, row: u8, col: u8) -> (e: DaemonError)
    ensures
        e.is_routing(out_of_bounds_text(device_id@, layer, row, col)),
{
    let mut out: String = "(layer=".to_owned();
    push_dec(&mut out, layer as u64);
    out.append(", row=");
    push_dec(&mut out, row as u64);
    out.append(", col=");
    push_dec(&mut out, col as u64);
    out.append(") out of bounds for device `");
    out.append(device_id);
    out.append("`");
    DaemonError::DbusRouting(out)
}

/// Why an operation could not be queued with a worker.
#[derive(Clone, Copy, PartialEq, Eq, Structural, Debug)]
pub enum SendFailure {
    /// The worker's queue is full.
    Full,
    /// The worker has ended.
    Closed,
}

/// The attached devices, and the devices for which reconnection is under way.
pub struct DeviceRegistry {
    devices: SortedMap<String, DeviceHandle>,
    reconnecting: SortedMap<String, ()>,
}

/// How a request to one device is answered, given the attached devices.
///
/// `slot` is the keymap address of the request, if it has one.
pub open spec fn dispatched(
    devices: Map<Seq<char>, DeviceHandle>,
    id: Seq<char>,
    slot: Option<(u8, u8, u8)>,
    op: WorkerOp,
    effects: Seq<Effect>,
) -> bool {
    &&& effects.len() == 1
    &&& if !devices.dom().contains(id) {
        effects[0] matches Effect::Reject { error } && error.is_not_found(id)
    } else {
        match slot {
            Some((layer, row, col)) if !devices[id].topology.has(layer, row, col) => {
                effects[0] matches Effect::Reject { error } && error.is_routing(
                    out_of_bounds_text(id, layer, row, col),
                )
            },
            _ => effects[0] matches Effect::Forward { device_id, op: o } && device_id@ == id && o == op,
        }
    }
}

/// `effect` cancels the reconnection attempts for `id`.
pub open spec fn cancels(effect: Effect, id: Seq<char>) -> bool {
    effect matches Effect::CancelReconnect { device_id } && device_id@ == id
}

/// `effect` lets the worker of `id` end.
pub open spec fn drops(effect: Effect, id: Seq<char>) -> bool {
    effect matches Effect::DropWorker { device_id } && device_id@ == id
}

/// `effect` announces that `id` is attached.
pub open spec fn announces_added(effect: Effect, id: Seq<char>) -> bool {
    effect matches Effect::Emit { event: LifecycleEvent::DeviceAdded(device_id) } && device_id@ == id
}

/// `effect` announces that `id` is evicted.
pub open spec fn announces_removed(effect: Effect, id: Seq<char>) -> bool {
    effect matches Effect::Emit { event: LifecycleEvent::DeviceRemoved(device_id) } && device_id@ == id
}

/// `site` is where the device `handle` with the id `id` was found.
pub open spec fn site_of(site: DeviceSite, id: Seq<char>, handle: DeviceHandle) -> bool {
    &&& site.device_id@ == id
    &&& site.vendor_id == handle.vendor_id
    &&& site.product_id == handle.product_id
    &&& site.hidraw_path == handle.hidraw_path
}

/// `effect` starts reconnection attempts where the device `handle` was found.
pub open spec fn restarts(effect: Effect, id: Seq<char>, handle: DeviceHandle) -> bool {
    effect matches Effect::StartReconnect { site } && site_of(site, id, handle)
}

/// `ids` names exactly the members of `present`, in increasing order.
pub open spec fn lists(ids: Seq<String>, present: Set<Seq<char>>) -> bool {
    &&& forall|i: int, j: int|
        0 <= i < j < ids.len() ==> crate::text::before((#[trigger] ids[i])@, (#[trigger] ids[j])@)
    &&& forall|i: int| 0 <= i < ids.len() ==> present.contains((#[trigger] ids[i])@)
    &&& forall|id: Seq<char>| #[trigger]
        present.contains(id) ==> exists|i: int| 0 <= i < ids.len() && (#[trigger] ids[i])@ == id
}

/// How a command changes the attached devices and the reconnecting ids, and
/// what it asks to be done.
pub open spec fn handled(
    cmd: EngineCommand,
    table: DriverTable,
    devices: Map<Seq<char>, DeviceHandle>,
    reconnecting: Set<Seq<char>>,
    new_devices: Map<Seq<char>, DeviceHandle>,
    new_reconnecting: Set<Seq<char>>,
    effects: Seq<Effect>,
) -> bool {
    let unchanged = new_devices == devices && new_reconnecting == reconnecting;
    match cmd {
        EngineCommand::GetKeycode { device_id, layer, row, col } => unchanged && dispatched(
            devices,
            device_id@,
            Some((layer, row, col)),
            WorkerOp::GetKeycode { layer, row, col },
            effects,
        ),
        EngineCommand::SetKeycode { device_id, layer, row, col, keycode } => unchanged && dispatched(
            devices,
            device_id@,
            Some((layer, row, col)),
            WorkerOp::SetKeycode { layer, row, col, keycode },
            effects,
        ),
        EngineCommand::CommitToNvram { device_id } => unchanged && dispatched(
            devices,
            device_id@,
            None,
            WorkerOp::Commit,
            effects,
        ),
        EngineCommand::GetMacro { device_id, offset, length } => unchanged && dispatched(
            devices,
            device_id@,
            None,
            WorkerOp::GetMacro { offset, length },
            effects,
        ),
        EngineCommand::SetMacro { device_id, offset, data } => unchanged && dispatched(
            devices,
            device_id@,
            None,
            WorkerOp::SetMacro { offset, data },
            effects,
        ),
        EngineCommand::GetLighting { device_id, channel, value_id } => unchanged && dispatched(
            devices,
            device_id@,
            None,
            WorkerOp::GetLighting { channel, value_id },
            effects,
        ),
        EngineCommand::SetLighting { device_id, channel, value_id, data } => unchanged && dispatched(
            devices,
            device_id@,
            None,
            WorkerOp::SetLighting { channel, value_id, data },
            effects,
        ),
        EngineCommand::DeviceConnected { device_id, vendor_id, product_id, hidraw_path } => {
            let id = device_id@;
            let first: int = if reconnecting.contains(id) { 1 } else { 0 };
            &&& new_devices == devices
            &&& new_reconnecting == reconnecting.remove(id)
            &&& reconnecting.contains(id) ==> effects.len() >= 1 && cancels(effects[0], id)
            &&& match table.choice(vendor_id, product_id) {
                Some(chosen) if !devices.dom().contains(id) => {
                    &&& effects.len() == first + 1
                    &&& effects[first] matches Effect::Open { site, backend }
                    &&& backend == chosen
                    &&& site == (DeviceSite { device_id, vendor_id, product_id, hidraw_path })
                },
                _ => effects.len() == first,
            }
        },
        EngineCommand::DeviceDisconnected { device_id } => {
            let id = device_id@;
            let first: int = if reconnecting.contains(id) { 1 } else { 0 };
            &&& new_devices == devices.remove(id)
            &&& new_reconnecting == reconnecting.remove(id)
            &&& reconnecting.contains(id) ==> effects.len() >= 1 && cancels(effects[0], id)
            &&& if devices.dom().contains(id) {
                &&& effects.len() == first + 2
                &&& drops(effects[first], id)
                &&& announces_removed(effects[first + 1], id)
            } else {
                effects.len() == first
            }
        },
        EngineCommand::DeviceError { device_id, error } => {
            let id = device_id@;
            if !devices.dom().contains(id) {
                unchanged && effects.len() == 0
            } else {
                &&& new_devices == devices.remove(id)
                &&& effects.len() >= 2
                &&& drops(effects[0], id)
                &&& announces_removed(effects[1], id)
                &&& if error == DaemonError::Driver(DriverError::Disconnected) {
                    &&& new_reconnecting == reconnecting.insert(id)
                    &&& effects.len() == 3
                    &&& restarts(effects[2], id, devices[id])
                } else {
                    &&& new_reconnecting == reconnecting
                    &&& effects.len() == 2
                }
            }
        },
        EngineCommand::DeviceReattached { device_id, handle } => {
            let id = device_id@;
            let first: int = if reconnecting.contains(id) { 1 } else { 0 };
            &&& new_devices == devices.insert(id, handle)
            &&& new_reconnecting == reconnecting.remove(id)
            &&& reconnecting.contains(id) ==> cancels(effects[0], id)
            &&& effects.len() == first + 1
            &&& announces_added(effects[first], id)
        },
        EngineCommand::ListDevices => {
            &&& unchanged
            &&& effects.len() == 1
            &&& effects[0] matches Effect::AnswerDevices { ids }
            &&& lists(ids@, devices.dom())
        },
        EngineCommand::GetDeviceInfo { device_id } => {
            &&& unchanged
            &&& effects.len() == 1
            &&& if devices.dom().contains(device_id@) {
                let handle = devices[device_id@];
                &&& effects[0] matches Effect::AnswerInfo { info }
                &&& info.model@ == handle.model@
                &&& info.rows == handle.topology.matrix.rows
                &&& info.cols == handle.topology.matrix.cols
                &&& info.layer_count == handle.topology.layer_count
            } else {
                effects[0] matches Effect::Reject { error } && error.is_not_found(device_id@)
            }
        },
        EngineCommand::GetDeviceIdentity { device_id } => {
            &&& unchanged
            &&& effects.len() == 1
            &&& if devices.dom().contains(device_id@) {
                let handle = devices[device_id@];
                &&& effects[0] matches Effect::AnswerIdentity { identity }
                &&& identity.vendor_id == handle.vendor_id
                &&& identity.product_id == handle.product_id
                &&& identity.product_name@ == handle.model@
            } else {
                effects[0] matches Effect::Reject { error } && error.is_not_found(device_id@)
            }
        },
        EngineCommand::Shutdown => {
            &&& new_devices == Map::<Seq<char>, DeviceHandle>::empty()
            &&& new_reconnecting == reconnecting
            &&& effects == seq![Effect::Stop]
        },
    }
}

/// What a driver says of itself when it is attached, or the first error it met.
///
/// The matrix is asked for first, then the layer count.
pub fn attach_device(
    dimensions: Result<(u8, u8), DriverError>,
    layer_count: Result<u8, DriverError>,
    model: String,
    site: &DeviceSite,
) -> (out: Result<DeviceHandle, DaemonError>)
    ensures
        match dimensions {
            Err(e) => out == Err::<DeviceHandle, DaemonError>(DaemonError::Driver(e)),
            Ok((rows, cols)) => match layer_count {
                Err(e) => out == Err::<DeviceHandle, DaemonError>(DaemonError::Driver(e)),
                Ok(layers) => out == Ok::<DeviceHandle, DaemonError>(
                    DeviceHandle {
                        topology: DeviceTopology { matrix: KeyMatrix { rows, cols }, layer_count: layers },
                        model,
                        vendor_id: site.vendor_id,
                        product_id: site.product_id,
                        hidraw_path: site.hidraw_path,
                    },
                ),
            },
        },
{
    let (rows, cols) = match dimensions {
        Ok(d) => d,
        Err(e) => {
            return Err(DaemonError::Driver(e));
        },
    };
    let layers: u8 = match layer_count {
        Ok(n) => n,
        Err(e) => {
            return Err(DaemonError::Driver(e));
        },
    };
    Ok(
        DeviceHandle {
            topology: DeviceTopology { matrix: KeyMatrix { rows, cols }, layer_count: layers },
            model,
            vendor_id: site.vendor_id,
            product_id: site.product_id,
            hidraw_path: site.hidraw_path.clone(),
        },
    )
}

impl DeviceRegistry {
    /// The attached devices by id.
    pub closed spec fn devices(&self) -> Map<Seq<char>, DeviceHandle> {
        self.devices@
    }

    /// The ids for which reconnection is under way.
    pub closed spec fn reconnecting(&self) -> Set<Seq<char>> {
        self.reconnecting@.dom()
    }

    /// No device is both attached and reconnecting.
    pub closed spec fn wf(&self) -> bool {
        &&& self.devices.wf()
        &&& self.reconnecting.wf()
        &&& self.devices@.dom().disjoint(self.reconnecting@.dom())
    }

    /// An attached device is not reconnecting.
    pub proof fn attached_or_reconnecting(&self, id: Seq<char>)
        requires
            self.wf(),
        ensures
            !(self.devices().dom().contains(id) && self.reconnecting().contains(id)),
    {
    }

    /// A registry without devices.
    pub fn new() -> (r: DeviceRegistry)
        ensures
            r.wf(),
            r.devices() == Map::<Seq<char>, DeviceHandle>::empty(),
            r.reconnecting() == Set::<Seq<char>>::empty(),
    {
        let r = DeviceRegistry { devices: SortedMap::new(), reconnecting: SortedMap::new() };
        proof {
            assert(r.reconnecting() =~= Set::empty());
        }
        r
    }

    /// How many devices are attached.
    pub fn len(&self) -> (n: usize)
        requires
            self.wf(),
        ensures
            n == self.devices().dom().len(),
    {
        self.devices.len()
    }

    /// True when no device is attached.
    pub fn is_empty(&self) -> (empty: bool)
        requires
            self.wf(),
        ensures
            empty == (self.devices() == Map::<Seq<char>, DeviceHandle>::empty()),
    {
        proof {
            self.devices.items_are_the_map();
            if self.devices@.dom().len() == 0 {
                assert(self.devices@.dom() =~= Set::empty());
                assert(self.devices@ =~= Map::empty());
            }
        }
        self.devices.len() == 0
    }

    /// Routes a request to the worker of `device_id`.
    fn dispatch(&self, device_id: String, slot: Option<(u8, u8, u8)>, op: WorkerOp) -> (effects: Vec<Effect>)
        requires
            self.wf(),
        ensures
            dispatched(self.devices(), device_id@, slot, op, effects@),
    {
        let mut effects: Vec<Effect> = Vec::new();
        match self.devices.get(&device_id) {
            None => {
                effects.push(Effect::Reject { error: DaemonError::DeviceNotFound { device_id } });
            },
            Some(handle) => {
                if let Some((layer, row, col)) = slot {
                    if !handle.topology.contains(layer, row, col) {
                        let error = out_of_bounds(device_id.as_str(), layer, row, col);
                        effects.push(Effect::Reject { error });
                        return effects;
                    }
                }
                effects.push(Effect::Forward { device_id, op });
            },
        }
        effects
    }

    /// Takes `device_id` out of the reconnecting ids, and says so if it was there.
    fn stop_reconnecting(&mut self, device_id: &String, effects: &mut Vec<Effect>)
        requires
            old(self).wf(),
        ensures
            final(self).wf(),
            final(self).devices() == old(self).devices(),
            final(self).reconnecting() == old(self).reconnecting().remove(device_id@),
            if old(self).reconnecting().contains(device_id@) {
                &&& final(effects)@.len() == old(effects)@.len() + 1
                &&& final(effects)@.drop_last() == old(effects)@
                &&& cancels(final(effects)@.last(), device_id@)
            } else {
                final(effects)@ == old(effects)@
            },
    {
        let removed = self.reconnecting.remove(device_id);
        if removed.is_some() {
            effects.push(Effect::CancelReconnect { device_id: device_id.clone() });
            proof {
                assert(effects@.drop_last() =~= old(effects)@);
            }
        }
        proof {
            assert(self.reconnecting() =~= old(self).reconnecting().remove(device_id@));
        }
    }

    /// The ids of the attached devices, in increasing order.
    fn ids(&self) -> (ids: Vec<String>)
        requires
            self.wf(),
        ensures
            lists(ids@, self.devices().dom()),
    {
        let mut ids: Vec<String> = Vec::new();
        let n: usize = self.devices.len();
        let mut i: usize = 0;
        while i < n
            invariant
                n == self.devices.items().len(),
                i <= n,
                ids@.len() == i,
                forall|j: int| 0 <= j < i ==> (#[trigger] ids@[j])@ == self.devices.items()[j].0@,
            decreases n - i,
        {
            ids.push(self.devices.at(i).0.clone());
            i = i + 1;
        }
        proof {
            self.devices.items_are_the_map();
            let items = self.devices.items();
            assert forall|i: int, j: int| 0 <= i < j < ids@.len() implies crate::text::before(
                (#[trigger] ids@[i])@,
                (#[trigger] ids@[j])@,
            ) by {
                assert(ids@[i]@ == items[i].0@ && ids@[j]@ == items[j].0@);
            }
            assert forall|i: int| 0 <= i < ids@.len() implies self.devices().dom().contains(
                (#[trigger] ids@[i])@,
            ) by {
                assert(ids@[i]@ == items[i].0@);
            }
            assert forall|id: Seq<char>| #[trigger] self.devices().dom().contains(id) implies exists|i: int|
                0 <= i < ids@.len() && (#[trigger] ids@[i])@ == id by {
                let p = crate::sorted::place(items, id);
                assert(crate::sorted::holds(items, id));
                assert(ids@[p]@ == id);
            }
        }
        ids
    }

    /// Performs the part of `cmd` that concerns the registry, and says what else
    /// is to be done.
    pub fn handle_command(&mut self, cmd: EngineCommand, table: &DriverTable) -> (effects: Vec<Effect>)
        requires
            old(self).wf(),
            table.wf(),
        ensures
            final(self).wf(),
            handled(
                cmd,
                *table,
                old(self).devices(),
                old(self).reconnecting(),
                final(self).devices(),
                final(self).reconnecting(),
                effects@,
            ),
    {
        let mut effects: Vec<Effect> = Vec::new();
        match cmd {
            EngineCommand::GetKeycode { device_id, layer, row, col } => self.dispatch(
                device_id,
                Some((layer, row, col)),
                WorkerOp::GetKeycode { layer, row, col },
            ),
            EngineCommand::SetKeycode { device_id, layer, row, col, keycode } => self.dispatch(
                device_id,
                Some((layer, row, col)),
                WorkerOp::SetKeycode { layer, row, col, keycode },
            ),
            EngineCommand::CommitToNvram { device_id } => self.dispatch(device_id, None, WorkerOp::Commit),
            EngineCommand::GetMacro { device_id, offset, length } => self.dispatch(
                device_id,
                None,
                WorkerOp::GetMacro { offset, length },
            ),
            EngineCommand::SetMacro { device_id, offset, data } => self.dispatch(
                device_id,
                None,
                WorkerOp::SetMacro { offset, data },
            ),
            EngineCommand::GetLighting { device_id, channel, value_id } => self.dispatch(
                device_id,
                None,
                WorkerOp::GetLighting { channel, value_id },
            ),
            EngineCommand::SetLighting { device_id, channel, value_id, data } => self.dispatch(
                device_id,
                None,
                WorkerOp::SetLighting { channel, value_id, data },
            ),
            EngineCommand::DeviceConnected { device_id, vendor_id, product_id, hidraw_path } => {
                self.stop_reconnecting(&device_id, &mut effects);
                if !self.devices.contains(&device_id) {
                    if let Some(backend) = table.select(vendor_id, product_id) {
                        let site = DeviceSite { device_id, vendor_id, product_id, hidraw_path };
                        effects.push(Effect::Open { site, backend });
                    }
                }
                effects
            },
            EngineCommand::DeviceDisconnected { device_id } => {
                self.stop_reconnecting(&device_id, &mut effects);
                if self.devices.remove(&device_id).is_some() {
                    effects.push(Effect::DropWorker { device_id: device_id.clone() });
                    effects.push(Effect::Emit { event: LifecycleEvent::DeviceRemoved(device_id) });
                }
                proof {
                    assert(self.devices() =~= old(self).devices().remove(device_id@));
                }
                effects
            },
            EngineCommand::DeviceError { device_id, error } => {
                if let Some(handle) = self.devices.remove(&device_id) {
                    effects.push(Effect::DropWorker { device_id: device_id.clone() });
                    effects.push(Effect::Emit { event: LifecycleEvent::DeviceRemoved(device_id.clone()) });
                    if let DaemonError::Driver(DriverError::Disconnected) = error {
                        self.reconnecting.insert(device_id.clone(), ());
                        effects.push(
                            Effect::StartReconnect {
                                site: DeviceSite {
                                    device_id,
                                    vendor_id: handle.vendor_id,
                                    product_id: handle.product_id,
                                    hidraw_path: handle.hidraw_path,
                                },
                            },
                        );
                        proof {
                            assert(self.reconnecting() =~= old(self).reconnecting().insert(device_id@));
                        }
                    }
                } else {
                    proof {
                        assert(self.devices() =~= old(self).devices());
                    }
                }
                effects
            },
            EngineCommand::DeviceReattached { device_id, handle } => {
                self.stop_reconnecting(&device_id, &mut effects);
                self.devices.insert(device_id.clone(), handle);
                effects.push(Effect::Emit { event: LifecycleEvent::DeviceAdded(device_id) });
                effects
            },
            EngineCommand::ListDevices => {
                let ids = self.ids();
                effects.push(Effect::AnswerDevices { ids });
                effects
            },
            EngineCommand::GetDeviceInfo { device_id } => {
                match self.devices.get(&device_id) {
                    Some(handle) => {
                        effects.push(
                            Effect::AnswerInfo {
                                info: DeviceInfo {
                                    model: handle.model.clone(),
                                    rows: handle.topology.matrix.rows,
                                    cols: handle.topology.matrix.cols,
                                    layer_count: handle.topology.layer_count,
                                },
                            },
                        );
                    },
                    None => {
                        effects.push(Effect::Reject { error: DaemonError::DeviceNotFound { device_id } });
                    },
                }
                effects
            },
            EngineCommand::GetDeviceIdentity { device_id } => {
                match self.devices.get(&device_id) {
                    Some(handle) => {
                        effects.push(
                            Effect::AnswerIdentity {
                                identity: DeviceIdentity {
                                    vendor_id: handle.vendor_id,
                                    product_id: handle.product_id,
                                    product_name: handle.model.clone(),
                                },
                            },
                        );
                    },
                    None => {
                        effects.push(Effect::Reject { error: DaemonError::DeviceNotFound { device_id } });
                    },
                }
                effects
            },
            EngineCommand::Shutdown => {
                self.devices.clear();
                effects.push(Effect::Stop);
                effects
            },
        }
    }

    /// Records how the opening of `device_id` went.
    pub fn attach_finished(&mut self, device_id: String, outcome: Result<DeviceHandle, DaemonError>) -> (effects:
        Vec<Effect>)
        requires
            old(self).wf(),
        ensures
            final(self).wf(),
            match outcome {
                Ok(handle) => {
                    let first: int = if old(self).reconnecting().contains(device_id@) { 1 } else { 0 };
                    &&& final(self).devices() == old(self).devices().insert(device_id@, handle)
                    &&& final(self).reconnecting() == old(self).reconnecting().remove(device_id@)
                    &&& old(self).reconnecting().contains(device_id@) ==> cancels(effects@[0], device_id@)
                    &&& effects@.len() == first + 1
                    &&& announces_added(effects@[first], device_id@)
                },
                Err(_) => {
                    &&& final(self).devices() == old(self).devices()
                    &&& final(self).reconnecting() == old(self).reconnecting()
                    &&& effects@.len() == 0
                },
            },
    {
        let mut effects: Vec<Effect> = Vec::new();
        if let Ok(handle) = outcome {
            self.stop_reconnecting(&device_id, &mut effects);
            self.devices.insert(device_id.clone(), handle);
            effects.push(Effect::Emit { event: LifecycleEvent::DeviceAdded(device_id) });
        }
        effects
    }

    /// Answers a request that could not be queued with the worker of `device_id`.
    ///
    /// A full queue is temporary. A worker that has ended is evicted, and
    /// reconnection starts.
    pub fn forward_failed(&mut self, device_id: &String, failure: SendFailure) -> (effects: Vec<Effect>)
        requires
            old(self).wf(),
        ensures
            final(self).wf(),
            match failure {
                SendFailure::Full => {
                    &&& final(self).devices() == old(self).devices()
                    &&& final(self).reconnecting() == old(self).reconnecting()
                    &&& effects@.len() == 1
                    &&& effects@[0] matches Effect::Reject { error }
                    &&& error.is_routing("device `"@ + device_id@ + "` is busy"@)
                },
                SendFailure::Closed => {
                    &&& final(self).devices() == old(self).devices().remove(device_id@)
                    &&& effects@.len() >= 1
                    &&& effects@[0] matches Effect::Reject { error }
                    &&& error.is_not_found(device_id@)
                    &&& if old(self).devices().dom().contains(device_id@) {
                        &&& final(self).reconnecting() == old(self).reconnecting().insert(device_id@)
                        &&& effects@.len() == 4
                        &&& drops(effects@[1], device_id@)
                        &&& announces_removed(effects@[2], device_id@)
                        &&& restarts(effects@[3], device_id@, old(self).devices()[device_id@])
                    } else {
                        &&& final(self).reconnecting() == old(self).reconnecting()
                        &&& effects@.len() == 1
                    }
                },
            },
    {
        let mut effects: Vec<Effect> = Vec::new();
        match failure {
            SendFailure::Full => {
                let words = "device `".to_owned().concat(device_id.as_str()).concat("` is busy");
                effects.push(Effect::Reject { error: DaemonError::DbusRouting(words) });
            },
            SendFailure::Closed => {
                effects.push(
                    Effect::Reject { error: DaemonError::DeviceNotFound { device_id: device_id.clone() } },
                );
                if let Some(handle) = self.devices.remove(device_id) {
                    self.reconnecting.insert(device_id.clone(), ());
                    effects.push(Effect::DropWorker { device_id: device_id.clone() });
                    effects.push(Effect::Emit { event: LifecycleEvent::DeviceRemoved(device_id.clone()) });
                    effects.push(
                        Effect::StartReconnect {
                            site: DeviceSite {
                                device_id: device_id.clone(),
                                vendor_id: handle.vendor_id,
                                product_id: handle.product_id,
                                hidraw_path: handle.hidraw_path,
                            },
                        },
                    );
                    proof {
                        assert(self.reconnecting() =~= old(self).reconnecting().insert(device_id@));
                    }
                }
            },
        }
        effects
    }
}

} // verus!
