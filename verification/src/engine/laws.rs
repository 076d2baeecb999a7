//! What holds of the engine whatever the command.

use vstd::prelude::*;

use crate::config::DriverTable;
use crate::engine::messages::{DeviceHandle, Effect, EngineCommand, WorkerOp};
use crate::engine::{DaemonError, DeviceRegistry, LifecycleEvent};

verus! {

/// No device is attached and reconnecting at the same time.
pub proof fn attached_devices_are_not_reconnecting(registry: &DeviceRegistry, id: Seq<char>)
    requires
        registry.wf(),
        registry.devices().dom().contains(id),
    ensures
        !registry.reconnecting().contains(id),
{
    registry.attached_or_reconnecting(id);
}

/// Every eviction is announced, and so is every device that becomes attached.
/// Shutting down is the exception: it ends all workers without announcements.
pub proof fn changes_are_announced(
    cmd: EngineCommand,
    table: DriverTable,
    devices: Map<Seq<char>, DeviceHandle>,
    reconnecting: Set<Seq<char>>,
    new_devices: Map<Seq<char>, DeviceHandle>,
    new_reconnecting: Set<Seq<char>>,
    effects: Seq<Effect>,
    id: Seq<char>,
)
    requires
        crate::engine::handled(
            cmd,
            table,
            devices,
            reconnecting,
            new_devices,
            new_reconnecting,
            effects,
        ),
        cmd !is Shutdown,
    ensures
        devices.dom().contains(id) && !new_devices.dom().contains(id) ==> exists|i: int|
            0 <= i < effects.len() && crate::engine::announces_removed(#[trigger] effects[i], id),
        !devices.dom().contains(id) && new_devices.dom().contains(id) ==> exists|i: int|
            0 <= i < effects.len() && crate::engine::announces_added(#[trigger] effects[i], id),
{
    match cmd {
        EngineCommand::DeviceDisconnected { device_id } => {
            let first: int = if reconnecting.contains(device_id@) { 1 } else { 0 };
            if devices.dom().contains(device_id@) {
                assert(crate::engine::announces_removed(effects[first + 1], device_id@));
            }
        },
        EngineCommand::DeviceReattached { device_id, handle: _ } => {
            let first: int = if reconnecting.contains(device_id@) { 1 } else { 0 };
            assert(crate::engine::announces_added(effects[first], device_id@));
        },
        _ => {},
    }
}

/// A keymap request that reaches a worker addresses a key the device has.
pub proof fn forwarded_addresses_are_in_bounds(
    cmd: EngineCommand,
    table: DriverTable,
    devices: Map<Seq<char>, DeviceHandle>,
    reconnecting: Set<Seq<char>>,
    new_devices: Map<Seq<char>, DeviceHandle>,
    new_reconnecting: Set<Seq<char>>,
    effects: Seq<Effect>,
    i: int,
)
    requires
        crate::engine::handled(
            cmd,
            table,
            devices,
            reconnecting,
            new_devices,
            new_reconnecting,
            effects,
        ),
        0 <= i < effects.len(),
    ensures
        effects[i] matches Effect::Forward { device_id, op } ==> {
            &&& devices.dom().contains(device_id@)
            &&& op matches WorkerOp::GetKeycode { layer, row, col } ==> devices[device_id@].topology.has(
                layer,
                row,
                col,
            )
            &&& op matches WorkerOp::SetKeycode { layer, row, col, keycode: _ } ==> devices[device_id@].topology.has(
                layer,
                row,
                col,
            )
        },
{
}

/// A command about one device leaves every other device as it was.
pub proof fn devices_are_isolated(
    cmd: EngineCommand,
    table: DriverTable,
    devices: Map<Seq<char>, DeviceHandle>,
    reconnecting: Set<Seq<char>>,
    new_devices: Map<Seq<char>, DeviceHandle>,
    new_reconnecting: Set<Seq<char>>,
    effects: Seq<Effect>,
    id: Seq<char>,
)
    requires
        crate::engine::handled(
            cmd,
            table,
            devices,
            reconnecting,
            new_devices,
            new_reconnecting,
            effects,
        ),
        cmd !is Shutdown,
        cmd matches EngineCommand::DeviceDisconnected { device_id } ==> device_id@ != id,
        cmd matches EngineCommand::DeviceError { device_id, error: _ } ==> device_id@ != id,
        cmd matches EngineCommand::DeviceReattached { device_id, handle: _ } ==> device_id@ != id,
    ensures
        devices.dom().contains(id) == new_devices.dom().contains(id),
        devices.dom().contains(id) ==> new_devices[id] == devices[id],
{
}

/// A device that was evicted is reported as not found until it is attached again.
pub proof fn an_evicted_device_is_not_found(
    cmd: EngineCommand,
    table: DriverTable,
    devices: Map<Seq<char>, DeviceHandle>,
    reconnecting: Set<Seq<char>>,
    new_devices: Map<Seq<char>, DeviceHandle>,
    new_reconnecting: Set<Seq<char>>,
    effects: Seq<Effect>,
    id: Seq<char>,
    slot: Option<(u8, u8, u8)>,
    op: WorkerOp,
    answer: Seq<Effect>,
)
    requires
        crate::engine::handled(
            cmd,
            table,
            devices,
            reconnecting,
            new_devices,
            new_reconnecting,
            effects,
        ),
        (cmd matches EngineCommand::DeviceDisconnected { device_id } && device_id@ == id) || (
        cmd matches EngineCommand::DeviceError { device_id, error: _ } && device_id@ == id),
        crate::engine::dispatched(new_devices, id, slot, op, answer),
    ensures
        answer.len() == 1,
        answer[0] matches Effect::Reject { error } && error.is_not_found(id),
{
}

/// A request to a device changes no registration and has one effect. If the device
/// is attached and the address, where there is one, is in bounds, the request goes
/// to its worker word for word; otherwise it is rejected, for an unknown device
/// before anything else.
pub proof fn requests_reach_their_worker(
    cmd: EngineCommand,
    table: DriverTable,
    devices: Map<Seq<char>, DeviceHandle>,
    reconnecting: Set<Seq<char>>,
    new_devices: Map<Seq<char>, DeviceHandle>,
    new_reconnecting: Set<Seq<char>>,
    effects: Seq<Effect>,
    id: Seq<char>,
    op: WorkerOp,
)
    requires
        crate::engine::handled(
            cmd,
            table,
            devices,
            reconnecting,
            new_devices,
            new_reconnecting,
            effects,
        ),
        match cmd {
            EngineCommand::GetKeycode { device_id, layer, row, col } => device_id@ == id && op == (
            WorkerOp::GetKeycode { layer, row, col }),
            EngineCommand::SetKeycode { device_id, layer, row, col, keycode } => device_id@ == id && op == (
            WorkerOp::SetKeycode { layer, row, col, keycode }),
            EngineCommand::CommitToNvram { device_id } => device_id@ == id && op == WorkerOp::Commit,
            EngineCommand::GetMacro { device_id, offset, length } => device_id@ == id && op == (WorkerOp::GetMacro {
                offset,
                length,
            }),
            EngineCommand::SetMacro { device_id, offset, data } => device_id@ == id && op == (WorkerOp::SetMacro {
                offset,
                data,
            }),
            EngineCommand::GetLighting { device_id, channel, value_id } => device_id@ == id && op == (
            WorkerOp::GetLighting { channel, value_id }),
            EngineCommand::SetLighting { device_id, channel, value_id, data } => device_id@ == id && op == (
            WorkerOp::SetLighting { channel, value_id, data }),
            _ => false,
        },
    ensures
        ({
            let t = devices[id].topology;
            let in_bounds = match op {
                WorkerOp::GetKeycode { layer, row, col } => layer < t.layer_count && row < t.matrix.rows && col
                    < t.matrix.cols,
                WorkerOp::SetKeycode { layer, row, col, keycode: _ } => layer < t.layer_count && row < t.matrix.rows
                    && col < t.matrix.cols,
                _ => true,
            };
            &&& new_devices == devices && new_reconnecting == reconnecting
            &&& effects.len() == 1
            &&& devices.dom().contains(id) && in_bounds ==> (effects[0] matches Effect::Forward { device_id, op: sent }
                && device_id@ == id && sent == op)
            &&& devices.dom().contains(id) && !in_bounds ==> (effects[0] matches Effect::Reject { error }
                && error is DbusRouting)
            &&& !devices.dom().contains(id) ==> (effects[0] matches Effect::Reject { error }
                && error is DeviceNotFound && error->DeviceNotFound_device_id@ == id)
        }),
{
}

/// A node that appears ends the reconnection of its device, and is opened with the
/// backend of the table where it was found, unless a device with its id is
/// attached or the table has no backend for it. It is attached later, once it has
/// been opened.
pub proof fn nodes_that_appear_are_opened(
    cmd: EngineCommand,
    table: DriverTable,
    devices: Map<Seq<char>, DeviceHandle>,
    reconnecting: Set<Seq<char>>,
    new_devices: Map<Seq<char>, DeviceHandle>,
    new_reconnecting: Set<Seq<char>>,
    effects: Seq<Effect>,
)
    requires
        crate::engine::handled(
            cmd,
            table,
            devices,
            reconnecting,
            new_devices,
            new_reconnecting,
            effects,
        ),
        cmd is DeviceConnected,
    ensures
        cmd matches EngineCommand::DeviceConnected { device_id, vendor_id, product_id, hidraw_path } ==> {
            let opens = !devices.dom().contains(device_id@) && table.choice(vendor_id, product_id) is Some;
            &&& new_devices == devices
            &&& !new_reconnecting.contains(device_id@)
            &&& reconnecting.contains(device_id@) <==> effects.len() > 0 && effects[0] is CancelReconnect
            &&& opens <==> effects.len() > 0 && effects.last() is Open
            &&& effects.len() <= 2
            &&& opens ==> {
                let site = effects.last()->Open_site;
                &&& site.device_id@ == device_id@ && site.hidraw_path@ == hidraw_path@
                &&& site.vendor_id == vendor_id && site.product_id == product_id
                &&& Some(effects.last()->Open_backend) == table.choice(vendor_id, product_id)
            }
        },
{
}

/// A node that goes takes its device with it: its worker ends, which is announced,
/// and nobody tries to reconnect.
pub proof fn nodes_that_go_are_forgotten(
    cmd: EngineCommand,
    table: DriverTable,
    devices: Map<Seq<char>, DeviceHandle>,
    reconnecting: Set<Seq<char>>,
    new_devices: Map<Seq<char>, DeviceHandle>,
    new_reconnecting: Set<Seq<char>>,
    effects: Seq<Effect>,
    id: Seq<char>,
)
    requires
        crate::engine::handled(
            cmd,
            table,
            devices,
            reconnecting,
            new_devices,
            new_reconnecting,
            effects,
        ),
        cmd matches EngineCommand::DeviceDisconnected { device_id } && device_id@ == id,
    ensures
        !new_devices.dom().contains(id) && !new_reconnecting.contains(id),
        forall|i: int| 0 <= i < effects.len() ==> (#[trigger] effects[i]) !is StartReconnect,
        reconnecting.contains(id) <==> effects.len() > 0 && effects[0] is CancelReconnect,
        devices.dom().contains(id) ==> {
            let n = effects.len() as int;
            &&& n >= 2
            &&& effects[n - 2] matches Effect::DropWorker { device_id }
            &&& device_id@ == id
            &&& crate::engine::announces_removed(effects[n - 1], id)
        },
        !devices.dom().contains(id) && !reconnecting.contains(id) ==> effects.len() == 0,
{
}

/// A worker that fails is ended, which is announced. If the device is gone,
/// reconnection begins where the device was found; any other failure is final.
pub proof fn only_absent_devices_are_reconnected(
    cmd: EngineCommand,
    table: DriverTable,
    devices: Map<Seq<char>, DeviceHandle>,
    reconnecting: Set<Seq<char>>,
    new_devices: Map<Seq<char>, DeviceHandle>,
    new_reconnecting: Set<Seq<char>>,
    effects: Seq<Effect>,
    id: Seq<char>,
)
    requires
        crate::engine::handled(
            cmd,
            table,
            devices,
            reconnecting,
            new_devices,
            new_reconnecting,
            effects,
        ),
        cmd matches EngineCommand::DeviceError { device_id, error: _ } && device_id@ == id,
        !reconnecting.contains(id),
    ensures
        ({
            let gone = cmd->DeviceError_error is Driver && cmd->DeviceError_error->Driver_0 is Disconnected;
            let attached = devices.dom().contains(id);
            &&& !new_devices.dom().contains(id)
            &&& new_reconnecting.contains(id) <==> attached && gone
            &&& !attached ==> effects.len() == 0
            &&& attached ==> {
                &&& effects.len() == if gone { 3int } else { 2 }
                &&& effects[0] matches Effect::DropWorker { device_id }
                &&& device_id@ == id
                &&& crate::engine::announces_removed(effects[1], id)
                &&& gone ==> {
                    let site = effects[2]->StartReconnect_site;
                    &&& effects[2] is StartReconnect
                    &&& site.device_id@ == id
                    &&& site.vendor_id == devices[id].vendor_id
                    &&& site.product_id == devices[id].product_id
                    &&& site.hidraw_path == devices[id].hidraw_path
                }
            }
        }),
{
}

/// A device that is back is attached with what is now known of it, which is
/// announced last, and is no longer looked for.
pub proof fn devices_that_are_back_are_attached(
    cmd: EngineCommand,
    table: DriverTable,
    devices: Map<Seq<char>, DeviceHandle>,
    reconnecting: Set<Seq<char>>,
    new_devices: Map<Seq<char>, DeviceHandle>,
    new_reconnecting: Set<Seq<char>>,
    effects: Seq<Effect>,
    id: Seq<char>,
)
    requires
        crate::engine::handled(
            cmd,
            table,
            devices,
            reconnecting,
            new_devices,
            new_reconnecting,
            effects,
        ),
        cmd matches EngineCommand::DeviceReattached { device_id, handle: _ } && device_id@ == id,
    ensures
        new_devices.dom().contains(id) && new_devices[id] == cmd->DeviceReattached_handle,
        !new_reconnecting.contains(id),
        effects.len() == if reconnecting.contains(id) { 2int } else { 1 },
        reconnecting.contains(id) ==> effects[0] is CancelReconnect,
        crate::engine::announces_added(effects.last(), id),
{
}

/// Questions about the devices change nothing. The attached devices are listed
/// once each and in order, and of one device its own particulars are told.
pub proof fn questions_are_answered(
    cmd: EngineCommand,
    table: DriverTable,
    devices: Map<Seq<char>, DeviceHandle>,
    reconnecting: Set<Seq<char>>,
    new_devices: Map<Seq<char>, DeviceHandle>,
    new_reconnecting: Set<Seq<char>>,
    effects: Seq<Effect>,
    id: Seq<char>,
)
    requires
        crate::engine::handled(
            cmd,
            table,
            devices,
            reconnecting,
            new_devices,
            new_reconnecting,
            effects,
        ),
        cmd is ListDevices || (cmd matches EngineCommand::GetDeviceInfo { device_id } && device_id@ == id) || (
        cmd matches EngineCommand::GetDeviceIdentity { device_id } && device_id@ == id),
    ensures
        new_devices == devices && new_reconnecting == reconnecting,
        effects.len() == 1,
        cmd is ListDevices ==> {
            let ids = effects[0]->AnswerDevices_ids@;
            &&& effects[0] is AnswerDevices
            &&& devices.dom().contains(id) <==> exists|i: int| 0 <= i < ids.len() && (#[trigger] ids[i])@ == id
            &&& forall|i: int, j: int|
                0 <= i < j < ids.len() ==> crate::text::before((#[trigger] ids[i])@, (#[trigger] ids[j])@)
        },
        cmd !is ListDevices && !devices.dom().contains(id) ==> (effects[0] matches Effect::Reject { error }
            && error is DeviceNotFound && error->DeviceNotFound_device_id@ == id),
        cmd is GetDeviceInfo && devices.dom().contains(id) ==> {
            let info = effects[0]->AnswerInfo_info;
            let handle = devices[id];
            &&& effects[0] is AnswerInfo
            &&& info.model@ == handle.model@
            &&& info.rows == handle.topology.matrix.rows && info.cols == handle.topology.matrix.cols
            &&& info.layer_count == handle.topology.layer_count
        },
        cmd is GetDeviceIdentity && devices.dom().contains(id) ==> {
            let identity = effects[0]->AnswerIdentity_identity;
            let handle = devices[id];
            &&& effects[0] is AnswerIdentity
            &&& identity.vendor_id == handle.vendor_id && identity.product_id == handle.product_id
            &&& identity.product_name@ == handle.model@
        },
{
    if cmd is ListDevices {
        let ids = effects[0]->AnswerDevices_ids@;
        if exists|i: int| 0 <= i < ids.len() && (#[trigger] ids[i])@ == id {
            let i = choose|i: int| 0 <= i < ids.len() && (#[trigger] ids[i])@ == id;
            assert(devices.dom().contains(ids[i]@));
        }
    }
}

/// Shutting down detaches every device and has no effect but to stop.
pub proof fn shutting_down_stops(
    table: DriverTable,
    devices: Map<Seq<char>, DeviceHandle>,
    reconnecting: Set<Seq<char>>,
    new_devices: Map<Seq<char>, DeviceHandle>,
    new_reconnecting: Set<Seq<char>>,
    effects: Seq<Effect>,
    id: Seq<char>,
)
    requires
        crate::engine::handled(
            EngineCommand::Shutdown,
            table,
            devices,
            reconnecting,
            new_devices,
            new_reconnecting,
            effects,
        ),
    ensures
        !new_devices.dom().contains(id),
        effects.len() == 1,
        effects[0] is Stop,
{
}

/// An announcement tells what happened and names the device that it happened to.
pub proof fn announcements_name_the_device(effect: Effect, id: Seq<char>)
    ensures
        crate::engine::announces_added(effect, id) <==> effect is Emit && (effect->Emit_event matches LifecycleEvent::DeviceAdded(
            device_id,
        ) && device_id@ == id),
        crate::engine::announces_removed(effect, id) <==> effect is Emit && (effect->Emit_event matches LifecycleEvent::DeviceRemoved(
            device_id,
        ) && device_id@ == id),
{
}

/// What is done about reconnection and workers names the device that it is done for.
pub proof fn effects_name_the_device(effect: Effect, id: Seq<char>)
    ensures
        crate::engine::cancels(effect, id) <==> effect is CancelReconnect && effect->CancelReconnect_device_id@ == id,
        crate::engine::drops(effect, id) <==> effect is DropWorker && effect->DropWorker_device_id@ == id,
{
}

/// Each error is told in its own words, with the device or the detail that it is about.
pub proof fn errors_are_told_in_words(e: DaemonError)
    ensures
        e matches DaemonError::Driver(d) ==> e.text() == "driver error: "@ + d.text(),
        e matches DaemonError::DeviceNotFound { device_id } ==> e.text() == "no device registered with id `"@
            + device_id@ + "`"@,
        e matches DaemonError::DeviceUnauthorized { device_id } ==> e.text()
            == "session not authorized for device `"@ + device_id@ + "`"@,
        e matches DaemonError::DeviceTaskPanicked { device_id } ==> e.text() == "worker task for device `"@
            + device_id@ + "` panicked"@,
        e is EngineSend ==> e.text() == "failed to dispatch command to engine: receiver dropped"@,
        e matches DaemonError::ReplyDropped(detail) ==> e.text() == "engine reply channel was closed: "@ + detail@,
        e matches DaemonError::Elapsed(detail) ==> e.text() == "engine-level deadline elapsed: "@ + detail@,
        e matches DaemonError::DbusRouting(detail) ==> e.text() == "dbus routing error: "@ + detail@,
{
}

/// An address out of bounds is told with the layer, the row, the column and the
/// device, in this order.
pub proof fn bad_addresses_are_told(id: Seq<char>, layer: u8, row: u8, col: u8)
    ensures
        crate::engine::out_of_bounds_text(id, layer, row, col) == "(layer="@ + crate::text::dec(layer as nat)
            + ", row="@ + crate::text::dec(row as nat) + ", col="@ + crate::text::dec(col as nat)
            + ") out of bounds for device `"@ + id + "`"@,
{
}

} // verus!
