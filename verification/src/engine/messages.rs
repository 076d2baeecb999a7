//! What the engine is asked, what it tells a device worker, and what it asks
//! of its surroundings.

use vstd::prelude::*;

use crate::config::Backend;
use crate::engine::topology::DeviceTopology;
use crate::engine::{DaemonError, LifecycleEvent};

verus! {

/// A request to one device worker.
#[derive(Debug)]
pub enum WorkerOp {
    GetKeycode { layer: u8, row: u8, col: u8 },
    SetKeycode { layer: u8, row: u8, col: u8, keycode: u16 },
    Commit,
    GetMacro { offset: u16, length: u8 },
    SetMacro { offset: u16, data: Vec<u8> },
    GetLighting { channel: u8, value_id: u8 },
    SetLighting { channel: u8, value_id: u8, data: Vec<u8> },
}

/// What the engine knows of an attached device.
#[derive(Debug)]
pub struct DeviceHandle {
    /// Dimensions reported when the device was attached.
    pub topology: DeviceTopology,
    /// Model name reported by the driver.
    pub model: String,
    pub vendor_id: u16,
    pub product_id: u16,
    pub hidraw_path: String,
}

/// Everything the engine can be told.
#[derive(Debug)]
pub enum EngineCommand {
    /// Read one keycode.
    GetKeycode { device_id: String, layer: u8, row: u8, col: u8 },
    /// Write one keycode.
    SetKeycode { device_id: String, layer: u8, row: u8, col: u8, keycode: u16 },
    /// A hidraw node has appeared.
    DeviceConnected { device_id: String, vendor_id: u16, product_id: u16, hidraw_path: String },
    /// A hidraw node has gone.
    DeviceDisconnected { device_id: String },
    /// A device worker ends because of `error`.
    DeviceError { device_id: String, error: DaemonError },
    /// A reconnection attempt succeeded.
    DeviceReattached { device_id: String, handle: DeviceHandle },
    /// Name the attached devices.
    ListDevices,
    /// Model and dimensions of a device.
    GetDeviceInfo { device_id: String },
    /// USB identity of a device.
    GetDeviceIdentity { device_id: String },
    /// Make pending writes of a device durable.
    CommitToNvram { device_id: String },
    GetMacro { device_id: String, offset: u16, length: u8 },
    SetMacro { device_id: String, offset: u16, data: Vec<u8> },
    GetLighting { device_id: String, channel: u8, value_id: u8 },
    SetLighting { device_id: String, channel: u8, value_id: u8, data: Vec<u8> },
    /// Close all workers and stop.
    Shutdown,
}

/// Model and dimensions of a device, as answered to a client.
#[derive(Debug)]
pub struct DeviceInfo {
    pub model: String,
    pub rows: u8,
    pub cols: u8,
    pub layer_count: u8,
}

/// USB identity of a device, as answered to a client.
#[derive(Debug)]
pub struct DeviceIdentity {
    pub vendor_id: u16,
    pub product_id: u16,
    pub product_name: String,
}

/// Where to look for a device that is to be opened.
#[derive(Debug)]
pub struct DeviceSite {
    pub device_id: String,
    pub vendor_id: u16,
    pub product_id: u16,
    pub hidraw_path: String,
}

/// What the engine asks of its surroundings after a command.
#[derive(Debug)]
pub enum Effect {
    /// Queue `op` with the worker of the device.
    Forward { device_id: String, op: WorkerOp },
    /// Answer the request with an error.
    Reject { error: DaemonError },
    /// Answer `ListDevices`.
    AnswerDevices { ids: Vec<String> },
    /// Answer `GetDeviceInfo`.
    AnswerInfo { info: DeviceInfo },
    /// Answer `GetDeviceIdentity`.
    AnswerIdentity { identity: DeviceIdentity },
    /// Open the device with this backend, and report how it went.
    Open { site: DeviceSite, backend: Backend },
    /// Let the worker of the device end.
    DropWorker { device_id: String },
    /// Cancel the reconnection attempts for the device.
    CancelReconnect { device_id: String },
    /// Start reconnection attempts for the device.
    StartReconnect { site: DeviceSite },
    /// Tell subscribers.
    Emit { event: LifecycleEvent },
    /// End the engine loop and every worker.
    Stop,
}

} // verus!
