//! Logitech HID++ 2.0 driver (G915 / Lightspeed family).
//!
//! G-key remaps are held in a [`ShadowState`] and pushed as a compiled
//! onboard-profile sector on commit. Lighting takes effect at once and is made
//! durable on commit. The driver computes the calls; a transport makes them.

use vstd::prelude::*;

use crate::color;
use crate::color::{hs_to_rgb, rgb_to_hs};
use crate::engine::worker::Buffering;
use crate::hal::frame;
use crate::hal::hid;
use crate::hal::hid::hid_descriptor_has_usage_page;
use crate::hal::legacy;
use crate::hal::legacy::logitech::attach::AttachInfo;
use crate::hal::legacy::logitech::hidpp::HidppCall;
use crate::hal::legacy::logitech::profile::{
    compile_profile_image, encode_gkey_binding, gkey_binding_offset, parse_gkey_bindings,
};
use crate::hal::legacy::{
    CommitOutcome, LightingState, SaveRequest, ShadowState, VIA_CHANNEL_PACKED, VIA_CHANNEL_RGB_MATRIX, VIA_VALUE_BRIGHTNESS,
    VIA_VALUE_COLOR, VIA_VALUE_EFFECT, VIA_VALUE_SPEED,
};
use crate::hal::DriverError;

pub mod attach;
pub mod hidpp;
pub mod profile;

verus! {

/// USB vendor id of Logitech.
pub const LOGITECH_VID: u16 = 0x046D;

/// USB product id of a G915 receiver.
pub const G915_RECEIVER_PID: u16 = 0xC541;

/// Names the shadow file. The keyboard is the same on the receiver and on a cable.
pub const PERSIST_ID: &'static str = "046d_g915";

/// The model name until the device has told its own.
pub const DEFAULT_MODEL: &'static str = "Logitech G915";

/// Usage page of a receiver's configuration interface.
pub const HIDPP_USAGE_PAGE_RECEIVER: u16 = 0xFF00;

/// Usage page of a wired keyboard's configuration interface.
pub const HIDPP_USAGE_PAGE_WIRED: u16 = 0xFF43;

pub const ONB_MEMORY_ADDR_WRITE: u8 = 0x6;

pub const ONB_MEMORY_WRITE: u8 = 0x7;

pub const ONB_MEMORY_WRITE_END: u8 = 0x8;

/// Onboard memory moves in chunks of this size.
pub const MEM_CHUNK: usize = 16;

pub const RGB_SET_CLUSTER_EFFECT: u8 = 0x1;

/// The whole keyboard.
pub const RGB_CLUSTER_PRIMARY: u8 = 0x00;

/// Until power-off.
pub const RGB_PERSIST_RAM: u8 = 0x00;

/// For good.
pub const RGB_PERSIST_FLASH: u8 = 0x01;

pub const EFFECT_OFF: u8 = 0x00;

pub const EFFECT_FIXED: u8 = 0x01;

pub const NO_LAYER: &'static str = "keymap layer beyond the M1/M2/M3 G-key banks on Logitech";

pub const NO_GKEY: &'static str = "no G-key at this matrix position on Logitech";

pub const NO_MACROS: &'static str = "macro storage on Logitech (onboard macro sectors not yet implemented)";

pub const NO_CHANNEL: &'static str = "lighting channel (Logitech supports packed channel 0 and RGB-matrix channel 3)";

pub const NO_VALUE: &'static str = "RGB-matrix value id (Logitech supports brightness/effect/speed/color)";

pub const NO_RGB: &'static str = "lighting (device lacks HID++ RGB Effects 0x8071)";

pub const SHORT_VALUE: &'static str = "short data for VIA RGB-matrix lighting value";

pub const NO_BASELINE: &'static str = "no profile baseline from device — refusing to fabricate a profile sector";

pub const NOT_HIDPP: &'static str = "not a HID++ interface (no 0xFF00/0xFF43 usage page in HID descriptor)";

pub const BAD_DESCRIPTOR_SIZE: &'static str = "invalid or empty HID report descriptor size";

/// The effect period for a speed: two seconds at speed 0, seven milliseconds less
/// for each step.
pub open spec fn period_of(speed: u8) -> u16 {
    (2000 - 7 * speed) as u16
}

/// The effect period for a speed, in milliseconds.
pub fn effect_period_ms(speed: u8) -> (ms: u16)
    ensures
        ms == period_of(speed),
{
    2000 - 7 * speed as u16
}

/// A higher speed is a shorter period.
pub proof fn faster_is_shorter(slow: u8, fast: u8)
    requires
        slow < fast,
    ensures
        period_of(fast) < period_of(slow),
{
}

/// The parameters that apply a lighting to a cluster.
pub open spec fn cluster_effect(cluster: u8, l: LightingState, persist: u8) -> Seq<u8> {
    seq![
        cluster,
        l.mode,
        l.r,
        l.g,
        l.b,
        (period_of(l.speed) / 256) as u8,
        (period_of(l.speed) % 256) as u8,
        l.brightness,
        0,
        persist,
        0,
        0,
        0,
        0,
        0,
        0,
    ]
}

/// The parameters that apply a lighting to a cluster.
pub fn encode_cluster_effect(cluster: u8, l: &LightingState, persist: u8) -> (p: [u8; 16])
    ensures
        p@ == cluster_effect(cluster, *l, persist),
{
    let mut p: [u8; 16] = [0u8; 16];
    let period: u16 = effect_period_ms(l.speed);
    p[0] = cluster;
    p[1] = l.mode;
    p[2] = l.r;
    p[3] = l.g;
    p[4] = l.b;
    p[5] = (period / 256) as u8;
    p[6] = (period % 256) as u8;
    p[7] = l.brightness;
    p[9] = persist;
    proof {
        assert(p@ =~= cluster_effect(cluster, *l, persist));
    }
    p
}

/// The lighting that a payload
/// `[mode, r, g, b, brightness?, random?, speed?, direction?]` makes of `current`;
/// fields that are missing stay.
pub open spec fn described(current: LightingState, data: Seq<u8>) -> LightingState {
    LightingState {
        mode: frame::byte_or(data, 0, current.mode),
        r: frame::byte_or(data, 1, current.r),
        g: frame::byte_or(data, 2, current.g),
        b: frame::byte_or(data, 3, current.b),
        brightness: frame::byte_or(data, 4, current.brightness),
        random: frame::byte_or(data, 5, frame::flag(current.random)) != 0,
        speed: frame::byte_or(data, 6, current.speed),
        direction: frame::byte_or(data, 7, current.direction),
    }
}

/// The lighting that a packed payload makes of `current`.
pub fn lighting_from_bytes(current: &LightingState, data: &[u8]) -> (l: LightingState)
    ensures
        l == described(*current, data@),
{
    LightingState {
        mode: frame::byte_at(data, 0, current.mode),
        r: frame::byte_at(data, 1, current.r),
        g: frame::byte_at(data, 2, current.g),
        b: frame::byte_at(data, 3, current.b),
        brightness: frame::byte_at(data, 4, current.brightness),
        random: frame::byte_at(data, 5, frame::flag_byte(current.random)) != 0,
        speed: frame::byte_at(data, 6, current.speed),
        direction: frame::byte_at(data, 7, current.direction),
    }
}

/// The packed payload of a lighting.
pub open spec fn payload(l: LightingState) -> Seq<u8> {
    seq![l.mode, l.r, l.g, l.b, l.brightness, frame::flag(l.random), l.speed, l.direction]
}

/// The packed payload of a lighting.
pub fn lighting_to_bytes(l: &LightingState) -> (data: Vec<u8>)
    ensures
        data@ == payload(*l),
{
    let mut data: Vec<u8> = Vec::new();
    data.push(l.mode);
    data.push(l.r);
    data.push(l.g);
    data.push(l.b);
    data.push(l.brightness);
    data.push(frame::flag_byte(l.random));
    data.push(l.speed);
    data.push(l.direction);
    proof {
        assert(data@ =~= payload(*l));
    }
    data
}

/// A packed payload sets the lighting that it was written from, whatever was set before.
pub proof fn lighting_payload_round_trips(current: LightingState, l: LightingState)
    ensures
        described(current, payload(l)) == l,
{
}

/// How many bytes a VIA value takes; `None` if there is no such value.
pub open spec fn value_len(value_id: u8) -> Option<nat> {
    if value_id == VIA_VALUE_BRIGHTNESS || value_id == VIA_VALUE_EFFECT || value_id == VIA_VALUE_SPEED {
        Some(1)
    } else if value_id == VIA_VALUE_COLOR {
        Some(2)
    } else {
        None
    }
}

/// `current` with one VIA value set.
pub open spec fn with_value(current: LightingState, value_id: u8, data: Seq<u8>) -> LightingState {
    if value_id == VIA_VALUE_BRIGHTNESS {
        LightingState { brightness: data[0], ..current }
    } else if value_id == VIA_VALUE_EFFECT {
        LightingState { mode: data[0], ..current }
    } else if value_id == VIA_VALUE_SPEED {
        LightingState { speed: data[0], ..current }
    } else {
        let rgb = color::rgb_of(data[0], data[1]);
        LightingState { r: rgb.0 as u8, g: rgb.1 as u8, b: rgb.2 as u8, random: false, ..current }
    }
}

/// One VIA value of a lighting.
pub open spec fn value_of(l: LightingState, value_id: u8) -> Seq<u8> {
    if value_id == VIA_VALUE_BRIGHTNESS {
        seq![l.brightness]
    } else if value_id == VIA_VALUE_EFFECT {
        seq![l.mode]
    } else if value_id == VIA_VALUE_SPEED {
        seq![l.speed]
    } else {
        let hs = color::hs_of(l.r, l.g, l.b);
        seq![hs.0 as u8, hs.1 as u8]
    }
}

/// The lighting that `data` for `(channel, value_id)` makes of `current`.
pub open spec fn lit(current: LightingState, channel: u8, value_id: u8, data: Seq<u8>) -> Result<
    LightingState,
    DriverError,
> {
    if channel == VIA_CHANNEL_PACKED {
        Ok(described(current, data))
    } else if channel != VIA_CHANNEL_RGB_MATRIX {
        Err(DriverError::Unsupported { op: NO_CHANNEL })
    } else {
        match value_len(value_id) {
            None => Err(DriverError::Unsupported { op: NO_VALUE }),
            Some(n) if data.len() < n => Err(DriverError::ProtocolViolation { reason: SHORT_VALUE }),
            Some(_) => Ok(with_value(current, value_id, data)),
        }
    }
}

/// Setting brightness, effect or speed and reading it gives back what was set.
pub proof fn single_values_read_back(current: LightingState, value_id: u8, v: u8)
    requires
        value_len(value_id) == Some(1nat),
    ensures
        value_of(with_value(current, value_id, seq![v]), value_id) == seq![v],
{
}

/// The chunks in which an image is written.
pub open spec fn chunk_count(len: nat) -> nat {
    (len + 15) / 16
}

/// The chunk `k` of an image; the last may be shorter.
pub open spec fn chunk(image: Seq<u8>, k: int) -> Seq<u8> {
    image.subrange(
        16 * k,
        if 16 * k + 16 <= image.len() {
            16 * k + 16
        } else {
            image.len() as int
        },
    )
}

/// The calls that write an image to the profile sector: the address, the chunks,
/// the end.
pub open spec fn writes_sector(calls: Seq<HidppCall>, att: AttachInfo, image: Seq<u8>) -> bool {
    let n = chunk_count(image.len());
    &&& calls.len() == n + 2
    &&& attach::is_call(
        calls[0],
        att.device_idx,
        att.feat_onboard,
        ONB_MEMORY_ADDR_WRITE,
        seq![
            (att.profile_sector / 256) as u8,
            (att.profile_sector % 256) as u8,
            0,
            0,
            (image.len() / 256 % 256) as u8,
            (image.len() % 256) as u8,
        ],
        "onboard_memory_addr_write"@,
    )
    &&& forall|k: int|
        0 <= k < n ==> attach::is_call(
            #[trigger] calls[1 + k],
            att.device_idx,
            att.feat_onboard,
            ONB_MEMORY_WRITE,
            chunk(image, k),
            "onboard_memory_write"@,
        )
    &&& attach::is_call(
        calls[n as int + 1],
        att.device_idx,
        att.feat_onboard,
        ONB_MEMORY_WRITE_END,
        Seq::<u8>::empty(),
        "onboard_memory_write_end"@,
    )
}

/// The calls that write an image to the profile sector.
pub fn write_sector(att: &AttachInfo, image: &[u8]) -> (calls: Vec<HidppCall>)
    ensures
        writes_sector(calls@, *att, image@),
{
    let mut calls: Vec<HidppCall> = Vec::new();
    let len: usize = image.len();
    let mut params: Vec<u8> = Vec::new();
    params.push((att.profile_sector / 256) as u8);
    params.push((att.profile_sector % 256) as u8);
    params.push(0);
    params.push(0);
    params.push((len / 256 % 256) as u8);
    params.push((len % 256) as u8);
    proof {
        assert(params@ =~= seq![
            (att.profile_sector / 256) as u8,
            (att.profile_sector % 256) as u8,
            0,
            0,
            (image@.len() / 256 % 256) as u8,
            (image@.len() % 256) as u8,
        ]);
    }
    calls.push(
        HidppCall {
            device_idx: att.device_idx,
            feature_idx: att.feat_onboard,
            func: ONB_MEMORY_ADDR_WRITE,
            params,
            op: "onboard_memory_addr_write",
        },
    );
    let ghost first = calls@[0];
    let mut offset: usize = 0;
    let ghost mut k: int = 0;
    while offset < len
        invariant
            len == image@.len(),
            0 <= k,
            offset == if 16 * k <= len { 16 * k } else { len as int },
            k <= chunk_count(len as nat),
            calls@.len() == 1 + k,
            calls@[0] == first,
            forall|j: int|
                0 <= j < k ==> attach::is_call(
                    #[trigger] calls@[1 + j],
                    att.device_idx,
                    att.feat_onboard,
                    ONB_MEMORY_WRITE,
                    chunk(image@, j),
                    "onboard_memory_write"@,
                ),
        decreases len - offset,
    {
        let end: usize = if len - offset >= 16 {
            offset + 16
        } else {
            len
        };
        let part: Vec<u8> = vstd::slice::slice_to_vec(vstd::slice::slice_subrange(image, offset, end));
        proof {
            assert(part@ =~= chunk(image@, k));
        }
        calls.push(
            HidppCall {
                device_idx: att.device_idx,
                feature_idx: att.feat_onboard,
                func: ONB_MEMORY_WRITE,
                params: part,
                op: "onboard_memory_write",
            },
        );
        offset = end;
        proof {
            k = k + 1;
        }
    }
    proof {
        assert(k == chunk_count(len as nat));
    }
    calls.push(
        HidppCall {
            device_idx: att.device_idx,
            feature_idx: att.feat_onboard,
            func: ONB_MEMORY_WRITE_END,
            params: Vec::new(),
            op: "onboard_memory_write_end",
        },
    );
    calls
}

/// The chunks of an image put together are the image.
pub proof fn chunks_make_the_image(image: Seq<u8>, i: int)
    requires
        0 <= i < image.len(),
    ensures
        0 <= i / 16 < chunk_count(image.len()),
        chunk(image, i / 16)[i % 16] == image[i],
{
}

/// `entries` lists the first row of the first `layers` layers of `keymap` as
/// `(layer, gkey, keycode)`, by layer and key.
pub open spec fn lists_gkeys(entries: Seq<(u8, u8, u16)>, keymap: Map<(u8, u8, u8), u16>, layers: u8) -> bool {
    &&& forall|i: int, j: int|
        0 <= i < j < entries.len() ==> {
            let a = #[trigger] entries[i];
            let b = #[trigger] entries[j];
            a.0 < b.0 || (a.0 == b.0 && a.1 < b.1)
        }
    &&& forall|i: int|
        0 <= i < entries.len() ==> {
            let e = #[trigger] entries[i];
            e.0 < layers && keymap.dom().contains((e.0, 0, e.1)) && keymap[(e.0, 0, e.1)] == e.2
        }
    &&& forall|layer: u8, col: u8|
        layer < layers && #[trigger] keymap.dom().contains((layer, 0, col)) ==> entries.contains(
            (layer, col, keymap[(layer, 0, col)]),
        )
}

/// The outcome of compiling the G-keys of `keymap` over `baseline`: an image or
/// the error of the first key that cannot be compiled.
pub open spec fn compiles_to(
    baseline: Seq<u8>,
    keymap: Map<(u8, u8, u8), u16>,
    layers: u8,
    out: Result<Seq<u8>, DriverError>,
) -> bool {
    exists|entries: Seq<(u8, u8, u16)>| #[trigger]
        lists_gkeys(entries, keymap, layers) && if baseline.len() < profile::MIN_SECTOR_LEN {
            out matches Err(e) && profile::is_compile_error(e, profile::too_small_text(baseline.len()))
        } else if profile::first_bad(entries) < entries.len() {
            out matches Err(e) && profile::is_compile_error(
                e,
                profile::bad_entry_text(entries[profile::first_bad(entries)]),
            )
        } else {
            out == Ok::<Seq<u8>, DriverError>(profile::sealed(profile::with_entries(baseline, entries)))
        }
}

/// What a compiled image, or the reason against it, holds.
pub open spec fn outcome_of(r: Result<Vec<u8>, DriverError>) -> Result<Seq<u8>, DriverError> {
    match r {
        Ok(image) => Ok(image@),
        Err(e) => Err(e),
    }
}

/// What a commit does with the keymap.
#[derive(Debug)]
enum KeymapCommit {
    /// There is nothing to push.
    Clean,
    /// The keymap cannot be compiled; the shadow is rolled back.
    Refused { error: DriverError },
    /// These calls push the image.
    Push { calls: Vec<HidppCall>, image: Vec<u8> },
}

/// What a commit does next.
#[derive(Debug)]
pub enum CommitStep {
    /// These calls push the image; the first that fails ends the push.
    Push { calls: Vec<HidppCall>, image: Vec<u8> },
    /// This call makes the lighting durable.
    Persist { call: HidppCall },
    /// The commit is over.
    Done { result: Result<(), DriverError> },
}

/// What an optional image holds.
pub open spec fn image_of(image: Option<Vec<u8>>) -> Option<Seq<u8>> {
    match image {
        Some(i) => Some(i@),
        None => None,
    }
}

/// The driver of one keyboard.
pub struct LogitechDriver {
    matrix: (u8, u8),
    layers: u8,
    shadow: ShadowState,
    lighting: LightingState,
    lighting_dirty: bool,
    model: String,
    attach: Option<AttachInfo>,
    baseline: Option<Vec<u8>>,
}

impl LogitechDriver {
    pub closed spec fn shadow(&self) -> ShadowState {
        self.shadow
    }

    /// The lighting in effect.
    pub closed spec fn light(&self) -> LightingState {
        self.lighting
    }

    /// The lighting has changed since it was last made durable.
    pub closed spec fn light_dirty(&self) -> bool {
        self.lighting_dirty
    }

    pub closed spec fn name(&self) -> Seq<char> {
        self.model@
    }

    /// What the handshake found out, once it is complete.
    pub closed spec fn attachment(&self) -> Option<AttachInfo> {
        self.attach
    }

    /// The profile image that the device holds, if it is known.
    pub closed spec fn baseline(&self) -> Option<Seq<u8>> {
        image_of(self.baseline)
    }

    pub closed spec fn dimensions(&self) -> (u8, u8) {
        self.matrix
    }

    pub closed spec fn layer_total(&self) -> u8 {
        self.layers
    }

    pub closed spec fn wf(&self) -> bool {
        self.shadow.wf()
    }

    /// Same dimensions and layers.
    pub open spec fn same_board(&self, other: &LogitechDriver) -> bool {
        self.dimensions() == other.dimensions() && self.layer_total() == other.layer_total()
    }

    /// Same board, name and handshake.
    pub open spec fn same_device(&self, other: &LogitechDriver) -> bool {
        self.same_board(other) && self.name() == other.name() && self.attachment() == other.attachment()
    }

    /// The pending keymap cannot be compiled, because of `error`, and is rolled back.
    pub open spec fn refused(&self, old_self: &LogitechDriver, error: DriverError) -> bool {
        &&& self.shadow().keymap() == old_self.shadow().confirmed()
        &&& self.shadow().dirty() == Map::<(u8, u8, u8), u16>::empty()
        &&& self.shadow().cache_status() == legacy::CacheStatus::Failed
        &&& match old_self.baseline() {
            None => profile::is_compile_error(error, NO_BASELINE@),
            Some(base) => compiles_to(base, old_self.shadow().keymap(), old_self.layer_total(), Err(error)),
        }
    }

    /// `calls` push the pending keymap as `image`; the shadow waits for the outcome.
    pub open spec fn pushes(&self, old_self: &LogitechDriver, calls: Seq<HidppCall>, image: Seq<u8>) -> bool {
        &&& self.shadow().same_contents(&old_self.shadow())
        &&& self.shadow().cache_status() == legacy::CacheStatus::Pending
        &&& old_self.baseline() matches Some(base)
        &&& compiles_to(base, old_self.shadow().keymap(), old_self.layer_total(), Ok(image))
        &&& writes_sector(calls, old_self.attachment()->0, image)
    }

    /// How the push of `image` ended: with a confirmed keymap, which `save`
    /// persists, or with a rollback.
    pub open spec fn took_push(
        &self,
        old_self: &LogitechDriver,
        image: Seq<u8>,
        succeeded: bool,
        save: Option<SaveRequest>,
    ) -> bool {
        if succeeded {
            &&& self.baseline() == Some(image)
            &&& self.shadow().keymap() == old_self.shadow().keymap()
            &&& self.shadow().confirmed() == old_self.shadow().keymap()
            &&& self.shadow().cache_status() == legacy::CacheStatus::Confirmed
            &&& legacy::saves(save, self.shadow().path(), self.shadow().keymap(), self.shadow().light())
        } else {
            &&& self.baseline() == old_self.baseline()
            &&& self.shadow().keymap() == old_self.shadow().confirmed()
            &&& self.shadow().confirmed() == old_self.shadow().confirmed()
            &&& self.shadow().cache_status() == legacy::CacheStatus::Failed
            &&& save is None
        }
    }

    /// How a commit goes on once the keymap is settled: a changed lighting is made
    /// durable, and otherwise the commit is over.
    pub open spec fn settles_lighting(&self, step: CommitStep) -> bool {
        if !self.light_dirty() {
            step == (CommitStep::Done { result: Ok(()) })
        } else {
            match self.attachment()->0.feat_rgb {
                None => step == (CommitStep::Done { result: Err(DriverError::Unsupported { op: NO_RGB }) }),
                Some(feat) => step matches CommitStep::Persist { call } && attach::is_call(
                    call,
                    self.attachment()->0.device_idx,
                    feat,
                    RGB_SET_CLUSTER_EFFECT,
                    cluster_effect(RGB_CLUSTER_PRIMARY, self.light(), RGB_PERSIST_FLASH),
                    "rgb_set_cluster_effect"@,
                ),
            }
        }
    }

    /// A driver that starts from a shadow, whose lighting it takes over.
    pub fn new(matrix: (u8, u8), layers: u8, shadow: ShadowState) -> (d: LogitechDriver)
        requires
            shadow.wf(),
        ensures
            d.wf(),
            d.dimensions() == matrix,
            d.layer_total() == layers,
            d.shadow() == shadow,
            d.light() == shadow.light(),
            !d.light_dirty(),
            d.name() == DEFAULT_MODEL@,
            d.attachment() is None,
            d.baseline() is None,
    {
        let lighting: LightingState = *shadow.lighting();
        LogitechDriver {
            matrix,
            layers,
            shadow,
            lighting,
            lighting_dirty: false,
            model: DEFAULT_MODEL.to_owned(),
            attach: None,
            baseline: None,
        }
    }

    /// What the handshake found out; `None` as long as it has to be made.
    pub fn attached(&self) -> (info: Option<AttachInfo>)
        ensures
            info == self.attachment(),
    {
        self.attach
    }

    /// The device told its name.
    pub fn named(&mut self, model: String)
        requires
            old(self).wf(),
        ensures
            final(self).wf(),
            final(self).same_board(old(self)),
            final(self).name() == model@,
            final(self).attachment() == old(self).attachment(),
            final(self).shadow() == old(self).shadow(),
            final(self).light() == old(self).light(),
            final(self).light_dirty() == old(self).light_dirty(),
            final(self).baseline() == old(self).baseline(),
    {
        self.model = model;
    }

    /// The handshake is complete. If it brought the profile image, the device's
    /// own bindings are taken over as the confirmed keymap.
    pub fn attach_finished(&mut self, info: AttachInfo, image: Option<Vec<u8>>)
        requires
            old(self).wf(),
        ensures
            final(self).wf(),
            final(self).same_board(old(self)),
            final(self).name() == old(self).name(),
            final(self).attachment() == Some(info),
            final(self).light() == old(self).light(),
            final(self).light_dirty() == old(self).light_dirty(),
            match image {
                Some(i) => {
                    let bindings = profile::bindings_in(i@, old(self).layer_total(), old(self).dimensions().1);
                    &&& final(self).baseline() == Some(i@)
                    &&& final(self).shadow().keymap() == bindings
                    &&& final(self).shadow().confirmed() == bindings
                    &&& final(self).shadow().dirty() == Map::<(u8, u8, u8), u16>::empty()
                    &&& final(self).shadow().cache_status() == legacy::CacheStatus::Confirmed
                    &&& final(self).shadow().light() == old(self).shadow().light()
                    &&& final(self).shadow().path() == old(self).shadow().path()
                },
                None => {
                    &&& final(self).baseline() == old(self).baseline()
                    &&& final(self).shadow() == old(self).shadow()
                },
            },
    {
        self.attach = Some(info);
        if let Some(i) = image {
            let bindings = parse_gkey_bindings(i.as_slice(), self.layers, self.matrix.1);
            self.shadow.adopt_confirmed(bindings);
            self.baseline = Some(i);
        }
    }

    /// Rows and columns.
    pub fn get_matrix_dimensions(&self) -> (m: (u8, u8))
        ensures
            m == self.dimensions(),
    {
        self.matrix
    }

    pub fn get_layer_count(&self) -> (n: u8)
        ensures
            n == self.layer_total(),
    {
        self.layers
    }

    pub fn model_name(&self) -> (name: &str)
        ensures
            name@ == self.name(),
    {
        self.model.as_str()
    }

    /// How the shadow relates to the device.
    pub fn status(&self) -> (status: legacy::CacheStatus)
        ensures
            status == self.shadow().cache_status(),
    {
        self.shadow.status()
    }

    /// True when the keymap has pending changes.
    pub fn is_dirty(&self) -> (dirty: bool)
        requires
            self.wf(),
        ensures
            dirty == (self.shadow().dirty() != Map::<(u8, u8, u8), u16>::empty()),
    {
        self.shadow.is_dirty()
    }

    /// True when the profile image that the device holds is known.
    pub fn has_baseline(&self) -> (known: bool)
        ensures
            known == self.baseline() is Some,
    {
        self.baseline.is_some()
    }

    /// The keycode in the shadow; 0 where nothing was written.
    pub fn get_keycode(&self, layer: u8, row: u8, col: u8) -> (keycode: u16)
        requires
            self.wf(),
        ensures
            keycode == if self.shadow().keymap().dom().contains((layer, row, col)) {
                self.shadow().keymap()[(layer, row, col)]
            } else {
                0
            },
    {
        self.shadow.get_keycode(layer, row, col)
    }

    /// Writes a keycode to the shadow, if there is such a G-key and the device
    /// can express the keycode.
    pub fn set_keycode(&mut self, layer: u8, row: u8, col: u8, keycode: u16) -> (r: Result<(), DriverError>)
        requires
            old(self).wf(),
        ensures
            final(self).wf(),
            final(self).same_device(old(self)),
            final(self).light() == old(self).light(),
            final(self).light_dirty() == old(self).light_dirty(),
            final(self).baseline() == old(self).baseline(),
            if layer >= old(self).layer_total() || layer >= profile::GKEY_BANKS {
                r == Err::<(), DriverError>(DriverError::Unsupported { op: NO_LAYER })
            } else if row != 0 || col >= old(self).dimensions().1 {
                r == Err::<(), DriverError>(DriverError::Unsupported { op: NO_GKEY })
            } else if profile::binding_of(keycode) is None {
                r matches Err(e) && profile::is_compile_error(e, profile::no_binding_text(keycode))
            } else {
                r == Ok::<(), DriverError>(())
            },
            match r {
                Ok(_) => {
                    &&& final(self).shadow().keymap() == old(self).shadow().keymap().insert(
                        (layer, row, col),
                        keycode,
                    )
                    &&& final(self).shadow().dirty() == old(self).shadow().dirty().insert(
                        (layer, row, col),
                        keycode,
                    )
                    &&& final(self).shadow().confirmed() == old(self).shadow().confirmed()
                    &&& final(self).shadow().light() == old(self).shadow().light()
                    &&& final(self).shadow().path() == old(self).shadow().path()
                    &&& final(self).shadow().cache_status() == legacy::CacheStatus::Pending
                },
                Err(_) => final(self).shadow() == old(self).shadow(),
            },
    {
        if layer >= self.layers || gkey_binding_offset(layer, 0).is_none() {
            return Err(DriverError::Unsupported { op: NO_LAYER });
        }
        if row != 0 || col >= self.matrix.1 {
            return Err(DriverError::Unsupported { op: NO_GKEY });
        }
        match encode_gkey_binding(keycode) {
            Ok(_) => {
                self.shadow.set_keycode(layer, row, col, keycode);
                Ok(())
            },
            Err(e) => Err(e),
        }
    }

    /// There is no macro storage.
    pub fn get_macro_buffer(&self, _offset: u16, _length: u8) -> (r: Result<Vec<u8>, DriverError>)
        ensures
            r matches Err(e) && e == (DriverError::Unsupported { op: NO_MACROS }),
    {
        Err(DriverError::Unsupported { op: NO_MACROS })
    }

    /// There is no macro storage.
    pub fn set_macro_buffer(&self, _offset: u16, _data: &[u8]) -> (r: Result<(), DriverError>)
        ensures
            r matches Err(e) && e == (DriverError::Unsupported { op: NO_MACROS }),
    {
        Err(DriverError::Unsupported { op: NO_MACROS })
    }

    /// The call that applies a lighting to the whole keyboard.
    fn push_lighting(&self, att: &AttachInfo, lighting: &LightingState, persist: u8) -> (r: Result<
        HidppCall,
        DriverError,
    >)
        ensures
            match att.feat_rgb {
                Some(feat) => r matches Ok(call) && attach::is_call(
                    call,
                    att.device_idx,
                    feat,
                    RGB_SET_CLUSTER_EFFECT,
                    cluster_effect(RGB_CLUSTER_PRIMARY, *lighting, persist),
                    "rgb_set_cluster_effect"@,
                ),
                None => r matches Err(e) && e == (DriverError::Unsupported { op: NO_RGB }),
            },
    {
        match att.feat_rgb {
            Some(feat) => {
                let p: [u8; 16] = encode_cluster_effect(RGB_CLUSTER_PRIMARY, lighting, persist);
                Ok(
                    HidppCall {
                        device_idx: att.device_idx,
                        feature_idx: feat,
                        func: RGB_SET_CLUSTER_EFFECT,
                        params: vstd::slice::slice_to_vec(p.as_slice()),
                        op: "rgb_set_cluster_effect",
                    },
                )
            },
            None => Err(DriverError::Unsupported { op: NO_RGB }),
        }
    }

    /// The current lighting with one VIA value set.
    fn lighting_with_via_value(&self, value_id: u8, data: &[u8]) -> (r: Result<LightingState, DriverError>)
        ensures
            r == lit(self.light(), VIA_CHANNEL_RGB_MATRIX, value_id, data@),
    {
        let mut lighting: LightingState = self.lighting;
        if value_id == VIA_VALUE_BRIGHTNESS || value_id == VIA_VALUE_EFFECT || value_id == VIA_VALUE_SPEED {
            if data.len() < 1 {
                return Err(DriverError::ProtocolViolation { reason: SHORT_VALUE });
            }
            if value_id == VIA_VALUE_BRIGHTNESS {
                lighting.brightness = data[0];
            } else if value_id == VIA_VALUE_EFFECT {
                lighting.mode = data[0];
            } else {
                lighting.speed = data[0];
            }
            Ok(lighting)
        } else if value_id == VIA_VALUE_COLOR {
            if data.len() < 2 {
                return Err(DriverError::ProtocolViolation { reason: SHORT_VALUE });
            }
            let (r, g, b) = hs_to_rgb(data[0], data[1]);
            lighting.r = r;
            lighting.g = g;
            lighting.b = b;
            lighting.random = false;
            Ok(lighting)
        } else {
            Err(DriverError::Unsupported { op: NO_VALUE })
        }
    }

    /// The lighting that `data` describes, and the call that applies it until
    /// power-off.
    pub fn set_lighting(&self, channel: u8, value_id: u8, data: &[u8]) -> (r: Result<
        (LightingState, HidppCall),
        DriverError,
    >)
        requires
            self.attachment() is Some,
        ensures
            match lit(self.light(), channel, value_id, data@) {
                Err(e) => r == Err::<(LightingState, HidppCall), DriverError>(e),
                Ok(lighting) => match self.attachment()->0.feat_rgb {
                    None => r matches Err(e) && e == (DriverError::Unsupported { op: NO_RGB }),
                    Some(feat) => {
                        &&& r matches Ok((l, call))
                        &&& l == lighting
                        &&& attach::is_call(
                            call,
                            self.attachment()->0.device_idx,
                            feat,
                            RGB_SET_CLUSTER_EFFECT,
                            cluster_effect(RGB_CLUSTER_PRIMARY, lighting, RGB_PERSIST_RAM),
                            "rgb_set_cluster_effect"@,
                        )
                    },
                },
            },
    {
        let lighting: LightingState = if channel == VIA_CHANNEL_PACKED {
            lighting_from_bytes(&self.lighting, data)
        } else if channel == VIA_CHANNEL_RGB_MATRIX {
            match self.lighting_with_via_value(value_id, data) {
                Ok(l) => l,
                Err(e) => {
                    return Err(e);
                },
            }
        } else {
            return Err(DriverError::Unsupported { op: NO_CHANNEL });
        };
        match &self.attach {
            Some(att) => match self.push_lighting(att, &lighting, RGB_PERSIST_RAM) {
                Ok(call) => Ok((lighting, call)),
                Err(e) => Err(e),
            },
            None => Err(DriverError::Disconnected),
        }
    }

    /// The lighting is in effect. It is persisted at once, and made durable on
    /// the device by the next commit.
    pub fn lighting_applied(&mut self, lighting: LightingState) -> (save: Option<SaveRequest>)
        requires
            old(self).wf(),
        ensures
            final(self).wf(),
            final(self).same_device(old(self)),
            final(self).baseline() == old(self).baseline(),
            final(self).light() == lighting,
            final(self).light_dirty(),
            final(self).shadow().keymap() == old(self).shadow().keymap(),
            final(self).shadow().confirmed() == old(self).shadow().confirmed(),
            final(self).shadow().dirty() == old(self).shadow().dirty(),
            final(self).shadow().cache_status() == old(self).shadow().cache_status(),
            final(self).shadow().path() == old(self).shadow().path(),
            final(self).shadow().light() == lighting,
            legacy::saves(save, old(self).shadow().path(), old(self).shadow().confirmed(), lighting),
    {
        self.lighting = lighting;
        self.shadow.set_lighting(lighting);
        self.lighting_dirty = true;
        self.shadow.persist_lighting()
    }

    /// The lighting, packed or as one VIA value.
    pub fn get_lighting(&self, channel: u8, value_id: u8) -> (r: Result<Vec<u8>, DriverError>)
        ensures
            if channel == VIA_CHANNEL_PACKED {
                r matches Ok(data) && data@ == payload(self.light())
            } else if channel != VIA_CHANNEL_RGB_MATRIX {
                r matches Err(e) && e == (DriverError::Unsupported { op: NO_CHANNEL })
            } else if value_len(value_id) is None {
                r matches Err(e) && e == (DriverError::Unsupported { op: NO_VALUE })
            } else {
                r matches Ok(data) && data@ == value_of(self.light(), value_id)
            },
    {
        if channel == VIA_CHANNEL_PACKED {
            return Ok(lighting_to_bytes(&self.lighting));
        }
        if channel != VIA_CHANNEL_RGB_MATRIX {
            return Err(DriverError::Unsupported { op: NO_CHANNEL });
        }
        let mut data: Vec<u8> = Vec::new();
        if value_id == VIA_VALUE_BRIGHTNESS {
            data.push(self.lighting.brightness);
        } else if value_id == VIA_VALUE_EFFECT {
            data.push(self.lighting.mode);
        } else if value_id == VIA_VALUE_SPEED {
            data.push(self.lighting.speed);
        } else if value_id == VIA_VALUE_COLOR {
            let (h, s) = rgb_to_hs(self.lighting.r, self.lighting.g, self.lighting.b);
            data.push(h);
            data.push(s);
        } else {
            return Err(DriverError::Unsupported { op: NO_VALUE });
        }
        proof {
            assert(data@ =~= value_of(self.light(), value_id));
        }
        Ok(data)
    }

    /// The G-keys of the shadow, by layer and key. Entries off the G-key row are
    /// left out.
    fn gkey_entries(&self) -> (entries: Vec<(u8, u8, u16)>)
        requires
            self.wf(),
        ensures
            lists_gkeys(entries@, self.shadow().keymap(), self.layer_total()),
    {
        let mut entries: Vec<(u8, u8, u16)> = Vec::new();
        let ghost keymap = self.shadow().keymap();
        let mut layer: u8 = 0;
        while layer < self.layers
            invariant
                self.wf(),
                keymap == self.shadow().keymap(),
                layer <= self.layers,
                lists_gkeys(entries@, keymap, layer),
            decreases self.layers - layer,
        {
            let cells = self.shadow.layer_entries(layer);
            let ghost before = entries@;
            let mut i: usize = 0;
            while i < cells.len()
                invariant
                    legacy::lists_cells(cells@, keymap, layer),
                    i <= cells@.len(),
                    lists_gkeys(before, keymap, layer),
                    before.len() <= entries@.len(),
                    entries@.take(before.len() as int) == before,
                    forall|a: int|
                        before.len() <= a < entries@.len() ==> {
                            let e = #[trigger] entries@[a];
                            e.0 == layer && exists|j: int|
                                0 <= j < i && #[trigger] cells@[j] == (0u8, e.1, e.2)
                        },
                    forall|a: int, b: int|
                        before.len() <= a < b < entries@.len() ==> (#[trigger] entries@[a]).1 < (
                        #[trigger] entries@[b]).1,
                    forall|j: int|
                        0 <= j < i && (#[trigger] cells@[j]).0 == 0 ==> entries@.contains(
                            (layer, cells@[j].1, cells@[j].2),
                        ),
                decreases cells@.len() - i,
            {
                let ghost was = entries@;
                let cell: (u8, u8, u16) = cells[i];
                if cell.0 == 0 {
                    entries.push((layer, cell.1, cell.2));
                    proof {
                        assert(entries@[was.len() as int] == (layer, cell.1, cell.2));
                        assert forall|a: int| before.len() <= a < was.len() implies (#[trigger] was[a]).1 < cell.1 by {
                            let e = was[a];
                            let j = choose|j: int| 0 <= j < i && #[trigger] cells@[j] == (0u8, e.1, e.2);
                            assert(cells@[j].1 < cells@[i as int].1);
                        }
                    }
                }
                proof {
                    assert(entries@.take(before.len() as int) =~= before);
                    assert forall|a: int| before.len() <= a < entries@.len() implies {
                        let e = #[trigger] entries@[a];
                        e.0 == layer && exists|j: int| 0 <= j < i + 1 && #[trigger] cells@[j] == (0u8, e.1, e.2)
                    } by {
                        let e = entries@[a];
                        if a < was.len() {
                            assert(e == was[a]);
                            let j = choose|j: int| 0 <= j < i && #[trigger] cells@[j] == (0u8, e.1, e.2);
                            assert(cells@[j] == (0u8, e.1, e.2));
                        } else {
                            assert(cells@[i as int] == (0u8, e.1, e.2));
                        }
                    }
                    assert forall|j: int| 0 <= j < i + 1 && (#[trigger] cells@[j]).0 == 0 implies entries@.contains(
                        (layer, cells@[j].1, cells@[j].2),
                    ) by {
                        let e = (layer, cells@[j].1, cells@[j].2);
                        if j < i {
                            let k = choose|k: int| 0 <= k < was.len() && was[k] == e;
                            assert(entries@[k] == e);
                        } else {
                            assert(entries@[was.len() as int] == e);
                        }
                    }
                }
                i = i + 1;
            }
            proof {
                let all = entries@;
                let n = before.len() as int;
                assert forall|a: int| 0 <= a < n implies all[a] == before[a] by {
                    assert(all.take(n)[a] == before[a]);
                }
                assert forall|a: int, b: int| 0 <= a < b < all.len() implies {
                    let x = #[trigger] all[a];
                    let y = #[trigger] all[b];
                    x.0 < y.0 || (x.0 == y.0 && x.1 < y.1)
                } by {
                    if b < n {
                        assert(all[a] == before[a] && all[b] == before[b]);
                    } else if a < n {
                        assert(all[a] == before[a]);
                    }
                }
                assert forall|a: int| 0 <= a < all.len() implies {
                    let e = #[trigger] all[a];
                    e.0 < layer + 1 && keymap.dom().contains((e.0, 0, e.1)) && keymap[(e.0, 0, e.1)] == e.2
                } by {
                    let e = all[a];
                    if a < n {
                        assert(e == before[a]);
                    } else {
                        let j = choose|j: int| 0 <= j < i && #[trigger] cells@[j] == (0u8, e.1, e.2);
                        assert(keymap.dom().contains((layer, cells@[j].0, cells@[j].1)));
                    }
                }
                assert forall|l: u8, col: u8|
                    l < layer + 1 && #[trigger] keymap.dom().contains((l, 0, col)) implies all.contains(
                    (l, col, keymap[(l, 0, col)]),
                ) by {
                    let e = (l, col, keymap[(l, 0, col)]);
                    if l < layer {
                        let k = choose|k: int| 0 <= k < before.len() && before[k] == e;
                        assert(all[k] == e);
                    } else {
                        let c = (0u8, col, keymap[(l, 0, col)]);
                        assert(cells@.contains(c));
                        let j = choose|j: int| 0 <= j < cells@.len() && cells@[j] == c;
                        assert(cells@[j].0 == 0);
                    }
                }
            }
            layer = layer + 1;
        }
        entries
    }

    /// The first half of a commit: the pending keymap compiled over the known
    /// profile image. Without a known image, or if the keymap cannot be compiled,
    /// it is refused and the shadow is rolled back.
    fn begin_keymap_commit(&mut self) -> (commit: KeymapCommit)
        requires
            old(self).wf(),
            old(self).attachment() is Some,
        ensures
            final(self).wf(),
            final(self).same_device(old(self)),
            final(self).baseline() == old(self).baseline(),
            final(self).light() == old(self).light(),
            final(self).light_dirty() == old(self).light_dirty(),
            final(self).shadow().light() == old(self).shadow().light(),
            final(self).shadow().path() == old(self).shadow().path(),
            final(self).shadow().confirmed() == old(self).shadow().confirmed(),
            if old(self).shadow().dirty() == Map::<(u8, u8, u8), u16>::empty() {
                &&& commit is Clean
                &&& final(self).shadow() == old(self).shadow()
            } else {
                match commit {
                    KeymapCommit::Clean => false,
                    KeymapCommit::Refused { error } => final(self).refused(old(self), error),
                    KeymapCommit::Push { calls, image } => final(self).pushes(old(self), calls@, image@),
                }
            },
    {
        if !self.shadow.is_dirty() {
            return KeymapCommit::Clean;
        }
        self.shadow.prepare_commit();
        let compiled: Result<Vec<u8>, DriverError> = match &self.baseline {
            Some(base) => {
                let entries = self.gkey_entries();
                let r = compile_profile_image(base.as_slice(), entries.as_slice());
                proof {
                    assert(lists_gkeys(entries@, self.shadow().keymap(), self.layer_total()));
                    assert(compiles_to(base@, self.shadow().keymap(), self.layer_total(), outcome_of(r)));
                }
                r
            },
            None => Err(
                DriverError::VendorCompile { vendor: profile::VENDOR, detail: NO_BASELINE.to_owned() },
            ),
        };
        match compiled {
            Ok(image) => match &self.attach {
                Some(att) => {
                    let calls = write_sector(att, image.as_slice());
                    KeymapCommit::Push { calls, image }
                },
                None => KeymapCommit::Clean,
            },
            Err(error) => {
                self.shadow.rollback();
                KeymapCommit::Refused { error }
            },
        }
    }

    /// The push of `image` ended with `outcome`. On success the keymap is
    /// confirmed and `image` is what the device holds; on failure the shadow is
    /// rolled back.
    fn keymap_pushed(&mut self, image: Vec<u8>, outcome: Result<(), DriverError>) -> (out: CommitOutcome)
        requires
            old(self).wf(),
        ensures
            final(self).wf(),
            final(self).same_device(old(self)),
            final(self).light() == old(self).light(),
            final(self).light_dirty() == old(self).light_dirty(),
            final(self).shadow().light() == old(self).shadow().light(),
            final(self).shadow().path() == old(self).shadow().path(),
            final(self).shadow().dirty() == Map::<(u8, u8, u8), u16>::empty(),
            out.result == outcome,
            final(self).took_push(old(self), image@, outcome is Ok, out.save),
    {
        match outcome {
            Ok(_) => {
                self.baseline = Some(image);
                let save = self.shadow.confirm_commit();
                CommitOutcome { result: outcome, save }
            },
            Err(_) => {
                self.shadow.rollback();
                CommitOutcome { result: outcome, save: None }
            },
        }
    }

    /// The second half of a commit: the call that makes a changed lighting
    /// durable. It is made only if the first half succeeded.
    fn begin_lighting_commit(&self) -> (r: Result<Option<HidppCall>, DriverError>)
        requires
            self.attachment() is Some,
        ensures
            if !self.light_dirty() {
                r matches Ok(None)
            } else {
                match self.attachment()->0.feat_rgb {
                    None => r matches Err(e) && e == (DriverError::Unsupported { op: NO_RGB }),
                    Some(feat) => r matches Ok(Some(call)) && attach::is_call(
                        call,
                        self.attachment()->0.device_idx,
                        feat,
                        RGB_SET_CLUSTER_EFFECT,
                        cluster_effect(RGB_CLUSTER_PRIMARY, self.light(), RGB_PERSIST_FLASH),
                        "rgb_set_cluster_effect"@,
                    ),
                }
            },
    {
        if !self.lighting_dirty {
            return Ok(None);
        }
        match &self.attach {
            Some(att) => match self.push_lighting(att, &self.lighting, RGB_PERSIST_FLASH) {
                Ok(call) => Ok(Some(call)),
                Err(e) => Err(e),
            },
            None => Ok(None),
        }
    }

    /// The lighting is durable.
    fn lighting_persisted(&mut self)
        requires
            old(self).wf(),
        ensures
            final(self).wf(),
            final(self).same_device(old(self)),
            final(self).baseline() == old(self).baseline(),
            final(self).shadow() == old(self).shadow(),
            final(self).light() == old(self).light(),
            !final(self).light_dirty(),
    {
        self.lighting_dirty = false;
    }

    /// The lighting half of a commit.
    fn settle_lighting(&self) -> (step: CommitStep)
        requires
            self.attachment() is Some,
        ensures
            self.settles_lighting(step),
    {
        match self.begin_lighting_commit() {
            Ok(Some(call)) => CommitStep::Persist { call },
            Ok(None) => CommitStep::Done { result: Ok(()) },
            Err(e) => CommitStep::Done { result: Err(e) },
        }
    }

    /// Begins a commit: first the keymap, if it has pending changes, then the
    /// lighting. A keymap that cannot be compiled ends the commit.
    pub fn begin_commit(&mut self) -> (step: CommitStep)
        requires
            old(self).wf(),
            old(self).attachment() is Some,
        ensures
            final(self).wf(),
            final(self).same_device(old(self)),
            final(self).baseline() == old(self).baseline(),
            final(self).light() == old(self).light(),
            final(self).light_dirty() == old(self).light_dirty(),
            final(self).shadow().light() == old(self).shadow().light(),
            final(self).shadow().path() == old(self).shadow().path(),
            final(self).shadow().confirmed() == old(self).shadow().confirmed(),
            if old(self).shadow().dirty() == Map::<(u8, u8, u8), u16>::empty() {
                &&& final(self).shadow() == old(self).shadow()
                &&& final(self).settles_lighting(step)
            } else {
                match step {
                    CommitStep::Push { calls, image } => final(self).pushes(old(self), calls@, image@),
                    CommitStep::Done { result: Err(error) } => final(self).refused(old(self), error),
                    _ => false,
                }
            },
    {
        match self.begin_keymap_commit() {
            KeymapCommit::Clean => self.settle_lighting(),
            KeymapCommit::Refused { error } => CommitStep::Done { result: Err(error) },
            KeymapCommit::Push { calls, image } => CommitStep::Push { calls, image },
        }
    }

    /// The push of `image` ended with `outcome`. A push that failed ends the
    /// commit: the shadow is rolled back, and the lighting is left as it is. After
    /// one that succeeded the keymap is to be persisted, and the lighting follows.
    pub fn push_finished(&mut self, image: Vec<u8>, outcome: Result<(), DriverError>) -> (out: (
        Option<SaveRequest>,
        CommitStep,
    ))
        requires
            old(self).wf(),
            old(self).attachment() is Some,
        ensures
            final(self).wf(),
            final(self).same_device(old(self)),
            final(self).light() == old(self).light(),
            final(self).light_dirty() == old(self).light_dirty(),
            final(self).shadow().light() == old(self).shadow().light(),
            final(self).shadow().path() == old(self).shadow().path(),
            final(self).shadow().dirty() == Map::<(u8, u8, u8), u16>::empty(),
            final(self).took_push(old(self), image@, outcome is Ok, out.0),
            match outcome {
                Ok(_) => final(self).settles_lighting(out.1),
                Err(e) => out.1 == (CommitStep::Done { result: Err(e) }),
            },
    {
        let CommitOutcome { result, save } = self.keymap_pushed(image, outcome);
        match result {
            Ok(_) => (save, self.settle_lighting()),
            Err(e) => (save, CommitStep::Done { result: Err(e) }),
        }
    }

    /// The call that makes the lighting durable ended with `outcome`, and so does
    /// the commit. After a failure the lighting is still to be made durable.
    pub fn persist_finished(&mut self, outcome: Result<(), DriverError>) -> (result: Result<(), DriverError>)
        requires
            old(self).wf(),
        ensures
            final(self).wf(),
            final(self).same_device(old(self)),
            final(self).baseline() == old(self).baseline(),
            final(self).shadow() == old(self).shadow(),
            final(self).light() == old(self).light(),
            final(self).light_dirty() == (outcome is Err && old(self).light_dirty()),
            result == outcome,
    {
        if outcome.is_ok() {
            self.lighting_persisted();
        }
        outcome
    }

    /// Writes wait in the shadow for a commit.
    pub fn buffering(&self) -> (b: Buffering)
        ensures
            b == Buffering::Shadowed,
    {
        Buffering::Shadowed
    }
}

/// A pushed profile holds the keymap: every G-key that the layout has is bound to
/// its keycode, and the image carries a valid checksum.
pub proof fn pushed_profiles_hold_the_keymap(
    baseline: Seq<u8>,
    keymap: Map<(u8, u8, u8), u16>,
    layers: u8,
    image: Seq<u8>,
    layer: u8,
    gkey: u8,
)
    requires
        compiles_to(baseline, keymap, layers, Ok(image)),
        layer < layers,
        keymap.dom().contains((layer, 0, gkey)),
    ensures
        profile::is_sealed(image),
        image.len() == baseline.len(),
        profile::binding_at(image, layer, gkey) == if keymap[(layer, 0, gkey)] == 0 {
            None
        } else {
            Some(keymap[(layer, 0, gkey)])
        },
{
    let entries = choose|entries: Seq<(u8, u8, u16)>| #[trigger]
        lists_gkeys(entries, keymap, layers) && if baseline.len() < profile::MIN_SECTOR_LEN {
            false
        } else if profile::first_bad(entries) < entries.len() {
            false
        } else {
            Ok::<Seq<u8>, DriverError>(image) == Ok::<Seq<u8>, DriverError>(
                profile::sealed(profile::with_entries(baseline, entries)),
            )
        };
    let e = (layer, gkey, keymap[(layer, 0, gkey)]);
    assert(entries.contains(e));
    let i = choose|i: int| 0 <= i < entries.len() && entries[i] == e;
    profile::all_compilable(entries);
    profile::with_entries_len(baseline, entries);
    profile::compiled_images_are_sealed(profile::with_entries(baseline, entries));
    assert forall|j: int| i < j < entries.len() implies (#[trigger] entries[j]).0 != entries[i].0 || entries[j].1
        != entries[i].1 by {
        let a = entries[i];
        let b = entries[j];
        assert(a.0 < b.0 || (a.0 == b.0 && a.1 < b.1));
    }
    profile::compiled_bindings_read_back(baseline, entries, i);
}

/// Accepts the node whose descriptor names a HID++ usage page. An empty
/// descriptor is refused.
pub fn probe_hidpp_interface(descriptor: &[u8]) -> (r: Result<(), DriverError>)
    ensures
        r == if descriptor@.len() == 0 {
            Err::<(), DriverError>(DriverError::ProtocolViolation { reason: BAD_DESCRIPTOR_SIZE })
        } else if hid::names_usage_page(descriptor@, HIDPP_USAGE_PAGE_RECEIVER) || hid::names_usage_page(
            descriptor@,
            HIDPP_USAGE_PAGE_WIRED,
        ) {
            Ok::<(), DriverError>(())
        } else {
            Err::<(), DriverError>(DriverError::ProtocolViolation { reason: NOT_HIDPP })
        },
{
    if descriptor.len() == 0 {
        return Err(DriverError::ProtocolViolation { reason: BAD_DESCRIPTOR_SIZE });
    }
    if hid_descriptor_has_usage_page(descriptor, HIDPP_USAGE_PAGE_RECEIVER) || hid_descriptor_has_usage_page(
        descriptor,
        HIDPP_USAGE_PAGE_WIRED,
    ) {
        Ok(())
    } else {
        Err(DriverError::ProtocolViolation { reason: NOT_HIDPP })
    }
}

/// The sixteen parameters of a cluster effect: cluster, mode, red, green, blue,
/// the period in milliseconds, high byte first, the brightness, and at 9 how long
/// it lasts; all others are zero. The period shrinks from two seconds by seven
/// milliseconds for each step of speed.
pub proof fn cluster_effect_bytes(cluster: u8, l: LightingState, persist: u8)
    ensures
        ({
            let p = cluster_effect(cluster, l, persist);
            &&& p.len() == 16
            &&& p[0] == cluster
            &&& p[1] == l.mode
            &&& p[2] == l.r
            &&& p[3] == l.g
            &&& p[4] == l.b
            &&& 256 * p[5] + p[6] + 7 * l.speed == 2000
            &&& p[7] == l.brightness
            &&& p[8] == 0
            &&& p[9] == persist
            &&& forall|i: int| 10 <= i < 16 ==> #[trigger] p[i] == 0
        }),
{
}

/// The packed payload is mode, red, green, blue, brightness, the random flag,
/// speed and direction.
pub proof fn payload_bytes(l: LightingState)
    ensures
        ({
            let p = payload(l);
            &&& p.len() == 8
            &&& p[0] == l.mode && p[1] == l.r && p[2] == l.g && p[3] == l.b
            &&& p[4] == l.brightness
            &&& p[5] == if l.random { 1int } else { 0int }
            &&& p[6] == l.speed
            &&& p[7] == l.direction
        }),
{
}

/// A packed payload says as much as it holds: each byte replaces one field, the
/// fields that it does not reach stay, and bytes past the eighth are ignored.
pub proof fn short_payloads_leave_fields(current: LightingState, data: Seq<u8>)
    ensures
        ({
            let l = described(current, data);
            &&& data.len() > 8 ==> l == described(current, data.take(8))
            &&& l.mode == if data.len() > 0 { data[0] } else { current.mode }
            &&& l.r == if data.len() > 1 { data[1] } else { current.r }
            &&& l.g == if data.len() > 2 { data[2] } else { current.g }
            &&& l.b == if data.len() > 3 { data[3] } else { current.b }
            &&& l.brightness == if data.len() > 4 { data[4] } else { current.brightness }
            &&& l.random == if data.len() > 5 { data[5] != 0 } else { current.random }
            &&& l.speed == if data.len() > 6 { data[6] } else { current.speed }
            &&& l.direction == if data.len() > 7 { data[7] } else { current.direction }
        }),
{
}

/// The values 1, 2, 3 and 4 are brightness, effect, speed and color. Setting one
/// changes nothing else but that a color ends the random colors.
pub proof fn values_set_one_thing(current: LightingState, value_id: u8, data: Seq<u8>)
    ensures
        value_len(value_id) == if 1 <= value_id <= 3 {
            Some(1nat)
        } else if value_id == 4 {
            Some(2nat)
        } else {
            None
        },
        value_len(value_id) is Some ==> {
            let l = with_value(current, value_id, data);
            let rgb = color::rgb_of(data[0], data[1]);
            &&& l.brightness == if value_id == 1 { data[0] } else { current.brightness }
            &&& l.mode == if value_id == 2 { data[0] } else { current.mode }
            &&& l.speed == if value_id == 3 { data[0] } else { current.speed }
            &&& l.direction == current.direction
            &&& value_id == 4 ==> l.r == rgb.0 as u8 && l.g == rgb.1 as u8 && l.b == rgb.2 as u8 && !l.random
            &&& value_id != 4 ==> l.r == current.r && l.g == current.g && l.b == current.b && l.random
                == current.random
        },
{
}

/// Brightness, effect and speed are read as one byte, and a color as its hue and
/// saturation.
pub proof fn values_tell_one_thing(l: LightingState, value_id: u8)
    ensures
        value_id == 1 ==> value_of(l, value_id) == seq![l.brightness],
        value_id == 2 ==> value_of(l, value_id) == seq![l.mode],
        value_id == 3 ==> value_of(l, value_id) == seq![l.speed],
        value_id == 4 ==> value_of(l, value_id) == seq![
            color::hs_of(l.r, l.g, l.b).0 as u8,
            color::hs_of(l.r, l.g, l.b).1 as u8,
        ],
{
}

/// Channel 0 takes a packed payload of any length, channel 3 one value with as
/// many bytes as it needs; nothing else is accepted, and each refusal has its reason.
pub proof fn channels_decide_what_is_set(current: LightingState, channel: u8, value_id: u8, data: Seq<u8>)
    ensures
        lit(current, channel, value_id, data) is Ok <==> channel == 0 || (channel == 3 && ((1 <= value_id <= 3
            && data.len() >= 1) || (value_id == 4 && data.len() >= 2))),
        channel == 0 ==> lit(current, channel, value_id, data) == Ok::<LightingState, DriverError>(
            described(current, data),
        ),
        lit(current, channel, value_id, data) matches Ok(l) ==> channel == 3 ==> l == with_value(
            current,
            value_id,
            data,
        ),
        channel != 0 && channel != 3 ==> lit(current, channel, value_id, data) == Err::<LightingState, DriverError>(
            DriverError::Unsupported { op: NO_CHANNEL },
        ),
        channel == 3 && !(1 <= value_id <= 4) ==> lit(current, channel, value_id, data) == Err::<
            LightingState,
            DriverError,
        >(DriverError::Unsupported { op: NO_VALUE }),
        lit(current, channel, value_id, data) matches Err(e) ==> channel == 3 && 1 <= value_id <= 4 ==> e == (
        DriverError::ProtocolViolation { reason: SHORT_VALUE }),
{
}

/// A sector is written with the function 6 for its address and length, then 7 for
/// each sixteen bytes in order, and 8 for the end, all on the Onboard Profiles
/// feature; together the writes carry every byte of the image once, at its place.
pub proof fn sectors_are_written_whole(calls: Seq<HidppCall>, att: AttachInfo, image: Seq<u8>, k: int, i: int)
    requires
        writes_sector(calls, att, image),
        0 <= k < calls.len(),
    ensures
        16 * (calls.len() - 2) >= image.len() > 16 * (calls.len() - 3),
        calls[k].device_idx == att.device_idx,
        calls[k].feature_idx == att.feat_onboard,
        calls[k].func == if k == 0 {
            6int
        } else if k < calls.len() - 1 {
            7int
        } else {
            8int
        },
        k == 0 ==> {
            let p = calls[0].params@;
            &&& p.len() == 6
            &&& 256 * p[0] + p[1] == att.profile_sector
            &&& p[2] == 0 && p[3] == 0
            &&& image.len() < 65536 ==> 256 * p[4] + p[5] == image.len()
        },
        0 < k < calls.len() - 2 ==> calls[k].params@.len() == 16,
        0 < k == calls.len() - 2 ==> calls[k].params@.len() == image.len() - 16 * (k - 1),
        k == calls.len() - 1 ==> calls[k].params@.len() == 0,
        0 <= i < image.len() ==> 1 + i / 16 < calls.len() - 1 && calls[1 + i / 16].params@[i % 16] == image[i],
{
    let n = chunk_count(image.len());
    if 1 <= k < calls.len() - 1 {
        assert(attach::is_call(
            calls[1 + (k - 1)],
            att.device_idx,
            att.feat_onboard,
            ONB_MEMORY_WRITE,
            chunk(image, k - 1),
            "onboard_memory_write"@,
        ));
    }
    if 0 <= i < image.len() {
        chunks_make_the_image(image, i);
        assert(attach::is_call(
            calls[1 + i / 16],
            att.device_idx,
            att.feat_onboard,
            ONB_MEMORY_WRITE,
            chunk(image, i / 16),
            "onboard_memory_write"@,
        ));
    }
}

/// A compiled keymap has every G-key of its layers at its place in the image: the
/// binding of the key's keycode, at 0x20, 0x40 further for each layer and four
/// further for each key.
pub proof fn compiled_keymaps_have_their_places(
    baseline: Seq<u8>,
    keymap: Map<(u8, u8, u8), u16>,
    layers: u8,
    image: Seq<u8>,
    layer: u8,
    gkey: u8,
)
    requires
        compiles_to(baseline, keymap, layers, Ok(image)),
        layer < layers,
        keymap.dom().contains((layer, 0, gkey)),
    ensures
        ({
            let at = 0x20 + 0x40 * layer + 4 * gkey;
            &&& image.len() == baseline.len()
            &&& layer < 3 && gkey < 16
            &&& profile::binding_of(keymap[(layer, 0, gkey)]) == Some(image.subrange(at, at + 4))
        }),
{
    let entries = choose|entries: Seq<(u8, u8, u16)>| #[trigger]
        lists_gkeys(entries, keymap, layers) && baseline.len() >= profile::MIN_SECTOR_LEN && profile::first_bad(entries)
            >= entries.len() && image == profile::sealed(profile::with_entries(baseline, entries));
    let e = (layer, gkey, keymap[(layer, 0, gkey)]);
    assert(entries.contains(e));
    let i = choose|i: int| 0 <= i < entries.len() && entries[i] == e;
    assert forall|j: int| i < j < entries.len() implies (#[trigger] entries[j]).0 != entries[i].0 || entries[j].1
        != entries[i].1 by {
        assert(entries[i].0 < entries[j].0 || (entries[i].0 == entries[j].0 && entries[i].1 < entries[j].1));
    }
    profile::compiled_bindings_have_their_places(baseline, entries, i);
}

/// A changed lighting is made durable on the whole keyboard by the first function
/// of the RGB feature, with the mark for good; without the feature it is refused,
/// and an unchanged lighting needs nothing.
pub proof fn changed_lighting_is_made_durable(d: &LogitechDriver, step: CommitStep)
    requires
        d.settles_lighting(step),
    ensures
        !d.light_dirty() ==> (step matches CommitStep::Done { result } && result is Ok),
        d.light_dirty() && d.attachment()->0.feat_rgb is None ==> (step matches CommitStep::Done { result } && result
            is Err),
        d.light_dirty() && d.attachment()->0.feat_rgb is Some ==> {
            &&& step matches CommitStep::Persist { call }
            &&& call.device_idx == d.attachment()->0.device_idx
            &&& call.feature_idx == d.attachment()->0.feat_rgb->0
            &&& call.func == 1
            &&& call.params@ == cluster_effect(0, d.light(), 1)
        },
{
}

/// A push that succeeded leaves the pushed image and keymap as what the device
/// holds, and saves them; one that failed leaves what the device held before, and
/// saves nothing.
pub proof fn pushes_confirm_or_roll_back(
    after: &LogitechDriver,
    before: &LogitechDriver,
    image: Seq<u8>,
    succeeded: bool,
    save: Option<SaveRequest>,
)
    requires
        after.took_push(before, image, succeeded, save),
    ensures
        succeeded ==> {
            &&& after.baseline() == Some(image)
            &&& after.shadow().keymap() == before.shadow().keymap()
            &&& after.shadow().confirmed() == before.shadow().keymap()
            &&& after.shadow().cache_status() == legacy::CacheStatus::Confirmed
            &&& save is Some <==> after.shadow().path() is Some
            &&& save matches Some(request) ==> legacy::keymap_of(request.file.keymap@) == after.shadow().keymap()
        },
        !succeeded ==> {
            &&& after.baseline() == before.baseline()
            &&& after.shadow().keymap() == before.shadow().confirmed()
            &&& after.shadow().confirmed() == before.shadow().confirmed()
            &&& after.shadow().cache_status() == legacy::CacheStatus::Failed
            &&& save is None
        },
{
}

/// A push needs a known image, is compiled from the pending keymap over it, and
/// changes nothing in the shadow but that it is pending.
pub proof fn pushes_carry_the_pending_keymap(
    after: &LogitechDriver,
    before: &LogitechDriver,
    calls: Seq<HidppCall>,
    image: Seq<u8>,
)
    requires
        after.pushes(before, calls, image),
    ensures
        before.baseline() is Some,
        compiles_to(before.baseline()->0, before.shadow().keymap(), before.layer_total(), Ok(image)),
        writes_sector(calls, before.attachment()->0, image),
        after.shadow().keymap() == before.shadow().keymap(),
        after.shadow().dirty() == before.shadow().dirty(),
        after.shadow().confirmed() == before.shadow().confirmed(),
        after.shadow().light() == before.shadow().light(),
        after.shadow().cache_status() == legacy::CacheStatus::Pending,
{
}

/// A keymap that cannot be compiled is rolled back to what the device holds, with
/// the reason: that its image is not known, or what compiling came upon.
pub proof fn refusals_roll_back(after: &LogitechDriver, before: &LogitechDriver, error: DriverError)
    requires
        after.refused(before, error),
    ensures
        after.shadow().keymap() == before.shadow().confirmed(),
        after.shadow().dirty() == Map::<(u8, u8, u8), u16>::empty(),
        after.shadow().cache_status() == legacy::CacheStatus::Failed,
        error is VendorCompile,
        before.baseline() is None ==> error->detail@ == NO_BASELINE@,
        before.baseline() is Some ==> compiles_to(
            before.baseline()->0,
            before.shadow().keymap(),
            before.layer_total(),
            Err(error),
        ),
{
}

/// The outcome of compiling is the image of the listed keys over the baseline if
/// there is room and every key has a place and a binding; otherwise it is an error,
/// for want of room before anything else.
pub proof fn keymaps_compile_if_they_can(
    baseline: Seq<u8>,
    keymap: Map<(u8, u8, u8), u16>,
    layers: u8,
    out: Result<Seq<u8>, DriverError>,
)
    requires
        compiles_to(baseline, keymap, layers, out),
    ensures
        out is Ok <==> baseline.len() >= 226 && forall|layer: u8, gkey: u8|
            layer < layers && #[trigger] keymap.dom().contains((layer, 0, gkey)) ==> layer < 3 && gkey < 16
                && profile::binding_of(keymap[(layer, 0, gkey)]) is Some,
        baseline.len() < 226 ==> (out matches Err(e) && profile::is_compile_error(
            e,
            profile::too_small_text(baseline.len()),
        )),
        out matches Err(e) ==> e is VendorCompile,
{
    let entries = choose|entries: Seq<(u8, u8, u16)>| #[trigger]
        lists_gkeys(entries, keymap, layers) && if baseline.len() < profile::MIN_SECTOR_LEN {
            out matches Err(e) && profile::is_compile_error(e, profile::too_small_text(baseline.len()))
        } else if profile::first_bad(entries) < entries.len() {
            out matches Err(e) && profile::is_compile_error(
                e,
                profile::bad_entry_text(entries[profile::first_bad(entries)]),
            )
        } else {
            out == Ok::<Seq<u8>, DriverError>(profile::sealed(profile::with_entries(baseline, entries)))
        };
    profile::the_first_bad_entry_decides(entries);
    let f = profile::first_bad(entries);
    if baseline.len() >= 226 && f < entries.len() {
        let e = entries[f];
        assert(keymap.dom().contains((e.0, 0, e.1)));
    }
    if out is Ok {
        assert forall|layer: u8, gkey: u8| layer < layers && #[trigger] keymap.dom().contains((layer, 0, gkey)) implies layer
            < 3 && gkey < 16 && profile::binding_of(keymap[(layer, 0, gkey)]) is Some by {
            let e = (layer, gkey, keymap[(layer, 0, gkey)]);
            assert(entries.contains(e));
            let i = choose|i: int| 0 <= i < entries.len() && entries[i] == e;
            assert(entries[i].0 < 3);
        }
    }
}

/// The same device is the same board with the same name and handshake.
pub proof fn the_same_device(a: &LogitechDriver, b: &LogitechDriver)
    requires
        a.same_device(b),
    ensures
        a.dimensions() == b.dimensions(),
        a.layer_total() == b.layer_total(),
        a.name() == b.name(),
        a.attachment() == b.attachment(),
{
}

/// What a packed payload asks for reaches the keyboard: its first four bytes follow
/// the cluster, and its brightness follows the period.
pub proof fn payloads_reach_the_cluster(current: LightingState, cluster: u8, data: Seq<u8>, persist: u8)
    requires
        data.len() >= 4,
    ensures
        ({
            let p = cluster_effect(cluster, described(current, data), persist);
            &&& p.subrange(1, 5) == data.take(4)
            &&& data.len() > 4 ==> p[7] == data[4]
            &&& data.len() > 6 ==> 256 * p[5] + p[6] == 2000 - 7 * data[6]
        }),
{
    let p = cluster_effect(cluster, described(current, data), persist);
    cluster_effect_bytes(cluster, described(current, data), persist);
    assert(p.subrange(1, 5) =~= data.take(4));
}

/// A color that is set as hue and saturation is read back with the saturation that
/// was set.
pub proof fn set_colors_read_back(current: LightingState, h: u8, s: u8)
    ensures
        ({
            let l = with_value(current, 4, seq![h, s]);
            &&& value_of(l, 4).len() == 2
            &&& value_of(l, 4)[1] == s
            &&& l.r == 255 || l.g == 255 || l.b == 255
        }),
{
    color::saturation_round_trips(h, s);
}

/// The numbers of the lighting and memory functions, and the usage pages by which a
/// receiver and a wired keyboard are known.
pub proof fn function_numbers()
    ensures
        RGB_SET_CLUSTER_EFFECT == 1,
        RGB_CLUSTER_PRIMARY == 0,
        RGB_PERSIST_RAM == 0,
        RGB_PERSIST_FLASH == 1,
        EFFECT_OFF == 0,
        EFFECT_FIXED == 1,
        ONB_MEMORY_ADDR_WRITE == 6,
        ONB_MEMORY_WRITE == 7,
        ONB_MEMORY_WRITE_END == 8,
        MEM_CHUNK == 16,
        HIDPP_USAGE_PAGE_RECEIVER == 0xFF00,
        HIDPP_USAGE_PAGE_WIRED == 0xFF43,
        LOGITECH_VID == 0x046D,
        G915_RECEIVER_PID == 0xC541,
{
}

/// The period that is given for a speed, and the parameters that are made of a
/// lighting.
pub proof fn effects_are_made(cluster: u8, l: LightingState, persist: u8, ms: u16, p: [u8; 16])
    requires
        call_ensures(effect_period_ms, (l.speed,), ms),
        call_ensures(encode_cluster_effect, (cluster, &l, persist), p),
    ensures
        ms == 2000 - 7 * l.speed,
        p@[0] == cluster && p@[1] == l.mode && p@[2] == l.r && p@[3] == l.g && p@[4] == l.b,
        256 * p@[5] + p@[6] == ms,
        p@[7] == l.brightness && p@[9] == persist,
{
    cluster_effect_bytes(cluster, l, persist);
}

} // verus!
