//! The HID++ handshake.
//!
//! It finds the keyboard among the wired device and the receiver's slots,
//! resolves the features that the driver needs, and reads the active profile
//! sector. Each step is one call; the reply decides the next step.

use vstd::prelude::*;

use crate::hal::legacy::logitech::hidpp::HidppCall;
use crate::hal::legacy::logitech::profile;
use crate::hal::legacy::logitech::profile::sector_crc_valid;
use crate::hal::DriverError;

verus! {

/// Device index of a keyboard on a cable.
pub const DEV_IDX_WIRED: u8 = 0xFF;

/// Last slot of a receiver.
pub const RECEIVER_SLOT_LAST: u8 = 0x06;

pub const FEAT_DEVICE_NAME: u16 = 0x0005;

pub const FEAT_RGB_EFFECTS: u16 = 0x8071;

pub const FEAT_ONBOARD_PROFILES: u16 = 0x8100;

/// The root feature is always here.
pub const FEAT_IDX_ROOT: u8 = 0x00;

pub const ROOT_GET_FEATURE: u8 = 0x0;

pub const ROOT_PING: u8 = 0x1;

/// Echoed by a device that speaks HID++ 2.0.
pub const PING_MAGIC: u8 = 0x5A;

pub const NAME_GET_COUNT: u8 = 0x0;

pub const NAME_GET_CHUNK: u8 = 0x1;

/// No more than this much of a name is read.
pub const NAME_MAX_LEN: u8 = 48;

pub const ONB_GET_DESCRIPTION: u8 = 0x0;

pub const ONB_SET_MODE: u8 = 0x1;

pub const ONB_GET_CURRENT_PROFILE: u8 = 0x4;

pub const ONB_MEMORY_READ: u8 = 0x5;

/// Profiles are applied from the device's own memory.
pub const ONBOARD_MODE_ONBOARD: u8 = 0x01;

/// The profile sector when none is active.
pub const PROFILE_SECTOR_DEFAULT: u16 = 0x0001;

/// No sector is larger than this.
pub const SECTOR_SIZE_MAX: u16 = 4096;

pub const BAD_SECTOR_SIZE: &'static str = "implausible onboard-profiles sector size in getDescription";

/// What the handshake found out.
#[derive(Clone, Copy, PartialEq, Eq, Debug)]
pub struct AttachInfo {
    pub device_idx: u8,
    /// Index of the Onboard Profiles feature.
    pub feat_onboard: u8,
    /// Index of the RGB Effects feature, if there is one.
    pub feat_rgb: Option<u8>,
    pub sector_size: u16,
    /// Sector of the active profile.
    pub profile_sector: u16,
}

/// The call that is pending.
#[derive(Clone, Copy, PartialEq, Eq, Structural, Debug)]
pub enum Stage {
    /// Is there a HID++ 2.0 device at this index?
    Ping,
    /// Does it have Onboard Profiles?
    FindOnboard,
    FindRgb,
    FindName,
    NameCount,
    NameChunk,
    /// How large is a sector?
    Description,
    SetMode,
    CurrentProfile,
    ReadSector,
    Finished,
}

/// The handshake so far.
#[derive(Debug)]
pub struct Attach {
    pub stage: Stage,
    /// How many indices were given up.
    pub candidate: u8,
    pub onboard: u8,
    pub rgb: Option<u8>,
    pub name_feature: u8,
    pub name_count: u8,
    pub name_offset: u8,
    /// Printable characters of the name.
    pub name: Vec<u8>,
    pub sector_size: u16,
    pub profile_sector: u16,
    /// What was read of the profile sector.
    pub image: Vec<u8>,
}

/// What a reply brought about.
#[derive(Debug)]
pub enum Progress {
    /// Another call is pending.
    Continue,
    /// The device's name is known, and another call is pending.
    Named { model: String },
    /// The handshake failed.
    Failed { error: DriverError },
    /// The handshake is complete. The image is that of the profile sector, if it
    /// could be read and its checksum is valid.
    Attached { info: AttachInfo, image: Option<Vec<u8>> },
}

/// The device indices in the order in which they are tried: the cable, then the
/// receiver's slots.
pub open spec fn candidate_index(candidate: u8) -> u8 {
    if candidate == 0 {
        DEV_IDX_WIRED
    } else {
        candidate
    }
}

/// A sector consists of whole chunks, at least one and not too many.
pub open spec fn plausible(sector_size: u16) -> bool {
    sector_size % 16 == 0 && 0 < sector_size <= SECTOR_SIZE_MAX
}

/// The number that two bytes spell, high byte first.
pub open spec fn big_endian(hi: u8, lo: u8) -> u16 {
    (256 * hi + lo) as u16
}

/// A character that a name may hold.
pub open spec fn printable(b: u8) -> bool {
    0x20 <= b <= 0x7E
}

/// `name` with the printable characters of `chunk`, up to the first zero and to a
/// length of `count`.
pub open spec fn with_chunk(name: Seq<u8>, chunk: Seq<u8>, count: int) -> Seq<u8>
    decreases chunk.len(),
{
    if chunk.len() == 0 || name.len() >= count || chunk[0] == 0 {
        name
    } else if printable(chunk[0]) {
        with_chunk(name.push(chunk[0]), chunk.skip(1), count)
    } else {
        with_chunk(name, chunk.skip(1), count)
    }
}

/// Without leading spaces.
pub open spec fn without_lead(s: Seq<u8>) -> Seq<u8>
    decreases s.len(),
{
    if s.len() > 0 && s[0] == 0x20 {
        without_lead(s.skip(1))
    } else {
        s
    }
}

/// Without trailing spaces.
pub open spec fn without_trail(s: Seq<u8>) -> Seq<u8>
    decreases s.len(),
{
    if s.len() > 0 && s.last() == 0x20 {
        without_trail(s.drop_last())
    } else {
        s
    }
}

/// The text that ASCII bytes spell.
pub open spec fn ascii(s: Seq<u8>) -> Seq<char> {
    Seq::new(s.len(), |i: int| s[i] as char)
}

/// The text of a name without spaces around it.
fn trimmed_name(name: &Vec<u8>) -> (text: String)
    requires
        forall|i: int| 0 <= i < name@.len() ==> printable(#[trigger] name@[i]),
    ensures
        text@ == ascii(without_trail(without_lead(name@))),
{
    let mut start: usize = 0;
    proof {
        assert(name@.skip(0) =~= name@);
    }
    while start < name.len() && name[start] == 0x20
        invariant
            start <= name@.len(),
            without_lead(name@) == without_lead(name@.skip(start as int)),
        decreases name@.len() - start,
    {
        proof {
            assert(name@.skip(start as int).skip(1) =~= name@.skip(start + 1));
        }
        start = start + 1;
    }
    let ghost led = name@.skip(start as int);
    let mut end: usize = name.len();
    proof {
        assert(led == without_lead(name@));
        assert(name@.subrange(start as int, end as int) =~= led);
    }
    while end > start && name[end - 1] == 0x20
        invariant
            start <= end <= name@.len(),
            without_trail(led) == without_trail(name@.subrange(start as int, end as int)),
        decreases end,
    {
        proof {
            assert(name@.subrange(start as int, end as int).drop_last() =~= name@.subrange(
                start as int,
                end - 1,
            ));
        }
        end = end - 1;
    }
    let ghost kept = name@.subrange(start as int, end as int);
    proof {
        assert(kept == without_trail(led));
    }
    let mut text: String = String::new();
    let mut i: usize = start;
    proof {
        assert(text@ =~= ascii(kept.take(0)));
    }
    while i < end
        invariant
            start <= i <= end <= name@.len(),
            kept == name@.subrange(start as int, end as int),
            text@ == ascii(kept.take(i - start)),
        decreases end - i,
    {
        text.push(name[i] as char);
        proof {
            assert(ascii(kept.take(i + 1 - start)) =~= ascii(kept.take(i - start)).push(name@[i as int] as char));
        }
        i = i + 1;
    }
    proof {
        assert(kept.take(end - start) =~= kept);
    }
    text
}

/// The parameters of a `getFeature` call.
fn feature_params(feature: u16) -> (params: Vec<u8>)
    ensures
        params@ == seq![(feature / 256) as u8, (feature % 256) as u8],
{
    let mut params: Vec<u8> = Vec::new();
    params.push((feature / 256) as u8);
    params.push((feature % 256) as u8);
    params
}

/// The call is of this function with these parameters, under this name.
pub open spec fn is_call(
    call: HidppCall,
    device_idx: u8,
    feature_idx: u8,
    func: u8,
    params: Seq<u8>,
    op: Seq<char>,
) -> bool {
    &&& call.device_idx == device_idx
    &&& call.feature_idx == feature_idx
    &&& call.func == func
    &&& call.params@ == params
    &&& call.op@ == op
}

impl Attach {
    pub open spec fn wf(&self) -> bool {
        &&& self.candidate <= RECEIVER_SLOT_LAST
        &&& self.name_count <= NAME_MAX_LEN
        &&& self.name@.len() <= self.name_count
        &&& forall|i: int| 0 <= i < self.name@.len() ==> printable(#[trigger] self.name@[i])
        &&& self.stage == Stage::NameChunk ==> self.name_offset < self.name_count && self.name_offset % 16 == 0
        &&& self.stage != Stage::Ping && self.stage != Stage::FindOnboard && self.stage != Stage::Finished
            ==> self.onboard != 0
        &&& self.stage == Stage::SetMode || self.stage == Stage::CurrentProfile || self.stage == Stage::ReadSector
            ==> plausible(self.sector_size)
        &&& self.stage == Stage::ReadSector ==> self.image@.len() < self.sector_size && self.image@.len() % 16 == 0
            && self.profile_sector != 0
    }

    /// How many more calls there can be at most.
    pub open spec fn calls_left(&self) -> int {
        match self.stage {
            Stage::Ping => 270 + 2 * (6 - self.candidate),
            Stage::FindOnboard => 269 + 2 * (6 - self.candidate),
            Stage::FindRgb => 268,
            Stage::FindName => 267,
            Stage::NameCount => 266,
            Stage::NameChunk => 262 + (48 - self.name_offset) / 16,
            Stage::Description => 260,
            Stage::SetMode => 259,
            Stage::CurrentProfile => 258,
            Stage::ReadSector => 1 + (4096 - self.image@.len()) / 16,
            Stage::Finished => 0,
        }
    }

    /// The device that is being talked to.
    pub open spec fn index(&self) -> u8 {
        candidate_index(self.candidate)
    }

    /// What is known once the profile sector is being read.
    pub open spec fn info(&self) -> AttachInfo {
        AttachInfo {
            device_idx: self.index(),
            feat_onboard: self.onboard,
            feat_rgb: self.rgb,
            sector_size: self.sector_size,
            profile_sector: self.profile_sector,
        }
    }

    /// Before the first call.
    pub fn new() -> (a: Attach)
        ensures
            a.wf(),
            a.stage == Stage::Ping,
            a.candidate == 0,
            a.name@.len() == 0,
            a.image@.len() == 0,
    {
        Attach {
            stage: Stage::Ping,
            candidate: 0,
            onboard: 0,
            rgb: None,
            name_feature: 0,
            name_count: 0,
            name_offset: 0,
            name: Vec::new(),
            sector_size: 0,
            profile_sector: 0,
            image: Vec::new(),
        }
    }

    /// The pending call.
    pub fn request(&self) -> (call: HidppCall)
        requires
            self.wf(),
            self.stage != Stage::Finished,
        ensures
            match self.stage {
                Stage::Ping => is_call(
                    call,
                    self.index(),
                    FEAT_IDX_ROOT,
                    ROOT_PING,
                    seq![0, 0, PING_MAGIC],
                    "root_ping"@,
                ),
                Stage::FindOnboard => is_call(
                    call,
                    self.index(),
                    FEAT_IDX_ROOT,
                    ROOT_GET_FEATURE,
                    seq![0x81, 0x00],
                    "root_get_feature"@,
                ),
                Stage::FindRgb => is_call(
                    call,
                    self.index(),
                    FEAT_IDX_ROOT,
                    ROOT_GET_FEATURE,
                    seq![0x80, 0x71],
                    "root_get_feature"@,
                ),
                Stage::FindName => is_call(
                    call,
                    self.index(),
                    FEAT_IDX_ROOT,
                    ROOT_GET_FEATURE,
                    seq![0x00, 0x05],
                    "root_get_feature"@,
                ),
                Stage::NameCount => is_call(
                    call,
                    self.index(),
                    self.name_feature,
                    NAME_GET_COUNT,
                    Seq::<u8>::empty(),
                    "name_get_count"@,
                ),
                Stage::NameChunk => is_call(
                    call,
                    self.index(),
                    self.name_feature,
                    NAME_GET_CHUNK,
                    seq![self.name_offset],
                    "name_get_chunk"@,
                ),
                Stage::Description => is_call(
                    call,
                    self.index(),
                    self.onboard,
                    ONB_GET_DESCRIPTION,
                    Seq::<u8>::empty(),
                    "onboard_get_description"@,
                ),
                Stage::SetMode => is_call(
                    call,
                    self.index(),
                    self.onboard,
                    ONB_SET_MODE,
                    seq![ONBOARD_MODE_ONBOARD],
                    "onboard_set_mode"@,
                ),
                Stage::CurrentProfile => is_call(
                    call,
                    self.index(),
                    self.onboard,
                    ONB_GET_CURRENT_PROFILE,
                    Seq::<u8>::empty(),
                    "onboard_get_current_profile"@,
                ),
                Stage::ReadSector => is_call(
                    call,
                    self.index(),
                    self.onboard,
                    ONB_MEMORY_READ,
                    seq![
                        (self.profile_sector / 256) as u8,
                        (self.profile_sector % 256) as u8,
                        (self.image@.len() / 256) as u8,
                        (self.image@.len() % 256) as u8,
                    ],
                    "onboard_memory_read"@,
                ),
                Stage::Finished => true,
            },
    {
        let idx: u8 = if self.candidate == 0 {
            DEV_IDX_WIRED
        } else {
            self.candidate
        };
        let mut params: Vec<u8> = Vec::new();
        match self.stage {
            Stage::Ping => {
                params.push(0);
                params.push(0);
                params.push(PING_MAGIC);
                proof {
                    assert(params@ =~= seq![0u8, 0u8, PING_MAGIC]);
                }
                HidppCall { device_idx: idx, feature_idx: FEAT_IDX_ROOT, func: ROOT_PING, params, op: "root_ping" }
            },
            Stage::FindOnboard => HidppCall {
                device_idx: idx,
                feature_idx: FEAT_IDX_ROOT,
                func: ROOT_GET_FEATURE,
                params: feature_params(FEAT_ONBOARD_PROFILES),
                op: "root_get_feature",
            },
            Stage::FindRgb => HidppCall {
                device_idx: idx,
                feature_idx: FEAT_IDX_ROOT,
                func: ROOT_GET_FEATURE,
                params: feature_params(FEAT_RGB_EFFECTS),
                op: "root_get_feature",
            },
            Stage::FindName => HidppCall {
                device_idx: idx,
                feature_idx: FEAT_IDX_ROOT,
                func: ROOT_GET_FEATURE,
                params: feature_params(FEAT_DEVICE_NAME),
                op: "root_get_feature",
            },
            Stage::NameCount => HidppCall {
                device_idx: idx,
                feature_idx: self.name_feature,
                func: NAME_GET_COUNT,
                params,
                op: "name_get_count",
            },
            Stage::NameChunk => {
                params.push(self.name_offset);
                proof {
                    assert(params@ =~= seq![self.name_offset]);
                }
                HidppCall {
                    device_idx: idx,
                    feature_idx: self.name_feature,
                    func: NAME_GET_CHUNK,
                    params,
                    op: "name_get_chunk",
                }
            },
            Stage::Description => HidppCall {
                device_idx: idx,
                feature_idx: self.onboard,
                func: ONB_GET_DESCRIPTION,
                params,
                op: "onboard_get_description",
            },
            Stage::SetMode => {
                params.push(ONBOARD_MODE_ONBOARD);
                proof {
                    assert(params@ =~= seq![ONBOARD_MODE_ONBOARD]);
                }
                HidppCall {
                    device_idx: idx,
                    feature_idx: self.onboard,
                    func: ONB_SET_MODE,
                    params,
                    op: "onboard_set_mode",
                }
            },
            Stage::CurrentProfile => HidppCall {
                device_idx: idx,
                feature_idx: self.onboard,
                func: ONB_GET_CURRENT_PROFILE,
                params,
                op: "onboard_get_current_profile",
            },
            _ => {
                let offset: usize = self.image.len();
                params.push((self.profile_sector / 256) as u8);
                params.push((self.profile_sector % 256) as u8);
                params.push((offset / 256) as u8);
                params.push((offset % 256) as u8);
                proof {
                    assert(params@ =~= seq![
                        (self.profile_sector / 256) as u8,
                        (self.profile_sector % 256) as u8,
                        (self.image@.len() / 256) as u8,
                        (self.image@.len() % 256) as u8,
                    ]);
                }
                HidppCall {
                    device_idx: idx,
                    feature_idx: self.onboard,
                    func: ONB_MEMORY_READ,
                    params,
                    op: "onboard_memory_read",
                }
            },
        }
    }

    /// This index has no eligible device: the next one is tried, or there is none.
    pub open spec fn gave_up_index(&self, old_self: &Attach, progress: Progress) -> bool {
        if old_self.candidate < RECEIVER_SLOT_LAST {
            &&& progress is Continue
            &&& *self == (Attach { stage: Stage::Ping, candidate: (old_self.candidate + 1) as u8, ..*old_self })
        } else {
            &&& progress matches Progress::Failed { error }
            &&& error == DriverError::Disconnected
            &&& *self == (Attach { stage: Stage::Finished, ..*old_self })
        }
    }

    /// The name is complete.
    pub open spec fn name_done(&self, progress: Progress) -> bool {
        let text = ascii(without_trail(without_lead(self.name@)));
        &&& self.stage == Stage::Description
        &&& if text.len() > 0 {
            progress matches Progress::Named { model } && model@ == text
        } else {
            progress is Continue
        }
    }

    /// The handshake ends with `error`.
    pub open spec fn failed(&self, old_self: &Attach, progress: Progress, error: DriverError) -> bool {
        &&& progress == (Progress::Failed { error })
        &&& *self == (Attach { stage: Stage::Finished, ..*old_self })
    }

    fn give_up_index(&mut self) -> (progress: Progress)
        requires
            old(self).candidate <= RECEIVER_SLOT_LAST,
        ensures
            final(self).gave_up_index(old(self), progress),
    {
        if self.candidate < RECEIVER_SLOT_LAST {
            self.candidate = self.candidate + 1;
            self.stage = Stage::Ping;
            Progress::Continue
        } else {
            self.stage = Stage::Finished;
            Progress::Failed { error: DriverError::Disconnected }
        }
    }

    fn finish_name(&mut self) -> (progress: Progress)
        requires
            forall|i: int| 0 <= i < old(self).name@.len() ==> printable(#[trigger] old(self).name@[i]),
        ensures
            final(self).name_done(progress),
            *final(self) == (Attach { stage: Stage::Description, ..*old(self) }),
    {
        self.stage = Stage::Description;
        let model = trimmed_name(&self.name);
        if model.as_str().is_empty() {
            Progress::Continue
        } else {
            Progress::Named { model }
        }
    }

    /// Adds the printable characters of a chunk to the name.
    fn take_chunk(&mut self, chunk: &[u8; 16])
        requires
            old(self).name@.len() <= old(self).name_count,
            forall|i: int| 0 <= i < old(self).name@.len() ==> printable(#[trigger] old(self).name@[i]),
        ensures
            final(self).name@ == with_chunk(old(self).name@, chunk@, old(self).name_count as int),
            final(self).name@.len() <= final(self).name_count,
            forall|i: int| 0 <= i < final(self).name@.len() ==> printable(#[trigger] final(self).name@[i]),
            *final(self) == (Attach { name: final(self).name, ..*old(self) }),
    {
        let count: usize = self.name_count as usize;
        let mut i: usize = 0;
        proof {
            assert(chunk@.skip(0) =~= chunk@);
        }
        let ghost whole = with_chunk(self.name@, chunk@, count as int);
        while i < 16 && self.name.len() < count && chunk[i] != 0
            invariant
                i <= 16,
                count == self.name_count,
                self.name@.len() <= count,
                forall|j: int| 0 <= j < self.name@.len() ==> printable(#[trigger] self.name@[j]),
                whole == with_chunk(self.name@, chunk@.skip(i as int), count as int),
                *self == (Attach { name: self.name, ..*old(self) }),
            decreases 16 - i,
        {
            let b: u8 = chunk[i];
            proof {
                assert(chunk@.skip(i as int).skip(1) =~= chunk@.skip(i + 1));
            }
            if 0x20 <= b && b <= 0x7E {
                self.name.push(b);
            }
            i = i + 1;
        }
    }

    /// Takes the reply to the pending call, or the error that came instead.
    pub fn reply(&mut self, reply: Result<[u8; 16], DriverError>) -> (progress: Progress)
        requires
            old(self).wf(),
            old(self).stage != Stage::Finished,
        ensures
            final(self).wf(),
            progress is Continue || progress is Named <==> final(self).stage != Stage::Finished,
            final(self).calls_left() < old(self).calls_left(),
            progress matches Progress::Attached { info, image: _ } ==> info.feat_onboard != 0 && plausible(
                info.sector_size,
            ) && info.profile_sector != 0,
            match old(self).stage {
                Stage::Ping => match reply {
                    Ok(p) if p@[2] == PING_MAGIC => {
                        &&& progress is Continue
                        &&& *final(self) == (Attach { stage: Stage::FindOnboard, ..*old(self) })
                    },
                    _ => final(self).gave_up_index(old(self), progress),
                },
                Stage::FindOnboard => match reply {
                    Ok(p) if p@[0] != 0 => {
                        &&& progress is Continue
                        &&& *final(self) == (Attach { stage: Stage::FindRgb, onboard: p@[0], ..*old(self) })
                    },
                    _ => final(self).gave_up_index(old(self), progress),
                },
                Stage::FindRgb => {
                    &&& progress is Continue
                    &&& *final(self) == (Attach {
                        stage: Stage::FindName,
                        rgb: match reply {
                            Ok(p) if p@[0] != 0 => Some(p@[0]),
                            _ => None,
                        },
                        ..*old(self)
                    })
                },
                Stage::FindName => {
                    &&& progress is Continue
                    &&& match reply {
                        Ok(p) if p@[0] != 0 => *final(self) == (Attach {
                            stage: Stage::NameCount,
                            name_feature: p@[0],
                            ..*old(self)
                        }),
                        _ => *final(self) == (Attach { stage: Stage::Description, ..*old(self) }),
                    }
                },
                Stage::NameCount => match reply {
                    Ok(p) => {
                        let count = if p@[0] <= NAME_MAX_LEN { p@[0] } else { NAME_MAX_LEN };
                        &&& final(self).name@.len() == 0
                        &&& if count > 0 {
                            &&& progress is Continue
                            &&& *final(self) == (Attach {
                                stage: Stage::NameChunk,
                                name_count: count,
                                name_offset: 0,
                                name: final(self).name,
                                ..*old(self)
                            })
                        } else {
                            &&& progress is Continue
                            &&& *final(self) == (Attach {
                                stage: Stage::Description,
                                name_count: 0,
                                name_offset: 0,
                                name: final(self).name,
                                ..*old(self)
                            })
                        }
                    },
                    Err(_) => {
                        &&& progress is Continue
                        &&& *final(self) == (Attach { stage: Stage::Description, ..*old(self) })
                    },
                },
                Stage::NameChunk => match reply {
                    Ok(p) => {
                        &&& final(self).name@ == with_chunk(old(self).name@, p@, old(self).name_count as int)
                        &&& *final(self) == (Attach {
                            stage: final(self).stage,
                            name: final(self).name,
                            name_offset: (old(self).name_offset + 16) as u8,
                            ..*old(self)
                        })
                        &&& if old(self).name_offset + 16 < old(self).name_count {
                            progress is Continue && final(self).stage == Stage::NameChunk
                        } else {
                            final(self).name_done(progress)
                        }
                    },
                    Err(_) => {
                        &&& progress is Continue
                        &&& *final(self) == (Attach { stage: Stage::Description, ..*old(self) })
                    },
                },
                Stage::Description => match reply {
                    Ok(p) => {
                        let size = big_endian(p@[7], p@[8]);
                        if plausible(size) {
                            &&& progress is Continue
                            &&& *final(self) == (Attach { stage: Stage::SetMode, sector_size: size, ..*old(self) })
                        } else {
                            final(self).failed(
                                old(self),
                                progress,
                                DriverError::ProtocolViolation { reason: BAD_SECTOR_SIZE },
                            )
                        }
                    },
                    Err(e) => final(self).failed(old(self), progress, e),
                },
                Stage::SetMode => {
                    &&& progress is Continue
                    &&& *final(self) == (Attach { stage: Stage::CurrentProfile, ..*old(self) })
                },
                Stage::CurrentProfile => match reply {
                    Ok(p) => {
                        let sector = big_endian(p@[0], p@[1]);
                        &&& progress is Continue
                        &&& final(self).image@.len() == 0
                        &&& *final(self) == (Attach {
                            stage: Stage::ReadSector,
                            profile_sector: if sector == 0 { PROFILE_SECTOR_DEFAULT } else { sector },
                            image: final(self).image,
                            ..*old(self)
                        })
                    },
                    Err(e) => final(self).failed(old(self), progress, e),
                },
                Stage::ReadSector => match reply {
                    Ok(p) => {
                        let image = old(self).image@ + p@;
                        if image.len() < old(self).sector_size {
                            &&& progress is Continue
                            &&& final(self).image@ == image
                            &&& *final(self) == (Attach { image: final(self).image, ..*old(self) })
                        } else {
                            &&& progress matches Progress::Attached { info, image: kept }
                            &&& info == old(self).info()
                            &&& image.len() == info.sector_size
                            &&& if profile::is_sealed(image) {
                                kept matches Some(i) && i@ == image
                            } else {
                                kept is None
                            }
                        }
                    },
                    Err(_) => {
                        &&& progress matches Progress::Attached { info, image: kept }
                        &&& info == old(self).info()
                        &&& kept is None
                    },
                },
                Stage::Finished => true,
            },
    {
        match self.stage {
            Stage::Ping => match reply {
                Ok(p) => {
                    if p[2] == PING_MAGIC {
                        self.stage = Stage::FindOnboard;
                        Progress::Continue
                    } else {
                        self.give_up_index()
                    }
                },
                Err(_) => self.give_up_index(),
            },
            Stage::FindOnboard => match reply {
                Ok(p) => {
                    if p[0] != 0 {
                        self.onboard = p[0];
                        self.stage = Stage::FindRgb;
                        Progress::Continue
                    } else {
                        self.give_up_index()
                    }
                },
                Err(_) => self.give_up_index(),
            },
            Stage::FindRgb => {
                self.rgb = match reply {
                    Ok(p) => if p[0] != 0 {
                        Some(p[0])
                    } else {
                        None
                    },
                    Err(_) => None,
                };
                self.stage = Stage::FindName;
                Progress::Continue
            },
            Stage::FindName => {
                self.stage = Stage::Description;
                if let Ok(p) = reply {
                    if p[0] != 0 {
                        self.name_feature = p[0];
                        self.stage = Stage::NameCount;
                    }
                }
                Progress::Continue
            },
            Stage::NameCount => {
                match reply {
                    Ok(p) => {
                        self.name = Vec::new();
                        self.name_offset = 0;
                        self.name_count = if p[0] <= NAME_MAX_LEN {
                            p[0]
                        } else {
                            NAME_MAX_LEN
                        };
                        self.stage = if self.name_count > 0 {
                            Stage::NameChunk
                        } else {
                            Stage::Description
                        };
                    },
                    Err(_) => {
                        self.stage = Stage::Description;
                    },
                }
                Progress::Continue
            },
            Stage::NameChunk => match reply {
                Ok(p) => {
                    self.take_chunk(&p);
                    self.name_offset = self.name_offset + 16;
                    if self.name_offset < self.name_count {
                        Progress::Continue
                    } else {
                        self.finish_name()
                    }
                },
                Err(_) => {
                    self.stage = Stage::Description;
                    Progress::Continue
                },
            },
            Stage::Description => match reply {
                Ok(p) => {
                    let size: u16 = 256 * p[7] as u16 + p[8] as u16;
                    if size % 16 != 0 || size == 0 || size > SECTOR_SIZE_MAX {
                        self.stage = Stage::Finished;
                        return Progress::Failed {
                            error: DriverError::ProtocolViolation { reason: BAD_SECTOR_SIZE },
                        };
                    }
                    self.sector_size = size;
                    self.stage = Stage::SetMode;
                    Progress::Continue
                },
                Err(e) => {
                    self.stage = Stage::Finished;
                    Progress::Failed { error: e }
                },
            },
            Stage::SetMode => {
                self.stage = Stage::CurrentProfile;
                Progress::Continue
            },
            Stage::CurrentProfile => match reply {
                Ok(p) => {
                    let sector: u16 = 256 * p[0] as u16 + p[1] as u16;
                    self.profile_sector = if sector == 0 {
                        PROFILE_SECTOR_DEFAULT
                    } else {
                        sector
                    };
                    self.image = Vec::new();
                    self.stage = Stage::ReadSector;
                    Progress::Continue
                },
                Err(e) => {
                    self.stage = Stage::Finished;
                    Progress::Failed { error: e }
                },
            },
            _ => {
                let info = AttachInfo {
                    device_idx: if self.candidate == 0 {
                        DEV_IDX_WIRED
                    } else {
                        self.candidate
                    },
                    feat_onboard: self.onboard,
                    feat_rgb: self.rgb,
                    sector_size: self.sector_size,
                    profile_sector: self.profile_sector,
                };
                match reply {
                    Ok(p) => {
                        let mut image: Vec<u8> = Vec::new();
                        std::mem::swap(&mut image, &mut self.image);
                        let ghost before = image@;
                        let mut k: usize = 0;
                        while k < 16
                            invariant
                                k <= 16,
                                image@ == before + p@.take(k as int),
                            decreases 16 - k,
                        {
                            image.push(p[k]);
                            proof {
                                assert(before + p@.take(k + 1) =~= (before + p@.take(k as int)).push(p@[k as int]));
                            }
                            k = k + 1;
                        }
                        proof {
                            assert(p@.take(16) =~= p@);
                        }
                        if image.len() < self.sector_size as usize {
                            self.image = image;
                            return Progress::Continue;
                        }
                        self.stage = Stage::Finished;
                        if sector_crc_valid(image.as_slice()) {
                            Progress::Attached { info, image: Some(image) }
                        } else {
                            Progress::Attached { info, image: None }
                        }
                    },
                    Err(_) => {
                        self.stage = Stage::Finished;
                        Progress::Attached { info, image: None }
                    },
                }
            },
        }
    }
}

/// The keyboard is looked for on the cable, at FF, and then in the receiver's
/// slots 1 to 6 in order; what is found out is kept as it was found out.
pub proof fn indices_are_tried_in_order(a: &Attach)
    requires
        a.wf(),
    ensures
        a.candidate == 0 ==> a.index() == 0xFF,
        a.candidate > 0 ==> a.index() == a.candidate && 1 <= a.index() <= 6,
        a.info().device_idx == a.index(),
        a.info().feat_onboard == a.onboard,
        a.info().feat_rgb == a.rgb,
        a.info().sector_size == a.sector_size,
        a.info().profile_sector == a.profile_sector,
{
}

/// An index without an eligible device leads to the next one, and after the last
/// slot the keyboard counts as disconnected; nothing that was found out is changed.
pub proof fn giving_up_leads_on(a: &Attach, before: &Attach, progress: Progress)
    requires
        before.wf(),
        a.gave_up_index(before, progress),
    ensures
        before.candidate < 6 ==> progress is Continue && a.stage == Stage::Ping && a.candidate == before.candidate + 1,
        before.candidate == 6 ==> progress == (Progress::Failed { error: DriverError::Disconnected }) && a.stage
            == Stage::Finished,
        a.name == before.name,
        a.image == before.image,
{
}

/// A handshake that failed is over and tells its error.
pub proof fn failures_end_the_handshake(a: &Attach, before: &Attach, progress: Progress, error: DriverError)
    requires
        a.failed(before, progress, error),
    ensures
        a.stage == Stage::Finished,
        progress matches Progress::Failed { error: told } && told == error,
{
}

/// A call has the index, feature, function, parameters and name that are asked of it.
pub proof fn calls_have_their_parts(
    call: HidppCall,
    device_idx: u8,
    feature_idx: u8,
    func: u8,
    params: Seq<u8>,
    op: Seq<char>,
)
    requires
        is_call(call, device_idx, feature_idx, func, params, op),
    ensures
        call.device_idx == device_idx,
        call.feature_idx == feature_idx,
        call.func == func,
        call.params@ == params,
        call.op@ == op,
{
}

/// A sector size is accepted exactly if it is one of 16, 32 and so on up to 4096.
pub proof fn sector_sizes_are_whole_chunks(size: u16)
    ensures
        plausible(size) <==> exists|k: int| 1 <= k <= 256 && size == #[trigger] (16 * k),
{
    if plausible(size) {
        let k = size as int / 16;
        assert(size == 16 * k);
    }
}

/// The numbers of the handshake: the features that are looked for, the functions
/// that are called, the limits that are kept, and the order of the bytes of a word.
pub proof fn handshake_numbers(hi: u8, lo: u8)
    ensures
        big_endian(hi, lo) == 256 * hi + lo,
        FEAT_IDX_ROOT == 0,
        ROOT_GET_FEATURE == 0 && ROOT_PING == 1,
        PING_MAGIC == 0x5A,
        NAME_GET_COUNT == 0 && NAME_GET_CHUNK == 1,
        NAME_MAX_LEN == 48,
        ONB_GET_DESCRIPTION == 0 && ONB_SET_MODE == 1 && ONB_GET_CURRENT_PROFILE == 4 && ONB_MEMORY_READ == 5,
        ONBOARD_MODE_ONBOARD == 1,
        PROFILE_SECTOR_DEFAULT == 1,
        FEAT_DEVICE_NAME == 0x0005 && FEAT_RGB_EFFECTS == 0x8071 && FEAT_ONBOARD_PROFILES == 0x8100,
{
}

/// A name grows by the printable characters of a chunk, in their order: all of a
/// printable chunk is taken as far as there is room, a character that is not
/// printable is passed over, and a zero ends the chunk.
pub proof fn chunks_extend_the_name(name: Seq<u8>, chunk: Seq<u8>, count: int, k: int)
    requires
        name.len() <= count,
        0 <= k < chunk.len(),
    ensures
        name.is_prefix_of(with_chunk(name, chunk, count)),
        with_chunk(name, chunk, count).len() <= count,
        (forall|i: int| 0 <= i < chunk.len() ==> 0x20 <= #[trigger] chunk[i] <= 0x7E) && name.len() + chunk.len()
            <= count ==> with_chunk(name, chunk, count) == name + chunk,
        chunk[k] == 0 ==> with_chunk(name, chunk, count) == with_chunk(name, chunk.take(k), count),
        0 < chunk[k] < 0x20 || chunk[k] > 0x7E ==> with_chunk(name, chunk, count) == with_chunk(
            name,
            chunk.take(k) + chunk.skip(k + 1),
            count,
        ),
    decreases chunk.len(),
{
    let rest = chunk.skip(1);
    let next = if printable(chunk[0]) {
        name.push(chunk[0])
    } else {
        name
    };
    if name.len() >= count || chunk[0] == 0 {
        if k == 0 {
            assert(chunk.take(0).len() == 0);
        } else {
            assert(chunk.take(k)[0] == chunk[0]);
            assert((chunk.take(k) + chunk.skip(k + 1))[0] == chunk[0]);
        }
    } else {
        if k == 0 {
            assert(chunk.take(0) + chunk.skip(1) =~= rest);
        } else {
            assert(chunk.take(k)[0] == chunk[0]);
            assert(chunk.take(k).skip(1) =~= rest.take(k - 1));
            assert((chunk.take(k) + chunk.skip(k + 1))[0] == chunk[0]);
            assert((chunk.take(k) + chunk.skip(k + 1)).skip(1) =~= rest.take(k - 1) + rest.skip(k));
        }
        if rest.len() > 0 {
            chunks_extend_the_name(next, rest, count, if k > 0 { k - 1 } else { 0 });
            assert(next + rest =~= if printable(chunk[0]) { name + chunk } else { name + rest });
            assert forall|i: int| 0 <= i < rest.len() implies rest[i] == chunk[i + 1] by {}
        } else {
            assert(next =~= if printable(chunk[0]) { name + chunk } else { name });
        }
    }
}

/// A name loses the spaces around it and nothing else: what is left neither begins
/// nor ends with a space, and with as many spaces before and behind it is the name.
pub proof fn only_spaces_are_trimmed(name: Seq<u8>) -> (around: (nat, nat))
    ensures
        ({
            let kept = without_trail(without_lead(name));
            let spaces = |n: nat| Seq::new(n, |i: int| 0x20u8);
            &&& name == spaces(around.0) + kept + spaces(around.1)
            &&& kept.len() > 0 ==> kept.first() != 0x20 && kept.last() != 0x20
            &&& ascii(kept).len() == kept.len()
            &&& forall|i: int| 0 <= i < kept.len() ==> #[trigger] ascii(kept)[i] == kept[i] as char
        }),
{
    let led = without_lead(name);
    let a = lead_is_spaces(name);
    let b = trail_is_spaces(led);
    let kept = without_trail(led);
    let spaces = |n: nat| Seq::new(n, |i: int| 0x20u8);
    assert(name =~= spaces(a) + kept + spaces(b));
    if kept.len() > 0 {
        assert(kept.first() == led.first());
    }
    (a, b)
}

proof fn lead_is_spaces(s: Seq<u8>) -> (n: nat)
    ensures
        s == Seq::new(n, |i: int| 0x20u8) + without_lead(s),
        without_lead(s).len() > 0 ==> without_lead(s)[0] != 0x20,
    decreases s.len(),
{
    if s.len() > 0 && s[0] == 0x20 {
        let n = lead_is_spaces(s.skip(1));
        assert(s =~= seq![0x20u8] + s.skip(1));
        assert(s =~= Seq::new(n + 1, |i: int| 0x20u8) + without_lead(s));
        n + 1
    } else {
        assert(s =~= Seq::new(0, |i: int| 0x20u8) + s);
        0
    }
}

proof fn trail_is_spaces(s: Seq<u8>) -> (n: nat)
    ensures
        s == without_trail(s) + Seq::new(n, |i: int| 0x20u8),
        without_trail(s).len() > 0 ==> without_trail(s).last() != 0x20,
    decreases s.len(),
{
    if s.len() > 0 && s.last() == 0x20 {
        let n = trail_is_spaces(s.drop_last());
        assert(s =~= s.drop_last().push(0x20u8));
        assert(s =~= without_trail(s) + Seq::new(n + 1, |i: int| 0x20u8));
        n + 1
    } else {
        assert(s =~= s + Seq::new(0, |i: int| 0x20u8));
        0
    }
}

/// Once it is complete, a name with anything but spaces in it is told without the
/// spaces around it, and any other is passed over; the sector description is next.
pub proof fn complete_names_are_told(a: &Attach, progress: Progress)
    requires
        a.name_done(progress),
    ensures
        a.stage == Stage::Description,
        progress is Named || progress is Continue,
        progress is Named <==> exists|i: int| 0 <= i < a.name@.len() && #[trigger] a.name@[i] != 0x20,
        progress matches Progress::Named { model } ==> model@ == ascii(without_trail(without_lead(a.name@))),
{
    let (n, m) = only_spaces_are_trimmed(a.name@);
    let kept = without_trail(without_lead(a.name@));
    if kept.len() > 0 {
        assert(a.name@[n as int] == kept[0]);
    }
}

} // verus!
