//! Epomaker EK68 driver with one frame per setting.
//!
//! Lighting is one 64-byte Feature report. A remapped key is a pair of reports:
//! one selects the key by its factory scancode, one carries the new keycode.

use vstd::prelude::*;

use crate::engine::worker::Buffering;
use crate::hal::frame;
use crate::hal::hid;
use crate::hal::hid::CutOff;
use crate::hal::keymap::{Keymap, Slot};
use crate::hal::legacy;
use crate::hal::legacy::KeymapEntry;
use crate::hal::DriverError;
use crate::sorted::SortedMap;

verus! {

/// USB vendor id of the EK68.
pub const EK68_VID: u16 = 0x05AC;

/// USB product id of the EK68.
pub const EK68_PID: u16 = 0x024F;

/// Length of a Feature report.
pub const FRAME_LEN: usize = 64;

pub const LIGHT_OFF_MODE: usize = 0;

pub const LIGHT_OFF_R: usize = 1;

pub const LIGHT_OFF_G: usize = 2;

pub const LIGHT_OFF_B: usize = 3;

pub const LIGHT_OFF_RAINBOW: usize = 8;

pub const LIGHT_OFF_BRIGHTNESS: usize = 9;

pub const LIGHT_OFF_MARKER: usize = 10;

pub const LIGHT_OFF_FOOTER: usize = 14;

/// Marker of a frame that lights the keys.
pub const LIGHT_MARKER_LIT: u8 = 0x0B;

/// Marker of a frame that turns the light off.
pub const LIGHT_MARKER_OFF: u8 = 0x01;

/// The page-check code.
pub const FOOTER_MAGIC: [u8; 2] = [0xAA, 0x55];

pub const MODE_LED_OFF: u8 = 0x00;

pub const MODE_STATIC: u8 = 0x01;

/// Highest effect id.
pub const MODE_MAX: u8 = 0x13;

pub const BRIGHTNESS_MIN: u8 = 0x01;

pub const BRIGHTNESS_MAX: u8 = 0x10;

/// First byte of a select or a write.
pub const REMAP_MARKER: u8 = 0x02;

pub const REMAP_SELECT_OFFSET: usize = 20;

pub const REMAP_WRITE_OFFSET: usize = 4;

/// Lighting of the whole keyboard.
#[derive(Clone, Copy, PartialEq, Eq, Structural, Debug)]
pub struct Lighting {
    pub mode: u8,
    pub r: u8,
    pub g: u8,
    pub b: u8,
    /// Between `BRIGHTNESS_MIN` and `BRIGHTNESS_MAX` on the wire.
    pub brightness: u8,
    pub rainbow: bool,
}

/// `v` brought into the range of the wire format.
pub open spec fn clamped(v: u8) -> u8 {
    if v < BRIGHTNESS_MIN {
        BRIGHTNESS_MIN
    } else {
        frame::at_most(v, BRIGHTNESS_MAX)
    }
}

impl Default for Lighting {
    fn default() -> (l: Lighting)
        ensures
            l == Lighting::initial(),
    {
        Lighting {
            mode: MODE_STATIC,
            r: 0xFF,
            g: 0xFF,
            b: 0xFF,
            brightness: BRIGHTNESS_MAX,
            rainbow: false,
        }
    }
}

impl Lighting {
    /// Static white at full brightness.
    pub open spec fn initial() -> Lighting {
        Lighting {
            mode: MODE_STATIC,
            r: 0xFF,
            g: 0xFF,
            b: 0xFF,
            brightness: BRIGHTNESS_MAX,
            rainbow: false,
        }
    }

    /// The lighting frame.
    pub open spec fn frame(&self) -> Seq<u8> {
        frame::blank().update(LIGHT_OFF_MODE as int, self.mode).update(LIGHT_OFF_R as int, self.r).update(
            LIGHT_OFF_G as int,
            self.g,
        ).update(LIGHT_OFF_B as int, self.b).update(
            LIGHT_OFF_RAINBOW as int,
            frame::flag(self.rainbow),
        ).update(LIGHT_OFF_BRIGHTNESS as int, clamped(self.brightness)).update(
            LIGHT_OFF_MARKER as int,
            if self.mode == MODE_LED_OFF {
                LIGHT_MARKER_OFF
            } else {
                LIGHT_MARKER_LIT
            },
        ).update(LIGHT_OFF_FOOTER as int, 0xAA).update(LIGHT_OFF_FOOTER + 1, 0x55)
    }

    /// The lighting frame.
    pub fn encode(&self) -> (f: [u8; 64])
        ensures
            f@ == self.frame(),
    {
        let mut f: [u8; 64] = [0u8; 64];
        f[LIGHT_OFF_MODE] = self.mode;
        f[LIGHT_OFF_R] = self.r;
        f[LIGHT_OFF_G] = self.g;
        f[LIGHT_OFF_B] = self.b;
        f[LIGHT_OFF_RAINBOW] = frame::flag_byte(self.rainbow);
        f[LIGHT_OFF_BRIGHTNESS] = if self.brightness < BRIGHTNESS_MIN {
            BRIGHTNESS_MIN
        } else if self.brightness > BRIGHTNESS_MAX {
            BRIGHTNESS_MAX
        } else {
            self.brightness
        };
        f[LIGHT_OFF_MARKER] = if self.mode == MODE_LED_OFF {
            LIGHT_MARKER_OFF
        } else {
            LIGHT_MARKER_LIT
        };
        f[LIGHT_OFF_FOOTER] = FOOTER_MAGIC[0];
        f[LIGHT_OFF_FOOTER + 1] = FOOTER_MAGIC[1];
        proof {
            assert(f@ =~= self.frame());
        }
        f
    }

    /// The lighting that a payload `[mode, r, g, b, brightness?, rainbow?]` describes.
    pub open spec fn described(data: Seq<u8>) -> Lighting {
        let d = Lighting::initial();
        Lighting {
            mode: frame::byte_or(data, 0, d.mode),
            r: frame::byte_or(data, 1, d.r),
            g: frame::byte_or(data, 2, d.g),
            b: frame::byte_or(data, 3, d.b),
            brightness: frame::byte_or(data, 4, d.brightness),
            rainbow: frame::byte_or(data, 5, frame::flag(d.rainbow)) != 0,
        }
    }

    /// Reads a payload `[mode, r, g, b, brightness?, rainbow?]`; missing fields
    /// take their initial values.
    pub fn from_bytes(data: &[u8]) -> (l: Lighting)
        ensures
            l == Lighting::described(data@),
    {
        let d = Lighting::default();
        Lighting {
            mode: frame::byte_at(data, 0, d.mode),
            r: frame::byte_at(data, 1, d.r),
            g: frame::byte_at(data, 2, d.g),
            b: frame::byte_at(data, 3, d.b),
            brightness: frame::byte_at(data, 4, d.brightness),
            rainbow: frame::byte_at(data, 5, frame::flag_byte(d.rainbow)) != 0,
        }
    }

    /// The payload that describes the lighting.
    pub open spec fn payload(&self) -> Seq<u8> {
        seq![self.mode, self.r, self.g, self.b, self.brightness, frame::flag(self.rainbow)]
    }

    /// The payload that describes the lighting.
    pub fn to_bytes(self) -> (data: Vec<u8>)
        ensures
            data@ == self.payload(),
    {
        let mut data: Vec<u8> = Vec::new();
        data.push(self.mode);
        data.push(self.r);
        data.push(self.g);
        data.push(self.b);
        data.push(self.brightness);
        data.push(frame::flag_byte(self.rainbow));
        proof {
            assert(data@ =~= self.payload());
        }
        data
    }
}

/// Reading a payload gives back the lighting that it was written from.
pub proof fn lighting_payload_round_trips(l: Lighting)
    ensures
        Lighting::described(l.payload()) == l,
{
}

/// Selects a key by its factory scancode.
pub open spec fn select_frame(scancode: u8) -> Seq<u8> {
    frame::blank().update(REMAP_SELECT_OFFSET as int, REMAP_MARKER).update(REMAP_SELECT_OFFSET + 2, scancode)
}

/// Selects a key by its factory scancode.
pub fn encode_select(scancode: u8) -> (f: [u8; 64])
    ensures
        f@ == select_frame(scancode),
{
    let mut f: [u8; 64] = [0u8; 64];
    f[REMAP_SELECT_OFFSET] = REMAP_MARKER;
    f[REMAP_SELECT_OFFSET + 2] = scancode;
    f
}

/// Carries a keycode, least significant byte first.
pub open spec fn write_frame(keycode: u16) -> Seq<u8> {
    frame::blank().update(REMAP_WRITE_OFFSET as int, REMAP_MARKER).update(
        REMAP_WRITE_OFFSET + 2,
        (keycode % 256) as u8,
    ).update(REMAP_WRITE_OFFSET + 3, (keycode / 256) as u8)
}

/// Carries a keycode, least significant byte first.
pub fn encode_remap_write(keycode: u16) -> (f: [u8; 64])
    ensures
        f@ == write_frame(keycode),
{
    let mut f: [u8; 64] = [0u8; 64];
    f[REMAP_WRITE_OFFSET] = REMAP_MARKER;
    f[REMAP_WRITE_OFFSET + 2] = (keycode % 256) as u8;
    f[REMAP_WRITE_OFFSET + 3] = (keycode / 256) as u8;
    f
}

/// The factory scancode of a key: on row 0 the column is the scancode, other
/// rows have none that is known.
pub open spec fn scancode(row: u8, col: u8) -> Option<u8> {
    if row == 0 {
        Some(col)
    } else {
        None
    }
}

/// The frames that write the listed keys; keys without a known scancode are skipped.
pub open spec fn remap_frames(entries: Seq<KeymapEntry>) -> Seq<Seq<u8>>
    decreases entries.len(),
{
    if entries.len() == 0 {
        Seq::empty()
    } else {
        let e = entries.last();
        let earlier = remap_frames(entries.drop_last());
        match scancode(e.row, e.col) {
            Some(code) => earlier.push(select_frame(code)).push(write_frame(e.keycode)),
            None => earlier,
        }
    }
}

/// `frames` writes the keys of `dirty` by layer, row and column.
pub open spec fn writes_keys(frames: Seq<[u8; 64]>, dirty: Map<(u8, u8, u8), u16>) -> bool {
    exists|entries: Seq<KeymapEntry>| #[trigger]
        legacy::lists_keymap(entries, dirty) && frame::contents(frames) == remap_frames(entries)
}

/// The lighting modes that are refused are refused with these words.
pub const BAD_MODE: &'static str = "EK68 lighting mode out of range (0x00..=0x13)";

/// The driver of one board.
pub struct EpomakerDriver {
    matrix: (u8, u8),
    layers: u8,
    keymap: Keymap,
    dirty: Keymap,
    lighting: Lighting,
}

impl EpomakerDriver {
    /// What `get_keycode` reads.
    pub closed spec fn keymap(&self) -> Map<(u8, u8, u8), u16> {
        self.keymap@
    }

    /// What was written since the last commit.
    pub closed spec fn dirty(&self) -> Map<(u8, u8, u8), u16> {
        self.dirty@
    }

    pub closed spec fn light(&self) -> Lighting {
        self.lighting
    }

    pub closed spec fn dimensions(&self) -> (u8, u8) {
        self.matrix
    }

    pub closed spec fn layer_total(&self) -> u8 {
        self.layers
    }

    /// Every dirty entry is in the keymap.
    pub closed spec fn wf(&self) -> bool {
        &&& self.keymap.wf()
        &&& self.dirty.wf()
        &&& self.dirty@.submap_of(self.keymap@)
    }

    /// Same dimensions and layers.
    pub open spec fn same_board(&self, other: &EpomakerDriver) -> bool {
        self.dimensions() == other.dimensions() && self.layer_total() == other.layer_total()
    }

    /// A driver with an empty keymap.
    pub fn new(matrix: (u8, u8), layers: u8) -> (d: EpomakerDriver)
        ensures
            d.wf(),
            d.dimensions() == matrix,
            d.layer_total() == layers,
            d.keymap() == Map::<(u8, u8, u8), u16>::empty(),
            d.dirty() == Map::<(u8, u8, u8), u16>::empty(),
            d.light() == Lighting::initial(),
    {
        EpomakerDriver {
            matrix,
            layers,
            keymap: SortedMap::new(),
            dirty: SortedMap::new(),
            lighting: Lighting::default(),
        }
    }

    /// Rows and columns.
    pub fn get_matrix_dimensions(&self) -> (m: (u8, u8))
        ensures
            m == self.dimensions(),
    {
        self.matrix
    }

    pub fn get_layer_count(&self) -> (n: u8)
        ensures
            n == self.layer_total(),
    {
        self.layers
    }

    /// Writes are collected on the host and wait for a commit.
    pub fn buffering(&self) -> (b: Buffering)
        ensures
            b == Buffering::Shadowed,
    {
        Buffering::Shadowed
    }

    /// The keycode that was last written; 0 where nothing was.
    pub fn get_keycode(&self, layer: u8, row: u8, col: u8) -> (keycode: u16)
        requires
            self.wf(),
        ensures
            keycode == if self.keymap().dom().contains((layer, row, col)) {
                self.keymap()[(layer, row, col)]
            } else {
                0
            },
    {
        match self.keymap.get(&Slot { layer, row, col }) {
            Some(keycode) => *keycode,
            None => 0,
        }
    }

    /// Writes a keycode; a commit pushes it.
    pub fn set_keycode(&mut self, layer: u8, row: u8, col: u8, keycode: u16)
        requires
            old(self).wf(),
        ensures
            final(self).wf(),
            final(self).same_board(old(self)),
            final(self).light() == old(self).light(),
            final(self).keymap() == old(self).keymap().insert((layer, row, col), keycode),
            final(self).dirty() == old(self).dirty().insert((layer, row, col), keycode),
    {
        self.keymap.insert(Slot { layer, row, col }, keycode);
        self.dirty.insert(Slot { layer, row, col }, keycode);
    }

    /// Macros are not stored; every byte reads as zero.
    pub fn get_macro_buffer(&self, _offset: u16, length: u8) -> (data: Vec<u8>)
        ensures
            data@ == Seq::new(length as nat, |i: int| 0u8),
    {
        frame::zeros(length as usize)
    }

    /// The lighting that `data` describes and its frame, or an error if the mode
    /// is out of range.
    pub fn set_lighting(&self, data: &[u8]) -> (plan: Result<(Lighting, [u8; 64]), DriverError>)
        ensures
            match plan {
                Ok((lighting, f)) => {
                    &&& Lighting::described(data@).mode <= MODE_MAX
                    &&& lighting == Lighting::described(data@)
                    &&& f@ == lighting.frame()
                },
                Err(e) => {
                    &&& Lighting::described(data@).mode > MODE_MAX
                    &&& e == (DriverError::ProtocolViolation { reason: BAD_MODE })
                },
            },
    {
        let lighting = Lighting::from_bytes(data);
        if lighting.mode > MODE_MAX {
            return Err(DriverError::ProtocolViolation { reason: BAD_MODE });
        }
        Ok((lighting, lighting.encode()))
    }

    /// The lighting frame was sent.
    pub fn lighting_sent(&mut self, lighting: Lighting)
        requires
            old(self).wf(),
        ensures
            final(self).wf(),
            final(self).same_board(old(self)),
            final(self).keymap() == old(self).keymap(),
            final(self).dirty() == old(self).dirty(),
            final(self).light() == lighting,
    {
        self.lighting = lighting;
    }

    /// The lighting that was last sent, as a payload.
    pub fn get_lighting(&self) -> (data: Vec<u8>)
        ensures
            data@ == self.light().payload(),
    {
        self.lighting.to_bytes()
    }

    /// The factory scancode of a key, if it is known.
    pub fn scancode_for(&self, _layer: u8, row: u8, col: u8) -> (code: Option<u8>)
        ensures
            code == scancode(row, col),
    {
        if row == 0 {
            Some(col)
        } else {
            None
        }
    }

    /// The frames that write the pending keys: a select and a write for each. A
    /// frame that cannot be sent ends the commit.
    pub fn begin_commit(&self) -> (frames: Vec<[u8; 64]>)
        requires
            self.wf(),
        ensures
            writes_keys(frames@, self.dirty()),
    {
        let entries = legacy::entries_of(&self.dirty);
        let mut frames: Vec<[u8; 64]> = Vec::new();
        let mut i: usize = 0;
        proof {
            assert(frame::contents(frames@) =~= remap_frames(entries@.take(0)));
        }
        while i < entries.len()
            invariant
                i <= entries@.len(),
                frame::contents(frames@) == remap_frames(entries@.take(i as int)),
            decreases entries@.len() - i,
        {
            let e = entries[i];
            let ghost before = frames@;
            proof {
                assert(entries@.take(i + 1).drop_last() =~= entries@.take(i as int));
            }
            if let Some(code) = self.scancode_for(e.layer, e.row, e.col) {
                frames.push(encode_select(code));
                frames.push(encode_remap_write(e.keycode));
                proof {
                    assert(frame::contents(frames@) =~= frame::contents(before).push(select_frame(code)).push(
                        write_frame(e.keycode),
                    ));
                }
            }
            i = i + 1;
        }
        proof {
            assert(entries@.take(i as int) =~= entries@);
        }
        frames
    }

    /// The commit ended with `outcome`. Only a success clears the pending keys.
    pub fn finish_commit(&mut self, outcome: Result<(), DriverError>) -> (result: Result<(), DriverError>)
        requires
            old(self).wf(),
        ensures
            final(self).wf(),
            final(self).same_board(old(self)),
            final(self).light() == old(self).light(),
            final(self).keymap() == old(self).keymap(),
            final(self).dirty() == if outcome is Ok {
                Map::<(u8, u8, u8), u16>::empty()
            } else {
                old(self).dirty()
            },
            result == outcome,
    {
        if outcome.is_ok() {
            self.dirty.clear();
        }
        outcome
    }
}

/// Nothing pending, nothing sent.
pub proof fn a_clean_commit_sends_nothing(frames: Seq<[u8; 64]>)
    requires
        writes_keys(frames, Map::<(u8, u8, u8), u16>::empty()),
    ensures
        frames.len() == 0,
{
    let entries = choose|entries: Seq<KeymapEntry>| #[trigger]
        legacy::lists_keymap(entries, Map::<(u8, u8, u8), u16>::empty()) && frame::contents(frames)
            == remap_frames(entries);
    if entries.len() > 0 {
        let e = entries.last();
        assert(legacy::keymap_of(entries).dom().contains((e.layer, e.row, e.col)));
    }
    assert(frame::contents(frames).len() == frames.len());
}

/// True when the descriptor declares a Feature report of at least `min_count`
/// fields. A Report Count whose data is cut off is padded with zeros.
pub fn descriptor_has_feature_report(descriptor: &[u8], min_count: u32) -> (found: bool)
    ensures
        found == hid::declares_feature(descriptor@, min_count, hid::count_value(CutOff::Padded)),
{
    hid::has_feature_report(descriptor, min_count, CutOff::Padded)
}

/// The refusal of a node that is not the configuration interface.
pub const NOT_VENDOR_INTERFACE: &'static str = "not the EK68 vendor interface (no 64-byte Feature report in HID descriptor)";

/// Accepts the node whose descriptor declares a 64-byte Feature report.
pub fn probe_vendor_feature_interface(descriptor: &[u8]) -> (r: Result<(), DriverError>)
    ensures
        r == if hid::declares_feature(descriptor@, 64, hid::count_value(CutOff::Padded)) {
            Ok::<(), DriverError>(())
        } else {
            Err::<(), DriverError>(DriverError::ProtocolViolation { reason: NOT_VENDOR_INTERFACE })
        },
{
    if descriptor_has_feature_report(descriptor, 64) {
        Ok(())
    } else {
        Err(DriverError::ProtocolViolation { reason: NOT_VENDOR_INTERFACE })
    }
}

/// The bytes of a lighting frame: mode, red, green and blue in the first four,
/// then the rainbow flag at 8, the brightness between 1 and 16 at 9, at 10 a
/// marker that tells off from lit, and the page-check code AA 55 at 14; all others
/// are zero.
pub proof fn lighting_frame_bytes(l: Lighting)
    ensures
        ({
            let f = l.frame();
            &&& f.len() == 64
            &&& f[0] == l.mode
            &&& f[1] == l.r
            &&& f[2] == l.g
            &&& f[3] == l.b
            &&& f[8] == if l.rainbow { 1int } else { 0int }
            &&& 1 <= f[9] <= 16
            &&& 1 <= l.brightness <= 16 ==> f[9] == l.brightness
            &&& l.brightness == 0 ==> f[9] == 1
            &&& l.brightness > 16 ==> f[9] == 16
            &&& f[10] == if l.mode == 0 { 0x01int } else { 0x0Bint }
            &&& f[14] == 0xAA && f[15] == 0x55
            &&& f[11] == 0 && f[12] == 0 && f[13] == 0
            &&& forall|i: int| 4 <= i < 8 || 16 <= i < 64 ==> #[trigger] f[i] == 0
        }),
{
}

/// Two lightings with the same frame have the same mode, color and rainbow flag,
/// and differ at most in a brightness beyond the range.
pub proof fn lighting_frames_tell_lightings_apart(a: Lighting, b: Lighting)
    requires
        a.frame() == b.frame(),
    ensures
        a.mode == b.mode,
        a.r == b.r,
        a.g == b.g,
        a.b == b.b,
        a.rainbow == b.rainbow,
        a.brightness == b.brightness || (a.brightness <= 1 && b.brightness <= 1) || (a.brightness >= 16
            && b.brightness >= 16),
{
    lighting_frame_bytes(a);
    lighting_frame_bytes(b);
}

/// The payload of a lighting is mode, red, green, blue, brightness and the
/// rainbow flag.
pub proof fn payload_bytes(l: Lighting)
    ensures
        ({
            let p = l.payload();
            &&& p.len() == 6
            &&& p[0] == l.mode && p[1] == l.r && p[2] == l.g && p[3] == l.b
            &&& p[4] == l.brightness
            &&& p[5] == if l.rainbow { 1int } else { 0int }
        }),
{
}

/// A payload says as much as it holds: bytes past the sixth are ignored, each
/// byte replaces one field, and the fields that it does not reach are those of
/// static white at full brightness.
pub proof fn short_payloads_leave_fields(data: Seq<u8>)
    ensures
        ({
            let l = Lighting::described(data);
            &&& data.len() > 6 ==> l == Lighting::described(data.take(6))
            &&& l.mode == if data.len() > 0 { data[0] as int } else { 1int }
            &&& l.r == if data.len() > 1 { data[1] as int } else { 255int }
            &&& l.g == if data.len() > 2 { data[2] as int } else { 255int }
            &&& l.b == if data.len() > 3 { data[3] as int } else { 255int }
            &&& l.brightness == if data.len() > 4 { data[4] as int } else { 16int }
            &&& l.rainbow <==> data.len() > 5 && data[5] != 0
        }),
{
}

/// A select is 02 at 20 and the scancode at 22; a write is 02 at 4 and the
/// keycode at 6, least significant byte first. All other bytes are zero.
pub proof fn remap_frame_bytes(scancode: u8, keycode: u16)
    ensures
        ({
            let select = select_frame(scancode);
            let write = write_frame(keycode);
            &&& select.len() == 64 && write.len() == 64
            &&& select[20] == 0x02 && select[22] == scancode
            &&& write[4] == 0x02 && write[6] + 256 * write[7] == keycode
            &&& forall|i: int| 0 <= i < 64 && i != 20 && i != 22 ==> #[trigger] select[i] == 0
            &&& forall|i: int| 0 <= i < 64 && i != 4 && i != 6 && i != 7 ==> #[trigger] write[i] == 0
        }),
{
}

/// The keys of the first row are written in the order in which they are listed,
/// each with a select of its column and a write of its keycode; other rows are
/// left out.
pub proof fn first_row_keys_are_written(entries: Seq<KeymapEntry>, k: int)
    ensures
        ({
            let first_row = entries.filter(|e: KeymapEntry| e.row == 0);
            let frames = remap_frames(entries);
            &&& frames.len() == 2 * first_row.len()
            &&& 0 <= k < first_row.len() ==> {
                &&& frames[2 * k] == select_frame(first_row[k].col)
                &&& frames[2 * k + 1] == write_frame(first_row[k].keycode)
            }
        }),
    decreases entries.len(),
{
    reveal(Seq::filter);
    if entries.len() > 0 {
        first_row_keys_are_written(entries.drop_last(), k);
    }
}

/// Modes up to 0x13 are accepted, and an accepted key is told by its column.
pub proof fn ranges_of_the_board(row: u8, col: u8)
    ensures
        MODE_MAX == 0x13,
        scancode(row, col) is Some <==> row == 0,
        row == 0 ==> scancode(row, col)->0 == col,
{
}

/// A commit writes every pending key of the first row, with a select of its column
/// and a write of its keycode one after the other, and sends nothing else.
pub proof fn commits_write_pending_keys(
    frames: Seq<[u8; 64]>,
    dirty: Map<(u8, u8, u8), u16>,
    layer: u8,
    col: u8,
    k: int,
)
    requires
        writes_keys(frames, dirty),
    ensures
        frames.len() % 2 == 0,
        dirty.dom().contains((layer, 0, col)) ==> exists|i: int|
            0 <= i < frames.len() / 2 && (#[trigger] frames[2 * i])@ == select_frame(col) && frames[2 * i + 1]@
                == write_frame(dirty[(layer, 0, col)]),
        0 <= k < frames.len() / 2 ==> exists|l: u8, c: u8| #[trigger]
            dirty.dom().contains((l, 0, c)) && frames[2 * k]@ == select_frame(c) && frames[2 * k + 1]@ == write_frame(
                dirty[(l, 0, c)],
            ),
{
    let entries = choose|entries: Seq<KeymapEntry>| #[trigger]
        legacy::lists_keymap(entries, dirty) && frame::contents(frames) == remap_frames(entries);
    let first_row = entries.filter(|e: KeymapEntry| e.row == 0);
    assert(frame::contents(frames).len() == frames.len());
    first_row_keys_are_written(entries, k);
    if dirty.dom().contains((layer, 0, col)) {
        legacy::lists_have_every_key_once(entries, dirty, 0, (layer, 0, col));
        let j = choose|j: int|
            0 <= j < entries.len() && ((#[trigger] entries[j]).layer, entries[j].row, entries[j].col) == (
                layer,
                0u8,
                col,
            );
        legacy::lists_have_every_key_once(entries, dirty, j, (layer, 0, col));
        row_keys_are_kept(entries, j);
        let i = choose|i: int| 0 <= i < first_row.len() && first_row[i] == entries[j];
        first_row_keys_are_written(entries, i);
        assert(frame::contents(frames)[2 * i] == frames[2 * i]@);
        assert(frame::contents(frames)[2 * i + 1] == frames[2 * i + 1]@);
        assert(frames[2 * i]@ == select_frame(col));
    }
    if 0 <= k < frames.len() / 2 {
        kept_keys_are_of_the_row(entries, k);
        let e = first_row[k];
        let j = choose|j: int| 0 <= j < entries.len() && entries[j] == e;
        legacy::lists_have_every_key_once(entries, dirty, j, (layer, 0, col));
        assert(frame::contents(frames)[2 * k] == frames[2 * k]@);
        assert(frame::contents(frames)[2 * k + 1] == frames[2 * k + 1]@);
        assert(dirty.dom().contains((e.layer, 0, e.col)));
    }
}

proof fn row_keys_are_kept(entries: Seq<KeymapEntry>, j: int)
    requires
        0 <= j < entries.len(),
        entries[j].row == 0,
    ensures
        entries.filter(|e: KeymapEntry| e.row == 0).contains(entries[j]),
{
    broadcast use vstd::seq_lib::group_filter_ensures;

}

proof fn kept_keys_are_of_the_row(entries: Seq<KeymapEntry>, k: int)
    requires
        0 <= k < entries.filter(|e: KeymapEntry| e.row == 0).len(),
    ensures
        entries.filter(|e: KeymapEntry| e.row == 0)[k].row == 0,
        entries.contains(entries.filter(|e: KeymapEntry| e.row == 0)[k]),
{
    broadcast use vstd::seq_lib::group_filter_ensures;

    let kept = entries.filter(|e: KeymapEntry| e.row == 0);
    assert(kept.contains(kept[k]));
    entries.lemma_filter_contains_rev(|e: KeymapEntry| e.row == 0, kept[k]);
}

/// What a payload asks for reaches the board: its first four bytes are the first
/// four of the lighting frame.
pub proof fn payloads_reach_the_lighting_frame(data: Seq<u8>)
    requires
        data.len() >= 4,
    ensures
        ({
            let f = Lighting::described(data).frame();
            &&& f.take(4) == data.take(4)
            &&& data.len() > 4 && 1 <= data[4] <= 16 ==> f[9] == data[4]
            &&& data.len() > 5 && data[5] != 0 ==> f[8] == 1
            &&& data.len() <= 5 || data[5] == 0 ==> f[8] == 0
        }),
{
    lighting_frame_bytes(Lighting::described(data));
    assert(Lighting::described(data).frame().take(4) =~= data.take(4));
}

/// The frames that are made have each field at its place.
pub proof fn frames_are_made(l: Lighting, scancode: u8, keycode: u16, f: [u8; 64])
    ensures
        call_ensures(Lighting::encode, (&l,), f) ==> f@[0] == l.mode && f@[1] == l.r && f@[2] == l.g && f@[3] == l.b
            && f@[8] == if l.rainbow { 1int } else { 0 },
        call_ensures(encode_select, (scancode,), f) ==> f@[20] == 0x02 && f@[22] == scancode,
        call_ensures(encode_remap_write, (keycode,), f) ==> f@[4] == 0x02 && f@[6] + 256 * f@[7] == keycode,
{
    lighting_frame_bytes(l);
    remap_frame_bytes(scancode, keycode);
}

} // verus!
