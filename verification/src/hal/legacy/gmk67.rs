//! GMK67-family driver (Epomaker EK68, Zuoya GMK67).
//!
//! The board is configured through 64-byte Feature reports. Lighting takes
//! effect at once, as a transaction of several frames; the keymap is held in a
//! [`ShadowState`] and written as a whole on commit. The driver computes the
//! frames; a transport exchanges them.

use vstd::prelude::*;

use crate::engine::worker::Buffering;
use crate::hal::frame;
use crate::hal::hid;
use crate::hal::hid::CutOff;
use crate::hal::legacy;
use crate::hal::legacy::{CommitOutcome, LightingState, SaveRequest, ShadowState};
use crate::hal::DriverError;

verus! {

/// USB vendor id of the EK68.
pub const EK68_VID: u16 = 0x05AC;

/// USB product id of the EK68.
pub const EK68_PID: u16 = 0x024F;

/// Length of a Feature report.
pub const FRAME_LEN: usize = 64;

/// Report id of the Feature report.
pub const REPORT_ID: u8 = 0x00;

/// First byte of a framing command.
pub const PACKET_HEADER: u8 = 0x04;

pub const CMD_COMMUNICATION_END: u8 = 0x02;

pub const CMD_WRITE_LED_SPECIAL_EFFECT_AREA: u8 = 0x13;

pub const CMD_TURN_ON_CUSTOMIZATION: u8 = 0x18;

pub const CMD_LED_EFFECT_START: u8 = 0xF0;

/// How many effect pages a mode write announces.
pub const LED_SPECIAL_EFFECT_PACKETS: u8 = 0x01;

pub const MF_MODE: usize = 0;

pub const MF_R: usize = 1;

pub const MF_G: usize = 2;

pub const MF_B: usize = 3;

pub const MF_RANDOM: usize = 8;

pub const MF_BRIGHTNESS: usize = 9;

pub const MF_SPEED: usize = 10;

pub const MF_DIRECTION: usize = 11;

pub const MF_FOOTER: usize = 14;

/// The page-check code.
pub const FOOTER_MAGIC: [u8; 2] = [0xAA, 0x55];

pub const MODE_STATIC: u8 = 0x01;

/// Highest effect id.
pub const MODE_EFFECT_MAX: u8 = 0x13;

/// Lights off.
pub const MODE_LIGHTS_OFF: u8 = 0x80;

pub const BRIGHTNESS_MIN: u8 = 0x00;

pub const BRIGHTNESS_MAX: u8 = 0x0F;

pub const SPEED_MAX: u8 = 0x0F;

/// Writes the key definitions of the base layer.
pub const CMD_WRITE_KEY_DEFINITION_AREA: u8 = 0x11;

/// Writes the key definitions of the Fn layer.
pub const CMD_WRITE_KEY_DEFINITION_AREA_FN: u8 = 0x27;

/// Reads the key definitions of the base layer.
pub const CMD_READ_KEY_DEFINITION_AREA: u8 = 0x10;

/// Reads the key definitions of the Fn layer.
pub const CMD_READ_KEY_DEFINITION_AREA_FN: u8 = 0x26;

pub const KEY_DEF_PAGES: usize = 9;

/// Nine pages.
pub const KEY_DEF_BUF_LEN: usize = 576;

/// First byte of a key definition.
pub const KEY_DEF_ENTRY_MARKER: u8 = 0x02;

/// Marks a matrix cell without a key.
pub const NA: u8 = 0xFF;

pub const EK68_ROWS: usize = 5;

pub const EK68_COLS: usize = 15;

/// The firmware's key index for each matrix cell.
pub const KEY_INDEX: [[u8; 15]; 5] = [
    [1, 20, 21, 22, 23, 24, 25, 26, 27, 28, 29, 30, 31, 103, 0xFF],
    [37, 38, 39, 40, 41, 42, 43, 44, 45, 46, 47, 48, 49, 67, 119],
    [55, 56, 57, 58, 59, 60, 61, 62, 63, 64, 65, 66, 85, 118, 0xFF],
    [73, 74, 75, 76, 77, 78, 79, 80, 81, 82, 83, 84, 101, 121, 0xFF],
    [91, 92, 93, 94, 95, 96, 99, 100, 102, 0xFF, 0xFF, 0xFF, 0xFF, 0xFF, 0xFF],
];

/// The key index of a matrix cell, if it has a key.
pub open spec fn key_index(row: u8, col: u8) -> Option<u8> {
    if row < EK68_ROWS && col < EK68_COLS && KEY_INDEX[row as int][col as int] != NA {
        Some(KEY_INDEX[row as int][col as int])
    } else {
        None
    }
}

/// The key index of a matrix cell, if it has a key.
pub fn key_index_for(row: u8, col: u8) -> (ki: Option<u8>)
    ensures
        ki == key_index(row, col),
{
    if row as usize >= EK68_ROWS || col as usize >= EK68_COLS {
        return None;
    }
    let ki: u8 = KEY_INDEX[row as usize][col as usize];
    if ki != NA {
        Some(ki)
    } else {
        None
    }
}

/// The matrix cell whose key has the index `ki`.
pub open spec fn cell_of(ki: u8) -> Option<(u8, u8)> {
    if exists|row: u8, col: u8| #[trigger] key_index(row, col) == Some(ki) {
        let (row, col) = choose|row: u8, col: u8| #[trigger] key_index(row, col) == Some(ki);
        Some((row, col))
    } else {
        None
    }
}

/// The cell of an index, by ranges of the table.
spec fn cell_by_range(ki: u8) -> Option<(u8, u8)> {
    if ki == 1 {
        Some((0, 0))
    } else if 20 <= ki <= 31 {
        Some((0, (ki - 19) as u8))
    } else if ki == 103 {
        Some((0, 13))
    } else if 37 <= ki <= 49 {
        Some((1, (ki - 37) as u8))
    } else if ki == 67 {
        Some((1, 13))
    } else if ki == 119 {
        Some((1, 14))
    } else if 55 <= ki <= 66 {
        Some((2, (ki - 55) as u8))
    } else if ki == 85 {
        Some((2, 12))
    } else if ki == 118 {
        Some((2, 13))
    } else if 73 <= ki <= 84 {
        Some((3, (ki - 73) as u8))
    } else if ki == 101 {
        Some((3, 12))
    } else if ki == 121 {
        Some((3, 13))
    } else if 91 <= ki <= 96 {
        Some((4, (ki - 91) as u8))
    } else if ki == 99 {
        Some((4, 6))
    } else if ki == 100 {
        Some((4, 7))
    } else if ki == 102 {
        Some((4, 8))
    } else {
        None
    }
}

proof fn index_has_range(row: u8, col: u8)
    ensures
        key_index(row, col) matches Some(ki) ==> cell_by_range(ki) == Some((row, col)) && ki <= 121,
{
    if row < EK68_ROWS && col < EK68_COLS {
        assert(row == 0 || row == 1 || row == 2 || row == 3 || row == 4);
        assert(col == 0 || col == 1 || col == 2 || col == 3 || col == 4 || col == 5 || col == 6 || col == 7
            || col == 8 || col == 9 || col == 10 || col == 11 || col == 12 || col == 13 || col == 14);
    }
}

/// No two keys share an index, so a key's cell can be found by its index.
pub proof fn key_indices_are_distinct(row: u8, col: u8)
    ensures
        key_index(row, col) matches Some(ki) ==> cell_of(ki) == Some((row, col)) && ki <= 121,
{
    index_has_range(row, col);
    if let Some(ki) = key_index(row, col) {
        let (r, c) = choose|r: u8, c: u8| #[trigger] key_index(r, c) == Some(ki);
        index_has_range(r, c);
    }
}

/// The matrix cell whose key has the index `ki`.
pub fn find_matrix_pos_for_key_index(ki: u8) -> (cell: Option<(u8, u8)>)
    ensures
        cell == cell_of(ki),
{
    let mut row: u8 = 0;
    while row < 5
        invariant
            row <= 5,
            forall|r: u8, c: u8| r < row ==> #[trigger] key_index(r, c) != Some(ki),
        decreases 5 - row,
    {
        let mut col: u8 = 0;
        while col < 15
            invariant
                row < 5,
                col <= 15,
                forall|r: u8, c: u8| r < row ==> #[trigger] key_index(r, c) != Some(ki),
                forall|c: u8| c < col ==> #[trigger] key_index(row, c) != Some(ki),
            decreases 15 - col,
        {
            if key_index_for(row, col) == Some(ki) {
                proof {
                    key_indices_are_distinct(row, col);
                }
                return Some((row, col));
            }
            col = col + 1;
        }
        proof {
            assert forall|c: u8| #[trigger] key_index(row, c) != Some(ki) by {
                if c >= 15 {
                    assert(key_index(row, c) is None);
                }
            }
            assert forall|r: u8, c: u8| r < row + 1 implies #[trigger] key_index(r, c) != Some(ki) by {
                if r == row {
                    assert(key_index(row, c) != Some(ki));
                }
            }
        }
        row = row + 1;
    }
    None
}

/// The command that writes a layer's key definitions.
pub fn keydef_command(layer: u8) -> (command: Option<u8>)
    ensures
        command == if layer == 0 {
            Some(CMD_WRITE_KEY_DEFINITION_AREA)
        } else if layer == 1 {
            Some(CMD_WRITE_KEY_DEFINITION_AREA_FN)
        } else {
            None
        },
{
    if layer == 0 {
        Some(CMD_WRITE_KEY_DEFINITION_AREA)
    } else if layer == 1 {
        Some(CMD_WRITE_KEY_DEFINITION_AREA_FN)
    } else {
        None
    }
}

/// The command that reads a layer's key definitions.
pub fn keydef_read_command(layer: u8) -> (command: Option<u8>)
    ensures
        command == if layer == 0 {
            Some(CMD_READ_KEY_DEFINITION_AREA)
        } else if layer == 1 {
            Some(CMD_READ_KEY_DEFINITION_AREA_FN)
        } else {
            None
        },
{
    if layer == 0 {
        Some(CMD_READ_KEY_DEFINITION_AREA)
    } else if layer == 1 {
        Some(CMD_READ_KEY_DEFINITION_AREA_FN)
    } else {
        None
    }
}

/// Effects, and lights off.
pub open spec fn renderable(mode: u8) -> bool {
    MODE_STATIC <= mode <= MODE_EFFECT_MAX || mode == MODE_LIGHTS_OFF
}

/// True for a mode of the whole keyboard that can be rendered.
pub fn is_renderable_mode(mode: u8) -> (ok: bool)
    ensures
        ok == renderable(mode),
{
    (MODE_STATIC <= mode && mode <= MODE_EFFECT_MAX) || mode == MODE_LIGHTS_OFF
}

/// Lighting of the whole keyboard.
#[derive(Clone, Copy, PartialEq, Eq, Structural, Debug)]
pub struct Lighting {
    pub mode: u8,
    pub r: u8,
    pub g: u8,
    pub b: u8,
    /// At most `BRIGHTNESS_MAX` on the wire.
    pub brightness: u8,
    /// At most `SPEED_MAX` on the wire.
    pub speed: u8,
    pub direction: u8,
    /// Random colours.
    pub random: bool,
}

impl Default for Lighting {
    fn default() -> (l: Lighting)
        ensures
            l == Lighting::initial(),
    {
        Lighting {
            mode: MODE_STATIC,
            r: 0xFF,
            g: 0xFF,
            b: 0xFF,
            brightness: BRIGHTNESS_MAX,
            speed: 0x00,
            direction: 0x00,
            random: false,
        }
    }
}

impl Lighting {
    /// Static white at full brightness.
    pub open spec fn initial() -> Lighting {
        Lighting {
            mode: MODE_STATIC,
            r: 0xFF,
            g: 0xFF,
            b: 0xFF,
            brightness: BRIGHTNESS_MAX,
            speed: 0x00,
            direction: 0x00,
            random: false,
        }
    }

    /// The mode frame.
    pub open spec fn frame(&self) -> Seq<u8> {
        frame::blank().update(MF_MODE as int, self.mode).update(MF_R as int, self.r).update(
            MF_G as int,
            self.g,
        ).update(MF_B as int, self.b).update(MF_RANDOM as int, frame::flag(self.random)).update(
            MF_BRIGHTNESS as int,
            frame::at_most(self.brightness, BRIGHTNESS_MAX),
        ).update(MF_SPEED as int, frame::at_most(self.speed, SPEED_MAX)).update(
            MF_DIRECTION as int,
            self.direction,
        ).update(MF_FOOTER as int, 0xAA).update(MF_FOOTER + 1, 0x55)
    }

    /// The mode frame.
    pub fn encode(&self) -> (f: [u8; 64])
        ensures
            f@ == self.frame(),
    {
        let mut f: [u8; 64] = [0u8; 64];
        f[MF_MODE] = self.mode;
        f[MF_R] = self.r;
        f[MF_G] = self.g;
        f[MF_B] = self.b;
        f[MF_RANDOM] = frame::flag_byte(self.random);
        f[MF_BRIGHTNESS] = if self.brightness <= BRIGHTNESS_MAX {
            self.brightness
        } else {
            BRIGHTNESS_MAX
        };
        f[MF_SPEED] = if self.speed <= SPEED_MAX {
            self.speed
        } else {
            SPEED_MAX
        };
        f[MF_DIRECTION] = self.direction;
        f[MF_FOOTER] = FOOTER_MAGIC[0];
        f[MF_FOOTER + 1] = FOOTER_MAGIC[1];
        proof {
            assert(f@ =~= self.frame());
        }
        f
    }

    /// The lighting that a payload
    /// `[mode, r, g, b, brightness?, random?, speed?, direction?]` describes.
    pub open spec fn described(data: Seq<u8>) -> Lighting {
        let d = Lighting::initial();
        Lighting {
            mode: frame::byte_or(data, 0, d.mode),
            r: frame::byte_or(data, 1, d.r),
            g: frame::byte_or(data, 2, d.g),
            b: frame::byte_or(data, 3, d.b),
            brightness: frame::byte_or(data, 4, d.brightness),
            random: frame::byte_or(data, 5, frame::flag(d.random)) != 0,
            speed: frame::byte_or(data, 6, d.speed),
            direction: frame::byte_or(data, 7, d.direction),
        }
    }

    /// Reads a payload `[mode, r, g, b, brightness?, random?, speed?, direction?]`;
    /// missing fields take their initial values.
    pub fn from_bytes(data: &[u8]) -> (l: Lighting)
        ensures
            l == Lighting::described(data@),
    {
        let d = Lighting::default();
        Lighting {
            mode: frame::byte_at(data, 0, d.mode),
            r: frame::byte_at(data, 1, d.r),
            g: frame::byte_at(data, 2, d.g),
            b: frame::byte_at(data, 3, d.b),
            brightness: frame::byte_at(data, 4, d.brightness),
            random: frame::byte_at(data, 5, frame::flag_byte(d.random)) != 0,
            speed: frame::byte_at(data, 6, d.speed),
            direction: frame::byte_at(data, 7, d.direction),
        }
    }

    /// The payload that describes the lighting.
    pub open spec fn payload(&self) -> Seq<u8> {
        seq![
            self.mode,
            self.r,
            self.g,
            self.b,
            self.brightness,
            frame::flag(self.random),
            self.speed,
            self.direction,
        ]
    }

    /// The payload that describes the lighting.
    pub fn to_bytes(self) -> (data: Vec<u8>)
        ensures
            data@ == self.payload(),
    {
        let mut data: Vec<u8> = Vec::new();
        data.push(self.mode);
        data.push(self.r);
        data.push(self.g);
        data.push(self.b);
        data.push(self.brightness);
        data.push(frame::flag_byte(self.random));
        data.push(self.speed);
        data.push(self.direction);
        proof {
            assert(data@ =~= self.payload());
        }
        data
    }

    /// The same lighting, as it is persisted.
    pub open spec fn state(&self) -> LightingState {
        LightingState {
            mode: self.mode,
            r: self.r,
            g: self.g,
            b: self.b,
            brightness: self.brightness,
            speed: self.speed,
            direction: self.direction,
            random: self.random,
        }
    }

    /// The same lighting, as it is persisted.
    pub fn to_lighting_state(&self) -> (s: LightingState)
        ensures
            s == self.state(),
    {
        LightingState {
            mode: self.mode,
            r: self.r,
            g: self.g,
            b: self.b,
            brightness: self.brightness,
            speed: self.speed,
            direction: self.direction,
            random: self.random,
        }
    }

    /// The lighting that was persisted.
    pub fn from_lighting_state(s: &LightingState) -> (l: Lighting)
        ensures
            l.state() == *s,
    {
        Lighting {
            mode: s.mode,
            r: s.r,
            g: s.g,
            b: s.b,
            brightness: s.brightness,
            speed: s.speed,
            direction: s.direction,
            random: s.random,
        }
    }
}

/// Reading a payload gives back the lighting that it was written from.
pub proof fn lighting_payload_round_trips(l: Lighting)
    ensures
        Lighting::described(l.payload()) == l,
{
}

/// A framing command.
pub open spec fn cmd_frame(command: u8) -> Seq<u8> {
    frame::blank().update(0, PACKET_HEADER).update(1, command)
}

/// A framing command that announces `pages` pages.
pub open spec fn page_cmd_frame(command: u8, pages: u8) -> Seq<u8> {
    cmd_frame(command).update(8, pages)
}

/// A framing command.
pub fn encode_cmd(command: u8) -> (f: [u8; 64])
    ensures
        f@ == cmd_frame(command),
{
    let mut f: [u8; 64] = [0u8; 64];
    f[0] = PACKET_HEADER;
    f[1] = command;
    f
}

/// Announces the effect page.
pub fn encode_start_effect_page() -> (f: [u8; 64])
    ensures
        f@ == page_cmd_frame(CMD_WRITE_LED_SPECIAL_EFFECT_AREA, LED_SPECIAL_EFFECT_PACKETS),
{
    let mut f: [u8; 64] = encode_cmd(CMD_WRITE_LED_SPECIAL_EFFECT_AREA);
    f[8] = LED_SPECIAL_EFFECT_PACKETS;
    f
}

/// Announces the key-definition pages.
pub fn encode_start_keydef_page(command: u8) -> (f: [u8; 64])
    ensures
        f@ == page_cmd_frame(command, 9),
{
    let mut f: [u8; 64] = encode_cmd(command);
    f[8] = 9;
    f
}

/// Keycodes by key index, of two entries for one key the later.
pub open spec fn keys_of(entries: Seq<(u8, u16)>) -> Map<u8, u16>
    decreases entries.len(),
{
    if entries.len() == 0 {
        Map::empty()
    } else {
        keys_of(entries.drop_last()).insert(entries.last().0, entries.last().1)
    }
}

/// The byte at offset `o` of the key-definition area: four bytes for each key
/// index, zero where the key keeps its factory meaning, and the page-check code
/// in the last two bytes.
pub open spec fn keydef_byte(keys: Map<u8, u16>, o: int) -> u8 {
    if o == KEY_DEF_BUF_LEN - 2 {
        0xAA
    } else if o == KEY_DEF_BUF_LEN - 1 {
        0x55
    } else if !keys.dom().contains((o / 4) as u8) {
        0
    } else {
        let keycode = keys[(o / 4) as u8];
        if o % 4 == 0 {
            KEY_DEF_ENTRY_MARKER
        } else if o % 4 == 1 {
            0
        } else if o % 4 == 2 {
            (keycode % 256) as u8
        } else {
            (keycode / 256) as u8
        }
    }
}

/// The key-definition area for `keys`.
pub open spec fn keydef_area(keys: Map<u8, u16>) -> Seq<u8> {
    Seq::new(KEY_DEF_BUF_LEN as nat, |o: int| keydef_byte(keys, o))
}

/// The key-definition area for a list of `(key index, keycode)`. Indices past
/// the end of the area are ignored.
pub fn encode_keydef_buffer(entries: &[(u8, u16)]) -> (buf: [u8; 576])
    ensures
        buf@ == keydef_area(keys_of(entries@)),
{
    let mut buf: [u8; 576] = [0u8; 576];
    let mut i: usize = 0;
    while i < entries.len()
        invariant
            i <= entries@.len(),
            forall|o: int|
                0 <= o < 576 ==> #[trigger] buf@[o] == {
                    let keys = keys_of(entries@.take(i as int));
                    if !keys.dom().contains((o / 4) as u8) {
                        0
                    } else if o % 4 == 0 {
                        KEY_DEF_ENTRY_MARKER
                    } else if o % 4 == 1 {
                        0
                    } else if o % 4 == 2 {
                        (keys[(o / 4) as u8] % 256) as u8
                    } else {
                        (keys[(o / 4) as u8] / 256) as u8
                    }
                },
        decreases entries@.len() - i,
    {
        let ki: u8 = entries[i].0;
        let kc: u16 = entries[i].1;
        let o: usize = ki as usize * 4;
        let ghost before = buf@;
        if o + 3 < KEY_DEF_BUF_LEN {
            buf[o] = KEY_DEF_ENTRY_MARKER;
            buf[o + 2] = (kc % 256) as u8;
            buf[o + 3] = (kc / 256) as u8;
        }
        proof {
            assert(entries@.take(i + 1).drop_last() =~= entries@.take(i as int));
        }
        i = i + 1;
    }
    buf[KEY_DEF_BUF_LEN - 2] = FOOTER_MAGIC[0];
    buf[KEY_DEF_BUF_LEN - 1] = FOOTER_MAGIC[1];
    proof {
        assert(entries@.take(i as int) =~= entries@);
        assert(buf@ =~= keydef_area(keys_of(entries@)));
    }
    buf
}

/// One step of a transaction.
#[derive(Clone, Copy, Debug)]
pub enum Step {
    /// Send a Feature report; if that fails, the transaction fails.
    Send { frame: [u8; 64] },
    /// Read a Feature report; its contents, or a failure, are ignored.
    Ack,
}

/// `step` sends `frame`.
pub open spec fn sends(step: Step, frame: Seq<u8>) -> bool {
    step matches Step::Send { frame: f } && f@ == frame
}

/// `steps` sends `frames` in order, with a read after every frame but the last.
pub open spec fn paced(steps: Seq<Step>, frames: Seq<Seq<u8>>) -> bool {
    &&& steps.len() == 2 * frames.len() - 1
    &&& forall|k: int|
        0 <= k < frames.len() ==> {
            &&& sends(steps[2 * k], #[trigger] frames[k])
            &&& k + 1 < frames.len() ==> steps[2 * k + 1] is Ack
        }
}

/// Of `n` frames, the frame `j` is sent in its place, and followed by a read.
spec fn paced_at(steps: Seq<Step>, frames: Seq<[u8; 64]>, j: int, n: int) -> bool {
    &&& steps[2 * j] == (Step::Send { frame: frames[j] })
    &&& j + 1 < n ==> steps[2 * j + 1] is Ack
}

/// Sends `frames` in order, with a read after every frame but the last.
fn pace(frames: &Vec<[u8; 64]>) -> (steps: Vec<Step>)
    requires
        frames@.len() > 0,
    ensures
        paced(steps@, frame::contents(frames@)),
{
    let mut steps: Vec<Step> = Vec::new();
    let mut k: usize = 0;
    while k < frames.len()
        invariant
            k <= frames@.len(),
            0 < frames@.len(),
            k == 0 ==> steps@.len() == 0,
            k > 0 ==> steps@.len() == 2 * k - 1,
            forall|j: int| 0 <= j < k ==> #[trigger] paced_at(steps@, frames@, j, k as int),
        decreases frames@.len() - k,
    {
        let ghost before = steps@;
        if k > 0 {
            steps.push(Step::Ack);
        }
        steps.push(Step::Send { frame: frames[k] });
        k = k + 1;
        proof {
            assert forall|j: int| 0 <= j < k implies #[trigger] paced_at(steps@, frames@, j, k as int) by {
                if j < k - 1 {
                    assert(paced_at(before, frames@, j, k - 1));
                    assert(steps@[2 * j] == before[2 * j]);
                    if j + 1 < k - 1 {
                        assert(steps@[2 * j + 1] == before[2 * j + 1]);
                    } else {
                        assert(2 * j + 1 == before.len());
                        assert(steps@[2 * j + 1] is Ack);
                    }
                } else {
                    assert(2 * j == steps@.len() - 1);
                    assert(steps@[2 * j] == (Step::Send { frame: frames@[j] }));
                }
            }
        }
    }
    proof {
        assert forall|j: int| 0 <= j < frame::contents(frames@).len() implies {
            &&& sends(steps@[2 * j], #[trigger] frame::contents(frames@)[j])
            &&& j + 1 < frame::contents(frames@).len() ==> steps@[2 * j + 1] is Ack
        } by {
            assert(frame::contents(frames@)[j] == frames@[j]@);
            assert(paced_at(steps@, frames@, j, k as int));
        }
    }
    steps
}

/// The frames that render a lighting.
pub open spec fn render_frames(lighting: Lighting) -> Seq<Seq<u8>> {
    seq![
        cmd_frame(CMD_TURN_ON_CUSTOMIZATION),
        page_cmd_frame(CMD_WRITE_LED_SPECIAL_EFFECT_AREA, LED_SPECIAL_EFFECT_PACKETS),
        lighting.frame(),
        cmd_frame(CMD_COMMUNICATION_END),
        cmd_frame(CMD_LED_EFFECT_START),
    ]
}

/// The transaction that renders a lighting.
pub fn render_effect(lighting: Lighting) -> (steps: Vec<Step>)
    ensures
        paced(steps@, render_frames(lighting)),
{
    let mut frames: Vec<[u8; 64]> = Vec::new();
    frames.push(encode_cmd(CMD_TURN_ON_CUSTOMIZATION));
    frames.push(encode_start_effect_page());
    frames.push(lighting.encode());
    frames.push(encode_cmd(CMD_COMMUNICATION_END));
    frames.push(encode_cmd(CMD_LED_EFFECT_START));
    proof {
        assert(frame::contents(frames@) =~= render_frames(lighting));
    }
    pace(&frames)
}

/// The pages of a key-definition area.
pub open spec fn pages(area: Seq<u8>) -> Seq<Seq<u8>> {
    Seq::new(KEY_DEF_PAGES as nat, |p: int| area.subrange(64 * p, 64 * p + 64))
}

/// The frames that write `keys` with `command`.
pub open spec fn keymap_frames(command: u8, keys: Map<u8, u16>) -> Seq<Seq<u8>> {
    seq![cmd_frame(CMD_TURN_ON_CUSTOMIZATION), page_cmd_frame(command, 9)] + pages(keydef_area(keys))
        + seq![cmd_frame(CMD_COMMUNICATION_END), cmd_frame(CMD_LED_EFFECT_START)]
}

/// One page of a key-definition area.
fn page_of(buf: &[u8; 576], p: usize) -> (page: [u8; 64])
    requires
        p < KEY_DEF_PAGES,
    ensures
        page@ == buf@.subrange(64 * p, 64 * p + 64),
{
    let mut page: [u8; 64] = [0u8; 64];
    let mut k: usize = 0;
    while k < 64
        invariant
            p < KEY_DEF_PAGES,
            k <= 64,
            forall|j: int| 0 <= j < k ==> #[trigger] page@[j] == buf@[64 * p + j],
        decreases 64 - k,
    {
        page[k] = buf[64 * p + k];
        k = k + 1;
    }
    proof {
        assert(page@ =~= buf@.subrange(64 * p, 64 * p + 64));
    }
    page
}

/// The transaction that writes the listed keys with `command`.
pub fn commit_keymap(command: u8, entries: &[(u8, u16)]) -> (steps: Vec<Step>)
    ensures
        paced(steps@, keymap_frames(command, keys_of(entries@))),
{
    let buf: [u8; 576] = encode_keydef_buffer(entries);
    let mut frames: Vec<[u8; 64]> = Vec::new();
    frames.push(encode_cmd(CMD_TURN_ON_CUSTOMIZATION));
    frames.push(encode_start_keydef_page(command));
    let mut p: usize = 0;
    while p < KEY_DEF_PAGES
        invariant
            p <= KEY_DEF_PAGES,
            frames@.len() == 2 + p,
            frames@[0]@ == cmd_frame(CMD_TURN_ON_CUSTOMIZATION),
            frames@[1]@ == page_cmd_frame(command, 9),
            forall|j: int|
                0 <= j < p ==> (#[trigger] frames@[2 + j])@ == buf@.subrange(64 * j, 64 * j + 64),
        decreases KEY_DEF_PAGES - p,
    {
        frames.push(page_of(&buf, p));
        p = p + 1;
    }
    frames.push(encode_cmd(CMD_COMMUNICATION_END));
    frames.push(encode_cmd(CMD_LED_EFFECT_START));
    proof {
        let keys = keys_of(entries@);
        let want = keymap_frames(command, keys);
        assert(buf@ == keydef_area(keys));
        assert forall|k: int| 0 <= k < want.len() implies frame::contents(frames@)[k] == want[k] by {
            if 2 <= k < 11 {
                assert(frames@[2 + (k - 2)]@ == buf@.subrange(64 * (k - 2), 64 * (k - 2) + 64));
                assert(want[k] == pages(keydef_area(keys))[k - 2]);
            }
        }
        assert(frame::contents(frames@) =~= want);
    }
    pace(&frames)
}

/// The address of the key with the index `ki` on a layer.
pub open spec fn slot_of(layer: u8, ki: u8) -> (u8, u8, u8) {
    match cell_of(ki) {
        Some((row, col)) => (layer, row, col),
        None => (layer, 0xFF, 0xFF),
    }
}

/// The keymap of one layer by key index; cells without a key are left out.
pub open spec fn layer_keys(keymap: Map<(u8, u8, u8), u16>, layer: u8) -> Map<u8, u16> {
    Map::new(
        |ki: u8| cell_of(ki) is Some && keymap.dom().contains(slot_of(layer, ki)),
        |ki: u8| keymap[slot_of(layer, ki)],
    )
}

/// The keys of a layer as `(key index, keycode)`; cells without a key are left out.
fn layer_key_entries(shadow: &ShadowState, layer: u8) -> (entries: Vec<(u8, u16)>)
    requires
        shadow.wf(),
    ensures
        keys_of(entries@) == layer_keys(shadow.keymap(), layer),
        entries@.len() == 0 <==> layer_keys(shadow.keymap(), layer) == Map::<u8, u16>::empty(),
{
    let cells = shadow.layer_entries(layer);
    let ghost keymap = shadow.keymap();
    let mut entries: Vec<(u8, u16)> = Vec::new();
    let mut i: usize = 0;
    while i < cells.len()
        invariant
            keymap == shadow.keymap(),
            legacy::lists_cells(cells@, keymap, layer),
            i <= cells@.len(),
            entries@.len() == 0 ==> keys_of(entries@) == Map::<u8, u16>::empty(),
            entries@.len() > 0 ==> keys_of(entries@).dom().contains(entries@.last().0),
            forall|ki: u8| #[trigger]
                keys_of(entries@).dom().contains(ki) <==> cell_of(ki) is Some && exists|j: int|
                    0 <= j < i && cell_of(ki) == Some(((#[trigger] cells@[j]).0, cells@[j].1)),
            forall|ki: u8| #[trigger]
                keys_of(entries@).dom().contains(ki) ==> keys_of(entries@)[ki] == keymap[slot_of(layer, ki)],
        decreases cells@.len() - i,
    {
        let row: u8 = cells[i].0;
        let col: u8 = cells[i].1;
        let ghost before = entries@;
        proof {
            key_indices_are_distinct(row, col);
            assert(keymap[(layer, row, col)] == cells@[i as int].2);
        }
        match key_index_for(row, col) {
            Some(ki) => {
                entries.push((ki, cells[i].2));
                proof {
                    assert(entries@.drop_last() =~= before);
                    assert(keys_of(entries@) == keys_of(before).insert(ki, cells@[i as int].2));
                    assert(slot_of(layer, ki) == (layer, row, col));
                }
            },
            None => {
                proof {
                    assert forall|ki: u8| cell_of(ki) != Some((row, col)) by {
                        if cell_of(ki) == Some((row, col)) {
                            assert(key_index(row, col) == Some(ki));
                        }
                    }
                }
            },
        }
        proof {
            assert forall|ki: u8| #[trigger] keys_of(entries@).dom().contains(ki) <==> cell_of(ki) is Some
                && exists|j: int|
                0 <= j < i + 1 && cell_of(ki) == Some(((#[trigger] cells@[j]).0, cells@[j].1)) by {
                if keys_of(before).dom().contains(ki) {
                    let j = choose|j: int|
                        0 <= j < i && cell_of(ki) == Some(((#[trigger] cells@[j]).0, cells@[j].1));
                    assert(cell_of(ki) == Some((cells@[j].0, cells@[j].1)));
                }
                if cell_of(ki) == Some((row, col)) {
                    assert(key_index(row, col) == Some(ki));
                    assert(cell_of(ki) == Some((cells@[i as int].0, cells@[i as int].1)));
                }
            }
        }
        i = i + 1;
    }
    proof {
        let keys = keys_of(entries@);
        let want = layer_keys(keymap, layer);
        assert forall|ki: u8| keys.dom().contains(ki) == want.dom().contains(ki) by {
            if want.dom().contains(ki) {
                let slot = slot_of(layer, ki);
                assert(keymap.dom().contains((layer, slot.1, slot.2)));
                assert(cells@.contains((slot.1, slot.2, keymap[slot])));
                let j = choose|j: int| 0 <= j < cells@.len() && cells@[j] == (slot.1, slot.2, keymap[slot]);
                assert(cell_of(ki) == Some((cells@[j].0, cells@[j].1)));
            }
            if keys.dom().contains(ki) {
                let j = choose|j: int|
                    0 <= j < i && cell_of(ki) == Some(((#[trigger] cells@[j]).0, cells@[j].1));
                assert(keymap.dom().contains((layer, cells@[j].0, cells@[j].1)));
            }
        }
        assert(keys =~= want);
        if entries@.len() > 0 {
            assert(want.dom().contains(entries@.last().0));
        }
    }
    entries
}

/// A commit writes the layer: it has pending changes and at least one key.
pub open spec fn is_written(shadow: &ShadowState, layer: u8) -> bool {
    legacy::has_layer(shadow.dirty(), layer) && layer_keys(shadow.keymap(), layer) != Map::<
        u8,
        u16,
    >::empty()
}

/// The transactions of a commit: the base layer, then the Fn layer, each in full,
/// where they are to be written.
pub open spec fn is_commit_plan(plan: Seq<Vec<Step>>, shadow: &ShadowState) -> bool {
    let base: int = if is_written(shadow, 0) { 1 } else { 0 };
    let func: int = if is_written(shadow, 1) { 1 } else { 0 };
    &&& plan.len() == base + func
    &&& is_written(shadow, 0) ==> paced(
        plan[0]@,
        keymap_frames(CMD_WRITE_KEY_DEFINITION_AREA, layer_keys(shadow.keymap(), 0)),
    )
    &&& is_written(shadow, 1) ==> paced(
        plan[base]@,
        keymap_frames(CMD_WRITE_KEY_DEFINITION_AREA_FN, layer_keys(shadow.keymap(), 1)),
    )
}

/// The number that two bytes spell, least significant byte first.
pub open spec fn word(lo: u8, hi: u8) -> u16 {
    (lo + 256 * hi) as u16
}

/// The keys that a page of the key-definition area defines.
pub open spec fn page_keys(layer: u8, page: int, data: Seq<u8>) -> Map<(u8, u8, u8), u16> {
    Map::new(
        |slot: (u8, u8, u8)|
            slot.0 == layer && (key_index(slot.1, slot.2) matches Some(ki) && ki as int / 16 == page && data[4 * (
            ki as int % 16)] == KEY_DEF_ENTRY_MARKER),
        |slot: (u8, u8, u8)|
            {
                let o = 4 * (key_index(slot.1, slot.2)->0 as int % 16);
                word(data[o + 2], data[o + 3])
            },
    )
}

/// Those of the keys that stand among the first `n` entries of their page.
spec fn first_keys(keys: Map<(u8, u8, u8), u16>, n: int) -> Map<(u8, u8, u8), u16> {
    keys.restrict(Set::new(|slot: (u8, u8, u8)| key_index(slot.1, slot.2) matches Some(ki) && ki as int % 16 < n))
}

/// One step of reading the key definitions back.
#[derive(Clone, Copy, Debug)]
pub enum SyncStep {
    /// Send a Feature report; if that fails, reading fails.
    Send { frame: [u8; 64] },
    /// Read a Feature report; its contents, or a failure, are ignored.
    Ack,
    /// Read a page; if that fails, reading fails.
    ReadPage { layer: u8, page: u8 },
}

/// `step` sends `frame`.
pub open spec fn sync_sends(step: SyncStep, frame: Seq<u8>) -> bool {
    step matches SyncStep::Send { frame: f } && f@ == frame
}

/// The steps that read one layer with `command`.
pub open spec fn reads_layer(steps: Seq<SyncStep>, layer: u8, command: u8) -> bool {
    &&& steps.len() == 15
    &&& sync_sends(steps[0], cmd_frame(CMD_TURN_ON_CUSTOMIZATION))
    &&& steps[1] is Ack
    &&& sync_sends(steps[2], page_cmd_frame(command, 9))
    &&& steps[3] is Ack
    &&& forall|p: int|
        0 <= p < KEY_DEF_PAGES ==> #[trigger] steps[4 + p] == (SyncStep::ReadPage { layer, page: p as u8 })
    &&& sync_sends(steps[13], cmd_frame(CMD_COMMUNICATION_END))
    &&& steps[14] is Ack
}

/// The steps that read the layers that a device with `layers` layers exposes.
pub open spec fn is_sync_plan(steps: Seq<SyncStep>, layers: u8) -> bool {
    if layers == 0 {
        steps.len() == 0
    } else if layers == 1 {
        reads_layer(steps, 0, CMD_READ_KEY_DEFINITION_AREA)
    } else {
        &&& steps.len() == 30
        &&& reads_layer(steps.subrange(0, 15), 0, CMD_READ_KEY_DEFINITION_AREA)
        &&& reads_layer(steps.subrange(15, 30), 1, CMD_READ_KEY_DEFINITION_AREA_FN)
    }
}

/// The steps that read one layer with `command`.
fn layer_sync_steps(layer: u8, command: u8) -> (steps: Vec<SyncStep>)
    ensures
        reads_layer(steps@, layer, command),
{
    let mut steps: Vec<SyncStep> = Vec::new();
    steps.push(SyncStep::Send { frame: encode_cmd(CMD_TURN_ON_CUSTOMIZATION) });
    steps.push(SyncStep::Ack);
    steps.push(SyncStep::Send { frame: encode_start_keydef_page(command) });
    steps.push(SyncStep::Ack);
    let mut p: u8 = 0;
    while p < 9
        invariant
            p <= 9,
            steps@.len() == 4 + p,
            sync_sends(steps@[0], cmd_frame(CMD_TURN_ON_CUSTOMIZATION)),
            steps@[1] is Ack,
            sync_sends(steps@[2], page_cmd_frame(command, 9)),
            steps@[3] is Ack,
            forall|j: int|
                0 <= j < p ==> #[trigger] steps@[4 + j] == (SyncStep::ReadPage { layer, page: j as u8 }),
        decreases 9 - p,
    {
        steps.push(SyncStep::ReadPage { layer, page: p });
        p = p + 1;
    }
    steps.push(SyncStep::Send { frame: encode_cmd(CMD_COMMUNICATION_END) });
    steps.push(SyncStep::Ack);
    steps
}

/// The lighting modes that are refused are refused with these words.
pub const BAD_MODE: &'static str = "EK68 lighting mode out of range (effects 0x01..=0x13, or 0x80 off)";

/// Name of the boards that speak this protocol.
pub const MODEL_NAME: &'static str = "GMK67/EK68";

/// The driver of one board.
pub struct Gmk67Driver {
    matrix: (u8, u8),
    layers: u8,
    shadow: ShadowState,
    lighting: Lighting,
}

impl Gmk67Driver {
    pub closed spec fn shadow(&self) -> ShadowState {
        self.shadow
    }

    pub closed spec fn light(&self) -> Lighting {
        self.lighting
    }

    pub closed spec fn dimensions(&self) -> (u8, u8) {
        self.matrix
    }

    pub closed spec fn layer_total(&self) -> u8 {
        self.layers
    }

    pub closed spec fn wf(&self) -> bool {
        self.shadow.wf()
    }

    /// Same dimensions and layers.
    pub open spec fn same_board(&self, other: &Gmk67Driver) -> bool {
        self.dimensions() == other.dimensions() && self.layer_total() == other.layer_total()
    }

    /// A driver that starts from a shadow, whose lighting it takes over.
    pub fn new(matrix: (u8, u8), layers: u8, shadow: ShadowState) -> (d: Gmk67Driver)
        requires
            shadow.wf(),
        ensures
            d.wf(),
            d.dimensions() == matrix,
            d.layer_total() == layers,
            d.shadow() == shadow,
            d.light().state() == shadow.light(),
    {
        let lighting = Lighting::from_lighting_state(shadow.lighting());
        Gmk67Driver { matrix, layers, shadow, lighting }
    }

    /// Rows and columns.
    pub fn get_matrix_dimensions(&self) -> (m: (u8, u8))
        ensures
            m == self.dimensions(),
    {
        self.matrix
    }

    pub fn get_layer_count(&self) -> (n: u8)
        ensures
            n == self.layer_total(),
    {
        self.layers
    }

    /// Writes are collected on the host and wait for a commit.
    pub fn buffering(&self) -> (b: Buffering)
        ensures
            b == Buffering::Shadowed,
    {
        Buffering::Shadowed
    }

    /// The keycode in the shadow; 0 where nothing was written.
    pub fn get_keycode(&self, layer: u8, row: u8, col: u8) -> (keycode: u16)
        requires
            self.wf(),
        ensures
            keycode == if self.shadow().keymap().dom().contains((layer, row, col)) {
                self.shadow().keymap()[(layer, row, col)]
            } else {
                0
            },
    {
        self.shadow.get_keycode(layer, row, col)
    }

    /// Writes a keycode to the shadow; a commit pushes it.
    pub fn set_keycode(&mut self, layer: u8, row: u8, col: u8, keycode: u16)
        requires
            old(self).wf(),
        ensures
            final(self).wf(),
            final(self).same_board(old(self)),
            final(self).light() == old(self).light(),
            final(self).shadow().keymap() == old(self).shadow().keymap().insert((layer, row, col), keycode),
            final(self).shadow().dirty() == old(self).shadow().dirty().insert((layer, row, col), keycode),
            final(self).shadow().confirmed() == old(self).shadow().confirmed(),
            final(self).shadow().light() == old(self).shadow().light(),
            final(self).shadow().path() == old(self).shadow().path(),
            final(self).shadow().cache_status() == legacy::CacheStatus::Pending,
    {
        self.shadow.set_keycode(layer, row, col, keycode);
    }

    /// Macros are not stored; every byte reads as zero.
    pub fn get_macro_buffer(&self, _offset: u16, length: u8) -> (data: Vec<u8>)
        ensures
            data@ == Seq::new(length as nat, |i: int| 0u8),
    {
        frame::zeros(length as usize)
    }

    /// The lighting that `data` describes and the transaction that renders it, or
    /// an error if the mode cannot be rendered.
    pub fn set_lighting(&self, data: &[u8]) -> (plan: Result<(Lighting, Vec<Step>), DriverError>)
        ensures
            match plan {
                Ok((lighting, steps)) => {
                    &&& renderable(Lighting::described(data@).mode)
                    &&& lighting == Lighting::described(data@)
                    &&& paced(steps@, render_frames(lighting))
                },
                Err(e) => {
                    &&& !renderable(Lighting::described(data@).mode)
                    &&& e == (DriverError::ProtocolViolation { reason: BAD_MODE })
                },
            },
    {
        let lighting = Lighting::from_bytes(data);
        if !is_renderable_mode(lighting.mode) {
            return Err(DriverError::ProtocolViolation { reason: BAD_MODE });
        }
        Ok((lighting, render_effect(lighting)))
    }

    /// The lighting was rendered.
    pub fn lighting_rendered(&mut self, lighting: Lighting)
        requires
            old(self).wf(),
        ensures
            final(self).wf(),
            final(self).same_board(old(self)),
            final(self).light() == lighting,
            final(self).shadow().keymap() == old(self).shadow().keymap(),
            final(self).shadow().dirty() == old(self).shadow().dirty(),
            final(self).shadow().confirmed() == old(self).shadow().confirmed(),
            final(self).shadow().cache_status() == old(self).shadow().cache_status(),
            final(self).shadow().path() == old(self).shadow().path(),
            final(self).shadow().light() == lighting.state(),
    {
        self.lighting = lighting;
        self.shadow.set_lighting(lighting.to_lighting_state());
    }

    /// The lighting that was last rendered, as a payload.
    pub fn get_lighting(&self) -> (data: Vec<u8>)
        ensures
            data@ == self.light().payload(),
    {
        self.lighting.to_bytes()
    }

    /// The transactions that make the shadow keymap durable, or `None` when there
    /// is nothing to write.
    pub fn begin_commit(&mut self) -> (plan: Option<Vec<Vec<Step>>>)
        requires
            old(self).wf(),
        ensures
            final(self).wf(),
            final(self).same_board(old(self)),
            final(self).light() == old(self).light(),
            final(self).shadow().path() == old(self).shadow().path(),
            final(self).shadow().same_contents(&old(self).shadow()),
            match plan {
                None => {
                    &&& old(self).shadow().dirty() == Map::<(u8, u8, u8), u16>::empty()
                    &&& final(self).shadow().cache_status() == old(self).shadow().cache_status()
                },
                Some(transactions) => {
                    &&& old(self).shadow().dirty() != Map::<(u8, u8, u8), u16>::empty()
                    &&& final(self).shadow().cache_status() == legacy::CacheStatus::Pending
                    &&& is_commit_plan(transactions@, &old(self).shadow())
                },
            },
    {
        if !self.shadow.is_dirty() {
            return None;
        }
        self.shadow.prepare_commit();
        Some(self.push_dirty_layers())
    }

    /// The transactions that write the layers with pending changes.
    fn push_dirty_layers(&self) -> (plan: Vec<Vec<Step>>)
        requires
            self.wf(),
        ensures
            is_commit_plan(plan@, &self.shadow()),
    {
        let dirty = self.shadow.dirty_layers();
        let mut plan: Vec<Vec<Step>> = Vec::new();
        let mut layer: u8 = 0;
        while layer < 2
            invariant
                self.wf(),
                layer <= 2,
                legacy::lists_layers(dirty@, self.shadow().dirty()),
                plan@.len() == (if layer > 0 && is_written(&self.shadow(), 0) { 1int } else { 0 }) + (if layer > 1
                    && is_written(&self.shadow(), 1) { 1int } else { 0 }),
                layer > 0 && is_written(&self.shadow(), 0) ==> paced(
                    plan@[0]@,
                    keymap_frames(CMD_WRITE_KEY_DEFINITION_AREA, layer_keys(self.shadow().keymap(), 0)),
                ),
                layer > 1 && is_written(&self.shadow(), 1) ==> paced(
                    plan@[if is_written(&self.shadow(), 0) { 1int } else { 0 }]@,
                    keymap_frames(CMD_WRITE_KEY_DEFINITION_AREA_FN, layer_keys(self.shadow().keymap(), 1)),
                ),
            decreases 2 - layer,
        {
            if lists(&dirty, layer) {
                if let Some(command) = keydef_command(layer) {
                    let entries = layer_key_entries(&self.shadow, layer);
                    if entries.len() > 0 {
                        plan.push(commit_keymap(command, entries.as_slice()));
                    }
                }
            }
            proof {
                assert(legacy::has_layer(self.shadow().dirty(), layer) == dirty@.contains(layer));
            }
            layer = layer + 1;
        }
        plan
    }

    /// The transactions of a commit ended with `outcome`.
    ///
    /// On success the keymap is confirmed and to be persisted; on failure it is
    /// rolled back.
    pub fn finish_commit(&mut self, outcome: Result<(), DriverError>) -> (out: CommitOutcome)
        requires
            old(self).wf(),
        ensures
            final(self).wf(),
            final(self).same_board(old(self)),
            final(self).light() == old(self).light(),
            final(self).shadow().light() == old(self).shadow().light(),
            final(self).shadow().path() == old(self).shadow().path(),
            final(self).shadow().dirty() == Map::<(u8, u8, u8), u16>::empty(),
            out.result == outcome,
            match outcome {
                Ok(_) => {
                    &&& final(self).shadow().keymap() == old(self).shadow().keymap()
                    &&& final(self).shadow().confirmed() == old(self).shadow().keymap()
                    &&& final(self).shadow().cache_status() == legacy::CacheStatus::Confirmed
                    &&& legacy::saves(
                        out.save,
                        final(self).shadow().path(),
                        final(self).shadow().keymap(),
                        final(self).shadow().light(),
                    )
                },
                Err(_) => {
                    &&& final(self).shadow().keymap() == old(self).shadow().confirmed()
                    &&& final(self).shadow().confirmed() == old(self).shadow().confirmed()
                    &&& final(self).shadow().cache_status() == legacy::CacheStatus::Failed
                    &&& out.save is None
                },
            },
    {
        match outcome {
            Ok(_) => {
                let save = self.shadow.confirm_commit();
                CommitOutcome { result: outcome, save }
            },
            Err(_) => {
                self.shadow.rollback();
                CommitOutcome { result: outcome, save: None }
            },
        }
    }

    /// The steps that read the key definitions of every layer back.
    pub fn sync_eeprom(&self) -> (steps: Vec<SyncStep>)
        ensures
            is_sync_plan(steps@, self.layer_total()),
    {
        let mut steps: Vec<SyncStep> = Vec::new();
        let mut layer: u8 = 0;
        while layer < self.layers && layer < 2
            invariant
                layer <= 2,
                layer <= self.layers,
                is_sync_plan(steps@, layer),
            decreases 2 - layer,
        {
            let ghost before = steps@;
            if let Some(command) = keydef_read_command(layer) {
                let mut more = layer_sync_steps(layer, command);
                let ghost added = more@;
                steps.append(&mut more);
                proof {
                    if layer == 0 {
                        assert(steps@ =~= added);
                    } else {
                        assert(steps@.subrange(0, 15) =~= before);
                        assert(steps@.subrange(15, 30) =~= added);
                    }
                }
            }
            layer = layer + 1;
        }
        steps
    }

    /// A page of a layer's key definitions was read: the keys that it defines
    /// enter the shadow.
    pub fn page_read(&mut self, layer: u8, page: u8, data: &[u8; 64])
        requires
            old(self).wf(),
            page < 9,
        ensures
            final(self).wf(),
            final(self).same_board(old(self)),
            final(self).light() == old(self).light(),
            final(self).shadow().light() == old(self).shadow().light(),
            final(self).shadow().path() == old(self).shadow().path(),
            final(self).shadow().confirmed() == old(self).shadow().confirmed(),
            final(self).shadow().keymap() == old(self).shadow().keymap().union_prefer_right(
                page_keys(layer, page as int, data@),
            ),
            final(self).shadow().dirty() == old(self).shadow().dirty().union_prefer_right(
                page_keys(layer, page as int, data@),
            ),
            final(self).shadow().cache_status() == if page_keys(layer, page as int, data@) == Map::<
                (u8, u8, u8),
                u16,
            >::empty() {
                old(self).shadow().cache_status()
            } else {
                legacy::CacheStatus::Pending
            },
    {
        let mut entry: u8 = 0;
        let ghost keys = page_keys(layer, page as int, data@);
        proof {
            assert(first_keys(keys, 0) =~= Map::empty());
            assert(self.shadow().keymap().union_prefer_right(first_keys(keys, 0)) =~= self.shadow().keymap());
            assert(self.shadow().dirty().union_prefer_right(first_keys(keys, 0)) =~= self.shadow().dirty());
        }
        while entry < 16
            invariant
                self.wf(),
                page < 9,
                entry <= 16,
                keys == page_keys(layer, page as int, data@),
                self.same_board(old(self)),
                self.light() == old(self).light(),
                self.shadow().light() == old(self).shadow().light(),
                self.shadow().path() == old(self).shadow().path(),
                self.shadow().confirmed() == old(self).shadow().confirmed(),
                self.shadow().keymap() == old(self).shadow().keymap().union_prefer_right(first_keys(keys, entry as int)),
                self.shadow().dirty() == old(self).shadow().dirty().union_prefer_right(first_keys(keys, entry as int)),
                self.shadow().cache_status() == if first_keys(keys, entry as int) == Map::<(u8, u8, u8), u16>::empty() {
                    old(self).shadow().cache_status()
                } else {
                    legacy::CacheStatus::Pending
                },
            decreases 16 - entry,
        {
            let o: usize = entry as usize * 4;
            let ki: u8 = page * 16 + entry;
            let ghost kept = self.shadow();
            let mut found: Option<(u8, u8)> = None;
            if data[o] == KEY_DEF_ENTRY_MARKER {
                found = find_matrix_pos_for_key_index(ki);
            }
            proof {
                assert forall|row: u8, col: u8| #[trigger] key_index(row, col) == Some(ki) implies cell_of(ki) == Some(
                    (row, col),
                ) by {
                    key_indices_are_distinct(row, col);
                }
            }
            if let Some((row, col)) = found {
                let keycode: u16 = data[o + 2] as u16 + 256 * data[o + 3] as u16;
                self.shadow.set_keycode(layer, row, col, keycode);
                proof {
                    let slot = (layer, row, col);
                    assert(key_index(row, col) == Some(ki));
                    assert(keys.dom().contains(slot));
                    assert(keys[slot] == keycode);
                    assert(first_keys(keys, entry + 1) =~= first_keys(keys, entry as int).insert(slot, keycode)) by {
                        assert forall|s: (u8, u8, u8)|
                            #[trigger] first_keys(keys, entry + 1).dom().contains(s) == first_keys(keys, entry as int).insert(slot, keycode).dom().contains(
                                s,
                            ) by {
                            if first_keys(keys, entry + 1).dom().contains(s) && key_index(s.1, s.2)->0 as int % 16 == entry {
                                assert(key_index(s.1, s.2) == Some(ki));
                            }
                        }
                    }
                    assert(first_keys(keys, entry + 1).dom().contains(slot));
                    assert(self.shadow().keymap() =~= old(self).shadow().keymap().union_prefer_right(
                        first_keys(keys, entry + 1),
                    ));
                    assert(self.shadow().dirty() =~= old(self).shadow().dirty().union_prefer_right(
                        first_keys(keys, entry + 1),
                    ));
                }
            } else {
                proof {
                    assert(first_keys(keys, entry + 1) =~= first_keys(keys, entry as int)) by {
                        assert forall|s: (u8, u8, u8)|
                            #[trigger] first_keys(keys, entry + 1).dom().contains(s) == first_keys(keys, entry as int).dom().contains(s) by {
                            if first_keys(keys, entry + 1).dom().contains(s) && key_index(s.1, s.2)->0 as int % 16 == entry {
                                assert(key_index(s.1, s.2) == Some(ki));
                            }
                        }
                    }
                }
            }
            entry = entry + 1;
        }
        proof {
            assert(first_keys(keys, 16) =~= keys);
        }
    }

    /// Every layer was read: what the device holds is the confirmed keymap.
    pub fn sync_finished(&mut self) -> (save: Option<SaveRequest>)
        requires
            old(self).wf(),
        ensures
            final(self).wf(),
            final(self).same_board(old(self)),
            final(self).light() == old(self).light(),
            final(self).shadow().light() == old(self).shadow().light(),
            final(self).shadow().path() == old(self).shadow().path(),
            final(self).shadow().keymap() == old(self).shadow().keymap(),
            if old(self).layer_total() == 0 {
                &&& save is None
                &&& final(self).shadow() == old(self).shadow()
            } else {
                &&& final(self).shadow().confirmed() == old(self).shadow().keymap()
                &&& final(self).shadow().dirty() == Map::<(u8, u8, u8), u16>::empty()
                &&& final(self).shadow().cache_status() == legacy::CacheStatus::Confirmed
                &&& legacy::saves(
                    save,
                    final(self).shadow().path(),
                    final(self).shadow().keymap(),
                    final(self).shadow().light(),
                )
            },
    {
        if self.layers == 0 {
            return None;
        }
        self.shadow.prepare_commit();
        self.shadow.confirm_commit()
    }
}

/// True when `layer` is in `layers`.
fn lists(layers: &Vec<u8>, layer: u8) -> (found: bool)
    ensures
        found == layers@.contains(layer),
{
    let mut i: usize = 0;
    while i < layers.len()
        invariant
            i <= layers@.len(),
            forall|j: int| 0 <= j < i ==> layers@[j] != layer,
        decreases layers@.len() - i,
    {
        if layers[i] == layer {
            return true;
        }
        i = i + 1;
    }
    false
}

/// True when the descriptor declares a Feature report of at least `min_count`
/// fields. A Report Count whose data is cut off counts as zero.
pub fn descriptor_has_feature_report(descriptor: &[u8], min_count: u32) -> (found: bool)
    ensures
        found == hid::declares_feature(
            descriptor@,
            min_count,
            hid::count_value(CutOff::Zero),
        ),
{
    hid::has_feature_report(descriptor, min_count, CutOff::Zero)
}

/// The refusal of a node that is not the configuration interface.
pub const NOT_VENDOR_INTERFACE: &'static str = "not the EK68 vendor interface (no 64-byte Feature report in HID descriptor)";

/// Accepts the node whose descriptor declares a 64-byte Feature report.
pub fn probe_vendor_feature_interface(descriptor: &[u8]) -> (r: Result<(), DriverError>)
    ensures
        match r {
            Ok(_) => hid::declares_feature(
                descriptor@,
                64,
                hid::count_value(CutOff::Zero),
            ),
            Err(e) => {
                &&& !hid::declares_feature(
                    descriptor@,
                    64,
                    hid::count_value(CutOff::Zero),
                )
                &&& e == (DriverError::ProtocolViolation { reason: NOT_VENDOR_INTERFACE })
            },
        },
{
    if descriptor_has_feature_report(descriptor, 64) {
        Ok(())
    } else {
        Err(DriverError::ProtocolViolation { reason: NOT_VENDOR_INTERFACE })
    }
}

/// Reading back the pages that a commit wrote gives the layer's keymap: a key of
/// the board has in the read pages the keycode that was written, and a key that
/// was not written is not in them.
pub proof fn written_keys_read_back(keymap: Map<(u8, u8, u8), u16>, layer: u8, row: u8, col: u8)
    requires
        key_index(row, col) is Some,
    ensures
        ({
            let page = key_index(row, col)->0 as int / 16;
            let data = pages(keydef_area(layer_keys(keymap, layer)))[page];
            let read = page_keys(layer, page, data);
            &&& read.dom().contains((layer, row, col)) == keymap.dom().contains((layer, row, col))
            &&& keymap.dom().contains((layer, row, col)) ==> read[(layer, row, col)] == keymap[(layer, row, col)]
        }),
{
    key_indices_are_distinct(row, col);
    let ki = key_index(row, col)->0;
    let page = ki as int / 16;
    let keys = layer_keys(keymap, layer);
    let area = keydef_area(keys);
    let data = pages(area)[page];
    let o = 4 * (ki as int % 16);
    assert(data =~= area.subrange(64 * page, 64 * page + 64));
    assert(data[o] == area[4 * ki]);
    assert(data[o + 2] == area[4 * ki + 2]);
    assert(data[o + 3] == area[4 * ki + 3]);
    assert((4 * ki as int + 2) / 4 == ki);
    assert((4 * ki as int + 3) / 4 == ki);
    assert(slot_of(layer, ki) == (layer, row, col));
}

/// The key of a cell has the index that the table gives for the row and column,
/// and a cell has no key exactly where the table marks it or does not reach.
pub proof fn indices_come_from_the_table(row: u8, col: u8)
    ensures
        key_index(row, col) is Some <==> row < 5 && col < 15 && KEY_INDEX[row as int][col as int] != 0xFF,
        key_index(row, col) matches Some(ki) ==> ki == KEY_INDEX[row as int][col as int],
{
}

/// The firmware numbers the keys of a row from left to right: the number row from
/// 20 behind the first key, the other rows from 37, 55, 73 and 91, and keys right
/// of those runs out of turn.
pub proof fn indices_run_along_the_rows(row: u8, col: u8)
    ensures
        key_index(row, col) == if row == 0 && col == 0 {
            Some(1u8)
        } else if row == 0 && col <= 12 {
            Some((19 + col) as u8)
        } else if row == 0 && col == 13 {
            Some(103u8)
        } else if row == 1 && col <= 12 {
            Some((37 + col) as u8)
        } else if row == 1 && col == 13 {
            Some(67u8)
        } else if row == 1 && col == 14 {
            Some(119u8)
        } else if row == 2 && col <= 11 {
            Some((55 + col) as u8)
        } else if row == 2 && col == 12 {
            Some(85u8)
        } else if row == 2 && col == 13 {
            Some(118u8)
        } else if row == 3 && col <= 11 {
            Some((73 + col) as u8)
        } else if row == 3 && col == 12 {
            Some(101u8)
        } else if row == 3 && col == 13 {
            Some(121u8)
        } else if row == 4 && col <= 5 {
            Some((91 + col) as u8)
        } else if row == 4 && col == 6 {
            Some(99u8)
        } else if row == 4 && col == 7 {
            Some(100u8)
        } else if row == 4 && col == 8 {
            Some(102u8)
        } else {
            None
        },
{
    if row < EK68_ROWS && col < EK68_COLS {
        assert(row == 0 || row == 1 || row == 2 || row == 3 || row == 4);
        assert(col == 0 || col == 1 || col == 2 || col == 3 || col == 4 || col == 5 || col == 6 || col == 7
            || col == 8 || col == 9 || col == 10 || col == 11 || col == 12 || col == 13 || col == 14);
    }
}

/// Of two keys of a row the one further right has the higher index, and no key
/// follows a gap.
pub proof fn indices_ascend(row: u8, left: u8, right: u8)
    requires
        left < right,
        key_index(row, right) is Some,
    ensures
        key_index(row, left) is Some,
        key_index(row, left)->0 < key_index(row, right)->0,
{
    indices_run_along_the_rows(row, left);
    indices_run_along_the_rows(row, right);
}

/// The cell of an index is the one whose key has it.
pub proof fn cells_are_found_by_index(ki: u8, row: u8, col: u8)
    ensures
        cell_of(ki) == Some((row, col)) <==> key_index(row, col) == Some(ki),
{
    if key_index(row, col) == Some(ki) {
        key_indices_are_distinct(row, col);
    }
}

/// The bytes of a mode frame: mode, red, green and blue in the first four, then
/// the random flag at 8, brightness and speed up to 15 at 9 and 10, the direction
/// at 11, and the page-check code AA 55 at 14; all others are zero.
pub proof fn mode_frame_bytes(l: Lighting)
    ensures
        ({
            let f = l.frame();
            &&& f.len() == 64
            &&& f[0] == l.mode
            &&& f[1] == l.r
            &&& f[2] == l.g
            &&& f[3] == l.b
            &&& f[8] == if l.random { 1int } else { 0int }
            &&& f[9] == if l.brightness < 15 { l.brightness as int } else { 15int }
            &&& f[10] == if l.speed < 15 { l.speed as int } else { 15int }
            &&& f[11] == l.direction
            &&& f[14] == 0xAA && f[15] == 0x55
            &&& f[12] == 0 && f[13] == 0
            &&& forall|i: int| 4 <= i < 8 || 16 <= i < 64 ==> #[trigger] f[i] == 0
        }),
{
}

/// Two lightings with the same mode frame have the same mode, color, direction
/// and random flag, and differ at most in brightness or speed beyond the range.
pub proof fn mode_frames_tell_lightings_apart(a: Lighting, b: Lighting)
    requires
        a.frame() == b.frame(),
    ensures
        a.mode == b.mode,
        a.r == b.r,
        a.g == b.g,
        a.b == b.b,
        a.direction == b.direction,
        a.random == b.random,
        a.brightness == b.brightness || (a.brightness >= 15 && b.brightness >= 15),
        a.speed == b.speed || (a.speed >= 15 && b.speed >= 15),
{
    mode_frame_bytes(a);
    mode_frame_bytes(b);
}

/// The payload of a lighting is mode, red, green, blue, brightness, the random
/// flag, speed and direction, and it is persisted field by field.
pub proof fn payload_bytes(l: Lighting)
    ensures
        ({
            let p = l.payload();
            &&& p.len() == 8
            &&& p[0] == l.mode && p[1] == l.r && p[2] == l.g && p[3] == l.b
            &&& p[4] == l.brightness
            &&& p[5] == if l.random { 1int } else { 0int }
            &&& p[6] == l.speed
            &&& p[7] == l.direction
        }),
        ({
            let s = l.state();
            &&& s.mode == l.mode && s.r == l.r && s.g == l.g && s.b == l.b
            &&& s.brightness == l.brightness && s.speed == l.speed
            &&& s.direction == l.direction && s.random == l.random
        }),
{
}

/// A payload says as much as it holds: bytes past the eighth are ignored, each
/// byte replaces one field, and the fields that it does not reach are those of
/// static white at full brightness.
pub proof fn short_payloads_leave_fields(data: Seq<u8>)
    ensures
        ({
            let l = Lighting::described(data);
            &&& data.len() > 8 ==> l == Lighting::described(data.take(8))
            &&& l.mode == if data.len() > 0 { data[0] as int } else { 1int }
            &&& l.r == if data.len() > 1 { data[1] as int } else { 255int }
            &&& l.g == if data.len() > 2 { data[2] as int } else { 255int }
            &&& l.b == if data.len() > 3 { data[3] as int } else { 255int }
            &&& l.brightness == if data.len() > 4 { data[4] as int } else { 15int }
            &&& l.random <==> data.len() > 5 && data[5] != 0
            &&& l.speed == if data.len() > 6 { data[6] as int } else { 0int }
            &&& l.direction == if data.len() > 7 { data[7] as int } else { 0int }
        }),
{
}

/// The modes that can be rendered are the effects 1 to 0x13, and 0x80 for off.
pub proof fn renderable_modes(mode: u8)
    ensures
        renderable(mode) <==> 0 < mode < 0x14 || mode == 0x80,
{
}

/// A framing command is 04, the command, and zeros; where it announces pages,
/// their number is the ninth byte.
pub proof fn command_frame_bytes(command: u8, pages: u8)
    ensures
        cmd_frame(command).len() == 64,
        page_cmd_frame(command, pages).len() == 64,
        forall|i: int|
            0 <= i < 64 ==> #[trigger] cmd_frame(command)[i] == if i == 0 {
                0x04u8
            } else if i == 1 {
                command
            } else {
                0
            },
        forall|i: int|
            0 <= i < 64 ==> #[trigger] page_cmd_frame(command, pages)[i] == if i == 8 {
                pages
            } else {
                cmd_frame(command)[i]
            },
{
}

/// A lighting is rendered in five frames: customization on (18), one effect page
/// announced (13), the mode frame, the end of the communication (02), and the
/// start of the effect (F0).
pub proof fn rendering_takes_five_frames(l: Lighting)
    ensures
        render_frames(l).len() == 5,
        render_frames(l)[0] == cmd_frame(0x18),
        render_frames(l)[1] == page_cmd_frame(0x13, 1),
        render_frames(l)[2] == l.frame(),
        render_frames(l)[3] == cmd_frame(0x02),
        render_frames(l)[4] == cmd_frame(0xF0),
{
}

/// In a paced transaction frames and reads alternate: it begins and ends with a
/// frame, every frame is sent once and in order, and between two frames one
/// report is read.
pub proof fn frames_and_reads_alternate(steps: Seq<Step>, frames: Seq<Seq<u8>>, i: int)
    requires
        paced(steps, frames),
        0 <= i < steps.len(),
    ensures
        steps.len() + 1 == 2 * frames.len(),
        i % 2 == 1 ==> steps[i] == Step::Ack,
        i % 2 == 0 ==> steps[i] is Send && steps[i]->frame@ == frames[i / 2],
{
    let k = i / 2;
    assert(frames[k] == frames[k]);
    if i % 2 == 0 {
        assert(2 * k == i);
        assert(sends(steps[2 * k], frames[k]));
    } else {
        assert(2 * k + 1 == i);
        assert(k + 1 < frames.len());
    }
}

/// The keymap of a layer is written in thirteen frames: customization on (18),
/// nine pages announced under the layer's command, the pages, the end of the
/// communication (02), and the start of the effect (F0). A key has four bytes in
/// the pages, at four times its index: 02 00 and the keycode, least significant
/// byte first, or zeros where it keeps its factory meaning.
pub proof fn a_committed_key_stands_at_its_index(
    command: u8,
    keymap: Map<(u8, u8, u8), u16>,
    layer: u8,
    row: u8,
    col: u8,
)
    requires
        row < 5,
        col < 15,
        KEY_INDEX[row as int][col as int] != 0xFF,
    ensures
        ({
            let frames = keymap_frames(command, layer_keys(keymap, layer));
            let ki = KEY_INDEX[row as int][col as int] as int;
            let at = 4 * (ki % 16);
            let page = frames[2 + ki / 16];
            &&& frames.len() == 13
            &&& frames[0] == cmd_frame(0x18)
            &&& frames[1] == page_cmd_frame(command, 9)
            &&& frames[11] == cmd_frame(0x02)
            &&& frames[12] == cmd_frame(0xF0)
            &&& page.len() == 64
            &&& keymap.dom().contains((layer, row, col)) ==> {
                &&& page[at] == 0x02 && page[at + 1] == 0x00
                &&& page[at + 2] + 256 * page[at + 3] == keymap[(layer, row, col)]
            }
            &&& !keymap.dom().contains((layer, row, col)) ==> {
                &&& page[at] == 0 && page[at + 1] == 0
                &&& page[at + 2] == 0 && page[at + 3] == 0
            }
        }),
{
    key_indices_are_distinct(row, col);
    let ki = key_index(row, col)->0;
    let page = ki as int / 16;
    let keys = layer_keys(keymap, layer);
    let area = keydef_area(keys);
    let at = 4 * (ki as int % 16);
    assert(pages(area)[page] =~= area.subrange(64 * page, 64 * page + 64));
    assert(64 * page + at == 4 * ki);
    assert((4 * ki as int) / 4 == ki);
    assert((4 * ki as int + 1) / 4 == ki);
    assert((4 * ki as int + 2) / 4 == ki);
    assert((4 * ki as int + 3) / 4 == ki);
    assert(slot_of(layer, ki) == (layer, row, col));
    let frames = keymap_frames(command, keys);
    assert(frames[2 + page] == pages(area)[page]);
    assert(pages(area)[page][at] == keydef_byte(keys, 4 * ki as int));
    assert(pages(area)[page][at + 1] == keydef_byte(keys, 4 * ki as int + 1));
    assert(pages(area)[page][at + 2] == keydef_byte(keys, 4 * ki as int + 2));
    assert(pages(area)[page][at + 3] == keydef_byte(keys, 4 * ki as int + 3));
}

/// Of several entries for one key index the last counts: after one more entry
/// its index has its keycode and the others what they had, and without entries
/// there are no keys.
pub proof fn the_last_entry_counts(entries: Seq<(u8, u16)>, ki: u8, keycode: u16, other: u8)
    ensures
        !keys_of(Seq::<(u8, u16)>::empty()).dom().contains(ki),
        ({
            let more = keys_of(entries.push((ki, keycode)));
            &&& more.dom().contains(ki) && more[ki] == keycode
            &&& other != ki ==> more.dom().contains(other) == keys_of(entries).dom().contains(other)
            &&& other != ki && more.dom().contains(other) ==> more[other] == keys_of(entries)[other]
        }),
{
    assert(entries.push((ki, keycode)).drop_last() =~= entries);
}

/// The key-definition area is 576 bytes: four bytes for each index below 143, 02 00
/// and the keycode or zeros, and the page-check code AA 55 at the end, over the
/// keycode of the last index.
pub proof fn key_definition_bytes(keys: Map<u8, u16>, ki: u8)
    requires
        ki < 143,
    ensures
        keydef_area(keys)[572] == if keys.dom().contains(143) { 2int } else { 0 },
        keydef_area(keys)[573] == 0,
        ({
            let area = keydef_area(keys);
            let entry = area.subrange(4 * ki, 4 * ki + 4);
            &&& area.len() == 576
            &&& area[574] == 0xAA && area[575] == 0x55
            &&& keys.dom().contains(ki) ==> entry[0] == 2 && entry[1] == 0 && entry[2] + 256 * entry[3] == keys[ki]
            &&& !keys.dom().contains(ki) ==> entry == seq![0u8, 0, 0, 0]
        }),
{
    let area = keydef_area(keys);
    let entry = area.subrange(4 * ki, 4 * ki + 4);
    assert((4 * ki as int) / 4 == ki);
    assert((4 * ki as int + 1) / 4 == ki);
    assert((4 * ki as int + 2) / 4 == ki);
    assert((4 * ki as int + 3) / 4 == ki);
    assert(entry[0] == keydef_byte(keys, 4 * ki as int));
    assert(entry[1] == keydef_byte(keys, 4 * ki as int + 1));
    assert(entry[2] == keydef_byte(keys, 4 * ki as int + 2));
    assert(entry[3] == keydef_byte(keys, 4 * ki as int + 3));
    if !keys.dom().contains(ki) {
        assert(entry =~= seq![0u8, 0, 0, 0]);
    }
}

/// A page is read back key by key: the sixteen entries of a page belong to the
/// sixteen indices from sixteen times its number on, and an entry defines the key
/// of its index if it begins with 02.
pub proof fn page_entries_define_keys(layer: u8, page: int, data: Seq<u8>, slot: (u8, u8, u8))
    ensures
        ({
            let read = page_keys(layer, page, data);
            let ki = key_index(slot.1, slot.2)->0 as int;
            let at = 4 * (ki - 16 * page);
            &&& read.dom().contains(slot) <==> {
                &&& slot.0 == layer
                &&& key_index(slot.1, slot.2) is Some
                &&& 16 * page <= ki < 16 * page + 16
                &&& data[at] == 0x02
            }
            &&& read.dom().contains(slot) ==> read[slot] == data[at + 2] + 256 * data[at + 3]
        }),
{
    let ki = key_index(slot.1, slot.2)->0 as int;
    if ki / 16 == page {
        assert(ki % 16 == ki - 16 * page);
    }
}

/// A commit writes a layer in full if a key of it was written since the last
/// commit and a key of it stands on the board; the base layer goes first, under
/// the command 11, then the Fn layer, under 27.
pub proof fn commits_write_whole_layers(plan: Seq<Vec<Step>>, shadow: &ShadowState)
    requires
        is_commit_plan(plan, shadow),
    ensures
        forall|layer: u8|
            #[trigger] is_written(shadow, layer) <==> {
                &&& exists|row: u8, col: u8| #[trigger] shadow.dirty().dom().contains((layer, row, col))
                &&& exists|row: u8, col: u8| #[trigger]
                    shadow.keymap().dom().contains((layer, row, col)) && key_index(row, col) is Some
            },
        is_written(shadow, 0) && is_written(shadow, 1) ==> {
            &&& plan.len() == 2
            &&& paced(plan[0]@, keymap_frames(0x11, layer_keys(shadow.keymap(), 0)))
            &&& paced(plan[1]@, keymap_frames(0x27, layer_keys(shadow.keymap(), 1)))
        },
        is_written(shadow, 0) && !is_written(shadow, 1) ==> {
            &&& plan.len() == 1
            &&& paced(plan[0]@, keymap_frames(0x11, layer_keys(shadow.keymap(), 0)))
        },
        !is_written(shadow, 0) && is_written(shadow, 1) ==> {
            &&& plan.len() == 1
            &&& paced(plan[0]@, keymap_frames(0x27, layer_keys(shadow.keymap(), 1)))
        },
        !is_written(shadow, 0) && !is_written(shadow, 1) ==> plan.len() == 0,
{
    assert forall|layer: u8|
        #[trigger] is_written(shadow, layer) <==> {
            &&& exists|row: u8, col: u8| #[trigger] shadow.dirty().dom().contains((layer, row, col))
            &&& exists|row: u8, col: u8| #[trigger]
                shadow.keymap().dom().contains((layer, row, col)) && key_index(row, col) is Some
        } by {
        let keys = layer_keys(shadow.keymap(), layer);
        if keys != Map::<u8, u16>::empty() {
            if forall|ki: u8| !keys.dom().contains(ki) {
                assert(keys =~= Map::<u8, u16>::empty());
            }
            let ki = choose|ki: u8| keys.dom().contains(ki);
            let (_, row, col) = slot_of(layer, ki);
            assert(shadow.keymap().dom().contains((layer, row, col)) && key_index(row, col) is Some);
        }
        if exists|row: u8, col: u8| #[trigger]
            shadow.keymap().dom().contains((layer, row, col)) && key_index(row, col) is Some {
            let (row, col) = choose|row: u8, col: u8| #[trigger]
                shadow.keymap().dom().contains((layer, row, col)) && key_index(row, col) is Some;
            key_indices_are_distinct(row, col);
            assert(keys.dom().contains(key_index(row, col)->0));
        }
    }
}

/// A layer is read back in fifteen steps: customization on (18), nine pages
/// announced, the pages in order, and the end of the communication (02), with a
/// read after each frame. The base layer is read under the command 10, the Fn
/// layer, where there is one, after it under 26.
pub proof fn layers_are_read_in_order(steps: Seq<SyncStep>, layers: u8, layer: u8, i: int)
    requires
        is_sync_plan(steps, layers),
        layer < layers,
        layer < 2,
        0 <= i < 15,
    ensures
        ({
            let step = steps[15 * layer + i];
            let command: u8 = if layer == 0 { 0x10 } else { 0x26 };
            &&& steps.len() == if layers == 1 { 15int } else { 30 }
            &&& i == 0 ==> step is Send && step->frame@ == cmd_frame(0x18)
            &&& i == 2 ==> step is Send && step->frame@ == page_cmd_frame(command, 9)
            &&& i == 13 ==> step is Send && step->frame@ == cmd_frame(0x02)
            &&& i == 1 || i == 3 || i == 14 ==> step is Ack
            &&& 4 <= i < 13 ==> step == (SyncStep::ReadPage { layer, page: (i - 4) as u8 })
        }),
{
    if layers > 1 {
        let part = steps.subrange(15 * layer, 15 * layer + 15);
        assert(part[i] == steps[15 * layer + i]);
        if 4 <= i < 13 {
            assert(part[4 + (i - 4)] == (SyncStep::ReadPage { layer, page: (i - 4) as u8 }));
        }
    } else if 4 <= i < 13 {
        assert(steps[4 + (i - 4)] == (SyncStep::ReadPage { layer, page: (i - 4) as u8 }));
    }
}

/// What a payload asks for reaches the board: its first four bytes are the first
/// four of the mode frame, which is the third frame that is sent.
pub proof fn payloads_reach_the_mode_frame(data: Seq<u8>, steps: Seq<Step>)
    requires
        paced(steps, render_frames(Lighting::described(data))),
        data.len() >= 4,
    ensures
        steps.len() == 9,
        steps[4] is Send,
        steps[4]->frame@.take(4) == data.take(4),
        data.len() > 5 && data[5] != 0 ==> steps[4]->frame@[8] == 1,
        data.len() <= 5 || data[5] == 0 ==> steps[4]->frame@[8] == 0,
        data.len() > 4 && data[4] <= 15 ==> steps[4]->frame@[9] == data[4],
        data.len() > 6 && data[6] <= 15 ==> steps[4]->frame@[10] == data[6],
        data.len() > 7 ==> steps[4]->frame@[11] == data[7],
{
    let l = Lighting::described(data);
    frames_and_reads_alternate(steps, render_frames(l), 4);
    mode_frame_bytes(l);
    assert(steps[4]->frame@.take(4) =~= data.take(4));
}

/// The index that is given for a cell is the table's, and the cell that is given for
/// an index has it.
pub proof fn indices_are_given(row: u8, col: u8, ki: Option<u8>, cell: Option<(u8, u8)>)
    requires
        call_ensures(key_index_for, (row, col), ki),
        ki is Some ==> call_ensures(find_matrix_pos_for_key_index, (ki->0,), cell),
    ensures
        ki is Some <==> row < 5 && col < 15 && KEY_INDEX[row as int][col as int] != 0xFF,
        ki is Some ==> ki->0 == KEY_INDEX[row as int][col as int] && cell == Some((row, col)),
{
    key_indices_are_distinct(row, col);
}

/// The mode frame that is made of a lighting has each field at its place.
pub proof fn mode_frames_are_made(l: Lighting, f: [u8; 64])
    requires
        call_ensures(Lighting::encode, (&l,), f),
    ensures
        f@[0] == l.mode && f@[1] == l.r && f@[2] == l.g && f@[3] == l.b,
        f@[8] == if l.random { 1int } else { 0 },
        f@[9] == if l.brightness <= 15 { l.brightness as int } else { 15 },
        f@[10] == if l.speed <= 15 { l.speed as int } else { 15 },
        f@[11] == l.direction,
        f@[14] == 0xAA && f@[15] == 0x55,
{
    mode_frame_bytes(l);
}

/// The base layer is written under 11 and read under 10, the Fn layer under 27 and
/// 26; there are no other layers.
pub proof fn layers_have_commands(layer: u8, write: Option<u8>, read: Option<u8>)
    requires
        call_ensures(keydef_command, (layer,), write),
        call_ensures(keydef_read_command, (layer,), read),
    ensures
        layer == 0 ==> write == Some(0x11u8) && read == Some(0x10u8),
        layer == 1 ==> write == Some(0x27u8) && read == Some(0x26u8),
        layer > 1 ==> write is None && read is None,
{
}

} // verus!
