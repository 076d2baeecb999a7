//! QMK/VIA driver.
//!
//! Every exchange is one 32-byte request and one 32-byte response. The device is
//! the only place where the keymap lives, with one exception that has to be asked
//! for: the write-coalescing buffer, which collects writes and flushes them no
//! later than a fixed interval after the first of them.

use vstd::prelude::*;

use crate::engine::worker::Buffering;
use crate::engine::LifecycleEvent;
use crate::hal::hid;
use crate::hal::hid::hid_descriptor_has_usage_page;
use crate::hal::keymap::{Keymap, Slot};
use crate::hal::legacy::KeymapEntry;
use crate::hal::DriverError;
use crate::sorted::SortedMap;

verus! {

/// Length of a request or response.
pub const VIA_FRAME_LEN: usize = 32;

/// The report id that precedes a request on a hidraw node.
pub const VIA_HIDRAW_REPORT_ID: u8 = 0x00;

pub const ID_DYNAMIC_KEYMAP_GET_KEYCODE: u8 = 0x04;

pub const ID_DYNAMIC_KEYMAP_SET_KEYCODE: u8 = 0x05;

pub const ID_DYNAMIC_KEYMAP_GET_LAYER_COUNT: u8 = 0x11;

pub const ID_LIGHTING_GET_VALUE: u8 = 0x07;

pub const ID_LIGHTING_SET_VALUE: u8 = 0x08;

pub const ID_MACRO_GET_BUFFER: u8 = 0x0B;

pub const ID_MACRO_SET_BUFFER: u8 = 0x0C;

/// The usage page of a VIA interface.
pub const VIA_USAGE_PAGE: u16 = 0xFF60;

/// How long an exchange may take, in milliseconds.
pub const DEFAULT_TIMEOUT_MS: u64 = 1000;

/// A request or response of zeros.
pub open spec fn blank() -> Seq<u8> {
    Seq::new(32, |i: int| 0u8)
}

/// High byte of a word.
pub open spec fn hi(word: u16) -> u8 {
    (word / 256) as u8
}

/// Low byte of a word.
pub open spec fn lo(word: u16) -> u8 {
    (word % 256) as u8
}

/// Asks for the keycode at an address.
pub open spec fn get_keycode_frame(layer: u8, row: u8, col: u8) -> Seq<u8> {
    blank().update(0, ID_DYNAMIC_KEYMAP_GET_KEYCODE).update(1, layer).update(2, row).update(3, col)
}

/// Asks for the keycode at an address.
pub fn get_keycode_request(layer: u8, row: u8, col: u8) -> (req: [u8; 32])
    ensures
        req@ == get_keycode_frame(layer, row, col),
{
    let mut req: [u8; 32] = [0u8; 32];
    req[0] = ID_DYNAMIC_KEYMAP_GET_KEYCODE;
    req[1] = layer;
    req[2] = row;
    req[3] = col;
    req
}

pub const GET_KEYCODE_MISMATCH: &'static str = "(cmd, layer, row, col) echo mismatch on get_keycode";

/// The keycode in a response, which must echo command and address.
pub fn get_keycode_response(layer: u8, row: u8, col: u8, resp: &[u8; 32]) -> (r: Result<u16, DriverError>)
    ensures
        if resp@.take(4) == get_keycode_frame(layer, row, col).take(4) {
            r == Ok::<u16, DriverError>((256 * resp@[4] + resp@[5]) as u16)
        } else {
            r == Err::<u16, DriverError>(DriverError::ProtocolViolation { reason: GET_KEYCODE_MISMATCH })
        },
{
    let ghost want = get_keycode_frame(layer, row, col).take(4);
    if resp[0] != ID_DYNAMIC_KEYMAP_GET_KEYCODE || resp[1] != layer || resp[2] != row || resp[3] != col {
        proof {
            assert(resp@.take(4)[0] == resp@[0] && resp@.take(4)[1] == resp@[1]);
            assert(resp@.take(4)[2] == resp@[2] && resp@.take(4)[3] == resp@[3]);
        }
        return Err(DriverError::ProtocolViolation { reason: GET_KEYCODE_MISMATCH });
    }
    proof {
        assert(resp@.take(4) =~= want);
    }
    Ok(256 * resp[4] as u16 + resp[5] as u16)
}

/// Writes a keycode to an address.
pub open spec fn set_keycode_frame(layer: u8, row: u8, col: u8, keycode: u16) -> Seq<u8> {
    blank().update(0, ID_DYNAMIC_KEYMAP_SET_KEYCODE).update(1, layer).update(2, row).update(3, col).update(
        4,
        hi(keycode),
    ).update(5, lo(keycode))
}

/// Writes a keycode to an address.
pub fn set_keycode_request(layer: u8, row: u8, col: u8, keycode: u16) -> (req: [u8; 32])
    ensures
        req@ == set_keycode_frame(layer, row, col, keycode),
{
    let mut req: [u8; 32] = [0u8; 32];
    req[0] = ID_DYNAMIC_KEYMAP_SET_KEYCODE;
    req[1] = layer;
    req[2] = row;
    req[3] = col;
    req[4] = (keycode / 256) as u8;
    req[5] = (keycode % 256) as u8;
    req
}

pub const SET_KEYCODE_MISMATCH: &'static str = "(cmd, layer, row, col, keycode) echo mismatch on set_keycode";

/// Accepts a response that echoes command, address and keycode.
pub fn set_keycode_response(layer: u8, row: u8, col: u8, keycode: u16, resp: &[u8; 32]) -> (r: Result<
    (),
    DriverError,
>)
    ensures
        if resp@.take(6) == set_keycode_frame(layer, row, col, keycode).take(6) {
            r == Ok::<(), DriverError>(())
        } else {
            r == Err::<(), DriverError>(DriverError::ProtocolViolation { reason: SET_KEYCODE_MISMATCH })
        },
{
    let ghost want = set_keycode_frame(layer, row, col, keycode).take(6);
    if resp[0] != ID_DYNAMIC_KEYMAP_SET_KEYCODE || resp[1] != layer || resp[2] != row || resp[3] != col || resp[4]
        != (keycode / 256) as u8 || resp[5] != (keycode % 256) as u8 {
        proof {
            assert(resp@.take(6)[0] == resp@[0] && resp@.take(6)[1] == resp@[1]);
            assert(resp@.take(6)[2] == resp@[2] && resp@.take(6)[3] == resp@[3]);
            assert(resp@.take(6)[4] == resp@[4] && resp@.take(6)[5] == resp@[5]);
            assert(want[4] == hi(keycode) && want[5] == lo(keycode));
        }
        return Err(DriverError::ProtocolViolation { reason: SET_KEYCODE_MISMATCH });
    }
    proof {
        assert(resp@.take(6) =~= want);
    }
    Ok(())
}

/// Asks how many layers there are.
pub fn get_layer_count_request() -> (req: [u8; 32])
    ensures
        req@ == blank().update(0, ID_DYNAMIC_KEYMAP_GET_LAYER_COUNT),
{
    let mut req: [u8; 32] = [0u8; 32];
    req[0] = ID_DYNAMIC_KEYMAP_GET_LAYER_COUNT;
    req
}

pub const LAYER_COUNT_MISMATCH: &'static str = "command-id echo mismatch on get_layer_count";

/// The layer count in a response, which must echo the command.
pub fn get_layer_count_response(resp: &[u8; 32]) -> (r: Result<u8, DriverError>)
    ensures
        if resp@[0] == ID_DYNAMIC_KEYMAP_GET_LAYER_COUNT {
            r == Ok::<u8, DriverError>(resp@[1])
        } else {
            r == Err::<u8, DriverError>(DriverError::ProtocolViolation { reason: LAYER_COUNT_MISMATCH })
        },
{
    if resp[0] != ID_DYNAMIC_KEYMAP_GET_LAYER_COUNT {
        return Err(DriverError::ProtocolViolation { reason: LAYER_COUNT_MISMATCH });
    }
    Ok(resp[1])
}

/// How many bytes of `n` fit behind a header of `header` bytes.
pub open spec fn room(n: nat, header: nat) -> nat {
    if n <= 32 - header {
        n
    } else {
        (32 - header) as nat
    }
}

/// Asks for macro bytes.
pub fn get_macro_request(offset: u16, length: u8) -> (req: [u8; 32])
    ensures
        req@ == blank().update(0, ID_MACRO_GET_BUFFER).update(1, hi(offset)).update(2, lo(offset)).update(
            3,
            length,
        ),
{
    let mut req: [u8; 32] = [0u8; 32];
    req[0] = ID_MACRO_GET_BUFFER;
    req[1] = (offset / 256) as u8;
    req[2] = (offset % 256) as u8;
    req[3] = length;
    req
}

/// The macro bytes in a response: as many as were asked for, as far as they fit.
pub fn get_macro_response(length: u8, resp: &[u8; 32]) -> (data: Vec<u8>)
    ensures
        data@ == resp@.subrange(4, 4 + room(length as nat, 4) as int),
        data@.len() == if length <= 28 { length as nat } else { 28nat },
{
    let n: usize = if length as usize <= 28 {
        length as usize
    } else {
        28
    };
    let mut data: Vec<u8> = Vec::new();
    let mut i: usize = 0;
    while i < n
        invariant
            i <= n <= 28,
            data@ == resp@.subrange(4, 4 + i as int),
        decreases n - i,
    {
        data.push(resp[4 + i]);
        proof {
            assert(data@ =~= resp@.subrange(4, 5 + i as int));
        }
        i = i + 1;
    }
    proof {
        assert(data@ =~= resp@.subrange(4, 4 + room(length as nat, 4) as int));
    }
    data
}

/// `frame` is `head` with as much of `data` behind it as fits, then zeros.
pub open spec fn carries(frame: Seq<u8>, head: Seq<u8>, data: Seq<u8>) -> bool {
    &&& frame.len() == 32
    &&& forall|i: int|
        0 <= i < 32 ==> #[trigger] frame[i] == if i < head.len() {
            head[i]
        } else if i < head.len() + data.len() {
            data[i - head.len()]
        } else {
            0
        }
}

/// Writes macro bytes, as many as fit.
pub fn set_macro_request(offset: u16, data: &[u8]) -> (req: [u8; 32])
    ensures
        carries(
            req@,
            seq![ID_MACRO_SET_BUFFER, hi(offset), lo(offset), room(data@.len(), 4) as u8],
            data@,
        ),
        req@[3] == if data@.len() <= 28 { data@.len() } else { 28nat },
{
    let mut req: [u8; 32] = [0u8; 32];
    let n: usize = if data.len() <= 28 {
        data.len()
    } else {
        28
    };
    req[0] = ID_MACRO_SET_BUFFER;
    req[1] = (offset / 256) as u8;
    req[2] = (offset % 256) as u8;
    req[3] = n as u8;
    let mut i: usize = 0;
    while i < n
        invariant
            i <= n <= 28,
            n <= data@.len(),
            req@[0] == ID_MACRO_SET_BUFFER,
            req@[1] == hi(offset),
            req@[2] == lo(offset),
            req@[3] == n,
            forall|j: int| 0 <= j < i ==> #[trigger] req@[4 + j] == data@[j],
            forall|j: int| 4 + i <= j < 32 ==> #[trigger] req@[j] == 0,
        decreases n - i,
    {
        req[4 + i] = data[i];
        i = i + 1;
    }
    proof {
        let head = seq![ID_MACRO_SET_BUFFER, hi(offset), lo(offset), room(data@.len(), 4) as u8];
        assert forall|k: int| 0 <= k < 32 implies #[trigger] req@[k] == if k < 4 {
            head[k]
        } else if k < 4 + data@.len() {
            data@[k - 4]
        } else {
            0
        } by {
            if 4 <= k < 4 + n {
                assert(req@[4 + (k - 4)] == data@[k - 4]);
            }
        }
    }
    req
}

/// Asks for a lighting value.
pub fn get_lighting_request(lighting_cmd: u8) -> (req: [u8; 32])
    ensures
        req@ == blank().update(0, ID_LIGHTING_GET_VALUE).update(1, lighting_cmd),
{
    let mut req: [u8; 32] = [0u8; 32];
    req[0] = ID_LIGHTING_GET_VALUE;
    req[1] = lighting_cmd;
    req
}

/// The response without its first byte.
pub fn get_lighting_response(resp: &[u8; 32]) -> (data: Vec<u8>)
    ensures
        data@ == resp@.skip(1),
{
    let mut data: Vec<u8> = Vec::new();
    let mut i: usize = 1;
    while i < 32
        invariant
            1 <= i <= 32,
            data@ == resp@.subrange(1, i as int),
        decreases 32 - i,
    {
        data.push(resp[i]);
        i = i + 1;
        proof {
            assert(data@ =~= resp@.subrange(1, i as int));
        }
    }
    proof {
        assert(data@ =~= resp@.skip(1));
    }
    data
}

/// Writes a lighting value, as many bytes as fit.
pub fn set_lighting_request(lighting_cmd: u8, data: &[u8]) -> (req: [u8; 32])
    ensures
        carries(req@, seq![ID_LIGHTING_SET_VALUE, lighting_cmd], data@),
{
    let mut req: [u8; 32] = [0u8; 32];
    let n: usize = if data.len() <= 30 {
        data.len()
    } else {
        30
    };
    req[0] = ID_LIGHTING_SET_VALUE;
    req[1] = lighting_cmd;
    let mut i: usize = 0;
    while i < n
        invariant
            i <= n <= 30,
            n <= data@.len(),
            req@[0] == ID_LIGHTING_SET_VALUE,
            req@[1] == lighting_cmd,
            forall|j: int| 0 <= j < i ==> #[trigger] req@[2 + j] == data@[j],
            forall|j: int| 2 + i <= j < 32 ==> #[trigger] req@[j] == 0,
        decreases n - i,
    {
        req[2 + i] = data[i];
        i = i + 1;
    }
    proof {
        let head = seq![ID_LIGHTING_SET_VALUE, lighting_cmd];
        assert forall|k: int| 0 <= k < 32 implies #[trigger] req@[k] == if k < 2 {
            head[k]
        } else if k < 2 + data@.len() {
            data@[k - 2]
        } else {
            0
        } by {
            if 2 <= k < 2 + n {
                assert(req@[2 + (k - 2)] == data@[k - 2]);
            }
        }
    }
    req
}

/// Asks for one value of a lighting channel.
pub fn get_value_request(channel: u8, value_id: u8) -> (req: [u8; 32])
    ensures
        req@ == blank().update(0, ID_LIGHTING_GET_VALUE).update(1, channel).update(2, value_id),
{
    let mut req: [u8; 32] = get_lighting_request(channel);
    req[2] = value_id;
    req
}

/// The value itself: the response without the command, the channel and the value
/// id that it repeats.
pub fn get_value_response(resp: &[u8; 32]) -> (data: Vec<u8>)
    ensures
        data@ == resp@.skip(3),
{
    let all: Vec<u8> = get_lighting_response(resp);
    let data: Vec<u8> = vstd::slice::slice_to_vec(vstd::slice::slice_subrange(all.as_slice(), 2, 31));
    proof {
        assert(data@ =~= resp@.skip(3));
    }
    data
}

/// Writes one value of a lighting channel, as many bytes as fit.
pub fn set_value_request(channel: u8, value_id: u8, data: &[u8]) -> (req: [u8; 32])
    ensures
        carries(req@, seq![ID_LIGHTING_SET_VALUE, channel], seq![value_id] + data@),
{
    let mut payload: Vec<u8> = Vec::new();
    payload.push(value_id);
    let mut rest: Vec<u8> = vstd::slice::slice_to_vec(data);
    payload.append(&mut rest);
    proof {
        assert(payload@ =~= seq![value_id] + data@);
    }
    set_lighting_request(channel, payload.as_slice())
}

/// What is written to the hidraw node for a request.
pub fn hidraw_report(frame: &[u8; 32]) -> (buf: [u8; 33])
    ensures
        buf@ == seq![VIA_HIDRAW_REPORT_ID] + frame@,
{
    let mut buf: [u8; 33] = [0u8; 33];
    buf[0] = VIA_HIDRAW_REPORT_ID;
    let mut i: usize = 0;
    while i < 32
        invariant
            i <= 32,
            buf@[0] == VIA_HIDRAW_REPORT_ID,
            forall|j: int| 0 <= j < i ==> #[trigger] buf@[1 + j] == frame@[j],
        decreases 32 - i,
    {
        buf[1 + i] = frame[i];
        i = i + 1;
    }
    proof {
        assert forall|k: int| 0 <= k < 33 implies buf@[k] == (seq![VIA_HIDRAW_REPORT_ID] + frame@)[k] by {
            if k > 0 {
                assert(buf@[1 + (k - 1)] == frame@[k - 1]);
            }
        }
        assert(buf@ =~= seq![VIA_HIDRAW_REPORT_ID] + frame@);
    }
    buf
}

pub const SHORT_WRITE: &'static str = "short write to hidraw node";

/// Accepts a write of a whole report.
pub fn check_written(n: usize) -> (r: Result<(), DriverError>)
    ensures
        r == if n == 33 {
            Ok::<(), DriverError>(())
        } else {
            Err::<(), DriverError>(DriverError::ProtocolViolation { reason: SHORT_WRITE })
        },
{
    if n == 33 {
        Ok(())
    } else {
        Err(DriverError::ProtocolViolation { reason: SHORT_WRITE })
    }
}

pub const SHORT_READ: &'static str = "short read from hidraw node";

/// Accepts a read of a whole response.
pub fn check_read(n: usize) -> (r: Result<(), DriverError>)
    ensures
        r == if n == 32 {
            Ok::<(), DriverError>(())
        } else {
            Err::<(), DriverError>(DriverError::ProtocolViolation { reason: SHORT_READ })
        },
{
    if n == 32 {
        Ok(())
    } else {
        Err(DriverError::ProtocolViolation { reason: SHORT_READ })
    }
}

/// A device that echoes a write and stores the keycode answers a read of the
/// same address with the keycode that was written.
pub proof fn a_written_keycode_reads_back(layer: u8, row: u8, col: u8, keycode: u16)
    ensures
        ({
            let resp = set_keycode_frame(layer, row, col, keycode).update(0, ID_DYNAMIC_KEYMAP_GET_KEYCODE);
            &&& resp.take(4) == get_keycode_frame(layer, row, col).take(4)
            &&& (256 * resp[4] + resp[5]) as u16 == keycode
        }),
{
    let resp = set_keycode_frame(layer, row, col, keycode).update(0, ID_DYNAMIC_KEYMAP_GET_KEYCODE);
    assert(resp.take(4) =~= get_keycode_frame(layer, row, col).take(4));
}

/// What a flush does next.
#[derive(Debug)]
pub enum FlushStep {
    /// This write is to reach the device.
    Write { entry: KeymapEntry },
    /// The flush is over; the event, if there is one, is announced.
    Done { result: Result<(), DriverError>, event: Option<LifecycleEvent> },
}

/// The write-coalescing buffer. Times are in milliseconds on a clock that never
/// runs backwards.
pub struct Coalescer {
    buffer: Keymap,
    deadline: Option<u64>,
    interval_ms: u64,
    device_id: String,
}

/// `now` plus `ms`, or the end of time.
pub open spec fn later(now: u64, ms: u64) -> u64 {
    if now + ms <= u64::MAX {
        (now + ms) as u64
    } else {
        u64::MAX
    }
}

impl Coalescer {
    /// The writes that have not reached the device.
    pub closed spec fn buffer(&self) -> Map<(u8, u8, u8), u16> {
        self.buffer@
    }

    /// When the buffer is to be flushed.
    pub closed spec fn due(&self) -> Option<u64> {
        self.deadline
    }

    pub closed spec fn interval(&self) -> u64 {
        self.interval_ms
    }

    pub closed spec fn id(&self) -> String {
        self.device_id
    }

    pub closed spec fn wf(&self) -> bool {
        self.buffer.wf()
    }

    /// An empty buffer that holds writes for at most `interval_ms`.
    pub fn new(device_id: String, interval_ms: u64) -> (c: Coalescer)
        ensures
            c.wf(),
            c.buffer() == Map::<(u8, u8, u8), u16>::empty(),
            c.due() == None::<u64>,
            c.interval() == interval_ms,
            c.id() == device_id,
    {
        Coalescer { buffer: SortedMap::new(), deadline: None, interval_ms, device_id }
    }

    /// Takes a write into the buffer. The first write into an idle buffer sets
    /// the deadline; later writes do not move it.
    pub fn set_keycode(&mut self, layer: u8, row: u8, col: u8, keycode: u16, now: u64)
        requires
            old(self).wf(),
        ensures
            final(self).wf(),
            final(self).buffer() == old(self).buffer().insert((layer, row, col), keycode),
            final(self).due() == match old(self).due() {
                Some(d) => Some(d),
                None => Some(later(now, old(self).interval())),
            },
            final(self).interval() == old(self).interval(),
            final(self).id() == old(self).id(),
    {
        self.buffer.insert(Slot { layer, row, col }, keycode);
        if self.deadline.is_none() {
            self.deadline = Some(now.saturating_add(self.interval_ms));
        }
    }

    /// The buffered keycode; where there is none, the device is to be asked.
    pub fn get_keycode(&self, layer: u8, row: u8, col: u8) -> (keycode: Option<u16>)
        requires
            self.wf(),
        ensures
            keycode == if self.buffer().dom().contains((layer, row, col)) {
                Some(self.buffer()[(layer, row, col)])
            } else {
                None
            },
    {
        match self.buffer.get(&Slot { layer, row, col }) {
            Some(keycode) => Some(*keycode),
            None => None,
        }
    }

    /// When the buffer is to be flushed.
    pub fn deadline(&self) -> (deadline: Option<u64>)
        ensures
            deadline == self.due(),
    {
        self.deadline
    }

    /// True when nothing is buffered.
    pub fn is_empty(&self) -> (empty: bool)
        requires
            self.wf(),
        ensures
            empty == (self.buffer() == Map::<(u8, u8, u8), u16>::empty()),
    {
        proof {
            self.buffer.items_are_the_map();
            if self.buffer@.dom().len() == 0 {
                assert(self.buffer@.dom() =~= Set::empty());
                assert(self.buffer@ =~= Map::empty());
            }
        }
        self.buffer.len() == 0
    }

    /// Begins a flush.
    pub fn flush(&mut self) -> (step: FlushStep)
        requires
            old(self).wf(),
        ensures
            final(self).wf(),
            final(self).buffer() == old(self).buffer(),
            final(self).interval() == old(self).interval(),
            final(self).id() == old(self).id(),
            flush_continues(old(self).buffer(), old(self).id(), old(self).due(), step, final(self).due()),
    {
        if self.is_empty() {
            self.deadline = None;
            let event = LifecycleEvent::LayoutUpdated(self.device_id.clone());
            return FlushStep::Done { result: Ok(()), event: Some(event) };
        }
        proof {
            self.buffer.items_are_the_map();
            assert(self.buffer.items().len() > 0) by {
                if self.buffer.items().len() == 0 {
                    assert(self.buffer@.dom() =~= Set::empty());
                    assert(self.buffer@ =~= Map::empty());
                }
            }
            assert(self.buffer@[crate::sorted::Key::model(&self.buffer.items()[0].0)] == self.buffer.items()[0].1);
        }
        let item = self.buffer.at(0);
        FlushStep::Write {
            entry: KeymapEntry { layer: item.0.layer, row: item.0.row, col: item.0.col, keycode: item.1 },
        }
    }

    /// A write of the flush ended with `outcome`. The first failure ends the
    /// flush, and what was not written stays buffered.
    pub fn wrote(&mut self, entry: &KeymapEntry, outcome: Result<(), DriverError>) -> (step: FlushStep)
        requires
            old(self).wf(),
        ensures
            final(self).wf(),
            final(self).interval() == old(self).interval(),
            final(self).id() == old(self).id(),
            match outcome {
                Ok(()) => {
                    &&& final(self).buffer() == old(self).buffer().remove((entry.layer, entry.row, entry.col))
                    &&& flush_continues(
                        final(self).buffer(),
                        old(self).id(),
                        old(self).due(),
                        step,
                        final(self).due(),
                    )
                },
                Err(e) => {
                    &&& final(self).buffer() == old(self).buffer()
                    &&& final(self).due() == None::<u64>
                    &&& step == (FlushStep::Done { result: Err(e), event: None })
                },
            },
    {
        match outcome {
            Ok(()) => {
                let _ = self.buffer.remove(&Slot { layer: entry.layer, row: entry.row, col: entry.col });
                self.flush()
            },
            Err(e) => {
                self.deadline = None;
                FlushStep::Done { result: Err(e), event: None }
            },
        }
    }

    /// The time is `now`: once the deadline has passed, a flush begins.
    pub fn tick(&mut self, now: u64) -> (begun: Option<FlushStep>)
        requires
            old(self).wf(),
        ensures
            final(self).wf(),
            final(self).buffer() == old(self).buffer(),
            final(self).interval() == old(self).interval(),
            final(self).id() == old(self).id(),
            match old(self).due() {
                Some(d) if d <= now => {
                    &&& begun matches Some(step)
                    &&& flush_continues(
                        old(self).buffer(),
                        old(self).id(),
                        old(self).due(),
                        step,
                        final(self).due(),
                    )
                },
                _ => begun is None && final(self).due() == old(self).due(),
            },
    {
        match self.deadline {
            Some(d) => if d <= now {
                Some(self.flush())
            } else {
                None
            },
            None => None,
        }
    }

    /// The session ends: what is still buffered is flushed, whatever became of
    /// earlier flushes.
    pub fn close(&mut self) -> (begun: Option<FlushStep>)
        requires
            old(self).wf(),
        ensures
            final(self).wf(),
            final(self).buffer() == old(self).buffer(),
            final(self).interval() == old(self).interval(),
            final(self).id() == old(self).id(),
            if old(self).buffer() == Map::<(u8, u8, u8), u16>::empty() {
                begun is None && final(self).due() == old(self).due()
            } else {
                &&& begun matches Some(step)
                &&& flush_continues(
                    old(self).buffer(),
                    old(self).id(),
                    old(self).due(),
                    step,
                    final(self).due(),
                )
            },
    {
        if self.is_empty() {
            None
        } else {
            Some(self.flush())
        }
    }
}

/// How a flush goes on with `buffer` still to be written: any buffered write is
/// next; once there is none left, the flush has succeeded, which is announced
/// once, and no deadline is set.
pub open spec fn flush_continues(
    buffer: Map<(u8, u8, u8), u16>,
    id: String,
    due: Option<u64>,
    step: FlushStep,
    new_due: Option<u64>,
) -> bool {
    if buffer == Map::<(u8, u8, u8), u16>::empty() {
        &&& step == (FlushStep::Done { result: Ok(()), event: Some(LifecycleEvent::LayoutUpdated(id)) })
        &&& new_due == None::<u64>
    } else {
        &&& step matches FlushStep::Write { entry }
        &&& buffer.dom().contains((entry.layer, entry.row, entry.col))
        &&& buffer[(entry.layer, entry.row, entry.col)] == entry.keycode
        &&& new_due == due
    }
}

/// What a client reads: the buffered keycode, else the device's.
pub open spec fn observed(device: Map<(u8, u8, u8), u16>, buffer: Map<(u8, u8, u8), u16>) -> Map<
    (u8, u8, u8),
    u16,
> {
    device.union_prefer_right(buffer)
}

/// A write is read back at once, before it reaches the device.
pub proof fn buffered_writes_are_observed(
    device: Map<(u8, u8, u8), u16>,
    buffer: Map<(u8, u8, u8), u16>,
    slot: (u8, u8, u8),
    keycode: u16,
)
    ensures
        observed(device, buffer.insert(slot, keycode)) == observed(device, buffer).insert(slot, keycode),
{
    assert(observed(device, buffer.insert(slot, keycode)) =~= observed(device, buffer).insert(slot, keycode));
}

/// A step of a flush moves a write from the buffer to the device and changes
/// nothing that a client can read.
pub proof fn flushing_is_not_observed(
    device: Map<(u8, u8, u8), u16>,
    buffer: Map<(u8, u8, u8), u16>,
    slot: (u8, u8, u8),
)
    requires
        buffer.dom().contains(slot),
    ensures
        observed(device.insert(slot, buffer[slot]), buffer.remove(slot)) == observed(device, buffer),
{
    assert(observed(device.insert(slot, buffer[slot]), buffer.remove(slot)) =~= observed(device, buffer));
}

/// Once the buffer is empty, clients read what the device holds.
pub proof fn a_flushed_device_is_observed(device: Map<(u8, u8, u8), u16>)
    ensures
        observed(device, Map::empty()) == device,
{
    assert(observed(device, Map::empty()) =~= device);
}

/// What a read of a keycode takes.
#[derive(Debug)]
pub enum KeycodeRead {
    /// The buffer answers.
    Buffered { keycode: u16 },
    /// The device is to be asked with this request.
    Ask { request: [u8; 32] },
}

/// What a write of a keycode takes.
#[derive(Debug)]
pub enum KeycodeWrite {
    /// The buffer has taken it.
    Buffered,
    /// The device is to be sent this request.
    Send { request: [u8; 32] },
}

/// The driver of one VIA device.
pub struct ViaDriver {
    matrix: (u8, u8),
    coalescer: Option<Coalescer>,
}

impl ViaDriver {
    pub closed spec fn dimensions(&self) -> (u8, u8) {
        self.matrix
    }

    /// The write-coalescing buffer, if there is one.
    pub closed spec fn coalescer(&self) -> Option<Coalescer> {
        self.coalescer
    }

    pub closed spec fn wf(&self) -> bool {
        self.coalescer matches Some(c) ==> c.wf()
    }

    /// A driver that asks the device on every call.
    pub fn new(matrix: (u8, u8)) -> (d: ViaDriver)
        ensures
            d.wf(),
            d.dimensions() == matrix,
            d.coalescer() is None,
    {
        ViaDriver { matrix, coalescer: None }
    }

    /// A driver that holds writes for at most `flush_interval_ms`.
    pub fn with_coalescing(matrix: (u8, u8), flush_interval_ms: u64, device_id: String) -> (d: ViaDriver)
        ensures
            d.wf(),
            d.dimensions() == matrix,
            d.coalescer() matches Some(c) && c.buffer() == Map::<(u8, u8, u8), u16>::empty() && c.due()
                == None::<u64> && c.interval() == flush_interval_ms && c.id() == device_id,
    {
        ViaDriver { matrix, coalescer: Some(Coalescer::new(device_id, flush_interval_ms)) }
    }

    /// When writes reach the device.
    pub fn buffering(&self) -> (b: Buffering)
        ensures
            b == if self.coalescer() is Some {
                Buffering::Coalesced
            } else {
                Buffering::Immediate
            },
    {
        match &self.coalescer {
            Some(_) => Buffering::Coalesced,
            None => Buffering::Immediate,
        }
    }

    /// Rows and columns.
    pub fn get_matrix_dimensions(&self) -> (m: (u8, u8))
        ensures
            m == self.dimensions(),
    {
        self.matrix
    }

    /// Reads a keycode: from the buffer if it has one, else from the device.
    pub fn get_keycode(&self, layer: u8, row: u8, col: u8) -> (read: KeycodeRead)
        requires
            self.wf(),
        ensures
            match self.coalescer() {
                Some(c) if c.buffer().dom().contains((layer, row, col)) => read == (KeycodeRead::Buffered {
                    keycode: c.buffer()[(layer, row, col)],
                }),
                _ => read matches KeycodeRead::Ask { request } && request@ == get_keycode_frame(
                    layer,
                    row,
                    col,
                ),
            },
    {
        if let Some(c) = &self.coalescer {
            if let Some(keycode) = c.get_keycode(layer, row, col) {
                return KeycodeRead::Buffered { keycode };
            }
        }
        KeycodeRead::Ask { request: get_keycode_request(layer, row, col) }
    }

    /// Writes a keycode: into the buffer if there is one, else to the device.
    pub fn set_keycode(&mut self, layer: u8, row: u8, col: u8, keycode: u16, now: u64) -> (write: KeycodeWrite)
        requires
            old(self).wf(),
        ensures
            final(self).wf(),
            final(self).dimensions() == old(self).dimensions(),
            match old(self).coalescer() {
                Some(c) => {
                    &&& write == KeycodeWrite::Buffered
                    &&& final(self).coalescer() matches Some(d)
                    &&& d.buffer() == c.buffer().insert((layer, row, col), keycode)
                    &&& d.due() == match c.due() {
                        Some(t) => Some(t),
                        None => Some(later(now, c.interval())),
                    }
                    &&& d.interval() == c.interval()
                    &&& d.id() == c.id()
                },
                None => {
                    &&& final(self).coalescer() is None
                    &&& write matches KeycodeWrite::Send { request }
                    &&& request@ == set_keycode_frame(layer, row, col, keycode)
                },
            },
    {
        let mut held = self.coalescer.take();
        let write = match &mut held {
            Some(c) => {
                c.set_keycode(layer, row, col, keycode, now);
                KeycodeWrite::Buffered
            },
            None => KeycodeWrite::Send { request: set_keycode_request(layer, row, col, keycode) },
        };
        self.coalescer = held;
        write
    }

    /// When the buffer is to be flushed.
    pub fn deadline(&self) -> (deadline: Option<u64>)
        ensures
            deadline == match self.coalescer() {
                Some(c) => c.due(),
                None => None,
            },
    {
        match &self.coalescer {
            Some(c) => c.deadline(),
            None => None,
        }
    }

    /// The time is `now`: once the deadline has passed, a flush begins.
    pub fn tick(&mut self, now: u64) -> (begun: Option<FlushStep>)
        requires
            old(self).wf(),
        ensures
            final(self).wf(),
            final(self).dimensions() == old(self).dimensions(),
            match old(self).coalescer() {
                Some(c) => {
                    &&& final(self).coalescer() matches Some(d)
                    &&& d.buffer() == c.buffer()
                    &&& d.interval() == c.interval()
                    &&& d.id() == c.id()
                    &&& match c.due() {
                        Some(t) if t <= now => begun matches Some(step) && flush_continues(
                            c.buffer(),
                            c.id(),
                            c.due(),
                            step,
                            d.due(),
                        ),
                        _ => begun is None && d.due() == c.due(),
                    }
                },
                None => final(self).coalescer() is None && begun is None,
            },
    {
        let mut held = self.coalescer.take();
        let begun = match &mut held {
            Some(c) => c.tick(now),
            None => None,
        };
        self.coalescer = held;
        begun
    }

    /// The session ends: what is still buffered is flushed, whatever became of
    /// earlier flushes.
    pub fn close(&mut self) -> (begun: Option<FlushStep>)
        requires
            old(self).wf(),
        ensures
            final(self).wf(),
            final(self).dimensions() == old(self).dimensions(),
            match old(self).coalescer() {
                Some(c) => {
                    &&& final(self).coalescer() matches Some(d)
                    &&& d.buffer() == c.buffer()
                    &&& d.interval() == c.interval()
                    &&& d.id() == c.id()
                    &&& if c.buffer() == Map::<(u8, u8, u8), u16>::empty() {
                        begun is None && d.due() == c.due()
                    } else {
                        begun matches Some(step) && flush_continues(c.buffer(), c.id(), c.due(), step, d.due())
                    }
                },
                None => final(self).coalescer() is None && begun is None,
            },
    {
        let mut held = self.coalescer.take();
        let begun = match &mut held {
            Some(c) => c.close(),
            None => None,
        };
        self.coalescer = held;
        begun
    }

    /// Begins a flush, as a commit does. Without a buffer every write is durable
    /// already: there is nothing to flush, and the worker announces each write.
    pub fn flush(&mut self) -> (step: FlushStep)
        requires
            old(self).wf(),
        ensures
            final(self).wf(),
            final(self).dimensions() == old(self).dimensions(),
            match old(self).coalescer() {
                Some(c) => {
                    &&& final(self).coalescer() matches Some(d)
                    &&& d.buffer() == c.buffer()
                    &&& d.interval() == c.interval()
                    &&& d.id() == c.id()
                    &&& flush_continues(c.buffer(), c.id(), c.due(), step, d.due())
                },
                None => final(self).coalescer() is None && step == (FlushStep::Done {
                    result: Ok(()),
                    event: None,
                }),
            },
    {
        let mut held = self.coalescer.take();
        let step = match &mut held {
            Some(c) => c.flush(),
            None => FlushStep::Done { result: Ok(()), event: None },
        };
        self.coalescer = held;
        step
    }

    /// A write of the flush ended with `outcome`. The first failure ends the
    /// flush, and what was not written stays buffered.
    pub fn wrote(&mut self, entry: &KeymapEntry, outcome: Result<(), DriverError>) -> (step: FlushStep)
        requires
            old(self).wf(),
        ensures
            final(self).wf(),
            final(self).dimensions() == old(self).dimensions(),
            match old(self).coalescer() {
                Some(c) => {
                    &&& final(self).coalescer() matches Some(d)
                    &&& d.interval() == c.interval()
                    &&& d.id() == c.id()
                    &&& match outcome {
                        Ok(()) => {
                            &&& d.buffer() == c.buffer().remove((entry.layer, entry.row, entry.col))
                            &&& flush_continues(d.buffer(), c.id(), c.due(), step, d.due())
                        },
                        Err(e) => {
                            &&& d.buffer() == c.buffer()
                            &&& d.due() == None::<u64>
                            &&& step == (FlushStep::Done { result: Err(e), event: None })
                        },
                    }
                },
                None => final(self).coalescer() is None && step == (FlushStep::Done {
                    result: outcome,
                    event: None,
                }),
            },
    {
        let mut held = self.coalescer.take();
        let step = match &mut held {
            Some(c) => c.wrote(entry, outcome),
            None => FlushStep::Done { result: outcome, event: None },
        };
        self.coalescer = held;
        step
    }
}

pub const NO_VIA_PAGE: &'static str = "no VIA Usage Page (0xFF60) in HID descriptor";

/// Accepts the node whose descriptor names the VIA usage page.
pub fn probe_via_usage_page(descriptor: &[u8]) -> (r: Result<(), DriverError>)
    ensures
        r == if hid::names_usage_page(descriptor@, VIA_USAGE_PAGE) {
            Ok::<(), DriverError>(())
        } else {
            Err::<(), DriverError>(DriverError::ProtocolViolation { reason: NO_VIA_PAGE })
        },
{
    if hid_descriptor_has_usage_page(descriptor, VIA_USAGE_PAGE) {
        Ok(())
    } else {
        Err(DriverError::ProtocolViolation { reason: NO_VIA_PAGE })
    }
}

/// The bytes of the keycode frames: 04 to read and 05 to write, the address, and
/// for a write the keycode, high byte first; all others are zero.
pub proof fn keycode_frame_bytes(layer: u8, row: u8, col: u8, keycode: u16)
    ensures
        ({
            let get = get_keycode_frame(layer, row, col);
            let set = set_keycode_frame(layer, row, col, keycode);
            &&& get.len() == 32 && set.len() == 32
            &&& get[0] == 0x04 && set[0] == 0x05
            &&& get[1] == layer && set[1] == layer
            &&& get[2] == row && set[2] == row
            &&& get[3] == col && set[3] == col
            &&& get[4] == 0 && get[5] == 0
            &&& 256 * set[4] + set[5] == keycode
            &&& forall|i: int| 6 <= i < 32 ==> #[trigger] get[i] == 0 && #[trigger] set[i] == 0
        }),
{
}

/// A word is its high byte and its low byte.
pub proof fn words_split_into_bytes(word: u16)
    ensures
        256 * hi(word) + lo(word) == word,
{
}

/// The command bytes, and what precedes a request on the wire.
pub proof fn command_bytes()
    ensures
        ID_DYNAMIC_KEYMAP_GET_KEYCODE == 0x04,
        ID_DYNAMIC_KEYMAP_SET_KEYCODE == 0x05,
        ID_LIGHTING_GET_VALUE == 0x07,
        ID_LIGHTING_SET_VALUE == 0x08,
        ID_MACRO_GET_BUFFER == 0x0B,
        ID_MACRO_SET_BUFFER == 0x0C,
        ID_DYNAMIC_KEYMAP_GET_LAYER_COUNT == 0x11,
        VIA_HIDRAW_REPORT_ID == 0,
        VIA_USAGE_PAGE == 0xFF60,
        forall|i: int| 0 <= i < 32 ==> #[trigger] blank()[i] == 0,
        blank().len() == 32,
{
}

/// Behind a header all bytes that were asked for fit as long as header and bytes
/// together have 32 at most, and more of them never fit than of fewer: of macro
/// bytes 28, behind a header of four.
pub proof fn only_long_requests_are_cut(n: nat, header: nat)
    requires
        header <= 32,
    ensures
        n + header <= 32 ==> room(n, header) == n,
        n + header > 32 ==> room(n, header) + header == 32,
        n <= 28 ==> room(n, 4) == n,
        n > 28 ==> room(n, 4) == 28,
{
}

/// A read of `length` macro bytes gives the bytes of the response behind its
/// four-byte header: exactly as many as were asked for, up to 28.
pub proof fn macro_reads_give_what_was_asked(length: u8, resp: Seq<u8>, i: int)
    requires
        resp.len() == 32,
    ensures
        ({
            let data = resp.subrange(4, 4 + room(length as nat, 4) as int);
            &&& length <= 28 ==> data.len() == length
            &&& length > 28 ==> data.len() == 28
            &&& 0 <= i < data.len() ==> data[i] == resp[4 + i]
        }),
{
}

/// A frame is its header and its data, filled up with zeros; where they are too
/// long for it, what is past its end is missing.
pub proof fn frames_are_header_and_data(frame: Seq<u8>, head: Seq<u8>, data: Seq<u8>)
    requires
        carries(frame, head, data),
        head.len() <= 32,
    ensures
        frame.len() == 32,
        head.len() + data.len() <= 32 ==> frame == head + data + Seq::new(
            (32 - head.len() - data.len()) as nat,
            |i: int| 0u8,
        ),
        head.len() + data.len() > 32 ==> frame == (head + data).take(32),
{
    if head.len() + data.len() <= 32 {
        assert(frame =~= head + data + Seq::new((32 - head.len() - data.len()) as nat, |i: int| 0u8));
    } else {
        assert(frame =~= (head + data).take(32));
    }
}

/// A write of macro bytes announces in its fourth byte how many it carries: all
/// of them up to 28, else 28. A device that answers a read of as many with what
/// was written gives back those bytes.
pub proof fn macro_writes_read_back(frame: Seq<u8>, offset: u16, data: Seq<u8>)
    requires
        carries(
            frame,
            seq![ID_MACRO_SET_BUFFER, hi(offset), lo(offset), room(data.len(), 4) as u8],
            data,
        ),
    ensures
        frame[0] == 0x0C,
        256 * frame[1] + frame[2] == offset,
        data.len() <= 28 ==> frame[3] == data.len(),
        data.len() > 28 ==> frame[3] == 28,
        frame.subrange(4, 4 + room(frame[3] as nat, 4) as int) == data.take(frame[3] as int),
        data.len() <= 28 ==> frame.subrange(4, 4 + room(frame[3] as nat, 4) as int) == data,
        forall|i: int| 4 + data.len() <= i < 32 ==> #[trigger] frame[i] == 0,
{
    let head = seq![ID_MACRO_SET_BUFFER, hi(offset), lo(offset), room(data.len(), 4) as u8];
    assert(frame[0] == head[0]);
    assert(frame[1] == head[1]);
    assert(frame[2] == head[2]);
    assert(frame[3] == head[3]);
    let read = frame.subrange(4, 4 + room(frame[3] as nat, 4) as int);
    assert(read =~= data.take(frame[3] as int));
    if data.len() <= 28 {
        assert(data.take(frame[3] as int) =~= data);
    }
}

/// A lighting value that is written as channel, value and data, and echoed by the
/// device, is read back without command, channel and value.
pub proof fn lighting_values_read_back(frame: Seq<u8>, channel: u8, value_id: u8, data: Seq<u8>)
    requires
        carries(frame, seq![ID_LIGHTING_SET_VALUE, channel], seq![value_id] + data),
    ensures
        frame[0] == 0x08,
        frame[1] == channel,
        frame[2] == value_id,
        data.len() <= 29 ==> frame.skip(3).take(data.len() as int) == data,
        data.len() > 29 ==> frame.skip(3) == data.take(29),
        forall|i: int| 3 + data.len() <= i < 32 ==> #[trigger] frame[i] == 0,
{
    let head = seq![ID_LIGHTING_SET_VALUE, channel];
    let body = seq![value_id] + data;
    assert(frame[0] == head[0]);
    assert(frame[1] == head[1]);
    assert(frame[2] == body[0]);
    assert forall|i: int| 0 <= i < 29 && i < data.len() implies #[trigger] frame[3 + i] == data[i] by {
        assert(body[1 + i] == data[i]);
    }
    if data.len() <= 29 {
        assert(frame.skip(3).take(data.len() as int) =~= data);
    } else {
        assert(frame.skip(3) =~= data.take(29));
    }
}

/// A deadline lies the interval after the write that set it, or at the end of
/// time where it would lie past it.
pub proof fn deadlines_lie_the_interval_ahead(now: u64, ms: u64)
    ensures
        now <= later(now, ms),
        later(now, ms) < u64::MAX ==> later(now, ms) - now == ms,
        later(now, ms) == u64::MAX ==> now + ms >= u64::MAX,
{
}

/// While something is buffered, a flush writes a buffered keycode to its address
/// and leaves the deadline; with nothing left it has succeeded, announces the
/// layout once, and no deadline remains.
pub proof fn flushes_write_what_is_buffered(
    buffer: Map<(u8, u8, u8), u16>,
    id: String,
    due: Option<u64>,
    step: FlushStep,
    new_due: Option<u64>,
)
    requires
        flush_continues(buffer, id, due, step, new_due),
    ensures
        step is Write <==> exists|slot: (u8, u8, u8)| #[trigger] buffer.dom().contains(slot),
        step matches FlushStep::Write { entry } ==> {
            let slot = (entry.layer, entry.row, entry.col);
            buffer.dom().contains(slot) && buffer[slot] == entry.keycode && new_due == due
        },
        step matches FlushStep::Done { result, event } ==> {
            &&& result is Ok
            &&& event matches Some(LifecycleEvent::LayoutUpdated(device))
            &&& device == id
            &&& new_due is None
        },
{
    if forall|slot: (u8, u8, u8)| !buffer.dom().contains(slot) {
        assert(buffer =~= Map::<(u8, u8, u8), u16>::empty());
    }
}

/// A client reads what is buffered for an address, and where nothing is, what the
/// device holds.
pub proof fn the_buffer_shadows_the_device(
    device: Map<(u8, u8, u8), u16>,
    buffer: Map<(u8, u8, u8), u16>,
    slot: (u8, u8, u8),
)
    ensures
        buffer.dom().contains(slot) ==> observed(device, buffer).dom().contains(slot) && observed(device, buffer)[slot]
            == buffer[slot],
        !buffer.dom().contains(slot) ==> observed(device, buffer).dom().contains(slot) == device.dom().contains(slot),
        !buffer.dom().contains(slot) && device.dom().contains(slot) ==> observed(device, buffer)[slot] == device[slot],
{
}

/// What the macro calls do: a read asks for the offset, high byte first, and the
/// length, and gives as many bytes of the answer as were asked for, up to 28; a
/// write announces as many bytes as it carries, up to 28.
pub proof fn macro_calls(offset: u16, length: u8, resp: [u8; 32])
    ensures
        forall|req: [u8; 32]| #[trigger]
            call_ensures(get_macro_request, (offset, length), req) ==> {
                &&& req@[0] == 0x0B
                &&& 256 * req@[1] + req@[2] == offset
                &&& req@[3] == length
                &&& forall|i: int| 4 <= i < 32 ==> #[trigger] req@[i] == 0
            },
        forall|data: Vec<u8>| #[trigger]
            call_ensures(get_macro_response, (length, &resp), data) ==> {
                &&& data@.len() == if length <= 28 { length as int } else { 28 }
                &&& forall|i: int| 0 <= i < data@.len() ==> #[trigger] data@[i] == resp@[4 + i]
            },
{
}

/// A write of macro bytes carries the offset, how many bytes there are, and the
/// bytes, as far as they fit.
pub proof fn macro_writes(offset: u16, data: &[u8], req: [u8; 32])
    requires
        call_ensures(set_macro_request, (offset, data), req),
    ensures
        req@[0] == 0x0C,
        256 * req@[1] + req@[2] == offset,
        req@[3] == if data@.len() <= 28 { data@.len() as int } else { 28 },
        req@.subrange(4, 4 + req@[3]) == data@.take(req@[3] as int),
        forall|i: int| 4 + data@.len() <= i < 32 ==> #[trigger] req@[i] == 0,
{
    macro_writes_read_back(req@, offset, data@);
}

/// The lighting requests are 07 to read and 08 to write, the channel and the value,
/// and for a write the data; a read gives back what follows them in the answer.
pub proof fn lighting_calls(channel: u8, value_id: u8, data: &[u8], resp: [u8; 32])
    requires
        data@.len() <= 29,
    ensures
        forall|req: [u8; 32]| #[trigger]
            call_ensures(get_value_request, (channel, value_id), req) ==> {
                &&& req@[0] == 0x07 && req@[1] == channel && req@[2] == value_id
                &&& forall|i: int| 3 <= i < 32 ==> #[trigger] req@[i] == 0
            },
        forall|req: [u8; 32]| #[trigger]
            call_ensures(set_value_request, (channel, value_id, data), req) ==> {
                &&& req@[0] == 0x08 && req@[1] == channel && req@[2] == value_id
                &&& req@.subrange(3, 3 + data@.len() as int) == data@
            },
        forall|out: Vec<u8>| #[trigger]
            call_ensures(get_value_response, (&resp,), out) ==> out@ == resp@.subrange(3, 32),
        forall|out: Vec<u8>| #[trigger]
            call_ensures(get_lighting_response, (&resp,), out) ==> out@ == resp@.subrange(1, 32),
{
    assert forall|req: [u8; 32]| #[trigger] call_ensures(set_value_request, (channel, value_id, data), req) implies {
        &&& req@[0] == 0x08 && req@[1] == channel && req@[2] == value_id
        &&& req@.subrange(3, 3 + data@.len() as int) == data@
    } by {
        lighting_values_read_back(req@, channel, value_id, data@);
        assert(req@.subrange(3, 3 + data@.len() as int) =~= req@.skip(3).take(data@.len() as int));
    }
    assert(resp@.skip(3) =~= resp@.subrange(3, 32));
    assert(resp@.skip(1) =~= resp@.subrange(1, 32));
}

/// The keycode requests carry the address and, for a write, the keycode, high byte
/// first; an answer counts if it repeats the request, and a read then gives the
/// keycode behind the address.
pub proof fn keycode_calls(layer: u8, row: u8, col: u8, keycode: u16, resp: [u8; 32])
    ensures
        forall|req: [u8; 32]| #[trigger]
            call_ensures(get_keycode_request, (layer, row, col), req) ==> req@.take(4) == seq![0x04u8, layer, row, col],
        forall|req: [u8; 32]| #[trigger]
            call_ensures(set_keycode_request, (layer, row, col, keycode), req) ==> req@.take(4) == seq![
                0x05u8,
                layer,
                row,
                col,
            ] && 256 * req@[4] + req@[5] == keycode,
        forall|r: Result<u16, DriverError>| #[trigger]
            call_ensures(get_keycode_response, (layer, row, col, &resp), r) ==> {
                let echoed = resp@[0] == 0x04 && resp@[1] == layer && resp@[2] == row && resp@[3] == col;
                &&& r is Ok <==> echoed
                &&& r matches Ok(k) ==> k == 256 * resp@[4] + resp@[5]
            },
        forall|r: Result<(), DriverError>| #[trigger]
            call_ensures(set_keycode_response, (layer, row, col, keycode, &resp), r) ==> (r is Ok <==> resp@[0] == 0x05
                && resp@[1] == layer && resp@[2] == row && resp@[3] == col && 256 * resp@[4] + resp@[5] == keycode),
{
    keycode_frame_bytes(layer, row, col, keycode);
    let get = get_keycode_frame(layer, row, col);
    let set = set_keycode_frame(layer, row, col, keycode);
    assert(get.take(4) =~= seq![0x04u8, layer, row, col]);
    assert(set.take(4) =~= seq![0x05u8, layer, row, col]);
    assert(resp@.take(4)[0] == resp@[0] && resp@.take(4)[1] == resp@[1]);
    assert(resp@.take(4)[2] == resp@[2] && resp@.take(4)[3] == resp@[3]);
    assert(resp@.take(6)[0] == resp@[0] && resp@.take(6)[1] == resp@[1]);
    assert(resp@.take(6)[2] == resp@[2] && resp@.take(6)[3] == resp@[3]);
    assert(resp@.take(6)[4] == resp@[4] && resp@.take(6)[5] == resp@[5]);
    assert(set.take(6)[0] == set[0] && set.take(6)[1] == set[1] && set.take(6)[2] == set[2]);
    assert(set.take(6)[3] == set[3] && set.take(6)[4] == set[4] && set.take(6)[5] == set[5]);
    if resp@[0] == 0x04 && resp@[1] == layer && resp@[2] == row && resp@[3] == col {
        assert(resp@.take(4) =~= get.take(4));
    }
    if resp@[0] == 0x05 && resp@[1] == layer && resp@[2] == row && resp@[3] == col && 256 * resp@[4] + resp@[5]
        == keycode {
        assert(resp@.take(6) =~= set.take(6));
    }
}

/// The layer count is asked for with 11, and stands behind it in the answer; whole
/// reports are 33 bytes out, with a zero in front, and 32 bytes in.
pub proof fn other_calls(resp: [u8; 32], n: usize)
    ensures
        forall|req: [u8; 32]| #[trigger]
            call_ensures(get_layer_count_request, (), req) ==> req@[0] == 0x11 && forall|i: int|
                1 <= i < 32 ==> #[trigger] req@[i] == 0,
        forall|r: Result<u8, DriverError>| #[trigger]
            call_ensures(get_layer_count_response, (&resp,), r) ==> (r is Ok <==> resp@[0] == 0x11) && (r matches Ok(
                layers,
            ) ==> layers == resp@[1]),
        forall|buf: [u8; 33]| #[trigger]
            call_ensures(hidraw_report, (&resp,), buf) ==> buf@[0] == 0 && buf@.skip(1) == resp@,
        forall|r: Result<(), DriverError>| #[trigger] call_ensures(check_written, (n,), r) ==> (r is Ok <==> n == 33),
        forall|r: Result<(), DriverError>| #[trigger] call_ensures(check_read, (n,), r) ==> (r is Ok <==> n == 32),
{
    assert forall|buf: [u8; 33]| #[trigger] call_ensures(hidraw_report, (&resp,), buf) implies buf@[0] == 0
        && buf@.skip(1) == resp@ by {
        assert(buf@.skip(1) =~= resp@);
    }
}

} // verus!
