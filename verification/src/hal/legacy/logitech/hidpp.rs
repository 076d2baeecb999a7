//! HID++ 2.0 framing.
//!
//! A request is a 20-byte long report; its reply echoes device index, feature
//! index, and function with the software id. Other traffic on the node is
//! skipped.

use vstd::prelude::*;

use crate::hal::{DriverError, IoError, IoErrorKind};

verus! {

pub const REPORT_ID_SHORT: u8 = 0x10;

pub const REPORT_ID_LONG: u8 = 0x11;

/// Length of a short report.
pub const SHORT_LEN: usize = 7;

/// Length of a long report.
pub const LONG_LEN: usize = 20;

/// Parameter bytes in a long report.
pub const LONG_PARAMS: usize = 16;

/// Marks this host's requests.
pub const SW_ID: u8 = 0x0A;

/// Marks an error reply of the device.
pub const ERR_HIDPP2_MARKER: u8 = 0xFF;

/// Marks an error reply of the receiver.
pub const ERR_HIDPP1_SUBID: u8 = 0x8F;

pub const HIDPP2_ERR_INVALID_ARGUMENT: u8 = 2;

pub const HIDPP2_ERR_OUT_OF_RANGE: u8 = 3;

pub const HIDPP2_ERR_INVALID_FEATURE_INDEX: u8 = 6;

pub const HIDPP2_ERR_INVALID_FUNCTION_ID: u8 = 7;

pub const HIDPP2_ERR_BUSY: u8 = 8;

pub const HIDPP2_ERR_UNSUPPORTED: u8 = 9;

pub const HIDPP1_ERR_CONNECT_FAIL: u8 = 4;

pub const HIDPP1_ERR_UNKNOWN_DEVICE: u8 = 8;

pub const HIDPP1_ERR_RESOURCE_ERROR: u8 = 9;

/// How long an exchange may take, in milliseconds.
pub const DEFAULT_TIMEOUT_MS: u64 = 1000;

/// One function call on the device.
#[derive(Debug)]
pub struct HidppCall {
    pub device_idx: u8,
    pub feature_idx: u8,
    pub func: u8,
    pub params: Vec<u8>,
    /// Named in the error when the call takes too long.
    pub op: &'static str,
}

/// The function in the high half of a byte, the software id in the low half.
pub open spec fn func_sw(func: u8) -> u8 {
    (16 * (func % 16) + SW_ID) as u8
}

/// What a reply must echo.
#[derive(Clone, Copy, PartialEq, Eq, Structural, Debug)]
pub struct PendingRequest {
    pub device_idx: u8,
    pub feature_idx: u8,
    pub func_sw: u8,
}

impl PendingRequest {
    /// What the reply to a call of `func` must echo.
    pub fn new(device_idx: u8, feature_idx: u8, func: u8) -> (p: PendingRequest)
        ensures
            p == (PendingRequest { device_idx, feature_idx, func_sw: func_sw(func) }),
    {
        PendingRequest { device_idx, feature_idx, func_sw: func % 16 * 16 + SW_ID }
    }
}

pub const TOO_MANY_PARAMS: &'static str = "HID++ request parameters exceed a long frame";

/// The long report of a call; unused parameter bytes are zero.
pub open spec fn long_request(device_idx: u8, feature_idx: u8, func: u8, params: Seq<u8>) -> Seq<u8> {
    seq![REPORT_ID_LONG, device_idx, feature_idx, func_sw(func)] + params + Seq::new(
        (16 - params.len()) as nat,
        |i: int| 0u8,
    )
}

/// The long report of a call. Parameters that do not fit are refused.
pub fn encode_long_request(device_idx: u8, feature_idx: u8, func: u8, params: &[u8]) -> (r: Result<
    [u8; 20],
    DriverError,
>)
    ensures
        if params@.len() <= LONG_PARAMS {
            r matches Ok(f) && f@ == long_request(device_idx, feature_idx, func, params@)
        } else {
            r matches Err(e) && e == (DriverError::ProtocolViolation { reason: TOO_MANY_PARAMS })
        },
{
    if params.len() > LONG_PARAMS {
        return Err(DriverError::ProtocolViolation { reason: TOO_MANY_PARAMS });
    }
    let mut f: [u8; 20] = [0u8; 20];
    f[0] = REPORT_ID_LONG;
    f[1] = device_idx;
    f[2] = feature_idx;
    f[3] = func % 16 * 16 + SW_ID;
    let mut i: usize = 0;
    while i < params.len()
        invariant
            i <= params@.len() <= 16,
            f@[0] == REPORT_ID_LONG,
            f@[1] == device_idx,
            f@[2] == feature_idx,
            f@[3] == func_sw(func),
            forall|j: int| 0 <= j < i ==> #[trigger] f@[4 + j] == params@[j],
            forall|j: int| 4 + i <= j < 20 ==> #[trigger] f@[j] == 0,
        decreases params@.len() - i,
    {
        f[4 + i] = params[i];
        i = i + 1;
    }
    proof {
        let want = long_request(device_idx, feature_idx, func, params@);
        assert forall|k: int| 0 <= k < 20 implies f@[k] == want[k] by {
            if 4 <= k < 4 + params@.len() {
                assert(f@[4 + (k - 4)] == params@[k - 4]);
            }
        }
        assert(f@ =~= want);
    }
    Ok(f)
}

/// What an incoming report means for the pending request.
#[derive(Clone, Copy, Debug, PartialEq, Eq)]
pub enum ReplyKind {
    /// The reply, with its parameters padded with zeros.
    Match([u8; 16]),
    /// An error code of the device.
    Hidpp2Error(u8),
    /// An error code of the receiver.
    Hidpp1Error(u8),
    /// Not for us.
    Ignore,
}

/// The report is a HID++ report of the addressed device.
pub open spec fn is_addressed(req: PendingRequest, report: Seq<u8>) -> bool {
    &&& report.len() >= SHORT_LEN
    &&& report[0] == REPORT_ID_SHORT || report[0] == REPORT_ID_LONG
    &&& report[1] == req.device_idx
}

/// The report is the error reply with this marker.
pub open spec fn is_error(req: PendingRequest, report: Seq<u8>, marker: u8) -> bool {
    report[2] == marker && report[3] == req.feature_idx && report[4] == req.func_sw
}

/// The parameters in a report: 16 bytes, padded with zeros.
pub open spec fn reply_params(report: Seq<u8>) -> Seq<u8> {
    Seq::new(
        16,
        |i: int|
            if 4 + i < report.len() {
                report[4 + i]
            } else {
                0
            },
    )
}

/// Sorts an incoming report.
pub fn classify_reply(req: &PendingRequest, report: &[u8]) -> (kind: ReplyKind)
    ensures
        if !is_addressed(*req, report@) {
            kind == ReplyKind::Ignore
        } else if is_error(*req, report@, ERR_HIDPP2_MARKER) {
            kind == ReplyKind::Hidpp2Error(report@[5])
        } else if is_error(*req, report@, ERR_HIDPP1_SUBID) {
            kind == ReplyKind::Hidpp1Error(report@[5])
        } else if report@[2] == req.feature_idx && report@[3] == req.func_sw {
            kind matches ReplyKind::Match(p) && p@ == reply_params(report@)
        } else {
            kind == ReplyKind::Ignore
        },
{
    if report.len() < SHORT_LEN {
        return ReplyKind::Ignore;
    }
    if report[0] != REPORT_ID_SHORT && report[0] != REPORT_ID_LONG {
        return ReplyKind::Ignore;
    }
    if report[1] != req.device_idx {
        return ReplyKind::Ignore;
    }
    if report[2] == ERR_HIDPP2_MARKER && report[3] == req.feature_idx && report[4] == req.func_sw {
        return ReplyKind::Hidpp2Error(report[5]);
    }
    if report[2] == ERR_HIDPP1_SUBID && report[3] == req.feature_idx && report[4] == req.func_sw {
        return ReplyKind::Hidpp1Error(report[5]);
    }
    if report[2] == req.feature_idx && report[3] == req.func_sw {
        let mut params: [u8; 16] = [0u8; 16];
        let mut i: usize = 0;
        while i < 16 && i < report.len() - 4
            invariant
                report@.len() >= SHORT_LEN,
                i <= 16,
                i <= report@.len() - 4,
                forall|j: int| 0 <= j < i ==> #[trigger] params@[j] == report@[4 + j],
                forall|j: int| i <= j < 16 ==> #[trigger] params@[j] == 0,
            decreases 16 - i,
        {
            params[i] = report[4 + i];
            i = i + 1;
        }
        proof {
            assert(params@ =~= reply_params(report@));
        }
        return ReplyKind::Match(params);
    }
    ReplyKind::Ignore
}

pub const FUNCTION_UNSUPPORTED: &'static str = "HID++ function not supported by this firmware";

pub const ARGUMENT_REJECTED: &'static str = "device rejected a HID++ argument";

pub const HIDPP2_ERROR_REPLY: &'static str = "HID++ 2.0 error reply";

pub const HIDPP1_ERROR_REPLY: &'static str = "HID++ 1.0 error reply from receiver";

/// What an error code of the device means.
pub open spec fn means_hidpp2(code: u8, e: DriverError) -> bool {
    if code == HIDPP2_ERR_INVALID_FEATURE_INDEX || code == HIDPP2_ERR_INVALID_FUNCTION_ID || code
        == HIDPP2_ERR_UNSUPPORTED {
        e == (DriverError::Unsupported { op: FUNCTION_UNSUPPORTED })
    } else if code == HIDPP2_ERR_INVALID_ARGUMENT || code == HIDPP2_ERR_OUT_OF_RANGE {
        e == (DriverError::ProtocolViolation { reason: ARGUMENT_REJECTED })
    } else if code == HIDPP2_ERR_BUSY {
        e matches DriverError::Io(io) && io.kind == IoErrorKind::Other && io.message@ == "HID++ device busy"@
    } else {
        e == (DriverError::ProtocolViolation { reason: HIDPP2_ERROR_REPLY })
    }
}

/// What an error code of the device means.
pub fn hidpp2_error_to_driver(code: u8) -> (e: DriverError)
    ensures
        means_hidpp2(code, e),
{
    if code == HIDPP2_ERR_INVALID_FEATURE_INDEX || code == HIDPP2_ERR_INVALID_FUNCTION_ID || code
        == HIDPP2_ERR_UNSUPPORTED {
        DriverError::Unsupported { op: FUNCTION_UNSUPPORTED }
    } else if code == HIDPP2_ERR_INVALID_ARGUMENT || code == HIDPP2_ERR_OUT_OF_RANGE {
        DriverError::ProtocolViolation { reason: ARGUMENT_REJECTED }
    } else if code == HIDPP2_ERR_BUSY {
        DriverError::Io(IoError { kind: IoErrorKind::Other, message: "HID++ device busy".to_owned() })
    } else {
        DriverError::ProtocolViolation { reason: HIDPP2_ERROR_REPLY }
    }
}

/// What an error code of the receiver means. A keyboard that is off or out of
/// range counts as disconnected.
pub open spec fn means_hidpp1(code: u8, e: DriverError) -> bool {
    if code == HIDPP1_ERR_CONNECT_FAIL || code == HIDPP1_ERR_UNKNOWN_DEVICE || code
        == HIDPP1_ERR_RESOURCE_ERROR {
        e == DriverError::Disconnected
    } else {
        e == (DriverError::ProtocolViolation { reason: HIDPP1_ERROR_REPLY })
    }
}

/// What an error code of the receiver means.
pub fn hidpp1_error_to_driver(code: u8) -> (e: DriverError)
    ensures
        means_hidpp1(code, e),
{
    if code == HIDPP1_ERR_CONNECT_FAIL || code == HIDPP1_ERR_UNKNOWN_DEVICE || code == HIDPP1_ERR_RESOURCE_ERROR {
        DriverError::Disconnected
    } else {
        DriverError::ProtocolViolation { reason: HIDPP1_ERROR_REPLY }
    }
}

/// The outcome that a report gives to the pending request; `None` when the next
/// report is to be read.
pub fn call_outcome(req: &PendingRequest, report: &[u8]) -> (outcome: Option<Result<[u8; 16], DriverError>>)
    ensures
        if !is_addressed(*req, report@) {
            outcome is None
        } else if is_error(*req, report@, ERR_HIDPP2_MARKER) {
            outcome matches Some(Err(e)) && means_hidpp2(report@[5], e)
        } else if is_error(*req, report@, ERR_HIDPP1_SUBID) {
            outcome matches Some(Err(e)) && means_hidpp1(report@[5], e)
        } else if report@[2] == req.feature_idx && report@[3] == req.func_sw {
            outcome matches Some(Ok(p)) && p@ == reply_params(report@)
        } else {
            outcome is None
        },
{
    match classify_reply(req, report) {
        ReplyKind::Match(p) => Some(Ok(p)),
        ReplyKind::Hidpp2Error(code) => Some(Err(hidpp2_error_to_driver(code))),
        ReplyKind::Hidpp1Error(code) => Some(Err(hidpp1_error_to_driver(code))),
        ReplyKind::Ignore => None,
    }
}

/// A device that echoes a request answers it: the echo is taken for the reply,
/// and its parameters are those of the request.
pub proof fn an_echoed_request_is_its_reply(device_idx: u8, feature_idx: u8, func: u8, params: Seq<u8>)
    requires
        params.len() <= LONG_PARAMS,
        feature_idx != ERR_HIDPP2_MARKER,
        feature_idx != ERR_HIDPP1_SUBID,
    ensures
        ({
            let req = PendingRequest { device_idx, feature_idx, func_sw: func_sw(func) };
            let report = long_request(device_idx, feature_idx, func, params);
            &&& is_addressed(req, report)
            &&& !is_error(req, report, ERR_HIDPP2_MARKER)
            &&& !is_error(req, report, ERR_HIDPP1_SUBID)
            &&& report[2] == req.feature_idx && report[3] == req.func_sw
            &&& reply_params(report).take(params.len() as int) == params
        }),
{
    let report = long_request(device_idx, feature_idx, func, params);
    assert(reply_params(report).take(params.len() as int) =~= params);
}

/// The bytes of a long request: 11, device and feature index, the function in the
/// high half of the fourth byte over the software id A, the parameters, and zeros
/// up to twenty bytes.
pub proof fn long_request_bytes(device_idx: u8, feature_idx: u8, func: u8, params: Seq<u8>)
    requires
        params.len() <= 16,
    ensures
        ({
            let f = long_request(device_idx, feature_idx, func, params);
            &&& f.len() == 20
            &&& f[0] == 0x11
            &&& f[1] == device_idx
            &&& f[2] == feature_idx
            &&& f[3] % 16 == 0x0A
            &&& f[3] / 16 == func % 16
            &&& f.subrange(4, 4 + params.len() as int) == params
            &&& forall|i: int| 4 + params.len() <= i < 20 ==> #[trigger] f[i] == 0
        }),
{
    let f = long_request(device_idx, feature_idx, func, params);
    assert(f.subrange(4, 4 + params.len() as int) =~= params);
}

/// Calls with different functions below sixteen are told apart by what their
/// replies echo.
pub proof fn functions_are_told_apart(a: u8, b: u8)
    requires
        a < 16,
        b < 16,
        func_sw(a) == func_sw(b),
    ensures
        a == b,
{
}

/// A report counts if it has seven bytes at least, begins with 10 or 11, and has
/// the device index in its second byte. It is an error reply if the marker stands
/// in place of the feature index, and what the request sent follows the marker.
pub proof fn replies_are_told_by_their_bytes(req: PendingRequest, report: Seq<u8>, marker: u8)
    ensures
        is_addressed(req, report) <==> {
            &&& report.len() >= 7
            &&& report[0] == 0x10 || report[0] == 0x11
            &&& report[1] == req.device_idx
        },
        is_error(req, report, marker) <==> {
            &&& report[2] == marker
            &&& report[3] == req.feature_idx
            &&& report[4] == req.func_sw
        },
        ERR_HIDPP2_MARKER == 0xFF,
        ERR_HIDPP1_SUBID == 0x8F,
{
}

/// The parameters of a reply are the sixteen bytes behind its first four; what a
/// shorter report does not have is zero, and what a longer one has more is left out.
pub proof fn reply_parameters_follow_the_header(report: Seq<u8>)
    requires
        report.len() >= 4,
    ensures
        reply_params(report).len() == 16,
        report.len() >= 20 ==> reply_params(report) == report.subrange(4, 20),
        report.len() < 20 ==> reply_params(report).take(report.len() - 4) == report.skip(4),
        forall|i: int| report.len() - 4 <= i < 16 ==> #[trigger] reply_params(report)[i] == 0,
{
    if report.len() >= 20 {
        assert(reply_params(report) =~= report.subrange(4, 20));
    } else {
        assert(reply_params(report).take(report.len() - 4) =~= report.skip(4));
    }
}

/// Of the device's error codes 6, 7 and 9 mean that it cannot do what was asked,
/// 2 and 3 that it rejected an argument, and 8 that it is busy; any other is a
/// protocol violation. Of the receiver's 4, 8 and 9 mean that the keyboard is gone.
pub proof fn error_codes_have_their_meaning(code: u8, e: DriverError)
    ensures
        means_hidpp2(code, e) ==> {
            &&& e is Unsupported <==> code == 6 || code == 7 || code == 9
            &&& e is Io <==> code == 8
            &&& e is ProtocolViolation <==> !(6 <= code <= 9)
            &&& e matches DriverError::ProtocolViolation { reason } ==> reason == if code == 2 || code == 3 {
                ARGUMENT_REJECTED
            } else {
                HIDPP2_ERROR_REPLY
            }
            &&& e matches DriverError::Unsupported { op } ==> op == FUNCTION_UNSUPPORTED
            &&& e matches DriverError::Io(io) ==> io.kind == IoErrorKind::Other && io.message@ == "HID++ device busy"@
        },
        means_hidpp1(code, e) ==> {
            &&& e is Disconnected <==> code == 4 || code == 8 || code == 9
            &&& e is Disconnected || e == (DriverError::ProtocolViolation { reason: HIDPP1_ERROR_REPLY })
        },
{
}

/// The sizes of the reports: a long one has twenty bytes, sixteen of them for
/// parameters behind the four of the header, and a short one has seven.
pub proof fn report_sizes()
    ensures
        LONG_LEN == 20,
        LONG_PARAMS == 16,
        SHORT_LEN == 7,
        LONG_LEN == LONG_PARAMS + 4,
{
}

/// A call of up to sixteen parameters has a request, and a longer one does not.
pub proof fn requests_are_made(
    device_idx: u8,
    feature_idx: u8,
    func: u8,
    params: &[u8],
    r: Result<[u8; 20], DriverError>,
)
    requires
        call_ensures(encode_long_request, (device_idx, feature_idx, func, params), r),
    ensures
        r is Ok <==> params@.len() <= 16,
        r matches Ok(f) ==> {
            &&& f@[0] == 0x11 && f@[1] == device_idx && f@[2] == feature_idx
            &&& f@[3] == 16 * (func % 16) + 0x0A
            &&& f@.subrange(4, 4 + params@.len() as int) == params@
        },
{
    if params@.len() <= 16 {
        long_request_bytes(device_idx, feature_idx, func, params@);
    }
}

/// A report answers a request if it comes from its device: with the device's or the
/// receiver's error code where the marker stands before what was sent, with the
/// parameters where it repeats feature and function, and not at all otherwise.
pub proof fn reports_are_sorted(req: PendingRequest, report: &[u8], kind: ReplyKind)
    requires
        call_ensures(classify_reply, (&req, report), kind),
        req.feature_idx != 0xFF,
        req.feature_idx != 0x8F,
    ensures
        ({
            let s = report@;
            let ours = s.len() >= 7 && (s[0] == 0x10 || s[0] == 0x11) && s[1] == req.device_idx;
            let repeated = s[3] == req.feature_idx && s[4] == req.func_sw;
            &&& kind is Hidpp2Error <==> ours && s[2] == 0xFF && repeated
            &&& kind is Hidpp1Error <==> ours && s[2] == 0x8F && repeated
            &&& kind is Match <==> ours && s[2] == req.feature_idx && s[3] == req.func_sw
            &&& kind matches ReplyKind::Hidpp2Error(code) ==> code == s[5]
            &&& kind matches ReplyKind::Hidpp1Error(code) ==> code == s[5]
            &&& kind matches ReplyKind::Match(p) ==> forall|i: int|
                0 <= i < 16 ==> #[trigger] p@[i] == if 4 + i < s.len() { s[4 + i] } else { 0 }
        }),
{
}

} // verus!
