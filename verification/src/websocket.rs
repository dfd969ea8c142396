use vstd::prelude::*;
use vstd::string::StringSliceAdditionalSpecFns;

use crate::types::{
    RequestError, RequestErrorType, RequestLimitError, TypeState,
};

verus! {

/// The embedded object-protocol request, reduced to what the envelope
/// needs to know: which of its top-level keys were present, and how many
/// method calls it batched.
#[derive(Clone, Debug)]
pub struct Request {
    pub has_using: bool,
    pub has_method_calls: bool,
    pub has_created_ids: bool,
    pub method_call_count: usize,
}

impl Request {
    pub fn new() -> (r: Request)
        ensures
            !r.has_using,
            !r.has_method_calls,
            !r.has_created_ids,
            r.method_call_count == 0,
    {
        Request { has_using: false, has_method_calls: false, has_created_ids: false, method_call_count: 0 }
    }
}

/// An inbound request over the push channel, with its optional
/// client-supplied id.
#[derive(Debug)]
pub struct WebSocketRequest {
    pub id: Option<String>,
    pub request: Request,
}

/// A push-subscription-enable request: the object-type filters and the
/// client's last known push state.
#[derive(Debug)]
pub struct WebSocketPushEnable {
    pub data_types: Vec<TypeState>,
    pub push_state: Option<String>,
}

/// One parsed inbound message.
#[derive(Debug)]
pub enum WebSocketMessage {
    Request(WebSocketRequest),
    PushEnable(WebSocketPushEnable),
    PushDisable,
}

/// The wire tag of an outbound response.
#[derive(Clone, Copy, Debug, PartialEq, Eq, Structural)]
pub enum WebSocketResponseType {
    Response,
}

/// The wire tag of an outbound state-change notification.
#[derive(Clone, Copy, Debug, PartialEq, Eq, Structural)]
pub enum WebSocketStateChangeType {
    StateChange,
}

/// The wire tag of an outbound error object.
#[derive(Clone, Copy, Debug, PartialEq, Eq, Structural)]
pub enum WebSocketRequestErrorType {
    RequestError,
}

/// What the method dispatcher produced for one request, ready to wrap.
#[derive(Debug)]
pub struct Response {
    pub method_responses: Vec<String>,
    pub session_state: u32,
    pub created_ids: Vec<(String, crate::types::Id)>,
}

/// An outbound response wrapper.
#[derive(Debug)]
pub struct WebSocketResponse {
    pub type_: WebSocketResponseType,
    pub method_responses: Vec<String>,
    pub session_state: u32,
    pub created_ids: Vec<(String, crate::types::Id)>,
    pub request_id: Option<String>,
}

impl WebSocketResponse {
    /// Wrap a response for the push channel, carrying the request id the
    /// client supplied.
    pub fn from_response(response: Response, request_id: Option<String>) -> (r: WebSocketResponse)
        ensures
            r.type_ == WebSocketResponseType::Response,
            r.method_responses == response.method_responses,
            r.session_state == response.session_state,
            r.created_ids == response.created_ids,
            r.request_id == request_id,
    {
        WebSocketResponse {
            type_: WebSocketResponseType::Response,
            method_responses: response.method_responses,
            session_state: response.session_state,
            created_ids: response.created_ids,
            request_id,
        }
    }
}

/// An outbound state-change notification: account by account, the state
/// each object type reached.
#[derive(Debug)]
pub struct WebSocketStateChange {
    pub type_: WebSocketStateChangeType,
    pub changed: Vec<(crate::types::Id, Vec<(TypeState, crate::types::State)>)>,
    pub push_state: Option<String>,
}

impl WebSocketStateChange {
    pub fn new(push_state: Option<String>) -> (r: WebSocketStateChange)
        ensures
            r.type_ == WebSocketStateChangeType::StateChange,
            r.changed@.len() == 0,
            r.push_state == push_state,
    {
        WebSocketStateChange {
            type_: WebSocketStateChangeType::StateChange,
            changed: Vec::new(),
            push_state,
        }
    }
}

/// An outbound structured error object.
#[derive(Debug)]
pub struct WebSocketRequestError {
    pub type_: WebSocketRequestErrorType,
    pub p_type: RequestErrorType,
    pub limit: Option<RequestLimitError>,
    pub status: u16,
    pub detail: String,
    pub request_id: Option<String>,
}

impl WebSocketRequestError {
    /// Wrap a request error for the push channel.
    pub fn from_error(error: RequestError, request_id: Option<String>) -> (r:
        WebSocketRequestError)
        ensures
            r.type_ == WebSocketRequestErrorType::RequestError,
            r.p_type == error.p_type,
            r.limit == error.limit,
            r.status == error.status,
            r.detail == error.detail,
            r.request_id == request_id,
    {
        WebSocketRequestError {
            type_: WebSocketRequestErrorType::RequestError,
            p_type: error.p_type,
            limit: error.limit,
            status: error.status,
            detail: error.detail,
            request_id,
        }
    }
}

/// The message type an inbound envelope declares.
#[derive(Clone, Copy, Debug, PartialEq, Eq, Structural)]
pub enum MessageType {
    Request,
    PushEnable,
    PushDisable,
    Unspecified,
}

/// Decide what a fully scanned envelope is. A message whose declared type
/// does not match the keys actually present — a request without request
/// keys, an enable without any push key, a disable alongside either — is
/// rejected as malformed.
pub fn resolve_message(
    message_type: MessageType,
    found_request_keys: bool,
    found_push_keys: bool,
    request: WebSocketRequest,
    push_enable: WebSocketPushEnable,
) -> (r: Result<WebSocketMessage, WebSocketRequestError>)
    ensures
        message_type == MessageType::Request && found_request_keys ==> (r matches Ok(
            WebSocketMessage::Request(q),
        ) && q == request),
        message_type == MessageType::PushEnable && found_push_keys ==> (r matches Ok(
            WebSocketMessage::PushEnable(p),
        ) && p == push_enable),
        message_type == MessageType::PushDisable && !found_request_keys && !found_push_keys ==> r
            matches Ok(WebSocketMessage::PushDisable),
        !(message_type == MessageType::Request && found_request_keys) && !(message_type
            == MessageType::PushEnable && found_push_keys) && !(message_type
            == MessageType::PushDisable && !found_request_keys && !found_push_keys) ==> (r matches
            Err(e) && e.p_type == RequestErrorType::NotRequest && e.status == 400 && e.request_id
            is None && e.detail@ == "Invalid WebSocket JMAP request"@),
{
    match message_type {
        MessageType::Request if found_request_keys => Ok(WebSocketMessage::Request(request)),
        MessageType::PushEnable if found_push_keys => Ok(
            WebSocketMessage::PushEnable(push_enable),
        ),
        MessageType::PushDisable if !found_request_keys && !found_push_keys => Ok(
            WebSocketMessage::PushDisable,
        ),
        _ => Err(
            WebSocketRequestError::from_error(
                RequestError::not_request("Invalid WebSocket JMAP request"),
                None,
            ),
        ),
    }
}

/// Whether a byte is JSON whitespace.
fn is_ws(b: u8) -> (r: bool)
    ensures
        r == spec_is_ws(b),
{
    b == 0x20 || b == 0x09 || b == 0x0a || b == 0x0d
}

/// Skip whitespace from a position.
#[verifier::loop_isolation(false)]
fn skip_ws(b: &[u8], i: usize) -> (r: usize)
    requires
        i <= b@.len(),
    ensures
        i <= r <= b@.len(),
        r == spec_skip_ws(b@, i as int),
{
    let mut j = i;
    while j < b.len() && is_ws(b[j])
        invariant
            i <= j <= b@.len(),
            spec_skip_ws(b@, i as int) == spec_skip_ws(b@, j as int),
        decreases b@.len() - j,
    {
        j = j + 1;
    }
    j
}

/// The value of one hexadecimal digit.
fn hex_val(c: u8) -> (r: Option<u8>)
    ensures
        r matches Some(v) ==> v < 16,
        r == spec_hex_val(c),
{
    if c >= 0x30 && c <= 0x39 {
        Some(c - 0x30)
    } else if c >= 0x61 && c <= 0x66 {
        Some(c - 0x61 + 10)
    } else if c >= 0x41 && c <= 0x46 {
        Some(c - 0x41 + 10)
    } else {
        None
    }
}

/// Append the UTF-8 encoding of a Unicode scalar value.
fn push_scalar_utf8(out: &mut Vec<u8>, v: u32)
    requires
        v < 0x11_0000,
    ensures
        final(out)@ == old(out)@ + spec_scalar_utf8(v),
{
    if v < 0x80 {
        out.push(v as u8);
        proof {
            assert(out@ =~= old(out)@ + spec_scalar_utf8(v));
        }
    } else if v < 0x800 {
        out.push(0xc0u8 | ((v >> 6u32) as u8));
        out.push(0x80u8 | ((v as u8) & 0x3fu8));
        proof {
            assert(out@ =~= old(out)@ + spec_scalar_utf8(v));
        }
    } else if v < 0x1_0000 {
        out.push(0xe0u8 | ((v >> 12u32) as u8));
        out.push(0x80u8 | (((v >> 6u32) as u8) & 0x3fu8));
        out.push(0x80u8 | ((v as u8) & 0x3fu8));
        proof {
            assert(out@ =~= old(out)@ + spec_scalar_utf8(v));
        }
    } else {
        proof {
            assert(v >> 18u32 < 8) by (bit_vector)
                requires
                    v < 0x11_0000u32,
            ;
        }
        out.push(0xf0u8 | ((v >> 18u32) as u8));
        out.push(0x80u8 | (((v >> 12u32) as u8) & 0x3fu8));
        out.push(0x80u8 | (((v >> 6u32) as u8) & 0x3fu8));
        out.push(0x80u8 | ((v as u8) & 0x3fu8));
        proof {
            assert(out@ =~= old(out)@ + spec_scalar_utf8(v));
        }
    }
}

/// Read the four hex digits of a `\u` escape.
fn read_hex4(b: &[u8], i: usize) -> (r: Option<u32>)
    requires
        i + 4 <= b@.len(),
    ensures
        r matches Some(v) ==> v < 0x1_0000,
        r == spec_read_hex4(b@, i as int),
{
    let d0 = match hex_val(b[i]) {
        Some(d) => d,
        None => {
            return None;
        },
    };
    let d1 = match hex_val(b[i + 1]) {
        Some(d) => d,
        None => {
            return None;
        },
    };
    let d2 = match hex_val(b[i + 2]) {
        Some(d) => d,
        None => {
            return None;
        },
    };
    let d3 = match hex_val(b[i + 3]) {
        Some(d) => d,
        None => {
            return None;
        },
    };
    Some((d0 as u32) * 4096 + (d1 as u32) * 256 + (d2 as u32) * 16 + (d3 as u32))
}

/// Scan one JSON string starting at its opening quote; decode its escape
/// sequences. Returns the decoded bytes and the position after the
/// closing quote.
#[verifier::loop_isolation(false)]
fn scan_string(b: &[u8], i: usize) -> (r: Option<(Vec<u8>, usize)>)
    requires
        i <= b@.len(),
    ensures
        r matches Some(p) ==> i < p.1 <= b@.len(),
        (r is Some) == (spec_scan_string(b@, i as int) is Some),
        r matches Some(p) ==> spec_scan_string(b@, i as int) == Some((p.0@, p.1 as int)),
{
    if i >= b.len() || b[i] != 0x22 {
        return None;
    }
    let mut out: Vec<u8> = Vec::new();
    proof {
        assert(out@ =~= Seq::<u8>::empty());
    }
    let mut j = i + 1;
    while j < b.len()
        invariant
            i < j <= b@.len(),
            spec_scan_string(b@, i as int) == spec_scan_string_from(b@, j as int, out@),
        decreases b@.len() - j,
    {
        let c = b[j];
        if c == 0x22 {
            return Some((out, j + 1));
        }
        if c == 0x5c {
            if b.len() - j < 2 {
                return None;
            }
            let e = b[j + 1];
            if e == 0x22 || e == 0x5c || e == 0x2f {
                out.push(e);
                j = j + 2;
            } else if e == 0x62 {
                out.push(0x08);
                j = j + 2;
            } else if e == 0x66 {
                out.push(0x0c);
                j = j + 2;
            } else if e == 0x6e {
                out.push(0x0a);
                j = j + 2;
            } else if e == 0x72 {
                out.push(0x0d);
                j = j + 2;
            } else if e == 0x74 {
                out.push(0x09);
                j = j + 2;
            } else if e == 0x75 {
                if b.len() - j < 6 {
                    return None;
                }
                let hi = match read_hex4(b, j + 2) {
                    Some(v) => v,
                    None => {
                        return None;
                    },
                };
                if hi >= 0xd800 && hi < 0xdc00 {
                    // A high surrogate must pair with a low one.
                    if b.len() - j < 12 || b[j + 6] != 0x5c || b[j + 7] != 0x75 {
                        return None;
                    }
                    let lo = match read_hex4(b, j + 8) {
                        Some(v) => v,
                        None => {
                            return None;
                        },
                    };
                    if !(lo >= 0xdc00 && lo < 0xe000) {
                        return None;
                    }
                    let scalar: u32 = 0x1_0000 + ((hi - 0xd800) * 0x400) + (lo - 0xdc00);
                    push_scalar_utf8(&mut out, scalar);
                    j = j + 12;
                } else if hi >= 0xdc00 && hi < 0xe000 {
                    // A lone low surrogate is malformed.
                    return None;
                } else {
                    push_scalar_utf8(&mut out, hi);
                    j = j + 6;
                }
            } else {
                return None;
            }
        } else {
            out.push(c);
            j = j + 1;
        }
    }
    None
}

/// Skip one JSON value starting at `i`; stop before the `,`, `}` or `]`
/// that follows it.
#[verifier::loop_isolation(false)]
fn skip_value(b: &[u8], i: usize) -> (r: Option<usize>)
    requires
        i <= b@.len(),
    ensures
        r matches Some(j) ==> i <= j <= b@.len(),
        (r is Some) == (spec_skip_value(b@, i as int) is Some),
        r matches Some(j) ==> spec_skip_value(b@, i as int) == Some(j as int),
{
    if i < b.len() && b[i] == 0x22 {
        return match scan_string(b, i) {
            Some((_, j)) => Some(j),
            None => None,
        };
    }
    let mut j = i;
    let mut depth: usize = 0;
    let mut in_str: bool = false;
    let mut esc: bool = false;
    while j < b.len()
        invariant
            i <= j <= b@.len(),
            depth <= j - i,
            !in_str ==> !esc,
            spec_skip_value(b@, i as int) == spec_skip_value_from(
                b@,
                j as int,
                depth as int,
                in_str,
                esc,
            ),
        decreases b@.len() - j,
    {
        proof {
            reveal_with_fuel(spec_skip_value_from, 2);
        }
        let c = b[j];
        if in_str {
            if esc {
                esc = false;
            } else if c == 0x5c {
                esc = true;
            } else if c == 0x22 {
                in_str = false;
            }
            j = j + 1;
        } else if c == 0x7b || c == 0x5b {
            depth = depth + 1;
            j = j + 1;
        } else if c == 0x7d || c == 0x5d {
            if depth == 0 {
                return Some(j);
            }
            depth = depth - 1;
            j = j + 1;
        } else if c == 0x2c && depth == 0 {
            return Some(j);
        } else if c == 0x22 {
            in_str = true;
            j = j + 1;
        } else {
            j = j + 1;
        }
    }
    if depth == 0 && !in_str {
        Some(j)
    } else {
        None
    }
}

/// Whether decoded bytes equal a name's UTF-8 bytes.
fn is_bytes(v: &Vec<u8>, name: &str) -> (r: bool)
    ensures
        r == (v@ == name.spec_bytes()),
{
    let s = name.as_bytes();
    if v.len() != s.len() {
        proof {
            assert(v@.len() != name.spec_bytes().len());
        }
        return false;
    }
    let mut i: usize = 0;
    while i < v.len()
        invariant
            i <= v@.len(),
            v@.len() == s@.len(),
            s@ == name.spec_bytes(),
            forall|j: int| 0 <= j < i ==> v@[j] == s@[j],
        decreases v@.len() - i,
    {
        if v[i] != s[i] {
            return false;
        }
        i = i + 1;
    }
    proof {
        assert(v@ =~= s@);
    }
    true
}

/// Parse a `dataTypes` value: `null`, or an array of object-type names.
#[verifier::loop_isolation(false)]
fn parse_data_types(b: &[u8], i: usize) -> (r: Option<(Vec<TypeState>, usize)>)
    requires
        i <= b@.len(),
    ensures
        r matches Some(p) ==> i <= p.1 <= b@.len(),
        (r is Some) == (spec_parse_data_types(b@, i as int) is Some),
        r matches Some(p) ==> spec_parse_data_types(b@, i as int) == Some((p.0@, p.1 as int)),
{
    let mut out: Vec<TypeState> = Vec::new();
    proof {
        assert(out@ =~= Seq::<TypeState>::empty());
    }
    if b.len() - i >= 4 && b[i] == 0x6e && b[i + 1] == 0x75 && b[i + 2] == 0x6c && b[i + 3]
        == 0x6c {
        return Some((out, i + 4));
    }
    if i >= b.len() || b[i] != 0x5b {
        return None;
    }
    let mut j = skip_ws(b, i + 1);
    if j < b.len() && b[j] == 0x5d {
        return Some((out, j + 1));
    }
    while j < b.len()
        invariant
            i <= j <= b@.len(),
            spec_parse_data_types(b@, i as int) == spec_data_types_from(b@, j as int, out@),
        decreases b@.len() - j,
    {
        let (name, j2) = match scan_string(b, j) {
            Some(p) => p,
            None => {
                return None;
            },
        };
        let ts: TypeState = if is_bytes(&name, "Email") {
            TypeState::Email
        } else if is_bytes(&name, "Mailbox") {
            TypeState::Mailbox
        } else if is_bytes(&name, "Thread") {
            TypeState::Thread
        } else if is_bytes(&name, "EmailDelivery") {
            TypeState::EmailDelivery
        } else {
            return None;
        };
        out.push(ts);
        let j3 = skip_ws(b, j2);
        if j3 < b.len() && b[j3] == 0x2c {
            j = skip_ws(b, j3 + 1);
        } else if j3 < b.len() && b[j3] == 0x5d {
            return Some((out, j3 + 1));
        } else {
            return None;
        }
    }
    None
}

/// Parse a value that must be a string or `null`.
fn parse_string_or_null(b: &[u8], i: usize) -> (r: Option<(Option<Vec<u8>>, usize)>)
    requires
        i <= b@.len(),
    ensures
        r matches Some(p) ==> i <= p.1 <= b@.len(),
        (r is Some) == (spec_parse_string_or_null(b@, i as int) is Some),
        r matches Some(p) ==> spec_parse_string_or_null(b@, i as int) == Some(
            (
                match p.0 {
                    Some(v) => Some(v@),
                    None => None,
                },
                p.1 as int,
            ),
        ),
{
    if b.len() - i >= 4 && b[i] == 0x6e && b[i + 1] == 0x75 && b[i + 2] == 0x6c && b[i + 3]
        == 0x6c {
        return Some((None, i + 4));
    }
    match scan_string(b, i) {
        Some((v, j)) => Some((Some(v), j)),
        None => None,
    }
}

/// Count the elements of a JSON array without keeping them.
#[verifier::loop_isolation(false)]
fn count_array_items(b: &[u8], i: usize) -> (r: Option<(usize, usize)>)
    requires
        i <= b@.len(),
    ensures
        r matches Some(p) ==> i <= p.1 <= b@.len(),
        (r is Some) == (spec_count_items(b@, i as int) is Some),
        r matches Some(p) ==> spec_count_items(b@, i as int) == Some((p.0 as int, p.1 as int)),
{
    if i >= b.len() || b[i] != 0x5b {
        return None;
    }
    let mut j = skip_ws(b, i + 1);
    if j < b.len() && b[j] == 0x5d {
        return Some((0, j + 1));
    }
    let mut count: usize = 1;
    while j < b.len()
        invariant
            i <= j <= b@.len(),
            spec_count_items(b@, i as int) == spec_count_from(b@, j as int, count as int),
        decreases b@.len() - j,
    {
        let j2 = match skip_value(b, j) {
            Some(p) => p,
            None => {
                return None;
            },
        };
        let j3 = skip_ws(b, j2);
        if j3 < b.len() && b[j3] == 0x2c {
            if count < usize::MAX {
                count = count + 1;
            }
            j = skip_ws(b, j3 + 1);
        } else if j3 < b.len() && b[j3] == 0x5d {
            return Some((count, j3 + 1));
        } else {
            return None;
        }
    }
    None
}


// ---------------------------------------------------------------------
// The envelope grammar, as specification: each scanning function below
// has an exact specification-level mirror here, and `parse`'s contract
// ties its result to `spec_scan_envelope` of the input bytes.
// ---------------------------------------------------------------------

pub open spec fn spec_is_ws(c: u8) -> bool {
    c == 0x20 || c == 0x09 || c == 0x0a || c == 0x0d
}

/// Position of the first non-whitespace byte at or after `i`.
pub open spec fn spec_skip_ws(b: Seq<u8>, i: int) -> int
    decreases b.len() - i,
{
    if 0 <= i < b.len() && spec_is_ws(b[i]) {
        spec_skip_ws(b, i + 1)
    } else {
        i
    }
}

pub proof fn lemma_spec_skip_ws_bounds(b: Seq<u8>, i: int)
    requires
        0 <= i <= b.len(),
    ensures
        i <= spec_skip_ws(b, i) <= b.len(),
    decreases b.len() - i,
{
    if 0 <= i < b.len() && spec_is_ws(b[i]) {
        lemma_spec_skip_ws_bounds(b, i + 1);
    }
}

pub open spec fn spec_hex_val(c: u8) -> Option<u8> {
    if c >= 0x30 && c <= 0x39 {
        Some((c - 0x30) as u8)
    } else if c >= 0x61 && c <= 0x66 {
        Some((c - 0x61 + 10) as u8)
    } else if c >= 0x41 && c <= 0x46 {
        Some((c - 0x41 + 10) as u8)
    } else {
        None
    }
}

pub open spec fn spec_read_hex4(b: Seq<u8>, i: int) -> Option<u32> {
    if !(0 <= i && i + 4 <= b.len()) {
        None
    } else {
        match (spec_hex_val(b[i]), spec_hex_val(b[i + 1]), spec_hex_val(b[i + 2]), spec_hex_val(
            b[i + 3],
        )) {
            (Some(d0), Some(d1), Some(d2), Some(d3)) => Some(
                ((d0 as u32) * 4096 + (d1 as u32) * 256 + (d2 as u32) * 16 + (d3 as u32)) as u32,
            ),
            _ => None,
        }
    }
}

/// The UTF-8 encoding of one Unicode scalar value.
pub open spec fn spec_scalar_utf8(v: u32) -> Seq<u8> {
    if v < 0x80 {
        seq![v as u8]
    } else if v < 0x800 {
        seq![(0xc0u8 | ((v >> 6u32) as u8)) as u8, (0x80u8 | ((v as u8) & 0x3fu8)) as u8]
    } else if v < 0x1_0000 {
        seq![
            (0xe0u8 | ((v >> 12u32) as u8)) as u8,
            (0x80u8 | (((v >> 6u32) as u8) & 0x3fu8)) as u8,
            (0x80u8 | ((v as u8) & 0x3fu8)) as u8,
        ]
    } else {
        seq![
            (0xf0u8 | ((v >> 18u32) as u8)) as u8,
            (0x80u8 | (((v >> 12u32) as u8) & 0x3fu8)) as u8,
            (0x80u8 | (((v >> 6u32) as u8) & 0x3fu8)) as u8,
            (0x80u8 | ((v as u8) & 0x3fu8)) as u8,
        ]
    }
}

/// One JSON string scanned from inside its quotes, with `out` already
/// decoded: the remaining decoded bytes and the position after the
/// closing quote.
pub open spec fn spec_scan_string_from(b: Seq<u8>, j: int, out: Seq<u8>) -> Option<(Seq<u8>, int)>
    decreases b.len() - j,
{
    if !(0 <= j < b.len()) {
        None
    } else {
        let c = b[j];
        if c == 0x22 {
            Some((out, j + 1))
        } else if c == 0x5c {
            if b.len() - j < 2 {
                None
            } else {
                let e = b[j + 1];
                if e == 0x22 || e == 0x5c || e == 0x2f {
                    spec_scan_string_from(b, j + 2, out.push(e))
                } else if e == 0x62 {
                    spec_scan_string_from(b, j + 2, out.push(0x08))
                } else if e == 0x66 {
                    spec_scan_string_from(b, j + 2, out.push(0x0c))
                } else if e == 0x6e {
                    spec_scan_string_from(b, j + 2, out.push(0x0a))
                } else if e == 0x72 {
                    spec_scan_string_from(b, j + 2, out.push(0x0d))
                } else if e == 0x74 {
                    spec_scan_string_from(b, j + 2, out.push(0x09))
                } else if e == 0x75 {
                    if b.len() - j < 6 {
                        None
                    } else {
                        match spec_read_hex4(b, j + 2) {
                            None => None,
                            Some(hi) => if hi >= 0xd800 && hi < 0xdc00 {
                                if b.len() - j < 12 || b[j + 6] != 0x5c || b[j + 7] != 0x75 {
                                    None
                                } else {
                                    match spec_read_hex4(b, j + 8) {
                                        None => None,
                                        Some(lo) => if !(lo >= 0xdc00 && lo < 0xe000) {
                                            None
                                        } else {
                                            spec_scan_string_from(
                                                b,
                                                j + 12,
                                                out + spec_scalar_utf8(
                                                    (0x1_0000 + (hi - 0xd800) * 0x400 + (lo
                                                        - 0xdc00)) as u32,
                                                ),
                                            )
                                        },
                                    }
                                }
                            } else if hi >= 0xdc00 && hi < 0xe000 {
                                None
                            } else {
                                spec_scan_string_from(b, j + 6, out + spec_scalar_utf8(hi))
                            },
                        }
                    }
                } else {
                    None
                }
            }
        } else {
            spec_scan_string_from(b, j + 1, out.push(c))
        }
    }
}

/// One JSON string scanned from its opening quote.
pub open spec fn spec_scan_string(b: Seq<u8>, i: int) -> Option<(Seq<u8>, int)> {
    if 0 <= i < b.len() && b[i] == 0x22 {
        spec_scan_string_from(b, i + 1, Seq::empty())
    } else {
        None
    }
}

pub proof fn lemma_spec_scan_string_from_bounds(b: Seq<u8>, j: int, out: Seq<u8>)
    ensures
        spec_scan_string_from(b, j, out) matches Some(p) ==> j < p.1 <= b.len(),
    decreases b.len() - j,
{
    if 0 <= j < b.len() {
        let c = b[j];
        if c == 0x22 {
        } else if c == 0x5c && b.len() - j >= 2 {
            let e = b[j + 1];
            if e == 0x75 {
                if b.len() - j >= 6 {
                    match spec_read_hex4(b, j + 2) {
                        Some(hi) => {
                            if hi >= 0xd800 && hi < 0xdc00 {
                                if !(b.len() - j < 12 || b[j + 6] != 0x5c || b[j + 7] != 0x75) {
                                    match spec_read_hex4(b, j + 8) {
                                        Some(lo) => {
                                            if lo >= 0xdc00 && lo < 0xe000 {
                                                lemma_spec_scan_string_from_bounds(
                                                    b,
                                                    j + 12,
                                                    out + spec_scalar_utf8(
                                                        (0x1_0000 + (hi - 0xd800) * 0x400 + (lo
                                                            - 0xdc00)) as u32,
                                                    ),
                                                );
                                            }
                                        },
                                        None => {},
                                    }
                                }
                            } else if !(hi >= 0xdc00 && hi < 0xe000) {
                                lemma_spec_scan_string_from_bounds(
                                    b,
                                    j + 6,
                                    out + spec_scalar_utf8(hi),
                                );
                            }
                        },
                        None => {},
                    }
                }
            } else {
                lemma_spec_scan_string_from_bounds(b, j + 2, out.push(b[j + 1]));
                lemma_spec_scan_string_from_bounds(b, j + 2, out.push(0x08));
                lemma_spec_scan_string_from_bounds(b, j + 2, out.push(0x0c));
                lemma_spec_scan_string_from_bounds(b, j + 2, out.push(0x0a));
                lemma_spec_scan_string_from_bounds(b, j + 2, out.push(0x0d));
                lemma_spec_scan_string_from_bounds(b, j + 2, out.push(0x09));
            }
        } else if c != 0x5c {
            lemma_spec_scan_string_from_bounds(b, j + 1, out.push(c));
        }
    }
}

pub proof fn lemma_spec_scan_string_bounds(b: Seq<u8>, i: int)
    ensures
        spec_scan_string(b, i) matches Some(p) ==> i < p.1 <= b.len(),
{
    if 0 <= i < b.len() && b[i] == 0x22 {
        lemma_spec_scan_string_from_bounds(b, i + 1, Seq::empty());
    }
}

/// Skipping one JSON value, scanned with the bracket depth and in-string
/// state carried along; stops before the delimiter that follows it.
pub open spec fn spec_skip_value_from(b: Seq<u8>, j: int, depth: int, in_str: bool, esc: bool) -> Option<
    int,
>
    decreases b.len() - j,
{
    if j < 0 {
        None
    } else if j >= b.len() {
        if depth == 0 && !in_str {
            Some(j)
        } else {
            None
        }
    } else {
        let c = b[j];
        if in_str {
            if esc {
                spec_skip_value_from(b, j + 1, depth, true, false)
            } else if c == 0x5c {
                spec_skip_value_from(b, j + 1, depth, true, true)
            } else if c == 0x22 {
                spec_skip_value_from(b, j + 1, depth, false, false)
            } else {
                spec_skip_value_from(b, j + 1, depth, true, false)
            }
        } else if c == 0x7b || c == 0x5b {
            spec_skip_value_from(b, j + 1, depth + 1, false, false)
        } else if c == 0x7d || c == 0x5d {
            if depth == 0 {
                Some(j)
            } else {
                spec_skip_value_from(b, j + 1, depth - 1, false, false)
            }
        } else if c == 0x2c && depth == 0 {
            Some(j)
        } else if c == 0x22 {
            spec_skip_value_from(b, j + 1, depth, true, false)
        } else {
            spec_skip_value_from(b, j + 1, depth, false, false)
        }
    }
}

/// Skipping one JSON value from a position.
pub open spec fn spec_skip_value(b: Seq<u8>, i: int) -> Option<int> {
    if 0 <= i < b.len() && b[i] == 0x22 {
        match spec_scan_string(b, i) {
            Some(p) => Some(p.1),
            None => None,
        }
    } else {
        spec_skip_value_from(b, i, 0, false, false)
    }
}

pub proof fn lemma_spec_skip_value_from_bounds(b: Seq<u8>, j: int, depth: int, in_str: bool, esc: bool)
    requires
        0 <= j <= b.len(),
    ensures
        spec_skip_value_from(b, j, depth, in_str, esc) matches Some(p) ==> j <= p <= b.len(),
    decreases b.len() - j,
{
    if 0 <= j < b.len() {
        let c = b[j];
        lemma_spec_skip_value_from_bounds(b, j + 1, depth, true, false);
        lemma_spec_skip_value_from_bounds(b, j + 1, depth, true, true);
        lemma_spec_skip_value_from_bounds(b, j + 1, depth, false, false);
        lemma_spec_skip_value_from_bounds(b, j + 1, depth + 1, false, false);
        lemma_spec_skip_value_from_bounds(b, j + 1, depth - 1, false, false);
    }
}

pub proof fn lemma_spec_skip_value_bounds(b: Seq<u8>, i: int)
    requires
        0 <= i <= b.len(),
    ensures
        spec_skip_value(b, i) matches Some(p) ==> i <= p <= b.len(),
{
    lemma_spec_scan_string_bounds(b, i);
    lemma_spec_skip_value_from_bounds(b, i, 0, false, false);
}

/// The object-type named by decoded bytes, if any.
pub open spec fn spec_type_state_of(name: Seq<u8>) -> Option<TypeState> {
    if name == "Email".spec_bytes() {
        Some(TypeState::Email)
    } else if name == "Mailbox".spec_bytes() {
        Some(TypeState::Mailbox)
    } else if name == "Thread".spec_bytes() {
        Some(TypeState::Thread)
    } else if name == "EmailDelivery".spec_bytes() {
        Some(TypeState::EmailDelivery)
    } else {
        None
    }
}

/// Whether the four bytes at `i` spell `null`.
pub open spec fn spec_is_null_at(b: Seq<u8>, i: int) -> bool {
    &&& 0 <= i
    &&& b.len() - i >= 4
    &&& b[i] == 0x6e
    &&& b[i + 1] == 0x75
    &&& b[i + 2] == 0x6c
    &&& b[i + 3] == 0x6c
}

/// The elements of a `dataTypes` array, scanned from its first element.
pub open spec fn spec_data_types_from(b: Seq<u8>, j: int, out: Seq<TypeState>) -> Option<(
    Seq<TypeState>,
    int,
)>
    decreases b.len() - j
        via spec_data_types_from_decreases
{
    if !(0 <= j < b.len()) {
        None
    } else {
        match spec_scan_string(b, j) {
            None => None,
            Some((name, j2)) => match spec_type_state_of(name) {
                None => None,
                Some(ts) => {
                    let j3 = spec_skip_ws(b, j2);
                    if j3 < b.len() && b[j3] == 0x2c {
                        spec_data_types_from(b, spec_skip_ws(b, j3 + 1), out.push(ts))
                    } else if j3 < b.len() && b[j3] == 0x5d {
                        Some((out.push(ts), j3 + 1))
                    } else {
                        None
                    }
                },
            },
        }
    }
}

#[via_fn]
proof fn spec_data_types_from_decreases(b: Seq<u8>, j: int, out: Seq<TypeState>) {
    if 0 <= j < b.len() {
        lemma_spec_scan_string_bounds(b, j);
        match spec_scan_string(b, j) {
            Some((name, j2)) => {
                lemma_spec_skip_ws_bounds(b, j2);
                let j3 = spec_skip_ws(b, j2);
                if j3 < b.len() {
                    lemma_spec_skip_ws_bounds(b, j3 + 1);
                }
            },
            None => {},
        }
    }
}

/// A `dataTypes` value: `null`, or an array of object-type names.
pub open spec fn spec_parse_data_types(b: Seq<u8>, i: int) -> Option<(Seq<TypeState>, int)> {
    if spec_is_null_at(b, i) {
        Some((Seq::empty(), i + 4))
    } else if !(0 <= i < b.len() && b[i] == 0x5b) {
        None
    } else {
        let j = spec_skip_ws(b, i + 1);
        if j < b.len() && b[j] == 0x5d {
            Some((Seq::empty(), j + 1))
        } else {
            spec_data_types_from(b, j, Seq::empty())
        }
    }
}

pub proof fn lemma_spec_data_types_from_bounds(b: Seq<u8>, j: int, out: Seq<TypeState>)
    ensures
        spec_data_types_from(b, j, out) matches Some(p) ==> j < p.1 <= b.len(),
    decreases b.len() - j,
{
    if 0 <= j < b.len() {
        lemma_spec_scan_string_bounds(b, j);
        match spec_scan_string(b, j) {
            Some((name, j2)) => {
                match spec_type_state_of(name) {
                    Some(ts) => {
                        lemma_spec_skip_ws_bounds(b, j2);
                        let j3 = spec_skip_ws(b, j2);
                        if j3 < b.len() && b[j3] == 0x2c {
                            lemma_spec_skip_ws_bounds(b, j3 + 1);
                            lemma_spec_data_types_from_bounds(
                                b,
                                spec_skip_ws(b, j3 + 1),
                                out.push(ts),
                            );
                        }
                    },
                    None => {},
                }
            },
            None => {},
        }
    }
}

pub proof fn lemma_spec_parse_data_types_bounds(b: Seq<u8>, i: int)
    requires
        0 <= i,
    ensures
        spec_parse_data_types(b, i) matches Some(p) ==> i <= p.1 <= b.len(),
{
    if !spec_is_null_at(b, i) && 0 <= i < b.len() && b[i] == 0x5b {
        lemma_spec_skip_ws_bounds(b, i + 1);
        lemma_spec_data_types_from_bounds(b, spec_skip_ws(b, i + 1), Seq::empty());
    }
}

/// A value that must be a string or `null`.
pub open spec fn spec_parse_string_or_null(b: Seq<u8>, i: int) -> Option<(Option<Seq<u8>>, int)> {
    if spec_is_null_at(b, i) {
        Some((None, i + 4))
    } else {
        match spec_scan_string(b, i) {
            Some((v, j)) => Some((Some(v), j)),
            None => None,
        }
    }
}

pub proof fn lemma_spec_parse_string_or_null_bounds(b: Seq<u8>, i: int)
    requires
        0 <= i,
    ensures
        spec_parse_string_or_null(b, i) matches Some(p) ==> i <= p.1 <= b.len(),
{
    lemma_spec_scan_string_bounds(b, i);
}

/// Counting array elements from the first one, saturating as the counter
/// would.
pub open spec fn spec_count_from(b: Seq<u8>, j: int, count: int) -> Option<(int, int)>
    decreases b.len() - j
        via spec_count_from_decreases
{
    if !(0 <= j < b.len()) {
        None
    } else {
        match spec_skip_value(b, j) {
            None => None,
            Some(j2) => {
                let j3 = spec_skip_ws(b, j2);
                if j3 < b.len() && b[j3] == 0x2c {
                    spec_count_from(
                        b,
                        spec_skip_ws(b, j3 + 1),
                        if count < usize::MAX {
                            count + 1
                        } else {
                            count
                        },
                    )
                } else if j3 < b.len() && b[j3] == 0x5d {
                    Some((count, j3 + 1))
                } else {
                    None
                }
            },
        }
    }
}

#[via_fn]
proof fn spec_count_from_decreases(b: Seq<u8>, j: int, count: int) {
    if 0 <= j < b.len() {
        lemma_spec_skip_value_bounds(b, j);
        match spec_skip_value(b, j) {
            Some(j2) => {
                lemma_spec_skip_ws_bounds(b, j2);
                let j3 = spec_skip_ws(b, j2);
                if j3 < b.len() {
                    lemma_spec_skip_ws_bounds(b, j3 + 1);
                }
            },
            None => {},
        }
    }
}

/// Element count of a JSON array.
pub open spec fn spec_count_items(b: Seq<u8>, i: int) -> Option<(int, int)> {
    if !(0 <= i < b.len() && b[i] == 0x5b) {
        None
    } else {
        let j = spec_skip_ws(b, i + 1);
        if j < b.len() && b[j] == 0x5d {
            Some((0, j + 1))
        } else {
            spec_count_from(b, j, 1)
        }
    }
}

pub proof fn lemma_spec_count_from_bounds(b: Seq<u8>, j: int, count: int)
    ensures
        spec_count_from(b, j, count) matches Some(p) ==> j < p.1 <= b.len(),
    decreases b.len() - j,
{
    if 0 <= j < b.len() {
        lemma_spec_skip_value_bounds(b, j);
        match spec_skip_value(b, j) {
            Some(j2) => {
                lemma_spec_skip_ws_bounds(b, j2);
                let j3 = spec_skip_ws(b, j2);
                if j3 < b.len() && b[j3] == 0x2c {
                    lemma_spec_skip_ws_bounds(b, j3 + 1);
                    lemma_spec_count_from_bounds(
                        b,
                        spec_skip_ws(b, j3 + 1),
                        if count < usize::MAX {
                            count + 1
                        } else {
                            count
                        },
                    );
                }
            },
            None => {},
        }
    }
}

pub proof fn lemma_spec_count_items_bounds(b: Seq<u8>, i: int)
    requires
        0 <= i,
    ensures
        spec_count_items(b, i) matches Some(p) ==> i <= p.1 <= b.len(),
{
    if 0 <= i < b.len() && b[i] == 0x5b {
        lemma_spec_skip_ws_bounds(b, i + 1);
        lemma_spec_count_from_bounds(b, spec_skip_ws(b, i + 1), 1);
    }
}

/// A scanned envelope, reduced to what resolution needs: the declared
/// type, which key families were present, and the field values.
pub struct EnvelopeSummary {
    pub message_type: MessageType,
    pub found_request_keys: bool,
    pub found_push_keys: bool,
    pub id: Option<Seq<char>>,
    pub data_types: Seq<TypeState>,
    pub push_state: Option<Seq<char>>,
    pub has_using: bool,
    pub has_method_calls: bool,
    pub has_created_ids: bool,
    pub method_call_count: int,
}

/// Why a scan failed: the bytes are not a well-formed envelope, or the
/// batched method calls exceed the configured ceiling.
#[derive(Clone, Copy, Debug, PartialEq, Eq, Structural)]
pub enum ParseFault {
    Malformed,
    TooManyCalls,
}

/// The summary of an envelope with no keys seen yet.
pub open spec fn spec_empty_summary() -> EnvelopeSummary {
    EnvelopeSummary {
        message_type: MessageType::Unspecified,
        found_request_keys: false,
        found_push_keys: false,
        id: None,
        data_types: Seq::empty(),
        push_state: None,
        has_using: false,
        has_method_calls: false,
        has_created_ids: false,
        method_call_count: 0,
    }
}

/// Effect of one `"key": value` pair on the summary: the updated summary
/// and the position after the value.
pub open spec fn spec_envelope_key(
    b: Seq<u8>,
    key: Seq<u8>,
    jv: int,
    st: EnvelopeSummary,
    max_calls: int,
) -> Result<(EnvelopeSummary, int), ParseFault> {
    if key == "@type".spec_bytes() {
        match spec_scan_string(b, jv) {
            None => Err(ParseFault::Malformed),
            Some((tv, j2)) => {
                let mt = if tv == "Request".spec_bytes() {
                    MessageType::Request
                } else if tv == "WebSocketPushEnable".spec_bytes() {
                    MessageType::PushEnable
                } else if tv == "WebSocketPushDisable".spec_bytes() {
                    MessageType::PushDisable
                } else {
                    MessageType::Unspecified
                };
                Ok((EnvelopeSummary { message_type: mt, ..st }, j2))
            },
        }
    } else if key == "dataTypes".spec_bytes() {
        match spec_parse_data_types(b, jv) {
            None => Err(ParseFault::Malformed),
            Some((dts, j2)) => Ok(
                (EnvelopeSummary { data_types: dts, found_push_keys: true, ..st }, j2),
            ),
        }
    } else if key == "pushState".spec_bytes() {
        match spec_parse_string_or_null(b, jv) {
            None => Err(ParseFault::Malformed),
            Some((ps, j2)) => match ps {
                None => Ok(
                    (EnvelopeSummary { push_state: None, found_push_keys: true, ..st }, j2),
                ),
                Some(bytes) => if vstd::utf8::valid_utf8(bytes) {
                    Ok(
                        (
                            EnvelopeSummary {
                                push_state: Some(vstd::utf8::decode_utf8(bytes)),
                                found_push_keys: true,
                                ..st
                            },
                            j2,
                        ),
                    )
                } else {
                    Err(ParseFault::Malformed)
                },
            },
        }
    } else if key == "id".spec_bytes() {
        match spec_parse_string_or_null(b, jv) {
            None => Err(ParseFault::Malformed),
            Some((idv, j2)) => match idv {
                None => Ok((EnvelopeSummary { id: None, ..st }, j2)),
                Some(bytes) => if vstd::utf8::valid_utf8(bytes) {
                    Ok((EnvelopeSummary { id: Some(vstd::utf8::decode_utf8(bytes)), ..st }, j2))
                } else {
                    Err(ParseFault::Malformed)
                },
            },
        }
    } else if key == "methodCalls".spec_bytes() {
        match spec_count_items(b, jv) {
            None => Err(ParseFault::Malformed),
            Some((count, j2)) => if count > max_calls {
                Err(ParseFault::TooManyCalls)
            } else {
                Ok(
                    (
                        EnvelopeSummary {
                            has_method_calls: true,
                            method_call_count: count,
                            found_request_keys: true,
                            ..st
                        },
                        j2,
                    ),
                )
            },
        }
    } else if key == "using".spec_bytes() {
        match spec_skip_value(b, jv) {
            None => Err(ParseFault::Malformed),
            Some(j2) => Ok(
                (EnvelopeSummary { has_using: true, found_request_keys: true, ..st }, j2),
            ),
        }
    } else if key == "createdIds".spec_bytes() {
        match spec_skip_value(b, jv) {
            None => Err(ParseFault::Malformed),
            Some(j2) => Ok(
                (EnvelopeSummary { has_created_ids: true, found_request_keys: true, ..st }, j2),
            ),
        }
    } else {
        match spec_skip_value(b, jv) {
            None => Err(ParseFault::Malformed),
            Some(j2) => Ok((st, j2)),
        }
    }
}

pub proof fn lemma_spec_envelope_key_bounds(
    b: Seq<u8>,
    key: Seq<u8>,
    jv: int,
    st: EnvelopeSummary,
    max_calls: int,
)
    requires
        0 <= jv <= b.len(),
    ensures
        spec_envelope_key(b, key, jv, st, max_calls) matches Ok(p) ==> jv <= p.1 <= b.len(),
{
    lemma_spec_scan_string_bounds(b, jv);
    lemma_spec_parse_data_types_bounds(b, jv);
    lemma_spec_parse_string_or_null_bounds(b, jv);
    lemma_spec_count_items_bounds(b, jv);
    lemma_spec_skip_value_bounds(b, jv);
}

/// The envelope's key/value pairs scanned from the start of one key, the
/// summary carried along. Ends at the closing brace, which nothing but
/// whitespace may follow.
pub open spec fn spec_envelope_from(
    b: Seq<u8>,
    i: int,
    st: EnvelopeSummary,
    max_calls: int,
) -> Result<EnvelopeSummary, ParseFault>
    decreases b.len() - i
        via spec_envelope_from_decreases
{
    if !(0 <= i < b.len()) {
        Err(ParseFault::Malformed)
    } else {
        match spec_scan_string(b, i) {
            None => Err(ParseFault::Malformed),
            Some((key, j0)) => {
                let j = spec_skip_ws(b, j0);
                if !(j < b.len() && b[j] == 0x3a) {
                    Err(ParseFault::Malformed)
                } else {
                    let jv = spec_skip_ws(b, j + 1);
                    match spec_envelope_key(b, key, jv, st, max_calls) {
                        Err(f) => Err(f),
                        Ok((st2, after)) => {
                            let k = spec_skip_ws(b, after);
                            if k < b.len() && b[k] == 0x2c {
                                spec_envelope_from(b, spec_skip_ws(b, k + 1), st2, max_calls)
                            } else if k < b.len() && b[k] == 0x7d {
                                if spec_skip_ws(b, k + 1) == b.len() {
                                    Ok(st2)
                                } else {
                                    Err(ParseFault::Malformed)
                                }
                            } else {
                                Err(ParseFault::Malformed)
                            }
                        },
                    }
                }
            },
        }
    }
}

#[via_fn]
proof fn spec_envelope_from_decreases(b: Seq<u8>, i: int, st: EnvelopeSummary, max_calls: int) {
    if 0 <= i < b.len() {
        lemma_spec_scan_string_bounds(b, i);
        match spec_scan_string(b, i) {
            Some((key, j0)) => {
                lemma_spec_skip_ws_bounds(b, j0);
                let j = spec_skip_ws(b, j0);
                if j < b.len() && b[j] == 0x3a {
                    lemma_spec_skip_ws_bounds(b, j + 1);
                    let jv = spec_skip_ws(b, j + 1);
                    lemma_spec_envelope_key_bounds(b, key, jv, st, max_calls);
                    match spec_envelope_key(b, key, jv, st, max_calls) {
                        Ok((st2, after)) => {
                            lemma_spec_skip_ws_bounds(b, after);
                            let k = spec_skip_ws(b, after);
                            if k < b.len() {
                                lemma_spec_skip_ws_bounds(b, k + 1);
                            }
                        },
                        Err(_) => {},
                    }
                }
            },
            None => {},
        }
    }
}

/// The whole envelope: leading whitespace, a JSON object whose keys drive
/// the dispatch, trailing whitespace.
pub open spec fn spec_scan_envelope(b: Seq<u8>, max_calls: int) -> Result<
    EnvelopeSummary,
    ParseFault,
> {
    let i = spec_skip_ws(b, 0);
    if !(i < b.len() && b[i] == 0x7b) {
        Err(ParseFault::Malformed)
    } else {
        let j = spec_skip_ws(b, i + 1);
        if j < b.len() && b[j] == 0x7d {
            if spec_skip_ws(b, j + 1) == b.len() {
                Ok(spec_empty_summary())
            } else {
                Err(ParseFault::Malformed)
            }
        } else {
            spec_envelope_from(b, j, spec_empty_summary(), max_calls)
        }
    }
}

/// The summary the scanner's current state stands for.
pub open spec fn spec_summary_of(
    message_type: MessageType,
    found_request_keys: bool,
    found_push_keys: bool,
    request: WebSocketRequest,
    push_enable: WebSocketPushEnable,
) -> EnvelopeSummary {
    EnvelopeSummary {
        message_type,
        found_request_keys,
        found_push_keys,
        id: match request.id {
            None => None,
            Some(s) => Some(s@),
        },
        data_types: push_enable.data_types@,
        push_state: match push_enable.push_state {
            None => None,
            Some(s) => Some(s@),
        },
        has_using: request.request.has_using,
        has_method_calls: request.request.has_method_calls,
        has_created_ids: request.request.has_created_ids,
        method_call_count: request.request.method_call_count as int,
    }
}

impl WebSocketMessage {
    /// Parse one inbound message. A message longer than `max_size` bytes
    /// is rejected with a size-limit error before any parsing; a request
    /// batching more than `max_calls` method calls is rejected with a
    /// call-limit error. The envelope is dispatched on its fixed
    /// top-level keys — the declared type, the push keys, the request id
    /// — with every other known request key forwarded to the embedded
    /// request summary; `resolve_message` states exactly which envelopes
    /// are accepted and which are malformed.
    #[verifier::loop_isolation(false)]
    #[verifier::rlimit(100)]
    #[verifier::spinoff_prover]
    pub fn parse(json: &[u8], max_calls: usize, max_size: usize) -> (r: Result<
        WebSocketMessage,
        WebSocketRequestError,
    >)
        ensures
            json@.len() > max_size ==> (r matches Err(e) && e.p_type == RequestErrorType::Limit
                && e.limit == Some(RequestLimitError::SizeRequest) && e.status == 400
                && e.request_id is None && e.detail@ == crate::types::limit_detail(
                RequestLimitError::SizeRequest,
            )),
            json@.len() <= max_size ==> {
                let scan = spec_scan_envelope(json@, max_calls as int);
                &&& (scan == Err::<EnvelopeSummary, ParseFault>(ParseFault::Malformed) ==> (r
                    matches Err(e) && e.p_type == RequestErrorType::NotJson && e.status == 400
                    && e.limit is None && e.request_id is None && e.detail@
                    == "Invalid JSON request"@))
                &&& (scan == Err::<EnvelopeSummary, ParseFault>(ParseFault::TooManyCalls) ==> (r
                    matches Err(e) && e.p_type == RequestErrorType::Limit && e.limit == Some(
                    RequestLimitError::CallsIn,
                ) && e.status == 400 && e.request_id is None && e.detail@
                    == crate::types::limit_detail(RequestLimitError::CallsIn)))
                &&& (scan matches Ok(sum) ==> {
                    &&& (sum.message_type == MessageType::Request && sum.found_request_keys ==> (
                    r matches Ok(WebSocketMessage::Request(q)) && q.request.has_using
                        == sum.has_using && q.request.has_method_calls == sum.has_method_calls
                        && q.request.has_created_ids == sum.has_created_ids
                        && q.request.method_call_count as int == sum.method_call_count && (
                    q.id is Some <==> sum.id is Some) && (q.id matches Some(sid) ==> sid@
                        == sum.id->0)))
                    &&& (sum.message_type == MessageType::PushEnable && sum.found_push_keys ==> (
                    r matches Ok(WebSocketMessage::PushEnable(p)) && p.data_types@
                        == sum.data_types && (p.push_state is Some <==> sum.push_state is Some)
                        && (p.push_state matches Some(ps) ==> ps@ == sum.push_state->0)))
                    &&& (sum.message_type == MessageType::PushDisable && !sum.found_request_keys
                        && !sum.found_push_keys ==> r matches Ok(WebSocketMessage::PushDisable))
                    &&& (!(sum.message_type == MessageType::Request && sum.found_request_keys)
                        && !(sum.message_type == MessageType::PushEnable && sum.found_push_keys)
                        && !(sum.message_type == MessageType::PushDisable
                        && !sum.found_request_keys && !sum.found_push_keys) ==> (r matches Err(e)
                        && e.p_type == RequestErrorType::NotRequest && e.status == 400
                        && e.request_id is None && e.detail@
                        == "Invalid WebSocket JMAP request"@))
                })
            },
    {
        if json.len() > max_size {
            return Err(
                WebSocketRequestError::from_error(
                    RequestError::limit(RequestLimitError::SizeRequest),
                    None,
                ),
            );
        }
        let malformed = || -> (e: WebSocketRequestError)
            ensures
                e.p_type == RequestErrorType::NotJson,
                e.status == 400,
                e.limit is None,
                e.request_id is None,
                e.detail@ == "Invalid JSON request"@,
            {
            WebSocketRequestError::from_error(
                RequestError::not_json("Invalid JSON request"),
                None,
            )
        };

        let mut message_type = MessageType::Unspecified;
        let mut request = WebSocketRequest { id: None, request: Request::new() };
        let mut push_enable = WebSocketPushEnable { data_types: Vec::new(), push_state: None };
        let mut found_request_keys = false;
        let mut found_push_keys = false;

        proof {
            assert(push_enable.data_types@ =~= Seq::<TypeState>::empty());
            assert(spec_summary_of(
                message_type,
                found_request_keys,
                found_push_keys,
                request,
                push_enable,
            ) == spec_empty_summary());
        }
        let mut i = skip_ws(json, 0);
        if i >= json.len() || json[i] != 0x7b {
            return Err(malformed());
        }
        i = skip_ws(json, i + 1);
        if i < json.len() && json[i] == 0x7d {
            let rest = skip_ws(json, i + 1);
            if rest != json.len() {
                return Err(malformed());
            }
            return resolve_message(
                message_type,
                found_request_keys,
                found_push_keys,
                request,
                push_enable,
            );
        }
        while i < json.len()
            invariant
                i <= json@.len(),
                spec_scan_envelope(json@, max_calls as int) == spec_envelope_from(
                    json@,
                    i as int,
                    spec_summary_of(
                        message_type,
                        found_request_keys,
                        found_push_keys,
                        request,
                        push_enable,
                    ),
                    max_calls as int,
                ),
            decreases json@.len() - i,
        {
            let ghost st0 = spec_summary_of(
                message_type,
                found_request_keys,
                found_push_keys,
                request,
                push_enable,
            );
            // One "key": value pair.
            let (key, j) = match scan_string(json, i) {
                Some(p) => p,
                None => {
                    return Err(malformed());
                },
            };
            let j = skip_ws(json, j);
            if j >= json.len() || json[j] != 0x3a {
                return Err(malformed());
            }
            let j = skip_ws(json, j + 1);
            let after: usize;
            if is_bytes(&key, "@type") {
                let (tv, j2) = match scan_string(json, j) {
                    Some(p) => p,
                    None => {
                        return Err(malformed());
                    },
                };
                message_type = if is_bytes(&tv, "Request") {
                    MessageType::Request
                } else if is_bytes(&tv, "WebSocketPushEnable") {
                    MessageType::PushEnable
                } else if is_bytes(&tv, "WebSocketPushDisable") {
                    MessageType::PushDisable
                } else {
                    MessageType::Unspecified
                };
                after = j2;
            } else if is_bytes(&key, "dataTypes") {
                let (dts, j2) = match parse_data_types(json, j) {
                    Some(p) => p,
                    None => {
                        return Err(malformed());
                    },
                };
                push_enable.data_types = dts;
                found_push_keys = true;
                after = j2;
            } else if is_bytes(&key, "pushState") {
                let (ps, j2) = match parse_string_or_null(json, j) {
                    Some(p) => p,
                    None => {
                        return Err(malformed());
                    },
                };
                push_enable.push_state = match ps {
                    None => None,
                    Some(bytes) => match crate::text::utf8_to_string(bytes) {
                        Some(s) => Some(s),
                        None => {
                            return Err(malformed());
                        },
                    },
                };
                found_push_keys = true;
                after = j2;
            } else if is_bytes(&key, "id") {
                let (idv, j2) = match parse_string_or_null(json, j) {
                    Some(p) => p,
                    None => {
                        return Err(malformed());
                    },
                };
                request.id = match idv {
                    None => None,
                    Some(bytes) => match crate::text::utf8_to_string(bytes) {
                        Some(s) => Some(s),
                        None => {
                            return Err(malformed());
                        },
                    },
                };
                after = j2;
            } else if is_bytes(&key, "methodCalls") {
                let (count, j2) = match count_array_items(json, j) {
                    Some(p) => p,
                    None => {
                        return Err(malformed());
                    },
                };
                if count > max_calls {
                    return Err(
                        WebSocketRequestError::from_error(
                            RequestError::limit(RequestLimitError::CallsIn),
                            None,
                        ),
                    );
                }
                request.request.has_method_calls = true;
                request.request.method_call_count = count;
                found_request_keys = true;
                after = j2;
            } else if is_bytes(&key, "using") {
                let j2 = match skip_value(json, j) {
                    Some(p) => p,
                    None => {
                        return Err(malformed());
                    },
                };
                request.request.has_using = true;
                found_request_keys = true;
                after = j2;
            } else if is_bytes(&key, "createdIds") {
                let j2 = match skip_value(json, j) {
                    Some(p) => p,
                    None => {
                        return Err(malformed());
                    },
                };
                request.request.has_created_ids = true;
                found_request_keys = true;
                after = j2;
            } else {
                // An unrecognized key is skipped; it neither marks the
                // message as a request nor fails it.
                let j2 = match skip_value(json, j) {
                    Some(p) => p,
                    None => {
                        return Err(malformed());
                    },
                };
                after = j2;
            }
            proof {
                assert(spec_envelope_key(json@, key@, j as int, st0, max_calls as int)
                    == Ok::<(EnvelopeSummary, int), ParseFault>(
                    (
                        spec_summary_of(
                            message_type,
                            found_request_keys,
                            found_push_keys,
                            request,
                            push_enable,
                        ),
                        after as int,
                    ),
                ));
            }
            let k = skip_ws(json, after);
            if k < json.len() && json[k] == 0x2c {
                i = skip_ws(json, k + 1);
            } else if k < json.len() && json[k] == 0x7d {
                let rest = skip_ws(json, k + 1);
                if rest != json.len() {
                    return Err(malformed());
                }
                return resolve_message(
                    message_type,
                    found_request_keys,
                    found_push_keys,
                    request,
                    push_enable,
                );
            } else {
                return Err(malformed());
            }
        }
        Err(malformed())
    }
}

/// The wire tag of each error type.
pub open spec fn error_type_tag(t: RequestErrorType) -> Seq<char> {
    match t {
        RequestErrorType::Limit => "urn:ietf:params:jmap:error:limit"@,
        RequestErrorType::NotRequest => "urn:ietf:params:jmap:error:notRequest"@,
        RequestErrorType::NotJson => "urn:ietf:params:jmap:error:notJSON"@,
        RequestErrorType::OverBlobQuota => "overBlobQuota"@,
        RequestErrorType::Internal => "serverFail"@,
    }
}

/// The wire tag of each limit kind.
pub open spec fn limit_tag(k: RequestLimitError) -> Seq<char> {
    match k {
        RequestLimitError::SizeRequest => "maxSizeRequest"@,
        RequestLimitError::CallsIn => "maxCallsInRequest"@,
        RequestLimitError::ConcurrentUpload => "maxConcurrentUpload"@,
    }
}

/// The exact JSON text of an outbound error object: its type tags, the
/// optional limit kind, the status, the detail, and the optional request
/// id, in this order.
pub open spec fn request_error_json(e: WebSocketRequestError) -> Seq<char> {
    "{\"@type\":\"RequestError\",\"type\":\""@ + error_type_tag(e.p_type) + "\""@ + (match e.limit {
        Option::None => Seq::<char>::empty(),
        Option::Some(k) => ",\"limit\":\""@ + limit_tag(k) + "\""@,
    }) + ",\"status\":"@ + crate::text::dec_of(e.status as int) + ",\"detail\":"@
        + crate::text::json_string_of(e.detail@) + (match e.request_id {
        Option::None => Seq::<char>::empty(),
        Option::Some(id) => ",\"requestId\":"@ + crate::text::json_string_of(id@),
    }) + "}"@
}

/// Pre-serialized method responses, joined by commas.
pub open spec fn raw_joined(items: Seq<String>) -> Seq<char>
    decreases items.len(),
{
    if items.len() == 0 {
        Seq::empty()
    } else if items.len() == 1 {
        items[0]@
    } else {
        raw_joined(items.drop_last()) + seq![','] + items.last()@
    }
}

/// The created-id mapping, client ids to object ids in hexadecimal.
pub open spec fn created_ids_json(s: Seq<(String, crate::types::Id)>) -> Seq<char>
    decreases s.len(),
{
    if s.len() == 0 {
        Seq::empty()
    } else {
        let entry = crate::text::json_string_of(s.last().0@) + seq![':', '"'] + crate::text::hex_of(
            s.last().1.id as int,
        ) + seq!['"'];
        if s.len() == 1 {
            entry
        } else {
            created_ids_json(s.drop_last()) + seq![','] + entry
        }
    }
}

/// The exact JSON text of an outbound response wrapper; the created-id
/// mapping appears only when it is non-empty.
pub open spec fn response_json(r: WebSocketResponse) -> Seq<char> {
    "{\"@type\":\"Response\",\"methodResponses\":["@ + raw_joined(r.method_responses@)
        + "],\"sessionState\":\""@ + crate::text::hex_of(r.session_state as int) + "\""@ + (
    if r.created_ids@.len() == 0 {
        Seq::<char>::empty()
    } else {
        ",\"createdIds\":{"@ + created_ids_json(r.created_ids@) + "}"@
    }) + (match r.request_id {
        Option::None => Seq::<char>::empty(),
        Option::Some(id) => ",\"requestId\":"@ + crate::text::json_string_of(id@),
    }) + "}"@
}

/// The name of each object type on the wire.
pub open spec fn type_state_name(t: TypeState) -> Seq<char> {
    match t {
        TypeState::Email => "Email"@,
        TypeState::Mailbox => "Mailbox"@,
        TypeState::Thread => "Thread"@,
        TypeState::EmailDelivery => "EmailDelivery"@,
    }
}

/// A state on the wire: `n` before any change, else the change id in
/// hexadecimal.
pub open spec fn state_text(s: crate::types::State) -> Seq<char> {
    match s {
        crate::types::State::Initial => "n"@,
        crate::types::State::Exact(c) => crate::text::hex_of(c as int),
    }
}

/// One account's object-type states, joined by commas.
pub open spec fn type_changes_json(s: Seq<(TypeState, crate::types::State)>) -> Seq<char>
    decreases s.len(),
{
    if s.len() == 0 {
        Seq::empty()
    } else {
        let entry = seq!['"'] + type_state_name(s.last().0) + seq!['"', ':', '"'] + state_text(
            s.last().1,
        ) + seq!['"'];
        if s.len() == 1 {
            entry
        } else {
            type_changes_json(s.drop_last()) + seq![','] + entry
        }
    }
}

/// The changed mapping, account ids in hexadecimal to their object-type
/// states.
pub open spec fn changed_json(s: Seq<(crate::types::Id, Vec<(TypeState, crate::types::State)>)>) -> Seq<
    char,
>
    decreases s.len(),
{
    if s.len() == 0 {
        Seq::empty()
    } else {
        let entry = seq!['"'] + crate::text::hex_of(s.last().0.id as int) + seq!['"', ':', '{']
            + type_changes_json(s.last().1@) + seq!['}'];
        if s.len() == 1 {
            entry
        } else {
            changed_json(s.drop_last()) + seq![','] + entry
        }
    }
}

/// The exact JSON text of an outbound state-change notification.
pub open spec fn state_change_json(sc: WebSocketStateChange) -> Seq<char> {
    "{\"@type\":\"StateChange\",\"changed\":{"@ + changed_json(sc.changed@) + "}"@ + (
    match sc.push_state {
        Option::None => Seq::<char>::empty(),
        Option::Some(ps) => ",\"pushState\":"@ + crate::text::json_string_of(ps@),
    }) + "}"@
}

impl WebSocketRequestError {
    /// Serialize this error object, byte for byte as
    /// `request_error_json` states.
    pub fn to_json(&self) -> (r: String)
        ensures
            r@ == request_error_json(*self),
    {
        let mut out = String::new();
        out.append("{\"@type\":\"RequestError\",\"type\":\"");
        let tag: &str = match self.p_type {
            RequestErrorType::Limit => "urn:ietf:params:jmap:error:limit",
            RequestErrorType::NotRequest => "urn:ietf:params:jmap:error:notRequest",
            RequestErrorType::NotJson => "urn:ietf:params:jmap:error:notJSON",
            RequestErrorType::OverBlobQuota => "overBlobQuota",
            RequestErrorType::Internal => "serverFail",
        };
        out.append(tag);
        out.append("\"");
        match &self.limit {
            Option::None => {},
            Option::Some(k) => {
                out.append(",\"limit\":\"");
                let lt: &str = match k {
                    RequestLimitError::SizeRequest => "maxSizeRequest",
                    RequestLimitError::CallsIn => "maxCallsInRequest",
                    RequestLimitError::ConcurrentUpload => "maxConcurrentUpload",
                };
                out.append(lt);
                out.append("\"");
            },
        }
        out.append(",\"status\":");
        crate::text::append_u64_dec(&mut out, self.status as u64);
        out.append(",\"detail\":");
        crate::text::append_json_string(&mut out, self.detail.as_str());
        match &self.request_id {
            Option::None => {},
            Option::Some(id) => {
                out.append(",\"requestId\":");
                crate::text::append_json_string(&mut out, id.as_str());
            },
        }
        out.append("}");
        proof {
            assert(out@ =~= request_error_json(*self));
        }
        out
    }
}

impl WebSocketResponse {
    /// Serialize this response wrapper, byte for byte as `response_json`
    /// states.
    #[verifier::loop_isolation(false)]
    pub fn to_json(&self) -> (r: String)
        ensures
            r@ == response_json(*self),
    {
        let mut out = String::new();
        out.append("{\"@type\":\"Response\",\"methodResponses\":[");
        let ghost base = out@;
        let mut i: usize = 0;
        proof {
            assert(self.method_responses@.subrange(0, 0) =~= Seq::<String>::empty());
            assert(out@ =~= base + raw_joined(self.method_responses@.subrange(0, 0)));
        }
        while i < self.method_responses.len()
            invariant
                i <= self.method_responses@.len(),
                out@ == base + raw_joined(self.method_responses@.subrange(0, i as int)),
            decreases self.method_responses@.len() - i,
        {
            if i > 0 {
                out.append(",");
                proof {
                    reveal_strlit(",");
                    assert(","@ =~= seq![',']);
                }
            }
            out.append(self.method_responses[i].as_str());
            proof {
                assert(self.method_responses@.subrange(0, i as int + 1).drop_last()
                    =~= self.method_responses@.subrange(0, i as int));
                assert(self.method_responses@.subrange(0, i as int + 1).last()
                    == self.method_responses@[i as int]);
                assert(out@ =~= base + raw_joined(
                    self.method_responses@.subrange(0, i as int + 1),
                ));
            }
            i = i + 1;
        }
        proof {
            assert(self.method_responses@.subrange(0, self.method_responses@.len() as int)
                =~= self.method_responses@);
        }
        out.append("],\"sessionState\":\"");
        crate::text::append_u64_hex(&mut out, self.session_state as u64);
        out.append("\"");
        if self.created_ids.len() > 0 {
            out.append(",\"createdIds\":{");
            let ghost cbase = out@;
            let mut k: usize = 0;
            proof {
                assert(self.created_ids@.subrange(0, 0) =~= Seq::<(String, crate::types::Id)>::empty());
                assert(out@ =~= cbase + created_ids_json(self.created_ids@.subrange(0, 0)));
            }
            while k < self.created_ids.len()
                invariant
                    k <= self.created_ids@.len(),
                    out@ == cbase + created_ids_json(self.created_ids@.subrange(0, k as int)),
                decreases self.created_ids@.len() - k,
            {
                if k > 0 {
                    out.append(",");
                    proof {
                        reveal_strlit(",");
                        assert(","@ =~= seq![',']);
                    }
                }
                crate::text::append_json_string(&mut out, self.created_ids[k].0.as_str());
                out.append(":\"");
                crate::text::append_u64_hex(&mut out, self.created_ids[k].1.id);
                out.append("\"");
                proof {
                    reveal_strlit(":\"");
                    reveal_strlit("\"");
                    assert(":\""@ =~= seq![':', '"']);
                    assert("\""@ =~= seq!['"']);
                    assert(self.created_ids@.subrange(0, k as int + 1).drop_last()
                        =~= self.created_ids@.subrange(0, k as int));
                    assert(self.created_ids@.subrange(0, k as int + 1).last()
                        == self.created_ids@[k as int]);
                    assert(out@ =~= cbase + created_ids_json(
                        self.created_ids@.subrange(0, k as int + 1),
                    ));
                }
                k = k + 1;
            }
            proof {
                assert(self.created_ids@.subrange(0, self.created_ids@.len() as int)
                    =~= self.created_ids@);
            }
            out.append("}");
        }
        match &self.request_id {
            Option::None => {},
            Option::Some(id) => {
                out.append(",\"requestId\":");
                crate::text::append_json_string(&mut out, id.as_str());
            },
        }
        out.append("}");
        proof {
            assert(out@ =~= response_json(*self));
        }
        out
    }
}

impl WebSocketStateChange {
    /// Serialize this state-change notification, byte for byte as
    /// `state_change_json` states.
    #[verifier::loop_isolation(false)]
    #[verifier::rlimit(100)]
    pub fn to_json(&self) -> (r: String)
        ensures
            r@ == state_change_json(*self),
    {
        let mut out = String::new();
        out.append("{\"@type\":\"StateChange\",\"changed\":{");
        let ghost base = out@;
        let mut i: usize = 0;
        proof {
            assert(self.changed@.subrange(0, 0) =~= Seq::<
                (crate::types::Id, Vec<(TypeState, crate::types::State)>),
            >::empty());
            assert(out@ =~= base + changed_json(self.changed@.subrange(0, 0)));
        }
        while i < self.changed.len()
            invariant
                i <= self.changed@.len(),
                out@ == base + changed_json(self.changed@.subrange(0, i as int)),
            decreases self.changed@.len() - i,
        {
            if i > 0 {
                out.append(",");
                proof {
                    reveal_strlit(",");
                    assert(","@ =~= seq![',']);
                }
            }
            out.append("\"");
            crate::text::append_u64_hex(&mut out, self.changed[i].0.id);
            out.append("\":{");
            let ghost ibase = out@;
            let mut k: usize = 0;
            proof {
                reveal_strlit("\"");
                reveal_strlit("\":{");
                assert("\""@ =~= seq!['"']);
                assert("\":{"@ =~= seq!['"', ':', '{']);
                assert(self.changed@[i as int].1@.subrange(0, 0) =~= Seq::<
                    (TypeState, crate::types::State),
                >::empty());
                assert(out@ =~= ibase + type_changes_json(
                    self.changed@[i as int].1@.subrange(0, 0),
                ));
            }
            while k < self.changed[i].1.len()
                invariant
                    i < self.changed@.len(),
                    k <= self.changed@[i as int].1@.len(),
                    out@ == ibase + type_changes_json(
                        self.changed@[i as int].1@.subrange(0, k as int),
                    ),
                decreases self.changed@[i as int].1@.len() - k,
            {
                if k > 0 {
                    out.append(",");
                    proof {
                        reveal_strlit(",");
                        assert(","@ =~= seq![',']);
                    }
                }
                out.append("\"");
                let name: &str = match self.changed[i].1[k].0 {
                    TypeState::Email => "Email",
                    TypeState::Mailbox => "Mailbox",
                    TypeState::Thread => "Thread",
                    TypeState::EmailDelivery => "EmailDelivery",
                };
                out.append(name);
                out.append("\":\"");
                match self.changed[i].1[k].1 {
                    crate::types::State::Initial => {
                        out.append("n");
                    },
                    crate::types::State::Exact(c) => {
                        crate::text::append_u64_hex(&mut out, c);
                    },
                }
                out.append("\"");
                proof {
                    reveal_strlit("\"");
                    reveal_strlit("\":\"");
                    assert("\""@ =~= seq!['"']);
                    assert("\":\""@ =~= seq!['"', ':', '"']);
                    assert(self.changed@[i as int].1@.subrange(0, k as int + 1).drop_last()
                        =~= self.changed@[i as int].1@.subrange(0, k as int));
                    assert(self.changed@[i as int].1@.subrange(0, k as int + 1).last()
                        == self.changed@[i as int].1@[k as int]);
                    assert(out@ =~= ibase + type_changes_json(
                        self.changed@[i as int].1@.subrange(0, k as int + 1),
                    ));
                }
                k = k + 1;
            }
            proof {
                assert(self.changed@[i as int].1@.subrange(
                    0,
                    self.changed@[i as int].1@.len() as int,
                ) =~= self.changed@[i as int].1@);
            }
            out.append("}");
            proof {
                reveal_strlit("}");
                assert("}"@ =~= seq!['}']);
                assert(self.changed@.subrange(0, i as int + 1).drop_last() =~= self.changed@
                    .subrange(0, i as int));
                assert(self.changed@.subrange(0, i as int + 1).last() == self.changed@[i as int]);
                assert(out@ =~= base + changed_json(self.changed@.subrange(0, i as int + 1)));
            }
            i = i + 1;
        }
        proof {
            assert(self.changed@.subrange(0, self.changed@.len() as int) =~= self.changed@);
        }
        out.append("}");
        match &self.push_state {
            Option::None => {},
            Option::Some(ps) => {
                out.append(",\"pushState\":");
                crate::text::append_json_string(&mut out, ps.as_str());
            },
        }
        out.append("}");
        proof {
            assert(out@ =~= state_change_json(*self));
        }
        out
    }
}

} // verus!

