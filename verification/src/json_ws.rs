//! The JSON-envelope request/reply WebSocket protocol: reply framing and reply classification.
//!
//! Each inbound text frame is a `{"dest": .., "id": .., "payload": ..}` call; each reply is a
//! `{"dest": .., "id": .., "ok": ..}` or `{"dest": .., "id": .., "error": ..}` frame echoing the
//! request's `id`, so a client can correlate replies. Only correlated calls (with an `id`) get an
//! error reply, and only application errors show their own text to the peer.
use vstd::prelude::*;

use crate::text::{decimal, decimal_string, owned};

verus! {

/// Remote error status returned by a JSON WebSocket peer.
#[derive(Debug, Clone, Copy, PartialEq, Eq, Structural)]
pub enum JsonWsStatus {
    /// The peer returned an application or protocol error envelope.
    Error,
}

/// JSON body codec used by generated message clients and handlers for the JSON protocol.
pub struct JsonWsCodec;

/// Why dispatching one inbound message failed.
pub enum WsDispatchError {
    /// No handler is registered for the destination.
    NotFound(String),
    /// The per-message scope or a handler dependency could not be provided.
    Inject(String),
    /// The handler failed with an error meant for the caller.
    Application(String),
    /// The handler's reply could not be encoded.
    Encode(String),
}

/// The text a peer is shown for a dispatch failure.
pub open spec fn public_message_spec(e: WsDispatchError) -> Seq<char> {
    match e {
        WsDispatchError::NotFound(_) => "no handler for destination"@,
        WsDispatchError::Application(m) => m@,
        WsDispatchError::Inject(_) => "internal error"@,
        WsDispatchError::Encode(_) => "internal error"@,
    }
}

impl WsDispatchError {
    /// The text safe to show a peer: an application error's own text, a fixed phrase otherwise,
    /// so internal details (dependency names, encoder errors) never leave the server.
    pub fn public_message(&self) -> (r: String)
        ensures
            r@ == public_message_spec(*self),
    {
        match self {
            WsDispatchError::NotFound(_) => owned("no handler for destination"),
            WsDispatchError::Application(m) => owned(m.as_str()),
            WsDispatchError::Inject(_) => owned("internal error"),
            WsDispatchError::Encode(_) => owned("internal error"),
        }
    }
}

/// A handler's outcome: no reply (send mode) or the JSON text of one reply body.
pub struct WsReply(pub Option<String>);

/// The JSON string literal `serde_json` writes for a text (quoted and escaped).
pub open spec fn json_string_literal(s: Seq<char>) -> Seq<char> {
    seq!['"'] + json_escape(s) + seq!['"']
}

/// A lowercase hexadecimal digit.
pub open spec fn hex_digit(d: u32) -> char {
    seq!['0', '1', '2', '3', '4', '5', '6', '7', '8', '9', 'a', 'b', 'c', 'd', 'e', 'f'][d as int]
}

/// How `serde_json` writes one character inside a string: a quote and a backslash are
/// preceded by a backslash, U+0008, U+000C, U+000A, U+000D and U+0009 become the short escapes
/// `b`, `f`, `n`, `r` and `t` after a backslash, the other control characters below U+0020
/// become `u00` and two lowercase hexadecimal digits after a backslash, and every other
/// character is written as itself.
pub open spec fn json_escape_char(c: char) -> Seq<char> {
    let n = c as u32;
    if c == '"' {
        seq!['\\', '"']
    } else if c == '\\' {
        seq!['\\', '\\']
    } else if n == 0x08 {
        seq!['\\', 'b']
    } else if n == 0x0C {
        seq!['\\', 'f']
    } else if n == 0x0A {
        seq!['\\', 'n']
    } else if n == 0x0D {
        seq!['\\', 'r']
    } else if n == 0x09 {
        seq!['\\', 't']
    } else if n < 0x20 {
        seq!['\\', 'u', '0', '0', hex_digit(n / 16), hex_digit(n % 16)]
    } else {
        seq![c]
    }
}

/// The escaped contents of a JSON string.
pub open spec fn json_escape(s: Seq<char>) -> Seq<char>
    decreases s.len(),
{
    if s.len() == 0 {
        Seq::empty()
    } else {
        json_escape_char(s[0]) + json_escape(s.drop_first())
    }
}

/// `serde_json::to_string` on a `&str`: the quoted, escaped JSON string. Writing a string into
/// memory cannot fail in `serde_json` (its only errors there come from the writer), so the error
/// arm is unreachable.
#[verifier::external_body]
pub(crate) fn json_string(s: &str) -> (r: String)
    ensures
        r@ == json_string_literal(s@),
{
    match serde_json::to_string(s) {
        Ok(text) => text,
        Err(_) => String::new(),
    }
}

/// The body of a reply frame: the JSON text of a success value, or an error message already
/// rendered as a JSON string.
pub enum FrameBody {
    Value(String),
    Failure(String),
}

/// The JSON text a frame body carries.
pub open spec fn body_json(b: FrameBody) -> Seq<char> {
    match b {
        FrameBody::Value(v) => v@,
        FrameBody::Failure(m) => m@,
    }
}

/// The JSON text of a reply frame, given the JSON string of its destination: the member is
/// `ok` for a success value and `error` for a failure.
pub open spec fn frame_text(dest_json: Seq<char>, id: Option<u64>, ok: bool, body: Seq<char>) -> Seq<
    char,
> {
    let id_part = match id {
        Some(n) => ",\"id\":"@ + decimal(n as nat),
        None => Seq::empty(),
    };
    let key = if ok {
        ",\"ok\":"@
    } else {
        ",\"error\":"@
    };
    "{\"dest\":"@ + dest_json + id_part + key + body + "}"@
}

/// Assembles a reply frame from the JSON string of its destination, the optional correlation
/// `id` and the body: `{"dest":<dest>[,"id":<id>],"ok":<value>}` or `..,"error":<message>}`.
pub fn reply_frame(dest_json: &str, id: Option<u64>, body: FrameBody) -> (r: String)
    ensures
        r@ == frame_text(dest_json@, id, body is Value, body_json(body)),
{
    let ghost gbody = body;
    let mut r = owned("{\"dest\":");
    r.append(dest_json);
    match id {
        Some(n) => {
            r.append(",\"id\":");
            let digits = decimal_string(n);
            r.append(digits.as_str());
        },
        None => {},
    }
    match body {
        FrameBody::Value(v) => {
            r.append(",\"ok\":");
            r.append(v.as_str());
        },
        FrameBody::Failure(m) => {
            r.append(",\"error\":");
            r.append(m.as_str());
        },
    }
    r.append("}");
    proof {
        assert(r@ =~= frame_text(dest_json@, id, gbody is Value, body_json(gbody)));
    }
    r
}

/// The JSON text of a call frame: `{"dest":<dest>,"id":<id or null>,"payload":<payload>}`.
pub open spec fn call_frame_text(dest: Seq<char>, id: Option<u64>, payload: Seq<char>) -> Seq<char> {
    let id_text = match id {
        Some(n) => decimal(n as nat),
        None => "null"@,
    };
    "{\"dest\":"@ + json_string_literal(dest) + ",\"id\":"@ + id_text + ",\"payload\":"@ + payload + "}"@
}

/// Frames an outbound call from its destination, its correlation `id` (a request has one, a
/// send has none) and the JSON text of its payload.
pub fn call_frame(dest: &str, id: Option<u64>, payload_json: &str) -> (r: String)
    ensures
        r@ == call_frame_text(dest@, id, payload_json@),
{
    let mut r = owned("{\"dest\":");
    let quoted = json_string(dest);
    r.append(quoted.as_str());
    r.append(",\"id\":");
    match id {
        Some(n) => {
            let digits = decimal_string(n);
            r.append(digits.as_str());
        },
        None => r.append("null"),
    }
    r.append(",\"payload\":");
    r.append(payload_json);
    r.append("}");
    proof {
        assert(r@ =~= call_frame_text(dest@, id, payload_json@));
    }
    r
}

/// The reply (if any) to a dispatched call: nothing for a send-mode success, an `ok` frame for a
/// reply body, and an `error` frame carrying the failure's public message only when the call
/// was correlated by an `id`.
pub open spec fn reply_spec(
    dest: Seq<char>,
    id: Option<u64>,
    result: Result<WsReply, WsDispatchError>,
) -> Option<Seq<char>> {
    match result {
        Ok(WsReply(None)) => None,
        Ok(WsReply(Some(v))) => Some(frame_text(json_string_literal(dest), id, true, v@)),
        Err(e) => if id is None {
            None
        } else {
            Some(
                frame_text(
                    json_string_literal(dest),
                    id,
                    false,
                    json_string_literal(public_message_spec(e)),
                ),
            )
        },
    }
}

/// Renders a dispatch result into its reply frame, correlating the request `id`.
pub fn render_reply(dest: &str, id: Option<u64>, result: Result<WsReply, WsDispatchError>) -> (r:
    Option<String>)
    ensures
        match (r, reply_spec(dest@, id, result)) {
            (Some(t), Some(u)) => t@ == u,
            (None, None) => true,
            _ => false,
        },
{
    match result {
        Ok(WsReply(None)) => None,
        Ok(WsReply(Some(value))) => {
            let dest_json = json_string(dest);
            Some(reply_frame(dest_json.as_str(), id, FrameBody::Value(value)))
        },
        Err(error) => {
            if id.is_none() {
                return None;
            }
            let message = error.public_message();
            let message_json = json_string(message.as_str());
            let dest_json = json_string(dest);
            Some(reply_frame(dest_json.as_str(), id, FrameBody::Failure(message_json)))
        },
    }
}

/// A failure other than an application error is answered the same whatever its internal text:
/// the peer learns only that the destination is unknown or that an internal error occurred.
pub proof fn law_internal_failures_are_redacted(
    dest: Seq<char>,
    id: Option<u64>,
    a: String,
    b: String,
)
    ensures
        reply_spec(dest, id, Err(WsDispatchError::Inject(a))) == reply_spec(
            dest,
            id,
            Err(WsDispatchError::Encode(b)),
        ),
        reply_spec(dest, id, Err(WsDispatchError::Inject(a))) == reply_spec(
            dest,
            id,
            Err(WsDispatchError::Inject(b)),
        ),
        reply_spec(dest, id, Err(WsDispatchError::NotFound(a))) == reply_spec(
            dest,
            id,
            Err(WsDispatchError::NotFound(b)),
        ),
{
}

/// An uncorrelated call (no `id`) is never answered, whatever its outcome.
pub proof fn law_uncorrelated_calls_get_no_reply(
    dest: Seq<char>,
    result: Result<WsReply, WsDispatchError>,
)
    requires
        !(result matches Ok(WsReply(Some(_)))),
    ensures
        reply_spec(dest, None, result) is None,
{
}

/// What a client makes of a parsed reply frame.
pub enum ClientReply {
    /// The JSON text of the `ok` value, to be decoded into the expected type.
    Payload(String),
    /// The peer answered with an error envelope; its message is the error body.
    Remote { status: JsonWsStatus, message: String },
    /// The frame could not be understood.
    Decode(String),
}

/// Classifies a reply frame's `ok` and `error` members: an `error` wins, then an `ok` value;
/// a frame with neither is a decode error.
pub fn classify_reply(ok: Option<String>, error: Option<String>) -> (r: ClientReply)
    ensures
        match error {
            Some(m) => r matches ClientReply::Remote { status, message } && status
                == JsonWsStatus::Error && message@ == m@,
            None => match ok {
                Some(v) => r matches ClientReply::Payload(p) && p@ == v@,
                None => r matches ClientReply::Decode(d) && d@
                    == "ws reply contained neither ok nor error"@,
            },
        },
{
    if let Some(message) = error {
        return ClientReply::Remote { status: JsonWsStatus::Error, message };
    }
    match ok {
        Some(v) => ClientReply::Payload(v),
        None => ClientReply::Decode(owned("ws reply contained neither ok nor error")),
    }
}

/// A frame a client receives.
pub enum ClientFrame {
    /// A text frame.
    Text(String),
    /// A binary frame.
    Binary(Vec<u8>),
}

/// The text of a reply frame. The JSON protocol replies in text only, so a binary frame is a
/// decode error.
pub fn reply_frame_text(frame: ClientFrame) -> (r: Result<String, ClientReply>)
    ensures
        match frame {
            ClientFrame::Text(t) => r matches Ok(s) && s@ == t@,
            ClientFrame::Binary(_) => r matches Err(ClientReply::Decode(d)) && d@
                == "JSON WebSocket reply was binary"@,
        },
{
    match frame {
        ClientFrame::Text(text) => Ok(text),
        ClientFrame::Binary(_) => Err(ClientReply::Decode(owned("JSON WebSocket reply was binary"))),
    }
}

} // verus!
