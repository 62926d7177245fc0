//! The decisions the protocol adapters make around the registry: which kind
//! of request a read is, how a payload is framed for each kind of consumer,
//! and what an incoming message publishes.
use vstd::prelude::*;
use vstd::string::StringSliceAdditionalSpecFns;
use vstd::utf8::{decode_utf8, encode_utf8, valid_utf8};

verus! {

/// How a read request is served.
#[derive(PartialEq, Eq, Structural, Clone, Copy, Debug)]
pub enum RequestKind {
    /// The latest value, once.
    Plain,
    /// Every later payload, as a stream of events.
    EventStream,
    /// A two-way connection that publishes what it receives and forwards what
    /// the topic carries.
    Duplex,
}

pub open spec fn ascii_lower(b: u8) -> u8 {
    if 65 <= b <= 90 {
        (b + 32) as u8
    } else {
        b
    }
}

/// `pat` (lower case) stands in `h` at `at`, letters compared without case.
pub open spec fn token_at(h: Seq<u8>, pat: Seq<u8>, at: int) -> bool {
    &&& 0 <= at
    &&& at + pat.len() <= h.len()
    &&& forall|j: int| 0 <= j < pat.len() ==> ascii_lower(#[trigger] h[at + j]) == pat[j]
}

pub open spec fn holds_token(h: Seq<u8>, pat: Seq<u8>) -> bool {
    exists|at: int| token_at(h, pat, at)
}

/// The bytes of `text/event-stream`.
pub open spec fn event_stream_token() -> Seq<u8> {
    seq![116u8, 101, 120, 116, 47, 101, 118, 101, 110, 116, 45, 115, 116, 114, 101, 97, 109]
}

/// The bytes of `true`.
pub open spec fn true_token() -> Seq<u8> {
    seq![116u8, 114, 117, 101]
}

fn token_at_exec(h: &[u8], pat: &Vec<u8>, at: usize) -> (r: bool)
    requires
        at + pat@.len() <= h@.len(),
    ensures
        r == token_at(h@, pat@, at as int),
{
    let n = h.len();
    let mut j: usize = 0;
    while j < pat.len()
        invariant
            n == h@.len(),
            at + pat@.len() <= h@.len(),
            j <= pat@.len(),
            forall|k: int| 0 <= k < j ==> ascii_lower(#[trigger] h@[at + k]) == pat@[k],
        decreases pat@.len() - j,
    {
        let b = h[at + j];
        let lower = if 65 <= b && b <= 90 { b + 32 } else { b };
        if lower != pat[j] {
            return false;
        }
        j = j + 1;
    }
    true
}

fn find_token(h: &[u8], pat: &Vec<u8>) -> (r: bool)
    requires
        pat@.len() > 0,
    ensures
        r == holds_token(h@, pat@),
{
    if pat.len() > h.len() {
        proof {
            assert forall|at: int| !token_at(h@, pat@, at) by {}
        }
        return false;
    }
    let last = h.len() - pat.len();
    let mut at: usize = 0;
    while at <= last
        invariant
            last == h@.len() - pat@.len(),
            last < h@.len(),
            h@.len() <= usize::MAX,
            pat@.len() > 0,
            forall|k: int| 0 <= k < at ==> !#[trigger] token_at(h@, pat@, k),
        decreases last + 1 - at,
    {
        if token_at_exec(h, pat, at) {
            return true;
        }
        at = at + 1;
    }
    proof {
        assert forall|k: int| !#[trigger] token_at(h@, pat@, k) by {
            if 0 <= k < at {
            }
        }
    }
    false
}

/// Whether a request asks for an event stream: its `Accept` header, if it
/// has one, names `text/event-stream`, in any case of letters.
pub fn is_sse_request(accept: Option<&str>) -> (r: bool)
    ensures
        r == (accept matches Some(a) && holds_token(a.spec_bytes(), event_stream_token())),
{
    match accept {
        None => false,
        Some(a) => {
            let pat: Vec<u8> = vec![116u8, 101, 120, 116, 47, 101, 118, 101, 110, 116, 45, 115, 116, 114, 101, 97, 109];
            assert(pat@ =~= event_stream_token());
            find_token(a.as_bytes(), &pat)
        },
    }
}

/// Whether a request asks to become a two-way connection: its `Connection`
/// header lists `upgrade` and its `Upgrade` header is `websocket`. Each is
/// `None` where the header is missing.
pub fn is_ws_request(connection_upgrade: Option<bool>, upgrade_websocket: Option<bool>) -> (r: bool)
    ensures
        r == (connection_upgrade == Some(true) && upgrade_websocket == Some(true)),
{
    match (connection_upgrade, upgrade_websocket) {
        (Some(c), Some(u)) => c && u,
        _ => false,
    }
}

/// The one place where a read request's kind is decided: an event stream
/// where asked for, else a two-way connection where asked for, else plain.
pub fn classify_request(event_stream: bool, websocket: bool) -> (r: RequestKind)
    ensures
        event_stream ==> r == RequestKind::EventStream,
        !event_stream && websocket ==> r == RequestKind::Duplex,
        !event_stream && !websocket ==> r == RequestKind::Plain,
{
    if event_stream {
        RequestKind::EventStream
    } else if websocket {
        RequestKind::Duplex
    } else {
        RequestKind::Plain
    }
}

/// Whether a connection's `binary` parameter asks for binary frames: `1`,
/// or `true` in any case of letters.
pub fn binary_flag(value: Option<&str>) -> (r: bool)
    ensures
        r == (value matches Some(v) && (v.spec_bytes() == seq![49u8] || (v.spec_bytes().len() == 4
            && token_at(v.spec_bytes(), true_token(), 0)))),
{
    match value {
        None => false,
        Some(v) => {
            let b = v.as_bytes();
            if b.len() == 1 && b[0] == 49 {
                assert(b@ =~= seq![49u8]);
                true
            } else if b.len() == 4 {
                let pat: Vec<u8> = vec![116u8, 114, 117, 101];
                assert(pat@ =~= true_token());
                token_at_exec(b, &pat, 0)
            } else {
                false
            }
        },
    }
}

/// Carriage returns become line feeds; where `collapse` is set, a carriage
/// return right before a line feed is dropped instead.
pub open spec fn normalize_newlines(s: Seq<u8>, collapse: bool) -> Seq<u8>
    decreases s.len(),
{
    if s.len() == 0 {
        s
    } else if collapse && s.len() >= 2 && s[0] == 13 && s[1] == 10 {
        seq![10u8] + normalize_newlines(s.skip(2), collapse)
    } else if s[0] == 13 {
        seq![10u8] + normalize_newlines(s.skip(1), collapse)
    } else {
        seq![s[0]] + normalize_newlines(s.skip(1), collapse)
    }
}

/// What decoding bytes as UTF-8 gives: the text where they are valid.
pub open spec fn utf8_text(b: Seq<u8>) -> Option<Seq<char>> {
    if valid_utf8(b) {
        Some(decode_utf8(b))
    } else {
        None
    }
}

pub open spec fn opt_text(o: Option<String>) -> Option<Seq<char>> {
    match o {
        Some(s) => Some(s@),
        None => None,
    }
}

/// Relies on `String::from_utf8`: the text where the bytes are valid UTF-8,
/// an error otherwise.
#[verifier::external_body]
fn text_from_utf8(b: Vec<u8>) -> (r: Option<String>)
    ensures
        opt_text(r) == utf8_text(b@),
{
    String::from_utf8(b).ok()
}

/// What `String::from_utf8_lossy` makes of some bytes.
pub uninterp spec fn lossy_text(b: Seq<u8>) -> Seq<char>;

/// Relies on `String::from_utf8_lossy`: the text itself where the bytes are
/// valid UTF-8; each invalid sequence replaced otherwise.
#[verifier::external_body]
pub(crate) fn text_from_utf8_lossy(b: &[u8]) -> (r: String)
    ensures
        r@ == lossy_text(b@),
        valid_utf8(b@) ==> r@ == decode_utf8(b@),
{
    String::from_utf8_lossy(b).to_string()
}

/// Rewrites carriage returns as `normalize_newlines` says.
pub fn normalize_newline_bytes(payload: &[u8], collapse: bool) -> (r: Vec<u8>)
    ensures
        r@ == normalize_newlines(payload@, collapse),
{
    let s = Ghost(payload@);
    let n = payload.len();
    let mut out: Vec<u8> = Vec::new();
    let mut i: usize = 0;
    proof {
        assert(s@.skip(0) =~= s@);
        assert(out@ + normalize_newlines(s@, collapse) =~= normalize_newlines(s@, collapse));
    }
    while i < n
        invariant
            n == s@.len(),
            s@ == payload@,
            i <= n,
            out@ + normalize_newlines(s@.skip(i as int), collapse) == normalize_newlines(s@, collapse),
        decreases n - i,
    {
        let rest = Ghost(s@.skip(i as int));
        let b = payload[i];
        if collapse && i + 1 < n && b == 13 && payload[i + 1] == 10 {
            proof {
                assert(rest@.skip(2) =~= s@.skip(i + 2));
            }
            out.push(10);
            i = i + 2;
            proof {
                assert(out@ + normalize_newlines(s@.skip(i as int), collapse) =~= normalize_newlines(s@, collapse));
            }
        } else {
            proof {
                assert(rest@.skip(1) =~= s@.skip(i + 1));
                assert(rest@[0] == b);
            }
            if b == 13 {
                out.push(10);
            } else {
                out.push(b);
            }
            i = i + 1;
            proof {
                assert(out@ + normalize_newlines(s@.skip(i as int), collapse) =~= normalize_newlines(s@, collapse));
            }
        }
    }
    proof {
        assert(s@.skip(n as int) =~= Seq::<u8>::empty());
        assert(out@ + Seq::<u8>::empty() =~= out@);
    }
    out
}

/// The text of one stream event for a payload: its carriage returns
/// rewritten, then read as UTF-8. `None` where it is not valid UTF-8, and
/// such a payload is not sent.
pub fn sse_event_data(payload: &[u8], collapse_crlf: bool) -> (r: Option<String>)
    ensures
        opt_text(r) == utf8_text(normalize_newlines(payload@, collapse_crlf)),
{
    let bytes = normalize_newline_bytes(payload, collapse_crlf);
    text_from_utf8(bytes)
}

/// The bytes of a text, in UTF-8.
pub fn text_bytes(t: &str) -> (r: Vec<u8>)
    ensures
        r@ == t.spec_bytes(),
{
    let b = t.as_bytes();
    let n = b.len();
    let mut out: Vec<u8> = Vec::with_capacity(n);
    let mut i: usize = 0;
    while i < n
        invariant
            n == b@.len(),
            i <= n,
            out@ == b@.subrange(0, i as int),
        decreases n - i,
    {
        out.push(b[i]);
        i = i + 1;
    }
    assert(b@.subrange(0, n as int) =~= b@);
    out
}

/// A frame that a two-way connection receives.
pub enum InboundFrame {
    Binary(Vec<u8>),
    Text(String),
    /// A control frame: ping, pong or close.
    Other,
}

/// A frame that a two-way connection sends.
pub enum OutboundFrame {
    Binary(Vec<u8>),
    Text(String),
}

/// What a received frame publishes: a binary frame its bytes, a text frame
/// the bytes of its text; a control frame nothing.
pub fn ws_inbound(frame: InboundFrame) -> (r: Option<Vec<u8>>)
    ensures
        match frame {
            InboundFrame::Binary(b) => r matches Some(p) && p@ == b@,
            InboundFrame::Text(t) => r matches Some(p) && p@ == encode_utf8(t@),
            InboundFrame::Other => r is None,
        },
{
    match frame {
        InboundFrame::Binary(b) => Some(b),
        InboundFrame::Text(t) => Some(text_bytes(t.as_str())),
        InboundFrame::Other => None,
    }
}

/// How a payload is forwarded: as a binary frame where binary frames were
/// asked for, else as a text frame, with invalid UTF-8 replaced.
pub fn ws_outbound(payload: Vec<u8>, binary: bool) -> (r: OutboundFrame)
    ensures
        binary ==> (r matches OutboundFrame::Binary(b) && b@ == payload@),
        !binary ==> (r matches OutboundFrame::Text(t) && t@ == lossy_text(payload@)),
{
    if binary {
        OutboundFrame::Binary(payload)
    } else {
        OutboundFrame::Text(text_from_utf8_lossy(payload.as_slice()))
    }
}

/// A value that an event-protocol client sends as a message, as the
/// library reads it.
pub enum IncomingValue {
    Binary(Vec<u8>),
    /// A string; `None` where its bytes are not valid UTF-8.
    Text(Option<String>),
    /// Any other value, already written out as text.
    Other(String),
}

/// What an event-protocol message publishes: the bytes of a binary value,
/// the text of a string (nothing where it was not valid UTF-8), and the
/// written-out form of any other value.
pub fn message_payload(value: IncomingValue) -> (r: Vec<u8>)
    ensures
        match value {
            IncomingValue::Binary(b) => r@ == b@,
            IncomingValue::Text(Some(t)) => r@ == encode_utf8(t@),
            IncomingValue::Text(None) => r@.len() == 0,
            IncomingValue::Other(t) => r@ == encode_utf8(t@),
        },
{
    match value {
        IncomingValue::Binary(b) => b,
        IncomingValue::Text(Some(t)) => text_bytes(t.as_str()),
        IncomingValue::Text(None) => Vec::new(),
        IncomingValue::Other(t) => text_bytes(t.as_str()),
    }
}

} // verus!
