//! The event protocol's subscription modes: how a payload is re-encoded for
//! a subscriber that asked for strings, bytes or structured values.
use crate::protocol::{lossy_text, text_from_utf8_lossy};
use vstd::prelude::*;

verus! {

#[verifier::external_type_specification]
#[verifier::external_body]
pub struct ExValue(rmpv::Value);

/// How a subscriber wants its payloads.
#[derive(PartialEq, Eq, Structural, Clone, Copy, Debug)]
pub enum SubscriptionMode {
    /// As text, invalid UTF-8 replaced.
    String,
    /// As the bytes themselves.
    Binary,
    /// As the structured value that the payload's JSON text describes; as
    /// text where it describes none.
    Json,
}

impl Default for SubscriptionMode {
    fn default() -> (r: SubscriptionMode)
        ensures
            r == SubscriptionMode::String,
    {
        SubscriptionMode::String
    }
}

/// A subscribe request: the topic name and the mode.
pub struct SubscribeData(pub String, pub SubscriptionMode);

/// A payload as it goes out to an event-protocol subscriber.
pub enum Delivery {
    Binary(Vec<u8>),
    Text(String),
    Structured(rmpv::Value),
}

/// Whether some bytes are one JSON document, as `serde_json` reads them.
pub uninterp spec fn parses_as_json(b: Seq<u8>) -> bool;

/// Relies on `serde_json::from_slice` into `rmpv::Value`: a value exactly
/// where the bytes are one JSON document.
#[verifier::external_body]
fn parse_structured(b: &[u8]) -> (r: Option<rmpv::Value>)
    ensures
        r is Some <==> parses_as_json(b@),
{
    serde_json::from_slice::<rmpv::Value>(b).ok()
}

/// The delivery of a payload in a mode, given what reading it as JSON gave
/// (`None` where it is no JSON document): structured only in `Json` mode and
/// only where it was read; else bytes in `Binary` mode, else text.
pub fn choose_delivery(payload: &Vec<u8>, mode: SubscriptionMode, parsed: Option<rmpv::Value>) -> (r: Delivery)
    ensures
        mode == SubscriptionMode::Binary ==> (r matches Delivery::Binary(b) && b@ == payload@),
        mode == SubscriptionMode::Json && parsed is Some ==> (r matches Delivery::Structured(v)
            && parsed == Some(v)),
        (mode == SubscriptionMode::String || (mode == SubscriptionMode::Json && parsed is None))
            ==> (r matches Delivery::Text(t) && t@ == lossy_text(payload@)),
{
    match mode {
        SubscriptionMode::Binary => Delivery::Binary(payload.clone()),
        SubscriptionMode::String => Delivery::Text(text_from_utf8_lossy(payload.as_slice())),
        SubscriptionMode::Json => match parsed {
            Some(v) => Delivery::Structured(v),
            None => Delivery::Text(text_from_utf8_lossy(payload.as_slice())),
        },
    }
}

/// How a payload goes out in a mode: in `Json` mode it is read as JSON, and
/// where it is none it goes out as text.
pub fn encode_delivery(payload: &Vec<u8>, mode: SubscriptionMode) -> (r: Delivery)
    ensures
        mode == SubscriptionMode::Binary ==> (r matches Delivery::Binary(b) && b@ == payload@),
        mode == SubscriptionMode::Json && parses_as_json(payload@) ==> r is Structured,
        (mode == SubscriptionMode::String || (mode == SubscriptionMode::Json && !parses_as_json(
            payload@,
        ))) ==> (r matches Delivery::Text(t) && t@ == lossy_text(payload@)),
{
    let parsed = match mode {
        SubscriptionMode::Json => parse_structured(payload.as_slice()),
        _ => None,
    };
    choose_delivery(payload, mode, parsed)
}

} // verus!
