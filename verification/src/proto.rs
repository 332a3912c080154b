//! The consumed subset of the player's control protocol.
//!
//! Inbound lines are JSON objects; what the tracker reads from them is
//! gathered into [`RawFields`], and [`classify`] turns those plain values
//! into one [`InboundMsg`].  Outbound traffic is three fixed requests issued
//! at startup and one fixed re-query issued after a file loads.

use vstd::prelude::*;

use crate::posfmt::parse_pos;
use crate::posfmt::parse_position;

verus! {

/// Request identifier of the startup path query.
pub const BOOT_QUERY_ID: i64 = 42;

/// Request identifier of the path query issued after a file loads.
pub const LOAD_QUERY_ID: i64 = 1;

/// The `reason` value carried by an end-of-file event.
pub enum EndReason {
    Num(i64),
    Text(Vec<u8>),
    Absent,
}

pub enum ReasonV {
    Num(i64),
    Text(Seq<u8>),
    Absent,
}

impl View for EndReason {
    type V = ReasonV;

    open spec fn view(&self) -> ReasonV {
        match self {
            EndReason::Num(n) => ReasonV::Num(*n),
            EndReason::Text(t) => ReasonV::Text(t@),
            EndReason::Absent => ReasonV::Absent,
        }
    }
}

/// One inbound line, already classified.
pub enum InboundMsg {
    /// A new file began playing; the authoritative path must be re-queried.
    FileLoaded,
    /// Playback stopped, finished or interrupted according to the reason.
    EndFile { reason: EndReason },
    /// The `path` property changed; a non-string payload carries no path.
    PathChange { path: Option<Vec<u8>> },
    /// The `time-pos` property changed; the payload read as milliseconds,
    /// or nothing if it was absent or malformed.
    TimePosChange { millis: Option<u64> },
    /// A reply to an outstanding path query.
    PathReply { request_id: i64, path: Option<Vec<u8>> },
    /// Anything else: unknown events, untracked replies, garbage.
    Other,
}

pub enum MsgV {
    FileLoaded,
    EndFile { reason: ReasonV },
    PathChange { path: Option<Seq<u8>> },
    TimePosChange { millis: Option<u64> },
    PathReply { request_id: i64, path: Option<Seq<u8>> },
    Other,
}

impl View for InboundMsg {
    type V = MsgV;

    open spec fn view(&self) -> MsgV {
        match self {
            InboundMsg::FileLoaded => MsgV::FileLoaded,
            InboundMsg::EndFile { reason } => MsgV::EndFile { reason: reason@ },
            InboundMsg::PathChange { path } => MsgV::PathChange {
                path: match path {
                    Some(p) => Some(p@),
                    None => None,
                },
            },
            InboundMsg::TimePosChange { millis } => MsgV::TimePosChange { millis: *millis },
            InboundMsg::PathReply { request_id, path } => MsgV::PathReply {
                request_id: *request_id,
                path: match path {
                    Some(p) => Some(p@),
                    None => None,
                },
            },
            InboundMsg::Other => MsgV::Other,
        }
    }
}

/// What the tracker reads out of one inbound JSON object: each field as a
/// plain value, absent where the object lacks it or holds another type.
pub struct RawFields {
    /// The `event` field, when it is a string.
    pub event: Option<String>,
    /// The `name` field of a property change, when it is a string.
    pub prop_name: Option<String>,
    /// The `data` field, when it is a string, as its bytes.
    pub data_str: Option<Vec<u8>>,
    /// The `data` field, when it is a number, as its decimal text.
    pub data_num: Option<Vec<u8>>,
    /// The `reason` field, when it is an integer.
    pub reason_num: Option<i64>,
    /// The `reason` field, when it is a string, as its bytes.
    pub reason_str: Option<Vec<u8>>,
    /// The `request_id` field, when it is an integer.
    pub request_id: Option<i64>,
}

pub struct RawFieldsV {
    pub event: Option<Seq<char>>,
    pub prop_name: Option<Seq<char>>,
    pub data_str: Option<Seq<u8>>,
    pub data_num: Option<Seq<u8>>,
    pub reason_num: Option<i64>,
    pub reason_str: Option<Seq<u8>>,
    pub request_id: Option<i64>,
}

impl View for RawFields {
    type V = RawFieldsV;

    open spec fn view(&self) -> RawFieldsV {
        RawFieldsV {
            event: match &self.event {
                Some(e) => Some(e@),
                None => None,
            },
            prop_name: match &self.prop_name {
                Some(n) => Some(n@),
                None => None,
            },
            data_str: match &self.data_str {
                Some(d) => Some(d@),
                None => None,
            },
            data_num: match &self.data_num {
                Some(d) => Some(d@),
                None => None,
            },
            reason_num: self.reason_num,
            reason_str: match &self.reason_str {
                Some(r) => Some(r@),
                None => None,
            },
            request_id: self.request_id,
        }
    }
}

/// The reason an end-of-file event carries: an integer wins over a string.
pub open spec fn reason_of(f: RawFieldsV) -> ReasonV {
    match f.reason_num {
        Some(n) => ReasonV::Num(n),
        None => match f.reason_str {
            Some(t) => ReasonV::Text(t),
            None => ReasonV::Absent,
        },
    }
}

/// How one inbound object is classified, in priority order: a recognised
/// event name decides; otherwise a tracked reply identifier; otherwise the
/// line says nothing.
pub open spec fn classify_spec(f: RawFieldsV) -> MsgV {
    match f.event {
        Some(e) => {
            if e == "file-loaded"@ {
                MsgV::FileLoaded
            } else if e == "end-file"@ {
                MsgV::EndFile { reason: reason_of(f) }
            } else if e == "property-change"@ {
                match f.prop_name {
                    Some(n) => {
                        if n == "path"@ {
                            MsgV::PathChange { path: f.data_str }
                        } else if n == "time-pos"@ {
                            MsgV::TimePosChange {
                                millis: match f.data_num {
                                    Some(t) => parse_pos(t),
                                    None => None,
                                },
                            }
                        } else {
                            MsgV::Other
                        }
                    },
                    None => MsgV::Other,
                }
            } else {
                MsgV::Other
            }
        },
        None => match f.request_id {
            Some(id) => {
                if id == BOOT_QUERY_ID || id == LOAD_QUERY_ID {
                    MsgV::PathReply { request_id: id, path: f.data_str }
                } else {
                    MsgV::Other
                }
            },
            None => MsgV::Other,
        },
    }
}

/// Classifies one inbound object.
pub fn classify(f: RawFields) -> (m: InboundMsg)
    ensures
        m@ == classify_spec(f@),
{
    match f.event {
        Some(e) => {
            if e == "file-loaded".to_owned() {
                InboundMsg::FileLoaded
            } else if e == "end-file".to_owned() {
                let reason = match f.reason_num {
                    Some(n) => EndReason::Num(n),
                    None => match f.reason_str {
                        Some(t) => EndReason::Text(t),
                        None => EndReason::Absent,
                    },
                };
                InboundMsg::EndFile { reason }
            } else if e == "property-change".to_owned() {
                match f.prop_name {
                    Some(n) => {
                        if n == "path".to_owned() {
                            InboundMsg::PathChange { path: f.data_str }
                        } else if n == "time-pos".to_owned() {
                            let millis = match f.data_num {
                                Some(t) => parse_position(&t),
                                None => None,
                            };
                            InboundMsg::TimePosChange { millis }
                        } else {
                            InboundMsg::Other
                        }
                    },
                    None => InboundMsg::Other,
                }
            } else {
                InboundMsg::Other
            }
        },
        None => match f.request_id {
            Some(id) => {
                if id == BOOT_QUERY_ID || id == LOAD_QUERY_ID {
                    InboundMsg::PathReply { request_id: id, path: f.data_str }
                } else {
                    InboundMsg::Other
                }
            },
            None => InboundMsg::Other,
        },
    }
}

/// The subscription to position change notifications, sent at startup.
pub fn observe_time_pos_request() -> (r: &'static str)
    ensures
        r@ == "{\"command\":[\"observe_property\",1,\"time-pos\"]}"@,
{
    "{\"command\":[\"observe_property\",1,\"time-pos\"]}"
}

/// The subscription to path change notifications, sent at startup.
pub fn observe_path_request() -> (r: &'static str)
    ensures
        r@ == "{\"command\":[\"observe_property\",2,\"path\"]}"@,
{
    "{\"command\":[\"observe_property\",2,\"path\"]}"
}

/// The one-shot query for the current path sent at startup, tagged with the
/// boot request identifier.
pub fn boot_path_query_request() -> (r: &'static str)
    ensures
        r@ == "{\"request_id\":42,\"command\":[\"get_property\",\"path\"]}"@,
{
    "{\"request_id\":42,\"command\":[\"get_property\",\"path\"]}"
}

/// The path query re-issued after a file loads, tagged with the on-load
/// request identifier.
pub fn load_path_query_request() -> (r: &'static str)
    ensures
        r@ == "{\"request_id\":1,\"command\":[\"get_property\",\"path\"]}"@,
{
    "{\"request_id\":1,\"command\":[\"get_property\",\"path\"]}"
}

/// Everything sent at startup, in order: subscribe to position changes,
/// subscribe to path changes, then ask once for the current path in case a
/// session is already playing.
pub fn startup_requests() -> (r: Vec<&'static str>)
    ensures
        r@.len() == 3,
        r@[0]@ == "{\"command\":[\"observe_property\",1,\"time-pos\"]}"@,
        r@[1]@ == "{\"command\":[\"observe_property\",2,\"path\"]}"@,
        r@[2]@ == "{\"request_id\":42,\"command\":[\"get_property\",\"path\"]}"@,
{
    let mut r: Vec<&'static str> = Vec::new();
    r.push(observe_time_pos_request());
    r.push(observe_path_request());
    r.push(boot_path_query_request());
    r
}

} // verus!
