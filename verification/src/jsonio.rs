//! The JSON boundary.
//!
//! Inbound lines are parsed by serde_json; the tracker never looks inside a
//! `serde_json::Value` itself.  One trusted reader turns a line into the
//! plain [`RawFields`] the tracker cares about; everything serde_json
//! computes there depends on the line's bytes alone, so its result carries
//! the name [`json_fields_of`].  Everything after that — classification and
//! the state machine — is verified, and [`handle_line`] pins the whole
//! effect of every line to the single message [`msg_of_line`] denotes; a
//! line that does not parse acts as no message at all.

use vstd::prelude::*;

use serde_json::from_slice;
use serde_json::Value;

use crate::proto::{classify, classify_spec, MsgV, RawFields, RawFieldsV};
use crate::session::{step, Effects, Session, SessionV};
use crate::store::ResumeDb;

verus! {

/// What serde_json reads out of one line: nothing when the bytes are not
/// well-formed JSON, otherwise each tracked field as a plain value.  The
/// result is a function of the line's bytes alone.
pub uninterp spec fn json_fields_of(line: Seq<u8>) -> Option<RawFieldsV>;

/// Relies on serde_json: `from_slice` to parse the line, `Value::get`,
/// `Value::as_str`, `Value::as_i64`, `Value::as_number` and the `Display`
/// rendering of `serde_json::Number` to read the tracked fields, each a
/// deterministic function of the parsed value.  The result is exactly
/// `json_fields_of` of the line.
#[verifier::external_body]
fn line_fields(line: &Vec<u8>) -> (r: Option<RawFields>)
    ensures
        (r matches Some(f) ==> json_fields_of(line@) == Some(f@)),
        (r is None ==> json_fields_of(line@) is None),
{
    let v: Value = from_slice(line).ok()?;
    let s = |x: Option<&Value>| x.and_then(|y| y.as_str()).map(str::to_owned);
    let b = |x| s(x).map(String::into_bytes);
    Some(RawFields {
        event: s(v.get("event")),
        prop_name: s(v.get("name")),
        data_str: b(v.get("data")),
        data_num: v.get("data").and_then(|d| d.as_number()).map(|n| n.to_string().into_bytes()),
        reason_num: v.get("reason").and_then(|y| y.as_i64()),
        reason_str: b(v.get("reason")),
        request_id: v.get("request_id").and_then(|y| y.as_i64()),
    })
}

/// The one message a raw line stands for: its fields classified, or the
/// no-op message when the line is not well-formed JSON.
pub open spec fn msg_of_line(line: Seq<u8>) -> MsgV {
    match json_fields_of(line) {
        Some(f) => classify_spec(f),
        None => MsgV::Other,
    }
}

/// Every step flushes only a path the session already knew.
proof fn lemma_flush_names_current_path(s: SessionV, db: Map<Seq<u8>, u64>, m: MsgV, now_ms: u64)
    ensures
        (step(s, db, m, now_ms).2.flush matches Some(f) ==> s.current_path == Some(f.0)),
{
}

/// Handles one raw line from the control socket at clock time `now_ms`: the
/// session, the store and the returned effects move exactly as `step` does
/// for the one message the line denotes.  An unparsable line, an unknown
/// event name and an untracked reply identifier all denote the no-op
/// message and change nothing; and nothing is ever flushed for a path the
/// session did not already hold.
pub fn handle_line(session: &mut Session, db: &mut ResumeDb, line: &Vec<u8>, now_ms: u64) -> (eff:
    Effects)
    requires
        old(db).wf(),
        now_ms >= old(session)@.last_flush_ms,
    ensures
        final(db).wf(),
        (final(session)@, final(db)@, eff@) == step(
            old(session)@,
            old(db)@,
            msg_of_line(line@),
            now_ms,
        ),
        (eff@.flush matches Some(f) ==> old(session)@.current_path == Some(f.0)),
{
    match line_fields(line) {
        None => {
            let eff = Effects { query_path: false, flush: None };
            proof {
                assert(msg_of_line(line@) == MsgV::Other);
                assert((session@, db@, eff@) == step(
                    old(session)@,
                    old(db)@,
                    MsgV::Other,
                    now_ms,
                ));
            }
            eff
        },
        Some(fields) => {
            let ghost fv = fields@;
            assert(json_fields_of(line@) == Some(fv));
            let m = classify(fields);
            let ghost mv = m@;
            let eff = session.handle_msg(db, m, now_ms);
            proof {
                assert(mv == msg_of_line(line@));
                lemma_flush_names_current_path(old(session)@, old(db)@, mv, now_ms);
            }
            eff
        },
    }
}

} // verus!
