//! The dispatcher's state machine.
//!
//! A [`Session`] tracks the path and position being played, the time of the
//! last throttled flush, and which path queries are outstanding.  Every
//! inbound message drives one call of [`Session::handle_msg`], whose whole
//! effect — on the session, on the store, and on the outside world — is the
//! pure function [`step`].

use vstd::prelude::*;

use crate::proto::{EndReason, InboundMsg, MsgV, ReasonV, BOOT_QUERY_ID, LOAD_QUERY_ID};
use crate::posfmt::copy_range;
use crate::store::ResumeDb;

verus! {

/// Milliseconds that must pass between two throttled position flushes.
pub const THROTTLE_MS: u64 = 5000;

/// In-memory tracker state; durability is delegated to the flush effects.
pub struct Session {
    /// The path of the file being played, as far as the player has said.
    pub current_path: Option<Vec<u8>>,
    /// The last observed playback position, in milliseconds.
    pub current_pos_ms: u64,
    /// When the last throttled flush happened, in clock milliseconds.
    pub last_flush_ms: u64,
    /// Whether the startup path query is still unanswered.
    pub boot_query_pending: bool,
    /// Whether an on-load path query is still unanswered.
    pub load_query_pending: bool,
}

pub struct SessionV {
    pub current_path: Option<Seq<u8>>,
    pub current_pos_ms: u64,
    pub last_flush_ms: u64,
    pub boot_query_pending: bool,
    pub load_query_pending: bool,
}

impl View for Session {
    type V = SessionV;

    open spec fn view(&self) -> SessionV {
        SessionV {
            current_path: match &self.current_path {
                Some(p) => Some(p@),
                None => None,
            },
            current_pos_ms: self.current_pos_ms,
            last_flush_ms: self.last_flush_ms,
            boot_query_pending: self.boot_query_pending,
            load_query_pending: self.load_query_pending,
        }
    }
}

/// One record to write through: the resume store is saved whole and the
/// last-played pointer is overwritten with this path and position.
pub struct FlushOut {
    pub path: Vec<u8>,
    pub pos_ms: u64,
}

/// What the caller must do after a message is handled.
pub struct Effects {
    /// Re-issue the on-load path query.
    pub query_path: bool,
    /// Save the store and overwrite the last-played pointer.
    pub flush: Option<FlushOut>,
}

pub struct EffectsV {
    pub query_path: bool,
    pub flush: Option<(Seq<u8>, u64)>,
}

impl View for Effects {
    type V = EffectsV;

    open spec fn view(&self) -> EffectsV {
        EffectsV {
            query_path: self.query_path,
            flush: match &self.flush {
                Some(f) => Some((f.path@, f.pos_ms)),
                None => None,
            },
        }
    }
}

pub open spec fn no_effects() -> EffectsV {
    EffectsV { query_path: false, flush: None }
}

/// Whether an end-of-file reason means the file finished: the integer zero,
/// or the string `eof` in any letter case.
pub open spec fn eof_reason(r: ReasonV) -> bool {
    match r {
        ReasonV::Num(n) => n == 0,
        ReasonV::Text(t) => t.len() == 3 && (t[0] == 101 || t[0] == 69) && (t[1] == 111 || t[1]
            == 79) && (t[2] == 102 || t[2] == 70),
        ReasonV::Absent => false,
    }
}

/// The whole state machine: what one message does to the session and the
/// store, and what it asks the caller to perform.
pub open spec fn step(s: SessionV, db: Map<Seq<u8>, u64>, m: MsgV, now_ms: u64) -> (
    SessionV,
    Map<Seq<u8>, u64>,
    EffectsV,
) {
    match m {
        MsgV::FileLoaded => (
            SessionV { load_query_pending: true, ..s },
            db,
            EffectsV { query_path: true, flush: None },
        ),
        MsgV::EndFile { reason } => {
            let cleared = SessionV { current_path: None, current_pos_ms: 0, ..s };
            match s.current_path {
                Some(k) => {
                    let db2 = if eof_reason(reason) {
                        db.remove(k)
                    } else {
                        db.insert(k, s.current_pos_ms)
                    };
                    (
                        cleared,
                        db2,
                        EffectsV { query_path: false, flush: Some((k, s.current_pos_ms)) },
                    )
                },
                None => (cleared, db, no_effects()),
            }
        },
        MsgV::PathChange { path } => match path {
            Some(p) => (SessionV { current_path: Some(p), ..s }, db, no_effects()),
            None => (s, db, no_effects()),
        },
        MsgV::TimePosChange { millis } => match millis {
            Some(ms) => {
                let moved = SessionV { current_pos_ms: ms, ..s };
                if now_ms >= s.last_flush_ms + THROTTLE_MS {
                    match s.current_path {
                        Some(k) => (
                            SessionV { last_flush_ms: now_ms, ..moved },
                            db.insert(k, ms),
                            EffectsV { query_path: false, flush: Some((k, ms)) },
                        ),
                        None => (moved, db, no_effects()),
                    }
                } else {
                    (moved, db, no_effects())
                }
            },
            None => (s, db, no_effects()),
        },
        MsgV::PathReply { request_id, path } => match path {
            Some(p) => {
                if request_id == BOOT_QUERY_ID && s.boot_query_pending {
                    (
                        SessionV { current_path: Some(p), boot_query_pending: false, ..s },
                        db,
                        no_effects(),
                    )
                } else if request_id == LOAD_QUERY_ID && s.load_query_pending {
                    (
                        SessionV { current_path: Some(p), load_query_pending: false, ..s },
                        db,
                        no_effects(),
                    )
                } else {
                    (s, db, no_effects())
                }
            },
            None => (s, db, no_effects()),
        },
        MsgV::Other => (s, db, no_effects()),
    }
}

/// Whether an end-of-file reason means natural completion.
pub fn reason_is_eof(r: &EndReason) -> (b: bool)
    ensures
        b == eof_reason(r@),
{
    match r {
        EndReason::Num(n) => *n == 0,
        EndReason::Text(t) => t.len() == 3 && (t[0] == 101 || t[0] == 69) && (t[1] == 111 || t[1]
            == 79) && (t[2] == 102 || t[2] == 70),
        EndReason::Absent => false,
    }
}

impl Session {
    /// A fresh session: no path, position zero, the flush timer starting
    /// now, the startup path query outstanding.  The caller is expected to
    /// have sent the startup requests.
    pub fn new(now_ms: u64) -> (s: Session)
        ensures
            s@ == (SessionV {
                current_path: None,
                current_pos_ms: 0,
                last_flush_ms: now_ms,
                boot_query_pending: true,
                load_query_pending: false,
            }),
    {
        Session {
            current_path: None,
            current_pos_ms: 0,
            last_flush_ms: now_ms,
            boot_query_pending: true,
            load_query_pending: false,
        }
    }

    /// Handles one classified message at clock time `now_ms`: the session,
    /// the store and the returned effects change exactly as `step` says.
    /// A position update with no path known never writes; an end-of-file
    /// event always clears the path and resets the position.  The clock is
    /// monotonic: it never runs behind the last flush.
    pub fn handle_msg(&mut self, db: &mut ResumeDb, msg: InboundMsg, now_ms: u64) -> (eff: Effects)
        requires
            old(db).wf(),
            now_ms >= old(self)@.last_flush_ms,
        ensures
            final(db).wf(),
            (final(self)@, final(db)@, eff@) == step(old(self)@, old(db)@, msg@, now_ms),
    {
        match msg {
            InboundMsg::FileLoaded => {
                self.load_query_pending = true;
                Effects { query_path: true, flush: None }
            },
            InboundMsg::EndFile { reason } => {
                let finished = reason_is_eof(&reason);
                let eff = match &self.current_path {
                    Some(k0) => {
                        let k1 = copy_range(k0, 0, k0.len());
                        let k2 = copy_range(k0, 0, k0.len());
                        assert(k1@ =~= k0@);
                        assert(k2@ =~= k0@);
                        if finished {
                            db.remove(&k1);
                        } else {
                            db.insert(k1, self.current_pos_ms);
                        }
                        Effects {
                            query_path: false,
                            flush: Some(FlushOut { path: k2, pos_ms: self.current_pos_ms }),
                        }
                    },
                    None => Effects { query_path: false, flush: None },
                };
                self.current_path = None;
                self.current_pos_ms = 0;
                eff
            },
            InboundMsg::PathChange { path } => {
                match path {
                    Some(p) => {
                        self.current_path = Some(p);
                    },
                    None => {},
                }
                Effects { query_path: false, flush: None }
            },
            InboundMsg::TimePosChange { millis } => {
                match millis {
                    Some(ms) => {
                        self.current_pos_ms = ms;
                        if now_ms - self.last_flush_ms >= THROTTLE_MS {
                            match &self.current_path {
                                Some(k0) => {
                                    let k1 = copy_range(k0, 0, k0.len());
                                    let k2 = copy_range(k0, 0, k0.len());
                                    assert(k1@ =~= k0@);
                                    assert(k2@ =~= k0@);
                                    db.insert(k1, ms);
                                    self.last_flush_ms = now_ms;
                                    Effects {
                                        query_path: false,
                                        flush: Some(FlushOut { path: k2, pos_ms: ms }),
                                    }
                                },
                                None => Effects { query_path: false, flush: None },
                            }
                        } else {
                            Effects { query_path: false, flush: None }
                        }
                    },
                    None => Effects { query_path: false, flush: None },
                }
            },
            InboundMsg::PathReply { request_id, path } => {
                match path {
                    Some(p) => {
                        if request_id == BOOT_QUERY_ID && self.boot_query_pending {
                            self.current_path = Some(p);
                            self.boot_query_pending = false;
                        } else if request_id == LOAD_QUERY_ID && self.load_query_pending {
                            self.current_path = Some(p);
                            self.load_query_pending = false;
                        }
                    },
                    None => {},
                }
                Effects { query_path: false, flush: None }
            },
            InboundMsg::Other => Effects { query_path: false, flush: None },
        }
    }
}

/// A position update that arrives while no path is known updates the
/// position alone: the store is untouched and nothing is flushed.
pub proof fn lemma_unknown_path_guard(
    s: SessionV,
    db: Map<Seq<u8>, u64>,
    millis: Option<u64>,
    now_ms: u64,
)
    requires
        s.current_path is None,
    ensures
        step(s, db, MsgV::TimePosChange { millis }, now_ms).1 == db,
        step(s, db, MsgV::TimePosChange { millis }, now_ms).2.flush is None,
{
}

/// The no-op message — what an unparsable line, an unrecognised event name
/// or an untracked reply identifier classifies to — changes neither the
/// session nor the store and asks the caller for nothing.
pub proof fn lemma_other_is_noop(s: SessionV, db: Map<Seq<u8>, u64>, now_ms: u64)
    ensures
        step(s, db, MsgV::Other, now_ms) == (s, db, no_effects()),
{
}

/// The flush clock never rolls back: under a monotonic clock, every step
/// leaves the time of the last flush where it was or moves it forward.
pub proof fn lemma_flush_clock_monotonic(
    s: SessionV,
    db: Map<Seq<u8>, u64>,
    m: MsgV,
    now_ms: u64,
)
    requires
        now_ms >= s.last_flush_ms,
    ensures
        step(s, db, m, now_ms).0.last_flush_ms >= s.last_flush_ms,
{
}

/// Two position updates less than the throttle interval apart flush at most
/// once, whatever the state they meet.
pub proof fn lemma_throttle_at_most_one(
    s: SessionV,
    db: Map<Seq<u8>, u64>,
    ms1: u64,
    ms2: u64,
    t1: u64,
    t2: u64,
)
    requires
        t1 <= t2,
        t2 < t1 + THROTTLE_MS,
    ensures
        ({
            let (s1, db1, e1) = step(s, db, MsgV::TimePosChange { millis: Some(ms1) }, t1);
            let (s2, db2, e2) = step(s1, db1, MsgV::TimePosChange { millis: Some(ms2) }, t2);
            !(e1.flush is Some && e2.flush is Some)
        }),
{
}

/// Two position updates with a known path, the first due once the throttle
/// interval has passed and the second a full interval later, both flush.
pub proof fn lemma_throttle_two_writes(
    s: SessionV,
    db: Map<Seq<u8>, u64>,
    ms1: u64,
    ms2: u64,
    t1: u64,
    t2: u64,
)
    requires
        s.current_path is Some,
        t1 >= s.last_flush_ms + THROTTLE_MS,
        t2 >= t1 + THROTTLE_MS,
    ensures
        ({
            let (s1, db1, e1) = step(s, db, MsgV::TimePosChange { millis: Some(ms1) }, t1);
            let (s2, db2, e2) = step(s1, db1, MsgV::TimePosChange { millis: Some(ms2) }, t2);
            e1.flush is Some && e2.flush is Some
        }),
{
}

} // verus!
