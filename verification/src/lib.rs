//! Watchers for a small handheld media player: the core is a resume logger
//! that follows a line-delimited JSON control protocol, tracks the file and
//! position being played, and persists resume points under a throttled-write
//! policy.  Durable state is a tab-separated resume database plus a single
//! "last played" record; positions are held as whole milliseconds, matching
//! the fixed three-decimal format of the persisted files.

pub mod jsonio;
pub mod posfmt;
pub mod proto;
pub mod session;
pub mod store;
pub mod watchers;
