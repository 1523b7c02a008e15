//! Reconstructs chat activity from a stream of server log lines.
//!
//! Each line may embed a structured payload describing one chat event inside
//! a video-conferencing session.  The library locates the payload, decodes it
//! defensively, maps its fields onto a three-level aggregate of meetings,
//! chats and messages, collapses adjacent duplicate messages, and renders a
//! deterministic textual report.
//!
//! Policies, applied consistently:
//! - a payload that does not decode, or that lacks an integral
//!   `envelope.timestamp`, is reported and skipped; the run always goes on;
//! - every other missing or structured field coerces to the empty string;
//! - only *adjacent* duplicates collapse (upstream emits every event twice
//!   in immediate succession); duplicates separated by another message stay;
//! - meetings and chats are rendered in first-reference order, which makes
//!   the output a function of the input lines alone.

pub mod jsonio;
pub mod pipeline;
pub mod record;
pub mod render;
pub mod store;
pub mod textnum;
pub mod timefmt;
pub mod value;
