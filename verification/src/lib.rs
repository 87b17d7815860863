//! Post-mutation effects of the audio daemon's profile store, and the
//! monitor-side merge of daemon stream snapshots.
//!
//! `command` holds the PipeWire re-evaluation commands and their counts,
//! `event` the wire events that profile and routing changes publish,
//! `effects` the effect plans and the one path that applies them, and
//! `monitor` the stream table that frontends build from a daemon snapshot.

pub mod command;
pub mod event;
pub mod effects;
pub mod monitor;
