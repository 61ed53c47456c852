//! Presence histories from raw pings.
//!
//! Devices announce themselves with pings, each an identity and a timestamp
//! in whole seconds since the Unix epoch. From the time-ordered pings of one
//! identity this crate rebuilds the sessions during which the device was
//! continuously present: consecutive pings closer together than a gap
//! threshold belong to one session, a gap of at least the threshold starts
//! the next. An aggregation then collects one history per identity.

pub mod instant;
pub mod error;
pub mod timespan;
pub mod sessions;
pub mod session_laws;
pub mod identity;
pub mod history;
pub mod aggregation;
pub mod aggregation_laws;
