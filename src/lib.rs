//! Server-side core of a collaborative whiteboard: role-scoped signed
//! tokens, per-session rosters and id remapping, the session catalog and
//! its persisted form, the per-connection message protocol, the stacking
//! order of a document's shapes, and the request rate limiter.

pub mod outside;
pub mod text;
pub mod role;
pub mod style;
pub mod metrics;
pub mod ratelimit;
pub mod claims;
pub mod token;
pub mod session;
pub mod store;
pub mod manager;
pub mod protocol;
pub mod zorder;
