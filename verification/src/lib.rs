//! The state-management core of a real-time session server: rooms of
//! members with a score ledger, pooled-stake pots, parimutuel wagers, a
//! registry of rooms and live sessions, and the dispatcher that turns one
//! inbound command into one atomic mutation plus an ordered list of events,
//! each with a symbolic destination. Every operation carries a contract:
//! which errors come on which states, and exactly how the state changes.
//!
//! The transport, the JSON wire forms and the locking around the registry
//! live outside the library; they hand in plain commands and connection
//! identities and carry the produced events out.

use vstd::prelude::*;

pub mod auth;
pub mod codes;
pub mod errors;
pub mod ids;
pub mod member;
pub mod messages;
pub mod pot;
pub mod registry;
pub mod room;
pub mod session;
pub mod wager;

verus! {

/// Room-scoped identifier for members, pots, wagers and wager outcomes.
pub type ID = usize;

/// Identity of one client connection, assigned by the transport layer.
pub type ConnId = u64;

} // verus!
