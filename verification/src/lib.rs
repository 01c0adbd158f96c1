//! Membership clubs with owner-managed admission and time-bucketed
//! expiration scheduling.
//!
//! A privileged root account creates clubs; accounts pay a fee to request
//! membership for a number of duration units; the club owner admits them;
//! a per-tick expiration scheduler transitions memberships to an expired
//! state at exactly the scheduled tick, after which the member may renew.

pub mod keys;
pub mod ledger;
pub mod scheduler;
pub mod types;
pub mod pallet;
pub mod laws;

pub use crate::pallet::Pallet;
pub use crate::types::{
    ClubDetails, Config, Error, Event, ExpirationDetails, GenesisConfig, MemberState,
    MembershipDetails, MembershipRequestDetails,
};
