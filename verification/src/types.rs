//! Plain data carried by the club registry and membership lifecycle.

use vstd::prelude::*;

verus! {

/// A club: its owner and the fee charged per year of membership.
#[derive(Debug, Clone, Copy, PartialEq, Eq, Structural)]
pub struct ClubDetails {
    pub owner: u64,
    pub expense_per_year: u128,
}

/// An active membership; remembers whether it came from a renewal.
#[derive(Debug, Clone, Copy, PartialEq, Eq, Structural)]
pub struct MembershipDetails {
    pub is_renewal: bool,
}

/// What remains of a membership after its expiry tick was processed,
/// until a renewal request consumes it.
#[derive(Debug, Clone, Copy, PartialEq, Eq, Structural)]
pub struct ExpirationDetails {
    pub previous_membership_details: MembershipDetails,
}

/// A membership request awaiting the club owner's admission.
#[derive(Debug, Clone, Copy, PartialEq, Eq, Structural)]
pub struct MembershipRequestDetails {
    pub amount_paid: u128,
    pub time_in_year: u8,
    pub is_renewal: bool,
}

/// The lifecycle state of one `(account, club)` pair. Holding the three
/// stages in one value makes them mutually exclusive by construction.
#[derive(Debug, Clone, Copy, PartialEq, Eq, Structural)]
pub enum MemberState {
    /// A request awaits the owner's admission.
    Requested(MembershipRequestDetails),
    /// The membership runs until its scheduled expiry tick.
    Active(MembershipDetails),
    /// The membership expired and may be renewed.
    Expired(ExpirationDetails),
}

/// One event per state transition, in the order the transitions happened.
#[derive(Debug, Clone, Copy, PartialEq, Eq, Structural)]
pub enum Event {
    /// A new club was created.
    ClubCreated { club_id: u64, club_owner: u64, annual_expense: u128 },
    /// A club's ownership was transferred.
    ClubOwnerChanged { club_id: u64, old_owner: u64, new_owner: u64 },
    /// A club's annual expense was changed.
    AnnualExpenseSet { club_id: u64, old_annual_expense: u128, new_annual_expense: u128 },
    /// A membership or renewal was requested and paid for.
    MembershipRequested {
        club_id: u64,
        requester: u64,
        expense_to_be_charged: u128,
        time_in_year: u8,
        is_renewal: bool,
    },
    /// A member was admitted; the membership expires at the given tick.
    MemberAdded { club_id: u64, member: u64, membership_expiry_block: u64 },
    /// A membership reached its expiry tick and was expired.
    MembershipExpired { club_id: u64, member: u64 },
    /// A membership was renewed.
    MembershipRenewed { club_id: u64, member: u64 },
}

/// Why a command was rejected. A rejected command changes no state.
#[derive(Debug, Clone, Copy, PartialEq, Eq, Structural)]
pub enum Error {
    /// No root account was configured at genesis.
    NoRootConfiguredAtGenesis,
    /// The caller is not the root account.
    UserIsNotRoot,
    /// No club with the given id exists.
    ClubNotFound,
    /// The caller does not own the club.
    NotClubOwner,
    /// The account already holds an active membership.
    AlreadyMember,
    /// The account holds an expired membership and must renew instead.
    ExpiredMember,
    /// No expired membership exists to renew.
    NoMembershipExpirationFound,
    /// The account is not a member.
    MemberNotFound,
    /// No membership request exists to admit.
    MembershipRequestNotFound,
    /// A membership request is already pending.
    MembershipAlreadyRequested,
    /// The requested duration exceeds the configured maximum.
    MembershipTimeExceeded,
    /// A fee or tick computation exceeded its integer width.
    ArithmeticOverflow,
    /// The payer holds less than the amount to be charged.
    InsufficientFunds,
    /// The charge would leave the payer below the minimum balance.
    WouldReapAccount,
}

/// Host-supplied constants, fixed at construction.
#[derive(Debug, Clone, Copy)]
pub struct Config {
    /// Ticks per duration unit: one year of membership lasts this many ticks.
    pub blocks_per_year: u64,
    /// The largest number of years a single request may cover.
    pub max_number_of_years: u8,
    /// The account that collects club creation fees and membership charges.
    pub sink_account: u64,
}

/// Initial state supplied by the host: the privileged root account, if
/// one was bootstrapped, and the fee charged for creating a club.
#[derive(Debug, Clone, Copy)]
pub struct GenesisConfig {
    pub root_account: Option<u64>,
    pub club_creation_fee: u128,
}

} // verus!
