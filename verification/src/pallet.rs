//! The membership lifecycle, club registry and per-tick expiration
//! processing, over explicit injected state.
//!
//! Commands validate against the current state and either commit all of
//! their writes or reject with an error and change nothing. Once per tick
//! the host calls `on_initialize`, which drains exactly that tick's
//! expiration bucket and expires the memberships scheduled there.

use vstd::prelude::*;
use std::collections::HashMap;
use crate::keys::{
    pair_key, key_hi, key_lo, make_key, lemma_pair_key_parts, lemma_pair_key_injective,
    lemma_pair_key_roundtrip,
};
use crate::ledger::{Ledger, LedgerError, spec_balances_eq, spec_transfer_applied};
use crate::scheduler::ExpirationScheduler;
use crate::types::{
    ClubDetails, Config, Error, Event, ExpirationDetails, GenesisConfig, MemberState,
    MembershipDetails, MembershipRequestDetails,
};

verus! {

broadcast use vstd::std_specs::hash::group_hash_axioms;

/// Whether `e` records the creation of a club.
pub open spec fn is_club_created(e: Event) -> bool {
    match e {
        Event::ClubCreated { .. } => true,
        _ => false,
    }
}

/// The club id a creation event records; zero for other events.
pub open spec fn created_id(e: Event) -> u64 {
    match e {
        Event::ClubCreated { club_id, .. } => club_id,
        _ => 0,
    }
}

/// Some event in the log records the creation of club `c`.
pub open spec fn has_creation_event(events: Seq<Event>, c: u64) -> bool {
    exists|i: int|
        0 <= i < events.len() && is_club_created(#[trigger] events[i]) && created_id(events[i])
            == c
}

/// The event log agrees with a registry of `clubs_len` clubs: creation
/// events carry strictly increasing ids, every recorded id names an
/// existing club, and every existing club was recorded.
pub open spec fn club_event_history_ok(events: Seq<Event>, clubs_len: int) -> bool {
    &&& forall|i: int, j: int|
        0 <= i < j < events.len() && is_club_created(#[trigger] events[i]) && is_club_created(
            #[trigger] events[j],
        ) ==> created_id(events[i]) < created_id(events[j])
    &&& forall|i: int|
        0 <= i < events.len() && is_club_created(#[trigger] events[i]) ==> 1 <= created_id(
            events[i],
        ) <= clubs_len
    &&& forall|c: u64| 1 <= c <= clubs_len ==> #[trigger] has_creation_event(events, c)
}

/// Appending a non-creation event leaves the history agreement intact.
pub proof fn lemma_history_push_other(events: Seq<Event>, clubs_len: int, e: Event)
    requires
        club_event_history_ok(events, clubs_len),
        !is_club_created(e),
    ensures
        club_event_history_ok(events.push(e), clubs_len),
{
    let pushed = events.push(e);
    assert forall|c: u64| 1 <= c <= clubs_len implies #[trigger] has_creation_event(
        pushed,
        c,
    ) by {
        assert(has_creation_event(events, c));
        let i = choose|i: int|
            0 <= i < events.len() && is_club_created(#[trigger] events[i]) && created_id(
                events[i],
            ) == c;
        assert(pushed[i] == events[i]);
        assert(is_club_created(pushed[i]) && created_id(pushed[i]) == c);
    }
}

/// Appending the creation event of the next club id extends the history
/// agreement to the grown registry.
pub proof fn lemma_history_push_created(events: Seq<Event>, clubs_len: int, e: Event)
    requires
        clubs_len >= 0,
        club_event_history_ok(events, clubs_len),
        is_club_created(e),
        created_id(e) == clubs_len + 1,
    ensures
        club_event_history_ok(events.push(e), clubs_len + 1),
{
    let pushed = events.push(e);
    assert forall|i: int, j: int|
        0 <= i < j < pushed.len() && is_club_created(#[trigger] pushed[i]) && is_club_created(
            #[trigger] pushed[j],
        ) implies created_id(pushed[i]) < created_id(pushed[j]) by {
        assert(pushed[i] == events[i]);
        if j < events.len() {
            assert(pushed[j] == events[j]);
        }
    }
    assert forall|i: int|
        0 <= i < pushed.len() && is_club_created(#[trigger] pushed[i]) implies 1 <= created_id(
        pushed[i],
    ) <= clubs_len + 1 by {
        if i < events.len() {
            assert(pushed[i] == events[i]);
        }
    }
    assert forall|c: u64| 1 <= c <= clubs_len + 1 implies #[trigger] has_creation_event(
        pushed,
        c,
    ) by {
        if c <= clubs_len {
            assert(has_creation_event(events, c));
            let i = choose|i: int|
                0 <= i < events.len() && is_club_created(#[trigger] events[i]) && created_id(
                    events[i],
                ) == c;
            assert(pushed[i] == events[i]);
            assert(is_club_created(pushed[i]) && created_id(pushed[i]) == c);
        } else {
            assert(pushed[events.len() as int] == e);
            assert(is_club_created(pushed[events.len() as int]) && created_id(
                pushed[events.len() as int],
            ) == c);
        }
    }
}

/// `(account, club_id)` holds an active membership in `members`.
pub open spec fn is_active_in(members: Map<u128, MemberState>, account: u64, club_id: u64) -> bool {
    members.contains_key(pair_key(account, club_id)) && members[pair_key(account, club_id)]
        is Active
}

/// Some bucket entry holds `(account, club_id)`.
pub open spec fn has_entry_for(entries: Map<u128, (u64, u64)>, account: u64, club_id: u64) -> bool {
    exists|k: u128| #[trigger] entries.contains_key(k) && entries[k] == (account, club_id)
}

/// The membership map and the bucket entries agree: every entry points
/// at an active membership, no two entries point at the same pair, and
/// every active membership has an entry — so each active membership has
/// exactly one live entry until its tick is processed.
pub open spec fn spec_linked(
    members: Map<u128, MemberState>,
    entries: Map<u128, (u64, u64)>,
) -> bool {
    &&& forall|k: u128| #[trigger]
        entries.contains_key(k) ==> is_active_in(members, entries[k].0, entries[k].1)
    &&& forall|k1: u128, k2: u128|
        #![trigger entries[k1], entries[k2]]
        entries.contains_key(k1) && entries.contains_key(k2) && entries[k1] == entries[k2] ==> k1
            == k2
    &&& forall|account: u64, club_id: u64| #[trigger]
        is_active_in(members, account, club_id) ==> has_entry_for(entries, account, club_id)
}

/// Writing a non-active state over a pair that was not active keeps the
/// membership map and the bucket entries in agreement.
proof fn lemma_linked_insert_inactive(
    members: Map<u128, MemberState>,
    entries: Map<u128, (u64, u64)>,
    account: u64,
    club_id: u64,
    state: MemberState,
)
    requires
        spec_linked(members, entries),
        !is_active_in(members, account, club_id),
        !(state is Active),
    ensures
        spec_linked(members.insert(pair_key(account, club_id), state), entries),
{
    let m2 = members.insert(pair_key(account, club_id), state);
    assert forall|k: u128| #[trigger]
        entries.contains_key(k) implies is_active_in(m2, entries[k].0, entries[k].1) by {
        assert(is_active_in(members, entries[k].0, entries[k].1));
        lemma_pair_key_injective(entries[k].0, entries[k].1, account, club_id);
    }
    assert forall|a: u64, c: u64| #[trigger]
        is_active_in(m2, a, c) implies has_entry_for(entries, a, c) by {
        lemma_pair_key_injective(a, c, account, club_id);
        if a == account && c == club_id {
            assert(false);
        } else {
            assert(is_active_in(members, a, c));
        }
    }
}

/// Activating a pair that was not active while appending a fresh entry
/// for it keeps the membership map and the bucket entries in agreement.
proof fn lemma_linked_admit(
    members: Map<u128, MemberState>,
    entries: Map<u128, (u64, u64)>,
    account: u64,
    club_id: u64,
    d: MembershipDetails,
    ek: u128,
)
    requires
        spec_linked(members, entries),
        !is_active_in(members, account, club_id),
        !entries.contains_key(ek),
    ensures
        spec_linked(
            members.insert(pair_key(account, club_id), MemberState::Active(d)),
            entries.insert(ek, (account, club_id)),
        ),
{
    let mk = pair_key(account, club_id);
    let m2 = members.insert(mk, MemberState::Active(d));
    let e2 = entries.insert(ek, (account, club_id));
    assert forall|k: u128| #[trigger]
        e2.contains_key(k) implies is_active_in(m2, e2[k].0, e2[k].1) by {
        if k != ek {
            assert(is_active_in(members, entries[k].0, entries[k].1));
            lemma_pair_key_injective(entries[k].0, entries[k].1, account, club_id);
        }
    }
    assert forall|k1: u128, k2: u128|
        #![trigger e2[k1], e2[k2]]
        e2.contains_key(k1) && e2.contains_key(k2) && e2[k1] == e2[k2] implies k1 == k2 by {
        if k1 != ek && k2 == ek {
            assert(entries.contains_key(k1) && entries[k1] == (account, club_id));
            assert(is_active_in(members, account, club_id));
            assert(false);
        }
        if k1 == ek && k2 != ek {
            assert(entries.contains_key(k2) && entries[k2] == (account, club_id));
            assert(is_active_in(members, account, club_id));
            assert(false);
        }
    }
    assert forall|a: u64, c: u64| #[trigger]
        is_active_in(m2, a, c) implies has_entry_for(e2, a, c) by {
        lemma_pair_key_injective(a, c, account, club_id);
        if a == account && c == club_id {
            assert(e2.contains_key(ek) && e2[ek] == (a, c));
        } else {
            assert(is_active_in(members, a, c));
            assert(has_entry_for(entries, a, c));
            let k = choose|k: u128| #[trigger]
                entries.contains_key(k) && entries[k] == (a, c);
            assert(e2.contains_key(k) && e2[k] == (a, c));
        }
    }
}

/// Expiring the pair an entry points at while removing that entry keeps
/// the membership map and the bucket entries in agreement.
proof fn lemma_linked_expire(
    members: Map<u128, MemberState>,
    entries: Map<u128, (u64, u64)>,
    removed_k: u128,
    account: u64,
    club_id: u64,
    d: MembershipDetails,
)
    requires
        spec_linked(members, entries),
        entries.contains_key(removed_k),
        entries[removed_k] == (account, club_id),
        members.contains_key(pair_key(account, club_id)),
        members[pair_key(account, club_id)] == MemberState::Active(d),
    ensures
        spec_linked(
            members.insert(
                pair_key(account, club_id),
                MemberState::Expired(ExpirationDetails { previous_membership_details: d }),
            ),
            entries.remove(removed_k),
        ),
{
    let mk = pair_key(account, club_id);
    let m2 = members.insert(
        mk,
        MemberState::Expired(ExpirationDetails { previous_membership_details: d }),
    );
    let e2 = entries.remove(removed_k);
    assert forall|k: u128| #[trigger]
        e2.contains_key(k) implies is_active_in(m2, e2[k].0, e2[k].1) by {
        assert(is_active_in(members, entries[k].0, entries[k].1));
        if entries[k] == (account, club_id) {
            assert(entries[k] == entries[removed_k]);
            assert(k == removed_k);
            assert(false);
        }
        lemma_pair_key_injective(entries[k].0, entries[k].1, account, club_id);
    }
    assert forall|a: u64, c: u64| #[trigger]
        is_active_in(m2, a, c) implies has_entry_for(e2, a, c) by {
        lemma_pair_key_injective(a, c, account, club_id);
        if a == account && c == club_id {
            assert(false);
        } else {
            assert(is_active_in(members, a, c));
            assert(has_entry_for(entries, a, c));
            let k = choose|k: u128| #[trigger]
                entries.contains_key(k) && entries[k] == (a, c);
            if k == removed_k {
                assert((a, c) == (account, club_id));
                assert(false);
            }
            assert(e2.contains_key(k) && e2[k] == (a, c));
        }
    }
}

/// The club registry, membership lifecycle, expiration scheduler and
/// their ledger, advanced one command or one tick at a time.
pub struct Pallet {
    config: Config,
    root_account: Option<u64>,
    club_creation_fee: u128,
    ledger: Ledger,
    clubs: Vec<ClubDetails>,
    members: HashMap<u128, MemberState>,
    scheduler: ExpirationScheduler,
    current_block: u64,
    events: Vec<Event>,
}

impl Pallet {
    /// The privileged root account, if one was bootstrapped at genesis.
    pub closed spec fn spec_root_account(self) -> Option<u64> {
        self.root_account
    }

    /// The fee charged for creating a club.
    pub closed spec fn spec_club_creation_fee(self) -> u128 {
        self.club_creation_fee
    }

    /// Ticks per year of membership.
    pub closed spec fn spec_blocks_per_year(self) -> u64 {
        self.config.blocks_per_year
    }

    /// The largest number of years a single request may cover.
    pub closed spec fn spec_max_number_of_years(self) -> u8 {
        self.config.max_number_of_years
    }

    /// The account that collects fees and charges.
    pub closed spec fn spec_sink_account(self) -> u64 {
        self.config.sink_account
    }

    /// The ledger holding every account's balance.
    pub closed spec fn spec_ledger(self) -> Ledger {
        self.ledger
    }

    /// The balance of `account`.
    pub open spec fn spec_balance(self, account: u64) -> u128 {
        self.spec_ledger().spec_balance(account)
    }

    /// The clubs in creation order: club id `i` sits at index `i - 1`.
    pub closed spec fn spec_clubs(self) -> Seq<ClubDetails> {
        self.clubs@
    }

    /// The lifecycle state per packed `(account, club_id)` key.
    pub closed spec fn spec_members(self) -> Map<u128, MemberState> {
        self.members@
    }

    /// The expiration scheduler's state.
    pub closed spec fn spec_scheduler(self) -> ExpirationScheduler {
        self.scheduler
    }

    /// The expiration buckets' slot counters, one per pending tick.
    pub open spec fn spec_expiration_counts(self) -> Map<u64, u64> {
        self.spec_scheduler().spec_counts()
    }

    /// The expiration bucket entries, keyed by packed `(tick, slot)`.
    pub open spec fn spec_expiration_entries(self) -> Map<u128, (u64, u64)> {
        self.spec_scheduler().spec_entries()
    }

    /// The current tick.
    pub closed spec fn spec_block_number(self) -> u64 {
        self.current_block
    }

    /// The events emitted so far, in emission order.
    pub closed spec fn spec_events(self) -> Seq<Event> {
        self.events@
    }

    /// The id the next created club will get.
    pub open spec fn spec_next_club_id(self) -> int {
        self.spec_clubs().len() as int + 1
    }

    /// The club registered under `club_id`, if any.
    pub open spec fn spec_club(self, club_id: u64) -> Option<ClubDetails> {
        if 1 <= club_id && club_id <= self.spec_clubs().len() {
            Some(self.spec_clubs()[club_id - 1])
        } else {
            None
        }
    }

    /// The lifecycle state of `(account, club_id)`, if any.
    pub open spec fn spec_member_state(self, account: u64, club_id: u64) -> Option<MemberState> {
        if self.spec_members().contains_key(pair_key(account, club_id)) {
            Some(self.spec_members()[pair_key(account, club_id)])
        } else {
            None
        }
    }

    /// A membership request for `(account, club_id)` awaits admission.
    pub open spec fn spec_is_requested(self, account: u64, club_id: u64) -> bool {
        match self.spec_member_state(account, club_id) {
            Some(MemberState::Requested(_)) => true,
            _ => false,
        }
    }

    /// `(account, club_id)` holds an active membership.
    pub open spec fn spec_is_active(self, account: u64, club_id: u64) -> bool {
        match self.spec_member_state(account, club_id) {
            Some(MemberState::Active(_)) => true,
            _ => false,
        }
    }

    /// `(account, club_id)` holds an expired membership.
    pub open spec fn spec_is_expired(self, account: u64, club_id: u64) -> bool {
        match self.spec_member_state(account, club_id) {
            Some(MemberState::Expired(_)) => true,
            _ => false,
        }
    }

    /// The pending membership request of `(account, club_id)`, if any.
    pub open spec fn spec_membership_request(self, account: u64, club_id: u64) -> Option<
        MembershipRequestDetails,
    > {
        match self.spec_member_state(account, club_id) {
            Some(MemberState::Requested(details)) => Some(details),
            _ => None,
        }
    }

    /// The active membership of `(account, club_id)`, if any.
    pub open spec fn spec_club_membership(self, account: u64, club_id: u64) -> Option<
        MembershipDetails,
    > {
        match self.spec_member_state(account, club_id) {
            Some(MemberState::Active(details)) => Some(details),
            _ => None,
        }
    }

    /// The expired membership record of `(account, club_id)`, if any.
    pub open spec fn spec_expired_membership(self, account: u64, club_id: u64) -> Option<
        ExpirationDetails,
    > {
        match self.spec_member_state(account, club_id) {
            Some(MemberState::Expired(details)) => Some(details),
            _ => None,
        }
    }

    /// The state is well formed: the registry has room for one more id,
    /// the scheduler's buckets are well formed, the event log agrees
    /// with the registry, and each active membership has exactly one
    /// live bucket entry.
    pub open spec fn wf(self) -> bool {
        &&& self.spec_clubs().len() < u64::MAX
        &&& self.spec_scheduler().wf()
        &&& club_event_history_ok(self.spec_events(), self.spec_clubs().len() as int)
        &&& spec_linked(self.spec_members(), self.spec_expiration_entries())
    }

    /// A fresh pallet: the given configuration and ledger, no clubs, no
    /// lifecycle records, no pending expirations, no events, tick zero.
    pub fn new(config: Config, genesis: GenesisConfig, ledger: Ledger) -> (pallet: Pallet)
        ensures
            pallet.wf(),
            pallet.spec_root_account() == genesis.root_account,
            pallet.spec_club_creation_fee() == genesis.club_creation_fee,
            pallet.spec_blocks_per_year() == config.blocks_per_year,
            pallet.spec_max_number_of_years() == config.max_number_of_years,
            pallet.spec_sink_account() == config.sink_account,
            spec_balances_eq(ledger, pallet.spec_ledger()),
            pallet.spec_clubs() == Seq::<ClubDetails>::empty(),
            pallet.spec_members() == Map::<u128, MemberState>::empty(),
            pallet.spec_expiration_counts() == Map::<u64, u64>::empty(),
            pallet.spec_expiration_entries() == Map::<u128, (u64, u64)>::empty(),
            pallet.spec_block_number() == 0,
            pallet.spec_events() == Seq::<Event>::empty(),
    {
        let pallet = Pallet {
            config,
            root_account: genesis.root_account,
            club_creation_fee: genesis.club_creation_fee,
            ledger,
            clubs: Vec::new(),
            members: HashMap::new(),
            scheduler: ExpirationScheduler::new(),
            current_block: 0,
            events: Vec::new(),
        };
        proof {
            assert(pallet.spec_clubs() =~= Seq::<ClubDetails>::empty());
            assert(pallet.spec_events() =~= Seq::<Event>::empty());
        }
        pallet
    }

    /// Sets the current tick; everything else stays put.
    pub fn set_block_number(&mut self, n: u64)
        requires
            old(self).wf(),
        ensures
            final(self).wf(),
            final(self).spec_block_number() == n,
            spec_frame_eq(*old(self), *final(self)),
            final(self).spec_clubs() == old(self).spec_clubs(),
            final(self).spec_members() == old(self).spec_members(),
            final(self).spec_expiration_counts() == old(self).spec_expiration_counts(),
            final(self).spec_expiration_entries() == old(self).spec_expiration_entries(),
            final(self).spec_events() == old(self).spec_events(),
            spec_balances_eq(old(self).spec_ledger(), final(self).spec_ledger()),
    {
        self.current_block = n;
    }

    /// The current tick.
    pub fn block_number(&self) -> (n: u64)
        ensures
            n == self.spec_block_number(),
    {
        self.current_block
    }

    /// The id the next created club will get.
    pub fn next_club_id(&self) -> (id: u64)
        requires
            self.wf(),
        ensures
            id == self.spec_next_club_id(),
    {
        self.clubs.len() as u64 + 1
    }

    /// The club registered under `club_id`, if any.
    pub fn club(&self, club_id: u64) -> (club: Option<ClubDetails>)
        ensures
            club == self.spec_club(club_id),
    {
        let len: u64 = self.clubs.len() as u64;
        if 1 <= club_id && club_id <= len {
            Some(self.clubs[(club_id - 1) as usize])
        } else {
            None
        }
    }

    /// The lifecycle state of `(account, club_id)`, if any.
    pub fn member_state(&self, account: u64, club_id: u64) -> (state: Option<MemberState>)
        ensures
            state == self.spec_member_state(account, club_id),
    {
        let k = make_key(account, club_id);
        match self.members.get(&k) {
            Some(s) => Some(*s),
            None => None,
        }
    }

    /// The pending membership request of `(account, club_id)`, if any.
    pub fn membership_request(&self, account: u64, club_id: u64) -> (request: Option<
        MembershipRequestDetails,
    >)
        ensures
            request == self.spec_membership_request(account, club_id),
    {
        match self.member_state(account, club_id) {
            Some(MemberState::Requested(details)) => Some(details),
            _ => None,
        }
    }

    /// The active membership of `(account, club_id)`, if any.
    pub fn club_membership(&self, account: u64, club_id: u64) -> (membership: Option<
        MembershipDetails,
    >)
        ensures
            membership == self.spec_club_membership(account, club_id),
    {
        match self.member_state(account, club_id) {
            Some(MemberState::Active(details)) => Some(details),
            _ => None,
        }
    }

    /// The expired membership record of `(account, club_id)`, if any.
    pub fn expired_membership(&self, account: u64, club_id: u64) -> (record: Option<
        ExpirationDetails,
    >)
        ensures
            record == self.spec_expired_membership(account, club_id),
    {
        match self.member_state(account, club_id) {
            Some(MemberState::Expired(details)) => Some(details),
            _ => None,
        }
    }

    /// The slot counter of `tick`'s expiration bucket, if it exists.
    pub fn expirations_per_block(&self, tick: u64) -> (count: Option<u64>)
        ensures
            match count {
                Some(c) => self.spec_expiration_counts().contains_key(tick) && c
                    == self.spec_expiration_counts()[tick],
                None => !self.spec_expiration_counts().contains_key(tick),
            },
    {
        self.scheduler.count_of(tick)
    }

    /// The expiration entry in slot `slot` of `tick`'s bucket, if present.
    pub fn future_expiration(&self, tick: u64, slot: u64) -> (entry: Option<(u64, u64)>)
        ensures
            match entry {
                Some(e) => self.spec_expiration_entries().contains_key(pair_key(tick, slot)) && e
                    == self.spec_expiration_entries()[pair_key(tick, slot)],
                None => !self.spec_expiration_entries().contains_key(pair_key(tick, slot)),
            },
    {
        self.scheduler.entry_at(tick, slot)
    }

    /// The balance of `account`.
    pub fn free_balance(&self, account: u64) -> (balance: u128)
        ensures
            balance == self.spec_balance(account),
    {
        self.ledger.free_balance(account)
    }

    /// The events emitted so far, in emission order.
    pub fn events(&self) -> (events: &Vec<Event>)
        ensures
            events@ == self.spec_events(),
    {
        &self.events
    }

    /// The outcome `create_club` is owed: only the configured root may
    /// create a club, there must be a root, the registry must have room
    /// for the id, and the creation fee must be transferable from the
    /// caller to the sink. The fresh club id is returned.
    pub open spec fn spec_create_club_result(
        self,
        caller: u64,
        owner: u64,
        expense_per_year: u128,
    ) -> Result<u64, Error> {
        match self.spec_root_account() {
            None => Err(Error::NoRootConfiguredAtGenesis),
            Some(root) => if caller != root {
                Err(Error::UserIsNotRoot)
            } else if self.spec_next_club_id() >= u64::MAX {
                Err(Error::ArithmeticOverflow)
            } else {
                match self.spec_ledger().spec_transfer_result(
                    caller,
                    self.spec_sink_account(),
                    self.spec_club_creation_fee(),
                    true,
                ) {
                    Err(e) => Err(ledger_error_to_error(e)),
                    Ok(_) => Ok(self.spec_next_club_id() as u64),
                }
            },
        }
    }

    /// Creates a new club owned by `owner` with the given annual expense.
    /// Only the root account may call; the creation fee moves from the
    /// caller to the sink. Assigns the next club id and emits
    /// `ClubCreated`. A rejected call changes nothing.
    pub fn create_club(&mut self, caller: u64, owner: u64, expense_per_year: u128) -> (result:
        Result<u64, Error>)
        requires
            old(self).wf(),
        ensures
            final(self).wf(),
            result == old(self).spec_create_club_result(caller, owner, expense_per_year),
            match result {
                Ok(id) => spec_create_club_post(
                    *old(self),
                    *final(self),
                    caller,
                    owner,
                    expense_per_year,
                    id,
                ),
                Err(_) => spec_state_eq(*old(self), *final(self)),
            },
    {
        let root = match self.root_account {
            None => { return Err(Error::NoRootConfiguredAtGenesis) },
            Some(r) => r,
        };
        if caller != root {
            return Err(Error::UserIsNotRoot);
        }
        let len: u64 = self.clubs.len() as u64;
        if len >= u64::MAX - 1 {
            return Err(Error::ArithmeticOverflow);
        }
        let next_id: u64 = len + 1;
        match self.ledger.transfer(caller, self.config.sink_account, self.club_creation_fee, true)
        {
            Err(e) => { return Err(map_ledger_error(e)) },
            Ok(_) => {},
        }
        self.clubs.push(ClubDetails { owner, expense_per_year });
        let event = Event::ClubCreated {
            club_id: next_id,
            club_owner: owner,
            annual_expense: expense_per_year,
        };
        self.events.push(event);
        proof {
            lemma_history_push_created(
                old(self).spec_events(),
                old(self).spec_clubs().len() as int,
                event,
            );
        }
        Ok(next_id)
    }

    /// The outcome `transfer_club_ownership` is owed: the club must exist
    /// and the caller must be its current owner.
    pub open spec fn spec_transfer_club_ownership_result(
        self,
        caller: u64,
        club_id: u64,
        new_owner: u64,
    ) -> Result<(), Error> {
        match self.spec_club(club_id) {
            None => Err(Error::ClubNotFound),
            Some(club) => if club.owner != caller {
                Err(Error::NotClubOwner)
            } else {
                Ok(())
            },
        }
    }

    /// Hands the club to `new_owner`; only the current owner may call.
    /// Emits `ClubOwnerChanged`. A rejected call changes nothing.
    pub fn transfer_club_ownership(&mut self, caller: u64, club_id: u64, new_owner: u64) -> (result:
        Result<(), Error>)
        requires
            old(self).wf(),
        ensures
            final(self).wf(),
            result == old(self).spec_transfer_club_ownership_result(caller, club_id, new_owner),
            match result {
                Ok(_) => spec_transfer_club_ownership_post(
                    *old(self),
                    *final(self),
                    caller,
                    club_id,
                    new_owner,
                ),
                Err(_) => spec_state_eq(*old(self), *final(self)),
            },
    {
        let club = match self.club(club_id) {
            None => { return Err(Error::ClubNotFound) },
            Some(c) => c,
        };
        if club.owner != caller {
            return Err(Error::NotClubOwner);
        }
        let n: usize = self.clubs.len();
        proof {
            assert(1 <= club_id && club_id <= n);
        }
        let idx: usize = (club_id - 1) as usize;
        self.clubs[idx] = ClubDetails { owner: new_owner, expense_per_year: club.expense_per_year };
        let event = Event::ClubOwnerChanged { club_id, old_owner: caller, new_owner };
        self.events.push(event);
        proof {
            lemma_history_push_other(
                old(self).spec_events(),
                old(self).spec_clubs().len() as int,
                event,
            );
        }
        Ok(())
    }

    /// The outcome `change_club_expense` is owed: the club must exist and
    /// the caller must be its current owner.
    pub open spec fn spec_change_club_expense_result(
        self,
        caller: u64,
        club_id: u64,
        new_expense_per_year: u128,
    ) -> Result<(), Error> {
        match self.spec_club(club_id) {
            None => Err(Error::ClubNotFound),
            Some(club) => if club.owner != caller {
                Err(Error::NotClubOwner)
            } else {
                Ok(())
            },
        }
    }

    /// Sets the club's annual expense; only the owner may call. Emits
    /// `AnnualExpenseSet` with the old and new values. A rejected call
    /// changes nothing.
    pub fn change_club_expense(
        &mut self,
        caller: u64,
        club_id: u64,
        new_expense_per_year: u128,
    ) -> (result: Result<(), Error>)
        requires
            old(self).wf(),
        ensures
            final(self).wf(),
            result == old(self).spec_change_club_expense_result(
                caller,
                club_id,
                new_expense_per_year,
            ),
            match result {
                Ok(_) => spec_change_club_expense_post(
                    *old(self),
                    *final(self),
                    caller,
                    club_id,
                    new_expense_per_year,
                ),
                Err(_) => spec_state_eq(*old(self), *final(self)),
            },
    {
        let club = match self.club(club_id) {
            None => { return Err(Error::ClubNotFound) },
            Some(c) => c,
        };
        if club.owner != caller {
            return Err(Error::NotClubOwner);
        }
        let n: usize = self.clubs.len();
        proof {
            assert(1 <= club_id && club_id <= n);
        }
        let idx: usize = (club_id - 1) as usize;
        self.clubs[idx] = ClubDetails { owner: club.owner, expense_per_year: new_expense_per_year };
        let event = Event::AnnualExpenseSet {
            club_id,
            old_annual_expense: club.expense_per_year,
            new_annual_expense: new_expense_per_year,
        };
        self.events.push(event);
        proof {
            lemma_history_push_other(
                old(self).spec_events(),
                old(self).spec_clubs().len() as int,
                event,
            );
        }
        Ok(())
    }
    /// What a membership over `time_in_year` years costs at `club_id`'s
    /// annual expense, as an unbounded integer.
    pub open spec fn spec_membership_cost(self, club_id: u64, time_in_year: u8) -> int {
        self.spec_clubs()[club_id - 1].expense_per_year * time_in_year
    }

    /// The outcome a membership or renewal request is owed: the club must
    /// exist; the pair must hold no pending request and no active
    /// membership; a fresh request requires no expired record where a
    /// renewal requires one; the duration may not exceed the configured
    /// maximum; the cost must fit the balance width; and the cost must be
    /// transferable from the requester to the sink.
    pub open spec fn spec_request_result(
        self,
        account: u64,
        club_id: u64,
        time_in_year: u8,
        is_renewal: bool,
    ) -> Result<(), Error> {
        match self.spec_club(club_id) {
            None => Err(Error::ClubNotFound),
            Some(club) => if self.spec_is_requested(account, club_id) {
                Err(Error::MembershipAlreadyRequested)
            } else if self.spec_is_active(account, club_id) {
                Err(Error::AlreadyMember)
            } else if !is_renewal && self.spec_is_expired(account, club_id) {
                Err(Error::ExpiredMember)
            } else if is_renewal && !self.spec_is_expired(account, club_id) {
                Err(Error::NoMembershipExpirationFound)
            } else if time_in_year > self.spec_max_number_of_years() {
                Err(Error::MembershipTimeExceeded)
            } else if self.spec_membership_cost(club_id, time_in_year) > u128::MAX {
                Err(Error::ArithmeticOverflow)
            } else {
                match self.spec_ledger().spec_transfer_result(
                    account,
                    self.spec_sink_account(),
                    self.spec_membership_cost(club_id, time_in_year) as u128,
                    true,
                ) {
                    Err(e) => Err(ledger_error_to_error(e)),
                    Ok(_) => Ok(()),
                }
            },
        }
    }

    /// Requests a fresh membership at `club_id` for `time_in_year` years,
    /// paying the cost up front. Stores the pending request and emits
    /// `MembershipRequested`. A rejected call changes nothing.
    pub fn request_membership(&mut self, account: u64, club_id: u64, time_in_year: u8) -> (result:
        Result<(), Error>)
        requires
            old(self).wf(),
        ensures
            final(self).wf(),
            result == old(self).spec_request_result(account, club_id, time_in_year, false),
            match result {
                Ok(_) => spec_request_post(
                    *old(self),
                    *final(self),
                    account,
                    club_id,
                    time_in_year,
                    false,
                ),
                Err(_) => spec_state_eq(*old(self), *final(self)),
            },
    {
        self.handle_membership_request(account, club_id, time_in_year, false)
    }

    /// Requests the renewal of an expired membership at `club_id` for
    /// `time_in_year` years, paying the cost up front. Consumes the
    /// expired record, stores the pending request and emits
    /// `MembershipRequested`. A rejected call changes nothing.
    pub fn request_membership_renewal(
        &mut self,
        account: u64,
        club_id: u64,
        time_in_year: u8,
    ) -> (result: Result<(), Error>)
        requires
            old(self).wf(),
        ensures
            final(self).wf(),
            result == old(self).spec_request_result(account, club_id, time_in_year, true),
            match result {
                Ok(_) => spec_request_post(
                    *old(self),
                    *final(self),
                    account,
                    club_id,
                    time_in_year,
                    true,
                ),
                Err(_) => spec_state_eq(*old(self), *final(self)),
            },
    {
        self.handle_membership_request(account, club_id, time_in_year, true)
    }

    /// The shared body of `request_membership` and
    /// `request_membership_renewal`: validate, charge, store the request.
    fn handle_membership_request(
        &mut self,
        account: u64,
        club_id: u64,
        time_in_year: u8,
        is_renewal: bool,
    ) -> (result: Result<(), Error>)
        requires
            old(self).wf(),
        ensures
            final(self).wf(),
            result == old(self).spec_request_result(account, club_id, time_in_year, is_renewal),
            match result {
                Ok(_) => spec_request_post(
                    *old(self),
                    *final(self),
                    account,
                    club_id,
                    time_in_year,
                    is_renewal,
                ),
                Err(_) => spec_state_eq(*old(self), *final(self)),
            },
    {
        let club = match self.club(club_id) {
            None => { return Err(Error::ClubNotFound) },
            Some(c) => c,
        };
        match self.member_state(account, club_id) {
            Some(MemberState::Requested(_)) => {
                return Err(Error::MembershipAlreadyRequested);
            },
            Some(MemberState::Active(_)) => {
                return Err(Error::AlreadyMember);
            },
            Some(MemberState::Expired(_)) => {
                if !is_renewal {
                    return Err(Error::ExpiredMember);
                }
            },
            None => {
                if is_renewal {
                    return Err(Error::NoMembershipExpirationFound);
                }
            },
        }
        if time_in_year > self.config.max_number_of_years {
            return Err(Error::MembershipTimeExceeded);
        }
        let cost: u128 = match club.expense_per_year.checked_mul(time_in_year as u128) {
            None => { return Err(Error::ArithmeticOverflow) },
            Some(c) => c,
        };
        match self.ledger.transfer(account, self.config.sink_account, cost, true) {
            Err(e) => { return Err(map_ledger_error(e)) },
            Ok(_) => {},
        }
        let k = make_key(account, club_id);
        let details = MembershipRequestDetails { amount_paid: cost, time_in_year, is_renewal };
        self.members.insert(k, MemberState::Requested(details));
        let event = Event::MembershipRequested {
            club_id,
            requester: account,
            expense_to_be_charged: cost,
            time_in_year,
            is_renewal,
        };
        self.events.push(event);
        proof {
            lemma_history_push_other(
                old(self).spec_events(),
                old(self).spec_clubs().len() as int,
                event,
            );
            lemma_linked_insert_inactive(
                old(self).spec_members(),
                old(self).spec_expiration_entries(),
                account,
                club_id,
                MemberState::Requested(details),
            );
        }
        Ok(())
    }

    /// The tick at which a membership admitted now for `time_in_year`
    /// years expires, as an unbounded integer.
    pub open spec fn spec_expiry_block(self, time_in_year: u8) -> int {
        self.spec_block_number() + self.spec_blocks_per_year() * time_in_year
    }

    /// The outcome `add_member` is owed: the club must exist, the caller
    /// must own it, the requester must hold a pending request, the expiry
    /// tick must fit its width, and the expiry bucket's slot counter must
    /// have room.
    pub open spec fn spec_add_member_result(
        self,
        caller: u64,
        club_id: u64,
        requester: u64,
    ) -> Result<(), Error> {
        match self.spec_club(club_id) {
            None => Err(Error::ClubNotFound),
            Some(club) => if club.owner != caller {
                Err(Error::NotClubOwner)
            } else {
                match self.spec_membership_request(requester, club_id) {
                    None => Err(Error::MembershipRequestNotFound),
                    Some(req) => if self.spec_expiry_block(req.time_in_year) > u64::MAX {
                        Err(Error::ArithmeticOverflow)
                    } else if self.spec_expiration_counts().contains_key(
                        self.spec_expiry_block(req.time_in_year) as u64,
                    ) && self.spec_expiration_counts()[self.spec_expiry_block(req.time_in_year) as u64]
                        == u64::MAX {
                        Err(Error::ArithmeticOverflow)
                    } else {
                        Ok(())
                    },
                }
            },
        }
    }

    /// Admits `requester` to `club_id`; only the club owner may call.
    /// Consumes the pending request, activates the membership, schedules
    /// its expiration at `current tick + ticks per year x years`, and
    /// emits `MemberAdded` with that tick. A rejected call changes
    /// nothing.
    pub fn add_member(&mut self, caller: u64, club_id: u64, requester: u64) -> (result: Result<
        (),
        Error,
    >)
        requires
            old(self).wf(),
        ensures
            final(self).wf(),
            result == old(self).spec_add_member_result(caller, club_id, requester),
            match result {
                Ok(_) => spec_add_member_post(*old(self), *final(self), caller, club_id, requester),
                Err(_) => spec_state_eq(*old(self), *final(self)),
            },
    {
        let club = match self.club(club_id) {
            None => { return Err(Error::ClubNotFound) },
            Some(c) => c,
        };
        if club.owner != caller {
            return Err(Error::NotClubOwner);
        }
        let req = match self.membership_request(requester, club_id) {
            None => { return Err(Error::MembershipRequestNotFound) },
            Some(r) => r,
        };
        let ticks: u64 = match self.config.blocks_per_year.checked_mul(req.time_in_year as u64) {
            None => { return Err(Error::ArithmeticOverflow) },
            Some(t) => t,
        };
        let expiry: u64 = match self.current_block.checked_add(ticks) {
            None => { return Err(Error::ArithmeticOverflow) },
            Some(e) => e,
        };
        let slot: u64 = match self.scheduler.schedule(expiry, requester, club_id) {
            None => { return Err(Error::ArithmeticOverflow) },
            Some(s) => s,
        };
        let k = make_key(requester, club_id);
        self.members.insert(k, MemberState::Active(MembershipDetails { is_renewal: req.is_renewal }));
        let event = Event::MemberAdded {
            club_id,
            member: requester,
            membership_expiry_block: expiry,
        };
        self.events.push(event);
        proof {
            lemma_history_push_other(
                old(self).spec_events(),
                old(self).spec_clubs().len() as int,
                event,
            );
            assert(slot == spec_admission_slot(*old(self), expiry));
            lemma_pair_key_parts(expiry, slot);
            assert(!old(self).spec_expiration_entries().contains_key(pair_key(expiry, slot)))
                by {
                assert(old(self).spec_scheduler().spec_entries() == old(
                    self,
                ).spec_expiration_entries());
                assert(old(self).spec_scheduler().spec_counts() == old(
                    self,
                ).spec_expiration_counts());
                if old(self).spec_expiration_entries().contains_key(pair_key(expiry, slot)) {
                    assert(old(self).spec_expiration_counts().contains_key(expiry));
                    assert(slot <= old(self).spec_expiration_counts()[expiry]);
                }
            }
            lemma_linked_admit(
                old(self).spec_members(),
                old(self).spec_expiration_entries(),
                requester,
                club_id,
                MembershipDetails { is_renewal: req.is_renewal },
                pair_key(expiry, slot),
            );
        }
        Ok(())
    }

    /// Processes tick `n`'s expiration bucket. With no bucket this is a
    /// cheap no-op, safe to call every tick. Otherwise the bucket's
    /// counter is removed before the walk, so a second call for the same
    /// tick does nothing; the slots are then drained in ascending order,
    /// expiring each scheduled membership that is still active, with a
    /// `MembershipExpired` event each. A slot whose entry is gone is
    /// skipped silently. Returns the number of entries processed.
    pub fn on_initialize(&mut self, n: u64) -> (processed: u64)
        requires
            old(self).wf(),
        ensures
            final(self).wf(),
            spec_process_due(*old(self), *final(self), n, processed),
    {
        let ghost pre = *old(self);
        let count: u64 = match self.scheduler.take_count(n) {
            None => { return 0 },
            Some(c) => c,
        };
        let mut i: u64 = 0;
        let mut processed: u64 = 0;
        proof {
            assert(spec_drain_events(pre, n, 1) =~= Seq::<Event>::empty());
            assert(self.spec_events() =~= pre.spec_events() + spec_drain_events(pre, n, 1));
        }
        while i < count
            invariant
                pre.wf(),
                pre.spec_expiration_counts().contains_key(n),
                count == pre.spec_expiration_counts()[n],
                i <= count,
                processed == i,
                spec_frame_eq(pre, *self),
                self.spec_block_number() == pre.spec_block_number(),
                spec_balances_eq(pre.spec_ledger(), self.spec_ledger()),
                self.spec_clubs() == pre.spec_clubs(),
                self.spec_expiration_counts() == pre.spec_expiration_counts().remove(n),
                forall|k: u128| #[trigger]
                    self.spec_expiration_entries().contains_key(k) == (
                    pre.spec_expiration_entries().contains_key(k) && !(key_hi(k) == n && 1
                        <= key_lo(k) <= i)),
                forall|k: u128| #[trigger]
                    self.spec_expiration_entries().contains_key(k)
                        ==> self.spec_expiration_entries()[k] == pre.spec_expiration_entries()[k],
                forall|a: u64, c: u64| #[trigger]
                    self.spec_member_state(a, c) == spec_member_state_after(pre, n, i + 1, a, c),
                self.spec_events() == pre.spec_events() + spec_drain_events(pre, n, i + 1),
                club_event_history_ok(self.spec_events(), self.spec_clubs().len() as int),
                spec_linked(self.spec_members(), self.spec_expiration_entries()),
            decreases count - i,
        {
            let slot: u64 = i + 1;
            proof {
                lemma_pair_key_parts(n, slot);
                assert(pre.spec_expiration_entries().contains_key(pair_key(n, slot)));
                assert(self.spec_expiration_entries().contains_key(pair_key(n, slot)));
            }
            let ghost head = *self;
            match self.scheduler.take_entry(n, slot) {
                None => {
                    proof {
                        assert(false);
                    }
                },
                Some((account, club_id)) => {
                    proof {
                        assert(pre.spec_expiration_entries()[pair_key(n, slot)] == (
                        account,
                        club_id,
                        ));
                        assert(is_active_in(head.spec_members(), account, club_id));
                    }
                    processed = processed + 1;
                    let mk = make_key(account, club_id);
                    let state: Option<MemberState> = match self.members.get(&mk) {
                        Some(s) => Some(*s),
                        None => None,
                    };
                    match state {
                        Some(MemberState::Active(d)) => {
                            self.members.insert(
                                mk,
                                MemberState::Expired(
                                    ExpirationDetails { previous_membership_details: d },
                                ),
                            );
                            let event = Event::MembershipExpired { club_id, member: account };
                            proof {
                                lemma_history_push_other(
                                    self.spec_events(),
                                    self.spec_clubs().len() as int,
                                    event,
                                );
                                lemma_linked_expire(
                                    head.spec_members(),
                                    head.spec_expiration_entries(),
                                    pair_key(n, slot),
                                    account,
                                    club_id,
                                    d,
                                );
                            }
                            self.events.push(event);
                        },
                        _ => {
                            proof {
                                assert(false);
                            }
                        },
                    }
                    proof {
                        lemma_drain_step(pre, head, *self, n, slot, account, club_id);
                        assert(spec_drain_events(pre, n, slot + 1) == spec_drain_events(
                            pre,
                            n,
                            slot as int,
                        ).push(Event::MembershipExpired { club_id, member: account }));
                        assert(self.spec_events() =~= pre.spec_events() + spec_drain_events(
                            pre,
                            n,
                            slot + 1,
                        ));
                    }
                },
            }
            i = i + 1;
        }
        proof {
            lemma_drain_done(pre, *self, n, count);
        }
        processed
    }
}

/// The slot a membership admitted now at tick `expiry` is scheduled in:
/// one past the bucket's counter, or slot one of a fresh bucket.
pub open spec fn spec_admission_slot(pre: Pallet, expiry: u64) -> u64 {
    if pre.spec_expiration_counts().contains_key(expiry) {
        (pre.spec_expiration_counts()[expiry] + 1) as u64
    } else {
        1u64
    }
}

/// How a successful `add_member` changes the state: the pending request
/// becomes an active membership carrying its renewal flag, the pair is
/// scheduled to expire at the computed tick in the bucket's next slot,
/// `MemberAdded` is emitted, and everything else stays put.
pub open spec fn spec_add_member_post(
    pre: Pallet,
    post: Pallet,
    caller: u64,
    club_id: u64,
    requester: u64,
) -> bool {
    let req = pre.spec_membership_request(requester, club_id)->0;
    let expiry = pre.spec_expiry_block(req.time_in_year) as u64;
    let slot = spec_admission_slot(pre, expiry);
    &&& pre.spec_membership_request(requester, club_id) is Some
    &&& spec_frame_eq(pre, post)
    &&& post.spec_block_number() == pre.spec_block_number()
    &&& spec_balances_eq(pre.spec_ledger(), post.spec_ledger())
    &&& post.spec_clubs() == pre.spec_clubs()
    &&& post.spec_members() == pre.spec_members().insert(
        pair_key(requester, club_id),
        MemberState::Active(MembershipDetails { is_renewal: req.is_renewal }),
    )
    &&& post.spec_expiration_counts() == pre.spec_expiration_counts().insert(expiry, slot)
    &&& post.spec_expiration_entries() == pre.spec_expiration_entries().insert(
        pair_key(expiry, slot),
        (requester, club_id),
    )
    &&& post.spec_events() == pre.spec_events().push(
        Event::MemberAdded { club_id, member: requester, membership_expiry_block: expiry },
    )
}

/// The events a drain of tick `n`'s slots strictly below `upto` emits:
/// one `MembershipExpired` per slot, in ascending slot order, naming the
/// pair the slot's entry holds. (In a well-formed state every slot of a
/// live bucket is filled and points at an active membership.)
pub open spec fn spec_drain_events(pre: Pallet, n: u64, upto: int) -> Seq<Event>
    decreases upto,
{
    if upto <= 1 {
        Seq::empty()
    } else {
        let entry = pre.spec_expiration_entries()[pair_key(n, (upto - 1) as u64)];
        spec_drain_events(pre, n, upto - 1).push(
            Event::MembershipExpired { club_id: entry.1, member: entry.0 },
        )
    }
}

/// Some slot strictly below `upto` in tick `n`'s bucket holds
/// `(account, club_id)`.
pub open spec fn spec_scheduled_in_prefix(
    pre: Pallet,
    n: u64,
    upto: int,
    account: u64,
    club_id: u64,
) -> bool {
    exists|j: u64|
        1 <= j < upto && #[trigger] pre.spec_expiration_entries().contains_key(pair_key(n, j))
            && pre.spec_expiration_entries()[pair_key(n, j)] == (account, club_id)
}

/// The lifecycle state of `(account, club_id)` once the slots strictly
/// below `upto` of tick `n`'s bucket have been drained: an active
/// membership scheduled there becomes expired, carrying its renewal
/// flag; every other state stays as it was.
pub open spec fn spec_member_state_after(
    pre: Pallet,
    n: u64,
    upto: int,
    account: u64,
    club_id: u64,
) -> Option<MemberState> {
    match pre.spec_member_state(account, club_id) {
        Some(MemberState::Active(d)) => if spec_scheduled_in_prefix(
            pre,
            n,
            upto,
            account,
            club_id,
        ) {
            Some(MemberState::Expired(ExpirationDetails { previous_membership_details: d }))
        } else {
            Some(MemberState::Active(d))
        },
        other => other,
    }
}

/// How `on_initialize(n)` relates the states: with no bucket for `n` it
/// reports zero and changes nothing. Otherwise it reports the bucket's
/// count, removes the bucket's counter and entries, expires exactly the
/// active memberships scheduled in the bucket, and appends one
/// `MembershipExpired` event per slot, in ascending slot order.
pub open spec fn spec_process_due(pre: Pallet, post: Pallet, n: u64, processed: u64) -> bool {
    if !pre.spec_expiration_counts().contains_key(n) {
        &&& processed == 0
        &&& spec_state_eq(pre, post)
    } else {
        let count = pre.spec_expiration_counts()[n];
        &&& processed == count
        &&& spec_frame_eq(pre, post)
        &&& post.spec_block_number() == pre.spec_block_number()
        &&& spec_balances_eq(pre.spec_ledger(), post.spec_ledger())
        &&& post.spec_clubs() == pre.spec_clubs()
        &&& post.spec_expiration_counts() == pre.spec_expiration_counts().remove(n)
        &&& forall|k: u128| #[trigger]
            post.spec_expiration_entries().contains_key(k) == (
            pre.spec_expiration_entries().contains_key(k) && !(key_hi(k) == n && 1 <= key_lo(k)
                <= count))
        &&& forall|k: u128| #[trigger]
            post.spec_expiration_entries().contains_key(k)
                ==> post.spec_expiration_entries()[k] == pre.spec_expiration_entries()[k]
        &&& forall|account: u64, club_id: u64| #[trigger]
            post.spec_member_state(account, club_id) == spec_member_state_after(
                pre,
                n,
                count + 1,
                account,
                club_id,
            )
        &&& post.spec_events() == pre.spec_events() + spec_drain_events(pre, n, count + 1)
    }
}

/// A pair scheduled below `u1` is scheduled below any later bound.
proof fn lemma_scheduled_prefix_mono(pre: Pallet, n: u64, u1: int, u2: int, a: u64, c: u64)
    requires
        u1 <= u2,
        spec_scheduled_in_prefix(pre, n, u1, a, c),
    ensures
        spec_scheduled_in_prefix(pre, n, u2, a, c),
{
    let j = choose|j: u64|
        1 <= j < u1 && #[trigger] pre.spec_expiration_entries().contains_key(pair_key(n, j))
            && pre.spec_expiration_entries()[pair_key(n, j)] == (a, c);
    assert(1 <= j < u2 && pre.spec_expiration_entries().contains_key(pair_key(n, j))
        && pre.spec_expiration_entries()[pair_key(n, j)] == (a, c));
}

/// One drain step: processing slot `slot` of tick `n`'s bucket carries
/// the drain invariants from bound `slot` to bound `slot + 1`.
proof fn lemma_drain_step(
    pre: Pallet,
    head: Pallet,
    cur: Pallet,
    n: u64,
    slot: u64,
    account: u64,
    club_id: u64,
)
    requires
        slot >= 1,
        pre.spec_expiration_entries().contains_key(pair_key(n, slot)),
        pre.spec_expiration_entries()[pair_key(n, slot)] == (account, club_id),
        forall|k: u128| #[trigger]
            head.spec_expiration_entries().contains_key(k) == (
            pre.spec_expiration_entries().contains_key(k) && !(key_hi(k) == n && 1 <= key_lo(k)
                < slot)),
        forall|k: u128| #[trigger]
            head.spec_expiration_entries().contains_key(k)
                ==> head.spec_expiration_entries()[k] == pre.spec_expiration_entries()[k],
        forall|a: u64, c: u64| #[trigger]
            head.spec_member_state(a, c) == spec_member_state_after(pre, n, slot as int, a, c),
        cur.spec_expiration_entries() == head.spec_expiration_entries().remove(pair_key(n, slot)),
        match head.spec_member_state(account, club_id) {
            Some(MemberState::Active(d)) => cur.spec_members() == head.spec_members().insert(
                pair_key(account, club_id),
                MemberState::Expired(ExpirationDetails { previous_membership_details: d }),
            ),
            _ => cur.spec_members() == head.spec_members(),
        },
    ensures
        forall|k: u128| #[trigger]
            cur.spec_expiration_entries().contains_key(k) == (
            pre.spec_expiration_entries().contains_key(k) && !(key_hi(k) == n && 1 <= key_lo(k)
                <= slot)),
        forall|k: u128| #[trigger]
            cur.spec_expiration_entries().contains_key(k)
                ==> cur.spec_expiration_entries()[k] == pre.spec_expiration_entries()[k],
        forall|a: u64, c: u64| #[trigger]
            cur.spec_member_state(a, c) == spec_member_state_after(pre, n, slot + 1, a, c),
{
    let sk = pair_key(n, slot);
    lemma_pair_key_parts(n, slot);
    assert forall|k: u128| #[trigger]
        cur.spec_expiration_entries().contains_key(k) == (
        pre.spec_expiration_entries().contains_key(k) && !(key_hi(k) == n && 1 <= key_lo(k)
            <= slot)) by {
        lemma_pair_key_roundtrip(k);
        if k != sk && key_hi(k) == n && key_lo(k) == slot {
            assert(k == pair_key(key_hi(k), key_lo(k)));
            assert(false);
        }
    }
    assert(spec_scheduled_in_prefix(pre, n, slot + 1, account, club_id)) by {
        assert(1 <= slot < slot + 1 && pre.spec_expiration_entries().contains_key(
            pair_key(n, slot),
        ) && pre.spec_expiration_entries()[pair_key(n, slot)] == (account, club_id));
    }
    assert forall|a: u64, c: u64| #[trigger]
        cur.spec_member_state(a, c) == spec_member_state_after(pre, n, slot + 1, a, c) by {
        if a == account && c == club_id {
            assert(head.spec_member_state(a, c) == spec_member_state_after(
                pre,
                n,
                slot as int,
                a,
                c,
            ));
            match head.spec_member_state(account, club_id) {
                Some(MemberState::Active(d)) => {
                    assert(cur.spec_members().contains_key(pair_key(account, club_id)));
                    assert(cur.spec_member_state(a, c) == Some(
                        MemberState::Expired(
                            ExpirationDetails { previous_membership_details: d },
                        ),
                    ));
                    match pre.spec_member_state(account, club_id) {
                        Some(MemberState::Active(d0)) => {
                            assert(d == d0);
                        },
                        _ => {
                            assert(false);
                        },
                    }
                },
                _ => {
                    assert(cur.spec_member_state(a, c) == head.spec_member_state(a, c));
                    match pre.spec_member_state(account, club_id) {
                        Some(MemberState::Active(d0)) => {
                            assert(spec_scheduled_in_prefix(pre, n, slot as int, account, club_id));
                            lemma_scheduled_prefix_mono(
                                pre,
                                n,
                                slot as int,
                                slot + 1,
                                account,
                                club_id,
                            );
                        },
                        _ => {},
                    }
                },
            }
        } else {
            lemma_pair_key_injective(a, c, account, club_id);
            assert(cur.spec_member_state(a, c) == head.spec_member_state(a, c));
            if spec_scheduled_in_prefix(pre, n, slot + 1, a, c) {
                let j = choose|j: u64|
                    1 <= j < slot + 1 && #[trigger] pre.spec_expiration_entries().contains_key(
                        pair_key(n, j),
                    ) && pre.spec_expiration_entries()[pair_key(n, j)] == (a, c);
                if j == slot {
                    assert(false);
                } else {
                    assert(spec_scheduled_in_prefix(pre, n, slot as int, a, c));
                }
            }
            if spec_scheduled_in_prefix(pre, n, slot as int, a, c) {
                lemma_scheduled_prefix_mono(pre, n, slot as int, slot + 1, a, c);
            }
        }
    }
}

/// After every slot of tick `n`'s bucket has been drained, the
/// scheduler's buckets are well formed again.
proof fn lemma_drain_done(pre: Pallet, cur: Pallet, n: u64, count: u64)
    requires
        pre.wf(),
        pre.spec_expiration_counts().contains_key(n),
        count == pre.spec_expiration_counts()[n],
        cur.spec_expiration_counts() == pre.spec_expiration_counts().remove(n),
        forall|k: u128| #[trigger]
            cur.spec_expiration_entries().contains_key(k) == (
            pre.spec_expiration_entries().contains_key(k) && !(key_hi(k) == n && 1 <= key_lo(k)
                <= count)),
    ensures
        cur.spec_scheduler().wf(),
{
    assert(pre.spec_scheduler().spec_counts() == pre.spec_expiration_counts());
    assert(pre.spec_scheduler().spec_entries() == pre.spec_expiration_entries());
    assert(cur.spec_scheduler().spec_counts() == cur.spec_expiration_counts());
    assert(cur.spec_scheduler().spec_entries() == cur.spec_expiration_entries());
    assert forall|t: u64| #[trigger]
        cur.spec_expiration_counts().contains_key(t) implies 1
        <= cur.spec_expiration_counts()[t] by {
        assert(pre.spec_expiration_counts().contains_key(t));
    }
    assert forall|t: u64, i: u64|
        cur.spec_expiration_counts().contains_key(t) && 1 <= i <= cur.spec_expiration_counts()[t]
            implies cur.spec_expiration_entries().contains_key(#[trigger] pair_key(t, i)) by {
        lemma_pair_key_parts(t, i);
        assert(t != n);
        assert(pre.spec_expiration_counts().contains_key(t));
        assert(pre.spec_expiration_entries().contains_key(pair_key(t, i)));
    }
    assert forall|k: u128| #[trigger]
        cur.spec_expiration_entries().contains_key(k) implies cur.spec_expiration_counts().contains_key(
        key_hi(k),
    ) && 1 <= key_lo(k) <= cur.spec_expiration_counts()[key_hi(k)] by {
        assert(pre.spec_expiration_entries().contains_key(k));
        assert(pre.spec_expiration_counts().contains_key(key_hi(k)));
        assert(key_hi(k) != n);
    }
}

/// Maps a refused ledger transfer to the command error that carries it.
fn map_ledger_error(e: LedgerError) -> (error: Error)
    ensures
        error == ledger_error_to_error(e),
{
    match e {
        LedgerError::InsufficientFunds => Error::InsufficientFunds,
        LedgerError::WouldReapAccount => Error::WouldReapAccount,
        LedgerError::Overflow => Error::ArithmeticOverflow,
    }
}

/// How a successful membership or renewal request changes the state: the
/// cost has moved from the requester to the sink, the pair's lifecycle
/// state is now the pending request (a renewal's expired record is
/// consumed by the overwrite), `MembershipRequested` is emitted, and
/// everything else stays put.
pub open spec fn spec_request_post(
    pre: Pallet,
    post: Pallet,
    account: u64,
    club_id: u64,
    time_in_year: u8,
    is_renewal: bool,
) -> bool {
    let cost = pre.spec_membership_cost(club_id, time_in_year) as u128;
    &&& spec_frame_eq(pre, post)
    &&& post.spec_block_number() == pre.spec_block_number()
    &&& spec_transfer_applied(
        pre.spec_ledger(),
        post.spec_ledger(),
        account,
        pre.spec_sink_account(),
        cost,
        true,
    )
    &&& post.spec_clubs() == pre.spec_clubs()
    &&& post.spec_members() == pre.spec_members().insert(
        pair_key(account, club_id),
        MemberState::Requested(
            MembershipRequestDetails { amount_paid: cost, time_in_year, is_renewal },
        ),
    )
    &&& post.spec_scheduler() == pre.spec_scheduler()
    &&& post.spec_events() == pre.spec_events().push(
        Event::MembershipRequested {
            club_id,
            requester: account,
            expense_to_be_charged: cost,
            time_in_year,
            is_renewal,
        },
    )
}

/// How a successful `create_club` changes the state: the new club is
/// appended under the returned id, the creation fee has moved from the
/// caller to the sink, `ClubCreated` is emitted, and everything else
/// stays put.
pub open spec fn spec_create_club_post(
    pre: Pallet,
    post: Pallet,
    caller: u64,
    owner: u64,
    expense_per_year: u128,
    id: u64,
) -> bool {
    &&& id == pre.spec_next_club_id()
    &&& spec_frame_eq(pre, post)
    &&& post.spec_block_number() == pre.spec_block_number()
    &&& spec_transfer_applied(
        pre.spec_ledger(),
        post.spec_ledger(),
        caller,
        pre.spec_sink_account(),
        pre.spec_club_creation_fee(),
        true,
    )
    &&& post.spec_clubs() == pre.spec_clubs().push(ClubDetails { owner, expense_per_year })
    &&& post.spec_members() == pre.spec_members()
    &&& post.spec_scheduler() == pre.spec_scheduler()
    &&& post.spec_events() == pre.spec_events().push(
        Event::ClubCreated { club_id: id, club_owner: owner, annual_expense: expense_per_year },
    )
}

/// How a successful `transfer_club_ownership` changes the state: only
/// the club's owner field changes, and `ClubOwnerChanged` is emitted.
pub open spec fn spec_transfer_club_ownership_post(
    pre: Pallet,
    post: Pallet,
    caller: u64,
    club_id: u64,
    new_owner: u64,
) -> bool {
    &&& spec_frame_eq(pre, post)
    &&& post.spec_block_number() == pre.spec_block_number()
    &&& spec_balances_eq(pre.spec_ledger(), post.spec_ledger())
    &&& post.spec_clubs() == pre.spec_clubs().update(
        club_id - 1,
        spec_with_owner(pre.spec_clubs()[club_id - 1], new_owner),
    )
    &&& post.spec_members() == pre.spec_members()
    &&& post.spec_scheduler() == pre.spec_scheduler()
    &&& post.spec_events() == pre.spec_events().push(
        Event::ClubOwnerChanged { club_id, old_owner: caller, new_owner },
    )
}

/// How a successful `change_club_expense` changes the state: only the
/// club's expense field changes, and `AnnualExpenseSet` is emitted with
/// the old and new values.
pub open spec fn spec_change_club_expense_post(
    pre: Pallet,
    post: Pallet,
    caller: u64,
    club_id: u64,
    new_expense_per_year: u128,
) -> bool {
    &&& spec_frame_eq(pre, post)
    &&& post.spec_block_number() == pre.spec_block_number()
    &&& spec_balances_eq(pre.spec_ledger(), post.spec_ledger())
    &&& post.spec_clubs() == pre.spec_clubs().update(
        club_id - 1,
        spec_with_expense(pre.spec_clubs()[club_id - 1], new_expense_per_year),
    )
    &&& post.spec_members() == pre.spec_members()
    &&& post.spec_scheduler() == pre.spec_scheduler()
    &&& post.spec_events() == pre.spec_events().push(
        Event::AnnualExpenseSet {
            club_id,
            old_annual_expense: pre.spec_clubs()[club_id - 1].expense_per_year,
            new_annual_expense: new_expense_per_year,
        },
    )
}

/// The command error that propagates a refused ledger transfer.
pub open spec fn ledger_error_to_error(e: LedgerError) -> Error {
    match e {
        LedgerError::InsufficientFunds => Error::InsufficientFunds,
        LedgerError::WouldReapAccount => Error::WouldReapAccount,
        LedgerError::Overflow => Error::ArithmeticOverflow,
    }
}

/// The club record with its owner replaced.
pub open spec fn spec_with_owner(club: ClubDetails, new_owner: u64) -> ClubDetails {
    ClubDetails { owner: new_owner, expense_per_year: club.expense_per_year }
}

/// The club record with its annual expense replaced.
pub open spec fn spec_with_expense(club: ClubDetails, new_expense: u128) -> ClubDetails {
    ClubDetails { owner: club.owner, expense_per_year: new_expense }
}

/// The two states agree on everything a command may not touch: the
/// configuration, the root account, the creation fee and the tick.
pub open spec fn spec_frame_eq(pre: Pallet, post: Pallet) -> bool {
    &&& post.spec_root_account() == pre.spec_root_account()
    &&& post.spec_club_creation_fee() == pre.spec_club_creation_fee()
    &&& post.spec_blocks_per_year() == pre.spec_blocks_per_year()
    &&& post.spec_max_number_of_years() == pre.spec_max_number_of_years()
    &&& post.spec_sink_account() == pre.spec_sink_account()
}

/// The two states are observably identical.
pub open spec fn spec_state_eq(pre: Pallet, post: Pallet) -> bool {
    &&& spec_frame_eq(pre, post)
    &&& post.spec_block_number() == pre.spec_block_number()
    &&& spec_balances_eq(pre.spec_ledger(), post.spec_ledger())
    &&& post.spec_clubs() == pre.spec_clubs()
    &&& post.spec_members() == pre.spec_members()
    &&& post.spec_expiration_counts() == pre.spec_expiration_counts()
    &&& post.spec_expiration_entries() == pre.spec_expiration_entries()
    &&& post.spec_events() == pre.spec_events()
}

} // verus!
