//! Properties of the lifecycle that hold across whole command sequences,
//! stated over the same spec views the commands' contracts use.

use vstd::prelude::*;
use crate::keys::pair_key;
use crate::pallet::{
    Pallet, created_id, has_creation_event, has_entry_for, is_active_in, is_club_created,
    spec_add_member_post, spec_admission_slot, spec_member_state_after, spec_process_due,
    spec_request_post, spec_scheduled_in_prefix, spec_state_eq,
};
use crate::types::{Error, ExpirationDetails, MemberState, MembershipDetails};

verus! {

/// Club ids are assigned in strictly increasing order starting at one:
/// in any well-formed state the creation events on record carry strictly
/// increasing ids, every recorded id names an existing club, every
/// existing club was recorded, and as soon as any club exists, id one
/// was assigned.
pub proof fn lemma_club_ids_strictly_increasing(s: Pallet)
    requires
        s.wf(),
    ensures
        forall|i: int, j: int|
            0 <= i < j < s.spec_events().len() && is_club_created(#[trigger] s.spec_events()[i])
                && is_club_created(#[trigger] s.spec_events()[j]) ==> created_id(s.spec_events()[i])
                < created_id(s.spec_events()[j]),
        forall|i: int|
            0 <= i < s.spec_events().len() && is_club_created(#[trigger] s.spec_events()[i])
                ==> 1 <= created_id(s.spec_events()[i]) <= s.spec_clubs().len(),
        forall|c: u64|
            1 <= c <= s.spec_clubs().len() ==> #[trigger] has_creation_event(s.spec_events(), c),
        s.spec_clubs().len() >= 1 ==> has_creation_event(s.spec_events(), 1),
{
}

/// For every account and club, at most one of a pending request, an
/// active membership and an expired record exists — in every state, by
/// construction of the single lifecycle map.
pub proof fn lemma_member_states_exclusive(s: Pallet, account: u64, club_id: u64)
    ensures
        !(s.spec_is_requested(account, club_id) && s.spec_is_active(account, club_id)),
        !(s.spec_is_requested(account, club_id) && s.spec_is_expired(account, club_id)),
        !(s.spec_is_active(account, club_id) && s.spec_is_expired(account, club_id)),
{
}

/// Every active membership has exactly one live expiration entry
/// referencing it: one exists, and any two entries that reference the
/// pair are the same entry.
pub proof fn lemma_active_membership_scheduled_once(s: Pallet, account: u64, club_id: u64)
    requires
        s.wf(),
        s.spec_is_active(account, club_id),
    ensures
        has_entry_for(s.spec_expiration_entries(), account, club_id),
        forall|k1: u128, k2: u128|
            #![trigger s.spec_expiration_entries()[k1], s.spec_expiration_entries()[k2]]
            s.spec_expiration_entries().contains_key(k1)
                && s.spec_expiration_entries().contains_key(k2)
                && s.spec_expiration_entries()[k1] == (account, club_id)
                && s.spec_expiration_entries()[k2] == (account, club_id) ==> k1 == k2,
{
    assert(is_active_in(s.spec_members(), account, club_id));
}

/// The round trip `request -> admit -> process_due(expiry tick)` leaves
/// exactly an expired record whose renewal flag equals the original
/// request's, with the request and the active membership both gone.
pub proof fn lemma_request_admit_expire_round_trip(
    s0: Pallet,
    s1: Pallet,
    s2: Pallet,
    s3: Pallet,
    account: u64,
    club_id: u64,
    time_in_year: u8,
    is_renewal: bool,
    owner: u64,
    expiry: u64,
    processed: u64,
)
    requires
        s0.wf(),
        s1.wf(),
        s2.wf(),
        s0.spec_request_result(account, club_id, time_in_year, is_renewal) == Ok::<(), Error>(()),
        spec_request_post(s0, s1, account, club_id, time_in_year, is_renewal),
        s1.spec_add_member_result(owner, club_id, account) == Ok::<(), Error>(()),
        spec_add_member_post(s1, s2, owner, club_id, account),
        expiry == s1.spec_expiry_block(time_in_year) as u64,
        spec_process_due(s2, s3, expiry, processed),
    ensures
        s3.spec_expired_membership(account, club_id) == Some(
            ExpirationDetails {
                previous_membership_details: MembershipDetails { is_renewal },
            },
        ),
        !s3.spec_is_requested(account, club_id),
        !s3.spec_is_active(account, club_id),
{
    let k = pair_key(account, club_id);
    let req = s1.spec_membership_request(account, club_id)->0;
    assert(s1.spec_members().contains_key(k));
    assert(req.time_in_year == time_in_year && req.is_renewal == is_renewal);
    let slot = spec_admission_slot(s1, expiry);
    assert(s2.spec_member_state(account, club_id) == Some(
        MemberState::Active(MembershipDetails { is_renewal }),
    ));
    assert(s2.spec_expiration_counts().contains_key(expiry));
    assert(s2.spec_expiration_counts()[expiry] == slot);
    assert(1 <= slot) by {
        if s1.spec_expiration_counts().contains_key(expiry) {
            assert(s1.spec_expiration_counts()[expiry] < u64::MAX);
        }
    }
    assert(s2.spec_expiration_entries().contains_key(pair_key(expiry, slot))
        && s2.spec_expiration_entries()[pair_key(expiry, slot)] == (account, club_id));
    assert(spec_scheduled_in_prefix(s2, expiry, slot + 1, account, club_id));
    assert(s3.spec_member_state(account, club_id) == spec_member_state_after(
        s2,
        expiry,
        slot + 1,
        account,
        club_id,
    ));
}

/// Draining a tick's bucket a second time processes nothing and changes
/// nothing: the first drain removed the bucket, and a drain of a tick
/// without a bucket is a no-op.
pub proof fn lemma_process_due_idempotent(
    s0: Pallet,
    s1: Pallet,
    s2: Pallet,
    n: u64,
    p1: u64,
    p2: u64,
)
    requires
        spec_process_due(s0, s1, n, p1),
        spec_process_due(s1, s2, n, p2),
    ensures
        p2 == 0,
        spec_state_eq(s1, s2),
{
    assert(!s1.spec_expiration_counts().contains_key(n));
}

} // verus!
