//! Membership requests, renewals, admission and per-tick expiration.

use pallet_club::ledger::Ledger;
use pallet_club::pallet::Pallet;
use pallet_club::types::{
    Config, Error, Event, ExpirationDetails, GenesisConfig, MembershipDetails,
    MembershipRequestDetails,
};

const SINK: u64 = 9999;

fn new_test_pallet(root_account: u64, club_creation_fee: u128, balances: Vec<(u64, u128)>) -> Pallet {
    let mut ledger = Ledger::new(1);
    for (account, amount) in balances {
        ledger.set_balance(account, amount);
    }
    let config = Config { blocks_per_year: 10, max_number_of_years: 100, sink_account: SINK };
    let genesis = GenesisConfig { root_account: Some(root_account), club_creation_fee };
    let mut pallet = Pallet::new(config, genesis, ledger);
    pallet.set_block_number(1);
    pallet
}

#[test]
fn request_membership_test() {
    let mut pallet = new_test_pallet(1, 1, vec![(1, 100), (2, 100), (3, 200)]);
    assert_eq!(pallet.create_club(1, 2, 100), Ok(1));

    // The club id must exist.
    assert_eq!(pallet.request_membership(3, 2, 100), Err(Error::ClubNotFound));

    // If membership is already requested, a second request fails.
    assert_eq!(pallet.request_membership(3, 1, 1), Ok(()));
    assert_eq!(pallet.request_membership(3, 1, 100), Err(Error::MembershipAlreadyRequested));

    // A member cannot request membership again.
    assert_eq!(pallet.add_member(2, 1, 3), Ok(()));
    assert_eq!(pallet.request_membership(3, 1, 100), Err(Error::AlreadyMember));

    // With an expired membership, a fresh request is refused.
    pallet.set_block_number(11);
    assert_eq!(pallet.on_initialize(11), 1);
    assert_eq!(pallet.request_membership(3, 1, 100), Err(Error::ExpiredMember));

    // Membership time cannot be more than the max number of years (value: 100).
    let mut pallet = new_test_pallet(1, 1, vec![(1, 100), (2, 100), (3, 200)]);
    assert_eq!(pallet.create_club(1, 2, 100), Ok(1));
    assert_eq!(pallet.request_membership(3, 1, 150), Err(Error::MembershipTimeExceeded));

    assert_eq!(pallet.request_membership(3, 1, 1), Ok(()));

    assert_eq!(
        pallet.membership_request(3, 1),
        Some(MembershipRequestDetails { amount_paid: 100, time_in_year: 1, is_renewal: false })
    );

    assert_eq!(pallet.free_balance(3), 200 - 100);

    assert_eq!(
        pallet.events().last(),
        Some(&Event::MembershipRequested {
            club_id: 1,
            requester: 3,
            expense_to_be_charged: 100,
            time_in_year: 1,
            is_renewal: false,
        })
    );
}

#[test]
fn request_membership_renewal_test() {
    let mut pallet = new_test_pallet(1, 1, vec![(1, 100), (2, 100), (3, 200)]);
    assert_eq!(pallet.create_club(1, 2, 100), Ok(1));

    // The club id must exist.
    assert_eq!(pallet.request_membership_renewal(3, 2, 100), Err(Error::ClubNotFound));

    // If membership is already requested, a renewal request fails.
    assert_eq!(pallet.request_membership(3, 1, 1), Ok(()));
    assert_eq!(pallet.request_membership_renewal(3, 1, 100), Err(Error::MembershipAlreadyRequested));

    // A member cannot request a renewal while the membership is active.
    assert_eq!(pallet.add_member(2, 1, 3), Ok(()));
    assert_eq!(pallet.request_membership_renewal(3, 1, 100), Err(Error::AlreadyMember));

    // Without an expired membership there is nothing to renew. The extra
    // hundred in the requester's balance pays for the first membership
    // that the expiry cycle below consumes.
    let mut pallet = new_test_pallet(1, 1, vec![(1, 100), (2, 100), (3, 300)]);
    assert_eq!(pallet.create_club(1, 2, 100), Ok(1));
    assert_eq!(
        pallet.request_membership_renewal(3, 1, 100),
        Err(Error::NoMembershipExpirationFound)
    );

    // Run one membership through its expiry to obtain an expired record.
    assert_eq!(pallet.request_membership(3, 1, 1), Ok(()));
    assert_eq!(pallet.add_member(2, 1, 3), Ok(()));
    pallet.set_block_number(11);
    assert_eq!(pallet.on_initialize(11), 1);

    // Membership time cannot be more than the max number of years (value: 100).
    assert_eq!(pallet.request_membership_renewal(3, 1, 150), Err(Error::MembershipTimeExceeded));

    assert_eq!(pallet.request_membership_renewal(3, 1, 1), Ok(()));

    assert_eq!(
        pallet.membership_request(3, 1),
        Some(MembershipRequestDetails { amount_paid: 100, time_in_year: 1, is_renewal: true })
    );

    // The renewal consumed the expired record.
    assert_eq!(pallet.expired_membership(3, 1), None);

    assert_eq!(pallet.free_balance(3), 200 - 100);

    assert_eq!(
        pallet.events().last(),
        Some(&Event::MembershipRequested {
            club_id: 1,
            requester: 3,
            expense_to_be_charged: 100,
            time_in_year: 1,
            is_renewal: true,
        })
    );
}

#[test]
fn add_member_test() {
    let mut pallet = new_test_pallet(1, 1, vec![(1, 100), (2, 100), (3, 200), (4, 200)]);
    assert_eq!(pallet.create_club(1, 2, 100), Ok(1));

    // Accounts 3 and 4 request membership.
    assert_eq!(pallet.request_membership(3, 1, 1), Ok(()));
    assert_eq!(pallet.request_membership(4, 1, 1), Ok(()));

    // The club id must be valid.
    assert_eq!(pallet.add_member(2, 2, 3), Err(Error::ClubNotFound));

    // Only the club owner can add a member.
    assert_eq!(pallet.add_member(3, 1, 3), Err(Error::NotClubOwner));

    pallet.set_block_number(100);

    // Addition of account 3 as a member.
    assert_eq!(pallet.add_member(2, 1, 3), Ok(()));

    assert_eq!(pallet.expirations_per_block(100 + 10), Some(1));
    assert_eq!(pallet.future_expiration(100 + 10, 1), Some((3, 1)));
    assert_eq!(pallet.membership_request(3, 1), None);
    assert_eq!(pallet.club_membership(3, 1), Some(MembershipDetails { is_renewal: false }));

    assert_eq!(
        pallet.events().last(),
        Some(&Event::MemberAdded { club_id: 1, member: 3, membership_expiry_block: 100 + 10 })
    );

    // Adding another member at the same block increments the bucket count.
    assert_eq!(pallet.add_member(2, 1, 4), Ok(()));

    assert_eq!(pallet.expirations_per_block(100 + 10), Some(2));
    assert_eq!(pallet.future_expiration(100 + 10, 2), Some((4, 1)));
    assert_eq!(pallet.membership_request(4, 1), None);
    assert_eq!(pallet.club_membership(4, 1), Some(MembershipDetails { is_renewal: false }));

    assert_eq!(
        pallet.events().last(),
        Some(&Event::MemberAdded { club_id: 1, member: 4, membership_expiry_block: 100 + 10 })
    );
}

#[test]
fn block_initialization_test() {
    let mut pallet = new_test_pallet(1, 1, vec![(1, 100), (2, 100), (3, 200), (4, 200), (5, 200)]);
    assert_eq!(pallet.create_club(1, 2, 100), Ok(1));

    assert_eq!(pallet.request_membership(3, 1, 1), Ok(()));
    assert_eq!(pallet.request_membership(4, 1, 1), Ok(()));

    pallet.set_block_number(100);

    assert_eq!(pallet.add_member(2, 1, 3), Ok(()));
    assert_eq!(pallet.add_member(2, 1, 4), Ok(()));

    // Before the designated block, no processing happens.
    assert_eq!(pallet.on_initialize(101), 0);
    assert_eq!(pallet.expirations_per_block(100 + 10), Some(2));
    assert_eq!(pallet.future_expiration(100 + 10, 1), Some((3, 1)));
    assert_eq!(pallet.future_expiration(100 + 10, 2), Some((4, 1)));
    assert_eq!(pallet.club_membership(3, 1), Some(MembershipDetails { is_renewal: false }));
    assert_eq!(pallet.club_membership(4, 1), Some(MembershipDetails { is_renewal: false }));

    // At the designated block's initialization, the changes happen.
    assert_eq!(pallet.on_initialize(100 + 10), 2);

    assert_eq!(pallet.expirations_per_block(100 + 10), None);
    assert_eq!(pallet.future_expiration(100 + 10, 1), None);
    assert_eq!(pallet.future_expiration(100 + 10, 2), None);
    assert_eq!(pallet.club_membership(3, 1), None);
    assert_eq!(
        pallet.expired_membership(3, 1),
        Some(ExpirationDetails {
            previous_membership_details: MembershipDetails { is_renewal: false },
        })
    );
    assert_eq!(pallet.club_membership(4, 1), None);
    assert_eq!(
        pallet.expired_membership(4, 1),
        Some(ExpirationDetails {
            previous_membership_details: MembershipDetails { is_renewal: false },
        })
    );

    assert!(pallet.events().contains(&Event::MembershipExpired { club_id: 1, member: 3 }));
    assert_eq!(
        pallet.events().last(),
        Some(&Event::MembershipExpired { club_id: 1, member: 4 })
    );
}
