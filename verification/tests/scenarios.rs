//! Concrete scenarios: fee arithmetic, duration limits, renewal cycles,
//! idempotent tick processing, and every rejection the commands can give.

use pallet_club::ledger::Ledger;
use pallet_club::pallet::Pallet;
use pallet_club::types::{
    Config, Error, Event, ExpirationDetails, GenesisConfig, MemberState, MembershipDetails,
    MembershipRequestDetails,
};

const SINK: u64 = 9999;

fn new_test_pallet(root_account: u64, club_creation_fee: u128, balances: Vec<(u64, u128)>) -> Pallet {
    let mut ledger = Ledger::new(1);
    for (account, amount) in balances {
        ledger.set_balance(account, amount);
    }
    let config = Config { blocks_per_year: 10, max_number_of_years: 100, sink_account: SINK };
    let genesis = GenesisConfig { root_account: Some(root_account), club_creation_fee };
    let mut pallet = Pallet::new(config, genesis, ledger);
    pallet.set_block_number(1);
    pallet
}

#[test]
fn membership_cost_is_fee_times_duration() {
    let mut pallet = new_test_pallet(1, 1, vec![(1, 100), (2, 100), (3, 400), (4, 600)]);
    assert_eq!(pallet.create_club(1, 2, 100), Ok(1));

    // fee 100 for 5 years costs 500; a balance of 400 is not enough.
    assert_eq!(pallet.request_membership(3, 1, 5), Err(Error::InsufficientFunds));
    assert_eq!(pallet.free_balance(3), 400);
    assert_eq!(pallet.membership_request(3, 1), None);

    assert_eq!(pallet.request_membership(4, 1, 5), Ok(()));
    assert_eq!(
        pallet.membership_request(4, 1),
        Some(MembershipRequestDetails { amount_paid: 500, time_in_year: 5, is_renewal: false })
    );
    assert_eq!(pallet.free_balance(4), 600 - 500);
}

#[test]
fn duration_above_maximum_is_rejected() {
    let mut pallet = new_test_pallet(1, 1, vec![(1, 100), (2, 100), (3, 20000)]);
    assert_eq!(pallet.create_club(1, 2, 100), Ok(1));

    // max_duration_units is 100: 150 fails, 100 succeeds.
    assert_eq!(pallet.request_membership(3, 1, 150), Err(Error::MembershipTimeExceeded));
    assert_eq!(pallet.request_membership(3, 1, 100), Ok(()));
    assert_eq!(
        pallet.membership_request(3, 1),
        Some(MembershipRequestDetails {
            amount_paid: 10000,
            time_in_year: 100,
            is_renewal: false,
        })
    );
}

#[test]
fn renewal_requires_an_expired_record() {
    let mut pallet = new_test_pallet(1, 1, vec![(1, 100), (2, 100), (3, 300)]);
    assert_eq!(pallet.create_club(1, 2, 100), Ok(1));

    // No expired record yet: nothing to renew.
    assert_eq!(pallet.request_membership_renewal(3, 1, 1), Err(Error::NoMembershipExpirationFound));

    // One full cycle produces an expired record.
    assert_eq!(pallet.request_membership(3, 1, 1), Ok(()));
    assert_eq!(pallet.add_member(2, 1, 3), Ok(()));
    pallet.set_block_number(11);
    assert_eq!(pallet.on_initialize(11), 1);
    assert!(pallet.expired_membership(3, 1).is_some());

    // The same call now succeeds and consumes the record.
    assert_eq!(pallet.request_membership_renewal(3, 1, 1), Ok(()));
    assert_eq!(pallet.expired_membership(3, 1), None);
}

#[test]
fn club_ids_increase_from_one() {
    let mut pallet = new_test_pallet(1, 1, vec![(1, 100), (2, 100)]);
    assert_eq!(pallet.create_club(1, 2, 100), Ok(1));
    assert_eq!(pallet.create_club(1, 2, 200), Ok(2));
    assert_eq!(pallet.create_club(1, 2, 300), Ok(3));
    assert_eq!(pallet.next_club_id(), 4);

    let created: Vec<u64> = pallet
        .events()
        .iter()
        .filter_map(|e| match e {
            Event::ClubCreated { club_id, .. } => Some(*club_id),
            _ => None,
        })
        .collect();
    assert_eq!(created, vec![1, 2, 3]);
}

#[test]
fn lifecycle_states_are_exclusive() {
    let mut pallet = new_test_pallet(1, 1, vec![(1, 100), (2, 100), (3, 200)]);
    assert_eq!(pallet.create_club(1, 2, 100), Ok(1));

    assert_eq!(pallet.request_membership(3, 1, 1), Ok(()));
    assert!(pallet.membership_request(3, 1).is_some());
    assert!(matches!(pallet.member_state(3, 1), Some(MemberState::Requested(_))));
    assert_eq!(pallet.club_membership(3, 1), None);
    assert_eq!(pallet.expired_membership(3, 1), None);

    assert_eq!(pallet.add_member(2, 1, 3), Ok(()));
    assert_eq!(pallet.membership_request(3, 1), None);
    assert!(pallet.club_membership(3, 1).is_some());
    assert_eq!(pallet.expired_membership(3, 1), None);

    pallet.set_block_number(11);
    assert_eq!(pallet.block_number(), 11);
    assert_eq!(pallet.on_initialize(11), 1);
    assert_eq!(pallet.membership_request(3, 1), None);
    assert_eq!(pallet.club_membership(3, 1), None);
    assert!(matches!(pallet.member_state(3, 1), Some(MemberState::Expired(_))));
    assert!(pallet.expired_membership(3, 1).is_some());
}

#[test]
fn round_trip_preserves_renewal_flag() {
    let mut pallet = new_test_pallet(1, 1, vec![(1, 100), (2, 100), (3, 500)]);
    assert_eq!(pallet.create_club(1, 2, 100), Ok(1));

    // First cycle: a fresh request expires with is_renewal false.
    assert_eq!(pallet.request_membership(3, 1, 1), Ok(()));
    assert_eq!(pallet.add_member(2, 1, 3), Ok(()));
    pallet.set_block_number(11);
    assert_eq!(pallet.on_initialize(11), 1);
    assert_eq!(
        pallet.expired_membership(3, 1),
        Some(ExpirationDetails {
            previous_membership_details: MembershipDetails { is_renewal: false },
        })
    );

    // Second cycle: the renewal expires with is_renewal true.
    assert_eq!(pallet.request_membership_renewal(3, 1, 1), Ok(()));
    assert_eq!(pallet.add_member(2, 1, 3), Ok(()));
    pallet.set_block_number(21);
    assert_eq!(pallet.on_initialize(21), 1);
    assert_eq!(pallet.membership_request(3, 1), None);
    assert_eq!(pallet.club_membership(3, 1), None);
    assert_eq!(
        pallet.expired_membership(3, 1),
        Some(ExpirationDetails {
            previous_membership_details: MembershipDetails { is_renewal: true },
        })
    );
}

#[test]
fn processing_a_tick_twice_does_nothing() {
    let mut pallet = new_test_pallet(1, 1, vec![(1, 100), (2, 100), (3, 200)]);
    assert_eq!(pallet.create_club(1, 2, 100), Ok(1));
    assert_eq!(pallet.request_membership(3, 1, 1), Ok(()));
    assert_eq!(pallet.add_member(2, 1, 3), Ok(()));

    pallet.set_block_number(11);
    assert_eq!(pallet.on_initialize(11), 1);
    let events_after_first: usize = pallet.events().len();

    // The bucket is gone: a second drain processes zero entries and
    // leaves every record as the first drain left it.
    assert_eq!(pallet.on_initialize(11), 0);
    assert_eq!(pallet.events().len(), events_after_first);
    assert_eq!(pallet.expirations_per_block(11), None);
    assert_eq!(pallet.future_expiration(11, 1), None);
    assert!(pallet.expired_membership(3, 1).is_some());
    assert_eq!(pallet.club_membership(3, 1), None);
}

#[test]
fn processing_an_empty_tick_is_a_noop() {
    let mut pallet = new_test_pallet(1, 1, vec![(1, 100)]);
    assert_eq!(pallet.on_initialize(5), 0);
    assert_eq!(pallet.events().len(), 0);
}

#[test]
fn create_club_without_root_fails() {
    let ledger = Ledger::new(1);
    let config = Config { blocks_per_year: 10, max_number_of_years: 100, sink_account: SINK };
    let genesis = GenesisConfig { root_account: None, club_creation_fee: 1 };
    let mut pallet = Pallet::new(config, genesis, ledger);
    assert_eq!(pallet.create_club(1, 2, 100), Err(Error::NoRootConfiguredAtGenesis));
}

#[test]
fn membership_cost_overflow_is_rejected() {
    let mut pallet = new_test_pallet(1, 1, vec![(1, 100), (2, 100), (3, 200)]);
    assert_eq!(pallet.create_club(1, 2, u128::MAX), Ok(1));
    assert_eq!(pallet.request_membership(3, 1, 2), Err(Error::ArithmeticOverflow));
    assert_eq!(pallet.membership_request(3, 1), None);
    assert_eq!(pallet.free_balance(3), 200);
}

#[test]
fn expiry_tick_overflow_is_rejected() {
    let mut pallet = new_test_pallet(1, 1, vec![(1, 100), (2, 100), (3, 200)]);
    assert_eq!(pallet.create_club(1, 2, 100), Ok(1));
    assert_eq!(pallet.request_membership(3, 1, 1), Ok(()));

    // One year of ticks still fits, but adding it to a tick this close
    // to the width's end does not.
    pallet.set_block_number(u64::MAX - 5);
    assert_eq!(pallet.add_member(2, 1, 3), Err(Error::ArithmeticOverflow));
    assert!(pallet.membership_request(3, 1).is_some());
    assert_eq!(pallet.club_membership(3, 1), None);
}

#[test]
fn charge_that_would_reap_the_payer_is_rejected() {
    let mut pallet = new_test_pallet(1, 1, vec![(1, 100), (2, 100), (3, 100)]);
    assert_eq!(pallet.create_club(1, 2, 100), Ok(1));

    // Paying the full balance would leave the payer below the minimum.
    assert_eq!(pallet.request_membership(3, 1, 1), Err(Error::WouldReapAccount));
    assert_eq!(pallet.free_balance(3), 100);
    assert_eq!(pallet.membership_request(3, 1), None);
}
