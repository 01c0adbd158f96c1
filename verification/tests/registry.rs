//! Club creation and administration, driven through the public commands.

use pallet_club::ledger::Ledger;
use pallet_club::pallet::Pallet;
use pallet_club::types::{ClubDetails, Config, Error, Event, GenesisConfig};

const SINK: u64 = 9999;

fn new_test_pallet(root_account: u64, club_creation_fee: u128, balances: Vec<(u64, u128)>) -> Pallet {
    let mut ledger = Ledger::new(1);
    for (account, amount) in balances {
        ledger.set_balance(account, amount);
    }
    let config = Config { blocks_per_year: 10, max_number_of_years: 100, sink_account: SINK };
    let genesis = GenesisConfig { root_account: Some(root_account), club_creation_fee };
    let mut pallet = Pallet::new(config, genesis, ledger);
    pallet.set_block_number(1);
    pallet
}

#[test]
fn club_creation_test() {
    let mut pallet = new_test_pallet(1, 1, vec![(2, 100)]);
    // Only the root account can create a club.
    assert_eq!(pallet.create_club(2, 2, 100), Err(Error::UserIsNotRoot));
    // The root account needs a sufficient balance for the creation fee.
    assert_eq!(pallet.create_club(1, 2, 100), Err(Error::InsufficientFunds));

    let mut pallet = new_test_pallet(1, 1, vec![(1, 100), (2, 100)]);
    assert_eq!(pallet.create_club(1, 2, 100), Ok(1));

    // The root account paid the club creation fee.
    assert_eq!(pallet.free_balance(1), 100 - 1);

    assert_eq!(pallet.club(1), Some(ClubDetails { owner: 2, expense_per_year: 100 }));
    assert_eq!(pallet.next_club_id(), 2);

    assert_eq!(
        pallet.events().last(),
        Some(&Event::ClubCreated { club_id: 1, club_owner: 2, annual_expense: 100 })
    );
}

#[test]
fn transfer_club_ownership_test() {
    let mut pallet = new_test_pallet(1, 1, vec![(1, 100), (2, 100), (3, 1)]);
    assert_eq!(pallet.create_club(1, 2, 100), Ok(1));

    // Only the owner can transfer the ownership to another owner.
    assert_eq!(pallet.transfer_club_ownership(1, 1, 3), Err(Error::NotClubOwner));
    assert_eq!(pallet.transfer_club_ownership(3, 1, 1), Err(Error::NotClubOwner));

    // The club in question must exist.
    assert_eq!(pallet.transfer_club_ownership(2, 2, 3), Err(Error::ClubNotFound));

    assert_eq!(pallet.transfer_club_ownership(2, 1, 3), Ok(()));

    assert_eq!(pallet.club(1), Some(ClubDetails { owner: 3, expense_per_year: 100 }));

    assert_eq!(
        pallet.events().last(),
        Some(&Event::ClubOwnerChanged { club_id: 1, old_owner: 2, new_owner: 3 })
    );
}

#[test]
fn change_club_expense_test() {
    let mut pallet = new_test_pallet(1, 1, vec![(1, 100), (2, 100), (3, 1)]);
    assert_eq!(pallet.create_club(1, 2, 100), Ok(1));

    // Only the owner can change the expense.
    assert_eq!(pallet.change_club_expense(1, 1, 200), Err(Error::NotClubOwner));

    // The club in question must exist.
    assert_eq!(pallet.change_club_expense(2, 2, 200), Err(Error::ClubNotFound));

    assert_eq!(pallet.change_club_expense(2, 1, 200), Ok(()));

    assert_eq!(pallet.club(1), Some(ClubDetails { owner: 2, expense_per_year: 200 }));

    assert_eq!(
        pallet.events().last(),
        Some(&Event::AnnualExpenseSet {
            club_id: 1,
            old_annual_expense: 100,
            new_annual_expense: 200,
        })
    );
}
