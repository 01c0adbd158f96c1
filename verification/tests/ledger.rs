//! The ledger's transfer semantics, and the rejections that reach the
//! commands through it.

use pallet_club::ledger::{Ledger, LedgerError};
use pallet_club::pallet::Pallet;
use pallet_club::types::{Config, Error, GenesisConfig};

const SINK: u64 = 9999;

fn new_test_pallet(root_account: u64, club_creation_fee: u128, balances: Vec<(u64, u128)>) -> Pallet {
    let mut ledger = Ledger::new(1);
    for (account, amount) in balances {
        ledger.set_balance(account, amount);
    }
    let config = Config { blocks_per_year: 10, max_number_of_years: 100, sink_account: SINK };
    let genesis = GenesisConfig { root_account: Some(root_account), club_creation_fee };
    let mut pallet = Pallet::new(config, genesis, ledger);
    pallet.set_block_number(1);
    pallet
}

#[test]
fn transfer_moves_the_amount() {
    let mut ledger = Ledger::new(1);
    ledger.set_balance(1, 100);
    assert_eq!(ledger.transfer(1, 2, 30, true), Ok(()));
    assert_eq!(ledger.free_balance(1), 70);
    assert_eq!(ledger.free_balance(2), 30);
}

#[test]
fn transfer_refusals_change_no_balance() {
    let mut ledger = Ledger::new(10);
    ledger.set_balance(1, 100);
    assert_eq!(ledger.transfer(1, 2, 200, true), Err(LedgerError::InsufficientFunds));
    assert_eq!(ledger.transfer(1, 2, 95, true), Err(LedgerError::WouldReapAccount));
    ledger.set_balance(2, u128::MAX);
    assert_eq!(ledger.transfer(1, 2, 50, true), Err(LedgerError::Overflow));
    assert_eq!(ledger.free_balance(1), 100);
    assert_eq!(ledger.free_balance(2), u128::MAX);
}

#[test]
fn transfer_without_keep_alive_reaps_the_dust() {
    let mut ledger = Ledger::new(10);
    ledger.set_balance(1, 100);
    // Paying 95 leaves 5, below the minimum of 10: the payer is reaped
    // and the remaining dust is burned.
    assert_eq!(ledger.transfer(1, 2, 95, false), Ok(()));
    assert_eq!(ledger.free_balance(1), 0);
    assert_eq!(ledger.free_balance(2), 95);
}

#[test]
fn empty_and_self_transfers_are_noops() {
    let mut ledger = Ledger::new(1);
    ledger.set_balance(1, 100);
    assert_eq!(ledger.transfer(1, 2, 0, true), Ok(()));
    assert_eq!(ledger.transfer(1, 1, 40, true), Ok(()));
    assert_eq!(ledger.free_balance(1), 100);
    assert_eq!(ledger.free_balance(2), 0);
}

#[test]
fn admitting_without_a_request_fails() {
    let mut pallet = new_test_pallet(1, 1, vec![(1, 100), (2, 100), (5, 100)]);
    assert_eq!(pallet.create_club(1, 2, 100), Ok(1));
    assert_eq!(pallet.add_member(2, 1, 5), Err(Error::MembershipRequestNotFound));
    assert_eq!(pallet.club_membership(5, 1), None);
}

#[test]
fn charge_that_overflows_the_sink_fails() {
    let mut pallet = new_test_pallet(1, 1, vec![(1, 100), (2, 100), (3, 200), (SINK, u128::MAX)]);
    assert_eq!(pallet.create_club(1, 2, 100), Err(Error::ArithmeticOverflow));

    // With a creation fee of zero the club can still be created, but the
    // membership charge cannot be credited to the full sink.
    let mut ledger_full = Ledger::new(1);
    ledger_full.set_balance(3, 200);
    ledger_full.set_balance(SINK, u128::MAX);
    let config = Config { blocks_per_year: 10, max_number_of_years: 100, sink_account: SINK };
    let genesis = GenesisConfig { root_account: Some(1), club_creation_fee: 0 };
    let mut pallet = Pallet::new(config, genesis, ledger_full);
    assert_eq!(pallet.create_club(1, 2, 100), Ok(1));
    assert_eq!(pallet.request_membership(3, 1, 1), Err(Error::ArithmeticOverflow));
    assert_eq!(pallet.free_balance(3), 200);
}
