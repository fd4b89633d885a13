use anchor_lang::prelude::Pubkey;
use split_stream::{EventErrors, RecipientInput, SplitRegistry};

fn id(tag: u8) -> Pubkey {
    Pubkey::new_from_array([tag; 32])
}

fn rows(list: &[(u8, u8)]) -> Vec<RecipientInput> {
    list.iter().map(|&(tag, percentage)| RecipientInput { wallet: id(tag), percentage }).collect()
}

#[test]
fn ledger_is_created_once_per_source() {
    let mut registry = SplitRegistry::new();
    assert_eq!(registry.create_ledger(id(9), id(8), rows(&[(1, 60), (2, 40)]), 1), Ok(0));
    assert_eq!(
        registry.create_ledger(id(9), id(8), rows(&[(1, 60), (2, 40)]), 1),
        Err(EventErrors::DuplicateLedger)
    );
    assert_eq!(
        registry.create_ledger(id(9), id(3), rows(&[(4, 100)]), 2),
        Err(EventErrors::DuplicateLedger)
    );
    assert_eq!(registry.splits.len(), 1);
    assert_eq!(registry.splits[0].creator, id(8));
    assert_eq!(registry.create_ledger(id(10), id(3), rows(&[(4, 100)]), 2), Ok(1));
    assert_eq!(registry.splits.len(), 2);
}

#[test]
fn invalid_table_is_rejected_before_duplicates_are_looked_for() {
    let mut registry = SplitRegistry::new();
    assert_eq!(
        registry.create_ledger(id(9), id(8), rows(&[(1, 40), (2, 40), (3, 10)]), 1),
        Err(EventErrors::SumExceed100Error)
    );
    assert_eq!(registry.splits.len(), 0);
    assert_eq!(registry.create_ledger(id(9), id(8), rows(&[(1, 60), (2, 40)]), 1), Ok(0));
    assert_eq!(
        registry.create_ledger(id(9), id(8), rows(&[(1, 40), (2, 40), (3, 10)]), 1),
        Err(EventErrors::SumExceed100Error)
    );
    assert_eq!(registry.splits.len(), 1);
}

#[test]
fn source_is_found_by_its_mint() {
    let mut registry = SplitRegistry::new();
    assert_eq!(registry.find(&id(9)), None);
    registry.create_ledger(id(9), id(8), rows(&[(1, 100)]), 1).unwrap();
    registry.create_ledger(id(10), id(8), rows(&[(1, 100)]), 1).unwrap();
    assert_eq!(registry.find(&id(9)), Some(0));
    assert_eq!(registry.find(&id(10)), Some(1));
    assert_eq!(registry.find(&id(11)), None);
}

#[test]
fn operations_on_unknown_source_answer_none() {
    let mut registry = SplitRegistry::new();
    registry.create_ledger(id(9), id(8), rows(&[(1, 100)]), 1).unwrap();
    assert!(registry.deposit(id(5), id(7), 10).is_none());
    assert_eq!(registry.claim(id(5), id(1), 0), None);
    assert_eq!(registry.close(id(5), id(8)), None);
    assert_eq!(registry.splits[0].total_collected, 0);
}

#[test]
fn ledgers_are_independent() {
    let mut registry = SplitRegistry::new();
    registry.create_ledger(id(9), id(8), rows(&[(1, 60), (2, 40)]), 1).unwrap();
    registry.create_ledger(id(10), id(8), rows(&[(1, 50), (2, 50)]), 1).unwrap();
    let event = registry.deposit(id(9), id(7), 1000).unwrap().unwrap();
    assert_eq!(event.nft_mint, id(9));
    assert_eq!(event.amount, 1000);
    assert_eq!(event.depositor, id(7));
    assert_eq!(registry.splits[0].total_collected, 1000);
    assert_eq!(registry.splits[1].total_collected, 0);
    assert_eq!(registry.claim(id(10), id(1), 0), Some(Err(EventErrors::NothingToClaim)));
    assert_eq!(registry.claim(id(9), id(1), 0), Some(Ok(600)));
    assert_eq!(registry.splits[0].recipients[0].claimed, 600);
    assert_eq!(registry.splits[1].recipients[0].claimed, 0);
    assert_eq!(registry.close(id(10), id(8)), Some(Ok(())));
    assert!(registry.splits[0].is_active);
    assert!(!registry.splits[1].is_active);
}

#[test]
fn full_life_of_a_ledger_through_the_registry() {
    let mut registry = SplitRegistry::new();
    registry.create_ledger(id(9), id(8), rows(&[(1, 60), (2, 40)]), 1).unwrap();
    assert!(registry.deposit(id(9), id(7), 1000).unwrap().is_ok());
    assert_eq!(registry.claim(id(9), id(2), 0), Some(Err(EventErrors::UnauthorizedRecipient)));
    assert_eq!(registry.claim(id(9), id(1), 5), Some(Err(EventErrors::InvalidRecipientIndex)));
    assert_eq!(registry.claim(id(9), id(1), 0), Some(Ok(600)));
    assert_eq!(registry.close(id(9), id(8)), Some(Err(EventErrors::UnclaimedFundsRemaining)));
    assert_eq!(registry.claim(id(9), id(2), 1), Some(Ok(400)));
    assert_eq!(registry.close(id(9), id(1)), Some(Err(EventErrors::UnauthorizedClose)));
    assert_eq!(registry.close(id(9), id(8)), Some(Ok(())));
    assert_eq!(
        registry.deposit(id(9), id(7), 0).unwrap().err(),
        Some(EventErrors::LedgerInactive)
    );
    assert_eq!(
        registry.create_ledger(id(9), id(8), rows(&[(1, 100)]), 1),
        Err(EventErrors::DuplicateLedger)
    );
}
