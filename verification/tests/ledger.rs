use anchor_lang::prelude::Pubkey;
use split_stream::{
    claim_share, close_split, deposit_royalty, initialize_split, EventErrors, Recipient,
    RecipientInput, RoyaltySplit,
};

fn key(tag: u8) -> Pubkey {
    Pubkey::new_from_array([tag; 32])
}

fn table(rows: &[(u8, u8)]) -> Vec<RecipientInput> {
    rows.iter().map(|&(tag, percentage)| RecipientInput { wallet: key(tag), percentage }).collect()
}

fn sixty_forty() -> RoyaltySplit {
    initialize_split(key(9), key(8), table(&[(1, 60), (2, 40)]), 254).unwrap()
}

#[test]
fn new_ledger_starts_empty_and_active() {
    let split = sixty_forty();
    assert_eq!(split.nft_mint, key(9));
    assert_eq!(split.creator, key(8));
    assert_eq!(split.bump, 254);
    assert_eq!(split.total_collected, 0);
    assert!(split.is_active);
    assert_eq!(split.recipients.len(), 2);
    assert_eq!(split.recipients[0].wallet, key(1));
    assert_eq!(split.recipients[0].percentage, 60);
    assert_eq!(split.recipients[0].claimed, 0);
    assert_eq!(split.recipients[1].wallet, key(2));
    assert_eq!(split.recipients[1].percentage, 40);
    assert_eq!(split.recipients[1].claimed, 0);
    assert!(split.is_well_formed());
}

#[test]
fn percentages_below_hundred_are_rejected() {
    let r = initialize_split(key(9), key(8), table(&[(1, 40), (2, 40), (3, 10)]), 0);
    assert_eq!(r.err(), Some(EventErrors::SumExceed100Error));
}

#[test]
fn percentages_above_hundred_are_rejected() {
    let r = initialize_split(key(9), key(8), table(&[(1, 60), (2, 41)]), 0);
    assert_eq!(r.err(), Some(EventErrors::SumExceed100Error));
}

#[test]
fn empty_table_is_rejected() {
    let r = initialize_split(key(9), key(8), Vec::new(), 0);
    assert_eq!(r.err(), Some(EventErrors::SumExceed100Error));
}

#[test]
fn percentages_that_wrap_to_hundred_in_a_byte_are_rejected() {
    // 200 + 156 = 356, which is 100 modulo 256.
    let r = initialize_split(key(9), key(8), table(&[(1, 200), (2, 156)]), 0);
    assert_eq!(r.err(), Some(EventErrors::SumExceed100Error));
}

#[test]
fn single_recipient_with_everything_is_accepted() {
    let mut split = initialize_split(key(9), key(8), table(&[(1, 100)]), 0).unwrap();
    deposit_royalty(&mut split, key(7), 12345).unwrap();
    assert_eq!(claim_share(&mut split, key(1), 0), Ok(12345));
    assert_eq!(close_split(&mut split, key(8)), Ok(()));
}

#[test]
fn zero_percent_recipient_has_nothing_to_claim() {
    let mut split = initialize_split(key(9), key(8), table(&[(1, 0), (2, 100)]), 0).unwrap();
    deposit_royalty(&mut split, key(7), 500).unwrap();
    assert_eq!(claim_share(&mut split, key(1), 0), Err(EventErrors::NothingToClaim));
    assert_eq!(claim_share(&mut split, key(2), 1), Ok(500));
}

#[test]
fn deposit_adds_to_total_and_reports_event() {
    let mut split = sixty_forty();
    let event = deposit_royalty(&mut split, key(7), 1000).unwrap();
    assert_eq!(event.nft_mint, key(9));
    assert_eq!(event.amount, 1000);
    assert_eq!(event.depositor, key(7));
    assert_eq!(split.total_collected, 1000);
    deposit_royalty(&mut split, key(6), 234).unwrap();
    assert_eq!(split.total_collected, 1234);
    assert_eq!(split.recipients[0].claimed, 0);
    assert_eq!(split.recipients[1].claimed, 0);
}

#[test]
fn deposit_of_zero_into_active_ledger_changes_no_total() {
    let mut split = sixty_forty();
    let event = deposit_royalty(&mut split, key(7), 0).unwrap();
    assert_eq!(event.amount, 0);
    assert_eq!(split.total_collected, 0);
}

#[test]
fn deposit_past_the_counter_is_rejected() {
    let mut split = sixty_forty();
    deposit_royalty(&mut split, key(7), u64::MAX - 5).unwrap();
    assert_eq!(deposit_royalty(&mut split, key(7), 6).err(), Some(EventErrors::Overflow));
    assert_eq!(split.total_collected, u64::MAX - 5);
    deposit_royalty(&mut split, key(7), 5).unwrap();
    assert_eq!(split.total_collected, u64::MAX);
    assert_eq!(deposit_royalty(&mut split, key(7), 1).err(), Some(EventErrors::Overflow));
}

#[test]
fn shares_of_the_largest_total_do_not_overflow() {
    let mut split = sixty_forty();
    deposit_royalty(&mut split, key(7), u64::MAX).unwrap();
    // floor(18446744073709551615 * 60 / 100) and floor(18446744073709551615 * 40 / 100)
    assert_eq!(claim_share(&mut split, key(1), 0), Ok(11068046444225730969));
    assert_eq!(claim_share(&mut split, key(2), 1), Ok(7378697629483820646));
}

#[test]
fn exact_split_is_paid_and_closes() {
    let mut split = sixty_forty();
    deposit_royalty(&mut split, key(7), 1000).unwrap();
    assert_eq!(claim_share(&mut split, key(1), 0), Ok(600));
    assert_eq!(claim_share(&mut split, key(2), 1), Ok(400));
    assert_eq!(split.recipients[0].claimed, 600);
    assert_eq!(split.recipients[1].claimed, 400);
    assert_eq!(close_split(&mut split, key(8)), Ok(()));
    assert!(!split.is_active);
}

#[test]
fn rounding_residue_blocks_close() {
    let mut split = sixty_forty();
    deposit_royalty(&mut split, key(7), 1001).unwrap();
    assert_eq!(claim_share(&mut split, key(1), 0), Ok(600));
    assert_eq!(claim_share(&mut split, key(2), 1), Ok(400));
    assert_eq!(close_split(&mut split, key(8)), Err(EventErrors::UnclaimedFundsRemaining));
    assert!(split.is_active);
    assert_eq!(split.total_collected, 1001);
}

#[test]
fn deposit_into_closed_ledger_is_rejected() {
    let mut split = sixty_forty();
    deposit_royalty(&mut split, key(7), 1000).unwrap();
    claim_share(&mut split, key(1), 0).unwrap();
    claim_share(&mut split, key(2), 1).unwrap();
    close_split(&mut split, key(8)).unwrap();
    assert_eq!(deposit_royalty(&mut split, key(7), 0).err(), Some(EventErrors::LedgerInactive));
    assert_eq!(deposit_royalty(&mut split, key(7), 10).err(), Some(EventErrors::LedgerInactive));
    assert_eq!(split.total_collected, 1000);
}

#[test]
fn closed_ledger_pays_nothing() {
    let mut split = sixty_forty();
    deposit_royalty(&mut split, key(7), 1000).unwrap();
    claim_share(&mut split, key(1), 0).unwrap();
    claim_share(&mut split, key(2), 1).unwrap();
    close_split(&mut split, key(8)).unwrap();
    assert_eq!(claim_share(&mut split, key(1), 0), Err(EventErrors::NothingToClaim));
    assert_eq!(claim_share(&mut split, key(2), 1), Err(EventErrors::NothingToClaim));
}

#[test]
fn ledger_without_deposits_closes() {
    let mut split = sixty_forty();
    assert_eq!(close_split(&mut split, key(8)), Ok(()));
    assert!(!split.is_active);
}

#[test]
fn second_claim_without_deposit_finds_nothing() {
    let mut split = sixty_forty();
    deposit_royalty(&mut split, key(7), 250).unwrap();
    assert_eq!(claim_share(&mut split, key(1), 0), Ok(150));
    assert_eq!(claim_share(&mut split, key(1), 0), Err(EventErrors::NothingToClaim));
    assert_eq!(split.recipients[0].claimed, 150);
}

#[test]
fn later_deposit_releases_only_the_increment() {
    let mut split = sixty_forty();
    deposit_royalty(&mut split, key(7), 1001).unwrap();
    assert_eq!(claim_share(&mut split, key(1), 0), Ok(600));
    deposit_royalty(&mut split, key(7), 4).unwrap();
    // floor(1005 * 60 / 100) = 603, of which 600 were paid.
    assert_eq!(claim_share(&mut split, key(1), 0), Ok(3));
    // floor(1005 * 40 / 100) = 402.
    assert_eq!(claim_share(&mut split, key(2), 1), Ok(402));
    assert_eq!(split.recipients[0].claimed, 603);
    assert_eq!(split.recipients[1].claimed, 402);
}

#[test]
fn claim_never_exceeds_share_less_prior_claims() {
    let mut split = initialize_split(key(9), key(8), table(&[(1, 33), (2, 33), (3, 34)]), 0)
        .unwrap();
    let deposits: [u64; 5] = [1, 7, 99, 1000, 123456789];
    let mut total: u128 = 0;
    for d in deposits {
        deposit_royalty(&mut split, key(7), d).unwrap();
        total += d as u128;
        for i in 0..3usize {
            let before = split.recipients[i].claimed;
            let bound = (total * split.recipients[i].percentage as u128 / 100) as u64 - before;
            match claim_share(&mut split, key(i as u8 + 1), i as u64) {
                Ok(paid) => {
                    assert!(paid > 0);
                    assert_eq!(paid, bound);
                },
                Err(e) => {
                    assert_eq!(e, EventErrors::NothingToClaim);
                    assert_eq!(bound, 0);
                },
            }
        }
    }
}

#[test]
fn claimed_sum_stays_within_total_and_residue_is_small() {
    let mut split = initialize_split(key(9), key(8), table(&[(1, 33), (2, 33), (3, 34)]), 0)
        .unwrap();
    deposit_royalty(&mut split, key(7), 101).unwrap();
    let mut claimed: u64 = 0;
    assert!(claimed <= split.total_collected);
    // floor(101 * 33 / 100) = 33, floor(101 * 34 / 100) = 34.
    assert_eq!(claim_share(&mut split, key(1), 0), Ok(33));
    claimed += 33;
    assert!(claimed <= split.total_collected);
    assert_eq!(claim_share(&mut split, key(2), 1), Ok(33));
    claimed += 33;
    assert_eq!(claim_share(&mut split, key(3), 2), Ok(34));
    claimed += 34;
    let paid: u64 = split.recipients.iter().map(|r| r.claimed).sum();
    assert_eq!(paid, claimed);
    assert_eq!(split.total_collected - paid, 1);
    assert!(split.total_collected - paid <= split.recipients.len() as u64 - 1);
    assert!(split.is_well_formed());
}

#[test]
fn claim_by_another_wallet_is_rejected_and_changes_nothing() {
    let mut split = sixty_forty();
    deposit_royalty(&mut split, key(7), 1000).unwrap();
    let before = split.clone();
    assert_eq!(claim_share(&mut split, key(2), 0), Err(EventErrors::UnauthorizedRecipient));
    assert_eq!(claim_share(&mut split, key(8), 0), Err(EventErrors::UnauthorizedRecipient));
    assert_eq!(claim_share(&mut split, key(1), 1), Err(EventErrors::UnauthorizedRecipient));
    assert_eq!(split, before);
    assert_eq!(split.total_collected, 1000);
    assert_eq!(split.recipients[0].claimed, 0);
    assert_eq!(split.recipients[1].claimed, 0);
    assert!(split.is_active);
    assert_eq!(claim_share(&mut split, key(1), 0), Ok(600));
}

#[test]
fn claim_on_missing_position_is_rejected() {
    let mut split = sixty_forty();
    deposit_royalty(&mut split, key(7), 1000).unwrap();
    assert_eq!(claim_share(&mut split, key(1), 2), Err(EventErrors::InvalidRecipientIndex));
    assert_eq!(claim_share(&mut split, key(1), u64::MAX), Err(EventErrors::InvalidRecipientIndex));
    assert_eq!(split.recipients[0].claimed, 0);
}

#[test]
fn claim_before_any_deposit_finds_nothing() {
    let mut split = sixty_forty();
    assert_eq!(claim_share(&mut split, key(1), 0), Err(EventErrors::NothingToClaim));
}

#[test]
fn close_by_another_identity_is_rejected() {
    let mut split = sixty_forty();
    assert_eq!(close_split(&mut split, key(1)), Err(EventErrors::UnauthorizedClose));
    assert!(split.is_active);
    // The requester is checked before the funds are.
    deposit_royalty(&mut split, key(7), 10).unwrap();
    assert_eq!(close_split(&mut split, key(1)), Err(EventErrors::UnauthorizedClose));
    assert_eq!(close_split(&mut split, key(8)), Err(EventErrors::UnclaimedFundsRemaining));
}

#[test]
fn close_with_one_claim_outstanding_is_rejected() {
    let mut split = sixty_forty();
    deposit_royalty(&mut split, key(7), 1000).unwrap();
    claim_share(&mut split, key(1), 0).unwrap();
    assert_eq!(close_split(&mut split, key(8)), Err(EventErrors::UnclaimedFundsRemaining));
    claim_share(&mut split, key(2), 1).unwrap();
    assert_eq!(close_split(&mut split, key(8)), Ok(()));
}

#[test]
fn validity_check_accepts_and_rejects() {
    let row = |tag: u8, percentage: u8, claimed: u64| Recipient {
        wallet: key(tag),
        percentage,
        claimed,
    };
    let ledger = |recipients: Vec<Recipient>, total_collected: u64, is_active: bool| RoyaltySplit {
        nft_mint: key(9),
        creator: key(8),
        recipients,
        total_collected,
        is_active,
        bump: 0,
    };
    assert!(ledger(vec![row(1, 60, 600), row(2, 40, 0)], 1000, true).is_well_formed());
    assert!(ledger(vec![row(1, 60, 600), row(2, 40, 400)], 1000, false).is_well_formed());
    // A closed ledger with an unclaimed unit.
    assert!(!ledger(vec![row(1, 60, 600), row(2, 40, 399)], 1000, false).is_well_formed());
    // A recipient paid one unit too many.
    assert!(!ledger(vec![row(1, 60, 601), row(2, 40, 0)], 1000, true).is_well_formed());
    // Tables that do not sum to 100.
    assert!(!ledger(vec![row(1, 60, 0), row(2, 39, 0)], 1000, true).is_well_formed());
    assert!(!ledger(vec![row(1, 200, 0), row(2, 156, 0)], 1000, true).is_well_formed());
    assert!(!ledger(Vec::new(), 0, true).is_well_formed());
}

#[test]
fn copy_has_the_same_state() {
    let mut split = sixty_forty();
    deposit_royalty(&mut split, key(7), 1000).unwrap();
    claim_share(&mut split, key(1), 0).unwrap();
    let copy = split.clone();
    assert_eq!(copy, split);
    assert_eq!(copy.recipients[0].claimed, 600);
    assert_eq!(copy.total_collected, 1000);
    claim_share(&mut split, key(2), 1).unwrap();
    assert_ne!(copy, split);
    assert_eq!(copy.recipients[1].claimed, 0);
}

#[test]
fn every_rejection_leaves_the_ledger_as_it_was() {
    let mut split = sixty_forty();
    deposit_royalty(&mut split, key(7), u64::MAX).unwrap();
    claim_share(&mut split, key(1), 0).unwrap();
    let before = split.clone();
    assert_eq!(deposit_royalty(&mut split, key(7), 1).err(), Some(EventErrors::Overflow));
    assert_eq!(claim_share(&mut split, key(1), 0), Err(EventErrors::NothingToClaim));
    assert_eq!(claim_share(&mut split, key(1), 2), Err(EventErrors::InvalidRecipientIndex));
    assert_eq!(close_split(&mut split, key(1)), Err(EventErrors::UnauthorizedClose));
    assert_eq!(close_split(&mut split, key(8)), Err(EventErrors::UnclaimedFundsRemaining));
    assert_eq!(split, before);
}
