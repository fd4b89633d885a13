//! The set of ledgers, at most one per revenue source, addressed by the
//! source's mint.

use crate::errors::EventErrors;
use crate::identity::same_key;
use crate::ledger::{input_percentages, DepositEvent, RecipientInput, RoyaltySplit, SplitView};
use crate::operations::{claim_share, close_split, deposit_royalty, initialize_split};
use crate::shares::sum;
use anchor_lang::prelude::Pubkey;
use vstd::prelude::*;

verus! {

/// All ledgers created so far, closed ones included, in order of creation.
#[derive(Debug)]
pub struct SplitRegistry {
    pub splits: Vec<RoyaltySplit>,
}

/// Whether some ledger in `ledgers` belongs to the revenue source `nft_mint`.
pub open spec fn holds(ledgers: Seq<SplitView>, nft_mint: Pubkey) -> bool {
    exists|i: int| 0 <= i < ledgers.len() && (#[trigger] ledgers[i]).nft_mint == nft_mint
}

/// The position of the ledger of `nft_mint`, where `ledgers` holds one.
pub open spec fn index_of(ledgers: Seq<SplitView>, nft_mint: Pubkey) -> int {
    choose|i: int| 0 <= i < ledgers.len() && (#[trigger] ledgers[i]).nft_mint == nft_mint
}

/// No two ledgers belong to the same revenue source.
pub open spec fn distinct_sources(ledgers: Seq<SplitView>) -> bool {
    forall|i: int, j: int|
        0 <= i < j < ledgers.len() ==> (#[trigger] ledgers[i]).nft_mint != (
        #[trigger] ledgers[j]).nft_mint
}

/// The outcome of asking for a new ledger: the ledgers afterwards, or the
/// reason for which the request is rejected. A proposal whose percentages do
/// not sum to 100 is rejected whether or not the source has a ledger.
pub open spec fn create_result(
    ledgers: Seq<SplitView>,
    nft_mint: Pubkey,
    creator: Pubkey,
    inputs: Seq<RecipientInput>,
    bump: u8,
) -> Result<Seq<SplitView>, EventErrors> {
    if sum(input_percentages(inputs)) != 100 {
        Err(EventErrors::SumExceed100Error)
    } else if holds(ledgers, nft_mint) {
        Err(EventErrors::DuplicateLedger)
    } else {
        Ok(ledgers.push(SplitView::fresh(nft_mint, creator, inputs, bump)))
    }
}

impl View for SplitRegistry {
    type V = Seq<SplitView>;

    open spec fn view(&self) -> Seq<SplitView> {
        Seq::new(self.splits@.len(), |i: int| self.splits@[i]@)
    }
}

impl SplitRegistry {
    /// Every ledger is valid, and no revenue source has two.
    pub open spec fn wf(&self) -> bool {
        &&& forall|i: int| 0 <= i < self@.len() ==> (#[trigger] self@[i]).wf()
        &&& distinct_sources(self@)
    }

    /// A registry without ledgers.
    pub fn new() -> (registry: SplitRegistry)
        ensures
            registry@ == Seq::<SplitView>::empty(),
            registry.wf(),
    {
        let registry = SplitRegistry { splits: Vec::new() };
        assert(registry@ =~= Seq::<SplitView>::empty());
        registry
    }

    /// The first position that holds a ledger of `nft_mint`, if there is one.
    /// In a valid registry it is the only one.
    pub fn find(&self, nft_mint: &Pubkey) -> (found: Option<usize>)
        ensures
            match found {
                Some(i) => {
                    &&& i < self@.len()
                    &&& self@[i as int].nft_mint == *nft_mint
                    &&& forall|k: int| 0 <= k < i ==> (#[trigger] self@[k]).nft_mint != *nft_mint
                },
                None => !holds(self@, *nft_mint),
            },
            self.wf() && holds(self@, *nft_mint) ==> found == Some(
                index_of(self@, *nft_mint) as usize,
            ),
    {
        let n: usize = self.splits.len();
        let mut i: usize = 0;
        while i < n
            invariant
                i <= n,
                n == self.splits.len(),
                forall|k: int| 0 <= k < i ==> (#[trigger] self@[k]).nft_mint != *nft_mint,
            decreases n - i,
        {
            if same_key(&self.splits[i].nft_mint, nft_mint) {
                assert(self@[i as int].nft_mint == *nft_mint);
                return Some(i);
            }
            i += 1;
        }
        None
    }

    /// Creates the ledger of the revenue source `nft_mint` and returns its
    /// position. A proposal whose percentages do not sum to exactly 100 is
    /// rejected; so is a second ledger for the same source. A rejection
    /// changes nothing.
    pub fn create_ledger(
        &mut self,
        nft_mint: Pubkey,
        creator: Pubkey,
        recipients_data: Vec<RecipientInput>,
        bump: u8,
    ) -> (created: Result<usize, EventErrors>)
        requires
            old(self).wf(),
        ensures
            final(self).wf(),
            match created {
                Ok(position) => {
                    &&& create_result(old(self)@, nft_mint, creator, recipients_data@, bump) == Ok::<
                        Seq<SplitView>,
                        EventErrors,
                    >(final(self)@)
                    &&& position == old(self)@.len()
                },
                Err(e) => {
                    &&& create_result(old(self)@, nft_mint, creator, recipients_data@, bump)
                        == Err::<Seq<SplitView>, EventErrors>(e)
                    &&& *final(self) == *old(self)
                },
            },
    {
        let ghost inputs = recipients_data@;
        let taken: Option<usize> = self.find(&nft_mint);
        match initialize_split(nft_mint, creator, recipients_data, bump) {
            Err(e) => Err(e),
            Ok(split) => {
                if taken.is_some() {
                    return Err(EventErrors::DuplicateLedger);
                }
                let position: usize = self.splits.len();
                self.splits.push(split);
                proof {
                    assert(self@ =~= old(self)@.push(
                        SplitView::fresh(nft_mint, creator, inputs, bump),
                    ));
                    assert forall|i: int, j: int| 0 <= i < j < self@.len() implies (
                    #[trigger] self@[i]).nft_mint != (#[trigger] self@[j]).nft_mint by {
                        if j < old(self)@.len() {
                            assert(old(self)@[i].nft_mint != old(self)@[j].nft_mint);
                        } else {
                            assert(old(self)@[i].nft_mint != nft_mint);
                        }
                    }
                    assert forall|i: int| 0 <= i < self@.len() implies (
                    #[trigger] self@[i]).wf() by {
                        if i < old(self)@.len() {
                            assert(old(self)@[i].wf());
                        }
                    }
                }
                Ok(position)
            },
        }
    }

    /// Records a deposit into the ledger of `nft_mint`. `None` when the source
    /// has no ledger; otherwise what the ledger answers. Only that ledger
    /// changes, and only when it accepts.
    pub fn deposit(&mut self, nft_mint: Pubkey, depositor: Pubkey, amount: u64) -> (done: Option<
        Result<DepositEvent, EventErrors>,
    >)
        requires
            old(self).wf(),
        ensures
            final(self).wf(),
            final(self)@.len() == old(self)@.len(),
            match done {
                None => !holds(old(self)@, nft_mint) && final(self)@ == old(self)@,
                Some(answer) => {
                    let at = index_of(old(self)@, nft_mint);
                    &&& holds(old(self)@, nft_mint)
                    &&& final(self)@ == old(self)@.update(at, final(self)@[at])
                    &&& match answer {
                        Ok(event) => {
                            &&& old(self)@[at].deposit_result(amount as nat) == Ok::<
                                SplitView,
                                EventErrors,
                            >(final(self)@[at])
                            &&& event.nft_mint == nft_mint
                            &&& event.amount == amount
                            &&& event.depositor == depositor
                        },
                        Err(e) => {
                            &&& old(self)@[at].deposit_result(amount as nat) == Err::<
                                SplitView,
                                EventErrors,
                            >(e)
                            &&& final(self)@ == old(self)@
                        },
                    }
                },
            },
    {
        match self.find(&nft_mint) {
            None => None,
            Some(at) => {
                assert(old(self)@[at as int].wf());
                let answer = deposit_royalty(&mut self.splits[at], depositor, amount);
                proof {
                    lemma_one_changed(old(self)@, self@, at as int);
                }
                Some(answer)
            },
        }
    }

    /// Pays `claimant` its share out of the ledger of `nft_mint`. `None` when
    /// the source has no ledger; otherwise what the ledger answers. Only that
    /// ledger changes, and only when it pays.
    pub fn claim(&mut self, nft_mint: Pubkey, claimant: Pubkey, recipient_index: u64) -> (paid:
        Option<Result<u64, EventErrors>>)
        requires
            old(self).wf(),
        ensures
            final(self).wf(),
            final(self)@.len() == old(self)@.len(),
            match paid {
                None => !holds(old(self)@, nft_mint) && final(self)@ == old(self)@,
                Some(answer) => {
                    let at = index_of(old(self)@, nft_mint);
                    &&& holds(old(self)@, nft_mint)
                    &&& final(self)@ == old(self)@.update(at, final(self)@[at])
                    &&& match answer {
                        Ok(amount) => old(self)@[at].claim_result(recipient_index as nat, claimant)
                            == Ok::<(SplitView, nat), EventErrors>(
                            (final(self)@[at], amount as nat),
                        ),
                        Err(e) => {
                            &&& old(self)@[at].claim_result(recipient_index as nat, claimant)
                                == Err::<(SplitView, nat), EventErrors>(e)
                            &&& final(self)@ == old(self)@
                        },
                    }
                },
            },
    {
        match self.find(&nft_mint) {
            None => None,
            Some(at) => {
                assert(old(self)@[at as int].wf());
                let answer = claim_share(&mut self.splits[at], claimant, recipient_index);
                proof {
                    lemma_one_changed(old(self)@, self@, at as int);
                }
                Some(answer)
            },
        }
    }

    /// Closes the ledger of `nft_mint` at `requester`'s request. `None` when
    /// the source has no ledger; otherwise what the ledger answers. Only that
    /// ledger changes, and only when it closes.
    pub fn close(&mut self, nft_mint: Pubkey, requester: Pubkey) -> (done: Option<
        Result<(), EventErrors>,
    >)
        requires
            old(self).wf(),
        ensures
            final(self).wf(),
            final(self)@.len() == old(self)@.len(),
            match done {
                None => !holds(old(self)@, nft_mint) && final(self)@ == old(self)@,
                Some(answer) => {
                    let at = index_of(old(self)@, nft_mint);
                    &&& holds(old(self)@, nft_mint)
                    &&& final(self)@ == old(self)@.update(at, final(self)@[at])
                    &&& match answer {
                        Ok(_) => old(self)@[at].close_result(requester) == Ok::<
                            SplitView,
                            EventErrors,
                        >(final(self)@[at]),
                        Err(e) => {
                            &&& old(self)@[at].close_result(requester) == Err::<
                                SplitView,
                                EventErrors,
                            >(e)
                            &&& final(self)@ == old(self)@
                        },
                    }
                },
            },
    {
        match self.find(&nft_mint) {
            None => None,
            Some(at) => {
                assert(old(self)@[at as int].wf());
                let answer = close_split(&mut self.splits[at], requester);
                proof {
                    lemma_one_changed(old(self)@, self@, at as int);
                }
                Some(answer)
            },
        }
    }
}

/// Replacing one valid ledger by a valid ledger of the same source keeps the
/// ledgers valid and their sources distinct.
pub proof fn lemma_one_changed(before: Seq<SplitView>, after: Seq<SplitView>, at: int)
    requires
        0 <= at < before.len(),
        after =~= before.update(at, after[at]),
        after.len() == before.len(),
        after[at].nft_mint == before[at].nft_mint,
        after[at].wf(),
        distinct_sources(before),
        forall|i: int| 0 <= i < before.len() ==> (#[trigger] before[i]).wf(),
    ensures
        distinct_sources(after),
        forall|i: int| 0 <= i < after.len() ==> (#[trigger] after[i]).wf(),
        after == before.update(at, after[at]),
        after[at] == before[at] ==> after == before,
{
    assert forall|i: int, j: int| 0 <= i < j < after.len() implies (#[trigger] after[i]).nft_mint
        != (#[trigger] after[j]).nft_mint by {
        assert(before[i].nft_mint != before[j].nft_mint);
    }
    assert forall|i: int| 0 <= i < after.len() implies (#[trigger] after[i]).wf() by {
        if i != at {
            assert(before[i].wf());
        }
    }
    if after[at] == before[at] {
        assert(after =~= before);
    }
}

/// A valid proposal for a source without a ledger is accepted.
pub proof fn lemma_create_succeeds(
    ledgers: Seq<SplitView>,
    nft_mint: Pubkey,
    creator: Pubkey,
    inputs: Seq<RecipientInput>,
    bump: u8,
)
    requires
        sum(input_percentages(inputs)) == 100,
        !holds(ledgers, nft_mint),
    ensures
        create_result(ledgers, nft_mint, creator, inputs, bump) is Ok,
{
}

/// Once a ledger has been created for a source, every further valid proposal
/// for the same source is rejected as a duplicate, whoever makes it and
/// whatever table it proposes.
pub proof fn lemma_create_once(
    ledgers: Seq<SplitView>,
    nft_mint: Pubkey,
    creator: Pubkey,
    inputs: Seq<RecipientInput>,
    bump: u8,
    next_creator: Pubkey,
    next_inputs: Seq<RecipientInput>,
    next_bump: u8,
)
    requires
        create_result(ledgers, nft_mint, creator, inputs, bump) is Ok,
        sum(input_percentages(next_inputs)) == 100,
    ensures
        create_result(
            create_result(ledgers, nft_mint, creator, inputs, bump).unwrap(),
            nft_mint,
            next_creator,
            next_inputs,
            next_bump,
        ) == Err::<Seq<SplitView>, EventErrors>(EventErrors::DuplicateLedger),
{
    let after = create_result(ledgers, nft_mint, creator, inputs, bump).unwrap();
    assert(after[ledgers.len() as int].nft_mint == nft_mint);
}

/// A proposal whose percentages do not sum to 100 is rejected as an invalid
/// allocation, whatever ledgers exist.
pub proof fn lemma_create_needs_hundred(
    ledgers: Seq<SplitView>,
    nft_mint: Pubkey,
    creator: Pubkey,
    inputs: Seq<RecipientInput>,
    bump: u8,
)
    requires
        sum(input_percentages(inputs)) != 100,
    ensures
        create_result(ledgers, nft_mint, creator, inputs, bump) == Err::<
            Seq<SplitView>,
            EventErrors,
        >(EventErrors::SumExceed100Error),
{
}

} // verus!
