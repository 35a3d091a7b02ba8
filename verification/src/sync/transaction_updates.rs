//! What a sync does to the transactions this client submitted.
use vstd::prelude::*;

use crate::collections::{contains_key, has_key, keys_ascending, OrdKey, OrdMap};
use crate::rpc::domain::transaction::TransactionRecord as RpcTransactionRecord;
use crate::transaction::{DiscardCause, TransactionRecord, TransactionStatus};
use crate::types::{AccountId, BlockNumber, Nullifier, TransactionId, Word};

verus! {

/// Transactions by id, in ascending order of their ids.
pub type Transactions = Seq<(TransactionId, TransactionRecord)>;

/// Which pending transactions are to be given up.
#[derive(Clone, Copy, Debug)]
pub enum DiscardRule {
    /// Those submitted before the block.
    SubmittedBefore(BlockNumber),
    /// Those that expire at or before the block.
    ExpiredBy(BlockNumber),
    /// Those that consume the note with this nullifier.
    Consumes(Nullifier),
    /// Those that lead to the state.
    LeadsTo(Word),
    /// Those that start from the state.
    StartsFrom(Word),
}

impl DiscardRule {
    /// The rule applies to the transaction.
    pub open spec fn applies_to(self, tx: TransactionRecord) -> bool {
        match self {
            DiscardRule::SubmittedBefore(block_num) => tx.details.submission_height < block_num,
            DiscardRule::ExpiredBy(block_num) => tx.details.expiration_block_num <= block_num,
            DiscardRule::Consumes(nullifier) => tx.details.input_note_nullifiers@.contains(
                nullifier,
            ),
            DiscardRule::LeadsTo(state) => tx.details.final_account_state == state,
            DiscardRule::StartsFrom(state) => tx.details.init_account_state == state,
        }
    }

    /// Returns true if the rule applies to the transaction.
    fn check(&self, tx: &TransactionRecord) -> (applies: bool)
        ensures
            applies == self.applies_to(*tx),
    {
        match self {
            DiscardRule::SubmittedBefore(block_num) => tx.details.submission_height < *block_num,
            DiscardRule::ExpiredBy(block_num) => tx.details.expiration_block_num <= *block_num,
            DiscardRule::Consumes(nullifier) => contains_key(
                &tx.details.input_note_nullifiers,
                nullifier,
            ),
            DiscardRule::LeadsTo(state) => tx.details.final_account_state == *state,
            DiscardRule::StartsFrom(state) => tx.details.init_account_state == *state,
        }
    }
}

/// Positions of pending transactions of which the first falls under the rule, and each other one
/// starts from the state the one before it leads to.
pub open spec fn invalidates(txs: Transactions, rule: DiscardRule, chain: Seq<int>) -> bool {
    &&& chain.len() > 0
    &&& forall|k: int|
        0 <= k < chain.len() ==> 0 <= (#[trigger] chain[k]) < txs.len()
            && txs[chain[k]].1.is_pending()
    &&& rule.applies_to(txs[chain[0]].1)
    &&& forall|k: int|
        0 <= k < chain.len() - 1 ==> txs[#[trigger] chain[k]].1.details.final_account_state
            == txs[chain[k + 1]].1.details.init_account_state
}

/// Giving up the transactions under the rule invalidates the pending transaction at `i`: it falls
/// under the rule, or builds on a transaction that is invalidated.
pub open spec fn doomed(txs: Transactions, rule: DiscardRule, i: int) -> bool {
    exists|chain: Seq<int>| #[trigger] invalidates(txs, rule, chain) && chain.last() == i
}

/// The status of the transaction at `i` after those under the rule were given up for `cause`.
pub open spec fn status_after_discard(
    txs: Transactions,
    rule: DiscardRule,
    cause: DiscardCause,
    i: int,
) -> TransactionStatus {
    if !txs[i].1.is_pending() {
        txs[i].1.status
    } else if rule.applies_to(txs[i].1) {
        TransactionStatus::Discarded(cause)
    } else if doomed(txs, rule, i) {
        TransactionStatus::Discarded(DiscardCause::DiscardedInitialState)
    } else {
        TransactionStatus::Pending
    }
}

/// The transactions after those under the rule were given up for `cause`, and with them all
/// pending transactions that build on them.
pub open spec fn after_discard(
    txs: Transactions,
    rule: DiscardRule,
    cause: DiscardCause,
) -> Transactions {
    Seq::new(
        txs.len(),
        |i: int| (txs[i].0, txs[i].1.with_status(status_after_discard(txs, rule, cause, i))),
    )
}

/// The transactions after those under the rule, and no others, were given up for `cause`.
pub open spec fn after_pass(
    txs: Transactions,
    rule: DiscardRule,
    cause: DiscardCause,
) -> Transactions {
    Seq::new(
        txs.len(),
        |i: int|
            (
                txs[i].0,
                if rule.applies_to(txs[i].1) {
                    txs[i].1.discarded(cause)
                } else {
                    txs[i].1
                },
            ),
    )
}

/// How many of the first `n` transactions are pending.
pub open spec fn pending_count(txs: Transactions, n: int) -> nat
    decreases n,
{
    if n <= 0 {
        0
    } else {
        pending_count(txs, n - 1) + (if txs[n - 1].1.is_pending() {
            1nat
        } else {
            0nat
        })
    }
}

/// The last block before which a transaction submitted earlier counts as stale.
pub open spec fn stale_before(sync_height: BlockNumber, tx_discard_delta: u32) -> BlockNumber {
    if sync_height >= tx_discard_delta {
        (sync_height - tx_discard_delta) as u32
    } else {
        0
    }
}

/// The transactions after the sync height moved: stale ones are given up, then expired ones.
pub open spec fn after_sync_height(
    txs: Transactions,
    sync_height: BlockNumber,
    tx_discard_delta: Option<u32>,
) -> Transactions {
    let kept = match tx_discard_delta {
        Some(delta) => after_discard(
            txs,
            DiscardRule::SubmittedBefore(stale_before(sync_height, delta)),
            DiscardCause::Stale,
        ),
        None => txs,
    };
    after_discard(kept, DiscardRule::ExpiredBy(sync_height), DiscardCause::Expired)
}

/// The transaction runs on the account and starts from the state.
pub open spec fn starts_on(tx: TransactionRecord, account_id: AccountId, state: Word) -> bool {
    tx.details.account_id == account_id && tx.details.init_account_state == state
}

/// `i` is the position of the transaction that a reported transaction stands for: the one with its
/// id, or else the first one that starts from the same state of the same account.
///
/// The id of a transaction with unauthenticated input notes changes when the node authenticates
/// them, so the id alone does not identify it.
pub open spec fn stands_for(txs: Transactions, record: RpcTransactionRecord, i: int) -> bool {
    let header = record.transaction_header;
    &&& 0 <= i < txs.len()
    &&& {
        ||| txs[i].0 == header.id
        ||| {
            &&& !has_key(txs, header.id)
            &&& starts_on(txs[i].1, header.account_id, header.initial_state_commitment)
            &&& forall|j: int|
                0 <= j < i ==> !starts_on(
                    (#[trigger] txs[j]).1,
                    header.account_id,
                    header.initial_state_commitment,
                )
        }
    }
}

/// The map with each of the nullifiers sent to the account.
pub open spec fn attribute(
    accounts: Map<Nullifier, AccountId>,
    nullifiers: Seq<Nullifier>,
    account_id: AccountId,
) -> Map<Nullifier, AccountId> {
    Map::new(
        |nullifier: Nullifier| nullifiers.contains(nullifier) || accounts.contains_key(nullifier),
        |nullifier: Nullifier|
            if nullifiers.contains(nullifier) {
                account_id
            } else {
                accounts[nullifier]
            },
    )
}

/// What the tracker holds: the transactions, and the accounts that consumed notes in external ones.
pub type TrackerState = (Transactions, Map<Nullifier, AccountId>);

/// What the tracker holds after a reported transaction was included in a block.
///
/// If it stands for a transaction of this client, that one is committed. Otherwise it is an
/// external transaction of a tracked account, and the notes it consumed are attributed to that
/// account.
pub open spec fn included(
    state: TrackerState,
    record: RpcTransactionRecord,
    timestamp: u64,
) -> TrackerState {
    let (txs, accounts) = state;
    if exists|i: int| stands_for(txs, record, i) {
        let i = choose|i: int| stands_for(txs, record, i);
        (txs.update(i, (txs[i].0, txs[i].1.committed(record.block_num, timestamp))), accounts)
    } else {
        (
            txs,
            attribute(
                accounts,
                record.transaction_header.input_nullifiers@,
                record.transaction_header.account_id,
            ),
        )
    }
}

/// What the tracker holds after reported transactions were included, one after the other.
pub open spec fn all_included(
    state: TrackerState,
    records: Seq<RpcTransactionRecord>,
    timestamp: u64,
) -> TrackerState
    decreases records.len(),
{
    if records.len() == 0 {
        state
    } else {
        included(all_included(state, records.drop_last(), timestamp), records.last(), timestamp)
    }
}

/// The transactions after those that lead to the states were given up, one after the other.
pub open spec fn all_superseded(txs: Transactions, states: Seq<Word>) -> Transactions
    decreases states.len(),
{
    if states.len() == 0 {
        txs
    } else {
        after_discard(
            all_superseded(txs, states.drop_last()),
            DiscardRule::LeadsTo(states.last()),
            DiscardCause::Superseded,
        )
    }
}

/// The transactions after those that consume the notes were given up, one after the other.
pub open spec fn all_nullified(txs: Transactions, nullifiers: Seq<Nullifier>) -> Transactions
    decreases nullifiers.len(),
{
    if nullifiers.len() == 0 {
        txs
    } else {
        after_discard(
            all_nullified(txs, nullifiers.drop_last()),
            DiscardRule::Consumes(nullifiers.last()),
            DiscardCause::InputConsumed,
        )
    }
}

/// The transactions by id, where the last of those with the same id is kept.
pub open spec fn by_id(transactions: Seq<TransactionRecord>) -> Map<TransactionId, TransactionRecord>
    decreases transactions.len(),
{
    if transactions.len() == 0 {
        Map::empty()
    } else {
        by_id(transactions.drop_last()).insert(transactions.last().id, transactions.last())
    }
}

/// The committed transactions among these, in order.
pub open spec fn committed_of(txs: Transactions) -> Seq<TransactionRecord>
    decreases txs.len(),
{
    if txs.len() == 0 {
        Seq::empty()
    } else if txs.last().1.status is Committed {
        committed_of(txs.drop_last()).push(txs.last().1)
    } else {
        committed_of(txs.drop_last())
    }
}

/// The discarded transactions among these, in order.
pub open spec fn discarded_of(txs: Transactions) -> Seq<TransactionRecord>
    decreases txs.len(),
{
    if txs.len() == 0 {
        Seq::empty()
    } else if txs.last().1.status is Discarded {
        discarded_of(txs.drop_last()).push(txs.last().1)
    } else {
        discarded_of(txs.drop_last())
    }
}

/// The ids of the transactions.
pub open spec fn ids_of(transactions: Seq<TransactionRecord>) -> Seq<TransactionId> {
    transactions.map_values(|tx: TransactionRecord| tx.id)
}

/// The submitted transactions, as a sync changes them.
#[derive(Debug)]
pub struct TransactionUpdateTracker {
    /// Transactions by id.
    pub transactions: OrdMap<TransactionId, TransactionRecord>,
    /// For notes consumed by transactions of tracked accounts that this client did not submit, the
    /// account that consumed them.
    pub external_nullifier_accounts: OrdMap<Nullifier, AccountId>,
}

impl TransactionUpdateTracker {
    /// The transactions in ascending order of their ids.
    pub open spec fn txs(self) -> Transactions {
        self.transactions.listing()
    }

    /// What the tracker holds.
    pub open spec fn state(self) -> TrackerState {
        (self.txs(), self.external_nullifier_accounts@)
    }

    /// Creates a tracker of the given transactions.
    pub fn new(transactions: Vec<TransactionRecord>) -> (tracker: Self)
        ensures
            tracker.transactions@ == by_id(transactions@),
            tracker.external_nullifier_accounts@ == Map::<Nullifier, AccountId>::empty(),
    {
        let ghost all = transactions@;
        let mut rest = transactions;
        let mut map: OrdMap<TransactionId, TransactionRecord> = OrdMap::new();
        let mut reversed: Vec<TransactionRecord> = Vec::new();
        while rest.len() > 0
            invariant
                rest@ + reversed@.reverse() == all,
            decreases rest.len(),
        {
            let ghost rest_before = rest@;
            let ghost reversed_before = reversed@;
            if let Some(tx) = rest.pop() {
                reversed.push(tx);
                assert(rest@ + reversed@.reverse() =~= rest_before + reversed_before.reverse());
            }
        }
        assert(reversed@.reverse() =~= all);
        while reversed.len() > 0
            invariant
                reversed@.len() <= all.len(),
                reversed@.reverse() == all.skip(all.len() - reversed@.len()),
                map@ == by_id(all.take(all.len() - reversed@.len())),
            decreases reversed.len(),
        {
            let ghost done = all.len() - reversed@.len();
            let ghost reversed_before = reversed@;
            if let Some(tx) = reversed.pop() {
                proof {
                    assert(reversed_before.reverse()[0] == tx);
                    assert(all[done] == tx);
                    assert(all.take(done + 1).drop_last() =~= all.take(done));
                    assert(all.take(done + 1).last() == tx);
                    assert forall|k: int| 0 <= k < reversed@.len() implies reversed@.reverse()[k]
                        == all.skip(done + 1)[k] by {
                        assert(reversed_before.reverse()[k + 1] == all.skip(done)[k + 1]);
                    }
                    assert(reversed@.reverse() =~= all.skip(done + 1));
                }
                map.insert(tx.id, tx);
            }
        }
        assert(all.take(all.len() as int) =~= all);
        TransactionUpdateTracker {
            transactions: map,
            external_nullifier_accounts: OrdMap::new(),
        }
    }

    /// Returns the committed transactions.
    pub fn committed_transactions(&self) -> (committed: Vec<&TransactionRecord>)
        ensures
            committed@.len() == committed_of(self.txs()).len(),
            forall|k: int|
                0 <= k < committed@.len() ==> *(#[trigger] committed@[k]) == committed_of(
                    self.txs(),
                )[k],
    {
        let mut committed: Vec<&TransactionRecord> = Vec::new();
        let mut i: usize = 0;
        while i < self.transactions.len()
            invariant
                i <= self.transactions.listing().len(),
                committed@.len() == committed_of(self.txs().take(i as int)).len(),
                forall|k: int|
                    0 <= k < committed@.len() ==> *(#[trigger] committed@[k]) == committed_of(
                        self.txs().take(i as int),
                    )[k],
            decreases self.transactions.listing().len() - i,
        {
            assert(self.txs().take(i + 1).drop_last() =~= self.txs().take(i as int));
            assert(self.txs().take(i + 1).last() == self.txs()[i as int]);
            let transaction = &self.transactions.entries()[i].1;
            if matches!(transaction.status, TransactionStatus::Committed { .. }) {
                committed.push(transaction);
            }
            i += 1;
        }
        assert(self.txs().take(self.txs().len() as int) =~= self.txs());
        committed
    }

    /// Returns the discarded transactions.
    pub fn discarded_transactions(&self) -> (discarded: Vec<&TransactionRecord>)
        ensures
            discarded@.len() == discarded_of(self.txs()).len(),
            forall|k: int|
                0 <= k < discarded@.len() ==> *(#[trigger] discarded@[k]) == discarded_of(
                    self.txs(),
                )[k],
    {
        let mut discarded: Vec<&TransactionRecord> = Vec::new();
        let mut i: usize = 0;
        while i < self.transactions.len()
            invariant
                i <= self.transactions.listing().len(),
                discarded@.len() == discarded_of(self.txs().take(i as int)).len(),
                forall|k: int|
                    0 <= k < discarded@.len() ==> *(#[trigger] discarded@[k]) == discarded_of(
                        self.txs().take(i as int),
                    )[k],
            decreases self.transactions.listing().len() - i,
        {
            assert(self.txs().take(i + 1).drop_last() =~= self.txs().take(i as int));
            assert(self.txs().take(i + 1).last() == self.txs()[i as int]);
            let transaction = &self.transactions.entries()[i].1;
            if matches!(transaction.status, TransactionStatus::Discarded(_)) {
                discarded.push(transaction);
            }
            i += 1;
        }
        assert(self.txs().take(self.txs().len() as int) =~= self.txs());
        discarded
    }

    /// Returns the ids of the transactions that were decided: first those of the committed ones,
    /// then those of the discarded ones.
    pub fn updated_transaction_ids(&self) -> (ids: Vec<TransactionId>)
        ensures
            ids@ == ids_of(committed_of(self.txs())) + ids_of(discarded_of(self.txs())),
    {
        let committed = self.committed_transactions();
        let discarded = self.discarded_transactions();
        let mut ids: Vec<TransactionId> = Vec::new();
        let mut i: usize = 0;
        while i < committed.len()
            invariant
                i <= committed.len(),
                committed@.len() == committed_of(self.txs()).len(),
                forall|k: int|
                    0 <= k < committed@.len() ==> *(#[trigger] committed@[k]) == committed_of(
                        self.txs(),
                    )[k],
                ids@ == ids_of(committed_of(self.txs())).take(i as int),
            decreases committed.len() - i,
        {
            ids.push(committed[i].id);
            proof {
                let all = ids_of(committed_of(self.txs()));
                assert(*committed@[i as int] == committed_of(self.txs())[i as int]);
                assert(all.take(i + 1) =~= all.take(i as int).push(all[i as int]));
            }
            i += 1;
        }
        let ghost first = ids_of(committed_of(self.txs()));
        assert(ids@ =~= first);
        let mut j: usize = 0;
        while j < discarded.len()
            invariant
                j <= discarded.len(),
                discarded@.len() == discarded_of(self.txs()).len(),
                forall|k: int|
                    0 <= k < discarded@.len() ==> *(#[trigger] discarded@[k]) == discarded_of(
                        self.txs(),
                    )[k],
                ids@ == first + ids_of(discarded_of(self.txs())).take(j as int),
            decreases discarded.len() - j,
        {
            ids.push(discarded[j].id);
            proof {
                let all = ids_of(discarded_of(self.txs()));
                assert(*discarded@[j as int] == discarded_of(self.txs())[j as int]);
                assert(all.take(j + 1) =~= all.take(j as int).push(all[j as int]));
            }
            j += 1;
        }
        proof {
            let all = ids_of(discarded_of(self.txs()));
            assert(all.take(all.len() as int) =~= all);
        }
        ids
    }

    /// Returns the account that consumed the note with this nullifier in a transaction this client
    /// did not submit, if there is one.
    pub fn external_nullifier_account(&self, nullifier: &Nullifier) -> (account: Option<AccountId>)
        ensures
            account == if self.external_nullifier_accounts@.contains_key(*nullifier) {
                Some(self.external_nullifier_accounts@[*nullifier])
            } else {
                None
            },
    {
        match self.external_nullifier_accounts.get(nullifier) {
            Some(account_id) => Some(*account_id),
            None => None,
        }
    }

    /// Applies the inclusion of a transaction in a block: commits the transaction it stands for, or
    /// attributes the notes it consumed.
    pub fn apply_transaction_inclusion(&mut self, record: &RpcTransactionRecord, timestamp: u64)
        ensures
            final(self).state() == included(old(self).state(), *record, timestamp),
    {
        let header = &record.transaction_header;
        let ghost txs = self.txs();
        proof {
            use_type_invariant(&self.transactions);
        }
        match self.matching_position(record) {
            Some(position) => {
                proof {
                    lemma_stands_for_unique(txs, *record, position as int);
                    assert(stands_for(txs, *record, choose|i: int| stands_for(txs, *record, i)));
                }
                let (id, mut transaction) = self.transactions.remove_at(position);
                transaction.commit_transaction(record.block_num, timestamp);
                self.transactions.insert_at(position, id, transaction);
                proof {
                    let after = txs.update(
                        position as int,
                        (
                            txs[position as int].0,
                            txs[position as int].1.committed(record.block_num, timestamp),
                        ),
                    );
                    assert(self.txs() =~= after);
                    assert forall|i: int, j: int| 0 <= i < j < after.len() implies (
                    #[trigger] after[i]).0.rank() < (#[trigger] after[j]).0.rank() by {
                        assert(txs[i].0.rank() < txs[j].0.rank());
                    }
                }
            },
            None => {
                let mut k: usize = 0;
                while k < header.input_nullifiers.len()
                    invariant
                        k <= header.input_nullifiers.len(),
                        header == &record.transaction_header,
                        self.transactions == old(self).transactions,
                        self.external_nullifier_accounts@ == attribute(
                            old(self).external_nullifier_accounts@,
                            header.input_nullifiers@.take(k as int),
                            header.account_id,
                        ),
                    decreases header.input_nullifiers.len() - k,
                {
                    let nullifier = header.input_nullifiers[k];
                    self.external_nullifier_accounts.insert(nullifier, header.account_id);
                    proof {
                        let before = header.input_nullifiers@.take(k as int);
                        let after = header.input_nullifiers@.take(k + 1);
                        assert(after =~= before.push(nullifier));
                        assert forall|n: Nullifier| after.contains(n) == (before.contains(n) || n
                            == nullifier) by {
                            if before.contains(n) {
                                let i = choose|i: int| 0 <= i < before.len() && before[i] == n;
                                assert(after[i] == n);
                            }
                            assert(after[after.len() - 1] == nullifier);
                        }
                        assert(self.external_nullifier_accounts@ =~= attribute(
                            old(self).external_nullifier_accounts@,
                            after,
                            header.account_id,
                        ));
                    }
                    k += 1;
                }
                proof {
                    assert(header.input_nullifiers@.take(header.input_nullifiers.len() as int)
                        =~= header.input_nullifiers@);
                }
            },
        }
        proof {
            assert(attribute(old(self).external_nullifier_accounts@, Seq::empty(), 0)
                =~= old(self).external_nullifier_accounts@);
        }
    }

    /// Returns the position of the transaction that a reported transaction stands for.
    fn matching_position(&self, record: &RpcTransactionRecord) -> (position: Option<usize>)
        ensures
            match position {
                Some(i) => stands_for(self.txs(), *record, i as int),
                None => forall|i: int| !#[trigger] stands_for(self.txs(), *record, i),
            },
    {
        let header = &record.transaction_header;
        let ghost txs = self.txs();
        let by_id: usize = self.transactions.position(&header.id);
        if by_id < self.transactions.len()
            && self.transactions.entries()[by_id].0 == header.id {
            return Some(by_id);
        }
        assert(!has_key(txs, header.id));
        let mut i: usize = 0;
        while i < self.transactions.len()
            invariant
                i <= self.transactions.listing().len(),
                txs == self.txs(),
                header == &record.transaction_header,
                !has_key(txs, header.id),
                forall|j: int|
                    0 <= j < i ==> !starts_on(
                        (#[trigger] txs[j]).1,
                        header.account_id,
                        header.initial_state_commitment,
                    ),
            decreases self.transactions.listing().len() - i,
        {
            let details = &self.transactions.entries()[i].1.details;
            if details.account_id == header.account_id && details.init_account_state
                == header.initial_state_commitment {
                return Some(i);
            }
            i += 1;
        }
        proof {
            assert forall|j: int| !#[trigger] stands_for(txs, *record, j) by {
                if 0 <= j < txs.len() && txs[j].0 == header.id {
                    assert(has_key(txs, header.id));
                }
            }
        }
        None
    }

    /// Applies the transactions of a sync and the new sync height.
    pub fn apply_transactions(
        &mut self,
        records: &Vec<RpcTransactionRecord>,
        timestamp: u64,
        new_sync_height: BlockNumber,
        tx_discard_delta: Option<u32>,
    )
        ensures
            final(self).txs() == after_sync_height(
                all_included(old(self).state(), records@, timestamp).0,
                new_sync_height,
                tx_discard_delta,
            ),
            final(self).external_nullifier_accounts@ == all_included(
                old(self).state(),
                records@,
                timestamp,
            ).1,
    {
        let mut i: usize = 0;
        while i < records.len()
            invariant
                i <= records.len(),
                self.state() == all_included(old(self).state(), records@.take(i as int), timestamp),
            decreases records.len() - i,
        {
            assert(records@.take(i + 1).drop_last() =~= records@.take(i as int));
            assert(records@.take(i + 1).last() == records@[i as int]);
            self.apply_transaction_inclusion(&records[i], timestamp);
            i += 1;
        }
        assert(records@.take(records.len() as int) =~= records@);
        self.apply_sync_height_update(new_sync_height, tx_discard_delta);
    }

    /// Gives up the transactions that produced the superseded account states.
    pub fn apply_superseded_account_states(&mut self, states: &Vec<Word>)
        ensures
            final(self).txs() == all_superseded(old(self).txs(), states@),
            final(self).external_nullifier_accounts == old(self).external_nullifier_accounts,
    {
        let mut i: usize = 0;
        while i < states.len()
            invariant
                i <= states.len(),
                self.txs() == all_superseded(old(self).txs(), states@.take(i as int)),
                self.external_nullifier_accounts == old(self).external_nullifier_accounts,
            decreases states.len() - i,
        {
            assert(states@.take(i + 1).drop_last() =~= states@.take(i as int));
            assert(states@.take(i + 1).last() == states@[i as int]);
            self.apply_superseded_account_state(states[i]);
            i += 1;
        }
        assert(states@.take(states.len() as int) =~= states@);
    }

    /// Applies a new sync height: gives up the transactions that were submitted more than
    /// `tx_discard_delta` blocks ago, and then those that expire by the new height.
    pub fn apply_sync_height_update(
        &mut self,
        new_sync_height: BlockNumber,
        tx_discard_delta: Option<u32>,
    )
        ensures
            final(self).txs() == after_sync_height(
                old(self).txs(),
                new_sync_height,
                tx_discard_delta,
            ),
            final(self).external_nullifier_accounts == old(self).external_nullifier_accounts,
    {
        if let Some(delta) = tx_discard_delta {
            let threshold: u32 = match new_sync_height.checked_sub(delta) {
                Some(block_num) => block_num,
                None => 0,
            };
            self.discard_transactions(DiscardRule::SubmittedBefore(threshold), DiscardCause::Stale);
        }
        // At this point a transaction included by the new height has been committed.
        self.discard_transactions(DiscardRule::ExpiredBy(new_sync_height), DiscardCause::Expired);
    }

    /// Applies the consumption of a note: gives up the transactions that consume it as well.
    pub fn apply_input_note_nullified(&mut self, input_note_nullifier: Nullifier)
        ensures
            final(self).txs() == after_discard(
                old(self).txs(),
                DiscardRule::Consumes(input_note_nullifier),
                DiscardCause::InputConsumed,
            ),
            final(self).external_nullifier_accounts == old(self).external_nullifier_accounts,
    {
        self.discard_transactions(
            DiscardRule::Consumes(input_note_nullifier),
            DiscardCause::InputConsumed,
        );
    }

    /// Gives up the transaction that produced an account state which the network has superseded.
    pub fn apply_superseded_account_state(&mut self, superseded_account_state: Word)
        ensures
            final(self).txs() == after_discard(
                old(self).txs(),
                DiscardRule::LeadsTo(superseded_account_state),
                DiscardCause::Superseded,
            ),
            final(self).external_nullifier_accounts == old(self).external_nullifier_accounts,
    {
        self.discard_transactions(
            DiscardRule::LeadsTo(superseded_account_state),
            DiscardCause::Superseded,
        );
    }

    /// Gives up the transactions that start from an invalid account state.
    pub fn apply_invalid_initial_account_state(&mut self, invalid_account_state: Word)
        ensures
            final(self).txs() == after_discard(
                old(self).txs(),
                DiscardRule::StartsFrom(invalid_account_state),
                DiscardCause::DiscardedInitialState,
            ),
            final(self).external_nullifier_accounts == old(self).external_nullifier_accounts,
    {
        self.discard_transactions(
            DiscardRule::StartsFrom(invalid_account_state),
            DiscardCause::DiscardedInitialState,
        );
    }

    /// Gives up the pending transactions under the rule for `cause`, and with them every pending
    /// transaction that builds on one that was given up.
    pub fn discard_transactions(&mut self, rule: DiscardRule, cause: DiscardCause)
        ensures
            final(self).txs() == after_discard(old(self).txs(), rule, cause),
            final(self).external_nullifier_accounts == old(self).external_nullifier_accounts,
    {
        let ghost txs = self.txs();
        let mut invalid_states: Vec<Word> = Vec::new();
        self.discard_pass(&rule, cause, &mut invalid_states);
        proof {
            lemma_first_pass(txs, rule, cause, self.txs(), invalid_states@);
        }
        while invalid_states.len() > 0
            invariant
                self.external_nullifier_accounts == old(self).external_nullifier_accounts,
                discard_state(txs, rule, cause, self.txs(), invalid_states@),
            decreases pending_count(self.txs(), self.txs().len() as int), invalid_states.len(),
        {
            let ghost before = self.txs();
            let ghost states = invalid_states@;
            if let Some(state) = invalid_states.pop() {
                self.discard_pass(
                    &DiscardRule::StartsFrom(state),
                    DiscardCause::DiscardedInitialState,
                    &mut invalid_states,
                );
                proof {
                    lemma_next_pass(
                        txs,
                        rule,
                        cause,
                        before,
                        states,
                        self.txs(),
                        invalid_states@,
                    );
                }
            }
        }
        proof {
            lemma_discard_done(txs, rule, cause, self.txs());
        }
    }

    /// Gives up the pending transactions under the rule for `cause`, and appends the states they
    /// would have led to.
    fn discard_pass(
        &mut self,
        rule: &DiscardRule,
        cause: DiscardCause,
        invalid_states: &mut Vec<Word>,
    )
        ensures
            final(self).txs() == after_pass(old(self).txs(), *rule, cause),
            final(self).external_nullifier_accounts == old(self).external_nullifier_accounts,
            final(invalid_states)@ == old(invalid_states)@ + pass_states(
                old(self).txs(),
                *rule,
                old(self).txs().len() as int,
            ),
    {
        let ghost txs = self.txs();
        let ghost target = after_pass(txs, *rule, cause);
        let ghost states = invalid_states@;
        let mut i: usize = 0;
        while i < self.transactions.len()
            invariant
                i <= self.transactions.listing().len(),
                self.txs().len() == txs.len(),
                target == after_pass(txs, *rule, cause),
                self.external_nullifier_accounts == old(self).external_nullifier_accounts,
                forall|j: int| 0 <= j < i ==> #[trigger] self.txs()[j] == target[j],
                forall|j: int| i <= j < txs.len() ==> #[trigger] self.txs()[j] == txs[j],
                invalid_states@ == states + pass_states(txs, *rule, i as int),
            decreases self.transactions.listing().len() - i,
        {
            let ghost before = self.txs();
            let (id, mut transaction) = self.transactions.remove_at(i);
            assert((id, transaction) == txs[i as int]);
            if rule.check(&transaction) {
                let state = transaction.details.final_account_state;
                if transaction.discard_transaction(cause) {
                    invalid_states.push(state);
                }
            }
            self.transactions.insert_at(i, id, transaction);
            assert(self.txs() =~= before.update(i as int, target[i as int]));
            i += 1;
        }
        assert(self.txs() =~= target);
    }
}

/// The states that the first `n` transactions would have led to, of those that are pending and
/// under the rule.
spec fn pass_states(txs: Transactions, rule: DiscardRule, n: int) -> Seq<Word>
    decreases n,
{
    if n <= 0 {
        Seq::empty()
    } else {
        let rest = pass_states(txs, rule, n - 1);
        if txs[n - 1].1.is_pending() && rule.applies_to(txs[n - 1].1) {
            rest.push(txs[n - 1].1.details.final_account_state)
        } else {
            rest
        }
    }
}

/// Only one transaction can be the one that a reported transaction stands for.
pub proof fn lemma_stands_for_unique(txs: Transactions, record: RpcTransactionRecord, i: int)
    requires
        keys_ascending(txs),
        stands_for(txs, record, i),
    ensures
        forall|j: int| #[trigger] stands_for(txs, record, j) ==> j == i,
{
    let header = record.transaction_header;
    assert forall|j: int| #[trigger] stands_for(txs, record, j) implies j == i by {
        if txs[i].0 == header.id || txs[j].0 == header.id {
            assert(has_key(txs, header.id));
        }
        if i < j {
            assert(txs[i].0.rank() < txs[j].0.rank());
        } else if j < i {
            assert(txs[j].0.rank() < txs[i].0.rank());
        }
    }
}

/// An invalidated transaction leads to `state`.
spec fn is_doomed_state(txs: Transactions, rule: DiscardRule, state: Word) -> bool {
    exists|j: int| #[trigger]
        doomed(txs, rule, j) && txs[j].1.details.final_account_state == state
}

/// Where a discard stands between two passes: every decided transaction has its final status, and
/// every pending one that builds on a discarded one starts from a state still to be handled.
spec fn discard_state(
    txs: Transactions,
    rule: DiscardRule,
    cause: DiscardCause,
    now: Transactions,
    states: Seq<Word>,
) -> bool {
    &&& now.len() == txs.len()
    &&& forall|i: int|
        0 <= i < txs.len() ==> {
            &&& (#[trigger] now[i]).0 == txs[i].0
            &&& now[i].1 == txs[i].1.with_status(now[i].1.status)
            &&& now[i].1.is_pending() ==> txs[i].1.is_pending() && !rule.applies_to(txs[i].1)
            &&& !now[i].1.is_pending() ==> now[i].1.status == status_after_discard(
                txs,
                rule,
                cause,
                i,
            )
            &&& !now[i].1.is_pending() && txs[i].1.is_pending() ==> doomed(txs, rule, i)
        }
    &&& forall|k: int|
        0 <= k < states.len() ==> is_doomed_state(txs, rule, #[trigger] states[k])
    &&& forall|i: int, j: int|
        0 <= i < txs.len() && 0 <= j < txs.len() && txs[j].1.is_pending()
            && !(#[trigger] now[j]).1.is_pending() && (#[trigger] now[i]).1.is_pending()
            && txs[j].1.details.final_account_state == txs[i].1.details.init_account_state
            ==> states.contains(txs[i].1.details.init_account_state)
}

/// One of the first `n` transactions is pending, falls under the rule, and leads to `state`.
spec fn is_pass_state(txs: Transactions, rule: DiscardRule, n: int, state: Word) -> bool {
    exists|j: int|
        0 <= j < n && (#[trigger] txs[j]).1.is_pending() && rule.applies_to(txs[j].1)
            && txs[j].1.details.final_account_state == state
}

/// What the states of a pass hold.
proof fn lemma_pass_states(txs: Transactions, rule: DiscardRule, n: int)
    requires
        0 <= n <= txs.len(),
    ensures
        forall|k: int|
            0 <= k < pass_states(txs, rule, n).len() ==> is_pass_state(
                txs,
                rule,
                n,
                #[trigger] pass_states(txs, rule, n)[k],
            ),
        forall|j: int|
            0 <= j < n && (#[trigger] txs[j]).1.is_pending() && rule.applies_to(txs[j].1)
                ==> pass_states(txs, rule, n).contains(txs[j].1.details.final_account_state),
        forall|cause: DiscardCause|
            pending_count(#[trigger] after_pass(txs, rule, cause), n) + pass_states(
                txs,
                rule,
                n,
            ).len() == pending_count(txs, n),
    decreases n,
{
    if n > 0 {
        lemma_pass_states(txs, rule, n - 1);
        let rest = pass_states(txs, rule, n - 1);
        let all = pass_states(txs, rule, n);
        assert forall|k: int| 0 <= k < all.len() implies is_pass_state(
            txs,
            rule,
            n,
            #[trigger] all[k],
        ) by {
            if k < rest.len() {
                assert(all[k] == rest[k]);
                assert(is_pass_state(txs, rule, n - 1, rest[k]));
                let j = choose|j: int|
                    0 <= j < n - 1 && (#[trigger] txs[j]).1.is_pending() && rule.applies_to(
                        txs[j].1,
                    ) && txs[j].1.details.final_account_state == rest[k];
                assert(txs[j].1.is_pending());
            } else {
                assert(txs[n - 1].1.is_pending());
            }
        }
        assert forall|j: int|
            0 <= j < n && (#[trigger] txs[j]).1.is_pending() && rule.applies_to(txs[j].1) implies
            all.contains(txs[j].1.details.final_account_state) by {
            let state = txs[j].1.details.final_account_state;
            if j < n - 1 {
                assert(rest.contains(state));
                let k = choose|k: int| 0 <= k < rest.len() && rest[k] == state;
                assert(all[k] == state);
            } else {
                assert(all[all.len() - 1] == state);
            }
        }
        assert forall|cause: DiscardCause|
            pending_count(#[trigger] after_pass(txs, rule, cause), n) + all.len()
                == pending_count(txs, n) by {
            let after = after_pass(txs, rule, cause);
            assert(pending_count(after, n - 1) + rest.len() == pending_count(txs, n - 1));
        }
    }
}

/// The pass under the rule itself.
proof fn lemma_first_pass(
    txs: Transactions,
    rule: DiscardRule,
    cause: DiscardCause,
    now: Transactions,
    states: Seq<Word>,
)
    requires
        now == after_pass(txs, rule, cause),
        states == pass_states(txs, rule, txs.len() as int),
    ensures
        discard_state(txs, rule, cause, now, states),
{
    lemma_pass_states(txs, rule, txs.len() as int);
    assert forall|i: int| 0 <= i < txs.len() && txs[i].1.is_pending() && rule.applies_to(
        txs[i].1,
    ) implies doomed(txs, rule, i) by {
        let chain = seq![i];
        assert(invalidates(txs, rule, chain) && chain.last() == i);
    }
    assert forall|k: int| 0 <= k < states.len() implies is_doomed_state(
        txs,
        rule,
        #[trigger] states[k],
    ) by {
        assert(is_pass_state(txs, rule, txs.len() as int, states[k]));
        let j = choose|j: int|
            0 <= j < txs.len() && (#[trigger] txs[j]).1.is_pending() && rule.applies_to(txs[j].1)
                && txs[j].1.details.final_account_state == states[k];
        assert(doomed(txs, rule, j));
    }
}

/// A pass over the transactions that start from a state still to be handled.
proof fn lemma_next_pass(
    txs: Transactions,
    rule: DiscardRule,
    cause: DiscardCause,
    before: Transactions,
    states: Seq<Word>,
    now: Transactions,
    states_now: Seq<Word>,
)
    requires
        discard_state(txs, rule, cause, before, states),
        states.len() > 0,
        now == after_pass(
            before,
            DiscardRule::StartsFrom(states.last()),
            DiscardCause::DiscardedInitialState,
        ),
        states_now == states.drop_last() + pass_states(
            before,
            DiscardRule::StartsFrom(states.last()),
            before.len() as int,
        ),
    ensures
        discard_state(txs, rule, cause, now, states_now),
        pending_count(now, now.len() as int) < pending_count(before, before.len() as int) || (
        pending_count(now, now.len() as int) == pending_count(before, before.len() as int)
            && states_now.len() < states.len()),
{
    let state = states.last();
    let next = DiscardRule::StartsFrom(state);
    let added = pass_states(before, next, before.len() as int);
    lemma_pass_states(before, next, before.len() as int);
    assert(is_doomed_state(txs, rule, states[states.len() - 1]));
    let parent = choose|j: int| #[trigger]
        doomed(txs, rule, j) && txs[j].1.details.final_account_state == state;
    let chain = choose|chain: Seq<int>| #[trigger]
        invalidates(txs, rule, chain) && chain.last() == parent;
    assert forall|i: int|
        0 <= i < txs.len() && (#[trigger] before[i]).1.is_pending() && next.applies_to(
            before[i].1,
        ) implies doomed(txs, rule, i) by {
        let longer = chain.push(i);
        assert forall|k: int| 0 <= k < longer.len() - 1 implies txs[#[trigger] longer[k]].1.details.final_account_state
            == txs[longer[k + 1]].1.details.init_account_state by {
            assert(longer[k] == chain[k]);
            if k < chain.len() - 1 {
                assert(longer[k + 1] == chain[k + 1]);
            }
        }
        assert forall|k: int| 0 <= k < longer.len() implies 0 <= (#[trigger] longer[k]) < txs.len()
            && txs[longer[k]].1.is_pending() by {
            if k < chain.len() {
                assert(longer[k] == chain[k]);
            }
        }
        assert(longer[0] == chain[0]);
        assert(invalidates(txs, rule, longer) && longer.last() == i);
    }
    assert forall|i: int| 0 <= i < txs.len() implies {
        &&& (#[trigger] now[i]).0 == txs[i].0
        &&& now[i].1 == txs[i].1.with_status(now[i].1.status)
        &&& now[i].1.is_pending() ==> txs[i].1.is_pending() && !rule.applies_to(txs[i].1)
        &&& !now[i].1.is_pending() ==> now[i].1.status == status_after_discard(
            txs,
            rule,
            cause,
            i,
        )
        &&& !now[i].1.is_pending() && txs[i].1.is_pending() ==> doomed(txs, rule, i)
    } by {
        assert(before[i].0 == txs[i].0);
    }
    assert forall|k: int| 0 <= k < states_now.len() implies is_doomed_state(
        txs,
        rule,
        #[trigger] states_now[k],
    ) by {
        if k < states.len() - 1 {
            assert(states_now[k] == states[k]);
            assert(is_doomed_state(txs, rule, states[k]));
        } else {
            let a = k - (states.len() - 1);
            assert(states_now[k] == added[a]);
            assert(is_pass_state(before, next, before.len() as int, added[a]));
            let j = choose|j: int|
                0 <= j < before.len() && (#[trigger] before[j]).1.is_pending() && next.applies_to(
                    before[j].1,
                ) && before[j].1.details.final_account_state == added[a];
            assert(doomed(txs, rule, j));
        }
    }
    assert forall|i: int, j: int|
        0 <= i < txs.len() && 0 <= j < txs.len() && txs[j].1.is_pending()
            && !(#[trigger] now[j]).1.is_pending() && (#[trigger] now[i]).1.is_pending()
            && txs[j].1.details.final_account_state
            == txs[i].1.details.init_account_state implies states_now.contains(
        txs[i].1.details.init_account_state,
    ) by {
        let wanted = txs[i].1.details.init_account_state;
        assert(before[i].1.is_pending());
        if before[j].1.is_pending() {
            assert(added.contains(wanted));
            let a = choose|a: int| 0 <= a < added.len() && added[a] == wanted;
            assert(states_now[states.len() - 1 + a] == wanted);
        } else {
            assert(states.contains(wanted));
            let k = choose|k: int| 0 <= k < states.len() && states[k] == wanted;
            if k == states.len() - 1 {
                assert(next.applies_to(before[i].1));
                assert(false);
            }
            assert(states_now[k] == wanted);
        }
    }
    assert(pending_count(
        after_pass(before, next, DiscardCause::DiscardedInitialState),
        before.len() as int,
    ) + added.len() == pending_count(before, before.len() as int));
}

/// When no state is left to be handled, every transaction has its final status.
proof fn lemma_discard_done(
    txs: Transactions,
    rule: DiscardRule,
    cause: DiscardCause,
    now: Transactions,
)
    requires
        discard_state(txs, rule, cause, now, Seq::empty()),
    ensures
        now == after_discard(txs, rule, cause),
{
    assert forall|i: int| 0 <= i < txs.len() implies (#[trigger] now[i]) == after_discard(
        txs,
        rule,
        cause,
    )[i] by {
        if now[i].1.is_pending() && doomed(txs, rule, i) {
            let chain = choose|chain: Seq<int>| #[trigger]
                invalidates(txs, rule, chain) && chain.last() == i;
            lemma_doomed_decided(txs, rule, cause, now, chain);
        }
    }
    assert(now =~= after_discard(txs, rule, cause));
}

/// When no state is left to be handled, no invalidated transaction is pending.
proof fn lemma_doomed_decided(
    txs: Transactions,
    rule: DiscardRule,
    cause: DiscardCause,
    now: Transactions,
    chain: Seq<int>,
)
    requires
        discard_state(txs, rule, cause, now, Seq::empty()),
        invalidates(txs, rule, chain),
    ensures
        !now[chain.last()].1.is_pending(),
    decreases chain.len(),
{
    let i = chain.last();
    assert(0 <= chain[chain.len() - 1] < txs.len());
    if now[i].1.is_pending() {
        let shorter = chain.drop_last();
        assert(chain.len() > 1);
        assert forall|k: int| 0 <= k < shorter.len() implies 0 <= (#[trigger] shorter[k])
            < txs.len() && txs[shorter[k]].1.is_pending() by {
            assert(shorter[k] == chain[k]);
        }
        assert forall|k: int| 0 <= k < shorter.len() - 1 implies txs[#[trigger] shorter[k]].1.details.final_account_state
            == txs[shorter[k + 1]].1.details.init_account_state by {
            assert(shorter[k] == chain[k]);
        }
        assert(invalidates(txs, rule, shorter));
        lemma_doomed_decided(txs, rule, cause, now, shorter);
        let j = shorter.last();
        assert(j == chain[chain.len() - 2]);
        assert(txs[chain[chain.len() - 2]].1.details.final_account_state
            == txs[chain[chain.len() - 2 + 1]].1.details.init_account_state);
        assert(!now[j].1.is_pending() && now[i].1.is_pending());
        assert(Seq::<Word>::empty().contains(txs[i].1.details.init_account_state));
    }
}

// LAWS
// ================================================================================================
/// A transaction that was committed or discarded is not decided again by a later discard.
pub proof fn law_decided_is_final(
    txs: Transactions,
    rule: DiscardRule,
    cause: DiscardCause,
    i: int,
)
    requires
        0 <= i < txs.len(),
        !txs[i].1.is_pending(),
    ensures
        after_discard(txs, rule, cause)[i] == txs[i],
{
}

/// After a discard no pending transaction builds on one that the discard gave up.
pub proof fn law_discard_reaches_descendants(
    txs: Transactions,
    rule: DiscardRule,
    cause: DiscardCause,
    parent: int,
    child: int,
)
    requires
        0 <= parent < txs.len(),
        0 <= child < txs.len(),
        txs[parent].1.is_pending(),
        after_discard(txs, rule, cause)[parent].1.status is Discarded,
        txs[parent].1.details.final_account_state == txs[child].1.details.init_account_state,
    ensures
        !after_discard(txs, rule, cause)[child].1.is_pending(),
{
    if txs[child].1.is_pending() {
        let chain = if rule.applies_to(txs[parent].1) {
            seq![parent]
        } else {
            choose|chain: Seq<int>| #[trigger]
                invalidates(txs, rule, chain) && chain.last() == parent
        };
        assert(invalidates(txs, rule, chain) && chain.last() == parent);
        let longer = chain.push(child);
        assert forall|k: int| 0 <= k < longer.len() implies 0 <= (#[trigger] longer[k]) < txs.len()
            && txs[longer[k]].1.is_pending() by {
            if k < chain.len() {
                assert(longer[k] == chain[k]);
            }
        }
        assert forall|k: int| 0 <= k < longer.len() - 1 implies txs[#[trigger] longer[k]].1.details.final_account_state
            == txs[longer[k + 1]].1.details.init_account_state by {
            assert(longer[k] == chain[k]);
            if k < chain.len() - 1 {
                assert(longer[k + 1] == chain[k + 1]);
            }
        }
        assert(longer[0] == chain[0]);
        assert(invalidates(txs, rule, longer) && longer.last() == child);
        assert(doomed(txs, rule, child));
    }
}

/// Discarding by the same rule once more changes nothing.
pub proof fn law_discard_idempotent(
    txs: Transactions,
    rule: DiscardRule,
    cause: DiscardCause,
    again: DiscardCause,
)
    ensures
        after_discard(after_discard(txs, rule, cause), rule, again) == after_discard(
            txs,
            rule,
            cause,
        ),
{
    let once = after_discard(txs, rule, cause);
    let twice = after_discard(once, rule, again);
    assert forall|i: int| 0 <= i < txs.len() implies twice[i] == once[i] by {
        if once[i].1.is_pending() {
            assert(!rule.applies_to(once[i].1));
            if doomed(once, rule, i) {
                let chain = choose|chain: Seq<int>| #[trigger]
                    invalidates(once, rule, chain) && chain.last() == i;
                let first = chain[0];
                assert(once[first].1.is_pending() && rule.applies_to(once[first].1));
                assert(false);
            }
        }
    }
    assert(twice =~= once);
}

/// After the sync height moved, every pending transaction expires later, and none that is stale is
/// pending.
pub proof fn law_pending_outlives_sync_height(
    txs: Transactions,
    sync_height: BlockNumber,
    tx_discard_delta: Option<u32>,
    i: int,
)
    requires
        0 <= i < txs.len(),
        after_sync_height(txs, sync_height, tx_discard_delta)[i].1.is_pending(),
    ensures
        txs[i].1.is_pending(),
        txs[i].1.details.expiration_block_num > sync_height,
        tx_discard_delta matches Some(delta) ==> txs[i].1.details.submission_height
            >= stale_before(sync_height, delta),
{
}

} // verus!
