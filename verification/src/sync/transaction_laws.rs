//! What becomes of submitted transactions, over all transactions and all reports.
use vstd::prelude::*;

use crate::collections::{keys_ascending, lemma_picks_next, lemma_picks_none, picks};
use crate::rpc::domain::transaction::TransactionRecord as RpcTransactionRecord;
use crate::sync::transaction_updates::{
    after_discard, after_sync_height, all_included, all_nullified, all_superseded, by_id,
    committed_of, discarded_of, doomed, ids_of, included, invalidates, lemma_stands_for_unique,
    stands_for, DiscardRule, TrackerState, Transactions,
};
use crate::transaction::{DiscardCause, TransactionRecord, TransactionStatus};
use crate::types::{BlockNumber, Nullifier, TransactionId, Word};

verus! {

// DISCARDING
// ================================================================================================
/// The rule asks for the transaction itself to be given up.
pub open spec fn is_asked_for(rule: DiscardRule, tx: TransactionRecord) -> bool {
    match rule {
        DiscardRule::SubmittedBefore(block_num) => block_num > tx.details.submission_height,
        DiscardRule::ExpiredBy(block_num) => block_num >= tx.details.expiration_block_num,
        DiscardRule::Consumes(nullifier) => exists|k: int|
            0 <= k < tx.details.input_note_nullifiers@.len()
                && #[trigger] tx.details.input_note_nullifiers@[k] == nullifier,
        DiscardRule::LeadsTo(state) => state == tx.details.final_account_state,
        DiscardRule::StartsFrom(state) => state == tx.details.init_account_state,
    }
}

/// The transaction at `j` was pending, is discarded now, and leads to the state that the one at `i`
/// starts from.
pub open spec fn is_lost_parent(txs: Transactions, now: Transactions, j: int, i: int) -> bool {
    &&& 0 <= j < txs.len()
    &&& txs[j].1.status is Pending
    &&& now[j].1.status is Discarded
    &&& txs[j].1.details.final_account_state == txs[i].1.details.init_account_state
}

/// A discard changes nothing of a transaction but its status, and that only if it was pending. A
/// pending transaction that the rule asks for is discarded for the cause. Any other is discarded if
/// and only if it starts from the state that a transaction leads to which is discarded too.
pub proof fn law_discard(txs: Transactions, rule: DiscardRule, cause: DiscardCause, i: int)
    requires
        0 <= i < txs.len(),
    ensures
        ({
            let now = after_discard(txs, rule, cause);
            let tx = txs[i].1;
            &&& now.len() == txs.len()
            &&& now[i].0 == txs[i].0
            &&& now[i].1.id == tx.id
            &&& now[i].1.details == tx.details
            &&& !(tx.status is Pending) ==> now[i].1.status == tx.status
            &&& tx.status is Pending && is_asked_for(rule, tx) ==> now[i].1.status
                == TransactionStatus::Discarded(cause)
            &&& tx.status is Pending && !is_asked_for(rule, tx) ==> now[i].1.status == if exists|
                j: int,
            |
                is_lost_parent(txs, now, j, i) {
                TransactionStatus::Discarded(DiscardCause::DiscardedInitialState)
            } else {
                TransactionStatus::Pending
            }
        }),
{
    let now = after_discard(txs, rule, cause);
    let tx = txs[i].1;
    assert(rule.applies_to(tx) == is_asked_for(rule, tx)) by {
        if let DiscardRule::Consumes(nullifier) = rule {
            let inputs = tx.details.input_note_nullifiers@;
            if inputs.contains(nullifier) {
                let k = choose|k: int| 0 <= k < inputs.len() && inputs[k] == nullifier;
                assert(inputs[k] == nullifier);
            }
        }
    }
    if tx.status is Pending && !rule.applies_to(tx) {
        if doomed(txs, rule, i) {
            let chain = choose|chain: Seq<int>| #[trigger]
                invalidates(txs, rule, chain) && chain.last() == i;
            assert(chain[chain.len() - 1] == i);
            let j = chain[chain.len() - 2];
            let shorter = chain.drop_last();
            assert(invalidates(txs, rule, shorter)) by {
                assert forall|k: int| 0 <= k < shorter.len() implies 0 <= (#[trigger] shorter[k])
                    < txs.len() && txs[shorter[k]].1.is_pending() by {
                    assert(shorter[k] == chain[k]);
                }
                assert forall|k: int| 0 <= k < shorter.len() - 1 implies txs[
                #[trigger] shorter[k]].1.details.final_account_state == txs[shorter[k
                    + 1]].1.details.init_account_state by {
                    assert(shorter[k] == chain[k]);
                }
            }
            assert(shorter.last() == j);
            assert(doomed(txs, rule, j));
            assert(0 <= j < txs.len());
            assert(is_lost_parent(txs, now, j, i));
        } else if exists|j: int| is_lost_parent(txs, now, j, i) {
            let j = choose|j: int| is_lost_parent(txs, now, j, i);
            let chain = if rule.applies_to(txs[j].1) {
                seq![j]
            } else {
                choose|chain: Seq<int>| #[trigger]
                    invalidates(txs, rule, chain) && chain.last() == j
            };
            assert(invalidates(txs, rule, chain) && chain.last() == j);
            let longer = chain.push(i);
            assert forall|k: int| 0 <= k < longer.len() - 1 implies txs[
            #[trigger] longer[k]].1.details.final_account_state == txs[longer[k
                + 1]].1.details.init_account_state by {
                assert(longer[k] == chain[k]);
                if k + 1 < chain.len() {
                    assert(longer[k + 1] == chain[k + 1]);
                }
            }
            assert forall|k: int| 0 <= k < longer.len() implies 0 <= (#[trigger] longer[k])
                < txs.len() && txs[longer[k]].1.is_pending() by {
                if k < chain.len() {
                    assert(longer[k] == chain[k]);
                }
            }
            assert(longer[0] == chain[0]);
            assert(invalidates(txs, rule, longer) && longer.last() == i);
        }
    }
}

/// A discard that asks for no pending transaction changes nothing.
pub proof fn law_discard_needs_a_cause(txs: Transactions, rule: DiscardRule, cause: DiscardCause)
    requires
        forall|i: int|
            0 <= i < txs.len() && (#[trigger] txs[i]).1.status is Pending ==> !is_asked_for(
                rule,
                txs[i].1,
            ),
    ensures
        after_discard(txs, rule, cause) == txs,
{
    let now = after_discard(txs, rule, cause);
    assert forall|i: int| 0 <= i < txs.len() implies now[i] == txs[i] by {
        if txs[i].1.status is Pending {
            law_discard(txs, rule, cause, i);
            assert(!rule.applies_to(txs[i].1));
            if doomed(txs, rule, i) {
                let chain = choose|chain: Seq<int>| #[trigger]
                    invalidates(txs, rule, chain) && chain.last() == i;
                let first = chain[0];
                law_discard(txs, rule, cause, first);
                assert(!is_asked_for(rule, txs[first].1));
                assert(false);
            }
        }
        assert(now[i].1 == txs[i].1);
    }
    assert(now =~= txs);
}

/// Once a note was consumed, no transaction that consumes it is pending, wherever among its input
/// notes the note stands.
pub proof fn law_consumed_note_ends_transactions(
    txs: Transactions,
    nullifier: Nullifier,
    i: int,
    k: int,
)
    requires
        0 <= i < txs.len(),
        0 <= k < txs[i].1.details.input_note_nullifiers@.len(),
        txs[i].1.details.input_note_nullifiers@[k] == nullifier,
    ensures
        ({
            let now = after_discard(
                txs,
                DiscardRule::Consumes(nullifier),
                DiscardCause::InputConsumed,
            );
            &&& !(now[i].1.status is Pending)
            &&& txs[i].1.status is Pending ==> now[i].1.status == TransactionStatus::Discarded(
                DiscardCause::InputConsumed,
            )
        }),
{
    law_discard(txs, DiscardRule::Consumes(nullifier), DiscardCause::InputConsumed, i);
}

/// The order in which transactions list their input notes changes nothing about what becomes of them
/// once a note was consumed.
pub proof fn law_input_order_does_not_matter(
    txs: Transactions,
    others: Transactions,
    nullifier: Nullifier,
    i: int,
)
    requires
        txs.len() == others.len(),
        forall|j: int|
            #![trigger txs[j]]
            #![trigger others[j]]
            0 <= j < txs.len() ==> {
                let (a, b) = (txs[j].1, others[j].1);
                &&& a.status == b.status
                &&& a.details.init_account_state == b.details.init_account_state
                &&& a.details.final_account_state == b.details.final_account_state
                &&& a.details.input_note_nullifiers@.to_set()
                    == b.details.input_note_nullifiers@.to_set()
            },
        0 <= i < txs.len(),
    ensures
        after_discard(txs, DiscardRule::Consumes(nullifier), DiscardCause::InputConsumed)[i].1.status
            == after_discard(
            others,
            DiscardRule::Consumes(nullifier),
            DiscardCause::InputConsumed,
        )[i].1.status,
{
    let rule = DiscardRule::Consumes(nullifier);
    assert forall|j: int| 0 <= j < txs.len() implies rule.applies_to((#[trigger] txs[j]).1)
        == rule.applies_to(others[j].1) by {
        let a = txs[j].1.details.input_note_nullifiers@;
        let b = others[j].1.details.input_note_nullifiers@;
        assert(a.to_set().contains(nullifier) == a.contains(nullifier));
        assert(b.to_set().contains(nullifier) == b.contains(nullifier));
    }
    assert forall|chain: Seq<int>| #[trigger]
        invalidates(txs, rule, chain) == invalidates(others, rule, chain) by {
        lemma_invalidates_same(txs, others, rule, chain);
        lemma_invalidates_same(others, txs, rule, chain);
    }
    assert(txs[i].1.status == others[i].1.status);
    if doomed(txs, rule, i) {
        let chain = choose|chain: Seq<int>| #[trigger]
            invalidates(txs, rule, chain) && chain.last() == i;
        assert(invalidates(others, rule, chain) && chain.last() == i);
    }
    if doomed(others, rule, i) {
        let chain = choose|chain: Seq<int>| #[trigger]
            invalidates(others, rule, chain) && chain.last() == i;
        assert(invalidates(txs, rule, chain) && chain.last() == i);
    }
}

/// What a discard follows are statuses, states and the rule.
proof fn lemma_invalidates_same(
    txs: Transactions,
    others: Transactions,
    rule: DiscardRule,
    chain: Seq<int>,
)
    requires
        txs.len() == others.len(),
        forall|j: int|
            #![trigger txs[j]]
            #![trigger others[j]]
            0 <= j < txs.len() ==> {
                let (a, b) = (txs[j].1, others[j].1);
                &&& a.status == b.status
                &&& a.details.init_account_state == b.details.init_account_state
                &&& a.details.final_account_state == b.details.final_account_state
                &&& rule.applies_to(a) == rule.applies_to(b)
            },
    ensures
        invalidates(txs, rule, chain) ==> invalidates(others, rule, chain),
{
    if invalidates(txs, rule, chain) {
        assert forall|k: int| 0 <= k < chain.len() implies 0 <= (#[trigger] chain[k])
            < others.len() && others[chain[k]].1.is_pending() by {
            assert(txs[chain[k]].1.is_pending());
        }
        assert forall|k: int| 0 <= k < chain.len() - 1 implies others[
        #[trigger] chain[k]].1.details.final_account_state == others[chain[k
            + 1]].1.details.init_account_state by {
            assert(0 <= chain[k + 1] < txs.len());
            assert(txs[chain[k]].1.details.final_account_state == txs[chain[k
                + 1]].1.details.init_account_state);
        }
        assert(0 <= chain[0] < txs.len());
    }
}

/// Notes that were consumed leave no transaction pending that consumes one of them.
pub proof fn law_all_consumed_notes_end_transactions(
    txs: Transactions,
    nullifiers: Seq<Nullifier>,
    i: int,
)
    requires
        0 <= i < txs.len(),
    ensures
        ({
            let now = all_nullified(txs, nullifiers);
            let inputs = txs[i].1.details.input_note_nullifiers@;
            &&& now.len() == txs.len()
            &&& now[i].0 == txs[i].0
            &&& now[i].1.id == txs[i].1.id
            &&& now[i].1.details == txs[i].1.details
            &&& !(txs[i].1.status is Pending) ==> now[i].1.status == txs[i].1.status
            &&& forall|k: int, j: int|
                0 <= k < inputs.len() && 0 <= j < nullifiers.len() && #[trigger] inputs[k]
                    == #[trigger] nullifiers[j] ==> !(now[i].1.status is Pending)
        }),
    decreases nullifiers.len(),
{
    if nullifiers.len() > 0 {
        let before = nullifiers.drop_last();
        let rule = DiscardRule::Consumes(nullifiers.last());
        let then = all_nullified(txs, before);
        law_all_consumed_notes_end_transactions(txs, before, i);
        law_discard(then, rule, DiscardCause::InputConsumed, i);
        let now = all_nullified(txs, nullifiers);
        let inputs = txs[i].1.details.input_note_nullifiers@;
        assert forall|k: int, j: int|
            0 <= k < inputs.len() && 0 <= j < nullifiers.len() && #[trigger] inputs[k]
                == #[trigger] nullifiers[j] implies !(now[i].1.status is Pending) by {
            if j < before.len() {
                assert(before[j] == nullifiers[j]);
            } else {
                assert(then[i].1.details.input_note_nullifiers@[k] == nullifiers.last());
            }
        }
    }
}

/// Consumed notes that no pending transaction consumes change nothing.
pub proof fn law_other_consumed_notes_change_nothing(
    txs: Transactions,
    nullifiers: Seq<Nullifier>,
)
    requires
        forall|i: int, k: int, j: int|
            0 <= i < txs.len() && (#[trigger] txs[i]).1.status is Pending && 0 <= k
                < txs[i].1.details.input_note_nullifiers@.len() && 0 <= j < nullifiers.len()
                ==> #[trigger] txs[i].1.details.input_note_nullifiers@[k]
                != #[trigger] nullifiers[j],
    ensures
        all_nullified(txs, nullifiers) == txs,
    decreases nullifiers.len(),
{
    if nullifiers.len() > 0 {
        let before = nullifiers.drop_last();
        assert forall|i: int, k: int, j: int|
            0 <= i < txs.len() && (#[trigger] txs[i]).1.status is Pending && 0 <= k
                < txs[i].1.details.input_note_nullifiers@.len() && 0 <= j
                < before.len() implies #[trigger] txs[i].1.details.input_note_nullifiers@[k]
            != #[trigger] before[j] by {
            assert(before[j] == nullifiers[j]);
        }
        law_other_consumed_notes_change_nothing(txs, before);
        assert(nullifiers.last() == nullifiers[nullifiers.len() - 1]);
        law_discard_needs_a_cause(
            txs,
            DiscardRule::Consumes(nullifiers.last()),
            DiscardCause::InputConsumed,
        );
    }
}

/// States that have lost leave no transaction pending that leads to one of them.
pub proof fn law_lost_states_end_transactions(txs: Transactions, states: Seq<Word>, i: int)
    requires
        0 <= i < txs.len(),
    ensures
        ({
            let now = all_superseded(txs, states);
            &&& now.len() == txs.len()
            &&& now[i].0 == txs[i].0
            &&& now[i].1.id == txs[i].1.id
            &&& now[i].1.details == txs[i].1.details
            &&& !(txs[i].1.status is Pending) ==> now[i].1.status == txs[i].1.status
            &&& forall|j: int|
                0 <= j < states.len() && #[trigger] states[j]
                    == txs[i].1.details.final_account_state ==> !(now[i].1.status is Pending)
        }),
    decreases states.len(),
{
    if states.len() > 0 {
        let before = states.drop_last();
        let then = all_superseded(txs, before);
        law_lost_states_end_transactions(txs, before, i);
        law_discard(then, DiscardRule::LeadsTo(states.last()), DiscardCause::Superseded, i);
        let now = all_superseded(txs, states);
        assert forall|j: int|
            0 <= j < states.len() && #[trigger] states[j]
                == txs[i].1.details.final_account_state implies !(now[i].1.status is Pending) by {
            if j < before.len() {
                assert(before[j] == states[j]);
            }
        }
    }
}

/// States that no pending transaction leads to change nothing by losing.
pub proof fn law_other_lost_states_change_nothing(txs: Transactions, states: Seq<Word>)
    requires
        forall|i: int, j: int|
            0 <= i < txs.len() && (#[trigger] txs[i]).1.status is Pending && 0 <= j < states.len()
                ==> txs[i].1.details.final_account_state != #[trigger] states[j],
    ensures
        all_superseded(txs, states) == txs,
    decreases states.len(),
{
    if states.len() > 0 {
        let before = states.drop_last();
        assert forall|i: int, j: int|
            0 <= i < txs.len() && (#[trigger] txs[i]).1.status is Pending && 0 <= j
                < before.len() implies txs[i].1.details.final_account_state
            != #[trigger] before[j] by {
            assert(before[j] == states[j]);
        }
        law_other_lost_states_change_nothing(txs, before);
        assert(states.last() == states[states.len() - 1]);
        law_discard_needs_a_cause(
            txs,
            DiscardRule::LeadsTo(states.last()),
            DiscardCause::Superseded,
        );
    }
}

/// A transaction that was submitted more than the given number of blocks ago is stale. One that
/// expires by the sync height is not pending any more. One that is neither, and builds on no pending
/// transaction, stays as it is.
pub proof fn law_sync_height_decides(
    txs: Transactions,
    sync_height: BlockNumber,
    tx_discard_delta: Option<u32>,
    i: int,
)
    requires
        0 <= i < txs.len(),
    ensures
        ({
            let now = after_sync_height(txs, sync_height, tx_discard_delta);
            let tx = txs[i].1;
            let stale = tx_discard_delta is Some && tx.details.submission_height
                + tx_discard_delta->0 < sync_height;
            &&& now.len() == txs.len()
            &&& now[i].0 == txs[i].0
            &&& now[i].1.id == tx.id
            &&& now[i].1.details == tx.details
            &&& !(tx.status is Pending) ==> now[i].1.status == tx.status
            &&& tx.status is Pending && stale ==> now[i].1.status == TransactionStatus::Discarded(
                DiscardCause::Stale,
            )
            &&& tx.status is Pending && tx.details.expiration_block_num <= sync_height ==> (
            now[i].1.status is Discarded)
            &&& tx.status is Pending && tx.details.expiration_block_num <= sync_height && !stale
                && (forall|j: int|
                0 <= j < txs.len() && (#[trigger] txs[j]).1.status is Pending
                    ==> txs[j].1.details.final_account_state != tx.details.init_account_state)
                ==> now[i].1.status == TransactionStatus::Discarded(DiscardCause::Expired)
            &&& tx.status is Pending && tx.details.expiration_block_num > sync_height && !stale && (
            forall|j: int|
                0 <= j < txs.len() && (#[trigger] txs[j]).1.status is Pending
                    ==> txs[j].1.details.final_account_state != tx.details.init_account_state)
                ==> now[i].1.status is Pending
        }),
{
    let now = after_sync_height(txs, sync_height, tx_discard_delta);
    let tx = txs[i].1;
    let then = match tx_discard_delta {
        Some(delta) => {
            let block = if sync_height >= delta {
                (sync_height - delta) as u32
            } else {
                0
            };
            after_discard(txs, DiscardRule::SubmittedBefore(block), DiscardCause::Stale)
        },
        None => txs,
    };
    assert(then.len() == txs.len());
    assert forall|j: int| 0 <= j < txs.len() implies (#[trigger] then[j]).1.details
        == txs[j].1.details && (then[j].1.status is Pending ==> txs[j].1.status is Pending) by {
        if let Some(delta) = tx_discard_delta {
            let block = if sync_height >= delta {
                (sync_height - delta) as u32
            } else {
                0
            };
            law_discard(txs, DiscardRule::SubmittedBefore(block), DiscardCause::Stale, j);
        }
    }
    if let Some(delta) = tx_discard_delta {
        let block = if sync_height >= delta {
            (sync_height - delta) as u32
        } else {
            0
        };
        law_discard(txs, DiscardRule::SubmittedBefore(block), DiscardCause::Stale, i);
    }
    law_discard(then, DiscardRule::ExpiredBy(sync_height), DiscardCause::Expired, i);
}

// INCLUSION
// ================================================================================================
/// A pending transaction that is seen in a block is committed there; any other stays as it is. A
/// pending transaction that is given up is discarded for the cause; any other stays as it is. Nothing
/// but the status changes.
pub proof fn law_only_pending_is_decided(
    tx: TransactionRecord,
    block_number: BlockNumber,
    commit_timestamp: u64,
    cause: DiscardCause,
)
    ensures
        ({
            let committed = tx.committed(block_number, commit_timestamp);
            let discarded = tx.discarded(cause);
            &&& committed.id == tx.id && discarded.id == tx.id
            &&& committed.details == tx.details && discarded.details == tx.details
            &&& tx.status is Pending ==> {
                &&& tx.is_pending()
                &&& committed.status == TransactionStatus::Committed {
                    block_number,
                    commit_timestamp,
                }
                &&& discarded.status == TransactionStatus::Discarded(cause)
            }
            &&& !(tx.status is Pending) ==> !tx.is_pending() && committed == tx && discarded == tx
            &&& committed.discarded(cause) == committed
            &&& discarded.committed(block_number, commit_timestamp) == discarded
        }),
{
}

/// A report with the id of a transaction is of that transaction: it is committed in the block of the
/// report if it was pending, and nothing else changes.
pub proof fn law_included_by_id(
    state: TrackerState,
    record: RpcTransactionRecord,
    timestamp: u64,
    i: int,
)
    requires
        keys_ascending(state.0),
        0 <= i < state.0.len(),
        state.0[i].0 == record.transaction_header.id,
    ensures
        ({
            let (txs, accounts) = included(state, record, timestamp);
            let tx = state.0[i].1;
            &&& accounts == state.1
            &&& txs.len() == state.0.len()
            &&& forall|j: int| 0 <= j < txs.len() && j != i ==> #[trigger] txs[j] == state.0[j]
            &&& txs[i].0 == state.0[i].0
            &&& txs[i].1.details == tx.details
            &&& txs[i].1.id == tx.id
            &&& txs[i].1.status == if tx.status is Pending {
                TransactionStatus::Committed {
                    block_number: record.block_num,
                    commit_timestamp: timestamp,
                }
            } else {
                tx.status
            }
        }),
{
    lemma_stands_for_unique(state.0, record, i);
    assert(stands_for(state.0, record, i));
}

/// A report with another id is of the first transaction that starts from the same state of the same
/// account, since the id changes when the node authenticates input notes.
pub proof fn law_included_by_state(
    state: TrackerState,
    record: RpcTransactionRecord,
    timestamp: u64,
    i: int,
)
    requires
        keys_ascending(state.0),
        forall|j: int|
            0 <= j < state.0.len() ==> (#[trigger] state.0[j]).0 != record.transaction_header.id,
        0 <= i < state.0.len(),
        state.0[i].1.details.account_id == record.transaction_header.account_id,
        state.0[i].1.details.init_account_state
            == record.transaction_header.initial_state_commitment,
        forall|j: int|
            0 <= j < i ==> (#[trigger] state.0[j]).1.details.account_id
                != record.transaction_header.account_id || state.0[j].1.details.init_account_state
                != record.transaction_header.initial_state_commitment,
    ensures
        ({
            let (txs, accounts) = included(state, record, timestamp);
            let tx = state.0[i].1;
            &&& accounts == state.1
            &&& txs.len() == state.0.len()
            &&& forall|j: int| 0 <= j < txs.len() && j != i ==> #[trigger] txs[j] == state.0[j]
            &&& txs[i].0 == state.0[i].0
            &&& txs[i].1.details == tx.details
            &&& txs[i].1.id == tx.id
            &&& txs[i].1.status == if tx.status is Pending {
                TransactionStatus::Committed {
                    block_number: record.block_num,
                    commit_timestamp: timestamp,
                }
            } else {
                tx.status
            }
        }),
{
    assert(stands_for(state.0, record, i));
    lemma_stands_for_unique(state.0, record, i);
}

/// A report of a transaction that this client did not submit changes no transaction. Each note it
/// consumed is attributed to its account; other notes keep the account they had.
pub proof fn law_external_inclusion(
    state: TrackerState,
    record: RpcTransactionRecord,
    timestamp: u64,
    nullifier: Nullifier,
)
    requires
        forall|j: int|
            0 <= j < state.0.len() ==> (#[trigger] state.0[j]).0 != record.transaction_header.id
                && (state.0[j].1.details.account_id != record.transaction_header.account_id
                || state.0[j].1.details.init_account_state
                != record.transaction_header.initial_state_commitment),
    ensures
        ({
            let (txs, accounts) = included(state, record, timestamp);
            let consumed = record.transaction_header.input_nullifiers@;
            &&& txs == state.0
            &&& (exists|k: int| 0 <= k < consumed.len() && #[trigger] consumed[k] == nullifier)
                ==> accounts.contains_key(nullifier) && accounts[nullifier]
                == record.transaction_header.account_id
            &&& (forall|k: int| 0 <= k < consumed.len() ==> #[trigger] consumed[k] != nullifier)
                ==> accounts.contains_key(nullifier) == state.1.contains_key(nullifier) && (
            state.1.contains_key(nullifier) ==> accounts[nullifier] == state.1[nullifier])
        }),
{
    assert forall|i: int| !stands_for(state.0, record, i) by {}
}

/// Reports are taken one after the other: taking some, and then others, is taking all of them.
pub proof fn law_inclusion_in_parts(
    state: TrackerState,
    first: Seq<RpcTransactionRecord>,
    others: Seq<RpcTransactionRecord>,
    timestamp: u64,
)
    ensures
        all_included(state, first + others, timestamp) == all_included(
            all_included(state, first, timestamp),
            others,
            timestamp,
        ),
        all_included(state, Seq::empty(), timestamp) == state,
        forall|record: RpcTransactionRecord| #[trigger]
            all_included(state, seq![record], timestamp) == included(state, record, timestamp),
    decreases others.len(),
{
    if others.len() == 0 {
        assert(first + others =~= first);
    } else {
        law_inclusion_in_parts(state, first, others.drop_last(), timestamp);
        assert((first + others).drop_last() =~= first + others.drop_last());
    }
    assert forall|record: RpcTransactionRecord| #[trigger]
        all_included(state, seq![record], timestamp) == included(state, record, timestamp) by {
        assert(seq![record].drop_last() =~= Seq::empty());
        assert(all_included(state, Seq::empty(), timestamp) == state);
    }
}

// LISTS
// ================================================================================================
/// Every transaction is tracked under its id: the last one of those with the same id.
pub proof fn law_tracked_by_id(transactions: Seq<TransactionRecord>, i: int)
    requires
        0 <= i < transactions.len(),
        forall|j: int|
            i < j < transactions.len() ==> (#[trigger] transactions[j]).id != transactions[i].id,
    ensures
        by_id(transactions).contains_key(transactions[i].id),
        by_id(transactions)[transactions[i].id] == transactions[i],
    decreases transactions.len(),
{
    if i < transactions.len() - 1 {
        assert(transactions[transactions.len() - 1].id != transactions[i].id);
        law_tracked_by_id(transactions.drop_last(), i);
    }
}

/// Nothing is tracked under any other id.
pub proof fn law_nothing_else_is_tracked(transactions: Seq<TransactionRecord>, id: TransactionId)
    requires
        forall|i: int|
            0 <= i < transactions.len() ==> (#[trigger] transactions[i]).id != id,
    ensures
        !by_id(transactions).contains_key(id),
    decreases transactions.len(),
{
    if transactions.len() > 0 {
        assert(transactions[transactions.len() - 1].id != id);
        law_nothing_else_is_tracked(transactions.drop_last(), id);
    }
}

/// The committed transactions are those with a block, all of them, in order.
pub proof fn law_committed_are_listed(txs: Transactions)
    ensures
        picks(
            committed_of(txs),
            txs.len() as int,
            |i: int| txs[i].1.status is Committed,
            |i: int| txs[i].1,
        ),
    decreases txs.len(),
{
    let wanted = |i: int| txs[i].1.status is Committed;
    let value = |i: int| txs[i].1;
    if txs.len() == 0 {
        lemma_picks_none(wanted, value);
    } else {
        let before = txs.drop_last();
        law_committed_are_listed(before);
        lemma_picks_next(
            committed_of(before),
            |i: int| before[i].1.status is Committed,
            |i: int| before[i].1,
            committed_of(txs),
            txs.len() as int,
            wanted,
            value,
        );
    }
}

/// The discarded transactions are those with a cause, all of them, in order.
pub proof fn law_discarded_are_listed(txs: Transactions)
    ensures
        picks(
            discarded_of(txs),
            txs.len() as int,
            |i: int| txs[i].1.status is Discarded,
            |i: int| txs[i].1,
        ),
    decreases txs.len(),
{
    let wanted = |i: int| txs[i].1.status is Discarded;
    let value = |i: int| txs[i].1;
    if txs.len() == 0 {
        lemma_picks_none(wanted, value);
    } else {
        let before = txs.drop_last();
        law_discarded_are_listed(before);
        lemma_picks_next(
            discarded_of(before),
            |i: int| before[i].1.status is Discarded,
            |i: int| before[i].1,
            discarded_of(txs),
            txs.len() as int,
            wanted,
            value,
        );
    }
}

/// A list of transactions has the id of each of them, at its position.
pub proof fn law_ids_of(transactions: Seq<TransactionRecord>)
    ensures
        ids_of(transactions).len() == transactions.len(),
        forall|i: int|
            0 <= i < transactions.len() ==> #[trigger] ids_of(transactions)[i]
                == transactions[i].id,
{
}


// SEVERAL DISCARDS
// ================================================================================================
/// A transaction that consumes a note which was consumed is discarded for that cause; consumed notes are
/// taken one after the other, so that taking some, and then others, is taking all of them.
pub proof fn law_consumed_notes_in_parts(
    txs: Transactions,
    first: Seq<Nullifier>,
    others: Seq<Nullifier>,
    nullifier: Nullifier,
    i: int,
    k: int,
)
    ensures
        all_nullified(txs, Seq::empty()) == txs,
        all_nullified(txs, first + others) == all_nullified(all_nullified(txs, first), others),
        0 <= i < txs.len() && txs[i].1.status is Pending && 0 <= k
            < txs[i].1.details.input_note_nullifiers@.len()
            && txs[i].1.details.input_note_nullifiers@[k] == nullifier ==> all_nullified(
            txs,
            seq![nullifier],
        )[i].1.status == TransactionStatus::Discarded(DiscardCause::InputConsumed),
    decreases others.len(),
{
    assert(seq![nullifier].drop_last() =~= Seq::empty());
    assert(all_nullified(txs, Seq::<Nullifier>::empty()) == txs);
    if 0 <= i < txs.len() {
        law_discard(txs, DiscardRule::Consumes(nullifier), DiscardCause::InputConsumed, i);
    }
    if others.len() == 0 {
        assert(first + others =~= first);
    } else {
        law_consumed_notes_in_parts(txs, first, others.drop_last(), nullifier, i, k);
        assert((first + others).drop_last() =~= first + others.drop_last());
    }
}

/// A transaction that leads to a state which has lost is discarded for that cause; lost states are taken
/// one after the other, so that taking some, and then others, is taking all of them.
pub proof fn law_lost_states_in_parts(
    txs: Transactions,
    first: Seq<Word>,
    others: Seq<Word>,
    i: int,
)
    ensures
        all_superseded(txs, Seq::empty()) == txs,
        all_superseded(txs, first + others) == all_superseded(all_superseded(txs, first), others),
        0 <= i < txs.len() && txs[i].1.status is Pending ==> all_superseded(
            txs,
            seq![txs[i].1.details.final_account_state],
        )[i].1.status == TransactionStatus::Discarded(DiscardCause::Superseded),
    decreases others.len(),
{
    assert(all_superseded(txs, Seq::<Word>::empty()) == txs);
    if 0 <= i < txs.len() {
        let state = txs[i].1.details.final_account_state;
        assert(seq![state].drop_last() =~= Seq::empty());
        law_discard(txs, DiscardRule::LeadsTo(state), DiscardCause::Superseded, i);
    }
    if others.len() == 0 {
        assert(first + others =~= first);
    } else {
        law_lost_states_in_parts(txs, first, others.drop_last(), i);
        assert((first + others).drop_last() =~= first + others.drop_last());
    }
}

} // verus!
