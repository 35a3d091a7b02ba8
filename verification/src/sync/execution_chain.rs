//! The order in which the transactions of an account were executed within a block.
//!
//! A node reports the transactions of an account in no particular order. Each of them leads from
//! one state commitment of the account to another, so following these commitments recovers the
//! order of execution.
use vstd::multiset::Multiset;
use vstd::prelude::*;

use crate::collections::{
    entries_map, has_key, keys_ascending, lemma_entry_of, lemma_listing_unique, OrdKey, OrdMap,
};
use crate::rpc::domain::transaction::TransactionRecord;
use crate::types::{AccountBlock, AccountId, BlockNumber, Nullifier, Word};

verus! {

// GROUPING
// ================================================================================================
/// The account a record is about, and the block it was included in.
pub open spec fn key_of(record: TransactionRecord) -> AccountBlock {
    AccountBlock {
        account_id: record.transaction_header.account_id,
        block_num: record.block_num,
    }
}

/// Positions of the first `n` records that belong to `key`, in the order of the records.
pub open spec fn members_upto(records: Seq<TransactionRecord>, key: AccountBlock, n: int) -> Seq<
    usize,
>
    decreases n,
{
    if n <= 0 {
        Seq::empty()
    } else if key_of(records[n - 1]) == key {
        members_upto(records, key, n - 1).push((n - 1) as usize)
    } else {
        members_upto(records, key, n - 1)
    }
}

/// Positions of the records that belong to `key`, in the order of the records.
pub open spec fn members(records: Seq<TransactionRecord>, key: AccountBlock) -> Seq<usize> {
    members_upto(records, key, records.len() as int)
}

/// Some record among the first `n` belongs to `key`.
pub open spec fn occurs_upto(records: Seq<TransactionRecord>, key: AccountBlock, n: int) -> bool {
    exists|i: int| 0 <= i < n && key_of(#[trigger] records[i]) == key
}

/// Some record belongs to `key`.
pub open spec fn occurs(records: Seq<TransactionRecord>, key: AccountBlock) -> bool {
    occurs_upto(records, key, records.len() as int)
}

/// The members of a key are positions of records, and there are some exactly if the key occurs.
pub proof fn lemma_members(records: Seq<TransactionRecord>, key: AccountBlock, n: int)
    requires
        0 <= n <= records.len() <= usize::MAX,
    ensures
        forall|j: int|
            0 <= j < members_upto(records, key, n).len() ==> (#[trigger] members_upto(
                records,
                key,
                n,
            )[j]) < n && key_of(records[members_upto(records, key, n)[j] as int]) == key,
        members_upto(records, key, n).len() > 0 <==> occurs_upto(records, key, n),
        members_upto(records, key, n).no_duplicates(),
    decreases n,
{
    if n > 0 {
        lemma_members(records, key, n - 1);
        let before = members_upto(records, key, n - 1);
        if key_of(records[n - 1]) == key {
            assert(occurs_upto(records, key, n));
        } else if occurs_upto(records, key, n) {
            let i = choose|i: int| 0 <= i < n && key_of(#[trigger] records[i]) == key;
            assert(i < n - 1);
        }
        if occurs_upto(records, key, n - 1) {
            let i = choose|i: int| 0 <= i < n - 1 && key_of(#[trigger] records[i]) == key;
            assert(key_of(records[i]) == key);
        }
    }
}

/// Groups the records by account and block, keeping the order of the records in each group.
pub fn group_txs_by_account_block(transaction_records: &Vec<TransactionRecord>) -> (groups: OrdMap<
    AccountBlock,
    Vec<usize>,
>)
    ensures
        forall|key: AccountBlock|
            #[trigger] groups@.contains_key(key) <==> occurs(transaction_records@, key),
        forall|key: AccountBlock| #[trigger]
            groups@.contains_key(key) ==> groups@[key]@ == members(transaction_records@, key),
{
    let mut groups: OrdMap<AccountBlock, Vec<usize>> = OrdMap::new();
    let mut i: usize = 0;
    while i < transaction_records.len()
        invariant
            i <= transaction_records.len(),
            forall|key: AccountBlock|
                #[trigger] groups@.contains_key(key) <==> occurs_upto(
                    transaction_records@,
                    key,
                    i as int,
                ),
            forall|key: AccountBlock| #[trigger]
                groups@.contains_key(key) ==> groups@[key]@ == members_upto(
                    transaction_records@,
                    key,
                    i as int,
                ),
        decreases transaction_records.len() - i,
    {
        let record = &transaction_records[i];
        let key = AccountBlock {
            account_id: record.transaction_header.account_id,
            block_num: record.block_num,
        };
        let ghost before = groups@;
        let mut positions = match groups.remove(&key) {
            Some(positions) => positions,
            None => Vec::new(),
        };
        proof {
            lemma_members(transaction_records@, key, i as int);
            assert(positions@ =~= members_upto(transaction_records@, key, i as int));
        }
        positions.push(i);
        groups.insert(key, positions);
        proof {
            let records = transaction_records@;
            assert(key_of(records[i as int]) == key);
            assert forall|k: AccountBlock|
                #[trigger] groups@.contains_key(k) <==> occurs_upto(records, k, i + 1) by {
                if occurs_upto(records, k, i as int) {
                    let j = choose|j: int| 0 <= j < i && key_of(#[trigger] records[j]) == k;
                    assert(key_of(records[j]) == k);
                }
                if occurs_upto(records, k, i + 1) && k != key {
                    let j = choose|j: int| 0 <= j < i + 1 && key_of(#[trigger] records[j]) == k;
                    assert(j < i);
                    assert(occurs_upto(records, k, i as int));
                }
                assert(before.contains_key(k) <==> occurs_upto(records, k, i as int));
            }
            assert forall|k: AccountBlock| #[trigger] groups@.contains_key(k) implies groups@[k]@
                == members_upto(records, k, i + 1) by {
                if k != key {
                    assert(before.contains_key(k));
                }
            }
        }
        i += 1;
    }
    groups
}

// EXECUTION CHAIN
// ================================================================================================
/// The state commitment a transaction starts from.
pub open spec fn init_of(records: Seq<TransactionRecord>, tx: usize) -> Word {
    records[tx as int].transaction_header.initial_state_commitment
}

/// The state commitment a transaction leads to.
pub open spec fn final_of(records: Seq<TransactionRecord>, tx: usize) -> Word {
    records[tx as int].transaction_header.final_state_commitment
}

/// The transactions that change, or that keep, the state of their account, in the given order.
pub open spec fn select(records: Seq<TransactionRecord>, txs: Seq<usize>, keeps_state: bool) -> Seq<
    usize,
>
    decreases txs.len(),
{
    if txs.len() == 0 {
        Seq::empty()
    } else {
        let rest = select(records, txs.drop_last(), keeps_state);
        if records[txs.last() as int].transaction_header.keeps_state() == keeps_state {
            rest.push(txs.last())
        } else {
            rest
        }
    }
}

/// Some of these transactions leads to `state`.
pub open spec fn reached(records: Seq<TransactionRecord>, txs: Seq<usize>, state: Word) -> bool {
    exists|j: int| 0 <= j < txs.len() && final_of(records, #[trigger] txs[j]) == state
}

/// The transaction at `at` starts from a state that none of these transactions leads to.
pub open spec fn is_start(records: Seq<TransactionRecord>, txs: Seq<usize>, at: int) -> bool {
    0 <= at < txs.len() && !reached(records, txs, init_of(records, txs[at]))
}

/// The position of the first transaction that starts from a state none of these leads to.
#[verifier::opaque]
pub open spec fn first_start(records: Seq<TransactionRecord>, txs: Seq<usize>) -> int {
    choose|at: int|
        #[trigger] is_start(records, txs, at) && forall|j: int|
            0 <= j < at ==> !is_start(records, txs, j)
}

/// For every state some of these transactions starts from, the last transaction that does.
pub open spec fn by_initial_state(records: Seq<TransactionRecord>, txs: Seq<usize>) -> Map<
    Word,
    usize,
>
    decreases txs.len(),
{
    if txs.len() == 0 {
        Map::empty()
    } else {
        by_initial_state(records, txs.drop_last()).insert(
            init_of(records, txs.last()),
            txs.last(),
        )
    }
}

/// The transactions met by following `next` from `state`, each at most once.
pub open spec fn follow(records: Seq<TransactionRecord>, next: Map<Word, usize>, state: Word) -> Seq<
    usize,
>
    decreases next.dom().len(),
    when next.dom().finite()
{
    if next.contains_key(state) {
        seq![next[state]] + follow(
            records,
            next.remove(state),
            final_of(records, next[state]),
        )
    } else {
        Seq::empty()
    }
}

/// The transactions do not close a cycle: some of those that change the state starts from a state
/// that none of them leads to, or there are none.
pub open spec fn walkable(records: Seq<TransactionRecord>, txs: Seq<usize>) -> bool {
    let chained = select(records, txs, false);
    chained.len() == 0 || exists|at: int| #[trigger] is_start(records, chained, at)
}

/// The transactions that start from `state`, or those that do not, in the given order.
pub open spec fn starting(
    records: Seq<TransactionRecord>,
    txs: Seq<usize>,
    state: Word,
    from_state: bool,
) -> Seq<usize>
    decreases txs.len(),
{
    if txs.len() == 0 {
        Seq::empty()
    } else {
        let rest = starting(records, txs.drop_last(), state, from_state);
        if (init_of(records, txs.last()) == state) == from_state {
            rest.push(txs.last())
        } else {
            rest
        }
    }
}

/// A walk from `state` together with transactions that keep the state of the account. Each of these
/// stands where the walk first is in its state: directly after the transaction that leads there, or
/// before all of them. Those with a state the walk is never in come last.
pub open spec fn weave(
    records: Seq<TransactionRecord>,
    walk: Seq<usize>,
    state: Word,
    keeping: Seq<usize>,
) -> Seq<usize>
    decreases walk.len(),
{
    let here = starting(records, keeping, state, true);
    let elsewhere = starting(records, keeping, state, false);
    if walk.len() == 0 {
        here + elsewhere
    } else {
        here + (seq![walk[0]] + weave(
            records,
            walk.skip(1),
            final_of(records, walk[0]),
            elsewhere,
        ))
    }
}

/// The transactions in order of execution, each starting where the one before it ended.
pub open spec fn execution_order(records: Seq<TransactionRecord>, txs: Seq<usize>) -> Seq<usize> {
    let chained = select(records, txs, false);
    let keeping = select(records, txs, true);
    if chained.len() == 0 {
        keeping
    } else {
        let state = init_of(records, chained[first_start(records, chained)]);
        weave(
            records,
            follow(records, by_initial_state(records, chained), state),
            state,
            keeping,
        )
    }
}

/// All positions refer to records.
pub open spec fn positions_in(records: Seq<TransactionRecord>, txs: Seq<usize>) -> bool {
    forall|j: int| 0 <= j < txs.len() ==> (#[trigger] txs[j]) < records.len()
}

/// Selected transactions are among those selected from.
pub proof fn lemma_select(records: Seq<TransactionRecord>, txs: Seq<usize>, keeps_state: bool)
    ensures
        forall|j: int|
            0 <= j < select(records, txs, keeps_state).len() ==> txs.contains(
                #[trigger] select(records, txs, keeps_state)[j],
            ) && records[select(
                records,
                txs,
                keeps_state,
            )[j] as int].transaction_header.keeps_state() == keeps_state,
        forall|tx: usize|
            txs.contains(tx) && records[tx as int].transaction_header.keeps_state() == keeps_state
                ==> #[trigger] select(records, txs, keeps_state).contains(tx),
        positions_in(records, txs) ==> positions_in(records, select(records, txs, keeps_state)),
        txs.no_duplicates() ==> select(records, txs, keeps_state).no_duplicates(),
    decreases txs.len(),
{
    let all = select(records, txs, keeps_state);
    if txs.len() > 0 {
        let rest = txs.drop_last();
        lemma_select(records, rest, keeps_state);
        let selected = select(records, rest, keeps_state);
        assert forall|j: int| 0 <= j < all.len() implies txs.contains(#[trigger] all[j])
            && records[all[j] as int].transaction_header.keeps_state() == keeps_state by {
            if j < selected.len() {
                assert(all[j] == selected[j]);
                let k = choose|k: int| 0 <= k < rest.len() && rest[k] == selected[j];
                assert(txs[k] == all[j]);
            } else {
                assert(txs[txs.len() - 1] == all[j]);
            }
        }
        assert forall|tx: usize|
            txs.contains(tx) && records[tx as int].transaction_header.keeps_state()
                == keeps_state implies #[trigger] all.contains(tx) by {
            let k = choose|k: int| 0 <= k < txs.len() && txs[k] == tx;
            if k < txs.len() - 1 {
                assert(rest[k] == tx);
                assert(rest.contains(tx));
                assert(selected.contains(tx));
                let j = choose|j: int| 0 <= j < selected.len() && selected[j] == tx;
                assert(all[j] == tx);
            } else {
                assert(all[all.len() - 1] == tx);
            }
        }
        if positions_in(records, txs) {
            assert forall|j: int| 0 <= j < all.len() implies (#[trigger] all[j])
                < records.len() by {
                let k = choose|k: int| 0 <= k < txs.len() && txs[k] == all[j];
                assert(txs[k] < records.len());
            }
        }
        if txs.no_duplicates() {
            assert(rest.no_duplicates());
            if all.len() > selected.len() {
                assert forall|j: int| 0 <= j < selected.len() implies selected[j]
                    != txs.last() by {
                    assert(rest.contains(selected[j]));
                    let k = choose|k: int| 0 <= k < rest.len() && rest[k] == selected[j];
                    assert(txs[k] == selected[j]);
                }
            }
        }
    }
}

/// The map by initial state is finite, and sends each state to a transaction that starts from it.
pub proof fn lemma_by_initial_state(records: Seq<TransactionRecord>, txs: Seq<usize>)
    ensures
        by_initial_state(records, txs).dom().finite(),
        forall|state: Word| #[trigger]
            by_initial_state(records, txs).contains_key(state) ==> txs.contains(
                by_initial_state(records, txs)[state],
            ) && init_of(records, by_initial_state(records, txs)[state]) == state,
        forall|j: int|
            0 <= j < txs.len() ==> by_initial_state(records, txs).contains_key(
                init_of(records, #[trigger] txs[j]),
            ),
    decreases txs.len(),
{
    if txs.len() > 0 {
        let rest = txs.drop_last();
        lemma_by_initial_state(records, rest);
        let map = by_initial_state(records, txs);
        assert forall|state: Word| #[trigger] map.contains_key(state) implies txs.contains(
            map[state],
        ) && init_of(records, map[state]) == state by {
            if state == init_of(records, txs.last()) {
                assert(txs[txs.len() - 1] == map[state]);
            } else {
                assert(by_initial_state(records, rest).contains_key(state));
                let k = choose|k: int| 0 <= k < rest.len() && rest[k] == map[state];
                assert(txs[k] == map[state]);
            }
        }
        assert forall|j: int| 0 <= j < txs.len() implies map.contains_key(
            init_of(records, #[trigger] txs[j]),
        ) by {
            if j < txs.len() - 1 {
                assert(rest[j] == txs[j]);
            }
        }
    }
}

/// Returns true if the transactions that change the state can be walked from a start, so that
/// `walk_execution_chain` may be called on them.
pub fn is_walkable(records: &Vec<TransactionRecord>, txs: &Vec<usize>) -> (walkable: bool)
    requires
        positions_in(records@, txs@),
    ensures
        walkable == self::walkable(records@, txs@),
{
    let (_, chained) = partition(records, txs);
    if chained.len() == 0 {
        return true;
    }
    find_start(records, &chained).is_some()
}

/// Splits the transactions into those that keep the state and those that change it.
fn partition(records: &Vec<TransactionRecord>, txs: &Vec<usize>) -> (parts: (
    Vec<usize>,
    Vec<usize>,
))
    requires
        positions_in(records@, txs@),
    ensures
        parts.0@ == select(records@, txs@, true),
        parts.1@ == select(records@, txs@, false),
        positions_in(records@, parts.0@),
        positions_in(records@, parts.1@),
{
    let mut self_loops: Vec<usize> = Vec::new();
    let mut chained: Vec<usize> = Vec::new();
    let mut i: usize = 0;
    while i < txs.len()
        invariant
            i <= txs.len(),
            positions_in(records@, txs@),
            self_loops@ == select(records@, txs@.take(i as int), true),
            chained@ == select(records@, txs@.take(i as int), false),
        decreases txs.len() - i,
    {
        let tx: usize = txs[i];
        let header = &records[tx].transaction_header;
        assert(txs@.take(i + 1).drop_last() =~= txs@.take(i as int));
        assert(txs@.take(i + 1).last() == tx);
        if header.initial_state_commitment == header.final_state_commitment {
            self_loops.push(tx);
        } else {
            chained.push(tx);
        }
        i += 1;
    }
    proof {
        assert(txs@.take(txs.len() as int) =~= txs@);
        lemma_select(records@, txs@, true);
        lemma_select(records@, txs@, false);
    }
    (self_loops, chained)
}

/// Returns true if one of the transactions leads to `state`.
fn is_reached(records: &Vec<TransactionRecord>, txs: &Vec<usize>, state: &Word) -> (found: bool)
    requires
        positions_in(records@, txs@),
    ensures
        found == reached(records@, txs@, *state),
{
    let mut j: usize = 0;
    while j < txs.len()
        invariant
            j <= txs.len(),
            positions_in(records@, txs@),
            forall|k: int| 0 <= k < j ==> final_of(records@, #[trigger] txs@[k]) != *state,
        decreases txs.len() - j,
    {
        if records[txs[j]].transaction_header.final_state_commitment == *state {
            assert(final_of(records@, txs@[j as int]) == *state);
            return true;
        }
        j += 1;
    }
    false
}

/// Returns the position of the first transaction that starts from a state none of these leads to.
fn find_start(records: &Vec<TransactionRecord>, chained: &Vec<usize>) -> (start: Option<usize>)
    requires
        positions_in(records@, chained@),
    ensures
        match start {
            Some(at) => is_start(records@, chained@, at as int) && at == first_start(
                records@,
                chained@,
            ),
            None => forall|at: int| !#[trigger] is_start(records@, chained@, at),
        },
{
    let mut at: usize = 0;
    while at < chained.len()
        invariant
            at <= chained.len(),
            positions_in(records@, chained@),
            forall|k: int| 0 <= k < at ==> !#[trigger] is_start(records@, chained@, k),
        decreases chained.len() - at,
    {
        let init = records[chained[at]].transaction_header.initial_state_commitment;
        if !is_reached(records, chained, &init) {
            proof {
                reveal(first_start);
                assert(is_start(records@, chained@, at as int));
                let first = first_start(records@, chained@);
                if first < at {
                    assert(!is_start(records@, chained@, first));
                }
                if at < first {
                    assert(!is_start(records@, chained@, at as int));
                }
            }
            return Some(at);
        }
        assert(!is_start(records@, chained@, at as int));
        at += 1;
    }
    None
}

/// Returns, for every state some of the transactions starts from, the last transaction that does.
fn map_by_initial_state(records: &Vec<TransactionRecord>, chained: &Vec<usize>) -> (map: OrdMap<
    Word,
    usize,
>)
    requires
        positions_in(records@, chained@),
    ensures
        map@ == by_initial_state(records@, chained@),
        map@.dom().finite(),
        forall|s: Word| #[trigger] map@.contains_key(s) ==> map@[s] < records@.len(),
{
    let mut map: OrdMap<Word, usize> = OrdMap::new();
    let mut i: usize = 0;
    while i < chained.len()
        invariant
            i <= chained.len(),
            positions_in(records@, chained@),
            map@ == by_initial_state(records@, chained@.take(i as int)),
        decreases chained.len() - i,
    {
        let tx: usize = chained[i];
        assert(chained@.take(i + 1).drop_last() =~= chained@.take(i as int));
        assert(chained@.take(i + 1).last() == tx);
        map.insert(records[tx].transaction_header.initial_state_commitment, tx);
        i += 1;
    }
    proof {
        assert(chained@.take(chained.len() as int) =~= chained@);
        lemma_by_initial_state(records@, chained@);
        assert forall|s: Word| #[trigger] map@.contains_key(s) implies map@[s] < records@.len() by {
            let k = choose|k: int| 0 <= k < chained@.len() && chained@[k] == map@[s];
            assert(chained@[k] < records@.len());
        }
    }
    map
}

/// Returns the transactions met by following `next` from `state`.
fn follow_chain(
    records: &Vec<TransactionRecord>,
    next: OrdMap<Word, usize>,
    state: Word,
) -> (order: Vec<usize>)
    requires
        next@.dom().finite(),
        forall|s: Word| #[trigger] next@.contains_key(s) ==> next@[s] < records@.len(),
    ensures
        order@ == follow(records@, next@, state),
        positions_in(records@, order@),
{
    let ghost all = next@;
    let mut next = next;
    let mut order: Vec<usize> = Vec::new();
    let mut tx = next.remove(&state);
    assert(all.remove(state) =~= next@);
    while tx.is_some()
        invariant
            next@.dom().finite(),
            positions_in(records@, order@),
            forall|s: Word| #[trigger] next@.contains_key(s) ==> next@[s] < records@.len(),
            tx matches Some(t) ==> t < records@.len(),
            tx matches Some(t) ==> order@ + (seq![t] + follow(
                records@,
                next@,
                final_of(records@, t),
            )) == follow(records@, all, state),
            tx is None ==> order@ == follow(records@, all, state),
        decreases
                next@.dom().len() + (if tx is Some {
                    1int
                } else {
                    0int
                }),
    {
        let current: usize = tx.unwrap();
        let ghost before = order@;
        let ghost remaining = next@;
        order.push(current);
        let reached = records[current].transaction_header.final_state_commitment;
        tx = next.remove(&reached);
        proof {
            assert(before + (seq![current] + follow(records@, remaining, reached)) =~= order@
                + follow(records@, remaining, reached));
            if !remaining.contains_key(reached) {
                assert(order@ + follow(records@, remaining, reached) =~= order@);
            }
        }
    }
    order
}

/// Splits the transactions into those that start from `state` and those that do not.
fn split_at_state(records: &Vec<TransactionRecord>, txs: &Vec<usize>, state: &Word) -> (parts: (
    Vec<usize>,
    Vec<usize>,
))
    requires
        positions_in(records@, txs@),
    ensures
        parts.0@ == starting(records@, txs@, *state, true),
        parts.1@ == starting(records@, txs@, *state, false),
        positions_in(records@, parts.0@),
        positions_in(records@, parts.1@),
{
    let mut here: Vec<usize> = Vec::new();
    let mut elsewhere: Vec<usize> = Vec::new();
    let mut i: usize = 0;
    while i < txs.len()
        invariant
            i <= txs.len(),
            positions_in(records@, txs@),
            positions_in(records@, here@),
            positions_in(records@, elsewhere@),
            here@ == starting(records@, txs@.take(i as int), *state, true),
            elsewhere@ == starting(records@, txs@.take(i as int), *state, false),
        decreases txs.len() - i,
    {
        let tx: usize = txs[i];
        assert(txs@.take(i + 1).drop_last() =~= txs@.take(i as int));
        assert(txs@.take(i + 1).last() == tx);
        if records[tx].transaction_header.initial_state_commitment == *state {
            here.push(tx);
        } else {
            elsewhere.push(tx);
        }
        i += 1;
    }
    assert(txs@.take(txs.len() as int) =~= txs@);
    (here, elsewhere)
}

/// Puts the transactions that keep the state of the account into a walk from `state`.
fn weave_chain(
    records: &Vec<TransactionRecord>,
    walk: &Vec<usize>,
    state: Word,
    keeping: Vec<usize>,
) -> (order: Vec<usize>)
    requires
        positions_in(records@, walk@),
        positions_in(records@, keeping@),
    ensures
        order@ == weave(records@, walk@, state, keeping@),
        positions_in(records@, order@),
{
    let ghost all = weave(records@, walk@, state, keeping@);
    let mut pending = keeping;
    let mut current = state;
    let mut order: Vec<usize> = Vec::new();
    let mut i: usize = 0;
    assert(walk@.skip(0) =~= walk@);
    assert(order@ + all =~= all);
    while i < walk.len()
        invariant
            i <= walk.len(),
            positions_in(records@, walk@),
            positions_in(records@, pending@),
            positions_in(records@, order@),
            order@ + weave(records@, walk@.skip(i as int), current, pending@) == all,
        decreases walk.len() - i,
    {
        let ghost before = order@;
        let (mut here, elsewhere) = split_at_state(records, &pending, &current);
        let ghost first = here@;
        order.append(&mut here);
        order.push(walk[i]);
        current = records[walk[i]].transaction_header.final_state_commitment;
        pending = elsewhere;
        proof {
            let left = walk@.skip(i as int);
            assert(left[0] == walk@[i as int]);
            assert(left.skip(1) =~= walk@.skip(i + 1));
            let rest = weave(records@, walk@.skip(i + 1), current, pending@);
            assert(before + (first + (seq![walk@[i as int]] + rest)) =~= order@ + rest);
        }
        i += 1;
    }
    let ghost before = order@;
    let (mut here, mut elsewhere) = split_at_state(records, &pending, &current);
    let ghost (first, last) = (here@, elsewhere@);
    order.append(&mut here);
    order.append(&mut elsewhere);
    proof {
        assert(walk@.skip(i as int).len() == 0);
        assert(order@ =~= before + (first + last));
    }
    order
}

/// Returns the transactions of one account and block in order of execution.
///
/// A transaction that keeps the account's state stands directly after the one that leads to that
/// state. If several transactions that change it start from the same state, the last of them is
/// taken.
pub fn walk_execution_chain(records: &Vec<TransactionRecord>, txs: &Vec<usize>) -> (order: Vec<
    usize,
>)
    requires
        positions_in(records@, txs@),
        walkable(records@, txs@),
    ensures
        order@ == execution_order(records@, txs@),
        positions_in(records@, order@),
{
    let (keeping, chained) = partition(records, txs);
    if chained.len() == 0 {
        return keeping;
    }
    match find_start(records, &chained) {
        Some(start) => {
            let state = records[chained[start]].transaction_header.initial_state_commitment;
            let walk = follow_chain(records, map_by_initial_state(records, &chained), state);
            weave_chain(records, &walk, state, keeping)
        },
        None => keeping,
    }
}

// STATES AND NULLIFIERS
// ================================================================================================
/// None of the groups of records closes a cycle.
pub open spec fn all_walkable(records: Seq<TransactionRecord>) -> bool {
    forall|key: AccountBlock| #[trigger] occurs(records, key) ==> walkable(
        records,
        members(records, key),
    )
}

/// The state commitment in which an account is left by its transactions in a block.
pub open spec fn terminal_state(records: Seq<TransactionRecord>, key: AccountBlock) -> Word {
    final_of(records, execution_order(records, members(records, key)).last())
}

/// The account has records in `block`, and none in a later block.
pub open spec fn is_latest_block(
    records: Seq<TransactionRecord>,
    account_id: AccountId,
    block_num: BlockNumber,
) -> bool {
    &&& occurs(records, AccountBlock { account_id, block_num })
    &&& forall|later: BlockNumber| #[trigger]
        occurs(records, AccountBlock { account_id, block_num: later }) ==> later <= block_num
}

/// Nullifiers of the notes consumed by the transactions of `order`, in that order.
pub open spec fn nullifiers_in(records: Seq<TransactionRecord>, order: Seq<usize>) -> Seq<Nullifier>
    decreases order.len(),
{
    if order.len() == 0 {
        Seq::empty()
    } else {
        nullifiers_in(records, order.drop_last())
            + records[order.last() as int].transaction_header.input_nullifiers@
    }
}

/// Nullifiers of the notes consumed in the groups of `keys`, group by group, each in order of
/// execution.
pub open spec fn nullifiers_over(records: Seq<TransactionRecord>, keys: Seq<AccountBlock>) -> Seq<
    Nullifier,
>
    decreases keys.len(),
{
    if keys.len() == 0 {
        Seq::empty()
    } else {
        nullifiers_over(records, keys.drop_last()) + nullifiers_in(
            records,
            execution_order(records, members(records, keys.last())),
        )
    }
}

/// `keys` are the accounts and blocks that occur in the records, ordered by account and block.
pub open spec fn lists_account_blocks(
    records: Seq<TransactionRecord>,
    keys: Seq<AccountBlock>,
) -> bool {
    &&& forall|i: int, j: int|
        0 <= i < j < keys.len() ==> (#[trigger] keys[i]).rank() < (#[trigger] keys[j]).rank()
    &&& forall|key: AccountBlock| #[trigger] keys.contains(key) <==> occurs(records, key)
}

/// The accounts and blocks that occur in the records, ordered by account and block.
pub open spec fn account_blocks(records: Seq<TransactionRecord>) -> Seq<AccountBlock> {
    choose|keys: Seq<AccountBlock>| lists_account_blocks(records, keys)
}

/// There is only one list of the accounts and blocks that occur in the records.
pub proof fn lemma_account_blocks(records: Seq<TransactionRecord>, keys: Seq<AccountBlock>)
    requires
        lists_account_blocks(records, keys),
    ensures
        keys == account_blocks(records),
{
    let other = account_blocks(records);
    let a = keys.map_values(|key: AccountBlock| (key, ()));
    let b = other.map_values(|key: AccountBlock| (key, ()));
    assert forall|key: AccountBlock| has_key(a, key) == has_key(b, key) by {
        assert(has_key(a, key) == keys.contains(key)) by {
            if has_key(a, key) {
                let i = choose|i: int| 0 <= i < a.len() && (#[trigger] a[i]).0 == key;
                assert(keys[i] == key);
            }
            if keys.contains(key) {
                let i = choose|i: int| 0 <= i < keys.len() && keys[i] == key;
                assert(a[i].0 == key);
            }
        }
        assert(has_key(b, key) == other.contains(key)) by {
            if has_key(b, key) {
                let i = choose|i: int| 0 <= i < b.len() && (#[trigger] b[i]).0 == key;
                assert(other[i] == key);
            }
            if other.contains(key) {
                let i = choose|i: int| 0 <= i < other.len() && other[i] == key;
                assert(b[i].0 == key);
            }
        }
    }
    assert(entries_map(a) =~= entries_map(b));
    lemma_listing_unique(a, b);
    assert(a.len() == keys.len() && b.len() == other.len());
    assert forall|i: int| 0 <= i < keys.len() implies keys[i] == other[i] by {
        assert(a[i].0 == keys[i]);
        assert(b[i].0 == other[i]);
    }
    assert(keys =~= other);
}

/// If some transaction is a start, the first start is one.
pub proof fn lemma_first_start(records: Seq<TransactionRecord>, txs: Seq<usize>, at: int)
    requires
        is_start(records, txs, at),
    ensures
        is_start(records, txs, first_start(records, txs)),
    decreases at,
{
    reveal(first_start);
    if exists|j: int| 0 <= j < at && is_start(records, txs, j) {
        let j = choose|j: int| 0 <= j < at && is_start(records, txs, j);
        lemma_first_start(records, txs, j);
    }
}

/// What is split by the state it starts from is all there is.
pub proof fn lemma_starting(records: Seq<TransactionRecord>, txs: Seq<usize>, state: Word)
    ensures
        starting(records, txs, state, true).to_multiset().add(
            starting(records, txs, state, false).to_multiset(),
        ) == txs.to_multiset(),
        forall|i: int|
            0 <= i < starting(records, txs, state, true).len() ==> init_of(
                records,
                #[trigger] starting(records, txs, state, true)[i],
            ) == state && txs.contains(starting(records, txs, state, true)[i]),
        forall|i: int|
            0 <= i < starting(records, txs, state, false).len() ==> init_of(
                records,
                #[trigger] starting(records, txs, state, false)[i],
            ) != state && txs.contains(starting(records, txs, state, false)[i]),
    decreases txs.len(),
{
    broadcast use vstd::seq_lib::group_to_multiset_ensures;
    broadcast use vstd::multiset::group_multiset_axioms;

    let here = starting(records, txs, state, true);
    let elsewhere = starting(records, txs, state, false);
    if txs.len() > 0 {
        let rest = txs.drop_last();
        lemma_starting(records, rest, state);
        assert(txs =~= rest.push(txs.last()));
        let h = starting(records, rest, state, true);
        let e = starting(records, rest, state, false);
        assert(txs[txs.len() - 1] == txs.last());
        assert forall|i: int| 0 <= i < here.len() implies init_of(records, #[trigger] here[i])
            == state && txs.contains(here[i]) by {
            if i < h.len() {
                assert(here[i] == h[i]);
                let k = choose|k: int| 0 <= k < rest.len() && rest[k] == h[i];
                assert(txs[k] == here[i]);
            }
        }
        assert forall|i: int| 0 <= i < elsewhere.len() implies init_of(
            records,
            #[trigger] elsewhere[i],
        ) != state && txs.contains(elsewhere[i]) by {
            if i < e.len() {
                assert(elsewhere[i] == e[i]);
                let k = choose|k: int| 0 <= k < rest.len() && rest[k] == e[i];
                assert(txs[k] == elsewhere[i]);
            }
        }
        assert(here.to_multiset().add(elsewhere.to_multiset()) =~= h.to_multiset().add(
            e.to_multiset(),
        ).insert(txs.last()));
    } else {
        assert(here.to_multiset().add(elsewhere.to_multiset()) =~= txs.to_multiset());
    }
}

/// Weaving loses no transaction and adds none.
pub proof fn lemma_weave_all(
    records: Seq<TransactionRecord>,
    walk: Seq<usize>,
    state: Word,
    keeping: Seq<usize>,
)
    ensures
        weave(records, walk, state, keeping).to_multiset() == walk.to_multiset().add(
            keeping.to_multiset(),
        ),
    decreases walk.len(),
{
    broadcast use vstd::multiset::group_multiset_axioms;

    let here = starting(records, keeping, state, true);
    let elsewhere = starting(records, keeping, state, false);
    lemma_starting(records, keeping, state);
    if walk.len() == 0 {
        vstd::seq_lib::lemma_multiset_commutative(here, elsewhere);
        assert(walk =~= Seq::<usize>::empty());
        assert(walk.to_multiset() =~= Multiset::empty()) by {
            broadcast use vstd::seq_lib::group_to_multiset_ensures;

        }
        assert(weave(records, walk, state, keeping).to_multiset() =~= walk.to_multiset().add(
            keeping.to_multiset(),
        ));
    } else {
        let rest = weave(records, walk.skip(1), final_of(records, walk[0]), elsewhere);
        lemma_weave_all(records, walk.skip(1), final_of(records, walk[0]), elsewhere);
        vstd::seq_lib::lemma_multiset_commutative(seq![walk[0]], rest);
        vstd::seq_lib::lemma_multiset_commutative(here, seq![walk[0]] + rest);
        vstd::seq_lib::lemma_multiset_commutative(seq![walk[0]], walk.skip(1));
        assert(walk =~= seq![walk[0]] + walk.skip(1));
        assert(weave(records, walk, state, keeping).to_multiset() =~= walk.to_multiset().add(
            keeping.to_multiset(),
        ));
    }
}

/// The order of execution of a group is not empty.
pub proof fn lemma_order_nonempty(records: Seq<TransactionRecord>, txs: Seq<usize>)
    requires
        walkable(records, txs),
        txs.len() > 0,
    ensures
        execution_order(records, txs).len() > 0,
{
    let chained = select(records, txs, false);
    let loops = select(records, txs, true);
    lemma_select(records, txs, true);
    lemma_select(records, txs, false);
    let tx = txs[0];
    assert(txs.contains(tx));
    if chained.len() > 0 {
        let at = choose|at: int| #[trigger] is_start(records, chained, at);
        lemma_first_start(records, chained, at);
        lemma_by_initial_state(records, chained);
        let first = first_start(records, chained);
        let state = init_of(records, chained[first]);
        assert(by_initial_state(records, chained).contains_key(state));
        let walk = follow(records, by_initial_state(records, chained), state);
        assert(walk.len() > 0);
    } else {
        assert(!chained.contains(tx));
        assert(loops.contains(tx));
    }
}

/// What the listing of the groups says of the group at `g`.
proof fn lemma_group_at(
    records: Seq<TransactionRecord>,
    groups: OrdMap<AccountBlock, Vec<usize>>,
    g: int,
)
    requires
        records.len() <= usize::MAX,
        all_walkable(records),
        forall|key: AccountBlock| #[trigger]
            groups@.contains_key(key) <==> occurs(records, key),
        forall|key: AccountBlock| #[trigger]
            groups@.contains_key(key) ==> groups@[key]@ == members(records, key),
        groups.wf(),
        0 <= g < groups.listing().len(),
    ensures
        occurs(records, groups.listing()[g].0),
        groups.listing()[g].1@ == members(records, groups.listing()[g].0),
        positions_in(records, groups.listing()[g].1@),
        walkable(records, groups.listing()[g].1@),
        groups.listing()[g].1@.len() > 0,
        execution_order(records, groups.listing()[g].1@).len() > 0,
{
    lemma_entry_of(groups.listing(), g);
    let key = groups.listing()[g].0;
    assert(groups@.contains_key(key));
    lemma_members(records, key, records.len() as int);
    lemma_order_nonempty(records, members(records, key));
}

/// The groups are listed in the order of their accounts and blocks.
proof fn lemma_groups_listed(
    records: Seq<TransactionRecord>,
    groups: OrdMap<AccountBlock, Vec<usize>>,
)
    requires
        groups.wf(),
        forall|key: AccountBlock| #[trigger]
            groups@.contains_key(key) <==> occurs(records, key),
    ensures
        groups.listing().map_values(|entry: (AccountBlock, Vec<usize>)| entry.0) == account_blocks(
            records,
        ),
        lists_account_blocks(records, account_blocks(records)),
{
    let entries = groups.listing();
    let keys = entries.map_values(|entry: (AccountBlock, Vec<usize>)| entry.0);
    assert forall|i: int, j: int| 0 <= i < j < keys.len() implies (#[trigger] keys[i]).rank() < (
    #[trigger] keys[j]).rank() by {
        assert(entries[i].0.rank() < entries[j].0.rank());
    }
    assert forall|key: AccountBlock| #[trigger] keys.contains(key) <==> occurs(records, key) by {
        if keys.contains(key) {
            let i = choose|i: int| 0 <= i < keys.len() && keys[i] == key;
            lemma_entry_of(entries, i);
            assert(groups@.contains_key(key));
        }
        if occurs(records, key) {
            assert(groups@.contains_key(key));
            let i = choose|i: int| 0 <= i < entries.len() && (#[trigger] entries[i]).0 == key;
            assert(keys[i] == key);
        }
    }
    lemma_account_blocks(records, keys);
}

/// Returns true if none of the groups of records closes a cycle, so that their execution chains
/// can be walked.
pub fn is_all_walkable(records: &Vec<TransactionRecord>) -> (walkable: bool)
    ensures
        walkable == all_walkable(records@),
{
    let groups = group_txs_by_account_block(records);
    let mut g: usize = 0;
    while g < groups.len()
        invariant
            g <= groups.listing().len(),
            forall|key: AccountBlock| #[trigger]
                groups@.contains_key(key) <==> occurs(records@, key),
            forall|key: AccountBlock| #[trigger]
                groups@.contains_key(key) ==> groups@[key]@ == members(records@, key),
            forall|j: int|
                0 <= j < g ==> walkable(
                    records@,
                    members(records@, (#[trigger] groups.listing()[j]).0),
                ),
        decreases groups.listing().len() - g,
    {
        let ghost key = groups.listing()[g as int].0;
        proof {
            lemma_entry_of(groups.listing(), g as int);
            assert(groups@.contains_key(key));
            assert(records.len() <= usize::MAX);
            lemma_members(records@, key, records@.len() as int);
        }
        if !is_walkable(records, &groups.entries()[g].1) {
            assert(occurs(records@, key));
            return false;
        }
        g += 1;
    }
    proof {
        assert forall|key: AccountBlock| #[trigger] occurs(records@, key) implies walkable(
            records@,
            members(records@, key),
        ) by {
            assert(groups@.contains_key(key));
            let i = choose|i: int|
                0 <= i < groups.listing().len() && (#[trigger] groups.listing()[i]).0 == key;
            assert(groups.listing()[i].0 == key);
        }
    }
    true
}

/// `latest` holds, for every account of the first `g` groups, the state in which the last of its
/// groups left it; `source` gives that group.
spec fn latest_upto(
    records: Seq<TransactionRecord>,
    keys: Seq<AccountBlock>,
    latest: Seq<(AccountId, Word)>,
    source: Seq<int>,
    g: int,
) -> bool {
    &&& keys_ascending(latest)
    &&& source.len() == latest.len()
    &&& (g > 0 <==> latest.len() > 0)
    &&& g > 0 ==> source.last() == g - 1
    &&& forall|i: int|
        0 <= i < source.len() ==> 0 <= (#[trigger] source[i]) < g && latest[i]
            == (keys[source[i]].account_id, terminal_state(records, keys[source[i]]))
    &&& forall|h: int|
        0 <= h < g ==> #[trigger] covered(keys, latest, source, h)
}

/// The account of group `h` has an entry that was taken from this or a later group.
spec fn covered(
    keys: Seq<AccountBlock>,
    latest: Seq<(AccountId, Word)>,
    source: Seq<int>,
    h: int,
) -> bool {
    exists|i: int|
        0 <= i < source.len() && h <= #[trigger] source[i] && keys[h].account_id == latest[i].0
}

/// Taking the next group into account keeps `latest_upto`.
proof fn lemma_latest_step(
    records: Seq<TransactionRecord>,
    keys: Seq<AccountBlock>,
    latest: Seq<(AccountId, Word)>,
    source: Seq<int>,
    g: int,
)
    requires
        latest_upto(records, keys, latest, source, g),
        0 <= g < keys.len(),
        forall|i: int, j: int|
            0 <= i < j < keys.len() ==> (#[trigger] keys[i]).rank() < (#[trigger] keys[j]).rank(),
    ensures
        ({
            let entry = (keys[g].account_id, terminal_state(records, keys[g]));
            if latest.len() > 0 && latest.last().0 == keys[g].account_id {
                latest_upto(
                    records,
                    keys,
                    latest.update(latest.len() - 1, entry),
                    source.update(latest.len() - 1, g),
                    g + 1,
                )
            } else {
                latest_upto(records, keys, latest.push(entry), source.push(g), g + 1)
            }
        }),
{
    let entry = (keys[g].account_id, terminal_state(records, keys[g]));
    let count = latest.len() as int;
    let replace = latest.len() > 0 && latest.last().0 == keys[g].account_id;
    let after = if replace {
        latest.update(count - 1, entry)
    } else {
        latest.push(entry)
    };
    let source_after = if replace {
        source.update(count - 1, g)
    } else {
        source.push(g)
    };
    assert forall|i: int, j: int| 0 <= i < j < after.len() implies (#[trigger] after[i]).0.rank()
        < (#[trigger] after[j]).0.rank() by {
        if replace || j < count {
            assert(latest[i].0.rank() < latest[j].0.rank());
        } else {
            let last = source[count - 1];
            assert(keys[last].rank() < keys[g].rank());
            assert(latest[count - 1].0 < keys[g].account_id);
            if i < count - 1 {
                assert(latest[i].0.rank() < latest[count - 1].0.rank());
            }
        }
    }
    assert forall|h: int| 0 <= h < g + 1 implies #[trigger] covered(
        keys,
        after,
        source_after,
        h,
    ) by {
        if h < g {
            assert(covered(keys, latest, source, h));
            let i = choose|i: int|
                0 <= i < source.len() && h <= #[trigger] source[i] && keys[h].account_id
                    == latest[i].0;
            assert(h <= source_after[i] && keys[h].account_id == after[i].0);
        } else {
            let i = source_after.len() - 1;
            assert(h <= source_after[i] && keys[h].account_id == after[i].0);
        }
    }
}

/// What `latest_upto` says of all groups.
proof fn lemma_latest_all(
    records: Seq<TransactionRecord>,
    keys: Seq<AccountBlock>,
    latest: Seq<(AccountId, Word)>,
    source: Seq<int>,
)
    requires
        latest_upto(records, keys, latest, source, keys.len() as int),
        lists_account_blocks(records, keys),
    ensures
        forall|account_id: AccountId| #[trigger]
            has_key(latest, account_id) <==> exists|block_num: BlockNumber| #[trigger]
                occurs(records, AccountBlock { account_id, block_num }),
        forall|i: int, block_num: BlockNumber|
            0 <= i < latest.len() && #[trigger] is_latest_block(
                records,
                (#[trigger] latest[i]).0,
                block_num,
            ) ==> latest[i].1 == terminal_state(
                records,
                AccountBlock { account_id: latest[i].0, block_num },
            ),
{
    assert forall|account_id: AccountId| #[trigger]
        has_key(latest, account_id) <==> exists|block_num: BlockNumber| #[trigger]
            occurs(records, AccountBlock { account_id, block_num }) by {
        if has_key(latest, account_id) {
            let i = choose|i: int| 0 <= i < latest.len() && (#[trigger] latest[i]).0 == account_id;
            let key = keys[source[i]];
            assert(keys.contains(key));
            assert(occurs(records, AccountBlock { account_id, block_num: key.block_num }));
        }
        if exists|block_num: BlockNumber| #[trigger]
            occurs(records, AccountBlock { account_id, block_num }) {
            let block_num = choose|block_num: BlockNumber| #[trigger]
                occurs(records, AccountBlock { account_id, block_num });
            let key = AccountBlock { account_id, block_num };
            assert(keys.contains(key));
            let h = choose|h: int| 0 <= h < keys.len() && keys[h] == key;
            assert(covered(keys, latest, source, h));
            let i = choose|i: int|
                0 <= i < source.len() && h <= #[trigger] source[i] && keys[h].account_id
                    == latest[i].0;
            assert(latest[i].0 == account_id);
        }
    }
    assert forall|i: int, block_num: BlockNumber|
        0 <= i < latest.len() && #[trigger] is_latest_block(
            records,
            (#[trigger] latest[i]).0,
            block_num,
        ) implies latest[i].1 == terminal_state(
        records,
        AccountBlock { account_id: latest[i].0, block_num },
    ) by {
        let account_id = latest[i].0;
        let key = AccountBlock { account_id, block_num };
        assert(keys.contains(key));
        let h = choose|h: int| 0 <= h < keys.len() && keys[h] == key;
        assert(covered(keys, latest, source, h));
        let k = choose|k: int|
            0 <= k < source.len() && h <= #[trigger] source[k] && keys[h].account_id
                == latest[k].0;
        if k < i {
            assert(latest[k].0.rank() < latest[i].0.rank());
        } else if i < k {
            assert(latest[i].0.rank() < latest[k].0.rank());
        }
        let s = source[i];
        if h < s {
            assert(keys[h].rank() < keys[s].rank());
            assert(keys[s].block_num > block_num);
            assert(keys.contains(keys[s]));
            assert(occurs(records, AccountBlock { account_id, block_num: keys[s].block_num }));
        }
    }
}

/// Returns, for every account that has transactions, the state in which the last block with
/// transactions of the account left it. The accounts come in ascending order.
pub fn derive_account_commitments(transaction_records: &Vec<TransactionRecord>) -> (commitments:
    Vec<(AccountId, Word)>)
    requires
        all_walkable(transaction_records@),
    ensures
        keys_ascending(commitments@),
        forall|account_id: AccountId| #[trigger]
            has_key(commitments@, account_id) <==> exists|block_num: BlockNumber| #[trigger]
                occurs(transaction_records@, AccountBlock { account_id, block_num }),
        forall|i: int, block_num: BlockNumber|
            0 <= i < commitments@.len() && #[trigger] is_latest_block(
                transaction_records@,
                (#[trigger] commitments@[i]).0,
                block_num,
            ) ==> commitments@[i].1 == terminal_state(
                transaction_records@,
                AccountBlock { account_id: commitments@[i].0, block_num },
            ),
{
    let groups = group_txs_by_account_block(transaction_records);
    let ghost records = transaction_records@;
    let ghost keys = account_blocks(records);
    proof {
        use_type_invariant(&groups);
        lemma_groups_listed(records, groups);
    }
    let mut latest: Vec<(AccountId, Word)> = Vec::new();
    let ghost mut source: Seq<int> = Seq::empty();
    let mut g: usize = 0;
    while g < groups.len()
        invariant
            records == transaction_records@,
            all_walkable(records),
            g <= groups.listing().len(),
            keys == groups.listing().map_values(|entry: (AccountBlock, Vec<usize>)| entry.0),
            lists_account_blocks(records, keys),
            forall|key: AccountBlock| #[trigger]
                groups@.contains_key(key) <==> occurs(records, key),
            forall|key: AccountBlock| #[trigger]
                groups@.contains_key(key) ==> groups@[key]@ == members(records, key),
            latest_upto(records, keys, latest@, source, g as int),
        decreases groups.listing().len() - g,
    {
        proof {
            assert(transaction_records.len() <= usize::MAX);
            lemma_group_at(records, groups, g as int);
            lemma_latest_step(records, keys, latest@, source, g as int);
            assert(keys[g as int] == groups.listing()[g as int].0);
        }
        let key = groups.entries()[g].0;
        let order = walk_execution_chain(transaction_records, &groups.entries()[g].1);
        let terminal: usize = order[order.len() - 1];
        let state = transaction_records[terminal].transaction_header.final_state_commitment;
        let count: usize = latest.len();
        if count > 0 && latest[count - 1].0 == key.account_id {
            latest.set(count - 1, (key.account_id, state));
            proof {
                source = source.update(count - 1, g as int);
            }
        } else {
            latest.push((key.account_id, state));
            proof {
                source = source.push(g as int);
            }
        }
        g += 1;
    }
    proof {
        assert(keys.len() == groups.listing().len());
        lemma_latest_all(records, keys, latest@, source);
    }
    latest
}

/// Returns the nullifiers of all consumed notes, by account and block, and within these in the
/// order in which the notes were consumed.
pub fn compute_ordered_nullifiers(transaction_records: &Vec<TransactionRecord>) -> (nullifiers: Vec<
    Nullifier,
>)
    requires
        all_walkable(transaction_records@),
    ensures
        nullifiers@ == nullifiers_over(
            transaction_records@,
            account_blocks(transaction_records@),
        ),
{
    let groups = group_txs_by_account_block(transaction_records);
    let ghost records = transaction_records@;
    let ghost keys = groups.listing().map_values(|entry: (AccountBlock, Vec<usize>)| entry.0);
    let mut result: Vec<Nullifier> = Vec::new();
    let mut g: usize = 0;
    while g < groups.len()
        invariant
            records == transaction_records@,
            keys == groups.listing().map_values(|entry: (AccountBlock, Vec<usize>)| entry.0),
            all_walkable(records),
            g <= groups.listing().len(),
            forall|key: AccountBlock| #[trigger]
                groups@.contains_key(key) <==> occurs(records, key),
            forall|key: AccountBlock| #[trigger]
                groups@.contains_key(key) ==> groups@[key]@ == members(records, key),
            result@ == nullifiers_over(records, keys.take(g as int)),
        decreases groups.listing().len() - g,
    {
        proof {
            assert(transaction_records.len() <= usize::MAX);
            lemma_group_at(records, groups, g as int);
            assert(keys.take(g + 1).drop_last() =~= keys.take(g as int));
            assert(keys.take(g + 1).last() == groups.listing()[g as int].0);
        }
        let order = walk_execution_chain(transaction_records, &groups.entries()[g].1);
        append_nullifiers(transaction_records, &order, &mut result);
        g += 1;
    }
    proof {
        assert(keys.take(keys.len() as int) =~= keys);
        lemma_groups_listed(records, groups);
    }
    result
}

/// Appends the nullifiers of the notes consumed by the transactions of `order`.
fn append_nullifiers(
    records: &Vec<TransactionRecord>,
    order: &Vec<usize>,
    result: &mut Vec<Nullifier>,
)
    requires
        positions_in(records@, order@),
    ensures
        final(result)@ == old(result)@ + nullifiers_in(records@, order@),
{
    let ghost before = result@;
    let mut i: usize = 0;
    while i < order.len()
        invariant
            i <= order.len(),
            positions_in(records@, order@),
            result@ == before + nullifiers_in(records@, order@.take(i as int)),
        decreases order.len() - i,
    {
        let tx: usize = order[i];
        let nullifiers = &records[tx].transaction_header.input_nullifiers;
        let ghost start = result@;
        let mut k: usize = 0;
        while k < nullifiers.len()
            invariant
                k <= nullifiers.len(),
                result@ == start + nullifiers@.take(k as int),
            decreases nullifiers.len() - k,
        {
            result.push(nullifiers[k]);
            assert(nullifiers@.take(k + 1) =~= nullifiers@.take(k as int).push(
                nullifiers@[k as int],
            ));
            k += 1;
        }
        proof {
            assert(nullifiers@.take(nullifiers.len() as int) =~= nullifiers@);
            assert(order@.take(i + 1).drop_last() =~= order@.take(i as int));
            assert(order@.take(i + 1).last() == tx);
        }
        i += 1;
    }
    assert(order@.take(order.len() as int) =~= order@);
}

/// Following a map from a state meets transactions of the map, each once, and each starting from
/// the state the one before it led to.
pub proof fn lemma_follow(records: Seq<TransactionRecord>, next: Map<Word, usize>, state: Word)
    requires
        next.dom().finite(),
        forall|s: Word| #[trigger] next.contains_key(s) ==> init_of(records, next[s]) == s,
    ensures
        ({
            let walk = follow(records, next, state);
            &&& forall|i: int|
                0 <= i < walk.len() ==> next.contains_key(init_of(records, #[trigger] walk[i]))
                    && next[init_of(records, walk[i])] == walk[i]
            &&& walk.len() > 0 ==> init_of(records, walk[0]) == state
            &&& forall|i: int|
                0 <= i < walk.len() - 1 ==> final_of(records, #[trigger] walk[i]) == init_of(
                    records,
                    walk[i + 1],
                )
            &&& walk.no_duplicates()
        }),
    decreases next.dom().len(),
{
    if next.contains_key(state) {
        let tx = next[state];
        let rest = next.remove(state);
        lemma_follow(records, rest, final_of(records, tx));
        let tail = follow(records, rest, final_of(records, tx));
        let walk = follow(records, next, state);
        assert(walk =~= seq![tx] + tail);
        assert forall|i: int| 0 <= i < walk.len() implies next.contains_key(
            init_of(records, #[trigger] walk[i]),
        ) && next[init_of(records, walk[i])] == walk[i] by {
            if i > 0 {
                assert(walk[i] == tail[i - 1]);
                assert(rest.contains_key(init_of(records, tail[i - 1])));
            }
        }
        assert forall|i: int| 0 <= i < walk.len() - 1 implies final_of(records, #[trigger] walk[i])
            == init_of(records, walk[i + 1]) by {
            if i > 0 {
                assert(walk[i] == tail[i - 1]);
                assert(walk[i + 1] == tail[i]);
            } else {
                assert(walk[1] == tail[0]);
            }
        }
        assert forall|i: int, j: int| 0 <= i < j < walk.len() implies walk[i] != walk[j] by {
            assert(walk[j] == tail[j - 1]);
            if i > 0 {
                assert(walk[i] == tail[i - 1]);
            } else {
                assert(rest.contains_key(init_of(records, tail[j - 1])));
            }
        }
    }
}

} // verus!
