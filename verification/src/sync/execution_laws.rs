//! What holds of the order of execution, and of all that is collected in this order.
use vstd::multiset::Multiset;
use vstd::prelude::*;

use crate::collections::OrdKey;
use crate::rpc::domain::transaction::TransactionRecord;
use crate::sync::execution_chain::{
    account_blocks, all_walkable, by_initial_state, execution_order, final_of, first_start, follow,
    init_of, is_start, key_of, lemma_account_blocks, lemma_by_initial_state, lemma_first_start,
    lemma_follow, lemma_members, lemma_select, lemma_starting, lemma_weave_all, lists_account_blocks, members,
    members_upto, nullifiers_in, nullifiers_over, occurs, reached, select, starting, walkable, weave,
};
use crate::types::{AccountBlock, Nullifier, Word};

verus! {

// CHAINS
// ================================================================================================
/// The transaction changes the state of its account.
pub open spec fn changes(records: Seq<TransactionRecord>, tx: usize) -> bool {
    !records[tx as int].transaction_header.keeps_state()
}

/// Each transaction starts from the state the one before it led to.
pub open spec fn links(records: Seq<TransactionRecord>, txs: Seq<usize>) -> bool {
    forall|i: int|
        0 <= i < txs.len() - 1 ==> final_of(records, #[trigger] txs[i]) == init_of(
            records,
            txs[i + 1],
        )
}

/// The transactions were executed one after the other: each starts from the state the one before it
/// led to, and no state is left twice, nor is the first one entered again.
pub open spec fn is_chain(records: Seq<TransactionRecord>, chain: Seq<usize>) -> bool {
    &&& links(records, chain)
    &&& forall|i: int, j: int|
        0 <= i < j < chain.len() && changes(records, #[trigger] chain[i]) && changes(
            records,
            #[trigger] chain[j],
        ) ==> init_of(records, chain[i]) != init_of(records, chain[j])
    &&& forall|i: int|
        0 <= i < chain.len() && changes(records, #[trigger] chain[i]) ==> final_of(
            records,
            chain[i],
        ) != init_of(records, chain[0])
}

/// `path` is a run of transactions that change the state: each starts where the one before it
/// ended, no two start from the same state, and none returns to the state the first starts from.
pub open spec fn is_path(records: Seq<TransactionRecord>, path: Seq<usize>) -> bool {
    &&& forall|i: int|
        0 <= i < path.len() ==> !records[(#[trigger] path[i]) as int].transaction_header.keeps_state()
    &&& forall|i: int|
        0 <= i < path.len() - 1 ==> final_of(records, #[trigger] path[i]) == init_of(
            records,
            path[i + 1],
        )
    &&& forall|i: int, j: int|
        0 <= i < j < path.len() ==> init_of(records, #[trigger] path[i]) != init_of(
            records,
            #[trigger] path[j],
        )
    &&& path.len() > 0 ==> !reached(records, path, init_of(records, path[0]))
}

/// Following a map that holds just the rest of a path runs through that rest.
proof fn lemma_follow_path(
    records: Seq<TransactionRecord>,
    next: Map<Word, usize>,
    path: Seq<usize>,
    k: int,
    state: Word,
)
    requires
        next.dom().finite(),
        is_path(records, path),
        0 <= k <= path.len(),
        k < path.len() ==> state == init_of(records, path[k]),
        forall|i: int|
            k <= i < path.len() ==> next.contains_key(init_of(records, #[trigger] path[i]))
                && next[init_of(records, path[i])] == path[i],
        forall|s: Word| #[trigger]
            next.contains_key(s) ==> exists|i: int|
                k <= i < path.len() && init_of(records, #[trigger] path[i]) == s,
    ensures
        follow(records, next, state) == path.skip(k),
    decreases path.len() - k,
{
    if k < path.len() {
        let rest = next.remove(state);
        let after = final_of(records, path[k]);
        assert forall|i: int| k + 1 <= i < path.len() implies rest.contains_key(
            init_of(records, #[trigger] path[i]),
        ) && rest[init_of(records, path[i])] == path[i] by {
            assert(init_of(records, path[k]) != init_of(records, path[i]));
        }
        assert forall|s: Word| #[trigger] rest.contains_key(s) implies exists|i: int|
            k + 1 <= i < path.len() && init_of(records, #[trigger] path[i]) == s by {
            assert(next.contains_key(s));
            let i = choose|i: int|
                k <= i < path.len() && init_of(records, #[trigger] path[i]) == s;
            assert(i != k);
        }
        lemma_follow_path(records, rest, path, k + 1, after);
        assert(next.contains_key(state) && next[state] == path[k]);
        assert(path.skip(k) =~= seq![path[k]] + path.skip(k + 1));
    } else {
        assert(path.skip(k) =~= Seq::<usize>::empty());
        if next.contains_key(state) {
            let i = choose|i: int|
                k <= i < path.len() && init_of(records, #[trigger] path[i]) == state;
            assert(false);
        }
    }
}

/// A walk through the transactions of a path, in whatever order they are given, is the path.
proof fn lemma_walk_of_path(records: Seq<TransactionRecord>, txs: Seq<usize>, path: Seq<usize>)
    requires
        is_path(records, path),
        path.len() > 0,
        forall|tx: usize| #[trigger]
            select(records, txs, false).contains(tx) <==> path.contains(tx),
    ensures
        walkable(records, txs),
        select(records, txs, false).len() > 0,
        ({
            let chained = select(records, txs, false);
            let state = init_of(records, chained[first_start(records, chained)]);
            &&& state == init_of(records, path[0])
            &&& follow(records, by_initial_state(records, chained), state) == path
        }),
{
    let chained = select(records, txs, false);
    lemma_select(records, txs, false);
    lemma_by_initial_state(records, chained);
    let next = by_initial_state(records, chained);
    assert(path.contains(path[0]));
    assert(chained.contains(path[0]));
    let at = choose|at: int| 0 <= at < chained.len() && chained[at] == path[0];
    assert forall|j: int| 0 <= j < chained.len() implies final_of(
        records,
        #[trigger] chained[j],
    ) != init_of(records, path[0]) by {
        assert(chained.contains(chained[j]));
        assert(path.contains(chained[j]));
        let k = choose|k: int| 0 <= k < path.len() && path[k] == chained[j];
        assert(final_of(records, path[k]) == final_of(records, chained[j]));
    }
    assert(is_start(records, chained, at));
    lemma_first_start(records, chained, at);
    let first = first_start(records, chained);
    assert(chained.contains(chained[first]));
    assert(path.contains(chained[first]));
    let k = choose|k: int| 0 <= k < path.len() && path[k] == chained[first];
    if k > 0 {
        assert(path.contains(path[k - 1]));
        assert(chained.contains(path[k - 1]));
        let j = choose|j: int| 0 <= j < chained.len() && chained[j] == path[k - 1];
        assert(final_of(records, path[k - 1]) == init_of(records, path[k - 1 + 1]));
        assert(reached(records, chained, init_of(records, chained[first])));
        assert(false);
    }
    assert forall|i: int| 0 <= i < path.len() implies next.contains_key(
        init_of(records, #[trigger] path[i]),
    ) && next[init_of(records, path[i])] == path[i] by {
        assert(path.contains(path[i]));
        assert(chained.contains(path[i]));
        let j = choose|j: int| 0 <= j < chained.len() && chained[j] == path[i];
        assert(next.contains_key(init_of(records, chained[j])));
        let tx = next[init_of(records, path[i])];
        assert(chained.contains(tx));
        assert(path.contains(tx));
        let m = choose|m: int| 0 <= m < path.len() && path[m] == tx;
        if m < i {
            assert(init_of(records, path[m]) != init_of(records, path[i]));
        } else if i < m {
            assert(init_of(records, path[i]) != init_of(records, path[m]));
        }
    }
    assert forall|s: Word| #[trigger] next.contains_key(s) implies exists|i: int|
        0 <= i < path.len() && init_of(records, #[trigger] path[i]) == s by {
        assert(chained.contains(next[s]));
        assert(path.contains(next[s]));
        let m = choose|m: int| 0 <= m < path.len() && path[m] == next[s];
        assert(init_of(records, path[m]) == s);
    }
    lemma_follow_path(records, next, path, 0, init_of(records, path[0]));
    assert(path.skip(0) =~= path);
}

/// A path goes on with a transaction that starts where it ended, from a state it was not in before.
proof fn lemma_path_push(records: Seq<TransactionRecord>, path: Seq<usize>, tx: usize)
    requires
        is_path(records, path),
        changes(records, tx),
        path.len() > 0 ==> final_of(records, path.last()) == init_of(records, tx),
        forall|i: int|
            0 <= i < path.len() ==> init_of(records, #[trigger] path[i]) != init_of(records, tx),
        final_of(records, tx) != init_of(records, path.push(tx)[0]),
    ensures
        is_path(records, path.push(tx)),
{
    let longer = path.push(tx);
    assert forall|i: int| 0 <= i < longer.len() - 1 implies final_of(records, #[trigger] longer[i])
        == init_of(records, longer[i + 1]) by {
        assert(longer[i] == path[i]);
        if i < path.len() - 1 {
            assert(longer[i + 1] == path[i + 1]);
        }
    }
    if reached(records, longer, init_of(records, longer[0])) {
        let j = choose|j: int|
            0 <= j < longer.len() && final_of(records, #[trigger] longer[j]) == init_of(
                records,
                longer[0],
            );
        assert(longer[j] == path[j]);
        assert(reached(records, path, init_of(records, path[0])));
    }
}

/// The transactions of a chain that change the state are a path, which is in every state that the
/// chain is in.
proof fn lemma_path_of_chain(records: Seq<TransactionRecord>, chain: Seq<usize>)
    requires
        is_chain(records, chain),
    ensures
        ({
            let path = select(records, chain, false);
            &&& is_path(records, path)
            &&& path.len() > 0 ==> init_of(records, path[0]) == init_of(records, chain[0])
                && final_of(records, path.last()) == final_of(records, chain.last())
            &&& path.len() == 0 && chain.len() > 0 ==> final_of(records, chain.last()) == init_of(
                records,
                chain[0],
            )
            &&& forall|k: int|
                0 <= k < chain.len() ==> init_of(records, #[trigger] chain[k]) == init_of(
                    records,
                    chain[0],
                ) || reached(records, path, init_of(records, chain[k]))
        }),
    decreases chain.len(),
{
    let path = select(records, chain, false);
    if chain.len() > 0 {
        let rest = chain.drop_last();
        let last = chain.last();
        let n = chain.len() - 1;
        assert forall|i: int| 0 <= i < rest.len() - 1 implies final_of(records, #[trigger] rest[i])
            == init_of(records, rest[i + 1]) by {
            assert(chain[i] == rest[i] && chain[i + 1] == rest[i + 1]);
        }
        assert(is_chain(records, rest));
        lemma_path_of_chain(records, rest);
        lemma_select(records, rest, false);
        let before = select(records, rest, false);
        if n > 0 {
            assert(final_of(records, chain[n - 1]) == init_of(records, chain[n - 1 + 1]));
            assert(rest.last() == chain[n - 1]);
        }
        if changes(records, last) {
            assert(path =~= before.push(last));
            if before.len() > 0 {
                assert(path[0] == before[0]);
            }
            assert forall|i: int| 0 <= i < before.len() implies init_of(
                records,
                #[trigger] before[i],
            ) != init_of(records, last) by {
                assert(rest.contains(before[i]));
                let k = choose|k: int| 0 <= k < rest.len() && rest[k] == before[i];
                assert(chain[k] == before[i] && chain[n] == last);
                assert(changes(records, chain[k]) && changes(records, chain[n]));
            }
            assert(changes(records, chain[n]));
            lemma_path_push(records, before, last);
        } else {
            assert(path =~= before);
        }
        assert forall|k: int| 0 <= k < chain.len() implies init_of(records, #[trigger] chain[k])
            == init_of(records, chain[0]) || reached(
            records,
            path,
            init_of(records, chain[k]),
        ) by {
            let at: int = if k < n {
                k
            } else {
                n - 1
            };
            if n > 0 {
                assert(rest[at] == chain[at]);
                let state = init_of(records, rest[at]);
                if reached(records, before, state) {
                    let j = choose|j: int|
                        0 <= j < before.len() && final_of(records, #[trigger] before[j]) == state;
                    assert(path[j] == before[j]);
                    assert(reached(records, path, state));
                }
                if k == n && changes(records, rest[at]) {
                    assert(rest.contains(rest[at]));
                    assert(before.contains(rest[at]));
                    let j = choose|j: int| 0 <= j < before.len() && before[j] == rest[at];
                    assert(path[j] == rest[at]);
                    assert(reached(records, path, final_of(records, path[j])));
                }
            }
        }
    }
}

/// Selecting keeps each transaction as often as it occurs, or drops it.
proof fn lemma_select_count(records: Seq<TransactionRecord>, txs: Seq<usize>, keeps_state: bool)
    ensures
        forall|tx: usize| #[trigger]
            select(records, txs, keeps_state).to_multiset().count(tx) == if changes(records, tx)
                != keeps_state {
                txs.to_multiset().count(tx)
            } else {
                0
            },
    decreases txs.len(),
{
    broadcast use vstd::seq_lib::group_to_multiset_ensures;
    broadcast use vstd::multiset::group_multiset_axioms;

    if txs.len() > 0 {
        let rest = txs.drop_last();
        lemma_select_count(records, rest, keeps_state);
        assert(txs =~= rest.push(txs.last()));
        assert forall|tx: usize| #[trigger]
            select(records, txs, keeps_state).to_multiset().count(tx) == if changes(records, tx)
                != keeps_state {
                txs.to_multiset().count(tx)
            } else {
                0
            } by {
            assert(txs.to_multiset() == rest.to_multiset().insert(txs.last()));
            let selected = select(records, rest, keeps_state);
            assert(selected.to_multiset().count(tx) == if changes(records, tx) != keeps_state {
                rest.to_multiset().count(tx)
            } else {
                0
            });
            if changes(records, txs.last()) != keeps_state {
                assert(select(records, txs, keeps_state) == selected.push(txs.last()));
                assert(selected.push(txs.last()).to_multiset() == selected.to_multiset().insert(
                    txs.last(),
                ));
            }
        }
    } else {
        assert(select(records, txs, keeps_state) =~= txs);
        assert forall|tx: usize| txs.to_multiset().count(tx) == 0 by {
            assert(!txs.contains(tx));
        }
    }
}

/// Sequences that hold the same, in whatever order, contain the same.
proof fn lemma_same_members<T>(a: Seq<T>, b: Seq<T>)
    requires
        a.to_multiset() == b.to_multiset(),
    ensures
        a.len() == b.len(),
        forall|x: T| #[trigger] a.contains(x) <==> b.contains(x),
{
    a.to_multiset_ensures();
    b.to_multiset_ensures();
    assert forall|x: T| #[trigger] a.contains(x) <==> b.contains(x) by {
        assert(a.contains(x) <==> a.to_multiset().count(x) > 0);
        assert(b.contains(x) <==> b.to_multiset().count(x) > 0);
    }
}

/// Two runs of transactions link if the second starts where the first ends.
proof fn lemma_links_concat(records: Seq<TransactionRecord>, a: Seq<usize>, b: Seq<usize>)
    requires
        links(records, a),
        links(records, b),
        a.len() > 0 && b.len() > 0 ==> final_of(records, a.last()) == init_of(records, b[0]),
    ensures
        links(records, a + b),
{
    let all = a + b;
    assert forall|i: int| 0 <= i < all.len() - 1 implies final_of(records, #[trigger] all[i])
        == init_of(records, all[i + 1]) by {
        if i + 1 < a.len() {
            assert(all[i] == a[i] && all[i + 1] == a[i + 1]);
        } else if i < a.len() {
            assert(all[i] == a.last() && all[i + 1] == b[0]);
        } else {
            let k = i - a.len();
            assert(all[i] == b[k] && all[i + 1] == b[k + 1]);
        }
    }
}

/// If the walk is in each of the states that are kept, all links.
proof fn lemma_weave_links(
    records: Seq<TransactionRecord>,
    walk: Seq<usize>,
    state: Word,
    keeping: Seq<usize>,
)
    requires
        links(records, walk),
        walk.len() > 0 ==> init_of(records, walk[0]) == state,
        forall|k: int| 0 <= k < keeping.len() ==> !changes(records, #[trigger] keeping[k]),
        forall|k: int|
            0 <= k < keeping.len() ==> init_of(records, #[trigger] keeping[k]) == state || reached(
                records,
                walk,
                init_of(records, keeping[k]),
            ),
    ensures
        ({
            let order = weave(records, walk, state, keeping);
            &&& links(records, order)
            &&& order.len() > 0 ==> init_of(records, order[0]) == state
            &&& order.len() > 0 ==> final_of(records, order.last()) == if walk.len() == 0 {
                state
            } else {
                final_of(records, walk.last())
            }
        }),
    decreases walk.len(),
{
    let order = weave(records, walk, state, keeping);
    let here = starting(records, keeping, state, true);
    let elsewhere = starting(records, keeping, state, false);
    lemma_starting(records, keeping, state);
    assert forall|i: int| 0 <= i < here.len() implies init_of(records, #[trigger] here[i]) == state
        && final_of(records, here[i]) == state by {
        let k = choose|k: int| 0 <= k < keeping.len() && keeping[k] == here[i];
        assert(!changes(records, keeping[k]));
    }
    assert(links(records, here));
    if walk.len() == 0 {
        if elsewhere.len() > 0 {
            assert(keeping.contains(elsewhere[0]));
            let k = choose|k: int| 0 <= k < keeping.len() && keeping[k] == elsewhere[0];
            assert(init_of(records, keeping[k]) != state);
        }
        assert(order =~= here);
    } else {
        let rest = walk.skip(1);
        let next = final_of(records, walk[0]);
        assert forall|i: int| 0 <= i < rest.len() - 1 implies final_of(records, #[trigger] rest[i])
            == init_of(records, rest[i + 1]) by {
            assert(rest[i] == walk[i + 1] && rest[i + 1] == walk[i + 1 + 1]);
        }
        if rest.len() > 0 {
            assert(final_of(records, walk[0]) == init_of(records, walk[0int + 1]));
        }
        assert forall|i: int| 0 <= i < elsewhere.len() implies !changes(
            records,
            #[trigger] elsewhere[i],
        ) && (init_of(records, elsewhere[i]) == next || reached(
            records,
            rest,
            init_of(records, elsewhere[i]),
        )) by {
            let k = choose|k: int| 0 <= k < keeping.len() && keeping[k] == elsewhere[i];
            assert(!changes(records, keeping[k]));
            let at = init_of(records, keeping[k]);
            assert(reached(records, walk, at));
            let j = choose|j: int| 0 <= j < walk.len() && final_of(records, #[trigger] walk[j]) == at;
            if j > 0 {
                assert(rest[j - 1] == walk[j]);
                assert(reached(records, rest, at));
            }
        }
        lemma_weave_links(records, rest, next, elsewhere);
        let tail = weave(records, rest, next, elsewhere);
        let first = seq![walk[0]];
        lemma_links_concat(records, first, tail);
        lemma_links_concat(records, here, first + tail);
        assert(order =~= here + (first + tail));
        assert(order[0] == if here.len() > 0 {
            here[0]
        } else {
            walk[0]
        });
        if tail.len() > 0 {
            assert(order.last() == tail.last());
            if rest.len() > 0 {
                assert(rest.last() == walk.last());
            }
        } else {
            lemma_weave_all(records, rest, next, elsewhere);
            assert(rest.len() == 0) by {
                broadcast use vstd::seq_lib::group_to_multiset_ensures;
                broadcast use vstd::multiset::group_multiset_axioms;

                assert(tail.to_multiset().len() == 0);
            }
            assert(order.last() == walk[0]);
            assert(walk.last() == walk[0]);
        }
    }
}

// LAWS
// ================================================================================================
/// If the transactions of a block were executed one after the other, the order of execution names each
/// of them once, in whatever order they were reported. Each starts from the state the one before it
/// led to, and the last one leads to the state in which the account is left.
pub proof fn law_chain_is_recovered(
    records: Seq<TransactionRecord>,
    txs: Seq<usize>,
    chain: Seq<usize>,
)
    requires
        is_chain(records, chain),
        txs.to_multiset() == chain.to_multiset(),
    ensures
        walkable(records, txs),
        execution_order(records, txs).to_multiset() == txs.to_multiset(),
        links(records, execution_order(records, txs)),
        chain.len() > 0 ==> {
            let order = execution_order(records, txs);
            &&& order.len() > 0
            &&& init_of(records, order[0]) == init_of(records, chain[0])
            &&& final_of(records, order.last()) == final_of(records, chain.last())
        },
{
    let order = execution_order(records, txs);
    let chained = select(records, txs, false);
    let keeping = select(records, txs, true);
    let path = select(records, chain, false);
    lemma_select(records, txs, false);
    lemma_select(records, txs, true);
    lemma_select(records, chain, false);
    lemma_select_count(records, txs, false);
    lemma_select_count(records, txs, true);
    lemma_select_count(records, chain, false);
    lemma_path_of_chain(records, chain);
    assert(chained.to_multiset() =~= path.to_multiset());
    lemma_same_members(chained, path);
    lemma_same_members(txs, chain);
    assert forall|k: int| 0 <= k < keeping.len() implies !changes(records, #[trigger] keeping[k])
        && (init_of(records, keeping[k]) == init_of(records, chain[0]) || reached(
        records,
        path,
        init_of(records, keeping[k]),
    )) by {
        assert(txs.contains(keeping[k]));
        assert(chain.contains(keeping[k]));
        let j = choose|j: int| 0 <= j < chain.len() && chain[j] == keeping[k];
        assert(init_of(records, chain[j]) == init_of(records, keeping[k]));
    }
    assert(chained.to_multiset().add(keeping.to_multiset()) =~= txs.to_multiset());
    if path.len() == 0 {
        if chained.len() > 0 {
            assert(chained.contains(chained[0]));
        }
        assert(order =~= keeping);
        assert(chained.to_multiset() =~= Multiset::empty()) by {
            broadcast use vstd::seq_lib::group_to_multiset_ensures;

        }
        assert(order.to_multiset() =~= txs.to_multiset());
        assert forall|i: int| 0 <= i < order.len() implies init_of(records, #[trigger] order[i])
            == init_of(records, chain[0]) && final_of(records, order[i]) == init_of(
            records,
            chain[0],
        ) by {
            assert(!reached(records, path, init_of(records, keeping[i])));
            assert(!changes(records, keeping[i]));
        }
    } else {
        lemma_walk_of_path(records, txs, path);
        let state = init_of(records, path[0]);
        lemma_weave_all(records, path, state, keeping);
        lemma_weave_links(records, path, state, keeping);
    }
    lemma_same_members(order, chain);
}

/// If each of the transactions changes the state, their order of execution is the only one there is.
pub proof fn law_chain_is_unique(
    records: Seq<TransactionRecord>,
    txs: Seq<usize>,
    chain: Seq<usize>,
)
    requires
        is_chain(records, chain),
        txs.to_multiset() == chain.to_multiset(),
        forall|i: int| 0 <= i < chain.len() ==> changes(records, #[trigger] chain[i]),
    ensures
        execution_order(records, txs) == chain,
{
    let order = execution_order(records, txs);
    let chained = select(records, txs, false);
    let keeping = select(records, txs, true);
    let path = select(records, chain, false);
    lemma_select(records, txs, false);
    lemma_select(records, txs, true);
    lemma_all_selected(records, chain);
    lemma_path_of_chain(records, chain);
    lemma_same_members(txs, chain);
    assert forall|tx: usize| #[trigger] chained.contains(tx) <==> path.contains(tx) by {
        assert(txs.contains(tx) <==> chain.contains(tx));
        if chain.contains(tx) {
            let k = choose|k: int| 0 <= k < chain.len() && chain[k] == tx;
            assert(changes(records, chain[k]));
        }
        if chained.contains(tx) {
            let k = choose|k: int| 0 <= k < chained.len() && chained[k] == tx;
            assert(txs.contains(chained[k]));
        }
    }
    if keeping.len() > 0 {
        assert(txs.contains(keeping[0]));
        assert(chain.contains(keeping[0]));
        let k = choose|k: int| 0 <= k < chain.len() && chain[k] == keeping[0];
        assert(changes(records, chain[k]));
    }
    assert(keeping =~= Seq::<usize>::empty());
    if chain.len() == 0 {
        if chained.len() > 0 {
            assert(chained.contains(chained[0]));
        }
        assert(order =~= chain);
    } else {
        lemma_walk_of_path(records, txs, path);
        lemma_weave_none(records, path, init_of(records, path[0]));
    }
}

/// If each of the transactions changes the state, all of them are selected.
proof fn lemma_all_selected(records: Seq<TransactionRecord>, txs: Seq<usize>)
    requires
        forall|i: int| 0 <= i < txs.len() ==> changes(records, #[trigger] txs[i]),
    ensures
        select(records, txs, false) == txs,
    decreases txs.len(),
{
    if txs.len() > 0 {
        let rest = txs.drop_last();
        assert forall|i: int| 0 <= i < rest.len() implies changes(records, #[trigger] rest[i]) by {
            assert(rest[i] == txs[i]);
        }
        lemma_all_selected(records, rest);
        assert(changes(records, txs[txs.len() - 1]));
        assert(select(records, txs, false) =~= txs);
    } else {
        assert(select(records, txs, false) =~= txs);
    }
}

/// Weaving nothing into a walk leaves it as it is.
proof fn lemma_weave_none(records: Seq<TransactionRecord>, walk: Seq<usize>, state: Word)
    ensures
        weave(records, walk, state, Seq::empty()) == walk,
    decreases walk.len(),
{
    let none = Seq::<usize>::empty();
    assert(starting(records, none, state, true) =~= none);
    assert(starting(records, none, state, false) =~= none);
    if walk.len() > 0 {
        lemma_weave_none(records, walk.skip(1), final_of(records, walk[0]));
    }
    assert(weave(records, walk, state, none) =~= walk);
}

/// Whatever is reported, the order of execution names only transactions it was given, and none of them
/// twice.
pub proof fn law_execution_order_selects(records: Seq<TransactionRecord>, txs: Seq<usize>)
    requires
        walkable(records, txs),
        txs.no_duplicates(),
    ensures
        execution_order(records, txs).no_duplicates(),
        forall|i: int|
            0 <= i < execution_order(records, txs).len() ==> txs.contains(
                #[trigger] execution_order(records, txs)[i],
            ),
{
    let chained = select(records, txs, false);
    let keeping = select(records, txs, true);
    lemma_select(records, txs, true);
    lemma_select(records, txs, false);
    let order = execution_order(records, txs);
    if chained.len() == 0 {
        assert(order =~= keeping);
    } else {
        lemma_by_initial_state(records, chained);
        let next = by_initial_state(records, chained);
        let state = init_of(records, chained[first_start(records, chained)]);
        lemma_follow(records, next, state);
        let walk = follow(records, next, state);
        lemma_weave_all(records, walk, state, keeping);
        walk.to_multiset_ensures();
        keeping.to_multiset_ensures();
        order.to_multiset_ensures();
        walk.lemma_multiset_has_no_duplicates();
        keeping.lemma_multiset_has_no_duplicates();
        assert forall|tx: usize| walk.contains(tx) implies chained.contains(tx) && txs.contains(tx)
            && changes(records, tx) by {
            let i = choose|i: int| 0 <= i < walk.len() && walk[i] == tx;
            assert(next.contains_key(init_of(records, walk[i])));
            let k = choose|k: int| 0 <= k < chained.len() && chained[k] == tx;
            assert(txs.contains(chained[k]));
        }
        assert forall|tx: usize| keeping.contains(tx) implies txs.contains(tx) && !changes(
            records,
            tx,
        ) by {
            let k = choose|k: int| 0 <= k < keeping.len() && keeping[k] == tx;
            assert(txs.contains(keeping[k]));
        }
        assert forall|tx: usize| order.to_multiset().contains(tx) implies order.to_multiset().count(
            tx,
        ) == 1 by {
            assert(walk.contains(tx) <==> walk.to_multiset().count(tx) > 0);
            assert(keeping.contains(tx) <==> keeping.to_multiset().count(tx) > 0);
        }
        order.lemma_multiset_has_no_duplicates_conv();
        assert forall|i: int| 0 <= i < order.len() implies txs.contains(#[trigger] order[i]) by {
            let tx = order[i];
            assert(order.contains(tx));
            assert(order.to_multiset().count(tx) > 0);
            assert(walk.contains(tx) <==> walk.to_multiset().count(tx) > 0);
            assert(keeping.contains(tx) <==> keeping.to_multiset().count(tx) > 0);
        }
    }
}

// ORDERED NULLIFIERS
// ================================================================================================
/// The transactions of each account in each block were executed one after the other.
pub open spec fn all_chains(records: Seq<TransactionRecord>) -> bool {
    forall|key: AccountBlock| #[trigger]
        occurs(records, key) ==> exists|chain: Seq<usize>|
            #![trigger is_chain(records, chain)]
            is_chain(records, chain) && chain.to_multiset() == members(records, key).to_multiset()
}

/// Each of the records changes the state of its account.
pub open spec fn all_change(records: Seq<TransactionRecord>) -> bool {
    forall|i: int|
        0 <= i < records.len() ==> !(#[trigger] records[i]).transaction_header.keeps_state()
}

/// The nullifiers of the notes that a transaction consumed.
pub open spec fn consumed_by(records: Seq<TransactionRecord>, tx: int) -> Multiset<Nullifier> {
    records[tx].transaction_header.input_nullifiers@.to_multiset()
}

/// The nullifiers of all notes that the first `n` records consumed.
pub open spec fn consumed_upto(records: Seq<TransactionRecord>, n: int) -> Multiset<Nullifier>
    decreases n,
{
    if n <= 0 {
        Multiset::empty()
    } else {
        consumed_upto(records, n - 1).add(consumed_by(records, n - 1))
    }
}

/// The nullifiers of all notes that the transactions consumed.
spec fn consumed_in(records: Seq<TransactionRecord>, txs: Seq<usize>) -> Multiset<Nullifier>
    decreases txs.len(),
{
    if txs.len() == 0 {
        Multiset::empty()
    } else {
        consumed_in(records, txs.drop_last()).add(consumed_by(records, txs.last() as int))
    }
}

/// The nullifiers of all notes that the first `n` records of the groups of `keys` consumed.
spec fn consumed_over(records: Seq<TransactionRecord>, keys: Seq<AccountBlock>, n: int) -> Multiset<
    Nullifier,
>
    decreases keys.len(),
{
    if keys.len() == 0 {
        Multiset::empty()
    } else {
        consumed_over(records, keys.drop_last(), n).add(
            consumed_in(records, members_upto(records, keys.last(), n)),
        )
    }
}

/// The nullifiers of transactions, in their order, are all there are.
proof fn lemma_consumed_in(records: Seq<TransactionRecord>, order: Seq<usize>)
    ensures
        nullifiers_in(records, order).to_multiset() == consumed_in(records, order),
    decreases order.len(),
{
    if order.len() > 0 {
        lemma_consumed_in(records, order.drop_last());
        vstd::seq_lib::lemma_multiset_commutative(
            nullifiers_in(records, order.drop_last()),
            records[order.last() as int].transaction_header.input_nullifiers@,
        );
    } else {
        nullifiers_in(records, order).to_multiset_ensures();
        assert forall|x: Nullifier| nullifiers_in(records, order).to_multiset().count(x) == 0 by {
            assert(!nullifiers_in(records, order).contains(x));
        }
        assert(nullifiers_in(records, order).to_multiset() =~= Multiset::empty());
    }
}

/// Taking a transaction out takes its nullifiers out.
proof fn lemma_consumed_remove(records: Seq<TransactionRecord>, txs: Seq<usize>, i: int)
    requires
        0 <= i < txs.len(),
    ensures
        consumed_in(records, txs) == consumed_in(records, txs.remove(i)).add(
            consumed_by(records, txs[i] as int),
        ),
    decreases txs.len(),
{
    if i == txs.len() - 1 {
        assert(txs.remove(i) =~= txs.drop_last());
    } else {
        lemma_consumed_remove(records, txs.drop_last(), i);
        assert(txs.remove(i).drop_last() =~= txs.drop_last().remove(i));
        assert(txs.remove(i).last() == txs.last());
        assert(consumed_in(records, txs) =~= consumed_in(records, txs.remove(i)).add(
            consumed_by(records, txs[i] as int),
        ));
    }
}

/// Which nullifiers there are does not depend on the order of the transactions.
proof fn lemma_consumed_in_any_order(
    records: Seq<TransactionRecord>,
    a: Seq<usize>,
    b: Seq<usize>,
)
    requires
        a.to_multiset() == b.to_multiset(),
    ensures
        consumed_in(records, a) == consumed_in(records, b),
    decreases a.len(),
{
    lemma_same_members(a, b);
    if a.len() > 0 {
        let tx = a.last();
        assert(a[a.len() - 1] == tx);
        assert(a.contains(tx));
        assert(b.contains(tx));
        let j = choose|j: int| 0 <= j < b.len() && b[j] == tx;
        a.to_multiset_ensures();
        b.to_multiset_ensures();
        assert(a.remove(a.len() - 1) =~= a.drop_last());
        assert(b.remove(j).to_multiset() =~= b.to_multiset().remove(tx));
        lemma_consumed_in_any_order(records, a.drop_last(), b.remove(j));
        lemma_consumed_remove(records, b, j);
    }
}

/// One more record adds its nullifiers to those of its group, if the group is listed.
proof fn lemma_consumed_next(records: Seq<TransactionRecord>, keys: Seq<AccountBlock>, n: int)
    requires
        0 <= n < records.len() <= usize::MAX,
        keys.no_duplicates(),
    ensures
        consumed_over(records, keys, n + 1) == if keys.contains(key_of(records[n])) {
            consumed_over(records, keys, n).add(consumed_by(records, n))
        } else {
            consumed_over(records, keys, n)
        },
    decreases keys.len(),
{
    let key = key_of(records[n]);
    if keys.len() > 0 {
        let rest = keys.drop_last();
        let last = keys.last();
        lemma_consumed_next(records, rest, n);
        let before = members_upto(records, last, n);
        let after = members_upto(records, last, n + 1);
        if last == key {
            assert(keys[keys.len() - 1] == key);
            if rest.contains(key) {
                let i = choose|i: int| 0 <= i < rest.len() && rest[i] == key;
                assert(keys[i] == keys[keys.len() - 1]);
            }
            assert(after == before.push(n as usize));
            assert(after.drop_last() =~= before);
        } else {
            if keys.contains(key) {
                let i = choose|i: int| 0 <= i < keys.len() && keys[i] == key;
                assert(rest[i] == key);
            }
            if rest.contains(key) {
                let i = choose|i: int| 0 <= i < rest.len() && rest[i] == key;
                assert(keys[i] == key);
            }
        }
        assert(consumed_over(records, keys, n + 1) =~= if keys.contains(key) {
            consumed_over(records, keys, n).add(consumed_by(records, n))
        } else {
            consumed_over(records, keys, n)
        });
    }
}

/// The groups together consumed what the records consumed.
proof fn lemma_consumed_upto(records: Seq<TransactionRecord>, keys: Seq<AccountBlock>, n: int)
    requires
        0 <= n <= records.len() <= usize::MAX,
        lists_account_blocks(records, keys),
    ensures
        consumed_over(records, keys, n) == consumed_upto(records, n),
    decreases n,
{
    assert forall|i: int, j: int| 0 <= i < keys.len() && 0 <= j < keys.len() && i
        != j implies keys[i] != keys[j] by {
        if i < j {
            assert(keys[i].rank() < keys[j].rank());
        } else {
            assert(keys[j].rank() < keys[i].rank());
        }
    }
    if n > 0 {
        lemma_consumed_upto(records, keys, n - 1);
        lemma_consumed_next(records, keys, n - 1);
        assert(key_of(records[n - 1]) == key_of(records[n - 1]));
        assert(occurs(records, key_of(records[n - 1])));
        assert(keys.contains(key_of(records[n - 1])));
    } else {
        lemma_nothing_consumed(records, keys);
    }
}

/// No records consumed nothing.
proof fn lemma_nothing_consumed(records: Seq<TransactionRecord>, keys: Seq<AccountBlock>)
    ensures
        consumed_over(records, keys, 0) == Multiset::<Nullifier>::empty(),
    decreases keys.len(),
{
    if keys.len() > 0 {
        lemma_nothing_consumed(records, keys.drop_last());
        assert(consumed_over(records, keys, 0) =~= Multiset::<Nullifier>::empty());
    }
}

/// The ordered nullifiers of groups are all that the groups consumed.
proof fn lemma_ordered_over(records: Seq<TransactionRecord>, keys: Seq<AccountBlock>)
    requires
        all_chains(records),
        forall|i: int| 0 <= i < keys.len() ==> occurs(records, #[trigger] keys[i]),
    ensures
        nullifiers_over(records, keys).to_multiset() == consumed_over(
            records,
            keys,
            records.len() as int,
        ),
    decreases keys.len(),
{
    if keys.len() > 0 {
        let rest = keys.drop_last();
        let key = keys.last();
        assert forall|i: int| 0 <= i < rest.len() implies occurs(records, #[trigger] rest[i]) by {
            assert(rest[i] == keys[i]);
        }
        lemma_ordered_over(records, rest);
        assert(occurs(records, keys[keys.len() - 1]));
        let txs = members(records, key);
        let chain = choose|chain: Seq<usize>|
            #![trigger is_chain(records, chain)]
            is_chain(records, chain) && chain.to_multiset() == txs.to_multiset();
        law_chain_is_recovered(records, txs, chain);
        let order = execution_order(records, txs);
        lemma_consumed_in(records, order);
        lemma_consumed_in_any_order(records, order, txs);
        vstd::seq_lib::lemma_multiset_commutative(
            nullifiers_over(records, rest),
            nullifiers_in(records, order),
        );
    } else {
        let none = nullifiers_over(records, keys);
        none.to_multiset_ensures();
        assert forall|x: Nullifier| none.to_multiset().count(x) == 0 by {
            assert(!none.contains(x));
        }
        assert(none.to_multiset() =~= Multiset::empty());
    }
}

/// The ordered nullifiers hold every nullifier of the records, as often as it occurs there, and no
/// other.
pub proof fn law_no_nullifier_is_lost(records: Seq<TransactionRecord>)
    requires
        records.len() <= usize::MAX,
        all_chains(records),
    ensures
        all_walkable(records),
        nullifiers_over(records, account_blocks(records)).to_multiset() == consumed_upto(
            records,
            records.len() as int,
        ),
{
    lemma_chains_walkable(records);
    lemma_account_blocks_listed(records);
    let keys = account_blocks(records);
    assert forall|i: int| 0 <= i < keys.len() implies occurs(records, #[trigger] keys[i]) by {
        assert(keys.contains(keys[i]));
    }
    lemma_ordered_over(records, keys);
    lemma_consumed_upto(records, keys, records.len() as int);
}

/// Transactions that were executed one after the other can be walked.
proof fn lemma_chains_walkable(records: Seq<TransactionRecord>)
    requires
        all_chains(records),
    ensures
        all_walkable(records),
{
    assert forall|key: AccountBlock| #[trigger] occurs(records, key) implies walkable(
        records,
        members(records, key),
    ) by {
        let txs = members(records, key);
        let chain = choose|chain: Seq<usize>|
            #![trigger is_chain(records, chain)]
            is_chain(records, chain) && chain.to_multiset() == txs.to_multiset();
        law_chain_is_recovered(records, txs, chain);
    }
}

/// The list of a set holds nothing twice.
proof fn lemma_listed_once(set: Set<AccountBlock>)
    requires
        set.finite(),
    ensures
        set.to_seq().no_duplicates(),
    decreases set.len(),
{
    if set.len() > 0 {
        let first = set.choose();
        let rest = set.remove(first);
        lemma_listed_once(rest);
        rest.lemma_to_seq_to_set_id();
        let tail = rest.to_seq();
        let all = set.to_seq();
        assert forall|i: int| 0 <= i < tail.len() implies #[trigger] tail[i] != first by {
            assert(tail.to_set().contains(tail[i]));
            assert(rest.contains(tail[i]));
        }
    }
}

/// The accounts and blocks of any records can be listed.
proof fn lemma_account_blocks_listed(records: Seq<TransactionRecord>)
    ensures
        lists_account_blocks(records, account_blocks(records)),
{
    let leq = |a: AccountBlock, b: AccountBlock| a.rank() <= b.rank();
    assert(vstd::relations::total_ordering(leq)) by {
        assert forall|a: AccountBlock, b: AccountBlock| #[trigger] leq(a, b) && #[trigger] leq(
            b,
            a,
        ) implies a == b by {
            AccountBlock::rank_injective(a, b);
        }
    }
    let all = records.map_values(|record: TransactionRecord| key_of(record));
    let set = all.to_set();
    vstd::seq_lib::seq_to_set_is_finite(all);
    let distinct = set.to_seq();
    set.lemma_to_seq_to_set_id();
    lemma_listed_once(set);
    let keys = distinct.sort_by(leq);
    distinct.lemma_sort_by_ensures(leq);
    lemma_same_members(distinct, keys);
    distinct.lemma_multiset_has_no_duplicates();
    keys.lemma_multiset_has_no_duplicates_conv();
    assert forall|i: int, j: int| 0 <= i < j < keys.len() implies (#[trigger] keys[i]).rank() < (
    #[trigger] keys[j]).rank() by {
        assert(leq(keys[i], keys[j]));
        if keys[i].rank() == keys[j].rank() {
            AccountBlock::rank_injective(keys[i], keys[j]);
        }
    }
    assert forall|key: AccountBlock| #[trigger] keys.contains(key) <==> occurs(records, key) by {
        assert(distinct.contains(key) <==> keys.contains(key));
        assert(distinct.to_set().contains(key) <==> set.contains(key));
        if all.contains(key) {
            let i = choose|i: int| 0 <= i < all.len() && all[i] == key;
            assert(key_of(records[i]) == key);
        }
        if occurs(records, key) {
            let i = choose|i: int| 0 <= i < records.len() && key_of(#[trigger] records[i]) == key;
            assert(all[i] == key);
        }
    }
    assert(lists_account_blocks(records, keys));
    lemma_account_blocks(records, keys);
}

/// `moved` says where each record went: every place of `other` holds one of the records.
spec fn is_reordering(
    records: Seq<TransactionRecord>,
    other: Seq<TransactionRecord>,
    moved: Seq<int>,
) -> bool {
    &&& records.len() == other.len() == moved.len()
    &&& moved.no_duplicates()
    &&& forall|i: int|
        0 <= i < moved.len() ==> 0 <= (#[trigger] moved[i]) < other.len() && other[moved[i]]
            == records[i]
}

/// Records that are the same in another order were moved.
proof fn lemma_reordering(records: Seq<TransactionRecord>, other: Seq<TransactionRecord>) -> (moved:
    Seq<int>)
    requires
        records.to_multiset() == other.to_multiset(),
    ensures
        is_reordering(records, other, moved),
    decreases records.len(),
{
    lemma_same_members(records, other);
    if records.len() == 0 {
        Seq::empty()
    } else {
        let n = records.len() - 1;
        let last = records[n];
        assert(records.contains(last));
        assert(other.contains(last));
        let j = choose|j: int| 0 <= j < other.len() && other[j] == last;
        records.to_multiset_ensures();
        other.to_multiset_ensures();
        let rest = other.remove(j);
        assert(records.remove(n) =~= records.drop_last());
        assert(rest.to_multiset() =~= other.to_multiset().remove(last));
        let before = lemma_reordering(records.drop_last(), rest);
        let moved = Seq::new(
            records.len(),
            |i: int|
                if i == n {
                    j
                } else if before[i] < j {
                    before[i]
                } else {
                    before[i] + 1
                },
        );
        assert forall|i: int| 0 <= i < moved.len() implies 0 <= (#[trigger] moved[i]) < other.len()
            && other[moved[i]] == records[i] by {
            if i < n {
                assert(0 <= before[i] < rest.len() && rest[before[i]] == records.drop_last()[i]);
            }
        }
        assert forall|i: int, k: int| 0 <= i < moved.len() && 0 <= k < moved.len() && i
            != k implies moved[i] != moved[k] by {
            if i < n && k < n {
                assert(before[i] != before[k]);
            }
        }
        moved
    }
}

/// A chain stays one when the records are reordered, and consumes the same notes.
proof fn lemma_moved_chain(
    records: Seq<TransactionRecord>,
    other: Seq<TransactionRecord>,
    moved: Seq<int>,
    key: AccountBlock,
    chain: Seq<usize>,
) -> (there: Seq<usize>)
    requires
        records.len() <= usize::MAX,
        is_reordering(records, other, moved),
        is_chain(records, chain),
        chain.to_multiset() == members(records, key).to_multiset(),
        all_change(records),
    ensures
        is_chain(other, there),
        there.to_multiset() == members(other, key).to_multiset(),
        forall|i: int| 0 <= i < there.len() ==> changes(other, #[trigger] there[i]),
        nullifiers_in(other, there) == nullifiers_in(records, chain),
{
    let n = records.len() as int;
    let txs = members(records, key);
    let others = members(other, key);
    lemma_members(records, key, n);
    lemma_members(other, key, n);
    lemma_same_members(chain, txs);
    chain.to_multiset_ensures();
    txs.lemma_multiset_has_no_duplicates();
    chain.lemma_multiset_has_no_duplicates_conv();
    let there = Seq::new(chain.len(), |i: int| moved[chain[i] as int] as usize);
    assert forall|i: int| 0 <= i < chain.len() implies chain[i] < n && key_of(
        records[chain[i] as int],
    ) == key && other[(#[trigger] there[i]) as int] == records[chain[i] as int] && there[i] < n by {
        assert(chain.contains(chain[i]));
        let k = choose|k: int| 0 <= k < txs.len() && txs[k] == chain[i];
        assert(txs[k] < n);
        assert(0 <= moved[chain[i] as int] < n);
    }
    assert forall|i: int| 0 <= i < there.len() implies changes(other, #[trigger] there[i]) by {
        let at = chain[i] as int;
        assert(other[there[i] as int] == records[at]);
        assert(!records[at].transaction_header.keeps_state());
    }
    assert forall|i: int| 0 <= i < there.len() - 1 implies final_of(other, #[trigger] there[i])
        == init_of(other, there[i + 1]) by {
        assert(other[there[i] as int] == records[chain[i] as int]);
        assert(other[there[i + 1] as int] == records[chain[i + 1] as int]);
        assert(final_of(records, chain[i]) == init_of(records, chain[i + 1]));
    }
    assert(is_chain(other, there)) by {
        assert forall|i: int, j: int| 0 <= i < j < there.len() && changes(
            other,
            #[trigger] there[i],
        ) && changes(other, #[trigger] there[j]) implies init_of(other, there[i]) != init_of(
            other,
            there[j],
        ) by {
            assert(other[there[i] as int] == records[chain[i] as int]);
            assert(other[there[j] as int] == records[chain[j] as int]);
            assert(changes(records, chain[i]) && changes(records, chain[j]));
        }
        assert forall|i: int| 0 <= i < there.len() && changes(
            other,
            #[trigger] there[i],
        ) implies final_of(other, there[i]) != init_of(other, there[0]) by {
            assert(other[there[i] as int] == records[chain[i] as int]);
            assert(other[there[0] as int] == records[chain[0] as int]);
            assert(changes(records, chain[i]));
        }
    }
    assert(there.no_duplicates()) by {
        assert forall|i: int, j: int| 0 <= i < there.len() && 0 <= j < there.len() && i
            != j implies there[i] != there[j] by {
            assert(there[i] < n && there[j] < n);
            assert(chain[i] != chain[j]);
            assert(moved[chain[i] as int] != moved[chain[j] as int]);
        }
    }
    lemma_all_places(moved, n);
    assert forall|tx: usize| there.contains(tx) <==> #[trigger] others.contains(tx) by {
        lemma_member(other, key, n, tx);
        if there.contains(tx) {
            let i = choose|i: int| 0 <= i < there.len() && there[i] == tx;
            assert(other[there[i] as int] == records[chain[i] as int]);
        }
        if others.contains(tx) {
            assert(moved.contains(tx as int));
            let i = choose|i: int| 0 <= i < moved.len() && moved[i] == tx as int;
            assert(key_of(records[i]) == key);
            lemma_member(records, key, n, i as usize);
            assert(chain.contains(i as usize));
            let k = choose|k: int| 0 <= k < chain.len() && chain[k] == i as usize;
            assert(there[k] == tx);
        }
    }
    lemma_same_multiset(there, others);
    lemma_same_nullifiers(records, chain, other, there);
    there
}

/// A place among the first `n` is a member of the group of its record.
proof fn lemma_member(records: Seq<TransactionRecord>, key: AccountBlock, n: int, tx: usize)
    requires
        0 <= n <= records.len() <= usize::MAX,
    ensures
        members_upto(records, key, n).contains(tx) <==> tx < n && key_of(records[tx as int]) == key,
    decreases n,
{
    if n > 0 {
        lemma_member(records, key, n - 1, tx);
        let before = members_upto(records, key, n - 1);
        let after = members_upto(records, key, n);
        if before.contains(tx) {
            let i = choose|i: int| 0 <= i < before.len() && before[i] == tx;
            assert(after[i] == tx);
        }
        if key_of(records[n - 1]) == key {
            assert(after[after.len() - 1] == (n - 1) as usize);
            if after.contains(tx) {
                let i = choose|i: int| 0 <= i < after.len() && after[i] == tx;
                if i < before.len() {
                    assert(before[i] == tx);
                }
            }
        }
    }
}

/// Distinct places that are as many as there are places are all of them.
proof fn lemma_all_places(places: Seq<int>, n: int)
    requires
        places.len() == n,
        places.no_duplicates(),
        forall|i: int| 0 <= i < n ==> 0 <= (#[trigger] places[i]) < n,
    ensures
        forall|place: int| 0 <= place < n ==> #[trigger] places.contains(place),
{
    let all = vstd::set_lib::set_int_range(0, n);
    vstd::set_lib::lemma_int_range(0, n);
    places.unique_seq_to_set();
    vstd::seq_lib::seq_to_set_is_finite(places);
    assert(places.to_set().subset_of(all));
    vstd::set_lib::lemma_subset_equality(places.to_set(), all);
    assert forall|place: int| 0 <= place < n implies #[trigger] places.contains(place) by {
        assert(all.contains(place));
        assert(places.to_set().contains(place));
    }
}

/// Sequences without repeats that contain the same hold the same.
proof fn lemma_same_multiset(a: Seq<usize>, b: Seq<usize>)
    requires
        a.no_duplicates(),
        b.no_duplicates(),
        forall|tx: usize| a.contains(tx) <==> #[trigger] b.contains(tx),
    ensures
        a.to_multiset() == b.to_multiset(),
{
    a.to_multiset_ensures();
    b.to_multiset_ensures();
    a.lemma_multiset_has_no_duplicates();
    b.lemma_multiset_has_no_duplicates();
    assert forall|tx: usize| a.to_multiset().count(tx) == b.to_multiset().count(tx) by {
        assert(a.contains(tx) <==> a.to_multiset().count(tx) > 0);
        assert(b.contains(tx) <==> b.to_multiset().count(tx) > 0);
    }
    assert(a.to_multiset() =~= b.to_multiset());
}

/// Transactions with the same records consume the same notes.
proof fn lemma_same_nullifiers(
    records: Seq<TransactionRecord>,
    a: Seq<usize>,
    other: Seq<TransactionRecord>,
    b: Seq<usize>,
)
    requires
        a.len() == b.len(),
        forall|i: int|
            0 <= i < a.len() ==> other[(#[trigger] b[i]) as int] == records[a[i] as int],
    ensures
        nullifiers_in(other, b) == nullifiers_in(records, a),
    decreases a.len(),
{
    if a.len() > 0 {
        assert forall|i: int| 0 <= i < a.len() - 1 implies other[(
        #[trigger] b.drop_last()[i]) as int] == records[a.drop_last()[i] as int] by {
            assert(b[i] == b.drop_last()[i]);
        }
        lemma_same_nullifiers(records, a.drop_last(), other, b.drop_last());
        assert(other[b[b.len() - 1] as int] == records[a[a.len() - 1] as int]);
    }
}

/// The nullifiers of the same groups are the same, in whatever order the records are.
proof fn lemma_reordered_over(
    records: Seq<TransactionRecord>,
    other: Seq<TransactionRecord>,
    moved: Seq<int>,
    keys: Seq<AccountBlock>,
)
    requires
        records.len() <= usize::MAX,
        is_reordering(records, other, moved),
        all_chains(records),
        all_change(records),
        forall|i: int| 0 <= i < keys.len() ==> occurs(records, #[trigger] keys[i]),
    ensures
        nullifiers_over(other, keys) == nullifiers_over(records, keys),
    decreases keys.len(),
{
    if keys.len() > 0 {
        let rest = keys.drop_last();
        let key = keys.last();
        assert forall|i: int| 0 <= i < rest.len() implies occurs(records, #[trigger] rest[i]) by {
            assert(rest[i] == keys[i]);
        }
        lemma_reordered_over(records, other, moved, rest);
        assert(occurs(records, keys[keys.len() - 1]));
        let txs = members(records, key);
        let chain = choose|chain: Seq<usize>|
            #![trigger is_chain(records, chain)]
            is_chain(records, chain) && chain.to_multiset() == txs.to_multiset();
        lemma_members(records, key, records.len() as int);
        lemma_same_members(chain, txs);
        assert forall|i: int| 0 <= i < chain.len() implies changes(records, #[trigger] chain[i]) by {
            assert(chain.contains(chain[i]));
            let k = choose|k: int| 0 <= k < txs.len() && txs[k] == chain[i];
            assert(txs[k] < records.len());
            assert(!records[chain[i] as int].transaction_header.keeps_state());
        }
        law_chain_is_unique(records, txs, chain);
        let there = lemma_moved_chain(records, other, moved, key, chain);
        law_chain_is_unique(other, members(other, key), there);
    }
}

/// In whatever order a node reports transactions that change the states of their accounts, the
/// ordered nullifiers are the same.
pub proof fn law_nullifiers_ignore_report_order(
    records: Seq<TransactionRecord>,
    other: Seq<TransactionRecord>,
)
    requires
        records.len() <= usize::MAX,
        records.to_multiset() == other.to_multiset(),
        all_chains(records),
        all_change(records),
    ensures
        all_walkable(other),
        nullifiers_over(other, account_blocks(other)) == nullifiers_over(
            records,
            account_blocks(records),
        ),
{
    let moved = lemma_reordering(records, other);
    lemma_account_blocks_listed(records);
    let keys = account_blocks(records);
    lemma_same_members(records, other);
    assert forall|key: AccountBlock| #[trigger] occurs(other, key) == occurs(records, key) by {
        if occurs(records, key) {
            let i = choose|i: int| 0 <= i < records.len() && key_of(#[trigger] records[i]) == key;
            assert(records.contains(records[i]));
            assert(other.contains(records[i]));
            let j = choose|j: int| 0 <= j < other.len() && other[j] == records[i];
            assert(key_of(other[j]) == key);
        }
        if occurs(other, key) {
            let j = choose|j: int| 0 <= j < other.len() && key_of(#[trigger] other[j]) == key;
            assert(other.contains(other[j]));
            assert(records.contains(other[j]));
            let i = choose|i: int| 0 <= i < records.len() && records[i] == other[j];
            assert(key_of(records[i]) == key);
        }
    }
    assert forall|key: AccountBlock| #[trigger] keys.contains(key) <==> occurs(other, key) by {
        assert(occurs(other, key) == occurs(records, key));
    }
    assert(lists_account_blocks(other, keys));
    lemma_account_blocks(other, keys);
    assert forall|i: int| 0 <= i < keys.len() implies occurs(records, #[trigger] keys[i]) by {
        assert(keys.contains(keys[i]));
    }
    lemma_reordered_over(records, other, moved, keys);
    assert(all_chains(other)) by {
        assert forall|key: AccountBlock| #[trigger] occurs(other, key) implies exists|
            chain: Seq<usize>,
        |
            #![trigger is_chain(other, chain)]
            is_chain(other, chain) && chain.to_multiset() == members(other, key).to_multiset() by {
            assert(occurs(records, key));
            let chain = choose|chain: Seq<usize>|
                #![trigger is_chain(records, chain)]
                is_chain(records, chain) && chain.to_multiset() == members(
                    records,
                    key,
                ).to_multiset();
            let there = lemma_moved_chain(records, other, moved, key, chain);
            assert(is_chain(other, there));
        }
    }
    lemma_chains_walkable(other);
}

} // verus!
