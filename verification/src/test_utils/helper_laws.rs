//! What the helpers for tests decide, over all clients and errors.
use vstd::prelude::*;

use crate::account::AccountVisibility;
use crate::collections::{lemma_picks_next, lemma_picks_none, picks};
use crate::rpc::errors::node::{AddTransactionError, EndpointError};
use crate::rpc::errors::rpc_error::{GrpcError, RpcError};
use crate::test_utils::common::{
    check_clean_state, funded_of, stashed, unfunded_of, wait_for_tx, AccountKind, AccountSetup,
    AuthSchemeId, BlockWait, NotCleanError, NoteWait, StandardComponents, TransactionWait,
};
use crate::test_utils::fee::{
    chain_charges_fees, fund_if_needed, undeployed_of, FundingStep,
};
use crate::test_utils::submit_retry::{
    is_unknown_note_error, mentions, occurs_in_any, should_resubmit,
};
use crate::text::occurs_in;
use crate::transaction::TransactionStatus;
use crate::types::{AccountId, BlockHeader, BlockNumber};

verus! {

// FUNDING
// ================================================================================================
/// What was last stashed for an account is what is pending for it.
pub proof fn law_stashed<N>(pending: Map<AccountId, N>, funded: Seq<(AccountId, N)>, i: int)
    requires
        0 <= i < funded.len(),
        forall|j: int| i < j < funded.len() ==> (#[trigger] funded[j]).0 != funded[i].0,
    ensures
        stashed(pending, funded).contains_key(funded[i].0),
        stashed(pending, funded)[funded[i].0] == funded[i].1,
    decreases funded.len(),
{
    if i < funded.len() - 1 {
        assert(funded[funded.len() - 1].0 != funded[i].0);
        law_stashed(pending, funded.drop_last(), i);
    }
}

/// An account for which nothing was stashed keeps what is pending for it.
pub proof fn law_not_stashed<N>(
    pending: Map<AccountId, N>,
    funded: Seq<(AccountId, N)>,
    account_id: AccountId,
)
    requires
        forall|i: int| 0 <= i < funded.len() ==> (#[trigger] funded[i]).0 != account_id,
    ensures
        stashed(pending, funded).contains_key(account_id) == pending.contains_key(account_id),
        pending.contains_key(account_id) ==> stashed(pending, funded)[account_id]
            == pending[account_id],
    decreases funded.len(),
{
    if funded.len() > 0 {
        assert(funded[funded.len() - 1].0 != account_id);
        law_not_stashed(pending, funded.drop_last(), account_id);
    }
}

/// The account does not stand at any earlier place.
pub open spec fn stands_first(ids: Seq<AccountId>, i: int) -> bool {
    forall|j: int| 0 <= j < i ==> #[trigger] ids[j] != ids[i]
}

/// What is pending for an account is taken once, at the first place where the account stands, with what
/// was pending.
pub proof fn law_funded<N>(
    pending: Map<AccountId, N>,
    ids: Seq<AccountId>,
)
    ensures
        picks(
            funded_of(pending, ids),
            ids.len() as int,
            |i: int| pending.contains_key(ids[i]) && stands_first(ids, i),
            |i: int| (ids[i], pending[ids[i]]),
        ),
    decreases ids.len(),
{
    let wanted = |i: int| pending.contains_key(ids[i]) && stands_first(ids, i);
    let value = |i: int| (ids[i], pending[ids[i]]);
    if ids.len() == 0 {
        lemma_picks_none(wanted, value);
    } else {
        let ids_before = ids.drop_last();
        law_funded(pending, ids_before);
        let last = ids.len() - 1;
        assert(ids_before.contains(ids[last]) == !(forall|j: int|
            0 <= j < last ==> #[trigger] ids[j] != ids[last])) by {
            if ids_before.contains(ids[last]) {
                let k = choose|k: int| 0 <= k < ids_before.len() && ids_before[k] == ids[last];
                assert(ids[k] == ids[last]);
            }
            if !(forall|j: int| 0 <= j < last ==> #[trigger] ids[j] != ids[last]) {
                let j = choose|j: int| 0 <= j < last && #[trigger] ids[j] == ids[last];
                assert(ids_before[j] == ids[last]);
            }
        }
        assert forall|i: int| 0 <= i < last implies #[trigger] wanted(i) == (pending.contains_key(
            ids_before[i],
        ) && stands_first(ids_before, i)) by {
            assert(ids_before[i] == ids[i]);
            if forall|j: int| 0 <= j < i ==> #[trigger] ids[j] != ids[i] {
                assert forall|j: int| 0 <= j < i implies #[trigger] ids_before[j]
                    != ids_before[i] by {
                    assert(ids[j] != ids[i]);
                }
            }
            if forall|j: int| 0 <= j < i ==> #[trigger] ids_before[j] != ids_before[i] {
                assert forall|j: int| 0 <= j < i implies #[trigger] ids[j] != ids[i] by {
                    assert(ids_before[j] != ids_before[i]);
                }
            }
        }
        lemma_picks_next(
            funded_of(pending, ids_before),
            |i: int| pending.contains_key(ids_before[i]) && stands_first(ids_before, i),
            |i: int| (ids_before[i], pending[ids_before[i]]),
            funded_of(pending, ids),
            ids.len() as int,
            wanted,
            value,
        );
    }
}

/// All that is not taken from what is pending is to be funded, in order.
pub proof fn law_unfunded<N>(
    pending: Map<AccountId, N>,
    ids: Seq<AccountId>,
)
    ensures
        picks(
            unfunded_of(pending, ids),
            ids.len() as int,
            |i: int| !pending.contains_key(ids[i]) || !stands_first(ids, i),
            |i: int| ids[i],
        ),
    decreases ids.len(),
{
    let wanted = |i: int| !pending.contains_key(ids[i]) || !stands_first(ids, i);
    let value = |i: int| ids[i];
    if ids.len() == 0 {
        lemma_picks_none(wanted, value);
    } else {
        let ids_before = ids.drop_last();
        law_unfunded(pending, ids_before);
        let last = ids.len() - 1;
        assert(ids_before.contains(ids[last]) == !(forall|j: int|
            0 <= j < last ==> #[trigger] ids[j] != ids[last])) by {
            if ids_before.contains(ids[last]) {
                let k = choose|k: int| 0 <= k < ids_before.len() && ids_before[k] == ids[last];
                assert(ids[k] == ids[last]);
            }
            if !(forall|j: int| 0 <= j < last ==> #[trigger] ids[j] != ids[last]) {
                let j = choose|j: int| 0 <= j < last && #[trigger] ids[j] == ids[last];
                assert(ids_before[j] == ids[last]);
            }
        }
        assert forall|i: int| 0 <= i < last implies #[trigger] wanted(i) == (!pending.contains_key(
            ids_before[i],
        ) || !stands_first(ids_before, i)) by {
            assert(ids_before[i] == ids[i]);
            if forall|j: int| 0 <= j < i ==> #[trigger] ids[j] != ids[i] {
                assert forall|j: int| 0 <= j < i implies #[trigger] ids_before[j]
                    != ids_before[i] by {
                    assert(ids[j] != ids[i]);
                }
            }
            if forall|j: int| 0 <= j < i ==> #[trigger] ids_before[j] != ids_before[i] {
                assert forall|j: int| 0 <= j < i implies #[trigger] ids[j] != ids[i] by {
                    assert(ids_before[j] != ids_before[i]);
                }
            }
        }
        lemma_picks_next(
            unfunded_of(pending, ids_before),
            |i: int| !pending.contains_key(ids_before[i]) || !stands_first(ids_before, i),
            |i: int| ids_before[i],
            unfunded_of(pending, ids),
            ids.len() as int,
            wanted,
            value,
        );
    }
}

/// The accounts to be funded are those without transactions, all of them, in order.
pub proof fn law_undeployed(
    nonces: Seq<(AccountId, u64)>,
)
    ensures
        picks(
            undeployed_of(nonces),
            nonces.len() as int,
            |i: int| nonces[i].1 == 0,
            |i: int| nonces[i].0,
        ),
    decreases nonces.len(),
{
    let wanted = |i: int| nonces[i].1 == 0;
    let value = |i: int| nonces[i].0;
    if nonces.len() == 0 {
        lemma_picks_none(wanted, value);
    } else {
        let nonces_before = nonces.drop_last();
        law_undeployed(nonces_before);
        lemma_picks_next(
            undeployed_of(nonces_before),
            |i: int| nonces_before[i].1 == 0,
            |i: int| nonces_before[i].0,
            undeployed_of(nonces),
            nonces.len() as int,
            wanted,
            value,
        );
    }
}

/// A standard account has the components and the visibility that were asked for, is funded, and needs no
/// invitation.
pub proof fn law_standard_setup<A, K>(
    components: StandardComponents,
    account_type: AccountVisibility,
)
    ensures
        ({
            let setup = AccountSetup::<A, K>::spec_standard(components, account_type);
            &&& setup.funded
            &&& setup.invitation_code is None
            &&& setup.kind matches AccountKind::Standard {
                components: own,
                account_type: visibility,
                auth_scheme,
            } && own == components && visibility == account_type && auth_scheme
                == AuthSchemeId::EcdsaK256Keccak
        }),
{
}

// ERRORS
// ================================================================================================
/// A part occurs among messages if it occurs in any of them.
pub proof fn law_occurs_in_any(messages: Seq<String>, part: Seq<char>, i: int)
    ensures
        0 <= i < messages.len() && occurs_in(messages[i]@, part) ==> occurs_in_any(messages, part),
        occurs_in_any(messages, part) ==> exists|k: int|
            0 <= k < messages.len() && occurs_in((#[trigger] messages[k])@, part),
{
}

/// An error mentions what occurs in its message, in the message of what caused it, or in that of an
/// unknown kind.
pub proof fn law_mentions(error: RpcError, part: Seq<char>, i: int)
    ensures
        error matches RpcError::RequestError { source, .. } ==> (0 <= i < source@.len() && occurs_in(
            source@[i]@,
            part,
        ) ==> mentions(error, part)),
        error matches RpcError::RequestError { error_kind, .. } ==> (
        error_kind matches GrpcError::Unknown(message) ==> (occurs_in(message@, part) ==> mentions(
            error,
            part,
        ))),
        error matches RpcError::InvalidResponse(message) ==> mentions(error, part) == occurs_in(
            message@,
            part,
        ),
        error matches RpcError::ConnectionError(message) ==> mentions(error, part) == occurs_in(
            message@,
            part,
        ),
        error matches RpcError::DeserializationError(message) ==> mentions(error, part) == occurs_in(
            message@,
            part,
        ),
        error matches RpcError::ExpectedDataMissing(message) ==> mentions(error, part) == occurs_in(
            message@,
            part,
        ),
        error matches RpcError::AcceptHeaderError(message) ==> mentions(error, part) == occurs_in(
            message@,
            part,
        ),
        error matches RpcError::TransactionEncryptionKeyRejected(message) ==> mentions(error, part)
            == occurs_in(message@, part),
        error is NoteNotFound || error is PaginationError ==> !mentions(error, part),
        error matches RpcError::RequestError { error_kind, source, .. } ==> (mentions(error, part)
            && !(error_kind is Unknown) ==> exists|k: int|
            0 <= k < source@.len() && occurs_in((#[trigger] source@[k])@, part)),
{
}

/// A submission is repeated for its unknown notes if the state conflict that the node reports says so;
/// any other error counts if it mentions them.
pub proof fn law_unknown_note_error(error: RpcError)
    ensures
        error matches RpcError::RequestError { endpoint_error, .. } ==> (
        endpoint_error matches Some(
            EndpointError::AddTransaction(AddTransactionError::StateConflict { message }),
        ) ==> is_unknown_note_error(error) == occurs_in(
            message@,
            crate::test_utils::submit_retry::UNKNOWN_UNAUTHENTICATED_NOTES@,
        )),
        !(error is RequestError) ==> is_unknown_note_error(error) == mentions(
            error,
            crate::test_utils::submit_retry::UNKNOWN_UNAUTHENTICATED_NOTES@,
        ),
        error matches RpcError::RequestError { endpoint_error, .. } ==> (!(
        endpoint_error matches Some(
            EndpointError::AddTransaction(AddTransactionError::StateConflict { .. }),
        )) ==> is_unknown_note_error(error) == mentions(
            error,
            crate::test_utils::submit_retry::UNKNOWN_UNAUTHENTICATED_NOTES@,
        )),
{
}


// WAITING
// ================================================================================================
/// A wait that is over stays over, and it is over once the blocks that were waited for have passed.
pub proof fn law_wait_is_over(
    wait: BlockWait,
    current: BlockNumber,
    blocks: u32,
    latest: BlockNumber,
    over: bool,
)
    requires
        call_ensures(BlockWait::new, (current, blocks), wait),
        call_ensures(BlockWait::is_over, (&wait, latest), over),
    ensures
        over <==> latest - current >= blocks,
{
}


/// Notes are waited for until there are some, or the blocks have passed without any.
pub proof fn law_wait_for_notes(
    wait: BlockWait,
    notes_found: usize,
    current: BlockNumber,
    step: NoteWait,
)
    requires
        call_ensures(BlockWait::wait_for_notes, (&wait, notes_found, current), step),
    ensures
        step is Found <==> notes_found > 0,
        step is PollAgain <==> notes_found == 0 && current < wait.final_block,
        step is TooLate <==> notes_found == 0 && current >= wait.final_block,
{
}

/// A transaction is waited for as long as it is pending.
pub proof fn law_wait_for_transaction(status: TransactionStatus, step: TransactionWait)
    requires
        call_ensures(wait_for_tx, (status,), step),
    ensures
        step is PollAgain <==> status is Pending,
        step matches TransactionWait::Committed(block_num) ==> (
        status matches TransactionStatus::Committed { block_number, .. } && block_number
            == block_num),
        step matches TransactionWait::Discarded(cause) ==> status == TransactionStatus::Discarded(
            cause,
        ),
{
}

/// A client is clean if and only if it has no accounts, no transactions and no notes.
pub proof fn law_clean_state(
    accounts: usize,
    transactions: usize,
    input_notes: usize,
    checked: Result<(), NotCleanError>,
)
    requires
        call_ensures(check_clean_state, (accounts, transactions, input_notes), checked),
    ensures
        checked is Ok <==> accounts == 0 && transactions == 0 && input_notes == 0,
        accounts > 0 <==> checked == Err::<(), _>(NotCleanError::Accounts),
        checked == Err::<(), _>(NotCleanError::InputNotes) ==> input_notes > 0,
{
}

/// A chain charges fees if its first block says so, and accounts are funded if and only if it does and
/// there is a funder.
pub proof fn law_fees(
    genesis: BlockHeader,
    charges: Option<bool>,
    charges_fees: bool,
    has_funder: bool,
    step: FundingStep,
)
    requires
        call_ensures(chain_charges_fees, (Some(&genesis),), charges),
        call_ensures(fund_if_needed, (charges_fees, has_funder), step),
    ensures
        charges == Some(genesis.verification_base_fee > 0),
        step is Fund <==> charges_fees && has_funder,
        step is MissingFunder <==> charges_fees && !has_funder,
{
}

/// A submission is repeated only if it failed for its unknown notes, and before the deadline.
pub proof fn law_resubmission<V>(
    result: Result<V, RpcError>,
    elapsed_ms: u64,
    deadline_ms: u64,
    repeated: bool,
)
    requires
        call_ensures(should_resubmit::<V>, (&result, elapsed_ms, deadline_ms), repeated),
    ensures
        repeated <==> elapsed_ms < deadline_ms && result is Err && is_unknown_note_error(
            result->Err_0,
        ),
{
}

} // verus!
