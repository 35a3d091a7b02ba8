//! The state of a client that tests use, and the decisions of its helpers.
use vstd::prelude::*;

use crate::account::{build_token_config, describes_token, AccountVisibility};
use crate::collections::OrdMap;
use crate::rpc::errors::rpc_error::RpcError;
use crate::transaction::{DiscardCause, TransactionStatus};
use crate::types::{AccountId, BlockNumber, Word};

verus! {

/// The number of blocks until a note can be recalled.
pub const RECALL_HEIGHT_DELTA: u32 = 50;

/// The amount that a test mints.
pub const MINT_AMOUNT: u64 = 1000;

/// The amount that a test transfers.
pub const TRANSFER_AMOUNT: u64 = 59;

/// The time between two looks at a transaction, in milliseconds.
pub const TRANSACTION_POLL_INTERVAL_MS: u64 = 500;

/// The time between two looks at the chain tip, in milliseconds.
pub const BLOCK_POLL_INTERVAL_MS: u64 = 3000;

/// The time between two attempts to reach a node, in milliseconds.
pub const NODE_POLL_INTERVAL_MS: u64 = 2000;

/// The number of attempts to reach a node.
pub const NUMBER_OF_NODE_ATTEMPTS: u64 = 60;

// TEST CLIENT
// ================================================================================================
/// A client for tests. It keeps the notes that pay the fees of accounts until their next transactions,
/// which consume them.
#[derive(Debug)]
pub struct TestClient<C, F, N> {
    pub client: C,
    pub fee_funder: Option<F>,
    /// The notes that were paid to accounts and are not spent yet.
    pub pending_funding: OrdMap<AccountId, N>,
}

/// The notes that are kept once more are paid, of which a later one replaces an earlier one.
pub open spec fn stashed<N>(pending: Map<AccountId, N>, funded: Seq<(AccountId, N)>) -> Map<
    AccountId,
    N,
>
    decreases funded.len(),
{
    if funded.len() == 0 {
        pending
    } else {
        stashed(pending, funded.drop_last()).insert(funded.last().0, funded.last().1)
    }
}

/// The accounts whose notes are taken, with the notes. An account that occurs twice has its note taken
/// the first time.
pub open spec fn funded_of<N>(pending: Map<AccountId, N>, ids: Seq<AccountId>) -> Seq<(AccountId, N)>
    decreases ids.len(),
{
    if ids.len() == 0 {
        Seq::empty()
    } else {
        let earlier = ids.drop_last();
        let id = ids.last();
        if pending.contains_key(id) && !earlier.contains(id) {
            funded_of(pending, earlier).push((id, pending[id]))
        } else {
            funded_of(pending, earlier)
        }
    }
}

/// The accounts that have no note to take.
pub open spec fn unfunded_of<N>(pending: Map<AccountId, N>, ids: Seq<AccountId>) -> Seq<AccountId>
    decreases ids.len(),
{
    if ids.len() == 0 {
        Seq::empty()
    } else {
        let earlier = ids.drop_last();
        let id = ids.last();
        if pending.contains_key(id) && !earlier.contains(id) {
            unfunded_of(pending, earlier)
        } else {
            unfunded_of(pending, earlier).push(id)
        }
    }
}

impl<C, F, N> TestClient<C, F, N> {
    /// Makes a client without a funder, which is enough for a chain without fees.
    pub fn new(client: C) -> (made: Self)
        ensures
            made.client == client,
            made.fee_funder is None,
            made.pending_funding@ == Map::<AccountId, N>::empty(),
    {
        TestClient { client, fee_funder: None, pending_funding: OrdMap::new() }
    }

    /// Sets the funder.
    pub fn with_fee_funder(self, fee_funder: Option<F>) -> (client: Self)
        ensures
            client == (TestClient { fee_funder, ..self }),
    {
        TestClient { fee_funder, ..self }
    }

    /// Returns the funder.
    pub fn fee_funder(&self) -> (funder: Option<&F>)
        ensures
            match (funder, self.fee_funder) {
                (Some(found), Some(own)) => *found == own,
                (None, None) => true,
                _ => false,
            },
    {
        match &self.fee_funder {
            Some(funder) => Some(funder),
            None => None,
        }
    }

    /// Keeps notes until the next transactions of their accounts.
    pub fn stash_funding(&mut self, funded: Vec<(AccountId, N)>)
        ensures
            final(self).pending_funding@ == stashed(old(self).pending_funding@, funded@),
            *final(self) == (TestClient {
                pending_funding: final(self).pending_funding,
                ..*old(self)
            }),
    {
        let ghost start = *self;
        let ghost all = funded@;
        let ghost mut n: int = 0;
        for entry in iter: funded
            invariant
                iter.seq() == all,
                n == iter.index(),
                self.pending_funding@ == stashed(start.pending_funding@, all.take(n)),
                *self == (TestClient { pending_funding: self.pending_funding, ..start }),
        {
            proof {
                let longer = all.take(n + 1);
                assert(longer.drop_last() =~= all.take(n));
                assert(longer.last() == entry);
            }
            let (account_id, note) = entry;
            self.pending_funding.insert(account_id, note);
            proof {
                n = n + 1;
            }
        }
        assert(all.take(n) =~= all);
    }

    /// Takes the note of an account, which its next transaction then does not consume by itself.
    pub fn take_funding(&mut self, account_id: AccountId) -> (note: Option<N>)
        ensures
            final(self).pending_funding@ == old(self).pending_funding@.remove(account_id),
            match note {
                Some(note) => old(self).pending_funding@.contains_key(account_id) && note == old(self).pending_funding@[account_id],
                None => !old(self).pending_funding@.contains_key(account_id),
            },
            *final(self) == (TestClient {
                pending_funding: final(self).pending_funding,
                ..*old(self)
            }),
    {
        self.pending_funding.remove(&account_id)
    }

    /// Adds the note of an account to the notes that a transaction consumes.
    pub fn fund_request(&mut self, account_id: AccountId, input_notes: Vec<N>) -> (funded: Vec<N>)
        ensures
            final(self).pending_funding@ == old(self).pending_funding@.remove(account_id),
            funded@ == if old(self).pending_funding@.contains_key(account_id) {
                input_notes@.push(old(self).pending_funding@[account_id])
            } else {
                input_notes@
            },
            *final(self) == (TestClient {
                pending_funding: final(self).pending_funding,
                ..*old(self)
            }),
    {
        let mut funded = input_notes;
        if let Some(note) = self.take_funding(account_id) {
            funded.push(note);
        }
        funded
    }

    /// Takes the notes of accounts. Returns the accounts that had one, with the notes, and those that
    /// have to be paid first.
    pub fn split_funding(&mut self, account_ids: &Vec<AccountId>) -> (split: (
        Vec<(AccountId, N)>,
        Vec<AccountId>,
    ))
        ensures
            final(self).pending_funding@ == old(self).pending_funding@.remove_keys(
                account_ids@.to_set(),
            ),
            split.0@ == funded_of(old(self).pending_funding@, account_ids@),
            split.1@ == unfunded_of(old(self).pending_funding@, account_ids@),
            *final(self) == (TestClient {
                pending_funding: final(self).pending_funding,
                ..*old(self)
            }),
    {
        let ghost start = self.pending_funding@;
        let ghost before = *self;
        let mut funded: Vec<(AccountId, N)> = Vec::new();
        let mut unfunded: Vec<AccountId> = Vec::new();
        let mut i: usize = 0;
        assert(start =~= start.remove_keys(account_ids@.take(0).to_set()));
        while i < account_ids.len()
            invariant
                i <= account_ids.len(),
                *self == (TestClient { pending_funding: self.pending_funding, ..before }),
                self.pending_funding@ == start.remove_keys(account_ids@.take(i as int).to_set()),
                funded@ == funded_of(start, account_ids@.take(i as int)),
                unfunded@ == unfunded_of(start, account_ids@.take(i as int)),
            decreases account_ids.len() - i,
        {
            let account_id = account_ids[i];
            let ghost shorter = account_ids@.take(i as int);
            let ghost longer = account_ids@.take(i + 1);
            proof {
                assert(longer.drop_last() =~= shorter);
                assert(longer =~= shorter.push(account_id));
                assert(shorter.to_set().contains(account_id) == shorter.contains(account_id));
            }
            match self.take_funding(account_id) {
                Some(note) => {
                    funded.push((account_id, note));
                },
                None => {
                    unfunded.push(account_id);
                },
            }
            assert forall|id: AccountId| longer.to_set().contains(id) == (shorter.to_set().contains(
                id,
            ) || id == account_id) by {
                if shorter.contains(id) {
                    let k = choose|k: int| 0 <= k < shorter.len() && shorter[k] == id;
                    assert(longer[k] == id);
                }
                assert(longer[i as int] == account_id);
            }
            assert(self.pending_funding@ =~= start.remove_keys(longer.to_set()));
            i += 1;
        }
        assert(account_ids@.take(i as int) =~= account_ids@);
        (funded, unfunded)
    }
}

/// A note that was paid to an account is consumed by one transaction only: once it is taken, there is
/// none to take.
pub proof fn law_funding_is_spent_once<N>(
    pending: Map<AccountId, N>,
    account_id: AccountId,
    note: N,
)
    ensures
        stashed(pending, seq![(account_id, note)]).contains_key(account_id),
        stashed(pending, seq![(account_id, note)])[account_id] == note,
        !stashed(pending, seq![(account_id, note)]).remove(account_id).contains_key(account_id),
{
    let funded = seq![(account_id, note)];
    assert(funded.drop_last() =~= Seq::<(AccountId, N)>::empty());
    assert(stashed(pending, funded.drop_last()) == pending);
}

// ACCOUNT SETUP
// ================================================================================================
/// A signature scheme of an account.
#[derive(Clone, Copy, Debug, PartialEq, Eq, Structural)]
pub enum AuthSchemeId {
    EcdsaK256Keccak,
    Falcon512Poseidon2,
}

/// The set of components of an account that is built for a test.
#[derive(Clone, Copy, Debug, PartialEq, Eq, Structural)]
pub enum StandardComponents {
    Wallet,
    /// A faucet that anyone can mint from, and that can receive assets for its own fees.
    Faucet,
}

/// A component of an account.
#[derive(Clone, Copy, Debug, PartialEq, Eq, Structural)]
pub enum Component {
    SingleSignature(AuthSchemeId),
    BasicWallet,
    FungibleFaucet,
    TokenPolicies,
}

/// How a test gets an account.
#[derive(Debug)]
pub enum AccountKind<A, K> {
    /// The account is built.
    Standard {
        components: StandardComponents,
        account_type: AccountVisibility,
        auth_scheme: AuthSchemeId,
    },
    /// The account is given, with its key.
    Prebuilt { account: A, key: K },
}

/// An account that a test inserts.
pub struct AccountSetup<A, K> {
    pub kind: AccountKind<A, K>,
    pub funded: bool,
    pub invitation_code: Option<String>,
}

impl<A, K> AccountSetup<A, K> {
    /// An account that is built.
    pub open spec fn spec_standard(
        components: StandardComponents,
        account_type: AccountVisibility,
    ) -> Self {
        AccountSetup {
            kind: AccountKind::Standard {
                components,
                account_type,
                auth_scheme: AuthSchemeId::EcdsaK256Keccak,
            },
            funded: true,
            invitation_code: None,
        }
    }

    /// Sets up an account that is built.
    fn standard(components: StandardComponents, account_type: AccountVisibility) -> (setup: Self)
        ensures
            setup == Self::spec_standard(components, account_type),
    {
        AccountSetup {
            kind: AccountKind::Standard {
                components,
                account_type,
                auth_scheme: AuthSchemeId::EcdsaK256Keccak,
            },
            funded: true,
            invitation_code: None,
        }
    }

    /// Sets up a wallet.
    pub fn wallet(account_type: AccountVisibility) -> (setup: Self)
        ensures
            setup == Self::spec_standard(StandardComponents::Wallet, account_type),
    {
        Self::standard(StandardComponents::Wallet, account_type)
    }

    /// Sets up a faucet.
    pub fn faucet(account_type: AccountVisibility) -> (setup: Self)
        ensures
            setup == Self::spec_standard(StandardComponents::Faucet, account_type),
    {
        Self::standard(StandardComponents::Faucet, account_type)
    }

    /// Sets up an account that is given.
    pub fn prebuilt(account: A, key: K) -> (setup: Self)
        ensures
            setup == (AccountSetup {
                kind: AccountKind::Prebuilt { account, key },
                funded: true,
                invitation_code: None,
            }),
    {
        AccountSetup {
            kind: AccountKind::Prebuilt { account, key },
            funded: true,
            invitation_code: None,
        }
    }

    /// Sets the signature scheme of an account that is built. One that is given keeps its own.
    pub fn auth_scheme(self, auth_scheme: AuthSchemeId) -> (setup: Self)
        ensures
            setup == (AccountSetup {
                kind: match self.kind {
                    AccountKind::Standard { components, account_type, .. } => AccountKind::Standard {
                        components,
                        account_type,
                        auth_scheme,
                    },
                    AccountKind::Prebuilt { account, key } => AccountKind::Prebuilt { account, key },
                },
                ..self
            }),
    {
        let kind = match self.kind {
            AccountKind::Standard { components, account_type, .. } => AccountKind::Standard {
                components,
                account_type,
                auth_scheme,
            },
            AccountKind::Prebuilt { account, key } => AccountKind::Prebuilt { account, key },
        };
        AccountSetup { kind, funded: self.funded, invitation_code: self.invitation_code }
    }

    /// Leaves the account without funding.
    pub fn unfunded(self) -> (setup: Self)
        ensures
            setup == (AccountSetup { funded: false, ..self }),
    {
        AccountSetup { funded: false, ..self }
    }

    /// Registers the account with an invitation code.
    pub fn invitation_code(self, invitation_code: &str) -> (setup: Self)
        ensures
            setup.kind == self.kind,
            setup.funded == self.funded,
            setup.invitation_code matches Some(code) && code@ == invitation_code@,
    {
        AccountSetup {
            kind: self.kind,
            funded: self.funded,
            invitation_code: Some(invitation_code.to_owned()),
        }
    }
}

/// Returns the components of an account that is built, in the order in which they are added. A faucet
/// is a wallet too, which lets it receive the assets for its own fees.
pub fn components_of(components: StandardComponents, auth_scheme: AuthSchemeId) -> (all: Vec<
    Component,
>)
    ensures
        all@ == match components {
            StandardComponents::Wallet => seq![
                Component::SingleSignature(auth_scheme),
                Component::BasicWallet,
            ],
            StandardComponents::Faucet => seq![
                Component::SingleSignature(auth_scheme),
                Component::FungibleFaucet,
                Component::BasicWallet,
                Component::TokenPolicies,
            ],
        },
{
    let mut all: Vec<Component> = Vec::new();
    all.push(Component::SingleSignature(auth_scheme));
    match components {
        StandardComponents::Wallet => {
            all.push(Component::BasicWallet);
        },
        StandardComponents::Faucet => {
            all.push(Component::FungibleFaucet);
            all.push(Component::BasicWallet);
            all.push(Component::TokenPolicies);
        },
    }
    all
}

/// The symbol of the token that test faucets issue.
pub const TEST_TOKEN_SYMBOL: &'static str = "TEST";

/// The decimals of the token that test faucets issue.
pub const TEST_TOKEN_DECIMALS: u8 = 10;

/// The largest supply of the token that test faucets issue.
pub const TEST_TOKEN_MAX_SUPPLY: u64 = 9_999_999;

/// Returns the storage slot that describes the token which test faucets issue.
pub fn fungible_faucet_component() -> (token_config: Option<Word>)
    ensures
        token_config matches Some(config) && describes_token(
            config,
            TEST_TOKEN_SYMBOL@,
            TEST_TOKEN_DECIMALS,
            TEST_TOKEN_MAX_SUPPLY,
        ),
{
    proof {
        reveal_strlit("TEST");
    }
    build_token_config(TEST_TOKEN_SYMBOL, TEST_TOKEN_DECIMALS, TEST_TOKEN_MAX_SUPPLY)
}

/// What a client has that should have nothing.
#[derive(Clone, Copy, Debug, PartialEq, Eq, Structural)]
pub enum NotCleanError {
    Accounts,
    Transactions,
    InputNotes,
}

/// Checks that a client has no accounts, transactions or notes.
pub fn check_clean_state(accounts: usize, transactions: usize, input_notes: usize) -> (checked: Result<
    (),
    NotCleanError,
>)
    ensures
        checked == if accounts > 0 {
            Err::<(), _>(NotCleanError::Accounts)
        } else if transactions > 0 {
            Err(NotCleanError::Transactions)
        } else if input_notes > 0 {
            Err(NotCleanError::InputNotes)
        } else {
            Ok(())
        },
{
    if accounts > 0 {
        return Err(NotCleanError::Accounts);
    }
    if transactions > 0 {
        return Err(NotCleanError::Transactions);
    }
    if input_notes > 0 {
        return Err(NotCleanError::InputNotes);
    }
    Ok(())
}

// WAITING
// ================================================================================================
/// What a look at a transaction leads to.
#[derive(Clone, Copy, Debug, PartialEq, Eq, Structural)]
pub enum TransactionWait {
    /// The transaction is in a block.
    Committed(BlockNumber),
    /// The transaction is looked at again later.
    PollAgain,
    /// The transaction will never be in a block.
    Discarded(DiscardCause),
}

/// Decides whether a transaction is waited for any longer.
pub fn wait_for_tx(status: TransactionStatus) -> (wait: TransactionWait)
    ensures
        wait == match status {
            TransactionStatus::Committed { block_number, .. } => TransactionWait::Committed(
                block_number,
            ),
            TransactionStatus::Pending => TransactionWait::PollAgain,
            TransactionStatus::Discarded(cause) => TransactionWait::Discarded(cause),
        },
{
    match status {
        TransactionStatus::Committed { block_number, .. } => TransactionWait::Committed(block_number),
        TransactionStatus::Pending => TransactionWait::PollAgain,
        TransactionStatus::Discarded(cause) => TransactionWait::Discarded(cause),
    }
}

/// A wait for a number of blocks.
#[derive(Clone, Copy, Debug, PartialEq, Eq, Structural)]
pub struct BlockWait {
    pub final_block: BlockNumber,
}

impl BlockWait {
    /// Waits for a number of blocks after the current one.
    pub fn new(current_block: BlockNumber, amount_of_blocks: u32) -> (wait: Self)
        requires
            current_block + amount_of_blocks <= u32::MAX,
        ensures
            wait.final_block == current_block + amount_of_blocks,
    {
        BlockWait { final_block: current_block + amount_of_blocks }
    }

    /// Returns true if the wait is over.
    pub fn is_over(&self, latest_block: BlockNumber) -> (over: bool)
        ensures
            over == (latest_block >= self.final_block),
    {
        latest_block >= self.final_block
    }

    /// Decides whether notes are waited for any longer: until there are some, or the blocks have
    /// passed without any.
    pub fn wait_for_notes(&self, notes_found: usize, current_block: BlockNumber) -> (wait: NoteWait)
        ensures
            wait == if notes_found > 0 {
                NoteWait::Found
            } else if current_block < self.final_block {
                NoteWait::PollAgain
            } else {
                NoteWait::TooLate
            },
    {
        if notes_found > 0 {
            NoteWait::Found
        } else if current_block < self.final_block {
            NoteWait::PollAgain
        } else {
            NoteWait::TooLate
        }
    }
}

/// What a look for notes leads to.
#[derive(Clone, Copy, Debug, PartialEq, Eq, Structural)]
pub enum NoteWait {
    Found,
    PollAgain,
    /// The blocks have passed.
    TooLate,
}

/// What an attempt to reach a node leads to.
#[derive(Clone, Copy, Debug, PartialEq, Eq, Structural)]
pub enum NodeWaitStep {
    Connected,
    PollAgain,
    /// All attempts failed.
    Unreachable,
    /// The node is there, and something else is wrong.
    UnexpectedError,
}

/// A wait for a node.
#[derive(Clone, Copy, Debug, PartialEq, Eq, Structural)]
pub struct NodeWait {
    pub attempts: u64,
}

impl NodeWait {
    /// Starts to wait.
    pub fn new() -> (wait: Self)
        ensures
            wait.attempts == 0,
    {
        NodeWait { attempts: 0 }
    }

    /// Decides what an attempt leads to. The node may be starting if it cannot be reached or answers
    /// with an error.
    pub fn advance(&mut self, attempt: Result<(), &RpcError>) -> (step: NodeWaitStep)
        requires
            old(self).attempts < NUMBER_OF_NODE_ATTEMPTS,
        ensures
            match attempt {
                Ok(_) => step is Connected && *final(self) == *old(self),
                Err(error) => if error is ConnectionError || error is RequestError {
                    final(self).attempts == old(self).attempts + 1 && step == if final(self).attempts < NUMBER_OF_NODE_ATTEMPTS {
                        NodeWaitStep::PollAgain
                    } else {
                        NodeWaitStep::Unreachable
                    }
                } else {
                    step is UnexpectedError && *final(self) == *old(self)
                },
            },
    {
        match attempt {
            Ok(_) => NodeWaitStep::Connected,
            Err(error) => {
                let may_be_starting = matches!(
                    error,
                    RpcError::ConnectionError(_) | RpcError::RequestError { .. }
                );
                if !may_be_starting {
                    return NodeWaitStep::UnexpectedError;
                }
                self.attempts += 1;
                if self.attempts < NUMBER_OF_NODE_ATTEMPTS {
                    NodeWaitStep::PollAgain
                } else {
                    NodeWaitStep::Unreachable
                }
            },
        }
    }
}

} // verus!
