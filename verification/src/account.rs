//! Accounts that the client tracks: adding them, naming them by addresses, and faucets.
use miden_protocol::account::auth::{AuthScheme, PublicKeyCommitment};
use miden_protocol::account::{AccountBuilder, AccountId as ProtocolAccountId, AccountType};
use miden_protocol::asset::{AssetAmount, TokenSymbol};
use miden_protocol::note::NoteTag as ProtocolNoteTag;
use miden_protocol::Felt;
use miden_standards::account::auth::AuthSingleSig;
use miden_standards::account::faucets::{FungibleFaucet, TokenName};
use miden_standards::account::metadata::AccountBuilderSchemaCommitmentExt;
use miden_standards::account::wallets::BasicWallet;
use vstd::arithmetic::power2::pow2;
use vstd::prelude::*;
use vstd::utf8::{
    decode_utf8, encode_utf8, encode_utf8_decode_utf8, encode_utf8_valid_utf8, valid_utf8,
};

use crate::bytes::{
    length_at, length_bytes, lemma_length_inverse, read_length, sub_vector, write_length,
};
use crate::collections::radix;
use crate::rpc::domain::account::{slot_id, slot_id_of};
use crate::rpc::domain::account_proof::AccountProof;
use crate::rpc::domain::account_storage::slot_of;
use crate::rpc::errors::node::{EndpointError, GetAccountError};
use crate::rpc::errors::rpc_error::RpcError;
use crate::types::{AccountId, NoteTag, Word};

verus! {

// ADDING ACCOUNTS
// ================================================================================================
/// What the client does with an account.
#[derive(Clone, Copy, Debug, PartialEq, Eq, Structural)]
pub enum ClientAccountType {
    /// The client owns the account: it follows its state, and receives notes for it.
    Native,
    /// The client follows the state of the account only.
    Watched,
}

/// An account that is to be tracked, by what that depends on.
#[derive(Clone, Copy, Debug, PartialEq, Eq, Structural)]
pub struct NewAccount {
    pub id: AccountId,
    pub nonce: u64,
    pub commitment: Word,
    /// The account has no transactions yet.
    pub is_new: bool,
    pub has_seed: bool,
}

/// An account that is tracked, by what replacing it depends on.
#[derive(Clone, Copy, Debug, PartialEq, Eq, Structural)]
pub struct TrackedAccount {
    pub client_account_type: ClientAccountType,
    pub nonce: u64,
    /// The state of the account on the network is not the local one.
    pub is_locked: bool,
}

/// Why an account is not added.
#[derive(Clone, Copy, Debug, PartialEq, Eq, Structural)]
pub enum AddAccountError {
    /// The account is new, and comes without the seed of its id.
    AddNewAccountWithoutSeed,
    AccountAlreadyTracked(AccountId),
    /// The account is tracked in the other way. What is set up for one way is not for the other.
    AccountWatchedMismatch(AccountId),
    /// The account is older than the one that is tracked.
    AccountNonceTooLow,
    /// The state of the account on the network is another one.
    AccountCommitmentMismatch(Word),
}

/// What is done to add an account.
#[derive(Clone, Copy, Debug, PartialEq, Eq, Structural)]
pub enum AddAccountAction {
    /// The account is stored, and the tag of its address is tracked if notes are to be received.
    Insert { note_tag: Option<NoteTag> },
    /// The tracked account is replaced.
    Update,
    /// The tracked account is replaced, if the network has the state that replaces it.
    UpdateIfOnNetwork,
}

/// Why an account is not added, before the network is asked.
pub open spec fn add_account_problem(
    account: NewAccount,
    client_account_type: ClientAccountType,
    stored: Option<TrackedAccount>,
    overwrite: bool,
) -> Option<AddAccountError> {
    if account.is_new && !account.has_seed {
        Some(AddAccountError::AddNewAccountWithoutSeed)
    } else {
        match stored {
            None => None,
            Some(stored) => if !overwrite {
                Some(AddAccountError::AccountAlreadyTracked(account.id))
            } else if stored.client_account_type != client_account_type {
                Some(AddAccountError::AccountWatchedMismatch(account.id))
            } else if stored.nonce > account.nonce {
                Some(AddAccountError::AccountNonceTooLow)
            } else {
                None
            },
        }
    }
}

/// Decides how an account is added.
pub fn plan_add_account(
    account: &NewAccount,
    client_account_type: ClientAccountType,
    stored: Option<TrackedAccount>,
    overwrite: bool,
) -> (action: Result<AddAccountAction, AddAccountError>)
    ensures
        match add_account_problem(*account, client_account_type, stored, overwrite) {
            Some(error) => action == Err::<AddAccountAction, _>(error),
            None => action == Ok::<_, AddAccountError>(
                match stored {
                    None => AddAccountAction::Insert {
                        note_tag: if client_account_type is Native {
                            target_tag_of(account.id, DEFAULT_TAG_LENGTH)
                        } else {
                            None
                        },
                    },
                    Some(stored) => if client_account_type is Native || stored.is_locked {
                        AddAccountAction::UpdateIfOnNetwork
                    } else {
                        AddAccountAction::Update
                    },
                },
            ),
        },
{
    if account.is_new && !account.has_seed {
        return Err(AddAccountError::AddNewAccountWithoutSeed);
    }
    match stored {
        None => Ok(
            AddAccountAction::Insert {
                note_tag: match client_account_type {
                    ClientAccountType::Native => target_tag(account.id, DEFAULT_TAG_LENGTH),
                    ClientAccountType::Watched => None,
                },
            },
        ),
        Some(stored) => {
            if !overwrite {
                return Err(AddAccountError::AccountAlreadyTracked(account.id));
            }
            if client_account_type != stored.client_account_type {
                return Err(AddAccountError::AccountWatchedMismatch(account.id));
            }
            if stored.nonce > account.nonce {
                return Err(AddAccountError::AccountNonceTooLow);
            }
            if client_account_type == ClientAccountType::Native || stored.is_locked {
                Ok(AddAccountAction::UpdateIfOnNetwork)
            } else {
                Ok(AddAccountAction::Update)
            }
        },
    }
}

/// Checks that the network has the state that replaces a tracked account.
pub fn check_network_commitment(account: &NewAccount, network_commitment: Word) -> (checked: Result<
    (),
    AddAccountError,
>)
    ensures
        checked == if network_commitment == account.commitment {
            Ok::<_, AddAccountError>(())
        } else {
            Err::<(), _>(AddAccountError::AccountCommitmentMismatch(network_commitment))
        },
{
    if network_commitment != account.commitment {
        return Err(AddAccountError::AccountCommitmentMismatch(network_commitment));
    }
    Ok(())
}

/// A tracked account is replaced only if that was asked for, by a state that is not older, and in the
/// same way of tracking it.
pub proof fn law_replaced_account_is_not_newer(
    account: NewAccount,
    client_account_type: ClientAccountType,
    stored: TrackedAccount,
    overwrite: bool,
)
    requires
        add_account_problem(account, client_account_type, Some(stored), overwrite) is None,
    ensures
        overwrite,
        stored.nonce <= account.nonce,
        stored.client_account_type == client_account_type,
{
}

// FETCHING ACCOUNTS
// ================================================================================================
/// Why a public account is not fetched.
#[derive(Debug)]
pub enum FetchAccountError {
    AccountNotFoundOnChain(AccountId),
    AccountIsPrivate(AccountId),
    Rpc(RpcError),
}

/// The node says that it does not have the account.
pub open spec fn is_not_found(error: RpcError) -> bool {
    error matches RpcError::RequestError {
        endpoint_error: Some(EndpointError::GetAccount(GetAccountError::AccountNotFound)),
        ..
    }
}

/// The node says that it does not have the account, or that the account is not public.
pub open spec fn is_not_available(error: RpcError) -> bool {
    is_not_found(error) || (error matches RpcError::RequestError {
        endpoint_error: Some(EndpointError::GetAccount(GetAccountError::AccountNotPublic)),
        ..
    })
}

/// Returns the account that was fetched. An account without public state is not returned by a node.
pub fn fetched_public_account<A>(account_id: AccountId, fetched: Result<Option<A>, RpcError>) -> (
account: Result<A, FetchAccountError>)
    ensures
        match fetched {
            Ok(Some(found)) => account == Ok::<_, FetchAccountError>(found),
            Ok(None) => account == Err::<A, _>(FetchAccountError::AccountIsPrivate(account_id)),
            Err(error) => if is_not_found(error) {
                account == Err::<A, _>(FetchAccountError::AccountNotFoundOnChain(account_id))
            } else {
                account == Err::<A, _>(FetchAccountError::Rpc(error))
            },
        },
{
    match fetched {
        Ok(Some(account)) => Ok(account),
        Ok(None) => Err(FetchAccountError::AccountIsPrivate(account_id)),
        Err(error) => {
            let not_found = matches!(
                error.endpoint_error(),
                Some(EndpointError::GetAccount(GetAccountError::AccountNotFound))
            );
            if not_found {
                Err(FetchAccountError::AccountNotFoundOnChain(account_id))
            } else {
                Err(FetchAccountError::Rpc(error))
            }
        },
    }
}

// FAUCETS
// ================================================================================================
/// The most decimals the token of a faucet can have.
pub const MAX_DECIMALS: u8 = 12;

/// The name of the storage slot that describes the token of a faucet.
pub const TOKEN_CONFIG_SLOT: &'static str = "miden::standards::faucets::fungible::token_config";

/// How the token of a faucet is displayed.
#[derive(Debug)]
pub struct FaucetMetadata {
    pub symbol: String,
    pub decimals: u8,
}

/// The largest amount of an asset.
pub const MAX_ASSET_AMOUNT: u64 = 0x7fff_ffff_8000_0000;

/// The longest symbol of a token.
pub const MAX_SYMBOL_LENGTH: usize = 12;

/// The order of the field that the protocol computes in. Elements are below it.
pub const FIELD_ORDER: u64 = 0xffff_ffff_0000_0001;

/// The text is the symbol of a token: a few capital letters.
pub open spec fn is_symbol(text: Seq<char>) -> bool {
    &&& 1 <= text.len() <= MAX_SYMBOL_LENGTH
    &&& forall|i: int| 0 <= i < text.len() ==> 'A' <= #[trigger] text[i] <= 'Z'
}

/// The letters, as the digits of a number.
pub open spec fn letters_value(text: Seq<char>) -> nat
    decreases text.len(),
{
    if text.len() == 0 {
        0
    } else {
        letters_value(text.drop_last()) * 26 + (text.last() as nat - 'A' as nat) as nat
    }
}

/// The field element that stands for a symbol: its letters, and then how many there are.
pub open spec fn symbol_value(text: Seq<char>) -> nat {
    letters_value(text) * 26 + text.len()
}

/// The symbol that a field element stands for; `None` if it stands for none.
pub uninterp spec fn token_symbol_of(element: u64) -> Option<Seq<char>>;

/// `TokenSymbol::try_from` a field element, and its `to_string`: the symbol that the element stands
/// for. It is the one whose letters and length the element holds; what a number above the order of the
/// field stands for is only named.
#[verifier::external_body]
fn token_symbol(element: u64) -> (symbol: Option<String>)
    ensures
        match (symbol, token_symbol_of(element)) {
            (Some(symbol), Some(named)) => symbol@ == named,
            (None, None) => true,
            _ => false,
        },
        element < FIELD_ORDER ==> match symbol {
            Some(text) => is_symbol(text@) && symbol_value(text@) == element,
            None => forall|text: Seq<char>| is_symbol(text) ==> #[trigger] symbol_value(text) != element,
        },
{
    TokenSymbol::try_from(Felt::new_unchecked(element)).ok().map(|symbol| symbol.to_string())
}

/// Returns how a token is displayed, given its symbol and the number of its decimals. A faucet with
/// too many decimals does not exist.
pub fn metadata_of_token(symbol: Option<String>, decimals: u64) -> (metadata: Option<FaucetMetadata>)
    ensures
        match symbol {
            Some(symbol) => if decimals <= MAX_DECIMALS {
                metadata == Some(FaucetMetadata { symbol, decimals: decimals as u8 })
            } else {
                metadata is None
            },
            None => metadata is None,
        },
{
    let symbol = match symbol {
        Some(symbol) => symbol,
        None => {
            return None;
        },
    };
    if decimals > MAX_DECIMALS as u64 {
        return None;
    }
    Some(FaucetMetadata { symbol, decimals: decimals as u8 })
}

/// The token that a storage slot describes can be displayed as `metadata`. The slot holds the supply,
/// the largest supply, the decimals, and the symbol.
pub open spec fn is_metadata_of(token_config: Word, metadata: Option<FaucetMetadata>) -> bool {
    match token_symbol_of(token_config.e3) {
        Some(symbol) => if token_config.e2 <= MAX_DECIMALS {
            metadata matches Some(metadata) && metadata.symbol@ == symbol && metadata.decimals
                == token_config.e2
        } else {
            metadata is None
        },
        None => metadata is None,
    }
}

/// Returns how the token that a storage slot describes is displayed.
pub fn faucet_metadata_from_token_config(token_config: Word) -> (metadata: Option<FaucetMetadata>)
    ensures
        is_metadata_of(token_config, metadata),
        token_config.e3 < FIELD_ORDER ==> match metadata {
            Some(found) => is_symbol(found.symbol@) && symbol_value(found.symbol@)
                == token_config.e3,
            None => token_config.e2 > MAX_DECIMALS || forall|text: Seq<char>|
                is_symbol(text) ==> #[trigger] symbol_value(text) != token_config.e3,
        },
{
    metadata_of_token(token_symbol(token_config.e3), token_config.e2)
}

/// The slot describes a token of which nothing was issued yet.
pub open spec fn describes_token(
    token_config: Word,
    symbol: Seq<char>,
    decimals: u8,
    max_supply: u64,
) -> bool {
    &&& token_config.e0 == 0
    &&& token_config.e1 == max_supply
    &&& token_config.e2 == decimals
    &&& token_config.e3 == symbol_value(symbol)
}

/// `FungibleFaucet::builder` with a `TokenSymbol`, which is the `TokenName` too, decimals and a largest
/// supply, and `token_config_slot_value` of the faucet: the storage slot that describes the token. There
/// is a faucet if the symbol is made of capital letters and is not too long, if there are not too many
/// decimals, and if the supply is an amount. The element that stands for the symbol is read back as the
/// symbol by `TokenSymbol::try_from`.
#[verifier::external_body]
fn token_config(symbol: &str, decimals: u8, max_supply: u64) -> (config: Option<Word>)
    ensures
        match config {
            Some(word) => {
                &&& is_symbol(symbol@)
                &&& decimals <= MAX_DECIMALS
                &&& max_supply <= MAX_ASSET_AMOUNT
                &&& describes_token(word, symbol@, decimals, max_supply)
                &&& token_symbol_of(word.e3) == Some(symbol@)
            },
            None => !is_symbol(symbol@) || decimals > MAX_DECIMALS || max_supply > MAX_ASSET_AMOUNT,
        },
{
    let symbol = TokenSymbol::new(symbol).ok()?;
    let name = TokenName::new(&symbol.to_string()).ok()?;
    let max_supply = AssetAmount::new(max_supply).ok()?;
    let builder = FungibleFaucet::builder().name(name).symbol(symbol).decimals(decimals);
    let faucet = builder.max_supply(max_supply).build().ok()?;
    let config = faucet.token_config_slot_value().value().into_elements();
    Some(Word::from_elements(config.map(|e| e.as_canonical_u64())))
}

/// Returns the storage slot of a faucet that describes its token, for a faucet that has issued nothing
/// yet. What is displayed of the token is what the faucet was made with.
pub fn build_token_config(symbol: &str, decimals: u8, max_supply: u64) -> (config: Option<Word>)
    ensures
        match config {
            Some(word) => {
                &&& is_symbol(symbol@)
                &&& decimals <= MAX_DECIMALS
                &&& max_supply <= MAX_ASSET_AMOUNT
                &&& describes_token(word, symbol@, decimals, max_supply)
                &&& forall|metadata: Option<FaucetMetadata>| #[trigger]
                    is_metadata_of(word, metadata) <==> (metadata matches Some(found)
                        && found.symbol@ == symbol@ && found.decimals == decimals)
            },
            None => !is_symbol(symbol@) || decimals > MAX_DECIMALS || max_supply > MAX_ASSET_AMOUNT,
        },
{
    token_config(symbol, decimals, max_supply)
}

/// Returns how the token of a faucet is displayed, given the proof of the faucet. There is nothing to
/// display if the faucet is private, or has no slot that describes a token.
pub fn token_metadata_of_proof(account_proof: &AccountProof) -> (metadata: Option<FaucetMetadata>)
    ensures
        match (account_proof.state_headers, slot_id_of(TOKEN_CONFIG_SLOT@)) {
            (Some(details), Some(slot)) => match slot_of(details.storage_details.header@, slot) {
                Some(header) => is_metadata_of(header.value, metadata),
                None => metadata is None,
            },
            _ => metadata is None,
        },
{
    let storage = match account_proof.storage_details() {
        Some(storage) => storage,
        None => {
            return None;
        },
    };
    match slot_id(&TOKEN_CONFIG_SLOT.to_owned()) {
        Some(slot) => match storage.find_slot_header(slot) {
            Some(header) => faucet_metadata_from_token_config(header.value),
            None => None,
        },
        None => None,
    }
}

/// Returns how the token of a faucet is displayed, given what a node answered. If the faucet is not
/// available there is nothing to display, which is no error.
pub fn remote_token_metadata(answer: Result<AccountProof, RpcError>) -> (metadata: Result<
    Option<FaucetMetadata>,
    RpcError,
>)
    ensures
        match answer {
            Err(error) => if is_not_available(error) {
                metadata is Ok && metadata->Ok_0 is None
            } else {
                metadata == Err::<Option<FaucetMetadata>, _>(error)
            },
            Ok(account_proof) => metadata is Ok && match (
                account_proof.state_headers,
                slot_id_of(TOKEN_CONFIG_SLOT@),
            ) {
                (Some(details), Some(slot)) => match slot_of(
                    details.storage_details.header@,
                    slot,
                ) {
                    Some(header) => is_metadata_of(header.value, metadata->Ok_0),
                    None => metadata->Ok_0 is None,
                },
                _ => metadata->Ok_0 is None,
            },
        },
{
    match answer {
        Ok(account_proof) => Ok(token_metadata_of_proof(&account_proof)),
        Err(error) => {
            let not_available = matches!(
                error.endpoint_error(),
                Some(
                    EndpointError::GetAccount(
                        GetAccountError::AccountNotFound | GetAccountError::AccountNotPublic,
                    ),
                )
            );
            if not_available {
                Ok(None)
            } else {
                Err(error)
            }
        },
    }
}

/// The metadata of a faucet, with the symbol as a sequence.
#[verifier::ext_equal]
pub struct MetadataView {
    pub symbol: Seq<char>,
    pub decimals: u8,
}

impl View for FaucetMetadata {
    type V = MetadataView;

    open spec fn view(&self) -> MetadataView {
        MetadataView { symbol: self.symbol@, decimals: self.decimals }
    }
}

/// The bytes of the metadata of a faucet: the symbol in UTF-8 with its length, and the decimals.
pub open spec fn metadata_bytes(metadata: MetadataView) -> Seq<u8> {
    let symbol = encode_utf8(metadata.symbol);
    length_bytes(symbol.len()) + symbol + seq![metadata.decimals]
}

/// The metadata at the start of bytes, and how many bytes they take. There are none if there is no
/// length, if the bytes end before the symbol and the decimals do, or if the symbol is not UTF-8.
pub open spec fn metadata_at(bytes: Seq<u8>) -> Option<(MetadataView, nat)> {
    match length_at(bytes) {
        Some((length, size)) => {
            let end = size + length;
            let symbol = bytes.subrange(size as int, end as int);
            if end < bytes.len() && valid_utf8(symbol) {
                Some(
                    (
                        MetadataView { symbol: decode_utf8(symbol), decimals: bytes[end as int] },
                        end + 1,
                    ),
                )
            } else {
                None
            }
        },
        None => None,
    }
}

/// The metadata of a faucet are read back from their bytes, whatever follows them. The text of a symbol
/// always has fewer bytes than there are positions in memory.
pub proof fn law_metadata_are_read_back(metadata: MetadataView, rest: Seq<u8>)
    requires
        encode_utf8(metadata.symbol).len() <= usize::MAX,
    ensures
        metadata_at(metadata_bytes(metadata) + rest) == Some(
            (metadata, metadata_bytes(metadata).len()),
        ),
{
    let symbol = encode_utf8(metadata.symbol);
    let prefix = length_bytes(symbol.len());
    let tail = symbol + seq![metadata.decimals] + rest;
    let bytes = metadata_bytes(metadata) + rest;
    lemma_length_inverse(symbol.len(), tail);
    assert(bytes =~= prefix + tail);
    assert(bytes.subrange(prefix.len() as int, (prefix.len() + symbol.len()) as int) =~= symbol);
    encode_utf8_valid_utf8(metadata.symbol);
    encode_utf8_decode_utf8(metadata.symbol);
}

/// `String::from_utf8`: the text that bytes are the UTF-8 encoding of, or `None` if they are no such
/// encoding.
#[verifier::external_body]
fn text_from_utf8(bytes: Vec<u8>) -> (text: Option<String>)
    ensures
        match text {
            Some(text) => bytes@ == encode_utf8(text@),
            None => !valid_utf8(bytes@),
        },
{
    String::from_utf8(bytes).ok()
}

impl FaucetMetadata {
    /// Appends the bytes of the metadata.
    pub fn write_into(&self, bytes: &mut Vec<u8>)
        ensures
            final(bytes)@ == old(bytes)@ + metadata_bytes(self@),
    {
        let ghost before = bytes@;
        let symbol = self.symbol.as_str().as_bytes();
        write_length(bytes, symbol.len());
        bytes.extend_from_slice(symbol);
        bytes.push(self.decimals);
        assert(bytes@ =~= before + metadata_bytes(self@));
    }

    /// Reads the metadata from a position on. Returns the position after them too.
    pub fn read_from(bytes: &Vec<u8>, from: usize) -> (read: Option<(Self, usize)>)
        requires
            from <= bytes@.len(),
        ensures
            match (read, metadata_at(bytes@.skip(from as int))) {
                (Some((metadata, end)), Some((view, used))) => {
                    &&& metadata@ == view
                    &&& end == from + used
                    &&& end <= bytes@.len()
                },
                (None, None) => true,
                _ => false,
            },
    {
        let ghost all = bytes@.skip(from as int);
        let (length, size) = match read_length(bytes, from) {
            Some(read) => read,
            None => {
                proof {
                    if let Some((length, size)) = length_at(all) {
                        assert(bytes.len() <= usize::MAX);
                    }
                }
                return None;
            },
        };
        if length >= bytes.len() - from - size {
            return None;
        }
        let start: usize = from + size;
        let end: usize = start + length;
        let encoded = sub_vector(bytes, start, end);
        assert(encoded@ =~= all.subrange(size as int, size + length));
        match text_from_utf8(encoded) {
            Some(symbol) => {
                proof {
                    encode_utf8_valid_utf8(symbol@);
                    encode_utf8_decode_utf8(symbol@);
                }
                Some((FaucetMetadata { symbol, decimals: bytes[end] }, end + 1))
            },
            None => None,
        }
    }
}

// ADDRESSES
// ================================================================================================
/// How many bits of an account id a tag holds, unless an address says otherwise.
pub const DEFAULT_TAG_LENGTH: u8 = 14;

/// How many bits of an account id a tag can hold.
pub const MAX_TAG_LENGTH: u8 = 32;

/// An address of an account. Addresses with the same text are the same.
#[derive(Debug)]
pub struct Address {
    pub text: String,
    pub account_id: AccountId,
    /// How many bits of the account id the tag of the address holds, if the address says so.
    pub note_tag_len: Option<u8>,
}

/// The first half of an account id, which says of what version and type the account is.
pub open spec fn id_prefix(id: AccountId) -> int {
    id as int / radix()
}

/// The integer is the id of an account: the first half is a field element of version one, and the
/// second half starts with a zero bit. The last byte does not belong to the id.
pub open spec fn is_account_id_of(id: AccountId) -> bool {
    &&& id_prefix(id) < FIELD_ORDER
    &&& id_prefix(id) % 16 == 1
    &&& id as int % radix() < radix() / 2
}

/// The id is that of an account whose state is not on the chain.
pub open spec fn is_private_of(id: AccountId) -> bool {
    is_account_id_of(id) && id_prefix(id) / 16 % 2 == 0
}

/// The id is that of an account whose state is on the chain.
pub open spec fn is_public_of(id: AccountId) -> bool {
    is_account_id_of(id) && id_prefix(id) / 16 % 2 == 1
}

/// `AccountId::is_private`: true if the integer is the id of a private account.
#[verifier::external_body]
pub(crate) fn is_private(id: AccountId) -> (private: bool)
    ensures
        private == is_private_of(id),
{
    ProtocolAccountId::try_from(id).is_ok_and(|id| id.is_private())
}

/// The first bits of an account id, followed by zeros.
pub open spec fn first_bits(id: AccountId, length: u8) -> NoteTag {
    (id as nat / pow2((128 - length) as nat) * pow2((32 - length) as nat)) as u32
}

/// The tag of notes for an account that holds this many bits of the id.
pub open spec fn target_tag_of(id: AccountId, length: u8) -> Option<NoteTag> {
    if is_account_id_of(id) && length <= MAX_TAG_LENGTH {
        Some(first_bits(id, length))
    } else {
        None
    }
}

/// `NoteTag::with_custom_account_target`: the first bits of the account id, followed by zeros; `None`
/// if a tag does not hold so many, or if the integer is not an account id.
#[verifier::external_body]
fn target_tag(id: AccountId, length: u8) -> (tag: Option<NoteTag>)
    ensures
        tag is Some <==> (is_account_id_of(id) && length <= MAX_TAG_LENGTH),
        tag is Some ==> tag == Some(first_bits(id, length)),
{
    let id = ProtocolAccountId::try_from(id).ok()?;
    Some(ProtocolNoteTag::with_custom_account_target(id, length).ok()?.as_u32())
}

impl Address {
    /// How many bits of the account id the tag of the address holds.
    pub open spec fn tag_length(self) -> u8 {
        match self.note_tag_len {
            Some(length) => length,
            None => DEFAULT_TAG_LENGTH,
        }
    }

    /// The tag of notes that are sent to the address.
    pub open spec fn tag(self) -> Option<NoteTag> {
        target_tag_of(self.account_id, self.tag_length())
    }

    /// Returns the tag of notes that are sent to the address; `None` if the address is not valid.
    pub fn to_note_tag(&self) -> (tag: Option<NoteTag>)
        ensures
            tag == self.tag(),
    {
        let length: u8 = match self.note_tag_len {
            Some(length) => length,
            None => DEFAULT_TAG_LENGTH,
        };
        target_tag(self.account_id, length)
    }
}

/// Why an address is not added.
#[derive(Clone, Copy, Debug, PartialEq, Eq, Structural)]
pub enum AddAddressError {
    AddressAlreadyTracked,
    /// The account of the address is not tracked.
    AccountDataNotFound(AccountId),
}

/// The address is among those of the account.
pub open spec fn is_known_address(known: Seq<Address>, address: Address) -> bool {
    exists|i: int| 0 <= i < known.len() && (#[trigger] known[i]).text@ == address.text@
}

/// Returns true if the address is among those of the account.
fn contains_address(known: &Vec<Address>, address: &Address) -> (found: bool)
    ensures
        found == is_known_address(known@, *address),
{
    let mut i: usize = 0;
    while i < known.len()
        invariant
            i <= known.len(),
            forall|k: int| 0 <= k < i ==> (#[trigger] known@[k]).text@ != address.text@,
        decreases known.len() - i,
    {
        if known[i].text == address.text {
            assert(known@[i as int].text@ == address.text@);
            return true;
        }
        i += 1;
    }
    false
}

/// Decides whether an address is added to an account. Returns its tag if that is tracked too, which
/// is not done for a watched account, since no notes are received for it.
pub fn plan_add_address(
    known: &Vec<Address>,
    address: &Address,
    account_id: AccountId,
    stored: Option<ClientAccountType>,
) -> (note_tag: Result<Option<NoteTag>, AddAddressError>)
    ensures
        note_tag == if is_known_address(known@, *address) {
            Err::<Option<NoteTag>, _>(AddAddressError::AddressAlreadyTracked)
        } else {
            match stored {
                None => Err::<Option<NoteTag>, _>(AddAddressError::AccountDataNotFound(account_id)),
                Some(ClientAccountType::Native) => Ok::<_, AddAddressError>(address.tag()),
                Some(ClientAccountType::Watched) => Ok::<_, AddAddressError>(None),
            }
        },
{
    if contains_address(known, address) {
        return Err(AddAddressError::AddressAlreadyTracked);
    }
    match stored {
        None => Err(AddAddressError::AccountDataNotFound(account_id)),
        Some(ClientAccountType::Native) => Ok(address.to_note_tag()),
        Some(ClientAccountType::Watched) => Ok(None),
    }
}

/// One of the addresses has the tag.
pub open spec fn has_tag(addresses: Seq<Address>, tag: NoteTag) -> bool {
    exists|i: int| 0 <= i < addresses.len() && (#[trigger] addresses[i]).tag() == Some(tag)
}

/// Returns the tag that is not tracked any more after an address was removed: that of the address, if
/// no other address of the account has it.
pub fn tag_to_remove(remaining: &Vec<Address>, removed: &Address) -> (note_tag: Option<NoteTag>)
    ensures
        note_tag == match removed.tag() {
            Some(tag) => if has_tag(remaining@, tag) {
                None
            } else {
                Some(tag)
            },
            None => None,
        },
{
    let tag: NoteTag = match removed.to_note_tag() {
        Some(tag) => tag,
        None => {
            return None;
        },
    };
    let mut i: usize = 0;
    while i < remaining.len()
        invariant
            i <= remaining.len(),
            removed.tag() == Some(tag),
            forall|k: int| 0 <= k < i ==> (#[trigger] remaining@[k]).tag() != Some(tag),
        decreases remaining.len() - i,
    {
        if let Some(other) = remaining[i].to_note_tag() {
            if other == tag {
                assert(remaining@[i as int].tag() == Some(tag));
                return None;
            }
        }
        i += 1;
    }
    Some(tag)
}

// WALLETS
// ================================================================================================
/// Who can see the state of an account.
#[derive(Clone, Copy, Debug, PartialEq, Eq, Structural)]
pub enum AccountVisibility {
    Public,
    Private,
}

/// The id is that of an account that can be seen so.
pub open spec fn is_visible_as(id: AccountId, visibility: AccountVisibility) -> bool {
    match visibility {
        AccountVisibility::Public => is_public_of(id),
        AccountVisibility::Private => is_private_of(id),
    }
}

/// The id of the wallet that is made from a seed, the commitment to a public key, the number of its
/// scheme, and who can see it; `None` if there is no such scheme or no such wallet.
pub uninterp spec fn wallet_id_of(
    init_seed: Seq<u8>,
    key_commitment: Word,
    auth_scheme: u8,
    visibility: AccountVisibility,
) -> Option<AccountId>;

/// `AccountBuilder` with the components `AuthSingleSig` and `BasicWallet`, and its
/// `build_with_schema_commitment`: the id of the wallet, which says who can see it. The search for an
/// id that fits is only named.
#[verifier::external_body]
fn wallet_id(
    init_seed: [u8; 32],
    key_commitment: Word,
    auth_scheme: u8,
    visibility: AccountVisibility,
) -> (id: Option<AccountId>)
    ensures
        id == wallet_id_of(init_seed@, key_commitment, auth_scheme, visibility),
        id is Some ==> is_visible_as(id->0, visibility),
{
    let key = miden_protocol::Word::new(key_commitment.elements().map(Felt::new_unchecked));
    let scheme = AuthScheme::try_from(auth_scheme).ok()?;
    let account_type = match visibility {
        AccountVisibility::Public => AccountType::Public,
        AccountVisibility::Private => AccountType::Private,
    };
    let wallet = AccountBuilder::new(init_seed)
        .account_type(account_type)
        .with_auth_component(AuthSingleSig::new(PublicKeyCommitment::from(key), scheme))
        .with_component(BasicWallet)
        .build_with_schema_commitment();
    wallet.ok().map(|account| account.id().into())
}

/// There is no wallet with the parameters.
#[derive(Clone, Copy, Debug, PartialEq, Eq, Structural)]
pub struct WalletBuildError {}

/// Returns the id of the wallet that is made from a seed, the commitment to a public key, the number
/// of its scheme, and who can see it. The id can be used to import a public account.
pub fn build_wallet_id(
    init_seed: [u8; 32],
    key_commitment: Word,
    auth_scheme: u8,
    visibility: AccountVisibility,
) -> (id: Result<AccountId, WalletBuildError>)
    ensures
        match wallet_id_of(init_seed@, key_commitment, auth_scheme, visibility) {
            Some(named) => id == Ok::<_, WalletBuildError>(named) && is_visible_as(named, visibility),
            None => id is Err,
        },
{
    match wallet_id(init_seed, key_commitment, auth_scheme, visibility) {
        Some(id) => Ok(id),
        None => Err(WalletBuildError {  }),
    }
}

} // verus!
