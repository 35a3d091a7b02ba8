//! What holds of tracked accounts, their addresses and faucets, over all of them.
use vstd::arithmetic::div_mod::{
    lemma_div_multiples_vanish, lemma_fundamental_div_mod, lemma_mod_multiples_basic,
};
use vstd::arithmetic::power2::{lemma2_to64, lemma_pow2_adds, lemma_pow2_pos, pow2};
use vstd::prelude::*;
use vstd::utf8::{decode_utf8, encode_utf8, valid_utf8};

use crate::account::{
    add_account_problem, check_network_commitment, describes_token, first_bits, has_tag, id_prefix,
    is_account_id_of, is_known_address, is_metadata_of, is_not_available, is_not_found,
    is_private_of, is_public_of, is_symbol, is_visible_as, letters_value, metadata_at,
    metadata_bytes, metadata_of_token, plan_add_account, plan_add_address, symbol_value,
    tag_to_remove, target_tag_of, token_symbol_of, AccountVisibility, AddAccountAction,
    AddAccountError, AddAddressError, Address, ClientAccountType, FaucetMetadata, MetadataView,
    NewAccount, TrackedAccount,
};
use crate::bytes::{length_at, length_bytes};
use crate::rpc::errors::node::{EndpointError, GetAccountError};
use crate::rpc::errors::rpc_error::RpcError;
use crate::types::{AccountId, NoteTag, Word};

verus! {

// ADDING ACCOUNTS
// ================================================================================================
/// A new account needs its seed. An account that is tracked is replaced if and only if that was asked
/// for, it is tracked in the same way, and what replaces it is not older. What is reported is what
/// failed first.
pub proof fn law_add_account(
    account: NewAccount,
    client_account_type: ClientAccountType,
    stored: Option<TrackedAccount>,
    overwrite: bool,
)
    ensures
        ({
            let problem = add_account_problem(account, client_account_type, stored, overwrite);
            let seedless = account.is_new && !account.has_seed;
            &&& seedless <==> problem == Some(AddAccountError::AddNewAccountWithoutSeed)
            &&& stored is None && !seedless ==> problem is None
            &&& !seedless && stored is Some && !overwrite <==> problem == Some(
                AddAccountError::AccountAlreadyTracked(account.id),
            )
            &&& stored matches Some(tracking) ==> {
                let same = tracking.client_account_type == client_account_type;
                &&& !seedless && overwrite && !same <==> problem == Some(
                    AddAccountError::AccountWatchedMismatch(account.id),
                )
                &&& !seedless && overwrite && same && account.nonce < tracking.nonce <==> problem
                    == Some(AddAccountError::AccountNonceTooLow)
                &&& !seedless && overwrite && same && account.nonce >= tracking.nonce
                    <==> problem is None
            }
        }),
{
}

/// An account that the node does not have, or that is not public, is not available; any other error is
/// an error.
pub proof fn law_account_errors(error: RpcError)
    ensures
        is_not_found(error) <==> (error matches RpcError::RequestError { endpoint_error, .. }
            && endpoint_error == Some(
            EndpointError::GetAccount(GetAccountError::AccountNotFound),
        )),
        is_not_available(error) <==> (error matches RpcError::RequestError { endpoint_error, .. }
            && (endpoint_error == Some(EndpointError::GetAccount(GetAccountError::AccountNotFound))
            || endpoint_error == Some(EndpointError::GetAccount(GetAccountError::AccountNotPublic)))),
{
}

// FAUCETS
// ================================================================================================
/// The letters are read as digits to the base 26, the first letter being the most significant.
pub proof fn law_letters(text: Seq<char>, letter: char)
    requires
        'A' <= letter <= 'Z',
    ensures
        letters_value(Seq::empty()) == 0,
        letters_value(text.push(letter)) == letters_value(text) * 26 + (letter as int - 'A' as int),
        symbol_value(text) == letters_value(text) * 26 + text.len(),
{
    assert(text.push(letter).drop_last() =~= text);
}

/// Symbols are told apart by the elements that stand for them.
pub proof fn law_symbols_are_told_apart(a: Seq<char>, b: Seq<char>)
    requires
        is_symbol(a),
        is_symbol(b),
        symbol_value(a) == symbol_value(b),
    ensures
        a == b,
{
    assert(a.len() == symbol_value(a) % 26);
    assert(b.len() == symbol_value(b) % 26);
    assert(letters_value(a) == symbol_value(a) / 26);
    assert(letters_value(b) == symbol_value(b) / 26);
    lemma_letters_injective(a, b);
}

/// Texts of one length with the same value are the same.
proof fn lemma_letters_injective(a: Seq<char>, b: Seq<char>)
    requires
        a.len() == b.len(),
        forall|i: int| 0 <= i < a.len() ==> 'A' <= #[trigger] a[i] <= 'Z',
        forall|i: int| 0 <= i < b.len() ==> 'A' <= #[trigger] b[i] <= 'Z',
        letters_value(a) == letters_value(b),
    ensures
        a == b,
    decreases a.len(),
{
    if a.len() > 0 {
        let n = a.len() - 1;
        assert('A' <= a[n] <= 'Z' && 'A' <= b[n] <= 'Z');
        let x = (a.last() as nat - 'A' as nat) as nat;
        let y = (b.last() as nat - 'A' as nat) as nat;
        assert(x < 26 && y < 26);
        assert(x == letters_value(a) % 26 && y == letters_value(b) % 26);
        assert forall|i: int| 0 <= i < n implies 'A' <= #[trigger] a.drop_last()[i] <= 'Z' by {
            assert(a.drop_last()[i] == a[i]);
        }
        assert forall|i: int| 0 <= i < n implies 'A' <= #[trigger] b.drop_last()[i] <= 'Z' by {
            assert(b.drop_last()[i] == b[i]);
        }
        lemma_letters_injective(a.drop_last(), b.drop_last());
        assert(a =~= a.drop_last().push(a.last()));
        assert(b =~= b.drop_last().push(b.last()));
    } else {
        assert(a =~= b);
    }
}

/// A symbol has one to twelve letters, all of them capital.
pub proof fn law_symbol(text: Seq<char>)
    ensures
        is_symbol(text) <==> text.len() >= 1 && text.len() <= 12 && forall|i: int|
            0 <= i < text.len() ==> 65 <= (#[trigger] text[i]) as int <= 90,
{
    assert('A' as int == 65 && 'Z' as int == 90);
}

/// A token is displayed if and only if its last element stands for a symbol and it has at most twelve
/// decimals, and then with these.
pub proof fn law_metadata(token_config: Word, metadata: Option<FaucetMetadata>)
    ensures
        is_metadata_of(token_config, metadata) <==> match metadata {
            Some(found) => token_symbol_of(token_config.e3) == Some(found.symbol@)
                && token_config.e2 <= 12 && found.decimals == token_config.e2,
            None => token_symbol_of(token_config.e3) is None || token_config.e2 > 12,
        },
{
}

/// A new token has nothing issued, its largest supply, its decimals and its symbol, in this order.
pub proof fn law_token_layout(
    token_config: Word,
    symbol: Seq<char>,
    decimals: u8,
    max_supply: u64,
)
    ensures
        describes_token(token_config, symbol, decimals, max_supply) <==> token_config == (Word {
            e0: 0,
            e1: max_supply,
            e2: decimals as u64,
            e3: token_config.e3,
        }) && token_config.e3 as nat == letters_value(symbol) * 26 + symbol.len(),
{
}

/// Metadata are written as the length of the symbol, the symbol and the decimals.
pub proof fn law_metadata_layout(metadata: MetadataView)
    ensures
        ({
            let bytes = metadata_bytes(metadata);
            let symbol = encode_utf8(metadata.symbol);
            let size = length_bytes(symbol.len()).len() as int;
            &&& bytes.len() == size + symbol.len() + 1
            &&& bytes.take(size) == length_bytes(symbol.len())
            &&& bytes.subrange(size, size + symbol.len()) == symbol
            &&& bytes.last() == metadata.decimals
        }),
{
    let bytes = metadata_bytes(metadata);
    let symbol = encode_utf8(metadata.symbol);
    let size = length_bytes(symbol.len()).len() as int;
    assert(bytes.take(size) =~= length_bytes(symbol.len()));
    assert(bytes.subrange(size, size + symbol.len()) =~= symbol);
}

// ADDRESSES
// ================================================================================================
/// An id is that of an account if and only if its first half is below the order of the field and ends
/// with the version one, and its second half starts with a zero bit. The bit before the version says
/// whether the account is private or public; it is one of them.
pub proof fn law_account_ids(id: AccountId)
    ensures
        ({
            let prefix = id as int / 0x1_0000_0000_0000_0000;
            let suffix = id as int % 0x1_0000_0000_0000_0000;
            &&& id_prefix(id) == prefix
            &&& is_account_id_of(id) <==> prefix < 0xffff_ffff_0000_0001 && prefix % 16 == 1
                && suffix < 0x8000_0000_0000_0000
            &&& is_private_of(id) <==> is_account_id_of(id) && prefix % 32 == 1
            &&& is_public_of(id) <==> is_account_id_of(id) && prefix % 32 == 17
            &&& is_account_id_of(id) ==> is_private_of(id) != is_public_of(id)
        }),
{
}

/// A tag holds the first bits of the id, as many as it is to hold, and zeros after them.
pub proof fn law_first_bits(id: AccountId, length: u8)
    requires
        length <= 32,
    ensures
        first_bits(id, length) as nat / pow2((32 - length) as nat) == id as nat / pow2(
            (128 - length) as nat,
        ),
        first_bits(id, length) as nat % pow2((32 - length) as nat) == 0,
{
    let low = pow2((32 - length) as nat) as int;
    let high = pow2((128 - length) as nat) as int;
    let head = pow2(length as nat) as int;
    let q = id as int / high;
    lemma_pow2_pos((32 - length) as nat);
    lemma_pow2_pos((128 - length) as nat);
    lemma_pow2_pos(length as nat);
    lemma2_to64();
    lemma_pow2_adds(length as nat, (32 - length) as nat);
    lemma_pow2_adds(length as nat, (128 - length) as nat);
    lemma_pow2_adds(64, 64);
    vstd::arithmetic::power2::lemma2_to64_rest();
    assert(pow2(128) == 0x1_0000_0000_0000_0000 * 0x1_0000_0000_0000_0000);
    assert(head * high == pow2(128) && head * low == 0x1_0000_0000);
    assert(id as int <= head * high - 1);
    assert(q < head) by {
        lemma_fundamental_div_mod(id as int, high);
        assert(q < head) by (nonlinear_arith)
            requires
                id as int == high * q + id as int % high,
                id as int % high >= 0,
                (id as int) < head * high,
                high > 0,
        ;
    }
    assert(q >= 0) by (nonlinear_arith)
        requires
            q == id as int / high,
            id as int >= 0,
            high > 0,
    ;
    assert(0 <= q * low < 0x1_0000_0000) by (nonlinear_arith)
        requires
            0 <= q < head,
            head * low == 0x1_0000_0000,
            low > 0,
    ;
    assert(first_bits(id, length) as int == q * low);
    lemma_div_multiples_vanish(q, low);
    lemma_mod_multiples_basic(q, low);
    assert(q * low == low * q) by (nonlinear_arith);
}

/// There is a tag for an account, and for no other number, of at most 32 bits.
pub proof fn law_target_tag(id: AccountId, length: u8, address: Address)
    ensures
        target_tag_of(id, length) is Some <==> is_account_id_of(id) && length <= 32,
        target_tag_of(id, length) is Some ==> target_tag_of(id, length) == Some(
            first_bits(id, length),
        ),
        address.note_tag_len is None ==> address.tag() == target_tag_of(address.account_id, 14),
        address.note_tag_len matches Some(own) ==> address.tag() == target_tag_of(
            address.account_id,
            own,
        ),
{
}

/// An address is known if any of the known ones, wherever it stands, has its text. A tag is in use if
/// any of the addresses has it.
pub proof fn law_addresses(known: Seq<Address>, address: Address, tag: NoteTag, i: int)
    ensures
        0 <= i < known.len() && known[i].text@ == address.text@ ==> is_known_address(
            known,
            address,
        ),
        is_known_address(known, address) ==> exists|k: int|
            0 <= k < known.len() && (#[trigger] known[k]).text@ == address.text@,
        0 <= i < known.len() && known[i].tag() == Some(tag) ==> has_tag(known, tag),
        has_tag(known, tag) ==> exists|k: int|
            0 <= k < known.len() && (#[trigger] known[k]).tag() == Some(tag),
{
}

/// A wallet is visible as what its id says.
pub proof fn law_visibility(id: AccountId, visibility: AccountVisibility)
    ensures
        is_visible_as(id, visibility) ==> is_account_id_of(id) && (id as int
            / 0x10_0000_0000_0000_0000 % 2 == 1) == (visibility is Public),
        is_account_id_of(id) && (id as int / 0x10_0000_0000_0000_0000 % 2 == 1) == (
        visibility is Public) ==> is_visible_as(id, visibility),
{
    assert(id as int / 0x1_0000_0000_0000_0000 / 16 == id as int / 0x10_0000_0000_0000_0000);
}


/// Metadata are read if and only if there is a length, behind it as many bytes that are UTF-8, and behind
/// these one more for the decimals.
pub proof fn law_metadata_are_read(bytes: Seq<u8>)
    ensures
        length_at(bytes) is None ==> metadata_at(bytes) is None,
        length_at(bytes) matches Some((length, size)) ==> {
            let end = (size + length) as int;
            let symbol = bytes.subrange(size as int, end);
            &&& metadata_at(bytes) is Some <==> end < bytes.len() && valid_utf8(symbol)
            &&& metadata_at(bytes) matches Some((found, used)) ==> found.symbol == decode_utf8(
                symbol,
            ) && found.decimals == bytes[end] && used == end + 1
        },
{
}


// CALLS
// ================================================================================================
/// An account that is not tracked is stored, and receives notes if it is native. A tracked one is
/// replaced, after the network was asked if it is native or locked.
pub proof fn law_account_is_added(
    account: NewAccount,
    client_account_type: ClientAccountType,
    stored: Option<TrackedAccount>,
    overwrite: bool,
    action: Result<AddAccountAction, AddAccountError>,
)
    requires
        call_ensures(plan_add_account, (&account, client_account_type, stored, overwrite), action),
    ensures
        action is Ok <==> (!account.is_new || account.has_seed) && (stored is None || (overwrite
            && stored->0.client_account_type == client_account_type && stored->0.nonce
            <= account.nonce)),
        action matches Ok(AddAccountAction::Insert { note_tag }) ==> stored is None && (
        client_account_type is Watched ==> note_tag is None) && (client_account_type is Native
            ==> note_tag == target_tag_of(account.id, 14)),
        action == Ok::<_, AddAccountError>(AddAccountAction::Update) ==> stored is Some
            && client_account_type is Watched && !stored->0.is_locked,
        action == Ok::<_, AddAccountError>(AddAccountAction::UpdateIfOnNetwork) ==> stored is Some
            && (client_account_type is Native || stored->0.is_locked),
{
    law_add_account(account, client_account_type, stored, overwrite);
}

/// A state replaces the tracked one only if the network has it.
pub proof fn law_network_has_the_state(
    account: NewAccount,
    network_commitment: Word,
    checked: Result<(), AddAccountError>,
)
    requires
        call_ensures(check_network_commitment, (&account, network_commitment), checked),
    ensures
        checked is Ok <==> account.commitment == network_commitment,
        checked matches Err(error) ==> error == AddAccountError::AccountCommitmentMismatch(
            network_commitment,
        ),
{
}

/// A token is displayed if it has a symbol and at most twelve decimals.
pub proof fn law_displayed_token(
    symbol: Option<String>,
    decimals: u64,
    metadata: Option<FaucetMetadata>,
)
    requires
        call_ensures(metadata_of_token, (symbol, decimals), metadata),
    ensures
        metadata is Some <==> symbol is Some && decimals <= 12,
        metadata matches Some(found) ==> symbol == Some(found.symbol) && found.decimals == decimals,
{
}

/// An address is added if it is not known and its account is tracked; its tag is tracked for an account
/// that is native.
pub proof fn law_address_is_added(
    known: Vec<Address>,
    address: Address,
    account_id: AccountId,
    stored: Option<ClientAccountType>,
    added: Result<Option<NoteTag>, AddAddressError>,
    k: int,
)
    requires
        call_ensures(plan_add_address, (&known, &address, account_id, stored), added),
    ensures
        0 <= k < known@.len() && known@[k].text@ == address.text@ ==> added == Err::<
            Option<NoteTag>,
            _,
        >(AddAddressError::AddressAlreadyTracked),
        added is Ok ==> stored is Some,
        added matches Ok(tag) ==> (stored == Some(ClientAccountType::Native) ==> tag
            == address.tag()) && (stored == Some(ClientAccountType::Watched) ==> tag is None),
        added == Err::<Option<NoteTag>, _>(AddAddressError::AddressAlreadyTracked) ==> exists|j: int|
            0 <= j < known@.len() && (#[trigger] known@[j]).text@ == address.text@,
        added is Err && added->Err_0 is AccountDataNotFound ==> stored is None,
{
    law_addresses(known@, address, 0, k);
}

/// The tag of an address that was removed is given up if and only if no address that is left has it.
pub proof fn law_tag_is_given_up(
    remaining: Vec<Address>,
    removed: Address,
    given_up: Option<NoteTag>,
    tag: NoteTag,
    k: int,
)
    requires
        call_ensures(tag_to_remove, (&remaining, &removed), given_up),
    ensures
        given_up == Some(tag) ==> removed.tag() == Some(tag),
        given_up == Some(tag) && 0 <= k < remaining@.len() ==> remaining@[k].tag() != Some(tag),
        removed.tag() == Some(tag) && given_up is None ==> exists|j: int|
            0 <= j < remaining@.len() && (#[trigger] remaining@[j]).tag() == Some(tag),
{
    law_addresses(remaining@, removed, tag, k);
}

} // verus!
