//! Checking that an answer of a node is about what was asked.
use vstd::prelude::*;

use crate::collections::{
    contains_key, first_some, lemma_first_some_at, lemma_first_some_none, lemma_first_some_step,
    lists_set, sorted_set, OrdKey,
};
use crate::protocol_config::{word_hex, word_hex_of};
use crate::rpc::domain::account_proof::{AccountProof, AccountStateAt};
use crate::rpc::domain::note::{
    nullifier_prefix, prefix_of, CommittedNote, FetchedNote, NoteScript, NullifierUpdate,
    SyncNotesBlock,
};
use crate::rpc::domain::transaction::TransactionRecord;
use crate::rpc::errors::rpc_error::RpcError;
use crate::text::{decimal, decimal_of, hex, hex_of, joined};
use crate::types::{AccountId, BlockNumber, NoteId, NoteTag, Word};

verus! {

// TEXTS
// ================================================================================================
/// The hexadecimal digits of an account id, as it is displayed: without the last byte, which is zero.
pub open spec fn account_text(account_id: AccountId) -> Seq<char> {
    "0x"@ + hex_of(account_id as nat / 256, 30)
}

/// Returns the hexadecimal digits of an account id.
fn account_hex(account_id: AccountId) -> (text: String)
    ensures
        text@ == account_text(account_id),
{
    "0x".to_owned().concat(hex(account_id / 256, 30).as_str())
}

/// A key by which something is requested, and how it is displayed.
pub trait RequestKey: OrdKey {
    /// The text of the key.
    spec fn text_of(self) -> Seq<char>;

    /// Returns the text of the key.
    fn text(&self) -> (text: String)
        ensures
            text@ == self.text_of(),
    ;
}

/// The id of a note.
impl RequestKey for Word {
    open spec fn text_of(self) -> Seq<char> {
        word_hex_of(self)
    }

    fn text(&self) -> (text: String) {
        word_hex(*self)
    }
}

/// The tag of notes.
impl RequestKey for u32 {
    open spec fn text_of(self) -> Seq<char> {
        decimal_of(self as nat)
    }

    fn text(&self) -> (text: String) {
        decimal(*self as u64)
    }
}

/// The prefix of nullifiers.
impl RequestKey for u16 {
    open spec fn text_of(self) -> Seq<char> {
        decimal_of(self as nat)
    }

    fn text(&self) -> (text: String) {
        decimal(*self as u64)
    }
}

/// The id of an account.
impl RequestKey for u128 {
    open spec fn text_of(self) -> Seq<char> {
        account_text(self)
    }

    fn text(&self) -> (text: String) {
        account_hex(*self)
    }
}

/// The texts of the keys.
pub open spec fn texts_of<K: RequestKey>(keys: Seq<K>) -> Seq<Seq<char>> {
    keys.map_values(|key: K| key.text_of())
}

/// Returns the texts of the keys, with a comma between each and the next.
fn joined_keys<K: RequestKey>(keys: &Vec<K>) -> (text: String)
    ensures
        text@ == joined(texts_of(keys@)),
{
    let ghost texts = texts_of(keys@);
    if keys.len() == 0 {
        proof {
            reveal_strlit("");
        }
        let text = "".to_owned();
        assert(text@ =~= joined(texts));
        return text;
    }
    let mut text = keys[0].text();
    let mut i: usize = 1;
    assert(texts.take(1)[0] == keys@[0].text_of());
    while i < keys.len()
        invariant
            1 <= i <= keys.len(),
            texts == texts_of(keys@),
            text@ == joined(texts.take(i as int)),
        decreases keys.len() - i,
    {
        proof {
            assert(texts.take(i + 1).drop_last() =~= texts.take(i as int));
            assert(texts.take(i + 1).last() == keys@[i as int].text_of());
        }
        text = text.concat(", ").concat(keys[i].text().as_str());
        i += 1;
    }
    assert(texts.take(i as int) =~= texts);
    text
}

/// The answer is refused with the text.
pub open spec fn is_refused(checked: Result<(), RpcError>, text: Seq<char>) -> bool {
    checked matches Err(RpcError::InvalidResponse(message)) && message@ == text
}

/// The answer is refused because of a key that was not requested. Those that were are listed in
/// ascending order.
pub open spec fn is_unrequested<K: RequestKey>(
    checked: Result<(), RpcError>,
    what: Seq<char>,
    requested: Seq<K>,
    returned: K,
) -> bool {
    exists|listed: Seq<K>| #[trigger]
        lists_set(listed, requested.to_set()) && is_refused(
            checked,
            what + returned.text_of() + " but ["@ + joined(texts_of(listed)) + "] were requested"@,
        )
}

/// Refuses an answer because of a key that was not requested.
fn refuse_key<K: RequestKey>(what: &str, requested: &Vec<K>, returned: K) -> (checked: Result<
    (),
    RpcError,
>)
    ensures
        is_unrequested(checked, what@, requested@, returned),
{
    let listed = sorted_set(requested);
    let text = what.to_owned().concat(returned.text().as_str()).concat(" but [").concat(
        joined_keys(&listed).as_str(),
    ).concat("] were requested");
    let checked = Err(RpcError::InvalidResponse(text));
    assert(lists_set(listed@, requested@.to_set()));
    checked
}

/// What is said of another block than the requested one.
pub open spec fn block_text(requested: BlockNumber, returned: BlockNumber) -> Seq<char> {
    "node returned block "@ + decimal_of(returned as nat) + " but block "@ + decimal_of(
        requested as nat,
    ) + " was requested"@
}

/// What is said of a proof of another account.
pub open spec fn proof_text(requested: AccountId, returned: AccountId) -> Seq<char> {
    "node returned proof for account "@ + account_text(returned) + " but "@ + account_text(requested)
        + " was requested"@
}

/// What is said of a script with another root.
pub open spec fn script_text(requested: Word, returned: Word) -> Seq<char> {
    "node returned note script with root "@ + word_hex_of(returned) + " for requested root "@
        + word_hex_of(requested)
}

// CHECKS
// ================================================================================================
/// A client of a node whose answers are checked.
#[derive(Debug)]
pub struct VerifyingRpcClient<T>(pub T);

impl<T> VerifyingRpcClient<T> {
    /// Wraps a client.
    pub fn new(client: T) -> (verifying: Self)
        ensures
            verifying.0 == client,
    {
        VerifyingRpcClient(client)
    }

    /// Returns the wrapped client.
    pub fn inner(&self) -> (client: &T)
        ensures
            *client == self.0,
    {
        &self.0
    }
}

/// For each returned key, the key if it was not requested.
pub open spec fn unrequested<K>(requested: Seq<K>, returned: Seq<K>) -> Seq<Option<K>> {
    returned.map_values(
        |key: K|
            if requested.contains(key) {
                None
            } else {
                Some(key)
            },
    )
}

/// An answer is accepted if and only if everything in it was requested.
pub proof fn law_accepted_is_requested<K>(requested: Seq<K>, returned: Seq<K>)
    ensures
        first_some(unrequested(requested, returned)) is None <==> forall|i: int|
            0 <= i < returned.len() ==> requested.contains(#[trigger] returned[i]),
{
    let problems = unrequested(requested, returned);
    lemma_first_some_none(problems);
    if forall|i: int| 0 <= i < problems.len() ==> (#[trigger] problems[i]) is None {
        assert forall|i: int| 0 <= i < returned.len() implies requested.contains(
            #[trigger] returned[i],
        ) by {
            assert(problems[i] is None);
        }
    }
    if forall|i: int| 0 <= i < returned.len() ==> requested.contains(#[trigger] returned[i]) {
        assert forall|i: int| 0 <= i < problems.len() implies (#[trigger] problems[i]) is None by {
            assert(requested.contains(returned[i]));
        }
    }
}

/// Returns the first key that was not requested.
fn first_unrequested<K: OrdKey>(requested: &Vec<K>, returned: &Vec<K>) -> (key: Option<K>)
    ensures
        key == first_some(unrequested(requested@, returned@)),
{
    let ghost problems = unrequested(requested@, returned@);
    let mut i: usize = 0;
    while i < returned.len()
        invariant
            i <= returned.len(),
            problems == unrequested(requested@, returned@),
            first_some(problems.take(i as int)) is None,
        decreases returned.len() - i,
    {
        if !contains_key(requested, &returned[i]) {
            proof {
                lemma_first_some_at(problems, i as int);
            }
            return Some(returned[i]);
        }
        proof {
            lemma_first_some_step(problems, i as int);
        }
        i += 1;
    }
    assert(problems.take(i as int) =~= problems);
    None
}

/// Checks that a block is the requested one, if one was requested by its number.
pub fn verify_block_num(requested: Option<BlockNumber>, returned: BlockNumber) -> (checked: Result<
    (),
    RpcError,
>)
    ensures
        match requested {
            Some(number) => if number == returned {
                checked is Ok
            } else {
                is_refused(checked, block_text(number, returned))
            },
            None => checked is Ok,
        },
{
    if let Some(requested) = requested {
        if returned != requested {
            let text = "node returned block ".to_owned().concat(decimal(returned as u64).as_str()).concat(
                " but block ",
            ).concat(decimal(requested as u64).as_str()).concat(" was requested");
            return Err(RpcError::InvalidResponse(text));
        }
    }
    Ok(())
}

/// The ids of the notes.
pub open spec fn ids_of_notes(notes: Seq<FetchedNote>) -> Seq<NoteId> {
    notes.map_values(|note: FetchedNote| note.note_id())
}

/// Checks that every note was requested.
pub fn verify_note_ids(requested: &Vec<NoteId>, notes: &Vec<FetchedNote>) -> (checked: Result<
    (),
    RpcError,
>)
    ensures
        match first_some(unrequested(requested@, ids_of_notes(notes@))) {
            Some(returned) => is_unrequested(
                checked,
                "node returned note "@,
                requested@,
                returned,
            ),
            None => checked is Ok,
        },
{
    let mut returned: Vec<NoteId> = Vec::new();
    let mut i: usize = 0;
    while i < notes.len()
        invariant
            i <= notes.len(),
            returned@.len() == i,
            forall|k: int| 0 <= k < i ==> #[trigger] returned@[k] == notes@[k].note_id(),
        decreases notes.len() - i,
    {
        returned.push(notes[i].id());
        i += 1;
    }
    assert(returned@ =~= ids_of_notes(notes@));
    match first_unrequested(requested, &returned) {
        Some(returned) => refuse_key("node returned note ", requested, returned),
        None => Ok(()),
    }
}

/// The tags of the notes of a block, in the order of their ids.
pub open spec fn tags_of_block(block: SyncNotesBlock) -> Seq<NoteTag> {
    block.notes.listing().map_values(|entry: (NoteId, CommittedNote)| entry.1.metadata.tag)
}

/// The tags of the notes of the blocks.
pub open spec fn tags_of_blocks(blocks: Seq<SyncNotesBlock>) -> Seq<NoteTag>
    decreases blocks.len(),
{
    if blocks.len() == 0 {
        Seq::empty()
    } else {
        tags_of_blocks(blocks.drop_last()) + tags_of_block(blocks.last())
    }
}

/// Checks that the tag of every note was requested.
pub fn verify_note_tags(requested: &Vec<NoteTag>, blocks: &Vec<SyncNotesBlock>) -> (checked: Result<
    (),
    RpcError,
>)
    ensures
        match first_some(unrequested(requested@, tags_of_blocks(blocks@))) {
            Some(returned) => is_unrequested(
                checked,
                "node returned note with tag "@,
                requested@,
                returned,
            ),
            None => checked is Ok,
        },
{
    let mut returned: Vec<NoteTag> = Vec::new();
    let mut i: usize = 0;
    while i < blocks.len()
        invariant
            i <= blocks.len(),
            returned@ == tags_of_blocks(blocks@.take(i as int)),
        decreases blocks.len() - i,
    {
        let block = &blocks[i];
        let ghost before = returned@;
        let ghost tags = tags_of_block(*block);
        let mut k: usize = 0;
        while k < block.notes.len()
            invariant
                k <= block.notes.listing().len(),
                tags == tags_of_block(*block),
                returned@ == before + tags.take(k as int),
            decreases block.notes.listing().len() - k,
        {
            returned.push(block.notes.entries()[k].1.metadata.tag);
            assert(tags.take(k + 1) =~= tags.take(k as int).push(tags[k as int]));
            k += 1;
        }
        proof {
            assert(tags.take(k as int) =~= tags);
            assert(blocks@.take(i + 1).drop_last() =~= blocks@.take(i as int));
            assert(blocks@.take(i + 1).last() == blocks@[i as int]);
        }
        i += 1;
    }
    assert(blocks@.take(i as int) =~= blocks@);
    match first_unrequested(requested, &returned) {
        Some(returned) => refuse_key("node returned note with tag ", requested, returned),
        None => Ok(()),
    }
}

/// The prefixes of the nullifiers.
pub open spec fn prefixes_of(batch: Seq<NullifierUpdate>) -> Seq<u16> {
    batch.map_values(|update: NullifierUpdate| prefix_of(update.nullifier))
}

/// Checks that the prefix of every nullifier was requested.
pub fn verify_nullifier_prefixes(
    requested_prefixes: &Vec<u16>,
    batch: &Vec<NullifierUpdate>,
) -> (checked: Result<(), RpcError>)
    ensures
        match first_some(unrequested(requested_prefixes@, prefixes_of(batch@))) {
            Some(returned) => is_unrequested(
                checked,
                "node returned nullifier with prefix "@,
                requested_prefixes@,
                returned,
            ),
            None => checked is Ok,
        },
{
    let mut returned: Vec<u16> = Vec::new();
    let mut i: usize = 0;
    while i < batch.len()
        invariant
            i <= batch.len(),
            returned@.len() == i,
            forall|k: int| 0 <= k < i ==> #[trigger] returned@[k] == prefix_of(batch@[k].nullifier),
        decreases batch.len() - i,
    {
        returned.push(nullifier_prefix(&batch[i].nullifier));
        i += 1;
    }
    assert(returned@ =~= prefixes_of(batch@));
    match first_unrequested(requested_prefixes, &returned) {
        Some(returned) => refuse_key("node returned nullifier with prefix ", requested_prefixes, returned),
        None => Ok(()),
    }
}

/// The accounts of the transactions.
pub open spec fn accounts_of(records: Seq<TransactionRecord>) -> Seq<AccountId> {
    records.map_values(|record: TransactionRecord| record.transaction_header.account_id)
}

/// Checks that the account of every transaction was requested.
pub fn verify_account_ids(
    requested: &Vec<AccountId>,
    records: &Vec<TransactionRecord>,
) -> (checked: Result<(), RpcError>)
    ensures
        match first_some(unrequested(requested@, accounts_of(records@))) {
            Some(returned) => is_unrequested(
                checked,
                "node returned transaction for account "@,
                requested@,
                returned,
            ),
            None => checked is Ok,
        },
{
    let mut returned: Vec<AccountId> = Vec::new();
    let mut i: usize = 0;
    while i < records.len()
        invariant
            i <= records.len(),
            returned@.len() == i,
            forall|k: int|
                0 <= k < i ==> #[trigger] returned@[k] == records@[k].transaction_header.account_id,
        decreases records.len() - i,
    {
        returned.push(records[i].transaction_header.account_id);
        i += 1;
    }
    assert(returned@ =~= accounts_of(records@));
    match first_unrequested(requested, &returned) {
        Some(returned) => refuse_key("node returned transaction for account ", requested, returned),
        None => Ok(()),
    }
}

/// Checks that a script has the requested root.
pub fn verify_note_script_root(requested: Word, script: &NoteScript) -> (checked: Result<
    (),
    RpcError,
>)
    ensures
        if script.root == requested {
            checked is Ok
        } else {
            is_refused(checked, script_text(requested, script.root))
        },
{
    if script.root != requested {
        let text = "node returned note script with root ".to_owned().concat(
            word_hex(script.root).as_str(),
        ).concat(" for requested root ").concat(word_hex(requested).as_str());
        return Err(RpcError::InvalidResponse(text));
    }
    Ok(())
}

/// Checks that a proof is for the requested block, if one was requested by its number, and of the
/// requested account.
pub fn verify_account(
    account_id: AccountId,
    at: AccountStateAt,
    block_num: BlockNumber,
    account_proof: &AccountProof,
) -> (checked: Result<(), RpcError>)
    ensures
        match at {
            AccountStateAt::Block(requested) if requested != block_num => is_refused(checked, block_text(requested, block_num)),
            _ => if account_proof.account_witness.id == account_id {
                checked is Ok
            } else {
                is_refused(checked, proof_text(account_id, account_proof.account_witness.id))
            },
        },
{
    let requested: Option<BlockNumber> = match at {
        AccountStateAt::Block(number) => Some(number),
        AccountStateAt::ChainTip => None,
    };
    if let Err(error) = verify_block_num(requested, block_num) {
        return Err(error);
    }
    let returned: AccountId = account_proof.account_id();
    if returned != account_id {
        let text = "node returned proof for account ".to_owned().concat(
            account_hex(returned).as_str(),
        ).concat(" but ").concat(account_hex(account_id).as_str()).concat(" was requested");
        return Err(RpcError::InvalidResponse(text));
    }
    Ok(())
}

} // verus!
