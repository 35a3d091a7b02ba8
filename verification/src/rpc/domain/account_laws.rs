//! What reading a node's answers about accounts comes to, over all answers.
use miden_protocol::crypto::merkle::smt::PartialSmt;
use vstd::prelude::*;

use crate::collections::{first_some, is_first_repeat, law_first_repeat, law_first_some};
use crate::rpc::domain::account::{
    header_commitment_of, same_code, slot_id_of, smt_keys, smt_root, storage_map_root_of,
    vault_root_of, witness_root_of, Account, AccountCode, AccountProofError, AccountResponseError,
    SlotId, StorageSlotContent, StorageSlotHeader,
};
use crate::rpc::domain::account_proof::{
    account_problem, details_read, is_account_of, is_content_of, message_read, oversize_problems,
    proof_problem, slot_problem, slot_problems, AccountDetails, AccountDetailsMessage,
    AccountWitness, StorageMapFetch, StorageRequest, VaultFetch,
};
use crate::rpc::domain::account_storage::{
    all_decoded, anchor_problem, anchor_problems, are_requests_of, coverage_problem,
    coverage_problems, details_of, entry_problems, first_repeat, is_first_details, is_first_slot,
    is_request_of, map_details_decoded, map_details_problem, message_problems, missing_from,
    partial_map_problem, requirements_of, slot_of, storage_read, without_repeats,
    AccountStorageDetails, AccountStorageMapDetails, AccountStorageRequirements, MapDetailsMessage,
    MapEntryMessage, MapResultMessage, SlotData, StorageMapDetailRequest, StorageMapEntries,
};
use crate::types::Word;

verus! {

// STORAGE MAPS
// ================================================================================================
/// Entries are accepted if and only if each has a key and a value; the first one that lacks one is
/// what is reported, by its key if that is missing.
pub proof fn law_entries(entries: Seq<MapEntryMessage>)
    ensures
        first_some(entry_problems(entries)) is None <==> forall|i: int|
            0 <= i < entries.len() ==> (#[trigger] entries[i]).key is Some
                && entries[i].value is Some,
        first_some(entry_problems(entries)) matches Some(error) ==> exists|i: int|
            {
                &&& 0 <= i < entries.len()
                &&& error == if (#[trigger] entries[i]).key is None {
                    AccountResponseError::MissingEntryKey
                } else {
                    AccountResponseError::MissingEntryValue
                }
                &&& entries[i].key is None || entries[i].value is None
                &&& forall|j: int|
                    0 <= j < i ==> (#[trigger] entries[j]).key is Some && entries[j].value is Some
            },
{
    let problems = entry_problems(entries);
    law_first_some(problems);
    assert(problems.len() == entries.len());
    if first_some(problems) is Some {
        let i = choose|i: int|
            0 <= i < problems.len() && #[trigger] problems[i] == first_some(problems) && forall|
                j: int,
            |
                0 <= j < i ==> #[trigger] problems[j] is None;
        assert(entries[i].key is None || entries[i].value is None);
        assert forall|j: int| 0 <= j < i implies (#[trigger] entries[j]).key is Some
            && entries[j].value is Some by {
            assert(problems[j] is None);
        }
    } else {
        assert forall|i: int| 0 <= i < entries.len() implies (#[trigger] entries[i]).key is Some
            && entries[i].value is Some by {
            assert(problems[i] is None);
        }
    }
}

/// A partial map is accepted if and only if it has at most 64 keys, none of them twice, and comes with
/// a tree that carries the values of all of them.
pub proof fn law_partial_map(
    slot_name: SlotId,
    map_keys: Seq<Word>,
    partial_smt: Option<PartialSmt>,
)
    requires
        map_keys.len() <= usize::MAX,
    ensures
        ({
            let problem = partial_map_problem(slot_name, map_keys, partial_smt);
            let distinct = forall|i: int, j: int|
                0 <= i < j < map_keys.len() ==> #[trigger] map_keys[i] != #[trigger] map_keys[j];
            &&& problem is None <==> map_keys.len() <= 64 && distinct && partial_smt is Some && (
            forall|i: int|
                0 <= i < map_keys.len() ==> smt_keys(partial_smt->0).contains(
                    #[trigger] map_keys[i],
                ))
            &&& map_keys.len() > 64 <==> problem == Some(
                AccountResponseError::TooManyPartialKeys {
                    slot_name,
                    count: map_keys.len() as usize,
                },
            )
            &&& map_keys.len() <= 64 && distinct && partial_smt is None <==> problem == Some(
                AccountResponseError::MissingPartialTree { slot_name },
            )
            &&& map_keys.len() <= 64 && !distinct ==> problem is Some && problem->0 is RepeatedKey
            &&& problem matches Some(AccountResponseError::UntrackedKey { slot_name: slot, key })
                ==> slot == slot_name && partial_smt is Some && map_keys.contains(key)
                && !smt_keys(partial_smt->0).contains(key)
        }),
{
    let distinct = forall|i: int, j: int|
        0 <= i < j < map_keys.len() ==> #[trigger] map_keys[i] != #[trigger] map_keys[j];
    assert(distinct == map_keys.no_duplicates()) by {
        if distinct {
            assert forall|i: int, j: int|
                0 <= i < map_keys.len() && 0 <= j < map_keys.len() && i
                    != j implies map_keys[i] != map_keys[j] by {
                if i < j {
                    assert(map_keys[i] != map_keys[j]);
                } else {
                    assert(map_keys[j] != map_keys[i]);
                }
            }
        }
    }
    if let Some(smt) = partial_smt {
        let problems = map_keys.map_values(
            |key: Word|
                if smt_keys(smt).contains(key) {
                    None
                } else {
                    Some(AccountResponseError::UntrackedKey { slot_name, key })
                },
        );
        law_first_some(problems);
        assert(problems.len() == map_keys.len());
        assert forall|i: int| 0 <= i < map_keys.len() implies (#[trigger] problems[i]) is None
            == smt_keys(smt).contains(map_keys[i]) by {}
        if first_some(problems) is Some {
            let i = choose|i: int|
                0 <= i < problems.len() && #[trigger] problems[i] == first_some(problems) && forall|
                    j: int,
                |
                    0 <= j < i ==> #[trigger] problems[j] is None;
            assert(!smt_keys(smt).contains(map_keys[i]));
            assert(map_keys.contains(map_keys[i]));
        } else {
            assert forall|i: int| 0 <= i < map_keys.len() implies smt_keys(smt).contains(
                #[trigger] map_keys[i],
            ) by {
                assert(problems[i] is None);
            }
        }
    }
}

/// The key that is named as repeated is the first one that occurred before.
pub proof fn law_repeated_key(keys: Seq<Word>, i: int, j: int)
    requires
        0 <= j < i < keys.len(),
        keys[j] == keys[i],
        forall|a: int, b: int| 0 <= a < b < i ==> #[trigger] keys[a] != #[trigger] keys[b],
    ensures
        first_repeat(keys) == keys[i],
{
    let earlier = keys.take(i);
    assert(earlier[j] == keys[i]);
    assert forall|a: int, b: int|
        0 <= a < earlier.len() && 0 <= b < earlier.len() && a != b implies earlier[a]
        != earlier[b] by {
        if a < b {
            assert(keys[a] != keys[b]);
        } else {
            assert(keys[b] != keys[a]);
        }
    }
    assert(is_first_repeat(keys, i));
    let chosen = choose|i: int| is_first_repeat(keys, i);
    assert(is_first_repeat(keys, chosen));
    law_first_repeat(keys, chosen);
    law_first_repeat(keys, i);
    if chosen < i {
        let k = choose|k: int| 0 <= k < chosen && #[trigger] keys[k] == keys[chosen];
        assert(keys[k] != keys[chosen]);
    }
    if i < chosen {
        assert(keys[j] != keys[i]);
    }
}

/// Details of a map are accepted if and only if the slot has a valid name and there is a result: a flag
/// that is set, entries that each have a key and a value, or a partial map that is accepted.
pub proof fn law_map_details(message: MapDetailsMessage)
    ensures
        ({
            let problem = map_details_problem(message);
            let slot = slot_id_of(message.slot_name@);
            &&& slot is None <==> problem == Some(AccountResponseError::InvalidSlotName)
            &&& slot matches Some(slot_name) ==> {
                &&& message.result is None ==> problem == Some(
                    AccountResponseError::MissingMapResult { slot_name },
                )
                &&& message.result matches Some(MapResultMessage::TooManyEntries(set)) ==> (
                problem is None <==> set) && (!set ==> problem == Some(
                    AccountResponseError::TooManyEntriesUnset,
                ))
                &&& message.result matches Some(MapResultMessage::AllEntries(entries)) ==> problem
                    == first_some(entry_problems(entries@))
                &&& message.result matches Some(
                    MapResultMessage::PartialMap { map_keys, partial_smt },
                ) ==> problem == partial_map_problem(slot_name, map_keys@, partial_smt)
            }
        }),
{
    lemma_map_details_names(message);
}

/// Only the name of the slot is reported as invalid.
proof fn lemma_map_details_names(message: MapDetailsMessage)
    ensures
        slot_id_of(message.slot_name@) is Some ==> map_details_problem(message) != Some(
            AccountResponseError::InvalidSlotName,
        ),
{
    if let Some(slot_name) = slot_id_of(message.slot_name@) {
        if let Some(MapResultMessage::AllEntries(entries)) = message.result {
            law_entries(entries@);
        }
        if let Some(MapResultMessage::PartialMap { map_keys, partial_smt }) = message.result {
            if let Some(smt) = partial_smt {
                let problems = map_keys@.map_values(
                    |key: Word|
                        if smt_keys(smt).contains(key) {
                            None
                        } else {
                            Some(AccountResponseError::UntrackedKey { slot_name, key })
                        },
                );
                law_first_some(problems);
            }
        }
    }
}

/// Details that are read are those of the message: of the same slot, and with the same entries, or the
/// same keys and tree.
pub proof fn law_map_details_decoded(
    message: MapDetailsMessage,
    details: AccountStorageMapDetails,
)
    requires
        map_details_decoded(message, details),
    ensures
        slot_id_of(message.slot_name@) == Some(details.slot_name),
        details.entries is LimitExceeded ==> message.result == Some(
            MapResultMessage::TooManyEntries(true),
        ),
        details.entries matches StorageMapEntries::AllEntries(entries) ==> (message.result matches Some(
            MapResultMessage::AllEntries(received),
        ) && entries@.len() == received@.len() && forall|i: int|
            0 <= i < received@.len() ==> (#[trigger] received@[i]).key == Some(entries@[i].key)
                && received@[i].value == Some(entries@[i].value)),
        details.entries matches StorageMapEntries::PartialMap { map_keys, partial_smt } ==> (
        message.result matches Some(
            MapResultMessage::PartialMap { map_keys: received, partial_smt: tree },
        ) && map_keys@ == received@ && tree == Some(partial_smt)),
{
}

/// The details of a slot are the first ones for it; there are none if none are for it.
pub proof fn law_details_of(
    map_details: Seq<AccountStorageMapDetails>,
    slot_name: SlotId,
    j: int,
)
    ensures
        0 <= j < map_details.len() && map_details[j].slot_name == slot_name && (forall|k: int|
            0 <= k < j ==> (#[trigger] map_details[k]).slot_name != slot_name) ==> details_of(
            map_details,
            slot_name,
        ) == Some(map_details[j]),
        (forall|k: int|
            0 <= k < map_details.len() ==> (#[trigger] map_details[k]).slot_name != slot_name)
            ==> details_of(map_details, slot_name) is None,
{
    if 0 <= j < map_details.len() && map_details[j].slot_name == slot_name && (forall|k: int|
        0 <= k < j ==> (#[trigger] map_details[k]).slot_name != slot_name) {
        assert(is_first_details(map_details, slot_name, j));
        let chosen = choose|j: int| is_first_details(map_details, slot_name, j);
        assert(is_first_details(map_details, slot_name, chosen));
        if chosen < j {
            assert(map_details[chosen].slot_name != slot_name);
        }
        if j < chosen {
            assert(map_details[j].slot_name != slot_name);
        }
    }
}

/// The header of a slot is the first one with its name; there is none if none has it.
pub proof fn law_slot_of(header: Seq<StorageSlotHeader>, slot_name: SlotId, j: int)
    ensures
        0 <= j < header.len() && header[j].slot_name == slot_name && (forall|k: int|
            0 <= k < j ==> (#[trigger] header[k]).slot_name != slot_name) ==> slot_of(
            header,
            slot_name,
        ) == Some(header[j]),
        (forall|k: int|
            0 <= k < header.len() ==> (#[trigger] header[k]).slot_name != slot_name) ==> slot_of(
            header,
            slot_name,
        ) is None,
{
    if 0 <= j < header.len() && header[j].slot_name == slot_name && (forall|k: int|
        0 <= k < j ==> (#[trigger] header[k]).slot_name != slot_name) {
        assert(is_first_slot(header, slot_name, j));
        let chosen = choose|j: int| is_first_slot(header, slot_name, j);
        assert(is_first_slot(header, slot_name, chosen));
        if chosen < j {
            assert(header[chosen].slot_name != slot_name);
        }
        if j < chosen {
            assert(header[j].slot_name != slot_name);
        }
    }
}

/// A partial map is accepted if and only if its slot is a map whose root is that of its tree. Other
/// details are not held against the header.
pub proof fn law_anchor(header: Seq<StorageSlotHeader>, details: AccountStorageMapDetails)
    ensures
        ({
            let problem = anchor_problem(header, details);
            let slot_name = details.slot_name;
            let slot = slot_of(header, slot_name);
            &&& !(details.entries is PartialMap) ==> problem is None
            &&& details.entries matches StorageMapEntries::PartialMap { partial_smt, .. } ==> {
                &&& problem is None <==> slot is Some && slot->0.slot_type is MapRoot
                    && slot->0.value == smt_root(partial_smt)
                &&& slot is None <==> problem == Some(
                    AccountResponseError::UnknownSlot { slot_name },
                )
                &&& slot is Some && slot->0.slot_type is Value <==> problem == Some(
                    AccountResponseError::NotAMap { slot_name },
                )
                &&& slot is Some && slot->0.slot_type is MapRoot && slot->0.value != smt_root(
                    partial_smt,
                ) ==> problem == Some(
                    AccountResponseError::RootMismatch {
                        slot_name,
                        received: smt_root(partial_smt),
                        expected: slot->0.value,
                    },
                )
            }
        }),
{
}

/// Storage that is read has the slots of the header and, of each message, the details; each was accepted
/// by itself and against the header. Where something is wrong, or the header is missing, nothing is
/// read.
pub proof fn law_storage_read(
    header: Option<Vec<StorageSlotHeader>>,
    messages: Seq<MapDetailsMessage>,
    details: Result<AccountStorageDetails, AccountResponseError>,
)
    requires
        storage_read(header, messages, details),
    ensures
        header is None ==> details == Err::<AccountStorageDetails, _>(
            AccountResponseError::MissingField,
        ),
        header is Some && first_some(message_problems(messages)) is Some ==> details == Err::<
            AccountStorageDetails,
            _,
        >(first_some(message_problems(messages))->0),
        details matches Ok(storage) ==> {
            &&& header == Some(storage.header)
            &&& storage.map_details@.len() == messages.len()
            &&& forall|i: int|
                0 <= i < messages.len() ==> map_details_decoded(
                    messages[i],
                    #[trigger] storage.map_details@[i],
                )
            &&& forall|i: int|
                0 <= i < messages.len() ==> map_details_problem(#[trigger] messages[i]) is None
            &&& forall|i: int|
                0 <= i < messages.len() ==> anchor_problem(
                    storage.header@,
                    #[trigger] storage.map_details@[i],
                ) is None
        },
        header is Some && first_some(message_problems(messages)) is None && details is Err
            ==> exists|decoded: Seq<AccountStorageMapDetails>, i: int|
            #![trigger all_decoded(messages, decoded), decoded[i]]
            all_decoded(messages, decoded) && 0 <= i < decoded.len() && anchor_problem(
                header->0@,
                decoded[i],
            ) == Some(details->Err_0),
{
    law_first_some(message_problems(messages));
    if header is Some && first_some(message_problems(messages)) is None {
        let slots = header->0;
        let decoded = choose|decoded: Seq<AccountStorageMapDetails>| #[trigger]
            all_decoded(messages, decoded) && match first_some(anchor_problems(slots@, decoded)) {
                Some(error) => details == Err::<AccountStorageDetails, _>(error),
                None => details is Ok && details->Ok_0.header == slots
                    && details->Ok_0.map_details@ == decoded,
            };
        let problems = anchor_problems(slots@, decoded);
        law_first_some(problems);
        assert(problems.len() == decoded.len());
        assert forall|i: int| 0 <= i < decoded.len() implies #[trigger] problems[i]
            == anchor_problem(slots@, decoded[i]) by {}
        if first_some(problems) is Some {
            let i = choose|i: int|
                0 <= i < problems.len() && #[trigger] problems[i] == first_some(problems) && forall|
                    j: int,
                |
                    0 <= j < i ==> #[trigger] problems[j] is None;
            assert(all_decoded(messages, decoded) && anchor_problem(slots@, decoded[i]) == Some(
                details->Err_0,
            ));
        } else {
            assert forall|i: int| 0 <= i < messages.len() implies anchor_problem(
                slots@,
                #[trigger] decoded[i],
            ) is None by {
                assert(problems[i] is None);
            }
        }
        assert forall|i: int| 0 <= i < messages.len() implies map_details_problem(
            #[trigger] messages[i],
        ) is None by {
            assert(message_problems(messages)[i] is None);
        }
    }
}

// REQUIREMENTS
// ================================================================================================
/// The first key that is not among the others is named; none is if all of them are.
pub proof fn law_missing_from(keys: Seq<Word>, others: Seq<Word>)
    ensures
        missing_from(keys, others) is None <==> forall|i: int|
            0 <= i < keys.len() ==> others.contains(#[trigger] keys[i]),
        missing_from(keys, others) matches Some(key) ==> exists|i: int|
            0 <= i < keys.len() && #[trigger] keys[i] == key && !others.contains(key) && forall|
                j: int,
            |
                0 <= j < i ==> others.contains(#[trigger] keys[j]),
{
    let absent = keys.map_values(
        |key: Word|
            if others.contains(key) {
                None
            } else {
                Some(key)
            },
    );
    law_first_some(absent);
    assert(absent.len() == keys.len());
    if first_some(absent) is Some {
        let i = choose|i: int|
            0 <= i < absent.len() && #[trigger] absent[i] == first_some(absent) && forall|j: int|
                0 <= j < i ==> #[trigger] absent[j] is None;
        assert(!others.contains(keys[i]));
        assert forall|j: int| 0 <= j < i implies others.contains(#[trigger] keys[j]) by {
            assert(absent[j] is None);
        }
    } else {
        assert forall|i: int| 0 <= i < keys.len() implies others.contains(#[trigger] keys[i]) by {
            assert(absent[i] is None);
        }
    }
}

/// A partial map is accepted if and only if its keys are those that were requested for its slot, in
/// whatever order: none is missing, and none was added.
pub proof fn law_coverage(
    details: AccountStorageMapDetails,
    requirements: AccountStorageRequirements,
)
    ensures
        ({
            let problem = coverage_problem(details, requirements);
            let slot_name = details.slot_name;
            let requested = if requirements.slots@.contains_key(slot_name) {
                requirements.slots@[slot_name]@
            } else {
                Seq::<Word>::empty()
            };
            &&& !(details.entries is PartialMap) ==> problem is None
            &&& details.entries matches StorageMapEntries::PartialMap { map_keys, .. } ==> {
                &&& problem is None <==> requested.to_set() == map_keys@.to_set()
                &&& problem matches Some(error) ==> (error matches AccountResponseError::UncoveredKey {
                    slot_name: slot,
                    key,
                } && slot == slot_name && requested.contains(key) && !map_keys@.contains(key)) || (
                error matches AccountResponseError::UnrequestedKey { slot_name: slot, key } && slot
                    == slot_name && map_keys@.contains(key) && !requested.contains(key))
            }
        }),
{
    let slot_name = details.slot_name;
    let requested = requirements.requested(slot_name);
    if let StorageMapEntries::PartialMap { map_keys, .. } = details.entries {
        law_missing_from(requested, map_keys@);
        law_missing_from(map_keys@, requested);
        if requested.to_set() == map_keys@.to_set() {
            assert forall|i: int| 0 <= i < requested.len() implies map_keys@.contains(
                #[trigger] requested[i],
            ) by {
                assert(requested.to_set().contains(requested[i]));
            }
            assert forall|i: int| 0 <= i < map_keys@.len() implies requested.contains(
                #[trigger] map_keys@[i],
            ) by {
                assert(map_keys@.to_set().contains(map_keys@[i]));
            }
        }
        if coverage_problem(details, requirements) is None {
            assert forall|key: Word| requested.to_set().contains(key) <==> map_keys@.to_set().contains(
                key,
            ) by {
                if requested.contains(key) {
                    let i = choose|i: int| 0 <= i < requested.len() && requested[i] == key;
                    assert(map_keys@.contains(requested[i]));
                }
                if map_keys@.contains(key) {
                    let i = choose|i: int| 0 <= i < map_keys@.len() && map_keys@[i] == key;
                    assert(requested.contains(map_keys@[i]));
                }
            }
            assert(requested.to_set() =~= map_keys@.to_set());
        }
    }
}

/// A list without repeats has the keys of the list, each of them once, in the order in which they first
/// occur.
pub proof fn law_without_repeats(keys: Seq<Word>)
    ensures
        without_repeats(keys).no_duplicates(),
        without_repeats(keys).to_set() == keys.to_set(),
        forall|i: int|
            0 <= i < keys.len() && !keys.take(i).contains(#[trigger] keys[i]) ==> without_repeats(
                keys,
            )[without_repeats(keys.take(i)).len() as int] == keys[i],
        keys.no_duplicates() ==> without_repeats(keys) == keys,
    decreases keys.len(),
{
    let now = without_repeats(keys);
    if keys.len() > 0 {
        let before = keys.drop_last();
        let last = keys.len() - 1;
        let rest = without_repeats(before);
        law_without_repeats(before);
        assert(keys =~= before.push(keys.last()));
        assert forall|key: Word| now.to_set().contains(key) <==> keys.to_set().contains(key) by {
            assert(rest.to_set().contains(key) <==> before.to_set().contains(key));
            if rest.contains(key) {
                let k = choose|k: int| 0 <= k < rest.len() && rest[k] == key;
                assert(now[k] == key);
            }
            if before.contains(key) {
                let k = choose|k: int| 0 <= k < before.len() && before[k] == key;
                assert(keys[k] == key);
            }
            if key == keys.last() {
                assert(keys[last] == key);
                if !rest.contains(key) {
                    assert(now[rest.len() as int] == key);
                }
            }
            if keys.contains(key) {
                let k = choose|k: int| 0 <= k < keys.len() && keys[k] == key;
                if k < last {
                    assert(before[k] == key);
                }
            }
        }
        assert(now.to_set() =~= keys.to_set());
        assert forall|i: int|
            0 <= i < keys.len() && !keys.take(i).contains(#[trigger] keys[i]) implies now[
        without_repeats(keys.take(i)).len() as int] == keys[i] by {
            if i < last {
                assert(before.take(i) =~= keys.take(i));
                assert(before[i] == keys[i]);
                let at = without_repeats(keys.take(i)).len() as int;
                assert(rest[at] == keys[i]);
                lemma_without_repeats_grows(before, i);
                assert(at < rest.len()) by {
                    lemma_without_repeats_grows(before, i + 1);
                    assert(before.take(i + 1).drop_last() =~= before.take(i));
                    assert(before.take(i + 1).last() == before[i]);
                    law_without_repeats(before.take(i));
                    let earlier = without_repeats(before.take(i));
                    assert(earlier.to_set().contains(before[i]) == before.take(i).to_set().contains(
                        before[i],
                    ));
                }
                assert(now[at] == rest[at]);
            } else {
                assert(keys.take(i) =~= before);
                assert(rest.to_set().contains(keys[i]) == before.to_set().contains(keys[i]));
            }
        }
        if keys.no_duplicates() {
            assert(before.no_duplicates()) by {
                assert forall|i: int, j: int|
                    0 <= i < before.len() && 0 <= j < before.len() && i != j implies before[i]
                    != before[j] by {
                    assert(keys[i] != keys[j]);
                }
            }
            assert(!before.contains(keys.last())) by {
                if before.contains(keys.last()) {
                    let k = choose|k: int| 0 <= k < before.len() && before[k] == keys.last();
                    assert(keys[k] != keys[last]);
                }
            }
        }
    } else {
        assert(now =~= keys);
        assert(now.to_set() =~= keys.to_set());
    }
}

/// More keys leave no fewer without repeats.
proof fn lemma_without_repeats_grows(keys: Seq<Word>, i: int)
    requires
        0 <= i <= keys.len(),
    ensures
        without_repeats(keys.take(i)).len() <= without_repeats(keys).len(),
    decreases keys.len() - i,
{
    if i < keys.len() {
        lemma_without_repeats_grows(keys, i + 1);
        assert(keys.take(i + 1).drop_last() =~= keys.take(i));
    } else {
        assert(keys.take(i) =~= keys);
    }
}

/// The keys that are required of a slot are those that were last given for it, without repeats.
pub proof fn law_requirements(slots_and_keys: Seq<(SlotId, Vec<Word>)>, i: int)
    requires
        0 <= i < slots_and_keys.len(),
        forall|j: int|
            i < j < slots_and_keys.len() ==> (#[trigger] slots_and_keys[j]).0
                != slots_and_keys[i].0,
    ensures
        requirements_of(slots_and_keys).contains_key(slots_and_keys[i].0),
        requirements_of(slots_and_keys)[slots_and_keys[i].0] == without_repeats(
            slots_and_keys[i].1@,
        ),
    decreases slots_and_keys.len(),
{
    if i < slots_and_keys.len() - 1 {
        assert(slots_and_keys[slots_and_keys.len() - 1].0 != slots_and_keys[i].0);
        law_requirements(slots_and_keys.drop_last(), i);
    }
}

/// Nothing is required of a slot for which nothing was given.
pub proof fn law_no_requirements(slots_and_keys: Seq<(SlotId, Vec<Word>)>, slot_name: SlotId)
    requires
        forall|i: int|
            0 <= i < slots_and_keys.len() ==> (#[trigger] slots_and_keys[i]).0 != slot_name,
    ensures
        !requirements_of(slots_and_keys).contains_key(slot_name),
    decreases slots_and_keys.len(),
{
    if slots_and_keys.len() > 0 {
        assert(slots_and_keys[slots_and_keys.len() - 1].0 != slot_name);
        law_no_requirements(slots_and_keys.drop_last(), slot_name);
    }
}

/// Of a slot with required keys these are requested; of one without, all entries are. Every slot is
/// asked for, in order.
pub proof fn law_requests(
    requests: Seq<StorageMapDetailRequest>,
    slots: Seq<(SlotId, Vec<Word>)>,
    i: int,
)
    requires
        are_requests_of(requests, slots),
        0 <= i < slots.len(),
    ensures
        requests.len() == slots.len(),
        requests[i].slot_name == slots[i].0,
        slots[i].1@.len() == 0 <==> requests[i].slot_data is AllEntries,
        requests[i].slot_data matches SlotData::MapKeys(map_keys) ==> map_keys@ == slots[i].1@,
{
    assert(is_request_of(requests[i], slots[i]));
}

/// What is requested of the storage is nothing, all maps, or the required slots. What is requested of
/// the vault is nothing, all of it, or what changed from a root.
pub proof fn law_fetch(storage: StorageMapFetch, request: Option<StorageRequest>, vault: VaultFetch)
    ensures
        storage is Skip && storage.is_requested_by(request) ==> request is None,
        storage is All && storage.is_requested_by(request) ==> request is Some
            && request->0 is AllStorageMaps,
        storage matches StorageMapFetch::Slots(requirements) ==> (storage.is_requested_by(request)
            ==> (request matches Some(StorageRequest::StorageMaps(maps)) && are_requests_of(
            maps@,
            requirements.slots.listing(),
        ))),
        vault is Skip ==> vault.requested_root() is None,
        vault is Always ==> (vault.requested_root() matches Some(root) && root.e0 == 0 && root.e1
            == 0 && root.e2 == 0 && root.e3 == 0),
        vault matches VaultFetch::IfChangedFrom(root) ==> vault.requested_root() == Some(root),
{
}

// ACCOUNTS
// ================================================================================================
/// The content of a value slot can always be taken; that of a map only if the first details for it hold
/// all entries, and these make a map.
pub proof fn law_slot_problem(
    map_details: Seq<AccountStorageMapDetails>,
    slot: StorageSlotHeader,
)
    ensures
        ({
            let problem = slot_problem(map_details, slot);
            let slot_name = slot.slot_name;
            let details = details_of(map_details, slot_name);
            &&& slot.slot_type is Value ==> problem is None
            &&& slot.slot_type is MapRoot ==> {
                &&& problem is None <==> (details is Some && (
                details->0.entries matches StorageMapEntries::AllEntries(entries)
                    && storage_map_root_of(entries@) is Some))
                &&& details is None <==> problem == Some(
                    AccountResponseError::MissingMapDetails { slot_name },
                )
                &&& details is Some && !(details->0.entries is AllEntries) <==> problem == Some(
                    AccountResponseError::IncompleteMap { slot_name },
                )
            }
        }),
{
}

/// An account can be built if and only if nothing was left out for its size, the content of each slot
/// can be taken, the assets make a vault, there are at most 255 slots, no two with the same name, and
/// the account has transactions.
pub proof fn law_account_problem(details: AccountDetails)
    ensures
        ({
            let maps = details.storage_details.map_details@;
            let slots = details.storage_details.header@;
            account_problem(details) is None <==> {
                &&& !details.vault_details.too_many_assets
                &&& forall|i: int|
                    0 <= i < maps.len() ==> !((#[trigger] maps[i]).entries is LimitExceeded)
                &&& forall|i: int|
                    0 <= i < slots.len() ==> slot_problem(maps, #[trigger] slots[i]) is None
                &&& vault_root_of(details.vault_details.assets@) is Some
                &&& slots.len() <= 255
                &&& forall|i: int, j: int|
                    0 <= i < j < slots.len() ==> (#[trigger] slots[i]).slot_name != (
                    #[trigger] slots[j]).slot_name
                &&& details.header.nonce > 0
            }
        }),
        details.vault_details.too_many_assets <==> account_problem(details) == Some(
            AccountResponseError::VaultTooLarge,
        ),
{
    let maps = details.storage_details.map_details@;
    let slots = details.storage_details.header@;
    let oversized = oversize_problems(maps);
    let problems = slot_problems(maps, slots);
    law_first_some(oversized);
    law_first_some(problems);
    assert(oversized.len() == maps.len() && problems.len() == slots.len());
    assert forall|i: int| 0 <= i < maps.len() implies (#[trigger] oversized[i]) is None == !(
    maps[i].entries is LimitExceeded) by {}
    assert forall|i: int| 0 <= i < slots.len() implies #[trigger] problems[i] == slot_problem(
        maps,
        slots[i],
    ) by {}
    if first_some(oversized) is None {
        assert forall|i: int| 0 <= i < maps.len() implies !((
        #[trigger] maps[i]).entries is LimitExceeded) by {
            assert(oversized[i] is None);
        }
    } else {
        let i = choose|i: int|
            0 <= i < oversized.len() && #[trigger] oversized[i] == first_some(oversized) && forall|
                j: int,
            |
                0 <= j < i ==> #[trigger] oversized[j] is None;
        assert(maps[i].entries is LimitExceeded);
        assert(first_some(oversized)->0 is MapTooLarge);
    }
    if first_some(problems) is None {
        assert forall|i: int| 0 <= i < slots.len() implies slot_problem(
            maps,
            #[trigger] slots[i],
        ) is None by {
            assert(problems[i] is None);
        }
    } else {
        let i = choose|i: int|
            0 <= i < problems.len() && #[trigger] problems[i] == first_some(problems) && forall|
                j: int,
            |
                0 <= j < i ==> #[trigger] problems[j] is None;
        assert(slot_problem(maps, slots[i]) == first_some(problems));
        assert(!(first_some(problems)->0 is VaultTooLarge));
    }
}

/// An account that was built has the id, the nonce, the assets and the code of the details, and exactly
/// the slots of the header: a value slot with its value, a map with all its entries.
pub proof fn law_account_of_details(
    details: AccountDetails,
    account: Account,
    slot_name: SlotId,
    i: int,
)
    requires
        is_account_of(details, account),
    ensures
        account.id == details.header.id,
        account.nonce == details.header.nonce,
        account.assets@ == details.vault_details.assets@,
        vault_root_of(account.assets@) == Some(account.vault_root),
        account.code.commitment == details.code.commitment,
        account.code.serialized@ == details.code.serialized@,
        ({
            let slots = details.storage_details.header@;
            &&& account.storage@.contains_key(slot_name) <==> exists|k: int|
                0 <= k < slots.len() && (#[trigger] slots[k]).slot_name == slot_name
            &&& 0 <= i < slots.len() ==> match account.storage@[slots[i].slot_name] {
                StorageSlotContent::Value(value) => slots[i].slot_type is Value && value
                    == slots[i].value,
                StorageSlotContent::MapEntries { root, entries } => {
                    let found = details_of(
                        details.storage_details.map_details@,
                        slots[i].slot_name,
                    );
                    &&& slots[i].slot_type is MapRoot
                    &&& found is Some
                    &&& found->0.entries matches StorageMapEntries::AllEntries(received)
                        && received@ == entries@ && storage_map_root_of(received@) == Some(root)
                },
            }
        }),
{
    let slots = details.storage_details.header@;
    if exists|k: int| 0 <= k < slots.len() && (#[trigger] slots[k]).slot_name == slot_name {
        let k = choose|k: int| 0 <= k < slots.len() && (#[trigger] slots[k]).slot_name == slot_name;
        assert(account.storage@.contains_key(slots[k].slot_name));
    }
    if 0 <= i < slots.len() {
        assert(is_content_of(
            details.storage_details.map_details@,
            slots[i],
            account.storage@[slots[i].slot_name],
        ));
    }
}

/// Code is the same if and only if both the commitment and the bytes are.
pub proof fn law_same_code(a: AccountCode, b: AccountCode)
    ensures
        same_code(a, b) <==> a.commitment == b.commitment && a.serialized@ == b.serialized@,
{
}

/// Details that are read are those of the message, with the code that came or, if none came, the known
/// code that the header commits to; every partial map in them covers what was required of it.
pub proof fn law_details_read(
    message: AccountDetailsMessage,
    known_codes: Map<Word, AccountCode>,
    requirements: AccountStorageRequirements,
    details: Result<AccountDetails, AccountResponseError>,
)
    requires
        message_read(message, known_codes, requirements, details),
    ensures
        message.header is None || message.storage_details is None ==> details == Err::<
            AccountDetails,
            _,
        >(AccountResponseError::MissingField),
        details matches Ok(found) ==> {
            &&& message.header == Some(found.header)
            &&& message.vault_details == Some(found.vault_details)
            &&& message.storage_details is Some && storage_read(
                message.storage_details->0.header,
                message.storage_details->0.map_details@,
                Ok(found.storage_details),
            )
            &&& message.code matches Some(code) ==> found.code == code
            &&& message.code is None ==> known_codes.contains_key(found.header.code_commitment)
                && found.code.commitment == known_codes[found.header.code_commitment].commitment
                && found.code.serialized@
                == known_codes[found.header.code_commitment].serialized@
            &&& forall|i: int|
                0 <= i < found.storage_details.map_details@.len() ==> coverage_problem(
                    #[trigger] found.storage_details.map_details@[i],
                    requirements,
                ) is None
        },
        message.header is Some && message.storage_details is Some && details is Err ==> exists|
            storage: Result<AccountStorageDetails, AccountResponseError>,
        | #[trigger]
            storage_read(
                message.storage_details->0.header,
                message.storage_details->0.map_details@,
                storage,
            ) && match storage {
                Err(error) => details->Err_0 == error,
                Ok(read) => first_some(coverage_problems(read.map_details@, requirements)) == Some(
                    details->Err_0,
                ) || (details->Err_0 is MissingCode && message.code is None
                    && !known_codes.contains_key(message.header->0.code_commitment)) || (
                details->Err_0 is MissingField && message.vault_details is None),
            },
{
    if message.header is Some && message.storage_details is Some {
        let storage = choose|storage: Result<AccountStorageDetails, AccountResponseError>| #[trigger]
            storage_read(
                message.storage_details->0.header,
                message.storage_details->0.map_details@,
                storage,
            ) && match storage {
                Err(error) => details == Err::<AccountDetails, _>(error),
                Ok(storage) => details_read(
                    message,
                    message.header->0,
                    storage,
                    known_codes,
                    requirements,
                    details,
                ),
            };
        if let Ok(read) = storage {
            let problems = coverage_problems(read.map_details@, requirements);
            law_first_some(problems);
            assert(problems.len() == read.map_details@.len());
            if first_some(problems) is None {
                assert forall|i: int| 0 <= i < read.map_details@.len() implies coverage_problem(
                    #[trigger] read.map_details@[i],
                    requirements,
                ) is None by {
                    assert(problems[i] is None);
                }
            }
        }
    }
}

/// A proof is consistent if and only if it comes without details, or the state it proves is that of the
/// header, of the same account, with the code that the header commits to.
pub proof fn law_proof_problem(witness: AccountWitness, details: Option<AccountDetails>)
    ensures
        details is None ==> proof_problem(witness, details) is None,
        details matches Some(found) ==> {
            let problem = proof_problem(witness, details);
            let same = header_commitment_of(found.header) == Some(witness.state_commitment);
            &&& problem is None <==> same && found.header.id == witness.id
                && found.header.code_commitment == found.code.commitment
            &&& !same <==> problem == Some(AccountProofError::InconsistentAccountCommitment)
            &&& same && found.header.id != witness.id <==> problem == Some(
                AccountProofError::InconsistentAccountId,
            )
        },
{
}

/// A witness opens under a root if and only if its path has 64 nodes and leads to the root.
pub proof fn law_witness(witness: AccountWitness, account_root: Word)
    ensures
        witness.opens_under(account_root) <==> witness.path@.len() == 64 && witness_root_of(
            witness.id,
            witness.state_commitment,
            witness.path@,
        ) == Some(account_root),
{
}

/// Errors are told apart by what a caller can do about them: data that is missing, and messages that
/// cannot be read. No error is both.
pub proof fn law_response_errors(error: AccountResponseError)
    ensures
        !(error.spec_is_data_missing() && error.spec_is_unreadable()),
        error.spec_is_unreadable() <==> match error {
            AccountResponseError::MissingField => true,
            AccountResponseError::MissingPartialTree { .. } => true,
            _ => false,
        },
        error.spec_is_data_missing() <==> match error {
            AccountResponseError::VaultTooLarge => true,
            AccountResponseError::MapTooLarge { .. } => true,
            AccountResponseError::MissingMapDetails { .. } => true,
            AccountResponseError::IncompleteMap { .. } => true,
            AccountResponseError::InvalidSlotName => true,
            AccountResponseError::MissingEntryKey => true,
            AccountResponseError::MissingEntryValue => true,
            AccountResponseError::MissingWitness => true,
            AccountResponseError::MissingBlockNum => true,
            AccountResponseError::MissingDetails => true,
            _ => false,
        },
{
}

} // verus!
