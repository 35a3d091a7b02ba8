//! The storage of an account as a node reports it, and the requests for parts of it.
use miden_protocol::crypto::merkle::smt::PartialSmt;
use vstd::prelude::*;

use crate::collections::{
    contains_key, first_duplicate_key, first_some, is_first_repeat, lemma_first_some_at,
    lemma_first_some_step, OrdMap,
};
use crate::rpc::domain::account::{
    root_of, slot_id, slot_id_of, smt_keys, smt_root, storage_map_root, storage_map_root_of,
    tracks_key, AccountResponseError, SlotId, StorageMapEntry, StorageSlotContent,
    StorageSlotHeader, StorageSlotType, MAX_PARTIAL_MAP_KEYS,
};
use crate::types::Word;

verus! {

// STORAGE MAP DETAILS
// ================================================================================================
/// The map data an answer carries for one storage slot.
#[derive(Debug)]
pub enum StorageMapEntries {
    /// The map has more entries than the node returns in one answer, and none are carried.
    LimitExceeded,
    /// All entries of the map.
    AllEntries(Vec<StorageMapEntry>),
    /// The keys that were requested, covered by one partial tree, which carries their values.
    PartialMap { map_keys: Vec<Word>, partial_smt: PartialSmt },
}

/// The map data of a storage slot.
#[derive(Debug)]
pub struct AccountStorageMapDetails {
    pub slot_name: SlotId,
    pub entries: StorageMapEntries,
}

/// An entry of a storage map as it arrives.
#[derive(Clone, Copy, Debug)]
pub struct MapEntryMessage {
    pub key: Option<Word>,
    pub value: Option<Word>,
}

/// The map data of a storage slot as it arrives.
#[derive(Debug)]
pub enum MapResultMessage {
    TooManyEntries(bool),
    AllEntries(Vec<MapEntryMessage>),
    PartialMap { map_keys: Vec<Word>, partial_smt: Option<PartialSmt> },
}

/// The details of a storage map as they arrive.
#[derive(Debug)]
pub struct MapDetailsMessage {
    pub slot_name: String,
    pub result: Option<MapResultMessage>,
}

/// What an entry lacks.
pub open spec fn entry_problem(entry: MapEntryMessage) -> Option<AccountResponseError> {
    if entry.key is None {
        Some(AccountResponseError::MissingEntryKey)
    } else if entry.value is None {
        Some(AccountResponseError::MissingEntryValue)
    } else {
        None
    }
}

/// What the entries lack, one by one.
pub open spec fn entry_problems(entries: Seq<MapEntryMessage>) -> Seq<Option<AccountResponseError>> {
    entries.map_values(|entry: MapEntryMessage| entry_problem(entry))
}

/// What a partial tree lacks for the keys, one by one.
pub open spec fn key_problems(slot_name: SlotId, smt: PartialSmt, keys: Seq<Word>) -> Seq<
    Option<AccountResponseError>,
> {
    keys.map_values(
        |key: Word|
            if smt_keys(smt).contains(key) {
                None
            } else {
                Some(AccountResponseError::UntrackedKey { slot_name, key })
            },
    )
}

/// What is wrong with the keys and the tree of a partial map.
pub open spec fn partial_map_problem(
    slot_name: SlotId,
    map_keys: Seq<Word>,
    partial_smt: Option<PartialSmt>,
) -> Option<AccountResponseError> {
    if map_keys.len() > MAX_PARTIAL_MAP_KEYS {
        Some(
            AccountResponseError::TooManyPartialKeys { slot_name, count: map_keys.len() as usize },
        )
    } else if !map_keys.no_duplicates() {
        Some(AccountResponseError::RepeatedKey { slot_name, key: first_repeat(map_keys) })
    } else {
        match partial_smt {
            None => Some(AccountResponseError::MissingPartialTree { slot_name }),
            Some(smt) => first_some(key_problems(slot_name, smt, map_keys)),
        }
    }
}

/// The first key that occurred before.
pub open spec fn first_repeat(keys: Seq<Word>) -> Word {
    keys[choose|i: int| is_first_repeat(keys, i)]
}

/// What is wrong with the details of a storage map.
pub open spec fn map_details_problem(message: MapDetailsMessage) -> Option<AccountResponseError> {
    match slot_id_of(message.slot_name@) {
        None => Some(AccountResponseError::InvalidSlotName),
        Some(slot_name) => match message.result {
            None => Some(AccountResponseError::MissingMapResult { slot_name }),
            Some(MapResultMessage::TooManyEntries(set)) => if set {
                None
            } else {
                Some(AccountResponseError::TooManyEntriesUnset)
            },
            Some(MapResultMessage::AllEntries(entries)) => first_some(entry_problems(entries@)),
            Some(MapResultMessage::PartialMap { map_keys, partial_smt }) => partial_map_problem(
                slot_name,
                map_keys@,
                partial_smt,
            ),
        },
    }
}

/// The details are what the message says.
pub open spec fn map_details_decoded(
    message: MapDetailsMessage,
    details: AccountStorageMapDetails,
) -> bool {
    &&& slot_id_of(message.slot_name@) == Some(details.slot_name)
    &&& match (message.result, details.entries) {
        (
            Some(MapResultMessage::TooManyEntries(set)),
            StorageMapEntries::LimitExceeded,
        ) => set,
        (
            Some(MapResultMessage::AllEntries(received)),
            StorageMapEntries::AllEntries(entries),
        ) => {
            &&& entries@.len() == received@.len()
            &&& forall|i: int|
                0 <= i < entries@.len() ==> Some((#[trigger] entries@[i]).key) == received@[i].key
                    && Some(entries@[i].value) == received@[i].value
        },
        (
            Some(MapResultMessage::PartialMap { map_keys: received, partial_smt: tree }),
            StorageMapEntries::PartialMap { map_keys, partial_smt },
        ) => map_keys@ == received@ && tree == Some(partial_smt),
        _ => false,
    }
}

/// There is only one first key that occurred before.
pub proof fn lemma_first_repeat(keys: Seq<Word>, i: int)
    requires
        is_first_repeat(keys, i),
    ensures
        first_repeat(keys) == keys[i],
        !keys.no_duplicates(),
{
    let j = choose|j: int| is_first_repeat(keys, j);
    let a = choose|a: int| 0 <= a < keys.take(i).len() && keys.take(i)[a] == keys[i];
    assert(keys[a] == keys[i]);
    let b = choose|b: int| 0 <= b < keys.take(j).len() && keys.take(j)[b] == keys[j];
    assert(keys[b] == keys[j]);
    if i < j {
        assert(keys.take(j)[a] == keys.take(j)[i]);
    } else if j < i {
        assert(keys.take(i)[b] == keys.take(i)[j]);
    }
}

/// A key occurs twice among the entries of a map.
#[derive(Clone, Copy, Debug, PartialEq, Eq, Structural)]
pub struct StorageMapError {}

impl StorageMapEntries {
    /// Puts the entries together to a map. Only all entries make one, so there is nothing to put
    /// together if some are left out.
    pub fn into_storage_map(self) -> (map: Option<Result<StorageSlotContent, StorageMapError>>)
        ensures
            match self {
                StorageMapEntries::AllEntries(entries) => map == Some(
                    match storage_map_root_of(entries@) {
                        Some(root) => Ok(StorageSlotContent::MapEntries { root, entries }),
                        None => Err(StorageMapError {  }),
                    },
                ),
                _ => map is None,
            },
    {
        match self {
            StorageMapEntries::AllEntries(entries) => match storage_map_root(&entries) {
                Some(root) => Some(Ok(StorageSlotContent::MapEntries { root, entries })),
                None => Some(Err(StorageMapError {  })),
            },
            _ => None,
        }
    }
}

impl AccountStorageMapDetails {
    /// The map was left out because it has too many entries.
    pub open spec fn limit_exceeded(self) -> bool {
        self.entries is LimitExceeded
    }

    /// Returns true if the map was left out because it has too many entries, so that these have to
    /// be fetched block by block.
    pub fn is_limit_exceeded(&self) -> (exceeded: bool)
        ensures
            exceeded == self.limit_exceeded(),
    {
        matches!(self.entries, StorageMapEntries::LimitExceeded)
    }

    /// Reads the details of a storage map.
    ///
    /// The values of a partial map are carried only by its tree, so a key that the tree does not
    /// track carries no value at all and is refused.
    pub fn try_from_message(message: MapDetailsMessage) -> (details: Result<
        Self,
        AccountResponseError,
    >)
        ensures
            match details {
                Ok(d) => map_details_problem(message) is None && map_details_decoded(message, d),
                Err(error) => map_details_problem(message) == Some(error),
            },
    {
        let slot_name: SlotId = match slot_id(&message.slot_name) {
            Some(id) => id,
            None => {
                return Err(AccountResponseError::InvalidSlotName);
            },
        };
        let entries = match message.result {
            None => {
                return Err(AccountResponseError::MissingMapResult { slot_name });
            },
            Some(MapResultMessage::TooManyEntries(set)) => {
                if !set {
                    return Err(AccountResponseError::TooManyEntriesUnset);
                }
                StorageMapEntries::LimitExceeded
            },
            Some(MapResultMessage::AllEntries(received)) => {
                match decode_entries(&received) {
                    Ok(entries) => StorageMapEntries::AllEntries(entries),
                    Err(error) => {
                        return Err(error);
                    },
                }
            },
            Some(MapResultMessage::PartialMap { map_keys, partial_smt }) => {
                if map_keys.len() > MAX_PARTIAL_MAP_KEYS {
                    return Err(
                        AccountResponseError::TooManyPartialKeys {
                            slot_name,
                            count: map_keys.len(),
                        },
                    );
                }
                if let Some(key) = first_duplicate_key(&map_keys) {
                    proof {
                        let i = choose|i: int| #[trigger]
                            is_first_repeat(map_keys@, i) && map_keys@[i] == key;
                        lemma_first_repeat(map_keys@, i);
                    }
                    return Err(AccountResponseError::RepeatedKey { slot_name, key });
                }
                let partial_smt = match partial_smt {
                    Some(smt) => smt,
                    None => {
                        return Err(AccountResponseError::MissingPartialTree { slot_name });
                    },
                };
                if let Err(error) = check_keys(slot_name, &partial_smt, &map_keys) {
                    return Err(error);
                }
                StorageMapEntries::PartialMap { map_keys, partial_smt }
            },
        };
        Ok(AccountStorageMapDetails { slot_name, entries })
    }
}

/// Reads the entries of a storage map.
fn decode_entries(received: &Vec<MapEntryMessage>) -> (entries: Result<
    Vec<StorageMapEntry>,
    AccountResponseError,
>)
    ensures
        match entries {
            Ok(e) => first_some(entry_problems(received@)) is None && e@.len() == received@.len()
                && forall|i: int|
                0 <= i < e@.len() ==> Some((#[trigger] e@[i]).key) == received@[i].key && Some(
                    e@[i].value,
                ) == received@[i].value,
            Err(error) => first_some(entry_problems(received@)) == Some(error),
        },
{
    let mut entries: Vec<StorageMapEntry> = Vec::new();
    let ghost problems = entry_problems(received@);
    let mut i: usize = 0;
    while i < received.len()
        invariant
            i <= received.len(),
            problems == entry_problems(received@),
            first_some(problems.take(i as int)) is None,
            entries@.len() == i,
            forall|k: int|
                0 <= k < i ==> Some((#[trigger] entries@[k]).key) == received@[k].key && Some(
                    entries@[k].value,
                ) == received@[k].value,
        decreases received.len() - i,
    {
        assert(problems[i as int] == entry_problem(received@[i as int]));
        let entry = received[i];
        match entry.key {
            None => {
                proof {
                    lemma_first_some_at(problems, i as int);
                }
                return Err(AccountResponseError::MissingEntryKey);
            },
            Some(key) => match entry.value {
                None => {
                    proof {
                        lemma_first_some_at(problems, i as int);
                    }
                    return Err(AccountResponseError::MissingEntryValue);
                },
                Some(value) => {
                    proof {
                        lemma_first_some_step(problems, i as int);
                    }
                    entries.push(StorageMapEntry { key, value });
                },
            },
        }
        i += 1;
    }
    assert(problems.take(received.len() as int) =~= problems);
    Ok(entries)
}

/// Checks that the tree of a partial map carries the value of each of its keys.
fn check_keys(slot_name: SlotId, partial_smt: &PartialSmt, map_keys: &Vec<Word>) -> (checked: Result<
    (),
    AccountResponseError,
>)
    ensures
        match checked {
            Ok(_) => first_some(key_problems(slot_name, *partial_smt, map_keys@)) is None,
            Err(error) => first_some(key_problems(slot_name, *partial_smt, map_keys@)) == Some(
                error,
            ),
        },
{
    let ghost problems = key_problems(slot_name, *partial_smt, map_keys@);
    let mut i: usize = 0;
    while i < map_keys.len()
        invariant
            i <= map_keys.len(),
            problems == key_problems(slot_name, *partial_smt, map_keys@),
            first_some(problems.take(i as int)) is None,
        decreases map_keys.len() - i,
    {
        let key = map_keys[i];
        assert(problems.len() == map_keys@.len());
        if !tracks_key(partial_smt, key) {
            proof {
                lemma_first_some_at(problems, i as int);
            }
            return Err(AccountResponseError::UntrackedKey { slot_name, key });
        }
        proof {
            lemma_first_some_step(problems, i as int);
        }
        i += 1;
    }
    assert(problems.take(map_keys.len() as int) =~= problems);
    Ok(())
}

// STORAGE DETAILS
// ================================================================================================
/// The storage of an account: the headers of all slots, and the data of the requested maps.
#[derive(Debug)]
pub struct AccountStorageDetails {
    pub header: Vec<StorageSlotHeader>,
    pub map_details: Vec<AccountStorageMapDetails>,
}

/// `j` is the position of the first details for the slot.
pub open spec fn is_first_details(
    map_details: Seq<AccountStorageMapDetails>,
    slot_name: SlotId,
    j: int,
) -> bool {
    &&& 0 <= j < map_details.len()
    &&& map_details[j].slot_name == slot_name
    &&& forall|k: int| 0 <= k < j ==> (#[trigger] map_details[k]).slot_name != slot_name
}

/// The first details for the slot.
pub open spec fn details_of(map_details: Seq<AccountStorageMapDetails>, slot_name: SlotId) -> Option<
    AccountStorageMapDetails,
> {
    if exists|j: int| is_first_details(map_details, slot_name, j) {
        Some(map_details[choose|j: int| is_first_details(map_details, slot_name, j)])
    } else {
        None
    }
}

/// `j` is the position of the first slot with the name.
pub open spec fn is_first_slot(header: Seq<StorageSlotHeader>, slot_name: SlotId, j: int) -> bool {
    &&& 0 <= j < header.len()
    &&& header[j].slot_name == slot_name
    &&& forall|k: int| 0 <= k < j ==> (#[trigger] header[k]).slot_name != slot_name
}

/// The first slot with the name.
pub open spec fn slot_of(header: Seq<StorageSlotHeader>, slot_name: SlotId) -> Option<
    StorageSlotHeader,
> {
    if exists|j: int| is_first_slot(header, slot_name, j) {
        Some(header[choose|j: int| is_first_slot(header, slot_name, j)])
    } else {
        None
    }
}

/// Why a partial map is not anchored to the storage of the account: its slot must be a map, and
/// the root of its tree must be that of the slot.
pub open spec fn anchor_problem(
    header: Seq<StorageSlotHeader>,
    details: AccountStorageMapDetails,
) -> Option<AccountResponseError> {
    let slot_name = details.slot_name;
    match details.entries {
        StorageMapEntries::PartialMap { map_keys, partial_smt } => match slot_of(
            header,
            slot_name,
        ) {
            None => Some(AccountResponseError::UnknownSlot { slot_name }),
            Some(slot) => if slot.slot_type != StorageSlotType::MapRoot {
                Some(AccountResponseError::NotAMap { slot_name })
            } else if smt_root(partial_smt) != slot.value {
                Some(
                    AccountResponseError::RootMismatch {
                        slot_name,
                        received: smt_root(partial_smt),
                        expected: slot.value,
                    },
                )
            } else {
                None
            },
        },
        _ => None,
    }
}

/// Why partial maps are not anchored to the storage, one by one.
pub open spec fn anchor_problems(
    header: Seq<StorageSlotHeader>,
    map_details: Seq<AccountStorageMapDetails>,
) -> Seq<Option<AccountResponseError>> {
    map_details.map_values(|details: AccountStorageMapDetails| anchor_problem(header, details))
}

/// What is wrong with the details of the storage maps, one by one.
pub open spec fn message_problems(messages: Seq<MapDetailsMessage>) -> Seq<
    Option<AccountResponseError>,
> {
    messages.map_values(|message: MapDetailsMessage| map_details_problem(message))
}

/// Each of the details is what the message at its place says.
pub open spec fn all_decoded(
    messages: Seq<MapDetailsMessage>,
    decoded: Seq<AccountStorageMapDetails>,
) -> bool {
    &&& decoded.len() == messages.len()
    &&& forall|i: int|
        0 <= i < messages.len() ==> map_details_decoded(messages[i], #[trigger] decoded[i])
}

/// `details` is what comes of reading the storage of an account: the first problem of the maps, or
/// else the first partial map that is not anchored, or else the storage.
pub open spec fn storage_read(
    header: Option<Vec<StorageSlotHeader>>,
    messages: Seq<MapDetailsMessage>,
    details: Result<AccountStorageDetails, AccountResponseError>,
) -> bool {
    match header {
        None => details == Err::<AccountStorageDetails, _>(AccountResponseError::MissingField),
        Some(slots) => match first_some(message_problems(messages)) {
            Some(error) => details == Err::<AccountStorageDetails, _>(error),
            None => exists|decoded: Seq<AccountStorageMapDetails>| #[trigger]
                all_decoded(messages, decoded) && match first_some(
                    anchor_problems(slots@, decoded),
                ) {
                    Some(error) => details == Err::<AccountStorageDetails, _>(error),
                    None => details is Ok && details->Ok_0.header == slots
                        && details->Ok_0.map_details@ == decoded,
                },
        },
    }
}

impl AccountStorageDetails {
    /// Returns the first details for a slot.
    pub fn find_map_details(&self, target: SlotId) -> (details: Option<&AccountStorageMapDetails>)
        ensures
            match details {
                Some(d) => details_of(self.map_details@, target) == Some(*d),
                None => details_of(self.map_details@, target) is None,
            },
    {
        let mut j: usize = 0;
        while j < self.map_details.len()
            invariant
                j <= self.map_details.len(),
                forall|k: int|
                    0 <= k < j ==> (#[trigger] self.map_details@[k]).slot_name != target,
            decreases self.map_details.len() - j,
        {
            if self.map_details[j].slot_name == target {
                proof {
                    assert(is_first_details(self.map_details@, target, j as int));
                    let first = choose|f: int| is_first_details(self.map_details@, target, f);
                    if first < j {
                        assert(self.map_details@[first].slot_name != target);
                    } else if (j as int) < first {
                        assert(self.map_details@[j as int].slot_name != target);
                    }
                }
                return Some(&self.map_details[j]);
            }
            j += 1;
        }
        None
    }

    /// Returns the first slot with a name.
    pub fn find_slot_header(&self, target: SlotId) -> (slot: Option<StorageSlotHeader>)
        ensures
            slot == slot_of(self.header@, target),
    {
        let mut j: usize = 0;
        while j < self.header.len()
            invariant
                j <= self.header.len(),
                forall|k: int| 0 <= k < j ==> (#[trigger] self.header@[k]).slot_name != target,
            decreases self.header.len() - j,
        {
            if self.header[j].slot_name == target {
                proof {
                    assert(is_first_slot(self.header@, target, j as int));
                    let first = choose|f: int| is_first_slot(self.header@, target, f);
                    if first < j {
                        assert(self.header@[first].slot_name != target);
                    } else if (j as int) < first {
                        assert(self.header@[j as int].slot_name != target);
                    }
                }
                return Some(self.header[j]);
            }
            j += 1;
        }
        None
    }

    /// Reads the storage of an account. The maps are read in order, and then each partial map is
    /// checked against the root that the storage has for its slot: without this, a node could send
    /// a consistent tree of its own making.
    pub fn try_from_message(
        header: Option<Vec<StorageSlotHeader>>,
        map_details: Vec<MapDetailsMessage>,
    ) -> (details: Result<Self, AccountResponseError>)
        ensures
            storage_read(header, map_details@, details),
    {
        let slots = match header {
            Some(slots) => slots,
            None => {
                return Err(AccountResponseError::MissingField);
            },
        };
        let ghost messages = map_details@;
        let ghost problems = message_problems(messages);
        let mut decoded: Vec<AccountStorageMapDetails> = Vec::new();
        for message in iter: map_details
            invariant
                header == Some(slots),
                messages == map_details@,
                iter.seq() == messages,
                problems == message_problems(messages),
                first_some(problems.take(iter.index() as int)) is None,
                decoded@.len() == iter.index(),
                forall|i: int|
                    0 <= i < decoded@.len() ==> map_details_decoded(
                        messages[i],
                        #[trigger] decoded@[i],
                    ),
        {
            let ghost at = iter.index() as int;
            assert(problems[at] == map_details_problem(messages[at]));
            match AccountStorageMapDetails::try_from_message(message) {
                Ok(details) => {
                    proof {
                        lemma_first_some_step(problems, at);
                    }
                    decoded.push(details);
                },
                Err(error) => {
                    proof {
                        lemma_first_some_at(problems, at);
                    }
                    return Err(error);
                },
            }
        }
        assert(problems.take(messages.len() as int) =~= problems);
        assert(all_decoded(messages, decoded@));
        let details = AccountStorageDetails { header: slots, map_details: decoded };
        if let Err(error) = details.check_anchors() {
            return Err(error);
        }
        Ok(details)
    }

    /// Checks that every partial map is anchored to the storage.
    fn check_anchors(&self) -> (checked: Result<(), AccountResponseError>)
        ensures
            match checked {
                Ok(_) => first_some(anchor_problems(self.header@, self.map_details@)) is None,
                Err(error) => first_some(anchor_problems(self.header@, self.map_details@)) == Some(
                    error,
                ),
            },
    {
        let ghost problems = anchor_problems(self.header@, self.map_details@);
        let mut i: usize = 0;
        while i < self.map_details.len()
            invariant
                i <= self.map_details.len(),
                problems == anchor_problems(self.header@, self.map_details@),
                first_some(problems.take(i as int)) is None,
            decreases self.map_details.len() - i,
        {
            let details = &self.map_details[i];
            let slot_name: SlotId = details.slot_name;
            assert(problems[i as int] == anchor_problem(self.header@, *details));
            let problem = match &details.entries {
                StorageMapEntries::PartialMap { map_keys, partial_smt } => {
                    match self.find_slot_header(slot_name) {
                        None => Some(AccountResponseError::UnknownSlot { slot_name }),
                        Some(slot) => {
                            let received = root_of(partial_smt);
                            if slot.slot_type != StorageSlotType::MapRoot {
                                Some(AccountResponseError::NotAMap { slot_name })
                            } else if received != slot.value {
                                Some(
                                    AccountResponseError::RootMismatch {
                                        slot_name,
                                        received,
                                        expected: slot.value,
                                    },
                                )
                            } else {
                                None
                            }
                        },
                    }
                },
                _ => None,
            };
            match problem {
                Some(error) => {
                    proof {
                        lemma_first_some_at(problems, i as int);
                    }
                    return Err(error);
                },
                None => {
                    proof {
                        lemma_first_some_step(problems, i as int);
                    }
                },
            }
            i += 1;
        }
        assert(problems.take(self.map_details.len() as int) =~= problems);
        Ok(())
    }

    /// Checks that every partial map covers exactly the keys that were requested for its slot.
    pub fn validate_against_request(&self, requirements: &AccountStorageRequirements) -> (checked:
        Result<(), AccountResponseError>)
        ensures
            match checked {
                Ok(_) => first_some(coverage_problems(self.map_details@, *requirements)) is None,
                Err(error) => first_some(coverage_problems(self.map_details@, *requirements))
                    == Some(error),
            },
    {
        let ghost problems = coverage_problems(self.map_details@, *requirements);
        let mut i: usize = 0;
        while i < self.map_details.len()
            invariant
                i <= self.map_details.len(),
                problems == coverage_problems(self.map_details@, *requirements),
                first_some(problems.take(i as int)) is None,
            decreases self.map_details.len() - i,
        {
            let details = &self.map_details[i];
            assert(problems[i as int] == coverage_problem(*details, *requirements));
            if let StorageMapEntries::PartialMap { map_keys, partial_smt } = &details.entries {
                let requested = requirements.keys_for_slot(details.slot_name);
                if let Some(key) = first_missing(&requested, map_keys) {
                    proof {
                        lemma_first_some_at(problems, i as int);
                    }
                    return Err(
                        AccountResponseError::UncoveredKey { slot_name: details.slot_name, key },
                    );
                }
                if let Some(key) = first_missing(map_keys, &requested) {
                    proof {
                        lemma_first_some_at(problems, i as int);
                    }
                    return Err(
                        AccountResponseError::UnrequestedKey { slot_name: details.slot_name, key },
                    );
                }
            }
            proof {
                lemma_first_some_step(problems, i as int);
            }
            i += 1;
        }
        assert(problems.take(self.map_details.len() as int) =~= problems);
        Ok(())
    }
}

/// The first of the keys that is not among the others.
pub open spec fn missing_from(keys: Seq<Word>, others: Seq<Word>) -> Option<Word> {
    first_some(
        keys.map_values(
            |key: Word|
                if others.contains(key) {
                    None
                } else {
                    Some(key)
                },
        ),
    )
}

/// Why a partial map does not cover exactly the keys that were requested for its slot.
pub open spec fn coverage_problem(
    details: AccountStorageMapDetails,
    requirements: AccountStorageRequirements,
) -> Option<AccountResponseError> {
    let slot_name = details.slot_name;
    match details.entries {
        StorageMapEntries::PartialMap { map_keys, partial_smt } => {
            let requested = requirements.requested(slot_name);
            match missing_from(requested, map_keys@) {
                Some(key) => Some(AccountResponseError::UncoveredKey { slot_name, key }),
                None => match missing_from(map_keys@, requested) {
                    Some(key) => Some(AccountResponseError::UnrequestedKey { slot_name, key }),
                    None => None,
                },
            }
        },
        _ => None,
    }
}

/// Why partial maps do not cover exactly what was requested, one by one.
pub open spec fn coverage_problems(
    map_details: Seq<AccountStorageMapDetails>,
    requirements: AccountStorageRequirements,
) -> Seq<Option<AccountResponseError>> {
    map_details.map_values(
        |details: AccountStorageMapDetails| coverage_problem(details, requirements),
    )
}

/// Returns the first of the keys that is not among the others.
fn first_missing(keys: &Vec<Word>, others: &Vec<Word>) -> (key: Option<Word>)
    ensures
        key == missing_from(keys@, others@),
{
    let ghost options = keys@.map_values(
        |key: Word|
            if others@.contains(key) {
                None
            } else {
                Some(key)
            },
    );
    let mut i: usize = 0;
    while i < keys.len()
        invariant
            i <= keys.len(),
            options == keys@.map_values(
                |key: Word|
                    if others@.contains(key) {
                        None
                    } else {
                        Some(key)
                    },
            ),
            first_some(options.take(i as int)) is None,
        decreases keys.len() - i,
    {
        assert(options.len() == keys@.len());
        if !contains_key(others, &keys[i]) {
            proof {
                lemma_first_some_at(options, i as int);
            }
            return Some(keys[i]);
        }
        proof {
            lemma_first_some_step(options, i as int);
        }
        i += 1;
    }
    assert(options.take(keys.len() as int) =~= options);
    None
}

// STORAGE REQUIREMENTS
// ================================================================================================
/// Which map data to put into an answer, by slot.
///
/// Of a slot without keys all entries are sent, without a proof. Of a slot with keys just these are
/// sent, covered by one partial tree.
#[derive(Debug)]
pub struct AccountStorageRequirements {
    pub slots: OrdMap<SlotId, Vec<Word>>,
}

/// The keys without those that occurred before.
pub open spec fn without_repeats(keys: Seq<Word>) -> Seq<Word>
    decreases keys.len(),
{
    if keys.len() == 0 {
        Seq::empty()
    } else {
        let rest = without_repeats(keys.drop_last());
        if rest.contains(keys.last()) {
            rest
        } else {
            rest.push(keys.last())
        }
    }
}

/// What is requested of each slot: the last request for the slot, without repeated keys.
pub open spec fn requirements_of(slots_and_keys: Seq<(SlotId, Vec<Word>)>) -> Map<SlotId, Seq<Word>>
    decreases slots_and_keys.len(),
{
    if slots_and_keys.len() == 0 {
        Map::empty()
    } else {
        requirements_of(slots_and_keys.drop_last()).insert(
            slots_and_keys.last().0,
            without_repeats(slots_and_keys.last().1@),
        )
    }
}

/// What is requested of one slot in the message for it.
#[derive(Debug)]
pub enum SlotData {
    /// All entries.
    AllEntries,
    /// The entries with the given keys.
    MapKeys(Vec<Word>),
}

/// The message that requests map data of one slot.
#[derive(Debug)]
pub struct StorageMapDetailRequest {
    pub slot_name: SlotId,
    pub slot_data: SlotData,
}

impl AccountStorageRequirements {
    /// The keys requested for a slot.
    pub open spec fn requested(self, slot_name: SlotId) -> Seq<Word> {
        if self.slots@.contains_key(slot_name) {
            self.slots@[slot_name]@
        } else {
            Seq::empty()
        }
    }

    /// Requests the given keys of the given slots, and all entries of a slot without keys. Repeated
    /// keys are dropped, since the node refuses a request that names a key twice. Of two requests
    /// for the same slot the last counts.
    pub fn new(slots_and_keys: &Vec<(SlotId, Vec<Word>)>) -> (requirements: Self)
        ensures
            requirements.slots@.dom() == requirements_of(slots_and_keys@).dom(),
            forall|slot_name: SlotId| #[trigger]
                requirements.slots@.contains_key(slot_name) ==> requirements.slots@[slot_name]@
                    == requirements_of(slots_and_keys@)[slot_name],
    {
        let mut slots: OrdMap<SlotId, Vec<Word>> = OrdMap::new();
        let mut i: usize = 0;
        while i < slots_and_keys.len()
            invariant
                i <= slots_and_keys.len(),
                slots@.dom() == requirements_of(slots_and_keys@.take(i as int)).dom(),
                forall|slot_name: SlotId| #[trigger]
                    slots@.contains_key(slot_name) ==> slots@[slot_name]@ == requirements_of(
                        slots_and_keys@.take(i as int),
                    )[slot_name],
            decreases slots_and_keys.len() - i,
        {
            let keys = drop_repeats(&slots_and_keys[i].1);
            assert(slots_and_keys@.take(i + 1).drop_last() =~= slots_and_keys@.take(i as int));
            assert(slots_and_keys@.take(i + 1).last() == slots_and_keys@[i as int]);
            slots.insert(slots_and_keys[i].0, keys);
            assert(slots@.dom() =~= requirements_of(slots_and_keys@.take(i + 1)).dom());
            i += 1;
        }
        assert(slots_and_keys@.take(slots_and_keys.len() as int) =~= slots_and_keys@);
        AccountStorageRequirements { slots }
    }

    /// Requests all entries of the given slots.
    pub fn all_entries(slot_names: &Vec<SlotId>) -> (requirements: Self)
        ensures
            forall|slot_name: SlotId| #[trigger]
                requirements.slots@.contains_key(slot_name) <==> slot_names@.contains(slot_name),
            forall|slot_name: SlotId| #[trigger]
                requirements.slots@.contains_key(slot_name) ==> requirements.slots@[slot_name]@
                    == Seq::<Word>::empty(),
    {
        let mut slots: OrdMap<SlotId, Vec<Word>> = OrdMap::new();
        let mut i: usize = 0;
        while i < slot_names.len()
            invariant
                i <= slot_names.len(),
                forall|slot_name: SlotId| #[trigger]
                    slots@.contains_key(slot_name) <==> exists|k: int|
                        0 <= k < i && slot_names@[k] == slot_name,
                forall|slot_name: SlotId| #[trigger]
                    slots@.contains_key(slot_name) ==> slots@[slot_name]@ == Seq::<Word>::empty(),
            decreases slot_names.len() - i,
        {
            slots.insert(slot_names[i], Vec::new());
            i += 1;
        }
        AccountStorageRequirements { slots }
    }

    /// Returns what is requested, by slot.
    pub fn inner(&self) -> (slots: &OrdMap<SlotId, Vec<Word>>)
        ensures
            *slots == self.slots,
    {
        &self.slots
    }

    /// Returns the keys requested for a slot.
    pub fn keys_for_slot(&self, slot_name: SlotId) -> (keys: Vec<Word>)
        ensures
            keys@ == self.requested(slot_name),
    {
        match self.slots.get(&slot_name) {
            Some(keys) => keys.clone(),
            None => Vec::new(),
        }
    }

    /// Returns the messages that request this, in the order of the slots.
    pub fn to_requests(&self) -> (requests: Vec<StorageMapDetailRequest>)
        ensures
            are_requests_of(requests@, self.slots.listing()),
    {
        let mut requests: Vec<StorageMapDetailRequest> = Vec::new();
        let mut i: usize = 0;
        while i < self.slots.len()
            invariant
                i <= self.slots.listing().len(),
                requests@.len() == i,
                forall|k: int|
                    0 <= k < i ==> is_request_of(#[trigger] requests@[k], self.slots.listing()[k]),
            decreases self.slots.listing().len() - i,
        {
            let entry = &self.slots.entries()[i];
            let slot_data = if entry.1.len() == 0 {
                SlotData::AllEntries
            } else {
                SlotData::MapKeys(entry.1.clone())
            };
            requests.push(StorageMapDetailRequest { slot_name: entry.0, slot_data });
            i += 1;
        }
        requests
    }
}

/// The message requests the slot: all entries if no keys are named, and else those of the keys.
pub open spec fn is_request_of(request: StorageMapDetailRequest, slot: (SlotId, Vec<Word>)) -> bool {
    &&& request.slot_name == slot.0
    &&& match request.slot_data {
        SlotData::AllEntries => slot.1@.len() == 0,
        SlotData::MapKeys(map_keys) => slot.1@.len() > 0 && map_keys@ == slot.1@,
    }
}

/// The messages request the slots, one for each, in order.
pub open spec fn are_requests_of(
    requests: Seq<StorageMapDetailRequest>,
    slots: Seq<(SlotId, Vec<Word>)>,
) -> bool {
    &&& requests.len() == slots.len()
    &&& forall|i: int| 0 <= i < slots.len() ==> is_request_of(#[trigger] requests[i], slots[i])
}

/// Returns the keys without those that occurred before.
fn drop_repeats(keys: &Vec<Word>) -> (kept: Vec<Word>)
    ensures
        kept@ == without_repeats(keys@),
{
    let mut kept: Vec<Word> = Vec::new();
    let mut i: usize = 0;
    while i < keys.len()
        invariant
            i <= keys.len(),
            kept@ == without_repeats(keys@.take(i as int)),
        decreases keys.len() - i,
    {
        assert(keys@.take(i + 1).drop_last() =~= keys@.take(i as int));
        assert(keys@.take(i + 1).last() == keys@[i as int]);
        if !contains_key(&kept, &keys[i]) {
            kept.push(keys[i]);
        }
        i += 1;
    }
    assert(keys@.take(keys.len() as int) =~= keys@);
    kept
}

/// Dropping repeated keys keeps every key, and leaves none twice.
pub proof fn law_without_repeats(keys: Seq<Word>)
    ensures
        without_repeats(keys).no_duplicates(),
        forall|key: Word| #[trigger] without_repeats(keys).contains(key) <==> keys.contains(key),
    decreases keys.len(),
{
    if keys.len() > 0 {
        let rest = keys.drop_last();
        law_without_repeats(rest);
        let kept = without_repeats(rest);
        let all = without_repeats(keys);
        assert forall|key: Word| #[trigger] all.contains(key) <==> keys.contains(key) by {
            if all.contains(key) {
                let i = choose|i: int| 0 <= i < all.len() && all[i] == key;
                if i < kept.len() {
                    assert(kept[i] == key);
                    assert(kept.contains(key));
                    let j = choose|j: int| 0 <= j < rest.len() && rest[j] == key;
                    assert(keys[j] == key);
                } else {
                    assert(keys[keys.len() - 1] == key);
                }
            }
            if keys.contains(key) {
                let j = choose|j: int| 0 <= j < keys.len() && keys[j] == key;
                if j < rest.len() {
                    assert(rest[j] == key);
                    assert(rest.contains(key));
                    assert(kept.contains(key));
                    let i = choose|i: int| 0 <= i < kept.len() && kept[i] == key;
                    assert(all[i] == key);
                } else if kept.contains(key) {
                    let i = choose|i: int| 0 <= i < kept.len() && kept[i] == key;
                    assert(all[i] == key);
                } else {
                    assert(all[all.len() - 1] == key);
                }
            }
        }
    }
}

} // verus!
