//! Private notes that are to be sent: the outbox that keeps them until they were delivered.
use miden_protocol::note as protocol_note;
use miden_protocol::utils::serde::{BudgetedReader, Deserializable, SliceReader};
use vstd::arithmetic::power2::{lemma2_to64, pow2};
use vstd::prelude::*;

use crate::bytes::{
    le_bytes, le_value, length_at, length_bytes, lemma_le_bound, lemma_le_inverse, lemma_le_len,
    lemma_length_inverse, read_le, read_length, sub_vector, write_le, write_length,
};
use crate::note_transport::wire::{
    details_at, details_bytes_of, header_read_of, lemma_details_inverse, read_details, read_header,
    write_details,
};
use crate::types::{BlockNumber, NoteId};

verus! {

// INCLUSION PROOFS
// ================================================================================================
/// The block of the inclusion proof at the start of bytes, and how many bytes the proof takes.
pub uninterp spec fn proof_read_of(bytes: Seq<u8>) -> Option<(BlockNumber, nat)>;

/// `NoteInclusionProof::read_from`: reads an inclusion proof from a position on, and returns the block
/// it is about and how many bytes are left after it. A proof is read from its own bytes alone, so that
/// what follows them does not matter. Which bytes are a proof, and of which block, is only named.
#[verifier::external_body]
fn read_proof(bytes: &Vec<u8>, from: usize) -> (read: Option<(BlockNumber, usize)>)
    requires
        from <= bytes@.len(),
    ensures
        match (read, proof_read_of(bytes@.skip(from as int))) {
            (Some((block_num, left)), Some((named, used))) => {
                &&& block_num == named
                &&& from + used + left == bytes@.len()
            },
            (None, None) => true,
            _ => false,
        },
        read matches Some((block_num, left)) ==> forall|rest: Seq<u8>| #[trigger]
            proof_read_of(bytes@.subrange(from as int, bytes@.len() - left) + rest) == Some(
                (block_num, (bytes@.len() - left - from) as nat),
            ),
{
    let unread = &bytes[from..];
    let mut reader = BudgetedReader::new(SliceReader::new(unread), unread.len());
    let proof = protocol_note::NoteInclusionProof::read_from(&mut reader).ok()?;
    Some((proof.location().block_num().as_u32(), reader.remaining()))
}

/// Returns the block of an inclusion proof in serialized form, which a service that cannot carry the
/// proof is told instead; `None` if the bytes do not start with a proof.
pub fn proof_block_num(inclusion_proof: &Vec<u8>) -> (block_num: Option<BlockNumber>)
    ensures
        block_num == match proof_read_of(inclusion_proof@) {
            Some((named, _)) => Some(named),
            None => None,
        },
{
    assert(inclusion_proof@.skip(0) =~= inclusion_proof@);
    match read_proof(inclusion_proof, 0) {
        Some((block_num, _)) => Some(block_num),
        None => None,
    }
}

// DELIVERY
// ================================================================================================
/// What a recipient is told of where the note was created.
#[derive(Debug)]
pub enum RelayDelivery {
    /// Nothing. The recipient looks back a fixed number of blocks.
    Plain,
    /// A block from which the recipient should look.
    BlockHint(BlockNumber),
    /// The inclusion proof of the note, in serialized form. The transport checks it.
    InclusionProof(Vec<u8>),
}

/// Why a delivery cannot be read.
#[derive(Clone, Copy, Debug, PartialEq, Eq, Structural)]
pub enum DeliveryReadError {
    /// There is no delivery of this kind.
    InvalidValue(u8),
    /// The bytes end too early, or what they hold is not an inclusion proof.
    Unreadable,
}

/// A delivery, with its bytes as a sequence.
#[verifier::ext_equal]
pub enum DeliveryView {
    Plain,
    BlockHint(BlockNumber),
    InclusionProof(Seq<u8>),
}

impl View for RelayDelivery {
    type V = DeliveryView;

    open spec fn view(&self) -> DeliveryView {
        match self {
            RelayDelivery::Plain => DeliveryView::Plain,
            RelayDelivery::BlockHint(block_num) => DeliveryView::BlockHint(*block_num),
            RelayDelivery::InclusionProof(bytes) => DeliveryView::InclusionProof(bytes@),
        }
    }
}

/// The bytes are those of one inclusion proof.
pub open spec fn is_proof(bytes: Seq<u8>) -> bool {
    forall|rest: Seq<u8>|
        (#[trigger] proof_read_of(bytes + rest)) matches Some((_, size)) && size == bytes.len()
}

/// The bytes are read as an inclusion proof, and none are left.
pub open spec fn is_read_whole(bytes: Seq<u8>) -> bool {
    proof_read_of(bytes) matches Some((_, size)) && size == bytes.len()
}

/// A proof that is delivered is one.
pub open spec fn delivery_wf(delivery: DeliveryView) -> bool {
    match delivery {
        DeliveryView::InclusionProof(bytes) => is_proof(bytes),
        _ => true,
    }
}

/// The bytes of a delivery. The first two kinds look like an optional block number.
pub open spec fn delivery_bytes(delivery: DeliveryView) -> Seq<u8> {
    match delivery {
        DeliveryView::Plain => seq![0u8],
        DeliveryView::BlockHint(block_num) => seq![1u8] + le_bytes(block_num as nat, 4),
        DeliveryView::InclusionProof(bytes) => seq![2u8] + bytes,
    }
}

/// The delivery at the start of bytes, and how many bytes it takes.
pub open spec fn delivery_at(bytes: Seq<u8>) -> Option<(DeliveryView, nat)> {
    if bytes.len() == 0 {
        None
    } else if bytes[0] == 0 {
        Some((DeliveryView::Plain, 1))
    } else if bytes[0] == 1 {
        if bytes.len() < 5 {
            None
        } else {
            Some((DeliveryView::BlockHint(le_value(bytes.subrange(1, 5)) as u32), 5))
        }
    } else if bytes[0] == 2 {
        match proof_read_of(bytes.skip(1)) {
            Some((_, size)) => Some(
                (DeliveryView::InclusionProof(bytes.subrange(1, 1 + size as int)), 1 + size),
            ),
            None => None,
        }
    } else {
        None
    }
}

/// A delivery is read back from its bytes, whatever follows them.
pub proof fn law_delivery_is_read_back(delivery: DeliveryView, rest: Seq<u8>)
    requires
        delivery_wf(delivery),
    ensures
        delivery_at(delivery_bytes(delivery) + rest) == Some(
            (delivery, delivery_bytes(delivery).len()),
        ),
{
    let bytes = delivery_bytes(delivery) + rest;
    match delivery {
        DeliveryView::Plain => {},
        DeliveryView::BlockHint(block_num) => {
            lemma2_to64();
            lemma_le_len(block_num as nat, 4);
            lemma_le_inverse(block_num as nat, 4);
            assert(pow2(32) == 0x1_0000_0000);
            assert(bytes.subrange(1, 5) =~= le_bytes(block_num as nat, 4));
        },
        DeliveryView::InclusionProof(own) => {
            assert(bytes.skip(1) =~= own + rest);
            assert(bytes.subrange(1, 1 + own.len() as int) =~= own);
        },
    }
}

impl RelayDelivery {
    /// Returns the delivery with an inclusion proof, if the bytes are those of one.
    pub fn with_proof(bytes: Vec<u8>) -> (delivery: Option<Self>)
        ensures
            match delivery {
                Some(delivery) => delivery@ == DeliveryView::InclusionProof(bytes@) && is_proof(
                    bytes@,
                ),
                None => !is_read_whole(bytes@),
            },
    {
        let ghost all = bytes@;
        assert(all.skip(0) =~= all);
        match read_proof(&bytes, 0) {
            Some((_, 0)) => {
                assert(all.subrange(0, all.len() as int) =~= all);
                Some(RelayDelivery::InclusionProof(bytes))
            },
            _ => None,
        }
    }

    /// Appends the bytes of the delivery.
    pub fn write_into(&self, bytes: &mut Vec<u8>)
        ensures
            final(bytes)@ == old(bytes)@ + delivery_bytes(self@),
    {
        let ghost before = bytes@;
        match self {
            RelayDelivery::Plain => {
                bytes.push(0);
            },
            RelayDelivery::BlockHint(block_num) => {
                bytes.push(1);
                write_le(bytes, *block_num as u64, 4);
            },
            RelayDelivery::InclusionProof(own) => {
                bytes.push(2);
                bytes.extend_from_slice(own.as_slice());
            },
        }
        assert(bytes@ =~= before + delivery_bytes(self@));
    }

    /// Reads a delivery from a position on. Returns the position after it too.
    pub fn read_from(bytes: &Vec<u8>, from: usize) -> (read: Result<(Self, usize), DeliveryReadError>)
        requires
            from <= bytes@.len(),
        ensures
            match (read, delivery_at(bytes@.skip(from as int))) {
                (Ok((delivery, end)), Some((view, used))) => {
                    &&& delivery@ == view
                    &&& end == from + used
                    &&& end <= bytes@.len()
                    &&& delivery_wf(delivery@)
                },
                (Err(error), None) => error == if from < bytes@.len() && bytes@[from as int] > 2 {
                    DeliveryReadError::InvalidValue(bytes@[from as int])
                } else {
                    DeliveryReadError::Unreadable
                },
                _ => false,
            },
    {
        let ghost all = bytes@.skip(from as int);
        if from == bytes.len() {
            return Err(DeliveryReadError::Unreadable);
        }
        assert(all[0] == bytes@[from as int]);
        let kind: u8 = bytes[from];
        if kind == 0 {
            return Ok((RelayDelivery::Plain, from + 1));
        }
        if kind == 1 {
            if bytes.len() - from < 5 {
                return Err(DeliveryReadError::Unreadable);
            }
            assert(bytes@.subrange(from + 1, from + 5) =~= all.subrange(1, 5));
            proof {
                lemma_le_bound(all.subrange(1, 5));
                lemma2_to64();
            }
            return match read_le(bytes, from + 1, 4) {
                Some(block_num) => Ok((RelayDelivery::BlockHint(block_num as u32), from + 5)),
                None => Err(DeliveryReadError::Unreadable),
            };
        }
        if kind == 2 {
            assert(bytes@.skip(from + 1) =~= all.skip(1));
            return match read_proof(bytes, from + 1) {
                Some((_, left)) => {
                    let end: usize = bytes.len() - left;
                    let own = sub_vector(bytes, from + 1, end);
                    assert(own@ =~= all.subrange(1, end - from));
                    Ok((RelayDelivery::InclusionProof(own), end))
                },
                None => Err(DeliveryReadError::Unreadable),
            };
        }
        Err(DeliveryReadError::InvalidValue(kind))
    }
}

// ENTRIES
// ================================================================================================
/// A private note that was not delivered yet.
#[derive(Debug)]
pub struct RelayOutboxEntry {
    /// The id of the note, as its header gives it.
    pub note_id: NoteId,
    /// The header of the note, in serialized form.
    pub header: Vec<u8>,
    /// The details of the note, in serialized form.
    pub details_bytes: Vec<u8>,
    pub delivery: RelayDelivery,
}

/// An entry, with its bytes as sequences.
#[verifier::ext_equal]
pub struct EntryView {
    pub note_id: NoteId,
    pub header: Seq<u8>,
    pub details: Seq<u8>,
    pub delivery: DeliveryView,
}

impl View for RelayOutboxEntry {
    type V = EntryView;

    open spec fn view(&self) -> EntryView {
        EntryView {
            note_id: self.note_id,
            header: self.header@,
            details: self.details_bytes@,
            delivery: self.delivery@,
        }
    }
}

/// The bytes are those of one header, of the note with the id.
pub open spec fn is_header_of(bytes: Seq<u8>, note_id: NoteId) -> bool {
    forall|rest: Seq<u8>|
        (#[trigger] header_read_of(bytes + rest)) matches Some((header, size)) && header.note_id
            == note_id && size == bytes.len()
}

/// The header is that of the note, and a proof that is delivered is one.
pub open spec fn entry_wf(entry: EntryView) -> bool {
    &&& is_header_of(entry.header, entry.note_id)
    &&& entry.details.len() <= usize::MAX
    &&& delivery_wf(entry.delivery)
}

/// The bytes of an entry: the header, the details with their length, and the delivery.
pub open spec fn entry_bytes(entry: EntryView) -> Seq<u8> {
    entry.header + details_bytes_of(entry.details) + delivery_bytes(entry.delivery)
}

/// The entry at the start of bytes, and how many bytes it takes.
pub open spec fn entry_at(bytes: Seq<u8>) -> Option<(EntryView, nat)> {
    match header_read_of(bytes) {
        None => None,
        Some((header, header_size)) => match details_at(bytes.skip(header_size as int)) {
            None => None,
            Some((details, details_size)) => match delivery_at(
                bytes.skip((header_size + details_size) as int),
            ) {
                None => None,
                Some((delivery, delivery_size)) => Some(
                    (
                        EntryView {
                            note_id: header.note_id,
                            header: bytes.take(header_size as int),
                            details,
                            delivery,
                        },
                        header_size + details_size + delivery_size,
                    ),
                ),
            },
        },
    }
}

/// An entry is read back from its bytes, whatever follows them.
pub proof fn law_entry_is_read_back(entry: EntryView, rest: Seq<u8>)
    requires
        entry_wf(entry),
    ensures
        entry_at(entry_bytes(entry) + rest) == Some((entry, entry_bytes(entry).len())),
{
    let details = details_bytes_of(entry.details);
    let delivery = delivery_bytes(entry.delivery);
    let bytes = entry_bytes(entry) + rest;
    assert(bytes =~= entry.header + (details + (delivery + rest)));
    let found = header_read_of(entry.header + (details + (delivery + rest)));
    assert(found matches Some((header, size)) && header.note_id == entry.note_id && size
        == entry.header.len());
    assert(bytes.skip(entry.header.len() as int) =~= details + (delivery + rest));
    lemma_details_inverse(entry.details, delivery + rest);
    assert(bytes.skip((entry.header.len() + details.len()) as int) =~= delivery + rest);
    law_delivery_is_read_back(entry.delivery, rest);
    assert(bytes.take(entry.header.len() as int) =~= entry.header);
}

/// `entry` is the entry of the note with the header; there is none if the bytes are not those of a
/// header.
pub open spec fn is_entry_for(
    entry: Option<RelayOutboxEntry>,
    header: Seq<u8>,
    details: Seq<u8>,
    delivery: DeliveryView,
) -> bool {
    match header_read_of(header) {
        Some((read, size)) if size == header.len() => {
            &&& entry matches Some(entry) && entry@ == (EntryView {
                note_id: read.note_id,
                header,
                details,
                delivery,
            })
            &&& entry_wf(entry->0@)
        },
        _ => entry is None,
    }
}

impl RelayOutboxEntry {
    /// Returns the entry for a note that is to be sent. There is none if the bytes are not those of a
    /// header.
    fn new(header: Vec<u8>, details_bytes: Vec<u8>, delivery: RelayDelivery) -> (entry: Option<Self>)
        requires
            delivery_wf(delivery@),
        ensures
            is_entry_for(entry, header@, details_bytes@, delivery@),
    {
        let ghost all = header@;
        assert(all.skip(0) =~= all);
        assert(details_bytes.len() <= usize::MAX);
        match read_header(&header, 0) {
            Some((read, 0)) => {
                assert(all.subrange(0, all.len() as int) =~= all);
                Some(
                    RelayOutboxEntry { note_id: read.note_id, header, details_bytes, delivery },
                )
            },
            _ => None,
        }
    }

    /// Returns the entry for a note that is sent without a word on where it was created.
    pub fn plain(header: Vec<u8>, details_bytes: Vec<u8>) -> (entry: Option<Self>)
        ensures
            is_entry_for(entry, header@, details_bytes@, DeliveryView::Plain),
    {
        RelayOutboxEntry::new(header, details_bytes, RelayDelivery::Plain)
    }

    /// Returns the entry for a note that is sent with a block from which the recipient should look.
    pub fn with_block_hint(
        header: Vec<u8>,
        details_bytes: Vec<u8>,
        block_hint: BlockNumber,
    ) -> (entry: Option<Self>)
        ensures
            is_entry_for(entry, header@, details_bytes@, DeliveryView::BlockHint(block_hint)),
    {
        RelayOutboxEntry::new(header, details_bytes, RelayDelivery::BlockHint(block_hint))
    }

    /// Returns the entry for a note that is sent with its inclusion proof. There is none if the bytes
    /// are not those of a proof.
    pub fn with_proof(header: Vec<u8>, details_bytes: Vec<u8>, inclusion_proof: Vec<u8>) -> (entry:
        Option<Self>)
        ensures
            if is_read_whole(inclusion_proof@) {
                is_entry_for(
                    entry,
                    header@,
                    details_bytes@,
                    DeliveryView::InclusionProof(inclusion_proof@),
                )
            } else {
                entry is None
            },
    {
        let ghost bytes = inclusion_proof@;
        assert(bytes + Seq::<u8>::empty() =~= bytes);
        match RelayDelivery::with_proof(inclusion_proof) {
            Some(delivery) => {
                assert(proof_read_of(bytes + Seq::<u8>::empty()) is Some);
                RelayOutboxEntry::new(header, details_bytes, delivery)
            },
            None => None,
        }
    }

    /// Appends the bytes of the entry.
    fn write_into(&self, bytes: &mut Vec<u8>)
        ensures
            final(bytes)@ == old(bytes)@ + entry_bytes(self@),
    {
        let ghost before = bytes@;
        bytes.extend_from_slice(self.header.as_slice());
        write_details(bytes, &self.details_bytes);
        self.delivery.write_into(bytes);
        assert(bytes@ =~= before + entry_bytes(self@));
    }

    /// Reads an entry from a position on. Returns the position after it too.
    fn read_from(bytes: &Vec<u8>, from: usize) -> (read: Option<(Self, usize)>)
        requires
            from <= bytes@.len(),
        ensures
            match (read, entry_at(bytes@.skip(from as int))) {
                (Some((entry, end)), Some((view, used))) => {
                    &&& entry@ == view
                    &&& end == from + used
                    &&& end <= bytes@.len()
                    &&& entry_wf(entry@)
                },
                (None, None) => true,
                _ => false,
            },
    {
        let ghost all = bytes@.skip(from as int);
        let (read, left) = match read_header(bytes, from) {
            Some(read) => read,
            None => {
                return None;
            },
        };
        let header_end: usize = bytes.len() - left;
        let header = sub_vector(bytes, from, header_end);
        proof {
            assert(header@ =~= all.take(header_end - from));
            assert(bytes@.skip(header_end as int) =~= all.skip(header_end - from));
        }
        let (details_bytes, end) = match read_details(bytes, header_end) {
            Some(read) => read,
            None => {
                return None;
            },
        };
        assert(bytes@.skip(end as int) =~= all.skip(end - from));
        let note_id = read.note_id;
        match RelayDelivery::read_from(bytes, end) {
            Ok((delivery, end)) => Some(
                (RelayOutboxEntry { note_id, header, details_bytes, delivery }, end),
            ),
            Err(_) => None,
        }
    }
}

// OUTBOX
// ================================================================================================
/// The entries, with their bytes as sequences.
pub open spec fn views(entries: Seq<RelayOutboxEntry>) -> Seq<EntryView> {
    entries.map_values(|entry: RelayOutboxEntry| entry@)
}

/// Every entry can be written and read back.
pub open spec fn entries_wf(entries: Seq<EntryView>) -> bool {
    forall|i: int| 0 <= i < entries.len() ==> entry_wf(#[trigger] entries[i])
}

/// The bytes of entries, one after the other.
pub open spec fn all_entry_bytes(entries: Seq<EntryView>) -> Seq<u8>
    decreases entries.len(),
{
    if entries.len() == 0 {
        Seq::empty()
    } else {
        all_entry_bytes(entries.drop_last()) + entry_bytes(entries.last())
    }
}

/// The bytes of an outbox: how many entries there are, and the entries.
pub open spec fn outbox_bytes(entries: Seq<EntryView>) -> Seq<u8> {
    length_bytes(entries.len()) + all_entry_bytes(entries)
}

/// As many entries as asked for, from the start of bytes.
pub open spec fn entries_at(bytes: Seq<u8>, count: nat) -> Option<Seq<EntryView>>
    decreases count,
{
    if count == 0 {
        Some(Seq::empty())
    } else {
        match entry_at(bytes) {
            None => None,
            Some((entry, size)) => match entries_at(bytes.skip(size as int), (count - 1) as nat) {
                None => None,
                Some(others) => Some(seq![entry] + others),
            },
        }
    }
}

/// The outbox that bytes hold.
pub open spec fn outbox_at(bytes: Seq<u8>) -> Option<Seq<EntryView>> {
    match length_at(bytes) {
        None => None,
        Some((count, size)) => if count <= usize::MAX {
            entries_at(bytes.skip(size as int), count)
        } else {
            None
        },
    }
}

/// The bytes of entries are those of the first one, and then those of the others.
proof fn lemma_first_entry_bytes(entries: Seq<EntryView>)
    requires
        entries.len() > 0,
    ensures
        all_entry_bytes(entries) == entry_bytes(entries[0]) + all_entry_bytes(entries.skip(1)),
    decreases entries.len(),
{
    if entries.len() == 1 {
        assert(entries.drop_last() =~= Seq::empty());
        assert(entries.skip(1) =~= Seq::empty());
        assert(all_entry_bytes(entries) =~= entry_bytes(entries[0]) + all_entry_bytes(
            entries.skip(1),
        ));
    } else {
        let shorter = entries.drop_last();
        lemma_first_entry_bytes(shorter);
        assert(entries.skip(1).drop_last() =~= shorter.skip(1));
        assert(entries.skip(1).last() == entries.last());
        assert(shorter[0] == entries[0]);
        assert(all_entry_bytes(entries) =~= entry_bytes(entries[0]) + all_entry_bytes(
            entries.skip(1),
        ));
    }
}

/// Entries are read back from their bytes.
proof fn lemma_entries_inverse(entries: Seq<EntryView>)
    requires
        entries_wf(entries),
    ensures
        entries_at(all_entry_bytes(entries), entries.len()) == Some(entries),
    decreases entries.len(),
{
    if entries.len() == 0 {
        assert(entries =~= Seq::<EntryView>::empty());
    } else {
        let others = entries.skip(1);
        let first = entry_bytes(entries[0]);
        lemma_first_entry_bytes(entries);
        assert forall|i: int| 0 <= i < others.len() implies entry_wf(#[trigger] others[i]) by {
            assert(others[i] == entries[i + 1]);
        }
        lemma_entries_inverse(others);
        law_entry_is_read_back(entries[0], all_entry_bytes(others));
        assert((first + all_entry_bytes(others)).skip(first.len() as int) =~= all_entry_bytes(
            others,
        ));
        assert(seq![entries[0]] + others =~= entries);
    }
}

/// An outbox is read back from its bytes, so that a note which was not delivered is not lost.
pub proof fn law_outbox_is_read_back(entries: Seq<EntryView>)
    requires
        entries_wf(entries),
        entries.len() <= usize::MAX,
    ensures
        outbox_at(outbox_bytes(entries)) == Some(entries),
{
    let bytes = outbox_bytes(entries);
    lemma_length_inverse(entries.len(), all_entry_bytes(entries));
    assert(bytes.skip(length_bytes(entries.len()).len() as int) =~= all_entry_bytes(entries));
    lemma_entries_inverse(entries);
}

/// Returns the bytes of an outbox.
pub fn encode_outbox(entries: &Vec<RelayOutboxEntry>) -> (bytes: Vec<u8>)
    ensures
        bytes@ == outbox_bytes(views(entries@)),
{
    let ghost all = views(entries@);
    let mut bytes: Vec<u8> = Vec::new();
    write_length(&mut bytes, entries.len());
    let ghost prefix = bytes@;
    assert(prefix =~= length_bytes(all.len()));
    let mut i: usize = 0;
    assert(all.take(0) =~= Seq::<EntryView>::empty());
    assert(prefix + Seq::<u8>::empty() =~= prefix);
    while i < entries.len()
        invariant
            i <= entries.len(),
            all == views(entries@),
            bytes@ == prefix + all_entry_bytes(all.take(i as int)),
        decreases entries.len() - i,
    {
        let ghost before = bytes@;
        entries[i].write_into(&mut bytes);
        proof {
            assert(all.take(i + 1).drop_last() =~= all.take(i as int));
            assert(all.take(i + 1).last() == entries@[i as int]@);
            assert(bytes@ =~= prefix + all_entry_bytes(all.take(i + 1)));
        }
        i += 1;
    }
    assert(all.take(i as int) =~= all);
    bytes
}

/// Reads an outbox from bytes.
pub fn decode_outbox(bytes: &Vec<u8>) -> (entries: Option<Vec<RelayOutboxEntry>>)
    ensures
        match (entries, outbox_at(bytes@)) {
            (Some(entries), Some(all)) => views(entries@) == all && entries_wf(views(entries@)),
            (None, None) => true,
            _ => false,
        },
{
    assert(bytes@.skip(0) =~= bytes@);
    let (count, size) = match read_length(bytes, 0) {
        Some(read) => read,
        None => {
            return None;
        },
    };
    let ghost behind = bytes@.skip(size as int);
    assert(length_at(bytes@) == Some((count as nat, size as nat))) by {
        let found = length_at(bytes@)->0;
        assert(bytes.len() <= usize::MAX);
        assert(found.0 == count && found.1 == size);
    }
    let mut entries: Vec<RelayOutboxEntry> = Vec::new();
    let mut at: usize = size;
    let mut i: usize = 0;
    proof {
        assert(views(entries@) =~= Seq::<EntryView>::empty());
        if let Some(found) = entries_at(behind, count as nat) {
            assert(Seq::<EntryView>::empty() + found =~= found);
        }
    }
    while i < count
        invariant
            i <= count,
            at <= bytes@.len(),
            entries_wf(views(entries@)),
            match entries_at(bytes@.skip(at as int), (count - i) as nat) {
                Some(found) => entries_at(behind, count as nat) == Some(views(entries@) + found),
                None => entries_at(behind, count as nat) is None,
            },
            outbox_at(bytes@) == entries_at(behind, count as nat),
        decreases count - i,
    {
        let ghost now = bytes@.skip(at as int);
        let ghost before = views(entries@);
        match RelayOutboxEntry::read_from(bytes, at) {
            None => {
                return None;
            },
            Some((entry, end)) => {
                proof {
                    let (view, used) = entry_at(now)->0;
                    assert(now.skip(used as int) =~= bytes@.skip(end as int));
                    if let Some(found) = entries_at(
                        bytes@.skip(end as int),
                        (count - i - 1) as nat,
                    ) {
                        assert(before + (seq![entry@] + found) =~= before.push(entry@) + found);
                    }
                }
                let ghost view = entry@;
                entries.push(entry);
                assert(views(entries@) =~= before.push(view));
                at = end;
            },
        }
        i += 1;
    }
    assert(views(entries@) + Seq::<EntryView>::empty() =~= views(entries@));
    Some(entries)
}

/// The setting that holds the outbox.
pub const NOTE_TRANSPORT_OUTBOX_KEY: &'static str = "note_transport_outbox";

/// What is done about a setting.
#[derive(Debug)]
pub enum SettingUpdate {
    /// The setting is removed.
    Remove,
    /// The setting gets a value.
    Store(Vec<u8>),
}

/// Returns how an outbox is stored. An empty one is not stored at all.
pub fn save_outbox(entries: &Vec<RelayOutboxEntry>) -> (update: SettingUpdate)
    ensures
        match update {
            SettingUpdate::Remove => entries@.len() == 0,
            SettingUpdate::Store(bytes) => entries@.len() > 0 && bytes@ == outbox_bytes(
                views(entries@),
            ),
        },
{
    if entries.len() == 0 {
        return SettingUpdate::Remove;
    }
    SettingUpdate::Store(encode_outbox(entries))
}

/// Returns the stored outbox, and whether the setting is to be removed because it cannot be read.
/// Leaving it in place would block every later delivery.
pub fn load_outbox(stored: Option<Vec<u8>>) -> (loaded: (Vec<RelayOutboxEntry>, bool))
    ensures
        entries_wf(views(loaded.0@)),
        match stored {
            None => loaded.0@.len() == 0 && !loaded.1,
            Some(bytes) => match outbox_at(bytes@) {
                Some(entries) => views(loaded.0@) == entries && !loaded.1,
                None => loaded.0@.len() == 0 && loaded.1,
            },
        },
{
    match stored {
        None => (Vec::new(), false),
        Some(bytes) => match decode_outbox(&bytes) {
            Some(entries) => (entries, false),
            None => (Vec::new(), true),
        },
    }
}

/// The entries of other notes.
pub open spec fn without(entries: Seq<RelayOutboxEntry>, note_id: NoteId) -> Seq<RelayOutboxEntry>
    decreases entries.len(),
{
    if entries.len() == 0 {
        Seq::empty()
    } else if entries.last().note_id == note_id {
        without(entries.drop_last(), note_id)
    } else {
        without(entries.drop_last(), note_id).push(entries.last())
    }
}

/// Removes the entry of a note, once the note was delivered.
pub fn remove_entry(entries: Vec<RelayOutboxEntry>, note_id: NoteId) -> (kept: Vec<RelayOutboxEntry>)
    ensures
        kept@ == without(entries@, note_id),
{
    let ghost all = entries@;
    let ghost mut n: int = 0;
    let mut kept: Vec<RelayOutboxEntry> = Vec::new();
    for entry in iter: entries
        invariant
            iter.seq() == all,
            n == iter.index(),
            kept@ == without(all.take(n), note_id),
    {
        proof {
            assert(all.take(n + 1).drop_last() =~= all.take(n));
            assert(all.take(n + 1).last() == entry);
            n = n + 1;
        }
        if entry.note_id != note_id {
            kept.push(entry);
        }
    }
    assert(all.take(n) =~= all);
    kept
}

/// Adds an entry before the note is sent, in place of an earlier one of the same note.
pub fn add_entry(entries: Vec<RelayOutboxEntry>, entry: RelayOutboxEntry) -> (kept: Vec<
    RelayOutboxEntry,
>)
    ensures
        kept@ == without(entries@, entry.note_id).push(entry),
{
    let mut kept = remove_entry(entries, entry.note_id);
    kept.push(entry);
    kept
}

/// The entries of other notes are all kept, in order, and none of the note is.
proof fn lemma_without(entries: Seq<RelayOutboxEntry>, note_id: NoteId)
    ensures
        forall|i: int|
            0 <= i < without(entries, note_id).len() ==> (#[trigger] without(
                entries,
                note_id,
            )[i]).note_id != note_id,
        forall|entry: RelayOutboxEntry|
            entry.note_id != note_id && entries.contains(entry) ==> #[trigger] without(
                entries,
                note_id,
            ).contains(entry),
        without(entries, note_id).len() <= entries.len(),
    decreases entries.len(),
{
    if entries.len() > 0 {
        let rest = entries.drop_last();
        lemma_without(rest, note_id);
        let kept = without(entries, note_id);
        assert forall|entry: RelayOutboxEntry|
            entry.note_id != note_id && entries.contains(entry) implies #[trigger] kept.contains(
            entry,
        ) by {
            let k = choose|k: int| 0 <= k < entries.len() && entries[k] == entry;
            if k < rest.len() {
                assert(rest[k] == entry);
                assert(without(rest, note_id).contains(entry));
                let j = choose|j: int|
                    0 <= j < without(rest, note_id).len() && without(rest, note_id)[j] == entry;
                assert(kept[j] == entry);
            } else {
                assert(kept.last() == entry);
            }
        }
    }
}

/// Before a note is sent its entry is in the outbox, as the only one of the note, and the entries of
/// other notes are still there.
pub proof fn law_pending_note_is_kept(
    entries: Seq<RelayOutboxEntry>,
    entry: RelayOutboxEntry,
    other: RelayOutboxEntry,
)
    ensures
        without(entries, entry.note_id).push(entry).last() == entry,
        forall|i: int|
            0 <= i < without(entries, entry.note_id).len() ==> (#[trigger] without(
                entries,
                entry.note_id,
            )[i]).note_id != entry.note_id,
        entries.contains(other) && other.note_id != entry.note_id ==> without(
            entries,
            entry.note_id,
        ).push(entry).contains(other),
{
    lemma_without(entries, entry.note_id);
    let kept = without(entries, entry.note_id);
    if entries.contains(other) && other.note_id != entry.note_id {
        assert(kept.contains(other));
        let k = choose|k: int| 0 <= k < kept.len() && kept[k] == other;
        assert(kept.push(entry)[k] == other);
    }
}

/// Removing the entry after the note was sent gives what there was before, but for earlier entries of
/// the note.
pub proof fn law_delivered_note_leaves(entries: Seq<RelayOutboxEntry>, entry: RelayOutboxEntry)
    ensures
        without(without(entries, entry.note_id).push(entry), entry.note_id) == without(
            entries,
            entry.note_id,
        ),
{
    let kept = without(entries, entry.note_id);
    assert(kept.push(entry).drop_last() =~= kept);
    lemma_without(entries, entry.note_id);
    lemma_without_absent(kept, entry.note_id);
}

/// Without an entry of the note, nothing is removed.
proof fn lemma_without_absent(entries: Seq<RelayOutboxEntry>, note_id: NoteId)
    requires
        forall|i: int| 0 <= i < entries.len() ==> (#[trigger] entries[i]).note_id != note_id,
    ensures
        without(entries, note_id) == entries,
    decreases entries.len(),
{
    if entries.len() > 0 {
        let rest = entries.drop_last();
        assert forall|i: int| 0 <= i < rest.len() implies (#[trigger] rest[i]).note_id
            != note_id by {
            assert(rest[i] == entries[i]);
        }
        lemma_without_absent(rest, note_id);
        assert(rest.push(entries.last()) =~= entries);
        assert(entries[entries.len() - 1].note_id != note_id);
    } else {
        assert(entries =~= Seq::empty());
    }
}

/// The entries whose delivery failed.
pub open spec fn failed_entries<E>(
    entries: Seq<RelayOutboxEntry>,
    outcomes: Seq<Option<E>>,
) -> Seq<RelayOutboxEntry>
    decreases entries.len(),
{
    if entries.len() == 0 {
        Seq::empty()
    } else {
        let rest = failed_entries(entries.drop_last(), outcomes.drop_last());
        if outcomes.last() is Some {
            rest.push(entries.last())
        } else {
            rest
        }
    }
}

/// The last of the errors.
pub open spec fn last_error<E>(outcomes: Seq<Option<E>>) -> Option<E>
    decreases outcomes.len(),
{
    if outcomes.len() == 0 {
        None
    } else if outcomes.last() is Some {
        outcomes.last()
    } else {
        last_error(outcomes.drop_last())
    }
}

/// Returns what is left of an outbox after every entry was sent, given the errors, and the last
/// error. One entry that keeps failing does not hold back the others.
pub fn flushed<E>(entries: Vec<RelayOutboxEntry>, outcomes: Vec<Option<E>>) -> (left: (
    Vec<RelayOutboxEntry>,
    Option<E>,
))
    requires
        entries@.len() == outcomes@.len(),
    ensures
        left.0@ == failed_entries(entries@, outcomes@),
        left.1 == last_error(outcomes@),
{
    let ghost all = entries@;
    let ghost errors = outcomes@;
    let ghost mut n: int = 0;
    let mut i: usize = 0;
    let mut remaining: Vec<RelayOutboxEntry> = Vec::new();
    for entry in iter: entries
        invariant
            iter.seq() == all,
            n == iter.index(),
            i == n,
            errors == outcomes@,
            all.len() == errors.len(),
            remaining@ == failed_entries(all.take(n), errors.take(n)),
    {
        proof {
            assert(all.take(n + 1).drop_last() =~= all.take(n));
            assert(all.take(n + 1).last() == entry);
            assert(errors.take(n + 1).drop_last() =~= errors.take(n));
            assert(errors.take(n + 1).last() == errors[n]);
            n = n + 1;
        }
        assert(i < outcomes.len());
        if outcomes[i].is_some() {
            remaining.push(entry);
        }
        i += 1;
    }
    assert(all.take(n) =~= all);
    assert(errors.take(n) =~= errors);
    let mut outcomes = outcomes;
    let mut error: Option<E> = None;
    while error.is_none() && outcomes.len() > 0
        invariant
            error is None ==> last_error(outcomes@) == last_error(errors),
            error is Some ==> error == last_error(errors),
        decreases outcomes.len(),
    {
        error = outcomes.pop().unwrap();
    }
    (remaining, error)
}

} // verus!
