//! The parts of what is sent over the note transport layer, and of what is stored of it.
use miden_protocol::note as protocol_note;
use miden_protocol::utils::serde::{BudgetedReader, Deserializable, SliceReader};
use vstd::prelude::*;

use crate::bytes::{
    length_at, length_bytes, lemma_length_inverse, read_length, sub_vector, write_length,
};
use crate::types::{NoteDetailsCommitment, NoteId, NoteTag, Word};

verus! {

// ENDPOINTS
// ================================================================================================
/// The note transport service of the main network.
pub const NOTE_TRANSPORT_MAINNET_ENDPOINT: &'static str = "https://transport.mainnet.miden.io";

/// The note transport service of the test network.
pub const NOTE_TRANSPORT_TESTNET_ENDPOINT: &'static str = "https://transport.miden.io";

/// The note transport service of the development network.
pub const NOTE_TRANSPORT_DEVNET_ENDPOINT: &'static str = "https://transport.devnet.miden.io";

// HEADERS
// ================================================================================================
/// The header of a note, by what receiving it depends on.
#[derive(Clone, Copy, Debug, PartialEq, Eq, Structural)]
pub struct NoteHeaderInfo {
    /// The id of the note on the chain, which depends on its attachments.
    pub note_id: NoteId,
    pub details_commitment: NoteDetailsCommitment,
    pub tag: NoteTag,
}

/// The header of a note at the start of bytes, and how many bytes it takes.
pub uninterp spec fn header_read_of(bytes: Seq<u8>) -> Option<(NoteHeaderInfo, nat)>;

/// `NoteHeader::read_from`, and its `id`, `details_commitment` and `metadata`: reads the header of a
/// note from a position on. Returns what it holds, and how many bytes are left after the header. A
/// header is read from its own bytes alone, so that what follows them does not matter. Which bytes are
/// a header is only named.
#[verifier::external_body]
pub(crate) fn read_header(bytes: &Vec<u8>, from: usize) -> (read: Option<(NoteHeaderInfo, usize)>)
    requires
        from <= bytes@.len(),
    ensures
        match (read, header_read_of(bytes@.skip(from as int))) {
            (Some((header, left)), Some((named, used))) => header == named && from + used + left
                == bytes@.len(),
            (None, None) => true,
            _ => false,
        },
        read matches Some((header, left)) ==> forall|rest: Seq<u8>| #[trigger]
            header_read_of(bytes@.subrange(from as int, bytes@.len() - left) + rest) == Some(
                (header, (bytes@.len() - left - from) as nat),
            ),
{
    let unread = &bytes[from..];
    let mut reader = BudgetedReader::new(SliceReader::new(unread), unread.len());
    let header = protocol_note::NoteHeader::read_from(&mut reader).ok()?;
    let id = header.id().as_word().into_elements().map(|e| e.as_canonical_u64());
    let details = header.details_commitment().as_word().into_elements();
    let info = NoteHeaderInfo {
        note_id: Word::from_elements(id),
        details_commitment: Word::from_elements(details.map(|e| e.as_canonical_u64())),
        tag: header.metadata().tag().as_u32(),
    };
    Some((info, reader.remaining()))
}

/// The bytes are those of one header, which holds this.
pub open spec fn is_header(bytes: Seq<u8>, header: NoteHeaderInfo) -> bool {
    forall|rest: Seq<u8>| #[trigger] header_read_of(bytes + rest) == Some((header, bytes.len()))
}

// DETAILS
// ================================================================================================
/// The bytes of details: how many there are, and the details.
pub open spec fn details_bytes_of(details: Seq<u8>) -> Seq<u8> {
    length_bytes(details.len()) + details
}

/// The details at the start of bytes, and how many bytes they take together with their length.
pub open spec fn details_at(bytes: Seq<u8>) -> Option<(Seq<u8>, nat)> {
    match length_at(bytes) {
        Some((length, size)) => if size + length <= bytes.len() {
            Some((bytes.subrange(size as int, (size + length) as int), size + length))
        } else {
            None
        },
        None => None,
    }
}

/// Details are read back from their bytes, whatever follows them.
pub proof fn lemma_details_inverse(details: Seq<u8>, rest: Seq<u8>)
    requires
        details.len() <= usize::MAX,
    ensures
        details_at(details_bytes_of(details) + rest) == Some(
            (details, details_bytes_of(details).len()),
        ),
{
    let prefix = length_bytes(details.len());
    let bytes = prefix + details + rest;
    lemma_length_inverse(details.len(), details + rest);
    assert(bytes =~= prefix + (details + rest));
    assert(bytes.subrange(prefix.len() as int, (prefix.len() + details.len()) as int) =~= details);
}

/// Appends the bytes of details.
pub fn write_details(bytes: &mut Vec<u8>, details: &Vec<u8>)
    ensures
        final(bytes)@ == old(bytes)@ + details_bytes_of(details@),
{
    let ghost before = bytes@;
    write_length(bytes, details.len());
    bytes.extend_from_slice(details.as_slice());
    assert(bytes@ =~= before + details_bytes_of(details@));
}

/// Reads details from a position on. Returns the position after them too.
pub fn read_details(bytes: &Vec<u8>, from: usize) -> (read: Option<(Vec<u8>, usize)>)
    requires
        from <= bytes@.len(),
    ensures
        match (read, details_at(bytes@.skip(from as int))) {
            (Some((details, end)), Some((found, used))) => {
                &&& details@ == found
                &&& end == from + used
                &&& end <= bytes@.len()
            },
            (None, None) => true,
            _ => false,
        },
{
    let ghost all = bytes@.skip(from as int);
    assert(bytes.len() <= usize::MAX);
    let (length, size) = match read_length(bytes, from) {
        Some(read) => read,
        None => {
            return None;
        },
    };
    let start: usize = from + size;
    if length > bytes.len() - start {
        return None;
    }
    let end: usize = start + length;
    let details = sub_vector(bytes, start, end);
    assert(details@ =~= all.subrange(size as int, size + length));
    Some((details, end))
}

} // verus!
