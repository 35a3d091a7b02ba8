//! Positions in the sequence of notes that the transport service holds.
use vstd::arithmetic::power2::{lemma2_to64_rest, pow2};
use vstd::prelude::*;

use crate::bytes::{le_bytes, le_value, lemma_le_inverse, lemma_le_len, read_le, write_le};

verus! {

/// The setting that holds the cursor.
pub const NOTE_TRANSPORT_CURSOR_STORE_SETTING: &'static str = "note_transport_cursor";

/// A position behind the first note.
#[derive(Clone, Copy, Debug, PartialEq, Eq, Structural)]
pub struct CursorPosition {
    pub nonce: u64,
    pub sequence: u64,
}

/// A position in the sequence of notes that the transport service holds.
#[derive(Clone, Copy, Debug, PartialEq, Eq, Structural)]
pub struct NoteTransportCursor {
    /// The position; none before the first note.
    pub position: Option<CursorPosition>,
}

/// The cursor is at the same position as the other one, or before it. The start comes first;
/// positions are ordered by nonce, then by sequence.
pub open spec fn not_after(cursor: NoteTransportCursor, other: NoteTransportCursor) -> bool {
    match (cursor.position, other.position) {
        (None, _) => true,
        (Some(_), None) => false,
        (Some(a), Some(b)) => a.nonce < b.nonce || a.nonce == b.nonce && a.sequence <= b.sequence,
    }
}

/// The bytes of a cursor: a flag, and the two numbers of a position.
pub open spec fn cursor_bytes(cursor: NoteTransportCursor) -> Seq<u8> {
    match cursor.position {
        None => seq![0u8],
        Some(p) => seq![1u8] + le_bytes(p.nonce as nat, 8) + le_bytes(p.sequence as nat, 8),
    }
}

/// The cursor at the start of bytes.
pub open spec fn cursor_at(bytes: Seq<u8>) -> Option<NoteTransportCursor> {
    if bytes.len() == 0 || bytes[0] > 1 {
        None
    } else if bytes[0] == 0 {
        Some(NoteTransportCursor { position: None })
    } else if bytes.len() < 17 {
        None
    } else {
        Some(
            NoteTransportCursor {
                position: Some(
                    CursorPosition {
                        nonce: le_value(bytes.subrange(1, 9)) as u64,
                        sequence: le_value(bytes.subrange(9, 17)) as u64,
                    },
                ),
            },
        )
    }
}

impl NoteTransportCursor {
    /// Returns the cursor that starts from the first note.
    pub fn init() -> (cursor: Self)
        ensures
            cursor.position is None,
    {
        NoteTransportCursor { position: None }
    }

    /// Returns the cursor at a position.
    pub fn from_parts(nonce: u64, sequence: u64) -> (cursor: Self)
        ensures
            cursor.position == Some(CursorPosition { nonce, sequence }),
    {
        NoteTransportCursor { position: Some(CursorPosition { nonce, sequence }) }
    }

    /// Returns the nonce and the sequence of the position; nothing at the start.
    pub fn parts(&self) -> (parts: Option<(u64, u64)>)
        ensures
            match (parts, self.position) {
                (Some((nonce, sequence)), Some(p)) => p == (CursorPosition { nonce, sequence }),
                (None, None) => true,
                _ => false,
            },
    {
        match self.position {
            Some(p) => Some((p.nonce, p.sequence)),
            None => None,
        }
    }

    /// Returns true if the cursor is at the same position as the other one, or before it.
    pub fn is_not_after(&self, other: &Self) -> (before: bool)
        ensures
            before == not_after(*self, *other),
    {
        match (self.position, other.position) {
            (None, _) => true,
            (Some(_), None) => false,
            (Some(a), Some(b)) => a.nonce < b.nonce || (a.nonce == b.nonce && a.sequence
                <= b.sequence),
        }
    }

    /// Returns the bytes of the cursor.
    pub fn to_bytes(&self) -> (bytes: Vec<u8>)
        ensures
            bytes@ == cursor_bytes(*self),
    {
        let mut bytes: Vec<u8> = Vec::new();
        match self.position {
            None => {
                bytes.push(0);
            },
            Some(p) => {
                bytes.push(1);
                write_le(&mut bytes, p.nonce, 8);
                write_le(&mut bytes, p.sequence, 8);
            },
        }
        assert(bytes@ =~= cursor_bytes(*self));
        bytes
    }

    /// Reads a cursor from bytes.
    pub fn read_from_bytes(bytes: &Vec<u8>) -> (cursor: Option<Self>)
        ensures
            cursor == cursor_at(bytes@),
    {
        if bytes.len() == 0 || bytes[0] > 1 {
            return None;
        }
        if bytes[0] == 0 {
            return Some(NoteTransportCursor::init());
        }
        if bytes.len() < 17 {
            return None;
        }
        match (read_le(bytes, 1, 8), read_le(bytes, 9, 8)) {
            (Some(nonce), Some(sequence)) => Some(NoteTransportCursor::from_parts(nonce, sequence)),
            _ => None,
        }
    }
}

/// A cursor is read back from its bytes.
pub proof fn law_cursor_is_read_back(cursor: NoteTransportCursor)
    ensures
        cursor_at(cursor_bytes(cursor)) == Some(cursor),
{
    if let Some(p) = cursor.position {
        let bytes = cursor_bytes(cursor);
        lemma2_to64_rest();
        lemma_le_len(p.nonce as nat, 8);
        lemma_le_len(p.sequence as nat, 8);
        lemma_le_inverse(p.nonce as nat, 8);
        lemma_le_inverse(p.sequence as nat, 8);
        assert(pow2(64) == 0x1_0000_0000_0000_0000);
        assert(bytes.subrange(1, 9) =~= le_bytes(p.nonce as nat, 8));
        assert(bytes.subrange(9, 17) =~= le_bytes(p.sequence as nat, 8));
    }
}

/// The positions are in one line: of two cursors, one is not after the other, and if that holds both
/// ways they are the same.
pub proof fn law_cursors_are_ordered(
    a: NoteTransportCursor,
    b: NoteTransportCursor,
    c: NoteTransportCursor,
)
    ensures
        not_after(a, b) || not_after(b, a),
        not_after(a, b) && not_after(b, a) ==> a == b,
        not_after(a, b) && not_after(b, c) ==> not_after(a, c),
{
}

} // verus!
