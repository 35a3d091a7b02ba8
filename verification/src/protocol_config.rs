//! Protocol configurations, stored by the commitments that block headers hold.
use miden_protocol::Felt;
use vstd::arithmetic::power2::lemma2_to64_rest;
use vstd::prelude::*;

use crate::bytes::{le_bytes, lemma_le_inverse, lemma_le_len};
use crate::mmr::canonical;
use crate::rpc::domain::sync::ProtocolConfig;
use crate::text::{bytes_hex, lemma_bytes_hex};
use crate::types::Word;

verus! {

/// The bytes of a word: the elements in canonical form, each of eight bytes with the least significant
/// first.
pub open spec fn word_bytes(word: Word) -> Seq<u8> {
    let own = canonical(word);
    le_bytes(own.e0 as nat, 8) + le_bytes(own.e1 as nat, 8) + le_bytes(own.e2 as nat, 8) + le_bytes(
        own.e3 as nat,
        8,
    )
}

/// The hexadecimal digits of a word, as it is displayed.
pub open spec fn word_hex_of(word: Word) -> Seq<char> {
    "0x"@ + bytes_hex(word_bytes(word))
}

/// `Word::to_hex`: the bytes of the word in hexadecimal digits, after a `0x`.
#[verifier::external_body]
pub(crate) fn word_hex(word: Word) -> (hex: String)
    ensures
        hex@ == word_hex_of(word),
{
    miden_protocol::Word::new(word.elements().map(Felt::new_unchecked)).to_hex()
}

/// Why a protocol configuration cannot be loaded.
#[derive(Clone, Copy, Debug, PartialEq, Eq, Structural)]
pub enum ProtocolConfigError {
    /// None is stored for the commitment.
    NotFound(Word),
    /// What is stored is not a protocol configuration.
    Unreadable,
    /// What is stored has another commitment.
    CommitmentMismatch(Word),
}

/// The key of the setting that holds the protocol configuration with the commitment.
pub open spec fn setting_key_of(commitment: Word) -> Seq<char> {
    "protocol_config:"@ + word_hex_of(commitment)
}

/// Words with the same bytes have the same elements.
proof fn lemma_word_bytes(a: Word, b: Word)
    requires
        word_bytes(a) == word_bytes(b),
    ensures
        canonical(a) == canonical(b),
{
    let (x, y) = (canonical(a), canonical(b));
    let (all, other) = (word_bytes(a), word_bytes(b));
    lemma2_to64_rest();
    lemma_le_len(x.e0 as nat, 8);
    lemma_le_len(x.e1 as nat, 8);
    lemma_le_len(x.e2 as nat, 8);
    lemma_le_len(x.e3 as nat, 8);
    lemma_le_len(y.e0 as nat, 8);
    lemma_le_len(y.e1 as nat, 8);
    lemma_le_len(y.e2 as nat, 8);
    lemma_le_len(y.e3 as nat, 8);
    lemma_le_inverse(x.e0 as nat, 8);
    lemma_le_inverse(x.e1 as nat, 8);
    lemma_le_inverse(x.e2 as nat, 8);
    lemma_le_inverse(x.e3 as nat, 8);
    lemma_le_inverse(y.e0 as nat, 8);
    lemma_le_inverse(y.e1 as nat, 8);
    lemma_le_inverse(y.e2 as nat, 8);
    lemma_le_inverse(y.e3 as nat, 8);
    assert(all.subrange(0, 8) =~= le_bytes(x.e0 as nat, 8));
    assert(all.subrange(8, 16) =~= le_bytes(x.e1 as nat, 8));
    assert(all.subrange(16, 24) =~= le_bytes(x.e2 as nat, 8));
    assert(all.subrange(24, 32) =~= le_bytes(x.e3 as nat, 8));
    assert(other.subrange(0, 8) =~= le_bytes(y.e0 as nat, 8));
    assert(other.subrange(8, 16) =~= le_bytes(y.e1 as nat, 8));
    assert(other.subrange(16, 24) =~= le_bytes(y.e2 as nat, 8));
    assert(other.subrange(24, 32) =~= le_bytes(y.e3 as nat, 8));
}

/// Protocol configurations that are stored under the same key have the same commitment.
pub proof fn law_setting_keys_are_distinct(a: Word, b: Word)
    requires
        setting_key_of(a) == setting_key_of(b),
    ensures
        canonical(a) == canonical(b),
{
    let name = "protocol_config:"@;
    let (hex_a, hex_b) = (word_hex_of(a), word_hex_of(b));
    assert(setting_key_of(a).skip(name.len() as int) =~= hex_a);
    assert(setting_key_of(b).skip(name.len() as int) =~= hex_b);
    let start = "0x"@;
    assert(hex_a.skip(start.len() as int) =~= bytes_hex(word_bytes(a)));
    assert(hex_b.skip(start.len() as int) =~= bytes_hex(word_bytes(b)));
    lemma_bytes_hex(word_bytes(a), word_bytes(b));
    lemma_word_bytes(a, b);
}

/// Returns the key of the setting that holds the protocol configuration with the commitment.
pub fn protocol_config_setting_key(commitment: Word) -> (key: String)
    ensures
        key@ == setting_key_of(commitment),
{
    "protocol_config:".to_owned().concat(word_hex(commitment).as_str())
}

/// Returns the protocol configuration with the commitment from what is stored under its key:
/// nothing, or something that was read as a configuration or could not be.
pub fn load_protocol_config(commitment: Word, stored: Option<Option<ProtocolConfig>>) -> (config:
    Result<ProtocolConfig, ProtocolConfigError>)
    ensures
        match stored {
            None => config == Err::<ProtocolConfig, _>(ProtocolConfigError::NotFound(commitment)),
            Some(None) => config == Err::<ProtocolConfig, _>(ProtocolConfigError::Unreadable),
            Some(Some(found)) => if found.commitment == commitment {
                config == Ok::<_, ProtocolConfigError>(found)
            } else {
                config == Err::<ProtocolConfig, _>(
                    ProtocolConfigError::CommitmentMismatch(commitment),
                )
            },
        },
{
    match stored {
        None => Err(ProtocolConfigError::NotFound(commitment)),
        Some(None) => Err(ProtocolConfigError::Unreadable),
        Some(Some(found)) => {
            if found.commitment != commitment {
                return Err(ProtocolConfigError::CommitmentMismatch(commitment));
            }
            Ok(found)
        },
    }
}

} // verus!
