//! Answers to a request for the chain.
use vstd::prelude::*;

use crate::mmr::MmrDelta;
use crate::protocol_config::{word_hex, word_hex_of};
use crate::rpc::errors::rpc_error::RpcError;
use crate::types::{BlockHeader, BlockNumber, Word};

verus! {

/// How final a block has to be for the chain to be followed to it.
#[derive(Clone, Copy, Debug, PartialEq, Eq, Structural)]
pub enum SyncTarget {
    /// The latest committed block.
    CommittedChainTip,
    /// The latest proven block, which may be behind the committed one.
    ProvenChainTip,
}

/// How final a block is, as a node names it.
#[derive(Clone, Copy, Debug, PartialEq, Eq, Structural)]
pub enum FinalityLevel {
    Committed,
    Proven,
}

impl SyncTarget {
    /// Returns the name a node has for the target.
    pub fn finality_level(self) -> (level: FinalityLevel)
        ensures
            level == match self {
                SyncTarget::CommittedChainTip => FinalityLevel::Committed,
                SyncTarget::ProvenChainTip => FinalityLevel::Proven,
            },
    {
        match self {
            SyncTarget::CommittedChainTip => FinalityLevel::Committed,
            SyncTarget::ProvenChainTip => FinalityLevel::Proven,
        }
    }
}

/// A protocol configuration in serialized form, with the commitment to it.
#[derive(Debug)]
pub struct ProtocolConfig {
    pub commitment: Word,
    pub serialized: Vec<u8>,
}

/// A range of blocks, both ends included.
#[derive(Clone, Copy, Debug, PartialEq, Eq, Structural)]
pub struct BlockRange {
    pub block_from: BlockNumber,
    pub block_to: BlockNumber,
}

/// An answer to a request for the chain, as it arrives.
#[derive(Debug)]
pub struct ChainMmrMessage {
    pub block_range: Option<BlockRange>,
    pub mmr_delta: Option<MmrDelta>,
    pub block_header: Option<BlockHeader>,
    pub protocol_config: Option<ProtocolConfig>,
    pub block_signatures: Vec<Vec<u8>>,
}

/// An answer to a request for the chain.
#[derive(Debug)]
pub struct ChainMmrInfo {
    /// The block the delta starts from.
    pub block_from: BlockNumber,
    /// The block the delta leads to.
    pub block_to: BlockNumber,
    pub mmr_delta: MmrDelta,
    /// The header of the block the delta leads to.
    pub block_header: BlockHeader,
    /// The protocol configuration in force at that block. A node sends it for a delta from the first
    /// block, or if it is not the one in force at the block the delta starts from.
    pub protocol_config: Option<ProtocolConfig>,
    /// The signatures of the validators over the header, in serialized form.
    pub block_signatures: Vec<Vec<u8>>,
}

/// The first part that is missing of an answer to a request for the chain.
pub open spec fn missing_part(message: ChainMmrMessage) -> Option<Seq<char>> {
    if message.block_range is None {
        Some("missing block_range"@)
    } else if message.mmr_delta is None {
        Some("missing mmr_delta"@)
    } else if message.block_header is None {
        Some("missing block_header"@)
    } else {
        None
    }
}

/// What is said of a protocol configuration that is not the one the header commits to. It could never
/// be found again, since configurations are stored by their commitments.
pub open spec fn config_mismatch_text(returned: Word, expected: Word) -> Seq<char> {
    "node returned a protocol configuration with commitment "@ + word_hex_of(returned)
        + " for a block header that commits to "@ + word_hex_of(expected)
}

impl ChainMmrInfo {
    /// Reads an answer to a request for the chain.
    pub fn try_from_message(message: ChainMmrMessage) -> (info: Result<Self, RpcError>)
        ensures
            match (missing_part(message), message.protocol_config) {
                (Some(part), _) => info matches Err(RpcError::DeserializationError(text)) && text@
                    == part,
                (None, Some(config)) if config.commitment
                    != message.block_header->0.protocol_config_commitment => {
                    &&& info matches Err(RpcError::InvalidResponse(text))
                    &&& text@ == config_mismatch_text(
                        config.commitment,
                        message.block_header->0.protocol_config_commitment,
                    )
                },
                _ => info == Ok::<_, RpcError>(
                    ChainMmrInfo {
                        block_from: message.block_range->0.block_from,
                        block_to: message.block_range->0.block_to,
                        mmr_delta: message.mmr_delta->0,
                        block_header: message.block_header->0,
                        protocol_config: message.protocol_config,
                        block_signatures: message.block_signatures,
                    },
                ),
            },
    {
        let block_range = match message.block_range {
            Some(block_range) => block_range,
            None => {
                return Err(RpcError::DeserializationError("missing block_range".to_owned()));
            },
        };
        let mmr_delta = match message.mmr_delta {
            Some(mmr_delta) => mmr_delta,
            None => {
                return Err(RpcError::DeserializationError("missing mmr_delta".to_owned()));
            },
        };
        let block_header = match message.block_header {
            Some(block_header) => block_header,
            None => {
                return Err(RpcError::DeserializationError("missing block_header".to_owned()));
            },
        };
        if let Some(config) = &message.protocol_config {
            let expected = block_header.protocol_config_commitment;
            if config.commitment != expected {
                let text = "node returned a protocol configuration with commitment ".to_owned();
                let text = text.concat(word_hex(config.commitment).as_str()).concat(
                    " for a block header that commits to ",
                );
                return Err(RpcError::InvalidResponse(text.concat(word_hex(expected).as_str())));
            }
        }
        Ok(
            ChainMmrInfo {
                block_from: block_range.block_from,
                block_to: block_range.block_to,
                mmr_delta,
                block_header,
                protocol_config: message.protocol_config,
                block_signatures: message.block_signatures,
            },
        )
    }
}

} // verus!
