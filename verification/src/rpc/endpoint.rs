//! The endpoints of a node.
use vstd::prelude::*;

verus! {

/// An endpoint of a node.
#[derive(Clone, Copy, Debug, PartialEq, Eq, Structural)]
pub enum RpcEndpoint {
    Status,
    SubmitProvenTx,
    SubmitProvenBatch,
    GetBlockHeaderByNumber,
    GetBlockByNumber,
    GetNotesById,
    GetNoteScriptByRoot,
    GetAccount,
    SyncChainMmr,
    SyncNotes,
    SyncNullifiers,
    SyncAccountVault,
    SyncStorageMaps,
    SyncTransactions,
    GetLimits,
    GetNetworkNoteStatus,
    GetTransactionEncryptionKey,
    RegisterAccount,
    IsAccountAllowed,
}

impl RpcEndpoint {
    /// A call changes the state of the node, so that a second one is refused if the first one got
    /// through.
    pub open spec fn changes_state(self) -> bool {
        self is SubmitProvenTx || self is SubmitProvenBatch || self is RegisterAccount
    }

    /// Returns true if a call can be repeated without harm.
    pub fn is_idempotent(&self) -> (idempotent: bool)
        ensures
            idempotent == !self.changes_state(),
    {
        !matches!(
            self,
            RpcEndpoint::SubmitProvenTx | RpcEndpoint::SubmitProvenBatch
                | RpcEndpoint::RegisterAccount
        )
    }
}

} // verus!
