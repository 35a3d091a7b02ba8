//! Decisions about funding accounts on a chain that charges fees.
use vstd::prelude::*;

use crate::types::{AccountId, BlockHeader};

verus! {

/// Returns true if the chain charges a fee for transactions, given the header of its first block;
/// `None` if the header is not there.
pub fn chain_charges_fees(genesis: Option<&BlockHeader>) -> (charges: Option<bool>)
    ensures
        charges == match genesis {
            Some(header) => Some(header.verification_base_fee != 0),
            None => None,
        },
{
    match genesis {
        Some(header) => Some(header.verification_base_fee != 0),
        None => None,
    }
}

/// What is done to fund accounts.
#[derive(Clone, Copy, Debug, PartialEq, Eq, Structural)]
pub enum FundingStep {
    /// The chain charges no fees.
    Nothing,
    /// The accounts are funded.
    Fund,
    /// The chain charges fees, and there is no funder.
    MissingFunder,
}

/// Decides whether accounts are funded.
pub fn fund_if_needed(charges_fees: bool, has_funder: bool) -> (step: FundingStep)
    ensures
        step == if !charges_fees {
            FundingStep::Nothing
        } else if has_funder {
            FundingStep::Fund
        } else {
            FundingStep::MissingFunder
        },
{
    if !charges_fees {
        FundingStep::Nothing
    } else if has_funder {
        FundingStep::Fund
    } else {
        FundingStep::MissingFunder
    }
}

/// The accounts without transactions, which are not deployed yet. An account with transactions has
/// another nonce than zero.
pub open spec fn undeployed_of(nonces: Seq<(AccountId, u64)>) -> Seq<AccountId>
    decreases nonces.len(),
{
    if nonces.len() == 0 {
        Seq::empty()
    } else if nonces.last().1 == 0 {
        undeployed_of(nonces.drop_last()).push(nonces.last().0)
    } else {
        undeployed_of(nonces.drop_last())
    }
}

/// Returns the accounts that are not deployed yet.
pub fn undeployed_accounts(nonces: &Vec<(AccountId, u64)>) -> (undeployed: Vec<AccountId>)
    ensures
        undeployed@ == undeployed_of(nonces@),
{
    let mut undeployed: Vec<AccountId> = Vec::new();
    let mut i: usize = 0;
    while i < nonces.len()
        invariant
            i <= nonces.len(),
            undeployed@ == undeployed_of(nonces@.take(i as int)),
        decreases nonces.len() - i,
    {
        proof {
            let longer = nonces@.take(i + 1);
            assert(longer.drop_last() =~= nonces@.take(i as int));
            assert(longer.last() == nonces@[i as int]);
        }
        let (account_id, nonce) = nonces[i];
        if nonce == 0 {
            undeployed.push(account_id);
        }
        i += 1;
    }
    assert(nonces@.take(i as int) =~= nonces@);
    undeployed
}

} // verus!
