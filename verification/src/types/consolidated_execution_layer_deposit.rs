use vstd::prelude::*;

use crate::primitives::Hash256;
use crate::text::{hash_bytes, hash_to_bytes};
use crate::types::consolidated_block::DepositData;

verus! {

/// A deposit made on the execution layer, with what processing it gave.
pub struct ConsolidatedExecutionLayerDeposit {
    pub index: u64,
    pub block_number: u64,
    pub deposit_data: DepositData,
    pub is_signature_valid: bool,
    /// The Merkle proof of the deposit (33 hashes).
    pub proof: Vec<Hash256>,
    pub validator_index: u64,
}

/// The deposit data as it is persisted.
pub struct DepositDataModel {
    pub public_key: String,
    pub withdrawal_credentials: Vec<u8>,
    pub amount: u64,
    pub signature: String,
}

/// An execution-layer deposit as it is persisted.
pub struct ExecutionLayerDepositModel {
    pub block_number: u64,
    pub validator_index: u64,
    pub deposit_data: DepositDataModel,
    pub is_signature_valid: bool,
}

pub struct ExecutionLayerDepositModelWithId {
    pub id: u64,
    pub model: ExecutionLayerDepositModel,
}

impl ConsolidatedExecutionLayerDeposit {
    pub fn new(
        index: u64,
        block_number: u64,
        deposit_data: DepositData,
        is_signature_valid: bool,
        proof: Vec<Hash256>,
        validator_index: u64,
    ) -> (d: Self)
        ensures
            d.index == index,
            d.block_number == block_number,
            d.deposit_data == deposit_data,
            d.is_signature_valid == is_signature_valid,
            d.proof@ == proof@,
            d.validator_index == validator_index,
    {
        ConsolidatedExecutionLayerDeposit { index, block_number, deposit_data, is_signature_valid, proof, validator_index }
    }

    /// Whether `m` is the deposit as it is persisted, keyed by its index.
    pub open spec fn is_model(&self, m: ExecutionLayerDepositModelWithId) -> bool {
        &&& m.id == self.index
        &&& m.model.block_number == self.block_number
        &&& m.model.validator_index == self.validator_index
        &&& m.model.is_signature_valid == self.is_signature_valid
        &&& m.model.deposit_data.public_key@ == self.deposit_data.pubkey@
        &&& m.model.deposit_data.withdrawal_credentials@ == hash_bytes(self.deposit_data.withdrawal_credentials)
        &&& m.model.deposit_data.amount == self.deposit_data.amount
        &&& m.model.deposit_data.signature@ == self.deposit_data.signature@
    }

    /// The deposit as it is persisted, keyed by its index.
    pub fn to_model(&self) -> (m: ExecutionLayerDepositModelWithId)
        ensures
            self.is_model(m),
    {
        ExecutionLayerDepositModelWithId {
            id: self.index,
            model: ExecutionLayerDepositModel {
                block_number: self.block_number,
                validator_index: self.validator_index,
                deposit_data: DepositDataModel {
                    public_key: self.deposit_data.pubkey.clone(),
                    withdrawal_credentials: hash_to_bytes(&self.deposit_data.withdrawal_credentials),
                    amount: self.deposit_data.amount,
                    signature: self.deposit_data.signature.clone(),
                },
                is_signature_valid: self.is_signature_valid,
            },
        }
    }
}

} // verus!
