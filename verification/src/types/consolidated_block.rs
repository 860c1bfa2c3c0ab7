use vstd::prelude::*;

use crate::block_state::{status_name, Attestation, BeaconBlock, BlockState};
use crate::primitives::{epoch_of, spec_epoch_of, Epoch, Hash256, Slot};
use crate::text::{
    hash_bytes, hash_hex, hash_to_bytes, hash_to_hex, string_bytes, u64_to_string, decimal,
};
use crate::types::clock::Clock;

verus! {

/// A committee of validators for one slot and index.
pub struct BeaconCommittee {
    pub slot: Slot,
    pub index: u64,
    pub validators: Vec<u64>,
}

/// A deposit included in a block.
pub struct DepositData {
    /// The textual form of the validator's public key.
    pub pubkey: String,
    pub withdrawal_credentials: Hash256,
    pub amount: u64,
    /// The textual form of the deposit signature.
    pub signature: String,
}

/// A block (or missed slot) together with what the indexer learnt around it.
pub struct ConsolidatedBlock {
    pub block: BlockState,
    pub epoch: Epoch,
    pub slot: Slot,
    pub proposer_index: u64,
    pub committees: Vec<BeaconCommittee>,
    pub deposits: Vec<DepositData>,
}

/// A row of the blocks table.
pub struct BlockModel {
    pub epoch: u64,
    pub timestamp: u64,
    pub proposer_slashings_count: usize,
    pub attester_slashings_count: usize,
    pub attestations_count: usize,
    pub deposits_count: usize,
    pub voluntary_exits_count: usize,
    pub proposer: u64,
    pub status: String,
}

pub struct BlockModelWithId {
    pub id: u64,
    pub model: BlockModel,
}

/// A row of the block roots table: the slot of a known block root.
#[derive(Clone, Copy, Debug, PartialEq, Eq, Structural)]
pub struct BlockRootModel {
    pub slot: u64,
}

pub struct BlockRootModelWithId {
    /// The debug form of the root.
    pub id: String,
    pub model: BlockRootModel,
}

/// The committees of a slot: for each committee, its validators.
pub struct CommitteeModel {
    pub index: u64,
    pub validators: Vec<u64>,
}

pub struct CommitteeModelsWithId {
    pub id: u64,
    pub model: Vec<CommitteeModel>,
}

/// A deposit as it is persisted.
pub struct DepositModel {
    pub slot: u64,
    pub public_key: String,
    pub withdrawal_credentials: Vec<u8>,
    pub amount: u64,
    pub signature: String,
}

/// An attestation as it is persisted.
#[derive(Clone, Copy, Debug, PartialEq, Eq, Structural)]
pub struct AttestationModel {
    pub slot: u64,
    pub committee_index: u64,
    pub beacon_block_root: Hash256,
}

pub struct AttestationModelsWithId {
    pub id: u64,
    pub model: Vec<AttestationModel>,
}

/// The details of a block that the extended blocks table holds.
pub struct BlockExtendedModel {
    pub block_root: Vec<u8>,
    pub parent_root: Vec<u8>,
    pub state_root: Vec<u8>,
    pub randao_reveal: Vec<u8>,
    pub signature: Vec<u8>,
    pub graffiti: Vec<u8>,
    pub graffiti_text: String,
    pub votes_count: usize,
    pub eth1data_deposit_root: Vec<u8>,
    pub eth1data_deposit_count: u64,
    pub eth1data_block_hash: Vec<u8>,
}

pub struct BlockExtendedModelWithId {
    pub id: u64,
    pub model: Option<BlockExtendedModel>,
}

/// Whether an extended model holds exactly the details of a block, with no vote counted yet.
pub open spec fn extended_model_of(m: BlockExtendedModel, b: BeaconBlock) -> bool {
    &&& m.block_root@ == hash_bytes(b.root)
    &&& m.parent_root@ == hash_bytes(b.parent_root)
    &&& m.state_root@ == hash_bytes(b.state_root)
    &&& m.randao_reveal@ == vstd::utf8::encode_utf8(b.randao_reveal@)
    &&& m.signature@ == vstd::utf8::encode_utf8(b.signature@)
    &&& m.graffiti@ == vstd::utf8::encode_utf8(b.graffiti@)
    &&& m.graffiti_text@ == b.graffiti@
    &&& m.votes_count == 0
    &&& m.eth1data_deposit_root@ == hash_bytes(b.eth1_deposit_root)
    &&& m.eth1data_deposit_count == b.eth1_deposit_count
    &&& m.eth1data_block_hash@ == hash_bytes(b.eth1_block_hash)
}

/// The extended model of a proposed or orphaned block; none for a missed slot.
pub fn block_extended_model(state: &BlockState) -> (m: Option<BlockExtendedModel>)
    ensures
        match state {
            BlockState::Proposed(b) => m matches Some(x) && extended_model_of(x, *b),
            BlockState::Orphaned(b) => m matches Some(x) && extended_model_of(x, *b),
            BlockState::Missed(_) => m is None,
        },
{
    match state.block() {
        Some(b) => Some(
            BlockExtendedModel {
                block_root: hash_to_bytes(&b.root),
                parent_root: hash_to_bytes(&b.parent_root),
                state_root: hash_to_bytes(&b.state_root),
                randao_reveal: string_bytes(&b.randao_reveal),
                signature: string_bytes(&b.signature),
                graffiti: string_bytes(&b.graffiti),
                graffiti_text: b.graffiti.clone(),
                votes_count: 0,
                eth1data_deposit_root: hash_to_bytes(&b.eth1_deposit_root),
                eth1data_deposit_count: b.eth1_deposit_count,
                eth1data_block_hash: hash_to_bytes(&b.eth1_block_hash),
            },
        ),
        None => None,
    }
}

/// A count that only a canonical block has: zero for missed and orphaned slots.
pub open spec fn canonical_count(state: BlockState, count: spec_fn(BeaconBlock) -> nat) -> nat {
    match state {
        BlockState::Proposed(b) => count(b),
        _ => 0,
    }
}

/// Whether `m` is the row of the blocks table for a slot, its block, its epoch and proposer.
pub open spec fn block_row_of(
    block: BlockState,
    slot: Slot,
    epoch: Epoch,
    proposer: u64,
    clock: Clock,
    m: BlockModelWithId,
) -> bool {
    &&& m.id == slot
    &&& m.model.epoch == epoch
    &&& m.model.timestamp == clock.spec_timestamp_or_zero(slot)
    &&& m.model.proposer_slashings_count == canonical_count(block, |b: BeaconBlock| b.proposer_slashings_count as nat)
    &&& m.model.attester_slashings_count == canonical_count(block, |b: BeaconBlock| b.attester_slashings_count as nat)
    &&& m.model.attestations_count == canonical_count(block, |b: BeaconBlock| b.attestations@.len())
    &&& m.model.deposits_count == canonical_count(block, |b: BeaconBlock| b.deposits_count as nat)
    &&& m.model.voluntary_exits_count == canonical_count(block, |b: BeaconBlock| b.voluntary_exits_count as nat)
    &&& m.model.proposer == proposer
    &&& m.model.status@ == status_name(block.spec_status())
}

/// Whether `m` is the row of the extended blocks table for a slot and its block.
pub open spec fn block_extended_row_of(block: BlockState, slot: Slot, m: BlockExtendedModelWithId) -> bool {
    &&& m.id == slot
    &&& match block {
        BlockState::Proposed(b) => m.model matches Some(x) && extended_model_of(x, b),
        BlockState::Orphaned(b) => m.model matches Some(x) && extended_model_of(x, b),
        BlockState::Missed(_) => m.model is None,
    }
}

impl ConsolidatedBlock {
    /// Whether slot and epoch agree with the block.
    pub open spec fn wf(&self, slots_per_epoch: u64) -> bool {
        &&& slots_per_epoch > 0
        &&& self.slot == self.block.spec_slot()
        &&& self.epoch == spec_epoch_of(self.slot, slots_per_epoch)
    }

    pub fn new(
        block: BlockState,
        proposer_index: u64,
        committees: Vec<BeaconCommittee>,
        deposits: Vec<DepositData>,
        slots_per_epoch: u64,
    ) -> (c: Self)
        requires
            slots_per_epoch > 0,
        ensures
            c.wf(slots_per_epoch),
            c.block == block,
            c.proposer_index == proposer_index,
            c.committees@ == committees@,
            c.deposits@ == deposits@,
    {
        let slot = block.slot();
        ConsolidatedBlock {
            block,
            epoch: epoch_of(slot, slots_per_epoch),
            slot,
            proposer_index,
            committees,
            deposits,
        }
    }

    pub fn slot(&self) -> (s: Slot)
        ensures
            s == self.slot,
    {
        self.slot
    }

    /// The attestations of a canonical block; none otherwise.
    pub fn attestations(&self) -> (a: &[Attestation])
        ensures
            match self.block {
                BlockState::Proposed(b) => a@ == b.attestations@,
                _ => a@.len() == 0,
            },
    {
        match &self.block {
            BlockState::Proposed(b) => b.attestations.as_slice(),
            _ => &[],
        }
    }

    pub fn get_attestations_count(&self) -> (n: usize)
        ensures
            n == canonical_count(self.block, |b: BeaconBlock| b.attestations@.len()),
    {
        match &self.block {
            BlockState::Proposed(b) => b.attestations.len(),
            _ => 0,
        }
    }

    pub fn get_deposits_count(&self) -> (n: usize)
        ensures
            n == canonical_count(self.block, |b: BeaconBlock| b.deposits_count as nat),
    {
        match &self.block {
            BlockState::Proposed(b) => b.deposits_count,
            _ => 0,
        }
    }

    pub fn get_voluntary_exits_count(&self) -> (n: usize)
        ensures
            n == canonical_count(self.block, |b: BeaconBlock| b.voluntary_exits_count as nat),
    {
        match &self.block {
            BlockState::Proposed(b) => b.voluntary_exits_count,
            _ => 0,
        }
    }

    pub fn get_proposer_slashings_count(&self) -> (n: usize)
        ensures
            n == canonical_count(self.block, |b: BeaconBlock| b.proposer_slashings_count as nat),
    {
        match &self.block {
            BlockState::Proposed(b) => b.proposer_slashings_count,
            _ => 0,
        }
    }

    pub fn get_attester_slashings_count(&self) -> (n: usize)
        ensures
            n == canonical_count(self.block, |b: BeaconBlock| b.attester_slashings_count as nat),
    {
        match &self.block {
            BlockState::Proposed(b) => b.attester_slashings_count,
            _ => 0,
        }
    }

    /// Whether `m` is the row of the blocks table for this slot.
    pub open spec fn is_block_model(&self, m: BlockModelWithId, clock: Clock) -> bool {
        block_row_of(self.block, self.slot, self.epoch, self.proposer_index, clock, m)
    }

    /// The row of the blocks table for this slot.
    pub fn to_block_model(&self, clock: &Clock) -> (m: BlockModelWithId)
        ensures
            self.is_block_model(m, *clock),
    {
        let model = BlockModel {
            epoch: self.epoch,
            timestamp: clock.timestamp_or_zero(self.slot),
            proposer_slashings_count: self.get_proposer_slashings_count(),
            attester_slashings_count: self.get_attester_slashings_count(),
            attestations_count: self.get_attestations_count(),
            deposits_count: self.get_deposits_count(),
            voluntary_exits_count: self.get_voluntary_exits_count(),
            proposer: self.proposer_index,
            status: self.block.to_string(),
        };
        BlockModelWithId { id: self.slot, model }
    }

    /// The row of the extended blocks table for this slot.
    pub fn to_block_extended_model(&self) -> (m: BlockExtendedModelWithId)
        ensures
            block_extended_row_of(self.block, self.slot, m),
    {
        BlockExtendedModelWithId { id: self.slot, model: block_extended_model(&self.block) }
    }

    /// Where the block has a root, the row that maps its root to its slot.
    pub fn to_block_root_model(&self) -> (m: Option<BlockRootModelWithId>)
        ensures
            match self.block {
                BlockState::Proposed(b) => m matches Some(x) && x.id@ == hash_hex(b.root)
                    && x.model.slot == self.slot,
                BlockState::Orphaned(b) => m matches Some(x) && x.id@ == hash_hex(b.root)
                    && x.model.slot == self.slot,
                BlockState::Missed(_) => m is None,
            },
    {
        match self.block.root() {
            Some(root) => Some(
                BlockRootModelWithId { id: hash_to_hex(&root), model: BlockRootModel { slot: self.slot } },
            ),
            None => None,
        }
    }

    /// The attestations of the block (proposed or orphaned) as they are persisted.
    pub fn to_attestation_models(&self) -> (m: AttestationModelsWithId)
        ensures
            m.id == self.slot,
            match self.block {
                BlockState::Missed(_) => m.model@.len() == 0,
                BlockState::Proposed(b) => attestation_models_of(m.model@, b.attestations@),
                BlockState::Orphaned(b) => attestation_models_of(m.model@, b.attestations@),
            },
    {
        let mut models: Vec<AttestationModel> = Vec::new();
        match self.block.block() {
            Some(b) => {
                let mut i: usize = 0;
                while i < b.attestations.len()
                    invariant
                        i <= b.attestations@.len(),
                        attestation_models_of(models@, b.attestations@.take(i as int)),
                    decreases b.attestations@.len() - i,
                {
                    let a = &b.attestations[i];
                    models.push(
                        AttestationModel {
                            slot: a.slot,
                            committee_index: a.index,
                            beacon_block_root: a.beacon_block_root,
                        },
                    );
                    i = i + 1;
                }
                assert(b.attestations@.take(i as int) =~= b.attestations@);
            },
            None => {},
        }
        AttestationModelsWithId { id: self.slot, model: models }
    }

    /// The committees of the slot as they are persisted.
    pub fn to_committee_models(&self) -> (m: CommitteeModelsWithId)
        ensures
            m.id == self.slot,
            m.model@.len() == self.committees@.len(),
            forall|i: int|
                0 <= i < m.model@.len() ==> #[trigger] m.model@[i].index == self.committees@[i].index
                    && m.model@[i].validators@ == self.committees@[i].validators@,
    {
        let mut models: Vec<CommitteeModel> = Vec::new();
        let mut i: usize = 0;
        while i < self.committees.len()
            invariant
                i <= self.committees@.len(),
                models@.len() == i,
                forall|j: int|
                    0 <= j < i ==> #[trigger] models@[j].index == self.committees@[j].index
                        && models@[j].validators@ == self.committees@[j].validators@,
            decreases self.committees@.len() - i,
        {
            let c = &self.committees[i];
            let validators = c.validators.clone();
            assert(validators@ =~= c.validators@);
            models.push(CommitteeModel { index: c.index, validators });
            assert(models@[i as int].validators@ == self.committees@[i as int].validators@);
            i = i + 1;
        }
        CommitteeModelsWithId { id: self.slot, model: models }
    }

    /// The deposits of the block as they are persisted, each with the slot of the block.
    pub fn to_deposit_models(&self) -> (m: Vec<DepositModel>)
        ensures
            m@.len() == self.deposits@.len(),
            forall|i: int|
                0 <= i < m@.len() ==> {
                    &&& #[trigger] m@[i].slot == self.slot
                    &&& m@[i].public_key@ == self.deposits@[i].pubkey@
                    &&& m@[i].withdrawal_credentials@ == hash_bytes(
                        self.deposits@[i].withdrawal_credentials,
                    )
                    &&& m@[i].amount == self.deposits@[i].amount
                    &&& m@[i].signature@ == self.deposits@[i].signature@
                },
    {
        let mut models: Vec<DepositModel> = Vec::new();
        let mut i: usize = 0;
        while i < self.deposits.len()
            invariant
                i <= self.deposits@.len(),
                models@.len() == i,
                forall|j: int|
                    0 <= j < i ==> {
                        &&& #[trigger] models@[j].slot == self.slot
                        &&& models@[j].public_key@ == self.deposits@[j].pubkey@
                        &&& models@[j].withdrawal_credentials@ == hash_bytes(
                            self.deposits@[j].withdrawal_credentials,
                        )
                        &&& models@[j].amount == self.deposits@[j].amount
                        &&& models@[j].signature@ == self.deposits@[j].signature@
                    },
            decreases self.deposits@.len() - i,
        {
            let d = &self.deposits[i];
            models.push(
                DepositModel {
                    slot: self.slot,
                    public_key: d.pubkey.clone(),
                    withdrawal_credentials: hash_to_bytes(&d.withdrawal_credentials),
                    amount: d.amount,
                    signature: d.signature.clone(),
                },
            );
            assert(models@[i as int].public_key@ == self.deposits@[i as int].pubkey@);
            i = i + 1;
        }
        models
    }
}

/// Whether the persisted attestations match the attestations one for one.
pub open spec fn attestation_models_of(m: Seq<AttestationModel>, a: Seq<Attestation>) -> bool {
    &&& m.len() == a.len()
    &&& forall|i: int|
        0 <= i < m.len() ==> #[trigger] m[i] == (AttestationModel {
            slot: a[i].slot,
            committee_index: a[i].index,
            beacon_block_root: a[i].beacon_block_root,
        })
}

} // verus!
