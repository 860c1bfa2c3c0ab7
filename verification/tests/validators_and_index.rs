use indexer::block_state::{Attestation, BeaconBlock, BlockState};
use indexer::node_to_files_indexer::{group_votes, lookup_root, EpochRetrieval, IndexedEpoch, Indexer};
use indexer::primitives::Hash256;
use indexer::types::clock::Clock;
use indexer::types::consolidated_block::{AttestationModel, ConsolidatedBlock, DepositData};
use indexer::types::consolidated_deposits::{save_outcome, ConsolidatedDeposits, DepositSaving};
use indexer::types::consolidated_epoch::{
    AggregatedEpochData, ConsolidatedEpoch, EpochProcessingSummary,
};
use indexer::types::consolidated_execution_layer_deposit::ConsolidatedExecutionLayerDeposit;
use indexer::types::consolidated_validator::{
    to_epoch_option, ConsolidatedValidator, Validator, ValidatorStatus,
};
use indexer::workers::persist_validator_worker::{
    handle_validator_event, ValidatorEvent, ValidatorsCache, ValidatorsExtendedCache,
};

const FAR: u64 = u64::MAX;

fn h(n: u64) -> Hash256 {
    Hash256 { w0: 0, w1: 0, w2: 0, w3: n }
}

fn validator(eligible: u64, activation: u64, exit: u64, withdrawable: u64, slashed: bool, balance: u64) -> Validator {
    Validator {
        pubkey: "0xabcd".to_string(),
        withdrawal_credentials: h(1),
        effective_balance: balance,
        slashed,
        activation_eligibility_epoch: eligible,
        activation_epoch: activation,
        exit_epoch: exit,
        withdrawable_epoch: withdrawable,
    }
}

#[test]
fn validator_statuses() {
    let s = |v: Validator, e: u64| ValidatorStatus::from_validator(&v, e, FAR).to_string();
    assert_eq!(s(validator(FAR, FAR, FAR, FAR, false, 32), 10), "pending_initialized");
    assert_eq!(s(validator(5, FAR, FAR, FAR, false, 32), 10), "pending_queued");
    assert_eq!(s(validator(1, 2, FAR, FAR, false, 32), 10), "active_ongoing");
    assert_eq!(s(validator(1, 2, 20, 40, false, 32), 10), "active_exiting");
    assert_eq!(s(validator(1, 2, 20, 40, true, 32), 10), "active_slashed");
    assert_eq!(s(validator(1, 2, 5, 40, false, 32), 10), "exited_unslashed");
    assert_eq!(s(validator(1, 2, 5, 40, true, 32), 10), "exited_slashed");
    assert_eq!(s(validator(1, 2, 5, 8, false, 32), 10), "withdrawal_possible");
    assert_eq!(s(validator(1, 2, 5, 8, false, 0), 10), "withdrawal_done");
    assert_eq!(to_epoch_option(FAR, FAR), None);
    assert_eq!(to_epoch_option(3, FAR), Some(3));
}

#[test]
fn validator_rows() {
    let c = ConsolidatedValidator::new(validator(1, 2, FAR, FAR, false, 32), 10, 33);
    let m = c.to_model(FAR);
    assert_eq!(m.pubkey, "0xabcd");
    assert_eq!(m.withdrawal_credentials, "0x0000000000000000000000000000000000000000000000000000000000000001");
    assert_eq!(m.balance, 33);
    assert_eq!(m.activation_eligibility_epoch, Some(1));
    assert_eq!(m.exit_epoch, None);
    assert_eq!(m.status, "active_ongoing");
}

fn deposit(index: u64, validator_index: u64) -> ConsolidatedExecutionLayerDeposit {
    ConsolidatedExecutionLayerDeposit::new(
        index,
        17,
        DepositData { pubkey: "pk".to_string(), withdrawal_credentials: h(2), amount: 32, signature: "sig".to_string() },
        true,
        vec![],
        validator_index,
    )
}

#[test]
fn deposits_update_their_validators() {
    let mut validators = ValidatorsCache::new();
    let mut extended = ValidatorsExtendedCache::new();
    let (row, found) = handle_validator_event(
        &ValidatorEvent::NewDepositFromExecutionLayer(deposit(3, 8)),
        Some((validator(1, 2, FAR, FAR, false, 32), 32)),
        10,
        FAR,
        &mut validators,
        &mut extended,
    );
    assert!(found);
    assert_eq!(row.id, 3);
    assert_eq!(row.model.validator_index, 8);
    assert_eq!(row.model.deposit_data.withdrawal_credentials.len(), 32);
    assert_eq!(validators.get(8).map(|m| m.balance), Some(32));
    assert_eq!(extended.get(8), Some(&vec![3]));
    let (_, found) = handle_validator_event(
        &ValidatorEvent::NewDepositFromExecutionLayer(deposit(4, 8)),
        Some((validator(1, 2, FAR, FAR, false, 64), 64)),
        10,
        FAR,
        &mut validators,
        &mut extended,
    );
    assert!(found);
    assert_eq!(validators.get(8).map(|m| m.balance), Some(64));
    assert_eq!(extended.get(8), Some(&vec![3, 4]));
    let (_, found) = handle_validator_event(
        &ValidatorEvent::NewDepositFromExecutionLayer(deposit(4, 9)),
        None,
        10,
        FAR,
        &mut validators,
        &mut extended,
    );
    assert!(!found);
    assert!(validators.get(9).is_none());
    assert!(extended.get(9).is_none());
    extended.add_deposit(8, 3);
    assert_eq!(extended.get(8), Some(&vec![3, 4]));
}

fn block(slot: u64, atts: Vec<Attestation>) -> BeaconBlock {
    BeaconBlock {
        slot,
        root: h(1000 + slot),
        parent_root: h(0),
        state_root: h(0),
        attestations: atts,
        deposits_count: 0,
        voluntary_exits_count: 0,
        proposer_slashings_count: 0,
        attester_slashings_count: 0,
        randao_reveal: String::new(),
        signature: String::new(),
        graffiti: String::new(),
        eth1_deposit_root: h(0),
        eth1_deposit_count: 0,
        eth1_block_hash: h(0),
    }
}

fn vote(slot: u64, root: u64) -> AttestationModel {
    AttestationModel { slot, committee_index: 0, beacon_block_root: h(root) }
}

#[test]
fn votes_are_grouped_by_the_block_they_vote_for() {
    let roots = vec![(h(1), 10), (h(2), 11), (h(1), 12)];
    assert_eq!(lookup_root(&roots, &h(1)), Some(12));
    assert_eq!(lookup_root(&roots, &h(3)), None);
    let groups = group_votes(&vec![vote(1, 2), vote(2, 1), vote(3, 9), vote(4, 2)], &roots);
    assert_eq!(groups, vec![(11, vec![vote(1, 2), vote(4, 2)]), (12, vec![vote(2, 1)])]);
}

#[test]
fn indexing_stores_everything_retrieved() {
    let a = Attestation { slot: 0, beacon_block_root: h(1000), index: 0, aggregation_bits: vec![true] };
    let blocks = vec![
        ConsolidatedBlock::new(BlockState::Proposed(block(0, vec![])), 1, vec![], vec![], 2),
        ConsolidatedBlock::new(BlockState::Proposed(block(1, vec![a])), 2, vec![], vec![], 2),
    ];
    let summary = EpochProcessingSummary {
        current_epoch_total_active_balance: 1,
        previous_epoch_total_active_balance: 2,
        current_epoch_target_attesting_balance: None,
        previous_epoch_target_attesting_balance: Some(1),
        previous_epoch_head_attesting_balance: None,
    };
    let mut data = AggregatedEpochData::default();
    data.attestations_count = 1;
    let epoch = ConsolidatedEpoch::new(0, data, &summary, vec![32, 32]);
    let indexer = Indexer {
        epochs: vec![IndexedEpoch { epoch, blocks }],
        validators: vec![ConsolidatedValidator::new(validator(0, 0, FAR, FAR, false, 32), 0, 32)],
    };
    let out = indexer.index("data", 2, FAR, &Clock::new(0, 12)).unwrap();
    assert_eq!(out.epochs.len(), 1);
    assert_eq!(out.epochs[0].model.voted_ether, 1);
    assert_eq!(out.epochs_extended[0].model.total_validator_balance, 64);
    assert_eq!(out.blocks.len(), 2);
    assert_eq!(out.blocks[1].model.proposer, 2);
    assert_eq!(out.votes, vec![(0, vec![AttestationModel { slot: 0, committee_index: 0, beacon_block_root: h(1000) }])]);
    assert_eq!(out.validators[0].status, "active_ongoing");
    assert_eq!(out.epoch_indexes.len(), 6);
    assert_eq!(out.epoch_indexes[0][0].path, "data/epochs/s/attestations_count/1.msg");
    assert_eq!(out.epoch_indexes[0][0].bytes, vec![0x91, 0]);
    assert_eq!(out.epoch_indexes[5][0].path, "data/epochs/s/voted_ether/1.msg");
    assert_eq!((out.epochs_meta.count, out.blocks_meta.count, out.validators_meta.count), (1, 2, 1));
}

#[test]
fn deposits_are_numbered_after_the_stored_ones() {
    let block = ConsolidatedBlock::new(
        BlockState::Missed(4),
        0,
        vec![],
        vec![
            DepositData { pubkey: "a".to_string(), withdrawal_credentials: h(0), amount: 1, signature: "s".to_string() },
            DepositData { pubkey: "b".to_string(), withdrawal_credentials: h(0), amount: 2, signature: "s".to_string() },
        ],
        32,
    );
    let numbered = ConsolidatedDeposits::from_block(&block).numbered(40);
    let ids: Vec<u64> = numbered.iter().map(|(i, _)| *i).collect();
    assert_eq!(ids, vec![40, 41]);
    assert_eq!(numbered[1].1.public_key, "b");
    assert_eq!(numbered[0].1.slot, 4);
    let saved = save_outcome(40, 1, Some("disk full".to_string()));
    assert_eq!(saved.count, 41);
    assert_eq!(saved.error.as_deref(), Some("disk full"));
}

fn three_deposits() -> ConsolidatedBlock {
    let d = |k: &str, amount: u64| DepositData {
        pubkey: k.to_string(),
        withdrawal_credentials: h(0),
        amount,
        signature: "s".to_string(),
    };
    ConsolidatedBlock::new(BlockState::Missed(6), 0, vec![], vec![d("a", 1), d("b", 2), d("c", 3)], 32)
}

#[test]
fn deposit_saving_stops_at_the_first_failure() {
    let mut saving = DepositSaving::new(ConsolidatedDeposits::from_block(&three_deposits()), 10);
    let (id, d) = saving.next().unwrap();
    assert_eq!((id, d.public_key.as_str()), (10, "a"));
    saving.on_result(Ok(()));
    let (id, d) = saving.next().unwrap();
    assert_eq!((id, d.public_key.as_str()), (11, "b"));
    saving.on_result(Err("disk full".to_string()));
    assert!(saving.next().is_none());
    let outcome = saving.finish();
    assert_eq!(outcome.count, 11);
    assert_eq!(outcome.error.as_deref(), Some("disk full"));
}

#[test]
fn deposit_saving_saves_all_when_none_fails() {
    let mut saving = DepositSaving::new(ConsolidatedDeposits::from_block(&three_deposits()), 0);
    let mut ids = vec![];
    while let Some((id, _)) = saving.next() {
        ids.push(id);
        saving.on_result(Ok(()));
    }
    assert_eq!(ids, vec![0, 1, 2]);
    let outcome = saving.finish();
    assert_eq!(outcome.count, 3);
    assert!(outcome.error.is_none());
}

#[test]
fn epoch_retrieval_stops_at_the_first_failed_epoch() {
    let mut r = EpochRetrieval::new();
    assert_eq!((r.next_epoch, r.running), (0, true));
    r.on_result(true);
    r.on_result(true);
    assert_eq!((r.next_epoch, r.running), (2, true));
    r.on_result(false);
    assert_eq!((r.next_epoch, r.running), (2, false));
}
