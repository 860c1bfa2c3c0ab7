use indexer::block_state::{Attestation, BeaconBlock, BlockState};
use indexer::network::persist_worker::{handle, PersistStep};
use indexer::network::workers::persist_epoch_worker::{
    aggregate_blocks, apply_blocks, end_slot, epoch_rows, handle_work, persist_epoch, ReplayStep,
};
use indexer::primitives::Hash256;
use indexer::types::clock::Clock;
use indexer::types::consolidated_block::ConsolidatedBlock;
use indexer::types::consolidated_epoch::{AggregatedEpochData, ConsolidatedEpoch, EpochProcessingSummary};

fn h(n: u64) -> Hash256 {
    Hash256 { w0: 0, w1: 0, w2: 0, w3: n }
}

fn beacon_block(slot: u64, attestations: usize, deposits: usize) -> BeaconBlock {
    BeaconBlock {
        slot,
        root: h(slot + 1),
        parent_root: h(slot),
        state_root: h(0),
        attestations: (0..attestations)
            .map(|i| Attestation { slot, beacon_block_root: h(slot), index: i as u64, aggregation_bits: vec![] })
            .collect(),
        deposits_count: deposits,
        voluntary_exits_count: 1,
        proposer_slashings_count: 0,
        attester_slashings_count: 0,
        randao_reveal: String::new(),
        signature: String::new(),
        graffiti: String::new(),
        eth1_deposit_root: h(0),
        eth1_deposit_count: 0,
        eth1_block_hash: h(0),
    }
}

#[test]
fn last_slot_of_an_epoch() {
    assert_eq!(end_slot(0, 32), 31);
    assert_eq!(end_slot(3, 32), 127);
    assert_eq!(end_slot(u64::MAX, 32), u64::MAX - 1);
    assert_eq!(end_slot(0, 0), 0);
}

#[test]
fn replay_skips_a_first_block_already_reached() {
    assert_eq!(
        apply_blocks(5, &vec![5, 7, 9], 31),
        vec![
            ReplayStep::AdvanceTo(7),
            ReplayStep::Apply(1),
            ReplayStep::AdvanceTo(9),
            ReplayStep::Apply(2),
            ReplayStep::AdvanceTo(31),
        ]
    );
    assert_eq!(
        apply_blocks(4, &vec![5], 31),
        vec![ReplayStep::AdvanceTo(5), ReplayStep::Apply(0), ReplayStep::AdvanceTo(31)]
    );
    assert_eq!(apply_blocks(4, &vec![], 31), vec![ReplayStep::AdvanceTo(31)]);
}

#[test]
fn work_orders_blocks_by_slot() {
    let blocks = vec![
        (66, BlockState::Proposed(beacon_block(66, 0, 0))),
        (64, BlockState::Proposed(beacon_block(64, 0, 0))),
        (65, BlockState::Missed(65)),
    ];
    let work = handle_work(2, blocks, 63, 32);
    let slots: Vec<u64> = work.blocks.iter().map(|(s, _)| *s).collect();
    assert_eq!(slots, vec![64, 65, 66]);
    assert_eq!(work.proposed_slots, vec![64, 66]);
    assert_eq!(work.last_slot, 95);
    assert_eq!(
        work.replay,
        vec![
            ReplayStep::AdvanceTo(64),
            ReplayStep::Apply(0),
            ReplayStep::AdvanceTo(66),
            ReplayStep::Apply(1),
            ReplayStep::AdvanceTo(95),
        ]
    );
}

#[test]
fn counts_over_the_blocks_of_an_epoch() {
    let blocks = vec![
        ConsolidatedBlock::new(BlockState::Proposed(beacon_block(0, 2, 1)), 0, vec![], vec![], 32),
        ConsolidatedBlock::new(BlockState::Missed(1), 0, vec![], vec![], 32),
        ConsolidatedBlock::new(BlockState::Orphaned(beacon_block(2, 5, 5)), 0, vec![], vec![], 32),
        ConsolidatedBlock::new(BlockState::Proposed(beacon_block(3, 3, 0)), 0, vec![], vec![], 32),
    ];
    let d = aggregate_blocks(&blocks).unwrap();
    assert_eq!(
        d,
        AggregatedEpochData {
            proposed_blocks_count: 2,
            missed_blocks_count: 1,
            orphaned_blocks_count: 1,
            attestations_count: 5,
            deposits_count: 1,
            voluntary_exits_count: 2,
            proposer_slashings_count: 0,
            attester_slashings_count: 0,
        }
    );
    let huge = vec![
        ConsolidatedBlock::new(BlockState::Proposed(beacon_block(0, 0, usize::MAX)), 0, vec![], vec![], 32),
        ConsolidatedBlock::new(BlockState::Proposed(beacon_block(1, 0, 1)), 0, vec![], vec![], 32),
    ];
    assert_eq!(aggregate_blocks(&huge), None);
}

#[test]
fn rows_of_a_replayed_epoch() {
    let summary = EpochProcessingSummary {
        current_epoch_total_active_balance: 10,
        previous_epoch_total_active_balance: 100,
        current_epoch_target_attesting_balance: Some(5),
        previous_epoch_target_attesting_balance: None,
        previous_epoch_head_attesting_balance: Some(1),
    };
    let blocks = vec![(32, BlockState::Proposed(beacon_block(32, 1, 0))), (33, BlockState::Missed(33))];
    let clock = Clock::new(100, 12);
    let rows = epoch_rows(1, blocks, &vec![7, 8], &summary, vec![10, 20, 31], &clock, 63, 32).unwrap();
    assert_eq!(rows.epoch_model.id, 1);
    assert_eq!(rows.epoch_model.model.timestamp, 100 + 32 * 12);
    assert_eq!(rows.epoch_model.model.proposed_blocks_count, 1);
    assert_eq!(rows.epoch_model.model.missed_blocks_count, 1);
    assert_eq!(rows.epoch_model.model.eligible_ether, 100);
    assert_eq!(rows.epoch_model.model.voted_ether, 0);
    assert_eq!(rows.extended_epoch_model.model.validators_count, 3);
    assert_eq!(rows.extended_epoch_model.model.total_validator_balance, 61);
    assert_eq!(rows.extended_epoch_model.model.average_validator_balance, 20);
    assert_eq!(rows.block_models.len(), 2);
    assert_eq!(rows.block_models[0].model.proposer, 7);
    assert_eq!(rows.block_models[1].model.status, "Missed");
    assert!(rows.extended_block_models[1].model.is_none());
    assert_eq!(rows.attestation_models[0].model.len(), 1);
    assert_eq!(rows.epochs_meta.count, 2);
    assert_eq!(rows.blocks_meta.count, 64);
}

#[test]
fn blocks_behind_the_state_are_not_replayed() {
    let proposed = BlockState::Proposed(beacon_block(5, 0, 0));
    assert_eq!(handle(&proposed, 4), vec![PersistStep::ProcessSlot, PersistStep::ProcessBlock, PersistStep::Persist]);
    assert_eq!(handle(&proposed, 5), vec![]);
    assert_eq!(handle(&BlockState::Proposed(beacon_block(0, 0, 0)), 0), vec![PersistStep::ProcessSlot, PersistStep::Persist]);
    assert_eq!(handle(&BlockState::Missed(6), 5), vec![PersistStep::ProcessSlot, PersistStep::Persist]);
    assert_eq!(handle(&BlockState::Orphaned(beacon_block(6, 0, 0)), 5), vec![PersistStep::Persist]);
}

#[test]
fn rows_of_a_consolidated_epoch() {
    let summary = EpochProcessingSummary {
        current_epoch_total_active_balance: 10,
        previous_epoch_total_active_balance: 9,
        current_epoch_target_attesting_balance: None,
        previous_epoch_target_attesting_balance: Some(4),
        previous_epoch_head_attesting_balance: None,
    };
    let e = ConsolidatedEpoch::new(5, AggregatedEpochData::default(), &summary, vec![1, 2]);
    let (m, x, meta) = persist_epoch(&e, 32, &Clock::new(10, 12));
    assert_eq!(m.id, 5);
    assert_eq!(m.model.timestamp, 10 + 160 * 12);
    assert_eq!(m.model.voted_ether, 4);
    assert_eq!(x.model.average_validator_balance, 1);
    assert_eq!(meta.count, 6);
}
