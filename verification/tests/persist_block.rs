use indexer::block_state::{Attestation, BeaconBlock, BlockState};
use indexer::primitives::Hash256;
use indexer::types::clock::Clock;
use indexer::types::consolidated_block::{BeaconCommittee, CommitteeModel, ConsolidatedBlock};
use indexer::workers::persist_block_worker::{
    block_votes, count_votes, get_attesting_indices, persist_block, sort_u64s, VoteError, VoteModel,
    VotesCache,
};

fn h(n: u64) -> Hash256 {
    Hash256 { w0: 0, w1: 0, w2: 0, w3: n }
}

fn beacon_block(slot: u64, root: u64, attestations: Vec<Attestation>) -> BeaconBlock {
    BeaconBlock {
        slot,
        root: h(root),
        parent_root: h(0),
        state_root: h(0),
        attestations,
        deposits_count: 0,
        voluntary_exits_count: 0,
        proposer_slashings_count: 0,
        attester_slashings_count: 0,
        randao_reveal: String::new(),
        signature: String::new(),
        graffiti: String::new(),
        eth1_deposit_root: h(0),
        eth1_deposit_count: 0,
        eth1_block_hash: h(0),
    }
}

fn att(slot: u64, root: u64, index: u64, bits: Vec<bool>) -> Attestation {
    Attestation { slot, beacon_block_root: h(root), index, aggregation_bits: bits }
}

fn committees_at(slot: u64, members: Vec<Vec<u64>>) -> (u64, Vec<CommitteeModel>) {
    (
        slot,
        members
            .into_iter()
            .enumerate()
            .map(|(i, v)| CommitteeModel { index: i as u64, validators: v })
            .collect(),
    )
}

fn consolidated(slot: u64, atts: Vec<Attestation>) -> ConsolidatedBlock {
    ConsolidatedBlock::new(
        BlockState::Proposed(beacon_block(slot, 100 + slot, atts)),
        3,
        vec![BeaconCommittee { slot, index: 0, validators: vec![1, 2] }],
        Vec::new(),
        32,
    )
}

#[test]
fn attesting_indices_are_the_set_bits_in_increasing_order() {
    assert_eq!(get_attesting_indices(&vec![30, 10, 20], &vec![true, false, true]), Some(vec![20, 30]));
    assert_eq!(get_attesting_indices(&vec![30, 10, 20], &vec![true, true]), None);
    assert_eq!(get_attesting_indices(&vec![], &vec![]), Some(vec![]));
    assert_eq!(sort_u64s(vec![3, 1, 2, 1]), vec![1, 1, 2, 3]);
}

#[test]
fn votes_go_to_the_block_they_vote_for() {
    let block = consolidated(10, vec![att(9, 7, 0, vec![true, true, false]), att(9, 8, 0, vec![true])]);
    let roots = vec![(h(7), 9)];
    let committees = vec![committees_at(9, vec![vec![5, 6, 4]])];
    let (votes, error) = block_votes(&block, &roots, &committees);
    assert_eq!(error, None);
    assert_eq!(votes.len(), 1);
    assert_eq!(votes[0].0, 9);
    assert_eq!(votes[0].1.slot, 9);
    assert_eq!(votes[0].1.included_in, 10);
    assert_eq!(votes[0].1.committee_index, 0);
    assert_eq!(votes[0].1.validators, vec![5, 6]);
}

#[test]
fn unknown_committees_stop_the_votes() {
    let block = consolidated(
        10,
        vec![att(9, 7, 0, vec![true]), att(8, 7, 0, vec![true]), att(9, 7, 0, vec![true])],
    );
    let roots = vec![(h(7), 9)];
    let committees = vec![committees_at(9, vec![vec![5]])];
    let (votes, error) = block_votes(&block, &roots, &committees);
    assert_eq!(votes.len(), 1);
    assert_eq!(error, Some(VoteError::MissingCommittees { slot: 8 }));
    assert_eq!(error.unwrap().message(), "No committees are known at slot 8");
}

#[test]
fn committee_index_beyond_the_slot_is_an_error() {
    let block = consolidated(10, vec![att(9, 7, 2, vec![true])]);
    let roots = vec![(h(7), 9)];
    let committees = vec![committees_at(9, vec![vec![5], vec![6]])];
    let (votes, error) = block_votes(&block, &roots, &committees);
    assert!(votes.is_empty());
    assert_eq!(error, Some(VoteError::CommitteeOutOfBound { index: 2, slot: 9 }));
    assert_eq!(
        error.unwrap().message(),
        "The attestation '2' is out of bound of committees at slot 9"
    );
}

#[test]
fn bits_that_do_not_match_the_committee_count_no_validator() {
    let block = consolidated(10, vec![att(9, 7, 0, vec![true])]);
    let roots = vec![(h(7), 9)];
    let committees = vec![committees_at(9, vec![vec![5, 6]])];
    let (votes, _) = block_votes(&block, &roots, &committees);
    assert!(votes[0].1.validators.is_empty());
}

#[test]
fn votes_cache_counts_validators_per_slot() {
    let mut cache = VotesCache::new();
    let vote = |n: Vec<u64>| VoteModel { slot: 1, included_in: 2, committee_index: 0, validators: n };
    cache.add(4, vote(vec![1, 2]));
    cache.add(5, vote(vec![3]));
    cache.add(4, vote(vec![7, 8, 9]));
    assert_eq!(cache.get(4).map(|v| v.len()), Some(2));
    assert_eq!(cache.take_dirty_counts(), vec![(4, 5), (5, 1)]);
    assert_eq!(cache.take_dirty_counts(), vec![]);
    assert_eq!(count_votes(&vec![vote(vec![1]), vote(vec![])]), 1);
    assert!(cache.get(6).is_none());
}

#[test]
fn persisting_a_block_counts_its_votes() {
    let clock = Clock::new(1000, 12);
    let block = consolidated(10, vec![att(9, 7, 0, vec![true, true]), att(8, 6, 0, vec![true, false])]);
    let roots = vec![(h(7), 9), (h(6), 8)];
    let committees = vec![committees_at(9, vec![vec![5, 6]]), committees_at(8, vec![vec![1, 2]])];
    let mut cache = VotesCache::new();
    let (rows, update) = persist_block(&block, &clock, &roots, &committees, &mut cache);
    assert_eq!(rows.block.id, 10);
    assert_eq!(rows.block.model.timestamp, 1120);
    assert_eq!(rows.block.model.status, "Proposed");
    assert_eq!(rows.block.model.attestations_count, 2);
    assert_eq!(rows.attestations.model.len(), 2);
    assert_eq!(rows.committees.model.len(), 1);
    assert_eq!(rows.root.as_ref().map(|r| r.model.slot), Some(10));
    let update = update.unwrap();
    assert_eq!(update.counts, vec![(9, 2), (8, 1)]);
    assert_eq!(update.blocks_meta.count, 11);
}

#[test]
fn a_failed_vote_keeps_the_slots_to_rewrite() {
    let clock = Clock::new(0, 12);
    let block = consolidated(10, vec![att(9, 7, 0, vec![true]), att(3, 7, 0, vec![true])]);
    let roots = vec![(h(7), 9)];
    let committees = vec![committees_at(9, vec![vec![5]])];
    let mut cache = VotesCache::new();
    let (_, update) = persist_block(&block, &clock, &roots, &committees, &mut cache);
    assert_eq!(update.err(), Some(VoteError::MissingCommittees { slot: 3 }));
    assert_eq!(cache.take_dirty_counts(), vec![(9, 1)]);
}
