use indexer::cli::{Cli, Commands};
use indexer::ord_epoch::OrderableEpoch;
use indexer::orderable::{sort_by_ordering, Orderable};
use indexer::persistable::{PersistError, Persistable, PersistedFile};
use indexer::persistable_binary_heap::{ranked_index_files, PersistableBinaryHeap};
use indexer::persistable_collection::{PersistableCollection, PersistableEpochField};
use indexer::persistable_fields::{
    EpochAttestationsCount, EpochAttesterSlashingsCount, EpochDepositsCount, EpochEligibleEther,
    EpochProposerSlashingsCount, EpochVotedEther, PersistableField,
};
use indexer::persisting_path::PersistingPath;
use indexer::types::consolidated_block::{BlockModel, BlockModelWithId};
use indexer::types::consolidated_epoch::{EpochExtendedModel, EpochExtendedModelWithId, EpochModel, EpochModelWithId};
use indexer::types::meta::{BlocksMeta, EpochsMeta, ValidatorsMeta};
use indexer::types::model::Model;

fn epoch(id: u64, attestations: usize, deposits: usize, eligible: u64, voted: u64) -> EpochModelWithId {
    EpochModelWithId {
        id,
        model: EpochModel {
            timestamp: 0,
            proposed_blocks_count: 0,
            missed_blocks_count: 0,
            orphaned_blocks_count: 0,
            proposer_slashings_count: id as usize % 3,
            attester_slashings_count: id as usize % 5,
            attestations_count: attestations,
            deposits_count: deposits,
            eligible_ether: eligible,
            voted_ether: voted,
        },
    }
}

fn files_of(r: Result<Vec<PersistedFile>, PersistError>) -> Vec<(String, Vec<u8>)> {
    r.unwrap().into_iter().map(|f| (f.path, f.bytes)).collect()
}

#[test]
fn heap_ranks_ids_by_value_in_one_file() {
    let mut heap = PersistableBinaryHeap::new("attestations_count".to_string(), EpochAttestationsCount);
    heap.insert(&epoch(5, 2, 0, 0, 0));
    heap.insert(&epoch(7, 1, 0, 0, 0));
    heap.insert(&epoch(9, 3, 0, 0, 0));
    let files = files_of(heap.persist("data"));
    assert_eq!(files, vec![("data/s/attestations_count/1.msg".to_string(), vec![0x93, 7, 5, 9])]);
}

#[test]
fn heap_splits_into_runs_of_ten() {
    let mut heap = PersistableBinaryHeap::new("deposits_count".to_string(), EpochDepositsCount);
    let epochs: Vec<EpochModelWithId> = (0..12u64).map(|i| epoch(i, 0, (11 - i) as usize, 0, 0)).collect();
    heap.append(&epochs);
    let files = files_of(heap.persist("base/epochs"));
    assert_eq!(files.len(), 2);
    assert_eq!(files[0].0, "base/epochs/s/deposits_count/1.msg");
    assert_eq!(files[0].1, vec![0x9a, 11, 10, 9, 8, 7, 6, 5, 4, 3, 2]);
    assert_eq!(files[1].0, "base/epochs/s/deposits_count/2.msg");
    assert_eq!(files[1].1, vec![0x92, 1, 0]);
}

#[test]
fn heap_encodes_large_ids_in_their_shortest_form() {
    let mut heap = PersistableBinaryHeap::new("eligible_ether".to_string(), EpochEligibleEther);
    heap.insert(&epoch(200, 0, 0, 1, 0));
    heap.insert(&epoch(300, 0, 0, 2, 0));
    heap.insert(&epoch(70000, 0, 0, 3, 0));
    heap.insert(&epoch(5_000_000_000, 0, 0, 4, 0));
    let files = files_of(heap.persist("d"));
    assert_eq!(
        files[0].1,
        vec![
            0x94, 0xcc, 200, 0xcd, 0x01, 0x2c, 0xce, 0x00, 0x01, 0x11, 0x70, 0xcf, 0x00, 0x00, 0x00,
            0x01, 0x2a, 0x05, 0xf2, 0x00,
        ]
    );
}

#[test]
fn empty_heap_has_no_file() {
    let heap = PersistableBinaryHeap::new("voted_ether".to_string(), EpochVotedEther);
    assert!(files_of(heap.persist("d")).is_empty());
}

#[test]
fn field_values_carry_the_epoch_id() {
    let e = epoch(42, 3, 4, 100, 60);
    assert_eq!(EpochAttestationsCount.get_value(&e).ordering, 3);
    assert_eq!(EpochDepositsCount.get_value(&e).ordering, 4);
    assert_eq!(EpochEligibleEther.get_value(&e).ordering, 100);
    assert_eq!(EpochVotedEther.get_value(&e).ordering, 60);
    assert_eq!(EpochAttesterSlashingsCount.get_value(&e).ordering, 2);
    assert_eq!(EpochProposerSlashingsCount.get_value(&e).ordering, 0);
    assert_eq!(EpochVotedEther.get_value(&e).epoch, 42);
    assert_eq!(EpochAttestationsCount::field_name(), "attestations_count");
    assert_eq!(EpochProposerSlashingsCount::field_name(), "proposer_slashings_count");
}

#[test]
fn epoch_fields_build_two_indexes() {
    let mut fields = PersistableEpochField::build();
    assert_eq!(fields.len(), 2);
    for f in fields.iter_mut() {
        f.insert(&epoch(1, 8, 9, 0, 0));
    }
    let second = fields.pop().unwrap();
    let first = fields.pop().unwrap();
    assert_eq!(files_of(first.persist("x"))[0], ("x/s/attestations_count/1.msg".to_string(), vec![0x91, 1]));
    assert_eq!(files_of(second.persist("x"))[0], ("x/s/deposits_count/1.msg".to_string(), vec![0x91, 1]));
}

#[test]
fn orderables_are_equal_by_id_and_ordered_by_value() {
    let a = Orderable::from((1, 10));
    let b = Orderable { epoch: 1, ordering: 20 };
    let c = Orderable { epoch: 2, ordering: 10 };
    assert!(a == b);
    assert!(a != c);
    assert!(a < b);
    assert_eq!(a.partial_cmp(&c), Some(std::cmp::Ordering::Equal));
    let e = OrderableEpoch::from((-3, 5));
    assert_eq!(e.epoch, -3);
    assert!(e < OrderableEpoch { epoch: 4, ordering: 6 });
    assert!(e == OrderableEpoch { epoch: -3, ordering: 0 });
}

#[test]
fn sorting_keeps_every_value() {
    let v = vec![
        Orderable { epoch: 1, ordering: 5 },
        Orderable { epoch: 2, ordering: 1 },
        Orderable { epoch: 3, ordering: 5 },
        Orderable { epoch: 4, ordering: 0 },
    ];
    let s = sort_by_ordering(v);
    let orderings: Vec<u64> = s.iter().map(|o| o.ordering).collect();
    assert_eq!(orderings, vec![0, 1, 5, 5]);
    let mut ids: Vec<u64> = s.iter().map(|o| o.epoch).collect();
    ids.sort();
    assert_eq!(ids, vec![1, 2, 3, 4]);
}

#[test]
fn paths_of_stored_values() {
    assert_eq!(epoch(12, 0, 0, 0, 0).to_path(), "epochs/12.msg");
    let ext = EpochExtendedModelWithId {
        id: 7,
        model: EpochExtendedModel {
            voluntary_exits_count: 0,
            validators_count: 1,
            average_validator_balance: 1,
            total_validator_balance: 1,
        },
    };
    assert_eq!(ext.to_path(), "epochs/e/7.msg");
    let block = BlockModelWithId {
        id: 0,
        model: BlockModel {
            epoch: 0,
            timestamp: 0,
            proposer_slashings_count: 0,
            attester_slashings_count: 0,
            attestations_count: 0,
            deposits_count: 0,
            voluntary_exits_count: 0,
            proposer: 0,
            status: "Proposed".to_string(),
        },
    };
    assert_eq!(block.to_path(), "blocks/0.msg");
    assert_eq!(EpochsMeta::new(3).to_path(), "epochs/meta.msg");
    assert_eq!(BlocksMeta::new(3).to_path(), "blocks/meta.msg");
    assert_eq!(ValidatorsMeta::new(3).to_path(), "validators/meta.msg");
    assert_eq!(block.get_id(), "0");
    assert_eq!(BlockModelWithId::get_path(), "blocks");
    assert_eq!(epoch(123456789, 0, 0, 0, 0).get_id(), "123456789");
    assert_eq!(EpochModelWithId::get_path(), "epochs");
    assert_eq!(EpochsMeta::new(1).get_id(), "meta");
    assert_eq!(ValidatorsMeta::get_path(), "validators");
    assert_eq!(BlocksMeta::get_path(), "blocks");
    assert_eq!(EpochsMeta::new(9).count, 9);
}

#[test]
fn cli_values() {
    let cli = Cli {
        command: Commands::BuildDatabase { reset: true, dry: false },
        base_dir: "../web/public/data".to_string(),
        execution_node_url: "http://localhost:8545".to_string(),
    };
    assert_eq!(cli.command, Commands::BuildDatabase { reset: true, dry: false });
    assert!(cli.command != Commands::UpdateIndexes);
}

#[test]
fn appending_is_inserting_in_order() {
    let epochs: Vec<EpochModelWithId> = (0..13u64).map(|i| epoch(i, (i * 7 % 5) as usize, 0, 0, 0)).collect();
    let mut appended = PersistableBinaryHeap::new("attestations_count".to_string(), EpochAttestationsCount);
    appended.append(&epochs);
    let mut inserted = PersistableBinaryHeap::new("attestations_count".to_string(), EpochAttestationsCount);
    for e in &epochs {
        inserted.insert(e);
    }
    assert_eq!(files_of(appended.persist("d")), files_of(inserted.persist("d")));
    let mut untouched = PersistableBinaryHeap::new("attestations_count".to_string(), EpochAttestationsCount);
    untouched.append(&vec![]);
    assert!(files_of(untouched.persist("d")).is_empty());
}

#[test]
fn ranked_ids_go_into_runs_of_ten() {
    let ids: Vec<u64> = (100..111u64).rev().collect();
    let files = files_of(ranked_index_files(&ids, "d", &"global_participation_rate".to_string()));
    assert_eq!(files.len(), 2);
    assert_eq!(files[0].0, "d/s/global_participation_rate/1.msg");
    assert_eq!(files[0].1, vec![0x9a, 110, 109, 108, 107, 106, 105, 104, 103, 102, 101]);
    assert_eq!(files[1], ("d/s/global_participation_rate/2.msg".to_string(), vec![0x91, 100]));
    assert!(files_of(ranked_index_files(&vec![], "d", &"x".to_string())).is_empty());
}
