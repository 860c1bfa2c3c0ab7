use vstd::prelude::*;

use crate::assoc::{assoc_map, distinct_keys, find_key, lemma_assoc_dom, lemma_assoc_get, lemma_assoc_push, lemma_assoc_update};
use crate::primitives::Epoch;
use crate::types::consolidated_execution_layer_deposit::{
    ConsolidatedExecutionLayerDeposit, ExecutionLayerDepositModelWithId,
};
use crate::types::consolidated_validator::{
    validator_model_of, ConsolidatedValidator, Validator, ValidatorModel,
};

verus! {

/// What the validator worker is told.
pub enum ValidatorEvent {
    /// A deposit was made on the execution layer.
    NewDepositFromExecutionLayer(ConsolidatedExecutionLayerDeposit),
}

/// The stored validators, by index.
pub struct ValidatorsCache {
    entries: Vec<(u64, ValidatorModel)>,
}

impl ValidatorsCache {
    pub closed spec fn view_map(&self) -> Map<u64, ValidatorModel> {
        assoc_map(self.entries@)
    }

    pub closed spec fn wf(&self) -> bool {
        distinct_keys(self.entries@)
    }

    pub fn new() -> (c: Self)
        ensures
            c.wf(),
            c.view_map() == Map::<u64, ValidatorModel>::empty(),
    {
        ValidatorsCache { entries: Vec::new() }
    }

    /// Sets the stored form of a validator, replacing any earlier one.
    pub fn update_or_insert(&mut self, index: u64, model: ValidatorModel)
        requires
            old(self).wf(),
        ensures
            final(self).wf(),
            final(self).view_map() == old(self).view_map().insert(index, model),
    {
        let ghost before = self.entries@;
        proof {
            lemma_assoc_dom(before, index);
        }
        match find_key(&self.entries, index) {
            Some(i) => {
                self.entries.set(i, (index, model));
                proof {
                    lemma_assoc_update(before, i as int, model);
                }
            },
            None => {
                self.entries.push((index, model));
                proof {
                    lemma_assoc_push(before, index, model);
                }
            },
        }
    }

    /// The stored form of a validator, if any.
    pub fn get(&self, index: u64) -> (r: Option<&ValidatorModel>)
        requires
            self.wf(),
        ensures
            match r {
                Some(m) => self.view_map().dom().contains(index) && *m == self.view_map()[index],
                None => !self.view_map().dom().contains(index),
            },
    {
        proof {
            lemma_assoc_dom(self.entries@, index);
        }
        match find_key(&self.entries, index) {
            Some(i) => {
                proof {
                    lemma_assoc_get(self.entries@, i as int);
                }
                Some(&self.entries[i].1)
            },
            None => None,
        }
    }
}

/// For each validator, the indexes of its execution-layer deposits.
pub struct ValidatorsExtendedCache {
    entries: Vec<(u64, Vec<u64>)>,
}

impl ValidatorsExtendedCache {
    pub closed spec fn view_map(&self) -> Map<u64, Set<u64>> {
        Map::new(
            |k: u64| assoc_map(self.entries@).dom().contains(k),
            |k: u64| assoc_map(self.entries@)[k]@.to_set(),
        )
    }

    pub closed spec fn wf(&self) -> bool {
        &&& distinct_keys(self.entries@)
        &&& forall|i: int| 0 <= i < self.entries@.len() ==> (#[trigger] self.entries@[i]).1@.no_duplicates()
    }

    pub fn new() -> (c: Self)
        ensures
            c.wf(),
            c.view_map() == Map::<u64, Set<u64>>::empty(),
    {
        let c = ValidatorsExtendedCache { entries: Vec::new() };
        assert(c.view_map() =~= Map::<u64, Set<u64>>::empty());
        c
    }

    /// The deposits of a validator, each once.
    pub fn get(&self, index: u64) -> (r: Option<&Vec<u64>>)
        requires
            self.wf(),
        ensures
            match r {
                Some(d) => self.view_map().dom().contains(index) && d@.to_set() == self.view_map()[index]
                    && d@.no_duplicates(),
                None => !self.view_map().dom().contains(index),
            },
    {
        proof {
            lemma_assoc_dom(self.entries@, index);
        }
        match find_key(&self.entries, index) {
            Some(i) => {
                proof {
                    lemma_assoc_get(self.entries@, i as int);
                    assert(self.entries@[i as int].1@.no_duplicates());
                }
                Some(&self.entries[i].1)
            },
            None => None,
        }
    }

    /// Adds a deposit to a validator's deposits, creating them where the validator has none.
    pub fn add_deposit(&mut self, index: u64, deposit: u64)
        requires
            old(self).wf(),
        ensures
            final(self).wf(),
            final(self).view_map() == old(self).view_map().insert(
                index,
                if old(self).view_map().dom().contains(index) {
                    old(self).view_map()[index].insert(deposit)
                } else {
                    set![deposit]
                },
            ),
    {
        let ghost before = self.entries@;
        proof {
            lemma_assoc_dom(before, index);
        }
        match find_key(&self.entries, index) {
            Some(i) => {
                let mut list = Vec::new();
                std::mem::swap(&mut list, &mut self.entries[i].1);
                proof {
                    lemma_assoc_get(before, i as int);
                    assert(list@ == before[i as int].1@);
                    assert(list@.no_duplicates());
                }
                let mut k: usize = 0;
                let mut present = false;
                while k < list.len()
                    invariant
                        k <= list@.len(),
                        present <==> exists|j: int| 0 <= j < k && list@[j] == deposit,
                    decreases list@.len() - k,
                {
                    if list[k] == deposit {
                        present = true;
                    }
                    k = k + 1;
                }
                let ghost l0 = list@;
                if !present {
                    list.push(deposit);
                    proof {
                        assert forall|a: int, b: int| 0 <= a < b < list@.len() implies list@[a] != list@[b] by {
                            if b == list@.len() - 1 {
                                assert(list@[a] == l0[a]);
                            } else {
                                assert(list@[a] == l0[a] && list@[b] == l0[b]);
                            }
                        }
                        assert(list@ == l0.push(deposit));
                        assert forall|x: u64| list@.to_set().contains(x) <==> l0.to_set().insert(deposit).contains(x) by {
                            if x != deposit && list@.contains(x) {
                                let j = choose|j: int| 0 <= j < list@.len() && list@[j] == x;
                                assert(l0[j] == x);
                            }
                            if x == deposit {
                                assert(list@[l0.len() as int] == x);
                            }
                            if l0.contains(x) {
                                let j = choose|j: int| 0 <= j < l0.len() && l0[j] == x;
                                assert(list@[j] == x);
                            }
                        }
                        assert(list@.to_set() =~= l0.to_set().insert(deposit));
                    }
                } else {
                    proof {
                        let j = choose|j: int| 0 <= j < k && list@[j] == deposit;
                        assert(l0[j] == deposit);
                        assert(l0.contains(deposit));
                        assert(list@.to_set() =~= l0.to_set().insert(deposit));
                    }
                }
                let ghost new_list = list@;
                self.entries.set(i, (index, list));
                proof {
                    assert(self.entries@ =~= before.update(i as int, (before[i as int].0, self.entries@[i as int].1)));
                    lemma_assoc_update(before, i as int, self.entries@[i as int].1);
                    assert forall|j: int| 0 <= j < self.entries@.len() implies (#[trigger] self.entries@[j]).1@.no_duplicates() by {
                        if j != i {
                            assert(self.entries@[j] == before[j]);
                        }
                    }
                    assert(new_list.to_set() =~= l0.to_set().insert(deposit));
                    assert(assoc_map(self.entries@) == assoc_map(before).insert(index, self.entries@[i as int].1));
                    assert(self.entries@[i as int].1@ == new_list);
                    assert(assoc_map(before)[index]@ == l0);
                    assert(old(self).view_map()[index] == l0.to_set());
                    assert(self.view_map() =~= old(self).view_map().insert(
                        index,
                        old(self).view_map()[index].insert(deposit),
                    ));
                }
            },
            None => {
                let mut list = Vec::new();
                list.push(deposit);
                self.entries.push((index, list));
                proof {
                    lemma_assoc_push(before, index, self.entries@.last().1);
                    assert forall|j: int| 0 <= j < self.entries@.len() implies (#[trigger] self.entries@[j]).1@.no_duplicates() by {
                        if j < before.len() {
                            assert(self.entries@[j] == before[j]);
                        }
                    }
                    assert(self.entries@.last().1@ == seq![deposit]);
                    assert forall|x: u64| seq![deposit].to_set().contains(x) <==> set![deposit].contains(x) by {
                        if x == deposit {
                            assert(seq![deposit][0] == x);
                        }
                    }
                    assert(self.entries@.last().1@.to_set() =~= set![deposit]);
                    assert(self.view_map() =~= old(self).view_map().insert(index, set![deposit]));
                }
            },
        }
    }
}

/// Handles a deposit made on the execution layer: its row is always stored; where the
/// beacon state holds its validator (with a balance), the validator's row is set to the
/// validator as seen at the current epoch and the deposit is added to the validator's
/// deposits. Gives the deposit's row and whether the validator was found.
pub fn handle_validator_event(
    event: &ValidatorEvent,
    state_validator: Option<(Validator, u64)>,
    current_epoch: Epoch,
    far_future_epoch: Epoch,
    validators: &mut ValidatorsCache,
    extended: &mut ValidatorsExtendedCache,
) -> (r: (ExecutionLayerDepositModelWithId, bool))
    requires
        old(validators).wf(),
        old(extended).wf(),
    ensures
        final(validators).wf(),
        final(extended).wf(),
        ({
            let ValidatorEvent::NewDepositFromExecutionLayer(deposit) = *event;
            &&& deposit.is_model(r.0)
            &&& r.1 == state_validator is Some
            &&& match state_validator {
                Some((v, balance)) => {
                    &&& final(validators).view_map().dom() == old(validators).view_map().dom().insert(deposit.validator_index)
                    &&& forall|k: u64| k != deposit.validator_index && old(validators).view_map().dom().contains(k)
                        ==> final(validators).view_map()[k] == old(validators).view_map()[k]
                    &&& validator_model_of(
                        v,
                        current_epoch,
                        balance,
                        far_future_epoch,
                        final(validators).view_map()[deposit.validator_index],
                    )
                    &&& final(extended).view_map() == old(extended).view_map().insert(
                        deposit.validator_index,
                        if old(extended).view_map().dom().contains(deposit.validator_index) {
                            old(extended).view_map()[deposit.validator_index].insert(deposit.index)
                        } else {
                            set![deposit.index]
                        },
                    )
                },
                None => {
                    &&& final(validators).view_map() == old(validators).view_map()
                    &&& final(extended).view_map() == old(extended).view_map()
                },
            }
        }),
{
    let ValidatorEvent::NewDepositFromExecutionLayer(deposit) = event;
    let row = deposit.to_model();
    match state_validator {
        Some((validator, balance)) => {
            let consolidated = ConsolidatedValidator::new(validator, current_epoch, balance);
            let model = consolidated.to_model(far_future_epoch);
            validators.update_or_insert(deposit.validator_index, model);
            extended.add_deposit(deposit.validator_index, deposit.index);
            (row, true)
        },
        None => (row, false),
    }
}

} // verus!
