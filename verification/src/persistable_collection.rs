use vstd::prelude::*;

use vstd::multiset::Multiset;

use crate::orderable::Orderable;
use crate::persistable::{PersistError, PersistedFile, Persistable};
use crate::persistable_binary_heap::{field_values, lemma_empty_to_multiset, PersistableBinaryHeap};
use crate::persistable_fields::{EpochAttestationsCount, EpochDepositsCount, PersistableField};
use crate::types::consolidated_epoch::EpochModelWithId;

verus! {

/// A collection that gathers models one by one and is then stored.
pub trait PersistableCollection<I>: Persistable {
    /// Takes in one model.
    fn insert(&mut self, indexable: &I);

    /// Takes in each model of the list, in order.
    fn append(&mut self, indexables: &Vec<I>);
}

/// The values held after taking in `vals` one by one, in their order.
pub open spec fn inserted_in_order(h: Multiset<Orderable>, vals: Seq<Orderable>) -> Multiset<Orderable>
    decreases vals.len(),
{
    if vals.len() == 0 {
        h
    } else {
        inserted_in_order(h, vals.drop_last()).insert(vals.last())
    }
}

/// Adding a list of values at once is inserting them one by one, in their order; adding
/// none changes nothing.
pub proof fn lemma_add_is_inserts(h: Multiset<Orderable>, vals: Seq<Orderable>)
    ensures
        h.add(vals.to_multiset()) == inserted_in_order(h, vals),
        vals.len() == 0 ==> h.add(vals.to_multiset()) == h,
    decreases vals.len(),
{
    broadcast use vstd::multiset::group_multiset_axioms;

    if vals.len() == 0 {
        lemma_empty_to_multiset(vals);
        assert(h.add(vals.to_multiset()) =~= h);
    } else {
        let p = vals.drop_last();
        lemma_add_is_inserts(h, p);
        assert(vals =~= p.push(vals.last()));
        vstd::seq_lib::to_multiset_build(p, vals.last());
        assert(h.add(vals.to_multiset()) =~= h.add(p.to_multiset()).insert(vals.last()));
    }
}

/// On a ranked index, appending a list of models has the effect of inserting them one by
/// one, in their order: the `i`-th insert adds the value of the `i`-th model, and appending
/// an empty list changes nothing.
pub proof fn lemma_heap_append_is_inserts<M, F: PersistableField<M>>(h: PersistableBinaryHeap<F>, v: Seq<M>)
    ensures
        h@.add(field_values::<M, F>(v).to_multiset()) == inserted_in_order(h@, field_values::<M, F>(v)),
        forall|i: int| 0 <= i < v.len() ==> #[trigger] field_values::<M, F>(v)[i] == F::value_of(v[i]),
        field_values::<M, F>(v).len() == v.len(),
        v.len() == 0 ==> h@.add(field_values::<M, F>(v).to_multiset()) == h@,
{
    lemma_add_is_inserts(h@, field_values::<M, F>(v));
}

/// On an index of the epochs, appending a list of epochs has the effect of inserting them
/// one by one, in their order; appending an empty list changes nothing.
pub proof fn lemma_epoch_field_append_is_inserts(f: PersistableEpochField, v: Seq<EpochModelWithId>)
    ensures
        f.values().add(f.values_of(v).to_multiset()) == inserted_in_order(f.values(), f.values_of(v)),
        forall|i: int| 0 <= i < v.len() ==> #[trigger] f.values_of(v)[i] == f.value_of(v[i]),
        f.values_of(v).len() == v.len(),
        v.len() == 0 ==> f.values().add(f.values_of(v).to_multiset()) == f.values(),
{
    lemma_add_is_inserts(f.values(), f.values_of(v));
}

/// The ranked indexes kept of the epochs.
pub enum PersistableEpochField {
    AttestationsCount(PersistableBinaryHeap<EpochAttestationsCount>),
    DepositsCount(PersistableBinaryHeap<EpochDepositsCount>),
}

impl PersistableEpochField {
    /// The values held so far.
    pub open spec fn values(&self) -> Multiset<Orderable> {
        match self {
            PersistableEpochField::AttestationsCount(h) => h@,
            PersistableEpochField::DepositsCount(h) => h@,
        }
    }

    /// The value that one epoch adds.
    pub open spec fn value_of(&self, model: EpochModelWithId) -> Orderable {
        match self {
            PersistableEpochField::AttestationsCount(_) => EpochAttestationsCount::value_of(model),
            PersistableEpochField::DepositsCount(_) => EpochDepositsCount::value_of(model),
        }
    }

    /// The values that a list of epochs adds.
    pub open spec fn values_of(&self, s: Seq<EpochModelWithId>) -> Seq<Orderable> {
        match self {
            PersistableEpochField::AttestationsCount(_) => field_values::<EpochModelWithId, EpochAttestationsCount>(s),
            PersistableEpochField::DepositsCount(_) => field_values::<EpochModelWithId, EpochDepositsCount>(s),
        }
    }

    /// The name of the index.
    pub open spec fn name(&self) -> Seq<char> {
        match self {
            PersistableEpochField::AttestationsCount(h) => h.name(),
            PersistableEpochField::DepositsCount(h) => h.name(),
        }
    }

    /// One empty index by the number of attestations and one by the number of deposits.
    pub fn build() -> (v: Vec<Self>)
        ensures
            v@.len() == 2,
            v@[0] is AttestationsCount,
            v@[0].name() == "attestations_count"@,
            v@[0].values() == Multiset::<Orderable>::empty(),
            v@[1] is DepositsCount,
            v@[1].name() == "deposits_count"@,
            v@[1].values() == Multiset::<Orderable>::empty(),
    {
        let mut v: Vec<Self> = Vec::new();
        v.push(
            PersistableEpochField::AttestationsCount(
                PersistableBinaryHeap::new(
                    EpochAttestationsCount::field_name(),
                    EpochAttestationsCount,
                ),
            ),
        );
        v.push(
            PersistableEpochField::DepositsCount(
                PersistableBinaryHeap::new(EpochDepositsCount::field_name(), EpochDepositsCount),
            ),
        );
        v
    }
}

impl Persistable for PersistableEpochField {
    /// The files of the index it holds; an index without values gives no file and no error,
    /// and an error can come only where there are values to encode.
    fn persist(self, base_dir: &str) -> (r: Result<Vec<PersistedFile>, PersistError>)
        ensures
            r matches Ok(files) ==> match self {
                PersistableEpochField::AttestationsCount(h) => h.persisted_as(base_dir@, files@),
                PersistableEpochField::DepositsCount(h) => h.persisted_as(base_dir@, files@),
            },
            self.values().len() == 0 ==> (r matches Ok(files) && files@.len() == 0),
            r is Err ==> self.values().len() > 0,
            r matches Err(e) ==> e == PersistError::Encoding,
    {
        match self {
            PersistableEpochField::AttestationsCount(h) => h.persist(base_dir),
            PersistableEpochField::DepositsCount(h) => h.persist(base_dir),
        }
    }
}

impl PersistableCollection<EpochModelWithId> for PersistableEpochField {
    fn insert(&mut self, indexable: &EpochModelWithId)
        ensures
            final(self).values() == old(self).values().insert(old(self).value_of(*indexable)),
            final(self).name() == old(self).name(),
    {
        match self {
            PersistableEpochField::AttestationsCount(h) => h.insert(indexable),
            PersistableEpochField::DepositsCount(h) => h.insert(indexable),
        }
    }

    fn append(&mut self, indexables: &Vec<EpochModelWithId>)
        ensures
            final(self).values() == old(self).values().add(old(self).values_of(indexables@).to_multiset()),
            final(self).values() == inserted_in_order(old(self).values(), old(self).values_of(indexables@)),
            final(self).name() == old(self).name(),
    {
        proof {
            lemma_add_is_inserts(old(self).values(), old(self).values_of(indexables@));
        }
        match self {
            PersistableEpochField::AttestationsCount(h) => h.append(indexables),
            PersistableEpochField::DepositsCount(h) => h.append(indexables),
        }
    }
}

} // verus!
