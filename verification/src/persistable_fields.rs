use vstd::prelude::*;

use crate::orderable::Orderable;
use crate::types::consolidated_epoch::{EpochModel, EpochModelWithId};

verus! {

/// A field of a model by which the models are ranked in an index.
pub trait PersistableField<M> {
    /// The name of the field, which names the index.
    spec fn spec_field_name() -> Seq<char>;

    /// The model's id together with the field's value.
    spec fn value_of(model: M) -> Orderable;

    fn field_name() -> (name: String)
        ensures
            name@ == Self::spec_field_name(),
    ;

    fn get_value(&self, model: &M) -> (o: Orderable)
        ensures
            o == Self::value_of(*model),
    ;
}

/// Ranks epochs by the number of attestations.
pub struct EpochAttestationsCount;

impl PersistableField<EpochModelWithId> for EpochAttestationsCount {
    open spec fn spec_field_name() -> Seq<char> {
        "attestations_count"@
    }

    open spec fn value_of(model: EpochModelWithId) -> Orderable {
        Orderable { epoch: model.id, ordering: model.model.attestations_count as u64 }
    }

    fn field_name() -> (name: String) {
        String::from_str("attestations_count")
    }

    fn get_value(&self, model: &EpochModelWithId) -> (o: Orderable) {
        Orderable { epoch: model.id, ordering: model.model.attestations_count as u64 }
    }
}

/// Ranks epochs by the number of deposits.
pub struct EpochDepositsCount;

impl PersistableField<EpochModelWithId> for EpochDepositsCount {
    open spec fn spec_field_name() -> Seq<char> {
        "deposits_count"@
    }

    open spec fn value_of(model: EpochModelWithId) -> Orderable {
        Orderable { epoch: model.id, ordering: model.model.deposits_count as u64 }
    }

    fn field_name() -> (name: String) {
        String::from_str("deposits_count")
    }

    fn get_value(&self, model: &EpochModelWithId) -> (o: Orderable) {
        Orderable { epoch: model.id, ordering: model.model.deposits_count as u64 }
    }
}

/// Ranks epochs by the number of attester slashings.
pub struct EpochAttesterSlashingsCount;

impl PersistableField<EpochModelWithId> for EpochAttesterSlashingsCount {
    open spec fn spec_field_name() -> Seq<char> {
        "attester_slashings_count"@
    }

    open spec fn value_of(model: EpochModelWithId) -> Orderable {
        Orderable { epoch: model.id, ordering: model.model.attester_slashings_count as u64 }
    }

    fn field_name() -> (name: String) {
        String::from_str("attester_slashings_count")
    }

    fn get_value(&self, model: &EpochModelWithId) -> (o: Orderable) {
        Orderable { epoch: model.id, ordering: model.model.attester_slashings_count as u64 }
    }
}

/// Ranks epochs by the number of proposer slashings.
pub struct EpochProposerSlashingsCount;

impl PersistableField<EpochModelWithId> for EpochProposerSlashingsCount {
    open spec fn spec_field_name() -> Seq<char> {
        "proposer_slashings_count"@
    }

    open spec fn value_of(model: EpochModelWithId) -> Orderable {
        Orderable { epoch: model.id, ordering: model.model.proposer_slashings_count as u64 }
    }

    fn field_name() -> (name: String) {
        String::from_str("proposer_slashings_count")
    }

    fn get_value(&self, model: &EpochModelWithId) -> (o: Orderable) {
        Orderable { epoch: model.id, ordering: model.model.proposer_slashings_count as u64 }
    }
}

/// Ranks epochs by the ether eligible to vote.
pub struct EpochEligibleEther;

impl PersistableField<EpochModelWithId> for EpochEligibleEther {
    open spec fn spec_field_name() -> Seq<char> {
        "eligible_ether"@
    }

    open spec fn value_of(model: EpochModelWithId) -> Orderable {
        Orderable { epoch: model.id, ordering: model.model.eligible_ether }
    }

    fn field_name() -> (name: String) {
        String::from_str("eligible_ether")
    }

    fn get_value(&self, model: &EpochModelWithId) -> (o: Orderable) {
        Orderable { epoch: model.id, ordering: model.model.eligible_ether }
    }
}

/// Ranks epochs by the ether that voted.
pub struct EpochVotedEther;

impl PersistableField<EpochModelWithId> for EpochVotedEther {
    open spec fn spec_field_name() -> Seq<char> {
        "voted_ether"@
    }

    open spec fn value_of(model: EpochModelWithId) -> Orderable {
        Orderable { epoch: model.id, ordering: model.model.voted_ether }
    }

    fn field_name() -> (name: String) {
        String::from_str("voted_ether")
    }

    fn get_value(&self, model: &EpochModelWithId) -> (o: Orderable) {
        Orderable { epoch: model.id, ordering: model.model.voted_ether }
    }
}

} // verus!

verus! {

/// The field of an epoch row that a column name stands for, when it names a ranked field.
pub open spec fn named_epoch_field(m: EpochModel, name: Seq<char>) -> Option<u64> {
    if name == "attestations_count"@ {
        Some(m.attestations_count as u64)
    } else if name == "deposits_count"@ {
        Some(m.deposits_count as u64)
    } else if name == "attester_slashings_count"@ {
        Some(m.attester_slashings_count as u64)
    } else if name == "proposer_slashings_count"@ {
        Some(m.proposer_slashings_count as u64)
    } else if name == "eligible_ether"@ {
        Some(m.eligible_ether)
    } else if name == "voted_ether"@ {
        Some(m.voted_ether)
    } else {
        None
    }
}

/// Whether the field `F` ranks an epoch by the row's column that its name stands for,
/// the value carrying the epoch's id.
pub open spec fn ranks_by_named_field<F: PersistableField<EpochModelWithId>>(m: EpochModelWithId) -> bool {
    &&& named_epoch_field(m.model, F::spec_field_name()) is Some
    &&& F::value_of(m).epoch == m.id
    &&& F::value_of(m).ordering == named_epoch_field(m.model, F::spec_field_name())->Some_0
}

/// Each ranked field of the epochs ranks an epoch by the column of its own name (the number
/// of attestations for `attestations_count`, the proposer slashings for
/// `proposer_slashings_count`, and so on), and its values carry the epoch's id.
pub proof fn lemma_fields_rank_by_their_name(m: EpochModelWithId)
    ensures
        ranks_by_named_field::<EpochAttestationsCount>(m),
        ranks_by_named_field::<EpochDepositsCount>(m),
        ranks_by_named_field::<EpochAttesterSlashingsCount>(m),
        ranks_by_named_field::<EpochProposerSlashingsCount>(m),
        ranks_by_named_field::<EpochEligibleEther>(m),
        ranks_by_named_field::<EpochVotedEther>(m),
{
    reveal_strlit("attestations_count");
    reveal_strlit("deposits_count");
    reveal_strlit("attester_slashings_count");
    reveal_strlit("proposer_slashings_count");
    reveal_strlit("eligible_ether");
    reveal_strlit("voted_ether");
    assert("attester_slashings_count"@[6] != "attestations_count"@[6]);
    assert("attester_slashings_count"@ != "attestations_count"@);
    assert("attester_slashings_count"@[0] != "deposits_count"@[0]);
    assert("attester_slashings_count"@ != "deposits_count"@);
    assert("attester_slashings_count"@[0] != "proposer_slashings_count"@[0]);
    assert("deposits_count"@[0] != "eligible_ether"@[0]);
    assert("voted_ether"@[0] != "attestations_count"@[0]);
    assert("voted_ether"@ != "attestations_count"@);
    assert("voted_ether"@[0] != "deposits_count"@[0]);
    assert("voted_ether"@ != "deposits_count"@);
    assert("voted_ether"@[0] != "attester_slashings_count"@[0]);
    assert("voted_ether"@ != "attester_slashings_count"@);
    assert("voted_ether"@[0] != "proposer_slashings_count"@[0]);
    assert("voted_ether"@ != "proposer_slashings_count"@);
    assert("voted_ether"@[0] != "eligible_ether"@[0]);
    assert("voted_ether"@ != "eligible_ether"@);
}

} // verus!
