use vstd::prelude::*;

use crate::primitives::{Epoch, Hash256};
use crate::text::{hash_hex, hash_to_hex};

verus! {

/// A validator of the beacon state, reduced to what the indexer reads of it.
pub struct Validator {
    /// The textual form of the public key.
    pub pubkey: String,
    pub withdrawal_credentials: Hash256,
    pub effective_balance: u64,
    pub slashed: bool,
    pub activation_eligibility_epoch: Epoch,
    pub activation_epoch: Epoch,
    pub exit_epoch: Epoch,
    pub withdrawable_epoch: Epoch,
}

/// Where a validator stands at an epoch, as the beacon node API names it.
#[derive(Clone, Copy, Debug, PartialEq, Eq, Structural)]
pub enum ValidatorStatus {
    PendingInitialized,
    PendingQueued,
    ActiveOngoing,
    ActiveExiting,
    ActiveSlashed,
    ExitedUnslashed,
    ExitedSlashed,
    WithdrawalPossible,
    WithdrawalDone,
}

/// The status of a validator at `epoch`: withdrawable once its withdrawable epoch is
/// reached (done when nothing is left), exited between its exit and withdrawable epochs,
/// active between its activation and exit epochs (exiting once an exit is set, slashed
/// when slashed), and pending before that (initialized until it is eligible).
pub open spec fn spec_validator_status(v: Validator, epoch: Epoch, far_future_epoch: Epoch) -> ValidatorStatus {
    if epoch >= v.withdrawable_epoch {
        if v.effective_balance == 0 {
            ValidatorStatus::WithdrawalDone
        } else {
            ValidatorStatus::WithdrawalPossible
        }
    } else if v.exit_epoch <= epoch {
        if v.slashed {
            ValidatorStatus::ExitedSlashed
        } else {
            ValidatorStatus::ExitedUnslashed
        }
    } else if v.activation_epoch <= epoch {
        if v.exit_epoch < far_future_epoch {
            if v.slashed {
                ValidatorStatus::ActiveSlashed
            } else {
                ValidatorStatus::ActiveExiting
            }
        } else {
            ValidatorStatus::ActiveOngoing
        }
    } else if v.activation_eligibility_epoch == far_future_epoch {
        ValidatorStatus::PendingInitialized
    } else {
        ValidatorStatus::PendingQueued
    }
}

/// The name of a status.
pub open spec fn status_text(s: ValidatorStatus) -> Seq<char> {
    match s {
        ValidatorStatus::PendingInitialized => "pending_initialized"@,
        ValidatorStatus::PendingQueued => "pending_queued"@,
        ValidatorStatus::ActiveOngoing => "active_ongoing"@,
        ValidatorStatus::ActiveExiting => "active_exiting"@,
        ValidatorStatus::ActiveSlashed => "active_slashed"@,
        ValidatorStatus::ExitedUnslashed => "exited_unslashed"@,
        ValidatorStatus::ExitedSlashed => "exited_slashed"@,
        ValidatorStatus::WithdrawalPossible => "withdrawal_possible"@,
        ValidatorStatus::WithdrawalDone => "withdrawal_done"@,
    }
}

impl ValidatorStatus {
    pub fn from_validator(v: &Validator, epoch: Epoch, far_future_epoch: Epoch) -> (s: Self)
        ensures
            s == spec_validator_status(*v, epoch, far_future_epoch),
    {
        if epoch >= v.withdrawable_epoch {
            if v.effective_balance == 0 {
                ValidatorStatus::WithdrawalDone
            } else {
                ValidatorStatus::WithdrawalPossible
            }
        } else if v.exit_epoch <= epoch {
            if v.slashed {
                ValidatorStatus::ExitedSlashed
            } else {
                ValidatorStatus::ExitedUnslashed
            }
        } else if v.activation_epoch <= epoch {
            if v.exit_epoch < far_future_epoch {
                if v.slashed {
                    ValidatorStatus::ActiveSlashed
                } else {
                    ValidatorStatus::ActiveExiting
                }
            } else {
                ValidatorStatus::ActiveOngoing
            }
        } else if v.activation_eligibility_epoch == far_future_epoch {
            ValidatorStatus::PendingInitialized
        } else {
            ValidatorStatus::PendingQueued
        }
    }

    /// The name of the status, as its display gives it.
    pub fn to_string(&self) -> (s: String)
        ensures
            s@ == status_text(*self),
    {
        match self {
            ValidatorStatus::PendingInitialized => String::from_str("pending_initialized"),
            ValidatorStatus::PendingQueued => String::from_str("pending_queued"),
            ValidatorStatus::ActiveOngoing => String::from_str("active_ongoing"),
            ValidatorStatus::ActiveExiting => String::from_str("active_exiting"),
            ValidatorStatus::ActiveSlashed => String::from_str("active_slashed"),
            ValidatorStatus::ExitedUnslashed => String::from_str("exited_unslashed"),
            ValidatorStatus::ExitedSlashed => String::from_str("exited_slashed"),
            ValidatorStatus::WithdrawalPossible => String::from_str("withdrawal_possible"),
            ValidatorStatus::WithdrawalDone => String::from_str("withdrawal_done"),
        }
    }
}

/// An epoch, or none where it is the far-future epoch (not set).
pub open spec fn spec_epoch_option(epoch: Epoch, far_future_epoch: Epoch) -> Option<u64> {
    if epoch == far_future_epoch {
        None
    } else {
        Some(epoch)
    }
}

pub fn to_epoch_option(epoch: Epoch, far_future_epoch: Epoch) -> (r: Option<u64>)
    ensures
        r == spec_epoch_option(epoch, far_future_epoch),
{
    if epoch == far_future_epoch {
        None
    } else {
        Some(epoch)
    }
}

/// A validator as the indexer stores it.
pub struct ValidatorModel {
    pub pubkey: String,
    pub withdrawal_credentials: String,
    pub balance: u64,
    pub effective_balance: u64,
    pub slashed: bool,
    pub activation_eligibility_epoch: Option<u64>,
    pub activation_epoch: u64,
    pub exit_epoch: Option<u64>,
    pub withdrawable_epoch: Option<u64>,
    pub status: String,
}

/// A validator with its balance, as seen at an epoch.
pub struct ConsolidatedValidator {
    pub validator: Validator,
    pub current_epoch: Epoch,
    pub balance: u64,
}

/// Whether `m` stores the validator `v` with balance `balance`, as seen at `epoch`.
pub open spec fn validator_model_of(
    v: Validator,
    epoch: Epoch,
    balance: u64,
    far_future_epoch: Epoch,
    m: ValidatorModel,
) -> bool {
    &&& m.pubkey@ == v.pubkey@
    &&& m.withdrawal_credentials@ == hash_hex(v.withdrawal_credentials)
    &&& m.balance == balance
    &&& m.effective_balance == v.effective_balance
    &&& m.slashed == v.slashed
    &&& m.activation_eligibility_epoch == spec_epoch_option(v.activation_eligibility_epoch, far_future_epoch)
    &&& m.activation_epoch == v.activation_epoch
    &&& m.exit_epoch == spec_epoch_option(v.exit_epoch, far_future_epoch)
    &&& m.withdrawable_epoch == spec_epoch_option(v.withdrawable_epoch, far_future_epoch)
    &&& m.status@ == status_text(spec_validator_status(v, epoch, far_future_epoch))
}

impl ConsolidatedValidator {
    pub fn new(validator: Validator, current_epoch: Epoch, balance: u64) -> (c: Self)
        ensures
            c.validator == validator,
            c.current_epoch == current_epoch,
            c.balance == balance,
    {
        ConsolidatedValidator { validator, current_epoch, balance }
    }

    /// Where the validator stands at the current epoch.
    pub fn status(&self, far_future_epoch: Epoch) -> (s: ValidatorStatus)
        ensures
            s == spec_validator_status(self.validator, self.current_epoch, far_future_epoch),
    {
        ValidatorStatus::from_validator(&self.validator, self.current_epoch, far_future_epoch)
    }

    /// The validator as it is stored.
    pub fn to_model(&self, far_future_epoch: Epoch) -> (m: ValidatorModel)
        ensures
            validator_model_of(self.validator, self.current_epoch, self.balance, far_future_epoch, m),
    {
        let v = &self.validator;
        ValidatorModel {
            pubkey: v.pubkey.clone(),
            withdrawal_credentials: hash_to_hex(&v.withdrawal_credentials),
            balance: self.balance,
            effective_balance: v.effective_balance,
            slashed: v.slashed,
            activation_eligibility_epoch: to_epoch_option(v.activation_eligibility_epoch, far_future_epoch),
            activation_epoch: v.activation_epoch,
            exit_epoch: to_epoch_option(v.exit_epoch, far_future_epoch),
            withdrawable_epoch: to_epoch_option(v.withdrawable_epoch, far_future_epoch),
            status: self.status(far_future_epoch).to_string(),
        }
    }
}

} // verus!
